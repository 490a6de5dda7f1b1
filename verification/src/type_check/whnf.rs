//! Converts expressions to weak head normal form.
//!
//! Conversion rules: <https://coq.inria.fr/refman/language/core/conversion.html>
//!
//! Reduction need not come to an end, so it is bounded: every reduction step
//! that is nested in another counts against the limit of the database, and
//! reduction reports [`KernelError::ReductionLimit`] when the limit is used up.

use vstd::prelude::*;
use crate::database::Database;
use crate::error::KernelError;
use crate::expr::util::{instantiate_fits, instantiate_term};
use crate::expr::{Expression, ExpressionData};
use crate::files::{Path, Str};
use crate::globals::Global;
use crate::term::{Label, Term};
use crate::type_check::unfold::unfold_term;
use crate::vec_map::VecMap;

verus! {

broadcast use Expression::lemma_index;

/// `function` applied to each of `arguments` in turn.
pub open spec fn apply_all(function: Term, arguments: Seq<Term>) -> Term
    decreases arguments.len(),
{
    if arguments.len() == 0 {
        function
    } else {
        Term::apply(apply_all(function, arguments.drop_last()), arguments.last())
    }
}

/// The position of the first of `cases` from `from` on that is named
/// `variant`.
pub open spec fn first_case(cases: Seq<Str>, variant: Str, from: nat) -> Option<nat>
    decreases cases.len() - from,
{
    if from >= cases.len() {
        None
    } else if cases[from as int] == variant {
        Some(from)
    } else {
        first_case(cases, variant, from + 1)
    }
}

/// `t` reduced at its head by beta, zeta, match and fix reduction, without
/// unfolding definitions, within `fuel` nested steps.
///
/// - An application reduces its function first. If that gives a lambda, the
///   argument is put in the place of the bound variable; if it gives a fixed
///   point, the fixed point itself and then the argument are put into its
///   body. The result is reduced further.
/// - A let expression has its value put into its body, and the result is
///   reduced further.
/// - A match expression has its subject reduced to weak head normal form. If
///   that gives a value of an inductive type, the case named like its variant
///   is applied to the fields in order, and the result is reduced further.
/// - Any other term is its own result.
pub open spec fn whnf_core_term(env: Map<Path, Global>, t: Term, fuel: nat) -> Result<
    Term,
    KernelError,
>
    decreases fuel, 0nat,
{
    match t.label {
        Label::Apply => if t.children.len() != 2 {
            Ok(t)
        } else if fuel == 0 {
            Err(KernelError::ReductionLimit)
        } else {
            let right = t.children[1];
            match whnf_core_term(env, t.children[0], (fuel - 1) as nat) {
                Err(error) => Err(error),
                Ok(left) => match left.label {
                    Label::Lambda(_) => if left.children.len() != 2 {
                        Ok(Term::apply(left, right))
                    } else if !instantiate_fits(left.children[1], right) {
                        Err(KernelError::IndexOverflow)
                    } else {
                        whnf_core_term(
                            env,
                            instantiate_term(left.children[1], right),
                            (fuel - 1) as nat,
                        )
                    },
                    Label::Fix { .. } => if left.children.len() != 3 {
                        Ok(Term::apply(left, right))
                    } else if !instantiate_fits(left.children[2], left) {
                        Err(KernelError::IndexOverflow)
                    } else if !instantiate_fits(instantiate_term(left.children[2], left), right) {
                        Err(KernelError::IndexOverflow)
                    } else {
                        whnf_core_term(
                            env,
                            instantiate_term(instantiate_term(left.children[2], left), right),
                            (fuel - 1) as nat,
                        )
                    },
                    _ => Ok(Term::apply(left, right)),
                },
            }
        },
        Label::Let(_) => if t.children.len() != 2 {
            Ok(t)
        } else if fuel == 0 {
            Err(KernelError::ReductionLimit)
        } else if !instantiate_fits(t.children[1], t.children[0]) {
            Err(KernelError::IndexOverflow)
        } else {
            whnf_core_term(env, instantiate_term(t.children[1], t.children[0]), (fuel - 1) as nat)
        },
        Label::Match { cases } => if t.children.len() != 2 + cases.len() {
            Ok(t)
        } else if fuel == 0 {
            Err(KernelError::ReductionLimit)
        } else {
            match whnf_term(env, t.children[0], (fuel - 1) as nat) {
                Err(error) => Err(error),
                Ok(subject) => match subject.label {
                    Label::Intro { variant, parameters, fields, .. } => if subject.children.len()
                        != parameters + fields.len() {
                        Ok(Term { label: t.label, children: t.children.update(0, subject) })
                    } else {
                        match first_case(cases, variant, 0) {
                            None => Err(KernelError::MissingCase),
                            Some(i) => whnf_core_term(
                                env,
                                apply_all(
                                    t.children[2 + i as int],
                                    subject.children.skip(parameters as int),
                                ),
                                (fuel - 1) as nat,
                            ),
                        }
                    },
                    _ => Ok(Term { label: t.label, children: t.children.update(0, subject) }),
                },
            }
        },
        _ => Ok(t),
    }
}

/// The weak head normal form of `t`, within `fuel` nested steps: `t` is
/// reduced at its head, the definition at the head of the result is unfolded
/// if it is reducible, and so on until no definition is left to unfold.
pub open spec fn whnf_term(env: Map<Path, Global>, t: Term, fuel: nat) -> Result<Term, KernelError>
    decreases fuel, 1nat,
{
    match whnf_core_term(env, t, fuel) {
        Err(error) => Err(error),
        Ok(reduced) => match unfold_term(env, reduced) {
            None => Ok(reduced),
            Some(unfolded) => if fuel == 0 {
                Err(KernelError::ReductionLimit)
            } else {
                whnf_term(env, unfolded, (fuel - 1) as nat)
            },
        },
    }
}

/// Whether `r` is what `expected` says, in the database `db`: the same
/// error, or an expression that stands for the expected term.
pub open spec fn stands_for(
    db: &Database,
    r: Result<Expression, KernelError>,
    expected: Result<Term, KernelError>,
) -> bool {
    match r {
        Ok(e) => db.contains(e) && expected == Ok::<Term, KernelError>(db.term(e)),
        Err(error) => expected == Err::<Term, KernelError>(error),
    }
}

/// The position of the first case named `variant`.
fn find_case(cases: &VecMap<Str, Expression>, variant: Str) -> (r: Option<usize>)
    ensures
        match r {
            Some(i) => first_case(cases.keys(), variant, 0) == Some(i as nat) && i < cases@.len(),
            None => first_case(cases.keys(), variant, 0) is None,
        },
{
    let n = cases.len();
    let mut i: usize = 0;
    while i < n
        invariant
            n == cases@.len(),
            i <= n,
            first_case(cases.keys(), variant, 0) == first_case(cases.keys(), variant, i as nat),
        decreases n - i,
    {
        if cases.get(i).0 == variant {
            return Some(i);
        }
        i += 1;
    }
    None
}

/// `result` applied to each of `fields` in turn.
fn apply_fields(db: &mut Database, function: Expression, fields: &Vec<Expression>) -> (r:
    Expression)
    requires
        old(db).wf(),
        old(db).contains(function),
        old(db).contains_all(fields@),
    ensures
        final(db).wf(),
        final(db).extends(old(db)),
        final(db).contains(r),
        final(db).term(r) == apply_all(old(db).term(function), old(db).terms(fields@)),
{
    let n = fields.len();
    let mut result = function;
    let mut i: usize = 0;
    let ghost arguments = old(db).terms(fields@);
    while i < n
        invariant
            n == fields@.len(),
            i <= n,
            old(db).wf(),
            old(db).contains_all(fields@),
            arguments == old(db).terms(fields@),
            db.wf(),
            db.extends(old(db)),
            db.contains(result),
            db.term(result) == apply_all(old(db).term(function), arguments.take(i as int)),
        decreases n - i,
    {
        let field = fields[i];
        assert(old(db).contains(field));
        assert(arguments.take(i + 1).drop_last() =~= arguments.take(i as int));
        assert(arguments.take(i + 1).last() == old(db).term(field));
        result = Expression::new_apply(db, result, field);
        i += 1;
    }
    assert(arguments.take(n as int) =~= arguments);
    result
}

impl Expression {
    /// Reduces an expression to weak head normal form.
    ///
    /// Gives up when more reduction steps are nested than the limit of the
    /// database allows, when a substitution would produce an index that does
    /// not fit in 32 bits, and when a match expression has no case for its
    /// subject.
    pub fn weak_head_normal_form(self, db: &mut Database) -> (r: Result<Expression, KernelError>)
        requires
            old(db).wf(),
            old(db).contains(self),
        ensures
            final(db).wf(),
            final(db).extends(old(db)),
            stands_for(
                final(db),
                r,
                whnf_term(old(db).env(), old(db).term(self), old(db).limit() as nat),
            ),
            r matches Ok(e) ==> unfold_term(final(db).env(), final(db).term(e)) is None,
    {
        let fuel = db.reduction_limit();
        self.whnf(db, fuel)
    }

    /// Reduces an expression to weak head normal form within `fuel` nested
    /// steps.
    pub fn whnf(self, db: &mut Database, fuel: u64) -> (r: Result<Expression, KernelError>)
        requires
            old(db).wf(),
            old(db).contains(self),
        ensures
            final(db).wf(),
            final(db).extends(old(db)),
            stands_for(final(db), r, whnf_term(old(db).env(), old(db).term(self), fuel as nat)),
            r matches Ok(e) ==> unfold_term(final(db).env(), final(db).term(e)) is None,
        decreases fuel, 2nat,
    {
        proof {
            if whnf_term(db.env(), db.term(self), fuel as nat) is Ok {
                lemma_whnf_normal(db.env(), db.term(self), fuel as nat, 0);
            }
        }
        match self.whnf_core(db, fuel) {
            Err(error) => Err(error),
            Ok(reduced) => match reduced.unfold_definition(db) {
                None => Ok(reduced),
                Some(new) => if fuel == 0 {
                    Err(KernelError::ReductionLimit)
                } else {
                    new.whnf(db, fuel - 1)
                },
            },
        }
    }

    /// Tries to put an expression in weak head normal form, but does not perform delta reduction.
    pub fn whnf_core(self, db: &mut Database, fuel: u64) -> (r: Result<Expression, KernelError>)
        requires
            old(db).wf(),
            old(db).contains(self),
        ensures
            final(db).wf(),
            final(db).extends(old(db)),
            stands_for(
                final(db),
                r,
                whnf_core_term(old(db).env(), old(db).term(self), fuel as nat),
            ),
        decreases fuel, 1nat,
    {
        let ghost env = old(db).env();
        let ghost t = old(db).term(self);
        proof {
            db.lemma_term(self);
            db.data_of(self).lemma_arity();
        }
        match db.data(self) {
            ExpressionData::Apply { left, right } => {
                let left = *left;
                let right = *right;
                assert(db.data_of(self).children()[0] == left);
                assert(db.data_of(self).children()[1] == right);
                if fuel == 0 {
                    return Err(KernelError::ReductionLimit);
                }
                // Reduce the function to weak head normal form first.
                let left = match left.whnf_core(db, fuel - 1) {
                    Ok(left) => left,
                    Err(error) => {
                        return Err(error);
                    },
                };
                proof {
                    db.lemma_term(left);
                    db.data_of(left).lemma_arity();
                }
                match db.data(left) {
                    ExpressionData::Lambda(binder) => {
                        // If the function is a lambda, we can apply a beta-reduction to expand the lambda.
                        let body = binder.body;
                        assert(db.data_of(left).children()[1] == body);
                        match body.instantiate(db, right) {
                            Ok(instantiated) => instantiated.whnf_core(db, fuel - 1),
                            Err(error) => Err(error),
                        }
                    },
                    ExpressionData::Fix { body, .. } => {
                        // If the function is a fixpoint expression, we can apply a fix-reduction to expand it.
                        let body = *body;
                        assert(db.data_of(left).children()[2] == body);
                        let once = match body.instantiate(db, left) {
                            Ok(once) => once,
                            Err(error) => {
                                return Err(error);
                            },
                        };
                        match once.instantiate(db, right) {
                            Ok(instantiated) => instantiated.whnf_core(db, fuel - 1),
                            Err(error) => Err(error),
                        }
                    },
                    _ => Ok(Expression::new_apply(db, left, right)),
                }
            },
            ExpressionData::Let { to_assign, body, .. } => {
                let to_assign = *to_assign;
                let body = *body;
                assert(db.data_of(self).children()[0] == to_assign);
                assert(db.data_of(self).children()[1] == body);
                if fuel == 0 {
                    return Err(KernelError::ReductionLimit);
                }
                // We substitute the value into the body of the let expression, then continue to evaluate the expression.
                // This is called zeta-reduction.
                match body.instantiate(db, to_assign) {
                    Ok(instantiated) => instantiated.whnf_core(db, fuel - 1),
                    Err(error) => Err(error),
                }
            },
            ExpressionData::Match { subject, .. } => {
                let subject = *subject;
                assert(db.data_of(self).children()[0] == subject);
                if fuel == 0 {
                    return Err(KernelError::ReductionLimit);
                }
                // Reduce the major premise to weak head normal form first.
                let subject = match subject.whnf(db, fuel - 1) {
                    Ok(subject) => subject,
                    Err(error) => {
                        return Err(error);
                    },
                };
                self.reduce_match(db, subject, fuel)
            },
            _ => Ok(self),
        }
    }

    /// The rest of the reduction of the match expression `self`, whose
    /// subject has been reduced to `subject`.
    fn reduce_match(self, db: &mut Database, subject: Expression, fuel: u64) -> (r: Result<
        Expression,
        KernelError,
    >)
        requires
            old(db).wf(),
            old(db).contains(self),
            old(db).contains(subject),
            old(db).data_of(self) is Match,
            fuel > 0,
        ensures
            final(db).wf(),
            final(db).extends(old(db)),
            stands_for(
                final(db),
                r,
                match_step(old(db).env(), old(db).term(self), old(db).term(subject), fuel as nat),
            ),
        decreases fuel, 0nat,
    {
        proof {
            db.lemma_term(self);
            db.data_of(self).lemma_arity();
            db.lemma_term(subject);
            db.data_of(subject).lemma_arity();
        }
        let ghost t = db.term(self);
        let ghost s = db.term(subject);
        let found = match (db.data(self), db.data(subject)) {
            (ExpressionData::Match { cases, .. }, ExpressionData::Intro { variant, fields, parameters, .. }) => {
                // We can unfold this match expression.
                // This is called match-reduction.
                match find_case(cases, *variant) {
                    None => {
                        return Err(KernelError::MissingCase);
                    },
                    Some(i) => {
                        let result = cases.get(i).1;
                        let mut values: Vec<Expression> = Vec::new();
                        let n = fields.len();
                        let mut j: usize = 0;
                        while j < n
                            invariant
                                n == fields@.len(),
                                j <= n,
                                values@.len() == j,
                                forall|k: int| 0 <= k < j ==> values@[k] == fields@[k].1,
                            decreases n - j,
                        {
                            values.push(fields.get(j).1);
                            j += 1;
                        }
                        proof {
                            let children = db.data_of(subject).children();
                            assert(db.data_of(self).children()[2 + i] == result);
                            assert(db.contains(result));
                            assert forall|k: int| 0 <= k < values@.len() implies db.contains(
                                #[trigger] values@[k],
                            ) by {
                                assert(children[parameters@.len() + k] == values@[k]);
                            }
                            assert(db.terms(values@) =~= s.children.skip(
                                parameters@.len() as int,
                            )) by {
                                assert forall|k: int| 0 <= k < values@.len() implies db.terms(
                                    values@,
                                )[k] == s.children.skip(parameters@.len() as int)[k] by {
                                    assert(children[parameters@.len() + k] == values@[k]);
                                }
                            }
                        }
                        Some((result, values))
                    },
                }
            },
            _ => None,
        };
        match found {
            Some((result, values)) => {
                let applied = apply_fields(db, result, &values);
                applied.whnf_core(db, fuel - 1)
            },
            None => {
                let data = db.data(self);
                let count = data.child_count();
                let mut children: Vec<Expression> = Vec::new();
                children.push(subject);
                let mut k: usize = 1;
                while k < count
                    invariant
                        db.wf(),
                        db.contains(self),
                        db.contains(subject),
                        *data == db.data_of(self),
                        count == data.children().len(),
                        1 <= k <= count,
                        children@.len() == k,
                        children@[0] == subject,
                        forall|j: int| 1 <= j < k ==> children@[j] == data.children()[j],
                    decreases count - k,
                {
                    children.push(data.child(k));
                    k += 1;
                }
                let rebuilt = data.with_children(&children);
                proof {
                    assert forall|j: int| 0 <= j < children@.len() implies db.contains(
                        #[trigger] children@[j],
                    ) by {
                        if j > 0 {
                            assert(children@[j] == db.data_of(self).children()[j]);
                        }
                    }
                    assert(db.terms(children@) =~= t.children.update(0, s));
                }
                Ok(db.intern(rebuilt))
            },
        }
    }
}

/// What a match expression `t` reduces to once its subject has been reduced
/// to `subject`.
pub open spec fn match_step(env: Map<Path, Global>, t: Term, subject: Term, fuel: nat) -> Result<
    Term,
    KernelError,
>
    recommends
        fuel > 0,
{
    match subject.label {
        Label::Intro { variant, parameters, fields, .. } => if subject.children.len() != parameters
            + fields.len() {
            Ok(Term { label: t.label, children: t.children.update(0, subject) })
        } else {
            match first_case(t.label->Match_cases, variant, 0) {
                None => Err(KernelError::MissingCase),
                Some(i) => whnf_core_term(
                    env,
                    apply_all(t.children[2 + i as int], subject.children.skip(parameters as int)),
                    (fuel - 1) as nat,
                ),
            }
        },
        _ => Ok(Term { label: t.label, children: t.children.update(0, subject) }),
    }
}

/// Whether reducing `t` gives `t` back, unless the limit is reached first.
pub open spec fn unchanged(outcome: Result<Term, KernelError>, t: Term) -> bool {
    outcome == Ok::<Term, KernelError>(t) || outcome == Err::<Term, KernelError>(
        KernelError::ReductionLimit,
    )
}

/// What reduction at the head gives cannot be reduced at the head any
/// further: reducing it again gives it back, unless the limit is reached
/// first.
pub proof fn lemma_whnf_core_normal(env: Map<Path, Global>, t: Term, fuel: nat, again: nat)
    requires
        whnf_core_term(env, t, fuel) is Ok,
    ensures
        unchanged(whnf_core_term(env, whnf_core_term(env, t, fuel)->Ok_0, again), whnf_core_term(env, t, fuel)->Ok_0),
    decreases fuel, 0nat,
{
    let r = whnf_core_term(env, t, fuel)->Ok_0;
    let next = (fuel - 1) as nat;
    match t.label {
        Label::Apply => {
            if t.children.len() == 2 {
                let right = t.children[1];
                let left = whnf_core_term(env, t.children[0], next)->Ok_0;
                lemma_whnf_core_normal(env, t.children[0], next, (again - 1) as nat);
                let kept = Term::apply(left, right);
                if left.label is Lambda && left.children.len() == 2 {
                    lemma_whnf_core_normal(
                        env,
                        instantiate_term(left.children[1], right),
                        next,
                        again,
                    );
                } else if left.label is Fix && left.children.len() == 3 {
                    lemma_whnf_core_normal(
                        env,
                        instantiate_term(instantiate_term(left.children[2], left), right),
                        next,
                        again,
                    );
                } else {
                    assert(r == kept);
                    assert(kept.children[0] == left);
                    assert(kept.children[1] == right);
                }
            }
        },
        Label::Let(_) => {
            if t.children.len() == 2 {
                lemma_whnf_core_normal(
                    env,
                    instantiate_term(t.children[1], t.children[0]),
                    next,
                    again,
                );
            }
        },
        Label::Match { cases } => {
            if t.children.len() == 2 + cases.len() {
                let subject = whnf_term(env, t.children[0], next)->Ok_0;
                lemma_whnf_normal(env, t.children[0], next, (again - 1) as nat);
                let kept = Term { label: t.label, children: t.children.update(0, subject) };
                match subject.label {
                    Label::Intro { variant, parameters, fields, .. } => {
                        if subject.children.len() == parameters + fields.len() {
                            let i = first_case(cases, variant, 0)->0;
                            lemma_whnf_core_normal(
                                env,
                                apply_all(
                                    t.children[2 + i as int],
                                    subject.children.skip(parameters as int),
                                ),
                                next,
                                again,
                            );
                        } else {
                            assert(kept.children.update(0, subject) =~= kept.children);
                        }
                    },
                    _ => {
                        assert(kept.children.update(0, subject) =~= kept.children);
                    },
                }
            }
        },
        _ => {},
    }
}

/// A weak head normal form is in weak head normal form: no definition
/// stands at its head to be unfolded, and reducing it again gives it back,
/// unless the limit is reached first.
pub proof fn lemma_whnf_normal(env: Map<Path, Global>, t: Term, fuel: nat, again: nat)
    requires
        whnf_term(env, t, fuel) is Ok,
    ensures
        unfold_term(env, whnf_term(env, t, fuel)->Ok_0) is None,
        unchanged(whnf_term(env, whnf_term(env, t, fuel)->Ok_0, again), whnf_term(env, t, fuel)->Ok_0),
    decreases fuel, 1nat,
{
    let reduced = whnf_core_term(env, t, fuel)->Ok_0;
    lemma_whnf_core_normal(env, t, fuel, again);
    match unfold_term(env, reduced) {
        None => {},
        Some(unfolded) => {
            lemma_whnf_normal(env, unfolded, (fuel - 1) as nat, again);
        },
    }
}

} // verus!

//! Type inference.
//!
//! The type of an expression is inferred from the types of its parts. The
//! rules cover the core of the calculus: variables, universes, references to
//! definitions, function types, functions, applications and local
//! definitions. Every other expression is refused as unsupported, so that
//! nothing is certified that was not checked.

use vstd::prelude::*;
use crate::database::Database;
use crate::de_bruijn::{DeBruijnIndex, DeBruijnOffset};
use crate::error::KernelError;
use crate::expr::util::{instantiate_fits, instantiate_term, lift_fits, lift_term};
use crate::expr::{Binder, Expression, ExpressionData, Universe};
use crate::files::Path;
use crate::globals::Global;
use crate::term::{Label, Term};
use crate::type_check::defeq::defeq_term;
use crate::type_check::whnf::whnf_term;

verus! {

broadcast use {Expression::lemma_index, DeBruijnIndex::lemma_bounded};

/// Why an expression has no type. `T` is how expressions are given: as
/// handles by the type checker, and as terms where its results are stated.
#[derive(Clone, Copy, Debug, PartialEq, Eq)]
pub enum TypeError<T> {
    /// No definition was given at `path`.
    Undefined { path: Path },
    /// The expression refers to the definition at `path`, and there is no
    /// certified definition there.
    NotCertified { path: Path },
    /// The variable `term` is not bound by any binder.
    UnboundVariable { term: T },
    /// `term` must be a type, and its type `actual` is not a universe.
    ExpectedSort { term: T, actual: T },
    /// `term` is applied to an argument, and its type `actual` is not a
    /// function type.
    ExpectedFunction { term: T, actual: T },
    /// The argument `term` has type `actual`, where the function takes
    /// arguments of type `expected`.
    Mismatch { term: T, expected: T, actual: T },
    /// There is no typing rule for `term`.
    Unsupported { term: T },
    /// `term` is the highest universe that can be represented, so the
    /// universe that it lives in cannot be.
    UniverseOverflow { term: T },
    /// Reduction or substitution failed.
    Kernel { error: KernelError },
}

/// The error `error`, with the terms that its expressions stand for.
pub open spec fn error_terms(db: &Database, error: TypeError<Expression>) -> TypeError<Term> {
    match error {
        TypeError::Undefined { path } => TypeError::Undefined { path },
        TypeError::NotCertified { path } => TypeError::NotCertified { path },
        TypeError::UnboundVariable { term } => TypeError::UnboundVariable { term: db.term(term) },
        TypeError::ExpectedSort { term, actual } => TypeError::ExpectedSort {
            term: db.term(term),
            actual: db.term(actual),
        },
        TypeError::ExpectedFunction { term, actual } => TypeError::ExpectedFunction {
            term: db.term(term),
            actual: db.term(actual),
        },
        TypeError::Mismatch { term, expected, actual } => TypeError::Mismatch {
            term: db.term(term),
            expected: db.term(expected),
            actual: db.term(actual),
        },
        TypeError::Unsupported { term } => TypeError::Unsupported { term: db.term(term) },
        TypeError::UniverseOverflow { term } => TypeError::UniverseOverflow { term: db.term(term) },
        TypeError::Kernel { error } => TypeError::Kernel { error },
    }
}

/// Whether the expressions of `error` are expressions of the database.
pub open spec fn error_contained(db: &Database, error: TypeError<Expression>) -> bool {
    match error {
        TypeError::Undefined { .. } => true,
        TypeError::NotCertified { .. } => true,
        TypeError::UnboundVariable { term } => db.contains(term),
        TypeError::ExpectedSort { term, actual } => db.contains(term) && db.contains(actual),
        TypeError::ExpectedFunction { term, actual } => db.contains(term) && db.contains(actual),
        TypeError::Mismatch { term, expected, actual } => db.contains(term) && db.contains(
            expected,
        ) && db.contains(actual),
        TypeError::Unsupported { term } => db.contains(term),
        TypeError::UniverseOverflow { term } => db.contains(term),
        TypeError::Kernel { .. } => true,
    }
}

/// Whether `r` is what `expected` says, in the database `db`: an error that
/// stands for the expected one, or an expression that stands for the
/// expected term.
pub open spec fn typed_as(
    db: &Database,
    r: Result<Expression, TypeError<Expression>>,
    expected: Result<Term, TypeError<Term>>,
) -> bool {
    match r {
        Ok(e) => db.contains(e) && expected == Ok::<Term, TypeError<Term>>(db.term(e)),
        Err(error) => error_contained(db, error) && expected == Err::<Term, TypeError<Term>>(
            error_terms(db, error),
        ),
    }
}

/// Whether `r` is what `expected` says, in the database `db`: the expected
/// universe, or an error that stands for the expected one.
pub open spec fn sorted_as(
    db: &Database,
    r: Result<Universe, TypeError<Expression>>,
    expected: Result<Universe, TypeError<Term>>,
) -> bool {
    match r {
        Ok(u) => expected == Ok::<Universe, TypeError<Term>>(u),
        Err(error) => error_contained(db, error) && expected == Err::<Universe, TypeError<Term>>(
            error_terms(db, error),
        ),
    }
}

/// The definition that is being checked, where a reference to it is allowed:
/// its path and its type.
pub open spec fn own_term(db: &Database, own: Option<(Path, Expression)>) -> Option<(Path, Term)> {
    match own {
        Some((path, ty)) => Some((path, db.term(ty))),
        None => None,
    }
}

/// The type of the definition being checked, if `path` refers to it.
pub open spec fn own_type(own: Option<(Path, Term)>, path: Path) -> Option<Term> {
    match own {
        Some((own_path, ty)) => if own_path == path {
            Some(ty)
        } else {
            None
        },
        None => None,
    }
}

/// The higher of two universes.
pub open spec fn higher_universe(a: Universe, b: Universe) -> Universe {
    if a.0 >= b.0 {
        a
    } else {
        b
    }
}

/// The type of the variable `t` with the given index in the context `ctx`:
/// the type that the context holds for it, raised over the binders between
/// the variable and its binder.
pub open spec fn local_type(ctx: Seq<Term>, t: Term, index: nat) -> Result<Term, TypeError<Term>> {
    if index >= ctx.len() {
        Err(TypeError::UnboundVariable { term: t })
    } else if !lift_fits(ctx[ctx.len() - 1 - index], 0, index + 1) {
        Err(TypeError::Kernel { error: KernelError::IndexOverflow })
    } else {
        Ok(lift_term(ctx[ctx.len() - 1 - index], 0, index + 1))
    }
}

/// The type of `t` in the context `ctx`, which holds the types of the bound
/// variables with the innermost last, as far as `fuel` nested steps can tell.
///
/// - A variable has the type that the context gives it, raised over the
///   binders between the variable and its binder.
/// - A universe lives in the next universe.
/// - A reference to a definition has the type of the certified definition,
///   or that of `own` if it refers to the definition being checked.
/// - A function type lives in the higher of the universes of its parameter
///   type and of its result type.
/// - A function from a type `A` with a body of type `B` has the function
///   type from `A` to `B`.
/// - An application of a function of type `A -> B` to an argument whose type
///   is definitionally equal to `A` has type `B` with the argument in the
///   place of the parameter.
/// - A local definition has the type of its body with the value in the place
///   of the variable.
pub open spec fn infer_term(
    env: Map<Path, Global>,
    own: Option<(Path, Term)>,
    ctx: Seq<Term>,
    t: Term,
    fuel: nat,
) -> Result<Term, TypeError<Term>>
    decreases fuel, 0nat,
{
    let next = (fuel - 1) as nat;
    match t.label {
        Label::Local(index) => local_type(ctx, t, index),
        Label::Sort(universe) => if universe.0 < u32::MAX {
            Ok(Term::sort(Universe((universe.0 + 1) as u32)))
        } else {
            Err(TypeError::UniverseOverflow { term: t })
        },
        Label::Inst(path) => match own_type(own, path) {
            Some(ty) => Ok(ty),
            None => if env.dom().contains(path) {
                Ok(env[path].ty)
            } else {
                Err(TypeError::NotCertified { path })
            },
        },
        Label::Pi(_) => if t.children.len() != 2 {
            Err(TypeError::Unsupported { term: t })
        } else if fuel == 0 {
            Err(TypeError::Kernel { error: KernelError::ReductionLimit })
        } else {
            match infer_sort_term(env, own, ctx, t.children[0], next) {
                Err(error) => Err(error),
                Ok(from) => match infer_sort_term(
                    env,
                    own,
                    ctx.push(t.children[0]),
                    t.children[1],
                    next,
                ) {
                    Err(error) => Err(error),
                    Ok(to) => Ok(Term::sort(higher_universe(from, to))),
                },
            }
        },
        Label::Lambda(structure) => if t.children.len() != 2 {
            Err(TypeError::Unsupported { term: t })
        } else if fuel == 0 {
            Err(TypeError::Kernel { error: KernelError::ReductionLimit })
        } else {
            match infer_sort_term(env, own, ctx, t.children[0], next) {
                Err(error) => Err(error),
                Ok(_) => match infer_term(env, own, ctx.push(t.children[0]), t.children[1], next) {
                    Err(error) => Err(error),
                    Ok(body) => Ok(Term::pi(structure, t.children[0], body)),
                },
            }
        },
        Label::Apply => if t.children.len() != 2 {
            Err(TypeError::Unsupported { term: t })
        } else if fuel == 0 {
            Err(TypeError::Kernel { error: KernelError::ReductionLimit })
        } else {
            match infer_term(env, own, ctx, t.children[0], next) {
                Err(error) => Err(error),
                Ok(function_ty) => match whnf_term(env, function_ty, next) {
                    Err(error) => Err(TypeError::Kernel { error }),
                    Ok(reduced) => if !(reduced.label is Pi && reduced.children.len() == 2) {
                        Err(TypeError::ExpectedFunction { term: t.children[0], actual: reduced })
                    } else {
                        match infer_term(env, own, ctx, t.children[1], next) {
                            Err(error) => Err(error),
                            Ok(argument_ty) => match defeq_term(
                                env,
                                argument_ty,
                                reduced.children[0],
                                next,
                            ) {
                                Err(error) => Err(TypeError::Kernel { error }),
                                Ok(false) => Err(
                                    TypeError::Mismatch {
                                        term: t.children[1],
                                        expected: reduced.children[0],
                                        actual: argument_ty,
                                    },
                                ),
                                Ok(true) => if instantiate_fits(
                                    reduced.children[1],
                                    t.children[1],
                                ) {
                                    Ok(instantiate_term(reduced.children[1], t.children[1]))
                                } else {
                                    Err(TypeError::Kernel { error: KernelError::IndexOverflow })
                                },
                            },
                        }
                    },
                },
            }
        },
        Label::Let(_) => if t.children.len() != 2 {
            Err(TypeError::Unsupported { term: t })
        } else if fuel == 0 {
            Err(TypeError::Kernel { error: KernelError::ReductionLimit })
        } else {
            match infer_term(env, own, ctx, t.children[0], next) {
                Err(error) => Err(error),
                Ok(_) => if instantiate_fits(t.children[1], t.children[0]) {
                    infer_term(env, own, ctx, instantiate_term(t.children[1], t.children[0]), next)
                } else {
                    Err(TypeError::Kernel { error: KernelError::IndexOverflow })
                },
            }
        },
        _ => Err(TypeError::Unsupported { term: t }),
    }
}

/// The universe that the type `t` lives in: the type of `t`, reduced to weak
/// head normal form, must be a universe.
pub open spec fn infer_sort_term(
    env: Map<Path, Global>,
    own: Option<(Path, Term)>,
    ctx: Seq<Term>,
    t: Term,
    fuel: nat,
) -> Result<Universe, TypeError<Term>>
    decreases fuel, 1nat,
{
    match infer_term(env, own, ctx, t, fuel) {
        Err(error) => Err(error),
        Ok(ty) => match whnf_term(env, ty, fuel) {
            Err(error) => Err(TypeError::Kernel { error }),
            Ok(reduced) => match reduced.label {
                Label::Sort(universe) => Ok(universe),
                _ => Err(TypeError::ExpectedSort { term: t, actual: reduced }),
            },
        },
    }
}

/// The context `ctx` with the type `ty` of one more bound variable.
fn extend(ctx: &Vec<Expression>, ty: Expression) -> (r: Vec<Expression>)
    ensures
        r@ == ctx@.push(ty),
{
    let mut result: Vec<Expression> = Vec::new();
    let n = ctx.len();
    let mut i: usize = 0;
    while i < n
        invariant
            n == ctx@.len(),
            i <= n,
            result@ == ctx@.take(i as int),
        decreases n - i,
    {
        result.push(ctx[i]);
        assert(ctx@.take(i + 1) =~= ctx@.take(i as int).push(ctx@[i as int]));
        i += 1;
    }
    assert(ctx@.take(n as int) =~= ctx@);
    result.push(ty);
    result
}

/// What type inference asks of its arguments: they are expressions of the
/// database.
pub open spec fn in_scope(
    db: &Database,
    own: Option<(Path, Expression)>,
    ctx: Seq<Expression>,
    e: Expression,
) -> bool {
    &&& db.wf()
    &&& db.contains(e)
    &&& db.contains_all(ctx)
    &&& own matches Some((_, ty)) ==> db.contains(ty)
}

/// The arguments of type inference keep their meaning while the database
/// grows.
proof fn lemma_scope_preserved(
    before: &Database,
    after: &Database,
    own: Option<(Path, Expression)>,
    ctx: Seq<Expression>,
)
    requires
        after.extends(before),
        before.contains_all(ctx),
        own matches Some((_, ty)) ==> before.contains(ty),
    ensures
        after.contains_all(ctx),
        after.terms(ctx) == before.terms(ctx),
        own_term(after, own) == own_term(before, own),
        own matches Some((_, ty)) ==> after.contains(ty),
        after.env() == before.env(),
{
    after.lemma_terms_preserved(before, ctx);
}

impl Expression {
    /// Infers the type of this expression in the context `ctx`, which holds
    /// the types of the bound variables with the innermost last. `own` is
    /// the path and the type of the definition that is being checked, where
    /// the expression may refer to it.
    pub fn infer_type(
        self,
        db: &mut Database,
        own: Option<(Path, Expression)>,
        ctx: &Vec<Expression>,
        fuel: u64,
    ) -> (r: Result<Expression, TypeError<Expression>>)
        requires
            in_scope(old(db), own, ctx@, self),
        ensures
            final(db).wf(),
            final(db).extends(old(db)),
            typed_as(
                final(db),
                r,
                infer_term(
                    old(db).env(),
                    own_term(old(db), own),
                    old(db).terms(ctx@),
                    old(db).term(self),
                    fuel as nat,
                ),
            ),
        decreases fuel, 1nat,
    {
        proof {
            db.lemma_term(self);
            db.data_of(self).lemma_arity();
        }
        match db.data(self) {
            ExpressionData::Local(index) => {
                let index = *index;
                self.infer_local(db, ctx, index)
            },
            ExpressionData::Sort(universe) => {
                let universe = *universe;
                if universe.0 < u32::MAX {
                    Ok(Expression::new_sort(db, Universe(universe.0 + 1)))
                } else {
                    Err(TypeError::UniverseOverflow { term: self })
                }
            },
            ExpressionData::Inst(path) => {
                let path = *path;
                if let Some((own_path, own_ty)) = own {
                    if own_path == path {
                        return Ok(own_ty);
                    }
                }
                proof {
                    db.lemma_definitions(path);
                }
                match db.get_certified(path) {
                    Some(certified) => {
                        let ty = certified.def().ty;
                        assert(db.contains(certified.definition().expressions()[0]));
                        Ok(ty)
                    },
                    None => Err(TypeError::NotCertified { path }),
                }
            },
            ExpressionData::Pi(binder) => {
                let binder = *binder;
                assert(db.data_of(self).children()[0] == binder.structure.bound.ty);
                assert(db.data_of(self).children()[1] == binder.body);
                if fuel == 0 {
                    return Err(TypeError::Kernel { error: KernelError::ReductionLimit });
                }
                assert(db.term(self).children =~= seq![
                    db.term(binder.structure.bound.ty),
                    db.term(binder.body),
                ]);
                self.infer_pi(db, own, ctx, binder, fuel)
            },
            ExpressionData::Lambda(binder) => {
                let binder = *binder;
                assert(db.data_of(self).children()[0] == binder.structure.bound.ty);
                assert(db.data_of(self).children()[1] == binder.body);
                if fuel == 0 {
                    return Err(TypeError::Kernel { error: KernelError::ReductionLimit });
                }
                assert(db.term(self).children =~= seq![
                    db.term(binder.structure.bound.ty),
                    db.term(binder.body),
                ]);
                self.infer_lambda(db, own, ctx, binder, fuel)
            },
            ExpressionData::Apply { left, right } => {
                let left = *left;
                let right = *right;
                assert(db.data_of(self).children()[0] == left);
                assert(db.data_of(self).children()[1] == right);
                if fuel == 0 {
                    return Err(TypeError::Kernel { error: KernelError::ReductionLimit });
                }
                assert(db.term(self).children =~= seq![db.term(left), db.term(right)]);
                self.infer_apply(db, own, ctx, left, right, fuel)
            },
            ExpressionData::Let { to_assign, body, .. } => {
                let to_assign = *to_assign;
                let body = *body;
                assert(db.data_of(self).children()[0] == to_assign);
                assert(db.data_of(self).children()[1] == body);
                if fuel == 0 {
                    return Err(TypeError::Kernel { error: KernelError::ReductionLimit });
                }
                assert(db.term(self).children =~= seq![db.term(to_assign), db.term(body)]);
                self.infer_let(db, own, ctx, to_assign, body, fuel)
            },
            _ => Err(TypeError::Unsupported { term: self }),
        }
    }

    /// The type of the variable `self`, whose index is `index`.
    fn infer_local(self, db: &mut Database, ctx: &Vec<Expression>, index: DeBruijnIndex) -> (r:
        Result<Expression, TypeError<Expression>>)
        requires
            old(db).wf(),
            old(db).contains(self),
            old(db).contains_all(ctx@),
            old(db).term(self).label == Label::Local(index@),
        ensures
            final(db).wf(),
            final(db).extends(old(db)),
            typed_as(
                final(db),
                r,
                local_type(old(db).terms(ctx@), old(db).term(self), index@),
            ),
    {
        let position = index.value() as usize;
        if position >= ctx.len() {
            return Err(TypeError::UnboundVariable { term: self });
        }
        let ty = ctx[ctx.len() - 1 - position];
        assert(old(db).contains(ty));
        let shift = DeBruijnOffset::new(index.value()).succ();
        match ty.lift_free_vars(db, DeBruijnOffset::zero(), shift) {
            Ok(lifted) => Ok(lifted),
            Err(error) => Err(TypeError::Kernel { error }),
        }
    }

    /// The type of the function type `self`, whose node holds `binder`.
    fn infer_pi(
        self,
        db: &mut Database,
        own: Option<(Path, Expression)>,
        ctx: &Vec<Expression>,
        binder: Binder,
        fuel: u64,
    ) -> (r: Result<Expression, TypeError<Expression>>)
        requires
            in_scope(old(db), own, ctx@, self),
            old(db).contains(binder.structure.bound.ty),
            old(db).contains(binder.body),
            old(db).term(self).label is Pi,
            old(db).term(self).children == seq![
                old(db).term(binder.structure.bound.ty),
                old(db).term(binder.body),
            ],
            fuel > 0,
        ensures
            final(db).wf(),
            final(db).extends(old(db)),
            typed_as(
                final(db),
                r,
                infer_term(
                    old(db).env(),
                    own_term(old(db), own),
                    old(db).terms(ctx@),
                    old(db).term(self),
                    fuel as nat,
                ),
            ),
        decreases fuel, 0nat,
    {
        let ty = binder.structure.bound.ty;
        let from = match ty.infer_sort(db, own, ctx, fuel - 1) {
            Ok(from) => from,
            Err(error) => {
                return Err(error);
            },
        };
        let inner = extend(ctx, ty);
        proof {
            lemma_scope_preserved(old(db), db, own, ctx@);
            assert(db.terms(inner@) =~= old(db).terms(ctx@).push(old(db).term(ty)));
        }
        let to = match binder.body.infer_sort(db, own, &inner, fuel - 1) {
            Ok(to) => to,
            Err(error) => {
                return Err(error);
            },
        };
        let universe = if from.0 >= to.0 {
            from
        } else {
            to
        };
        Ok(Expression::new_sort(db, universe))
    }

    /// The type of the function `self`, whose node holds `binder`.
    fn infer_lambda(
        self,
        db: &mut Database,
        own: Option<(Path, Expression)>,
        ctx: &Vec<Expression>,
        binder: Binder,
        fuel: u64,
    ) -> (r: Result<Expression, TypeError<Expression>>)
        requires
            in_scope(old(db), own, ctx@, self),
            old(db).contains_str(binder.structure.bound.name),
            old(db).contains(binder.structure.bound.ty),
            old(db).contains(binder.body),
            old(db).term(self).label == Label::Lambda(binder.structure.label()),
            old(db).term(self).children == seq![
                old(db).term(binder.structure.bound.ty),
                old(db).term(binder.body),
            ],
            fuel > 0,
        ensures
            final(db).wf(),
            final(db).extends(old(db)),
            typed_as(
                final(db),
                r,
                infer_term(
                    old(db).env(),
                    own_term(old(db), own),
                    old(db).terms(ctx@),
                    old(db).term(self),
                    fuel as nat,
                ),
            ),
        decreases fuel, 0nat,
    {
        let ty = binder.structure.bound.ty;
        match ty.infer_sort(db, own, ctx, fuel - 1) {
            Ok(_) => {},
            Err(error) => {
                return Err(error);
            },
        }
        let inner = extend(ctx, ty);
        proof {
            lemma_scope_preserved(old(db), db, own, ctx@);
            assert(db.terms(inner@) =~= old(db).terms(ctx@).push(old(db).term(ty)));
        }
        let body = match binder.body.infer_type(db, own, &inner, fuel - 1) {
            Ok(body) => body,
            Err(error) => {
                return Err(error);
            },
        };
        Ok(Expression::new_pi(db, Binder { structure: binder.structure, body }))
    }

    /// The type of the application `self` of `left` to `right`.
    fn infer_apply(
        self,
        db: &mut Database,
        own: Option<(Path, Expression)>,
        ctx: &Vec<Expression>,
        left: Expression,
        right: Expression,
        fuel: u64,
    ) -> (r: Result<Expression, TypeError<Expression>>)
        requires
            in_scope(old(db), own, ctx@, self),
            old(db).contains(left),
            old(db).contains(right),
            old(db).term(self) == Term::apply(old(db).term(left), old(db).term(right)),
            fuel > 0,
        ensures
            final(db).wf(),
            final(db).extends(old(db)),
            typed_as(
                final(db),
                r,
                infer_term(
                    old(db).env(),
                    own_term(old(db), own),
                    old(db).terms(ctx@),
                    old(db).term(self),
                    fuel as nat,
                ),
            ),
        decreases fuel, 0nat,
    {
        let function_ty = match left.infer_type(db, own, ctx, fuel - 1) {
            Ok(function_ty) => function_ty,
            Err(error) => {
                return Err(error);
            },
        };
        let reduced = match function_ty.whnf(db, fuel - 1) {
            Ok(reduced) => reduced,
            Err(error) => {
                return Err(TypeError::Kernel { error });
            },
        };
        proof {
            db.lemma_term(reduced);
            db.data_of(reduced).lemma_arity();
        }
        let (expected, result) = match db.data(reduced) {
            ExpressionData::Pi(binder) => {
                assert(db.data_of(reduced).children()[0] == binder.structure.bound.ty);
                assert(db.data_of(reduced).children()[1] == binder.body);
                (binder.structure.bound.ty, binder.body)
            },
            _ => {
                return Err(TypeError::ExpectedFunction { term: left, actual: reduced });
            },
        };
        let ghost mid = *db;
        proof {
            lemma_scope_preserved(old(db), db, own, ctx@);
        }
        let argument_ty = match right.infer_type(db, own, ctx, fuel - 1) {
            Ok(argument_ty) => argument_ty,
            Err(error) => {
                return Err(error);
            },
        };
        assert(mid.contains(expected));
        match argument_ty.defeq(db, expected, fuel - 1) {
            Err(error) => Err(TypeError::Kernel { error }),
            Ok(false) => Err(TypeError::Mismatch { term: right, expected, actual: argument_ty }),
            Ok(true) => {
                assert(mid.contains(result));
                match result.instantiate(db, right) {
                    Ok(ty) => Ok(ty),
                    Err(error) => Err(TypeError::Kernel { error }),
                }
            },
        }
    }

    /// The type of the local definition `self` of `to_assign` in `body`.
    fn infer_let(
        self,
        db: &mut Database,
        own: Option<(Path, Expression)>,
        ctx: &Vec<Expression>,
        to_assign: Expression,
        body: Expression,
        fuel: u64,
    ) -> (r: Result<Expression, TypeError<Expression>>)
        requires
            in_scope(old(db), own, ctx@, self),
            old(db).contains(to_assign),
            old(db).contains(body),
            old(db).term(self).label is Let,
            old(db).term(self).children == seq![old(db).term(to_assign), old(db).term(body)],
            fuel > 0,
        ensures
            final(db).wf(),
            final(db).extends(old(db)),
            typed_as(
                final(db),
                r,
                infer_term(
                    old(db).env(),
                    own_term(old(db), own),
                    old(db).terms(ctx@),
                    old(db).term(self),
                    fuel as nat,
                ),
            ),
        decreases fuel, 0nat,
    {
        match to_assign.infer_type(db, own, ctx, fuel - 1) {
            Ok(_) => {},
            Err(error) => {
                return Err(error);
            },
        }
        let instantiated = match body.instantiate(db, to_assign) {
            Ok(instantiated) => instantiated,
            Err(error) => {
                return Err(TypeError::Kernel { error });
            },
        };
        proof {
            lemma_scope_preserved(old(db), db, own, ctx@);
        }
        instantiated.infer_type(db, own, ctx, fuel - 1)
    }

    /// Infers the universe that this type lives in.
    pub fn infer_sort(
        self,
        db: &mut Database,
        own: Option<(Path, Expression)>,
        ctx: &Vec<Expression>,
        fuel: u64,
    ) -> (r: Result<Universe, TypeError<Expression>>)
        requires
            in_scope(old(db), own, ctx@, self),
        ensures
            final(db).wf(),
            final(db).extends(old(db)),
            sorted_as(
                final(db),
                r,
                infer_sort_term(
                    old(db).env(),
                    own_term(old(db), own),
                    old(db).terms(ctx@),
                    old(db).term(self),
                    fuel as nat,
                ),
            ),
        decreases fuel, 2nat,
    {
        let ty = match self.infer_type(db, own, ctx, fuel) {
            Ok(ty) => ty,
            Err(error) => {
                return Err(error);
            },
        };
        let reduced = match ty.whnf(db, fuel) {
            Ok(reduced) => reduced,
            Err(error) => {
                return Err(TypeError::Kernel { error });
            },
        };
        proof {
            db.lemma_term(reduced);
        }
        match db.data(reduced) {
            ExpressionData::Sort(universe) => Ok(*universe),
            _ => Err(TypeError::ExpectedSort { term: self, actual: reduced }),
        }
    }
}

} // verus!

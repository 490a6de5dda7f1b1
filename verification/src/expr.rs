//! Expressions: the terms of the calculus, as stored in a database.
//!
//! An [`Expression`] is a handle to one interned [`ExpressionData`] node. Two
//! expressions of one database are equal exactly when they stand for the same
//! [`Term`]; copying and comparing them takes constant time. Expressions are
//! never changed once made.

use vstd::prelude::*;
use crate::database::Database;
use crate::de_bruijn::DeBruijnIndex;
use crate::files::{Path, Str};
use crate::term::{BinderLabel, Label, Term};
use crate::vec_map::VecMap;

pub mod find_replace;
pub mod node;
pub mod util;

verus! {

/// A handle to an interned expression.
#[derive(Clone, Copy, Debug, PartialEq, Eq, Structural, Hash)]
pub struct Expression {
    pub(crate) id: usize,
}

impl Expression {
    /// The position of this expression among those of its database. An
    /// expression is stored after all of its sub-expressions.
    pub closed spec fn index(self) -> nat {
        self.id as nat
    }

    pub(crate) broadcast proof fn lemma_index(self)
        ensures
            #[trigger] self.index() == self.id,
    {
    }
}

/// Whether a value exists at run time.
#[derive(Clone, Copy, Debug, PartialEq, Eq, Structural, Hash)]
pub enum Usage {
    /// The value is only needed while checking, and is erased afterwards.
    Erased,
    /// The value exists at run time.
    Present,
}

/// A bound variable in a lambda, pi, or let expression.
#[derive(Clone, Copy, Debug, PartialEq, Eq, Structural, Hash)]
pub struct BoundVariable {
    /// The name of the local variable to bind.
    pub name: Str,
    /// The type of the value assigned to the bound variable.
    pub ty: Expression,
    /// The multiplicity for which the value is bound.
    pub usage: Usage,
}

/// How should the argument to this function be given?
#[derive(Clone, Copy, Debug, PartialEq, Eq, Structural, Hash)]
pub enum ArgumentStyle {
    /// The argument is to be given explicitly.
    Explicit,
    /// The argument is implicit, and is to be filled eagerly by the elaborator.
    ImplicitEager,
    /// The argument is implicit, and is to be filled by the elaborator only when another later parameter is given.
    ImplicitWeak,
}

/// How should the function be called?
#[derive(Clone, Copy, Debug, PartialEq, Eq, Structural, Hash)]
pub enum InvocationStyle {
    /// The function is to be called exactly once.
    Once,
    /// The function can be called arbitrarily many times, from behind a borrow.
    Many,
}

/// The calling convention of one binder.
#[derive(Clone, Copy, Debug, PartialEq, Eq, Structural, Hash)]
pub struct BinderStructure {
    /// The local variable to bind.
    pub bound: BoundVariable,
    /// How the parameter should be filled when calling the function.
    pub argument_style: ArgumentStyle,
    /// How the function should be called.
    pub invocation_style: InvocationStyle,
}

/// A binder with its body, in which index 0 refers to the bound variable.
#[derive(Clone, Copy, Debug, PartialEq, Eq, Structural, Hash)]
pub struct Binder {
    pub structure: BinderStructure,
    pub body: Expression,
}

/// A level in the hierarchy of universes.
#[derive(Clone, Copy, Debug, PartialEq, Eq, Structural, PartialOrd, Ord, Hash)]
pub struct Universe(pub u32);

/// Tells local constants apart.
#[derive(Clone, Copy, Debug, PartialEq, Eq, Structural, Hash)]
pub struct LocalConstantId(pub u32);

/// A named constant that stands for a bound variable while the body of its
/// binder is being checked.
#[derive(Clone, Copy, Debug, PartialEq, Eq, Structural, Hash)]
pub struct LocalConstant {
    pub id: LocalConstantId,
    pub structure: BinderStructure,
}

/// Tells holes apart.
#[derive(Clone, Copy, Debug, PartialEq, Eq, Structural, Hash)]
pub struct HoleId(pub u32);

/// A placeholder for an expression that is not known yet.
#[derive(Clone, Copy, Debug, PartialEq, Eq, Structural, Hash)]
pub struct Hole {
    pub id: HoleId,
    /// The type of the expression that will fill the hole.
    pub ty: Expression,
}

/// One node of an expression. Its sub-expressions are handles.
#[derive(Clone, Debug, PartialEq, Eq, Hash)]
pub enum ExpressionData {
    Local(DeBruijnIndex),
    Apply {
        /// The function to invoke.
        left: Expression,
        /// The parameter to supply.
        right: Expression,
    },
    Lambda(Binder),
    Pi(Binder),
    Let {
        /// The name of the local variable being declared.
        name: Str,
        /// The expression to assign to the local variable.
        to_assign: Expression,
        /// The body of the expression, where `name` is given de Bruijn index 0.
        body: Expression,
    },
    Sort(Universe),
    Inst(Path),
    Intro {
        /// The path of the datatype or proposition type to introduce.
        path: Path,
        /// The (global, then index) parameters of the type.
        parameters: Vec<Expression>,
        /// The name of the variant to instantiate.
        variant: Str,
        /// The fields of the newly created object.
        /// This is a list of key-value pairs.
        fields: VecMap<Str, Expression>,
    },
    Match {
        /// The object we are matching against.
        subject: Expression,
        /// The return value of the match expression.
        /// This should be a 1-argument function that takes something of the type of `subject`
        /// and returns something in `Sort u` for a fixed u.
        return_ty: Expression,
        /// The list of cases for each field.
        /// Each entry `(k, v)` is an `n`-argument function, where `n` is the number of fields
        /// in variant `k`. The return type of each case is given by `return_ty`.
        cases: VecMap<Str, Expression>,
    },
    Fix {
        /// The type of the `fix` expression.
        binder: Binder,
        /// The name of the local variable that can be invoked to recursively calculate the body.
        rec_name: Str,
        /// The body of the `fix` expression.
        /// - local variable `0` is the `fix` body with name `rec_name`;
        /// - local variable `1` is the subject of the fixpoint recursion, named in `binder`.
        body: Expression,
    },
    /// A type of references.
    Ref(Expression),
    /// Dereference the inner expression.
    Deref(Expression),
    Loan {
        /// The local variable to loan.
        local: DeBruijnIndex,
        /// The name of the variable that will be assigned a reference of `name`.
        loan_as: Str,
        /// The name of the variable that will store a proof that `name` and `*loan_as` are equal.
        with: Str,
        /// The body of the expression, in which
        /// - local variable `0` is `with`;
        /// - local variable `1` is `loan_as`.
        body: Expression,
    },
    Take {
        /// The local variable that we want to cancel the loan of.
        local: DeBruijnIndex,
        /// The proofs that the borrow is not stored in any newly created local variable.
        proofs: VecMap<DeBruijnIndex, Expression>,
        /// The body after we `take` the local variable back.
        body: Expression,
    },
    In {
        /// An expression of a reference type.
        reference: Expression,
        /// The target of the `in` expression.
        target: Expression,
    },
    /// A constant that stands for a bound variable.
    LocalConstant(LocalConstant),
    /// A placeholder.
    Hole(Hole),
}

impl BinderStructure {
    /// What this structure declares besides the type of its variable.
    pub open spec fn label(self) -> BinderLabel {
        BinderLabel {
            name: self.bound.name,
            usage: self.bound.usage,
            argument_style: self.argument_style,
            invocation_style: self.invocation_style,
        }
    }
}

impl ExpressionData {
    /// The variant of this node, with what it holds besides sub-expressions.
    pub open spec fn label(&self) -> Label {
        match self {
            ExpressionData::Local(index) => Label::Local(index@),
            ExpressionData::Apply { .. } => Label::Apply,
            ExpressionData::Lambda(binder) => Label::Lambda(binder.structure.label()),
            ExpressionData::Pi(binder) => Label::Pi(binder.structure.label()),
            ExpressionData::Let { name, .. } => Label::Let(*name),
            ExpressionData::Sort(universe) => Label::Sort(*universe),
            ExpressionData::Inst(path) => Label::Inst(*path),
            ExpressionData::Intro { path, parameters, variant, fields } => Label::Intro {
                path: *path,
                variant: *variant,
                parameters: parameters@.len(),
                fields: fields.keys(),
            },
            ExpressionData::Match { cases, .. } => Label::Match { cases: cases.keys() },
            ExpressionData::Fix { binder, rec_name, .. } => Label::Fix {
                structure: binder.structure.label(),
                rec_name: *rec_name,
            },
            ExpressionData::Ref(_) => Label::Ref,
            ExpressionData::Deref(_) => Label::Deref,
            ExpressionData::Loan { local, loan_as, with, .. } => Label::Loan {
                local: local@,
                loan_as: *loan_as,
                with: *with,
            },
            ExpressionData::Take { local, proofs, .. } => Label::Take {
                local: local@,
                proofs: proof_locals(proofs@),
            },
            ExpressionData::In { .. } => Label::In,
            ExpressionData::LocalConstant(constant) => Label::LocalConstant {
                constant: constant.id,
                structure: constant.structure.label(),
            },
            ExpressionData::Hole(hole) => Label::Hole { hole: hole.id },
        }
    }

    /// The sub-expressions of this node, in traversal order.
    pub open spec fn children(&self) -> Seq<Expression> {
        match self {
            ExpressionData::Local(_) => seq![],
            ExpressionData::Apply { left, right } => seq![*left, *right],
            ExpressionData::Lambda(binder) => seq![binder.structure.bound.ty, binder.body],
            ExpressionData::Pi(binder) => seq![binder.structure.bound.ty, binder.body],
            ExpressionData::Let { to_assign, body, .. } => seq![*to_assign, *body],
            ExpressionData::Sort(_) => seq![],
            ExpressionData::Inst(_) => seq![],
            ExpressionData::Intro { parameters, fields, .. } => parameters@ + fields.values(),
            ExpressionData::Match { subject, return_ty, cases } => seq![*subject, *return_ty]
                + cases.values(),
            ExpressionData::Fix { binder, body, .. } => seq![
                binder.structure.bound.ty,
                binder.body,
                *body,
            ],
            ExpressionData::Ref(ty) => seq![*ty],
            ExpressionData::Deref(value) => seq![*value],
            ExpressionData::Loan { body, .. } => seq![*body],
            ExpressionData::Take { proofs, body, .. } => proofs.values().push(*body),
            ExpressionData::In { reference, target } => seq![*reference, *target],
            ExpressionData::LocalConstant(constant) => seq![constant.structure.bound.ty],
            ExpressionData::Hole(hole) => seq![hole.ty],
        }
    }
}

/// The positions that the keys of `proofs` stand for.
pub open spec fn proof_locals(proofs: Seq<(DeBruijnIndex, Expression)>) -> Seq<nat> {
    Seq::new(proofs.len(), |i: int| proofs[i].0@)
}

impl Expression {
    /// The expression that refers to a node with the given data. If the
    /// database holds such a node already, this is the expression that was
    /// returned for it before.
    pub fn new(db: &mut Database, data: ExpressionData) -> (e: Expression)
        requires
            old(db).wf(),
            old(db).contains_all(data.children()),
            old(db).knows(data.label()),
            data.children().len() <= usize::MAX,
        ensures
            final(db).wf(),
            final(db).extends(old(db)),
            final(db).contains(e),
            final(db).data_of(e).label() == data.label(),
            final(db).data_of(e).children() == data.children(),
            final(db).term(e) == (Term {
                label: data.label(),
                children: old(db).terms(data.children()),
            }),
            final(db).reuses(old(db), e),
    {
        db.intern(data)
    }

    /// The node that this expression refers to.
    pub fn data(self, db: &Database) -> (r: &ExpressionData)
        requires
            db.contains(self),
        ensures
            *r == db.data_of(self),
    {
        db.data(self)
    }

    /// Creates a new `Local` expression.
    pub fn new_local(db: &mut Database, index: DeBruijnIndex) -> (e: Expression)
        requires
            old(db).wf(),
        ensures
            final(db).wf(),
            final(db).extends(old(db)),
            final(db).contains(e),
            final(db).reuses(old(db), e),
            final(db).term(e) == Term::local(index@),
    {
        let e = db.intern(ExpressionData::Local(index));
        assert(db.term(e).children =~= Term::local(index@).children);
        e
    }

    /// Creates a new `Apply` expression.
    pub fn new_apply(db: &mut Database, left: Expression, right: Expression) -> (e: Expression)
        requires
            old(db).wf(),
            old(db).contains(left),
            old(db).contains(right),
        ensures
            final(db).wf(),
            final(db).extends(old(db)),
            final(db).contains(e),
            final(db).reuses(old(db), e),
            final(db).term(e) == Term::apply(old(db).term(left), old(db).term(right)),
    {
        let e = db.intern(ExpressionData::Apply { left, right });
        assert(db.term(e).children =~= seq![old(db).term(left), old(db).term(right)]);
        e
    }

    /// Creates a new `Lambda` expression.
    pub fn new_lambda(db: &mut Database, binder: Binder) -> (e: Expression)
        requires
            old(db).wf(),
            old(db).contains_str(binder.structure.bound.name),
            old(db).contains(binder.structure.bound.ty),
            old(db).contains(binder.body),
        ensures
            final(db).wf(),
            final(db).extends(old(db)),
            final(db).contains(e),
            final(db).reuses(old(db), e),
            final(db).term(e) == Term::lambda(
                binder.structure.label(),
                old(db).term(binder.structure.bound.ty),
                old(db).term(binder.body),
            ),
    {
        let e = db.intern(ExpressionData::Lambda(binder));
        assert(db.term(e).children =~= seq![
            old(db).term(binder.structure.bound.ty),
            old(db).term(binder.body),
        ]);
        e
    }

    /// Creates a new `Pi` expression.
    pub fn new_pi(db: &mut Database, binder: Binder) -> (e: Expression)
        requires
            old(db).wf(),
            old(db).contains_str(binder.structure.bound.name),
            old(db).contains(binder.structure.bound.ty),
            old(db).contains(binder.body),
        ensures
            final(db).wf(),
            final(db).extends(old(db)),
            final(db).contains(e),
            final(db).reuses(old(db), e),
            final(db).term(e) == Term::pi(
                binder.structure.label(),
                old(db).term(binder.structure.bound.ty),
                old(db).term(binder.body),
            ),
    {
        let e = db.intern(ExpressionData::Pi(binder));
        assert(db.term(e).children =~= seq![
            old(db).term(binder.structure.bound.ty),
            old(db).term(binder.body),
        ]);
        e
    }

    /// Creates a new `Let` expression.
    pub fn new_let(db: &mut Database, name: Str, to_assign: Expression, body: Expression) -> (e:
        Expression)
        requires
            old(db).wf(),
            old(db).contains_str(name),
            old(db).contains(to_assign),
            old(db).contains(body),
        ensures
            final(db).wf(),
            final(db).extends(old(db)),
            final(db).contains(e),
            final(db).reuses(old(db), e),
            final(db).term(e) == Term::let_in(name, old(db).term(to_assign), old(db).term(body)),
    {
        let e = db.intern(ExpressionData::Let { name, to_assign, body });
        assert(db.term(e).children =~= seq![old(db).term(to_assign), old(db).term(body)]);
        e
    }

    /// Creates a new `Sort` expression.
    pub fn new_sort(db: &mut Database, universe: Universe) -> (e: Expression)
        requires
            old(db).wf(),
        ensures
            final(db).wf(),
            final(db).extends(old(db)),
            final(db).contains(e),
            final(db).reuses(old(db), e),
            final(db).term(e) == Term::sort(universe),
    {
        let e = db.intern(ExpressionData::Sort(universe));
        assert(db.term(e).children =~= Term::sort(universe).children);
        e
    }

    /// Creates a new `Inst` expression.
    pub fn new_inst(db: &mut Database, path: Path) -> (e: Expression)
        requires
            old(db).wf(),
            old(db).contains_path(path),
        ensures
            final(db).wf(),
            final(db).extends(old(db)),
            final(db).contains(e),
            final(db).reuses(old(db), e),
            final(db).term(e) == Term::inst(path),
    {
        let e = db.intern(ExpressionData::Inst(path));
        assert(db.term(e).children =~= Term::inst(path).children);
        e
    }

    /// Creates a new `Intro` expression.
    pub fn new_intro(
        db: &mut Database,
        path: Path,
        parameters: Vec<Expression>,
        variant: Str,
        fields: VecMap<Str, Expression>,
    ) -> (e: Expression)
        requires
            old(db).wf(),
            old(db).contains_path(path),
            old(db).contains_str(variant),
            old(db).contains_strs(fields.keys()),
            old(db).contains_all(parameters@),
            old(db).contains_all(fields.values()),
            parameters@.len() + fields@.len() <= usize::MAX,
        ensures
            final(db).wf(),
            final(db).extends(old(db)),
            final(db).contains(e),
            final(db).reuses(old(db), e),
            final(db).term(e) == Term::intro(
                path,
                old(db).terms(parameters@),
                variant,
                old(db).named_terms(fields@),
            ),
    {
        let ghost expected = Term::intro(
            path,
            old(db).terms(parameters@),
            variant,
            old(db).named_terms(fields@),
        );
        let ghost children = parameters@ + fields.values();
        assert(old(db).contains_all(children)) by {
            assert forall|k: int| 0 <= k < children.len() implies old(db).contains(
                #[trigger] children[k],
            ) by {
                if k >= parameters@.len() {
                    assert(children[k] == fields.values()[k - parameters@.len()]);
                }
            }
        }
        let e = db.intern(ExpressionData::Intro { path, parameters, variant, fields });
        assert(db.term(e).children =~= expected.children);
        assert(db.term(e).label->Intro_fields =~= expected.label->Intro_fields);
        e
    }

    /// Creates a new `match` expression.
    pub fn new_match(
        db: &mut Database,
        subject: Expression,
        return_ty: Expression,
        cases: VecMap<Str, Expression>,
    ) -> (e: Expression)
        requires
            old(db).wf(),
            old(db).contains(subject),
            old(db).contains(return_ty),
            old(db).contains_strs(cases.keys()),
            old(db).contains_all(cases.values()),
            cases@.len() + 2 <= usize::MAX,
        ensures
            final(db).wf(),
            final(db).extends(old(db)),
            final(db).contains(e),
            final(db).reuses(old(db), e),
            final(db).term(e) == Term::match_on(
                old(db).term(subject),
                old(db).term(return_ty),
                old(db).named_terms(cases@),
            ),
    {
        let ghost expected = Term::match_on(
            old(db).term(subject),
            old(db).term(return_ty),
            old(db).named_terms(cases@),
        );
        let ghost children = seq![subject, return_ty] + cases.values();
        assert(old(db).contains_all(children)) by {
            assert forall|k: int| 0 <= k < children.len() implies old(db).contains(
                #[trigger] children[k],
            ) by {
                if k >= 2 {
                    assert(children[k] == cases.values()[k - 2]);
                }
            }
        }
        let e = db.intern(ExpressionData::Match { subject, return_ty, cases });
        assert(db.term(e).children =~= expected.children);
        assert(db.term(e).label->Match_cases =~= expected.label->Match_cases);
        e
    }

    /// Creates a new `fix` expression.
    pub fn new_fix(db: &mut Database, binder: Binder, rec_name: Str, body: Expression) -> (e:
        Expression)
        requires
            old(db).wf(),
            old(db).contains_str(binder.structure.bound.name),
            old(db).contains_str(rec_name),
            old(db).contains(binder.structure.bound.ty),
            old(db).contains(binder.body),
            old(db).contains(body),
        ensures
            final(db).wf(),
            final(db).extends(old(db)),
            final(db).contains(e),
            final(db).reuses(old(db), e),
            final(db).term(e) == Term::fix(
                binder.structure.label(),
                old(db).term(binder.structure.bound.ty),
                old(db).term(binder.body),
                rec_name,
                old(db).term(body),
            ),
    {
        let e = db.intern(ExpressionData::Fix { binder, rec_name, body });
        assert(db.term(e).children =~= seq![
            old(db).term(binder.structure.bound.ty),
            old(db).term(binder.body),
            old(db).term(body),
        ]);
        e
    }

    /// Creates a new `Ref` expression.
    pub fn new_ref(db: &mut Database, ty: Expression) -> (e: Expression)
        requires
            old(db).wf(),
            old(db).contains(ty),
        ensures
            final(db).wf(),
            final(db).extends(old(db)),
            final(db).contains(e),
            final(db).reuses(old(db), e),
            final(db).term(e) == Term::reference(old(db).term(ty)),
    {
        let e = db.intern(ExpressionData::Ref(ty));
        assert(db.term(e).children =~= seq![old(db).term(ty)]);
        e
    }

    /// Creates a new `Deref` expression.
    pub fn new_deref(db: &mut Database, value: Expression) -> (e: Expression)
        requires
            old(db).wf(),
            old(db).contains(value),
        ensures
            final(db).wf(),
            final(db).extends(old(db)),
            final(db).contains(e),
            final(db).reuses(old(db), e),
            final(db).term(e) == Term::deref(old(db).term(value)),
    {
        let e = db.intern(ExpressionData::Deref(value));
        assert(db.term(e).children =~= seq![old(db).term(value)]);
        e
    }

    /// Creates a new `Loan` expression.
    pub fn new_loan(
        db: &mut Database,
        local: DeBruijnIndex,
        loan_as: Str,
        with: Str,
        body: Expression,
    ) -> (e: Expression)
        requires
            old(db).wf(),
            old(db).contains_str(loan_as),
            old(db).contains_str(with),
            old(db).contains(body),
        ensures
            final(db).wf(),
            final(db).extends(old(db)),
            final(db).contains(e),
            final(db).reuses(old(db), e),
            final(db).term(e) == Term::loan(local@, loan_as, with, old(db).term(body)),
    {
        let e = db.intern(ExpressionData::Loan { local, loan_as, with, body });
        assert(db.term(e).children =~= seq![old(db).term(body)]);
        e
    }

    /// Creates a new `Take` expression.
    pub fn new_take(
        db: &mut Database,
        local: DeBruijnIndex,
        proofs: VecMap<DeBruijnIndex, Expression>,
        body: Expression,
    ) -> (e: Expression)
        requires
            old(db).wf(),
            old(db).contains_all(proofs.values()),
            old(db).contains(body),
            proofs@.len() + 1 <= usize::MAX,
        ensures
            final(db).wf(),
            final(db).extends(old(db)),
            final(db).contains(e),
            final(db).reuses(old(db), e),
            final(db).term(e) == Term::take(
                local@,
                old(db).proof_terms(proofs@),
                old(db).term(body),
            ),
    {
        let ghost expected = Term::take(local@, old(db).proof_terms(proofs@), old(db).term(body));
        let ghost children = proofs.values().push(body);
        assert(old(db).contains_all(children)) by {
            assert forall|k: int| 0 <= k < children.len() implies old(db).contains(
                #[trigger] children[k],
            ) by {
                if k < proofs@.len() {
                    assert(children[k] == proofs.values()[k]);
                }
            }
        }
        let e = db.intern(ExpressionData::Take { local, proofs, body });
        assert(db.term(e).children =~= expected.children);
        assert(db.term(e).label->Take_proofs =~= expected.label->Take_proofs);
        e
    }

    /// Creates a new `In` expression.
    pub fn new_in(db: &mut Database, reference: Expression, target: Expression) -> (e: Expression)
        requires
            old(db).wf(),
            old(db).contains(reference),
            old(db).contains(target),
        ensures
            final(db).wf(),
            final(db).extends(old(db)),
            final(db).contains(e),
            final(db).reuses(old(db), e),
            final(db).term(e) == Term::in_target(old(db).term(reference), old(db).term(target)),
    {
        let e = db.intern(ExpressionData::In { reference, target });
        assert(db.term(e).children =~= seq![old(db).term(reference), old(db).term(target)]);
        e
    }

    /// Creates a new local constant.
    pub fn new_local_constant(db: &mut Database, constant: LocalConstant) -> (e: Expression)
        requires
            old(db).wf(),
            old(db).contains_str(constant.structure.bound.name),
            old(db).contains(constant.structure.bound.ty),
        ensures
            final(db).wf(),
            final(db).extends(old(db)),
            final(db).contains(e),
            final(db).reuses(old(db), e),
            final(db).term(e) == Term::local_constant(
                constant.id,
                constant.structure.label(),
                old(db).term(constant.structure.bound.ty),
            ),
    {
        let e = db.intern(ExpressionData::LocalConstant(constant));
        assert(db.term(e).children =~= seq![old(db).term(constant.structure.bound.ty)]);
        e
    }

    /// Creates a new hole.
    pub fn new_hole(db: &mut Database, hole: Hole) -> (e: Expression)
        requires
            old(db).wf(),
            old(db).contains(hole.ty),
        ensures
            final(db).wf(),
            final(db).extends(old(db)),
            final(db).contains(e),
            final(db).reuses(old(db), e),
            final(db).term(e) == Term::hole(hole.id, old(db).term(hole.ty)),
    {
        let e = db.intern(ExpressionData::Hole(hole));
        assert(db.term(e).children =~= seq![old(db).term(hole.ty)]);
        e
    }
}

} // verus!

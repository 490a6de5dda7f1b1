//! The mathematical model of expressions.
//!
//! An [`Expression`](crate::expr::Expression) is a handle into a database. What
//! it stands for is a [`Term`]: a finite tree, independent of any database, in
//! which every node carries a [`Label`] (the variant and whatever it holds
//! besides sub-expressions) and the sequence of its sub-terms, in the order in
//! which a traversal visits them. All contracts of the kernel are stated over
//! terms.

use vstd::prelude::*;
use crate::expr::{ArgumentStyle, HoleId, InvocationStyle, LocalConstantId, Universe, Usage};
use crate::files::{Path, Str};

verus! {

/// What a binder declares besides the type of its variable.
pub struct BinderLabel {
    /// The name of the bound variable.
    pub name: Str,
    /// The multiplicity for which the value is bound.
    pub usage: Usage,
    /// How the parameter should be filled when calling the function.
    pub argument_style: ArgumentStyle,
    /// How the function should be called.
    pub invocation_style: InvocationStyle,
}

/// The variant of a node, with everything it holds except its sub-terms.
pub enum Label {
    /// A bound variable. No sub-terms.
    Local(nat),
    /// An application. Sub-terms: the function, then the argument.
    Apply,
    /// A function. Sub-terms: the type of the parameter, then the body under
    /// one binder.
    Lambda(BinderLabel),
    /// A function type. Sub-terms: the type of the parameter, then the result
    /// type under one binder.
    Pi(BinderLabel),
    /// A local definition. Sub-terms: the value, then the body under one
    /// binder.
    Let(Str),
    /// A universe. No sub-terms.
    Sort(Universe),
    /// A reference to a global definition. No sub-terms.
    Inst(Path),
    /// A value of an inductive type. Sub-terms: the `parameters` parameters,
    /// then one value for each name in `fields`.
    Intro { path: Path, variant: Str, parameters: nat, fields: Seq<Str> },
    /// A case distinction. Sub-terms: the subject, the return type, then one
    /// case for each name in `cases`.
    Match { cases: Seq<Str> },
    /// A fixed point. Sub-terms: the type of the subject, the result type
    /// under one binder, then the body under two binders.
    Fix { structure: BinderLabel, rec_name: Str },
    /// A type of references. Sub-term: the type referred to.
    Ref,
    /// A dereference. Sub-term: the reference.
    Deref,
    /// A loan of a local variable. Sub-term: the body under two binders.
    Loan { local: nat, loan_as: Str, with: Str },
    /// The end of a loan. Sub-terms: one proof for each entry of `proofs`,
    /// then the body.
    Take { local: nat, proofs: Seq<nat> },
    /// A reference stored in a value. Sub-terms: the reference, then the
    /// target.
    In,
    /// A named constant that stands for a bound variable. Sub-term: its type.
    LocalConstant { constant: LocalConstantId, structure: BinderLabel },
    /// A placeholder to be filled later. Sub-term: its type.
    Hole { hole: HoleId },
}

/// A finite tree of labelled nodes: what an expression stands for.
pub struct Term {
    /// The variant of the root and what it holds besides sub-terms.
    pub label: Label,
    /// The sub-terms of the root, in traversal order.
    pub children: Seq<Term>,
}

impl Label {
    /// The number of binders that the node introduces around its `k`-th
    /// sub-term.
    pub open spec fn binders(self, k: int) -> nat {
        match self {
            Label::Lambda(_) | Label::Pi(_) | Label::Let(_) => if k == 1 {
                1
            } else {
                0
            },
            Label::Fix { .. } => if k == 1 {
                1
            } else if k == 2 {
                2
            } else {
                0
            },
            Label::Loan { .. } => if k == 0 {
                2
            } else {
                0
            },
            _ => 0,
        }
    }

    /// The number of sub-terms that a node with this label has.
    pub open spec fn arity(self) -> nat {
        match self {
            Label::Local(_) => 0,
            Label::Apply => 2,
            Label::Lambda(_) => 2,
            Label::Pi(_) => 2,
            Label::Let(_) => 2,
            Label::Sort(_) => 0,
            Label::Inst(_) => 0,
            Label::Intro { parameters, fields, .. } => parameters + fields.len(),
            Label::Match { cases } => 2 + cases.len(),
            Label::Fix { .. } => 3,
            Label::Ref => 1,
            Label::Deref => 1,
            Label::Loan { .. } => 1,
            Label::Take { proofs, .. } => proofs.len() + 1,
            Label::In => 2,
            Label::LocalConstant { .. } => 1,
            Label::Hole { .. } => 1,
        }
    }
}

impl Term {
    /// Every node has as many sub-terms as its label asks for.
    pub open spec fn well_shaped(self) -> bool
        decreases self,
    {
        &&& self.children.len() == self.label.arity()
        &&& forall|k: int|
            0 <= k < self.children.len() ==> (#[trigger] self.children[k]).well_shaped()
    }

    /// The bound variable with the given index.
    pub open spec fn local(index: nat) -> Term {
        Term { label: Label::Local(index), children: seq![] }
    }

    /// The application of `left` to `right`.
    pub open spec fn apply(left: Term, right: Term) -> Term {
        Term { label: Label::Apply, children: seq![left, right] }
    }

    /// The function that binds a variable of type `ty` in `body`.
    pub open spec fn lambda(structure: BinderLabel, ty: Term, body: Term) -> Term {
        Term { label: Label::Lambda(structure), children: seq![ty, body] }
    }

    /// The type of functions from `ty` to `body`.
    pub open spec fn pi(structure: BinderLabel, ty: Term, body: Term) -> Term {
        Term { label: Label::Pi(structure), children: seq![ty, body] }
    }

    /// The local definition of `name` as `to_assign` in `body`.
    pub open spec fn let_in(name: Str, to_assign: Term, body: Term) -> Term {
        Term { label: Label::Let(name), children: seq![to_assign, body] }
    }

    /// The universe at the given level.
    pub open spec fn sort(universe: Universe) -> Term {
        Term { label: Label::Sort(universe), children: seq![] }
    }

    /// The global definition at `path`.
    pub open spec fn inst(path: Path) -> Term {
        Term { label: Label::Inst(path), children: seq![] }
    }

    /// The value of the inductive type at `path`, built with `variant`.
    pub open spec fn intro(
        path: Path,
        parameters: Seq<Term>,
        variant: Str,
        fields: Seq<(Str, Term)>,
    ) -> Term {
        Term {
            label: Label::Intro {
                path,
                variant,
                parameters: parameters.len(),
                fields: Seq::new(fields.len(), |i: int| fields[i].0),
            },
            children: parameters + Seq::new(fields.len(), |i: int| fields[i].1),
        }
    }

    /// The case distinction on `subject`.
    pub open spec fn match_on(subject: Term, return_ty: Term, cases: Seq<(Str, Term)>) -> Term {
        Term {
            label: Label::Match { cases: Seq::new(cases.len(), |i: int| cases[i].0) },
            children: seq![subject, return_ty] + Seq::new(cases.len(), |i: int| cases[i].1),
        }
    }

    /// The fixed point over a subject of type `ty` with result type
    /// `return_ty`.
    pub open spec fn fix(
        structure: BinderLabel,
        ty: Term,
        return_ty: Term,
        rec_name: Str,
        body: Term,
    ) -> Term {
        Term { label: Label::Fix { structure, rec_name }, children: seq![ty, return_ty, body] }
    }

    /// The type of references to values of type `ty`.
    pub open spec fn reference(ty: Term) -> Term {
        Term { label: Label::Ref, children: seq![ty] }
    }

    /// The value that `value` refers to.
    pub open spec fn deref(value: Term) -> Term {
        Term { label: Label::Deref, children: seq![value] }
    }

    /// The loan of `local` in `body`.
    pub open spec fn loan(local: nat, loan_as: Str, with: Str, body: Term) -> Term {
        Term { label: Label::Loan { local, loan_as, with }, children: seq![body] }
    }

    /// The end of the loan of `local`, followed by `body`.
    pub open spec fn take(local: nat, proofs: Seq<(nat, Term)>, body: Term) -> Term {
        Term {
            label: Label::Take { local, proofs: Seq::new(proofs.len(), |i: int| proofs[i].0) },
            children: Seq::new(proofs.len(), |i: int| proofs[i].1).push(body),
        }
    }

    /// The reference `reference` stored in `target`.
    pub open spec fn in_target(reference: Term, target: Term) -> Term {
        Term { label: Label::In, children: seq![reference, target] }
    }

    /// The local constant `id` of type `ty`.
    pub open spec fn local_constant(id: LocalConstantId, structure: BinderLabel, ty: Term) -> Term {
        Term { label: Label::LocalConstant { constant: id, structure }, children: seq![ty] }
    }

    /// The hole `id` of type `ty`.
    pub open spec fn hole(id: HoleId, ty: Term) -> Term {
        Term { label: Label::Hole { hole: id }, children: seq![ty] }
    }
}

impl BinderLabel {
    /// Whether two binders agree in everything but the name of the variable.
    pub open spec fn alike(self, other: BinderLabel) -> bool {
        &&& self.usage == other.usage
        &&& self.argument_style == other.argument_style
        &&& self.invocation_style == other.invocation_style
    }
}

impl Label {
    /// Whether two labels agree in everything but the names that they give
    /// to bound variables. The names of variants, fields and cases count.
    pub open spec fn alike(self, other: Label) -> bool {
        match (self, other) {
            (Label::Lambda(a), Label::Lambda(b)) => a.alike(b),
            (Label::Pi(a), Label::Pi(b)) => a.alike(b),
            (Label::Let(_), Label::Let(_)) => true,
            (
                Label::Fix { structure: a, .. },
                Label::Fix { structure: b, .. },
            ) => a.alike(b),
            (
                Label::Loan { local: a, .. },
                Label::Loan { local: b, .. },
            ) => a == b,
            _ => self == other,
        }
    }
}

} // verus!

//! The syntax of Feather, with names instead of indices.
//!
//! This is what a parser hands to the kernel: a tree in which variables are
//! written by name and every node knows where in the source it stands. The
//! names and paths are interned already. Turning such a tree into an
//! expression is the work of [`crate::parser`].

use vstd::prelude::*;
use crate::expr::{ArgumentStyle, InvocationStyle, Universe};
use crate::files::{Path, Span, Str};

verus! {

/// A name, where it is declared or referred to.
#[derive(Clone, Copy, Debug, PartialEq, Eq, Structural, Hash)]
pub struct Identifier {
    pub span: Span,
    pub name: Str,
}

/// A path to a definition or a type.
#[derive(Clone, Copy, Debug, PartialEq, Eq, Structural, Hash)]
pub struct PathSyntax {
    pub span: Span,
    pub path: Path,
}

/// A universe level.
#[derive(Clone, Copy, Debug, PartialEq, Eq, Structural, Hash)]
pub struct UniverseSyntax {
    pub span: Span,
    pub universe: Universe,
}

/// The declaration of a bound variable: `( name : ty )`, `{ name : ty }` or
/// `{{ name : ty }}`, with `0` in front of the type if the variable is
/// erased.
#[derive(Debug, PartialEq, Eq, Hash)]
pub struct BinderStructureSyntax {
    pub name: Identifier,
    pub erased: bool,
    pub ty: Box<ExprSyntax>,
    pub argument_style: ArgumentStyle,
}

/// A binder with the body that it binds in: the arrow between them tells
/// how often the function may be called.
#[derive(Debug, PartialEq, Eq, Hash)]
pub struct BinderSyntax {
    pub structure: BinderStructureSyntax,
    pub invocation_style: InvocationStyle,
    pub body: Box<ExprSyntax>,
}

/// An expression with names.
#[derive(Debug, PartialEq, Eq, Hash)]
pub enum ExprSyntax {
    /// A variable, by name.
    Local(Identifier),
    App { left: Box<ExprSyntax>, right: Box<ExprSyntax> },
    For(BinderSyntax),
    Fun(BinderSyntax),
    Let { name: Identifier, to_assign: Box<ExprSyntax>, body: Box<ExprSyntax> },
    Sort(UniverseSyntax),
    Inst(PathSyntax),
    Intro {
        path: PathSyntax,
        params: Vec<ExprSyntax>,
        variant: Identifier,
        fields: Vec<(Identifier, ExprSyntax)>,
    },
    Match { subject: Box<ExprSyntax>, return_ty: Box<ExprSyntax>, cases: Vec<(Identifier, ExprSyntax)> },
    Fix {
        structure: BinderStructureSyntax,
        /// The type of the result, in which the subject is bound.
        return_ty: Box<ExprSyntax>,
        rec_name: Identifier,
        /// The body, in which the subject and the fixed point are bound.
        body: Box<ExprSyntax>,
    },
    Ref(Box<ExprSyntax>),
    Deref(Box<ExprSyntax>),
    Loan {
        local: Identifier,
        loan_as: Identifier,
        with: Identifier,
        /// The body, in which `loan_as` and `with` are bound.
        body: Box<ExprSyntax>,
    },
    Take { local: Identifier, proofs: Vec<(Identifier, ExprSyntax)>, body: Box<ExprSyntax> },
    In { reference: Box<ExprSyntax>, target: Box<ExprSyntax> },
}

/// A definition: `def name : ty = body`, with `0` in front of the type if
/// the definition is erased.
#[derive(Debug, PartialEq, Eq, Hash)]
pub struct DefinitionSyntax {
    pub span: Span,
    pub name: Identifier,
    pub erased: bool,
    pub ty: ExprSyntax,
    pub body: ExprSyntax,
}

/// A source file: the path of the module and its definitions.
#[derive(Debug, PartialEq, Eq, Hash)]
pub struct ModuleSyntax {
    pub path: PathSyntax,
    pub definitions: Vec<DefinitionSyntax>,
}

} // verus!

//! Certified definitions.

use vstd::prelude::*;
use vstd::string::StringExecFns;
use crate::definition::Definition;
use crate::text::{decimal, write_decimal};
use crate::expr::Universe;
use crate::files::Path;

verus! {

/// If this number is higher, the definition is 'more complex'.
/// We define the height of a [`Reducibility::Reducible`] definition to be one more than
/// the maximum height of any [`Reducibility::Reducible`] definitions it contains.
pub type DefinitionHeight = u64;

/// Why a definition exists.
#[derive(Clone, Copy, Debug, PartialEq, Eq, Structural, Hash)]
pub enum DefinitionOrigin {
    /// This definition was written directly in Feather code.
    Feather,
    /// This definition is the type declaration for an inductive type.
    TypeDeclaration { inductive: Path },
    /// This definition is an intro rule for an inductive type.
    IntroRule { inductive: Path },
}

/// Information used by the definitional equality checker to choose which definitions to unfold first.
/// In particular, if we are checking if `f x y z` is equal to `g a b c`, we look at the
/// reducibility information of `f` and `g`. If one has a heigher height than the other, we unfold
/// that one first, as it may reduce into an invocation of the other function. This essentially
/// allows us to unfold complicated expressions into easier ones, rather than having to unfold
/// all expressions into normal form, which would be very computationally intensive.
#[derive(Clone, Copy, Debug, PartialEq, Eq, Structural, Hash)]
pub enum Reducibility {
    Reducible {
        height: DefinitionHeight,
    },
    /// Irreducible definitions are never unfolded.
    /// They do not have a definition height.
    /// Irreducible definitions include recursive functions that may not terminate.
    Irreducible,
}

impl Reducibility {
    /// This reducibility in words.
    pub open spec fn text(self) -> Seq<char> {
        match self {
            Reducibility::Reducible { height } => "reducible definition with height "@ + decimal(
                height as nat,
            ),
            Reducibility::Irreducible => "irreducible definition"@,
        }
    }

    /// This reducibility in words.
    pub fn to_string(&self) -> (r: String)
        ensures
            r@ == self.text(),
    {
        match self {
            Reducibility::Reducible { height } => {
                let mut out = String::from_str("reducible definition with height ");
                write_decimal(&mut out, *height);
                out
            },
            Reducibility::Irreducible => String::from_str("irreducible definition"),
        }
    }
}

/// A definition that has been verified by the type checker.
/// No data inside a certified definition can be changed; this preserves the certification status.
#[derive(Clone, Copy, Debug, PartialEq, Eq)]
pub struct CertifiedDefinition {
    def: Definition,
    /// The type of the type of the definition, stored as a universe level.
    universe: Universe,
    reducibility: Reducibility,
    /// Why this definition exists.
    origin: DefinitionOrigin,
}

impl CertifiedDefinition {
    /// The definition that was certified.
    pub closed spec fn definition(&self) -> Definition {
        self.def
    }

    /// The universe that the definition's type lives in.
    pub closed spec fn level(&self) -> Universe {
        self.universe
    }

    /// Whether the definition may be unfolded, and its height.
    pub closed spec fn unfolding(&self) -> Reducibility {
        self.reducibility
    }

    /// Why the definition exists.
    pub closed spec fn source(&self) -> DefinitionOrigin {
        self.origin
    }

    /// Certified definitions can only be created by the type checker in the kernel.
    pub(crate) fn new(
        def: Definition,
        universe: Universe,
        reducibility: Reducibility,
        origin: DefinitionOrigin,
    ) -> (r: Self)
        ensures
            r.definition() == def,
            r.level() == universe,
            r.unfolding() == reducibility,
            r.source() == origin,
    {
        Self { def, universe, reducibility, origin }
    }

    pub fn def(&self) -> (r: &Definition)
        ensures
            *r == self.definition(),
    {
        &self.def
    }

    pub fn universe(&self) -> (r: Universe)
        ensures
            r == self.level(),
    {
        self.universe
    }

    pub fn reducibility(&self) -> (r: Reducibility)
        ensures
            r == self.unfolding(),
    {
        self.reducibility
    }

    pub fn origin(&self) -> (r: DefinitionOrigin)
        ensures
            r == self.source(),
    {
        self.origin
    }
}

} // verus!

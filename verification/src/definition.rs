//! Definitions as they come out of parsing and elaboration.

use vstd::prelude::*;
use crate::expr::{Expression, Usage};
use crate::files::{Str, WithProvenance};

verus! {

/// A definition that has not been type checked.
#[derive(Clone, Copy, Debug, PartialEq, Eq, Hash)]
pub struct Definition {
    pub name: WithProvenance<Str>,
    pub usage: Usage,
    pub ty: Expression,
    /// Empty if the body contained an error or was not given.
    pub body: Option<Expression>,
}

impl Definition {
    /// The expressions that this definition holds.
    pub open spec fn expressions(&self) -> Seq<Expression> {
        match self.body {
            Some(body) => seq![self.ty, body],
            None => seq![self.ty],
        }
    }
}

} // verus!

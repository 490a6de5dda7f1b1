//! Unfolds definitions.

use vstd::prelude::*;
use crate::database::Database;
use crate::expr::{Expression, ExpressionData};
use crate::files::Path;
use crate::globals::{height_of, Global};
use crate::term::{Label, Term};
use crate::type_check::definition::{DefinitionHeight, Reducibility};

verus! {

broadcast use Expression::lemma_index;

/// The height of the definition at the head of `t`: the definition that is
/// left when all arguments are stripped off.
pub open spec fn head_height(env: Map<Path, Global>, t: Term) -> Option<u64>
    decreases t,
{
    match t.label {
        Label::Inst(path) => height_of(env, path),
        Label::Apply => if t.children.len() == 2 {
            head_height(env, t.children[0])
        } else {
            None
        },
        _ => None,
    }
}

/// `t` with the body of the definition at its head in the definition's
/// place, if there is a reducible definition at the head.
pub open spec fn unfold_term(env: Map<Path, Global>, t: Term) -> Option<Term>
    decreases t,
{
    match t.label {
        Label::Inst(path) => if height_of(env, path) is Some {
            env[path].body
        } else {
            None
        },
        Label::Apply => if t.children.len() == 2 {
            match unfold_term(env, t.children[0]) {
                Some(left) => Some(Term::apply(left, t.children[1])),
                None => None,
            }
        } else {
            None
        },
        _ => None,
    }
}

/// Returns the height of the definition that this [`Path`] refers to.
/// If this instance could not be resolved, was not a definition, or was not reducible, return [`None`].
pub fn definition_height(db: &Database, path: Path) -> (r: Option<DefinitionHeight>)
    requires
        db.wf(),
    ensures
        r == height_of(db.env(), path),
{
    match db.get_certified(path) {
        Some(def) => match def.reducibility() {
            Reducibility::Reducible { height } => Some(height),
            Reducibility::Irreducible => None,
        },
        None => None,
    }
}

impl Expression {
    /// Returns a number if the head of this expression is a definition that we can unfold.
    /// Intuitively, the number returned is higher for more complicated definitions.
    pub fn head_definition_height(self, db: &Database) -> (r: Option<DefinitionHeight>)
        requires
            db.wf(),
            db.contains(self),
        ensures
            r == head_height(db.env(), db.term(self)),
        decreases self.index(),
    {
        proof {
            db.lemma_term(self);
            db.data_of(self).lemma_arity();
        }
        match db.data(self) {
            ExpressionData::Inst(path) => definition_height(db, *path),
            ExpressionData::Apply { left, .. } => {
                assert(db.data_of(self).children()[0] == *left);
                left.head_definition_height(db)
            },
            _ => None,
        }
    }

    /// If the head of this expression is a definition, unfold it.
    /// This is sometimes called delta-reduction.
    /// If the definition was marked [`Reducibility::Irreducible`], do nothing.
    ///
    /// If we couldn't unfold anything, return [`None`].
    /// This will always return a value if [`Expression::head_definition_height`] returned a [`Some`] value.
    pub fn unfold_definition(self, db: &mut Database) -> (r: Option<Expression>)
        requires
            old(db).wf(),
            old(db).contains(self),
        ensures
            final(db).wf(),
            final(db).extends(old(db)),
            r is Some <==> unfold_term(old(db).env(), old(db).term(self)) is Some,
            r matches Some(e) ==> final(db).contains(e) && unfold_term(
                old(db).env(),
                old(db).term(self),
            ) == Some(final(db).term(e)),
        decreases self.index(),
    {
        proof {
            db.lemma_term(self);
            db.data_of(self).lemma_arity();
        }
        match db.data(self) {
            ExpressionData::Inst(path) => {
                let path = *path;
                proof {
                    db.lemma_definitions(path);
                }
                match db.get_certified(path) {
                    Some(def) => match def.reducibility() {
                        Reducibility::Reducible { .. } => {
                            let body = def.def().body;
                            proof {
                                if body is Some {
                                    assert(db.contains(def.definition().expressions()[1]));
                                }
                            }
                            body
                        },
                        Reducibility::Irreducible => None,
                    },
                    None => None,
                }
            },
            ExpressionData::Apply { left, right } => {
                let left = *left;
                let right = *right;
                assert(db.data_of(self).children()[0] == left);
                assert(db.data_of(self).children()[1] == right);
                match left.unfold_definition(db) {
                    Some(e) => Some(Expression::new_apply(db, e, right)),
                    None => None,
                }
            },
            _ => None,
        }
    }
}

} // verus!

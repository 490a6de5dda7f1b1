//! The trusted kernel of a dependently typed language: interned expressions,
//! substitution under binders, reduction to weak head normal form, and the
//! certification of definitions.
//!
//! Everything lives in a [`Database`]: it interns strings, paths and
//! expressions, holds the definitions that were given to it, and remembers
//! which of them were certified. A definition is certified once, after the
//! definitions that it refers to.

use vstd::prelude::*;

pub mod database;
pub mod de_bruijn;
pub mod definition;
pub mod diagnostic;
pub mod error;
pub mod expr;
pub mod files;
pub mod globals;
pub mod index;
pub mod laws;
pub mod parser;
pub mod render;
pub mod syntax;
pub mod term;
pub mod text;
pub mod type_check;
pub mod vec_map;

use database::Database;
use definition::Definition;
use diagnostic::Dr;
use files::Path;
use type_check::definition::{CertifiedDefinition, DefinitionOrigin};
use type_check::infer::TypeError;
use type_check::{body_term, certified_as, certify_term, CertificationError};

verus! {

/// The error that says that no definition was given at `path`.
pub open spec fn undefined(path: Path) -> CertificationError {
    CertificationError { path, provenance: None, error: TypeError::Undefined { path } }
}

/// Given a fully qualified path of a definition in a either a feather or a quill file,
/// return the parsed and elaborated definition.
/// This definition will not have been type checked.
pub fn get_definition(db: &Database, path: Path) -> (r: Dr<
    Definition,
    CertificationError,
    CertificationError,
>)
    requires
        db.wf(),
    ensures
        r.notes() == Seq::<CertificationError>::empty(),
        r.outcome() == match db.definition(path) {
            Some(def) => Ok::<Definition, CertificationError>(def),
            None => Err::<Definition, CertificationError>(undefined(path)),
        },
{
    match db.get_definition(path) {
        Some(def) => Dr::new(*def),
        None => Dr::new_err(
            CertificationError { path, provenance: None, error: TypeError::Undefined { path } },
        ),
    }
}

/// Type checks the definition with the given name.
/// This function returns a [`CertifiedDefinition`], a definition that has been verified by the type checker.
///
/// See also [`type_check::certify_definition`].
///
/// A definition is certified once: if the database holds a certified
/// definition at `path`, that one is returned. Otherwise the definition that
/// was given at `path` is type checked, and recorded as certified if it
/// passes. The definitions that it refers to must have been certified
/// before; a failure changes nothing but the expressions that are interned.
pub fn certify_definition(db: &mut Database, path: Path) -> (r: Dr<
    CertifiedDefinition,
    CertificationError,
    CertificationError,
>)
    requires
        old(db).wf(),
    ensures
        final(db).wf(),
        final(db).preserves(old(db)),
        r.notes() == Seq::<CertificationError>::empty(),
        forall|p: Path| #[trigger] final(db).definition(p) == old(db).definition(p),
        forall|p: Path| p != path ==> #[trigger] final(db).certified(p) == old(db).certified(p),
        match old(db).certified(path) {
            Some(certified) => r.outcome() == Ok::<CertifiedDefinition, CertificationError>(
                certified,
            ) && final(db).extends(old(db)),
            None => match old(db).definition(path) {
                None => r.outcome() == Err::<CertifiedDefinition, CertificationError>(
                    undefined(path),
                ) && final(db).extends(old(db)),
                Some(def) => certified_as(
                    final(db),
                    r.outcome(),
                    certify_term(
                        old(db).env(),
                        path,
                        old(db).term(def.ty),
                        body_term(old(db), def),
                        DefinitionOrigin::Feather,
                        old(db).limit() as nat,
                    ),
                ) && match r.outcome() {
                    Ok(certified) => certified.definition() == def && final(db).certified(path)
                        == Some(certified) && final(db).env() == old(db).env().insert(
                        path,
                        final(db).global(certified),
                    ),
                    Err(error) => error.path == path && final(db).extends(old(db)),
                },
            },
        },
{
    if let Some(certified) = db.get_certified(path) {
        return Dr::new(*certified);
    }
    let def = match db.get_definition(path) {
        Some(def) => *def,
        None => {
            return Dr::new_err(
                CertificationError { path, provenance: None, error: TypeError::Undefined { path } },
            );
        },
    };
    proof {
        db.lemma_definitions(path);
    }
    let result = type_check::certify_definition(db, path, &def, DefinitionOrigin::Feather);
    if let Some(certified) = result.value() {
        let certified = *certified;
        let ghost mid = *db;
        db.store_certified(path, certified);
        proof {
            assert(db.global(certified) == mid.global(certified)) by {
                assert(mid.contains(def.expressions()[0]));
                if def.body is Some {
                    assert(mid.contains(def.expressions()[1]));
                }
            }
        }
    }
    result
}

/// Type checks the definition with the given name, or retrieves it from the database if it was already type checked.
/// This function returns a [`CertifiedDefinition`], a definition that has been verified by the type checker.
/// This function will discard any diagnostic messages produced by type checking the definition.
pub fn get_certified_definition(db: &mut Database, path: Path) -> (r: Option<CertifiedDefinition>)
    requires
        old(db).wf(),
    ensures
        final(db).wf(),
        final(db).preserves(old(db)),
        r == final(db).certified(path),
        forall|p: Path| #[trigger] final(db).definition(p) == old(db).definition(p),
        forall|p: Path| p != path ==> #[trigger] final(db).certified(p) == old(db).certified(p),
        match old(db).certified(path) {
            Some(certified) => r == Some(certified),
            None => match old(db).definition(path) {
                None => r is None,
                Some(def) => match certify_term(
                    old(db).env(),
                    path,
                    old(db).term(def.ty),
                    body_term(old(db), def),
                    DefinitionOrigin::Feather,
                    old(db).limit() as nat,
                ) {
                    Ok(global) => r is Some && final(db).global(r->0) == global,
                    Err(_) => r is None,
                },
            },
        },
{
    match certify_definition(db, path).value() {
        Some(certified) => Some(*certified),
        None => None,
    }
}

} // verus!

//! Performs type checking and evaluation of expressions.

use vstd::prelude::*;
use crate::database::Database;
use crate::definition::Definition;
use crate::diagnostic::Dr;
use crate::error::KernelError;
use crate::expr::find_replace::{find_term, lemma_find_none, lemma_found_holds, Predicate};
use crate::expr::{Expression, ExpressionData, Universe};
use crate::de_bruijn::DeBruijnOffset;
use crate::files::{Path, SourceSpan};
use crate::globals::{
    depends_on_certified,
    env_wf,
    height_for,
    is_inst,
    is_reducible_inst,
    is_uncertified_inst,
    lemma_env_wf_insert,
    Global,
};
use crate::term::{Label, Term};

pub mod defeq;
pub mod definition;
pub mod infer;
pub mod limit;
pub mod scope;
pub mod stability;
pub mod unfold;
pub mod whnf;

pub use definition::{CertifiedDefinition, DefinitionHeight, DefinitionOrigin, Reducibility};
pub use infer::TypeError;
pub use unfold::definition_height;

verus! {

/// Why a definition was not certified.
#[derive(Clone, Copy, Debug, PartialEq, Eq)]
pub struct CertificationError {
    /// The path of the definition.
    pub path: Path,
    /// Where the definition was written, if known.
    pub provenance: Option<SourceSpan>,
    /// What is wrong with it.
    pub error: TypeError<Expression>,
}

/// Finds the references to definitions that are not certified, other than
/// `except`.
pub struct UncertifiedInst {
    pub except: Option<Path>,
}

impl Predicate for UncertifiedInst {
    open spec fn inv(&self, db: &Database) -> bool {
        true
    }

    open spec fn holds(&self, db: &Database) -> spec_fn(Term, nat) -> bool {
        is_uncertified_inst(db.env(), self.except)
    }

    fn test(&self, db: &Database, e: Expression, offset: DeBruijnOffset) -> (r: bool) {
        proof {
            db.lemma_term(e);
        }
        match db.data(e) {
            ExpressionData::Inst(path) => {
                let excepted = match self.except {
                    Some(except) => except == *path,
                    None => false,
                };
                !excepted && db.get_certified(*path).is_none()
            },
            _ => false,
        }
    }
}

/// Finds the references to the definition at `path`.
pub struct IsInst {
    pub path: Path,
}

impl Predicate for IsInst {
    open spec fn inv(&self, db: &Database) -> bool {
        true
    }

    open spec fn holds(&self, db: &Database) -> spec_fn(Term, nat) -> bool {
        is_inst(self.path)
    }

    fn test(&self, db: &Database, e: Expression, offset: DeBruijnOffset) -> (r: bool) {
        proof {
            db.lemma_term(e);
        }
        match db.data(e) {
            ExpressionData::Inst(path) => *path == self.path,
            _ => false,
        }
    }
}

/// Finds the references to reducible definitions.
pub struct ReducibleInst;

impl Predicate for ReducibleInst {
    open spec fn inv(&self, db: &Database) -> bool {
        true
    }

    open spec fn holds(&self, db: &Database) -> spec_fn(Term, nat) -> bool {
        is_reducible_inst(db.env())
    }

    fn test(&self, db: &Database, e: Expression, offset: DeBruijnOffset) -> (r: bool) {
        proof {
            db.lemma_term(e);
        }
        match db.data(e) {
            ExpressionData::Inst(path) => definition_height(db, *path).is_some(),
            _ => false,
        }
    }
}

/// The path that a reference refers to.
pub open spec fn inst_path(t: Term) -> Path {
    t.label->Inst_0
}

/// The first definition that the type or the body of a definition at `path`
/// refers to without its being certified. The body may refer to the
/// definition itself; the type may not.
pub open spec fn missing_dependency(
    env: Map<Path, Global>,
    path: Path,
    ty: Term,
    body: Option<Term>,
) -> Option<Path> {
    match find_term(is_uncertified_inst(env, None), ty, 0) {
        Some(found) => Some(inst_path(found)),
        None => match body {
            Some(body) => match find_term(is_uncertified_inst(env, Some(path)), body, 0) {
                Some(found) => Some(inst_path(found)),
                None => None,
            },
            None => None,
        },
    }
}

/// Whether a definition at `path` with the given body may be unfolded, and
/// its height. A definition whose body refers to the definition itself is
/// irreducible, and so is one whose height does not fit in 64 bits.
pub open spec fn reducibility_for(env: Map<Path, Global>, path: Path, body: Term) -> Reducibility {
    if find_term(is_inst(path), body, 0) is Some {
        Reducibility::Irreducible
    } else {
        match height_for(env, body) {
            Some(height) => Reducibility::Reducible { height },
            None => Reducibility::Irreducible,
        }
    }
}

/// What a reference of the body to the definition at `path` is taken for:
/// the definition that is being certified, with the type `ty`, unless there
/// is a certified definition at `path` already.
pub open spec fn own_reference(env: Map<Path, Global>, path: Path, ty: Term) -> Option<
    (Path, Term),
> {
    if env.dom().contains(path) {
        None
    } else {
        Some((path, ty))
    }
}

/// What certifying a definition at `path` with the given type and body
/// gives, as far as `fuel` nested steps can tell.
///
/// 1. Every definition that the type or the body refers to must be
///    certified; the body may also refer to the definition itself, which
///    then has the type that is being checked.
/// 2. The type must be a type: it lives in a universe, which is recorded.
/// 3. The body, if there is one, must have a type that is definitionally
///    equal to the type of the definition.
/// 4. A definition without a body is irreducible. The reducibility of any
///    other is given by [`reducibility_for`].
pub open spec fn certify_term(
    env: Map<Path, Global>,
    path: Path,
    ty: Term,
    body: Option<Term>,
    origin: DefinitionOrigin,
    fuel: nat,
) -> Result<Global, TypeError<Term>> {
    match missing_dependency(env, path, ty, body) {
        Some(missing) => Err(TypeError::NotCertified { path: missing }),
        None => match infer::infer_sort_term(env, None, Seq::empty(), ty, fuel) {
            Err(error) => Err(error),
            Ok(universe) => match body {
                None => Ok(
                    Global { ty, body, universe, reducibility: Reducibility::Irreducible, origin },
                ),
                Some(value) => match infer::infer_term(
                    env,
                    own_reference(env, path, ty),
                    Seq::empty(),
                    value,
                    fuel,
                ) {
                    Err(error) => Err(error),
                    Ok(actual) => match defeq::defeq_term(env, actual, ty, fuel) {
                        Err(error) => Err(TypeError::Kernel { error }),
                        Ok(false) => Err(
                            TypeError::Mismatch { term: value, expected: ty, actual },
                        ),
                        Ok(true) => Ok(
                            Global {
                                ty,
                                body,
                                universe,
                                reducibility: reducibility_for(env, path, value),
                                origin,
                            },
                        ),
                    },
                },
            },
        },
    }
}

/// The terms that the type and the body of `def` stand for.
pub open spec fn body_term(db: &Database, def: Definition) -> Option<Term> {
    match def.body {
        Some(body) => Some(db.term(body)),
        None => None,
    }
}

/// Whether `r` is what `expected` says, in the database `db`: a certified
/// definition that stands for the expected one, or an error that stands for
/// the expected one.
pub open spec fn certified_as(
    db: &Database,
    r: Result<CertifiedDefinition, CertificationError>,
    expected: Result<Global, TypeError<Term>>,
) -> bool {
    match r {
        Ok(certified) => expected == Ok::<Global, TypeError<Term>>(db.global(certified)),
        Err(error) => infer::error_contained(db, error.error) && expected == Err::<
            Global,
            TypeError<Term>,
        >(infer::error_terms(db, error.error)),
    }
}

/// The first definition that `e` refers to without its being certified,
/// other than `except`.
fn find_uncertified(db: &Database, e: Expression, except: Option<Path>) -> (r: Option<Path>)
    requires
        db.wf(),
        db.contains(e),
    ensures
        match find_term(is_uncertified_inst(db.env(), except), db.term(e), 0) {
            Some(found) => r == Some(inst_path(found)),
            None => r is None,
        },
{
    let predicate = UncertifiedInst { except };
    match e.find(db, &predicate) {
        Some(found) => {
            proof {
                db.lemma_term(found);
                lemma_found_holds(is_uncertified_inst(db.env(), except), db.term(e), 0);
            }
            match db.data(found) {
                ExpressionData::Inst(path) => Some(*path),
                _ => None,
            }
        },
        None => None,
    }
}

/// Whether the body `body` of a definition at `path` lets the definition be
/// unfolded, and the height of the definition.
fn compute_reducibility(db: &Database, path: Path, body: Expression) -> (r: Reducibility)
    requires
        db.wf(),
        db.contains(body),
    ensures
        r == reducibility_for(db.env(), path, db.term(body)),
{
    if body.find(db, &IsInst { path }).is_some() {
        return Reducibility::Irreducible;
    }
    if body.find(db, &ReducibleInst).is_none() {
        return Reducibility::Reducible { height: 0 };
    }
    let height = body.get_max_height(db);
    if height < u64::MAX {
        Reducibility::Reducible { height: height + 1 }
    } else {
        Reducibility::Irreducible
    }
}

/// Type checks the definition with the given name.
/// This function returns a [`CertifiedDefinition`], a definition that has been verified by the type checker.
///
/// The definitions that the type and the body refer to must have been
/// certified before. Nothing is recorded in the database: see
/// [`crate::certify_definition`].
///
/// # Usage
///
/// Instead of calling this method directly, which takes a [`Definition`] as well as its [`Path`],
/// in most instances you should call [`crate::certify_definition`] or [`crate::get_certified_definition`].
pub fn certify_definition(
    db: &mut Database,
    path: Path,
    def: &Definition,
    origin: DefinitionOrigin,
) -> (r: Dr<CertifiedDefinition, CertificationError, CertificationError>)
    requires
        old(db).wf(),
        old(db).contains_all(def.expressions()),
    ensures
        final(db).wf(),
        final(db).extends(old(db)),
        r.notes() == Seq::<CertificationError>::empty(),
        certified_as(
            final(db),
            r.outcome(),
            certify_term(
                old(db).env(),
                path,
                old(db).term(def.ty),
                body_term(old(db), *def),
                origin,
                old(db).limit() as nat,
            ),
        ),
        r.outcome() matches Ok(certified) ==> certified.definition() == *def
            && certified.source() == origin && final(db).contains_all(def.expressions()) && (
        !old(db).env().dom().contains(path) ==> env_wf(
            old(db).env().insert(path, final(db).global(certified)),
        )),
        r.outcome() matches Err(error) ==> error.path == path && error.provenance
            == def.name.provenance,
{
    let ghost env = db.env();
    let fuel = db.reduction_limit();
    let provenance = def.name.provenance;
    let ty = def.ty;
    proof {
        db.lemma_definitions(path);
        assert(db.contains(def.expressions()[0]));
        if def.body is Some {
            assert(db.contains(def.expressions()[1]));
        }
    }
    // Every definition that this one depends on must have been certified.
    if let Some(missing) = find_uncertified(db, ty, None) {
        return Dr::new_err(
            CertificationError { path, provenance, error: TypeError::NotCertified { path: missing } },
        );
    }
    if let Some(body) = def.body {
        if let Some(missing) = find_uncertified(db, body, Some(path)) {
            return Dr::new_err(
                CertificationError {
                    path,
                    provenance,
                    error: TypeError::NotCertified { path: missing },
                },
            );
        }
    }
    // The type of the definition must be a type.
    let context: Vec<Expression> = Vec::new();
    assert(db.terms(context@) =~= Seq::<Term>::empty());
    let universe = match ty.infer_sort(db, None, &context, fuel) {
        Ok(universe) => universe,
        Err(error) => {
            return Dr::new_err(CertificationError { path, provenance, error });
        },
    };
    let body = match def.body {
        Some(body) => body,
        None => {
            let certified = CertifiedDefinition::new(
                *def,
                universe,
                Reducibility::Irreducible,
                origin,
            );
            proof {
                old(db).lemma_well_shaped(ty);
                scope::lemma_certified_is_closed(
                    env,
                    path,
                    old(db).term(ty),
                    None,
                    origin,
                    fuel as nat,
                );
                if !env.dom().contains(path) {
                    lemma_env_wf_insert(env, path, db.global(certified));
                }
                db.lemma_terms_preserved(old(db), def.expressions());
            }
            return Dr::new(certified);
        },
    };
    // The body must have the type of the definition.
    assert(db.terms(context@) =~= Seq::<Term>::empty());
    let own = if db.get_certified(path).is_none() {
        Some((path, ty))
    } else {
        None
    };
    let actual = match body.infer_type(db, own, &context, fuel) {
        Ok(actual) => actual,
        Err(error) => {
            return Dr::new_err(CertificationError { path, provenance, error });
        },
    };
    match actual.defeq(db, ty, fuel) {
        Err(error) => {
            return Dr::new_err(
                CertificationError { path, provenance, error: TypeError::Kernel { error } },
            );
        },
        Ok(false) => {
            return Dr::new_err(
                CertificationError {
                    path,
                    provenance,
                    error: TypeError::Mismatch { term: body, expected: ty, actual },
                },
            );
        },
        Ok(true) => {},
    }
    let reducibility = compute_reducibility(db, path, body);
    let certified = CertifiedDefinition::new(*def, universe, reducibility, origin);
    proof {
        db.lemma_terms_preserved(old(db), def.expressions());
        old(db).lemma_well_shaped(ty);
        old(db).lemma_well_shaped(body);
        scope::lemma_certified_is_closed(
            env,
            path,
            old(db).term(ty),
            Some(old(db).term(body)),
            origin,
            fuel as nat,
        );
        if !env.dom().contains(path) && reducibility is Reducible {
            let value = db.term(body);
            lemma_find_none(is_uncertified_inst(env, Some(path)), value, 0);
            lemma_find_none(is_inst(path), value, 0);
            lemma_depends_on_self(env, path, value, 0);
            crate::globals::lemma_depends_on_certified(env, value);
        }
        if !env.dom().contains(path) {
            lemma_env_wf_insert(env, path, db.global(certified));
        }
    }
    Dr::new(certified)
}

/// A term that refers neither to an uncertified definition other than the
/// one at `path` nor to the one at `path` refers to certified definitions
/// only.
pub proof fn lemma_depends_on_self(env: Map<Path, Global>, path: Path, t: Term, offset: nat)
    requires
        crate::expr::find_replace::every_node(
            crate::expr::find_replace::not(is_uncertified_inst(env, Some(path))),
            t,
            offset,
        ),
        crate::expr::find_replace::every_node(
            crate::expr::find_replace::not(is_inst(path)),
            t,
            offset,
        ),
    ensures
        crate::expr::find_replace::every_node(crate::globals::is_certified_inst(env), t, offset),
    decreases t,
{
    assert forall|k: int| 0 <= k < t.children.len() implies crate::expr::find_replace::every_node(
        crate::globals::is_certified_inst(env),
        #[trigger] t.children[k],
        offset + t.label.binders(k),
    ) by {
        lemma_depends_on_self(env, path, t.children[k], offset + t.label.binders(k));
    }
}

} // verus!

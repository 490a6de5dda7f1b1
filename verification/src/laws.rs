//! Laws that relate the operations of the kernel to each other.

use vstd::prelude::*;
use crate::database::Database;
use crate::definition::Definition;
use crate::expr::find_replace::{every_node, find_term, lemma_find_none, not};
use crate::expr::util::closed;
use crate::expr::Expression;
use crate::files::Path;
use crate::globals::{
    env_extends,
    env_wf,
    height_of,
    higher,
    is_uncertified_inst,
    max_height,
    max_height_from,
    own_height,
    Global,
};
use crate::term::Term;
use crate::type_check::definition::{DefinitionOrigin, Reducibility};
use crate::type_check::infer::TypeError;
use crate::type_check::unfold::{head_height, unfold_term};
use crate::type_check::limit::lemma_certification_limit;
use crate::type_check::stability::lemma_certification_stable;
use crate::type_check::{body_term, certify_term};

verus! {

/// Interning: two expressions of one database are the same expression
/// exactly when they stand for the same term.
pub proof fn lemma_interning(db: &Database, a: Expression, b: Expression)
    requires
        db.wf(),
        db.contains(a),
        db.contains(b),
    ensures
        a == b <==> db.term(a) == db.term(b),
{
    if db.term(a) == db.term(b) {
        db.lemma_term_injective(a, b);
    }
}

/// Interning is idempotent: an expression that is made again, in the same
/// database or in a later state of it, is the expression that was made
/// first.
pub proof fn lemma_interned_once(first: &Database, second: &Database, a: Expression, b: Expression)
    requires
        first.wf(),
        second.wf(),
        second.preserves(first),
        first.contains(a),
        second.contains(b),
        second.term(b) == first.term(a),
    ensures
        a == b,
{
    second.lemma_term_injective(a, b);
}

/// Holds of the nodes that contribute at most `bound` to the greatest
/// height.
pub open spec fn at_most(env: Map<Path, Global>, bound: u64) -> spec_fn(Term, nat) -> bool {
    |t: Term, offset: nat| own_height(env, t) <= bound
}

/// The greatest height in a term is at least the height of each reducible
/// definition that the term refers to.
pub proof fn lemma_max_height_bounds(env: Map<Path, Global>, t: Term, offset: nat, bound: u64)
    requires
        max_height(env, t) <= bound,
    ensures
        every_node(at_most(env, bound), t, offset),
    decreases t, t.children.len() + 1,
{
    lemma_max_height_from_bounds(env, t, offset, 0, own_height(env, t), bound);
}

proof fn lemma_max_height_from_bounds(
    env: Map<Path, Global>,
    t: Term,
    offset: nat,
    k: nat,
    least: u64,
    bound: u64,
)
    requires
        max_height_from(env, t, k, least) <= bound,
    ensures
        least <= bound,
        forall|j: int|
            k <= j < t.children.len() ==> every_node(
                at_most(env, bound),
                #[trigger] t.children[j],
                offset + t.label.binders(j),
            ),
    decreases t, t.children.len() - k,
{
    if k < t.children.len() {
        let child = t.children[k as int];
        lemma_max_height_from_bounds(
            env,
            t,
            offset,
            k + 1,
            higher(least, max_height(env, child)),
            bound,
        );
        lemma_max_height_bounds(env, child, offset + t.label.binders(k as int), bound);
        assert forall|j: int| k <= j < t.children.len() implies every_node(
            at_most(env, bound),
            #[trigger] t.children[j],
            offset + t.label.binders(j),
        ) by {
            if j > k {
                assert(k + 1 <= j);
            }
        }
    }
}

/// Heights grow along references: the height of a reducible definition
/// whose body refers to a reducible definition is one more than the greatest
/// height that the body refers to, and so it is greater than the height of
/// every reducible definition that the body refers to.
pub proof fn lemma_definition_height(db: &Database, path: Path)
    requires
        db.wf(),
        db.certified(path) matches Some(certified) && (certified.unfolding() matches Reducibility::Reducible {
            height,
        } && height > 0),
    ensures
        db.certified(path)->0.definition().body is Some,
        max_height(db.env(), db.term(db.certified(path)->0.definition().body->0))
            == db.certified(path)->0.unfolding()->height - 1,
        every_node(
            at_most(db.env(), (db.certified(path)->0.unfolding()->height - 1) as u64),
            db.term(db.certified(path)->0.definition().body->0),
            0,
        ),
{
    db.lemma_definitions(path);
    assert(db.env().dom().contains(path));
    let height = db.certified(path)->0.unfolding()->height;
    let body = db.term(db.certified(path)->0.definition().body->0);
    lemma_max_height_bounds(db.env(), body, 0, (height - 1) as u64);
}

/// A certified definition has no free variables, so that its body can
/// stand in for it under any number of binders: raising the free variables
/// of the body, or instantiating one, leaves it as it is.
pub proof fn lemma_certified_closed(db: &Database, path: Path)
    requires
        db.wf(),
        db.certified(path) is Some,
    ensures
        closed(db.term(db.certified(path)->0.definition().ty)),
        db.certified(path)->0.definition().body matches Some(body) ==> closed(db.term(body)),
{
    db.lemma_definitions(path);
    assert(db.env().dom().contains(path));
}

/// Whatever has a height can be unfolded: an expression with a reducible
/// definition at its head unfolds to something.
pub proof fn lemma_unfold_when_height(env: Map<Path, Global>, t: Term)
    requires
        env_wf(env),
        head_height(env, t) is Some,
    ensures
        unfold_term(env, t) is Some,
    decreases t,
{
    if t.label is Apply {
        lemma_unfold_when_height(env, t.children[0]);
    }
}

/// Certification can be repeated: when a definition has been certified,
/// certifying the same definition again gives a certified definition with
/// the same universe and the same reducibility, whatever the reason for
/// which the definition exists, however many expressions were interned in
/// between and however many other definitions were certified in between.
pub proof fn lemma_certification_repeatable(
    first: &Database,
    second: &Database,
    path: Path,
    def: Definition,
    first_origin: DefinitionOrigin,
    second_origin: DefinitionOrigin,
)
    requires
        first.wf(),
        second.wf(),
        second.preserves(first),
        env_extends(second.env(), first.env()),
        !second.env().dom().contains(path),
        first.contains_all(def.expressions()),
        certify_term(
            first.env(),
            path,
            first.term(def.ty),
            body_term(first, def),
            first_origin,
            first.limit() as nat,
        ) is Ok,
    ensures
        certify_term(
            second.env(),
            path,
            second.term(def.ty),
            body_term(second, def),
            second_origin,
            second.limit() as nat,
        ) == Ok::<Global, TypeError<Term>>(
            Global {
                origin: second_origin,
                ..certify_term(
                    first.env(),
                    path,
                    first.term(def.ty),
                    body_term(first, def),
                    first_origin,
                    first.limit() as nat,
                )->Ok_0
            },
        ),
{
    assert(first.contains(def.expressions()[0]));
    if def.body is Some {
        assert(first.contains(def.expressions()[1]));
    }
    first.lemma_definitions(path);
    lemma_certification_stable(
        second.env(),
        first.env(),
        path,
        first.term(def.ty),
        body_term(first, def),
        first_origin,
        first.limit() as nat,
    );
}

/// Two certifications of the same definition agree: if both give a
/// certified definition, the two have the same universe and the same
/// reducibility, whatever the reasons for which the definition exists,
/// whatever the limits on reduction were, and however many other
/// definitions were certified between the first and the second.
pub proof fn lemma_certifications_agree(
    first: &Database,
    second: &Database,
    path: Path,
    def: Definition,
    first_origin: DefinitionOrigin,
    second_origin: DefinitionOrigin,
)
    requires
        first.wf(),
        second.wf(),
        first.contains_all(def.expressions()),
        forall|e: Expression| #[trigger]
            first.contains(e) ==> second.contains(e) && second.term(e) == first.term(e),
        env_extends(second.env(), first.env()),
        !second.env().dom().contains(path),
        certify_term(
            first.env(),
            path,
            first.term(def.ty),
            body_term(first, def),
            first_origin,
            first.limit() as nat,
        ) is Ok,
        certify_term(
            second.env(),
            path,
            second.term(def.ty),
            body_term(second, def),
            second_origin,
            second.limit() as nat,
        ) is Ok,
    ensures
        ({
            let one = certify_term(
                first.env(),
                path,
                first.term(def.ty),
                body_term(first, def),
                first_origin,
                first.limit() as nat,
            )->Ok_0;
            let other = certify_term(
                second.env(),
                path,
                second.term(def.ty),
                body_term(second, def),
                second_origin,
                second.limit() as nat,
            )->Ok_0;
            one.universe == other.universe && one.reducibility == other.reducibility && one.ty
                == other.ty && one.body == other.body
        }),
{
    assert(first.contains(def.expressions()[0]));
    if def.body is Some {
        assert(first.contains(def.expressions()[1]));
    }
    first.lemma_definitions(path);
    let ty = first.term(def.ty);
    let body = body_term(first, def);
    let limit = if first.limit() >= second.limit() {
        first.limit() as nat
    } else {
        second.limit() as nat
    };
    lemma_certification_limit(first.env(), path, ty, body, first_origin, first.limit() as nat, limit);
    lemma_certification_stable(second.env(), first.env(), path, ty, body, first_origin, limit);
    lemma_certification_limit(
        second.env(),
        path,
        ty,
        body,
        second_origin,
        second.limit() as nat,
        limit,
    );
}

/// Failure propagates: a definition whose type or body refers to a
/// definition that is not certified, other than a reference of the body to
/// the definition itself, is not certified either. The certification fails
/// with an error that names a definition that is missing.
pub proof fn lemma_missing_dependency_fails(
    env: Map<Path, Global>,
    path: Path,
    ty: Term,
    body: Option<Term>,
    origin: DefinitionOrigin,
    fuel: nat,
)
    requires
        !every_node(not(is_uncertified_inst(env, None)), ty, 0) || (body matches Some(value)
            && !every_node(not(is_uncertified_inst(env, Some(path))), value, 0)),
    ensures
        certify_term(env, path, ty, body, origin, fuel) matches Err(
            TypeError::NotCertified { path: missing },
        ) && !env.dom().contains(missing),
{
    lemma_find_none(is_uncertified_inst(env, None), ty, 0);
    crate::expr::find_replace::lemma_found_holds(is_uncertified_inst(env, None), ty, 0);
    if body is Some {
        lemma_find_none(is_uncertified_inst(env, Some(path)), body->0, 0);
        crate::expr::find_replace::lemma_found_holds(
            is_uncertified_inst(env, Some(path)),
            body->0,
            0,
        );
    }
}

} // verus!

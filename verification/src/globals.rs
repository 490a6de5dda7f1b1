//! The mathematical model of the certified definitions of a database, and of
//! the heights that guide their unfolding.

use vstd::prelude::*;
use crate::expr::util::closed;
use crate::expr::find_replace::{
    every_node,
    find_term,
    lemma_every_node_implies,
    lemma_find_none,
    not,
};
use crate::expr::Universe;
use crate::files::Path;
use crate::term::{Label, Term};
use crate::type_check::definition::{DefinitionOrigin, Reducibility};

verus! {

/// What a certified definition stands for.
pub struct Global {
    /// The type of the definition.
    pub ty: Term,
    /// The body of the definition, if it has one.
    pub body: Option<Term>,
    /// The universe that the type lives in.
    pub universe: Universe,
    /// Whether the definition may be unfolded, and its height.
    pub reducibility: Reducibility,
    /// Why the definition exists.
    pub origin: DefinitionOrigin,
}

/// The height of the definition at `path`: `None` where there is no
/// certified definition or it is irreducible.
pub open spec fn height_of(env: Map<Path, Global>, path: Path) -> Option<u64> {
    if env.dom().contains(path) {
        match env[path].reducibility {
            Reducibility::Reducible { height } => Some(height),
            Reducibility::Irreducible => None,
        }
    } else {
        None
    }
}

/// The height that the node at the root of `t` contributes: that of the
/// definition it refers to, if it refers to a reducible one, and zero
/// otherwise.
pub open spec fn own_height(env: Map<Path, Global>, t: Term) -> u64 {
    match t.label {
        Label::Inst(path) => match height_of(env, path) {
            Some(height) => height,
            None => 0,
        },
        _ => 0,
    }
}

/// The larger of two heights.
pub open spec fn higher(a: u64, b: u64) -> u64 {
    if a >= b {
        a
    } else {
        b
    }
}

/// The greatest height of a reducible definition that `t` refers to, and
/// zero if it refers to none.
pub open spec fn max_height(env: Map<Path, Global>, t: Term) -> u64
    decreases t, t.children.len() + 1,
{
    max_height_from(env, t, 0, own_height(env, t))
}

/// The greatest of `least` and the heights in the sub-terms of `t` from the
/// `k`-th on.
pub open spec fn max_height_from(env: Map<Path, Global>, t: Term, k: nat, least: u64) -> u64
    decreases t, t.children.len() - k,
{
    if k >= t.children.len() {
        least
    } else {
        max_height_from(env, t, k + 1, higher(least, max_height(env, t.children[k as int])))
    }
}

/// Holds of the references to reducible definitions.
pub open spec fn is_reducible_inst(env: Map<Path, Global>) -> spec_fn(Term, nat) -> bool {
    |t: Term, offset: nat|
        match t.label {
            Label::Inst(path) => height_of(env, path) is Some,
            _ => false,
        }
}

/// Whether `t` refers to a reducible definition.
pub open spec fn mentions_reducible(env: Map<Path, Global>, t: Term) -> bool {
    find_term(is_reducible_inst(env), t, 0) is Some
}

/// Holds of the references to definitions that are not certified, other
/// than `except`.
pub open spec fn is_uncertified_inst(env: Map<Path, Global>, except: Option<Path>) -> spec_fn(
    Term,
    nat,
) -> bool {
    |t: Term, offset: nat|
        match t.label {
            Label::Inst(path) => !env.dom().contains(path) && except != Some(path),
            _ => false,
        }
}

/// Whether every definition that `t` refers to is certified.
pub open spec fn depends_on_certified(env: Map<Path, Global>, t: Term) -> bool {
    find_term(is_uncertified_inst(env, None), t, 0) is None
}

/// Holds of the references to the definition at `path`.
pub open spec fn is_inst(path: Path) -> spec_fn(Term, nat) -> bool {
    |t: Term, offset: nat| t.label == Label::Inst(path)
}

/// The height of a definition with the given body: zero if the body refers
/// to no reducible definition, and otherwise one more than the greatest
/// height among those it refers to. `None` where that height does not fit in
/// 64 bits.
pub open spec fn height_for(env: Map<Path, Global>, body: Term) -> Option<u64> {
    if !mentions_reducible(env, body) {
        Some(0)
    } else if max_height(env, body) < u64::MAX {
        Some((max_height(env, body) + 1) as u64)
    } else {
        None
    }
}

/// What the definitions of `env` promise each other: a definition has no
/// free variables; every definition that the type of a definition refers to
/// is certified; a reducible definition has a body, every definition that
/// the body refers to is certified, and its height is the one that
/// [`height_for`] gives.
pub open spec fn env_wf(env: Map<Path, Global>) -> bool {
    forall|path: Path| #[trigger]
        env.dom().contains(path) ==> closed(env[path].ty) && (env[path].body matches Some(body)
            ==> closed(body)) && depends_on_certified(env, env[path].ty)
            && match env[path].reducibility {
            Reducibility::Reducible { height } => env[path].body is Some && depends_on_certified(
                env,
                env[path].body->0,
            ) && height_for(env, env[path].body->0) == Some(height),
            Reducibility::Irreducible => true,
        }
}

/// Holds of every node but the references to definitions that are not
/// certified.
pub open spec fn is_certified_inst(env: Map<Path, Global>) -> spec_fn(Term, nat) -> bool {
    |t: Term, offset: nat|
        match t.label {
            Label::Inst(path) => env.dom().contains(path),
            _ => true,
        }
}

/// Whether `later` holds every definition of `earlier`, unchanged.
pub open spec fn env_extends(later: Map<Path, Global>, earlier: Map<Path, Global>) -> bool {
    forall|path: Path| #[trigger]
        earlier.dom().contains(path) ==> later.dom().contains(path) && later[path]
            == earlier[path]
}

/// A term depends on certified definitions only exactly when each of its
/// references is to a certified definition.
pub proof fn lemma_depends_on_certified(env: Map<Path, Global>, t: Term)
    ensures
        depends_on_certified(env, t) <==> every_node(is_certified_inst(env), t, 0),
{
    let uncertified = is_uncertified_inst(env, None);
    lemma_find_none(uncertified, t, 0);
    if every_node(not(uncertified), t, 0) {
        lemma_every_node_implies(not(uncertified), is_certified_inst(env), t, 0);
    }
    if every_node(is_certified_inst(env), t, 0) {
        lemma_every_node_implies(is_certified_inst(env), not(uncertified), t, 0);
    }
}

/// The greatest height in a term does not change when definitions are added
/// that the term does not refer to.
pub proof fn lemma_max_height_extends(
    later: Map<Path, Global>,
    earlier: Map<Path, Global>,
    t: Term,
    offset: nat,
)
    requires
        env_extends(later, earlier),
        every_node(is_certified_inst(earlier), t, offset),
    ensures
        max_height(later, t) == max_height(earlier, t),
    decreases t, t.children.len() + 1,
{
    lemma_max_height_from_extends(later, earlier, t, offset, 0, own_height(earlier, t));
}

proof fn lemma_max_height_from_extends(
    later: Map<Path, Global>,
    earlier: Map<Path, Global>,
    t: Term,
    offset: nat,
    k: nat,
    least: u64,
)
    requires
        env_extends(later, earlier),
        every_node(is_certified_inst(earlier), t, offset),
    ensures
        max_height_from(later, t, k, least) == max_height_from(earlier, t, k, least),
    decreases t, t.children.len() - k,
{
    if k < t.children.len() {
        let child = t.children[k as int];
        lemma_max_height_extends(later, earlier, child, offset + t.label.binders(k as int));
        lemma_max_height_from_extends(
            later,
            earlier,
            t,
            offset,
            k + 1,
            higher(least, max_height(earlier, child)),
        );
    }
}

/// Whether a term refers to a reducible definition does not change when
/// definitions are added that the term does not refer to.
pub proof fn lemma_mentions_reducible_extends(
    later: Map<Path, Global>,
    earlier: Map<Path, Global>,
    t: Term,
)
    requires
        env_extends(later, earlier),
        every_node(is_certified_inst(earlier), t, 0),
    ensures
        mentions_reducible(later, t) == mentions_reducible(earlier, t),
{
    lemma_find_none(is_reducible_inst(later), t, 0);
    lemma_find_none(is_reducible_inst(earlier), t, 0);
    lemma_irreducible_extends(later, earlier, t, 0);
}

proof fn lemma_irreducible_extends(
    later: Map<Path, Global>,
    earlier: Map<Path, Global>,
    t: Term,
    offset: nat,
)
    requires
        env_extends(later, earlier),
        every_node(is_certified_inst(earlier), t, offset),
    ensures
        every_node(not(is_reducible_inst(later)), t, offset) == every_node(
            not(is_reducible_inst(earlier)),
            t,
            offset,
        ),
    decreases t,
{
    assert forall|k: int| 0 <= k < t.children.len() implies every_node(
        not(is_reducible_inst(later)),
        #[trigger] t.children[k],
        offset + t.label.binders(k),
    ) == every_node(
        not(is_reducible_inst(earlier)),
        t.children[k],
        offset + t.label.binders(k),
    ) by {
        lemma_irreducible_extends(later, earlier, t.children[k], offset + t.label.binders(k));
    }
}

/// A term that depends on certified definitions only still does when
/// definitions are added.
pub proof fn lemma_depends_extends(later: Map<Path, Global>, earlier: Map<Path, Global>, t: Term)
    requires
        env_extends(later, earlier),
        depends_on_certified(earlier, t),
    ensures
        depends_on_certified(later, t),
{
    lemma_depends_on_certified(earlier, t);
    lemma_depends_on_certified(later, t);
    lemma_every_node_implies(is_certified_inst(earlier), is_certified_inst(later), t, 0);
}

/// The height of a definition does not change when definitions are added
/// that its body does not refer to, and the body still depends on certified
/// definitions only.
pub proof fn lemma_height_extends(later: Map<Path, Global>, earlier: Map<Path, Global>, body: Term)
    requires
        env_extends(later, earlier),
        depends_on_certified(earlier, body),
    ensures
        depends_on_certified(later, body),
        height_for(later, body) == height_for(earlier, body),
        max_height(later, body) == max_height(earlier, body),
        mentions_reducible(later, body) == mentions_reducible(earlier, body),
{
    lemma_depends_on_certified(earlier, body);
    lemma_depends_on_certified(later, body);
    lemma_every_node_implies(is_certified_inst(earlier), is_certified_inst(later), body, 0);
    lemma_max_height_extends(later, earlier, body, 0);
    lemma_mentions_reducible_extends(later, earlier, body);
}

/// Adding a definition at a path that had none keeps the promises that the
/// definitions make each other, if the new definition keeps them too.
pub proof fn lemma_env_wf_insert(env: Map<Path, Global>, path: Path, global: Global)
    requires
        env_wf(env),
        !env.dom().contains(path),
        closed(global.ty),
        global.body matches Some(body) ==> closed(body),
        depends_on_certified(env, global.ty),
        match global.reducibility {
            Reducibility::Reducible { height } => global.body is Some && depends_on_certified(
                env,
                global.body->0,
            ) && height_for(env, global.body->0) == Some(height),
            Reducibility::Irreducible => true,
        },
    ensures
        env_wf(env.insert(path, global)),
{
    let later = env.insert(path, global);
    assert(env_extends(later, env));
    assert forall|p: Path| #[trigger] later.dom().contains(p) implies closed(later[p].ty) && (
    later[p].body matches Some(body) ==> closed(body)) && depends_on_certified(
        later,
        later[p].ty,
    ) && match later[p].reducibility {
        Reducibility::Reducible { height } => later[p].body is Some && depends_on_certified(
            later,
            later[p].body->0,
        ) && height_for(later, later[p].body->0) == Some(height),
        Reducibility::Irreducible => true,
    } by {
        if p == path {
            lemma_depends_extends(later, env, global.ty);
        } else {
            assert(env.dom().contains(p));
            lemma_depends_extends(later, env, env[p].ty);
        }
        if later[p].reducibility is Reducible {
            if p == path {
                lemma_height_extends(later, env, global.body->0);
            } else {
                assert(env.dom().contains(p));
                lemma_height_extends(later, env, env[p].body->0);
            }
        }
    }
}

/// The height of a reducible definition whose body refers to a reducible
/// definition is one more than the greatest height of a definition that the
/// body refers to, so it is greater than each of them.
pub proof fn lemma_height_is_greater(env: Map<Path, Global>, path: Path)
    requires
        env_wf(env),
        env.dom().contains(path),
        env[path].reducibility matches Reducibility::Reducible { height } && height > 0,
    ensures
        env[path].body is Some,
        max_height(env, env[path].body->0) == env[path].reducibility->height - 1,
{
}

} // verus!

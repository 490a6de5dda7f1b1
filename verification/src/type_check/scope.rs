//! What has a type has no unbound variables.
//!
//! Type inference looks every variable up in its context, so an expression
//! that has a type refers only to variables that the context or a binder of
//! its own declares. A certified definition therefore has no free variables,
//! which is what allows its body to stand in for it under any number of
//! binders.

use vstd::prelude::*;
use crate::expr::find_replace::{every_node, replace_term};
use crate::expr::util::{closed, instantiate_rule, instantiate_term, is_bound};
use crate::files::Path;
use crate::globals::Global;
use crate::term::{Label, Term};
use crate::type_check::definition::DefinitionOrigin;
use crate::type_check::infer::{infer_sort_term, infer_term};
use crate::type_check::{certify_term, own_reference};

verus! {

/// Holds of every node but the variables that are bound neither by one of
/// the binders above them nor by one of the `n` binders around the whole
/// term.
pub open spec fn below(n: nat) -> spec_fn(Term, nat) -> bool {
    |t: Term, offset: nat|
        match t.label {
            Label::Local(index) => index < offset + n,
            _ => true,
        }
}

/// Whether every variable of `t` is bound by a binder of `t` or by one of
/// `n` binders around it.
pub open spec fn scoped(t: Term, n: nat) -> bool {
    every_node(below(n), t, 0)
}

/// A binder around a term can be counted with the binders above its nodes
/// or with those around the term.
proof fn lemma_below_shift(t: Term, n: nat, offset: nat, k: nat)
    ensures
        every_node(below(n), t, offset + k) == every_node(below(n + k), t, offset),
    decreases t,
{
    assert forall|j: int| 0 <= j < t.children.len() implies every_node(
        below(n),
        #[trigger] t.children[j],
        offset + k + t.label.binders(j),
    ) == every_node(below(n + k), t.children[j], offset + t.label.binders(j)) by {
        lemma_below_shift(t.children[j], n, offset + t.label.binders(j), k);
    }
}

/// If a term is scoped after its first free variable has been instantiated,
/// it was scoped with one more binder around it.
proof fn lemma_instantiated_scoped(t: Term, substitution: Term, n: nat, offset: nat)
    requires
        t.well_shaped(),
        every_node(below(n), replace_term(instantiate_rule(substitution), t, offset), offset),
    ensures
        every_node(below(n + 1), t, offset),
    decreases t,
{
    let rule = instantiate_rule(substitution);
    let replaced = replace_term(rule, t, offset);
    if rule(t, offset) is None {
        assert forall|k: int| 0 <= k < t.children.len() implies every_node(
            below(n + 1),
            #[trigger] t.children[k],
            offset + t.label.binders(k),
        ) by {
            assert(replaced.children[k] == replace_term(
                rule,
                t.children[k],
                offset + t.label.binders(k),
            ));
            lemma_instantiated_scoped(t.children[k], substitution, n, offset + t.label.binders(k));
        }
    }
}

/// A term that has a type in a context refers only to variables of the
/// context and of its own binders.
pub proof fn lemma_typed_is_scoped(
    env: Map<Path, Global>,
    own: Option<(Path, Term)>,
    ctx: Seq<Term>,
    t: Term,
    fuel: nat,
)
    requires
        t.well_shaped(),
        infer_term(env, own, ctx, t, fuel) is Ok,
    ensures
        scoped(t, ctx.len()),
    decreases fuel, 1nat,
{
    match t.label {
        Label::Pi(_) => lemma_pi_is_scoped(env, own, ctx, t, fuel),
        Label::Lambda(_) => lemma_lambda_is_scoped(env, own, ctx, t, fuel),
        Label::Apply => lemma_apply_is_scoped(env, own, ctx, t, fuel),
        Label::Let(_) => lemma_let_is_scoped(env, own, ctx, t, fuel),
        _ => {},
    }
}

proof fn lemma_pi_is_scoped(
    env: Map<Path, Global>,
    own: Option<(Path, Term)>,
    ctx: Seq<Term>,
    t: Term,
    fuel: nat,
)
    requires
        t.well_shaped(),
        t.label is Pi,
        infer_term(env, own, ctx, t, fuel) is Ok,
    ensures
        scoped(t, ctx.len()),
    decreases fuel, 0nat,
{
    let next = (fuel - 1) as nat;
    assert(t.children.len() == 2 && fuel > 0);
    assert(t.children[0].well_shaped() && t.children[1].well_shaped());
    assert(infer_sort_term(env, own, ctx, t.children[0], next) is Ok);
    assert(infer_sort_term(env, own, ctx.push(t.children[0]), t.children[1], next) is Ok);
    lemma_sorted_is_scoped(env, own, ctx, t.children[0], next);
    lemma_sorted_is_scoped(env, own, ctx.push(t.children[0]), t.children[1], next);
    lemma_below_shift(t.children[1], ctx.len(), 0, 1);
    lemma_binder_scoped(t, ctx.len());
}

proof fn lemma_lambda_is_scoped(
    env: Map<Path, Global>,
    own: Option<(Path, Term)>,
    ctx: Seq<Term>,
    t: Term,
    fuel: nat,
)
    requires
        t.well_shaped(),
        t.label is Lambda,
        infer_term(env, own, ctx, t, fuel) is Ok,
    ensures
        scoped(t, ctx.len()),
    decreases fuel, 0nat,
{
    let next = (fuel - 1) as nat;
    assert(t.children.len() == 2 && fuel > 0);
    assert(t.children[0].well_shaped() && t.children[1].well_shaped());
    assert(infer_sort_term(env, own, ctx, t.children[0], next) is Ok);
    assert(infer_term(env, own, ctx.push(t.children[0]), t.children[1], next) is Ok);
    lemma_sorted_is_scoped(env, own, ctx, t.children[0], next);
    lemma_typed_is_scoped(env, own, ctx.push(t.children[0]), t.children[1], next);
    lemma_below_shift(t.children[1], ctx.len(), 0, 1);
    lemma_binder_scoped(t, ctx.len());
}

proof fn lemma_apply_is_scoped(
    env: Map<Path, Global>,
    own: Option<(Path, Term)>,
    ctx: Seq<Term>,
    t: Term,
    fuel: nat,
)
    requires
        t.well_shaped(),
        t.label is Apply,
        infer_term(env, own, ctx, t, fuel) is Ok,
    ensures
        scoped(t, ctx.len()),
    decreases fuel, 0nat,
{
    let next = (fuel - 1) as nat;
    assert(t.children.len() == 2 && fuel > 0);
    assert(t.children[0].well_shaped() && t.children[1].well_shaped());
    assert(infer_term(env, own, ctx, t.children[0], next) is Ok);
    assert(infer_term(env, own, ctx, t.children[1], next) is Ok);
    lemma_typed_is_scoped(env, own, ctx, t.children[0], next);
    lemma_typed_is_scoped(env, own, ctx, t.children[1], next);
    assert forall|k: int| 0 <= k < t.children.len() implies every_node(
        below(ctx.len()),
        #[trigger] t.children[k],
        0 + t.label.binders(k),
    ) by {}
}

proof fn lemma_let_is_scoped(
    env: Map<Path, Global>,
    own: Option<(Path, Term)>,
    ctx: Seq<Term>,
    t: Term,
    fuel: nat,
)
    requires
        t.well_shaped(),
        t.label is Let,
        infer_term(env, own, ctx, t, fuel) is Ok,
    ensures
        scoped(t, ctx.len()),
    decreases fuel, 0nat,
{
    let next = (fuel - 1) as nat;
    assert(t.children.len() == 2 && fuel > 0);
    assert(t.children[0].well_shaped() && t.children[1].well_shaped());
    let instantiated = instantiate_term(t.children[1], t.children[0]);
    assert(infer_term(env, own, ctx, t.children[0], next) is Ok);
    assert(infer_term(env, own, ctx, instantiated, next) is Ok);
    lemma_typed_is_scoped(env, own, ctx, t.children[0], next);
    lemma_instantiate_well_shaped(t.children[1], t.children[0]);
    lemma_typed_is_scoped(env, own, ctx, instantiated, next);
    lemma_instantiated_scoped(t.children[1], t.children[0], ctx.len(), 0);
    lemma_below_shift(t.children[1], ctx.len(), 0, 1);
    lemma_binder_scoped(t, ctx.len());
}

/// A node with two sub-terms, of which it binds a variable in the second,
/// is scoped if its sub-terms are.
proof fn lemma_binder_scoped(t: Term, n: nat)
    requires
        t.children.len() == 2,
        t.label is Pi || t.label is Lambda || t.label is Let,
        every_node(below(n), t.children[0], 0),
        every_node(below(n), t.children[1], 1),
    ensures
        scoped(t, n),
{
    assert forall|k: int| 0 <= k < t.children.len() implies every_node(
        below(n),
        #[trigger] t.children[k],
        0 + t.label.binders(k),
    ) by {}
}

/// A type that lives in a universe refers only to variables of the context
/// and of its own binders.
pub proof fn lemma_sorted_is_scoped(
    env: Map<Path, Global>,
    own: Option<(Path, Term)>,
    ctx: Seq<Term>,
    t: Term,
    fuel: nat,
)
    requires
        t.well_shaped(),
        infer_sort_term(env, own, ctx, t, fuel) is Ok,
    ensures
        scoped(t, ctx.len()),
    decreases fuel, 2nat,
{
    lemma_typed_is_scoped(env, own, ctx, t, fuel);
}

/// Instantiation of well shaped terms gives a well shaped term.
pub proof fn lemma_instantiate_well_shaped(t: Term, substitution: Term)
    requires
        t.well_shaped(),
        substitution.well_shaped(),
    ensures
        instantiate_term(t, substitution).well_shaped(),
{
    let rule = instantiate_rule(substitution);
    assert forall|s: Term, o: nat| (#[trigger] rule(s, o)) is Some implies rule(
        s,
        o,
    )->0.well_shaped() by {
        lemma_lift_well_shaped(substitution, 0, o);
    }
    lemma_replace_well_shaped(rule, t, 0);
}

/// Raising the free variables of a well shaped term gives a well shaped
/// term.
pub proof fn lemma_lift_well_shaped(t: Term, bias: nat, shift: nat)
    requires
        t.well_shaped(),
    ensures
        crate::expr::util::lift_term(t, bias, shift).well_shaped(),
{
    lemma_replace_well_shaped(crate::expr::util::lift_rule(bias, shift), t, 0);
}

/// A replacement in a well shaped term gives a well shaped term, if the
/// rule puts well shaped terms only in the place of nodes.
pub proof fn lemma_replace_well_shaped(
    rule: spec_fn(Term, nat) -> Option<Term>,
    t: Term,
    offset: nat,
)
    requires
        t.well_shaped(),
        forall|s: Term, o: nat| (#[trigger] rule(s, o)) is Some ==> rule(s, o)->0.well_shaped(),
    ensures
        replace_term(rule, t, offset).well_shaped(),
    decreases t,
{
    if rule(t, offset) is None {
        let replaced = replace_term(rule, t, offset);
        assert forall|k: int| 0 <= k < replaced.children.len() implies (
        #[trigger] replaced.children[k]).well_shaped() by {
            assert(t.children[k].well_shaped());
            lemma_replace_well_shaped(rule, t.children[k], offset + t.label.binders(k));
        }
    }
}

/// A certified definition has no free variables: neither its type nor its
/// body refers to a variable that it does not bind itself.
pub proof fn lemma_certified_is_closed(
    env: Map<Path, Global>,
    path: Path,
    ty: Term,
    body: Option<Term>,
    origin: DefinitionOrigin,
    fuel: nat,
)
    requires
        ty.well_shaped(),
        body matches Some(value) ==> value.well_shaped(),
        certify_term(env, path, ty, body, origin, fuel) is Ok,
    ensures
        closed(ty),
        body matches Some(value) ==> closed(value),
{
    lemma_sorted_is_scoped(env, None, Seq::empty(), ty, fuel);
    crate::expr::find_replace::lemma_every_node_implies(below(0), is_bound(), ty, 0);
    if body is Some {
        lemma_typed_is_scoped(env, own_reference(env, path, ty), Seq::empty(), body->0, fuel);
        crate::expr::find_replace::lemma_every_node_implies(below(0), is_bound(), body->0, 0);
    }
}

} // verus!

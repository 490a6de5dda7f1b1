//! The limit on reduction decides only whether there is a result.
//!
//! Reduction, comparison and type inference give up when their steps are
//! nested too deeply. Where they do not give up, their result is the one
//! that any higher limit gives too.

use vstd::prelude::*;
use crate::error::KernelError;
use crate::expr::util::{instantiate_fits, instantiate_term};
use crate::files::Path;
use crate::globals::Global;
use crate::term::{Label, Term};
use crate::type_check::defeq::{defeq_children, defeq_nodes, defeq_term};
use crate::type_check::definition::DefinitionOrigin;
use crate::type_check::infer::{infer_sort_term, infer_term, TypeError};
use crate::type_check::unfold::unfold_term;
use crate::type_check::whnf::{apply_all, first_case, whnf_core_term, whnf_term};
use crate::type_check::{certify_term, missing_dependency, own_reference};

verus! {

/// Whether reduction gave up because of the limit.
pub open spec fn gave_up<T>(outcome: Result<T, KernelError>) -> bool {
    outcome == Err::<T, KernelError>(KernelError::ReductionLimit)
}

/// Whether type inference gave up because of the limit.
pub open spec fn inference_gave_up<T>(outcome: Result<T, TypeError<Term>>) -> bool {
    outcome == Err::<T, TypeError<Term>>(TypeError::Kernel { error: KernelError::ReductionLimit })
}

/// Reduction at the head that does not give up within `fuel` nested steps
/// comes to the same result within any greater number.
pub proof fn lemma_whnf_core_limit(env: Map<Path, Global>, t: Term, fuel: nat, more: nat)
    requires
        fuel <= more,
        !gave_up(whnf_core_term(env, t, fuel)),
    ensures
        whnf_core_term(env, t, more) == whnf_core_term(env, t, fuel),
    decreases fuel, 0nat,
{
    let next = (fuel - 1) as nat;
    let further = (more - 1) as nat;
    match t.label {
        Label::Apply => {
            if t.children.len() == 2 && fuel > 0 {
                let right = t.children[1];
                lemma_whnf_core_limit(env, t.children[0], next, further);
                if whnf_core_term(env, t.children[0], next) is Ok {
                    let left = whnf_core_term(env, t.children[0], next)->Ok_0;
                    if left.label is Lambda && left.children.len() == 2 && instantiate_fits(
                        left.children[1],
                        right,
                    ) {
                        lemma_whnf_core_limit(
                            env,
                            instantiate_term(left.children[1], right),
                            next,
                            further,
                        );
                    } else if left.label is Fix && left.children.len() == 3 && instantiate_fits(
                        left.children[2],
                        left,
                    ) && instantiate_fits(instantiate_term(left.children[2], left), right) {
                        lemma_whnf_core_limit(
                            env,
                            instantiate_term(instantiate_term(left.children[2], left), right),
                            next,
                            further,
                        );
                    }
                }
            }
        },
        Label::Let(_) => {
            if t.children.len() == 2 && fuel > 0 && instantiate_fits(
                t.children[1],
                t.children[0],
            ) {
                lemma_whnf_core_limit(
                    env,
                    instantiate_term(t.children[1], t.children[0]),
                    next,
                    further,
                );
            }
        },
        Label::Match { cases } => {
            if t.children.len() == 2 + cases.len() && fuel > 0 {
                lemma_whnf_limit(env, t.children[0], next, further);
                if whnf_term(env, t.children[0], next) is Ok {
                    let subject = whnf_term(env, t.children[0], next)->Ok_0;
                    match subject.label {
                        Label::Intro { variant, parameters, fields, .. } => {
                            if subject.children.len() == parameters + fields.len() && first_case(
                                cases,
                                variant,
                                0,
                            ) is Some {
                                let i = first_case(cases, variant, 0)->0;
                                lemma_whnf_core_limit(
                                    env,
                                    apply_all(
                                        t.children[2 + i as int],
                                        subject.children.skip(parameters as int),
                                    ),
                                    next,
                                    further,
                                );
                            }
                        },
                        _ => {},
                    }
                }
            }
        },
        _ => {},
    }
}

/// Reduction to weak head normal form that does not give up within `fuel`
/// nested steps comes to the same result within any greater number.
pub proof fn lemma_whnf_limit(env: Map<Path, Global>, t: Term, fuel: nat, more: nat)
    requires
        fuel <= more,
        !gave_up(whnf_term(env, t, fuel)),
    ensures
        whnf_term(env, t, more) == whnf_term(env, t, fuel),
    decreases fuel, 1nat,
{
    lemma_whnf_core_limit(env, t, fuel, more);
    if whnf_core_term(env, t, fuel) is Ok {
        let reduced = whnf_core_term(env, t, fuel)->Ok_0;
        if unfold_term(env, reduced) is Some && fuel > 0 {
            lemma_whnf_limit(
                env,
                unfold_term(env, reduced)->0,
                (fuel - 1) as nat,
                (more - 1) as nat,
            );
        }
    }
}

/// A comparison that does not give up within `fuel` nested steps comes to
/// the same result within any greater number.
pub proof fn lemma_defeq_limit(env: Map<Path, Global>, a: Term, b: Term, fuel: nat, more: nat)
    requires
        fuel <= more,
        !gave_up(defeq_term(env, a, b, fuel)),
    ensures
        defeq_term(env, a, b, more) == defeq_term(env, a, b, fuel),
    decreases fuel, 0nat, 0nat,
{
    if a != b && fuel > 0 {
        let next = (fuel - 1) as nat;
        let further = (more - 1) as nat;
        lemma_whnf_core_limit(env, a, next, further);
        if whnf_core_term(env, a, next) is Ok {
            lemma_whnf_core_limit(env, b, next, further);
            if whnf_core_term(env, b, next) is Ok {
                let x = whnf_core_term(env, a, next)->Ok_0;
                let y = whnf_core_term(env, b, next)->Ok_0;
                if x != y {
                    if !gave_up(defeq_nodes(env, x, y, next)) {
                        lemma_defeq_nodes_limit(env, x, y, next, further);
                    }
                    if unfold_term(env, x) is Some && !gave_up(
                        defeq_term(env, unfold_term(env, x)->0, y, next),
                    ) {
                        lemma_defeq_limit(env, unfold_term(env, x)->0, y, next, further);
                    }
                    if unfold_term(env, y) is Some && !gave_up(
                        defeq_term(env, x, unfold_term(env, y)->0, next),
                    ) {
                        lemma_defeq_limit(env, x, unfold_term(env, y)->0, next, further);
                    }
                    if unfold_term(env, x) is Some && unfold_term(env, y) is Some && !gave_up(
                        defeq_term(env, unfold_term(env, x)->0, unfold_term(env, y)->0, next),
                    ) {
                        lemma_defeq_limit(
                            env,
                            unfold_term(env, x)->0,
                            unfold_term(env, y)->0,
                            next,
                            further,
                        );
                    }
                }
            }
        }
    }
}

/// A comparison of nodes that does not give up within `fuel` nested steps
/// comes to the same result within any greater number.
pub proof fn lemma_defeq_nodes_limit(env: Map<Path, Global>, x: Term, y: Term, fuel: nat, more: nat)
    requires
        fuel <= more,
        !gave_up(defeq_nodes(env, x, y, fuel)),
    ensures
        defeq_nodes(env, x, y, more) == defeq_nodes(env, x, y, fuel),
    decreases fuel, 2nat, 0nat,
{
    if x.label.alike(y.label) && x.children.len() == y.children.len() {
        lemma_defeq_children_limit(env, x, y, 0, fuel, more);
    }
}

/// A comparison of sub-terms that does not give up within `fuel` nested
/// steps comes to the same result within any greater number.
pub proof fn lemma_defeq_children_limit(
    env: Map<Path, Global>,
    x: Term,
    y: Term,
    k: nat,
    fuel: nat,
    more: nat,
)
    requires
        fuel <= more,
        !gave_up(defeq_children(env, x, y, k, fuel)),
    ensures
        defeq_children(env, x, y, k, more) == defeq_children(env, x, y, k, fuel),
    decreases fuel, 1nat, x.children.len() - k,
{
    if k < x.children.len() && k < y.children.len() {
        lemma_defeq_limit(env, x.children[k as int], y.children[k as int], fuel, more);
        if defeq_term(env, x.children[k as int], y.children[k as int], fuel) == Ok::<
            bool,
            KernelError,
        >(true) {
            lemma_defeq_children_limit(env, x, y, k + 1, fuel, more);
        }
    }
}

/// Type inference that does not give up within `fuel` nested steps comes to
/// the same result within any greater number.
pub proof fn lemma_infer_limit(
    env: Map<Path, Global>,
    own: Option<(Path, Term)>,
    ctx: Seq<Term>,
    t: Term,
    fuel: nat,
    more: nat,
)
    requires
        fuel <= more,
        !inference_gave_up(infer_term(env, own, ctx, t, fuel)),
    ensures
        infer_term(env, own, ctx, t, more) == infer_term(env, own, ctx, t, fuel),
    decreases fuel, 1nat,
{
    if t.children.len() == 2 && fuel > 0 {
        match t.label {
            Label::Pi(_) => lemma_infer_pi_limit(env, own, ctx, t, fuel, more),
            Label::Lambda(_) => lemma_infer_lambda_limit(env, own, ctx, t, fuel, more),
            Label::Apply => lemma_infer_apply_limit(env, own, ctx, t, fuel, more),
            Label::Let(_) => lemma_infer_let_limit(env, own, ctx, t, fuel, more),
            _ => {},
        }
    }
}

proof fn lemma_infer_pi_limit(
    env: Map<Path, Global>,
    own: Option<(Path, Term)>,
    ctx: Seq<Term>,
    t: Term,
    fuel: nat,
    more: nat,
)
    requires
        0 < fuel <= more,
        t.label is Pi,
        t.children.len() == 2,
        !inference_gave_up(infer_term(env, own, ctx, t, fuel)),
    ensures
        infer_term(env, own, ctx, t, more) == infer_term(env, own, ctx, t, fuel),
    decreases fuel, 0nat,
{
    let next = (fuel - 1) as nat;
    let further = (more - 1) as nat;
    lemma_infer_sort_limit(env, own, ctx, t.children[0], next, further);
    if infer_sort_term(env, own, ctx, t.children[0], next) is Ok {
        lemma_infer_sort_limit(env, own, ctx.push(t.children[0]), t.children[1], next, further);
    }
}

proof fn lemma_infer_lambda_limit(
    env: Map<Path, Global>,
    own: Option<(Path, Term)>,
    ctx: Seq<Term>,
    t: Term,
    fuel: nat,
    more: nat,
)
    requires
        0 < fuel <= more,
        t.label is Lambda,
        t.children.len() == 2,
        !inference_gave_up(infer_term(env, own, ctx, t, fuel)),
    ensures
        infer_term(env, own, ctx, t, more) == infer_term(env, own, ctx, t, fuel),
    decreases fuel, 0nat,
{
    let next = (fuel - 1) as nat;
    let further = (more - 1) as nat;
    lemma_infer_sort_limit(env, own, ctx, t.children[0], next, further);
    if infer_sort_term(env, own, ctx, t.children[0], next) is Ok {
        lemma_infer_limit(env, own, ctx.push(t.children[0]), t.children[1], next, further);
    }
}

proof fn lemma_infer_apply_limit(
    env: Map<Path, Global>,
    own: Option<(Path, Term)>,
    ctx: Seq<Term>,
    t: Term,
    fuel: nat,
    more: nat,
)
    requires
        0 < fuel <= more,
        t.label is Apply,
        t.children.len() == 2,
        !inference_gave_up(infer_term(env, own, ctx, t, fuel)),
    ensures
        infer_term(env, own, ctx, t, more) == infer_term(env, own, ctx, t, fuel),
    decreases fuel, 0nat,
{
    let next = (fuel - 1) as nat;
    let further = (more - 1) as nat;
    lemma_infer_limit(env, own, ctx, t.children[0], next, further);
    if infer_term(env, own, ctx, t.children[0], next) is Ok {
        let function_ty = infer_term(env, own, ctx, t.children[0], next)->Ok_0;
        lemma_whnf_limit(env, function_ty, next, further);
        if whnf_term(env, function_ty, next) is Ok {
            let reduced = whnf_term(env, function_ty, next)->Ok_0;
            if reduced.label is Pi && reduced.children.len() == 2 {
                lemma_infer_limit(env, own, ctx, t.children[1], next, further);
                if infer_term(env, own, ctx, t.children[1], next) is Ok {
                    let argument_ty = infer_term(env, own, ctx, t.children[1], next)->Ok_0;
                    lemma_defeq_limit(env, argument_ty, reduced.children[0], next, further);
                }
            }
        }
    }
}

proof fn lemma_infer_let_limit(
    env: Map<Path, Global>,
    own: Option<(Path, Term)>,
    ctx: Seq<Term>,
    t: Term,
    fuel: nat,
    more: nat,
)
    requires
        0 < fuel <= more,
        t.label is Let,
        t.children.len() == 2,
        !inference_gave_up(infer_term(env, own, ctx, t, fuel)),
    ensures
        infer_term(env, own, ctx, t, more) == infer_term(env, own, ctx, t, fuel),
    decreases fuel, 0nat,
{
    let next = (fuel - 1) as nat;
    let further = (more - 1) as nat;
    lemma_infer_limit(env, own, ctx, t.children[0], next, further);
    if infer_term(env, own, ctx, t.children[0], next) is Ok && instantiate_fits(
        t.children[1],
        t.children[0],
    ) {
        lemma_infer_limit(
            env,
            own,
            ctx,
            instantiate_term(t.children[1], t.children[0]),
            next,
            further,
        );
    }
}

/// Inference of a universe that does not give up within `fuel` nested steps
/// comes to the same result within any greater number.
pub proof fn lemma_infer_sort_limit(
    env: Map<Path, Global>,
    own: Option<(Path, Term)>,
    ctx: Seq<Term>,
    t: Term,
    fuel: nat,
    more: nat,
)
    requires
        fuel <= more,
        !inference_gave_up(infer_sort_term(env, own, ctx, t, fuel)),
    ensures
        infer_sort_term(env, own, ctx, t, more) == infer_sort_term(env, own, ctx, t, fuel),
    decreases fuel, 2nat,
{
    lemma_infer_limit(env, own, ctx, t, fuel, more);
    if infer_term(env, own, ctx, t, fuel) is Ok {
        lemma_whnf_limit(env, infer_term(env, own, ctx, t, fuel)->Ok_0, fuel, more);
    }
}

/// A certification that does not give up within `fuel` nested steps comes
/// to the same result within any greater number: the limit decides only
/// whether a definition can be checked, never what the check finds.
pub proof fn lemma_certification_limit(
    env: Map<Path, Global>,
    path: Path,
    ty: Term,
    body: Option<Term>,
    origin: DefinitionOrigin,
    fuel: nat,
    more: nat,
)
    requires
        fuel <= more,
        !inference_gave_up(certify_term(env, path, ty, body, origin, fuel)),
    ensures
        certify_term(env, path, ty, body, origin, more) == certify_term(
            env,
            path,
            ty,
            body,
            origin,
            fuel,
        ),
{
    if missing_dependency(env, path, ty, body) is None {
        lemma_infer_sort_limit(env, None, Seq::empty(), ty, fuel, more);
        if body is Some && infer_sort_term(env, None, Seq::empty(), ty, fuel) is Ok {
            let own = own_reference(env, path, ty);
            lemma_infer_limit(env, own, Seq::empty(), body->0, fuel, more);
            if infer_term(env, own, Seq::empty(), body->0, fuel) is Ok {
                lemma_defeq_limit(
                    env,
                    infer_term(env, own, Seq::empty(), body->0, fuel)->Ok_0,
                    ty,
                    fuel,
                    more,
                );
            }
        }
    }
}

} // verus!

//! Certification does not depend on what is certified later.
//!
//! A definition is checked against the definitions that it refers to, and
//! those were certified before it. Whatever is certified afterwards, a new
//! check of the same definition comes to the same result: that is what makes
//! it sound to remember a certified definition.

use vstd::prelude::*;
use crate::error::KernelError;
use crate::expr::find_replace::{every_node, lemma_find_none, not, replace_term};
use crate::expr::util::{instantiate_rule, instantiate_term, lift_rule, lift_term};
use crate::files::Path;
use crate::globals::{
    depends_on_certified,
    env_extends,
    env_wf,
    height_of,
    is_uncertified_inst,
    lemma_height_extends,
    Global,
};
use crate::term::{Label, Term};
use crate::type_check::defeq::{defeq_children, defeq_nodes, defeq_term};
use crate::type_check::definition::DefinitionOrigin;
use crate::type_check::infer::{infer_sort_term, infer_term, local_type, own_type, TypeError};
use crate::type_check::unfold::{head_height, unfold_term};
use crate::type_check::whnf::{apply_all, first_case, whnf_core_term, whnf_term};
use crate::type_check::{certify_term, missing_dependency, own_reference, reducibility_for};

verus! {

/// Whether every definition that `t` refers to is certified in `env`, or is
/// the one at `except`.
pub open spec fn grounded(env: Map<Path, Global>, except: Option<Path>, t: Term) -> bool
    decreases t,
{
    &&& t.label matches Label::Inst(path) ==> env.dom().contains(path) || except == Some(path)
    &&& forall|k: int|
        0 <= k < t.children.len() ==> grounded(env, except, #[trigger] t.children[k])
}

/// A term is grounded exactly when a search finds no reference in it to a
/// definition that is not certified.
pub proof fn lemma_grounded(env: Map<Path, Global>, except: Option<Path>, t: Term, offset: nat)
    ensures
        grounded(env, except, t) <==> every_node(
            not(is_uncertified_inst(env, except)),
            t,
            offset,
        ),
    decreases t,
{
    assert forall|k: int| 0 <= k < t.children.len() implies (grounded(
        env,
        except,
        #[trigger] t.children[k],
    ) <==> every_node(
        not(is_uncertified_inst(env, except)),
        t.children[k],
        offset + t.label.binders(k),
    )) by {
        lemma_grounded(env, except, t.children[k], offset + t.label.binders(k));
    }
}

/// A term that refers to certified definitions only is grounded, whatever
/// else is allowed.
pub proof fn lemma_grounded_certified(env: Map<Path, Global>, except: Option<Path>, t: Term)
    requires
        depends_on_certified(env, t),
    ensures
        grounded(env, except, t),
{
    lemma_find_none(is_uncertified_inst(env, None), t, 0);
    lemma_grounded(env, None, t, 0);
    lemma_grounded_weaken(env, except, t);
}

proof fn lemma_grounded_weaken(env: Map<Path, Global>, except: Option<Path>, t: Term)
    requires
        grounded(env, None, t),
    ensures
        grounded(env, except, t),
    decreases t,
{
    assert forall|k: int| 0 <= k < t.children.len() implies grounded(
        env,
        except,
        #[trigger] t.children[k],
    ) by {
        lemma_grounded_weaken(env, except, t.children[k]);
    }
}

/// A replacement in a grounded term gives a grounded term, if the rule puts
/// grounded terms only in the place of nodes.
pub proof fn lemma_grounded_replace(
    env: Map<Path, Global>,
    except: Option<Path>,
    rule: spec_fn(Term, nat) -> Option<Term>,
    t: Term,
    offset: nat,
)
    requires
        grounded(env, except, t),
        forall|s: Term, o: nat| (#[trigger] rule(s, o)) matches Some(r) ==> grounded(env, except, r),
    ensures
        grounded(env, except, replace_term(rule, t, offset)),
    decreases t,
{
    if rule(t, offset) is None {
        let replaced = replace_term(rule, t, offset);
        assert forall|k: int| 0 <= k < replaced.children.len() implies grounded(
            env,
            except,
            #[trigger] replaced.children[k],
        ) by {
            assert(grounded(env, except, t.children[k]));
            lemma_grounded_replace(env, except, rule, t.children[k], offset + t.label.binders(k));
        }
    }
}

/// Raising the free variables of a grounded term gives a grounded term.
pub proof fn lemma_grounded_lift(
    env: Map<Path, Global>,
    except: Option<Path>,
    t: Term,
    bias: nat,
    shift: nat,
)
    requires
        grounded(env, except, t),
    ensures
        grounded(env, except, lift_term(t, bias, shift)),
{
    lemma_grounded_replace(env, except, lift_rule(bias, shift), t, 0);
}

/// Instantiating a grounded term with a grounded term gives a grounded
/// term.
pub proof fn lemma_grounded_instantiate(
    env: Map<Path, Global>,
    except: Option<Path>,
    t: Term,
    substitution: Term,
)
    requires
        grounded(env, except, t),
        grounded(env, except, substitution),
    ensures
        grounded(env, except, instantiate_term(t, substitution)),
{
    let rule = instantiate_rule(substitution);
    assert forall|s: Term, o: nat| (#[trigger] rule(s, o)) is Some implies grounded(
        env,
        except,
        rule(s, o)->0,
    ) by {
        lemma_grounded_lift(env, except, substitution, 0, o);
    }
    lemma_grounded_replace(env, except, rule, t, 0);
}

/// Applying a grounded term to grounded terms gives a grounded term.
pub proof fn lemma_grounded_apply_all(
    env: Map<Path, Global>,
    except: Option<Path>,
    function: Term,
    arguments: Seq<Term>,
)
    requires
        grounded(env, except, function),
        forall|k: int| 0 <= k < arguments.len() ==> grounded(env, except, #[trigger] arguments[k]),
    ensures
        grounded(env, except, apply_all(function, arguments)),
    decreases arguments.len(),
{
    if arguments.len() > 0 {
        let rest = arguments.drop_last();
        assert forall|k: int| 0 <= k < rest.len() implies grounded(env, except, #[trigger] rest[k]) by {
            assert(rest[k] == arguments[k]);
        }
        lemma_grounded_apply_all(env, except, function, rest);
        let applied = Term::apply(apply_all(function, rest), arguments.last());
        assert forall|k: int| 0 <= k < applied.children.len() implies grounded(
            env,
            except,
            #[trigger] applied.children[k],
        ) by {
            assert(arguments.last() == arguments[arguments.len() - 1]);
        }
    }
}

/// What the stability of certification rests on: `later` holds every
/// definition of `earlier` unchanged, the definitions of `earlier` keep
/// their promises, and the definition at `except` is certified in neither.
pub open spec fn grows(
    later: Map<Path, Global>,
    earlier: Map<Path, Global>,
    except: Option<Path>,
) -> bool {
    &&& env_extends(later, earlier)
    &&& env_wf(earlier)
    &&& except matches Some(path) ==> !later.dom().contains(path)
}

/// Unfolding the definition at the head of a grounded term does not depend
/// on what is certified later, and gives a grounded term.
pub proof fn lemma_unfold_stable(
    later: Map<Path, Global>,
    earlier: Map<Path, Global>,
    except: Option<Path>,
    t: Term,
)
    requires
        grows(later, earlier, except),
        grounded(earlier, except, t),
    ensures
        unfold_term(later, t) == unfold_term(earlier, t),
        head_height(later, t) == head_height(earlier, t),
        unfold_term(earlier, t) matches Some(unfolded) ==> grounded(earlier, except, unfolded),
    decreases t,
{
    match t.label {
        Label::Inst(path) => {
            if earlier.dom().contains(path) && height_of(earlier, path) is Some {
                lemma_grounded_certified(earlier, except, earlier[path].body->0);
            }
        },
        Label::Apply => {
            if t.children.len() == 2 {
                assert(grounded(earlier, except, t.children[0]));
                assert(grounded(earlier, except, t.children[1]));
                lemma_unfold_stable(later, earlier, except, t.children[0]);
                if unfold_term(earlier, t.children[0]) is Some {
                    let applied = Term::apply(
                        unfold_term(earlier, t.children[0])->0,
                        t.children[1],
                    );
                    assert forall|k: int| 0 <= k < applied.children.len() implies grounded(
                        earlier,
                        except,
                        #[trigger] applied.children[k],
                    ) by {}
                }
            }
        },
        _ => {},
    }
}

/// Reduction at the head of a grounded term does not depend on what is
/// certified later, and gives a grounded term.
pub proof fn lemma_whnf_core_stable(
    later: Map<Path, Global>,
    earlier: Map<Path, Global>,
    except: Option<Path>,
    t: Term,
    fuel: nat,
)
    requires
        grows(later, earlier, except),
        grounded(earlier, except, t),
    ensures
        whnf_core_term(later, t, fuel) == whnf_core_term(earlier, t, fuel),
        whnf_core_term(earlier, t, fuel) matches Ok(reduced) ==> grounded(earlier, except, reduced),
    decreases fuel, 0nat,
{
    let next = (fuel - 1) as nat;
    match t.label {
        Label::Apply => {
            if t.children.len() == 2 && fuel > 0 {
                let right = t.children[1];
                assert(grounded(earlier, except, t.children[0]));
                assert(grounded(earlier, except, right));
                lemma_whnf_core_stable(later, earlier, except, t.children[0], next);
                if whnf_core_term(earlier, t.children[0], next) is Ok {
                    let left = whnf_core_term(earlier, t.children[0], next)->Ok_0;
                    if left.label is Lambda && left.children.len() == 2 {
                        assert(grounded(earlier, except, left.children[1]));
                        lemma_grounded_instantiate(earlier, except, left.children[1], right);
                        lemma_whnf_core_stable(
                            later,
                            earlier,
                            except,
                            instantiate_term(left.children[1], right),
                            next,
                        );
                    } else if left.label is Fix && left.children.len() == 3 {
                        assert(grounded(earlier, except, left.children[2]));
                        lemma_grounded_instantiate(earlier, except, left.children[2], left);
                        let once = instantiate_term(left.children[2], left);
                        lemma_grounded_instantiate(earlier, except, once, right);
                        lemma_whnf_core_stable(
                            later,
                            earlier,
                            except,
                            instantiate_term(once, right),
                            next,
                        );
                    } else {
                        let applied = Term::apply(left, right);
                        assert forall|k: int| 0 <= k < applied.children.len() implies grounded(
                            earlier,
                            except,
                            #[trigger] applied.children[k],
                        ) by {}
                    }
                }
            }
        },
        Label::Let(_) => {
            if t.children.len() == 2 && fuel > 0 {
                assert(grounded(earlier, except, t.children[0]));
                assert(grounded(earlier, except, t.children[1]));
                lemma_grounded_instantiate(earlier, except, t.children[1], t.children[0]);
                lemma_whnf_core_stable(
                    later,
                    earlier,
                    except,
                    instantiate_term(t.children[1], t.children[0]),
                    next,
                );
            }
        },
        Label::Match { cases } => {
            if t.children.len() == 2 + cases.len() && fuel > 0 {
                assert(grounded(earlier, except, t.children[0]));
                lemma_whnf_stable(later, earlier, except, t.children[0], next);
                if whnf_term(earlier, t.children[0], next) is Ok {
                    let subject = whnf_term(earlier, t.children[0], next)->Ok_0;
                    let kept = Term { label: t.label, children: t.children.update(0, subject) };
                    assert forall|k: int| 0 <= k < kept.children.len() implies grounded(
                        earlier,
                        except,
                        #[trigger] kept.children[k],
                    ) by {
                        if k > 0 {
                            assert(kept.children[k] == t.children[k]);
                        }
                    }
                    match subject.label {
                        Label::Intro { variant, parameters, fields, .. } => {
                            if subject.children.len() == parameters + fields.len() && first_case(
                                cases,
                                variant,
                                0,
                            ) is Some {
                                let i = first_case(cases, variant, 0)->0;
                                lemma_first_case_bound(cases, variant, 0);
                                let values = subject.children.skip(parameters as int);
                                assert forall|k: int| 0 <= k < values.len() implies grounded(
                                    earlier,
                                    except,
                                    #[trigger] values[k],
                                ) by {
                                    assert(values[k] == subject.children[parameters + k]);
                                }
                                assert(grounded(earlier, except, t.children[2 + i as int]));
                                lemma_grounded_apply_all(
                                    earlier,
                                    except,
                                    t.children[2 + i as int],
                                    values,
                                );
                                lemma_whnf_core_stable(
                                    later,
                                    earlier,
                                    except,
                                    apply_all(t.children[2 + i as int], values),
                                    next,
                                );
                            }
                        },
                        _ => {},
                    }
                }
            }
        },
        _ => {},
    }
}

/// The case that is found lies among the cases.
proof fn lemma_first_case_bound(cases: Seq<crate::files::Str>, variant: crate::files::Str, from: nat)
    ensures
        first_case(cases, variant, from) matches Some(i) ==> from <= i < cases.len(),
    decreases cases.len() - from,
{
    if from < cases.len() && cases[from as int] != variant {
        lemma_first_case_bound(cases, variant, from + 1);
    }
}

/// The weak head normal form of a grounded term does not depend on what is
/// certified later, and is grounded.
pub proof fn lemma_whnf_stable(
    later: Map<Path, Global>,
    earlier: Map<Path, Global>,
    except: Option<Path>,
    t: Term,
    fuel: nat,
)
    requires
        grows(later, earlier, except),
        grounded(earlier, except, t),
    ensures
        whnf_term(later, t, fuel) == whnf_term(earlier, t, fuel),
        whnf_term(earlier, t, fuel) matches Ok(reduced) ==> grounded(earlier, except, reduced),
    decreases fuel, 1nat,
{
    lemma_whnf_core_stable(later, earlier, except, t, fuel);
    if whnf_core_term(earlier, t, fuel) is Ok {
        let reduced = whnf_core_term(earlier, t, fuel)->Ok_0;
        lemma_unfold_stable(later, earlier, except, reduced);
        if unfold_term(earlier, reduced) is Some && fuel > 0 {
            lemma_whnf_stable(
                later,
                earlier,
                except,
                unfold_term(earlier, reduced)->0,
                (fuel - 1) as nat,
            );
        }
    }
}

/// Whether two grounded terms are definitionally equal does not depend on
/// what is certified later.
pub proof fn lemma_defeq_stable(
    later: Map<Path, Global>,
    earlier: Map<Path, Global>,
    except: Option<Path>,
    a: Term,
    b: Term,
    fuel: nat,
)
    requires
        grows(later, earlier, except),
        grounded(earlier, except, a),
        grounded(earlier, except, b),
    ensures
        defeq_term(later, a, b, fuel) == defeq_term(earlier, a, b, fuel),
    decreases fuel, 0nat, 0nat,
{
    if a != b && fuel > 0 {
        let next = (fuel - 1) as nat;
        lemma_whnf_core_stable(later, earlier, except, a, next);
        lemma_whnf_core_stable(later, earlier, except, b, next);
        if whnf_core_term(earlier, a, next) is Ok && whnf_core_term(earlier, b, next) is Ok {
            let x = whnf_core_term(earlier, a, next)->Ok_0;
            let y = whnf_core_term(earlier, b, next)->Ok_0;
            lemma_unfold_stable(later, earlier, except, x);
            lemma_unfold_stable(later, earlier, except, y);
            lemma_defeq_nodes_stable(later, earlier, except, x, y, next);
            if unfold_term(earlier, x) is Some {
                lemma_defeq_stable(later, earlier, except, unfold_term(earlier, x)->0, y, next);
            }
            if unfold_term(earlier, y) is Some {
                lemma_defeq_stable(later, earlier, except, x, unfold_term(earlier, y)->0, next);
            }
            if unfold_term(earlier, x) is Some && unfold_term(earlier, y) is Some {
                lemma_defeq_stable(
                    later,
                    earlier,
                    except,
                    unfold_term(earlier, x)->0,
                    unfold_term(earlier, y)->0,
                    next,
                );
            }
        }
    }
}

/// Whether the nodes of two grounded terms are alike and their sub-terms
/// definitionally equal does not depend on what is certified later.
pub proof fn lemma_defeq_nodes_stable(
    later: Map<Path, Global>,
    earlier: Map<Path, Global>,
    except: Option<Path>,
    x: Term,
    y: Term,
    fuel: nat,
)
    requires
        grows(later, earlier, except),
        grounded(earlier, except, x),
        grounded(earlier, except, y),
    ensures
        defeq_nodes(later, x, y, fuel) == defeq_nodes(earlier, x, y, fuel),
    decreases fuel, 2nat, 0nat,
{
    lemma_defeq_children_stable(later, earlier, except, x, y, 0, fuel);
}

/// Whether the sub-terms of two grounded terms are definitionally equal
/// does not depend on what is certified later.
pub proof fn lemma_defeq_children_stable(
    later: Map<Path, Global>,
    earlier: Map<Path, Global>,
    except: Option<Path>,
    x: Term,
    y: Term,
    k: nat,
    fuel: nat,
)
    requires
        grows(later, earlier, except),
        grounded(earlier, except, x),
        grounded(earlier, except, y),
    ensures
        defeq_children(later, x, y, k, fuel) == defeq_children(earlier, x, y, k, fuel),
    decreases fuel, 1nat, x.children.len() - k,
{
    if k < x.children.len() && k < y.children.len() {
        assert(grounded(earlier, except, x.children[k as int]));
        assert(grounded(earlier, except, y.children[k as int]));
        lemma_defeq_stable(later, earlier, except, x.children[k as int], y.children[k as int], fuel);
        lemma_defeq_children_stable(later, earlier, except, x, y, k + 1, fuel);
    }
}

/// Whether the types of all bound variables and the type of the definition
/// that is being checked are grounded.
pub open spec fn scope_grounded(
    env: Map<Path, Global>,
    except: Option<Path>,
    own: Option<(Path, Term)>,
    ctx: Seq<Term>,
) -> bool {
    &&& forall|i: int| 0 <= i < ctx.len() ==> grounded(env, except, #[trigger] ctx[i])
    &&& own matches Some((_, ty)) ==> grounded(env, except, ty)
}

/// One more grounded type in a grounded scope leaves the scope grounded.
proof fn lemma_scope_push(
    env: Map<Path, Global>,
    except: Option<Path>,
    own: Option<(Path, Term)>,
    ctx: Seq<Term>,
    ty: Term,
)
    requires
        scope_grounded(env, except, own, ctx),
        grounded(env, except, ty),
    ensures
        scope_grounded(env, except, own, ctx.push(ty)),
{
    assert forall|i: int| 0 <= i < ctx.push(ty).len() implies grounded(
        env,
        except,
        #[trigger] ctx.push(ty)[i],
    ) by {
        if i < ctx.len() {
            assert(ctx.push(ty)[i] == ctx[i]);
        }
    }
}

/// The type of a grounded term in a grounded scope does not depend on what
/// is certified later, and is grounded.
pub proof fn lemma_infer_stable(
    later: Map<Path, Global>,
    earlier: Map<Path, Global>,
    except: Option<Path>,
    own: Option<(Path, Term)>,
    ctx: Seq<Term>,
    t: Term,
    fuel: nat,
)
    requires
        grows(later, earlier, except),
        scope_grounded(earlier, except, own, ctx),
        grounded(earlier, except, t),
    ensures
        infer_term(later, own, ctx, t, fuel) == infer_term(earlier, own, ctx, t, fuel),
        infer_term(earlier, own, ctx, t, fuel) matches Ok(ty) ==> grounded(earlier, except, ty),
    decreases fuel, 0nat,
{
    let next = (fuel - 1) as nat;
    match t.label {
        Label::Local(index) => {
            if index < ctx.len() {
                lemma_grounded_lift(earlier, except, ctx[ctx.len() - 1 - index], 0, index + 1);
            }
        },
        Label::Sort(universe) => {
            if universe.0 < u32::MAX {
                let ty = Term::sort(crate::expr::Universe((universe.0 + 1) as u32));
                assert forall|k: int| 0 <= k < ty.children.len() implies grounded(
                    earlier,
                    except,
                    #[trigger] ty.children[k],
                ) by {}
            }
        },
        Label::Inst(path) => {
            if own_type(own, path) is None && earlier.dom().contains(path) {
                lemma_grounded_certified(earlier, except, earlier[path].ty);
            }
        },
        Label::Pi(_) => {
            if t.children.len() == 2 && fuel > 0 {
                assert(grounded(earlier, except, t.children[0]));
                assert(grounded(earlier, except, t.children[1]));
                lemma_infer_sort_stable(later, earlier, except, own, ctx, t.children[0], next);
                lemma_scope_push(earlier, except, own, ctx, t.children[0]);
                lemma_infer_sort_stable(
                    later,
                    earlier,
                    except,
                    own,
                    ctx.push(t.children[0]),
                    t.children[1],
                    next,
                );
                if infer_term(earlier, own, ctx, t, fuel) is Ok {
                    let ty = infer_term(earlier, own, ctx, t, fuel)->Ok_0;
                    assert forall|k: int| 0 <= k < ty.children.len() implies grounded(
                        earlier,
                        except,
                        #[trigger] ty.children[k],
                    ) by {}
                }
            }
        },
        Label::Lambda(structure) => {
            if t.children.len() == 2 && fuel > 0 {
                assert(grounded(earlier, except, t.children[0]));
                assert(grounded(earlier, except, t.children[1]));
                lemma_infer_sort_stable(later, earlier, except, own, ctx, t.children[0], next);
                lemma_scope_push(earlier, except, own, ctx, t.children[0]);
                lemma_infer_stable(
                    later,
                    earlier,
                    except,
                    own,
                    ctx.push(t.children[0]),
                    t.children[1],
                    next,
                );
                if infer_term(earlier, own, ctx, t, fuel) is Ok {
                    let ty = infer_term(earlier, own, ctx, t, fuel)->Ok_0;
                    assert forall|k: int| 0 <= k < ty.children.len() implies grounded(
                        earlier,
                        except,
                        #[trigger] ty.children[k],
                    ) by {}
                }
            }
        },
        Label::Apply => {
            if t.children.len() == 2 && fuel > 0 {
                assert(grounded(earlier, except, t.children[0]));
                assert(grounded(earlier, except, t.children[1]));
                lemma_infer_stable(later, earlier, except, own, ctx, t.children[0], next);
                if infer_term(earlier, own, ctx, t.children[0], next) is Ok {
                    let function_ty = infer_term(earlier, own, ctx, t.children[0], next)->Ok_0;
                    lemma_whnf_stable(later, earlier, except, function_ty, next);
                    if whnf_term(earlier, function_ty, next) is Ok {
                        let reduced = whnf_term(earlier, function_ty, next)->Ok_0;
                        if reduced.label is Pi && reduced.children.len() == 2 {
                            assert(grounded(earlier, except, reduced.children[0]));
                            assert(grounded(earlier, except, reduced.children[1]));
                            lemma_infer_stable(
                                later,
                                earlier,
                                except,
                                own,
                                ctx,
                                t.children[1],
                                next,
                            );
                            if infer_term(earlier, own, ctx, t.children[1], next) is Ok {
                                let argument_ty = infer_term(
                                    earlier,
                                    own,
                                    ctx,
                                    t.children[1],
                                    next,
                                )->Ok_0;
                                lemma_defeq_stable(
                                    later,
                                    earlier,
                                    except,
                                    argument_ty,
                                    reduced.children[0],
                                    next,
                                );
                                lemma_grounded_instantiate(
                                    earlier,
                                    except,
                                    reduced.children[1],
                                    t.children[1],
                                );
                            }
                        }
                    }
                }
            }
        },
        Label::Let(_) => {
            if t.children.len() == 2 && fuel > 0 {
                assert(grounded(earlier, except, t.children[0]));
                assert(grounded(earlier, except, t.children[1]));
                lemma_infer_stable(later, earlier, except, own, ctx, t.children[0], next);
                lemma_grounded_instantiate(earlier, except, t.children[1], t.children[0]);
                lemma_infer_stable(
                    later,
                    earlier,
                    except,
                    own,
                    ctx,
                    instantiate_term(t.children[1], t.children[0]),
                    next,
                );
            }
        },
        _ => {},
    }
}

/// The universe of a grounded type in a grounded scope does not depend on
/// what is certified later.
pub proof fn lemma_infer_sort_stable(
    later: Map<Path, Global>,
    earlier: Map<Path, Global>,
    except: Option<Path>,
    own: Option<(Path, Term)>,
    ctx: Seq<Term>,
    t: Term,
    fuel: nat,
)
    requires
        grows(later, earlier, except),
        scope_grounded(earlier, except, own, ctx),
        grounded(earlier, except, t),
    ensures
        infer_sort_term(later, own, ctx, t, fuel) == infer_sort_term(earlier, own, ctx, t, fuel),
    decreases fuel, 1nat,
{
    lemma_infer_stable(later, earlier, except, own, ctx, t, fuel);
    if infer_term(earlier, own, ctx, t, fuel) is Ok {
        lemma_whnf_stable(later, earlier, except, infer_term(earlier, own, ctx, t, fuel)->Ok_0, fuel);
    }
}

/// A search for references to a given definition finds nothing exactly when
/// the term is grounded without that definition.
proof fn lemma_without_self(env: Map<Path, Global>, path: Path, t: Term)
    requires
        grounded(env, Some(path), t),
        every_node(not(crate::globals::is_inst(path)), t, 0),
    ensures
        depends_on_certified(env, t),
{
    lemma_grounded(env, Some(path), t, 0);
    crate::type_check::lemma_depends_on_self(env, path, t, 0);
    crate::globals::lemma_depends_on_certified(env, t);
}

/// Certification is stable: when a definition has all that it depends on,
/// certifying it comes to the same result however many definitions are
/// certified afterwards, as long as the definition itself is not among them.
pub proof fn lemma_certification_stable(
    later: Map<Path, Global>,
    earlier: Map<Path, Global>,
    path: Path,
    ty: Term,
    body: Option<Term>,
    origin: DefinitionOrigin,
    fuel: nat,
)
    requires
        env_extends(later, earlier),
        env_wf(earlier),
        !later.dom().contains(path),
        missing_dependency(earlier, path, ty, body) is None,
    ensures
        certify_term(later, path, ty, body, origin, fuel) == certify_term(
            earlier,
            path,
            ty,
            body,
            origin,
            fuel,
        ),
{
    let except = Some(path);
    assert(!earlier.dom().contains(path));
    // The type refers to certified definitions only, in both.
    lemma_find_none(is_uncertified_inst(earlier, None), ty, 0);
    lemma_find_none(is_uncertified_inst(later, None), ty, 0);
    lemma_grounded(earlier, None, ty, 0);
    lemma_grounded(later, None, ty, 0);
    lemma_grounded_later(later, earlier, None, ty);
    lemma_grounded_weaken(earlier, except, ty);
    assert(scope_grounded(earlier, except, None, Seq::empty()));
    lemma_infer_sort_stable(later, earlier, except, None, Seq::empty(), ty, fuel);
    if body is Some {
        let value = body->0;
        lemma_find_none(is_uncertified_inst(earlier, except), value, 0);
        lemma_find_none(is_uncertified_inst(later, except), value, 0);
        lemma_grounded(earlier, except, value, 0);
        lemma_grounded(later, except, value, 0);
        lemma_grounded_later(later, earlier, except, value);
        let own = own_reference(earlier, path, ty);
        assert(own == own_reference(later, path, ty));
        assert(scope_grounded(earlier, except, own, Seq::empty()));
        lemma_infer_stable(later, earlier, except, own, Seq::empty(), value, fuel);
        if infer_term(earlier, own, Seq::empty(), value, fuel) is Ok {
            let actual = infer_term(earlier, own, Seq::empty(), value, fuel)->Ok_0;
            lemma_defeq_stable(later, earlier, except, actual, ty, fuel);
        }
        lemma_find_none(crate::globals::is_inst(path), value, 0);
        if every_node(not(crate::globals::is_inst(path)), value, 0) {
            lemma_without_self(earlier, path, value);
            lemma_height_extends(later, earlier, value);
        }
    }
}

/// A term that is grounded is grounded when more definitions are
/// certified.
proof fn lemma_grounded_later(
    later: Map<Path, Global>,
    earlier: Map<Path, Global>,
    except: Option<Path>,
    t: Term,
)
    requires
        env_extends(later, earlier),
        grounded(earlier, except, t),
    ensures
        grounded(later, except, t),
    decreases t,
{
    assert forall|k: int| 0 <= k < t.children.len() implies grounded(
        later,
        except,
        #[trigger] t.children[k],
    ) by {
        lemma_grounded_later(later, earlier, except, t.children[k]);
    }
}

} // verus!

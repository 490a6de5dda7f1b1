//! Definitional equality.
//!
//! Two expressions are definitionally equal when they reduce to the same
//! expression. The check compares weak head normal forms node by node, and
//! where the heads differ it unfolds the definition of greater height first,
//! since that one may reduce to an application of the other; definitions of
//! equal height are unfolded together.

use vstd::prelude::*;
use crate::database::Database;
use crate::error::KernelError;
use crate::expr::Expression;
use crate::files::Path;
use crate::globals::Global;
use crate::term::Term;
use crate::type_check::unfold::{head_height, unfold_term};
use crate::type_check::whnf::whnf_core_term;

verus! {

broadcast use Expression::lemma_index;

/// Which of two terms in weak head normal form is unfolded next.
pub enum Unfold {
    /// Neither has a reducible definition at its head.
    Neither,
    /// The first has the definition of greater height at its head.
    First,
    /// The second has the definition of greater height at its head.
    Second,
    /// Both have definitions of the same height at their heads.
    Both,
}

/// Which of `a` and `b` to unfold: the one with the reducible definition of
/// strictly greater height at its head, and both where the heights are equal.
pub open spec fn unfold_choice(a: Option<u64>, b: Option<u64>) -> Unfold {
    match (a, b) {
        (None, None) => Unfold::Neither,
        (Some(_), None) => Unfold::First,
        (None, Some(_)) => Unfold::Second,
        (Some(x), Some(y)) => if x > y {
            Unfold::First
        } else if y > x {
            Unfold::Second
        } else {
            Unfold::Both
        },
    }
}

/// Whether `a` and `b` are definitionally equal, as far as `fuel` nested
/// steps can tell.
///
/// Equal terms are definitionally equal. Otherwise both are reduced at the
/// head. If the results differ and a reducible definition stands at the head
/// of one of them, the one of greater height is unfolded, or both if the
/// heights are equal, and the comparison starts again. If no definition is
/// left to unfold, the results are equal when their labels are alike and
/// their sub-terms are definitionally equal in pairs.
pub open spec fn defeq_term(env: Map<Path, Global>, a: Term, b: Term, fuel: nat) -> Result<
    bool,
    KernelError,
>
    decreases fuel, 0nat, 0nat,
{
    if a == b {
        Ok(true)
    } else if fuel == 0 {
        Err(KernelError::ReductionLimit)
    } else {
        let next = (fuel - 1) as nat;
        match whnf_core_term(env, a, next) {
            Err(error) => Err(error),
            Ok(x) => match whnf_core_term(env, b, next) {
                Err(error) => Err(error),
                Ok(y) => if x == y {
                    Ok(true)
                } else {
                    match unfold_choice(head_height(env, x), head_height(env, y)) {
                        Unfold::Neither => defeq_nodes(env, x, y, next),
                        Unfold::First => match unfold_term(env, x) {
                            Some(unfolded) => defeq_term(env, unfolded, y, next),
                            None => defeq_nodes(env, x, y, next),
                        },
                        Unfold::Second => match unfold_term(env, y) {
                            Some(unfolded) => defeq_term(env, x, unfolded, next),
                            None => defeq_nodes(env, x, y, next),
                        },
                        Unfold::Both => match (unfold_term(env, x), unfold_term(env, y)) {
                            (Some(first), Some(second)) => defeq_term(env, first, second, next),
                            _ => defeq_nodes(env, x, y, next),
                        },
                    }
                },
            },
        }
    }
}

/// Whether the labels of `x` and `y` are alike and their sub-terms are
/// definitionally equal in pairs.
pub open spec fn defeq_nodes(env: Map<Path, Global>, x: Term, y: Term, fuel: nat) -> Result<
    bool,
    KernelError,
>
    decreases fuel, 2nat, 0nat,
{
    if x.label.alike(y.label) && x.children.len() == y.children.len() {
        defeq_children(env, x, y, 0, fuel)
    } else {
        Ok(false)
    }
}

/// Whether the sub-terms of `x` and `y` from the `k`-th on are definitionally
/// equal in pairs. The first pair that differs, or cannot be compared,
/// decides.
pub open spec fn defeq_children(env: Map<Path, Global>, x: Term, y: Term, k: nat, fuel: nat) -> Result<
    bool,
    KernelError,
>
    decreases fuel, 1nat, x.children.len() - k,
{
    if k >= x.children.len() || k >= y.children.len() {
        Ok(true)
    } else {
        match defeq_term(env, x.children[k as int], y.children[k as int], fuel) {
            Err(error) => Err(error),
            Ok(false) => Ok(false),
            Ok(true) => defeq_children(env, x, y, k + 1, fuel),
        }
    }
}

impl Expression {
    /// Whether this expression and `other` are definitionally equal, as far
    /// as the limit of the database lets the check go.
    pub fn definitionally_equal(self, db: &mut Database, other: Expression) -> (r: Result<
        bool,
        KernelError,
    >)
        requires
            old(db).wf(),
            old(db).contains(self),
            old(db).contains(other),
        ensures
            final(db).wf(),
            final(db).extends(old(db)),
            r == defeq_term(
                old(db).env(),
                old(db).term(self),
                old(db).term(other),
                old(db).limit() as nat,
            ),
    {
        let fuel = db.reduction_limit();
        self.defeq(db, other, fuel)
    }

    /// Whether this expression and `other` are definitionally equal, as far
    /// as `fuel` nested steps can tell.
    pub fn defeq(self, db: &mut Database, other: Expression, fuel: u64) -> (r: Result<
        bool,
        KernelError,
    >)
        requires
            old(db).wf(),
            old(db).contains(self),
            old(db).contains(other),
        ensures
            final(db).wf(),
            final(db).extends(old(db)),
            r == defeq_term(old(db).env(), old(db).term(self), old(db).term(other), fuel as nat),
        decreases fuel, 0nat, 0nat,
    {
        proof {
            if self != other {
                if db.term(self) == db.term(other) {
                    db.lemma_term_injective(self, other);
                }
            }
        }
        if self == other {
            return Ok(true);
        }
        if fuel == 0 {
            return Err(KernelError::ReductionLimit);
        }
        let x = match self.whnf_core(db, fuel - 1) {
            Ok(x) => x,
            Err(error) => {
                return Err(error);
            },
        };
        let y = match other.whnf_core(db, fuel - 1) {
            Ok(y) => y,
            Err(error) => {
                return Err(error);
            },
        };
        proof {
            if x != y {
                if db.term(x) == db.term(y) {
                    db.lemma_term_injective(x, y);
                }
            }
        }
        if x == y {
            return Ok(true);
        }
        let first = x.head_definition_height(db);
        let second = y.head_definition_height(db);
        let (unfold_first, unfold_second) = match (first, second) {
            (None, None) => (false, false),
            (Some(_), None) => (true, false),
            (None, Some(_)) => (false, true),
            (Some(a), Some(b)) => (a >= b, b >= a),
        };
        if unfold_first && unfold_second {
            match x.unfold_definition(db) {
                Some(first) => match y.unfold_definition(db) {
                    Some(second) => first.defeq(db, second, fuel - 1),
                    None => x.defeq_nodes(db, y, fuel - 1),
                },
                None => x.defeq_nodes(db, y, fuel - 1),
            }
        } else if unfold_first {
            match x.unfold_definition(db) {
                Some(unfolded) => unfolded.defeq(db, y, fuel - 1),
                None => x.defeq_nodes(db, y, fuel - 1),
            }
        } else if unfold_second {
            match y.unfold_definition(db) {
                Some(unfolded) => x.defeq(db, unfolded, fuel - 1),
                None => x.defeq_nodes(db, y, fuel - 1),
            }
        } else {
            x.defeq_nodes(db, y, fuel - 1)
        }
    }

    /// Whether the nodes of this expression and of `other` are alike and
    /// their sub-expressions are definitionally equal in pairs.
    fn defeq_nodes(self, db: &mut Database, other: Expression, fuel: u64) -> (r: Result<
        bool,
        KernelError,
    >)
        requires
            old(db).wf(),
            old(db).contains(self),
            old(db).contains(other),
        ensures
            final(db).wf(),
            final(db).extends(old(db)),
            r == defeq_nodes(old(db).env(), old(db).term(self), old(db).term(other), fuel as nat),
        decreases fuel, 2nat, 0nat,
    {
        let ghost env = old(db).env();
        let ghost x = old(db).term(self);
        let ghost y = old(db).term(other);
        proof {
            db.lemma_term(self);
            db.lemma_term(other);
        }
        if !db.data(self).alike(db.data(other)) {
            return Ok(false);
        }
        let count = db.data(self).child_count();
        if count != db.data(other).child_count() {
            return Ok(false);
        }
        let mut k: usize = 0;
        while k < count
            invariant
                old(db).wf(),
                old(db).contains(self),
                old(db).contains(other),
                db.wf(),
                db.extends(old(db)),
                env == old(db).env(),
                x == old(db).term(self),
                y == old(db).term(other),
                count == x.children.len(),
                count == y.children.len(),
                x.label.alike(y.label),
                k <= count,
                defeq_children(env, x, y, 0, fuel as nat) == defeq_children(
                    env,
                    x,
                    y,
                    k as nat,
                    fuel as nat,
                ),
            decreases count - k,
        {
            proof {
                db.lemma_term(self);
                db.lemma_term(other);
            }
            let a = db.data(self).child(k);
            let b = db.data(other).child(k);
            assert(db.term(a) == x.children[k as int]);
            assert(db.term(b) == y.children[k as int]);
            match a.defeq(db, b, fuel) {
                Err(error) => {
                    return Err(error);
                },
                Ok(false) => {
                    return Ok(false);
                },
                Ok(true) => {},
            }
            k += 1;
        }
        Ok(true)
    }
}

/// Definitional equality is symmetric where it decides: a comparison that
/// comes to a verdict comes to the same verdict with its sides exchanged.
pub proof fn lemma_defeq_symmetric(env: Map<Path, Global>, a: Term, b: Term, fuel: nat)
    requires
        defeq_term(env, a, b, fuel) is Ok,
    ensures
        defeq_term(env, b, a, fuel) == defeq_term(env, a, b, fuel),
    decreases fuel, 0nat, 0nat,
{
    if a != b && fuel > 0 {
        let next = (fuel - 1) as nat;
        let x = whnf_core_term(env, a, next)->Ok_0;
        let y = whnf_core_term(env, b, next)->Ok_0;
        if x != y {
            match unfold_choice(head_height(env, x), head_height(env, y)) {
                Unfold::Neither => lemma_defeq_nodes_symmetric(env, x, y, next),
                Unfold::First => match unfold_term(env, x) {
                    Some(unfolded) => lemma_defeq_symmetric(env, unfolded, y, next),
                    None => lemma_defeq_nodes_symmetric(env, x, y, next),
                },
                Unfold::Second => match unfold_term(env, y) {
                    Some(unfolded) => lemma_defeq_symmetric(env, x, unfolded, next),
                    None => lemma_defeq_nodes_symmetric(env, x, y, next),
                },
                Unfold::Both => match (unfold_term(env, x), unfold_term(env, y)) {
                    (Some(first), Some(second)) => lemma_defeq_symmetric(env, first, second, next),
                    _ => lemma_defeq_nodes_symmetric(env, x, y, next),
                },
            }
        }
    }
}

/// The comparison of nodes is symmetric where it decides.
pub proof fn lemma_defeq_nodes_symmetric(env: Map<Path, Global>, x: Term, y: Term, fuel: nat)
    requires
        defeq_nodes(env, x, y, fuel) is Ok,
    ensures
        defeq_nodes(env, y, x, fuel) == defeq_nodes(env, x, y, fuel),
    decreases fuel, 2nat, 0nat,
{
    if x.label.alike(y.label) && x.children.len() == y.children.len() {
        lemma_defeq_children_symmetric(env, x, y, 0, fuel);
    }
}

/// The comparison of sub-terms is symmetric where it decides.
pub proof fn lemma_defeq_children_symmetric(
    env: Map<Path, Global>,
    x: Term,
    y: Term,
    k: nat,
    fuel: nat,
)
    requires
        x.children.len() == y.children.len(),
        defeq_children(env, x, y, k, fuel) is Ok,
    ensures
        defeq_children(env, y, x, k, fuel) == defeq_children(env, x, y, k, fuel),
    decreases fuel, 1nat, x.children.len() - k,
{
    if k < x.children.len() {
        lemma_defeq_symmetric(env, x.children[k as int], y.children[k as int], fuel);
        if defeq_term(env, x.children[k as int], y.children[k as int], fuel) == Ok::<
            bool,
            KernelError,
        >(true) {
            lemma_defeq_children_symmetric(env, x, y, k + 1, fuel);
        }
    }
}

} // verus!

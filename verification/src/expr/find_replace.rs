//! Find-and-replace operations on expressions.
//!
//! Both operations walk an expression depth first and hand every node they
//! reach, together with the number of binders above it, to a callback: a
//! [`Predicate`] that may stop the search, or a [`Rewriter`] that may put
//! another expression in the node's place. What the callback decides is given
//! as a function on terms, and the result of a traversal is stated over that
//! function.

use vstd::prelude::*;
use crate::database::Database;
use crate::de_bruijn::DeBruijnOffset;
use crate::error::KernelError;
use crate::expr::Expression;
use crate::term::Term;

verus! {

broadcast use Expression::lemma_index;

/// What a rewriter decides for one node.
#[derive(Clone, Copy, Debug, PartialEq, Eq, Structural, Hash)]
pub enum ReplaceResult {
    /// The expression should not be replaced.
    Skip,
    /// The expression should be replaced with the given value.
    ReplaceWith(Expression),
}

/// The result of replacing in `t`, which lies under `offset` binders: where
/// `rule` gives a term for a node, that term takes the node's place and is not
/// looked into; where it gives none, the node is kept and its sub-terms are
/// replaced in turn, each under the binders that the node introduces around it.
pub open spec fn replace_term(rule: spec_fn(Term, nat) -> Option<Term>, t: Term, offset: nat) -> Term
    decreases t,
{
    match rule(t, offset) {
        Some(replacement) => replacement,
        None => Term {
            label: t.label,
            children: Seq::new(
                t.children.len(),
                |k: int|
                    if 0 <= k < t.children.len() {
                        replace_term(rule, t.children[k], offset + t.label.binders(k))
                    } else {
                        t
                    },
            ),
        },
    }
}

/// Whether every node that a replacement in `t` reaches satisfies `fits`.
/// The sub-terms of a node that `rule` replaces are not reached.
pub open spec fn replace_fits(
    rule: spec_fn(Term, nat) -> Option<Term>,
    fits: spec_fn(Term, nat) -> bool,
    t: Term,
    offset: nat,
) -> bool
    decreases t,
{
    &&& fits(t, offset)
    &&& rule(t, offset) is None ==> forall|k: int|
        0 <= k < t.children.len() ==> replace_fits(
            rule,
            fits,
            #[trigger] t.children[k],
            offset + t.label.binders(k),
        )
}

/// The first node of `t` for which `holds`, in depth-first order, where `t`
/// lies under `offset` binders.
pub open spec fn find_term(holds: spec_fn(Term, nat) -> bool, t: Term, offset: nat) -> Option<Term>
    decreases t, t.children.len() + 1,
{
    if holds(t, offset) {
        Some(t)
    } else {
        find_from(holds, t, offset, 0)
    }
}

/// The first node for which `holds` in the sub-terms of `t` from the `k`-th
/// on, in depth-first order.
pub open spec fn find_from(holds: spec_fn(Term, nat) -> bool, t: Term, offset: nat, k: nat) -> Option<
    Term,
>
    decreases t, t.children.len() - k,
{
    if k >= t.children.len() {
        None
    } else {
        match find_term(holds, t.children[k as int], offset + t.label.binders(k as int)) {
            Some(found) => Some(found),
            None => find_from(holds, t, offset, k + 1),
        }
    }
}

/// Decides for each node of a replacement whether another expression takes
/// its place.
pub trait Rewriter {
    /// What the rewriter needs of a database to work in it.
    spec fn inv(&self, db: &Database) -> bool;

    /// The decision as a function on terms: the term that takes the place of
    /// a node under so many binders, or `None` where the node is kept.
    spec fn rule(&self, db: &Database) -> spec_fn(Term, nat) -> Option<Term>;

    /// The nodes for which the decision can be carried out: for the others,
    /// the result would hold an index that cannot be represented.
    spec fn fits(&self, db: &Database) -> spec_fn(Term, nat) -> bool;

    /// A rewriter decides alike in every later state of the database.
    proof fn lemma_stable(&self, before: &Database, after: &Database)
        requires
            before.wf(),
            after.wf(),
            after.extends(before),
            self.inv(before),
        ensures
            self.inv(after),
            self.rule(after) == self.rule(before),
            self.fits(after) == self.fits(before),
    ;

    /// Decides for the node `e`, which lies under `offset` binders.
    fn rewrite(&self, db: &mut Database, e: Expression, offset: DeBruijnOffset) -> (r: Result<
        ReplaceResult,
        KernelError,
    >)
        requires
            old(db).wf(),
            old(db).contains(e),
            self.inv(old(db)),
        ensures
            final(db).wf(),
            final(db).extends(old(db)),
            r is Ok <==> self.fits(old(db))(old(db).term(e), offset@),
            r matches Ok(ReplaceResult::Skip) ==> self.rule(old(db))(old(db).term(e), offset@)
                is None,
            r matches Ok(ReplaceResult::ReplaceWith(x)) ==> final(db).contains(x) && self.rule(
                old(db),
            )(old(db).term(e), offset@) == Some(final(db).term(x)),
            r matches Err(error) ==> error == KernelError::IndexOverflow,
    ;
}

/// Decides for each node of a search whether it is the one looked for.
pub trait Predicate {
    /// What the predicate needs of a database to work in it.
    spec fn inv(&self, db: &Database) -> bool;

    /// The decision as a function on terms.
    spec fn holds(&self, db: &Database) -> spec_fn(Term, nat) -> bool;

    /// Decides for the node `e`, which lies under `offset` binders.
    fn test(&self, db: &Database, e: Expression, offset: DeBruijnOffset) -> (r: bool)
        requires
            db.wf(),
            db.contains(e),
            self.inv(db),
        ensures
            r == self.holds(db)(db.term(e), offset@),
    ;
}

/// The rewriter that keeps every node.
pub struct AlwaysSkip;

/// The rule that keeps every node.
pub open spec fn skip_rule() -> spec_fn(Term, nat) -> Option<Term> {
    |t: Term, offset: nat| None::<Term>
}

/// The condition that every node meets.
pub open spec fn always_fits() -> spec_fn(Term, nat) -> bool {
    |t: Term, offset: nat| true
}

impl Rewriter for AlwaysSkip {
    open spec fn inv(&self, db: &Database) -> bool {
        true
    }

    open spec fn rule(&self, db: &Database) -> spec_fn(Term, nat) -> Option<Term> {
        skip_rule()
    }

    open spec fn fits(&self, db: &Database) -> spec_fn(Term, nat) -> bool {
        always_fits()
    }

    proof fn lemma_stable(&self, before: &Database, after: &Database) {
    }

    fn rewrite(&self, db: &mut Database, e: Expression, offset: DeBruijnOffset) -> (r: Result<
        ReplaceResult,
        KernelError,
    >) {
        Ok(ReplaceResult::Skip)
    }
}

impl Expression {
    /// Traverses the expression tree and finds expressions matching the provided replacement function.
    /// If any matched, the replacement function generates the value to replace the found value with.
    /// The provided [`DeBruijnOffset`] gives the amount of binders the [`Expression`] argument is currently under.
    ///
    /// Fails exactly when the rewriter fails on a node that the traversal
    /// reaches.
    pub fn replace<R: Rewriter>(self, db: &mut Database, replace_fn: &R) -> (r: Result<
        Expression,
        KernelError,
    >)
        requires
            old(db).wf(),
            old(db).contains(self),
            replace_fn.inv(old(db)),
        ensures
            final(db).wf(),
            final(db).extends(old(db)),
            replace_fn.inv(final(db)),
            r is Ok <==> replace_fits(
                replace_fn.rule(old(db)),
                replace_fn.fits(old(db)),
                old(db).term(self),
                0,
            ),
            r matches Ok(e) ==> final(db).contains(e) && final(db).term(e) == replace_term(
                replace_fn.rule(old(db)),
                old(db).term(self),
                0,
            ),
            r matches Err(error) ==> error == KernelError::IndexOverflow,
    {
        self.replace_offset(db, replace_fn, DeBruijnOffset::zero())
    }

    /// Like [`Expression::replace`] but keeps track of sub-expression de Bruijn index offsets.
    pub(crate) fn replace_offset<R: Rewriter>(
        self,
        db: &mut Database,
        replace_fn: &R,
        offset: DeBruijnOffset,
    ) -> (r: Result<Expression, KernelError>)
        requires
            old(db).wf(),
            old(db).contains(self),
            replace_fn.inv(old(db)),
            offset@ + 2 * self.index() + 2 <= u128::MAX,
        ensures
            final(db).wf(),
            final(db).extends(old(db)),
            replace_fn.inv(final(db)),
            r is Ok <==> replace_fits(
                replace_fn.rule(old(db)),
                replace_fn.fits(old(db)),
                old(db).term(self),
                offset@,
            ),
            r matches Ok(e) ==> final(db).contains(e) && final(db).term(e) == replace_term(
                replace_fn.rule(old(db)),
                old(db).term(self),
                offset@,
            ),
            r matches Err(error) ==> error == KernelError::IndexOverflow,
        decreases self.index(),
    {
        let ghost rule = replace_fn.rule(old(db));
        let ghost fits = replace_fn.fits(old(db));
        let ghost t = old(db).term(self);
        // Invoke the replacement function.
        let decision = replace_fn.rewrite(db, self, offset);
        let ghost start = *db;
        proof {
            replace_fn.lemma_stable(old(db), &start);
            assert(replace_fn.inv(&start));
            assert(decision is Ok <==> fits(t, offset@));
        }
        match decision {
            Err(error) => Err(error),
            Ok(ReplaceResult::ReplaceWith(replaced)) => {
                // We replace `self` with the given value.
                // We don't try to traverse the sub-expressions of this returned value.
                Ok(replaced)
            },
            Ok(ReplaceResult::Skip) => {
                // Traverse the sub-expressions of `self`.
                proof {
                    old(db).lemma_term(self);
                }
                let count = db.data(self).child_count();
                let mut children: Vec<Expression> = Vec::new();
                let mut k: usize = 0;
                while k < count
                    invariant
                        old(db).wf(),
                        old(db).contains(self),
                        db.wf(),
                        db.extends(old(db)),
                        replace_fn.inv(db),
                        replace_fn.rule(db) == rule,
                        replace_fn.fits(db) == fits,
                        rule == replace_fn.rule(old(db)),
                        fits == replace_fn.fits(old(db)),
                        t == old(db).term(self),
                        offset@ + 2 * self.index() + 2 <= u128::MAX,
                        count == t.children.len(),
                        k <= count,
                        children@.len() == k,
                        fits(t, offset@),
                        rule(t, offset@) is None,
                        forall|j: int|
                            0 <= j < k ==> db.contains(#[trigger] children@[j]) && db.term(
                                children@[j],
                            ) == replace_term(rule, t.children[j], offset@ + t.label.binders(j))
                                && replace_fits(
                                rule,
                                fits,
                                t.children[j],
                                offset@ + t.label.binders(j),
                            ),
                    decreases count - k,
                {
                    let ghost mid = *db;
                    proof {
                        old(db).lemma_term(self);
                        db.lemma_term(self);
                    }
                    let child = db.data(self).child(k);
                    let binders = db.data(self).child_binders(k);
                    let inner = offset.add_binders(binders);
                    assert(old(db).contains(child));
                    assert(db.term(child) == t.children[k as int]);
                    match child.replace_offset(db, replace_fn, inner) {
                        Ok(replaced) => {
                            proof {
                                assert forall|j: int| 0 <= j < k implies db.contains(
                                    #[trigger] children@[j],
                                ) && db.term(children@[j]) == replace_term(
                                    rule,
                                    t.children[j],
                                    offset@ + t.label.binders(j),
                                ) by {
                                    assert(mid.contains(children@[j]));
                                }
                            }
                            children.push(replaced);
                        },
                        Err(error) => {
                            assert(!replace_fits(
                                rule,
                                fits,
                                t.children[k as int],
                                offset@ + t.label.binders(k as int),
                            ));
                            assert(!replace_fits(rule, fits, t, offset@));
                            return Err(error);
                        },
                    }
                    proof {
                        replace_fn.lemma_stable(&mid, &*db);
                    }
                    k += 1;
                }
                proof {
                    db.lemma_term(self);
                    assert forall|j: int| 0 <= j < t.children.len() implies replace_fits(
                        rule,
                        fits,
                        #[trigger] t.children[j],
                        offset@ + t.label.binders(j),
                    ) by {
                        assert(db.contains(children@[j]));
                    }
                    assert(replace_fits(rule, fits, t, offset@));
                }
                let data = db.data(self).with_children(&children);
                let ghost mid = *db;
                let e = db.intern(data);
                proof {
                    replace_fn.lemma_stable(&mid, &*db);
                    assert(db.term(e).children =~= replace_term(rule, t, offset@).children) by {
                        assert forall|j: int| 0 <= j < count implies db.term(e).children[j]
                            == replace_term(rule, t, offset@).children[j] by {
                            assert(mid.contains(children@[j]));
                        }
                    }
                }
                Ok(e)
            },
        }
    }
}

impl Expression {
    /// Traverses the expression tree and finds expressions matching the provided predicate.
    /// If any return `true`, the first such expression is returned.
    /// The tree is traversed depth first.
    pub fn find<P: Predicate>(self, db: &Database, predicate: &P) -> (r: Option<Expression>)
        requires
            db.wf(),
            db.contains(self),
            predicate.inv(db),
        ensures
            r is Some <==> find_term(predicate.holds(db), db.term(self), 0) is Some,
            r matches Some(e) ==> db.contains(e) && find_term(
                predicate.holds(db),
                db.term(self),
                0,
            ) == Some(db.term(e)),
    {
        self.find_offset(db, predicate, DeBruijnOffset::zero())
    }

    /// Like [`Expression::find`] but keeps track of sub-expression de Bruijn index offsets.
    pub(crate) fn find_offset<P: Predicate>(
        self,
        db: &Database,
        predicate: &P,
        offset: DeBruijnOffset,
    ) -> (r: Option<Expression>)
        requires
            db.wf(),
            db.contains(self),
            predicate.inv(db),
            offset@ + 2 * self.index() + 2 <= u128::MAX,
        ensures
            r is Some <==> find_term(predicate.holds(db), db.term(self), offset@) is Some,
            r matches Some(e) ==> db.contains(e) && find_term(
                predicate.holds(db),
                db.term(self),
                offset@,
            ) == Some(db.term(e)),
        decreases self.index(),
    {
        let ghost holds = predicate.holds(db);
        let ghost t = db.term(self);
        if predicate.test(db, self, offset) {
            Some(self)
        } else {
            proof {
                db.lemma_term(self);
            }
            let data = db.data(self);
            let count = data.child_count();
            let mut k: usize = 0;
            while k < count
                invariant
                    db.wf(),
                    db.contains(self),
                    predicate.inv(db),
                    holds == predicate.holds(db),
                    t == db.term(self),
                    *data == db.data_of(self),
                    offset@ + 2 * self.index() + 2 <= u128::MAX,
                    count == t.children.len(),
                    k <= count,
                    find_term(holds, t, offset@) == find_from(holds, t, offset@, k as nat),
                decreases count - k,
            {
                proof {
                    db.lemma_term(self);
                }
                let child = data.child(k);
                let inner = offset.add_binders(data.child_binders(k));
                assert(db.term(child) == t.children[k as int]);
                match child.find_offset(db, predicate, inner) {
                    Some(found) => {
                        return Some(found);
                    },
                    None => {},
                }
                k += 1;
            }
            None
        }
    }
}

/// Is shown every node of a traversal, and keeps what it has learned from
/// them.
pub trait Visitor: Sized {
    /// What the visitor needs of a database to work in it.
    spec fn inv(&self, db: &Database) -> bool;

    /// The visitor after it has been shown a node that stands for `t` and
    /// lies under `offset` binders.
    spec fn after(self, db: &Database, t: Term, offset: nat) -> Self;

    /// Shows the visitor the node `e`, which lies under `offset` binders.
    fn visit(&mut self, db: &Database, e: Expression, offset: DeBruijnOffset)
        requires
            db.wf(),
            db.contains(e),
            old(self).inv(db),
        ensures
            final(self).inv(db),
            *final(self) == old(self).after(db, db.term(e), offset@),
    ;
}

/// The visitor after it has been shown every node of `t`, depth first, where
/// `t` lies under `offset` binders.
pub open spec fn visit_term<V: Visitor>(visitor: V, db: &Database, t: Term, offset: nat) -> V
    decreases t, t.children.len() + 1,
{
    visit_from(visitor.after(db, t, offset), db, t, offset, 0)
}

/// The visitor after it has been shown every node in the sub-terms of `t`
/// from the `k`-th on.
pub open spec fn visit_from<V: Visitor>(visitor: V, db: &Database, t: Term, offset: nat, k: nat) -> V
    decreases t, t.children.len() - k,
{
    if k >= t.children.len() {
        visitor
    } else {
        visit_from(
            visit_term(visitor, db, t.children[k as int], offset + t.label.binders(k as int)),
            db,
            t,
            offset,
            k + 1,
        )
    }
}

impl Expression {
    /// Shows `visitor` every node of this expression, depth first, where
    /// the expression lies under `offset` binders.
    pub(crate) fn visit_offset<V: Visitor>(self, db: &Database, visitor: &mut V, offset: DeBruijnOffset)
        requires
            db.wf(),
            db.contains(self),
            old(visitor).inv(db),
            offset@ + 2 * self.index() + 2 <= u128::MAX,
        ensures
            final(visitor).inv(db),
            *final(visitor) == visit_term(*old(visitor), db, db.term(self), offset@),
        decreases self.index(),
    {
        let ghost t = db.term(self);
        visitor.visit(db, self, offset);
        proof {
            db.lemma_term(self);
        }
        let data = db.data(self);
        let count = data.child_count();
        let mut k: usize = 0;
        while k < count
            invariant
                db.wf(),
                db.contains(self),
                visitor.inv(db),
                t == db.term(self),
                *data == db.data_of(self),
                offset@ + 2 * self.index() + 2 <= u128::MAX,
                count == t.children.len(),
                k <= count,
                visit_term(*old(visitor), db, t, offset@) == visit_from(
                    *visitor,
                    db,
                    t,
                    offset@,
                    k as nat,
                ),
            decreases count - k,
        {
            proof {
                db.lemma_term(self);
            }
            let child = data.child(k);
            let inner = offset.add_binders(data.child_binders(k));
            assert(db.term(child) == t.children[k as int]);
            child.visit_offset(db, visitor, inner);
            k += 1;
        }
    }
}

/// Whether `holds` of every node of `t`, where `t` lies under `offset`
/// binders.
pub open spec fn every_node(holds: spec_fn(Term, nat) -> bool, t: Term, offset: nat) -> bool
    decreases t,
{
    &&& holds(t, offset)
    &&& forall|k: int|
        0 <= k < t.children.len() ==> every_node(
            holds,
            #[trigger] t.children[k],
            offset + t.label.binders(k),
        )
}

/// The condition that holds where `holds` does not.
pub open spec fn not(holds: spec_fn(Term, nat) -> bool) -> spec_fn(Term, nat) -> bool {
    |t: Term, offset: nat| !holds(t, offset)
}

/// The nodes that `rule` replaces.
pub open spec fn fires(rule: spec_fn(Term, nat) -> Option<Term>) -> spec_fn(Term, nat) -> bool {
    |t: Term, offset: nat| rule(t, offset) is Some
}

/// A search finds nothing exactly when the condition fails at every node.
pub proof fn lemma_find_none(holds: spec_fn(Term, nat) -> bool, t: Term, offset: nat)
    ensures
        find_term(holds, t, offset) is None <==> every_node(not(holds), t, offset),
    decreases t, t.children.len() + 1,
{
    lemma_find_from_none(holds, t, offset, 0);
}

/// A search in the sub-terms from the `k`-th on finds nothing exactly when
/// the condition fails at every node of them.
pub proof fn lemma_find_from_none(holds: spec_fn(Term, nat) -> bool, t: Term, offset: nat, k: nat)
    ensures
        find_from(holds, t, offset, k) is None <==> forall|j: int|
            k <= j < t.children.len() ==> every_node(
                not(holds),
                #[trigger] t.children[j],
                offset + t.label.binders(j),
            ),
    decreases t, t.children.len() - k,
{
    if k < t.children.len() {
        lemma_find_none(holds, t.children[k as int], offset + t.label.binders(k as int));
        lemma_find_from_none(holds, t, offset, k + 1);
        if find_from(holds, t, offset, k) is None {
            assert forall|j: int| k <= j < t.children.len() implies every_node(
                not(holds),
                #[trigger] t.children[j],
                offset + t.label.binders(j),
            ) by {
                if j > k {
                    assert(k + 1 <= j);
                }
            }
        }
    }
}

/// What holds of every node under one condition holds of every node under
/// any condition that follows from it.
pub proof fn lemma_every_node_implies(
    p: spec_fn(Term, nat) -> bool,
    q: spec_fn(Term, nat) -> bool,
    t: Term,
    offset: nat,
)
    requires
        every_node(p, t, offset),
        forall|s: Term, o: nat| #[trigger] p(s, o) ==> q(s, o),
    ensures
        every_node(q, t, offset),
    decreases t,
{
    assert forall|k: int| 0 <= k < t.children.len() implies every_node(
        q,
        #[trigger] t.children[k],
        offset + t.label.binders(k),
    ) by {
        lemma_every_node_implies(p, q, t.children[k], offset + t.label.binders(k));
    }
}

/// A replacement whose rule replaces no node of a term gives the term back.
pub proof fn lemma_replace_unfired(rule: spec_fn(Term, nat) -> Option<Term>, t: Term, offset: nat)
    requires
        every_node(not(fires(rule)), t, offset),
    ensures
        replace_term(rule, t, offset) == t,
    decreases t,
{
    assert forall|k: int| 0 <= k < t.children.len() implies replace_term(
        rule,
        t.children[k],
        offset + t.label.binders(k),
    ) == t.children[k] by {
        lemma_replace_unfired(rule, t.children[k], offset + t.label.binders(k));
    }
    assert(replace_term(rule, t, offset).children =~= t.children);
}

/// A replacement with the rule that keeps every node gives the term back,
/// and meets no node that it cannot handle.
pub proof fn lemma_replace_skip(t: Term, offset: nat)
    ensures
        replace_term(skip_rule(), t, offset) == t,
        replace_fits(skip_rule(), always_fits(), t, offset),
    decreases t,
{
    assert forall|k: int| 0 <= k < t.children.len() implies replace_term(
        skip_rule(),
        t.children[k],
        offset + t.label.binders(k),
    ) == t.children[k] && replace_fits(
        skip_rule(),
        always_fits(),
        #[trigger] t.children[k],
        offset + t.label.binders(k),
    ) by {
        lemma_replace_skip(t.children[k], offset + t.label.binders(k));
    }
    assert(replace_term(skip_rule(), t, offset).children =~= t.children);
}

/// A replacement in a term all of whose nodes can be handled meets no node
/// that it cannot handle.
pub proof fn lemma_replace_fits_everywhere(
    rule: spec_fn(Term, nat) -> Option<Term>,
    fits: spec_fn(Term, nat) -> bool,
    t: Term,
    offset: nat,
)
    requires
        every_node(fits, t, offset),
    ensures
        replace_fits(rule, fits, t, offset),
    decreases t,
{
    assert forall|k: int| 0 <= k < t.children.len() implies replace_fits(
        rule,
        fits,
        #[trigger] t.children[k],
        offset + t.label.binders(k),
    ) by {
        lemma_replace_fits_everywhere(rule, fits, t.children[k], offset + t.label.binders(k));
    }
}

/// What a search finds meets the condition, where the condition does not
/// depend on the number of binders above a node.
pub proof fn lemma_found_holds(holds: spec_fn(Term, nat) -> bool, t: Term, offset: nat)
    requires
        forall|s: Term, o: nat| #[trigger] holds(s, o) == holds(s, 0),
    ensures
        find_term(holds, t, offset) matches Some(found) ==> holds(found, 0),
    decreases t, t.children.len() + 1,
{
    if !holds(t, offset) {
        lemma_found_from_holds(holds, t, offset, 0);
    }
}

/// What a search in the sub-terms from the `k`-th on finds meets the
/// condition, where the condition does not depend on the number of binders
/// above a node.
pub proof fn lemma_found_from_holds(
    holds: spec_fn(Term, nat) -> bool,
    t: Term,
    offset: nat,
    k: nat,
)
    requires
        forall|s: Term, o: nat| #[trigger] holds(s, o) == holds(s, 0),
    ensures
        find_from(holds, t, offset, k) matches Some(found) ==> holds(found, 0),
    decreases t, t.children.len() - k,
{
    if k < t.children.len() {
        lemma_found_holds(holds, t.children[k as int], offset + t.label.binders(k as int));
        lemma_found_from_holds(holds, t, offset, k + 1);
    }
}

} // verus!

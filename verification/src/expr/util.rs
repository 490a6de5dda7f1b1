//! Utility functions on [`Expression`] using [`Expression::find`] and [`Expression::replace`].

use vstd::prelude::*;
use crate::database::Database;
use crate::de_bruijn::{DeBruijnIndex, DeBruijnOffset};
use crate::error::KernelError;
use crate::expr::find_replace::{
    every_node,
    find_term,
    fires,
    lemma_every_node_implies,
    lemma_replace_fits_everywhere,
    lemma_replace_unfired,
    not,
    replace_fits,
    replace_term,
    visit_from,
    visit_term,
    Predicate,
    ReplaceResult,
    Rewriter,
    Visitor,
};
use crate::files::Path;
use crate::globals::{higher, max_height, max_height_from, own_height, Global};
use crate::type_check::definition::DefinitionHeight;
use crate::type_check::unfold::definition_height;
use crate::expr::{Binder, Expression, ExpressionData, HoleId, LocalConstant, LocalConstantId};
use crate::term::{Label, Term};

verus! {

broadcast use {Expression::lemma_index, DeBruijnIndex::lemma_bounded};

/// The rule that raises free variables: a variable under `offset` binders is
/// free when its index is at least `offset + bias`, and is then raised by
/// `shift`.
pub open spec fn lift_rule(bias: nat, shift: nat) -> spec_fn(Term, nat) -> Option<Term> {
    |t: Term, offset: nat|
        match t.label {
            Label::Local(index) => if index >= offset + bias {
                Some(Term::local(index + shift))
            } else {
                None
            },
            _ => None,
        }
}

/// The nodes at which [`lift_rule`] gives an index that can be represented.
pub open spec fn lift_rule_fits(bias: nat, shift: nat) -> spec_fn(Term, nat) -> bool {
    |t: Term, offset: nat|
        match t.label {
            Label::Local(index) => index >= offset + bias ==> index + shift <= u32::MAX,
            _ => true,
        }
}

/// `t` with `shift` added to each of its free variables, where the variables
/// below `bias` count as bound.
pub open spec fn lift_term(t: Term, bias: nat, shift: nat) -> Term {
    replace_term(lift_rule(bias, shift), t, 0)
}

/// Whether every index of [`lift_term`] can be represented.
pub open spec fn lift_fits(t: Term, bias: nat, shift: nat) -> bool {
    replace_fits(lift_rule(bias, shift), lift_rule_fits(bias, shift), t, 0)
}

/// The rule that puts `substitution` in the place of the first free variable:
/// under `offset` binders, a variable below `offset` is bound and stays; the
/// variable `offset` becomes `substitution`, raised by `offset`; a variable
/// above it moves down by one.
pub open spec fn instantiate_rule(substitution: Term) -> spec_fn(Term, nat) -> Option<Term> {
    |t: Term, offset: nat|
        match t.label {
            Label::Local(index) => if index < offset {
                None
            } else if index == offset {
                Some(lift_term(substitution, 0, offset))
            } else {
                Some(Term::local((index - 1) as nat))
            },
            _ => None,
        }
}

/// The nodes at which [`instantiate_rule`] gives a term whose indices can be
/// represented.
pub open spec fn instantiate_rule_fits(substitution: Term) -> spec_fn(Term, nat) -> bool {
    |t: Term, offset: nat|
        match t.label {
            Label::Local(index) => index == offset ==> lift_fits(substitution, 0, offset),
            _ => true,
        }
}

/// `t` with `substitution` in the place of its first free variable.
pub open spec fn instantiate_term(t: Term, substitution: Term) -> Term {
    replace_term(instantiate_rule(substitution), t, 0)
}

/// Whether every index of [`instantiate_term`] can be represented.
pub open spec fn instantiate_fits(t: Term, substitution: Term) -> bool {
    replace_fits(instantiate_rule(substitution), instantiate_rule_fits(substitution), t, 0)
}

/// The rule that puts a bound variable in the place of every occurrence of
/// the term `constant`: under `offset` binders, the variable `offset`.
pub open spec fn abstract_rule(constant: Term) -> spec_fn(Term, nat) -> Option<Term> {
    |t: Term, offset: nat|
        if t == constant {
            Some(Term::local(offset))
        } else {
            None
        }
}

/// The nodes at which [`abstract_rule`] gives an index that can be
/// represented.
pub open spec fn abstract_rule_fits(constant: Term) -> spec_fn(Term, nat) -> bool {
    |t: Term, offset: nat| t == constant ==> offset <= u32::MAX
}

/// `t` with the first free variable in the place of every occurrence of
/// `constant`.
pub open spec fn abstract_term(t: Term, constant: Term) -> Term {
    replace_term(abstract_rule(constant), t, 0)
}

/// Whether every index of [`abstract_term`] can be represented.
pub open spec fn abstract_fits(t: Term, constant: Term) -> bool {
    replace_fits(abstract_rule(constant), abstract_rule_fits(constant), t, 0)
}

/// The rule that puts `replacement`, raised by the number of binders above,
/// in the place of every hole `id`.
pub open spec fn fill_rule(id: HoleId, replacement: Term) -> spec_fn(Term, nat) -> Option<Term> {
    |t: Term, offset: nat|
        match t.label {
            Label::Hole { hole } => if hole == id {
                Some(lift_term(replacement, 0, offset))
            } else {
                None
            },
            _ => None,
        }
}

/// The nodes at which [`fill_rule`] gives a term whose indices can be
/// represented.
pub open spec fn fill_rule_fits(id: HoleId, replacement: Term) -> spec_fn(Term, nat) -> bool {
    |t: Term, offset: nat|
        match t.label {
            Label::Hole { hole } => hole == id ==> lift_fits(replacement, 0, offset),
            _ => true,
        }
}

/// `t` with `replacement` in the place of every hole `id`.
pub open spec fn fill_term(t: Term, id: HoleId, replacement: Term) -> Term {
    replace_term(fill_rule(id, replacement), t, 0)
}

/// Whether every index of [`fill_term`] can be represented.
pub open spec fn fill_fits(t: Term, id: HoleId, replacement: Term) -> bool {
    replace_fits(fill_rule(id, replacement), fill_rule_fits(id, replacement), t, 0)
}

/// The rule that puts `replacement`, raised by the number of binders above,
/// in the place of every local constant `id`.
pub open spec fn replace_local_rule(id: LocalConstantId, replacement: Term) -> spec_fn(
    Term,
    nat,
) -> Option<Term> {
    |t: Term, offset: nat|
        match t.label {
            Label::LocalConstant { constant, .. } => if constant == id {
                Some(lift_term(replacement, 0, offset))
            } else {
                None
            },
            _ => None,
        }
}

/// The nodes at which [`replace_local_rule`] gives a term whose indices can
/// be represented.
pub open spec fn replace_local_rule_fits(id: LocalConstantId, replacement: Term) -> spec_fn(
    Term,
    nat,
) -> bool {
    |t: Term, offset: nat|
        match t.label {
            Label::LocalConstant { constant, .. } => constant == id ==> lift_fits(
                replacement,
                0,
                offset,
            ),
            _ => true,
        }
}

/// `t` with `replacement` in the place of every local constant `id`.
pub open spec fn replace_local_term(t: Term, id: LocalConstantId, replacement: Term) -> Term {
    replace_term(replace_local_rule(id, replacement), t, 0)
}

/// Whether every index of [`replace_local_term`] can be represented.
pub open spec fn replace_local_fits(t: Term, id: LocalConstantId, replacement: Term) -> bool {
    replace_fits(
        replace_local_rule(id, replacement),
        replace_local_rule_fits(id, replacement),
        t,
        0,
    )
}

/// Raises free variables. See [`lift_rule`].
pub struct LiftFreeVars {
    pub bias: DeBruijnOffset,
    pub shift: DeBruijnOffset,
}

impl Rewriter for LiftFreeVars {
    open spec fn inv(&self, db: &Database) -> bool {
        true
    }

    open spec fn rule(&self, db: &Database) -> spec_fn(Term, nat) -> Option<Term> {
        lift_rule(self.bias@, self.shift@)
    }

    open spec fn fits(&self, db: &Database) -> spec_fn(Term, nat) -> bool {
        lift_rule_fits(self.bias@, self.shift@)
    }

    proof fn lemma_stable(&self, before: &Database, after: &Database) {
    }

    fn rewrite(&self, db: &mut Database, e: Expression, offset: DeBruijnOffset) -> (r: Result<
        ReplaceResult,
        KernelError,
    >) {
        proof {
            db.lemma_term(e);
        }
        match db.data(e) {
            ExpressionData::Local(index) => {
                let index = *index;
                let bound = match offset.checked_add(self.bias) {
                    Some(limit) => index.is_below(limit),
                    None => true,
                };
                if bound {
                    Ok(ReplaceResult::Skip)
                } else {
                    // The variable is free.
                    match index.checked_add(self.shift) {
                        Some(lifted) => Ok(ReplaceResult::ReplaceWith(Expression::new_local(db, lifted))),
                        None => Err(KernelError::IndexOverflow),
                    }
                }
            },
            _ => Ok(ReplaceResult::Skip),
        }
    }
}

/// Puts an expression in the place of the first free variable. See
/// [`instantiate_rule`].
pub struct Instantiate {
    pub substitution: Expression,
}

impl Rewriter for Instantiate {
    open spec fn inv(&self, db: &Database) -> bool {
        db.contains(self.substitution)
    }

    open spec fn rule(&self, db: &Database) -> spec_fn(Term, nat) -> Option<Term> {
        instantiate_rule(db.term(self.substitution))
    }

    open spec fn fits(&self, db: &Database) -> spec_fn(Term, nat) -> bool {
        instantiate_rule_fits(db.term(self.substitution))
    }

    proof fn lemma_stable(&self, before: &Database, after: &Database) {
    }

    fn rewrite(&self, db: &mut Database, e: Expression, offset: DeBruijnOffset) -> (r: Result<
        ReplaceResult,
        KernelError,
    >) {
        proof {
            db.lemma_term(e);
        }
        match db.data(e) {
            ExpressionData::Local(index) => {
                let index = *index;
                if index.is_below(offset) {
                    // The variable is bound and has index lower than the offset, so we don't change it.
                    Ok(ReplaceResult::Skip)
                } else if index.is_at(offset) {
                    // The variable is the smallest free de Bruijn index.
                    // It is exactly the one we need to substitute.
                    match self.substitution.lift_free_vars(db, DeBruijnOffset::zero(), offset) {
                        Ok(lifted) => Ok(ReplaceResult::ReplaceWith(lifted)),
                        Err(error) => Err(error),
                    }
                } else {
                    // This de Bruijn index must be decremented, since we just
                    // instantiated a variable below it.
                    match index.pred() {
                        Some(lowered) => Ok(
                            ReplaceResult::ReplaceWith(Expression::new_local(db, lowered)),
                        ),
                        None => Ok(ReplaceResult::Skip),
                    }
                }
            },
            _ => Ok(ReplaceResult::Skip),
        }
    }
}

impl Expression {
    /// Instantiate the first bound variable with the given substitution.
    /// This will subtract one from all higher de Bruijn indices.
    ///
    /// Fails exactly when the result would hold an index that does not fit
    /// in 32 bits.
    pub fn instantiate(self, db: &mut Database, substitution: Expression) -> (r: Result<
        Expression,
        KernelError,
    >)
        requires
            old(db).wf(),
            old(db).contains(self),
            old(db).contains(substitution),
        ensures
            final(db).wf(),
            final(db).extends(old(db)),
            r is Ok <==> instantiate_fits(old(db).term(self), old(db).term(substitution)),
            r matches Ok(e) ==> final(db).contains(e) && final(db).term(e) == instantiate_term(
                old(db).term(self),
                old(db).term(substitution),
            ),
            r matches Err(error) ==> error == KernelError::IndexOverflow,
    {
        self.replace(db, &Instantiate { substitution })
    }

    /// Increase the de Bruijn indices of free variables by a certain offset.
    /// Before the check, we increase the index of each expression by `bias`.
    ///
    /// Fails exactly when the result would hold an index that does not fit
    /// in 32 bits.
    pub fn lift_free_vars(self, db: &mut Database, bias: DeBruijnOffset, shift: DeBruijnOffset) -> (r:
        Result<Expression, KernelError>)
        requires
            old(db).wf(),
            old(db).contains(self),
        ensures
            final(db).wf(),
            final(db).extends(old(db)),
            r is Ok <==> lift_fits(old(db).term(self), bias@, shift@),
            r matches Ok(e) ==> final(db).contains(e) && final(db).term(e) == lift_term(
                old(db).term(self),
                bias@,
                shift@,
            ),
            r matches Err(error) ==> error == KernelError::IndexOverflow,
    {
        self.replace(db, &LiftFreeVars { bias, shift })
    }
}

impl LocalConstant {
    /// The term that an occurrence of this constant stands for.
    pub open spec fn term(self, db: &Database) -> Term {
        Term::local_constant(self.id, self.structure.label(), db.term(self.structure.bound.ty))
    }
}

/// Puts a bound variable in the place of a local constant. See
/// [`abstract_rule`].
pub struct AbstractConstant {
    pub local: LocalConstant,
}

impl Rewriter for AbstractConstant {
    open spec fn inv(&self, db: &Database) -> bool {
        db.contains(self.local.structure.bound.ty)
    }

    open spec fn rule(&self, db: &Database) -> spec_fn(Term, nat) -> Option<Term> {
        abstract_rule(self.local.term(db))
    }

    open spec fn fits(&self, db: &Database) -> spec_fn(Term, nat) -> bool {
        abstract_rule_fits(self.local.term(db))
    }

    proof fn lemma_stable(&self, before: &Database, after: &Database) {
    }

    fn rewrite(&self, db: &mut Database, e: Expression, offset: DeBruijnOffset) -> (r: Result<
        ReplaceResult,
        KernelError,
    >) {
        proof {
            db.lemma_term(e);
        }
        match db.data(e) {
            ExpressionData::LocalConstant(inner_local) => {
                let inner_local = *inner_local;
                proof {
                    let ty = inner_local.structure.bound.ty;
                    assert(db.data_of(e).children()[0] == ty);
                    assert(db.term(e).children =~= seq![db.term(ty)]);
                    assert(db.term(e) == inner_local.term(db));
                    if inner_local.term(db) == self.local.term(db) {
                        assert(inner_local.term(db).children[0] == self.local.term(db).children[0]);
                        db.lemma_term_injective(ty, self.local.structure.bound.ty);
                    }
                }
                if inner_local == self.local {
                    match DeBruijnIndex::zero().checked_add(offset) {
                        Some(index) => Ok(
                            ReplaceResult::ReplaceWith(Expression::new_local(db, index)),
                        ),
                        None => Err(KernelError::IndexOverflow),
                    }
                } else {
                    Ok(ReplaceResult::Skip)
                }
            },
            _ => Ok(ReplaceResult::Skip),
        }
    }
}

/// Puts an expression in the place of a hole. See [`fill_rule`].
pub struct FillHole {
    pub id: HoleId,
    pub replacement: Expression,
}

impl Rewriter for FillHole {
    open spec fn inv(&self, db: &Database) -> bool {
        db.contains(self.replacement)
    }

    open spec fn rule(&self, db: &Database) -> spec_fn(Term, nat) -> Option<Term> {
        fill_rule(self.id, db.term(self.replacement))
    }

    open spec fn fits(&self, db: &Database) -> spec_fn(Term, nat) -> bool {
        fill_rule_fits(self.id, db.term(self.replacement))
    }

    proof fn lemma_stable(&self, before: &Database, after: &Database) {
    }

    fn rewrite(&self, db: &mut Database, e: Expression, offset: DeBruijnOffset) -> (r: Result<
        ReplaceResult,
        KernelError,
    >) {
        proof {
            db.lemma_term(e);
        }
        match db.data(e) {
            ExpressionData::Hole(hole) => {
                if hole.id == self.id {
                    match self.replacement.lift_free_vars(db, DeBruijnOffset::zero(), offset) {
                        Ok(lifted) => Ok(ReplaceResult::ReplaceWith(lifted)),
                        Err(error) => Err(error),
                    }
                } else {
                    Ok(ReplaceResult::Skip)
                }
            },
            _ => Ok(ReplaceResult::Skip),
        }
    }
}

/// Puts an expression in the place of a local constant. See
/// [`replace_local_rule`].
pub struct ReplaceLocal {
    pub id: LocalConstantId,
    pub replacement: Expression,
}

impl Rewriter for ReplaceLocal {
    open spec fn inv(&self, db: &Database) -> bool {
        db.contains(self.replacement)
    }

    open spec fn rule(&self, db: &Database) -> spec_fn(Term, nat) -> Option<Term> {
        replace_local_rule(self.id, db.term(self.replacement))
    }

    open spec fn fits(&self, db: &Database) -> spec_fn(Term, nat) -> bool {
        replace_local_rule_fits(self.id, db.term(self.replacement))
    }

    proof fn lemma_stable(&self, before: &Database, after: &Database) {
    }

    fn rewrite(&self, db: &mut Database, e: Expression, offset: DeBruijnOffset) -> (r: Result<
        ReplaceResult,
        KernelError,
    >) {
        proof {
            db.lemma_term(e);
        }
        match db.data(e) {
            ExpressionData::LocalConstant(inner) => {
                if inner.id == self.id {
                    // We should replace this local variable.
                    match self.replacement.lift_free_vars(db, DeBruijnOffset::zero(), offset) {
                        Ok(lifted) => Ok(ReplaceResult::ReplaceWith(lifted)),
                        Err(error) => Err(error),
                    }
                } else {
                    Ok(ReplaceResult::Skip)
                }
            },
            _ => Ok(ReplaceResult::Skip),
        }
    }
}

impl Expression {
    /// Create a lambda or pi binder where the parameter is the given local constant.
    /// Invoke this with a closed expression.
    ///
    /// Fails exactly when the constant occurs under more binders than a
    /// 32-bit index can count.
    pub fn abstract_binder(self, db: &mut Database, local: LocalConstant) -> (r: Result<
        Binder,
        KernelError,
    >)
        requires
            old(db).wf(),
            old(db).contains(self),
            old(db).contains(local.structure.bound.ty),
        ensures
            final(db).wf(),
            final(db).extends(old(db)),
            r is Ok <==> abstract_fits(old(db).term(self), local.term(old(db))),
            r matches Ok(binder) ==> binder.structure == local.structure && final(db).contains(
                binder.body,
            ) && final(db).term(binder.body) == abstract_term(
                old(db).term(self),
                local.term(old(db)),
            ),
            r matches Err(error) ==> error == KernelError::IndexOverflow,
    {
        match self.replace(db, &AbstractConstant { local }) {
            Ok(return_type) => Ok(Binder { structure: local.structure, body: return_type }),
            Err(error) => Err(error),
        }
    }

    /// Replaces every instance of the given hole inside this expression with a replacement.
    ///
    /// Fails exactly when the result would hold an index that does not fit
    /// in 32 bits.
    pub fn fill_hole(self, db: &mut Database, id: HoleId, replacement: Expression) -> (r: Result<
        Expression,
        KernelError,
    >)
        requires
            old(db).wf(),
            old(db).contains(self),
            old(db).contains(replacement),
        ensures
            final(db).wf(),
            final(db).extends(old(db)),
            r is Ok <==> fill_fits(old(db).term(self), id, old(db).term(replacement)),
            r matches Ok(e) ==> final(db).contains(e) && final(db).term(e) == fill_term(
                old(db).term(self),
                id,
                old(db).term(replacement),
            ),
            r matches Err(error) ==> error == KernelError::IndexOverflow,
    {
        self.replace(db, &FillHole { id, replacement })
    }

    /// Replace the given local constant with this expression.
    ///
    /// Fails exactly when the result would hold an index that does not fit
    /// in 32 bits.
    pub fn replace_local(self, db: &mut Database, local: &LocalConstant, replacement: Expression) -> (r:
        Result<Expression, KernelError>)
        requires
            old(db).wf(),
            old(db).contains(self),
            old(db).contains(replacement),
        ensures
            final(db).wf(),
            final(db).extends(old(db)),
            r is Ok <==> replace_local_fits(
                old(db).term(self),
                local.id,
                old(db).term(replacement),
            ),
            r matches Ok(e) ==> final(db).contains(e) && final(db).term(e) == replace_local_term(
                old(db).term(self),
                local.id,
                old(db).term(replacement),
            ),
            r matches Err(error) ==> error == KernelError::IndexOverflow,
    {
        self.replace(db, &ReplaceLocal { id: local.id, replacement })
    }
}

/// Holds of local constants and holes.
pub open spec fn is_local_or_hole() -> spec_fn(Term, nat) -> bool {
    |t: Term, offset: nat| t.label is LocalConstant || t.label is Hole
}

/// Holds of the holes with the given id.
pub open spec fn is_hole(id: HoleId) -> spec_fn(Term, nat) -> bool {
    |t: Term, offset: nat| t.label == (Label::Hole { hole: id })
}

/// Holds of the occurrences of the variable that has index `local` outside
/// the expression searched: under `offset` binders, the variable
/// `local + offset`.
pub open spec fn is_local(local: nat) -> spec_fn(Term, nat) -> bool {
    |t: Term, offset: nat| t.label == Label::Local(local + offset)
}

/// Finds local constants and holes.
pub struct LocalOrHole;

impl Predicate for LocalOrHole {
    open spec fn inv(&self, db: &Database) -> bool {
        true
    }

    open spec fn holds(&self, db: &Database) -> spec_fn(Term, nat) -> bool {
        is_local_or_hole()
    }

    fn test(&self, db: &Database, e: Expression, offset: DeBruijnOffset) -> (r: bool) {
        proof {
            db.lemma_term(e);
        }
        match db.data(e) {
            ExpressionData::LocalConstant(_) => true,
            ExpressionData::Hole(_) => true,
            _ => false,
        }
    }
}

/// Finds the holes with a given id.
pub struct IsHole {
    pub id: HoleId,
}

impl Predicate for IsHole {
    open spec fn inv(&self, db: &Database) -> bool {
        true
    }

    open spec fn holds(&self, db: &Database) -> spec_fn(Term, nat) -> bool {
        is_hole(self.id)
    }

    fn test(&self, db: &Database, e: Expression, offset: DeBruijnOffset) -> (r: bool) {
        proof {
            db.lemma_term(e);
        }
        match db.data(e) {
            ExpressionData::Hole(var) => self.id == var.id,
            _ => false,
        }
    }
}

/// Finds the occurrences of a variable.
pub struct IsLocal {
    pub local: DeBruijnIndex,
}

impl Predicate for IsLocal {
    open spec fn inv(&self, db: &Database) -> bool {
        true
    }

    open spec fn holds(&self, db: &Database) -> spec_fn(Term, nat) -> bool {
        is_local(self.local@)
    }

    fn test(&self, db: &Database, e: Expression, offset: DeBruijnOffset) -> (r: bool) {
        proof {
            db.lemma_term(e);
        }
        broadcast use DeBruijnIndex::lemma_view_injective;

        match db.data(e) {
            ExpressionData::Local(bound) => match self.local.checked_add(offset) {
                Some(index) => *bound == index,
                None => false,
            },
            _ => false,
        }
    }
}

impl Expression {
    /// Returns the first local constant or hole in the given expression.
    pub fn first_local_or_hole(self, db: &Database) -> (r: Option<Expression>)
        requires
            db.wf(),
            db.contains(self),
        ensures
            r is Some <==> find_term(is_local_or_hole(), db.term(self), 0) is Some,
            r matches Some(e) ==> db.contains(e) && find_term(
                is_local_or_hole(),
                db.term(self),
                0,
            ) == Some(db.term(e)),
    {
        self.find(db, &LocalOrHole)
    }

    /// Returns true if the given hole appears in `self`.
    pub fn hole_occurs(self, db: &Database, hole: HoleId) -> (r: bool)
        requires
            db.wf(),
            db.contains(self),
        ensures
            r == find_term(is_hole(hole), db.term(self), 0) is Some,
    {
        self.find(db, &IsHole { id: hole }).is_some()
    }

    /// Returns true if the local variable given by `local` appears in `self`.
    pub fn local_is_bound(self, db: &Database, local: DeBruijnIndex) -> (r: bool)
        requires
            db.wf(),
            db.contains(self),
        ensures
            r == find_term(is_local(local@), db.term(self), 0) is Some,
    {
        self.find(db, &IsLocal { local }).is_some()
    }
}

/// Keeps the greatest height of the reducible definitions that it is shown.
pub struct MaxHeight {
    pub height: DefinitionHeight,
}

impl Visitor for MaxHeight {
    open spec fn inv(&self, db: &Database) -> bool {
        true
    }

    open spec fn after(self, db: &Database, t: Term, offset: nat) -> Self {
        MaxHeight { height: higher(self.height, own_height(db.env(), t)) }
    }

    fn visit(&mut self, db: &Database, e: Expression, offset: DeBruijnOffset) {
        proof {
            db.lemma_term(e);
        }
        if let ExpressionData::Inst(path) = db.data(e) {
            if let Some(inner_height) = definition_height(db, *path) {
                if inner_height > self.height {
                    self.height = inner_height;
                }
            }
        }
    }
}

/// What [`MaxHeight`] holds after a traversal: the greatest of what it held
/// before and the heights in the term.
proof fn lemma_max_height_visit(db: &Database, t: Term, offset: nat, least: u64)
    ensures
        visit_term(MaxHeight { height: least }, db, t, offset).height == higher(
            least,
            max_height(db.env(), t),
        ),
    decreases t, t.children.len() + 1,
{
    let env = db.env();
    let own = own_height(env, t);
    lemma_max_height_visit_from(db, t, offset, 0, higher(least, own));
    lemma_max_height_from_monotone(env, t, 0, own, higher(least, own));
}

proof fn lemma_max_height_visit_from(db: &Database, t: Term, offset: nat, k: nat, held: u64)
    requires
        k <= t.children.len(),
    ensures
        visit_from(MaxHeight { height: held }, db, t, offset, k).height == max_height_from(
            db.env(),
            t,
            k,
            held,
        ),
    decreases t, t.children.len() - k,
{
    if k < t.children.len() {
        let child = t.children[k as int];
        lemma_max_height_visit(db, child, offset + t.label.binders(k as int), held);
        lemma_max_height_visit_from(
            db,
            t,
            offset,
            k + 1,
            higher(held, max_height(db.env(), child)),
        );
    }
}

/// A greater start gives a greater maximum, and the maximum from a start that
/// is itself a maximum with `h` is the maximum with `h` of the plain one.
proof fn lemma_max_height_from_monotone(env: Map<Path, Global>, t: Term, k: nat, a: u64, b: u64)
    requires
        k <= t.children.len(),
        a <= b,
    ensures
        max_height_from(env, t, k, b) == higher(b, max_height_from(env, t, k, a)),
        max_height_from(env, t, k, a) >= a,
    decreases t.children.len() - k,
{
    if k < t.children.len() {
        let h = max_height(env, t.children[k as int]);
        lemma_max_height_from_monotone(env, t, k + 1, higher(a, h), higher(b, h));
    }
}

impl Expression {
    /// Traverses the expression tree and calls the given function on each expression.
    /// The tree is traversed depth first.
    pub fn for_each_expression<V: Visitor>(self, db: &Database, func: &mut V)
        requires
            db.wf(),
            db.contains(self),
            old(func).inv(db),
        ensures
            final(func).inv(db),
            *final(func) == visit_term(*old(func), db, db.term(self), 0),
    {
        self.visit_offset(db, func, DeBruijnOffset::zero())
    }

    /// Gets the maximum height of reducible definitions contained inside this expression.
    pub fn get_max_height(self, db: &Database) -> (r: DefinitionHeight)
        requires
            db.wf(),
            db.contains(self),
        ensures
            r == max_height(db.env(), db.term(self)),
    {
        let mut visitor = MaxHeight { height: 0 };
        self.for_each_expression(db, &mut visitor);
        proof {
            lemma_max_height_visit(db, db.term(self), 0, 0);
        }
        visitor.height
    }
}

/// Holds of every node but the variables that are not bound by one of the
/// binders above them.
pub open spec fn is_bound() -> spec_fn(Term, nat) -> bool {
    |t: Term, offset: nat|
        match t.label {
            Label::Local(index) => index < offset,
            _ => true,
        }
}

/// Whether `t` has no free variables.
pub open spec fn closed(t: Term) -> bool {
    every_node(is_bound(), t, 0)
}

/// Raising the free variables of a term that has none gives the term back.
pub proof fn lemma_lift_closed(t: Term, bias: nat, shift: nat)
    requires
        closed(t),
    ensures
        lift_term(t, bias, shift) == t,
        lift_fits(t, bias, shift),
{
    lemma_every_node_implies(is_bound(), not(fires(lift_rule(bias, shift))), t, 0);
    lemma_replace_unfired(lift_rule(bias, shift), t, 0);
    lemma_every_node_implies(is_bound(), lift_rule_fits(bias, shift), t, 0);
    lemma_replace_fits_everywhere(lift_rule(bias, shift), lift_rule_fits(bias, shift), t, 0);
}

/// Instantiating a term that has no free variables gives the term back.
pub proof fn lemma_instantiate_closed(t: Term, substitution: Term)
    requires
        closed(t),
    ensures
        instantiate_term(t, substitution) == t,
        instantiate_fits(t, substitution),
{
    lemma_every_node_implies(is_bound(), not(fires(instantiate_rule(substitution))), t, 0);
    lemma_replace_unfired(instantiate_rule(substitution), t, 0);
    lemma_every_node_implies(is_bound(), instantiate_rule_fits(substitution), t, 0);
    lemma_replace_fits_everywhere(
        instantiate_rule(substitution),
        instantiate_rule_fits(substitution),
        t,
        0,
    );
}

/// Holds of every node but the occurrences of `constant` under binders
/// that capture a variable of it: those that raising its free variables by
/// the number of binders above would change.
pub open spec fn keeps(constant: Term) -> spec_fn(Term, nat) -> bool {
    |t: Term, offset: nat| t == constant ==> lift_term(constant, 0, offset) == constant
}

/// Abstraction and instantiation are inverse to each other below `offset`
/// binders, for a term whose variables are all bound by them or by binders
/// of its own.
proof fn lemma_instantiate_abstract_at(t: Term, constant: Term, offset: nat)
    requires
        every_node(is_bound(), t, offset),
        every_node(keeps(constant), t, offset),
    ensures
        replace_term(
            instantiate_rule(constant),
            replace_term(abstract_rule(constant), t, offset),
            offset,
        ) == t,
    decreases t,
{
    let abstracted = replace_term(abstract_rule(constant), t, offset);
    if t != constant {
        assert forall|k: int| 0 <= k < t.children.len() implies replace_term(
            instantiate_rule(constant),
            abstracted.children[k],
            offset + t.label.binders(k),
        ) == t.children[k] by {
            lemma_instantiate_abstract_at(t.children[k], constant, offset + t.label.binders(k));
        }
        assert(replace_term(instantiate_rule(constant), abstracted, offset).children
            =~= t.children);
    }
}

/// Abstraction and instantiation are inverse to each other: in a term
/// without free variables, putting a bound variable in the place of a
/// constant and then the constant back in the place of that variable gives
/// the term back, provided that no occurrence of the constant lies under a
/// binder that captures one of its variables.
pub proof fn lemma_instantiate_abstract(t: Term, constant: Term)
    requires
        closed(t),
        every_node(keeps(constant), t, 0),
    ensures
        instantiate_term(abstract_term(t, constant), constant) == t,
{
    lemma_instantiate_abstract_at(t, constant, 0);
}

/// Abstraction and instantiation are inverse to each other for a constant
/// without free variables: no binder can capture a variable of it. The
/// instantiation meets no index that cannot be represented.
pub proof fn lemma_instantiate_abstract_closed(t: Term, constant: Term)
    requires
        closed(t),
        closed(constant),
    ensures
        instantiate_term(abstract_term(t, constant), constant) == t,
        instantiate_fits(abstract_term(t, constant), constant),
{
    lemma_keeps_closed(t, constant, 0);
    lemma_instantiate_abstract_at(t, constant, 0);
    lemma_instantiate_fits_closed(abstract_term(t, constant), constant, 0);
}

/// No binder captures a variable of a constant that has none.
proof fn lemma_keeps_closed(t: Term, constant: Term, offset: nat)
    requires
        closed(constant),
    ensures
        every_node(keeps(constant), t, offset),
    decreases t,
{
    lemma_lift_closed(constant, 0, offset);
    assert forall|k: int| 0 <= k < t.children.len() implies every_node(
        keeps(constant),
        #[trigger] t.children[k],
        offset + t.label.binders(k),
    ) by {
        lemma_keeps_closed(t.children[k], constant, offset + t.label.binders(k));
    }
}

/// Instantiation with a substitution that has no free variables meets no
/// index that cannot be represented.
pub proof fn lemma_instantiate_fits_closed(t: Term, substitution: Term, offset: nat)
    requires
        closed(substitution),
    ensures
        replace_fits(
            instantiate_rule(substitution),
            instantiate_rule_fits(substitution),
            t,
            offset,
        ),
    decreases t,
{
    lemma_lift_closed(substitution, 0, offset);
    assert forall|k: int| 0 <= k < t.children.len() implies replace_fits(
        instantiate_rule(substitution),
        instantiate_rule_fits(substitution),
        #[trigger] t.children[k],
        offset + t.label.binders(k),
    ) by {
        lemma_instantiate_fits_closed(t.children[k], substitution, offset + t.label.binders(k));
    }
}

/// Raising and instantiating are inverse to each other below `offset`
/// binders.
proof fn lemma_instantiate_lift_at(t: Term, substitution: Term, offset: nat)
    requires
        t.well_shaped(),
    ensures
        replace_term(
            instantiate_rule(substitution),
            replace_term(lift_rule(0, 1), t, offset),
            offset,
        ) == t,
        replace_fits(
            instantiate_rule(substitution),
            instantiate_rule_fits(substitution),
            replace_term(lift_rule(0, 1), t, offset),
            offset,
        ),
    decreases t,
{
    let lifted = replace_term(lift_rule(0, 1), t, offset);
    if lift_rule(0, 1)(t, offset) is Some {
        assert(t.children =~= Seq::<Term>::empty());
    } else {
        assert forall|k: int| 0 <= k < t.children.len() implies replace_term(
            instantiate_rule(substitution),
            lifted.children[k],
            offset + t.label.binders(k),
        ) == t.children[k] && replace_fits(
            instantiate_rule(substitution),
            instantiate_rule_fits(substitution),
            #[trigger] lifted.children[k],
            offset + t.label.binders(k),
        ) by {
            lemma_instantiate_lift_at(t.children[k], substitution, offset + t.label.binders(k));
        }
        assert(replace_term(instantiate_rule(substitution), lifted, offset).children
            =~= t.children);
    }
}

/// Raising and instantiating are inverse to each other: when the free
/// variables of a term are raised by one, the first free variable no longer
/// occurs, and instantiating it gives the term back, whatever is put in its
/// place. The instantiation meets no index that cannot be represented.
pub proof fn lemma_instantiate_lift(t: Term, substitution: Term)
    requires
        t.well_shaped(),
    ensures
        instantiate_term(lift_term(t, 0, 1), substitution) == t,
        instantiate_fits(lift_term(t, 0, 1), substitution),
{
    lemma_instantiate_lift_at(t, substitution, 0);
}

} // verus!

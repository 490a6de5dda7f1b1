//! What can be asked of a single node: its sub-expressions one by one,
//! whether it holds the same data as another, and a copy of it over other
//! sub-expressions.

use vstd::prelude::*;
use crate::de_bruijn::DeBruijnIndex;
use crate::expr::{
    proof_locals,
    BinderStructure,
    Expression,
    ExpressionData,
    Hole,
};
use crate::files::Str;
use crate::index::{mix, mix_in};
use crate::term::Label;
use crate::vec_map::VecMap;

verus! {

broadcast use DeBruijnIndex::lemma_view_injective;

impl ExpressionData {
    /// A node has as many sub-expressions as its label asks for.
    pub proof fn lemma_arity(&self)
        ensures
            self.children().len() == self.label().arity(),
    {
    }

    /// The number of sub-expressions.
    pub fn child_count(&self) -> (r: usize)
        requires
            self.children().len() <= usize::MAX,
        ensures
            r == self.children().len(),
    {
        match self {
            ExpressionData::Local(_) => 0,
            ExpressionData::Apply { .. } => 2,
            ExpressionData::Lambda(_) => 2,
            ExpressionData::Pi(_) => 2,
            ExpressionData::Let { .. } => 2,
            ExpressionData::Sort(_) => 0,
            ExpressionData::Inst(_) => 0,
            ExpressionData::Intro { parameters, fields, .. } => parameters.len() + fields.len(),
            ExpressionData::Match { cases, .. } => 2 + cases.len(),
            ExpressionData::Fix { .. } => 3,
            ExpressionData::Ref(_) => 1,
            ExpressionData::Deref(_) => 1,
            ExpressionData::Loan { .. } => 1,
            ExpressionData::Take { proofs, .. } => proofs.len() + 1,
            ExpressionData::In { .. } => 2,
            ExpressionData::LocalConstant(_) => 1,
            ExpressionData::Hole(_) => 1,
        }
    }

    /// The `k`-th sub-expression, in traversal order.
    pub fn child(&self, k: usize) -> (r: Expression)
        requires
            k < self.children().len(),
        ensures
            r == self.children()[k as int],
    {
        match self {
            ExpressionData::Local(_) => Expression { id: 0 },
            ExpressionData::Apply { left, right } => if k == 0 {
                *left
            } else {
                *right
            },
            ExpressionData::Lambda(binder) => if k == 0 {
                binder.structure.bound.ty
            } else {
                binder.body
            },
            ExpressionData::Pi(binder) => if k == 0 {
                binder.structure.bound.ty
            } else {
                binder.body
            },
            ExpressionData::Let { to_assign, body, .. } => if k == 0 {
                *to_assign
            } else {
                *body
            },
            ExpressionData::Sort(_) => Expression { id: 0 },
            ExpressionData::Inst(_) => Expression { id: 0 },
            ExpressionData::Intro { parameters, fields, .. } => if k < parameters.len() {
                parameters[k]
            } else {
                fields.get(k - parameters.len()).1
            },
            ExpressionData::Match { subject, return_ty, cases } => if k == 0 {
                *subject
            } else if k == 1 {
                *return_ty
            } else {
                cases.get(k - 2).1
            },
            ExpressionData::Fix { binder, body, .. } => if k == 0 {
                binder.structure.bound.ty
            } else if k == 1 {
                binder.body
            } else {
                *body
            },
            ExpressionData::Ref(ty) => *ty,
            ExpressionData::Deref(value) => *value,
            ExpressionData::Loan { body, .. } => *body,
            ExpressionData::Take { proofs, body, .. } => if k < proofs.len() {
                proofs.get(k).1
            } else {
                *body
            },
            ExpressionData::In { reference, target } => if k == 0 {
                *reference
            } else {
                *target
            },
            ExpressionData::LocalConstant(constant) => constant.structure.bound.ty,
            ExpressionData::Hole(hole) => hole.ty,
        }
    }

    /// The number of binders that this node introduces around its `k`-th
    /// sub-expression.
    pub fn child_binders(&self, k: usize) -> (r: u8)
        ensures
            r == self.label().binders(k as int),
            r <= 2,
    {
        match self {
            ExpressionData::Lambda(_) | ExpressionData::Pi(_) | ExpressionData::Let { .. } => if k
                == 1 {
                1
            } else {
                0
            },
            ExpressionData::Fix { .. } => if k == 1 {
                1
            } else if k == 2 {
                2
            } else {
                0
            },
            ExpressionData::Loan { .. } => if k == 0 {
                2
            } else {
                0
            },
            _ => 0,
        }
    }
}

/// Whether two association lists have the same keys in the same order.
fn same_names(a: &VecMap<Str, Expression>, b: &VecMap<Str, Expression>) -> (r: bool)
    ensures
        r == (a.keys() == b.keys()),
{
    if a.len() != b.len() {
        assert(a.keys().len() != b.keys().len());
        return false;
    }
    let n = a.len();
    let mut i: usize = 0;
    while i < n
        invariant
            n == a@.len(),
            n == b@.len(),
            i <= n,
            forall|j: int| 0 <= j < i ==> a@[j].0 == b@[j].0,
        decreases n - i,
    {
        if a.get(i).0 != b.get(i).0 {
            assert(a.keys()[i as int] != b.keys()[i as int]);
            return false;
        }
        i += 1;
    }
    assert(a.keys() =~= b.keys());
    true
}

/// Whether two lists of proofs speak of the same variables in the same order.
fn same_locals(
    a: &VecMap<DeBruijnIndex, Expression>,
    b: &VecMap<DeBruijnIndex, Expression>,
) -> (r: bool)
    ensures
        r == (proof_locals(a@) == proof_locals(b@)),
{
    if a.len() != b.len() {
        assert(proof_locals(a@).len() != proof_locals(b@).len());
        return false;
    }
    let n = a.len();
    let mut i: usize = 0;
    while i < n
        invariant
            n == a@.len(),
            n == b@.len(),
            i <= n,
            forall|j: int| 0 <= j < i ==> a@[j].0 == b@[j].0,
        decreases n - i,
    {
        if a.get(i).0 != b.get(i).0 {
            assert(proof_locals(a@)[i as int] != proof_locals(b@)[i as int]);
            return false;
        }
        i += 1;
    }
    assert(proof_locals(a@) =~= proof_locals(b@));
    true
}

/// Whether two binders declare the same thing, apart from the type.
fn same_structure(a: &BinderStructure, b: &BinderStructure) -> (r: bool)
    ensures
        r == (a.label() == b.label()),
{
    a.bound.name == b.bound.name && a.bound.usage == b.bound.usage && a.argument_style
        == b.argument_style && a.invocation_style == b.invocation_style
}

impl ExpressionData {
    /// Whether two nodes are of the same variant and hold the same things
    /// besides their sub-expressions.
    pub fn same_label(&self, other: &ExpressionData) -> (r: bool)
        ensures
            r == (self.label() == other.label()),
    {
        match (self, other) {
            (ExpressionData::Local(a), ExpressionData::Local(b)) => *a == *b,
            (ExpressionData::Apply { .. }, ExpressionData::Apply { .. }) => true,
            (ExpressionData::Lambda(a), ExpressionData::Lambda(b)) => same_structure(
                &a.structure,
                &b.structure,
            ),
            (ExpressionData::Pi(a), ExpressionData::Pi(b)) => same_structure(
                &a.structure,
                &b.structure,
            ),
            (ExpressionData::Let { name: a, .. }, ExpressionData::Let { name: b, .. }) => *a == *b,
            (ExpressionData::Sort(a), ExpressionData::Sort(b)) => *a == *b,
            (ExpressionData::Inst(a), ExpressionData::Inst(b)) => *a == *b,
            (
                ExpressionData::Intro { path: pa, parameters: qa, variant: va, fields: fa },
                ExpressionData::Intro { path: pb, parameters: qb, variant: vb, fields: fb },
            ) => *pa == *pb && *va == *vb && qa.len() == qb.len() && same_names(fa, fb),
            (ExpressionData::Match { cases: a, .. }, ExpressionData::Match { cases: b, .. }) => {
                same_names(a, b)
            },
            (
                ExpressionData::Fix { binder: ba, rec_name: ra, .. },
                ExpressionData::Fix { binder: bb, rec_name: rb, .. },
            ) => *ra == *rb && same_structure(&ba.structure, &bb.structure),
            (ExpressionData::Ref(_), ExpressionData::Ref(_)) => true,
            (ExpressionData::Deref(_), ExpressionData::Deref(_)) => true,
            (
                ExpressionData::Loan { local: la, loan_as: aa, with: wa, .. },
                ExpressionData::Loan { local: lb, loan_as: ab, with: wb, .. },
            ) => *la == *lb && *aa == *ab && *wa == *wb,
            (
                ExpressionData::Take { local: la, proofs: pa, .. },
                ExpressionData::Take { local: lb, proofs: pb, .. },
            ) => *la == *lb && same_locals(pa, pb),
            (ExpressionData::In { .. }, ExpressionData::In { .. }) => true,
            (ExpressionData::LocalConstant(a), ExpressionData::LocalConstant(b)) => a.id == b.id
                && same_structure(&a.structure, &b.structure),
            (ExpressionData::Hole(a), ExpressionData::Hole(b)) => a.id == b.id,
            _ => false,
        }
    }

    /// Whether two nodes hold the same data: the same label over the same
    /// sub-expressions.
    pub fn same(&self, other: &ExpressionData) -> (r: bool)
        requires
            self.children().len() <= usize::MAX,
        ensures
            r == (self.label() == other.label() && self.children() == other.children()),
    {
        if !self.same_label(other) {
            return false;
        }
        proof {
            self.lemma_arity();
            other.lemma_arity();
        }
        let n = self.child_count();
        let mut k: usize = 0;
        while k < n
            invariant
                n == self.children().len(),
                n == other.children().len(),
                k <= n,
                forall|j: int| 0 <= j < k ==> self.children()[j] == other.children()[j],
            decreases n - k,
        {
            if self.child(k) != other.child(k) {
                return false;
            }
            k += 1;
        }
        assert(self.children() =~= other.children());
        true
    }
}

/// The entries of `entries` with the values replaced by
/// `children[start..start + entries.len()]`.
fn with_values<K: Copy>(entries: &VecMap<K, Expression>, children: &Vec<Expression>, start: usize) -> (r:
    VecMap<K, Expression>)
    requires
        start + entries@.len() <= children@.len(),
    ensures
        r@.len() == entries@.len(),
        forall|i: int| 0 <= i < r@.len() ==> (#[trigger] r@[i]).0 == entries@[i].0,
        forall|i: int| 0 <= i < r@.len() ==> (#[trigger] r@[i]).1 == children@[start + i],
{
    let mut result: VecMap<K, Expression> = VecMap::new();
    let n = entries.len();
    let total = children.len();
    let mut i: usize = 0;
    while i < n
        invariant
            n == entries@.len(),
            total == children@.len(),
            start + n <= total,
            i <= n,
            result@.len() == i,
            forall|j: int| 0 <= j < i ==> (#[trigger] result@[j]).0 == entries@[j].0,
            forall|j: int| 0 <= j < i ==> (#[trigger] result@[j]).1 == children@[start + j],
        decreases n - i,
    {
        result.push(entries.get(i).0, children[start + i]);
        i += 1;
    }
    result
}

impl ExpressionData {
    /// A node like this one, with `children` in place of its sub-expressions.
    pub fn with_children(&self, children: &Vec<Expression>) -> (r: ExpressionData)
        requires
            children@.len() == self.children().len(),
        ensures
            r.label() == self.label(),
            r.children() == children@,
    {
        let r = match self {
            ExpressionData::Local(index) => ExpressionData::Local(*index),
            ExpressionData::Apply { .. } => ExpressionData::Apply {
                left: children[0],
                right: children[1],
            },
            ExpressionData::Lambda(binder) => {
                let mut binder = *binder;
                binder.structure.bound.ty = children[0];
                binder.body = children[1];
                ExpressionData::Lambda(binder)
            },
            ExpressionData::Pi(binder) => {
                let mut binder = *binder;
                binder.structure.bound.ty = children[0];
                binder.body = children[1];
                ExpressionData::Pi(binder)
            },
            ExpressionData::Let { name, .. } => ExpressionData::Let {
                name: *name,
                to_assign: children[0],
                body: children[1],
            },
            ExpressionData::Sort(universe) => ExpressionData::Sort(*universe),
            ExpressionData::Inst(path) => ExpressionData::Inst(*path),
            ExpressionData::Intro { path, parameters, variant, fields } => {
                let count = parameters.len();
                let mut new_parameters: Vec<Expression> = Vec::new();
                let mut i: usize = 0;
                while i < count
                    invariant
                        count == parameters@.len(),
                        count <= children@.len(),
                        i <= count,
                        new_parameters@.len() == i,
                        forall|j: int| 0 <= j < i ==> new_parameters@[j] == children@[j],
                    decreases count - i,
                {
                    new_parameters.push(children[i]);
                    i += 1;
                }
                let new_fields = with_values(fields, children, count);
                let r = ExpressionData::Intro {
                    path: *path,
                    parameters: new_parameters,
                    variant: *variant,
                    fields: new_fields,
                };
                assert(new_fields.keys() =~= fields.keys());
                assert(r.children() =~= children@);
                r
            },
            ExpressionData::Match { cases, .. } => {
                let new_cases = with_values(cases, children, 2);
                let r = ExpressionData::Match {
                    subject: children[0],
                    return_ty: children[1],
                    cases: new_cases,
                };
                assert(new_cases.keys() =~= cases.keys());
                assert(r.children() =~= children@);
                r
            },
            ExpressionData::Fix { binder, rec_name, .. } => {
                let mut binder = *binder;
                binder.structure.bound.ty = children[0];
                binder.body = children[1];
                ExpressionData::Fix { binder, rec_name: *rec_name, body: children[2] }
            },
            ExpressionData::Ref(_) => ExpressionData::Ref(children[0]),
            ExpressionData::Deref(_) => ExpressionData::Deref(children[0]),
            ExpressionData::Loan { local, loan_as, with, .. } => ExpressionData::Loan {
                local: *local,
                loan_as: *loan_as,
                with: *with,
                body: children[0],
            },
            ExpressionData::Take { local, proofs, .. } => {
                let new_proofs = with_values(proofs, children, 0);
                let r = ExpressionData::Take {
                    local: *local,
                    proofs: new_proofs,
                    body: children[proofs.len()],
                };
                assert(proof_locals(new_proofs@) =~= proof_locals(proofs@));
                assert(r.children() =~= children@);
                r
            },
            ExpressionData::In { .. } => ExpressionData::In {
                reference: children[0],
                target: children[1],
            },
            ExpressionData::LocalConstant(constant) => {
                let mut constant = *constant;
                constant.structure.bound.ty = children[0];
                ExpressionData::LocalConstant(constant)
            },
            ExpressionData::Hole(hole) => ExpressionData::Hole(Hole { id: hole.id, ty: children[0] }),
        };
        assert(r.children() =~= children@);
        r
    }
}

/// Whether two binders agree in everything but the name and the type of the
/// variable.
fn alike_structure(a: &BinderStructure, b: &BinderStructure) -> (r: bool)
    ensures
        r == a.label().alike(b.label()),
{
    a.bound.usage == b.bound.usage && a.argument_style == b.argument_style && a.invocation_style
        == b.invocation_style
}

impl ExpressionData {
    /// Whether two nodes are of the same variant and hold the same things
    /// besides their sub-expressions and the names of bound variables.
    pub fn alike(&self, other: &ExpressionData) -> (r: bool)
        ensures
            r == self.label().alike(other.label()),
    {
        match (self, other) {
            (ExpressionData::Lambda(a), ExpressionData::Lambda(b)) => alike_structure(
                &a.structure,
                &b.structure,
            ),
            (ExpressionData::Pi(a), ExpressionData::Pi(b)) => alike_structure(
                &a.structure,
                &b.structure,
            ),
            (ExpressionData::Let { .. }, ExpressionData::Let { .. }) => true,
            (
                ExpressionData::Fix { binder: a, .. },
                ExpressionData::Fix { binder: b, .. },
            ) => alike_structure(&a.structure, &b.structure),
            (
                ExpressionData::Loan { local: a, .. },
                ExpressionData::Loan { local: b, .. },
            ) => *a == *b,
            _ => self.same_label(other),
        }
    }
}

/// Where the hash of a node with the given label starts: at a number that
/// tells the variants apart, mixed with what a node without sub-expressions
/// holds.
pub closed spec fn seed(label: Label) -> u64 {
    match label {
        Label::Local(index) => mix(1, (index % 0x1_0000_0000) as u64),
        Label::Apply => 2,
        Label::Lambda(_) => 3,
        Label::Pi(_) => 4,
        Label::Let(_) => 5,
        Label::Sort(universe) => mix(6, universe.0 as u64),
        Label::Inst(path) => mix(7, path.id as u64),
        Label::Intro { .. } => 8,
        Label::Match { .. } => 9,
        Label::Fix { .. } => 10,
        Label::Ref => 11,
        Label::Deref => 12,
        Label::Loan { .. } => 13,
        Label::Take { .. } => 14,
        Label::In => 15,
        Label::LocalConstant { constant, .. } => mix(16, constant.0 as u64),
        Label::Hole { hole } => mix(17, hole.0 as u64),
    }
}

/// The hash `hash` after it has taken up the first `n` of `children`.
pub closed spec fn hash_children(children: Seq<Expression>, n: nat, hash: u64) -> u64
    decreases n,
{
    if n == 0 || n > children.len() {
        hash
    } else {
        mix(hash_children(children, (n - 1) as nat, hash), children[n - 1].id as u64)
    }
}

impl ExpressionData {
    /// The hash of this node. Nodes that hold the same data have the same
    /// hash.
    pub open spec fn hash_of(&self) -> u64 {
        hash_children(self.children(), self.children().len(), seed(self.label()))
    }

    /// Where the hash of this node starts.
    fn seed(&self) -> (r: u64)
        ensures
            r == seed(self.label()),
    {
        broadcast use DeBruijnIndex::lemma_bounded;

        match self {
            ExpressionData::Local(index) => mix_in(1, index.value() as u64),
            ExpressionData::Apply { .. } => 2,
            ExpressionData::Lambda(_) => 3,
            ExpressionData::Pi(_) => 4,
            ExpressionData::Let { .. } => 5,
            ExpressionData::Sort(universe) => mix_in(6, universe.0 as u64),
            ExpressionData::Inst(path) => mix_in(7, path.id as u64),
            ExpressionData::Intro { .. } => 8,
            ExpressionData::Match { .. } => 9,
            ExpressionData::Fix { .. } => 10,
            ExpressionData::Ref(_) => 11,
            ExpressionData::Deref(_) => 12,
            ExpressionData::Loan { .. } => 13,
            ExpressionData::Take { .. } => 14,
            ExpressionData::In { .. } => 15,
            ExpressionData::LocalConstant(constant) => mix_in(16, constant.id.0 as u64),
            ExpressionData::Hole(hole) => mix_in(17, hole.id.0 as u64),
        }
    }

    /// The hash of this node.
    pub fn hash(&self) -> (r: u64)
        requires
            self.children().len() <= usize::MAX,
        ensures
            r == self.hash_of(),
    {
        let mut hash = self.seed();
        let n = self.child_count();
        let mut k: usize = 0;
        while k < n
            invariant
                n == self.children().len(),
                k <= n,
                hash == hash_children(self.children(), k as nat, seed(self.label())),
            decreases n - k,
        {
            hash = mix_in(hash, self.child(k).id as u64);
            k += 1;
        }
        hash
    }
}

} // verus!

//! De Bruijn indices and offsets.
//!
//! A bound variable is identified by the number of binders between its use and
//! the binder that introduced it, counting outwards. While a traversal descends
//! through an expression it keeps an offset: the number of binders it has
//! passed on the way down.

use vstd::prelude::*;

verus! {

/// The position of a bound variable: `0` is the nearest enclosing binder.
#[derive(Clone, Copy, Debug, PartialEq, Eq, Structural, PartialOrd, Ord, Hash)]
pub struct DeBruijnIndex {
    value: u32,
}

/// The number of binders that a traversal has descended under.
///
/// An offset is wide enough that no traversal of a stored expression can ever
/// overflow it, so walking an expression never fails; only building a new
/// index can.
#[derive(Clone, Copy, Debug, PartialEq, Eq, Structural, PartialOrd, Ord, Hash)]
pub struct DeBruijnOffset {
    value: u128,
}

impl View for DeBruijnIndex {
    type V = nat;

    closed spec fn view(&self) -> nat {
        self.value as nat
    }
}

impl View for DeBruijnOffset {
    type V = nat;

    closed spec fn view(&self) -> nat {
        self.value as nat
    }
}

impl DeBruijnIndex {
    /// Every index is at most `u32::MAX`.
    pub broadcast proof fn lemma_bounded(self)
        ensures
            #[trigger] self@ <= u32::MAX,
    {
    }

    /// Two indices with the same position are the same index.
    pub broadcast proof fn lemma_view_injective(self, other: DeBruijnIndex)
        ensures
            #[trigger] self@ == #[trigger] other@ <==> self == other,
    {
    }

    /// The index of the innermost bound variable.
    pub fn zero() -> (r: DeBruijnIndex)
        ensures
            r@ == 0,
    {
        DeBruijnIndex { value: 0 }
    }

    /// The index at the given position.
    pub fn new(value: u32) -> (r: DeBruijnIndex)
        ensures
            r@ == value,
    {
        DeBruijnIndex { value }
    }

    /// The position of this index.
    pub fn value(self) -> (r: u32)
        ensures
            r == self@,
    {
        self.value
    }

    /// The next index outwards, unless it cannot be represented.
    pub fn succ(self) -> (r: Option<DeBruijnIndex>)
        ensures
            r is Some <==> self@ < u32::MAX,
            r is Some ==> r->0@ == self@ + 1,
    {
        if self.value < u32::MAX {
            Some(DeBruijnIndex { value: self.value + 1 })
        } else {
            None
        }
    }

    /// The next index inwards; the innermost index has none.
    pub fn pred(self) -> (r: Option<DeBruijnIndex>)
        ensures
            r is Some <==> self@ > 0,
            r is Some ==> r->0@ == self@ - 1,
    {
        if self.value > 0 {
            Some(DeBruijnIndex { value: self.value - 1 })
        } else {
            None
        }
    }

    /// This index seen from `offset` binders further in, unless it cannot be
    /// represented.
    pub fn checked_add(self, offset: DeBruijnOffset) -> (r: Option<DeBruijnIndex>)
        ensures
            r is Some <==> self@ + offset@ <= u32::MAX,
            r is Some ==> r->0@ == self@ + offset@,
    {
        if offset.value <= (u32::MAX - self.value) as u128 {
            Some(DeBruijnIndex { value: self.value + offset.value as u32 })
        } else {
            None
        }
    }

    /// Whether this index lies strictly inside `offset` binders, that is,
    /// whether it is bound by one of them.
    pub fn is_below(self, offset: DeBruijnOffset) -> (r: bool)
        ensures
            r == (self@ < offset@),
    {
        (self.value as u128) < offset.value
    }

    /// Whether this index refers to the first binder outside `offset` binders.
    pub fn is_at(self, offset: DeBruijnOffset) -> (r: bool)
        ensures
            r == (self@ == offset@),
    {
        self.value as u128 == offset.value
    }
}

impl DeBruijnOffset {
    /// Two offsets of the same size are the same offset.
    pub broadcast proof fn lemma_view_injective(self, other: DeBruijnOffset)
        ensures
            #[trigger] self@ == #[trigger] other@ <==> self == other,
    {
    }

    /// The offset of a traversal that has not passed any binder.
    pub fn zero() -> (r: DeBruijnOffset)
        ensures
            r@ == 0,
    {
        DeBruijnOffset { value: 0 }
    }

    /// The offset that stands for `value` binders.
    pub fn new(value: u32) -> (r: DeBruijnOffset)
        ensures
            r@ == value,
    {
        DeBruijnOffset { value: value as u128 }
    }

    /// The number of binders, where it fits in 32 bits.
    pub fn value(self) -> (r: Option<u32>)
        ensures
            r is Some <==> self@ <= u32::MAX,
            r is Some ==> r->0 == self@,
    {
        if self.value <= u32::MAX as u128 {
            Some(self.value as u32)
        } else {
            None
        }
    }

    /// The offset one binder further in.
    pub fn succ(self) -> (r: DeBruijnOffset)
        requires
            self@ < u128::MAX,
        ensures
            r@ == self@ + 1,
    {
        DeBruijnOffset { value: self.value + 1 }
    }

    /// The offset `count` binders further in.
    pub fn add_binders(self, count: u8) -> (r: DeBruijnOffset)
        requires
            self@ + count <= u128::MAX,
        ensures
            r@ == self@ + count,
    {
        DeBruijnOffset { value: self.value + count as u128 }
    }

    /// The sum of two offsets, unless it cannot be represented.
    pub fn checked_add(self, other: DeBruijnOffset) -> (r: Option<DeBruijnOffset>)
        ensures
            r is Some <==> self@ + other@ <= u128::MAX,
            r is Some ==> r->0@ == self@ + other@,
    {
        match self.value.checked_add(other.value) {
            Some(value) => Some(DeBruijnOffset { value }),
            None => None,
        }
    }
}

} // verus!

//! Finding what was interned before.
//!
//! The tables of a database are searched by hash: every entry of a table
//! goes into the bucket of its hash, and a search looks only at the entries
//! in the bucket of what it looks for.

use vstd::prelude::*;
use vstd::string::StringSliceAdditionalSpecFns;
use vstd::utf8::encode_utf8;
use std::collections::HashMap;

verus! {

broadcast use vstd::std_specs::hash::group_hash_axioms;

/// The hash that has taken up one more number.
pub open spec fn mix(hash: u64, next: u64) -> u64 {
    ((hash % 0x1_0000_0000) * 31 + next % 0x1_0000_0000) as u64
}

/// The hash of the first `n` of `bytes`.
pub open spec fn hash_bytes(bytes: Seq<u8>, n: nat) -> u64
    decreases n,
{
    if n == 0 || n > bytes.len() {
        0
    } else {
        mix(hash_bytes(bytes, (n - 1) as nat), bytes[n - 1] as u64)
    }
}

/// The hash of the text `text`.
pub open spec fn text_hash(text: Seq<char>) -> u64 {
    hash_bytes(encode_utf8(text), encode_utf8(text).len())
}

/// Takes one more number up into a hash.
pub fn mix_in(hash: u64, next: u64) -> (r: u64)
    ensures
        r == mix(hash, next),
{
    (hash % 0x1_0000_0000) * 31 + next % 0x1_0000_0000
}

/// The hash of a text.
pub fn hash_text(text: &str) -> (r: u64)
    ensures
        r == text_hash(text@),
{
    let bytes = text.as_bytes();
    let n = bytes.len();
    let mut hash: u64 = 0;
    let mut i: usize = 0;
    while i < n
        invariant
            bytes@ == text.spec_bytes(),
            n == bytes@.len(),
            i <= n,
            hash == hash_bytes(bytes@, i as nat),
        decreases n - i,
    {
        hash = mix_in(hash, bytes[i] as u64);
        i += 1;
    }
    hash
}

/// For each hash, the positions of the entries of a table that have it.
pub(crate) struct Buckets {
    map: HashMap<u64, Vec<usize>>,
}

impl Buckets {
    /// Whether these are the buckets of a table whose entries have the
    /// hashes `hashes`: every entry is in the bucket of its hash, and every
    /// bucket holds entries of the table only.
    pub(crate) closed spec fn covers(&self, hashes: Seq<u64>) -> bool {
        &&& forall|i: int|
            0 <= i < hashes.len() ==> self.map@.contains_key(#[trigger] hashes[i])
                && self.map@[hashes[i]]@.contains(i as usize)
        &&& forall|hash: u64, k: int|
            self.map@.contains_key(hash) && 0 <= k < self.map@[hash]@.len() ==> (
            #[trigger] self.map@[hash]@[k]) < hashes.len()
    }

    /// The buckets of an empty table.
    pub(crate) fn new() -> (r: Buckets)
        ensures
            r.covers(Seq::empty()),
    {
        Buckets { map: HashMap::new() }
    }

    /// The bucket of `hash`: the positions of all entries that have this
    /// hash are in it.
    pub(crate) fn bucket(&self, hash: u64, Ghost(hashes): Ghost<Seq<u64>>) -> (r: Option<&Vec<usize>>)
        requires
            self.covers(hashes),
        ensures
            forall|i: int|
                0 <= i < hashes.len() && hashes[i] == hash ==> r is Some && (#[trigger] r->0@.contains(
                    i as usize,
                )),
            r matches Some(positions) ==> forall|k: int|
                0 <= k < positions@.len() ==> (#[trigger] positions@[k]) < hashes.len(),
    {
        self.map.get(&hash)
    }

    /// Puts the next entry of the table, which has the hash `hash`, into its
    /// bucket.
    pub(crate) fn add(&mut self, hash: u64, position: usize, Ghost(hashes): Ghost<Seq<u64>>)
        requires
            old(self).covers(hashes),
            position == hashes.len(),
        ensures
            final(self).covers(hashes.push(hash)),
    {
        let mut positions = match self.map.remove(&hash) {
            Some(positions) => positions,
            None => Vec::new(),
        };
        let ghost before = positions@;
        positions.push(position);
        self.map.insert(hash, positions);
        proof {
            let after = hashes.push(hash);
            assert forall|i: int| 0 <= i < after.len() implies self.map@.contains_key(
                #[trigger] after[i],
            ) && self.map@[after[i]]@.contains(i as usize) by {
                if i < hashes.len() {
                    if hashes[i] == hash {
                        let k = choose|k: int|
                            0 <= k < before.len() && before[k] == i as usize;
                        assert(self.map@[hash]@[k] == i as usize);
                    } else {
                        assert(old(self).map@.contains_key(hashes[i]));
                    }
                } else {
                    assert(self.map@[hash]@[before.len() as int] == position);
                }
            }
            assert forall|other: u64, k: int|
                self.map@.contains_key(other) && 0 <= k < self.map@[other]@.len() implies (
            #[trigger] self.map@[other]@[k]) < after.len() by {
                if other == hash {
                    if k < before.len() {
                        assert(old(self).map@.contains_key(hash));
                        assert(old(self).map@[hash]@[k] == before[k]);
                    }
                } else {
                    assert(old(self).map@.contains_key(other));
                }
            }
        }
    }
}

} // verus!

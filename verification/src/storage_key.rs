//! Storage namespaces of the poll's persisted collections.

use vstd::prelude::*;

verus! {

/// Names the persisted collections of a poll, one storage namespace each.
#[derive(Clone, Copy, Debug, PartialEq, Eq, Structural)]
pub enum StorageKey {
    /// The eligibility set.
    AllowedVoters,
    /// The set of voters who have cast their vote.
    VotedVoters,
    /// The candidate tally.
    Candidates,
}

impl StorageKey {
    /// The key prefix of the namespace: the ASCII bytes of `av`, `vv` and `c`.
    pub open spec fn prefix(self) -> Seq<u8> {
        match self {
            StorageKey::AllowedVoters => seq![0x61u8, 0x76u8],
            StorageKey::VotedVoters => seq![0x76u8, 0x76u8],
            StorageKey::Candidates => seq![0x63u8],
        }
    }

    /// Returns the key prefix under which the collection is stored.
    pub fn into_storage_key(self) -> (key: Vec<u8>)
        ensures
            key@ == self.prefix(),
    {
        match self {
            StorageKey::AllowedVoters => vec![0x61u8, 0x76u8],
            StorageKey::VotedVoters => vec![0x76u8, 0x76u8],
            StorageKey::Candidates => vec![0x63u8],
        }
    }
}

/// No namespace lies inside another: a storage key that starts with the prefix
/// of one collection starts with the prefix of no other, so entries of two
/// collections never collide in a flat key space.
pub proof fn lemma_namespaces_disjoint(a: StorageKey, b: StorageKey, key: Seq<u8>)
    requires
        a != b,
        a.prefix().is_prefix_of(key),
    ensures
        !b.prefix().is_prefix_of(key),
{
    let pa = a.prefix();
    let pb = b.prefix();
    if pb.is_prefix_of(key) {
        assert(key.subrange(0, pa.len() as int)[0] == pa[0]);
        assert(key.subrange(0, pb.len() as int)[0] == pb[0]);
    }
}

} // verus!

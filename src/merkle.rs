//! Proofs of membership and non-membership in a sparse Merkle tree, and their
//! verification against a root digest.
use vstd::prelude::*;

use crate::digest::{
    combine_internal, combine_leaf, combine_value, internal_of, leaf_of, value_of, zero_digest,
    Digest, DIGEST_LEN,
};

verus! {

/// Largest length in bytes of a value that an `Exists` proof may reveal.
pub const MAX_VALUE_LEN: usize = 0xffff;

/// Bit `index` of `key`, the most significant bit of each byte first.
pub open spec fn bit_of(key: Seq<u8>, index: int) -> bool {
    (key[index / 8] >> ((7 - index % 8) as u8)) & 1u8 == 1u8
}

/// Which way the tree descends at level `index` for `key`: `true` is right.
pub fn has_bit(key: &Digest, index: usize) -> (r: bool)
    requires
        index < 8 * key@.len(),
    ensures
        r == bit_of(key@, index as int),
{
    let oct = index >> 3;
    let bit = index & 7;
    assert(index >> 3 == index / 8 && index & 7 == index % 8) by (bit_vector);
    let shift = (7 - bit) as u8;
    (key.0[oct] >> shift) & 1 == 1
}


/// What a proof claims about the queried key.
#[derive(Clone, Copy, Debug, PartialEq, Eq, Structural)]
pub enum ProofType {
    /// The key has a value, which the proof reveals.
    Exists,
    /// The key is absent: its path ends at the leaf of another key.
    Collision,
    /// The key is absent: its path ends at an empty subtree.
    Deadend,
}

/// Why a proof was not accepted.
#[derive(Clone, Copy, Debug, PartialEq, Eq, Structural)]
pub enum VerifyError {
    /// The fields present do not fit the proof's type.
    MalformedProof,
    /// A `Collision` proof names the queried key itself as the other key.
    SameKey,
    /// The path does not recombine to the given root.
    RootMismatch,
    /// The path recombines to the root, but the proof reveals no value.
    NoRevealedValue,
}

/// A proof about one key: the sibling digests along its path, from the level
/// next to the root down to the level next to the leaf, and what is found at
/// the end of the path.
#[derive(Clone, Debug, PartialEq, Eq)]
pub struct Proof {
    /// What is found at the end of the path.
    pub proof_type: ProofType,
    /// Sibling digests, the one next to the root first.
    pub node_hashes: Vec<Digest>,
    /// The other key whose leaf ends the path (`Collision` only).
    pub key: Option<Digest>,
    /// The committed hash of that leaf (`Collision` only).
    pub hash: Option<Digest>,
    /// The revealed value (`Exists` only).
    pub value: Option<Vec<u8>>,
}

/// One level of recombination: `running` is the digest of the child at level
/// `index` of `key`'s path and `sibling` that of the other child.
pub open spec fn fold_step(key: Seq<u8>, index: int, sibling: Seq<u8>, running: Seq<u8>) -> Seq<u8> {
    if bit_of(key, index) {
        internal_of(sibling, running)
    } else {
        internal_of(running, sibling)
    }
}

/// The root digest reached from `leaf` by folding in `siblings`, the last
/// (deepest) one first, each at the level of its position.
pub open spec fn fold_path(key: Seq<u8>, siblings: Seq<Seq<u8>>, leaf: Seq<u8>) -> Seq<u8>
    decreases siblings.len(),
{
    if siblings.len() == 0 {
        leaf
    } else {
        let i = siblings.len() - 1;
        fold_path(key, siblings.subrange(0, i), fold_step(key, i, siblings[i], leaf))
    }
}

impl Proof {
    /// The sibling digests, root side first.
    pub open spec fn siblings(&self) -> Seq<Seq<u8>> {
        self.node_hashes@.map_values(|d: Digest| d@)
    }

    /// Whether the fields present fit the proof's type, for a tree that
    /// branches on `bits` key bits.
    pub open spec fn sane(&self, bits: nat) -> bool {
        match self.proof_type {
            ProofType::Exists => {
                &&& self.key is None
                &&& self.hash is None
                &&& self.value matches Some(v) && v@.len() <= MAX_VALUE_LEN
            },
            ProofType::Collision => {
                &&& self.key matches Some(k) && k@.len() == bits / 8
                &&& self.hash matches Some(h) && h@.len() == DIGEST_LEN
                &&& self.value is None
            },
            ProofType::Deadend => false,
        }
    }

    /// The digest at the end of the path of `key`, as the proof claims it.
    pub open spec fn leaf_digest(&self, key: Seq<u8>) -> Seq<u8> {
        match self.proof_type {
            ProofType::Exists => value_of(key, self.value->0@),
            ProofType::Collision => leaf_of(self.key->0@, self.hash->0@),
            ProofType::Deadend => zero_digest(),
        }
    }

    /// The root digest that the proof recombines to for `key`.
    pub open spec fn claimed_root(&self, key: Seq<u8>) -> Seq<u8> {
        fold_path(key, self.siblings(), self.leaf_digest(key))
    }

    /// The result of verifying the proof against `root` for `key`.
    pub open spec fn outcome(&self, root: Seq<u8>, key: Seq<u8>, bits: nat) -> Result<Seq<u8>, VerifyError> {
        if !self.sane(bits) || self.siblings().len() == 0 {
            Err(VerifyError::MalformedProof)
        } else if self.proof_type == ProofType::Collision && self.key->0@ == key {
            Err(VerifyError::SameKey)
        } else if self.claimed_root(key) != root {
            Err(VerifyError::RootMismatch)
        } else {
            match self.value {
                Some(v) => Ok(v@),
                None => Err(VerifyError::NoRevealedValue),
            }
        }
    }

    /// Number of levels that the proof spans.
    pub fn depth(&self) -> (r: usize)
        ensures
            r == self.siblings().len(),
    {
        self.node_hashes.len()
    }

    /// Appends the sibling of the next level down.
    pub fn push(&mut self, hash: Digest)
        ensures
            final(self).siblings() == old(self).siblings().push(hash@),
            final(self).proof_type == old(self).proof_type,
            final(self).key == old(self).key,
            final(self).hash == old(self).hash,
            final(self).value == old(self).value,
    {
        let ghost h = hash@;
        self.node_hashes.push(hash);
        assert(self.siblings() =~= old(self).siblings().push(h));
    }

    /// Whether the fields present fit the proof's type, for a tree that
    /// branches on `bits` key bits.
    pub fn is_sane(&self, bits: usize) -> (r: bool)
        ensures
            r == self.sane(bits as nat),
    {
        match self.proof_type {
            ProofType::Exists => {
                if self.key.is_some() || self.hash.is_some() {
                    false
                } else {
                    match &self.value {
                        Some(v) => v.len() <= MAX_VALUE_LEN,
                        None => false,
                    }
                }
            },
            ProofType::Collision => {
                if self.value.is_some() {
                    return false;
                }
                assert(bits >> 3 == bits / 8) by (bit_vector);
                match (&self.key, &self.hash) {
                    (Some(k), Some(h)) => k.0.len() == (bits >> 3) && h.0.len() == DIGEST_LEN,
                    _ => false,
                }
            },
            ProofType::Deadend => false,
        }
    }

    /// Verifies the proof against `root_hash` for `key` in a tree that
    /// branches on `bits` key bits, and hands out the revealed value on
    /// success, which leaves the proof without it.
    pub fn verify(&mut self, root_hash: Digest, key: Digest, bits: usize) -> (r: Result<Vec<u8>, VerifyError>)
        requires
            old(self).siblings().len() <= 8 * key@.len(),
        ensures
            match r {
                Ok(v) => old(self).outcome(root_hash@, key@, bits as nat) == Ok::<Seq<u8>, VerifyError>(v@),
                Err(e) => old(self).outcome(root_hash@, key@, bits as nat) == Err::<Seq<u8>, VerifyError>(e),
            },
            final(self).proof_type == old(self).proof_type,
            final(self).siblings() == old(self).siblings(),
            final(self).key == old(self).key,
            final(self).hash == old(self).hash,
            final(self).value == (if r is Ok { None } else { old(self).value }),
    {
        if !self.is_sane(bits) || self.node_hashes.len() == 0 {
            return Err(VerifyError::MalformedProof);
        }
        let leaf = match self.proof_type {
            ProofType::Exists => combine_value(&key, self.value.as_ref().unwrap().as_slice()),
            ProofType::Collision => {
                let k = self.key.as_ref().unwrap();
                if *k == key {
                    return Err(VerifyError::SameKey);
                }
                combine_leaf(k, self.hash.as_ref().unwrap().0.as_slice())
            },
            ProofType::Deadend => Digest::default(),
        };
        let ghost siblings = self.siblings();
        let mut next = leaf;
        let mut i: usize = self.node_hashes.len();
        assert(siblings.subrange(0, i as int) =~= siblings);
        while i > 0
            invariant
                *self == *old(self),
                siblings == self.siblings(),
                i <= siblings.len() <= 8 * key@.len(),
                fold_path(key@, siblings, leaf@) == fold_path(key@, siblings.subrange(0, i as int), next@),
            decreases i,
        {
            let depth = i - 1;
            let n = &self.node_hashes[depth];
            assert(siblings[depth as int] == n@);
            let ghost prev = next@;
            if has_bit(&key, depth) {
                next = combine_internal(n, &next);
            } else {
                next = combine_internal(&next, n);
            }
            assert(siblings.subrange(0, i as int).subrange(0, depth as int) =~= siblings.subrange(0, depth as int));
            assert(next@ == fold_step(key@, depth as int, siblings[depth as int], prev));
            i = depth;
        }
        if next != root_hash {
            return Err(VerifyError::RootMismatch);
        }
        match self.value.take() {
            Some(v) => Ok(v),
            None => Err(VerifyError::NoRevealedValue),
        }
    }
}

impl Default for Proof {
    /// An empty `Deadend` proof.
    fn default() -> (r: Proof)
        ensures
            r.proof_type == ProofType::Deadend,
            r.siblings().len() == 0,
            r.key is None,
            r.hash is None,
            r.value is None,
    {
        Proof {
            proof_type: ProofType::Deadend,
            node_hashes: Vec::new(),
            key: None,
            hash: None,
            value: None,
        }
    }
}

/// A sane `Exists` proof, checked against the root that its own path
/// recombines to, yields exactly the value it reveals.
pub proof fn lemma_honest_membership(proof: Proof, key: Seq<u8>, bits: nat)
    requires
        proof.proof_type == ProofType::Exists,
        proof.key is None,
        proof.hash is None,
        proof.value is Some,
        proof.value->0@.len() <= MAX_VALUE_LEN,
        proof.siblings().len() >= 1,
    ensures
        proof.outcome(fold_path(key, proof.siblings(), value_of(key, proof.value->0@)), key, bits)
            == Ok::<Seq<u8>, VerifyError>(proof.value->0@),
{
}

/// A proof that passes the sanity checks, does not name the queried key as
/// its colliding key, and whose path recombines to a digest other than the
/// given root, is rejected with `RootMismatch`.
pub proof fn lemma_wrong_root_rejected(proof: Proof, root: Seq<u8>, key: Seq<u8>, bits: nat)
    requires
        proof.sane(bits),
        proof.siblings().len() >= 1,
        proof.proof_type == ProofType::Collision ==> proof.key->0@ != key,
        proof.claimed_root(key) != root,
    ensures
        proof.outcome(root, key, bits) == Err::<Seq<u8>, VerifyError>(VerifyError::RootMismatch),
{
}

/// An `Exists` proof whose value is longer than the limit is malformed,
/// whatever the root, key and bit-depth.
pub proof fn lemma_oversized_value_malformed(proof: Proof, root: Seq<u8>, key: Seq<u8>, bits: nat)
    requires
        proof.proof_type == ProofType::Exists,
        proof.value is Some,
        proof.value->0@.len() > MAX_VALUE_LEN,
    ensures
        proof.outcome(root, key, bits) == Err::<Seq<u8>, VerifyError>(VerifyError::MalformedProof),
{
}

/// A well-formed `Collision` proof whose colliding key is the queried key is
/// rejected with `SameKey`, whatever the root and the committed hash.
pub proof fn lemma_same_key_rejected(proof: Proof, root: Seq<u8>, key: Seq<u8>, bits: nat)
    requires
        proof.proof_type == ProofType::Collision,
        proof.sane(bits),
        proof.siblings().len() >= 1,
        proof.key->0@ == key,
    ensures
        proof.outcome(root, key, bits) == Err::<Seq<u8>, VerifyError>(VerifyError::SameKey),
{
}

/// A well-formed `Collision` proof for another key whose path recombines to
/// the root is answered with `NoRevealedValue`, not with a value.
pub proof fn lemma_collision_reveals_nothing(proof: Proof, key: Seq<u8>, bits: nat)
    requires
        proof.proof_type == ProofType::Collision,
        proof.sane(bits),
        proof.siblings().len() >= 1,
        proof.key->0@ != key,
    ensures
        proof.outcome(proof.claimed_root(key), key, bits)
            == Err::<Seq<u8>, VerifyError>(VerifyError::NoRevealedValue),
{
}

/// Over three siblings, the last one pushed is folded first, at bit index 2,
/// and the first one pushed is folded last, at bit index 0.
pub proof fn lemma_fold_order_three(key: Seq<u8>, siblings: Seq<Seq<u8>>, leaf: Seq<u8>)
    requires
        siblings.len() == 3,
    ensures
        fold_path(key, siblings, leaf) == fold_step(
            key,
            0,
            siblings[0],
            fold_step(key, 1, siblings[1], fold_step(key, 2, siblings[2], leaf)),
        ),
{
    let s2 = siblings.subrange(0, 2);
    let s1 = s2.subrange(0, 1);
    let s0 = s1.subrange(0, 0);
    assert(s0.len() == 0);
    reveal_with_fuel(fold_path, 4);
}

} // verus!

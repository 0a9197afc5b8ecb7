//! Digests and the hash combinations of the tree.
//!
//! Every node digest is a SHA3-256 hash over a one-byte tag followed by the
//! node's contents, so that internal nodes, leaves and values never share an
//! input: `tag || left || right`, `tag || key || committed hash` and
//! `tag || key || value`.
use vstd::prelude::*;

verus! {

/// Length in bytes of a hash output.
pub const DIGEST_LEN: usize = 32;

/// Tag of the hash input of an internal node.
pub const INTERNAL_TAG: u8 = 1;

/// Tag of the hash input of a leaf that commits to the hash of a value.
pub const LEAF_TAG: u8 = 0;

/// Tag of the hash input of a key and its value.
pub const VALUE_TAG: u8 = 2;

/// A byte string used both as a key of the tree and as a hash output.
#[derive(Clone, Debug)]
pub struct Digest(pub Vec<u8>);

impl View for Digest {
    type V = Seq<u8>;

    open spec fn view(&self) -> Seq<u8> {
        self.0@
    }
}

/// Byte-wise equality of two byte strings.
pub fn bytes_equal(a: &[u8], b: &[u8]) -> (r: bool)
    ensures
        r == (a@ == b@),
{
    if a.len() != b.len() {
        return false;
    }
    let mut i: usize = 0;
    while i < a.len()
        invariant
            a@.len() == b@.len(),
            i <= a@.len(),
            a@.subrange(0, i as int) == b@.subrange(0, i as int),
        decreases a@.len() - i,
    {
        if a[i] != b[i] {
            assert(a@[i as int] != b@[i as int]);
            return false;
        }
        assert(a@.subrange(0, i + 1) == a@.subrange(0, i as int).push(a@[i as int]));
        assert(b@.subrange(0, i + 1) == b@.subrange(0, i as int).push(b@[i as int]));
        i = i + 1;
    }
    assert(a@ == a@.subrange(0, a@.len() as int));
    assert(b@ == b@.subrange(0, b@.len() as int));
    true
}

impl PartialEq for Digest {
    fn eq(&self, other: &Digest) -> (r: bool) {
        bytes_equal(self.0.as_slice(), other.0.as_slice())
    }
}

impl vstd::std_specs::cmp::PartialEqSpecImpl for Digest {
    open spec fn obeys_eq_spec() -> bool {
        true
    }

    open spec fn eq_spec(&self, other: &Digest) -> bool {
        self@ == other@
    }
}

impl Eq for Digest {
}

impl Default for Digest {
    /// The all-zero digest, which stands for an empty subtree.
    fn default() -> (r: Digest)
        ensures
            r@ == zero_digest(),
    {
        let mut bytes: Vec<u8> = Vec::new();
        let mut i: usize = 0;
        while i < DIGEST_LEN
            invariant
                i <= DIGEST_LEN,
                bytes@ == Seq::new(i as nat, |_j: int| 0u8),
            decreases DIGEST_LEN - i,
        {
            bytes.push(0u8);
            i = i + 1;
        }
        Digest(bytes)
    }
}

/// The all-zero digest of an empty subtree.
pub open spec fn zero_digest() -> Seq<u8> {
    Seq::new(DIGEST_LEN as nat, |_i: int| 0u8)
}

/// SHA3-256 of a byte string.
pub uninterp spec fn sha3_256_of(data: Seq<u8>) -> Seq<u8>;

/// Relies on `sha3::Sha3_256::digest`: the SHA3-256 hash of `data`, which is
/// 32 bytes long and depends on `data` alone.
#[verifier::external_body]
fn sha3_256(data: &[u8]) -> (r: Digest)
    ensures
        r@ == sha3_256_of(data@),
        r@.len() == DIGEST_LEN,
{
    Digest(<sha3::Sha3_256 as sha3::Digest>::digest(data).to_vec())
}

/// The bytes `tag || a || b`.
pub open spec fn tagged(tag: u8, a: Seq<u8>, b: Seq<u8>) -> Seq<u8> {
    seq![tag] + a + b
}

/// Digest of an internal node with children `left` and `right`.
pub open spec fn internal_of(left: Seq<u8>, right: Seq<u8>) -> Seq<u8> {
    sha3_256_of(tagged(INTERNAL_TAG, left, right))
}

/// Digest of a leaf that holds `key` and commits to `hash`.
pub open spec fn leaf_of(key: Seq<u8>, hash: Seq<u8>) -> Seq<u8> {
    sha3_256_of(tagged(LEAF_TAG, key, hash))
}

/// Digest of `key` bound to `value`.
pub open spec fn value_of(key: Seq<u8>, value: Seq<u8>) -> Seq<u8> {
    sha3_256_of(tagged(VALUE_TAG, key, value))
}

/// Hashes `tag || a || b`.
fn hash_tagged(tag: u8, a: &[u8], b: &[u8]) -> (r: Digest)
    ensures
        r@ == sha3_256_of(tagged(tag, a@, b@)),
        r@.len() == DIGEST_LEN,
{
    let mut data: Vec<u8> = Vec::new();
    data.push(tag);
    let mut i: usize = 0;
    while i < a.len()
        invariant
            i <= a@.len(),
            data@ == seq![tag] + a@.subrange(0, i as int),
        decreases a@.len() - i,
    {
        data.push(a[i]);
        assert(a@.subrange(0, i + 1) == a@.subrange(0, i as int).push(a@[i as int]));
        i = i + 1;
    }
    assert(a@.subrange(0, a@.len() as int) == a@);
    let mut j: usize = 0;
    while j < b.len()
        invariant
            j <= b@.len(),
            data@ == seq![tag] + a@ + b@.subrange(0, j as int),
        decreases b@.len() - j,
    {
        data.push(b[j]);
        assert(b@.subrange(0, j + 1) == b@.subrange(0, j as int).push(b@[j as int]));
        j = j + 1;
    }
    assert(b@.subrange(0, b@.len() as int) == b@);
    sha3_256(data.as_slice())
}

/// Digest of an internal node with children `left` and `right`.
pub fn combine_internal(left: &Digest, right: &Digest) -> (r: Digest)
    ensures
        r@ == internal_of(left@, right@),
{
    hash_tagged(INTERNAL_TAG, left.0.as_slice(), right.0.as_slice())
}

/// Digest of a leaf that holds `key` and commits to `hash`.
pub fn combine_leaf(key: &Digest, hash: &[u8]) -> (r: Digest)
    ensures
        r@ == leaf_of(key@, hash@),
{
    hash_tagged(LEAF_TAG, key.0.as_slice(), hash)
}

/// Digest of `key` bound to `value`.
pub fn combine_value(key: &Digest, value: &[u8]) -> (r: Digest)
    ensures
        r@ == value_of(key@, value@),
{
    hash_tagged(VALUE_TAG, key.0.as_slice(), value)
}

} // verus!

//! The demonstration hash primitive: two- and three-input compression built
//! from std's `DefaultHasher` (SipHash), producing 32-byte digests.
//! It is not collision resistant in the cryptographic sense.

use std::collections::hash_map::DefaultHasher;
use std::hash::Hasher;
use vstd::bytes::{spec_u64_to_le_bytes, u64_to_le_bytes};
use vstd::prelude::*;
use vstd::std_specs::hash::DefaultHasherAdditionalSpecFns;

verus! {

/// A 32-byte hash value.
pub type Digest = [u8; 32];

/// Domain tag of the two-input arity: the bytes of "poseidon2".
pub open spec fn tag2() -> Seq<u8> {
    seq![112u8, 111u8, 115u8, 101u8, 105u8, 100u8, 111u8, 110u8, 50u8]
}

/// Domain tag of the three-input arity: the bytes of "poseidon3".
pub open spec fn tag3() -> Seq<u8> {
    seq![112u8, 111u8, 115u8, 101u8, 105u8, 100u8, 111u8, 110u8, 51u8]
}

/// What hashing a byte slice feeds the hasher: its length, then its bytes.
pub open spec fn slice_writes(s: Seq<u8>) -> Seq<Seq<u8>> {
    seq![spec_u64_to_le_bytes(s.len() as u64), s]
}

/// The digest of a fresh hasher fed with the eight bytes of one word.
pub open spec fn rehash(h: u64) -> u64 {
    DefaultHasher::spec_finish(seq![spec_u64_to_le_bytes(h)])
}

/// The 32-byte digest stretched from a first word `h1`: it and three
/// successive rehashes, each written little-endian.
pub open spec fn stretch(h1: u64) -> Seq<u8> {
    let h2 = rehash(h1);
    let h3 = rehash(h2);
    let h4 = rehash(h3);
    spec_u64_to_le_bytes(h1) + spec_u64_to_le_bytes(h2) + spec_u64_to_le_bytes(h3)
        + spec_u64_to_le_bytes(h4)
}

/// The two-input compression of `a` and `b`.
pub open spec fn spec_hash2(a: Seq<u8>, b: Seq<u8>) -> Seq<u8> {
    stretch(DefaultHasher::spec_finish(slice_writes(tag2()) + slice_writes(a) + slice_writes(b)))
}

/// The three-input compression of `a`, `b` and `c`.
pub open spec fn spec_hash3(a: Seq<u8>, b: Seq<u8>, c: Seq<u8>) -> Seq<u8> {
    stretch(
        DefaultHasher::spec_finish(
            slice_writes(tag3()) + slice_writes(a) + slice_writes(b) + slice_writes(c),
        ),
    )
}

/// Feeds one byte slice to the hasher: its length prefix, then its bytes.
fn write_slice(hasher: &mut DefaultHasher, s: &[u8])
    ensures
        final(hasher)@ == old(hasher)@ + slice_writes(s@),
{
    let prefix = u64_to_le_bytes(s.len() as u64);
    hasher.write(prefix.as_slice());
    hasher.write(s);
    assert(final(hasher)@ =~= old(hasher)@ + slice_writes(s@));
}

/// Stores the little-endian bytes of `x` at `out[at..at + 8]`.
pub(crate) fn put_word(out: &mut Digest, at: usize, x: u64)
    requires
        at + 8 <= 32,
    ensures
        final(out)@ =~= old(out)@.subrange(0, at as int) + spec_u64_to_le_bytes(x)
            + old(out)@.subrange(at + 8, 32),
{
    let bytes = u64_to_le_bytes(x);
    let mut k: usize = 0;
    while k < 8
        invariant
            0 <= k <= 8,
            at + 8 <= 32,
            bytes@ == spec_u64_to_le_bytes(x),
            bytes@.len() == 8,
            out@.len() == 32,
            forall|j: int| 0 <= j < at ==> out@[j] == old(out)@[j],
            forall|j: int| at + 8 <= j < 32 ==> out@[j] == old(out)@[j],
            forall|j: int| 0 <= j < k ==> out@[at + j] == bytes@[j],
        decreases 8 - k,
    {
        out[at + k] = bytes[k];
        k = k + 1;
    }
}

/// Stretches the first word `h1` into a full digest.
fn stretch_digest(h1: u64) -> (r: Digest)
    ensures
        r@ == stretch(h1),
{
    let mut h = DefaultHasher::new();
    h.write(u64_to_le_bytes(h1).as_slice());
    let h2 = h.finish();
    assert(h@ =~= seq![spec_u64_to_le_bytes(h1)]);
    let mut h = DefaultHasher::new();
    h.write(u64_to_le_bytes(h2).as_slice());
    let h3 = h.finish();
    assert(h@ =~= seq![spec_u64_to_le_bytes(h2)]);
    let mut h = DefaultHasher::new();
    h.write(u64_to_le_bytes(h3).as_slice());
    let h4 = h.finish();
    assert(h@ =~= seq![spec_u64_to_le_bytes(h3)]);
    let mut out: Digest = [0u8; 32];
    put_word(&mut out, 0, h1);
    put_word(&mut out, 8, h2);
    put_word(&mut out, 16, h3);
    put_word(&mut out, 24, h4);
    assert(out@ =~= stretch(h1));
    out
}

/// Two-input compression: the node hash of the tree and the nullifier hash.
pub fn poseidon_hash_2(a: &[u8], b: &[u8]) -> (r: Digest)
    ensures
        r@ == spec_hash2(a@, b@),
{
    let tag: [u8; 9] = [112u8, 111u8, 115u8, 101u8, 105u8, 100u8, 111u8, 110u8, 50u8];
    assert(tag@ =~= tag2());
    let mut hasher = DefaultHasher::new();
    write_slice(&mut hasher, tag.as_slice());
    write_slice(&mut hasher, a);
    write_slice(&mut hasher, b);
    assert(hasher@ =~= slice_writes(tag2()) + slice_writes(a@) + slice_writes(b@));
    stretch_digest(hasher.finish())
}

/// Three-input compression: the leaf hash of the tree.
pub fn poseidon_hash_3(a: &[u8], b: &[u8], c: &[u8]) -> (r: Digest)
    ensures
        r@ == spec_hash3(a@, b@, c@),
{
    let tag: [u8; 9] = [112u8, 111u8, 115u8, 101u8, 105u8, 100u8, 111u8, 110u8, 51u8];
    assert(tag@ =~= tag3());
    let mut hasher = DefaultHasher::new();
    write_slice(&mut hasher, tag.as_slice());
    write_slice(&mut hasher, a);
    write_slice(&mut hasher, b);
    write_slice(&mut hasher, c);
    assert(hasher@ =~= slice_writes(tag3()) + slice_writes(a@) + slice_writes(b@) + slice_writes(
        c@,
    ));
    stretch_digest(hasher.finish())
}

/// Hashes two sibling nodes into their parent.
pub fn hash_pair(left: &Digest, right: &Digest) -> (r: Digest)
    ensures
        r@ == spec_hash2(left@, right@),
{
    poseidon_hash_2(left.as_slice(), right.as_slice())
}

/// A hash primitive: a two-input and a three-input compression to 32 bytes,
/// both deterministic functions of their inputs.
pub trait HashPrimitive {
    /// The two-input compression.
    spec fn spec_combine2(a: Seq<u8>, b: Seq<u8>) -> Seq<u8>;

    /// The three-input compression.
    spec fn spec_combine3(a: Seq<u8>, b: Seq<u8>, c: Seq<u8>) -> Seq<u8>;

    fn combine2(&self, a: &[u8], b: &[u8]) -> (r: Digest)
        ensures
            r@ == Self::spec_combine2(a@, b@),
    ;

    fn combine3(&self, a: &[u8], b: &[u8], c: &[u8]) -> (r: Digest)
        ensures
            r@ == Self::spec_combine3(a@, b@, c@),
    ;
}

/// The demonstration primitive over std's SipHash: not for a deployment that
/// has to agree with a proof system.
pub struct DemoHash;

impl HashPrimitive for DemoHash {
    open spec fn spec_combine2(a: Seq<u8>, b: Seq<u8>) -> Seq<u8> {
        spec_hash2(a, b)
    }

    open spec fn spec_combine3(a: Seq<u8>, b: Seq<u8>, c: Seq<u8>) -> Seq<u8> {
        spec_hash3(a, b, c)
    }

    fn combine2(&self, a: &[u8], b: &[u8]) -> (r: Digest) {
        poseidon_hash_2(a, b)
    }

    fn combine3(&self, a: &[u8], b: &[u8], c: &[u8]) -> (r: Digest) {
        poseidon_hash_3(a, b, c)
    }
}

} // verus!

//! The hashing boundary of the Poseidon2 permutation over BN254's scalar
//! field: hex inputs in, a 64-character hex digest out, with the sponge's
//! padding and domain-separating IV for two and three inputs.

use ark_bn254::Fr;
use ark_ff::{BigInteger, PrimeField};
use vstd::arithmetic::div_mod::{lemma_mod_breakdown, lemma_small_mod};
use vstd::arithmetic::power::pow;
use crate::hashing::{Digest, HashPrimitive};
use vstd::prelude::*;
use vstd::slice::slice_subrange;
use vstd::utf8::{encode_utf8, is_ascii_chars, is_ascii_chars_encode_utf8};

verus! {

/// A request to hash: the inputs as hex strings, each with an optional `0x`.
pub struct HashRequest {
    pub inputs: Vec<String>,
}

/// The digest as 64 lowercase hex characters.
pub struct HashResponse {
    pub hash: String,
}

/// Why a hashing request was refused.
#[derive(Debug, Clone, Copy, PartialEq, Eq, Structural)]
pub enum HashError {
    /// Only 2 or 3 inputs are accepted.
    UnsupportedInputCount { count: usize },
    /// The input at this position is not valid hex.
    InvalidHex { input: usize },
}

/// 2^64.
pub open spec fn two_pow_64() -> nat {
    0xffff_ffff_ffff_ffff + 1
}

/// The order of BN254's scalar field, from its four 64-bit limbs:
/// 0x30644e72e131a029_b85045b68181585d_2833e84879b97091_43e1f593f0000001.
pub open spec fn fr_modulus() -> nat {
    ((0x30644e72e131a029 * two_pow_64() + 0xb85045b68181585d) * two_pow_64()
        + 0x2833e84879b97091) * two_pow_64() + 0x43e1f593f0000001
}

/// The value of a big-endian byte string.
pub open spec fn be_value(b: Seq<u8>) -> nat
    decreases b.len(),
{
    if b.len() == 0 {
        0
    } else {
        be_value(b.drop_last()) * 256 + b.last() as nat
    }
}

/// The last `k` bytes of `n` written big-endian: `n mod 256^k` in `k` bytes.
pub open spec fn be_bytes(n: nat, k: nat) -> Seq<u8>
    decreases k,
{
    if k == 0 {
        Seq::empty()
    } else {
        be_bytes(n / 256, (k - 1) as nat).push((n % 256) as u8)
    }
}

/// The 32 big-endian bytes of `n` (for `n < 2^256`).
pub open spec fn be_bytes32(n: nat) -> Seq<u8> {
    be_bytes(n, 32)
}

/// The value of one hex digit, either case.
pub open spec fn hex_val(c: u8) -> Option<nat> {
    if 48 <= c <= 57 {
        Some((c - 48) as nat)
    } else if 97 <= c <= 102 {
        Some((c - 87) as nat)
    } else if 65 <= c <= 70 {
        Some((c - 55) as nat)
    } else {
        None
    }
}

/// An even number of hex digits.
pub open spec fn valid_hex(s: Seq<u8>) -> bool {
    &&& s.len() % 2 == 0
    &&& forall|i: int| 0 <= i < s.len() ==> (#[trigger] hex_val(s[i])) is Some
}

/// The bytes that hex digits spell, two digits a byte, high digit first.
pub open spec fn decode_hex(s: Seq<u8>) -> Seq<u8> {
    Seq::new(
        s.len() / 2,
        |i: int| (hex_val(s[2 * i])->0 * 16 + hex_val(s[2 * i + 1])->0) as u8,
    )
}

/// The lowercase hex digit of `d < 16`.
pub open spec fn hex_digit(d: nat) -> char {
    if d < 10 {
        (48 + d) as char
    } else {
        (87 + d) as char
    }
}

/// Lowercase hex of a byte string, two digits a byte, high digit first.
pub open spec fn encode_hex(b: Seq<u8>) -> Seq<char> {
    Seq::new(
        2 * b.len(),
        |i: int|
            if i % 2 == 0 {
                hex_digit((b[i / 2] / 16) as nat)
            } else {
                hex_digit((b[i / 2] % 16) as nat)
            },
    )
}

/// The bytes of an input without a leading `0x`.
pub open spec fn strip_0x(b: Seq<u8>) -> Seq<u8> {
    if b.len() >= 2 && b[0] == 48 && b[1] == 120 {
        b.subrange(2, b.len() as int)
    } else {
        b
    }
}

/// The field element that an input string denotes: its hex digits, after an
/// optional `0x`, read big-endian and reduced modulo the field order.
pub open spec fn parse_input(s: Seq<char>) -> Option<nat> {
    let digits = strip_0x(encode_utf8(s));
    if valid_hex(digits) {
        Some(be_value(decode_hex(digits)) % fr_modulus())
    } else {
        None
    }
}

/// The position of the first input that is not valid hex, if any.
pub open spec fn first_invalid(inputs: Seq<Seq<char>>) -> Option<nat> {
    if parse_input(inputs[0]) is None {
        Some(0)
    } else if parse_input(inputs[1]) is None {
        Some(1)
    } else if inputs.len() == 3 && parse_input(inputs[2]) is None {
        Some(2)
    } else {
        None
    }
}

/// The sponge state, each element as 32 big-endian bytes:
/// `[a, b, 0, 2 * 2^64]` for two inputs, `[a, b, c, 3 * 2^64]` for three.
pub open spec fn sponge_state(args: Seq<nat>) -> Seq<Seq<u8>> {
    if args.len() == 2 {
        seq![be_bytes32(args[0]), be_bytes32(args[1]), be_bytes32(0), be_bytes32(2 * two_pow_64())]
    } else {
        seq![
            be_bytes32(args[0]),
            be_bytes32(args[1]),
            be_bytes32(args[2]),
            be_bytes32(3 * two_pow_64()),
        ]
    }
}

/// The Poseidon2 permutation of a four-element BN254 state, each element as
/// 32 big-endian bytes.
pub uninterp spec fn poseidon2_t4(state: Seq<Seq<u8>>) -> Seq<Seq<u8>>;

/// The text of each input.
pub open spec fn input_views(inputs: Seq<String>) -> Seq<Seq<char>> {
    inputs.map_values(|s: String| s@)
}

/// The field values of well-formed inputs.
pub open spec fn input_values(inputs: Seq<Seq<char>>) -> Seq<nat> {
    inputs.map_values(|s: Seq<char>| parse_input(s)->0)
}

/// The hex digest of two or three field elements: the first element of the
/// permuted sponge state.
pub open spec fn field_hash_hex(args: Seq<nat>) -> Seq<char> {
    encode_hex(poseidon2_t4(sponge_state(args))[0])
}

/// Relies on ark_ff's `PrimeField::from_be_bytes_mod_order` for BN254's `Fr`:
/// the big-endian value reduced modulo the field order, read back as the 32
/// big-endian bytes of its canonical integer.
#[verifier::external_body]
fn reduce_be(bytes: &[u8]) -> (r: Vec<u8>)
    ensures
        r@ == be_bytes32(be_value(bytes@) % fr_modulus()),
{
    Fr::from_be_bytes_mod_order(bytes).into_bigint().to_bytes_be()
}

/// Relies on taceo_poseidon2's `bn254::t4::permutation_in_place`: permutes
/// four field elements, each given as big-endian bytes (reduced modulo the
/// field order) and returned as 32 big-endian bytes.
#[verifier::external_body]
fn permute_t4(a: &[u8], b: &[u8], c: &[u8], d: &[u8]) -> (r: Vec<Vec<u8>>)
    ensures
        r@.len() == 4,
        forall|k: int| 0 <= k < 4 ==> (#[trigger] r@[k]@).len() == 32,
        forall|k: int|
            0 <= k < 4 ==> #[trigger] r@[k]@ == poseidon2_t4(seq![a@, b@, c@, d@])[k],
{
    let mut state = [
        Fr::from_be_bytes_mod_order(a),
        Fr::from_be_bytes_mod_order(b),
        Fr::from_be_bytes_mod_order(c),
        Fr::from_be_bytes_mod_order(d),
    ];
    taceo_poseidon2::bn254::t4::permutation_in_place(&mut state);
    state.iter().map(|f| f.into_bigint().to_bytes_be()).collect()
}

/// Relies on hex::decode: `Some` exactly for an even number of hex digits
/// (either case), with the bytes they spell.
#[verifier::external_body]
fn decode_hex_bytes(digits: &[u8]) -> (r: Option<Vec<u8>>)
    ensures
        r is Some <==> valid_hex(digits@),
        r matches Some(v) ==> v@ == decode_hex(digits@),
{
    hex::decode(digits).ok()
}

/// Relies on hex::encode: two lowercase digits per byte, high digit first.
#[verifier::external_body]
fn encode_hex_string(bytes: &[u8]) -> (r: String)
    ensures
        r@ == encode_hex(bytes@),
{
    hex::encode(bytes)
}

/// Appending a byte shifts the big-endian value by one byte.
proof fn lemma_be_push(s: Seq<u8>, x: u8)
    ensures
        be_value(s.push(x)) == be_value(s) * 256 + x,
{
    assert(s.push(x).drop_last() =~= s);
}

/// The sponge IV of `arity` inputs, `arity * 2^64`, as big-endian bytes.
proof fn lemma_iv_value(arity: u8)
    requires
        arity == 2 || arity == 3,
    ensures
        be_value(seq![arity, 0u8, 0u8, 0u8, 0u8, 0u8, 0u8, 0u8, 0u8]) == arity * two_pow_64(),
        arity * two_pow_64() < fr_modulus(),
{
    let s0 = Seq::<u8>::empty();
    let s1 = s0.push(arity);
    let s2 = s1.push(0u8);
    let s3 = s2.push(0u8);
    let s4 = s3.push(0u8);
    let s5 = s4.push(0u8);
    let s6 = s5.push(0u8);
    let s7 = s6.push(0u8);
    let s8 = s7.push(0u8);
    let s9 = s8.push(0u8);
    lemma_be_push(s0, arity);
    lemma_be_push(s1, 0u8);
    lemma_be_push(s2, 0u8);
    lemma_be_push(s3, 0u8);
    lemma_be_push(s4, 0u8);
    lemma_be_push(s5, 0u8);
    lemma_be_push(s6, 0u8);
    lemma_be_push(s7, 0u8);
    lemma_be_push(s8, 0u8);
    assert(s9 =~= seq![arity, 0u8, 0u8, 0u8, 0u8, 0u8, 0u8, 0u8, 0u8]);
    let t = two_pow_64();
    assert(4 * t < 0x30644e72e131a029 * t * t * t) by (nonlinear_arith)
        requires
            t == 0xffff_ffff_ffff_ffff + 1,
    ;
    assert(0x30644e72e131a029 * t * t * t <= fr_modulus()) by (nonlinear_arith)
        requires
            t == 0xffff_ffff_ffff_ffff + 1,
            fr_modulus() == ((0x30644e72e131a029 * t + 0xb85045b68181585d) * t + 0x2833e84879b97091)
                * t + 0x43e1f593f0000001,
    ;
}

/// The sponge IV of `arity` inputs as a canonical field element.
fn sponge_iv(arity: u8) -> (r: Vec<u8>)
    requires
        arity == 2 || arity == 3,
    ensures
        r@ == be_bytes32(arity as nat * two_pow_64()),
{
    let bytes: [u8; 9] = [arity, 0u8, 0u8, 0u8, 0u8, 0u8, 0u8, 0u8, 0u8];
    proof {
        lemma_iv_value(arity);
        assert(bytes@ =~= seq![arity, 0u8, 0u8, 0u8, 0u8, 0u8, 0u8, 0u8, 0u8]);
        lemma_small_mod(arity as nat * two_pow_64(), fr_modulus());
    }
    reduce_be(bytes.as_slice())
}

/// The canonical bytes of the field element that a hex input denotes (an
/// optional `0x`, then big-endian hex digits, reduced modulo the field
/// order), or `None` where it is not valid hex.
pub fn hex_to_field(hex: &str) -> (r: Option<Vec<u8>>)
    ensures
        match parse_input(hex@) {
            Some(v) => r matches Some(b) && b@ == be_bytes32(v),
            None => r is None,
        },
{
    let bytes = hex.as_bytes();
    let n = bytes.len();
    let digits = if n >= 2 && bytes[0] == 48 && bytes[1] == 120 {
        slice_subrange(bytes, 2, n)
    } else {
        bytes
    };
    assert(digits@ == strip_0x(encode_utf8(hex@)));
    match decode_hex_bytes(digits) {
        None => None,
        Some(raw) => Some(reduce_be(raw.as_slice())),
    }
}

/// The hex text of a field element's bytes: two lowercase digits per byte,
/// 64 characters for the 32 bytes of a canonical element.
pub fn field_to_hex(f: &[u8]) -> (r: String)
    ensures
        r@ == encode_hex(f@),
        r@.len() == 2 * f@.len(),
{
    encode_hex_string(f)
}

/// Hashes two or three hex inputs with the Poseidon2 sponge: the state
/// `[a, b, 0, 2 * 2^64]` or `[a, b, c, 3 * 2^64]` is permuted and its first
/// element returned as 64 lowercase hex characters. Another number of inputs
/// is refused before anything is decoded; otherwise the first input that is
/// not valid hex is reported.
pub fn hash_poseidon(request: &HashRequest) -> (r: Result<HashResponse, HashError>)
    ensures
        ({
            let ins = input_views(request.inputs@);
            let n = ins.len();
            &&& (n != 2 && n != 3) ==> r == Err::<HashResponse, HashError>(
                HashError::UnsupportedInputCount { count: n as usize },
            )
            &&& (n == 2 || n == 3) ==> match first_invalid(ins) {
                Some(i) => r == Err::<HashResponse, HashError>(
                    HashError::InvalidHex { input: i as usize },
                ),
                None => r matches Ok(resp) && resp.hash@ == field_hash_hex(input_values(ins))
                    && resp.hash@.len() == 64,
            }
        }),
{
    let inputs = &request.inputs;
    let ghost ins = input_views(request.inputs@);
    let n = inputs.len();
    if n != 2 && n != 3 {
        return Err(HashError::UnsupportedInputCount { count: n });
    }
    assert(ins[0] == inputs@[0]@ && ins[1] == inputs@[1]@);
    let a = match hex_to_field(inputs[0].as_str()) {
        Some(v) => v,
        None => return Err(HashError::InvalidHex { input: 0 }),
    };
    let b = match hex_to_field(inputs[1].as_str()) {
        Some(v) => v,
        None => return Err(HashError::InvalidHex { input: 1 }),
    };
    let iv = sponge_iv(n as u8);
    let c = if n == 2 {
        field_zero()
    } else {
        assert(ins[2] == inputs@[2]@);
        match hex_to_field(inputs[2].as_str()) {
            Some(v) => v,
            None => return Err(HashError::InvalidHex { input: 2 }),
        }
    };
    let state = permute_t4(a.as_slice(), b.as_slice(), c.as_slice(), iv.as_slice());
    let ghost args = input_values(ins);
    assert(seq![a@, b@, c@, iv@] =~= sponge_state(args));
    let hash = field_to_hex(state[0].as_slice());
    Ok(HashResponse { hash })
}

/// A lowercase hex digit.
pub open spec fn is_lower_hex(c: char) -> bool {
    ('0' <= c <= '9') || ('a' <= c <= 'f')
}

/// Reading back `k` big-endian bytes of `n` gives `n mod 256^k`.
proof fn lemma_be_bytes_value(n: nat, k: nat)
    ensures
        be_bytes(n, k).len() == k,
        be_value(be_bytes(n, k)) == n % pow(256, k) as nat,
    decreases k,
{
    reveal(pow);
    if k == 0 {
        assert(pow(256, 0) == 1);
    } else {
        let k1 = (k - 1) as nat;
        lemma_be_bytes_value(n / 256, k1);
        lemma_be_push(be_bytes(n / 256, k1), (n % 256) as u8);
        assert(pow(256, k1) > 0) by {
            vstd::arithmetic::power::lemma_pow_positive(256, k1);
        }
        lemma_mod_breakdown(n as int, 256, pow(256, k1));
        assert(pow(256, k) == 256 * pow(256, k1));
    }
}

/// 2^256 exceeds the field order.
proof fn lemma_modulus_below_2_256()
    ensures
        fr_modulus() < pow(256, 32),
{
    let t = two_pow_64();
    vstd::arithmetic::power::lemma_pow_adds(256, 8, 8);
    vstd::arithmetic::power::lemma_pow_adds(256, 16, 16);
    assert(pow(256, 8) == t) by {
        reveal_with_fuel(pow, 9);
    }
    assert(fr_modulus() < t * t * t * t) by (nonlinear_arith)
        requires
            t == 0xffff_ffff_ffff_ffff + 1,
            fr_modulus() == ((0x30644e72e131a029 * t + 0xb85045b68181585d) * t + 0x2833e84879b97091)
                * t + 0x43e1f593f0000001,
    ;
    assert(t * t * t * t == (t * t) * (t * t)) by (nonlinear_arith);
}

/// A hex digit reads back as its value.
proof fn lemma_hex_digit(d: nat)
    requires
        d < 16,
    ensures
        is_lower_hex(hex_digit(d)),
        hex_val(hex_digit(d) as u8) == Some(d),
{
}

/// Hex round trip: the hex text of a field element is 64 lowercase hex
/// digits, and reading it back at the hashing boundary gives the element.
pub proof fn lemma_hex_round_trip(v: nat)
    requires
        v < fr_modulus(),
    ensures
        encode_hex(be_bytes32(v)).len() == 64,
        forall|i: int| 0 <= i < 64 ==> is_lower_hex(#[trigger] encode_hex(be_bytes32(v))[i]),
        parse_input(encode_hex(be_bytes32(v))) == Some(v),
{
    let b = be_bytes32(v);
    lemma_be_bytes_value(v, 32);
    let h = encode_hex(b);
    assert forall|i: int| 0 <= i < 64 implies is_lower_hex(#[trigger] h[i]) && hex_val(
        h[i] as u8,
    ) == Some(if i % 2 == 0 {
        (b[i / 2] / 16) as nat
    } else {
        (b[i / 2] % 16) as nat
    }) by {
        lemma_hex_digit((b[i / 2] / 16) as nat);
        lemma_hex_digit((b[i / 2] % 16) as nat);
    }
    assert(is_ascii_chars(h));
    is_ascii_chars_encode_utf8(h);
    let e = encode_utf8(h);
    assert(strip_0x(e) == e);
    assert(valid_hex(e));
    assert(decode_hex(e) =~= b);
    lemma_modulus_below_2_256();
    lemma_small_mod(v, pow(256, 32) as nat);
    lemma_small_mod(v, fr_modulus());
}

/// The field element that a byte string denotes: big-endian, reduced modulo
/// the field order.
pub open spec fn field_elem(b: Seq<u8>) -> nat {
    be_value(b) % fr_modulus()
}

/// The Poseidon2 sponge as the tree's hash primitive: each input is read as a
/// big-endian field element, and the digest is the first element of the
/// permuted state as 32 big-endian bytes.
pub struct Poseidon2Hash;

/// Copies 32 bytes into a digest.
fn to_digest(v: &Vec<u8>) -> (r: Digest)
    requires
        v@.len() == 32,
    ensures
        r@ == v@,
{
    let mut out: Digest = [0u8; 32];
    let mut i: usize = 0;
    while i < 32
        invariant
            i <= 32,
            v@.len() == 32,
            forall|j: int| 0 <= j < i ==> out@[j] == v@[j],
        decreases 32 - i,
    {
        out[i] = v[i];
        i = i + 1;
    }
    assert(out@ =~= v@);
    out
}

/// The canonical bytes of the field element zero.
fn field_zero() -> (r: Vec<u8>)
    ensures
        r@ == be_bytes32(0),
{
    let none: [u8; 0] = [];
    assert(none@ =~= Seq::<u8>::empty());
    assert(be_value(none@) == 0);
    proof {
        lemma_small_mod(0, fr_modulus());
    }
    reduce_be(none.as_slice())
}

impl HashPrimitive for Poseidon2Hash {
    open spec fn spec_combine2(a: Seq<u8>, b: Seq<u8>) -> Seq<u8> {
        poseidon2_t4(sponge_state(seq![field_elem(a), field_elem(b)]))[0]
    }

    open spec fn spec_combine3(a: Seq<u8>, b: Seq<u8>, c: Seq<u8>) -> Seq<u8> {
        poseidon2_t4(sponge_state(seq![field_elem(a), field_elem(b), field_elem(c)]))[0]
    }

    fn combine2(&self, a: &[u8], b: &[u8]) -> (r: Digest) {
        let fa = reduce_be(a);
        let fb = reduce_be(b);
        let zero = field_zero();
        let iv = sponge_iv(2);
        let state = permute_t4(fa.as_slice(), fb.as_slice(), zero.as_slice(), iv.as_slice());
        assert(seq![fa@, fb@, zero@, iv@] =~= sponge_state(seq![field_elem(a@), field_elem(b@)]));
        to_digest(&state[0])
    }

    fn combine3(&self, a: &[u8], b: &[u8], c: &[u8]) -> (r: Digest) {
        let fa = reduce_be(a);
        let fb = reduce_be(b);
        let fc = reduce_be(c);
        let iv = sponge_iv(3);
        let state = permute_t4(fa.as_slice(), fb.as_slice(), fc.as_slice(), iv.as_slice());
        assert(seq![fa@, fb@, fc@, iv@] =~= sponge_state(
            seq![field_elem(a@), field_elem(b@), field_elem(c@)],
        ));
        to_digest(&state[0])
    }
}

} // verus!

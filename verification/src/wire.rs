//! Low-level byte decoding shared by the protocol parsers.

use vstd::prelude::*;
use vstd::arithmetic::power2::{pow2, lemma_pow2_adds, lemma_pow2_pos, lemma2_to64, lemma2_to64_rest, lemma_pow2_strictly_increases};
use vstd::bits::lemma_u64_shl_is_mul;

verus! {

/// Value of the first `n` base-128 digits of `data`, least significant first.
pub open spec fn base128_value(data: Seq<u8>, n: nat) -> nat
    decreases n,
{
    if n == 0 {
        0
    } else {
        base128_value(data, (n - 1) as nat)
            + (data[n - 1] as nat % 128) * pow2((7 * (n - 1)) as nat)
    }
}

/// Index of the first byte without the continuation bit, or `data.len()`.
pub open spec fn varint_end(data: Seq<u8>) -> int
    decreases data.len(),
{
    if data.len() == 0 {
        0
    } else if data[0] < 128 {
        0
    } else {
        1 + varint_end(data.drop_first())
    }
}

/// What a protobuf varint decoder yields for `data`: the terminating byte must
/// be among the first ten, and the value is taken modulo 2^64.
pub open spec fn varint_spec(data: Seq<u8>) -> Option<u64> {
    let end = varint_end(data);
    if end < data.len() && end <= 9 {
        Some((base128_value(data, (end + 1) as nat) % pow2(64)) as u64)
    } else {
        None
    }
}


proof fn lemma_varint_end(data: Seq<u8>)
    ensures
        0 <= varint_end(data) <= data.len(),
        forall|j: int| 0 <= j < varint_end(data) ==> data[j] >= 128,
        varint_end(data) < data.len() ==> data[varint_end(data)] < 128,
    decreases data.len(),
{
    if data.len() > 0 && data[0] >= 128 {
        lemma_varint_end(data.drop_first());
        assert forall|j: int| 0 <= j < varint_end(data) implies data[j] >= 128 by {
            if j > 0 {
                assert(data[j] == data.drop_first()[j - 1]);
            }
        }
    }
}

/// If the first `i` bytes all carry the continuation bit and byte `i` does
/// not, the terminator is at `i`.
proof fn lemma_varint_end_at(data: Seq<u8>, i: int)
    requires
        0 <= i < data.len(),
        forall|j: int| 0 <= j < i ==> data[j] >= 128,
    ensures
        data[i] < 128 ==> varint_end(data) == i,
        data[i] >= 128 ==> varint_end(data) > i,
    decreases i,
{
    lemma_varint_end(data.drop_first());
    if i > 0 {
        assert(data[0] >= 128);
        assert forall|j: int| 0 <= j < i - 1 implies data.drop_first()[j] >= 128 by {
            assert(data.drop_first()[j] == data[j + 1]);
        }
        lemma_varint_end_at(data.drop_first(), i - 1);
    }
}

proof fn lemma_base128_bound(data: Seq<u8>, n: nat)
    ensures
        base128_value(data, n) < pow2(7 * n),
    decreases n,
{
    if n == 0 {
        lemma2_to64();
    } else {
        let m = (n - 1) as nat;
        lemma_base128_bound(data, m);
        lemma_pow2_adds(7 * m, 7);
        lemma2_to64();
        let d = data[n - 1] as nat % 128;
        let p = pow2(7 * m);
        assert(base128_value(data, n) == base128_value(data, m) + d * p);
        assert(d * p <= 127 * p) by (nonlinear_arith)
            requires d <= 127;
        assert(pow2(7 * n) == p * 128) by {
            assert(7 * n == 7 * m + 7);
        }
    }
}

/// The protobuf varint encoding of `n`: seven bits per byte, least
/// significant first, the top bit set on every byte but the last.
pub open spec fn leb128(n: nat) -> Seq<u8>
    decreases n,
{
    if n < 128 { seq![n as u8] } else { seq![(n % 128 + 128) as u8] + leb128(n / 128) }
}

proof fn lemma_base128_shift(b: u8, d: Seq<u8>, k: nat)
    requires
        k <= d.len(),
    ensures
        base128_value(seq![b] + d, k + 1) == (b as nat % 128) + 128 * base128_value(d, k),
    decreases k,
{
    let s = seq![b] + d;
    lemma2_to64();
    if k == 0 {
        assert(base128_value(s, 0) == 0);
        assert(s[0] == b);
        assert(pow2(0) == 1);
        assert(base128_value(s, 1) == base128_value(s, 0) + (s[0] as nat % 128) * pow2(0));
        assert(base128_value(d, 0) == 0);
    } else {
        let m = (k - 1) as nat;
        lemma_base128_shift(b, d, m);
        assert(s[k as int] == d[m as int]);
        lemma_pow2_adds(7 * m, 7);
        assert(7 * k == 7 * m + 7);
        let p = pow2(7 * m);
        let x = d[m as int] as nat % 128;
        let v = base128_value(d, m);
        assert(base128_value(s, k + 1) == base128_value(s, k) + x * pow2(7 * k));
        assert(base128_value(d, k) == v + x * p);
        assert(pow2(7 * k) == p * 128);
        assert((b as nat % 128) + 128 * v + x * (p * 128) == (b as nat % 128) + 128 * (v + x * p)) by (nonlinear_arith);
    }
}

proof fn lemma_leb128(n: nat, rest: Seq<u8>)
    ensures
        leb128(n).len() >= 1,
        varint_end(leb128(n) + rest) == leb128(n).len() - 1,
        base128_value(leb128(n) + rest, leb128(n).len()) == n,
    decreases n,
{
    let t = leb128(n) + rest;
    if n < 128 {
        assert(t[0] == n as u8);
        lemma2_to64();
        assert(base128_value(t, 1) == base128_value(t, 0) + (t[0] as nat % 128) * pow2(0));
    } else {
        let q = n / 128;
        let b = (n % 128 + 128) as u8;
        lemma_leb128(q, rest);
        assert(t =~= seq![b] + (leb128(q) + rest));
        assert(t.drop_first() =~= leb128(q) + rest);
        assert(t[0] == b && b >= 128);
        lemma_base128_shift(b, leb128(q) + rest, leb128(q).len());
        assert(b as nat % 128 == n % 128);
        assert(n == 128 * q + n % 128);
    }
}

proof fn lemma_leb128_len(n: nat, k: nat)
    requires
        k >= 1,
        n < pow2(7 * k),
    ensures
        leb128(n).len() <= k,
    decreases k,
{
    if n >= 128 {
        lemma2_to64();
        if k == 1 {
            assert(pow2(7) == 128);
        } else {
            let m = (k - 1) as nat;
            lemma_pow2_adds(7 * m, 7);
            assert(7 * k == 7 * m + 7);
            assert(n / 128 < pow2(7 * m)) by (nonlinear_arith)
                requires n < pow2(7 * m) * 128;
            lemma_leb128_len(n / 128, m);
        }
    }
}

/// Decoding reads back what encoding wrote: the varint encoding of any
/// 64-bit value, followed by any bytes, decodes to that value.
pub proof fn lemma_varint_round_trip(n: u64, rest: Seq<u8>)
    ensures
        varint_spec(leb128(n as nat) + rest) == Some(n),
{
    lemma_leb128(n as nat, rest);
    lemma2_to64();
    lemma_pow2_strictly_increases(64, 70);
    lemma_leb128_len(n as nat, 10);
    assert(n < pow2(64));
}

/// OR-ing a shifted 7-bit digit into an accumulator below that digit's
/// position adds it, modulo 2^64.
proof fn lemma_or_digit(acc: u64, x: u64, s: u64)
    requires
        s <= 63,
        s % 7 == 0,
        x < 128,
        acc < pow2(s as nat),
    ensures
        (acc | (x << s)) as nat == ((acc + x * pow2(s as nat)) as nat) % pow2(64),
{
    lemma2_to64();
    lemma2_to64_rest();
    if s <= 56 {
        lemma_pow2_strictly_increases(s as nat, 57);
        lemma_pow2_strictly_increases(57, 64);
        assert(x * pow2(s as nat) <= 127 * pow2(56)) by (nonlinear_arith)
            requires x <= 127, pow2(s as nat) <= pow2(56);
        assert(pow2(s as nat) <= pow2(56)) by {
            if s < 56 { lemma_pow2_strictly_increases(s as nat, 56); }
        }
        assert(x * pow2(s as nat) <= 127 * pow2(56)) by (nonlinear_arith)
            requires x <= 127, pow2(s as nat) <= pow2(56);
        lemma_u64_shl_is_mul(x, s);
        lemma_u64_shl_is_mul(1, s);
        assert(acc < (1u64 << s));
        assert(acc | (x << s) == acc + (x << s)) by (bit_vector)
            requires s < 64, acc < (1u64 << s);
        assert(acc + x * pow2(s as nat) < pow2(64));
        vstd::arithmetic::div_mod::lemma_small_mod((acc + x * pow2(s as nat)) as nat, pow2(64));
    } else {
        assert(s == 63);
        let hi: u64 = 0x8000_0000_0000_0000;
        let low: u64 = x % 2;
        assert(x << s == low * hi) by (bit_vector)
            requires s == 63, x < 128, hi == 0x8000_0000_0000_0000u64, low == x % 2;
        let top: u64 = x << s;
        assert(acc | top == acc + top) by (bit_vector)
            requires acc < hi, hi == 0x8000_0000_0000_0000u64, top == x << s, s == 63;
        assert(pow2(63) == hi);
        assert(x * hi == (x / 2) * (2 * hi) + (x % 2) * hi) by (nonlinear_arith);
        assert(pow2(64) == 2 * hi);
        vstd::arithmetic::div_mod::lemma_mod_multiples_vanish((x / 2) as int, (acc + (x % 2) * hi) as int, pow2(64) as int);
        vstd::arithmetic::div_mod::lemma_small_mod((acc + (x % 2) * hi) as nat, pow2(64));
    }
}

/// Standard protobuf varint decoder.
pub fn decode_varint(data: &[u8]) -> (r: Option<u64>)
    ensures
        r == varint_spec(data@),
{
    let mut result: u64 = 0;
    let mut shift: u64 = 0;
    let mut i: usize = 0;
    proof {
        lemma_varint_end(data@);
        lemma2_to64();
    }
    while i < data.len()
        invariant
            i <= data.len(),
            i <= 9,
            shift == 7 * i,
            result as nat == base128_value(data@, i as nat),
            forall|j: int| 0 <= j < i ==> data@[j] >= 128,
            0 <= varint_end(data@) <= data@.len(),
            forall|j: int| 0 <= j < varint_end(data@) ==> data@[j] >= 128,
        decreases data.len() - i,
    {
        let byte = data[i];
        let digit: u64 = (byte & 0x7f) as u64;
        proof {
            assert(byte & 0x7f == byte % 128) by (bit_vector);
            lemma_base128_bound(data@, i as nat);
            lemma_or_digit(result, digit, shift);
            lemma_varint_end_at(data@, i as int);
        }
        let ghost before = result;
        result = result | (digit << shift);
        proof {
            assert(base128_value(data@, (i + 1) as nat)
                == base128_value(data@, i as nat) + (data@[i as int] as nat % 128) * pow2(shift as nat));
        }
        if byte & 0x80 == 0 {
            proof {
                assert(byte & 0x80 == 0 ==> byte < 128) by (bit_vector);
            }
            return Some(result);
        }
        proof {
            assert(byte & 0x80 != 0 ==> byte >= 128) by (bit_vector);
            lemma_base128_bound(data@, (i + 1) as nat);
        }
        if shift + 7 >= 64 {
            return None;
        }
        shift = shift + 7;
        i = i + 1;
        proof {
            lemma_pow2_strictly_increases(7 * i as nat, 64);
            vstd::arithmetic::div_mod::lemma_small_mod(base128_value(data@, i as nat), pow2(64));
        }
    }
    None
}


/// Little-endian 32-bit value of the four bytes of `s` starting at `i`.
pub open spec fn le_u32(s: Seq<u8>, i: int) -> u32 {
    (s[i] as int + s[i + 1] as int * 0x100 + s[i + 2] as int * 0x1_0000
        + s[i + 3] as int * 0x100_0000) as u32
}

/// Big-endian 32-bit value of the four bytes of `s` starting at `i`.
pub open spec fn be_u32(s: Seq<u8>, i: int) -> u32 {
    (s[i + 3] as int + s[i + 2] as int * 0x100 + s[i + 1] as int * 0x1_0000
        + s[i] as int * 0x100_0000) as u32
}

/// Big-endian 16-bit value of the two bytes of `s` starting at `i`.
pub open spec fn be_u16(s: Seq<u8>, i: int) -> u16 {
    (s[i + 1] as int + s[i] as int * 0x100) as u16
}

/// Big-endian 64-bit value of the eight bytes of `s` starting at `i`.
pub open spec fn be_u64(s: Seq<u8>, i: int) -> u64 {
    (be_u32(s, i) as int * 0x1_0000_0000 + be_u32(s, i + 4) as int) as u64
}

/// Reads a little-endian `u32` at `i`.
pub fn read_le_u32(s: &[u8], i: usize) -> (r: u32)
    requires
        i + 4 <= s@.len(),
    ensures
        r == le_u32(s@, i as int),
{
    let b0 = s[i];
    let b1 = s[i + 1];
    let b2 = s[i + 2];
    let b3 = s[i + 3];
    let r: u32 = (b0 as u32) | ((b1 as u32) << 8u32) | ((b2 as u32) << 16u32) | ((b3 as u32) << 24u32);
    assert(r == b0 as int + b1 as int * 0x100 + b2 as int * 0x1_0000 + b3 as int * 0x100_0000) by (bit_vector)
        requires r == (b0 as u32) | ((b1 as u32) << 8u32) | ((b2 as u32) << 16u32) | ((b3 as u32) << 24u32);
    r
}

/// Reads a big-endian `u32` at `i`.
pub fn read_be_u32(s: &[u8], i: usize) -> (r: u32)
    requires
        i + 4 <= s@.len(),
    ensures
        r == be_u32(s@, i as int),
{
    let b0 = s[i];
    let b1 = s[i + 1];
    let b2 = s[i + 2];
    let b3 = s[i + 3];
    let r: u32 = (b3 as u32) | ((b2 as u32) << 8u32) | ((b1 as u32) << 16u32) | ((b0 as u32) << 24u32);
    assert(r == b3 as int + b2 as int * 0x100 + b1 as int * 0x1_0000 + b0 as int * 0x100_0000) by (bit_vector)
        requires r == (b3 as u32) | ((b2 as u32) << 8u32) | ((b1 as u32) << 16u32) | ((b0 as u32) << 24u32);
    r
}

/// Reads a big-endian `u16` at `i`.
pub fn read_be_u16(s: &[u8], i: usize) -> (r: u16)
    requires
        i + 2 <= s@.len(),
    ensures
        r == be_u16(s@, i as int),
{
    let b0 = s[i];
    let b1 = s[i + 1];
    let r: u16 = (b1 as u16) | ((b0 as u16) << 8u16);
    assert(r == b1 as int + b0 as int * 0x100) by (bit_vector)
        requires r == (b1 as u16) | ((b0 as u16) << 8u16);
    r
}

/// Reads a big-endian `u64` at `i`.
pub fn read_be_u64(s: &[u8], i: usize) -> (r: u64)
    requires
        i + 8 <= s@.len(),
    ensures
        r == be_u64(s@, i as int),
{
    let hi = read_be_u32(s, i);
    assert(s@.len() == s.len());
    let lo = read_be_u32(s, i + 4);
    let r: u64 = ((hi as u64) << 32u64) | (lo as u64);
    assert(r == hi as int * 0x1_0000_0000 + lo as int) by (bit_vector)
        requires r == ((hi as u64) << 32u64) | (lo as u64);
    r
}


/// The text `String::from_utf8_lossy` makes of `bytes`.
pub uninterp spec fn utf8_lossy(bytes: Seq<u8>) -> Seq<char>;

/// Calls `String::from_utf8_lossy`. Its result is taken to be `utf8_lossy` of
/// the bytes; for valid UTF-8 input the documentation promises the unchanged
/// text, which is stated too.
#[verifier::external_body]
pub(crate) fn lossy_string(bytes: &[u8]) -> (s: String)
    ensures
        s@ == utf8_lossy(bytes@),
        vstd::utf8::valid_utf8(bytes@) ==> s@ == vstd::utf8::decode_utf8(bytes@),
{
    String::from_utf8_lossy(bytes).into_owned()
}

/// Calls `std::str::from_utf8`, whose documentation promises `Ok` exactly
/// when the bytes are valid UTF-8, holding the text they encode.
#[verifier::external_body]
pub(crate) fn utf8_text(bytes: &[u8]) -> (r: Option<String>)
    ensures
        r is Some <==> vstd::utf8::valid_utf8(bytes@),
        r matches Some(s) ==> s@ == vstd::utf8::decode_utf8(bytes@),
{
    std::str::from_utf8(bytes).ok().map(|s| s.to_string())
}

} // verus!

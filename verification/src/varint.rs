//! The format's variable-length integer ("varint") encoding.
//!
//! A varint is 1 to 9 bytes long. For each of the first 8 bytes the low
//! 7 bits are significant and the high bit, if set, signals "continue";
//! the scan stops at the first byte among the first 8 whose high bit is
//! clear, or unconditionally after the 9th byte, all 8 bits of which are
//! significant. Bits from earlier bytes are more significant than bits
//! from later bytes.

use vstd::prelude::*;

use crate::error::DecodeError;

verus! {

/// Number of bytes the varint at the front of `s` occupies, scanning from
/// position `i`: the first position among `i .. 8` holding a byte below
/// 128 terminates the varint, and position 8 terminates it unconditionally.
pub open spec fn varint_len_from(s: Seq<u8>, i: int) -> int
    decreases 8 - i,
{
    if i < 0 || i >= 8 {
        9
    } else if i < s.len() && s[i] < 128 {
        i + 1
    } else {
        varint_len_from(s, i + 1)
    }
}

/// Number of bytes the varint at the front of `s` occupies.
pub open spec fn varint_len(s: Seq<u8>) -> int {
    varint_len_from(s, 0)
}

/// `s` starts with a whole varint: either some terminating byte appears
/// among the first 8 bytes, or at least 9 bytes are present.
pub open spec fn varint_complete(s: Seq<u8>) -> bool {
    s.len() >= 9 || (exists|i: int| 0 <= i < s.len() && i < 8 && s[i] < 128)
}

/// The value accumulated from the low 7 bits of the first `n` bytes of
/// `s`, earliest byte most significant.
pub open spec fn varint_acc(s: Seq<u8>, n: int) -> nat
    decreases n,
{
    if n <= 0 {
        0
    } else {
        varint_acc(s, n - 1) * 128 + (s[n - 1] % 128) as nat
    }
}

/// The value of the varint at the front of `s`: 7 bits from each byte,
/// except that a 9th byte contributes all 8 of its bits.
pub open spec fn varint_value(s: Seq<u8>) -> nat {
    if varint_len(s) <= 8 {
        varint_acc(s, varint_len(s))
    } else {
        varint_acc(s, 8) * 256 + s[8] as nat
    }
}

/// 128 to the power `k`: the number of values `k` continuation-free
/// 7-bit groups can hold.
pub open spec fn pow128(k: int) -> nat
    decreases k,
{
    if k <= 0 {
        1
    } else {
        128 * pow128(k - 1)
    }
}

/// The fewest bytes that can encode `v`: the smallest `n <= 8` with
/// `v < 128^n`, or 9 when `v` needs more than 56 bits.
pub open spec fn min_varint_len(v: nat) -> int {
    if v < pow128(1) {
        1
    } else if v < pow128(2) {
        2
    } else if v < pow128(3) {
        3
    } else if v < pow128(4) {
        4
    } else if v < pow128(5) {
        5
    } else if v < pow128(6) {
        6
    } else if v < pow128(7) {
        7
    } else if v < pow128(8) {
        8
    } else {
        9
    }
}

/// Exactly `k` continuation bytes carrying the 7-bit groups of `u`,
/// earliest byte most significant, each with its high bit set.
pub open spec fn enc_fixed(u: nat, k: int) -> Seq<u8>
    decreases k,
{
    if k <= 0 {
        Seq::empty()
    } else {
        enc_fixed(u / 128, k - 1).push((u % 128 + 128) as u8)
    }
}

/// The minimal encoding of `v`: continuation bytes followed by one
/// terminating byte, or 8 continuation bytes and a full 9th byte when
/// `v` needs more than 56 bits.
pub open spec fn encoded_varint(v: nat) -> Seq<u8> {
    let n = min_varint_len(v);
    if n <= 8 {
        enc_fixed(v / 128, n - 1).push((v % 128) as u8)
    } else {
        enc_fixed(v / 256, 8).push((v % 256) as u8)
    }
}

pub proof fn lemma_pow128_vals()
    ensures
        pow128(0) == 1,
        pow128(1) == 0x80,
        pow128(2) == 0x4000,
        pow128(3) == 0x200000,
        pow128(4) == 0x10000000,
        pow128(5) == 0x8_00000000,
        pow128(6) == 0x400_00000000,
        pow128(7) == 0x2_0000_00000000,
        pow128(8) == 0x100_0000_00000000,
{
    assert(pow128(0) == 1);
    assert(pow128(1) == 0x80);
    assert(pow128(2) == 0x4000);
    assert(pow128(3) == 0x200000);
    assert(pow128(4) == 0x10000000);
    assert(pow128(5) == 0x8_00000000);
    assert(pow128(6) == 0x400_00000000);
    assert(pow128(7) == 0x2_0000_00000000);
    assert(pow128(8) == 0x100_0000_00000000);
}

pub proof fn lemma_pow128_pos(k: int)
    ensures
        pow128(k) >= 1,
    decreases k,
{
    if k > 0 {
        lemma_pow128_pos(k - 1);
    }
}

pub proof fn lemma_pow128_increases(a: int, b: int)
    requires
        a <= b,
    ensures
        pow128(a) <= pow128(b),
    decreases b - a,
{
    if a < b {
        lemma_pow128_increases(a, b - 1);
        lemma_pow128_pos(b - 1);
    }
}

/// If the bytes from `i` up to a position `k < 8` all have their high bit
/// set and the byte at `k` does not, the varint ends right after `k`.
proof fn lemma_varint_len_terminator(s: Seq<u8>, i: int, k: int)
    requires
        0 <= i <= k < 8,
        k < s.len(),
        forall|j: int| i <= j < k ==> s[j] >= 128,
        s[k] < 128,
    ensures
        varint_len_from(s, i) == k + 1,
    decreases k - i,
{
    if i < k {
        lemma_varint_len_terminator(s, i + 1, k);
    }
}

/// If the first 8 bytes all have their high bit set, the varint is 9
/// bytes long.
proof fn lemma_varint_len_all_cont(s: Seq<u8>, i: int)
    requires
        0 <= i <= 8,
        s.len() >= 8,
        forall|j: int| i <= j < 8 ==> s[j] >= 128,
    ensures
        varint_len_from(s, i) == 9,
    decreases 8 - i,
{
    if i < 8 {
        lemma_varint_len_all_cont(s, i + 1);
    }
}

/// A complete varint fits inside its buffer and is 1 to 9 bytes long.
pub proof fn lemma_varint_len_bounds(s: Seq<u8>)
    requires
        varint_complete(s),
    ensures
        1 <= varint_len(s) <= 9,
        varint_len(s) <= s.len(),
{
    lemma_varint_len_from_bounds(s, 0);
}

proof fn lemma_varint_len_from_bounds(s: Seq<u8>, i: int)
    requires
        0 <= i <= 8,
        s.len() >= 9 || (exists|j: int| i <= j < s.len() && j < 8 && s[j] < 128),
    ensures
        i + 1 <= varint_len_from(s, i) <= 9,
        varint_len_from(s, i) <= s.len(),
    decreases 8 - i,
{
    if i >= 8 {
    } else if i < s.len() && s[i] < 128 {
    } else {
        assert(s.len() >= 9 || (exists|j: int| i + 1 <= j < s.len() && j < 8 && s[j] < 128));
        lemma_varint_len_from_bounds(s, i + 1);
    }
}

/// Appending a byte does not change the accumulated value of a prefix.
proof fn lemma_varint_acc_push(s: Seq<u8>, b: u8, n: int)
    requires
        0 <= n <= s.len(),
    ensures
        varint_acc(s.push(b), n) == varint_acc(s, n),
    decreases n,
{
    if n > 0 {
        lemma_varint_acc_push(s, b, n - 1);
        assert(s.push(b)[n - 1] == s[n - 1]);
    }
}

/// `enc_fixed(u, k)` has exactly `k` bytes, all with their high bit set,
/// and accumulating its 7-bit groups gives back `u`.
proof fn lemma_enc_fixed(u: nat, k: int)
    requires
        0 <= k,
        u < pow128(k),
    ensures
        enc_fixed(u, k).len() == k,
        varint_acc(enc_fixed(u, k), k) == u,
        forall|i: int| 0 <= i < k ==> enc_fixed(u, k)[i] >= 128,
    decreases k,
{
    if k > 0 {
        assert(pow128(k) == 128 * pow128(k - 1));
        assert(u / 128 < pow128(k - 1)) by (nonlinear_arith)
            requires
                u < 128 * pow128(k - 1),
        ;
        lemma_enc_fixed(u / 128, k - 1);
        let body = enc_fixed(u / 128, k - 1);
        let b: u8 = (u % 128 + 128) as u8;
        lemma_varint_acc_push(body, b, k - 1);
        assert(varint_acc(body.push(b), k) == varint_acc(body.push(b), k - 1) * 128 + (b % 128) as nat);
        assert((b % 128) as nat == u % 128);
        assert((u / 128) * 128 + u % 128 == u) by (nonlinear_arith);
    }
}

/// Round trip: the minimal encoding of any 64-bit value decodes back to
/// that value, consuming exactly the minimal number of bytes.
pub proof fn lemma_varint_round_trip(v: u64)
    ensures
        encoded_varint(v as nat).len() == min_varint_len(v as nat),
        varint_complete(encoded_varint(v as nat)),
        varint_len(encoded_varint(v as nat)) == min_varint_len(v as nat),
        varint_value(encoded_varint(v as nat)) == v,
{
    let u = v as nat;
    let n = min_varint_len(u);
    lemma_pow128_vals();
    if n <= 8 {
        assert(u < pow128(n));
        assert(pow128(n) == 128 * pow128(n - 1));
        assert(u / 128 < pow128(n - 1)) by (nonlinear_arith)
            requires
                u < 128 * pow128(n - 1),
        ;
        lemma_enc_fixed(u / 128, n - 1);
        let body = enc_fixed(u / 128, n - 1);
        let last: u8 = (u % 128) as u8;
        let s = body.push(last);
        assert(s == encoded_varint(u));
        assert(s.len() == n);
        assert(s[n - 1] == last);
        assert(forall|j: int| 0 <= j < n - 1 ==> s[j] == body[j]);
        lemma_varint_len_terminator(s, 0, n - 1);
        assert(varint_len(s) == n);
        lemma_varint_acc_push(body, last, n - 1);
        assert(varint_acc(s, n) == varint_acc(s, n - 1) * 128 + (s[n - 1] % 128) as nat);
        assert((u / 128) * 128 + u % 128 == u) by (nonlinear_arith);
        assert(varint_value(s) == u);
    } else {
        assert(u < 0x1_0000_0000_0000_0000);
        assert(u / 256 < 0x100_0000_00000000) by (nonlinear_arith)
            requires
                u < 0x1_0000_0000_0000_0000,
        ;
        assert(u / 256 < pow128(8));
        lemma_enc_fixed(u / 256, 8);
        let body = enc_fixed(u / 256, 8);
        let last: u8 = (u % 256) as u8;
        let s = body.push(last);
        assert(s == encoded_varint(u));
        assert(s.len() == 9);
        assert(forall|j: int| 0 <= j < 8 ==> s[j] == body[j]);
        lemma_varint_len_all_cont(s, 0);
        assert(varint_len(s) == 9);
        lemma_varint_acc_push(body, last, 8);
        assert(s[8] == last);
        assert((u / 256) * 256 + u % 256 == u) by (nonlinear_arith);
        assert(varint_value(s) == varint_acc(s, 8) * 256 + s[8] as nat);
        assert(varint_value(s) == u);
    }
}

/// The fewest bytes that can encode `v`.
pub fn varint_size(v: u64) -> (n: usize)
    ensures
        n as int == min_varint_len(v as nat),
{
    proof {
        lemma_pow128_vals();
    }
    if v < 0x80 {
        1
    } else if v < 0x4000 {
        2
    } else if v < 0x200000 {
        3
    } else if v < 0x10000000 {
        4
    } else if v < 0x8_00000000 {
        5
    } else if v < 0x400_00000000 {
        6
    } else if v < 0x2_0000_00000000 {
        7
    } else if v < 0x100_0000_00000000 {
        8
    } else {
        9
    }
}

fn encode_body(u: u64, k: usize) -> (r: Vec<u8>)
    requires
        k <= 8,
        (u as nat) < pow128(k as int),
    ensures
        r@ == enc_fixed(u as nat, k as int),
    decreases k,
{
    if k == 0 {
        Vec::new()
    } else {
        proof {
            assert(pow128(k as int) == 128 * pow128(k as int - 1));
            assert((u as nat) / 128 < pow128(k as int - 1)) by (nonlinear_arith)
                requires
                    (u as nat) < 128 * pow128(k as int - 1),
            ;
        }
        let mut r = encode_body(u / 128, k - 1);
        r.push((u % 128 + 128) as u8);
        r
    }
}

/// Encodes `v` in the fewest bytes the format allows.
pub fn encode(v: u64) -> (r: Vec<u8>)
    ensures
        r@ == encoded_varint(v as nat),
        r@.len() == min_varint_len(v as nat),
        varint_complete(r@),
        varint_len(r@) == r@.len(),
        varint_value(r@) == v,
{
    proof {
        lemma_pow128_vals();
        lemma_varint_round_trip(v);
    }
    if v < 0x100_0000_00000000 {
        let n = varint_size(v);
        proof {
            assert(pow128(n as int) == 128 * pow128(n as int - 1));
            assert((v as nat) / 128 < pow128(n as int - 1)) by (nonlinear_arith)
                requires
                    (v as nat) < 128 * pow128(n as int - 1),
            ;
            lemma_enc_fixed((v as nat) / 128, n as int - 1);
        }
        let mut r = encode_body(v / 128, n - 1);
        r.push((v % 128) as u8);
        r
    } else {
        proof {
            assert((v as nat) / 256 < 0x100_0000_00000000) by (nonlinear_arith)
                requires
                    (v as nat) < 0x1_0000_0000_0000_0000,
            ;
            lemma_enc_fixed((v as nat) / 256, 8);
        }
        let mut r = encode_body(v / 256, 8);
        r.push((v % 256) as u8);
        r
    }
}

/// Decodes the varint starting at position `pos` of `buf`, returning its
/// value and the number of bytes it occupies.
pub fn decode_at(buf: &[u8], pos: usize) -> (r: Result<(u64, usize), DecodeError>)
    requires
        pos <= buf@.len(),
    ensures
        ({
            let s = buf@.subrange(pos as int, buf@.len() as int);
            &&& varint_complete(s) ==> (r matches Ok(p) && p.0 as nat == varint_value(s)
                && p.1 as int == varint_len(s))
            &&& !varint_complete(s) ==> r == Err::<(u64, usize), DecodeError>(
                DecodeError::TruncatedInput,
            )
            &&& r matches Ok(p) ==> 1 <= p.1 <= 9
        }),
{
    let ghost s = buf@.subrange(pos as int, buf@.len() as int);
    let mut value: u64 = 0;
    let mut i: usize = 0;
    while i < 8
        invariant
            0 <= i <= 8,
            pos + i <= buf@.len(),
            s == buf@.subrange(pos as int, buf@.len() as int),
            forall|j: int| 0 <= j < i ==> s[j] >= 128,
            value as nat == varint_acc(s, i as int),
            (value as nat) < pow128(i as int),
        decreases 8 - i,
    {
        if buf.len() - pos <= i {
            proof {
                assert(s.len() == i);
                assert(!varint_complete(s));
            }
            return Err(DecodeError::TruncatedInput);
        }
        let b = buf[pos + i];
        assert(b == s[i as int]);
        proof {
            lemma_pow128_vals();
            lemma_pow128_increases(i as int, 7);
            assert(pow128(i + 1) == 128 * pow128(i as int));
            assert(varint_acc(s, i + 1) == varint_acc(s, i as int) * 128 + (s[i as int] % 128) as nat);
        }
        if b < 128 {
            proof {
                lemma_varint_len_terminator(s, 0, i as int);
            }
            return Ok((value * 128 + b as u64, i + 1));
        }
        value = value * 128 + (b - 128) as u64;
        i = i + 1;
    }
    if buf.len() - pos <= 8 {
        proof {
            assert(s.len() == 8);
            assert(!varint_complete(s));
        }
        return Err(DecodeError::TruncatedInput);
    }
    let b = buf[pos + 8];
    proof {
        assert(b == s[8]);
        lemma_pow128_vals();
        lemma_varint_len_all_cont(s, 0);
    }
    Ok((value * 256 + b as u64, 9))
}

/// Decodes the varint at the front of `buf`, returning its value and the
/// number of bytes consumed.
pub fn decode(buf: &[u8]) -> (r: Result<(u64, usize), DecodeError>)
    ensures
        varint_complete(buf@) ==> (r matches Ok(p) && p.0 as nat == varint_value(buf@)
            && p.1 as int == varint_len(buf@)),
        !varint_complete(buf@) ==> r == Err::<(u64, usize), DecodeError>(
            DecodeError::TruncatedInput,
        ),
        r matches Ok(p) ==> 1 <= p.1 <= 9,
{
    proof {
        assert(buf@.subrange(0, buf@.len() as int) =~= buf@);
    }
    decode_at(buf, 0)
}

/// Decodes the varint at the front of `buf`, returning the number of
/// bytes consumed and the value, in that order.
pub fn parse_varint(buf: &[u8]) -> (r: (usize, u64))
    requires
        varint_complete(buf@),
    ensures
        r.0 as int == varint_len(buf@),
        r.1 as nat == varint_value(buf@),
        1 <= r.0 <= 9,
{
    match decode(buf) {
        Ok(p) => (p.1, p.0),
        Err(_) => {
            proof {
                assert(false);
            }
            (0, 0)
        },
    }
}

/// Does nothing: the decoders above report how many bytes a varint
/// occupies instead of advancing the buffer in place.
pub fn consume_varint(buf: &mut [u8])
    ensures
        final(buf)@ == old(buf)@,
{
}

} // verus!

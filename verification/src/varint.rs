//! VarInt codec: a signed 32-bit integer encoded as 1 to 5 bytes of
//! little-endian 7-bit groups, with the most significant bit of each byte as
//! a continuation flag.
//!
//! The spec-level model works on the unsigned 32-bit image of the value;
//! `varint_encode` wraps it for `i32`. Decoding stops at the first byte whose
//! continuation bit is clear; a fifth byte whose continuation bit is set is
//! an overflow.

use vstd::prelude::*;
use crate::types::Error;

verus! {

/// Little-endian base-128 digits of `x`, each continuation byte carrying its
/// high bit; the final digit is emitted bare.
pub open spec fn vi_enc(x: nat) -> Seq<u8>
    decreases x,
{
    if x < 128 {
        seq![x as u8]
    } else {
        seq![(x % 128 + 128) as u8] + vi_enc(x / 128)
    }
}

/// Wire encoding of a signed 32-bit VarInt: its two's-complement image as a
/// 32-bit unsigned value, in base-128 groups.
pub open spec fn varint_encode(v: i32) -> Seq<u8> {
    vi_enc((v as u32) as nat)
}

/// Whether a terminator byte (continuation bit clear) occurs within the
/// first `fuel` bytes of `s`.
pub open spec fn vi_done_n(s: Seq<u8>, fuel: nat) -> bool
    decreases fuel,
{
    fuel > 0 && s.len() > 0 && (s[0] < 128 || vi_done_n(s.drop_first(), (fuel - 1) as nat))
}

/// A complete VarInt sits at the front of `s`: a terminator occurs within
/// the five legal bytes.
pub open spec fn vi_done(s: Seq<u8>) -> bool {
    vi_done_n(s, 5)
}

/// No terminator within the available bytes, and fewer than five bytes seen:
/// more input is needed.
pub open spec fn vi_incomplete(s: Seq<u8>) -> bool {
    !vi_done(s) && s.len() < 5
}

/// The first five bytes all carry the continuation bit: the VarInt is
/// rejected as overlong.
pub open spec fn vi_overflow(s: Seq<u8>) -> bool {
    !vi_done(s) && s.len() >= 5
}

/// Number of bytes the VarInt at the front of `s` occupies (meaningful when
/// `vi_done(s)`).
pub open spec fn vi_size(s: Seq<u8>) -> nat
    decreases s.len(),
{
    if s.len() == 0 {
        0
    } else if s[0] < 128 {
        1
    } else {
        1 + vi_size(s.drop_first())
    }
}

/// The unbounded value of the base-128 groups at the front of `s`, up to the
/// first terminator.
pub open spec fn vi_value_raw(s: Seq<u8>) -> nat
    decreases s.len(),
{
    if s.len() == 0 {
        0
    } else if s[0] < 128 {
        s[0] as nat
    } else {
        (s[0] - 128) as nat + 128 * vi_value_raw(s.drop_first())
    }
}

/// The decoded 32-bit value: the group value truncated to 32 bits.
pub open spec fn vi_value(s: Seq<u8>) -> u32 {
    (vi_value_raw(s) % 0x1_0000_0000) as u32
}

/// Encoding always produces between one and five bytes for a 32-bit value:
/// lengths 1/2/3/4/5 for magnitudes of up to 7/14/21/28/32 bits.
pub proof fn lemma_vi_enc_len(x: nat)
    requires
        x < 0x1_0000_0000,
    ensures
        1 <= vi_enc(x).len() <= 5,
        vi_enc(x).len() == 1 <==> x < 0x80,
        vi_enc(x).len() <= 2 <==> x < 0x4000,
        vi_enc(x).len() <= 3 <==> x < 0x20_0000,
        vi_enc(x).len() <= 4 <==> x < 0x1000_0000,
    decreases x,
{
    if x >= 128 {
        lemma_vi_enc_len(x / 128);
    }
}

/// Lookahead monotonicity: a VarInt found complete within `f1` bytes is
/// complete within any larger bound `f2` as well.
pub proof fn lemma_vi_done_mono(s: Seq<u8>, f1: nat, f2: nat)
    requires
        vi_done_n(s, f1),
        f2 >= f1,
    ensures
        vi_done_n(s, f2),
    decreases f1,
{
    if s.len() > 0 && !(s[0] < 128) {
        lemma_vi_done_mono(s.drop_first(), (f1 - 1) as nat, (f2 - 1) as nat);
    }
}

/// A complete encoding, followed by anything, parses back to the value it
/// was made from: the parser stops at the terminator, consumes exactly the
/// encoded bytes, and reads off the original value.
pub proof fn lemma_vi_round_trip(x: nat, rest: Seq<u8>)
    requires
        x < 0x1_0000_0000,
    ensures
        vi_done_n(vi_enc(x) + rest, vi_enc(x).len()),
        vi_size(vi_enc(x) + rest) == vi_enc(x).len(),
        vi_value_raw(vi_enc(x) + rest) == x,
        (vi_enc(x) + rest).skip(vi_enc(x).len() as int) =~= rest,
    decreases x,
{
    lemma_vi_enc_len(x);
    let s = vi_enc(x) + rest;
    if x < 128 {
        assert(s[0] == x as u8);
        assert(s.skip(1) =~= rest);
    } else {
        lemma_vi_round_trip(x / 128, rest);
        assert(s[0] == (x % 128 + 128) as u8);
        assert(s[0] >= 128);
        assert(s.drop_first() =~= vi_enc(x / 128) + rest);
        assert(vi_value_raw(s) == (x % 128) + 128 * (x / 128));
        assert((x % 128) + 128 * (x / 128) == x) by {
            vstd::arithmetic::div_mod::lemma_fundamental_div_mod(x as int, 128);
        }
        assert(s.skip(vi_enc(x).len() as int) =~= s.drop_first().skip(
            vi_enc(x / 128).len() as int,
        ));
    }
}

/// Round trip at the signed interface: every `i32` survives encoding and
/// decoding, and its encoding takes one to five bytes.
pub proof fn lemma_varint_round_trip(v: i32, rest: Seq<u8>)
    ensures
        vi_done(varint_encode(v) + rest),
        vi_size(varint_encode(v) + rest) == varint_encode(v).len(),
        vi_value(varint_encode(v) + rest) as i32 == v,
        1 <= varint_encode(v).len() <= 5,
        (varint_encode(v) + rest).skip(varint_encode(v).len() as int) == rest,
{
    let u = v as u32;
    let x = u as nat;
    lemma_vi_enc_len(x);
    lemma_vi_round_trip(x, rest);
    lemma_vi_done_mono(vi_enc(x) + rest, vi_enc(x).len(), 5);
    assert(vi_value_raw(varint_encode(v) + rest) % 0x1_0000_0000 == x);
    assert(u as i32 == v) by (bit_vector)
        requires
            u == v as u32,
    ;
}

/// Encode `v` as a VarInt, returning its one to five bytes as a fresh vector.
pub fn encode_varint(v: i32) -> (r: Vec<u8>)
    ensures
        r@ == varint_encode(v),
        1 <= r@.len() <= 5,
{
    let ghost xv: nat = (v as u32) as nat;
    proof {
        lemma_vi_enc_len(xv);
    }
    let mut out: Vec<u8> = Vec::new();
    let mut x: u32 = #[verifier::truncate] (v as u32);
    while x >= 128
        invariant
            vi_enc(xv) == out@ + vi_enc(x as nat),
            vi_enc(xv).len() <= 5,
        decreases x,
    {
        let b: u8 = (x % 128) as u8 + 128;
        proof {
            assert(vi_enc(x as nat) == seq![b] + vi_enc((x / 128) as nat));
            assert(out@ + vi_enc(x as nat) =~= out@.push(b) + vi_enc((x / 128) as nat));
        }
        out.push(b);
        x = x / 128;
    }
    proof {
        assert(vi_enc(x as nat) == seq![x as u8]);
        assert(out@ + vi_enc(x as nat) =~= out@.push(x as u8));
        assert(1 <= vi_enc(xv).len());
    }
    out.push(x as u8);
    out
}

/// Decode the VarInt at the front of `buf[at..end]`, returning its 32-bit
/// unsigned value and the number of bytes it occupied; `VarIntOverflow` when
/// the five legal bytes all carry the continuation bit, `UnexpectedEof` when
/// the window ends before a terminator.
pub fn decode_varint_at(buf: &Vec<u8>, at: usize, end: usize) -> (r: Result<(u32, usize), Error>)
    requires
        at <= end <= buf@.len(),
    ensures
        ({
            let s = buf@.subrange(at as int, end as int);
            match r {
                Ok((v, n)) => vi_done(s) && n == vi_size(s) && v == vi_value(s) && at + n
                    <= end && 1 <= n <= 5,
                Err(e) => (e == Error::VarIntOverflow && vi_overflow(s)) || (e
                    == Error::UnexpectedEof && vi_incomplete(s)),
            }
        }),
{
    let ghost s = buf@.subrange(at as int, end as int);
    let mut i: usize = 0;
    let mut acc: u64 = 0;
    let mut mult: u64 = 1;
    proof {
        assert(s.skip(0) =~= s);
    }
    loop
        invariant
            at <= end <= buf@.len(),
            s == buf@.subrange(at as int, end as int),
            i < 5,
            at + i <= end,
            i == 0 ==> mult == 1,
            i == 1 ==> mult == 128,
            i == 2 ==> mult == 0x4000,
            i == 3 ==> mult == 0x20_0000,
            i == 4 ==> mult == 0x1000_0000,
            mult <= 0x1000_0000,
            acc < mult,
            vi_value_raw(s) == acc + mult * vi_value_raw(s.skip(i as int)),
            vi_size(s) == i + vi_size(s.skip(i as int)),
            vi_done_n(s, 5) == vi_done_n(s.skip(i as int), (5 - i) as nat),
            s.len() >= i,
        decreases 5 - i,
    {
        if end - at <= i {
            proof {
                assert(s.skip(i as int).len() == 0);
                assert(!vi_done_n(s.skip(i as int), (5 - i) as nat));
                assert(s.len() < 5);
            }
            return Err(Error::UnexpectedEof);
        }
        let b: u8 = buf[at + i];
        proof {
            assert(s.skip(i as int)[0] == b);
        }
        if b < 128 {
            proof {
                assert(vi_done_n(s.skip(i as int), (5 - i) as nat));
                assert(vi_value_raw(s.skip(i as int)) == b as nat);
                assert(vi_size(s.skip(i as int)) == 1);
                assert(acc + mult * b < 0x1_0000_0000_0000) by (nonlinear_arith)
                    requires
                        acc < mult,
                        mult <= 0x1000_0000,
                        b < 128,
                ;
            }
            let whole: u64 = acc + mult * (b as u64);
            let v: u32 = #[verifier::truncate] (whole as u32);
            proof {
                assert(vi_value_raw(s) == whole as nat);
                assert(whole as u32 == (whole % 0x1_0000_0000) as u32) by (bit_vector);
                assert(whole % 0x1_0000_0000 == vi_value_raw(s) % 0x1_0000_0000);
            }
            return Ok((v, i + 1));
        }
        if i == 4 {
            proof {
                let si = s.skip(4);
                assert(!vi_done_n(si.drop_first(), 0));
                assert(!vi_done_n(si, 1));
                assert(s.len() >= 5);
            }
            return Err(Error::VarIntOverflow);
        }
        proof {
            let si = s.skip(i as int);
            assert(si.drop_first() =~= s.skip(i + 1));
            assert(vi_value_raw(si) == (b - 128) as nat + 128 * vi_value_raw(s.skip(i + 1)));
            assert(vi_size(si) == 1 + vi_size(s.skip(i + 1)));
            assert(vi_done_n(si, (5 - i) as nat) == vi_done_n(s.skip(i + 1), (5 - (i + 1)) as nat));
            assert(acc + mult * ((b - 128) as nat) < mult * 128) by (nonlinear_arith)
                requires
                    acc < mult,
                    128 <= b < 256,
                    mult >= 1,
            ;
            assert(vi_value_raw(s) == acc + mult * ((b - 128) as nat) + (mult * 128) * vi_value_raw(
                s.skip(i + 1),
            )) by (nonlinear_arith)
                requires
                    vi_value_raw(s) == acc + mult * vi_value_raw(si),
                    vi_value_raw(si) == (b - 128) as nat + 128 * vi_value_raw(s.skip(i + 1)),
            ;
        }
        acc = acc + mult * ((b - 128) as u64);
        mult = mult * 128;
        i = i + 1;
    }
}

/// A sequence of continuation bytes closed by one terminator is a complete
/// VarInt occupying the whole sequence.
pub proof fn lemma_vi_accum_done(s: Seq<u8>)
    requires
        1 <= s.len() <= 5,
        forall|j: int| 0 <= j < s.len() - 1 ==> s[j] >= 128,
        s[s.len() - 1] < 128,
    ensures
        vi_done_n(s, s.len()),
        vi_done(s),
        vi_size(s) == s.len(),
    decreases s.len(),
{
    if s.len() == 1 {
        lemma_vi_done_mono(s, 1, 5);
    } else {
        lemma_vi_accum_done(s.drop_first());
        assert(vi_done_n(s, s.len()));
        lemma_vi_done_mono(s, s.len(), 5);
    }
}

/// A run of `fuel` continuation bytes holds no terminator within `fuel`.
pub proof fn lemma_vi_no_term(s: Seq<u8>, fuel: nat)
    requires
        s.len() >= fuel,
        forall|j: int| 0 <= j < fuel ==> s[j] >= 128,
    ensures
        !vi_done_n(s, fuel),
    decreases fuel,
{
    if fuel > 0 {
        lemma_vi_no_term(s.drop_first(), (fuel - 1) as nat);
    }
}

} // verus!

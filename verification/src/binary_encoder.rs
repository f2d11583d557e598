//! The primitive encodings, written out: VarUInt, VarInt, UInt and Int. What
//! the decoder reads back from them is proved here.

use crate::binary_parser::{
    int_at, lemma_decoding_is_local, lemma_septets_same, lemma_terminator_some, septets, uint_at,
    varint_at, varint_parts_at, varuint_at, without_sign, VarIntParts,
};
use crate::binary_parser_types::ParsingError;
use crate::numbers::{
    be_bytes, be_nat, lemma_be_bytes_is_canonical, lemma_be_nat_leading_zero, BigInt,
};
use vstd::arithmetic::power::*;
use vstd::prelude::*;

verus! {

/// The digits of a number in base 128, most significant first; zero has the
/// one digit 0.
pub open spec fn digits128(n: nat) -> Seq<u8>
    decreases n,
{
    if n < 128 {
        seq![n as u8]
    } else {
        digits128(n / 128).push((n % 128) as u8)
    }
}

/// The digits with the high bit of the last one set.
pub open spec fn with_end_flag(d: Seq<u8>) -> Seq<u8> {
    d.update(d.len() - 1, (d.last() + 128) as u8)
}

/// The VarUInt of a number: its base-128 digits, the last one flagged.
pub open spec fn varuint_encoding(n: nat) -> Seq<u8> {
    with_end_flag(digits128(n))
}

/// The digits with a digit 0 in front where the first digit has no room for
/// the sign bit of a VarInt.
pub open spec fn with_sign_room(d: Seq<u8>) -> Seq<u8> {
    if d[0] >= 64 {
        seq![0u8] + d
    } else {
        d
    }
}

/// The VarInt of a sign and a magnitude: the magnitude's base-128 digits,
/// with one more digit in front where the first has no room for the sign
/// bit, the sign in the first digit and the last one flagged.
pub open spec fn varint_encoding(negative: bool, magnitude: nat) -> Seq<u8> {
    let padded = with_sign_room(digits128(magnitude));
    let sign: int = if negative {
        64
    } else {
        0
    };
    with_end_flag(padded.update(0, (padded[0] + sign) as u8))
}

/// The VarInt of an integer.
pub open spec fn varint_of_i64(n: i64) -> Seq<u8> {
    varint_encoding(n < 0, vstd::math::abs(n as int) as nat)
}

/// The Int of a sign and a magnitude: the magnitude's shortest big-endian
/// bytes, with one more byte in front where the first has no room for the sign
/// bit, and the sign in the first byte. Positive zero has no bytes.
pub open spec fn int_encoding(negative: bool, magnitude: nat) -> Seq<u8> {
    let m = be_bytes(magnitude);
    if m.len() == 0 {
        if negative {
            seq![128u8]
        } else {
            Seq::empty()
        }
    } else {
        let padded = if m[0] >= 128 {
            seq![0u8] + m
        } else {
            m
        };
        if negative {
            padded.update(0, (padded[0] + 128) as u8)
        } else {
            padded
        }
    }
}

/// The base-128 digits of a number are below 128, spell the number, and do not
/// start with a zero where there are several.
pub proof fn lemma_digits128(n: nat)
    ensures
        digits128(n).len() >= 1,
        forall|i: int| 0 <= i < digits128(n).len() ==> digits128(n)[i] < 128,
        septets(digits128(n), 0, digits128(n).len() as int) == n,
        digits128(n)[0] * pow(128, (digits128(n).len() - 1) as nat) <= n,
        n < (digits128(n)[0] + 1) * pow(128, (digits128(n).len() - 1) as nat),
    decreases n,
{
    reveal(pow);
    let d = digits128(n);
    if n < 128 {
        assert(septets(d, 0, 0) == 0);
        assert(septets(d, 0, 1) == septets(d, 0, 0) * 128 + (d[0] % 128) as nat);
    } else {
        let h = digits128(n / 128);
        lemma_digits128(n / 128);
        assert(d.len() == h.len() + 1);
        assert(forall|i: int| 0 <= i < h.len() ==> d[i] == h[i]);
        lemma_septets_same(h, d, 0, h.len() as int);
        assert(septets(d, 0, d.len() as int) == septets(d, 0, d.len() - 1) * 128 + (d[d.len() - 1]
            % 128) as nat);
        let p = pow(128, (h.len() - 1) as nat);
        assert(pow(128, (d.len() - 1) as nat) == 128 * p);
        assert(d[0] * (128 * p) <= n) by (nonlinear_arith)
            requires
                d[0] * p <= n / 128,
        ;
        assert(n < (d[0] + 1) * (128 * p)) by (nonlinear_arith)
            requires
                n / 128 < (d[0] + 1) * p,
        ;
    }
}

/// A digit 0 in front does not change the number.
pub proof fn lemma_septets_zero_in_front(d: Seq<u8>, n: int)
    requires
        0 <= n <= d.len(),
    ensures
        septets(seq![0u8] + d, 0, n + 1) == septets(d, 0, n),
    decreases n,
{
    let z = seq![0u8] + d;
    if n == 0 {
        assert(septets(z, 0, 0) == 0);
        assert(septets(z, 0, 1) == septets(z, 0, 0) * 128 + (z[0] % 128) as nat);
    } else {
        lemma_septets_zero_in_front(d, n - 1);
        assert(z[n] == d[n - 1]);
    }
}

proof fn lemma_pow128_values()
    ensures
        pow(128, 8) == 0x100_0000_0000_0000,
        pow(128, 9) == 0x8000_0000_0000_0000,
        pow(128, 10) == 0x40_0000_0000_0000_0000,
{
    reveal_with_fuel(pow, 11);
}

/// A number below `2^64` has at most ten base-128 digits.
pub proof fn lemma_digits128_of_u64(n: nat)
    requires
        n <= u64::MAX,
    ensures
        digits128(n).len() <= 10,
{
    lemma_digits128(n);
    let d = digits128(n);
    if d.len() > 10 {
        lemma_pow_increases(128, 10, (d.len() - 1) as nat);
        lemma_pow128_values();
        assert(d[0] >= 1) by {
            if d[0] == 0 {
                assert(n < 1 * pow(128, (d.len() - 1) as nat));
                assert(0 * pow(128, (d.len() - 1) as nat) == 0);
                lemma_digits128_first(n);
            }
        }
        assert(d[0] * pow(128, (d.len() - 1) as nat) >= pow(128, (d.len() - 1) as nat))
            by (nonlinear_arith)
            requires
                d[0] >= 1,
                pow(128, (d.len() - 1) as nat) >= 0,
        ;
    }
}

/// Several digits do not start with a zero.
pub proof fn lemma_digits128_first(n: nat)
    ensures
        digits128(n).len() >= 2 ==> digits128(n)[0] >= 1,
    decreases n,
{
    if n >= 128 {
        let q = n / 128;
        let h = digits128(q);
        lemma_digits128(q);
        assert(digits128(n)[0] == h[0]);
        if q >= 128 {
            lemma_digits128(q / 128);
            lemma_digits128_first(q);
        }
    }
}

/// The VarUInt of a number below `2^64`, at the start of the bytes, is read
/// back.
proof fn lemma_varuint_read_back(n: u64, rest: Seq<u8>)
    ensures
        varuint_encoding(n as nat).len() <= 10,
        varuint_at(varuint_encoding(n as nat) + rest, 0) == Ok::<(u64, usize), ParsingError>(
            (n, varuint_encoding(n as nat).len() as usize),
        ),
{
    let d = digits128(n as nat);
    let e = varuint_encoding(n as nat);
    let s = e + rest;
    lemma_digits128(n as nat);
    lemma_digits128_of_u64(n as nat);
    let last = d.len() - 1;
    assert(s[last] == e[last]);
    assert forall|j: int| 0 <= j < last implies s[j] < 128 by {
        assert(s[j] == d[j]);
    }
    lemma_terminator_some(s, 0, last, 10);
    assert forall|j: int| 0 <= j < d.len() implies d[j] % 128 == s[j] % 128 by {
        assert(s[j] == e[j]);
    }
    lemma_septets_same(d, s, 0, d.len() as int);
}

/// VarUInt round trip: decoding the VarUInt of any number below `2^64`,
/// whatever stands before and behind it, gives the number back and takes
/// exactly the bytes of the encoding, of which there are at most ten.
pub proof fn lemma_varuint_round_trip(before: Seq<u8>, n: u64, rest: Seq<u8>)
    ensures
        varuint_encoding(n as nat).len() <= 10,
        varuint_at(before + (varuint_encoding(n as nat) + rest), before.len() as int) == Ok::<
            (u64, usize),
            ParsingError,
        >((n, varuint_encoding(n as nat).len() as usize)),
{
    lemma_varuint_read_back(n, rest);
    lemma_decoding_is_local(before, varuint_encoding(n as nat) + rest, 0);
}

/// The digits of a VarInt's magnitude, with room for the sign: each is below
/// 128 and the first below 64, they spell the magnitude, and a magnitude below
/// `2^62` has at most nine of them.
pub proof fn lemma_with_sign_room(m: nat)
    ensures
        with_sign_room(digits128(m)).len() >= 1,
        with_sign_room(digits128(m))[0] < 64,
        forall|j: int|
            0 <= j < with_sign_room(digits128(m)).len() ==> with_sign_room(digits128(m))[j] < 128,
        septets(with_sign_room(digits128(m)), 0, with_sign_room(digits128(m)).len() as int) == m,
        m < 0x4000_0000_0000_0000 ==> with_sign_room(digits128(m)).len() <= 9,
{
    let d = digits128(m);
    let padded = with_sign_room(d);
    lemma_digits128(m);
    lemma_digits128_first(m);
    assert forall|j: int| 0 <= j < padded.len() implies padded[j] < 128 by {
        if d[0] >= 64 && j > 0 {
            assert(padded[j] == d[j - 1]);
        }
    }
    if d[0] >= 64 {
        lemma_septets_zero_in_front(d, d.len() as int);
    }
    if m < 0x4000_0000_0000_0000 {
        lemma_pow128_values();
        let p = pow(128, (d.len() - 1) as nat);
        if d.len() >= 10 {
            lemma_pow_increases(128, 9, (d.len() - 1) as nat);
            assert(d[0] * p >= p) by (nonlinear_arith)
                requires
                    d[0] >= 1,
                    p >= 0,
            ;
        } else if d.len() == 9 && d[0] >= 64 {
            assert(d[0] * p >= 64 * p) by (nonlinear_arith)
                requires
                    d[0] >= 64,
                    p >= 0,
            ;
        }
    }
}

/// The VarInt of a sign and a magnitude below `2^62`, at the start of the
/// bytes, is read back.
proof fn lemma_varint_read_back(negative: bool, magnitude: u64, rest: Seq<u8>)
    requires
        magnitude < 0x4000_0000_0000_0000,
    ensures
        varint_encoding(negative, magnitude as nat).len() <= 9,
        varint_parts_at(varint_encoding(negative, magnitude as nat) + rest, 0) == Ok::<
            VarIntParts,
            ParsingError,
        >(
            VarIntParts {
                negative,
                magnitude,
                length: varint_encoding(negative, magnitude as nat).len() as usize,
            },
        ),
{
    let m = magnitude as nat;
    let padded = with_sign_room(digits128(m));
    lemma_with_sign_room(m);
    let e = varint_encoding(negative, m);
    let s = e + rest;
    let last = padded.len() - 1;
    assert(e.len() == padded.len());
    assert forall|j: int| 0 <= j < last implies s[j] < 128 by {
        assert(s[j] == e[j]);
    }
    assert(s[last] == e[last]);
    assert(s[0] == e[0]);
    lemma_terminator_some(s, 0, last, 9);
    let cleared = s.update(0, without_sign(s[0]));
    assert(padded[0] % 128 == cleared[0] % 128);
    assert forall|j: int| 0 <= j < padded.len() implies padded[j] % 128 == cleared[j] % 128 by {
        if j > 0 {
            assert(cleared[j] == e[j]);
        }
    }
    lemma_septets_same(padded, cleared, 0, padded.len() as int);
    assert(septets(cleared, 0, last + 1) == m);
    assert((s[0] % 128 >= 64) == negative);
}

/// VarInt round trip, sign and magnitude apart: decoding the VarInt of a sign
/// and a magnitude below `2^62`, whatever stands before and behind it, gives
/// both back, the sign also where the magnitude is zero, and takes exactly the
/// bytes of the encoding, of which there are at most nine.
pub proof fn lemma_varint_parts_round_trip(
    before: Seq<u8>,
    negative: bool,
    magnitude: u64,
    rest: Seq<u8>,
)
    requires
        magnitude < 0x4000_0000_0000_0000,
    ensures
        varint_encoding(negative, magnitude as nat).len() <= 9,
        varint_parts_at(
            before + (varint_encoding(negative, magnitude as nat) + rest),
            before.len() as int,
        ) == Ok::<VarIntParts, ParsingError>(
            VarIntParts {
                negative,
                magnitude,
                length: varint_encoding(negative, magnitude as nat).len() as usize,
            },
        ),
{
    lemma_varint_read_back(negative, magnitude, rest);
    lemma_decoding_is_local(before, varint_encoding(negative, magnitude as nat) + rest, 0);
}

/// VarInt round trip: decoding the VarInt of an integer whose magnitude is
/// below `2^62`, whatever stands before and behind it, gives the integer back
/// and takes exactly the bytes of the encoding.
pub proof fn lemma_varint_round_trip(before: Seq<u8>, n: i64, rest: Seq<u8>)
    requires
        -0x4000_0000_0000_0000 < n < 0x4000_0000_0000_0000,
    ensures
        varint_at(before + (varint_of_i64(n) + rest), before.len() as int) == Ok::<
            (i64, usize),
            ParsingError,
        >((n, varint_of_i64(n).len() as usize)),
{
    let magnitude = vstd::math::abs(n as int) as u64;
    lemma_varint_parts_round_trip(before, n < 0, magnitude, rest);
}

/// Negative zero, which is the one byte `0xC0`, decodes to zero.
pub proof fn lemma_varint_negative_zero(before: Seq<u8>, rest: Seq<u8>)
    ensures
        varint_encoding(true, 0) == seq![192u8],
        varint_at(before + (varint_encoding(true, 0) + rest), before.len() as int) == Ok::<
            (i64, usize),
            ParsingError,
        >((0, 1)),
{
    lemma_varint_parts_round_trip(before, true, 0, rest);
    assert(digits128(0) == seq![0u8]);
    assert(varint_encoding(true, 0) =~= seq![192u8]);
}

/// UInt round trip: decoding the shortest bytes of a number that is not zero,
/// whatever stands before and behind them, gives the number back.
pub proof fn lemma_uint_round_trip(before: Seq<u8>, n: nat, rest: Seq<u8>)
    requires
        n > 0,
    ensures
        uint_at(before + (be_bytes(n) + rest), before.len() as int, be_bytes(n).len() as int)
            == Ok::<nat, ParsingError>(n),
{
    lemma_be_bytes_is_canonical(n);
    let s = be_bytes(n) + rest;
    assert(s.subrange(0, be_bytes(n).len() as int) =~= be_bytes(n));
    lemma_decoding_is_local(before, s, be_bytes(n).len() as int);
}

/// Int round trip: decoding the Int of a sign and a magnitude, whatever
/// stands before and behind it, gives both back, the sign also where the
/// magnitude is zero. Positive zero, which has no bytes, is left out.
pub proof fn lemma_int_round_trip(before: Seq<u8>, negative: bool, magnitude: nat, rest: Seq<u8>)
    requires
        negative || magnitude > 0,
    ensures
        int_at(
            before + (int_encoding(negative, magnitude) + rest),
            before.len() as int,
            int_encoding(negative, magnitude).len() as int,
        ) == Ok::<(bool, nat), ParsingError>((negative, magnitude)),
{
    lemma_be_bytes_is_canonical(magnitude);
    let m = be_bytes(magnitude);
    let e = int_encoding(negative, magnitude);
    let s = e + rest;
    let field = s.subrange(0, e.len() as int);
    assert(field =~= e);
    let cleared = field.update(0, (field[0] % 128) as u8);
    if m.len() == 0 {
        assert(cleared =~= seq![0u8]);
        assert(cleared.drop_last() =~= Seq::<u8>::empty());
        assert(be_nat(cleared.drop_last()) == 0);
    } else {
        let padded = if m[0] >= 128 {
            seq![0u8] + m
        } else {
            m
        };
        assert(cleared =~= padded);
        if m[0] >= 128 {
            lemma_be_nat_leading_zero(padded);
            assert(padded.drop_first() =~= m);
        }
    }
    lemma_decoding_is_local(before, s, e.len() as int);
}

/// A string of zero bytes.
pub open spec fn zeros(k: nat) -> Seq<u8> {
    Seq::new(k, |i: int| 0u8)
}

/// Zero bytes stand for zero.
pub proof fn lemma_be_nat_zeros(k: nat)
    ensures
        be_nat(zeros(k)) == 0,
    decreases k,
{
    if k > 0 {
        lemma_be_nat_zeros((k - 1) as nat);
        assert(zeros(k).drop_last() =~= zeros((k - 1) as nat));
    }
}

/// An Int of `k` zero bytes is positive zero, and with the high bit of its
/// first byte set it is negative zero: the sign of a zero is kept. This holds
/// whatever stands before and behind the bytes.
pub proof fn lemma_int_zero_keeps_sign(before: Seq<u8>, k: nat, rest: Seq<u8>)
    requires
        k > 0,
    ensures
        int_at(before + (zeros(k) + rest), before.len() as int, k as int) == Ok::<
            (bool, nat),
            ParsingError,
        >((false, 0)),
        int_at(before + (zeros(k).update(0, 128u8) + rest), before.len() as int, k as int) == Ok::<
            (bool, nat),
            ParsingError,
        >((true, 0)),
{
    lemma_be_nat_zeros(k);
    let z = zeros(k);
    assert((z + rest).subrange(0, k as int) =~= z);
    assert(z.update(0, (z[0] % 128) as u8) =~= z);
    let f = z.update(0, 128u8);
    assert((f + rest).subrange(0, k as int) =~= f);
    assert(f.update(0, (f[0] % 128) as u8) =~= z);
    lemma_decoding_is_local(before, z + rest, k as int);
    lemma_decoding_is_local(before, f + rest, k as int);
}

/// The base-128 digits of `value`.
fn digits_of(value: u64) -> (out: Vec<u8>)
    ensures
        out@ == digits128(value as nat),
{
    let mut out: Vec<u8> = Vec::new();
    out.push((value % 128) as u8);
    let mut rest: u64 = value / 128;
    assert(digits128(value as nat) =~= (if rest == 0 {
        Seq::<u8>::empty()
    } else {
        digits128(rest as nat)
    }) + out@);
    while rest > 0
        invariant
            digits128(value as nat) == (if rest == 0 {
                Seq::<u8>::empty()
            } else {
                digits128(rest as nat)
            }) + out@,
        decreases rest,
    {
        let ghost before = out@;
        out.insert(0, (rest % 128) as u8);
        proof {
            let next = rest / 128;
            let high = if next == 0 {
                Seq::<u8>::empty()
            } else {
                digits128(next as nat)
            };
            assert(digits128(rest as nat) =~= high.push((rest % 128) as u8));
            assert(digits128(rest as nat) + before =~= high + out@);
        }
        rest = rest / 128;
    }
    assert(Seq::<u8>::empty() + out@ =~= out@);
    out
}

/// Writes a number as a VarUInt.
pub fn encode_varuint(value: u64) -> (out: Vec<u8>)
    ensures
        out@ == varuint_encoding(value as nat),
{
    let mut out = digits_of(value);
    proof {
        lemma_digits128(value as nat);
    }
    let last: usize = out.len() - 1;
    let digit: u8 = out[last];
    out.set(last, digit + 128);
    out
}

/// Writes a sign and a magnitude as a VarInt.
pub fn encode_varint_parts(negative: bool, magnitude: u64) -> (out: Vec<u8>)
    ensures
        out@ == varint_encoding(negative, magnitude as nat),
{
    let mut out = digits_of(magnitude);
    proof {
        lemma_digits128(magnitude as nat);
        lemma_with_sign_room(magnitude as nat);
    }
    if out[0] >= 64 {
        out.insert(0, 0);
        assert(out@ =~= seq![0u8] + digits128(magnitude as nat));
    }
    assert(out@ == with_sign_room(digits128(magnitude as nat)));
    if negative {
        let first: u8 = out[0];
        out.set(0, first + 64);
    } else {
        assert(out@ =~= out@.update(0, (out@[0] + 0) as u8));
    }
    let last: usize = out.len() - 1;
    let digit: u8 = out[last];
    out.set(last, digit + 128);
    out
}

/// Writes an integer as a VarInt.
pub fn encode_varint(value: i64) -> (out: Vec<u8>)
    ensures
        out@ == varint_of_i64(value),
{
    if value < 0 {
        let magnitude: u64 = if value == i64::MIN {
            0x8000_0000_0000_0000
        } else {
            (-value) as u64
        };
        encode_varint_parts(true, magnitude)
    } else {
        encode_varint_parts(false, value as u64)
    }
}

/// Writes a sign and a magnitude as an Int.
pub fn encode_int(value: &BigInt) -> (out: Vec<u8>)
    ensures
        out@ == int_encoding(value.negative, value.magnitude@),
{
    let mut out = value.magnitude.to_be_bytes();
    if out.len() == 0 {
        if value.negative {
            out.push(128);
        }
        return out;
    }
    if out[0] >= 128 {
        out.insert(0, 0);
        assert(out@ =~= seq![0u8] + be_bytes(value.magnitude@));
    }
    if value.negative {
        let first: u8 = out[0];
        out.set(0, first + 128);
    }
    out
}

} // verus!

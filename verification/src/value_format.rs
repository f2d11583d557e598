//! The binary format of Ion values, stated as functions of the bytes: what
//! value stands at a position of a byte string, and where it ends.

use crate::binary_parser::{
    int_at, plain_header_at, uint_at, varint_at, varint_parts_at, varuint_at,
};
use crate::binary_parser_types::{ParsingError, ValueHeader, ValueLength, ValueType};
use crate::ion_parser_types::{
    DecimalView, IonParserError, IonValueView, NullIonValue, TimestampView,
};
use crate::numbers::be_nat;
use crate::symbol_table::SymbolContextView;
use vstd::arithmetic::power2::{
    lemma2_to64, lemma_pow2_adds, lemma_pow2_strictly_increases, lemma_pow2_unfold, pow2,
};
use vstd::prelude::*;
use vstd::utf8::{decode_utf8, valid_utf8};

verus! {

/// How deep containers may be nested inside a top-level value.
pub const MAX_DEPTH: usize = 100;

/// The payload of a value whose header ends at `pos`: where it starts and
/// where it ends. The length is in the header, or follows it as a VarUInt
/// where the header says so, which for a struct the length code 1 does too.
/// The whole payload has to be there.
pub open spec fn payload_at(s: Seq<u8>, pos: int, header: ValueHeader) -> Result<
    (int, int),
    IonParserError,
> {
    if header.length == ValueLength::LongLength || (header.value_type == ValueType::Struct
        && header.length == ValueLength::ShortLength(1)) {
        match varuint_at(s, pos) {
            Err(e) => Err(IonParserError::BinaryError(e)),
            Ok((length, n)) => payload_window(s, pos + n, length as int),
        }
    } else {
        match header.length {
            ValueLength::ShortLength(length) => payload_window(s, pos, length as int),
            _ => payload_window(s, pos, 0),
        }
    }
}

/// The `length` bytes from `start` on.
pub open spec fn payload_window(s: Seq<u8>, start: int, length: int) -> Result<
    (int, int),
    IonParserError,
> {
    if start + length > s.len() {
        Err(IonParserError::BinaryError(ParsingError::NonBlockingReadNotSupported))
    } else {
        Ok((start, start + length))
    }
}

/// The integer value of a sign and a magnitude: an `Integer` where it fits in
/// 64 bits, a `BigInteger` where it does not. Negative zero is zero.
pub open spec fn integer_value(negative: bool, magnitude: nat) -> IonValueView {
    if negative {
        if magnitude <= 0x8000_0000_0000_0000 {
            IonValueView::Integer((-(magnitude as int)) as i64)
        } else {
            IonValueView::BigInteger(true, magnitude)
        }
    } else {
        if magnitude <= 0x7fff_ffff_ffff_ffff {
            IonValueView::Integer(magnitude as i64)
        } else {
            IonValueView::BigInteger(false, magnitude)
        }
    }
}

/// The integer whose magnitude is the payload. A positive integer without
/// payload is zero; a negative one without payload is invalid.
pub open spec fn integer_at(s: Seq<u8>, start: int, end: int, negative: bool) -> Result<
    IonValueView,
    IonParserError,
> {
    if start == end {
        if negative {
            Err(IonParserError::InvalidNegativeInt)
        } else {
            Ok(IonValueView::Integer(0))
        }
    } else {
        match uint_at(s, start, end - start) {
            Err(e) => Err(IonParserError::BinaryError(e)),
            Ok(magnitude) => Ok(integer_value(negative, magnitude)),
        }
    }
}

/// The fraction bits of a subnormal binary32 number, shifted up until the
/// leading one reaches bit 23, and the number of shifts.
pub open spec fn normalized(fraction: nat, shifts: nat) -> (nat, nat)
    decreases 0x100_0000 - fraction,
{
    if fraction == 0 || fraction >= 0x80_0000 {
        (fraction, shifts)
    } else {
        normalized(fraction * 2, shifts + 1)
    }
}

/// The bits of the binary64 number that has the value of the binary32 number
/// of these bits. Sign, infinities and zeros carry over; a NaN stays a NaN
/// with its payload in the high bits.
pub open spec fn promoted(bits: u32) -> u64 {
    let sign: nat = (bits / 0x8000_0000) as nat;
    let exponent: nat = ((bits / 0x80_0000) % 256) as nat;
    let fraction: nat = (bits % 0x80_0000) as nat;
    let high: nat = sign * 0x8000_0000_0000_0000;
    if exponent == 255 {
        (high + 0x7ff * 0x10_0000_0000_0000 + fraction * 0x2000_0000) as u64
    } else if exponent != 0 {
        (high + (exponent + 896) * 0x10_0000_0000_0000 + fraction * 0x2000_0000) as u64
    } else if fraction == 0 {
        high as u64
    } else {
        let (shifted, shifts) = normalized(fraction, 0);
        (high + (897 - shifts) * 0x10_0000_0000_0000 + (shifted - 0x80_0000) * 0x2000_0000) as u64
    }
}

/// The magnitude of the finite binary32 number of these bits, times `2^149`.
pub open spec fn binary32_scaled(bits: u32) -> nat {
    let exponent: nat = ((bits / 0x80_0000) % 256) as nat;
    let fraction: nat = (bits % 0x80_0000) as nat;
    if exponent == 0 {
        fraction
    } else {
        (0x80_0000 + fraction) * pow2((exponent - 1) as nat)
    }
}

/// The magnitude of the finite binary64 number of these bits, times `2^1074`.
pub open spec fn binary64_scaled(bits: u64) -> nat {
    let exponent: nat = ((bits / 0x10_0000_0000_0000) % 2048) as nat;
    let fraction: nat = (bits % 0x10_0000_0000_0000) as nat;
    if exponent == 0 {
        fraction
    } else {
        (0x10_0000_0000_0000 + fraction) * pow2((exponent - 1) as nat)
    }
}

/// Shifting the fraction bits of a subnormal number up multiplies them by a
/// power of two and brings the leading one to bit 23.
pub proof fn lemma_normalized(fraction: nat, shifts: nat)
    requires
        0 < fraction < 0x100_0000,
    ensures
        normalized(fraction, shifts).1 >= shifts,
        normalized(fraction, shifts).0 == fraction * pow2(
            (normalized(fraction, shifts).1 - shifts) as nat,
        ),
        0x80_0000 <= normalized(fraction, shifts).0 < 0x100_0000,
    decreases 0x100_0000 - fraction,
{
    lemma2_to64();
    if fraction < 0x80_0000 {
        lemma_normalized(fraction * 2, shifts + 1);
        let (shifted, n) = normalized(fraction, shifts);
        assert((shifted, n) == normalized(fraction * 2, shifts + 1));
        let below = pow2((n - (shifts + 1)) as nat);
        assert(shifted == (fraction * 2) * below);
        lemma_pow2_unfold((n - shifts) as nat);
        assert(pow2((n - shifts) as nat) == 2 * below);
        assert((fraction * 2) * below == fraction * (2 * below)) by (nonlinear_arith);
    } else {
        assert(fraction * 1 == fraction) by (nonlinear_arith);
    }
}

/// The bits of a binary64 number taken apart: sign, exponent and fraction.
proof fn lemma_binary64_fields(sign: nat, exponent: nat, fraction: nat)
    requires
        sign <= 1,
        exponent < 2048,
        fraction < 0x10_0000_0000_0000,
    ensures
        (sign * 0x8000_0000_0000_0000 + exponent * 0x10_0000_0000_0000 + fraction)
            / 0x8000_0000_0000_0000 == sign,
        ((sign * 0x8000_0000_0000_0000 + exponent * 0x10_0000_0000_0000 + fraction)
            / 0x10_0000_0000_0000) % 2048 == exponent,
        (sign * 0x8000_0000_0000_0000 + exponent * 0x10_0000_0000_0000 + fraction)
            % 0x10_0000_0000_0000 == fraction,
        sign * 0x8000_0000_0000_0000 + exponent * 0x10_0000_0000_0000 + fraction <= u64::MAX,
{
}

/// Promotion keeps the number. Of a finite binary32 number the promoted bits
/// are a finite binary64 number with the same sign and the same magnitude; of
/// an infinity they are the infinity of the same sign, and of a NaN a NaN.
pub proof fn lemma_promoted_keeps_value(bits: u32)
    ensures
        promoted(bits) / 0x8000_0000_0000_0000 == bits / 0x8000_0000,
        ((bits / 0x80_0000) % 256 == 255) == ((promoted(bits) / 0x10_0000_0000_0000) % 2048
            == 2047),
        (bits / 0x80_0000) % 256 == 255 ==> ((bits % 0x80_0000 == 0) == (promoted(bits)
            % 0x10_0000_0000_0000 == 0)),
        (bits / 0x80_0000) % 256 != 255 ==> binary64_scaled(promoted(bits)) == binary32_scaled(
            bits,
        ) * pow2(925),
{
    let sign: nat = (bits / 0x8000_0000) as nat;
    let exponent: nat = ((bits / 0x80_0000) % 256) as nat;
    let fraction: nat = (bits % 0x80_0000) as nat;
    lemma2_to64();
    if exponent == 255 {
        lemma_binary64_fields(sign, 0x7ff, fraction * 0x2000_0000);
    } else if exponent != 0 {
        let e: nat = exponent + 896;
        let f: nat = fraction * 0x2000_0000;
        lemma_binary64_fields(sign, e, f);
        let p = pow2((exponent - 1) as nat);
        let q = pow2((e - 1) as nat);
        lemma_pow2_adds((exponent - 1) as nat, 896);
        lemma_pow2_adds(896, 29);
        assert(q == p * pow2(896));
        assert(pow2(925) == pow2(896) * 0x2000_0000);
        assert((0x10_0000_0000_0000 + fraction * 0x2000_0000) * (p * pow2(896)) == ((0x80_0000
            + fraction) * p) * (pow2(896) * 0x2000_0000)) by (nonlinear_arith);
        assert(binary64_scaled(promoted(bits)) == (0x10_0000_0000_0000 + f) * q);
        assert(binary32_scaled(bits) == (0x80_0000 + fraction) * p);
    } else if fraction == 0 {
        lemma_binary64_fields(sign, 0, 0);
        assert(0 * pow2(925) == 0) by (nonlinear_arith);
    } else {
        lemma_normalized(fraction, 0);
        let (shifted, shifts) = normalized(fraction, 0);
        assert(shifts <= 23) by {
            if shifts > 23 {
                if shifts > 24 {
                    lemma_pow2_strictly_increases(24, shifts);
                }
                assert(fraction * pow2(shifts) >= pow2(shifts)) by (nonlinear_arith)
                    requires
                        fraction >= 1,
                ;
            }
        }
        let e: nat = (897 - shifts) as nat;
        let f: nat = ((shifted - 0x80_0000) * 0x2000_0000) as nat;
        lemma_binary64_fields(sign, e, f);
        let q = pow2((e - 1) as nat);
        lemma_pow2_adds(shifts, (896 - shifts) as nat);
        lemma_pow2_adds(896, 29);
        assert(pow2(925) == pow2(896) * 0x2000_0000);
        assert(pow2(896) == pow2(shifts) * q);
        assert((0x10_0000_0000_0000 + (fraction * pow2(shifts) - 0x80_0000) * 0x2000_0000) * q
            == fraction * ((pow2(shifts) * q) * 0x2000_0000)) by (nonlinear_arith);
        assert(binary64_scaled(promoted(bits)) == (0x10_0000_0000_0000 + f) * q);
        assert(binary32_scaled(bits) == fraction);
    }
}

/// The float whose bits are the payload: none for positive zero, four for a
/// binary32 number, eight for a binary64 number.
pub open spec fn float_at(s: Seq<u8>, start: int, end: int) -> Result<
    IonValueView,
    IonParserError,
> {
    if end - start == 0 {
        Ok(IonValueView::Float(0))
    } else if end - start == 4 {
        Ok(IonValueView::Float(promoted(be_nat(s.subrange(start, end)) as u32)))
    } else if end - start == 8 {
        Ok(IonValueView::Float(be_nat(s.subrange(start, end)) as u64))
    } else {
        Err(IonParserError::BinaryError(ParsingError::InvalidFloatLength))
    }
}

/// The decimal in the payload: the exponent as a VarInt, then the coefficient
/// as an Int that takes the rest. Without payload it is `0d0`, and without
/// coefficient bytes the coefficient is positive zero.
pub open spec fn decimal_at(s: Seq<u8>, start: int, end: int) -> Result<
    DecimalView,
    IonParserError,
> {
    if start == end {
        Ok(DecimalView { negative: false, magnitude: 0, exponent: 0 })
    } else {
        match varint_at(s, start) {
            Err(e) => Err(IonParserError::BinaryError(e)),
            Ok((exponent, n)) => {
                if start + n > end {
                    Err(IonParserError::BadFormatLengthFound)
                } else if exponent < -0x8000_0000 || exponent > 0x7fff_ffff {
                    Err(IonParserError::DecimalExponentTooBig)
                } else if start + n == end {
                    Ok(DecimalView { negative: false, magnitude: 0, exponent: exponent as i32 })
                } else {
                    match int_at(s, start + n, end - start - n) {
                        Err(e) => Err(IonParserError::BinaryError(e)),
                        Ok((negative, magnitude)) => Ok(
                            DecimalView { negative, magnitude, exponent: exponent as i32 },
                        ),
                    }
                }
            },
        }
    }
}

/// The VarUInt at `pos`, which has to end by `end`: its value and where it
/// ends.
pub open spec fn field_at(s: Seq<u8>, pos: int, end: int) -> Result<(u64, int), IonParserError> {
    if pos >= end {
        Err(IonParserError::BadFormatLengthFound)
    } else {
        match varuint_at(s, pos) {
            Err(e) => Err(IonParserError::BinaryError(e)),
            Ok((value, n)) => if pos + n > end {
                Err(IonParserError::BadFormatLengthFound)
            } else {
                Ok((value, pos + n))
            },
        }
    }
}

/// The timestamp in the payload: the offset as a VarInt, where negative zero
/// stands for an unknown offset, the year, and then as many of month, day,
/// hour with minute, second and fraction as the payload holds.
pub open spec fn timestamp_at(s: Seq<u8>, start: int, end: int) -> Result<
    TimestampView,
    IonParserError,
> {
    match varint_parts_at(s, start) {
        Err(e) => Err(IonParserError::BinaryError(e)),
        Ok(parts) => if start + parts.length > end {
            Err(IonParserError::BadFormatLengthFound)
        } else {
            match field_at(s, start + parts.length, end) {
                Err(e) => Err(e),
                Ok((year, pos)) => timestamp_month_at(
                    s,
                    pos,
                    end,
                    TimestampView {
                        offset: if parts.negative && parts.magnitude == 0 {
                            None
                        } else {
                            Some(parts.value() as i64)
                        },
                        year,
                        month: None,
                        day: None,
                        time: None,
                        second: None,
                        fraction: None,
                    },
                ),
            }
        },
    }
}

/// The timestamp `t` with the month at `pos`, where there is one, and what
/// follows it.
pub open spec fn timestamp_month_at(s: Seq<u8>, pos: int, end: int, t: TimestampView) -> Result<
    TimestampView,
    IonParserError,
> {
    if pos == end {
        Ok(t)
    } else {
        match field_at(s, pos, end) {
            Err(e) => Err(e),
            Ok((month, next)) => timestamp_day_at(
                s,
                next,
                end,
                TimestampView { month: Some(month), ..t },
            ),
        }
    }
}

/// The timestamp `t` with the day at `pos`, where there is one, and what
/// follows it.
pub open spec fn timestamp_day_at(s: Seq<u8>, pos: int, end: int, t: TimestampView) -> Result<
    TimestampView,
    IonParserError,
> {
    if pos == end {
        Ok(t)
    } else {
        match field_at(s, pos, end) {
            Err(e) => Err(e),
            Ok((day, next)) => timestamp_time_at(
                s,
                next,
                end,
                TimestampView { day: Some(day), ..t },
            ),
        }
    }
}

/// The timestamp `t` with the hour and the minute at `pos`, where they are
/// there, and what follows them. An hour has to be followed by a minute.
pub open spec fn timestamp_time_at(s: Seq<u8>, pos: int, end: int, t: TimestampView) -> Result<
    TimestampView,
    IonParserError,
> {
    if pos == end {
        Ok(t)
    } else {
        match field_at(s, pos, end) {
            Err(e) => Err(e),
            Ok((hour, next)) => match field_at(s, next, end) {
                Err(e) => Err(e),
                Ok((minute, after)) => timestamp_second_at(
                    s,
                    after,
                    end,
                    TimestampView { time: Some((hour, minute)), ..t },
                ),
            },
        }
    }
}

/// The timestamp `t` with the second at `pos`, where there is one, and the
/// fraction that takes the rest of the payload, where there is a rest.
pub open spec fn timestamp_second_at(s: Seq<u8>, pos: int, end: int, t: TimestampView) -> Result<
    TimestampView,
    IonParserError,
> {
    if pos == end {
        Ok(t)
    } else {
        match field_at(s, pos, end) {
            Err(e) => Err(e),
            Ok((second, next)) => if next == end {
                Ok(TimestampView { second: Some(second), ..t })
            } else {
                match decimal_at(s, next, end) {
                    Err(e) => Err(e),
                    Ok(fraction) => Ok(
                        TimestampView { second: Some(second), fraction: Some(fraction), ..t },
                    ),
                }
            },
        }
    }
}

/// The text of a symbol ID in a context.
pub open spec fn symbol_text(ctx: SymbolContextView, id: nat) -> Result<Seq<char>, IonParserError> {
    if id > u64::MAX {
        Err(IonParserError::SymbolIdTooBig)
    } else {
        match ctx.symbol(id) {
            Some(text) => Ok(text),
            None => Err(IonParserError::SymbolNotFound(id as u64)),
        }
    }
}

/// The text of the symbol whose ID is the payload, a UInt; without payload
/// the ID is 0.
pub open spec fn symbol_at(s: Seq<u8>, start: int, end: int, ctx: SymbolContextView) -> Result<
    Seq<char>,
    IonParserError,
> {
    if start == end {
        symbol_text(ctx, 0)
    } else {
        match uint_at(s, start, end - start) {
            Err(e) => Err(IonParserError::BinaryError(e)),
            Ok(id) => symbol_text(ctx, id),
        }
    }
}

/// The text that the payload is in UTF-8.
pub open spec fn string_at(s: Seq<u8>, start: int, end: int) -> Result<Seq<char>, IonParserError> {
    if valid_utf8(s.subrange(start, end)) {
        Ok(decode_utf8(s.subrange(start, end)))
    } else {
        Err(IonParserError::BadFormatUtf8)
    }
}

/// The type of the typed null that a header with the null length code stands
/// for; an annotation cannot be null.
pub open spec fn null_kind(value_type: ValueType) -> Option<NullIonValue> {
    match value_type {
        ValueType::Null => Some(NullIonValue::Null),
        ValueType::Bool(_) => Some(NullIonValue::Bool),
        ValueType::PositiveInt => Some(NullIonValue::Integer),
        ValueType::NegativeInt => Some(NullIonValue::Integer),
        ValueType::Float => Some(NullIonValue::Float),
        ValueType::Decimal => Some(NullIonValue::Decimal),
        ValueType::Timestamp => Some(NullIonValue::Timestamp),
        ValueType::Symbol => Some(NullIonValue::Symbol),
        ValueType::String => Some(NullIonValue::String),
        ValueType::Clob => Some(NullIonValue::Clob),
        ValueType::Blob => Some(NullIonValue::Blob),
        ValueType::List => Some(NullIonValue::List),
        ValueType::SExpr => Some(NullIonValue::SExp),
        ValueType::Struct => Some(NullIonValue::Struct),
        ValueType::Annotation => None,
    }
}

/// The texts of the annotations from `pos` up to `end`: VarUInt symbol IDs,
/// each of which has to have a text.
pub open spec fn annotations_at(s: Seq<u8>, pos: int, end: int, ctx: SymbolContextView) -> Result<
    Seq<Seq<char>>,
    IonParserError,
>
    decreases end - pos,
{
    if pos >= end {
        Ok(Seq::empty())
    } else {
        match field_at(s, pos, end) {
            Err(e) => Err(e),
            Ok((id, next)) => if next <= pos {
                Err(IonParserError::BadFormatLengthFound)
            } else {
                match symbol_text(ctx, id as nat) {
                    Err(e) => Err(e),
                    Ok(text) => match annotations_at(s, next, end, ctx) {
                        Err(e) => Err(e),
                        Ok(rest) => Ok(seq![text] + rest),
                    },
                }
            },
        }
    }
}

/// The value whose header stands at `pos`, and where the value ends.
/// Containers inside it may be nested `depth` deep.
pub open spec fn value_at(s: Seq<u8>, pos: int, ctx: SymbolContextView, depth: nat) -> Result<
    (IonValueView, int),
    IonParserError,
>
    decreases depth, 2nat, 0nat,
{
    match plain_header_at(s, pos) {
        Err(e) => Err(IonParserError::BinaryError(e)),
        Ok((header, body)) => body_at(s, body, header, ctx, depth),
    }
}

/// The value of that header whose header ends at `pos`, and where the value
/// ends.
pub open spec fn body_at(
    s: Seq<u8>,
    pos: int,
    header: ValueHeader,
    ctx: SymbolContextView,
    depth: nat,
) -> Result<(IonValueView, int), IonParserError>
    decreases depth, 1nat, 0nat,
{
    if header.length == ValueLength::NullValue {
        match null_kind(header.value_type) {
            Some(kind) => Ok((IonValueView::Null(kind), pos)),
            None => Err(IonParserError::NullAnnotationFound),
        }
    } else if header.value_type is Bool {
        Ok((IonValueView::Bool(header.value_type->Bool_0), pos))
    } else {
        match payload_at(s, pos, header) {
            Err(e) => Err(e),
            Ok((start, end)) => match payload_value(s, start, end, header.value_type, ctx, depth) {
                Err(e) => Err(e),
                Ok(value) => Ok((value, end)),
            },
        }
    }
}

/// The value of that type whose payload is the bytes from `start` up to
/// `end`.
pub open spec fn payload_value(
    s: Seq<u8>,
    start: int,
    end: int,
    value_type: ValueType,
    ctx: SymbolContextView,
    depth: nat,
) -> Result<IonValueView, IonParserError>
    decreases depth, 0nat, 0nat,
{
    match value_type {
        ValueType::Null => Ok(IonValueView::Null(NullIonValue::Null)),
        ValueType::Bool(b) => Ok(IonValueView::Bool(b)),
        ValueType::PositiveInt => integer_at(s, start, end, false),
        ValueType::NegativeInt => integer_at(s, start, end, true),
        ValueType::Float => float_at(s, start, end),
        ValueType::Decimal => match decimal_at(s, start, end) {
            Err(e) => Err(e),
            Ok(d) => Ok(IonValueView::Decimal(d)),
        },
        ValueType::Timestamp => match timestamp_at(s, start, end) {
            Err(e) => Err(e),
            Ok(t) => Ok(IonValueView::Timestamp(t)),
        },
        ValueType::Symbol => match symbol_at(s, start, end, ctx) {
            Err(e) => Err(e),
            Ok(text) => Ok(IonValueView::Symbol(text)),
        },
        ValueType::String => match string_at(s, start, end) {
            Err(e) => Err(e),
            Ok(text) => Ok(IonValueView::String(text)),
        },
        ValueType::Clob => Ok(IonValueView::Clob(s.subrange(start, end))),
        ValueType::Blob => Ok(IonValueView::Blob(s.subrange(start, end))),
        ValueType::List => if depth == 0 {
            Err(IonParserError::DepthLimitExceeded)
        } else {
            match items_at(s, start, end, ctx, (depth - 1) as nat) {
                Err(e) => Err(e),
                Ok(items) => Ok(IonValueView::List(items)),
            }
        },
        ValueType::SExpr => if depth == 0 {
            Err(IonParserError::DepthLimitExceeded)
        } else {
            match items_at(s, start, end, ctx, (depth - 1) as nat) {
                Err(e) => Err(e),
                Ok(items) => Ok(IonValueView::SExp(items)),
            }
        },
        ValueType::Struct => if depth == 0 {
            Err(IonParserError::DepthLimitExceeded)
        } else {
            match fields_at(s, start, end, ctx, (depth - 1) as nat) {
                Err(e) => Err(e),
                Ok(fields) => Ok(IonValueView::Struct(fields)),
            }
        },
        ValueType::Annotation => if depth == 0 {
            Err(IonParserError::DepthLimitExceeded)
        } else {
            annotation_at(s, start, end, ctx, (depth - 1) as nat)
        },
    }
}

/// The values that stand one after another from `pos` up to `end`, where the
/// last of them has to end.
pub open spec fn items_at(s: Seq<u8>, pos: int, end: int, ctx: SymbolContextView, depth: nat)
    -> Result<Seq<IonValueView>, IonParserError>
    decreases depth, 3nat, end - pos,
{
    if pos >= end {
        Ok(Seq::empty())
    } else {
        match value_at(s, pos, ctx, depth) {
            Err(e) => Err(e),
            Ok((value, next)) => if next <= pos || next > end {
                Err(IonParserError::BadFormatLengthFound)
            } else {
                match items_at(s, next, end, ctx, depth) {
                    Err(e) => Err(e),
                    Ok(rest) => Ok(seq![value] + rest),
                }
            },
        }
    }
}

/// The fields that stand one after another from `pos` up to `end`: each is a
/// VarUInt symbol ID, which has to have a text, and a value.
pub open spec fn fields_at(s: Seq<u8>, pos: int, end: int, ctx: SymbolContextView, depth: nat)
    -> Result<Seq<(Seq<char>, IonValueView)>, IonParserError>
    decreases depth, 3nat, end - pos,
{
    if pos >= end {
        Ok(Seq::empty())
    } else {
        match field_at(s, pos, end) {
            Err(e) => Err(e),
            Ok((id, name_end)) => match symbol_text(ctx, id as nat) {
                Err(e) => Err(e),
                Ok(name) => match value_at(s, name_end, ctx, depth) {
                    Err(e) => Err(e),
                    Ok((value, next)) => if next <= pos || next > end {
                        Err(IonParserError::BadFormatLengthFound)
                    } else {
                        match fields_at(s, next, end, ctx, depth) {
                            Err(e) => Err(e),
                            Ok(rest) => Ok(seq![(name, value)] + rest),
                        }
                    },
                },
            },
        }
    }
}

/// The annotated value in the payload: a VarUInt with the length of the
/// annotations, at least one annotation, and exactly one value, which takes
/// the rest of the payload.
pub open spec fn annotation_at(s: Seq<u8>, start: int, end: int, ctx: SymbolContextView, depth: nat)
    -> Result<IonValueView, IonParserError>
    decreases depth, 3nat, 0nat,
{
    match field_at(s, start, end) {
        Err(e) => Err(e),
        Ok((length, names_start)) => if length == 0 {
            Err(IonParserError::EmptyAnnotationFound)
        } else if names_start + length >= end {
            Err(IonParserError::BadFormatLengthFound)
        } else {
            match annotations_at(s, names_start, names_start + length, ctx) {
                Err(e) => Err(e),
                Ok(names) => match value_at(s, names_start + length, ctx, depth) {
                    Err(e) => Err(e),
                    Ok((value, next)) => if next != end {
                        Err(IonParserError::BadFormatLengthFound)
                    } else {
                        Ok(IonValueView::Annotation(names, Box::new(value)))
                    },
                },
            }
        },
    }
}

/// A value ends after the position of its header and inside the bytes.
pub proof fn lemma_value_advances(s: Seq<u8>, pos: int, ctx: SymbolContextView, depth: nat)
    ensures
        value_at(s, pos, ctx, depth) matches Ok((_, end)) ==> pos < end <= s.len(),
{
    if let Ok((header, body)) = plain_header_at(s, pos) {
        assert(body == pos + 1);
        if let Ok((_, end)) = body_at(s, body, header, ctx, depth) {
            if header.length != ValueLength::NullValue && !(header.value_type is Bool) {
                assert(payload_at(s, body, header) is Ok);
            }
        }
    }
}

/// No list of annotations is reported as not covered.
pub proof fn lemma_annotations_are_covered(s: Seq<u8>, pos: int, end: int, ctx: SymbolContextView)
    ensures
        annotations_at(s, pos, end, ctx) != Err::<Seq<Seq<char>>, IonParserError>(
            IonParserError::Unimplemented,
        ),
    decreases end - pos,
{
    if pos < end {
        if let Ok((id, next)) = field_at(s, pos, end) {
            if next > pos {
                lemma_annotations_are_covered(s, next, end, ctx);
            }
        }
    }
}

/// The decoder covers every kind of value: no value is reported as not
/// covered.
pub proof fn lemma_value_is_covered(s: Seq<u8>, pos: int, ctx: SymbolContextView, depth: nat)
    ensures
        value_at(s, pos, ctx, depth) != Err::<(IonValueView, int), IonParserError>(
            IonParserError::Unimplemented,
        ),
    decreases depth, 2nat, 0nat,
{
    if let Ok((header, body)) = plain_header_at(s, pos) {
        if header.length != ValueLength::NullValue && !(header.value_type is Bool) {
            if let Ok((start, end)) = payload_at(s, body, header) {
                lemma_payload_is_covered(s, start, end, header.value_type, ctx, depth);
            }
        }
    }
}

/// No payload is reported as not covered.
pub proof fn lemma_payload_is_covered(
    s: Seq<u8>,
    start: int,
    end: int,
    value_type: ValueType,
    ctx: SymbolContextView,
    depth: nat,
)
    ensures
        payload_value(s, start, end, value_type, ctx, depth) != Err::<IonValueView, IonParserError>(
            IonParserError::Unimplemented,
        ),
    decreases depth, 0nat, 0nat,
{
    if depth > 0 {
        match value_type {
            ValueType::List => lemma_items_are_covered(s, start, end, ctx, (depth - 1) as nat),
            ValueType::SExpr => lemma_items_are_covered(s, start, end, ctx, (depth - 1) as nat),
            ValueType::Struct => lemma_fields_are_covered(s, start, end, ctx, (depth - 1) as nat),
            ValueType::Annotation => {
                if let Ok((length, names_start)) = field_at(s, start, end) {
                    lemma_annotations_are_covered(s, names_start, names_start + length, ctx);
                    lemma_value_is_covered(s, names_start + length, ctx, (depth - 1) as nat);
                }
            },
            _ => {},
        }
    }
}

/// No list of values is reported as not covered.
pub proof fn lemma_items_are_covered(
    s: Seq<u8>,
    pos: int,
    end: int,
    ctx: SymbolContextView,
    depth: nat,
)
    ensures
        items_at(s, pos, end, ctx, depth) != Err::<Seq<IonValueView>, IonParserError>(
            IonParserError::Unimplemented,
        ),
    decreases depth, 3nat, end - pos,
{
    if pos < end {
        lemma_value_is_covered(s, pos, ctx, depth);
        if let Ok((value, next)) = value_at(s, pos, ctx, depth) {
            if !(next <= pos || next > end) {
                lemma_items_are_covered(s, next, end, ctx, depth);
            }
        }
    }
}

/// No list of fields is reported as not covered.
pub proof fn lemma_fields_are_covered(
    s: Seq<u8>,
    pos: int,
    end: int,
    ctx: SymbolContextView,
    depth: nat,
)
    ensures
        fields_at(s, pos, end, ctx, depth) != Err::<
            Seq<(Seq<char>, IonValueView)>,
            IonParserError,
        >(IonParserError::Unimplemented),
    decreases depth, 3nat, end - pos,
{
    if pos < end {
        if let Ok((id, name_end)) = field_at(s, pos, end) {
            lemma_value_is_covered(s, name_end, ctx, depth);
            if let Ok((value, next)) = value_at(s, name_end, ctx, depth) {
                if !(next <= pos || next > end) {
                    lemma_fields_are_covered(s, next, end, ctx, depth);
                }
            }
        }
    }
}

} // verus!

//! The binary form of a value as a function of the value, and the proof that
//! the decoder reads a value back from its binary form.

use crate::binary_encoder::{
    int_encoding, lemma_digits128, lemma_int_round_trip, lemma_uint_round_trip,
    lemma_varint_parts_round_trip, lemma_varuint_round_trip, varint_encoding, varuint_encoding,
};
use crate::binary_parser::{
    int_at, markers_end, plain_header_at, varint_parts_at, varuint_at, VarIntParts,
};
use crate::binary_parser_types::{
    header_of, length_of_code, type_of_code, ParsingError, ValueHeader, ValueLength,
};
use crate::ion_hash_encoder::{fixed_be, null_qualifier};
use crate::ion_parser::{is_local_symbol_table, next_value, top_level_at};
use crate::ion_parser_types::{
    DecimalView, IonParserError, IonValueView, NullIonValue, TimestampView,
};
use crate::numbers::{be_bytes, be_nat, lemma_be_bytes_is_canonical};
use crate::symbol_table::SymbolContextView;
use crate::value_format::{
    annotation_at, annotations_at, decimal_at, field_at, fields_at, float_at, integer_at,
    integer_value, items_at, null_kind, payload_at, payload_value, string_at, symbol_at,
    timestamp_at, timestamp_day_at, timestamp_month_at, timestamp_second_at, timestamp_time_at,
    value_at, MAX_DEPTH,
};
use vstd::arithmetic::power::pow;
use vstd::prelude::*;
use vstd::utf8::{encode_utf8, encode_utf8_decode_utf8, encode_utf8_valid_utf8};

verus! {

/// The header of a value of that type code whose payload has `length` bytes:
/// one byte where the length is below 14, else the byte with the length code
/// 14 and the length as a VarUInt.
pub open spec fn header_bytes(code: nat, length: nat) -> Seq<u8> {
    if length < 14 {
        seq![(code * 16 + length) as u8]
    } else {
        seq![(code * 16 + 14) as u8] + varuint_encoding(length)
    }
}

/// The type code of a value with a payload.
pub open spec fn type_code(value: IonValueView) -> nat {
    match value {
        IonValueView::Null(_) => 0,
        IonValueView::Bool(_) => 1,
        IonValueView::Integer(i) => if i < 0 {
            3
        } else {
            2
        },
        IonValueView::BigInteger(negative, _) => if negative {
            3
        } else {
            2
        },
        IonValueView::Float(_) => 4,
        IonValueView::Decimal(_) => 5,
        IonValueView::Timestamp(_) => 6,
        IonValueView::Symbol(_) => 7,
        IonValueView::String(_) => 8,
        IonValueView::Clob(_) => 9,
        IonValueView::Blob(_) => 10,
        IonValueView::List(_) => 11,
        IonValueView::SExp(_) => 12,
        IonValueView::Struct(_) => 13,
        IonValueView::Annotation(_, _) => 14,
    }
}

/// Whether some symbol ID of the context stands for a text.
pub open spec fn has_id(ctx: SymbolContextView, text: Seq<char>) -> bool {
    exists|id: nat| id <= u64::MAX && #[trigger] ctx.symbol(id) == Some(text)
}

/// A symbol ID of the context that stands for a text.
pub open spec fn symbol_id(ctx: SymbolContextView, text: Seq<char>) -> nat {
    choose|id: nat| id <= u64::MAX && #[trigger] ctx.symbol(id) == Some(text)
}

/// The VarInt of an offset or an exponent.
pub open spec fn varint_form(i: int) -> Seq<u8> {
    varint_encoding(i < 0, vstd::math::abs(i) as nat)
}

/// The payload of a decimal: the exponent as a VarInt and the coefficient as
/// an Int.
pub open spec fn decimal_payload(d: DecimalView) -> Seq<u8> {
    varint_form(d.exponent as int) + int_encoding(d.negative, d.magnitude)
}

/// The fraction of a timestamp in its payload.
pub open spec fn fraction_part(t: TimestampView) -> Seq<u8> {
    match t.fraction {
        None => Seq::empty(),
        Some(fraction) => decimal_payload(fraction),
    }
}

/// The second of a timestamp in its payload, and what follows it.
pub open spec fn second_part(t: TimestampView) -> Seq<u8> {
    match t.second {
        None => Seq::empty(),
        Some(second) => varuint_encoding(second as nat) + fraction_part(t),
    }
}

/// The hour and the minute of a timestamp in its payload, and what follows
/// them.
pub open spec fn time_part(t: TimestampView) -> Seq<u8> {
    match t.time {
        None => Seq::empty(),
        Some((hour, minute)) => varuint_encoding(hour as nat) + (varuint_encoding(minute as nat)
            + second_part(t)),
    }
}

/// The day of a timestamp in its payload, and what follows it.
pub open spec fn day_part(t: TimestampView) -> Seq<u8> {
    match t.day {
        None => Seq::empty(),
        Some(day) => varuint_encoding(day as nat) + time_part(t),
    }
}

/// The month of a timestamp in its payload, and what follows it.
pub open spec fn month_part(t: TimestampView) -> Seq<u8> {
    match t.month {
        None => Seq::empty(),
        Some(month) => varuint_encoding(month as nat) + day_part(t),
    }
}

/// The payload of a timestamp: the offset, negative zero for an unknown one,
/// the year, and the further fields that are there.
pub open spec fn timestamp_payload(t: TimestampView) -> Seq<u8> {
    (match t.offset {
        None => varint_encoding(true, 0),
        Some(minutes) => varint_form(minutes as int),
    }) + (varuint_encoding(t.year as nat) + month_part(t))
}

/// Whether a timestamp has each field only behind the fields before it, and
/// an offset that a VarInt of nine bytes holds.
pub open spec fn is_timestamp(t: TimestampView) -> bool {
    &&& t.month is None ==> t.day is None
    &&& t.day is None ==> t.time is None
    &&& t.time is None ==> t.second is None
    &&& t.second is None ==> t.fraction is None
    &&& t.offset matches Some(minutes) ==> -0x4000_0000_0000_0000 < minutes
        < 0x4000_0000_0000_0000
}

/// The symbol IDs of annotations, each as a VarUInt.
pub open spec fn id_forms(names: Seq<Seq<char>>, ctx: SymbolContextView) -> Seq<u8>
    decreases names.len(),
{
    if names.len() == 0 {
        Seq::empty()
    } else {
        varuint_encoding(symbol_id(ctx, names[0])) + id_forms(names.drop_first(), ctx)
    }
}

/// Whether each of the texts has a symbol ID.
pub open spec fn all_have_ids(names: Seq<Seq<char>>, ctx: SymbolContextView) -> bool {
    forall|i: int| 0 <= i < names.len() ==> has_id(ctx, #[trigger] names[i])
}

/// The payload of a value in its binary form.
pub open spec fn payload_bytes(value: IonValueView, ctx: SymbolContextView) -> Seq<u8>
    decreases value, 0nat,
{
    match value {
        IonValueView::Integer(i) => be_bytes(vstd::math::abs(i as int) as nat),
        IonValueView::BigInteger(_, magnitude) => be_bytes(magnitude),
        IonValueView::Float(bits) => float_payload(bits),
        IonValueView::Decimal(d) => decimal_payload(d),
        IonValueView::Timestamp(t) => timestamp_payload(t),
        IonValueView::Symbol(text) => be_bytes(symbol_id(ctx, text)),
        IonValueView::String(text) => encode_utf8(text),
        IonValueView::Clob(bytes) => bytes,
        IonValueView::Blob(bytes) => bytes,
        IonValueView::List(items) => binary_forms(items, ctx),
        IonValueView::SExp(items) => binary_forms(items, ctx),
        IonValueView::Struct(fields) => field_forms(fields, ctx),
        IonValueView::Annotation(names, inner) => varuint_encoding(id_forms(names, ctx).len())
            + (id_forms(names, ctx) + binary_form(*inner, ctx)),
        _ => Seq::empty(),
    }
}

/// The payload of a float: nothing for positive zero, else the eight bytes of
/// its bits.
pub open spec fn float_payload(bits: u64) -> Seq<u8> {
    if bits == 0 {
        Seq::empty()
    } else {
        fixed_be(bits as nat, 8)
    }
}

/// The binary form of a value: for a null and a boolean the one byte of its
/// header, for any other value its header and its payload. A symbol is
/// written with a symbol ID that stands for its text in the context.
pub open spec fn binary_form(value: IonValueView, ctx: SymbolContextView) -> Seq<u8>
    decreases value, 1nat,
{
    match value {
        IonValueView::Null(kind) => seq![null_qualifier(kind)],
        IonValueView::Bool(b) => if b {
            seq![0x11u8]
        } else {
            seq![0x10u8]
        },
        _ => header_bytes(type_code(value), payload_bytes(value, ctx).len()) + payload_bytes(
            value,
            ctx,
        ),
    }
}

/// The binary forms of values one after another.
pub open spec fn binary_forms(items: Seq<IonValueView>, ctx: SymbolContextView) -> Seq<u8>
    decreases items, 2nat,
{
    if items.len() == 0 {
        Seq::empty()
    } else {
        binary_form(items[0], ctx) + binary_forms(items.drop_first(), ctx)
    }
}

/// The binary forms of fields one after another: each is the symbol ID of
/// its name as a VarUInt and the binary form of its value.
pub open spec fn field_forms(fields: Seq<(Seq<char>, IonValueView)>, ctx: SymbolContextView) -> Seq<
    u8,
>
    decreases fields, 2nat,
{
    if fields.len() == 0 {
        Seq::empty()
    } else {
        varuint_encoding(symbol_id(ctx, fields[0].0)) + (binary_form(fields[0].1, ctx)
            + field_forms(fields.drop_first(), ctx))
    }
}

/// Whether a value has a binary form that the decoder reads back in the
/// context, with containers nested no deeper than `depth`: an integer is a
/// `BigInteger` only where it does not fit in 64 bits, each symbol, field name
/// and annotation has a symbol ID, an annotated value has an annotation, a
/// timestamp has its fields in their order and an offset that a VarInt of
/// nine bytes holds, and no payload is longer than a length field can say.
pub open spec fn is_decodable(value: IonValueView, ctx: SymbolContextView, depth: nat) -> bool
    decreases value, 1nat,
{
    &&& payload_bytes(value, ctx).len() <= u64::MAX
    &&& match value {
        IonValueView::BigInteger(negative, magnitude) => if negative {
            magnitude > 0x8000_0000_0000_0000
        } else {
            magnitude > 0x7fff_ffff_ffff_ffff
        },
        IonValueView::Timestamp(t) => is_timestamp(t),
        IonValueView::Symbol(text) => has_id(ctx, text),
        IonValueView::List(items) => depth > 0 && all_decodable(items, ctx, (depth - 1) as nat),
        IonValueView::SExp(items) => depth > 0 && all_decodable(items, ctx, (depth - 1) as nat),
        IonValueView::Struct(fields) => depth > 0 && all_fields_decodable(
            fields,
            ctx,
            (depth - 1) as nat,
        ),
        IonValueView::Annotation(names, inner) => depth > 0 && names.len() > 0 && all_have_ids(
            names,
            ctx,
        ) && is_decodable(*inner, ctx, (depth - 1) as nat),
        _ => true,
    }
}

/// Whether each of the values has a binary form that the decoder reads back.
pub open spec fn all_decodable(items: Seq<IonValueView>, ctx: SymbolContextView, depth: nat) -> bool
    decreases items, 2nat,
{
    items.len() > 0 ==> is_decodable(items[0], ctx, depth) && all_decodable(
        items.drop_first(),
        ctx,
        depth,
    )
}

/// Whether each of the fields has a binary form that the decoder reads back.
pub open spec fn all_fields_decodable(
    fields: Seq<(Seq<char>, IonValueView)>,
    ctx: SymbolContextView,
    depth: nat,
) -> bool
    decreases fields, 2nat,
{
    fields.len() > 0 ==> has_id(ctx, fields[0].0) && is_decodable(fields[0].1, ctx, depth)
        && all_fields_decodable(fields.drop_first(), ctx, depth)
}

/// The bytes of `s` from `pos` on start with `part`.
pub open spec fn stands_at(s: Seq<u8>, pos: int, part: Seq<u8>) -> bool {
    0 <= pos && pos + part.len() <= s.len() && s.subrange(pos, pos + part.len()) == part
}

/// Where two parts stand one after the other, each of them stands at its
/// place.
pub proof fn lemma_stands_in_parts(s: Seq<u8>, pos: int, first: Seq<u8>, second: Seq<u8>)
    requires
        stands_at(s, pos, first + second),
    ensures
        stands_at(s, pos, first),
        stands_at(s, pos + first.len(), second),
{
    let all = first + second;
    assert(s.subrange(pos, pos + first.len()) =~= all.subrange(0, first.len() as int));
    assert(all.subrange(0, first.len() as int) =~= first);
    assert(s.subrange(pos + first.len(), pos + all.len()) =~= all.subrange(
        first.len() as int,
        all.len() as int,
    ));
    assert(all.subrange(first.len() as int, all.len() as int) =~= second);
}

/// A VarUInt that stands at a position is read there.
pub proof fn lemma_varuint_read_at(s: Seq<u8>, pos: int, n: u64)
    requires
        stands_at(s, pos, varuint_encoding(n as nat)),
    ensures
        varuint_at(s, pos) == Ok::<(u64, usize), ParsingError>(
            (n, varuint_encoding(n as nat).len() as usize),
        ),
        1 <= varuint_encoding(n as nat).len() <= 10,
{
    let e = varuint_encoding(n as nat);
    lemma_varuint_round_trip(s.take(pos), n, s.skip(pos + e.len()));
    assert(s =~= s.take(pos) + (e + s.skip(pos + e.len())));
}

/// A VarUInt that stands at a position and ends by `end` is read there as a
/// field.
pub proof fn lemma_field_read_at(s: Seq<u8>, pos: int, end: int, n: u64)
    requires
        stands_at(s, pos, varuint_encoding(n as nat)),
        pos + varuint_encoding(n as nat).len() <= end,
    ensures
        field_at(s, pos, end) == Ok::<(u64, int), IonParserError>(
            (n, pos + varuint_encoding(n as nat).len()),
        ),
        varuint_encoding(n as nat).len() >= 1,
{
    lemma_varuint_read_at(s, pos, n);
}

/// A VarInt that stands at a position is read there.
pub proof fn lemma_varint_read_at(s: Seq<u8>, pos: int, negative: bool, magnitude: u64)
    requires
        stands_at(s, pos, varint_encoding(negative, magnitude as nat)),
        magnitude < 0x4000_0000_0000_0000,
    ensures
        varint_parts_at(s, pos) == Ok::<VarIntParts, ParsingError>(
            VarIntParts {
                negative,
                magnitude,
                length: varint_encoding(negative, magnitude as nat).len() as usize,
            },
        ),
        1 <= varint_encoding(negative, magnitude as nat).len() <= 9,
{
    let e = varint_encoding(negative, magnitude as nat);
    lemma_varint_parts_round_trip(s.take(pos), negative, magnitude, s.skip(pos + e.len()));
    assert(s =~= s.take(pos) + (e + s.skip(pos + e.len())));
}

/// An Int that stands at a position is read there.
pub proof fn lemma_int_read_at(s: Seq<u8>, pos: int, negative: bool, magnitude: nat)
    requires
        stands_at(s, pos, int_encoding(negative, magnitude)),
        negative || magnitude > 0,
    ensures
        int_at(s, pos, int_encoding(negative, magnitude).len() as int) == Ok::<
            (bool, nat),
            ParsingError,
        >((negative, magnitude)),
        int_encoding(negative, magnitude).len() >= 1,
{
    let e = int_encoding(negative, magnitude);
    lemma_be_bytes_is_canonical(magnitude);
    lemma_int_round_trip(s.take(pos), negative, magnitude, s.skip(pos + e.len()));
    assert(s =~= s.take(pos) + (e + s.skip(pos + e.len())));
}

/// The header byte of a type code and a length code that go together is
/// decoded as such.
pub proof fn lemma_header_byte(code: nat, low: nat)
    requires
        2 <= code <= 14,
        low <= 14,
        code == 4 ==> low == 0 || low == 8,
        code == 14 ==> low >= 3,
    ensures
        header_of((code * 16 + low) as u8) == Ok::<ValueHeader, ParsingError>(
            ValueHeader {
                value_type: type_of_code(code as u8, 0),
                length: length_of_code(low as u8),
            },
        ),
{
    let byte = (code * 16 + low) as u8;
    assert(byte / 16 == code && byte % 16 == low);
    assert(type_of_code(code as u8, low as u8) == type_of_code(code as u8, 0));
}

/// The header of a payload of `length` bytes, where it stands at `pos` with
/// the whole payload behind it, is read as a header of that type, and the
/// payload is found behind it.
pub proof fn lemma_header_and_payload(s: Seq<u8>, pos: int, code: nat, length: nat)
    requires
        2 <= code <= 14,
        length <= u64::MAX,
        stands_at(s, pos, header_bytes(code, length)),
        pos + header_bytes(code, length).len() + length <= s.len(),
        code == 4 ==> length == 0 || length == 8,
        code == 13 ==> length != 1,
        code == 14 ==> length >= 3,
    ensures
        plain_header_at(s, pos) matches Ok((header, body)) && body == pos + 1 && header.value_type
            == type_of_code(code as u8, 0) && header.length != ValueLength::NullValue
            && payload_at(s, body, header) == Ok::<(int, int), IonParserError>(
            (
                pos + header_bytes(code, length).len(),
                pos + header_bytes(code, length).len() + length,
            ),
        ),
{
    let h = header_bytes(code, length);
    assert(s[pos] == s.subrange(pos, pos + h.len())[0]);
    let low: nat = if length < 14 {
        length
    } else {
        14
    };
    assert(s[pos] == (code * 16 + low) as u8);
    lemma_header_byte(code, low);
    if length >= 14 {
        let e = varuint_encoding(length);
        assert(s.subrange(pos + 1, pos + 1 + e.len()) =~= h.subrange(1, h.len() as int));
        assert(h.subrange(1, h.len() as int) =~= e);
        lemma_varuint_read_at(s, pos + 1, length as u64);
    }
}

/// The value at a position where such a header stands is the value that the
/// payload holds.
pub proof fn lemma_header_read_at(
    s: Seq<u8>,
    pos: int,
    code: nat,
    length: nat,
    ctx: SymbolContextView,
    depth: nat,
)
    requires
        2 <= code <= 14,
        code != 1,
        length <= u64::MAX,
        stands_at(s, pos, header_bytes(code, length)),
        pos + header_bytes(code, length).len() + length <= s.len(),
        code == 4 ==> length == 0 || length == 8,
        code == 13 ==> length != 1,
        code == 14 ==> length >= 3,
    ensures
        value_at(s, pos, ctx, depth) == match payload_value(
            s,
            pos + header_bytes(code, length).len(),
            pos + header_bytes(code, length).len() + length,
            type_of_code(code as u8, 0),
            ctx,
            depth,
        ) {
            Err(e) => Err::<(IonValueView, int), IonParserError>(e),
            Ok(value) => Ok((value, pos + header_bytes(code, length).len() + length)),
        },
{
    lemma_header_and_payload(s, pos, code, length);
}

/// The big-endian bytes of a number in a field that is wide enough spell the
/// number.
pub proof fn lemma_fixed_be(n: nat, width: nat)
    requires
        n < pow(256, width),
    ensures
        fixed_be(n, width).len() == width,
        be_nat(fixed_be(n, width)) == n,
    decreases width,
{
    reveal(pow);
    if width > 0 {
        assert(pow(256, width) == 256 * pow(256, (width - 1) as nat));
        lemma_fixed_be(n / 256, (width - 1) as nat);
        let f = fixed_be(n, width);
        assert(f.drop_last() =~= fixed_be(n / 256, (width - 1) as nat));
        assert(f.last() == (n % 256) as u8);
    }
}

/// The binary form of a value has at least one byte.
pub proof fn lemma_binary_form_is_not_empty(value: IonValueView, ctx: SymbolContextView)
    ensures
        binary_form(value, ctx).len() >= 1,
{
}

/// An integer's payload, where it stands between `start` and the end of the
/// magnitude's bytes, is read as the integer of that sign and magnitude.
pub proof fn lemma_integer_read_at(s: Seq<u8>, start: int, negative: bool, magnitude: nat)
    requires
        stands_at(s, start, be_bytes(magnitude)),
        negative ==> magnitude > 0,
    ensures
        integer_at(s, start, start + be_bytes(magnitude).len(), negative) == Ok::<
            IonValueView,
            IonParserError,
        >(integer_value(negative, magnitude)),
{
    lemma_be_bytes_is_canonical(magnitude);
    let e = be_bytes(magnitude);
    if magnitude > 0 {
        lemma_uint_round_trip(s.take(start), magnitude, s.skip(start + e.len()));
        assert(s =~= s.take(start) + (e + s.skip(start + e.len())));
    }
}

/// A float's payload is read as the float of those bits.
pub proof fn lemma_float_read_at(s: Seq<u8>, start: int, bits: u64)
    requires
        stands_at(s, start, float_payload(bits)),
    ensures
        float_payload(bits).len() == (if bits == 0 {
            0nat
        } else {
            8nat
        }),
        float_at(s, start, start + float_payload(bits).len()) == Ok::<
            IonValueView,
            IonParserError,
        >(IonValueView::Float(bits)),
{
    if bits != 0 {
        assert(pow(256, 8) == 0x1_0000_0000_0000_0000) by {
            reveal_with_fuel(pow, 9);
        }
        lemma_fixed_be(bits as nat, 8);
    }
}

/// A string's payload is read as the string.
pub proof fn lemma_string_read_at(s: Seq<u8>, start: int, text: Seq<char>)
    requires
        stands_at(s, start, encode_utf8(text)),
    ensures
        string_at(s, start, start + encode_utf8(text).len()) == Ok::<Seq<char>, IonParserError>(
            text,
        ),
{
    encode_utf8_valid_utf8(text);
    encode_utf8_decode_utf8(text);
}

/// A decimal's payload is read as the decimal.
pub proof fn lemma_decimal_read_at(s: Seq<u8>, start: int, d: DecimalView)
    requires
        stands_at(s, start, decimal_payload(d)),
    ensures
        decimal_payload(d).len() >= 1,
        decimal_at(s, start, start + decimal_payload(d).len()) == Ok::<
            DecimalView,
            IonParserError,
        >(d),
{
    let exponent = d.exponent as int;
    let first = varint_form(exponent);
    let second = int_encoding(d.negative, d.magnitude);
    lemma_stands_in_parts(s, start, first, second);
    lemma_varint_read_at(s, start, exponent < 0, vstd::math::abs(exponent) as u64);
    lemma_be_bytes_is_canonical(d.magnitude);
    if d.negative || d.magnitude > 0 {
        lemma_int_read_at(s, start + first.len(), d.negative, d.magnitude);
    } else {
        assert(second.len() == 0);
    }
}

/// A symbol's payload is read as the symbol's text.
pub proof fn lemma_symbol_read_at(s: Seq<u8>, start: int, text: Seq<char>, ctx: SymbolContextView)
    requires
        has_id(ctx, text),
        stands_at(s, start, be_bytes(symbol_id(ctx, text))),
    ensures
        symbol_at(s, start, start + be_bytes(symbol_id(ctx, text)).len(), ctx) == Ok::<
            Seq<char>,
            IonParserError,
        >(text),
{
    let id = symbol_id(ctx, text);
    assert(id <= u64::MAX && ctx.symbol(id) == Some(text));
    assert(id > 0);
    lemma_be_bytes_is_canonical(id);
    let e = be_bytes(id);
    lemma_uint_round_trip(s.take(start), id, s.skip(start + e.len()));
    assert(s =~= s.take(start) + (e + s.skip(start + e.len())));
}

/// The second of a timestamp and what follows it are read back.
pub proof fn lemma_second_read_at(s: Seq<u8>, pos: int, t: TimestampView, base: TimestampView)
    requires
        stands_at(s, pos, second_part(t)),
        t.second is None ==> t.fraction is None,
        base == (TimestampView { second: None, fraction: None, ..t }),
    ensures
        timestamp_second_at(s, pos, pos + second_part(t).len(), base) == Ok::<
            TimestampView,
            IonParserError,
        >(t),
{
    if let Some(second) = t.second {
        let first = varuint_encoding(second as nat);
        lemma_stands_in_parts(s, pos, first, fraction_part(t));
        lemma_field_read_at(s, pos, pos + second_part(t).len(), second);
        if let Some(fraction) = t.fraction {
            lemma_decimal_read_at(s, pos + first.len(), fraction);
        }
    }
}

/// The hour and the minute of a timestamp and what follows them are read
/// back.
pub proof fn lemma_time_read_at(s: Seq<u8>, pos: int, t: TimestampView, base: TimestampView)
    requires
        stands_at(s, pos, time_part(t)),
        t.time is None ==> t.second is None,
        t.second is None ==> t.fraction is None,
        base == (TimestampView { time: None, second: None, fraction: None, ..t }),
    ensures
        timestamp_time_at(s, pos, pos + time_part(t).len(), base) == Ok::<
            TimestampView,
            IonParserError,
        >(t),
{
    if let Some((hour, minute)) = t.time {
        let end = pos + time_part(t).len();
        let first = varuint_encoding(hour as nat);
        let second = varuint_encoding(minute as nat);
        lemma_stands_in_parts(s, pos, first, second + second_part(t));
        lemma_stands_in_parts(s, pos + first.len(), second, second_part(t));
        lemma_field_read_at(s, pos, end, hour);
        lemma_field_read_at(s, pos + first.len(), end, minute);
        lemma_second_read_at(
            s,
            pos + first.len() + second.len(),
            t,
            TimestampView { time: Some((hour, minute)), ..base },
        );
    }
}

/// The day of a timestamp and what follows it are read back.
pub proof fn lemma_day_read_at(s: Seq<u8>, pos: int, t: TimestampView, base: TimestampView)
    requires
        stands_at(s, pos, day_part(t)),
        t.day is None ==> t.time is None,
        t.time is None ==> t.second is None,
        t.second is None ==> t.fraction is None,
        base == (TimestampView { day: None, time: None, second: None, fraction: None, ..t }),
    ensures
        timestamp_day_at(s, pos, pos + day_part(t).len(), base) == Ok::<
            TimestampView,
            IonParserError,
        >(t),
{
    if let Some(day) = t.day {
        let first = varuint_encoding(day as nat);
        lemma_stands_in_parts(s, pos, first, time_part(t));
        lemma_field_read_at(s, pos, pos + day_part(t).len(), day);
        lemma_time_read_at(s, pos + first.len(), t, TimestampView { day: Some(day), ..base });
    }
}

/// The month of a timestamp and what follows it are read back.
pub proof fn lemma_month_read_at(s: Seq<u8>, pos: int, t: TimestampView, base: TimestampView)
    requires
        stands_at(s, pos, month_part(t)),
        is_timestamp(t),
        base == (TimestampView {
            month: None,
            day: None,
            time: None,
            second: None,
            fraction: None,
            ..t
        }),
    ensures
        timestamp_month_at(s, pos, pos + month_part(t).len(), base) == Ok::<
            TimestampView,
            IonParserError,
        >(t),
{
    if let Some(month) = t.month {
        let first = varuint_encoding(month as nat);
        lemma_stands_in_parts(s, pos, first, day_part(t));
        lemma_field_read_at(s, pos, pos + month_part(t).len(), month);
        lemma_day_read_at(s, pos + first.len(), t, TimestampView { month: Some(month), ..base });
    }
}

/// A timestamp's payload is read as the timestamp.
pub proof fn lemma_timestamp_read_at(s: Seq<u8>, start: int, t: TimestampView)
    requires
        stands_at(s, start, timestamp_payload(t)),
        is_timestamp(t),
    ensures
        timestamp_at(s, start, start + timestamp_payload(t).len()) == Ok::<
            TimestampView,
            IonParserError,
        >(t),
{
    let end = start + timestamp_payload(t).len();
    let offset = match t.offset {
        None => varint_encoding(true, 0),
        Some(minutes) => varint_form(minutes as int),
    };
    let year = varuint_encoding(t.year as nat);
    lemma_stands_in_parts(s, start, offset, year + month_part(t));
    lemma_stands_in_parts(s, start + offset.len(), year, month_part(t));
    match t.offset {
        None => {
            lemma_varint_read_at(s, start, true, 0);
        },
        Some(minutes) => {
            lemma_varint_read_at(
                s,
                start,
                minutes < 0,
                vstd::math::abs(minutes as int) as u64,
            );
        },
    }
    lemma_field_read_at(s, start + offset.len(), end, t.year);
    lemma_month_read_at(
        s,
        start + offset.len() + year.len(),
        t,
        TimestampView { month: None, day: None, time: None, second: None, fraction: None, ..t },
    );
}

/// The symbol IDs of annotations, where they stand one after another, are
/// read as the annotations.
pub proof fn lemma_annotations_read_at(
    s: Seq<u8>,
    pos: int,
    names: Seq<Seq<char>>,
    ctx: SymbolContextView,
)
    requires
        stands_at(s, pos, id_forms(names, ctx)),
        all_have_ids(names, ctx),
    ensures
        annotations_at(s, pos, pos + id_forms(names, ctx).len(), ctx) == Ok::<
            Seq<Seq<char>>,
            IonParserError,
        >(names),
        names.len() > 0 ==> id_forms(names, ctx).len() >= 1,
    decreases names.len(),
{
    if names.len() == 0 {
        assert(names =~= Seq::<Seq<char>>::empty());
    } else {
        let id = symbol_id(ctx, names[0]);
        assert(has_id(ctx, names[0]));
        assert(id <= u64::MAX && ctx.symbol(id) == Some(names[0]));
        let first = varuint_encoding(id);
        let rest = names.drop_first();
        lemma_stands_in_parts(s, pos, first, id_forms(rest, ctx));
        lemma_field_read_at(s, pos, pos + id_forms(names, ctx).len(), id as u64);
        assert(all_have_ids(rest, ctx)) by {
            assert forall|i: int| 0 <= i < rest.len() implies has_id(ctx, #[trigger] rest[i]) by {
                assert(rest[i] == names[i + 1]);
            }
        }
        lemma_annotations_read_at(s, pos + first.len(), rest, ctx);
        assert(seq![names[0]] + rest =~= names);
    }
}

/// The payload of a value that holds no other value is read as that value.
pub proof fn lemma_scalar_read_at(
    s: Seq<u8>,
    start: int,
    value: IonValueView,
    ctx: SymbolContextView,
    depth: nat,
)
    requires
        stands_at(s, start, payload_bytes(value, ctx)),
        is_decodable(value, ctx, depth),
        value is Integer || value is BigInteger || value is Float || value is Decimal
            || value is Timestamp || value is Symbol || value is String || value is Clob
            || value is Blob,
    ensures
        payload_value(
            s,
            start,
            start + payload_bytes(value, ctx).len(),
            type_of_code(type_code(value) as u8, 0),
            ctx,
            depth,
        ) == Ok::<IonValueView, IonParserError>(value),
{
    match value {
        IonValueView::Integer(i) => {
            lemma_integer_read_at(s, start, i < 0, vstd::math::abs(i as int) as nat);
        },
        IonValueView::BigInteger(negative, magnitude) => {
            lemma_integer_read_at(s, start, negative, magnitude);
        },
        IonValueView::Float(bits) => {
            lemma_float_read_at(s, start, bits);
        },
        IonValueView::Decimal(d) => {
            lemma_decimal_read_at(s, start, d);
        },
        IonValueView::Timestamp(t) => {
            lemma_timestamp_read_at(s, start, t);
        },
        IonValueView::Symbol(text) => {
            lemma_symbol_read_at(s, start, text, ctx);
        },
        IonValueView::String(text) => {
            lemma_string_read_at(s, start, text);
        },
        _ => {},
    }
}

/// The payload of an annotated value is read as the annotations and the
/// value that carries them.
pub proof fn lemma_annotation_read_at(
    s: Seq<u8>,
    start: int,
    value: IonValueView,
    ctx: SymbolContextView,
    depth: nat,
)
    requires
        value is Annotation,
        stands_at(s, start, payload_bytes(value, ctx)),
        is_decodable(value, ctx, depth + 1),
    ensures
        annotation_at(s, start, start + payload_bytes(value, ctx).len(), ctx, depth) == Ok::<
            IonValueView,
            IonParserError,
        >(value),
    decreases value, 0nat,
{
    if let IonValueView::Annotation(names, inner) = value {
        let ids = id_forms(names, ctx);
        let length = varuint_encoding(ids.len());
        let form = binary_form(*inner, ctx);
        let end = start + payload_bytes(value, ctx).len();
        lemma_stands_in_parts(s, start, length, ids + form);
        lemma_stands_in_parts(s, start + length.len(), ids, form);
        lemma_binary_form_is_not_empty(*inner, ctx);
        assert(ids.len() <= u64::MAX);
        lemma_field_read_at(s, start, end, ids.len() as u64);
        lemma_annotations_read_at(s, start + length.len(), names, ctx);
        lemma_value_read_at(s, start + length.len() + ids.len(), *inner, ctx, depth);
    }
}

/// The payload of a value, where it stands at `start`, is read as that
/// value.
pub proof fn lemma_payload_read_at(
    s: Seq<u8>,
    start: int,
    value: IonValueView,
    ctx: SymbolContextView,
    depth: nat,
)
    requires
        stands_at(s, start, payload_bytes(value, ctx)),
        is_decodable(value, ctx, depth),
        !(value is Null),
        !(value is Bool),
    ensures
        payload_value(
            s,
            start,
            start + payload_bytes(value, ctx).len(),
            type_of_code(type_code(value) as u8, 0),
            ctx,
            depth,
        ) == Ok::<IonValueView, IonParserError>(value),
    decreases value, 1nat,
{
    match value {
        IonValueView::List(items) => {
            lemma_items_read_at(s, start, items, ctx, (depth - 1) as nat);
        },
        IonValueView::SExp(items) => {
            lemma_items_read_at(s, start, items, ctx, (depth - 1) as nat);
        },
        IonValueView::Struct(fields) => {
            lemma_fields_read_at(s, start, fields, ctx, (depth - 1) as nat);
        },
        IonValueView::Annotation(_, _) => {
            lemma_annotation_read_at(s, start, value, ctx, (depth - 1) as nat);
        },
        _ => {
            lemma_scalar_read_at(s, start, value, ctx, depth);
        },
    }
}

/// The payload of a float has no or eight bytes, that of a struct not one,
/// and that of an annotated value at least three.
pub proof fn lemma_payload_length(value: IonValueView, ctx: SymbolContextView, depth: nat)
    requires
        is_decodable(value, ctx, depth),
    ensures
        value is Float ==> payload_bytes(value, ctx).len() == 0 || payload_bytes(value, ctx).len()
            == 8,
        value is Struct ==> payload_bytes(value, ctx).len() != 1,
        value is Annotation ==> payload_bytes(value, ctx).len() >= 3,
{
    match value {
        IonValueView::Float(bits) => {
            if bits != 0 {
                assert(pow(256, 8) == 0x1_0000_0000_0000_0000) by {
                    reveal_with_fuel(pow, 9);
                }
                lemma_fixed_be(bits as nat, 8);
            }
        },
        IonValueView::Struct(fields) => {
            if fields.len() > 0 {
                lemma_digits128(symbol_id(ctx, fields[0].0));
                lemma_binary_form_is_not_empty(fields[0].1, ctx);
            }
        },
        IonValueView::Annotation(names, inner) => {
            lemma_digits128(id_forms(names, ctx).len());
            lemma_digits128(symbol_id(ctx, names[0]));
            lemma_binary_form_is_not_empty(*inner, ctx);
        },
        _ => {},
    }
}

/// Parser identity: where the binary form of a value stands at a position,
/// the decoder reads that value there, with each tag as it was, and the value
/// ends with its binary form.
pub proof fn lemma_value_read_at(
    s: Seq<u8>,
    pos: int,
    value: IonValueView,
    ctx: SymbolContextView,
    depth: nat,
)
    requires
        stands_at(s, pos, binary_form(value, ctx)),
        is_decodable(value, ctx, depth),
    ensures
        value_at(s, pos, ctx, depth) == Ok::<(IonValueView, int), IonParserError>(
            (value, pos + binary_form(value, ctx).len()),
        ),
    decreases value, 2nat,
{
    let form = binary_form(value, ctx);
    lemma_binary_form_is_not_empty(value, ctx);
    assert(s[pos] == s.subrange(pos, pos + form.len())[0]);
    if value is Null {
        lemma_null_read_at(s, pos, value->Null_0, ctx, depth);
    } else if value is Bool {
        lemma_bool_read_at(s, pos, value->Bool_0, ctx, depth);
    } else {
        let payload = payload_bytes(value, ctx);
        let code = type_code(value);
        let header = header_bytes(code, payload.len());
        lemma_stands_in_parts(s, pos, header, payload);
        lemma_payload_length(value, ctx, depth);
        lemma_header_read_at(s, pos, code, payload.len(), ctx, depth);
        lemma_payload_read_at(s, pos + header.len(), value, ctx, depth);
    }
}

/// The header byte of a boolean is read as that boolean.
pub proof fn lemma_bool_read_at(s: Seq<u8>, pos: int, b: bool, ctx: SymbolContextView, depth: nat)
    requires
        0 <= pos < s.len(),
        s[pos] == (if b {
            0x11u8
        } else {
            0x10u8
        }),
    ensures
        value_at(s, pos, ctx, depth) == Ok::<(IonValueView, int), IonParserError>(
            (IonValueView::Bool(b), pos + 1),
        ),
{
    assert(header_of(s[pos]) is Ok);
}

/// The header byte of a typed null is read as that null.
pub proof fn lemma_null_read_at(
    s: Seq<u8>,
    pos: int,
    kind: NullIonValue,
    ctx: SymbolContextView,
    depth: nat,
)
    requires
        0 <= pos < s.len(),
        s[pos] == null_qualifier(kind),
    ensures
        value_at(s, pos, ctx, depth) == Ok::<(IonValueView, int), IonParserError>(
            (IonValueView::Null(kind), pos + 1),
        ),
{
    let byte = s[pos];
    assert(byte % 16 == 15);
    assert(header_of(byte) is Ok);
    assert(null_kind(header_of(byte)->Ok_0.value_type) == Some(kind));
}

/// Where the binary forms of values stand one after another, the decoder
/// reads those values.
pub proof fn lemma_items_read_at(
    s: Seq<u8>,
    pos: int,
    items: Seq<IonValueView>,
    ctx: SymbolContextView,
    depth: nat,
)
    requires
        stands_at(s, pos, binary_forms(items, ctx)),
        all_decodable(items, ctx, depth),
    ensures
        items_at(s, pos, pos + binary_forms(items, ctx).len(), ctx, depth) == Ok::<
            Seq<IonValueView>,
            IonParserError,
        >(items),
    decreases items, 3nat,
{
    if items.len() == 0 {
        assert(items =~= Seq::<IonValueView>::empty());
    } else {
        let first = binary_form(items[0], ctx);
        let rest = binary_forms(items.drop_first(), ctx);
        lemma_binary_form_is_not_empty(items[0], ctx);
        lemma_stands_in_parts(s, pos, first, rest);
        lemma_value_read_at(s, pos, items[0], ctx, depth);
        lemma_items_read_at(s, pos + first.len(), items.drop_first(), ctx, depth);
        assert(seq![items[0]] + items.drop_first() =~= items);
    }
}

/// Where the binary forms of fields stand one after another, the decoder
/// reads those fields.
pub proof fn lemma_fields_read_at(
    s: Seq<u8>,
    pos: int,
    fields: Seq<(Seq<char>, IonValueView)>,
    ctx: SymbolContextView,
    depth: nat,
)
    requires
        stands_at(s, pos, field_forms(fields, ctx)),
        all_fields_decodable(fields, ctx, depth),
    ensures
        fields_at(s, pos, pos + field_forms(fields, ctx).len(), ctx, depth) == Ok::<
            Seq<(Seq<char>, IonValueView)>,
            IonParserError,
        >(fields),
    decreases fields, 3nat,
{
    if fields.len() == 0 {
        assert(fields =~= Seq::<(Seq<char>, IonValueView)>::empty());
    } else {
        let id = symbol_id(ctx, fields[0].0);
        assert(id <= u64::MAX && ctx.symbol(id) == Some(fields[0].0));
        let name = varuint_encoding(id);
        let form = binary_form(fields[0].1, ctx);
        let rest = field_forms(fields.drop_first(), ctx);
        lemma_binary_form_is_not_empty(fields[0].1, ctx);
        lemma_stands_in_parts(s, pos, name, form + rest);
        lemma_stands_in_parts(s, pos + name.len(), form, rest);
        lemma_field_read_at(s, pos, pos + field_forms(fields, ctx).len(), id as u64);
        lemma_value_read_at(s, pos + name.len(), fields[0].1, ctx, depth);
        lemma_fields_read_at(s, pos + name.len() + form.len(), fields.drop_first(), ctx, depth);
        assert(seq![fields[0]] + fields.drop_first() =~= fields);
    }
}

/// The binary form of a value does not start like a version marker.
pub proof fn lemma_first_byte(value: IonValueView, ctx: SymbolContextView, depth: nat)
    requires
        is_decodable(value, ctx, depth),
    ensures
        binary_form(value, ctx).len() >= 1,
        binary_form(value, ctx)[0] != 0xE0,
{
    lemma_payload_length(value, ctx, depth);
    if !(value is Null) && !(value is Bool) {
        let length = payload_bytes(value, ctx).len();
        let header = header_bytes(type_code(value), length);
        assert(binary_form(value, ctx)[0] == header[0]);
    }
}

/// Parser identity for a stream: where the binary form of a value that the
/// decoder can read back stands at the top level, and the value is no local
/// symbol table, the next value of the stream is that value, in the same
/// context, and it ends with its binary form.
pub proof fn lemma_next_value_read_at(
    s: Seq<u8>,
    pos: int,
    value: IonValueView,
    ctx: SymbolContextView,
)
    requires
        stands_at(s, pos, binary_form(value, ctx)),
        is_decodable(value, ctx, MAX_DEPTH as nat),
        !is_local_symbol_table(value),
    ensures
        next_value(s, pos, ctx) == Ok::<(IonValueView, int, SymbolContextView), IonParserError>(
            (value, pos + binary_form(value, ctx).len(), ctx),
        ),
{
    reveal(top_level_at);
    let form = binary_form(value, ctx);
    lemma_first_byte(value, ctx, MAX_DEPTH as nat);
    assert(s[pos] == s.subrange(pos, pos + form.len())[0]);
    assert(markers_end(s, pos) == Ok::<int, ParsingError>(pos));
    lemma_value_read_at(s, pos, value, ctx, MAX_DEPTH as nat);
}

/// The version marker of Ion 1.0.
pub open spec fn version_marker() -> Seq<u8> {
    seq![0xE0u8, 0x01u8, 0x00u8, 0xEAu8]
}

/// Parser identity for a stream that starts with a version marker: where the
/// marker stands at `pos` and behind it the binary form of a value in the
/// context of the system symbols, the next value of the stream is that value,
/// whatever the context was before the marker.
pub proof fn lemma_marked_value_read_at(
    s: Seq<u8>,
    pos: int,
    value: IonValueView,
    ctx: SymbolContextView,
)
    requires
        stands_at(s, pos, version_marker() + binary_form(value, ctx.reset())),
        is_decodable(value, ctx.reset(), MAX_DEPTH as nat),
        !is_local_symbol_table(value),
    ensures
        next_value(s, pos, ctx) == Ok::<(IonValueView, int, SymbolContextView), IonParserError>(
            (value, pos + 4 + binary_form(value, ctx.reset()).len(), ctx.reset()),
        ),
{
    reveal(top_level_at);
    let system = ctx.reset();
    let form = binary_form(value, system);
    lemma_stands_in_parts(s, pos, version_marker(), form);
    lemma_first_byte(value, system, MAX_DEPTH as nat);
    let marker = s.subrange(pos, pos + 4);
    assert(marker == version_marker());
    assert(s[pos] == marker[0] && s[pos + 1] == marker[1] && s[pos + 2] == marker[2] && s[pos + 3]
        == marker[3]);
    assert(s[pos + 4] == s.subrange(pos + 4, pos + 4 + form.len())[0]);
    assert(markers_end(s, pos + 4) == Ok::<int, ParsingError>(pos + 4));
    assert(markers_end(s, pos) == Ok::<int, ParsingError>(pos + 4));
    lemma_value_read_at(s, pos + 4, value, system, MAX_DEPTH as nat);
}

} // verus!

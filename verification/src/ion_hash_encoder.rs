//! The canonical serialization of Ion values that the Ion Hash is taken of.

use crate::binary_encoder::{
    encode_int, encode_varint, encode_varint_parts, encode_varuint, int_encoding, varint_encoding,
    varuint_encoding,
};
use crate::hasher::Hasher;
use crate::ion_hash::{
    bytes_precede, lemma_precedes_asymmetric, lemma_precedes_connected,
    lemma_precedes_irreflexive, lemma_precedes_transitive, precedes,
};
use crate::ion_parser_types::{
    field_views, texts, views, Decimal, DecimalView, IonValue, IonValueView, NullIonValue,
    Timestamp, TimestampView,
};
use crate::numbers::{be_bytes, BigUint};
use vstd::slice::slice_to_vec;
use vstd::multiset::Multiset;
use vstd::prelude::*;
use vstd::relations::{sorted_by, total_ordering};
use vstd::seq_lib::{
    lemma_sorted_unique, to_multiset_build, to_multiset_contains, to_multiset_insert,
    to_multiset_len, to_multiset_remove,
};
use vstd::utf8::encode_utf8;

verus! {

/// Opens a value or a digest inside a serialization.
pub const BEGIN_MARKER: u8 = 0x0B;

/// Closes a value or a digest inside a serialization.
pub const END_MARKER: u8 = 0x0E;

/// Stands before a byte that would else read as a marker.
pub const ESCAPE_BYTE: u8 = 0x0C;

/// Whether a byte has to be escaped.
pub open spec fn is_marker(b: u8) -> bool {
    b == BEGIN_MARKER || b == END_MARKER || b == ESCAPE_BYTE
}

/// The bytes with an escape byte before each one that equals a marker or the
/// escape byte.
pub open spec fn escaped(bytes: Seq<u8>) -> Seq<u8>
    decreases bytes.len(),
{
    if bytes.len() == 0 {
        Seq::empty()
    } else if is_marker(bytes.last()) {
        escaped(bytes.drop_last()).push(ESCAPE_BYTE).push(bytes.last())
    } else {
        escaped(bytes.drop_last()).push(bytes.last())
    }
}

/// The type and qualifier byte of a typed null.
pub open spec fn null_qualifier(kind: NullIonValue) -> u8 {
    match kind {
        NullIonValue::Null => 0x0F,
        NullIonValue::Bool => 0x1F,
        NullIonValue::Integer => 0x2F,
        NullIonValue::Float => 0x4F,
        NullIonValue::Decimal => 0x5F,
        NullIonValue::Timestamp => 0x6F,
        NullIonValue::Symbol => 0x7F,
        NullIonValue::String => 0x8F,
        NullIonValue::Clob => 0x9F,
        NullIonValue::Blob => 0xAF,
        NullIonValue::List => 0xBF,
        NullIonValue::SExp => 0xCF,
        NullIonValue::Struct => 0xDF,
    }
}

/// The type and qualifier byte of a value: the type code in the high nibble;
/// in the low one 15 for a null, 1 for the boolean true, and else 0. A
/// negative integer has the type code 3.
pub open spec fn type_qualifier(value: IonValueView) -> u8 {
    match value {
        IonValueView::Null(kind) => null_qualifier(kind),
        IonValueView::Bool(b) => if b {
            0x11
        } else {
            0x10
        },
        IonValueView::Integer(i) => if i < 0 {
            0x30
        } else {
            0x20
        },
        IonValueView::BigInteger(negative, _) => if negative {
            0x30
        } else {
            0x20
        },
        IonValueView::Float(_) => 0x40,
        IonValueView::Decimal(_) => 0x50,
        IonValueView::Timestamp(_) => 0x60,
        IonValueView::Symbol(_) => 0x70,
        IonValueView::String(_) => 0x80,
        IonValueView::Clob(_) => 0x90,
        IonValueView::Blob(_) => 0xA0,
        IonValueView::List(_) => 0xB0,
        IonValueView::SExp(_) => 0xC0,
        IonValueView::Struct(_) => 0xD0,
        IonValueView::Annotation(_, _) => 0xE0,
    }
}

/// The big-endian bytes of a number in a field of `width` bytes.
pub open spec fn fixed_be(n: nat, width: nat) -> Seq<u8>
    decreases width,
{
    if width == 0 {
        Seq::empty()
    } else {
        fixed_be(n / 256, (width - 1) as nat).push((n % 256) as u8)
    }
}

/// The VarInt of an integer.
pub open spec fn varint_of(i: int) -> Seq<u8> {
    varint_encoding(i < 0, vstd::math::abs(i) as nat)
}

/// The binary representation of a decimal: exponent and coefficient; nothing
/// for `0d0`.
pub open spec fn decimal_representation(d: DecimalView) -> Seq<u8> {
    if !d.negative && d.magnitude == 0 && d.exponent == 0 {
        Seq::empty()
    } else {
        varint_of(d.exponent as int) + int_encoding(d.negative, d.magnitude)
    }
}

/// The binary representation of a timestamp: the offset, where negative zero
/// stands for an unknown one, the year, and the further fields as far as they
/// are there one after another.
pub open spec fn timestamp_representation(t: TimestampView) -> Seq<u8> {
    let offset = match t.offset {
        None => varint_encoding(true, 0),
        Some(minutes) => varint_of(minutes as int),
    };
    let year = offset + varuint_encoding(t.year as nat);
    if t.month is None {
        year
    } else {
        let month = year + varuint_encoding(t.month->0 as nat);
        if t.day is None {
            month
        } else {
            let day = month + varuint_encoding(t.day->0 as nat);
            if t.time is None {
                day
            } else {
                let (hour, minute) = t.time->0;
                let time = day + varuint_encoding(hour as nat) + varuint_encoding(minute as nat);
                if t.second is None {
                    time
                } else {
                    let second = time + varuint_encoding(t.second->0 as nat);
                    if t.fraction is None {
                        second
                    } else {
                        second + varint_of(t.fraction->0.exponent as int) + int_encoding(
                            t.fraction->0.negative,
                            t.fraction->0.magnitude,
                        )
                    }
                }
            }
        }
    }
}

/// The binary representation of a value that holds no other value: what
/// follows the header in the binary format, with an integer's magnitude and a
/// float's eight bytes at their shortest, a symbol as its text.
pub open spec fn representation(value: IonValueView) -> Seq<u8> {
    match value {
        IonValueView::Integer(i) => be_bytes(vstd::math::abs(i as int) as nat),
        IonValueView::BigInteger(_, magnitude) => be_bytes(magnitude),
        IonValueView::Float(bits) => if bits == 0 {
            Seq::empty()
        } else {
            fixed_be(bits as nat, 8)
        },
        IonValueView::Decimal(d) => decimal_representation(d),
        IonValueView::Timestamp(t) => timestamp_representation(t),
        IonValueView::Symbol(text) => encode_utf8(text),
        IonValueView::String(text) => encode_utf8(text),
        IonValueView::Clob(bytes) => bytes,
        IonValueView::Blob(bytes) => bytes,
        _ => Seq::empty(),
    }
}

/// A digest between the two markers, with its bytes escaped.
pub open spec fn framed(digest: Seq<u8>) -> Seq<u8> {
    seq![BEGIN_MARKER] + escaped(digest) + seq![END_MARKER]
}

/// The digests, each between the two markers, one after another.
pub open spec fn framed_all(digests: Seq<Seq<u8>>) -> Seq<u8>
    decreases digests.len(),
{
    if digests.len() == 0 {
        Seq::empty()
    } else {
        framed_all(digests.drop_last()) + framed(digests.last())
    }
}

/// The order in which the digests of two fields come: by the digest of the
/// name, and for the same name by the digest of the value, both in the
/// reverse-lexicographic signed-byte order.
pub open spec fn field_leq(a: (Seq<u8>, Seq<u8>), b: (Seq<u8>, Seq<u8>)) -> bool {
    precedes(a.0, b.0) || (a.0 == b.0 && (a.1 == b.1 || precedes(a.1, b.1)))
}

/// `field_leq` as a relation.
pub open spec fn field_order() -> spec_fn((Seq<u8>, Seq<u8>), (Seq<u8>, Seq<u8>)) -> bool {
    |a: (Seq<u8>, Seq<u8>), b: (Seq<u8>, Seq<u8>)| field_leq(a, b)
}

/// The digests of the fields as one list: name, value, name, value.
pub open spec fn flattened(pairs: Seq<(Seq<u8>, Seq<u8>)>) -> Seq<Seq<u8>>
    decreases pairs.len(),
{
    if pairs.len() == 0 {
        Seq::empty()
    } else {
        flattened(pairs.drop_last()).push(pairs.last().0).push(pairs.last().1)
    }
}

/// The Ion Hash of a value over the primitive `D`: the digest of its
/// serialization.
pub open spec fn ion_hash_of<D: Hasher>(value: IonValueView) -> Seq<u8>
    decreases value, 5nat,
{
    D::spec_digest(serialized::<D>(value))
}

/// The Ion Hashes of the values of a list.
pub open spec fn ion_hashes_of<D: Hasher>(items: Seq<IonValueView>) -> Seq<Seq<u8>>
    decreases items, 2nat,
{
    Seq::new(
        items.len(),
        |i: int|
            if 0 <= i < items.len() {
                ion_hash_of::<D>(items[i])
            } else {
                Seq::empty()
            },
    )
}

/// For each field the Ion Hash of its name, taken as a symbol, and the Ion
/// Hash of its value.
pub open spec fn field_hashes<D: Hasher>(fields: Seq<(Seq<char>, IonValueView)>) -> Seq<
    (Seq<u8>, Seq<u8>),
>
    decreases fields, 2nat,
{
    Seq::new(
        fields.len(),
        |i: int|
            if 0 <= i < fields.len() {
                (symbol_hash::<D>(fields[i].0), ion_hash_of::<D>(fields[i].1))
            } else {
                (Seq::empty(), Seq::empty())
            },
    )
}

/// The Ion Hash of a text taken as a symbol.
pub open spec fn symbol_hash<D: Hasher>(text: Seq<char>) -> Seq<u8> {
    D::spec_digest(seq![0x70u8] + escaped(encode_utf8(text)))
}

/// The Ion Hashes of texts taken as symbols.
pub open spec fn symbol_hashes<D: Hasher>(names: Seq<Seq<char>>) -> Seq<Seq<u8>> {
    Seq::new(names.len(), |i: int| symbol_hash::<D>(names[i]))
}

/// The digests that stand inside the serialization of a value that holds
/// other values: of a list or an S-expression those of its values in their
/// order; of a struct those of its fields, sorted by `field_leq`; of an
/// annotation those of its annotations in their order and then that of the
/// value it wraps.
pub open spec fn child_hashes<D: Hasher>(value: IonValueView) -> Seq<Seq<u8>>
    decreases value, 3nat,
{
    match value {
        IonValueView::List(items) => ion_hashes_of::<D>(items),
        IonValueView::SExp(items) => ion_hashes_of::<D>(items),
        IonValueView::Struct(fields) => flattened(
            field_hashes::<D>(fields).sort_by(field_order()),
        ),
        IonValueView::Annotation(names, inner) => symbol_hashes::<D>(names).push(
            ion_hash_of::<D>(*inner),
        ),
        _ => Seq::empty(),
    }
}

/// Whether a value holds other values.
pub open spec fn is_container(value: IonValueView) -> bool {
    value is List || value is SExp || value is Struct || value is Annotation
}

/// The canonical serialization of a value. A value that holds no other value
/// is its type and qualifier byte and its escaped binary representation. A
/// value that holds other values is, between the two markers, its type and
/// qualifier byte and the digests of what it holds, each between the two
/// markers.
pub open spec fn serialized<D: Hasher>(value: IonValueView) -> Seq<u8>
    decreases value, 4nat,
{
    if is_container(value) {
        seq![BEGIN_MARKER, type_qualifier(value)] + framed_all(child_hashes::<D>(value)) + seq![
            END_MARKER,
        ]
    } else {
        seq![type_qualifier(value)] + escaped(representation(value))
    }
}

/// The order of the fields' digests is a total order.
pub proof fn lemma_field_order_total()
    ensures
        total_ordering(field_order()),
{
    let r = field_order();
    assert forall|x: (Seq<u8>, Seq<u8>)| #[trigger] r(x, x) by {}
    assert forall|x: (Seq<u8>, Seq<u8>), y: (Seq<u8>, Seq<u8>)| #[trigger]
        r(x, y) && #[trigger] r(y, x) implies x == y by {
        if precedes(x.0, y.0) {
            lemma_precedes_asymmetric(x.0, y.0);
            lemma_precedes_irreflexive(x.0);
        }
        if precedes(y.0, x.0) {
            lemma_precedes_irreflexive(x.0);
        }
        if precedes(x.1, y.1) {
            lemma_precedes_asymmetric(x.1, y.1);
            lemma_precedes_irreflexive(x.1);
        }
    }
    assert forall|x: (Seq<u8>, Seq<u8>), y: (Seq<u8>, Seq<u8>), z: (Seq<u8>, Seq<u8>)| #[trigger]
        r(x, y) && #[trigger] r(y, z) implies r(x, z) by {
        if precedes(x.0, y.0) && precedes(y.0, z.0) {
            lemma_precedes_transitive(x.0, y.0, z.0);
        }
        if precedes(x.1, y.1) && precedes(y.1, z.1) {
            lemma_precedes_transitive(x.1, y.1, z.1);
        }
    }
    assert forall|x: (Seq<u8>, Seq<u8>), y: (Seq<u8>, Seq<u8>)| #[trigger] r(x, y) || #[trigger] r(
        y,
        x,
    ) by {
        if !precedes(x.0, y.0) && !precedes(y.0, x.0) {
            lemma_precedes_connected(x.0, y.0);
            if !precedes(x.1, y.1) && !precedes(y.1, x.1) {
                lemma_precedes_connected(x.1, y.1);
            }
        }
    }
}

/// Fields in another order have the same digests in another order.
pub proof fn lemma_field_hashes_reordered<D: Hasher>(
    a: Seq<(Seq<char>, IonValueView)>,
    b: Seq<(Seq<char>, IonValueView)>,
)
    requires
        a.to_multiset() == b.to_multiset(),
    ensures
        field_hashes::<D>(a).to_multiset() == field_hashes::<D>(b).to_multiset(),
    decreases a.len(),
{
    to_multiset_len(a);
    to_multiset_len(b);
    if a.len() == 0 {
        assert(field_hashes::<D>(a) =~= field_hashes::<D>(b));
    } else {
        let x = a.last();
        let head = a.drop_last();
        assert(a =~= head.push(x));
        to_multiset_build(head, x);
        to_multiset_contains(b, x);
        assert(a.to_multiset().count(x) > 0);
        let k = choose|k: int| 0 <= k < b.len() && b[k] == x;
        let rest = b.remove(k);
        to_multiset_remove(b, k);
        assert(head.to_multiset() =~= a.to_multiset().remove(x));
        lemma_field_hashes_reordered::<D>(head, rest);
        let hx = (symbol_hash::<D>(x.0), ion_hash_of::<D>(x.1));
        assert(field_hashes::<D>(a) =~= field_hashes::<D>(head).push(hx));
        assert(field_hashes::<D>(b) =~= field_hashes::<D>(rest).insert(k, hx));
        to_multiset_build(field_hashes::<D>(head), hx);
        to_multiset_insert(field_hashes::<D>(rest), k, hx);
    }
}

/// Order-independence of struct fields: two structs whose fields are the
/// same but for their order have the same serialization, and so the same Ion
/// Hash.
pub proof fn lemma_struct_order_independent<D: Hasher>(
    a: Seq<(Seq<char>, IonValueView)>,
    b: Seq<(Seq<char>, IonValueView)>,
)
    requires
        a.to_multiset() == b.to_multiset(),
    ensures
        serialized::<D>(IonValueView::Struct(a)) == serialized::<D>(IonValueView::Struct(b)),
        ion_hash_of::<D>(IonValueView::Struct(a)) == ion_hash_of::<D>(IonValueView::Struct(b)),
{
    lemma_field_hashes_reordered::<D>(a, b);
    lemma_field_order_total();
    let ha = field_hashes::<D>(a);
    let hb = field_hashes::<D>(b);
    ha.lemma_sort_by_ensures(field_order());
    hb.lemma_sort_by_ensures(field_order());
    lemma_sorted_unique(ha.sort_by(field_order()), hb.sort_by(field_order()), field_order());
}

/// Escapes the markers among the bytes.
pub fn escape(bytes: &[u8]) -> (out: Vec<u8>)
    ensures
        out@ == escaped(bytes@),
{
    let mut out: Vec<u8> = Vec::new();
    let mut i: usize = 0;
    assert(bytes@.take(0) =~= Seq::<u8>::empty());
    while i < bytes.len()
        invariant
            i <= bytes.len(),
            out@ == escaped(bytes@.take(i as int)),
        decreases bytes.len() - i,
    {
        let b: u8 = bytes[i];
        proof {
            let next = bytes@.take(i + 1);
            assert(next.drop_last() =~= bytes@.take(i as int));
            assert(next.last() == b);
        }
        if b == BEGIN_MARKER || b == END_MARKER || b == ESCAPE_BYTE {
            out.push(ESCAPE_BYTE);
        }
        out.push(b);
        i += 1;
    }
    assert(bytes@.take(bytes.len() as int) =~= bytes@);
    out
}

/// Appends a digest between the two markers.
fn push_framed(out: &mut Vec<u8>, digest: &[u8])
    ensures
        final(out)@ == old(out)@ + framed(digest@),
{
    out.push(BEGIN_MARKER);
    let mut body = escape(digest);
    out.append(&mut body);
    out.push(END_MARKER);
    assert(out@ =~= old(out)@ + framed(digest@));
}

/// The eight big-endian bytes of a number.
fn eight_bytes(value: u64) -> (out: Vec<u8>)
    ensures
        out@ == fixed_be(value as nat, 8),
{
    let mut out: Vec<u8> = Vec::new();
    let mut rest: u64 = value;
    let mut width: usize = 8;
    assert(fixed_be(rest as nat, 8) + out@ =~= fixed_be(value as nat, 8));
    while width > 0
        invariant
            width <= 8,
            fixed_be(value as nat, 8) == fixed_be(rest as nat, width as nat) + out@,
        decreases width,
    {
        let ghost before = out@;
        out.insert(0, (rest % 256) as u8);
        proof {
            let high = fixed_be((rest / 256) as nat, (width - 1) as nat);
            assert(fixed_be(rest as nat, width as nat) == high.push((rest % 256) as u8));
            assert(high.push((rest % 256) as u8) + before =~= high + out@);
        }
        rest = rest / 256;
        width = width - 1;
    }
    assert(fixed_be(rest as nat, 0) + out@ =~= out@);
    out
}

/// The type and qualifier byte of a value.
pub fn type_qualifier_of(value: &IonValue) -> (r: u8)
    ensures
        r == type_qualifier(value@),
{
    match value {
        IonValue::Null(kind) => match kind {
            NullIonValue::Null => 0x0F,
            NullIonValue::Bool => 0x1F,
            NullIonValue::Integer => 0x2F,
            NullIonValue::Float => 0x4F,
            NullIonValue::Decimal => 0x5F,
            NullIonValue::Timestamp => 0x6F,
            NullIonValue::Symbol => 0x7F,
            NullIonValue::String => 0x8F,
            NullIonValue::Clob => 0x9F,
            NullIonValue::Blob => 0xAF,
            NullIonValue::List => 0xBF,
            NullIonValue::SExp => 0xCF,
            NullIonValue::Struct => 0xDF,
        },
        IonValue::Bool(b) => if *b {
            0x11
        } else {
            0x10
        },
        IonValue::Integer(i) => if *i < 0 {
            0x30
        } else {
            0x20
        },
        IonValue::BigInteger(i) => if i.negative {
            0x30
        } else {
            0x20
        },
        IonValue::Float(_) => 0x40,
        IonValue::Decimal(_) => 0x50,
        IonValue::Timestamp(_) => 0x60,
        IonValue::Symbol(_) => 0x70,
        IonValue::String(_) => 0x80,
        IonValue::Clob(_) => 0x90,
        IonValue::Blob(_) => 0xA0,
        IonValue::List(_) => 0xB0,
        IonValue::SExp(_) => 0xC0,
        IonValue::Struct(_) => 0xD0,
        IonValue::Annotation(_, _) => 0xE0,
    }
}

/// The UTF-8 bytes of a text.
fn text_bytes(text: &String) -> (out: Vec<u8>)
    ensures
        out@ == encode_utf8(text@),
{
    slice_to_vec(text.as_str().as_bytes())
}

/// Appends the exponent and the coefficient of a decimal.
fn push_decimal_fields(out: &mut Vec<u8>, d: &Decimal)
    ensures
        final(out)@ == old(out)@ + varint_of(d.exponent as int) + int_encoding(
            d.coefficient.negative,
            d.coefficient.magnitude@,
        ),
{
    let mut exponent = encode_varint(d.exponent as i64);
    let mut coefficient = encode_int(&d.coefficient);
    out.append(&mut exponent);
    out.append(&mut coefficient);
}

/// The binary representation of a decimal.
fn encode_decimal(d: &Decimal) -> (out: Vec<u8>)
    ensures
        out@ == decimal_representation(d@),
{
    let mut out: Vec<u8> = Vec::new();
    if !d.coefficient.negative && d.exponent == 0 && d.coefficient.magnitude.is_zero() {
        return out;
    }
    push_decimal_fields(&mut out, d);
    assert(out@ =~= varint_of(d.exponent as int) + int_encoding(
        d.coefficient.negative,
        d.coefficient.magnitude@,
    ));
    out
}

/// The binary representation of a timestamp.
fn encode_timestamp(t: &Timestamp) -> (out: Vec<u8>)
    ensures
        out@ == timestamp_representation(t@),
{
    let mut out: Vec<u8> = match t.offset {
        None => encode_varint_parts(true, 0),
        Some(minutes) => encode_varint(minutes),
    };
    let mut year = encode_varuint(t.year);
    out.append(&mut year);
    let month = match t.month {
        None => {
            return out;
        },
        Some(month) => month,
    };
    let mut field = encode_varuint(month);
    out.append(&mut field);
    let day = match t.day {
        None => {
            return out;
        },
        Some(day) => day,
    };
    let mut field = encode_varuint(day);
    out.append(&mut field);
    let (hour, minute) = match t.time {
        None => {
            return out;
        },
        Some(time) => time,
    };
    let mut field = encode_varuint(hour);
    out.append(&mut field);
    let mut field = encode_varuint(minute);
    out.append(&mut field);
    let second = match t.second {
        None => {
            return out;
        },
        Some(second) => second,
    };
    let mut field = encode_varuint(second);
    out.append(&mut field);
    match &t.fraction {
        None => out,
        Some(fraction) => {
            push_decimal_fields(&mut out, fraction);
            out
        },
    }
}

/// The binary representation of a value that holds no other value.
fn encode_representation(value: &IonValue) -> (out: Vec<u8>)
    ensures
        out@ == representation(value@),
{
    match value {
        IonValue::Integer(i) => {
            let magnitude: u64 = if *i == i64::MIN {
                0x8000_0000_0000_0000
            } else if *i < 0 {
                (-*i) as u64
            } else {
                *i as u64
            };
            BigUint::from_u64(magnitude).to_be_bytes()
        },
        IonValue::BigInteger(i) => i.magnitude.to_be_bytes(),
        IonValue::Float(bits) => if *bits == 0 {
            Vec::new()
        } else {
            eight_bytes(*bits)
        },
        IonValue::Decimal(d) => encode_decimal(d),
        IonValue::Timestamp(t) => encode_timestamp(t),
        IonValue::Symbol(text) => text_bytes(text),
        IonValue::String(text) => text_bytes(text),
        IonValue::Clob(bytes) => bytes.clone(),
        IonValue::Blob(bytes) => bytes.clone(),
        _ => Vec::new(),
    }
}

/// The Ion Hash of a text taken as a symbol.
fn hash_symbol<D: Hasher>(text: &String) -> (out: Vec<u8>)
    ensures
        out@ == symbol_hash::<D>(text@),
{
    let mut buffer: Vec<u8> = Vec::new();
    buffer.push(0x70);
    let bytes = text_bytes(text);
    let mut body = escape(bytes.as_slice());
    buffer.append(&mut body);
    assert(buffer@ =~= seq![0x70u8] + escaped(encode_utf8(text@)));
    D::digest(buffer.as_slice())
}

/// The digests of a list of fields, as they are held while they are sorted.
pub open spec fn pair_views(pairs: Seq<(Vec<u8>, Vec<u8>)>) -> Seq<(Seq<u8>, Seq<u8>)> {
    Seq::new(pairs.len(), |i: int| (pairs[i].0@, pairs[i].1@))
}

/// Decides the order of the digests of two fields.
fn field_hash_leq(a: &(Vec<u8>, Vec<u8>), b: &(Vec<u8>, Vec<u8>)) -> (r: bool)
    ensures
        r == field_leq((a.0@, a.1@), (b.0@, b.1@)),
{
    if bytes_precede(a.0.as_slice(), b.0.as_slice()) {
        true
    } else if bytes_precede(b.0.as_slice(), a.0.as_slice()) {
        proof {
            lemma_precedes_irreflexive(a.0@);
        }
        false
    } else {
        proof {
            lemma_precedes_connected(a.0@, b.0@);
            lemma_precedes_irreflexive(a.1@);
            if precedes(a.1@, b.1@) {
                lemma_precedes_asymmetric(a.1@, b.1@);
            }
            if !precedes(b.1@, a.1@) && !precedes(a.1@, b.1@) {
                lemma_precedes_connected(a.1@, b.1@);
            }
        }
        !bytes_precede(b.1.as_slice(), a.1.as_slice())
    }
}

/// Sorts the digests of the fields of a struct.
fn sort_field_hashes(pairs: Vec<(Vec<u8>, Vec<u8>)>) -> (sorted: Vec<(Vec<u8>, Vec<u8>)>)
    ensures
        pair_views(sorted@) == pair_views(pairs@).sort_by(field_order()),
{
    let ghost unsorted = pair_views(pairs@);
    let mut rest = pairs;
    let mut sorted: Vec<(Vec<u8>, Vec<u8>)> = Vec::new();
    proof {
        lemma_field_order_total();
        assert(pair_views(sorted@).to_multiset().add(pair_views(rest@).to_multiset())
            =~= unsorted.to_multiset()) by {
            broadcast use vstd::multiset::group_multiset_axioms;

            assert(pair_views(sorted@) =~= Seq::empty());
            assert(pair_views(sorted@).to_multiset() =~= Multiset::empty()) by {
                pair_views(sorted@).to_multiset_ensures();
            }
        }
    }
    while rest.len() > 0
        invariant
            total_ordering(field_order()),
            sorted_by(pair_views(sorted@), field_order()),
            pair_views(sorted@).to_multiset().add(pair_views(rest@).to_multiset())
                == unsorted.to_multiset(),
        decreases rest.len(),
    {
        let ghost rest_before = pair_views(rest@);
        let ghost sorted_before = pair_views(sorted@);
        let x = rest.pop().unwrap();
        let ghost xv = (x.0@, x.1@);
        let mut j: usize = 0;
        while j < sorted.len() && field_hash_leq(&sorted[j], &x)
            invariant
                j <= sorted.len(),
                sorted_before == pair_views(sorted@),
                xv == (x.0@, x.1@),
                forall|k: int| 0 <= k < j ==> #[trigger] field_leq(sorted_before[k], xv),
            decreases sorted.len() - j,
        {
            j += 1;
        }
        sorted.insert(j, x);
        proof {
            let r = field_order();
            let after = pair_views(sorted@);
            assert(after =~= sorted_before.insert(j as int, xv));
            assert(rest_before =~= pair_views(rest@).push(xv));
            to_multiset_build(pair_views(rest@), xv);
            to_multiset_insert(sorted_before, j as int, xv);
            assert(after.to_multiset().add(pair_views(rest@).to_multiset())
                =~= unsorted.to_multiset()) by {
                broadcast use vstd::multiset::group_multiset_axioms;

            }
            assert forall|a: int, b: int| 0 <= a < b < after.len() implies #[trigger] r(
                after[a],
                after[b],
            ) by {
                if b < j {
                    assert(r(sorted_before[a], sorted_before[b]));
                } else if b == j {
                    assert(field_leq(sorted_before[a], xv));
                } else if a < j {
                    assert(r(sorted_before[a], sorted_before[b - 1]));
                } else if a == j {
                    assert(r(sorted_before[j as int], xv) || r(xv, sorted_before[j as int]));
                    assert(!field_leq(sorted_before[j as int], xv));
                    if b - 1 > j {
                        assert(r(sorted_before[j as int], sorted_before[b - 1]));
                        assert(r(xv, sorted_before[j as int]) && r(
                            sorted_before[j as int],
                            sorted_before[b - 1],
                        ) ==> r(xv, sorted_before[b - 1]));
                    }
                } else {
                    assert(r(sorted_before[a - 1], sorted_before[b - 1]));
                }
            }
        }
    }
    proof {
        assert(pair_views(rest@) =~= Seq::empty());
        assert(pair_views(sorted@).to_multiset() =~= unsorted.to_multiset()) by {
            broadcast use vstd::multiset::group_multiset_axioms;

            pair_views(rest@).to_multiset_ensures();
        }
        unsorted.lemma_sort_by_ensures(field_order());
        lemma_sorted_unique(pair_views(sorted@), unsorted.sort_by(field_order()), field_order());
    }
    sorted
}

/// The digests of the fields of a struct, in the order of the fields.
fn hash_fields<D: Hasher>(value: &IonValue) -> (pairs: Vec<(Vec<u8>, Vec<u8>)>)
    requires
        value is Struct,
    ensures
        pair_views(pairs@) == field_hashes::<D>(value@->Struct_0),
    decreases value, 0nat,
{
    let mut pairs: Vec<(Vec<u8>, Vec<u8>)> = Vec::new();
    if let IonValue::Struct(fields) = value {
        let ghost all = field_views(fields@);
        assert(value@->Struct_0 =~= all);
        let mut i: usize = 0;
        while i < fields.len()
            invariant
                value matches IonValue::Struct(v) && v == fields,
                all == field_views(fields@),
                i <= fields.len(),
                pairs@.len() == i,
                forall|k: int|
                    0 <= k < i ==> (#[trigger] pairs@[k]).0@ == symbol_hash::<D>(all[k].0)
                        && pairs@[k].1@ == ion_hash_of::<D>(all[k].1),
            decreases fields.len() - i,
        {
            let name_hash = hash_symbol::<D>(&fields[i].0);
            let encoding = encode_value::<D>(&fields[i].1);
            let value_hash = D::digest(encoding.as_slice());
            pairs.push((name_hash, value_hash));
            i += 1;
        }
        assert(pair_views(pairs@) =~= field_hashes::<D>(all));
    }
    pairs
}

/// Appends the framed digests of the values of a list.
fn push_item_hashes<D: Hasher>(out: &mut Vec<u8>, value: &IonValue)
    requires
        value is List || value is SExp,
    ensures
        final(out)@ == old(out)@ + framed_all(child_hashes::<D>(value@)),
    decreases value, 0nat,
{
    let items = match value {
        IonValue::List(items) => items,
        IonValue::SExp(items) => items,
        _ => {
            return ;
        },
    };
    let ghost hashes = child_hashes::<D>(value@);
    assert(hashes =~= ion_hashes_of::<D>(views(items@))) by {
        if value is List {
            assert(value@->List_0 =~= views(items@));
        } else {
            assert(value@->SExp_0 =~= views(items@));
        }
    }
    let mut i: usize = 0;
    assert(hashes.take(0) =~= Seq::<Seq<u8>>::empty());
    assert(out@ + framed_all(hashes.take(0)) =~= out@);
    while i < items.len()
        invariant
            (value matches IonValue::List(v) && v == items) || (value matches IonValue::SExp(v)
                && v == items),
            hashes == ion_hashes_of::<D>(views(items@)),
            i <= items.len(),
            out@ == old(out)@ + framed_all(hashes.take(i as int)),
        decreases items.len() - i,
    {
        let encoding = encode_value::<D>(&items[i]);
        let digest = D::digest(encoding.as_slice());
        proof {
            let next = hashes.take(i + 1);
            assert(next.drop_last() =~= hashes.take(i as int));
            assert(next.last() == digest@);
        }
        let ghost before = out@;
        push_framed(out, digest.as_slice());
        assert(out@ =~= old(out)@ + framed_all(hashes.take(i + 1)));
        i += 1;
    }
    assert(hashes.take(items.len() as int) =~= hashes);
}

/// Appends the framed digests of the fields of a struct, sorted.
fn push_field_hashes<D: Hasher>(out: &mut Vec<u8>, value: &IonValue)
    requires
        value is Struct,
    ensures
        final(out)@ == old(out)@ + framed_all(child_hashes::<D>(value@)),
    decreases value, 1nat,
{
    let sorted = sort_field_hashes(hash_fields::<D>(value));
    let ghost pairs = pair_views(sorted@);
    let mut i: usize = 0;
    assert(pairs.take(0) =~= Seq::<(Seq<u8>, Seq<u8>)>::empty());
    assert(out@ + framed_all(flattened(pairs.take(0))) =~= out@);
    while i < sorted.len()
        invariant
            pairs == pair_views(sorted@),
            i <= sorted.len(),
            out@ == old(out)@ + framed_all(flattened(pairs.take(i as int))),
        decreases sorted.len() - i,
    {
        proof {
            let next = pairs.take(i + 1);
            assert(next.drop_last() =~= pairs.take(i as int));
            assert(next.last() == pairs[i as int]);
            let flat = flattened(next);
            assert(flat == flattened(pairs.take(i as int)).push(next.last().0).push(next.last().1));
            assert(flat.drop_last() =~= flattened(pairs.take(i as int)).push(next.last().0));
            assert(flat.drop_last().drop_last() =~= flattened(pairs.take(i as int)));
            assert(flat.last() == sorted@[i as int].1@);
            assert(flat.drop_last().last() == sorted@[i as int].0@);
            assert(framed_all(flat) == framed_all(flat.drop_last()) + framed(flat.last()));
            assert(framed_all(flat.drop_last()) == framed_all(flat.drop_last().drop_last())
                + framed(flat.drop_last().last()));
        }
        push_framed(out, sorted[i].0.as_slice());
        push_framed(out, sorted[i].1.as_slice());
        assert(out@ =~= old(out)@ + framed_all(flattened(pairs.take(i + 1))));
        i += 1;
    }
    assert(pairs.take(sorted.len() as int) =~= pairs);
}

/// Appends the framed digests of the annotations and of the value they are on.
fn push_annotation_hashes<D: Hasher>(out: &mut Vec<u8>, value: &IonValue)
    requires
        value is Annotation,
    ensures
        final(out)@ == old(out)@ + framed_all(child_hashes::<D>(value@)),
    decreases value, 0nat,
{
    if let IonValue::Annotation(names, inner) = value {
        let ghost hashes = symbol_hashes::<D>(texts(names@));
        let mut i: usize = 0;
        assert(hashes.take(0) =~= Seq::<Seq<u8>>::empty());
        assert(out@ + framed_all(hashes.take(0)) =~= out@);
        while i < names.len()
            invariant
                hashes == symbol_hashes::<D>(texts(names@)),
                i <= names.len(),
                out@ == old(out)@ + framed_all(hashes.take(i as int)),
            decreases names.len() - i,
        {
            let digest = hash_symbol::<D>(&names[i]);
            proof {
                let next = hashes.take(i + 1);
                assert(next.drop_last() =~= hashes.take(i as int));
                assert(next.last() == digest@);
            }
            push_framed(out, digest.as_slice());
            assert(out@ =~= old(out)@ + framed_all(hashes.take(i + 1)));
            i += 1;
        }
        assert(hashes.take(names.len() as int) =~= hashes);
        let encoding = encode_value::<D>(&**inner);
        let digest = D::digest(encoding.as_slice());
        proof {
            let all = child_hashes::<D>(value@);
            assert(all == hashes.push(digest@));
            assert(all.drop_last() =~= hashes);
        }
        push_framed(out, digest.as_slice());
        assert(out@ =~= old(out)@ + framed_all(child_hashes::<D>(value@)));
    }
}

/// Serializes a value in its canonical form, over the primitive `D`.
pub fn encode_value<D: Hasher>(value: &IonValue) -> (out: Vec<u8>)
    ensures
        out@ == serialized::<D>(value@),
    decreases value, 2nat,
{
    let mut out: Vec<u8> = Vec::new();
    let qualifier = type_qualifier_of(value);
    match value {
        IonValue::List(_) | IonValue::SExp(_) => {
            out.push(BEGIN_MARKER);
            out.push(qualifier);
            push_item_hashes::<D>(&mut out, value);
            out.push(END_MARKER);
            assert(out@ =~= serialized::<D>(value@));
        },
        IonValue::Struct(_) => {
            out.push(BEGIN_MARKER);
            out.push(qualifier);
            push_field_hashes::<D>(&mut out, value);
            out.push(END_MARKER);
            assert(out@ =~= serialized::<D>(value@));
        },
        IonValue::Annotation(_, _) => {
            out.push(BEGIN_MARKER);
            out.push(qualifier);
            push_annotation_hashes::<D>(&mut out, value);
            out.push(END_MARKER);
            assert(out@ =~= serialized::<D>(value@));
        },
        _ => {
            out.push(qualifier);
            let representation = encode_representation(value);
            let mut body = escape(representation.as_slice());
            out.append(&mut body);
            assert(out@ =~= serialized::<D>(value@));
        },
    }
    out
}

} // verus!

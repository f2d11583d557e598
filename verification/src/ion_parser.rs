//! The value parser: decodes the values of an Ion binary stream one after
//! another and keeps the symbol context that the stream builds up.

use crate::binary_parser::{lemma_varuint_length, markers_end, IonBinaryParser};
use crate::binary_parser_types::{ParsingError, ValueHeader, ValueLength, ValueType};
use crate::ion_parser_types::{
    field_views, texts, views, Decimal, DecimalView, IonParserError, IonValue, IonValueView,
    NullIonValue, Timestamp, TimestampView,
};
use crate::numbers::{lemma_be_nat_bound, BigInt};
use crate::local_symbol_table::{apply_local_table, local_table_applied};
use crate::symbol_table::{SharedTable, SymbolContext, SymbolContextView};
use crate::value_format::{
    annotation_at, annotations_at, body_at, decimal_at, field_at, fields_at, float_at, integer_at,
    items_at, lemma_value_advances, lemma_value_is_covered, normalized, payload_at, payload_value,
    promoted, string_at, symbol_at, symbol_text, timestamp_at, value_at, MAX_DEPTH,
};
use vstd::arithmetic::power::*;
use vstd::arithmetic::power2::*;
use vstd::prelude::*;
use vstd::utf8::{decode_utf8, valid_utf8};

verus! {

/// Calls `String::from_utf8`, which gives the text that the bytes spell where
/// they are valid UTF-8, and an error, here `None`, exactly where they are
/// not.
#[verifier::external_body]
fn string_from_utf8(bytes: Vec<u8>) -> (r: Option<String>)
    ensures
        r is Some <==> valid_utf8(bytes@),
        r matches Some(text) ==> text@ == decode_utf8(bytes@),
{
    match String::from_utf8(bytes) {
        Ok(text) => Some(text),
        Err(_) => None,
    }
}

/// The bits of the binary64 number with the value of a binary32 number.
pub fn promote_bits(bits: u32) -> (r: u64)
    ensures
        r == promoted(bits),
{
    let sign: u64 = (bits / 0x8000_0000) as u64;
    let exponent: u64 = ((bits / 0x80_0000) % 256) as u64;
    let fraction: u64 = (bits % 0x80_0000) as u64;
    let high: u64 = sign * 0x8000_0000_0000_0000;
    if exponent == 255 {
        high + 0x7ff * 0x10_0000_0000_0000 + fraction * 0x2000_0000
    } else if exponent != 0 {
        high + (exponent + 896) * 0x10_0000_0000_0000 + fraction * 0x2000_0000
    } else if fraction == 0 {
        high
    } else {
        let mut shifted: u64 = fraction;
        let mut shifts: u64 = 0;
        proof {
            lemma2_to64();
        }
        while shifted < 0x80_0000
            invariant
                0 < shifted < 0x100_0000,
                shifted >= pow2(shifts as nat),
                shifts <= 23,
                normalized(fraction as nat, 0) == normalized(shifted as nat, shifts as nat),
            decreases 0x100_0000 - shifted,
        {
            proof {
                lemma2_to64();
                if shifts >= 23 {
                    if shifts > 23 {
                        lemma_pow2_strictly_increases(23, shifts as nat);
                    }
                }
                lemma_pow2_unfold((shifts + 1) as nat);
            }
            shifted = shifted * 2;
            shifts = shifts + 1;
        }
        high + (897 - shifts) * 0x10_0000_0000_0000 + (shifted - 0x80_0000) * 0x2000_0000
    }
}

/// Whether a value is a local symbol table: a value whose first annotation is
/// `$ion_symbol_table`.
pub open spec fn is_local_symbol_table(value: IonValueView) -> bool {
    value matches IonValueView::Annotation(names, _) && names.len() > 0 && names[0]
        == "$ion_symbol_table"@
}

/// The fields of the struct that an annotation wraps.
pub open spec fn wrapped_fields(value: IonValueView) -> Option<Seq<(Seq<char>, IonValueView)>> {
    match value {
        IonValueView::Annotation(_, inner) => match *inner {
            IonValueView::Struct(fields) => Some(fields),
            _ => None,
        },
        _ => None,
    }
}

/// What stands at the top level of a stream at `pos`, in the context `ctx`:
/// a value for the user, or nothing for the user where a local symbol table
/// stands there, which has to wrap a struct; where it ends; and the context
/// after it. Version markers before it reset the context to the system
/// symbols. Where the stream ends before a value starts, that is the end of
/// the stream.
#[verifier::opaque]
pub open spec fn top_level_at(s: Seq<u8>, pos: int, ctx: SymbolContextView) -> Result<
    (Option<IonValueView>, int, SymbolContextView),
    IonParserError,
> {
    match markers_end(s, pos) {
        Err(e) => Err(IonParserError::BinaryError(e)),
        Ok(start) => {
            let current = if start != pos {
                ctx.reset()
            } else {
                ctx
            };
            if start >= s.len() {
                Err(IonParserError::EndOfStream)
            } else {
                match value_at(s, start, current, MAX_DEPTH as nat) {
                    Err(e) => Err(e),
                    Ok((value, end)) => if !is_local_symbol_table(value) {
                        Ok((Some(value), end, current))
                    } else {
                        match wrapped_fields(value) {
                            Some(fields) => Ok((None, end, local_table_applied(current, fields))),
                            None => Err(IonParserError::LocalSymbolTableWithoutStruct),
                        }
                    },
                }
            }
        },
    }
}

/// What stands at the top level ends inside the bytes.
pub proof fn lemma_top_level_in_bounds(s: Seq<u8>, pos: int, ctx: SymbolContextView)
    ensures
        top_level_at(s, pos, ctx) matches Ok((_, end, _)) ==> end <= s.len(),
{
    reveal(top_level_at);
    if let Ok(start) = markers_end(s, pos) {
        let current = if start != pos {
            ctx.reset()
        } else {
            ctx
        };
        lemma_value_advances(s, start, current, MAX_DEPTH as nat);
    }
}

/// The next value of a stream for its user, from `pos` on and in the context
/// `ctx`: the value, where it ends, and the context in which it was decoded.
/// Local symbol tables before it are taken into the context.
pub open spec fn next_value(s: Seq<u8>, pos: int, ctx: SymbolContextView) -> Result<
    (IonValueView, int, SymbolContextView),
    IonParserError,
>
    decreases s.len() - pos,
{
    match top_level_at(s, pos, ctx) {
        Err(e) => Err(e),
        Ok((Some(value), end, context)) => Ok((value, end, context)),
        Ok((None, end, context)) => if end <= pos {
            Err(IonParserError::BadFormatLengthFound)
        } else {
            proof {
                lemma_top_level_in_bounds(s, pos, ctx);
            }
            next_value(s, end, context)
        },
    }
}

/// What an annotation wrapper whose header ends at `pos` gives its user, in
/// the context `ctx`: the annotated value, where it ends and the context; or,
/// where the wrapper is a local symbol table, which has to wrap a struct, the
/// next value of the stream behind it, in the context that the table leaves.
pub open spec fn annotated_value(
    s: Seq<u8>,
    pos: int,
    length: ValueLength,
    ctx: SymbolContextView,
) -> Result<(IonValueView, int, SymbolContextView), IonParserError> {
    match body_at(
        s,
        pos,
        ValueHeader { value_type: ValueType::Annotation, length },
        ctx,
        MAX_DEPTH as nat,
    ) {
        Err(e) => Err(e),
        Ok((value, end)) => if !is_local_symbol_table(value) {
            Ok((value, end, ctx))
        } else {
            match wrapped_fields(value) {
                None => Err(IonParserError::LocalSymbolTableWithoutStruct),
                Some(fields) => next_value(s, end, local_table_applied(ctx, fields)),
            }
        },
    }
}

/// The context behind the version markers that stand at `pos`: the system
/// symbols where there is a marker, else the context as it was.
pub open spec fn context_behind_markers(s: Seq<u8>, pos: int, ctx: SymbolContextView)
    -> SymbolContextView {
    match markers_end(s, pos) {
        Ok(start) => if start != pos {
            ctx.reset()
        } else {
            ctx
        },
        Err(_) => ctx,
    }
}

/// Where a stream is left when no next value can be handed out from `pos` on:
/// the cursor stands at the start of what could not be decoded at the top
/// level, behind the local symbol tables before it, and the context is the
/// one in which it was tried.
pub open spec fn failure_point(s: Seq<u8>, pos: int, ctx: SymbolContextView) -> (
    int,
    SymbolContextView,
)
    decreases s.len() - pos,
{
    match top_level_at(s, pos, ctx) {
        Ok((None, end, context)) => if end <= pos {
            (pos, context_behind_markers(s, pos, ctx))
        } else {
            proof {
                lemma_top_level_in_bounds(s, pos, ctx);
            }
            failure_point(s, end, context)
        },
        _ => (pos, context_behind_markers(s, pos, ctx)),
    }
}

/// Where a stream is left when an annotation wrapper whose header ends at
/// `pos` gives no value: where the wrapper is a local symbol table around a
/// struct, at the failure behind it; else behind the header, in the context
/// as it was.
pub open spec fn annotated_failure_point(
    s: Seq<u8>,
    pos: int,
    length: ValueLength,
    ctx: SymbolContextView,
) -> (int, SymbolContextView) {
    match body_at(
        s,
        pos,
        ValueHeader { value_type: ValueType::Annotation, length },
        ctx,
        MAX_DEPTH as nat,
    ) {
        Ok((value, end)) => if is_local_symbol_table(value) {
            match wrapped_fields(value) {
                Some(fields) => failure_point(s, end, local_table_applied(ctx, fields)),
                None => (pos, ctx),
            }
        } else {
            (pos, ctx)
        },
        Err(_) => (pos, ctx),
    }
}

/// The decoder covers every kind of value: the next value of a stream is never
/// reported as not covered.
pub proof fn lemma_next_value_is_covered(s: Seq<u8>, pos: int, ctx: SymbolContextView)
    ensures
        next_value(s, pos, ctx) != Err::<(IonValueView, int, SymbolContextView), IonParserError>(
            IonParserError::Unimplemented,
        ),
    decreases s.len() - pos,
{
    reveal(top_level_at);
    if let Ok(start) = markers_end(s, pos) {
        let current = if start != pos {
            ctx.reset()
        } else {
            ctx
        };
        lemma_value_is_covered(s, start, current, MAX_DEPTH as nat);
    }
    if let Ok((None, end, context)) = top_level_at(s, pos, ctx) {
        if end > pos {
            lemma_next_value_is_covered(s, end, context);
        }
    }
}

/// A parser of the values of an Ion binary stream.
#[derive(Debug)]
pub struct IonParser {
    parser: IonBinaryParser,
    context: SymbolContext,
}

impl IonParser {
    /// All the bytes of the stream.
    pub closed spec fn bytes(&self) -> Seq<u8> {
        self.parser.bytes()
    }

    /// How many bytes of the stream have been consumed.
    pub closed spec fn position(&self) -> int {
        self.parser.position()
    }

    /// The symbol context at this point of the stream.
    pub closed spec fn context(&self) -> SymbolContextView {
        self.context@
    }

    /// The cursor stands inside the bytes or at their end.
    pub proof fn lemma_position_in_bounds(&self)
        ensures
            0 <= self.position() <= self.bytes().len(),
    {
        self.parser.lemma_position_in_bounds();
    }

    /// Whether `self` is `before` with the cursor where it was or further on.
    pub open spec fn has_read_on(&self, before: &IonParser) -> bool {
        &&& self.bytes() == before.bytes()
        &&& before.position() <= self.position() <= self.bytes().len()
    }

    /// Whether `self` is `before` with the cursor moved to `to`, in the same
    /// symbol context.
    pub open spec fn is_moved(&self, before: &IonParser, to: int) -> bool {
        &&& self.bytes() == before.bytes()
        &&& self.context() == before.context()
        &&& self.position() == to
        &&& to <= self.bytes().len()
    }

    /// A parser at the start of the stream `reader`, with only the system
    /// symbols in its context.
    pub fn new(reader: Vec<u8>) -> (r: IonParser)
        ensures
            r.bytes() == reader@,
            r.position() == 0,
            r.context() == (SymbolContextView {
                shared: Seq::empty(),
                imports: Seq::empty(),
                locals: Seq::empty(),
            }),
    {
        IonParser { parser: IonBinaryParser::new(reader), context: SymbolContext::new() }
    }

    /// Makes a shared symbol table known, for the imports of later local
    /// symbol tables.
    pub fn add_shared_table(&mut self, table: SharedTable)
        ensures
            final(self).bytes() == old(self).bytes(),
            final(self).position() == old(self).position(),
            final(self).context() == old(self).context().with_shared(table@),
    {
        self.context.add_shared_table(table);
    }

    /// Skips the version markers at the cursor, resets the context where
    /// there was one, and makes sure that a value follows.
    fn consume_markers(&mut self) -> (r: Result<(), IonParserError>)
        ensures
            final(self).has_read_on(old(self)),
            r is Ok ==> markers_end(old(self).bytes(), old(self).position())
                == Ok::<int, ParsingError>(final(self).position()),
            r is Ok ==> final(self).bytes() == old(self).bytes(),
            r is Ok ==> old(self).position() <= final(self).position() < final(self).bytes().len(),
            r is Ok && final(self).position() != old(self).position() ==> final(self).context()
                == old(self).context().reset(),
            r is Ok && final(self).position() == old(self).position() ==> final(self).context()
                == old(self).context(),
            r matches Err(e) ==> top_level_at(
                old(self).bytes(),
                old(self).position(),
                old(self).context(),
            ) == Err::<(Option<IonValueView>, int, SymbolContextView), IonParserError>(e),
            final(self).context() == context_behind_markers(
                old(self).bytes(),
                old(self).position(),
                old(self).context(),
            ),
    {
        reveal(top_level_at);
        let any = match self.parser.consume_version_markers() {
            Err(e) => {
                return Err(IonParserError::BinaryError(e));
            },
            Ok(any) => any,
        };
        if any {
            self.context.reset();
        }
        if self.parser.is_exhausted() {
            return Err(IonParserError::EndOfStream);
        }
        Ok(())
    }

    /// Hands a value on for the user, or, where it is a local symbol table,
    /// takes it into the context.
    fn absorb_symbol_table(&mut self, value: IonValue) -> (r: Result<
        Option<IonValue>,
        IonParserError,
    >)
        ensures
            final(self).has_read_on(old(self)),
            final(self).bytes() == old(self).bytes(),
            final(self).position() == old(self).position(),
            !is_local_symbol_table(value@) ==> r == Ok::<Option<IonValue>, IonParserError>(
                Some(value),
            ) && final(self).context() == old(self).context(),
            is_local_symbol_table(value@) ==> match wrapped_fields(value@) {
                Some(fields) => r == Ok::<Option<IonValue>, IonParserError>(None)
                    && final(self).context() == local_table_applied(
                    old(self).context(),
                    fields,
                ),
                None => r == Err::<Option<IonValue>, IonParserError>(
                    IonParserError::LocalSymbolTableWithoutStruct,
                ) && final(self).context() == old(self).context(),
            },
    {
        proof {
            self.lemma_position_in_bounds();
        }
        if !Self::is_table(&value) {
            return Ok(Some(value));
        }
        match &value {
            IonValue::Annotation(_, inner) => match &**inner {
                IonValue::Struct(fields) => {
                    assert(inner@->Struct_0 =~= field_views(fields@));
                    apply_local_table(&mut self.context, fields);
                    Ok(None)
                },
                _ => Err(IonParserError::LocalSymbolTableWithoutStruct),
            },
            _ => Err(IonParserError::LocalSymbolTableWithoutStruct),
        }
    }

    /// Decodes what stands at the top level at the cursor: a value for the
    /// user, or a local symbol table, which it takes into the context.
    fn consume_top_level(&mut self) -> (r: Result<Option<IonValue>, IonParserError>)
        ensures
            final(self).has_read_on(old(self)),
            r matches Ok(found) ==> top_level_at(
                old(self).bytes(),
                old(self).position(),
                old(self).context(),
            ) == Ok::<(Option<IonValueView>, int, SymbolContextView), IonParserError>(
                (
                    match found {
                        Some(v) => Some(v@),
                        None => None,
                    },
                    final(self).position(),
                    final(self).context(),
                ),
            ) && old(self).position() < final(self).position() <= final(self).bytes().len()
                && final(self).bytes() == old(self).bytes(),
            r matches Err(e) ==> top_level_at(
                old(self).bytes(),
                old(self).position(),
                old(self).context(),
            ) == Err::<(Option<IonValueView>, int, SymbolContextView), IonParserError>(e),
            r is Err ==> final(self).context() == context_behind_markers(
                old(self).bytes(),
                old(self).position(),
                old(self).context(),
            ),
    {
        reveal(top_level_at);
        match self.consume_markers() {
            Err(e) => {
                return Err(e);
            },
            Ok(()) => {},
        }
        let ghost start = self.position();
        let ghost current = self.context();
        let value = match self.consume_nested_value(MAX_DEPTH) {
            Err(e) => {
                return Err(e);
            },
            Ok(value) => value,
        };
        proof {
            lemma_value_advances(self.bytes(), start, current, MAX_DEPTH as nat);
        }
        self.absorb_symbol_table(value)
    }

    /// Whether a value is a local symbol table.
    fn is_table(value: &IonValue) -> (r: bool)
        ensures
            r == is_local_symbol_table(value@),
    {
        let marker = "$ion_symbol_table".to_owned();
        match value {
            IonValue::Annotation(names, _) => {
                assert(names.len() > 0 ==> texts(names@)[0] == names@[0]@);
                names.len() > 0 && names[0] == marker
            },
            _ => false,
        }
    }

    /// Decodes the next value for the user and gives it with a copy of the
    /// symbol context in which it was decoded. Version markers and local
    /// symbol tables before it change the context and are not handed out.
    /// Where no value can be handed out, the local symbol tables before the
    /// failure stay taken in, and the cursor is left at the start of what
    /// could not be decoded.
    pub fn consume_value(&mut self) -> (r: Result<(IonValue, SymbolContext), IonParserError>)
        ensures
            final(self).has_read_on(old(self)),
            r matches Ok((value, context)) ==> next_value(
                old(self).bytes(),
                old(self).position(),
                old(self).context(),
            ) == Ok::<(IonValueView, int, SymbolContextView), IonParserError>(
                (value@, final(self).position(), context@),
            ),
            r matches Ok((_, context)) ==> final(self).context() == context@,
            r is Ok ==> old(self).position() < final(self).position() <= final(self).bytes().len(),
            r matches Err(e) ==> next_value(
                old(self).bytes(),
                old(self).position(),
                old(self).context(),
            ) == Err::<(IonValueView, int, SymbolContextView), IonParserError>(e) && e
                != IonParserError::Unimplemented,
            r is Err ==> (final(self).position(), final(self).context()) == failure_point(
                old(self).bytes(),
                old(self).position(),
                old(self).context(),
            ),
    {
        let ghost s = self.bytes();
        let ghost whole = next_value(s, self.position(), self.context());
        let ghost stop = failure_point(s, self.position(), self.context());
        proof {
            self.lemma_position_in_bounds();
        }
        proof {
            lemma_next_value_is_covered(s, self.position(), self.context());
        }
        loop
            invariant
                s == old(self).bytes(),
                self.bytes() == s,
                whole == next_value(s, old(self).position(), old(self).context()),
                whole == next_value(s, self.position(), self.context()),
                whole != Err::<(IonValueView, int, SymbolContextView), IonParserError>(
                    IonParserError::Unimplemented,
                ),
                old(self).position() <= self.position(),
                self.position() <= s.len(),
                stop == failure_point(s, old(self).position(), old(self).context()),
                stop == failure_point(s, self.position(), self.context()),
            decreases s.len() - self.position(),
        {
            let start = self.parser.consumed();
            match self.consume_top_level() {
                Err(e) => {
                    self.parser.go_back_to(start);
                    return Err(e);
                },
                Ok(Some(value)) => {
                    let snapshot = self.context.clone();
                    return Ok((value, snapshot));
                },
                Ok(None) => {},
            }
        }
    }

    /// Decodes the annotated value whose header the cursor has just passed,
    /// for the user. Only the length code of the header counts. A value with
    /// other annotations is handed out with them. A local symbol table, which
    /// has to wrap a struct, is taken into the context and not handed out: the
    /// result is then the next value for the user behind it. Where the
    /// wrapper itself gives no value, as with the null length code, the cursor
    /// is put back behind the header; where the failure comes behind a local
    /// symbol table, the cursor is left as `consume_value` leaves it.
    pub fn consume_annotation(&mut self, header: &ValueHeader) -> (r: Result<
        IonValue,
        IonParserError,
    >)
        ensures
            final(self).has_read_on(old(self)),
            r matches Ok(v) ==> annotated_value(
                old(self).bytes(),
                old(self).position(),
                header.length,
                old(self).context(),
            ) == Ok::<(IonValueView, int, SymbolContextView), IonParserError>(
                (v@, final(self).position(), final(self).context()),
            ),
            r matches Err(e) ==> annotated_value(
                old(self).bytes(),
                old(self).position(),
                header.length,
                old(self).context(),
            ) == Err::<(IonValueView, int, SymbolContextView), IonParserError>(e),
            r is Err ==> (final(self).position(), final(self).context())
                == annotated_failure_point(
                old(self).bytes(),
                old(self).position(),
                header.length,
                old(self).context(),
            ),
            header.length is NullValue ==> final(self).position() == old(self).position()
                && final(self).context() == old(self).context(),
    {
        let start = self.parser.consumed();
        let wrapper = ValueHeader { value_type: ValueType::Annotation, length: header.length };
        let value = match self.consume_body(&wrapper, MAX_DEPTH) {
            Err(e) => {
                self.parser.go_back_to(start);
                return Err(e);
            },
            Ok(value) => value,
        };
        match self.absorb_symbol_table(value) {
            Err(e) => {
                self.parser.go_back_to(start);
                Err(e)
            },
            Ok(Some(value)) => Ok(value),
            Ok(None) => match self.consume_value() {
                Err(e) => Err(e),
                Ok((value, _)) => Ok(value),
            },
        }
    }

    /// The number of bytes consumed so far. After a failure it is the offset
    /// of what could not be decoded.
    pub fn consumed(&self) -> (r: usize)
        ensures
            r == self.position(),
    {
        self.parser.consumed()
    }

    /// Reads the length of the payload where it follows the header, and gives
    /// the position at which the payload ends.
    fn consume_payload(&mut self, header: &ValueHeader) -> (r: Result<usize, IonParserError>)
        ensures
            final(self).has_read_on(old(self)),
            final(self).context() == old(self).context(),
            r matches Ok(end) ==> payload_at(old(self).bytes(), old(self).position(), *header)
                == Ok::<(int, int), IonParserError>((final(self).position(), end as int))
                && final(self).is_moved(old(self), final(self).position()),
            r matches Ok(end) ==> final(self).position() <= end <= final(self).bytes().len(),
            r matches Err(e) ==> payload_at(old(self).bytes(), old(self).position(), *header)
                == Err::<(int, int), IonParserError>(e),
    {
        let long = match header.length {
            ValueLength::LongLength => true,
            ValueLength::ShortLength(n) => n == 1 && header.value_type == ValueType::Struct,
            ValueLength::NullValue => false,
        };
        let length: u64 = if long {
            match self.parser.consume_varuint() {
                Err(e) => {
                    return Err(IonParserError::BinaryError(e));
                },
                Ok((length, _)) => length,
            }
        } else {
            match header.length {
                ValueLength::ShortLength(n) => n as u64,
                _ => 0,
            }
        };
        let remaining = self.parser.remaining();
        if length > remaining as u64 {
            return Err(IonParserError::BinaryError(ParsingError::NonBlockingReadNotSupported));
        }
        Ok(self.parser.consumed() + length as usize)
    }

    /// Decodes the payload of an integer.
    fn consume_integer(&mut self, end: usize, negative: bool) -> (r: Result<
        IonValue,
        IonParserError,
    >)
        requires
            old(self).position() <= end <= old(self).bytes().len(),
        ensures
            final(self).has_read_on(old(self)),
            final(self).context() == old(self).context(),
            r matches Ok(v) ==> integer_at(
                old(self).bytes(),
                old(self).position(),
                end as int,
                negative,
            ) == Ok::<IonValueView, IonParserError>(v@),
            r is Ok ==> final(self).is_moved(old(self), end as int),
            r matches Err(e) ==> integer_at(
                old(self).bytes(),
                old(self).position(),
                end as int,
                negative,
            ) == Err::<IonValueView, IonParserError>(e),
    {
        let start = self.parser.consumed();
        if start == end {
            return if negative {
                Err(IonParserError::InvalidNegativeInt)
            } else {
                Ok(IonValue::Integer(0))
            };
        }
        let magnitude = match self.parser.consume_uint(end - start) {
            Err(e) => {
                return Err(IonParserError::BinaryError(e));
            },
            Ok(m) => m,
        };
        let small = magnitude.to_u64();
        let value = match small {
            Some(m) => {
                if negative {
                    if m < 0x8000_0000_0000_0000 {
                        IonValue::Integer(-(m as i64))
                    } else if m == 0x8000_0000_0000_0000 {
                        IonValue::Integer(i64::MIN)
                    } else {
                        IonValue::BigInteger(BigInt { negative, magnitude })
                    }
                } else {
                    if m <= 0x7fff_ffff_ffff_ffff {
                        IonValue::Integer(m as i64)
                    } else {
                        IonValue::BigInteger(BigInt { negative, magnitude })
                    }
                }
            },
            None => IonValue::BigInteger(BigInt { negative, magnitude }),
        };
        Ok(value)
    }

    /// Decodes the payload of a float.
    fn consume_float(&mut self, end: usize) -> (r: Result<IonValue, IonParserError>)
        requires
            old(self).position() <= end <= old(self).bytes().len(),
        ensures
            final(self).has_read_on(old(self)),
            final(self).context() == old(self).context(),
            r matches Ok(v) ==> float_at(old(self).bytes(), old(self).position(), end as int)
                == Ok::<IonValueView, IonParserError>(v@),
            r is Ok ==> final(self).is_moved(old(self), end as int),
            r matches Err(e) ==> float_at(old(self).bytes(), old(self).position(), end as int)
                == Err::<IonValueView, IonParserError>(e),
    {
        let start = self.parser.consumed();
        let length = end - start;
        if length == 0 {
            return Ok(IonValue::Float(0));
        }
        if length != 4 && length != 8 {
            return Err(IonParserError::BinaryError(ParsingError::InvalidFloatLength));
        }
        let ghost field = self.parser.bytes().subrange(start as int, end as int);
        proof {
            lemma_be_nat_bound(field);
            reveal_with_fuel(pow, 9);
            assert(length == 4 ==> pow(256, 4) == 0x1_0000_0000);
            assert(length == 8 ==> pow(256, 8) == 0x1_0000_0000_0000_0000);
        }
        let number = match self.parser.consume_uint(length) {
            Err(e) => {
                return Err(IonParserError::BinaryError(e));
            },
            Ok(n) => n,
        };
        match number.to_u64() {
            None => Err(IonParserError::BinaryError(ParsingError::InvalidFloatLength)),
            Some(bits) => {
                if length == 4 {
                    Ok(IonValue::Float(promote_bits(bits as u32)))
                } else {
                    Ok(IonValue::Float(bits))
                }
            },
        }
    }

    /// Decodes the payload of a decimal.
    fn consume_decimal(&mut self, end: usize) -> (r: Result<Decimal, IonParserError>)
        requires
            old(self).position() <= end <= old(self).bytes().len(),
        ensures
            final(self).has_read_on(old(self)),
            final(self).context() == old(self).context(),
            r matches Ok(v) ==> decimal_at(old(self).bytes(), old(self).position(), end as int)
                == Ok::<DecimalView, IonParserError>(v@),
            r is Ok ==> final(self).is_moved(old(self), end as int),
            r matches Err(e) ==> decimal_at(old(self).bytes(), old(self).position(), end as int)
                == Err::<DecimalView, IonParserError>(e),
    {
        let start = self.parser.consumed();
        if start == end {
            return Ok(
                Decimal { coefficient: BigInt::from_i64(0), exponent: 0 },
            );
        }
        let (exponent, n) = match self.parser.consume_varint() {
            Err(e) => {
                return Err(IonParserError::BinaryError(e));
            },
            Ok(pair) => pair,
        };
        if n > end - start {
            return Err(IonParserError::BadFormatLengthFound);
        }
        if exponent < -0x8000_0000 || exponent > 0x7fff_ffff {
            return Err(IonParserError::DecimalExponentTooBig);
        }
        let rest = end - start - n;
        if rest == 0 {
            return Ok(
                Decimal { coefficient: BigInt::from_i64(0), exponent: exponent as i32 },
            );
        }
        match self.parser.consume_int(rest) {
            Err(e) => Err(IonParserError::BinaryError(e)),
            Ok(coefficient) => Ok(Decimal { coefficient, exponent: exponent as i32 }),
        }
    }

    /// Reads a VarUInt that has to end by `end`.
    fn consume_field(&mut self, end: usize) -> (r: Result<u64, IonParserError>)
        requires
            old(self).position() <= end <= old(self).bytes().len(),
        ensures
            final(self).has_read_on(old(self)),
            final(self).context() == old(self).context(),
            r matches Ok(v) ==> field_at(old(self).bytes(), old(self).position(), end as int)
                == Ok::<(u64, int), IonParserError>((v, final(self).position())),
            r is Ok ==> final(self).is_moved(old(self), final(self).position()),
            r is Ok ==> old(self).position() < final(self).position() <= end,
            r matches Err(e) ==> field_at(old(self).bytes(), old(self).position(), end as int)
                == Err::<(u64, int), IonParserError>(e),
    {
        let start = self.parser.consumed();
        if start >= end {
            return Err(IonParserError::BadFormatLengthFound);
        }
        match self.parser.consume_varuint() {
            Err(e) => Err(IonParserError::BinaryError(e)),
            Ok((value, n)) => {
                if n > end - start {
                    Err(IonParserError::BadFormatLengthFound)
                } else {
                    proof {
                        lemma_varuint_length(self.parser.bytes(), start as int);
                    }
                    Ok(value)
                }
            },
        }
    }

    /// Decodes the payload of a symbol.
    fn consume_symbol(&mut self, end: usize) -> (r: Result<String, IonParserError>)
        requires
            old(self).position() <= end <= old(self).bytes().len(),
        ensures
            final(self).has_read_on(old(self)),
            final(self).context() == old(self).context(),
            r matches Ok(v) ==> symbol_at(
                old(self).bytes(),
                old(self).position(),
                end as int,
                old(self).context(),
            ) == Ok::<Seq<char>, IonParserError>(v@) && final(self).is_moved(old(self), end as int),
            r matches Err(e) ==> symbol_at(
                old(self).bytes(),
                old(self).position(),
                end as int,
                old(self).context(),
            ) == Err::<Seq<char>, IonParserError>(e),
    {
        let start = self.parser.consumed();
        let id: u64 = if start == end {
            0
        } else {
            let number = match self.parser.consume_uint(end - start) {
                Err(e) => {
                    return Err(IonParserError::BinaryError(e));
                },
                Ok(n) => n,
            };
            match number.to_u64() {
                None => {
                    return Err(IonParserError::SymbolIdTooBig);
                },
                Some(id) => id,
            }
        };
        self.resolve(id)
    }

    /// The text of a symbol ID in the parser's context.
    fn resolve(&self, id: u64) -> (r: Result<String, IonParserError>)
        ensures
            r matches Ok(v) ==> symbol_text(self.context(), id as nat) == Ok::<
                Seq<char>,
                IonParserError,
            >(v@),
            r matches Err(e) ==> symbol_text(self.context(), id as nat) == Err::<
                Seq<char>,
                IonParserError,
            >(e),
    {
        match self.context.resolve(id) {
            Some(text) => Ok(text),
            None => Err(IonParserError::SymbolNotFound(id)),
        }
    }

    /// Decodes the payload of a string.
    fn consume_string(&mut self, end: usize) -> (r: Result<String, IonParserError>)
        requires
            old(self).position() <= end <= old(self).bytes().len(),
        ensures
            final(self).has_read_on(old(self)),
            final(self).context() == old(self).context(),
            r matches Ok(v) ==> string_at(old(self).bytes(), old(self).position(), end as int)
                == Ok::<Seq<char>, IonParserError>(v@) && final(self).is_moved(
                old(self),
                end as int,
            ),
            r matches Err(e) ==> string_at(old(self).bytes(), old(self).position(), end as int)
                == Err::<Seq<char>, IonParserError>(e),
    {
        let start = self.parser.consumed();
        match self.parser.read_bytes(end - start) {
            Err(e) => Err(IonParserError::BinaryError(e)),
            Ok(bytes) => match string_from_utf8(bytes) {
                Some(text) => Ok(text),
                None => Err(IonParserError::BadFormatUtf8),
            },
        }
    }

    /// Decodes the payload of a timestamp.
    fn consume_timestamp(&mut self, end: usize) -> (r: Result<Timestamp, IonParserError>)
        requires
            old(self).position() <= end <= old(self).bytes().len(),
        ensures
            final(self).has_read_on(old(self)),
            final(self).context() == old(self).context(),
            r matches Ok(v) ==> timestamp_at(old(self).bytes(), old(self).position(), end as int)
                == Ok::<TimestampView, IonParserError>(v@),
            r is Ok ==> final(self).is_moved(old(self), end as int),
            r matches Err(e) ==> timestamp_at(old(self).bytes(), old(self).position(), end as int)
                == Err::<TimestampView, IonParserError>(e),
    {
        let start = self.parser.consumed();
        let parts = match self.parser.consume_varint_parts() {
            Err(e) => {
                return Err(IonParserError::BinaryError(e));
            },
            Ok(parts) => parts,
        };
        if parts.length > end - start {
            return Err(IonParserError::BadFormatLengthFound);
        }
        let offset: Option<i64> = if parts.negative {
            if parts.magnitude == 0 {
                None
            } else {
                Some(-(parts.magnitude as i64))
            }
        } else {
            Some(parts.magnitude as i64)
        };
        let year = match self.consume_field(end) {
            Err(e) => {
                return Err(e);
            },
            Ok(v) => v,
        };
        let mut t = Timestamp {
            offset,
            year,
            month: None,
            day: None,
            time: None,
            second: None,
            fraction: None,
        };
        if self.parser.consumed() == end {
            return Ok(t);
        }
        match self.consume_field(end) {
            Err(e) => {
                return Err(e);
            },
            Ok(month) => {
                t.month = Some(month);
            },
        }
        if self.parser.consumed() == end {
            return Ok(t);
        }
        match self.consume_field(end) {
            Err(e) => {
                return Err(e);
            },
            Ok(day) => {
                t.day = Some(day);
            },
        }
        if self.parser.consumed() == end {
            return Ok(t);
        }
        let hour = match self.consume_field(end) {
            Err(e) => {
                return Err(e);
            },
            Ok(v) => v,
        };
        match self.consume_field(end) {
            Err(e) => {
                return Err(e);
            },
            Ok(minute) => {
                t.time = Some((hour, minute));
            },
        }
        if self.parser.consumed() == end {
            return Ok(t);
        }
        match self.consume_field(end) {
            Err(e) => {
                return Err(e);
            },
            Ok(second) => {
                t.second = Some(second);
            },
        }
        if self.parser.consumed() == end {
            return Ok(t);
        }
        match self.consume_decimal(end) {
            Err(e) => Err(e),
            Ok(fraction) => {
                t.fraction = Some(fraction);
                Ok(t)
            },
        }
    }

    /// Decodes the annotations that stand from the cursor up to `end`.
    fn consume_annotations(&mut self, end: usize) -> (r: Result<Vec<String>, IonParserError>)
        requires
            old(self).position() <= end <= old(self).bytes().len(),
        ensures
            final(self).has_read_on(old(self)),
            final(self).context() == old(self).context(),
            r matches Ok(v) ==> annotations_at(
                old(self).bytes(),
                old(self).position(),
                end as int,
                old(self).context(),
            ) == Ok::<Seq<Seq<char>>, IonParserError>(texts(v@)) && final(self).is_moved(
                old(self),
                end as int,
            ),
            r matches Err(e) ==> annotations_at(
                old(self).bytes(),
                old(self).position(),
                end as int,
                old(self).context(),
            ) == Err::<Seq<Seq<char>>, IonParserError>(e),
    {
        let ghost s = self.bytes();
        let ghost ctx = self.context();
        let ghost whole = annotations_at(s, self.position(), end as int, ctx);
        let mut names: Vec<String> = Vec::new();
        assert(texts(names@) =~= Seq::<Seq<char>>::empty());
        while self.parser.consumed() < end
            invariant
                s == old(self).bytes(),
                ctx == old(self).context(),
                whole == annotations_at(s, old(self).position(), end as int, ctx),
                self.is_moved(old(self), self.position()),
                old(self).position() <= self.position(),
                self.position() <= end <= s.len(),
                whole == match annotations_at(s, self.position(), end as int, ctx) {
                    Ok(rest) => Ok::<Seq<Seq<char>>, IonParserError>(texts(names@) + rest),
                    Err(e) => Err(e),
                },
            decreases end - self.position(),
        {
            let ghost before = texts(names@);
            let id = match self.consume_field(end) {
                Err(e) => {
                    return Err(e);
                },
                Ok(id) => id,
            };
            let name = match self.resolve(id) {
                Err(e) => {
                    return Err(e);
                },
                Ok(name) => name,
            };
            names.push(name);
            proof {
                assert(texts(names@) =~= before.push(name@));
                if let Ok(rest) = annotations_at(s, self.position(), end as int, ctx) {
                    assert(before + (seq![name@] + rest) =~= texts(names@) + rest);
                }
            }
        }
        assert(texts(names@) + Seq::<Seq<char>>::empty() =~= texts(names@));
        Ok(names)
    }

    /// Decodes the values that stand from the cursor up to `end`.
    fn consume_items(&mut self, end: usize, depth: usize) -> (r: Result<
        Vec<IonValue>,
        IonParserError,
    >)
        requires
            old(self).position() <= end <= old(self).bytes().len(),
        ensures
            final(self).has_read_on(old(self)),
            final(self).context() == old(self).context(),
            r matches Ok(v) ==> items_at(
                old(self).bytes(),
                old(self).position(),
                end as int,
                old(self).context(),
                depth as nat,
            ) == Ok::<Seq<IonValueView>, IonParserError>(views(v@)) && final(self).is_moved(
                old(self),
                end as int,
            ),
            r matches Err(e) ==> items_at(
                old(self).bytes(),
                old(self).position(),
                end as int,
                old(self).context(),
                depth as nat,
            ) == Err::<Seq<IonValueView>, IonParserError>(e),
        decreases depth, 4nat,
    {
        let ghost s = self.bytes();
        let ghost ctx = self.context();
        let ghost whole = items_at(s, self.position(), end as int, ctx, depth as nat);
        let mut items: Vec<IonValue> = Vec::new();
        assert(views(items@) =~= Seq::<IonValueView>::empty());
        while self.parser.consumed() < end
            invariant
                s == old(self).bytes(),
                ctx == old(self).context(),
                whole == items_at(s, old(self).position(), end as int, ctx, depth as nat),
                self.is_moved(old(self), self.position()),
                old(self).position() <= self.position(),
                self.position() <= end <= s.len(),
                whole == match items_at(s, self.position(), end as int, ctx, depth as nat) {
                    Ok(rest) => Ok::<Seq<IonValueView>, IonParserError>(views(items@) + rest),
                    Err(e) => Err(e),
                },
            decreases end - self.position(),
        {
            let ghost before = views(items@);
            let ghost from = self.position();
            let value = match self.consume_nested_value(depth) {
                Err(e) => {
                    return Err(e);
                },
                Ok(value) => value,
            };
            proof {
                lemma_value_advances(s, from, ctx, depth as nat);
            }
            if self.parser.consumed() > end {
                return Err(IonParserError::BadFormatLengthFound);
            }
            items.push(value);
            proof {
                assert(views(items@) =~= before.push(value@));
                if let Ok(rest) = items_at(s, self.position(), end as int, ctx, depth as nat) {
                    assert(before + (seq![value@] + rest) =~= views(items@) + rest);
                }
            }
        }
        assert(views(items@) + Seq::<IonValueView>::empty() =~= views(items@));
        Ok(items)
    }

    /// Decodes the fields that stand from the cursor up to `end`.
    fn consume_fields(&mut self, end: usize, depth: usize) -> (r: Result<
        Vec<(String, IonValue)>,
        IonParserError,
    >)
        requires
            old(self).position() <= end <= old(self).bytes().len(),
        ensures
            final(self).has_read_on(old(self)),
            final(self).context() == old(self).context(),
            r matches Ok(v) ==> fields_at(
                old(self).bytes(),
                old(self).position(),
                end as int,
                old(self).context(),
                depth as nat,
            ) == Ok::<Seq<(Seq<char>, IonValueView)>, IonParserError>(field_views(v@)),
            r is Ok ==> final(self).is_moved(old(self), end as int),
            r matches Err(e) ==> fields_at(
                old(self).bytes(),
                old(self).position(),
                end as int,
                old(self).context(),
                depth as nat,
            ) == Err::<Seq<(Seq<char>, IonValueView)>, IonParserError>(e),
        decreases depth, 4nat,
    {
        let ghost s = self.bytes();
        let ghost ctx = self.context();
        let ghost whole = fields_at(s, self.position(), end as int, ctx, depth as nat);
        let mut fields: Vec<(String, IonValue)> = Vec::new();
        assert(field_views(fields@) =~= Seq::<(Seq<char>, IonValueView)>::empty());
        while self.parser.consumed() < end
            invariant
                s == old(self).bytes(),
                ctx == old(self).context(),
                whole == fields_at(s, old(self).position(), end as int, ctx, depth as nat),
                self.is_moved(old(self), self.position()),
                old(self).position() <= self.position(),
                self.position() <= end <= s.len(),
                whole == match fields_at(s, self.position(), end as int, ctx, depth as nat) {
                    Ok(rest) => Ok::<Seq<(Seq<char>, IonValueView)>, IonParserError>(
                        field_views(fields@) + rest,
                    ),
                    Err(e) => Err(e),
                },
            decreases end - self.position(),
        {
            let ghost before = field_views(fields@);
            let id = match self.consume_field(end) {
                Err(e) => {
                    return Err(e);
                },
                Ok(id) => id,
            };
            let name = match self.resolve(id) {
                Err(e) => {
                    return Err(e);
                },
                Ok(name) => name,
            };
            let ghost from = self.position();
            let value = match self.consume_nested_value(depth) {
                Err(e) => {
                    return Err(e);
                },
                Ok(value) => value,
            };
            proof {
                lemma_value_advances(s, from, ctx, depth as nat);
            }
            if self.parser.consumed() > end {
                return Err(IonParserError::BadFormatLengthFound);
            }
            fields.push((name, value));
            proof {
                assert(field_views(fields@) =~= before.push((name@, value@)));
                if let Ok(rest) = fields_at(s, self.position(), end as int, ctx, depth as nat) {
                    assert(before + (seq![(name@, value@)] + rest) =~= field_views(fields@) + rest);
                }
            }
        }
        assert(field_views(fields@) + Seq::<(Seq<char>, IonValueView)>::empty() =~= field_views(
            fields@,
        ));
        Ok(fields)
    }

    /// Decodes the payload of an annotation wrapper, which ends at `end`.
    fn consume_annotation_payload(&mut self, end: usize, depth: usize) -> (r: Result<
        IonValue,
        IonParserError,
    >)
        requires
            old(self).position() <= end <= old(self).bytes().len(),
        ensures
            final(self).has_read_on(old(self)),
            final(self).context() == old(self).context(),
            r matches Ok(v) ==> annotation_at(
                old(self).bytes(),
                old(self).position(),
                end as int,
                old(self).context(),
                depth as nat,
            ) == Ok::<IonValueView, IonParserError>(v@) && final(self).is_moved(
                old(self),
                end as int,
            ),
            r matches Err(e) ==> annotation_at(
                old(self).bytes(),
                old(self).position(),
                end as int,
                old(self).context(),
                depth as nat,
            ) == Err::<IonValueView, IonParserError>(e),
        decreases depth, 4nat,
    {
        let length = match self.consume_field(end) {
            Err(e) => {
                return Err(e);
            },
            Ok(length) => length,
        };
        if length == 0 {
            return Err(IonParserError::EmptyAnnotationFound);
        }
        let names_start = self.parser.consumed();
        if length >= (end - names_start) as u64 {
            return Err(IonParserError::BadFormatLengthFound);
        }
        let names_end = names_start + length as usize;
        let names = match self.consume_annotations(names_end) {
            Err(e) => {
                return Err(e);
            },
            Ok(names) => names,
        };
        let value = match self.consume_nested_value(depth) {
            Err(e) => {
                return Err(e);
            },
            Ok(value) => value,
        };
        if self.parser.consumed() != end {
            return Err(IonParserError::BadFormatLengthFound);
        }
        Ok(IonValue::Annotation(names, Box::new(value)))
    }

    /// Decodes the value of that header, which the cursor has just passed.
    fn consume_body(&mut self, header: &ValueHeader, depth: usize) -> (r: Result<
        IonValue,
        IonParserError,
    >)
        ensures
            header.length is NullValue ==> final(self).position() == old(self).position(),
            final(self).has_read_on(old(self)),
            final(self).context() == old(self).context(),
            r matches Ok(v) ==> body_at(
                old(self).bytes(),
                old(self).position(),
                *header,
                old(self).context(),
                depth as nat,
            ) == Ok::<(IonValueView, int), IonParserError>((v@, final(self).position()))
                && final(self).is_moved(old(self), final(self).position()),
            r matches Err(e) ==> body_at(
                old(self).bytes(),
                old(self).position(),
                *header,
                old(self).context(),
                depth as nat,
            ) == Err::<(IonValueView, int), IonParserError>(e),
        decreases depth, 2nat,
    {
        proof {
            self.lemma_position_in_bounds();
        }
        if let ValueLength::NullValue = header.length {
            return match header.value_type {
                ValueType::Null => Ok(IonValue::Null(NullIonValue::Null)),
                ValueType::Bool(_) => Ok(IonValue::Null(NullIonValue::Bool)),
                ValueType::PositiveInt => Ok(IonValue::Null(NullIonValue::Integer)),
                ValueType::NegativeInt => Ok(IonValue::Null(NullIonValue::Integer)),
                ValueType::Float => Ok(IonValue::Null(NullIonValue::Float)),
                ValueType::Decimal => Ok(IonValue::Null(NullIonValue::Decimal)),
                ValueType::Timestamp => Ok(IonValue::Null(NullIonValue::Timestamp)),
                ValueType::Symbol => Ok(IonValue::Null(NullIonValue::Symbol)),
                ValueType::String => Ok(IonValue::Null(NullIonValue::String)),
                ValueType::Clob => Ok(IonValue::Null(NullIonValue::Clob)),
                ValueType::Blob => Ok(IonValue::Null(NullIonValue::Blob)),
                ValueType::List => Ok(IonValue::Null(NullIonValue::List)),
                ValueType::SExpr => Ok(IonValue::Null(NullIonValue::SExp)),
                ValueType::Struct => Ok(IonValue::Null(NullIonValue::Struct)),
                ValueType::Annotation => Err(IonParserError::NullAnnotationFound),
            };
        }
        if let ValueType::Bool(b) = header.value_type {
            return Ok(IonValue::Bool(b));
        }
        let end = match self.consume_payload(header) {
            Err(e) => {
                return Err(e);
            },
            Ok(end) => end,
        };
        self.consume_payload_value(header.value_type, end, depth)
    }

    /// Decodes the payload of a value of that type, which ends at `end`.
    fn consume_payload_value(&mut self, value_type: ValueType, end: usize, depth: usize) -> (r:
        Result<IonValue, IonParserError>)
        requires
            old(self).position() <= end <= old(self).bytes().len(),
        ensures
            final(self).has_read_on(old(self)),
            final(self).context() == old(self).context(),
            r matches Ok(v) ==> payload_value(
                old(self).bytes(),
                old(self).position(),
                end as int,
                value_type,
                old(self).context(),
                depth as nat,
            ) == Ok::<IonValueView, IonParserError>(v@) && final(self).is_moved(
                old(self),
                end as int,
            ),
            r matches Err(e) ==> payload_value(
                old(self).bytes(),
                old(self).position(),
                end as int,
                value_type,
                old(self).context(),
                depth as nat,
            ) == Err::<IonValueView, IonParserError>(e),
        decreases depth, 1nat,
    {
        match value_type {
            ValueType::List | ValueType::SExpr | ValueType::Struct | ValueType::Annotation => {
                self.consume_container(value_type, end, depth)
            },
            _ => self.consume_scalar(value_type, end),
        }
    }

    /// Decodes the payload of a value that holds no other value.
    fn consume_scalar(&mut self, value_type: ValueType, end: usize) -> (r: Result<
        IonValue,
        IonParserError,
    >)
        requires
            old(self).position() <= end <= old(self).bytes().len(),
            !(value_type is List || value_type is SExpr || value_type is Struct
                || value_type is Annotation),
        ensures
            final(self).has_read_on(old(self)),
            final(self).context() == old(self).context(),
            forall|depth: nat|
                r matches Ok(v) ==> #[trigger] payload_value(
                    old(self).bytes(),
                    old(self).position(),
                    end as int,
                    value_type,
                    old(self).context(),
                    depth,
                ) == Ok::<IonValueView, IonParserError>(v@),
            r is Ok ==> final(self).is_moved(old(self), end as int),
            forall|depth: nat|
                r matches Err(e) ==> #[trigger] payload_value(
                    old(self).bytes(),
                    old(self).position(),
                    end as int,
                    value_type,
                    old(self).context(),
                    depth,
                ) == Err::<IonValueView, IonParserError>(e),
    {
        match value_type {
            ValueType::Null => match self.skip_payload(end) {
                Err(e) => Err(e),
                Ok(()) => Ok(IonValue::Null(NullIonValue::Null)),
            },
            ValueType::Bool(b) => match self.skip_payload(end) {
                Err(e) => Err(e),
                Ok(()) => Ok(IonValue::Bool(b)),
            },
            ValueType::PositiveInt => self.consume_integer(end, false),
            ValueType::NegativeInt => self.consume_integer(end, true),
            ValueType::Float => self.consume_float(end),
            ValueType::Decimal => match self.consume_decimal(end) {
                Err(e) => Err(e),
                Ok(d) => Ok(IonValue::Decimal(d)),
            },
            ValueType::Timestamp => match self.consume_timestamp(end) {
                Err(e) => Err(e),
                Ok(t) => Ok(IonValue::Timestamp(t)),
            },
            ValueType::Symbol => match self.consume_symbol(end) {
                Err(e) => Err(e),
                Ok(text) => Ok(IonValue::Symbol(text)),
            },
            ValueType::String => match self.consume_string(end) {
                Err(e) => Err(e),
                Ok(text) => Ok(IonValue::String(text)),
            },
            ValueType::Clob => match self.consume_bytes(end) {
                Err(e) => Err(e),
                Ok(bytes) => Ok(IonValue::Clob(bytes)),
            },
            _ => match self.consume_bytes(end) {
                Err(e) => Err(e),
                Ok(bytes) => Ok(IonValue::Blob(bytes)),
            },
        }
    }

    /// Decodes the payload of a value that holds other values.
    fn consume_container(&mut self, value_type: ValueType, end: usize, depth: usize) -> (r: Result<
        IonValue,
        IonParserError,
    >)
        requires
            old(self).position() <= end <= old(self).bytes().len(),
            value_type is List || value_type is SExpr || value_type is Struct
                || value_type is Annotation,
        ensures
            final(self).has_read_on(old(self)),
            final(self).context() == old(self).context(),
            r matches Ok(v) ==> payload_value(
                old(self).bytes(),
                old(self).position(),
                end as int,
                value_type,
                old(self).context(),
                depth as nat,
            ) == Ok::<IonValueView, IonParserError>(v@) && final(self).is_moved(
                old(self),
                end as int,
            ),
            r matches Err(e) ==> payload_value(
                old(self).bytes(),
                old(self).position(),
                end as int,
                value_type,
                old(self).context(),
                depth as nat,
            ) == Err::<IonValueView, IonParserError>(e),
        decreases depth, 0nat,
    {
        if depth == 0 {
            return Err(IonParserError::DepthLimitExceeded);
        }
        match value_type {
            ValueType::List => match self.consume_items(end, depth - 1) {
                Err(e) => Err(e),
                Ok(items) => {
                    let value = IonValue::List(items);
                    assert(value@->List_0 =~= views(items@));
                    Ok(value)
                },
            },
            ValueType::SExpr => match self.consume_items(end, depth - 1) {
                Err(e) => Err(e),
                Ok(items) => {
                    let value = IonValue::SExp(items);
                    assert(value@->SExp_0 =~= views(items@));
                    Ok(value)
                },
            },
            ValueType::Struct => match self.consume_fields(end, depth - 1) {
                Err(e) => Err(e),
                Ok(fields) => {
                    let value = IonValue::Struct(fields);
                    assert(value@->Struct_0 =~= field_views(fields@));
                    Ok(value)
                },
            },
            _ => self.consume_annotation_payload(end, depth - 1),
        }
    }

    /// Decodes the value whose header stands at the cursor.
    fn consume_nested_value(&mut self, depth: usize) -> (r: Result<IonValue, IonParserError>)
        ensures
            final(self).has_read_on(old(self)),
            final(self).context() == old(self).context(),
            r matches Ok(v) ==> value_at(
                old(self).bytes(),
                old(self).position(),
                old(self).context(),
                depth as nat,
            ) == Ok::<(IonValueView, int), IonParserError>((v@, final(self).position()))
                && final(self).is_moved(old(self), final(self).position()),
            r matches Err(e) ==> value_at(
                old(self).bytes(),
                old(self).position(),
                old(self).context(),
                depth as nat,
            ) == Err::<(IonValueView, int), IonParserError>(e),
        decreases depth, 3nat,
    {
        let header = match self.parser.consume_plain_header() {
            Err(e) => {
                return Err(IonParserError::BinaryError(e));
            },
            Ok(header) => header,
        };
        self.consume_body(&header, depth)
    }

    /// Passes over a payload that holds nothing.
    fn skip_payload(&mut self, end: usize) -> (r: Result<(), IonParserError>)
        requires
            old(self).position() <= end <= old(self).bytes().len(),
        ensures
            final(self).has_read_on(old(self)),
            final(self).context() == old(self).context(),
            r is Ok,
            final(self).is_moved(old(self), end as int),
    {
        let start = self.parser.consumed();
        match self.parser.skip_bytes(end - start) {
            Err(e) => Err(IonParserError::BinaryError(e)),
            Ok(()) => Ok(()),
        }
    }

    /// Reads the payload of a clob or a blob.
    fn consume_bytes(&mut self, end: usize) -> (r: Result<Vec<u8>, IonParserError>)
        requires
            old(self).position() <= end <= old(self).bytes().len(),
        ensures
            final(self).has_read_on(old(self)),
            final(self).context() == old(self).context(),
            r matches Ok(v) ==> v@ == old(self).bytes().subrange(
                old(self).position(),
                end as int,
            ) && final(self).is_moved(old(self), end as int),
            r is Ok,
    {
        let start = self.parser.consumed();
        match self.parser.read_bytes(end - start) {
            Err(e) => Err(IonParserError::BinaryError(e)),
            Ok(bytes) => Ok(bytes),
        }
    }
}

} // verus!

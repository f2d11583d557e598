//! The primitive decoder: VarUInt, VarInt, UInt, Int and value headers, read
//! from a byte source at a cursor.

use crate::binary_parser_types::{header_of, ParsingError, ValueHeader};
use crate::numbers::{be_nat, BigInt, BigUint};
use vstd::arithmetic::power::*;
use vstd::prelude::*;
use vstd::slice::{slice_subrange, slice_to_vec};

verus! {

/// The index of the first byte at or after `from` and before `limit` whose
/// high bit is set.
pub open spec fn terminator(s: Seq<u8>, from: int, limit: int) -> Option<int>
    decreases limit - from,
{
    if from < 0 || from >= limit || from >= s.len() {
        None
    } else if s[from] >= 128 {
        Some(from)
    } else {
        terminator(s, from + 1, limit)
    }
}

/// The number that the low seven bits of the bytes from `from` up to `to` are,
/// most significant group first.
pub open spec fn septets(s: Seq<u8>, from: int, to: int) -> nat
    decreases to - from,
{
    if to <= from {
        0
    } else {
        septets(s, from, to - 1) * 128 + (s[to - 1] % 128) as nat
    }
}

/// The VarUInt at `pos`: the value and the number of bytes it takes. It ends
/// with the first byte whose high bit is set, which must be among the first
/// ten, and its value must fit in 64 bits.
pub open spec fn varuint_at(s: Seq<u8>, pos: int) -> Result<(u64, usize), ParsingError> {
    match terminator(s, pos, pos + 10) {
        None => if pos + 10 <= s.len() {
            Err(ParsingError::TooBigForU64)
        } else {
            Err(ParsingError::NonBlockingReadNotSupported)
        },
        Some(last) => {
            let value = septets(s, pos, last + 1);
            if value > u64::MAX {
                Err(ParsingError::TooBigForU64)
            } else {
                Ok((value as u64, (last + 1 - pos) as usize))
            }
        },
    }
}

/// A byte with the sign bit of a VarInt's first byte cleared.
pub open spec fn without_sign(b: u8) -> u8 {
    if b % 128 >= 64 {
        (b - 64) as u8
    } else {
        b
    }
}

/// A VarInt as it is read: the sign bit, the magnitude, and the number of
/// bytes. Negative zero is a sign bit with magnitude zero.
#[derive(Debug, Clone, Copy, PartialEq, Eq)]
pub struct VarIntParts {
    pub negative: bool,
    pub magnitude: u64,
    pub length: usize,
}

impl VarIntParts {
    /// The integer that the sign and the magnitude stand for.
    pub open spec fn value(&self) -> int {
        if self.negative {
            -(self.magnitude as int)
        } else {
            self.magnitude as int
        }
    }
}

/// The VarInt at `pos`. It is laid out as a VarUInt of at most nine bytes,
/// but the second highest bit of its first byte is the sign and no part of the
/// magnitude.
pub open spec fn varint_parts_at(s: Seq<u8>, pos: int) -> Result<VarIntParts, ParsingError> {
    match terminator(s, pos, pos + 9) {
        None => if pos + 9 <= s.len() {
            Err(ParsingError::VarIntTooBigForI64)
        } else {
            Err(ParsingError::NonBlockingReadNotSupported)
        },
        Some(last) => {
            let magnitude = septets(s.update(pos, without_sign(s[pos])), pos, last + 1);
            if magnitude > i64::MAX {
                Err(ParsingError::VarIntTooBigForI64)
            } else {
                Ok(
                    VarIntParts {
                        negative: s[pos] % 128 >= 64,
                        magnitude: magnitude as u64,
                        length: (last + 1 - pos) as usize,
                    },
                )
            }
        },
    }
}

/// The VarInt at `pos` as an integer: the value and the number of bytes it
/// takes. Negative zero is zero.
pub open spec fn varint_at(s: Seq<u8>, pos: int) -> Result<(i64, usize), ParsingError> {
    match varint_parts_at(s, pos) {
        Err(e) => Err(e),
        Ok(parts) => Ok((parts.value() as i64, parts.length)),
    }
}

/// The `n` bytes at `pos`.
pub open spec fn bytes_at(s: Seq<u8>, pos: int, n: int) -> Result<Seq<u8>, ParsingError> {
    if pos < 0 || n < 0 || pos + n > s.len() {
        Err(ParsingError::NonBlockingReadNotSupported)
    } else {
        Ok(s.subrange(pos, pos + n))
    }
}

/// The UInt of `n` bytes at `pos`: a big-endian number.
pub open spec fn uint_at(s: Seq<u8>, pos: int, n: int) -> Result<nat, ParsingError> {
    if n == 0 {
        Err(ParsingError::CannotReadZeroBytes)
    } else {
        match bytes_at(s, pos, n) {
            Err(e) => Err(e),
            Ok(field) => Ok(be_nat(field)),
        }
    }
}

/// The Int of `n` bytes at `pos`: the high bit of the first byte is the sign,
/// the other bits are a big-endian magnitude.
pub open spec fn int_at(s: Seq<u8>, pos: int, n: int) -> Result<(bool, nat), ParsingError> {
    if n == 0 {
        Err(ParsingError::CannotReadZeroBytes)
    } else {
        match bytes_at(s, pos, n) {
            Err(e) => Err(e),
            Ok(field) => Ok((field[0] >= 128, be_nat(field.update(0, (field[0] % 128) as u8)))),
        }
    }
}

/// The version marker at `pos`, which starts with `0xE0`: four bytes that end
/// with `0xEA` and name the version 1.0 in between.
pub open spec fn version_marker_at(s: Seq<u8>, pos: int) -> Result<(), ParsingError> {
    if pos < 0 || pos + 4 > s.len() {
        Err(ParsingError::NonBlockingReadNotSupported)
    } else if s[pos + 3] != 0xEA {
        Err(ParsingError::BinaryVersionMarkerNotFound)
    } else if s[pos + 1] != 1 || s[pos + 2] != 0 {
        Err(ParsingError::UnsupportedBinaryVersion)
    } else {
        Ok(())
    }
}

/// The position after the version markers that stand at `pos` one after
/// another; `pos` itself where no marker stands there.
pub open spec fn markers_end(s: Seq<u8>, pos: int) -> Result<int, ParsingError>
    decreases s.len() - pos,
{
    if pos < 0 || pos >= s.len() || s[pos] != 0xE0 {
        Ok(pos)
    } else {
        match version_marker_at(s, pos) {
            Err(e) => Err(e),
            Ok(()) => markers_end(s, pos + 4),
        }
    }
}

/// The header byte at `pos`, decoded, and the position after it.
pub open spec fn plain_header_at(s: Seq<u8>, pos: int) -> Result<(ValueHeader, int), ParsingError> {
    if pos < 0 || pos >= s.len() {
        Err(ParsingError::NonBlockingReadNotSupported)
    } else {
        match header_of(s[pos]) {
            Err(e) => Err(e),
            Ok(header) => Ok((header, pos + 1)),
        }
    }
}

/// The first value header at or after `pos`, behind any version markers, and
/// the position after it.
pub open spec fn header_at(s: Seq<u8>, pos: int) -> Result<(ValueHeader, int), ParsingError> {
    match markers_end(s, pos) {
        Err(e) => Err(e),
        Ok(start) => plain_header_at(s, start),
    }
}

/// No terminator is found among bytes whose high bit is clear.
pub proof fn lemma_terminator_none(s: Seq<u8>, from: int, limit: int)
    requires
        forall|j: int| from <= j < limit && 0 <= j < s.len() ==> s[j] < 128,
    ensures
        terminator(s, from, limit) is None,
    decreases limit - from,
{
    if !(from < 0 || from >= limit || from >= s.len()) {
        lemma_terminator_none(s, from + 1, limit);
    }
}

/// The terminator is the first byte whose high bit is set.
pub proof fn lemma_terminator_some(s: Seq<u8>, from: int, last: int, limit: int)
    requires
        0 <= from <= last < limit,
        last < s.len(),
        s[last] >= 128,
        forall|j: int| from <= j < last ==> s[j] < 128,
    ensures
        terminator(s, from, limit) == Some(last),
    decreases last - from,
{
    if from < last {
        lemma_terminator_some(s, from + 1, last, limit);
    }
}

/// `n` groups of seven bits stay below `128^n`.
pub proof fn lemma_septets_bound(s: Seq<u8>, from: int, to: int)
    requires
        from <= to,
    ensures
        septets(s, from, to) < pow(128, (to - from) as nat),
    decreases to - from,
{
    reveal(pow);
    if from < to {
        lemma_septets_bound(s, from, to - 1);
        assert(pow(128, (to - from) as nat) == 128 * pow(128, (to - 1 - from) as nat));
    }
}

/// Only the low seven bits of each byte count.
pub proof fn lemma_septets_same(a: Seq<u8>, b: Seq<u8>, from: int, to: int)
    requires
        0 <= from <= to <= a.len(),
        to <= b.len(),
        forall|j: int| from <= j < to ==> a[j] % 128 == b[j] % 128,
    ensures
        septets(a, from, to) == septets(b, from, to),
    decreases to - from,
{
    if from < to {
        lemma_septets_same(a, b, from, to - 1);
    }
}

proof fn lemma_pow128_8()
    ensures
        pow(128, 8) == 0x100_0000_0000_0000,
{
    reveal_with_fuel(pow, 9);
}

proof fn lemma_pow128_9()
    ensures
        pow(128, 9) == 0x8000_0000_0000_0000,
{
    reveal_with_fuel(pow, 10);
}

/// A VarUInt takes at least one byte and ends inside the bytes.
pub proof fn lemma_varuint_length(s: Seq<u8>, pos: int)
    ensures
        varuint_at(s, pos) matches Ok((_, n)) ==> 1 <= n <= 10 && 0 <= pos && pos + n <= s.len(),
{
    lemma_terminator_in_range(s, pos, pos + 10);
}

/// A terminator lies where it was looked for.
pub proof fn lemma_terminator_in_range(s: Seq<u8>, from: int, limit: int)
    ensures
        terminator(s, from, limit) matches Some(last) ==> 0 <= from <= last < limit && last
            < s.len(),
    decreases limit - from,
{
    if !(from < 0 || from >= limit || from >= s.len()) && s[from] < 128 {
        lemma_terminator_in_range(s, from + 1, limit);
    }
}

/// The terminator does not depend on what stands before the bytes.
pub proof fn lemma_terminator_shift(before: Seq<u8>, s: Seq<u8>, from: int, limit: int)
    requires
        0 <= from,
    ensures
        terminator(before + s, before.len() + from, before.len() + limit) == match terminator(
            s,
            from,
            limit,
        ) {
            Some(last) => Some(before.len() + last),
            None => None,
        },
    decreases limit - from,
{
    if from < limit && from < s.len() {
        assert((before + s)[before.len() + from] == s[from]);
        if s[from] < 128 {
            lemma_terminator_shift(before, s, from + 1, limit);
        }
    }
}

/// The groups of seven bits do not depend on what stands before the bytes.
pub proof fn lemma_septets_shift(before: Seq<u8>, s: Seq<u8>, from: int, to: int)
    requires
        0 <= from <= to <= s.len(),
    ensures
        septets(before + s, before.len() + from, before.len() + to) == septets(s, from, to),
    decreases to - from,
{
    if from < to {
        lemma_septets_shift(before, s, from, to - 1);
        assert((before + s)[before.len() + to - 1] == s[to - 1]);
    }
}

/// What is decoded at a position does not depend on what stands before it:
/// the primitives at the end of `before` in `before + s` are those at the
/// start of `s`.
pub proof fn lemma_decoding_is_local(before: Seq<u8>, s: Seq<u8>, n: int)
    ensures
        varuint_at(before + s, before.len() as int) == varuint_at(s, 0),
        varint_parts_at(before + s, before.len() as int) == varint_parts_at(s, 0),
        varint_at(before + s, before.len() as int) == varint_at(s, 0),
        uint_at(before + s, before.len() as int, n) == uint_at(s, 0, n),
        int_at(before + s, before.len() as int, n) == int_at(s, 0, n),
{
    let k = before.len() as int;
    let all = before + s;
    lemma_terminator_shift(before, s, 0, 10);
    lemma_terminator_shift(before, s, 0, 9);
    lemma_terminator_in_range(s, 0, 10);
    lemma_terminator_in_range(s, 0, 9);
    if let Some(last) = terminator(s, 0, 10) {
        lemma_septets_shift(before, s, 0, last + 1);
    }
    if let Some(last) = terminator(s, 0, 9) {
        assert(all[k] == s[0]);
        let cleared = s.update(0, without_sign(s[0]));
        assert(all.update(k, without_sign(all[k])) =~= before + cleared);
        lemma_septets_shift(before, cleared, 0, last + 1);
    }
    if 0 <= n && n <= s.len() {
        assert(all.subrange(k, k + n) =~= s.subrange(0, n));
    }
}

/// A cursor over the bytes of an Ion binary stream.
#[derive(Debug)]
pub struct IonBinaryParser {
    data: Vec<u8>,
    position: usize,
}

impl IonBinaryParser {
    #[verifier::type_invariant]
    spec fn well_formed(&self) -> bool {
        self.position <= self.data@.len()
    }

    /// All the bytes of the source.
    pub closed spec fn bytes(&self) -> Seq<u8> {
        self.data@
    }

    /// How many bytes of the source have been consumed.
    pub closed spec fn position(&self) -> int {
        if self.position <= self.data@.len() {
            self.position as int
        } else {
            self.data@.len() as int
        }
    }

    /// The cursor stands inside the bytes or at their end.
    pub proof fn lemma_position_in_bounds(&self)
        ensures
            0 <= self.position() <= self.bytes().len(),
    {
    }

    /// Whether `self` is `before` moved on by `n` bytes.
    pub open spec fn is_advanced(&self, before: &IonBinaryParser, n: int) -> bool {
        &&& self.bytes() == before.bytes()
        &&& self.position() == before.position() + n
        &&& self.position() <= self.bytes().len()
    }

    /// Whether `self` is `before` with the cursor where it was or further on.
    pub open spec fn has_read_on(&self, before: &IonBinaryParser) -> bool {
        &&& self.bytes() == before.bytes()
        &&& before.position() <= self.position() <= self.bytes().len()
    }

    /// A cursor at the start of `data`.
    pub fn new(data: Vec<u8>) -> (r: IonBinaryParser)
        ensures
            r.bytes() == data@,
            r.position() == 0,
    {
        IonBinaryParser { data, position: 0 }
    }

    /// Whether all the bytes have been consumed.
    pub fn is_exhausted(&self) -> (r: bool)
        ensures
            r == (self.position() == self.bytes().len()),
    {
        proof {
            use_type_invariant(self);
        }
        self.position == self.data.len()
    }

    /// The number of bytes consumed so far.
    pub fn consumed(&self) -> (r: usize)
        ensures
            r == self.position(),
            r <= self.bytes().len(),
    {
        proof {
            use_type_invariant(self);
        }
        self.position
    }

    /// The number of bytes that are left.
    pub fn remaining(&self) -> (r: usize)
        ensures
            r == self.bytes().len() - self.position(),
            self.bytes().len() <= usize::MAX,
    {
        proof {
            use_type_invariant(self);
        }
        self.data.len() - self.position
    }

    /// Moves the cursor on by `n` bytes.
    pub fn skip_bytes(&mut self, n: usize) -> (r: Result<(), ParsingError>)
        ensures
            r is Ok ==> n <= old(self).bytes().len() - old(self).position(),
            r is Ok ==> final(self).is_advanced(old(self), n as int),
            r matches Err(e) ==> n > old(self).bytes().len() - old(self).position(),
            r matches Err(e) ==> e == ParsingError::NonBlockingReadNotSupported,
            r is Err ==> final(self).is_advanced(old(self), 0),
    {
        proof {
            use_type_invariant(&*self);
        }
        if n > self.data.len() - self.position {
            return Err(ParsingError::NonBlockingReadNotSupported);
        }
        self.position = self.position + n;
        Ok(())
    }

    /// Reads the next `n` bytes.
    pub fn read_bytes(&mut self, n: usize) -> (r: Result<Vec<u8>, ParsingError>)
        ensures
            r matches Ok(field) ==> bytes_at(old(self).bytes(), old(self).position(), n as int)
                == Ok::<Seq<u8>, ParsingError>(field@),
            r matches Err(e) ==> bytes_at(old(self).bytes(), old(self).position(), n as int)
                == Err::<Seq<u8>, ParsingError>(e),
            r is Ok ==> final(self).is_advanced(old(self), n as int),
            r is Err ==> final(self).is_advanced(old(self), 0),
    {
        proof {
            use_type_invariant(&*self);
        }
        if n > self.data.len() - self.position {
            return Err(ParsingError::NonBlockingReadNotSupported);
        }
        let field = slice_to_vec(
            slice_subrange(self.data.as_slice(), self.position, self.position + n),
        );
        self.position = self.position + n;
        Ok(field)
    }

    /// Reads a VarUInt: its value and the number of bytes it took. Where it
    /// fails, the cursor stays where it was.
    pub fn consume_varuint(&mut self) -> (r: Result<(u64, usize), ParsingError>)
        ensures
            r == varuint_at(old(self).bytes(), old(self).position()),
            r matches Ok((_, n)) ==> final(self).is_advanced(old(self), n as int),
            r is Err ==> final(self).is_advanced(old(self), 0),
    {
        proof {
            use_type_invariant(&*self);
        }
        let ghost s = self.data@;
        let ghost start = self.position as int;
        let first: usize = self.position;
        let mut value: u64 = 0;
        let mut count: usize = 0;
        while count < 10
            invariant
                s == old(self).data@,
                start == old(self).position,
                self.data@ == s,
                self.position == start + count,
                self.position <= s.len(),
                first == start,
                count <= 10,
                forall|j: int| start <= j < start + count ==> s[j] < 128,
                value == septets(s, start, start + count),
            decreases 10 - count,
        {
            if self.position >= self.data.len() {
                proof {
                    lemma_terminator_none(s, start, start + 10);
                }
                self.position = first;
                return Err(ParsingError::NonBlockingReadNotSupported);
            }
            let byte: u8 = self.data[self.position];
            proof {
                lemma_septets_bound(s, start, start + count);
                if count <= 8 {
                    lemma_pow_increases(128, count as nat, 8);
                    lemma_pow128_8();
                }
                if byte >= 128 {
                    lemma_terminator_some(s, start, start + count, start + 10);
                } else if count == 9 {
                    lemma_terminator_none(s, start, start + 10);
                }
            }
            if value > 0x1ff_ffff_ffff_ffff {
                self.position = first;
                return Err(ParsingError::TooBigForU64);
            }
            value = value * 128 + (byte % 128) as u64;
            self.position = self.position + 1;
            count = count + 1;
            if byte >= 128 {
                return Ok((value, count));
            }
        }
        proof {
            lemma_terminator_none(s, start, start + 10);
        }
        self.position = first;
        Err(ParsingError::TooBigForU64)
    }

    /// Reads a VarInt and keeps its sign bit apart from its magnitude. Where
    /// it fails, the cursor stays where it was.
    pub fn consume_varint_parts(&mut self) -> (r: Result<VarIntParts, ParsingError>)
        ensures
            r == varint_parts_at(old(self).bytes(), old(self).position()),
            r matches Ok(parts) ==> final(self).is_advanced(old(self), parts.length as int),
            r is Err ==> final(self).is_advanced(old(self), 0),
    {
        proof {
            use_type_invariant(&*self);
        }
        let ghost s = self.data@;
        let ghost start = self.position as int;
        let first: usize = self.position;
        let ghost cleared = s.update(start, without_sign(s[start]));
        let mut negative = false;
        let mut value: u64 = 0;
        let mut count: usize = 0;
        while count < 9
            invariant
                s == old(self).data@,
                start == old(self).position,
                self.data@ == s,
                self.position == start + count,
                self.position <= s.len(),
                first == start,
                count <= 9,
                cleared == s.update(start, without_sign(s[start])),
                forall|j: int| start <= j < start + count ==> s[j] < 128,
                value == septets(cleared, start, start + count),
                count > 0 ==> negative == (s[start] % 128 >= 64),
            decreases 9 - count,
        {
            if self.position >= self.data.len() {
                proof {
                    lemma_terminator_none(s, start, start + 9);
                }
                self.position = first;
                return Err(ParsingError::NonBlockingReadNotSupported);
            }
            let byte: u8 = self.data[self.position];
            proof {
                lemma_septets_bound(cleared, start, start + count);
                lemma_septets_bound(cleared, start, start + count + 1);
                lemma_pow_increases(128, count as nat, 8);
                lemma_pow_increases(128, (count + 1) as nat, 9);
                lemma_pow128_8();
                lemma_pow128_9();
                if byte >= 128 {
                    lemma_terminator_some(s, start, start + count, start + 9);
                }
            }
            let payload: u8 = if count == 0 {
                negative = byte % 128 >= 64;
                byte % 64
            } else {
                byte % 128
            };
            assert(payload == cleared[start + count] % 128);
            value = value * 128 + payload as u64;
            self.position = self.position + 1;
            count = count + 1;
            if byte >= 128 {
                return Ok(VarIntParts { negative, magnitude: value, length: count });
            }
        }
        proof {
            lemma_terminator_none(s, start, start + 9);
        }
        self.position = first;
        Err(ParsingError::VarIntTooBigForI64)
    }

    /// Reads a VarInt: its value and the number of bytes it took. Where it
    /// fails, the cursor stays where it was.
    pub fn consume_varint(&mut self) -> (r: Result<(i64, usize), ParsingError>)
        ensures
            r == varint_at(old(self).bytes(), old(self).position()),
            r matches Ok((_, n)) ==> final(self).is_advanced(old(self), n as int),
            r is Err ==> final(self).is_advanced(old(self), 0),
    {
        match self.consume_varint_parts() {
            Err(e) => Err(e),
            Ok(parts) => {
                let value: i64 = if parts.negative {
                    -(parts.magnitude as i64)
                } else {
                    parts.magnitude as i64
                };
                Ok((value, parts.length))
            },
        }
    }

    /// Reads a UInt of `n` bytes.
    pub fn consume_uint(&mut self, n: usize) -> (r: Result<BigUint, ParsingError>)
        ensures
            r matches Ok(v) ==> uint_at(old(self).bytes(), old(self).position(), n as int)
                == Ok::<nat, ParsingError>(v@),
            r matches Err(e) ==> uint_at(old(self).bytes(), old(self).position(), n as int)
                == Err::<nat, ParsingError>(e),
            r is Ok ==> final(self).is_advanced(old(self), n as int),
            r is Err ==> final(self).is_advanced(old(self), 0),
    {
        proof {
            use_type_invariant(&*self);
        }
        if n == 0 {
            return Err(ParsingError::CannotReadZeroBytes);
        }
        if n > self.data.len() - self.position {
            return Err(ParsingError::NonBlockingReadNotSupported);
        }
        let value = BigUint::from_be_bytes(
            slice_subrange(self.data.as_slice(), self.position, self.position + n),
        );
        self.position = self.position + n;
        Ok(value)
    }

    /// Reads an Int of `n` bytes. The sign is kept also where the magnitude
    /// is zero.
    pub fn consume_int(&mut self, n: usize) -> (r: Result<BigInt, ParsingError>)
        ensures
            r matches Ok(v) ==> int_at(old(self).bytes(), old(self).position(), n as int)
                == Ok::<(bool, nat), ParsingError>((v.negative, v.magnitude@)),
            r matches Err(e) ==> int_at(old(self).bytes(), old(self).position(), n as int)
                == Err::<(bool, nat), ParsingError>(e),
            r is Ok ==> final(self).is_advanced(old(self), n as int),
            r is Err ==> final(self).is_advanced(old(self), 0),
    {
        proof {
            use_type_invariant(&*self);
        }
        if n == 0 {
            return Err(ParsingError::CannotReadZeroBytes);
        }
        if n > self.data.len() - self.position {
            return Err(ParsingError::NonBlockingReadNotSupported);
        }
        let mut field = slice_to_vec(
            slice_subrange(self.data.as_slice(), self.position, self.position + n),
        );
        let first: u8 = field[0];
        field.set(0, first % 128);
        let magnitude = BigUint::from_be_bytes(field.as_slice());
        self.position = self.position + n;
        Ok(BigInt { negative: first >= 128, magnitude })
    }

    /// Puts the cursor back to an earlier position; a position further on
    /// than the cursor leaves it where it is.
    pub fn go_back_to(&mut self, position: usize)
        ensures
            final(self).bytes() == old(self).bytes(),
            final(self).position() == (if position <= old(self).position() {
                position as int
            } else {
                old(self).position()
            }),
    {
        proof {
            use_type_invariant(&*self);
        }
        if position <= self.position {
            self.position = position;
        }
    }

    /// Skips the version markers that stand at the cursor and says whether
    /// there was any. Where one of them is no marker of this version, the
    /// cursor stays where it was.
    pub fn consume_version_markers(&mut self) -> (r: Result<bool, ParsingError>)
        ensures
            final(self).has_read_on(old(self)),
            r is Err ==> final(self).is_advanced(old(self), 0),
            r matches Ok(any) ==> markers_end(old(self).bytes(), old(self).position()) == Ok::<
                int,
                ParsingError,
            >(final(self).position()) && any == (final(self).position() != old(self).position())
                && old(self).position() <= final(self).position() <= final(self).bytes().len(),
            r matches Err(e) ==> markers_end(old(self).bytes(), old(self).position()) == Err::<
                int,
                ParsingError,
            >(e),
    {
        proof {
            use_type_invariant(&*self);
        }
        let ghost s = self.data@;
        let ghost start = self.position as int;
        let first: usize = self.position;
        let mut any = false;
        while self.position < self.data.len() && self.data[self.position] == 0xE0
            invariant
                s == old(self).data@,
                start == old(self).position,
                self.data@ == s,
                self.position <= s.len(),
                start <= self.position,
                first == start,
                any == (self.position != start),
                markers_end(s, start) == markers_end(s, self.position as int),
            decreases s.len() - self.position,
        {
            if self.data.len() - self.position < 4 {
                self.position = first;
                return Err(ParsingError::NonBlockingReadNotSupported);
            }
            if self.data[self.position + 3] != 0xEA {
                self.position = first;
                return Err(ParsingError::BinaryVersionMarkerNotFound);
            }
            if self.data[self.position + 1] != 1 || self.data[self.position + 2] != 0 {
                self.position = first;
                return Err(ParsingError::UnsupportedBinaryVersion);
            }
            self.position = self.position + 4;
            any = true;
        }
        Ok(any)
    }

    /// Reads the header byte at the cursor. Where it fails, the cursor stays
    /// where it was.
    pub fn consume_plain_header(&mut self) -> (r: Result<ValueHeader, ParsingError>)
        ensures
            r matches Ok(h) ==> plain_header_at(old(self).bytes(), old(self).position())
                == Ok::<(ValueHeader, int), ParsingError>((h, final(self).position())),
            r matches Err(e) ==> plain_header_at(old(self).bytes(), old(self).position())
                == Err::<(ValueHeader, int), ParsingError>(e),
            r is Ok ==> final(self).is_advanced(old(self), 1),
            r is Err ==> final(self).is_advanced(old(self), 0),
    {
        proof {
            use_type_invariant(&*self);
        }
        if self.position >= self.data.len() {
            return Err(ParsingError::NonBlockingReadNotSupported);
        }
        match ValueHeader::new(self.data[self.position]) {
            Err(e) => Err(e),
            Ok(header) => {
                self.position = self.position + 1;
                Ok(header)
            },
        }
    }

    /// Reads the next value header, skipping any version markers before it.
    /// Where a marker fails, the cursor stays where it was; where the header
    /// fails, it stays at the header.
    pub fn consume_value_header(&mut self) -> (r: Result<ValueHeader, ParsingError>)
        ensures
            final(self).has_read_on(old(self)),
            r is Err ==> final(self).position() == (match markers_end(
                old(self).bytes(),
                old(self).position(),
            ) {
                Ok(start) => start,
                Err(_) => old(self).position(),
            }),
            r matches Ok(h) ==> header_at(old(self).bytes(), old(self).position())
                == Ok::<(ValueHeader, int), ParsingError>((h, final(self).position())),
            r matches Err(e) ==> header_at(old(self).bytes(), old(self).position())
                == Err::<(ValueHeader, int), ParsingError>(e),
    {
        match self.consume_version_markers() {
            Err(e) => Err(e),
            Ok(_) => self.consume_plain_header(),
        }
    }
}

} // verus!

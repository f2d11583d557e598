//! Value headers of the Ion binary format, and the errors of the primitive
//! decoder.

use vstd::prelude::*;

verus! {

/// The length code of a value header.
#[derive(Debug, Clone, Copy, PartialEq, Eq, Structural)]
pub enum ValueLength {
    /// The payload is this many bytes long (0 to 13).
    ShortLength(u8),
    /// The payload's length follows the header as a VarUInt.
    LongLength,
    /// The value is a typed null and has no payload.
    NullValue,
}

/// The type code of a value header. A boolean's value is part of its header.
#[derive(Debug, Clone, Copy, PartialEq, Eq, Structural)]
pub enum ValueType {
    Null,
    Bool(bool),
    PositiveInt,
    NegativeInt,
    Float,
    Decimal,
    Timestamp,
    Symbol,
    String,
    Clob,
    Blob,
    List,
    SExpr,
    Struct,
    Annotation,
}

/// A decoded value header: the value's type and the length code of its payload.
#[derive(Debug, Clone, Copy, PartialEq, Eq, Structural)]
pub struct ValueHeader {
    pub value_type: ValueType,
    pub length: ValueLength,
}

/// What can go wrong while decoding primitives and headers.
#[derive(Debug, Clone, Copy, PartialEq, Eq, Structural)]
pub enum ParsingError {
    /// The source has fewer bytes left than the read asked for.
    NonBlockingReadNotSupported,
    /// A header of type null whose length code is not the null code.
    InvalidNullLength(ValueLength),
    /// A boolean header whose length code is none of 0, 1 and the null code.
    InvalidBoolLength,
    /// A float header whose length code is none of 0, 4, 8 and the null code.
    InvalidFloatLength,
    /// An annotation header too short to hold an annotation and a value.
    InvalidAnnotationLength,
    /// A header with the reserved type code 15.
    InvalidHeaderType,
    /// A VarUInt or UInt that does not fit in 64 bits.
    TooBigForU64,
    /// A VarInt of more than nine bytes.
    VarIntTooBigForI64,
    /// A UInt or Int of zero bytes was asked for.
    CannotReadZeroBytes,
    /// A byte `0xE0` that does not start a four-byte version marker.
    BinaryVersionMarkerNotFound,
    /// A version marker of a version other than 1.0.
    UnsupportedBinaryVersion,
}

/// The length code that a header's low nibble stands for.
pub open spec fn length_of_code(code: u8) -> ValueLength {
    if code == 15 {
        ValueLength::NullValue
    } else if code == 14 {
        ValueLength::LongLength
    } else {
        ValueLength::ShortLength(code)
    }
}

/// The type that a header's high nibble stands for, where the header is valid.
/// `code` is the low nibble, which holds a boolean's value.
pub open spec fn type_of_code(kind: u8, code: u8) -> ValueType {
    match kind {
        0 => ValueType::Null,
        1 => ValueType::Bool(code == 1),
        2 => ValueType::PositiveInt,
        3 => ValueType::NegativeInt,
        4 => ValueType::Float,
        5 => ValueType::Decimal,
        6 => ValueType::Timestamp,
        7 => ValueType::Symbol,
        8 => ValueType::String,
        9 => ValueType::Clob,
        10 => ValueType::Blob,
        11 => ValueType::List,
        12 => ValueType::SExpr,
        13 => ValueType::Struct,
        _ => ValueType::Annotation,
    }
}

/// The header that one byte encodes: type code in the high nibble, length code
/// in the low one. Null takes only the null code, a boolean the codes 0
/// (false), 1 (true) and null, a float the codes 0, 4, 8 and null, an
/// annotation no code below 3, and the type code 15 is reserved.
pub open spec fn header_of(byte: u8) -> Result<ValueHeader, ParsingError> {
    let kind = byte / 16;
    let code = byte % 16;
    let header = ValueHeader {
        value_type: type_of_code(kind, code),
        length: length_of_code(code),
    };
    if kind == 0 && code != 15 {
        Err(ParsingError::InvalidNullLength(length_of_code(code)))
    } else if kind == 1 && code != 0 && code != 1 && code != 15 {
        Err(ParsingError::InvalidBoolLength)
    } else if kind == 4 && code != 0 && code != 4 && code != 8 && code != 15 {
        Err(ParsingError::InvalidFloatLength)
    } else if kind == 14 && code < 3 {
        Err(ParsingError::InvalidAnnotationLength)
    } else if kind == 15 {
        Err(ParsingError::InvalidHeaderType)
    } else {
        Ok(header)
    }
}

impl ValueHeader {
    /// Decodes a header byte.
    pub fn new(byte: u8) -> (r: Result<ValueHeader, ParsingError>)
        ensures
            r == header_of(byte),
    {
        let kind: u8 = byte / 16;
        let code: u8 = byte % 16;
        let length = if code == 15 {
            ValueLength::NullValue
        } else if code == 14 {
            ValueLength::LongLength
        } else {
            ValueLength::ShortLength(code)
        };
        let value_type = match kind {
            0 => {
                if code != 15 {
                    return Err(ParsingError::InvalidNullLength(length));
                }
                ValueType::Null
            },
            1 => {
                if code != 0 && code != 1 && code != 15 {
                    return Err(ParsingError::InvalidBoolLength);
                }
                ValueType::Bool(code == 1)
            },
            2 => ValueType::PositiveInt,
            3 => ValueType::NegativeInt,
            4 => {
                if code != 0 && code != 4 && code != 8 && code != 15 {
                    return Err(ParsingError::InvalidFloatLength);
                }
                ValueType::Float
            },
            5 => ValueType::Decimal,
            6 => ValueType::Timestamp,
            7 => ValueType::Symbol,
            8 => ValueType::String,
            9 => ValueType::Clob,
            10 => ValueType::Blob,
            11 => ValueType::List,
            12 => ValueType::SExpr,
            13 => ValueType::Struct,
            14 => {
                if code < 3 {
                    return Err(ParsingError::InvalidAnnotationLength);
                }
                ValueType::Annotation
            },
            _ => {
                return Err(ParsingError::InvalidHeaderType);
            },
        };
        Ok(ValueHeader { value_type, length })
    }
}

} // verus!

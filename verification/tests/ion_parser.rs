use ion_binary_rs::binary_parser_types::{ParsingError, ValueHeader, ValueLength, ValueType};
use ion_binary_rs::ion_parser::{promote_bits, IonParser};
use ion_binary_rs::ion_parser_types::{
    Decimal, IonParserError, IonValue, NullIonValue, Timestamp, TimestampPrecision,
};
use ion_binary_rs::numbers::{BigInt, BigUint};
use ion_binary_rs::symbol_table::SharedTable;

const VERSION_MARKER: [u8; 4] = [0xE0, 0x01, 0x00, 0xEA];

fn text(s: &str) -> String {
    s.to_string()
}

fn decode(bytes: &[u8]) -> Result<IonValue, IonParserError> {
    IonParser::new(bytes.to_vec()).consume_value().map(|found| found.0)
}

fn decode_all(bytes: &[u8]) -> (Vec<IonValue>, IonParserError) {
    let mut parser = IonParser::new(bytes.to_vec());
    let mut values = vec![];
    loop {
        match parser.consume_value() {
            Ok((value, _)) => values.push(value),
            Err(e) => return (values, e),
        }
    }
}

fn binary(e: ParsingError) -> IonParserError {
    IonParserError::BinaryError(e)
}

/// A local symbol table that declares these symbols and, where `append` is
/// set, keeps the symbols before it.
fn local_table(symbols: &[&str], append: bool) -> Vec<u8> {
    let mut list = vec![];
    for symbol in symbols {
        list.push(0x80 | symbol.len() as u8);
        list.extend(symbol.as_bytes());
    }
    let mut fields = vec![];
    if append {
        fields.extend([0x86, 0x71, 0x03]);
    }
    fields.push(0x87);
    fields.push(0xB0 | list.len() as u8);
    fields.extend(list);
    let mut wrapper = vec![0x81, 0x83, 0xD0 | fields.len() as u8];
    wrapper.extend(fields);
    let mut out = vec![0xEE, 0x80 | wrapper.len() as u8];
    out.extend(wrapper);
    out
}

#[test]
fn typed_nulls() {
    let cases = [
        (0x0Fu8, NullIonValue::Null),
        (0x1F, NullIonValue::Bool),
        (0x2F, NullIonValue::Integer),
        (0x3F, NullIonValue::Integer),
        (0x4F, NullIonValue::Float),
        (0x5F, NullIonValue::Decimal),
        (0x6F, NullIonValue::Timestamp),
        (0x7F, NullIonValue::Symbol),
        (0x8F, NullIonValue::String),
        (0x9F, NullIonValue::Clob),
        (0xAF, NullIonValue::Blob),
        (0xBF, NullIonValue::List),
        (0xCF, NullIonValue::SExp),
        (0xDF, NullIonValue::Struct),
    ];
    for (byte, kind) in cases {
        assert_eq!(decode(&[byte]), Ok(IonValue::Null(kind)));
    }
    assert_eq!(decode(&[0xEF]), Err(IonParserError::NullAnnotationFound));
    assert_eq!(decode(&[0x0E]), Err(binary(ParsingError::InvalidNullLength(ValueLength::LongLength))));
}

#[test]
fn booleans() {
    assert_eq!(decode(&[0x10]), Ok(IonValue::Bool(false)));
    assert_eq!(decode(&[0x11]), Ok(IonValue::Bool(true)));
    assert_eq!(decode(&[0x12]), Err(binary(ParsingError::InvalidBoolLength)));
}

#[test]
fn integers() {
    assert_eq!(decode(&[0x20]), Ok(IonValue::Integer(0)));
    assert_eq!(decode(&[0x21, 0x05]), Ok(IonValue::Integer(5)));
    assert_eq!(decode(&[0x31, 0x05]), Ok(IonValue::Integer(-5)));
    assert_eq!(decode(&[0x31, 0x00]), Ok(IonValue::Integer(0)));
    assert_eq!(decode(&[0x22, 0x08, 0x88]), Ok(IonValue::Integer(2184)));
    assert_eq!(decode(&[0x30]), Err(IonParserError::InvalidNegativeInt));
    assert_eq!(
        decode(&[0x28, 0x7F, 0xFF, 0xFF, 0xFF, 0xFF, 0xFF, 0xFF, 0xFF]),
        Ok(IonValue::Integer(i64::MAX))
    );
    assert_eq!(
        decode(&[0x38, 0x80, 0, 0, 0, 0, 0, 0, 0]),
        Ok(IonValue::Integer(i64::MIN))
    );
    assert_eq!(
        decode(&[0x28, 0x80, 0, 0, 0, 0, 0, 0, 0]),
        Ok(IonValue::BigInteger(BigInt {
            negative: false,
            magnitude: BigUint::from_u64(1 << 63),
        }))
    );
    assert_eq!(
        decode(&[0x38, 0x80, 0, 0, 0, 0, 0, 0, 1]),
        Ok(IonValue::BigInteger(BigInt {
            negative: true,
            magnitude: BigUint::from_u64((1 << 63) + 1),
        }))
    );
    assert_eq!(
        decode(&[0x29, 0x00, 0x00, 0, 0, 0, 0, 0, 0, 7]),
        Ok(IonValue::Integer(7))
    );
    assert_eq!(
        decode(&[0x2E, 0x8E, 0, 0, 0, 0, 0, 0, 0, 0, 0, 0, 0, 0, 0x01, 0x00]),
        Ok(IonValue::Integer(256))
    );
    assert_eq!(decode(&[0x22, 0x05]), Err(binary(ParsingError::NonBlockingReadNotSupported)));
}

#[test]
fn floats() {
    assert_eq!(decode(&[0x40]), Ok(IonValue::Float(0)));
    assert_eq!(
        decode(&[0x44, 0x3F, 0x80, 0x00, 0x00]),
        Ok(IonValue::Float(1.0f64.to_bits()))
    );
    assert_eq!(
        decode(&[0x44, 0xC0, 0x20, 0x00, 0x00]),
        Ok(IonValue::Float((-2.5f64).to_bits()))
    );
    assert_eq!(
        decode(&[0x48, 0x40, 0x09, 0x21, 0xFB, 0x54, 0x44, 0x2D, 0x18]),
        Ok(IonValue::Float(std::f64::consts::PI.to_bits()))
    );
    assert_eq!(
        decode(&[0x48, 0x80, 0, 0, 0, 0, 0, 0, 0]),
        Ok(IonValue::Float((-0.0f64).to_bits()))
    );
    assert_eq!(decode(&[0x43, 0, 0, 0]), Err(binary(ParsingError::InvalidFloatLength)));
}

#[test]
fn promotion_keeps_the_value() {
    let samples: [f32; 16] = [
        0.0,
        -0.0,
        1.0,
        -1.0,
        0.1,
        3.4028235e38,
        -3.4028235e38,
        1.17549435e-38,
        1.0e-45,
        -1.0e-45,
        5.877472e-39,
        1.1754942e-38,
        123456.79,
        f32::INFINITY,
        f32::NEG_INFINITY,
        f32::EPSILON,
    ];
    for x in samples {
        assert_eq!(promote_bits(x.to_bits()), (x as f64).to_bits());
        assert_eq!(f64::from_bits(promote_bits(x.to_bits())), x as f64);
    }
    for shift in 0..23 {
        let bits: u32 = 1 << shift;
        assert_eq!(promote_bits(bits), (f32::from_bits(bits) as f64).to_bits());
        let bits = bits | 1;
        assert_eq!(promote_bits(bits), (f32::from_bits(bits) as f64).to_bits());
    }
    assert!(f64::from_bits(promote_bits(f32::NAN.to_bits())).is_nan());
    assert_eq!(promote_bits(0x7FC0_0000), 0x7FF8_0000_0000_0000);
}

#[test]
fn decimals() {
    assert_eq!(
        decode(&[0x50]),
        Ok(IonValue::Decimal(Decimal { coefficient: BigInt::from_i64(0), exponent: 0 }))
    );
    assert_eq!(
        decode(&[0x52, 0xC1, 0x05]),
        Ok(IonValue::Decimal(Decimal { coefficient: BigInt::from_i64(5), exponent: -1 }))
    );
    assert_eq!(
        decode(&[0x53, 0x82, 0x88, 0x88]),
        Ok(IonValue::Decimal(Decimal { coefficient: BigInt::from_i64(-2184), exponent: 2 }))
    );
    assert_eq!(
        decode(&[0x51, 0x83]),
        Ok(IonValue::Decimal(Decimal { coefficient: BigInt::from_i64(0), exponent: 3 }))
    );
    assert_eq!(
        decode(&[0x52, 0x80, 0x80]),
        Ok(IonValue::Decimal(Decimal {
            coefficient: BigInt { negative: true, magnitude: BigUint::from_u64(0) },
            exponent: 0,
        }))
    );
    assert_eq!(
        decode(&[0x55, 0x08, 0x00, 0x00, 0x00, 0x80]),
        Err(IonParserError::DecimalExponentTooBig)
    );
    assert_eq!(
        decode(&[0x55, 0x07, 0x7F, 0x7F, 0x7F, 0xFF]),
        Ok(IonValue::Decimal(Decimal { coefficient: BigInt::from_i64(0), exponent: i32::MAX }))
    );
    assert_eq!(decode(&[0x51, 0x01, 0x80]), Err(IonParserError::BadFormatLengthFound));
}

#[test]
fn timestamps() {
    let year = Timestamp {
        offset: None,
        year: 2019,
        month: None,
        day: None,
        time: None,
        second: None,
        fraction: None,
    };
    assert_eq!(decode(&[0x63, 0xC0, 0x0F, 0xE3]), Ok(IonValue::Timestamp(year.clone())));
    assert_eq!(year.precision(), TimestampPrecision::Year);

    let full = Timestamp {
        offset: Some(0),
        year: 2019,
        month: Some(1),
        day: Some(2),
        time: Some((3, 4)),
        second: Some(5),
        fraction: Some(Decimal { coefficient: BigInt::from_i64(123), exponent: -3 }),
    };
    assert_eq!(
        decode(&[0x6A, 0x80, 0x0F, 0xE3, 0x81, 0x82, 0x83, 0x84, 0x85, 0xC3, 0x7B]),
        Ok(IonValue::Timestamp(full.clone()))
    );
    assert_eq!(full.precision(), TimestampPrecision::Fraction);

    let minute = Timestamp {
        offset: Some(-480),
        year: 2019,
        month: Some(12),
        day: Some(31),
        time: Some((23, 59)),
        second: None,
        fraction: None,
    };
    assert_eq!(
        decode(&[0x68, 0x43, 0xE0, 0x0F, 0xE3, 0x8C, 0x9F, 0x97, 0xBB]),
        Ok(IonValue::Timestamp(minute.clone()))
    );
    assert_eq!(minute.precision(), TimestampPrecision::Minute);

    let second = Timestamp { second: Some(7), ..minute.clone() };
    assert_eq!(second.precision(), TimestampPrecision::Second);
    let day = Timestamp { time: None, ..minute.clone() };
    assert_eq!(day.precision(), TimestampPrecision::Day);
    let month = Timestamp { day: None, ..day.clone() };
    assert_eq!(month.precision(), TimestampPrecision::Month);

    // An hour without a minute.
    assert_eq!(
        decode(&[0x66, 0x80, 0x0F, 0xE3, 0x81, 0x82, 0x83]),
        Err(IonParserError::BadFormatLengthFound)
    );
    // No year.
    assert_eq!(decode(&[0x61, 0x80]), Err(IonParserError::BadFormatLengthFound));
    // A year that reaches beyond the payload.
    assert_eq!(decode(&[0x62, 0x80, 0x0F, 0xE3]), Err(IonParserError::BadFormatLengthFound));
}

#[test]
fn symbols() {
    assert_eq!(decode(&[0x71, 0x04]), Ok(IonValue::Symbol(text("name"))));
    assert_eq!(decode(&[0x72, 0x00, 0x09]), Ok(IonValue::Symbol(text("$ion_shared_symbol_table"))));
    assert_eq!(decode(&[0x71, 0x0A]), Err(IonParserError::SymbolNotFound(10)));
    assert_eq!(decode(&[0x70]), Err(IonParserError::SymbolNotFound(0)));
    assert_eq!(decode(&[0x71, 0x00]), Err(IonParserError::SymbolNotFound(0)));
    assert_eq!(
        decode(&[0x79, 0x01, 0, 0, 0, 0, 0, 0, 0, 0]),
        Err(IonParserError::SymbolIdTooBig)
    );
}

#[test]
fn strings_and_lobs() {
    assert_eq!(decode(&[0x80]), Ok(IonValue::String(text(""))));
    assert_eq!(
        decode(&[0x85, b'h', b'e', b'l', b'l', b'o']),
        Ok(IonValue::String(text("hello")))
    );
    assert_eq!(
        decode(&[0x84, 0xF0, 0x9F, 0x98, 0x80]),
        Ok(IonValue::String(text("\u{1F600}")))
    );
    let long = "a string of more than thirteen bytes";
    let mut stream = vec![0x8E, 0x80 | long.len() as u8];
    stream.extend(long.as_bytes());
    assert_eq!(decode(&stream), Ok(IonValue::String(text(long))));
    assert_eq!(decode(&[0x81, 0xFF]), Err(IonParserError::BadFormatUtf8));
    assert_eq!(decode(&[0x82, 0xC3, 0x28]), Err(IonParserError::BadFormatUtf8));
    assert_eq!(decode(&[0x92, 0xFF, 0x00]), Ok(IonValue::Clob(vec![0xFF, 0x00])));
    assert_eq!(decode(&[0xA2, 0xFF, 0x00]), Ok(IonValue::Blob(vec![0xFF, 0x00])));
    assert_ne!(decode(&[0x92, 0xFF, 0x00]), decode(&[0xA2, 0xFF, 0x00]));
    assert_eq!(decode(&[0x85, b'h']), Err(binary(ParsingError::NonBlockingReadNotSupported)));
}

#[test]
fn lists_and_sexps() {
    assert_eq!(decode(&[0xB0]), Ok(IonValue::List(vec![])));
    assert_eq!(
        decode(&[0xB4, 0x11, 0x21, 0x05, 0xB0]),
        Ok(IonValue::List(vec![
            IonValue::Bool(true),
            IonValue::Integer(5),
            IonValue::List(vec![]),
        ]))
    );
    assert_eq!(
        decode(&[0xC2, 0x11, 0x10]),
        Ok(IonValue::SExp(vec![IonValue::Bool(true), IonValue::Bool(false)]))
    );
    assert_ne!(decode(&[0xC2, 0x11, 0x10]), decode(&[0xB2, 0x11, 0x10]));
    assert_eq!(decode(&[0xB1, 0x21, 0x05]), Err(IonParserError::BadFormatLengthFound));
    assert_eq!(decode(&[0xB2, 0x21]), Err(binary(ParsingError::NonBlockingReadNotSupported)));
    assert_eq!(decode(&[0xB1, 0xE0]), Err(binary(ParsingError::InvalidAnnotationLength)));
}

#[test]
fn structs() {
    assert_eq!(decode(&[0xD0]), Ok(IonValue::Struct(vec![])));
    let expected = IonValue::Struct(vec![
        (text("name"), IonValue::Integer(1)),
        (text("version"), IonValue::Bool(true)),
        (text("name"), IonValue::Integer(2)),
    ]);
    assert_eq!(
        decode(&[0xD8, 0x84, 0x21, 0x01, 0x85, 0x11, 0x84, 0x21, 0x02]),
        Ok(expected.clone())
    );
    assert_eq!(
        decode(&[0xD1, 0x88, 0x84, 0x21, 0x01, 0x85, 0x11, 0x84, 0x21, 0x02]),
        Ok(expected.clone())
    );
    assert_eq!(
        decode(&[0xDE, 0x88, 0x84, 0x21, 0x01, 0x85, 0x11, 0x84, 0x21, 0x02]),
        Ok(expected)
    );
    assert_eq!(decode(&[0xD3, 0x8A, 0x21, 0x01]), Err(IonParserError::SymbolNotFound(10)));
    assert_eq!(decode(&[0xD2, 0x84, 0x21, 0x01]), Err(IonParserError::BadFormatLengthFound));
    assert_eq!(decode(&[0xD1, 0x81, 0x84, 0x10]), Err(IonParserError::BadFormatLengthFound));
    assert_eq!(
        decode(&[0xD1, 0x81, 0x84]),
        Err(binary(ParsingError::NonBlockingReadNotSupported))
    );
}

#[test]
fn annotations() {
    assert_eq!(
        decode(&[0xE4, 0x81, 0x84, 0x21, 0x01]),
        Ok(IonValue::Annotation(vec![text("name")], Box::new(IonValue::Integer(1))))
    );
    assert_eq!(
        decode(&[0xE5, 0x82, 0x84, 0x85, 0x21, 0x01]),
        Ok(IonValue::Annotation(
            vec![text("name"), text("version")],
            Box::new(IonValue::Integer(1))
        ))
    );
    assert_eq!(decode(&[0xE3, 0x80, 0x21, 0x01]), Err(IonParserError::EmptyAnnotationFound));
    assert_eq!(decode(&[0xE4, 0x81, 0x8A, 0x21, 0x01]), Err(IonParserError::SymbolNotFound(10)));
    assert_eq!(decode(&[0xE3, 0x82, 0x84, 0x85]), Err(IonParserError::BadFormatLengthFound));
    assert_eq!(decode(&[0xE5, 0x81, 0x84, 0x21, 0x01, 0x10]), Err(IonParserError::BadFormatLengthFound));
    assert_eq!(decode(&[0xE4, 0x81, 0x84, 0x10, 0x10]), Err(IonParserError::BadFormatLengthFound));
    assert_eq!(decode(&[0xE2, 0x81, 0x84]), Err(binary(ParsingError::InvalidAnnotationLength)));
}

#[test]
fn consume_annotation_after_its_header() {
    let mut parser = IonParser::new(vec![0x81, 0x84, 0x21, 0x01, 0x11]);
    let header = ValueHeader {
        value_type: ValueType::Annotation,
        length: ValueLength::ShortLength(4),
    };
    assert_eq!(
        parser.consume_annotation(&header),
        Ok(IonValue::Annotation(vec![text("name")], Box::new(IonValue::Integer(1))))
    );
    assert_eq!(parser.consume_value().map(|found| found.0), Ok(IonValue::Bool(true)));

    let mut parser = IonParser::new(vec![0x84, 0x81, 0x84, 0x21, 0x01]);
    let header = ValueHeader {
        value_type: ValueType::Annotation,
        length: ValueLength::LongLength,
    };
    assert_eq!(
        parser.consume_annotation(&header),
        Ok(IonValue::Annotation(vec![text("name")], Box::new(IonValue::Integer(1))))
    );

    let mut parser = IonParser::new(vec![0x81, 0x84, 0x21, 0x01]);
    let header = ValueHeader {
        value_type: ValueType::Annotation,
        length: ValueLength::NullValue,
    };
    assert_eq!(parser.consume_annotation(&header), Err(IonParserError::NullAnnotationFound));
    assert_eq!(parser.consumed(), 0);
}

#[test]
fn consume_annotation_takes_a_symbol_table_into_the_context() {
    let header = ValueHeader {
        value_type: ValueType::Annotation,
        length: ValueLength::ShortLength(9),
    };
    let table = [0x81, 0x83, 0xD6, 0x87, 0xB4, 0x81, 0x61, 0x81, 0x62];

    let mut stream = table.to_vec();
    stream.extend([0x71, 0x0B]);
    let mut parser = IonParser::new(stream);
    assert_eq!(parser.consume_annotation(&header), Ok(IonValue::Symbol(text("b"))));
    assert_eq!(parser.consumed(), 11);
    assert_eq!(parser.consume_value().map(|found| found.0), Err(IonParserError::EndOfStream));

    // The table is not handed out: behind it the stream ends.
    let mut parser = IonParser::new(table.to_vec());
    assert_eq!(parser.consume_annotation(&header), Err(IonParserError::EndOfStream));
    assert_eq!(parser.consumed(), 9);

    // The symbols stay in the context for the values that follow.
    let mut stream = table.to_vec();
    stream.extend([0x71, 0x0A, 0x71, 0x0B, 0x71, 0x0C]);
    let mut parser = IonParser::new(stream);
    assert_eq!(parser.consume_annotation(&header), Ok(IonValue::Symbol(text("a"))));
    let (value, context) = parser.consume_value().unwrap();
    assert_eq!(value, IonValue::Symbol(text("b")));
    assert_eq!(context.resolve(10), Some(text("a")));
    assert_eq!(context.resolve(11), Some(text("b")));
    assert_eq!(
        parser.consume_value().map(|found| found.0),
        Err(IonParserError::SymbolNotFound(12))
    );

    // A second table behind the first is taken in too.
    let mut stream = table.to_vec();
    stream.extend(local_table(&["c"], true));
    stream.extend([0x71, 0x0C]);
    let mut parser = IonParser::new(stream);
    assert_eq!(parser.consume_annotation(&header), Ok(IonValue::Symbol(text("c"))));

    // A table that wraps no struct.
    let header = ValueHeader {
        value_type: ValueType::Annotation,
        length: ValueLength::ShortLength(4),
    };
    let mut parser = IonParser::new(vec![0x81, 0x83, 0x21, 0x01]);
    assert_eq!(
        parser.consume_annotation(&header),
        Err(IonParserError::LocalSymbolTableWithoutStruct)
    );
    assert_eq!(parser.consumed(), 0);

    // A wrapper that is cut short.
    let mut parser = IonParser::new(vec![0x81, 0x84, 0x21]);
    assert!(parser.consume_annotation(&header).is_err());
    assert_eq!(parser.consumed(), 0);
}

#[test]
fn a_failure_leaves_the_cursor_at_what_failed() {
    // The second value is a string whose payload is cut short.
    let mut parser = IonParser::new(vec![0x21, 0x05, 0x85, b'h']);
    assert!(parser.consume_value().is_ok());
    assert_eq!(parser.consumed(), 2);
    assert!(parser.consume_value().is_err());
    assert_eq!(parser.consumed(), 2);
    assert!(parser.consume_value().is_err());
    assert_eq!(parser.consumed(), 2);

    // A list whose second value has an unknown symbol.
    let mut parser = IonParser::new(vec![0x11, 0xB4, 0x21, 0x05, 0x71, 0x0A, 0x10]);
    assert!(parser.consume_value().is_ok());
    assert_eq!(
        parser.consume_value().map(|found| found.0),
        Err(IonParserError::SymbolNotFound(10))
    );
    assert_eq!(parser.consumed(), 1);

    // A local symbol table stays taken in; the value behind it fails.
    let mut stream = local_table(&["a"], false);
    let table_end = stream.len();
    stream.extend([0xE0, 0x01, 0x00, 0xEA, 0x71, 0x0A]);
    let mut parser = IonParser::new(stream);
    assert_eq!(
        parser.consume_value().map(|found| found.0),
        Err(IonParserError::SymbolNotFound(10))
    );
    assert_eq!(parser.consumed(), table_end);

    // A header of the reserved type is not passed over.
    let mut parser = IonParser::new(vec![0x11, 0xF0]);
    assert!(parser.consume_value().is_ok());
    assert_eq!(
        parser.consume_value().map(|found| found.0),
        Err(binary(ParsingError::InvalidHeaderType))
    );
    assert_eq!(parser.consumed(), 1);
}

#[test]
fn nesting_is_capped() {
    let nested = |levels: usize| {
        let mut stream = vec![0xB0];
        for _ in 1..levels {
            let mut outer = vec![0xBE];
            let mut groups = vec![(stream.len() % 128) as u8 | 0x80];
            let mut rest = stream.len() / 128;
            while rest > 0 {
                groups.insert(0, (rest % 128) as u8);
                rest /= 128;
            }
            outer.extend(groups);
            outer.extend(stream);
            stream = outer;
        }
        stream
    };
    let mut expected = IonValue::List(vec![]);
    for _ in 1..100 {
        expected = IonValue::List(vec![expected]);
    }
    assert_eq!(decode(&nested(100)), Ok(expected));
    assert_eq!(decode(&nested(101)), Err(IonParserError::DepthLimitExceeded));
    assert_eq!(decode(&nested(500)), Err(IonParserError::DepthLimitExceeded));
}

#[test]
fn end_of_stream_is_told_apart() {
    assert_eq!(decode(&[]), Err(IonParserError::EndOfStream));
    assert_eq!(decode(&VERSION_MARKER), Err(IonParserError::EndOfStream));
    let (values, end) = decode_all(&[0xE0, 0x01, 0x00, 0xEA, 0x11, 0x10, 0x21, 0x07]);
    assert_eq!(values, vec![IonValue::Bool(true), IonValue::Bool(false), IonValue::Integer(7)]);
    assert_eq!(end, IonParserError::EndOfStream);
    let (values, end) = decode_all(&[0x11, 0x21]);
    assert_eq!(values, vec![IonValue::Bool(true)]);
    assert_eq!(end, binary(ParsingError::NonBlockingReadNotSupported));
    assert_eq!(decode(&[0xE0, 0x01, 0x00]), Err(binary(ParsingError::NonBlockingReadNotSupported)));
    assert_eq!(decode(&[0xE0, 0x02, 0x00, 0xEA]), Err(binary(ParsingError::UnsupportedBinaryVersion)));
    assert_eq!(decode(&[0xE0, 0x01, 0x00, 0x00]), Err(binary(ParsingError::BinaryVersionMarkerNotFound)));
    assert_eq!(decode(&[0xF0]), Err(binary(ParsingError::InvalidHeaderType)));
    assert_eq!(decode(&[0x8E]), Err(binary(ParsingError::NonBlockingReadNotSupported)));
    assert_eq!(
        decode(&[0x8E, 0x01, 0x01, 0x01, 0x01, 0x01, 0x01, 0x01, 0x01, 0x01, 0x01, 0x81]),
        Err(binary(ParsingError::TooBigForU64))
    );
}

#[test]
fn local_symbols_get_the_next_ids() {
    let mut stream = VERSION_MARKER.to_vec();
    stream.extend(local_table(&["a", "b"], false));
    stream.extend([0x71, 0x0A, 0x71, 0x0B, 0x71, 0x0C]);
    let (values, end) = decode_all(&stream);
    assert_eq!(values, vec![IonValue::Symbol(text("a")), IonValue::Symbol(text("b"))]);
    assert_eq!(end, IonParserError::SymbolNotFound(12));

    let mut parser = IonParser::new(stream);
    let (value, context) = parser.consume_value().unwrap();
    assert_eq!(value, IonValue::Symbol(text("a")));
    assert_eq!(context.resolve(9), Some(text("$ion_shared_symbol_table")));
    assert_eq!(context.resolve(10), Some(text("a")));
    assert_eq!(context.resolve(11), Some(text("b")));
    assert_eq!(context.resolve(12), None);
}

#[test]
fn local_tables_append_or_replace() {
    let mut stream = local_table(&["a", "b"], false);
    stream.extend(local_table(&["c"], true));
    stream.extend([0x71, 0x0A, 0x71, 0x0C, 0x71, 0x0D]);
    let (values, end) = decode_all(&stream);
    assert_eq!(values, vec![IonValue::Symbol(text("a")), IonValue::Symbol(text("c"))]);
    assert_eq!(end, IonParserError::SymbolNotFound(13));

    let mut stream = local_table(&["a", "b"], false);
    stream.extend(local_table(&["c"], false));
    stream.extend([0x71, 0x0A, 0x71, 0x0B]);
    let (values, end) = decode_all(&stream);
    assert_eq!(values, vec![IonValue::Symbol(text("c"))]);
    assert_eq!(end, IonParserError::SymbolNotFound(11));

    let mut stream = local_table(&["a", "b"], false);
    stream.extend(VERSION_MARKER);
    stream.extend([0x71, 0x0A]);
    let (values, end) = decode_all(&stream);
    assert_eq!(values, vec![]);
    assert_eq!(end, IonParserError::SymbolNotFound(10));
}

#[test]
fn symbols_that_are_no_strings_keep_their_slot() {
    // symbols: ["a", 5, "c", false]
    let stream = [
        0xEC, 0x81, 0x83, 0xD9, 0x87, 0xB7, 0x81, b'a', 0x21, 0x05, 0x81, b'c', 0x10, 0x71, 0x0A,
        0x71, 0x0C, 0x71, 0x0D, 0x71, 0x0B,
    ];
    let (values, end) = decode_all(&stream);
    assert_eq!(values, vec![IonValue::Symbol(text("a")), IonValue::Symbol(text("c"))]);
    assert_eq!(end, IonParserError::SymbolNotFound(13));
}

/// A local symbol table that imports `colours`, version 2, with that
/// `max_id`, and declares the symbol `own`.
fn importing_table(max_id: u8) -> Vec<u8> {
    let mut entry = vec![0x84, 0x87];
    entry.extend(b"colours");
    entry.extend([0x85, 0x21, 0x02, 0x88, 0x21, max_id]);
    let mut fields = vec![0x86, 0xBE, 0x80 | (entry.len() + 2) as u8, 0xDE, 0x80 | entry.len() as u8];
    fields.extend(entry);
    fields.extend([0x87, 0xB4, 0x83]);
    fields.extend(b"own");
    let mut wrapper = vec![0x81, 0x83, 0xDE, 0x80 | fields.len() as u8];
    wrapper.extend(fields);
    let mut out = vec![0xEE, 0x80 | wrapper.len() as u8];
    out.extend(wrapper);
    out
}

#[test]
fn imports_take_max_id_slots() {
    let mut stream = importing_table(4);
    stream.extend([0x71, 0x0E, 0x71, 0x0A]);
    let (values, end) = decode_all(&stream);
    assert_eq!(values, vec![IonValue::Symbol(text("own"))]);
    assert_eq!(end, IonParserError::SymbolNotFound(10));

    let mut parser = IonParser::new(stream);
    parser.add_shared_table(SharedTable {
        name: text("colours"),
        version: 2,
        symbols: vec![text("red"), text("green")],
    });
    let (value, context) = parser.consume_value().unwrap();
    assert_eq!(value, IonValue::Symbol(text("own")));
    assert_eq!(parser.consume_value().map(|found| found.0), Ok(IonValue::Symbol(text("red"))));
    assert_eq!(context.resolve(10), Some(text("red")));
    assert_eq!(context.resolve(11), Some(text("green")));
    assert_eq!(context.resolve(12), None);
    assert_eq!(context.resolve(13), None);
    assert_eq!(context.resolve(14), Some(text("own")));
    assert_eq!(context.resolve(15), None);
}

#[test]
fn a_symbol_table_has_to_wrap_a_struct() {
    assert_eq!(
        decode(&[0xE4, 0x81, 0x83, 0x21, 0x01]),
        Err(IonParserError::LocalSymbolTableWithoutStruct)
    );
    // Inside another value it is a value like any other.
    assert_eq!(
        decode(&[0xB5, 0xE4, 0x81, 0x83, 0x21, 0x01]),
        Ok(IonValue::List(vec![IonValue::Annotation(
            vec![text("$ion_symbol_table")],
            Box::new(IonValue::Integer(1))
        )]))
    );
    // Only the first annotation counts.
    assert_eq!(
        decode(&[0xE5, 0x82, 0x84, 0x83, 0x21, 0x01]),
        Ok(IonValue::Annotation(
            vec![text("name"), text("$ion_symbol_table")],
            Box::new(IonValue::Integer(1))
        ))
    );
}

#[test]
fn version_marker_then_annotation_header() {
    let stream = b"\xe0\x01\0\xea\xee\xa6\x81\x83\xde\xa2\x87\xbe\x9f\x83V".to_vec();
    let mut parser = IonParser::new(stream);
    assert_eq!(
        parser.consume_value().map(|found| found.0),
        Err(binary(ParsingError::NonBlockingReadNotSupported))
    );
}

#[test]
fn the_offset_is_told() {
    let mut parser = IonParser::new(vec![0xE0, 0x01, 0x00, 0xEA, 0x21, 0x05, 0xB2, 0x11, 0x10]);
    assert_eq!(parser.consumed(), 0);
    assert_eq!(parser.consume_value().map(|found| found.0), Ok(IonValue::Integer(5)));
    assert_eq!(parser.consumed(), 6);
    assert!(parser.consume_value().is_ok());
    assert_eq!(parser.consumed(), 9);
    assert_eq!(parser.consume_value().map(|found| found.0), Err(IonParserError::EndOfStream));
    assert_eq!(parser.consumed(), 9);
}

#[test]
fn arbitrary_bytes_end_in_a_value_or_an_error() {
    for first in 0..=255u8 {
        for second in 0..=255u8 {
            let (values, _) = decode_all(&[first, second, 0x80, 0x01]);
            assert!(values.len() <= 4);
        }
    }
    let mut state: u64 = 0x2545_F491_4F6C_DD1D;
    for round in 0..2000 {
        let length = 1 + round % 40;
        let mut stream = vec![];
        for _ in 0..length {
            state ^= state << 13;
            state ^= state >> 7;
            state ^= state << 17;
            stream.push((state >> 32) as u8);
        }
        let mut parser = IonParser::new(stream.clone());
        let mut before = 0;
        while let Ok((value, _)) = parser.consume_value() {
            assert!(parser.consumed() > before);
            assert!(parser.consumed() <= stream.len());
            before = parser.consumed();
            assert_eq!(value.clone(), value);
            assert_eq!(
                ion_binary_rs::IonHash::default_digest(&value),
                ion_binary_rs::IonHash::default_digest(&value.clone())
            );
        }
    }
}

#[test]
fn clones_are_equal() {
    let value = decode(&[0xD8, 0x84, 0x21, 0x01, 0x85, 0x11, 0x84, 0x21, 0x02]).unwrap();
    assert_eq!(value.clone(), value);
    let value = decode(&[0x6A, 0x80, 0x0F, 0xE3, 0x81, 0x82, 0x83, 0x84, 0x85, 0xC3, 0x7B]).unwrap();
    assert_eq!(value.clone(), value);
    let value = decode(&[0xE5, 0x82, 0x84, 0x85, 0xB1, 0x50]).unwrap();
    assert_eq!(value.clone(), value);
}

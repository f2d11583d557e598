use ion_binary_rs::hasher::{Hasher, Sha256, Sha512};
use ion_binary_rs::ion_hash::{bytes_equal, bytes_precede, IonHash};
use ion_binary_rs::ion_hash_encoder::{encode_value, escape, type_qualifier_of};
use ion_binary_rs::ion_parser_types::{Decimal, IonValue, NullIonValue, Timestamp};
use ion_binary_rs::numbers::{BigInt, BigUint};
use sha2::Digest;

fn text(s: &str) -> String {
    s.to_string()
}

fn sha256(bytes: &[u8]) -> Vec<u8> {
    sha2::Sha256::digest(bytes).to_vec()
}

fn hex(s: &str) -> Vec<u8> {
    (0..s.len() / 2)
        .map(|i| u8::from_str_radix(&s[2 * i..2 * i + 2], 16).unwrap())
        .collect()
}

fn framed(digest: &[u8]) -> Vec<u8> {
    let mut out = vec![0x0B];
    out.extend(escape(digest));
    out.push(0x0E);
    out
}

#[test]
fn sha256_digests_are_the_known_ones() {
    assert_eq!(
        Sha256::digest(b""),
        hex("e3b0c44298fc1c149afbf4c8996fb92427ae41e4649b934ca495991b7852b855")
    );
    assert_eq!(
        Sha256::digest(b"abc"),
        hex("ba7816bf8f01cfea414140de5dae2223b00361a396177a9cb410ff61f20015ad")
    );
    assert_eq!(
        IonHash::from_bytes::<Sha256>(b"abc").get(),
        hex("ba7816bf8f01cfea414140de5dae2223b00361a396177a9cb410ff61f20015ad")
    );
    assert_eq!(Sha256::digest(b"abc").len(), 32);
}

#[test]
fn sha512_digests_are_the_known_ones() {
    let expected = hex(
        "ddaf35a193617abacc417349ae20413112e6fa4e89a97ea20a9eeee64b55d39a\
         2192992a274fc1a836ba3c23a3feebbd454d4423643ce80e2a9ac94fa54ca49f",
    );
    assert_eq!(Sha512::digest(b"abc"), expected);
    assert_eq!(IonHash::from_bytes::<Sha512>(b"abc").get(), expected);
    assert_eq!(
        IonHash::digest::<Sha512>(&IonValue::Integer(5)),
        sha2::Sha512::digest([0x20, 0x05]).to_vec()
    );
    assert_ne!(
        IonHash::digest::<Sha512>(&IonValue::Integer(5)),
        IonHash::digest::<Sha256>(&IonValue::Integer(5))
    );
    assert_eq!(
        IonHash::digest::<Sha512>(&car(&[0, 1, 2, 3, 4, 5])),
        IonHash::digest::<Sha512>(&car(&[3, 5, 1, 0, 4, 2]))
    );
}

#[test]
fn digests_are_never_empty() {
    assert_eq!(Sha256::digest(b"").len(), 32);
    assert_eq!(Sha512::digest(b"").len(), 64);
    assert_eq!(IonHash::digest::<Sha256>(&IonValue::Null(NullIonValue::Null)).len(), 32);
    assert_eq!(IonHash::digest::<Sha512>(&IonValue::Struct(vec![])).len(), 64);
    let mut hash = IonHash::new();
    hash.add_bytes(b"");
    assert_eq!(hash.get().len(), 32);
}

#[test]
fn constructors() {
    assert_eq!(IonHash::new().get(), &[] as &[u8]);
    assert_eq!(IonHash::default().get(), &[] as &[u8]);
    assert_eq!(IonHash::with_hasher::<Sha256>().get(), &[] as &[u8]);
    assert_eq!(IonHash::from_hashes_bytes::<Sha256>(&[1, 2, 3]).get(), &[1, 2, 3]);
    assert_eq!(IonHash::from_bytes::<Sha256>(&[1, 2, 3]).get(), sha256(&[1, 2, 3]));
}

#[test]
fn the_order_reads_signed_bytes_from_the_end() {
    assert!(bytes_precede(&[9, 1], &[0, 2]));
    assert!(!bytes_precede(&[0, 2], &[9, 1]));
    assert!(bytes_precede(&[1, 5], &[2, 5]));
    assert!(bytes_precede(&[0x80], &[0x7F]));
    assert!(bytes_precede(&[0xFF], &[0x00]));
    assert!(!bytes_precede(&[0x00], &[0xFF]));
    assert!(bytes_precede(&[5], &[7, 5]));
    assert!(!bytes_precede(&[7, 5], &[5]));
    assert!(bytes_precede(&[], &[0x80]));
    assert!(!bytes_precede(&[], &[]));
    assert!(!bytes_precede(&[3, 4], &[3, 4]));
    assert!(bytes_equal(&[3, 4], &[3, 4]));
    assert!(!bytes_equal(&[3, 4], &[3]));
    assert!(!bytes_equal(&[3, 4], &[3, 5]));
}

#[test]
fn hashes_compare_by_their_buffers() {
    let low = IonHash::from_hashes_bytes::<Sha256>(&[9, 0x80]);
    let high = IonHash::from_hashes_bytes::<Sha256>(&[0, 0x7F]);
    assert!(low < high);
    assert!(high > low);
    assert!(low <= low);
    assert!(low != high);
    assert!(low == IonHash::from_hashes_bytes::<Sha256>(&[9, 0x80]));
    assert_eq!(low.partial_cmp(&high), Some(std::cmp::Ordering::Less));
    assert_eq!(high.partial_cmp(&low), Some(std::cmp::Ordering::Greater));
    assert_eq!(low.partial_cmp(&low), Some(std::cmp::Ordering::Equal));
}

#[test]
fn dot_of_an_empty_hash_changes_nothing() {
    let mut hash = IonHash::from_hashes_bytes::<Sha256>(&[1, 2, 3]);
    hash.dot(IonHash::new());
    assert_eq!(hash.get(), &[1, 2, 3]);

    let mut hash = IonHash::new();
    hash.dot(IonHash::from_hashes_bytes::<Sha256>(&[1, 2, 3]));
    assert_eq!(hash.get(), &[1, 2, 3]);

    let mut hash = IonHash::new();
    hash.dot(IonHash::new());
    assert_eq!(hash.get(), &[] as &[u8]);
}

#[test]
fn dot_hashes_the_smaller_digest_first() {
    let a = [1u8; 32];
    let b = [2u8; 32];
    let mut expected = a.to_vec();
    expected.extend(b);
    let expected = sha256(&expected);

    let mut hash = IonHash::from_hashes_bytes::<Sha256>(&a);
    hash.dot(IonHash::from_hashes_bytes::<Sha256>(&b));
    assert_eq!(hash.get(), expected);

    let mut hash = IonHash::from_hashes_bytes::<Sha256>(&b);
    hash.dot(IonHash::from_hashes_bytes::<Sha256>(&a));
    assert_eq!(hash.get(), expected);

    let mut negative = [0u8; 32];
    negative[31] = 0x80;
    let mut positive = [0xFFu8; 32];
    positive[31] = 0x7F;
    let mut expected = negative.to_vec();
    expected.extend(positive);
    let mut hash = IonHash::from_hashes_bytes::<Sha256>(&positive);
    hash.dot(IonHash::from_hashes_bytes::<Sha256>(&negative));
    assert_eq!(hash.get(), sha256(&expected));

    let mut expected = a.to_vec();
    expected.extend(a);
    let mut hash = IonHash::from_hashes_bytes::<Sha256>(&a);
    hash.dot(IonHash::from_hashes_bytes::<Sha256>(&a));
    assert_eq!(hash.get(), sha256(&expected));
}

#[test]
fn dot_is_order_independent_from_an_empty_hash() {
    let samples: [&[u8]; 5] = [b"", b"a", b"one", b"two", b"\x0b\x0c\x0e"];
    for x in samples {
        for y in samples {
            let a = IonHash::from_bytes::<Sha256>(x);
            let b = IonHash::from_bytes::<Sha256>(y);
            let mut first = IonHash::new();
            first.dot(IonHash::from_bytes::<Sha256>(x)).dot(IonHash::from_bytes::<Sha256>(y));
            let mut second = IonHash::new();
            second.dot(IonHash::from_bytes::<Sha256>(y)).dot(IonHash::from_bytes::<Sha256>(x));
            assert_eq!(first.get(), second.get());
            assert!(first == second);

            let mut third = a;
            third.dot(b);
            assert_eq!(first.get(), third.get());
        }
    }
}

#[test]
fn dot_from_a_filled_hash_depends_on_the_order() {
    let start = IonHash::from_bytes::<Sha256>(b"x");
    let mut first = IonHash::from_hashes_bytes::<Sha256>(start.get());
    first.dot(IonHash::from_bytes::<Sha256>(b"y")).dot(IonHash::from_bytes::<Sha256>(b"z"));
    let mut second = IonHash::from_hashes_bytes::<Sha256>(start.get());
    second.dot(IonHash::from_bytes::<Sha256>(b"z")).dot(IonHash::from_bytes::<Sha256>(b"y"));
    assert_ne!(first.get(), second.get());
}

#[test]
fn adding_is_hashing_and_dot() {
    let mut hash = IonHash::new();
    hash.add_bytes(b"one");
    assert_eq!(hash.get(), sha256(b"one"));
    hash.add_bytes(b"two");
    let mut expected = IonHash::from_bytes::<Sha256>(b"one");
    expected.dot(IonHash::from_bytes::<Sha256>(b"two"));
    assert_eq!(hash.get(), expected.get());

    let mut hash = IonHash::new();
    hash.add_hashed_bytes(&sha256(b"one"));
    hash.add_hashed_bytes(&sha256(b"two"));
    assert_eq!(hash.get(), expected.get());

    let value = IonValue::Integer(5);
    let mut hash = IonHash::new();
    hash.add_ion_value(&value);
    assert_eq!(hash.get(), sha256(&[0x20, 0x05]));
    assert_eq!(IonHash::from_ion_value::<Sha256>(&value).get(), sha256(&[0x20, 0x05]));
    assert_eq!(IonHash::digest::<Sha256>(&value), sha256(&[0x20, 0x05]));
    assert_eq!(IonHash::default_digest(&value), sha256(&[0x20, 0x05]));
    hash.add_ion_value(&IonValue::Bool(true));
    let mut expected = IonHash::from_bytes::<Sha256>(&[0x20, 0x05]);
    expected.dot(IonHash::from_bytes::<Sha256>(&[0x11]));
    assert_eq!(hash.get(), expected.get());
}

#[test]
fn markers_are_escaped() {
    assert_eq!(escape(&[]), Vec::<u8>::new());
    assert_eq!(escape(&[1, 2, 3]), vec![1, 2, 3]);
    assert_eq!(
        escape(&[0x0B, 0x01, 0x0C, 0x0E, 0x0D]),
        vec![0x0C, 0x0B, 0x01, 0x0C, 0x0C, 0x0C, 0x0E, 0x0D]
    );
}

#[test]
fn scalars_serialize_exactly() {
    let cases: Vec<(IonValue, Vec<u8>)> = vec![
        (IonValue::Null(NullIonValue::Null), vec![0x0F]),
        (IonValue::Null(NullIonValue::Integer), vec![0x2F]),
        (IonValue::Null(NullIonValue::Struct), vec![0xDF]),
        (IonValue::Bool(false), vec![0x10]),
        (IonValue::Bool(true), vec![0x11]),
        (IonValue::Integer(0), vec![0x20]),
        (IonValue::Integer(5), vec![0x20, 0x05]),
        (IonValue::Integer(-5), vec![0x30, 0x05]),
        (IonValue::Integer(2019), vec![0x20, 0x07, 0xE3]),
        (IonValue::Integer(11), vec![0x20, 0x0C, 0x0B]),
        (IonValue::Integer(i64::MIN), vec![0x30, 0x80, 0, 0, 0, 0, 0, 0, 0]),
        (
            IonValue::BigInteger(BigInt {
                negative: true,
                magnitude: BigUint::from_be_bytes(&[1, 0, 0, 0, 0, 0, 0, 0, 0]),
            }),
            vec![0x30, 1, 0, 0, 0, 0, 0, 0, 0, 0],
        ),
        (IonValue::Float(0), vec![0x40]),
        (
            IonValue::Float(1.0f64.to_bits()),
            vec![0x40, 0x3F, 0xF0, 0, 0, 0, 0, 0, 0],
        ),
        (
            IonValue::Float((-0.0f64).to_bits()),
            vec![0x40, 0x80, 0, 0, 0, 0, 0, 0, 0],
        ),
        (
            IonValue::Decimal(Decimal { coefficient: BigInt::from_i64(0), exponent: 0 }),
            vec![0x50],
        ),
        (
            IonValue::Decimal(Decimal { coefficient: BigInt::from_i64(5), exponent: -1 }),
            vec![0x50, 0xC1, 0x05],
        ),
        (
            IonValue::Decimal(Decimal { coefficient: BigInt::from_i64(0), exponent: 3 }),
            vec![0x50, 0x83],
        ),
        (
            IonValue::Decimal(Decimal {
                coefficient: BigInt { negative: true, magnitude: BigUint::from_u64(0) },
                exponent: 0,
            }),
            vec![0x50, 0x80, 0x80],
        ),
        (IonValue::Symbol(text("abc")), vec![0x70, b'a', b'b', b'c']),
        (IonValue::String(text("abc")), vec![0x80, b'a', b'b', b'c']),
        (IonValue::String(text("a\u{b}\u{e9}")), vec![0x80, b'a', 0x0C, 0x0B, 0xC3, 0xA9]),
        (IonValue::Clob(vec![0x0E, 0x01]), vec![0x90, 0x0C, 0x0E, 0x01]),
        (IonValue::Blob(vec![0x0C]), vec![0xA0, 0x0C, 0x0C]),
    ];
    for (value, expected) in cases {
        assert_eq!(encode_value::<Sha256>(&value), expected);
        assert_eq!(type_qualifier_of(&value), expected[0]);
        assert_eq!(IonHash::digest::<Sha256>(&value), sha256(&expected));
    }
}

#[test]
fn timestamps_serialize_exactly() {
    let full = Timestamp {
        offset: Some(0),
        year: 2019,
        month: Some(1),
        day: Some(2),
        time: Some((3, 4)),
        second: Some(5),
        fraction: Some(Decimal { coefficient: BigInt::from_i64(123), exponent: -3 }),
    };
    assert_eq!(
        encode_value::<Sha256>(&IonValue::Timestamp(full.clone())),
        vec![0x60, 0x80, 0x0F, 0xE3, 0x81, 0x82, 0x83, 0x84, 0x85, 0xC3, 0x7B]
    );
    let day = Timestamp { offset: None, time: None, ..full.clone() };
    assert_eq!(
        encode_value::<Sha256>(&IonValue::Timestamp(day)),
        vec![0x60, 0xC0, 0x0F, 0xE3, 0x81, 0x82]
    );
    let minute = Timestamp { offset: Some(-480), second: None, ..full.clone() };
    assert_eq!(
        encode_value::<Sha256>(&IonValue::Timestamp(minute)),
        vec![0x60, 0x43, 0xE0, 0x0F, 0xE3, 0x81, 0x82, 0x83, 0x84]
    );
    let eleventh = Timestamp { month: Some(11), day: None, ..full };
    assert_eq!(
        encode_value::<Sha256>(&IonValue::Timestamp(eleventh)),
        vec![0x60, 0x80, 0x0F, 0xE3, 0x8B]
    );
}

#[test]
fn containers_hold_the_framed_digests_of_their_values() {
    let one = IonValue::Integer(1);
    let two = IonValue::String(text("two"));
    let h_one = sha256(&[0x20, 0x01]);
    let h_two = sha256(&[0x80, b't', b'w', b'o']);

    let mut expected = vec![0x0B, 0xB0];
    expected.extend(framed(&h_one));
    expected.extend(framed(&h_two));
    expected.push(0x0E);
    let list = IonValue::List(vec![one.clone(), two.clone()]);
    assert_eq!(encode_value::<Sha256>(&list), expected);
    assert_eq!(IonHash::digest::<Sha256>(&list), sha256(&expected));

    expected[1] = 0xC0;
    let sexp = IonValue::SExp(vec![one.clone(), two.clone()]);
    assert_eq!(encode_value::<Sha256>(&sexp), expected);
    assert_ne!(IonHash::digest::<Sha256>(&sexp), IonHash::digest::<Sha256>(&list));

    assert_eq!(encode_value::<Sha256>(&IonValue::List(vec![])), vec![0x0B, 0xB0, 0x0E]);
    assert_eq!(encode_value::<Sha256>(&IonValue::Struct(vec![])), vec![0x0B, 0xD0, 0x0E]);

    let reversed = IonValue::List(vec![two.clone(), one.clone()]);
    assert_ne!(IonHash::digest::<Sha256>(&reversed), IonHash::digest::<Sha256>(&list));

    let mut expected = vec![0x0B, 0xE0];
    expected.extend(framed(&sha256(&[0x70, b'x'])));
    expected.extend(framed(&sha256(&[0x70, b'y'])));
    expected.extend(framed(&sha256(&encode_value::<Sha256>(&list))));
    expected.push(0x0E);
    let annotated = IonValue::Annotation(vec![text("x"), text("y")], Box::new(list));
    assert_eq!(encode_value::<Sha256>(&annotated), expected);
}

#[test]
fn struct_fields_are_sorted_by_their_digests() {
    let fields = vec![
        (text("b"), IonValue::Integer(2)),
        (text("a"), IonValue::Integer(1)),
        (text("a"), IonValue::Integer(3)),
        (text("c"), IonValue::Bool(true)),
    ];
    let mut pairs: Vec<(Vec<u8>, Vec<u8>)> = fields
        .iter()
        .map(|(name, value)| {
            let mut symbol = vec![0x70];
            symbol.extend(name.as_bytes());
            (sha256(&symbol), IonHash::digest::<Sha256>(value))
        })
        .collect();
    pairs.sort_by(|x, y| {
        if x == y {
            std::cmp::Ordering::Equal
        } else if bytes_precede(&x.0, &y.0) || (x.0 == y.0 && bytes_precede(&x.1, &y.1)) {
            std::cmp::Ordering::Less
        } else {
            std::cmp::Ordering::Greater
        }
    });
    let mut expected = vec![0x0B, 0xD0];
    for (name, value) in pairs {
        expected.extend(framed(&name));
        expected.extend(framed(&value));
    }
    expected.push(0x0E);
    assert_eq!(encode_value::<Sha256>(&IonValue::Struct(fields)), expected);
}

fn car(order: &[usize]) -> IonValue {
    let fields = [
        (text("Model"), IonValue::String(text("CLK 350"))),
        (text("Type"), IonValue::String(text("Sedan"))),
        (text("Color"), IonValue::String(text("White"))),
        (text("VIN"), IonValue::String(text("1C4RJFAG0FC625797"))),
        (text("Make"), IonValue::String(text("Mercedes"))),
        (text("Year"), IonValue::Integer(2019)),
    ];
    IonValue::Struct(order.iter().map(|i| fields[*i].clone()).collect())
}

#[test]
fn struct_hash_does_not_depend_on_the_order_of_fields() {
    let reference = IonHash::digest::<Sha256>(&car(&[0, 1, 2, 3, 4, 5]));
    assert_eq!(reference.len(), 32);
    let orders: [[usize; 6]; 5] = [
        [5, 4, 3, 2, 1, 0],
        [1, 0, 3, 2, 5, 4],
        [2, 5, 0, 4, 1, 3],
        [3, 1, 4, 0, 5, 2],
        [4, 2, 5, 1, 3, 0],
    ];
    for order in orders {
        assert_eq!(IonHash::digest::<Sha256>(&car(&order)), reference);
        assert_eq!(IonHash::default_digest(&car(&order)), reference);
    }
    assert_ne!(IonHash::digest::<Sha256>(&car(&[0, 1, 2, 3, 4])), reference);

    let nested = |order: &[usize]| {
        IonValue::Struct(vec![
            (text("car"), car(order)),
            (text("cars"), IonValue::List(vec![car(order), car(&[0, 1])])),
        ])
    };
    assert_eq!(
        IonHash::digest::<Sha256>(&nested(&[0, 1, 2, 3, 4, 5])),
        IonHash::digest::<Sha256>(&nested(&[5, 3, 1, 0, 2, 4]))
    );

    let repeated = |order: &[usize]| {
        let fields = [
            (text("a"), IonValue::Integer(1)),
            (text("a"), IonValue::Integer(2)),
            (text("a"), IonValue::Integer(1)),
        ];
        IonValue::Struct(order.iter().map(|i| fields[*i].clone()).collect())
    };
    assert_eq!(
        IonHash::digest::<Sha256>(&repeated(&[0, 1, 2])),
        IonHash::digest::<Sha256>(&repeated(&[1, 2, 0]))
    );
}

#[test]
fn a_copy_has_the_same_hash() {
    let values = [
        car(&[0, 1, 2, 3, 4, 5]),
        IonValue::List(vec![IonValue::Float(7), IonValue::Null(NullIonValue::Blob)]),
        IonValue::Annotation(vec![text("a")], Box::new(car(&[5, 4]))),
    ];
    for value in values {
        assert_eq!(
            IonHash::digest::<Sha256>(&value),
            IonHash::digest::<Sha256>(&value.clone())
        );
    }
}

use ion_binary_rs::ion_parser::IonParser;
use ion_binary_rs::ion_parser_types::IonValue;
use ion_binary_rs::numbers::BigUint;
use num_bigint::{BigInt, Sign};

/// The bytes that a string of hexadecimal digits spells.
fn bytes_of(digits: &str) -> Vec<u8> {
    (0..digits.len() / 2)
        .map(|i| u8::from_str_radix(&digits[2 * i..2 * i + 2], 16).unwrap())
        .collect()
}

/// The bytes of the named stream: a version marker and one integer.
fn read_file_testsuite(name: &str) -> Vec<u8> {
    let digits: Vec<&str> = match name {
        "good/intBigSize256" => vec![
            "E00100EA2E02808FF5B3E8CC1A4C1BC13E3108A42A7AAF02A1E15C21F6BAA2AE5CB50015DCBFD59E390C592A",
            "A9BCD32C4C98A113C337183947728A60620169168C4EA2A23DAD2DAF89E9B3646D039CE9E5A297CF32F323EE",
            "2E4F171C4163A9D916661F26A5E5CC8D2D144A7670FD021CE3446FB7A3144EB3A90B0ADED22A91D12A81E8CD",
            "1C01513EF1B39418C71D35DF15A77ADD362FFDDF97140B5E38206F5534D79DC35C5C19C9708A758E9E809A2A",
            "094DE2A942B1208C3DAB006E6FEDECEBD9B21750762ADD1A11CBB8565A1A9BF6FD4584FCF7D82D1D2063E168",
            "8F1FFD525644C975EBE69978D26CF3FDA46D20C647E32332DF6617F522DC27AFE6C26681DC0308A2AFA40C",
        ],
        "good/intBigSize14" => vec![
            "E00100EA2E8E88C21251BD78041CAD0E5A3949EC",
        ],
        "good/intBigSize1201" => vec![
            "E00100EA3E09B19C7FF8771C1599F851C220F7AC873291F802A4154DD34ECEF5B03DC6B6719488041E37FEFF",
            "D03803637D743B0A0DB4DC55D7B09FAD276ECB076E6595A07CA98D9B854DDFD527EA8355AA10C2E5C469EB8D",
            "C554DFE0F44B2B541CADC8AF3DA8EEEEC8842C4F24F6A9FD18087A60EB42DB877E123E8EE680F965F78E0754",
            "61BC5E00E55EDA5BDAF10C05A38E4EDB0397320EF21CB065E47187018A97F688EEC1EBEE37279CFD9433E0F5",
            "B00EFC635CC346E7FA09BBB6F739CCD1A1A4BF902738BBF0C2FF2519C612806CA75C0D175F4A45D9DAB41794",
            "25103562882967522DD001CBFD1EE3BE16298ACA9A8BAF9F57AB04E441778C8D7F54E5E919327D427654B73A",
            "A1637F4CBA2FB2C8301001C5991CA5B601255CCA03A1C999F6F44F3A9E25A1D9537CA71986E796253C68369C",
            "691ABC80AB15B034F85F121F789BF1A04FB0090A17C027A1A1F1179D9FEAFA852CB727A76C39B3481C71E3BF",
            "D7E25600C6C8952D2531382813D56AA254B948F81DD323AF6966C68E059770843CB89857181108B8B9496701",
            "6C4E2BE08733F5616CF7CE2BFFB3423EFB55CCCAE9B05C80019C0A492A5C45DF93B834ED01E8AF2495C5425E",
            "7F242A3C21B2521071AC9DAB65CBD794CFC8DC6CE54BC1A74C7A118D4EA00EA2F57C0DBF25EBF35016FE5BF6",
            "158578928271DA22B921C5B3529FFC787EAD7CA1EBFC498525AED701E67EDA360CF7A56F830D510908968217",
            "BA23B7EB9AEF97F42FB49A5F41B35B075C504F17E44D0E98C921633B2C59592BAA428C8554FF9DC3A2B49212",
            "872C140799563CD4AAFDE98A08CC6722B4F28F1B9F1BC8E0497C02A107E8E329B71C54181C28BB30DDE847A0",
            "877247128846D708FEBBC9A36D6EC3171CDAB0A8CA51D7049755906CE85D8DF086C52C8CE0480CDD62F9A52C",
            "23257676066797B8449ED4AF6AD100DC65FA4B90D3F94B0F49DB134E24168328120BCC37F11E51AA37904B0D",
            "744C06AAD5900C40C512EE0015D8DF93283F6FA66997CAD482FAE4BAE8A831F15D6AC59CE334011007C7BE88",
            "B59C89D6BBD1D11B531C63870D4D13C620C659BFF4050DB5F32864C7BBD165402A12E70C22F4D64ACFBF02F5",
            "1BAC629BCC48EFDBB6E8B43F10BA819FAD578613CFFEA7FF6B0519E09F1533C117D60E7FB3368F63448D2ECE",
            "8CE2871EC81E3E9F9BBF182031AA618E735A46E32797E6AD6A5D1D5F98B537042B62EB05CBDE7642D638012D",
            "6FB3E2D131BFE99619FD04FA35CC9BB589F54C112B8D81204A947D7E0ABEA46BAFCE1358F22A02C78E987B21",
            "11921BE8C0EB0A9429958D7A74778366196F01E7081098DF66BA912F154C2A5CE00EECF481F656E05FA2B925",
            "A51223DABC124BC2AFB13093B22854528ED75BEE2A289BE369EA51CF053329F0E1A7A3E231C382E72AB39680",
            "8C27D6576427005F1EFFA095319F49A8150E53D9DD028FBB246F1664A1933218F6E15DD0187F6BCF27B9CD4A",
            "F4F9921BCE4FF57843C92CE3F6E07DF6AF1594B57BD54D7DE70315EA19A6CC0BA7C82393BB1E7FF519F719AB",
            "5FC183DDEDB9B66D4EACFC7D01B6898CBCF0463F476C162B04888A3812359D9012207BE7ED3CE854C4BC3E6F",
            "D7284F6A35E1F99BB40B793460F3EDFE1D80810683D4E05E09C4B0874FD36483D51A4DF7BA380D28F8D4815E",
            "71F8A909FEF2D4B2D79125F855B0CC7B9509626E",
        ],
        "good/intBigSize13" => vec![
            "E00100EA2D8F14CA6F603857B79F4A73CCB4",
        ],
        "good/intBigSize16" => vec![
            "E00100EA2E90FFFE15BBBC3EE89AF82CABDC68544B2B",
        ],
        "good/intLongMaxValuePlusOne" => vec![
            "E00100EA288000000000000000",
        ],
        "good/intLongMinValue" => vec![
            "E00100EA388000000000000000",
        ],
        _ => panic!("no stream of the name {}", name),
    };
    bytes_of(&digits.concat())
}

/// The library's big integer with the value of `number`.
fn big(number: &BigInt) -> ion_binary_rs::numbers::BigInt {
    let (sign, magnitude) = number.to_bytes_be();
    ion_binary_rs::numbers::BigInt {
        negative: sign == Sign::Minus,
        magnitude: BigUint::from_be_bytes(&magnitude),
    }
}

#[test]
fn int_big_size256() {
    let ion_blob = read_file_testsuite("good/intBigSize256");

    let mut parser = IonParser::new(ion_blob);

    let expected_number_str = b"18173238162219679736857031944447898744767430095109316084451026048678348094928854458274167288816962557611640075817315237016025726423548207924331642028847993938530524659112028449811515920726159569583847554301932799584192974700038250645135419704389244690214111003505621818033044965879076306690914532152840279256440975668846810694285470204245958782248405612488959069641454132691581386219910938587286910894148564397155066367399697230287047229035630842240888106685623631032505806388903066971508775182055551847210338095961815021030725796281642316166745051164958432783938535334657296749823645911331793861360616240344479015948";

    assert_eq!(
        parser.consume_value().unwrap().0,
        IonValue::BigInteger(big(&BigInt::parse_bytes(expected_number_str, 10).unwrap()))
    );
}

#[test]
fn int_big_size14() {
    let ion_blob = read_file_testsuite("good/intBigSize14");

    let mut parser = IonParser::new(ion_blob);

    let expected_number_str = b"2773783639172303802999334644566508";

    assert_eq!(
        parser.consume_value().unwrap().0,
        IonValue::BigInteger(big(&BigInt::parse_bytes(expected_number_str, 10).unwrap()))
    );
}

#[test]
fn int_big_size1201() {
    let ion_blob = read_file_testsuite("good/intBigSize1201");

    let mut parser = IonParser::new(ion_blob);

    let expected_number_str = b"-9c7ff8771c1599f851c220f7ac873291f802a4154dd34ecef5b03dc6b6719488041e37feffd03803637d743b0a0db4dc55d7b09fad276ecb076e6595a07ca98d9b854ddfd527ea8355aa10c2e5c469eb8dc554dfe0f44b2b541cadc8af3da8eeeec8842c4f24f6a9fd18087a60eb42db877e123e8ee680f965f78e075461bc5e00e55eda5bdaf10c05a38e4edb0397320ef21cb065e47187018a97f688eec1ebee37279cfd9433e0f5b00efc635cc346e7fa09bbb6f739ccd1a1a4bf902738bbf0c2ff2519c612806ca75c0d175f4a45d9dab4179425103562882967522dd001cbfd1ee3be16298aca9a8baf9f57ab04e441778c8d7f54e5e919327d427654b73aa1637f4cba2fb2c8301001c5991ca5b601255cca03a1c999f6f44f3a9e25a1d9537ca71986e796253c68369c691abc80ab15b034f85f121f789bf1a04fb0090a17c027a1a1f1179d9feafa852cb727a76c39b3481c71e3bfd7e25600c6c8952d2531382813d56aa254b948f81dd323af6966c68e059770843cb89857181108b8b94967016c4e2be08733f5616cf7ce2bffb3423efb55cccae9b05c80019c0a492a5c45df93b834ed01e8af2495c5425e7f242a3c21b2521071ac9dab65cbd794cfc8dc6ce54bc1a74c7a118d4ea00ea2f57c0dbf25ebf35016fe5bf6158578928271da22b921c5b3529ffc787ead7ca1ebfc498525aed701e67eda360cf7a56f830d510908968217ba23b7eb9aef97f42fb49a5f41b35b075c504f17e44d0e98c921633b2c59592baa428c8554ff9dc3a2b49212872c140799563cd4aafde98a08cc6722b4f28f1b9f1bc8e0497c02a107e8e329b71c54181c28bb30dde847a0877247128846d708febbc9a36d6ec3171cdab0a8ca51d7049755906ce85d8df086c52c8ce0480cdd62f9a52c23257676066797b8449ed4af6ad100dc65fa4b90d3f94b0f49db134e24168328120bcc37f11e51aa37904b0d744c06aad5900c40c512ee0015d8df93283f6fa66997cad482fae4bae8a831f15d6ac59ce334011007c7be88b59c89d6bbd1d11b531c63870d4d13c620c659bff4050db5f32864c7bbd165402a12e70c22f4d64acfbf02f51bac629bcc48efdbb6e8b43f10ba819fad578613cffea7ff6b0519e09f1533c117d60e7fb3368f63448d2ece8ce2871ec81e3e9f9bbf182031aa618e735a46e32797e6ad6a5d1d5f98b537042b62eb05cbde7642d638012d6fb3e2d131bfe99619fd04fa35cc9bb589f54c112b8d81204a947d7e0abea46bafce1358f22a02c78e987b2111921be8c0eb0a9429958d7a74778366196f01e7081098df66ba912f154c2a5ce00eecf481f656e05fa2b925a51223dabc124bc2afb13093b22854528ed75bee2a289be369ea51cf053329f0e1a7a3e231c382e72ab396808c27d6576427005f1effa095319f49a8150e53d9dd028fbb246f1664a1933218f6e15dd0187f6bcf27b9cd4af4f9921bce4ff57843c92ce3f6e07df6af1594b57bd54d7de70315ea19a6cc0ba7c82393bb1e7ff519f719ab5fc183ddedb9b66d4eacfc7d01b6898cbcf0463f476c162b04888a3812359d9012207be7ed3ce854c4bc3e6fd7284f6a35e1f99bb40b793460f3edfe1d80810683d4e05e09c4b0874fd36483d51a4df7ba380d28f8d4815e71f8a909fef2d4b2d79125f855b0cc7b9509626e";

    assert_eq!(
        parser.consume_value().unwrap().0,
        IonValue::BigInteger(big(&BigInt::parse_bytes(expected_number_str, 16).unwrap()))
    );
}

#[test]
fn int_big_size13() {
    let ion_blob = read_file_testsuite("good/intBigSize13");

    let mut parser = IonParser::new(ion_blob);

    let expected_number_str = b"8f14ca6f603857b79f4a73ccb4";

    assert_eq!(
        parser.consume_value().unwrap().0,
        IonValue::BigInteger(big(&BigInt::parse_bytes(expected_number_str, 16).unwrap()))
    );
}

#[test]
fn int_big_size16() {
    let ion_blob = read_file_testsuite("good/intBigSize16");

    let mut parser = IonParser::new(ion_blob);

    let expected_number_str = b"fffe15bbbc3ee89af82cabdc68544b2b";

    assert_eq!(
        parser.consume_value().unwrap().0,
        IonValue::BigInteger(big(&BigInt::parse_bytes(expected_number_str, 16).unwrap()))
    );
}

#[test]
fn int_long_max_value_plus_one() {
    let ion_blob = read_file_testsuite("good/intLongMaxValuePlusOne");

    let mut parser = IonParser::new(ion_blob);

    let expected_number_str = b"8000000000000000";

    assert_eq!(
        parser.consume_value().unwrap().0,
        IonValue::BigInteger(big(&BigInt::parse_bytes(expected_number_str, 16).unwrap()))
    );
}

#[test]
fn int_long_min_value() {
    let ion_blob = read_file_testsuite("good/intLongMinValue");

    let mut parser = IonParser::new(ion_blob);

    let expected_number_str = i64::MIN;

    assert_eq!(
        parser.consume_value().unwrap().0,
        IonValue::Integer(expected_number_str)
    );
}

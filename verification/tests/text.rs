use can_parser::csv_serializer::combine_csv_strings;
use can_parser::dec_text::{parse_dec_capped, u16_dec_string};
use can_parser::error::CANParserError;
use can_parser::float_text::is_float_literal;
use can_parser::hex_text::{decode_hex_pairs, encode_hex_upper, id_hex_string, parse_hex_u32};
use can_parser::specification::{determine_file_type_from_contents, FileType};
use can_parser::utils::{field_text, pack_string, process_string, trim_trailing_spaces};

#[test]
fn process_string_shortens_in_stages() {
    // Fits: unchanged.
    assert_eq!(process_string("Engine Speed", 32), "Engine Speed");
    // All-uppercase: truncated with its vowels kept.
    assert_eq!(process_string("ENGINE", 4), "ENGI");
    // Too long: spaces go first, then vowels.
    assert_eq!(process_string("Engine Speed", 10), "ngnSpd");
    assert_eq!(process_string("Engine Speed", 11), "EngineSpeed");
    // Still too long after vowels: truncated.
    assert_eq!(process_string("bcd fgh jkl mno", 5), "bcdfg");
    assert_eq!(process_string("", 4), "");
}

#[test]
fn process_string_is_idempotent_on_examples() {
    for s in ["Engine Speed", "ENGINE", "a b c d e f g", "Wheel-Based Vehicle Speed"] {
        for n in [0usize, 3, 8, 16] {
            let once = process_string(s, n);
            assert_eq!(process_string(&once, n), once);
        }
    }
}

#[test]
fn pack_string_follows_the_coercion() {
    // Fits: copied and space-padded, spaces kept.
    assert_eq!(pack_string("Engine Speed", 16), b"Engine Speed    ".to_vec());
    // All-uppercase: truncated.
    assert_eq!(pack_string("ENGINE", 4), b"ENGI".to_vec());
    // Mixed case too long: spaces out, then vowels, then padding.
    assert_eq!(pack_string("Engine Speed", 10), b"ngnSpd    ".to_vec());
    // Pack of a packed-then-trimmed text is unchanged: the round trip.
    let packed = pack_string("Engine Speed", 10);
    let trimmed = trim_trailing_spaces(&packed);
    assert_eq!(
        pack_string(std::str::from_utf8(&trimmed).unwrap(), 10),
        packed
    );
}

#[test]
fn field_text_trims_and_detects_zero() {
    assert_eq!(field_text(&vec![0u8; 10]).unwrap(), "");
    let packed = pack_string("EEC1", 10);
    assert_eq!(field_text(&packed).unwrap(), "EEC1");
}

#[test]
fn hex_id_round_trip() {
    assert_eq!(id_hex_string(0x12345678), "12345678");
    assert_eq!(id_hex_string(0x0CF00400), "0CF00400");
    assert_eq!(parse_hex_u32("0CF00400"), Some(0x0CF00400));
    assert_eq!(parse_hex_u32(&id_hex_string(0xDEADBEEF)), Some(0xDEADBEEF));
    assert_eq!(parse_hex_u32("+ff"), Some(255));
    assert_eq!(parse_hex_u32(""), None);
    assert_eq!(parse_hex_u32("G1"), None);
    assert_eq!(parse_hex_u32("100000000"), None);
    assert_eq!(parse_hex_u32("0000000001"), Some(1));
}

#[test]
fn payload_hex_round_trip() {
    let bytes = vec![0x00u8, 0x7D, 0xFF, 0x10];
    let text = encode_hex_upper(&bytes);
    assert_eq!(text, "007DFF10");
    let back = decode_hex_pairs(text.as_bytes()).unwrap();
    assert_eq!(back, bytes);
    assert!(decode_hex_pairs(b"ABC").is_none());
    assert!(decode_hex_pairs(b"ZZ").is_none());
    assert_eq!(decode_hex_pairs(b"ab"), Some(vec![0xAB]));
}

#[test]
fn float_literal_recognizer_matches_std() {
    let accepted = [
        "0", "1.5", "1609459200.000000", "-3.25", "+7", ".5", "3.", "1e9", "2.5E-3", "inf",
        "-INF", "infinity", "NaN", "3.e5",
    ];
    let rejected = ["", "x", "1.2.3", "1e", "e5", ".", "+", "0x10", "1 "];
    for s in accepted {
        assert!(is_float_literal(s), "{}", s);
        assert!(s.parse::<f64>().is_ok(), "{}", s);
    }
    for s in rejected {
        assert!(!is_float_literal(s), "{}", s);
        assert!(s.parse::<f64>().is_err(), "{}", s);
    }
}

#[test]
fn decimal_text() {
    assert_eq!(u16_dec_string(61444), "61444");
    assert_eq!(u16_dec_string(0), "0");
    assert_eq!(u16_dec_string(7), "7");
    assert_eq!(parse_dec_capped("8", 255), Some(8));
    assert_eq!(parse_dec_capped("256", 255), None);
    assert_eq!(parse_dec_capped("+61444", 65535), Some(61444));
    assert_eq!(parse_dec_capped("-1", 65535), None);
    assert_eq!(parse_dec_capped("", 255), None);
}

#[test]
fn file_type_detection() {
    assert!(matches!(
        determine_file_type_from_contents("{\"a\": 1}"),
        Ok(FileType::Json)
    ));
    assert!(matches!(
        determine_file_type_from_contents("PK\x03\x04zip"),
        Ok(FileType::Xlsx)
    ));
    assert!(matches!(
        determine_file_type_from_contents("VERSION \"1.0\""),
        Ok(FileType::Dbc)
    ));
    let err = determine_file_type_from_contents("hello").unwrap_err();
    assert_eq!(err.0, "Unsupported specification file type");
}

#[test]
fn csv_combination() {
    let combined = combine_csv_strings(vec![
        ("j1939".to_string(), b"id,label\n1,a\n".to_vec()),
        ("messages".to_string(), b"ts\n1.0\n".to_vec()),
    ])
    .unwrap();
    assert_eq!(combined, "j1939:\nid,label\n1,a\n\nmessages:\nts\n1.0\n\n");
    let bad = combine_csv_strings(vec![("x".to_string(), vec![0xFF, 0xFE])]);
    assert!(matches!(bad, Err(CANParserError::ParserError(_))));
}

#[test]
fn error_messages_render() {
    assert_eq!(
        CANParserError::ParserError("boom".to_string()).message(),
        "Parser Error: boom"
    );
    assert_eq!(
        CANParserError::ParserWarning(vec!["a: x".to_string(), "b: y".to_string()]).message(),
        "Parser Warning:\na: x\nb: y\n"
    );
    assert_eq!(
        CANParserError::RegexError("bad".to_string()).message(),
        "Regex Error: bad"
    );
}

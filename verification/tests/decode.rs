use can_parser::can_message::{
    parse_id, parse_j1939_data, parse_j1939_data_inner, CANData, CANID, CANMessage,
    CANMessageFlags,
};
use can_parser::specification::{CellValue, SheetRow, SpecPGN, SpecSPN};
use can_parser::{AnnexInput, CANParser};

const CANDUMP: &str =
    r"^\((?P<timestamp>[0-9]+\.[0-9]+)\).*?(?P<id>[0-9A-F]{3,8})#(?P<data>[0-9A-F]+)";

const ID_DATA_ONLY: &str = r"^(?P<id>[0-9A-F]{3,8})#(?P<data>[0-9A-F]+)";

fn eec1_annex() -> String {
    let mut s = String::new();
    s.push_str("{\"J1939PGNdb\": {\"61444\": {");
    s.push_str("\"Name\": \"Electronic Engine Controller 1\", \"Label\": \"EEC1\", ");
    s.push_str("\"PGNLength\": \"8\", \"Rate\": \"0.01 s\", ");
    s.push_str("\"SPNs\": [190, 512], \"SPNStartBits\": [24, 8]}}, ");
    s.push_str("\"J1939SPNdb\": {\"190\": {\"Name\": \"Engine Speed\", \"Units\": \"rpm\", ");
    s.push_str("\"SPNLength\": 16, \"Resolution\": 0.125, \"Offset\": 0, ");
    s.push_str("\"OperationalHigh\": 8031.875}}}");
    s
}

fn parser_with_annex(template: &str) -> CANParser {
    CANParser::new(
        "warn".to_string(),
        Some(template.to_string()),
        Some(vec![("j1939".to_string(), AnnexInput::Literal(eec1_annex()))]),
    )
    .unwrap()
}

#[test]
fn candump_line_decodes_eec1() {
    let mut parser = parser_with_annex(CANDUMP);
    let lines = vec!["(1609459200.000000) can0 0CF00400#FF7D837D8210FFFF".to_string()];
    parser.parse_lines(&lines).unwrap();
    assert_eq!(parser.messages.len(), 1);
    let m = &parser.messages[0];
    assert_eq!(m.ts, "1609459200.000000");
    assert_eq!(m.id.id, 0x0CF00400);
    assert!(m.id.flags.ext);
    assert!(!m.id.flags.err);
    assert!(!m.id.flags.rtr);
    assert_eq!(m.id.pri, 3);
    assert_eq!(m.id.pgn, 61444);
    assert_eq!(m.id.sa, 0);
    assert_eq!(m.id.da, 255);
    assert_eq!(m.data.len, 8);
    assert_eq!(
        &m.data.data[..8],
        &[0xFF, 0x7D, 0x83, 0x7D, 0x82, 0x10, 0xFF, 0xFF]
    );
    // SPN 190: sixteen bits starting at bit 24, least significant first.
    let raw = m
        .data
        .spns
        .iter()
        .find(|(k, _)| *k == 190)
        .map(|(_, v)| *v)
        .unwrap();
    assert_eq!(raw, 0x827D);
    // The scaled value per the layout's decimal scale factors.
    let layout = parser
        .filtered_spec
        .j1939
        .iter()
        .find(|(k, _)| *k == 61444)
        .map(|(_, p)| p.clone())
        .unwrap();
    let spn = layout
        .spns
        .iter()
        .find(|(k, _)| *k == 190)
        .map(|(_, s)| s.clone())
        .unwrap();
    let res: f32 = spn.resolution.parse().unwrap();
    let off: f32 = spn.offset.parse().unwrap();
    let max: f32 = spn.max.parse().unwrap();
    let mut value = raw as f32 * res + off;
    if value > max {
        value -= max;
    }
    assert_eq!(value, 4175.625f32);
    assert_eq!(spn.length, 16);
    assert_eq!(spn.start_bit, 24);
}

#[test]
fn annex_missing_spn_is_skipped() {
    // SPN 512 is referenced by the PGN entry but absent from the SPN
    // database: the layout carries only SPN 190 and no error is raised.
    let mut parser = parser_with_annex(CANDUMP);
    let lines = vec!["(1.0) can0 0CF00400#FF7D837D8210FFFF".to_string()];
    parser.parse_lines(&lines).unwrap();
    let layout = parser
        .filtered_spec
        .j1939
        .iter()
        .find(|(k, _)| *k == 61444)
        .map(|(_, p)| p.clone())
        .unwrap();
    assert_eq!(layout.spns.len(), 1);
    assert_eq!(layout.spns[0].0, 190);
    assert_eq!(parser.messages[0].data.spns.len(), 1);
}

#[test]
fn standard_id_leaves_j1939_fields_default() {
    // A standard frame keeps the default J1939 fields: source and group
    // zero, and the broadcast sentinel 255 as destination.
    let mut parser = parser_with_annex(ID_DATA_ONLY);
    let lines = vec!["123#DEADBEEF".to_string()];
    parser.parse_lines(&lines).unwrap();
    let m = &parser.messages[0];
    assert_eq!(m.id.id, 0x123);
    assert!(!m.id.flags.ext);
    assert_eq!(m.id.sa, 0);
    assert_eq!(m.id.da, 255);
    assert_eq!(m.id.pgn, 0);
    assert!(m.data.spns.is_empty());
    assert_eq!(m.data.len, 4);
    assert_eq!(&m.data.data[..4], &[0xDE, 0xAD, 0xBE, 0xEF]);
}

#[test]
fn identical_lines_share_one_cache_entry() {
    let mut parser = parser_with_annex(CANDUMP);
    let lines = vec![
        "(1.0) can0 0CF00400#FF7D837D8210FFFF".to_string(),
        "(2.0) can0 0CF00400#FF7D837D8210FFFF".to_string(),
    ];
    parser.parse_lines(&lines).unwrap();
    assert_eq!(parser.filtered_spec.j1939.len(), 1);
    assert_eq!(parser.messages.len(), 2);
    assert_eq!(parser.messages[0].data.spns, parser.messages[1].data.spns);
    assert_eq!(parser.messages[0].data.data, parser.messages[1].data.data);
}

#[test]
fn malformed_line_warns_and_rest_decode() {
    let mut parser = parser_with_annex(CANDUMP);
    let lines = vec![
        "garbage".to_string(),
        "(1.0) can0 0CF00400#FF7D837D8210FFFF".to_string(),
    ];
    let err = parser.parse_lines(&lines).unwrap_err();
    match err {
        can_parser::error::CANParserError::ParserWarning(v) => {
            assert_eq!(v.len(), 1);
            assert_eq!(v[0], "garbage: No captures found");
        }
        other => panic!("expected a warning, got {:?}", other),
    }
    assert_eq!(parser.messages.len(), 1);
    assert_eq!(parser.messages[0].id.pgn, 61444);
}

#[test]
fn malformed_line_ignored_silently() {
    let mut parser = CANParser::new(
        "ignore".to_string(),
        Some(CANDUMP.to_string()),
        Some(vec![("j1939".to_string(), AnnexInput::Literal(eec1_annex()))]),
    )
    .unwrap();
    let lines = vec![
        "garbage".to_string(),
        "(1.0) can0 0CF00400#FF7D837D8210FFFF".to_string(),
    ];
    parser.parse_lines(&lines).unwrap();
    assert_eq!(parser.messages.len(), 1);
}

#[test]
fn unknown_spec_key_is_rejected() {
    let r = CANParser::new(
        "warn".to_string(),
        Some(CANDUMP.to_string()),
        Some(vec![("bogus".to_string(), AnnexInput::Literal(eec1_annex()))]),
    );
    match r {
        Err(can_parser::error::CANParserError::ParserError(m)) => {
            assert_eq!(m, "Unknown spec key: bogus");
        }
        other => panic!("expected a parser error, got {:?}", other.is_ok()),
    }
}

#[test]
fn bad_regex_is_rejected() {
    let r = CANParser::new("warn".to_string(), Some("(".to_string()), None);
    match r {
        Err(can_parser::error::CANParserError::RegexError(_)) => {}
        other => panic!("expected a regex error, got {:?}", other.is_ok()),
    }
}

#[test]
fn bad_timestamp_fails_line() {
    let mut parser = parser_with_annex(r"^\((?P<timestamp>[^)]*)\) (?P<id>[0-9A-F]{3,8})#(?P<data>[0-9A-F]+)");
    let lines = vec!["(not a number) 0CF00400#FF".to_string()];
    let err = parser.parse_lines(&lines).unwrap_err();
    match err {
        can_parser::error::CANParserError::ParserWarning(v) => {
            assert!(v[0].ends_with("Failed to parse timestamp"));
        }
        other => panic!("expected a warning, got {:?}", other),
    }
}

#[test]
fn odd_data_hex_fails_line() {
    let mut parser = parser_with_annex(r"^(?P<id>[0-9A-F]{3,8})#(?P<data>[0-9A-Fa-fx]+)");
    let lines = vec!["123#ABC".to_string()];
    let err = parser.parse_lines(&lines).unwrap_err();
    match err {
        can_parser::error::CANParserError::ParserWarning(v) => {
            assert!(v[0].ends_with("Failed to parse data"));
        }
        other => panic!("expected a warning, got {:?}", other),
    }
}

#[test]
fn parse_id_boundary_values() {
    let mut c = default_canid();
    parse_id("0", &mut c);
    assert_eq!(c.id, 0);
    assert!(!c.flags.ext);

    parse_id("7FF", &mut c);
    assert_eq!(c.id, 0x7FF);
    assert!(!c.flags.ext);

    parse_id("800", &mut c);
    assert_eq!(c.id, 0x800);
    assert!(c.flags.ext);

    parse_id("80000000", &mut c);
    assert_eq!(c.id, 0x80000000);
    assert!(c.flags.ext);

    parse_id("60000000", &mut c);
    assert!(c.flags.err);
    assert!(c.flags.rtr);
}

#[test]
fn pdu_format_boundary() {
    // PDU format 239: destination-specific, the PDU specific byte is the
    // destination address.
    let mut c = default_canid();
    parse_id("EF0509", &mut c);
    assert!(c.flags.ext);
    assert_eq!(c.pgn, 239 * 256);
    assert_eq!(c.da, 5);
    assert_eq!(c.sa, 9);

    // PDU format 240: group broadcast, the PDU specific joins the PGN.
    parse_id("F00509", &mut c);
    assert_eq!(c.pgn, 240 * 256 + 5);
    assert_eq!(c.da, 255);
}

#[test]
fn extraction_bit_layouts() {
    let mut data = vec![0u8; 64];
    data[0] = 0xFF;
    data[1] = 0x01;
    // Eight bits from bit zero.
    assert_eq!(parse_j1939_data_inner(&data, 0, 8), 0xFF);
    // A signal crossing a byte boundary: four bits starting at bit six.
    // Bits 6,7 of byte zero are 1; bits 0,1 of byte one are 1,0.
    assert_eq!(parse_j1939_data_inner(&data, 6, 4), 0b0111);
    // Bits past the meaningful prefix read the zero-padded buffer.
    assert_eq!(parse_j1939_data_inner(&data, 72, 4), 0);
    // A high start bit still reads the payload bit for bit.
    let ones = vec![0xFFu8; 64];
    assert_eq!(parse_j1939_data_inner(&ones, 80, 8), 255);
    // The bit length is clamped below the buffer width.
    assert_eq!(parse_j1939_data_inner(&ones, 0, 255), (1u64 << 63) - 1);
}

#[test]
fn payload_sizes() {
    let mut parser = parser_with_annex(ID_DATA_ONLY);
    // One byte and the 64-byte maximum; longer hex is truncated.
    let long = "AB".repeat(70);
    let lines = vec![format!("123#{}", "11"), format!("123#{}", long)];
    parser.parse_lines(&lines).unwrap();
    assert_eq!(parser.messages[0].data.len, 1);
    assert_eq!(parser.messages[1].data.len, 64);
    assert_eq!(parser.messages[1].data.data[63], 0xAB);
}

#[test]
fn parse_j1939_data_replaces_existing_value() {
    let mut d = CANData {
        len: 2,
        data: vec![0u8; 64],
        spns: Vec::new(),
    };
    d.data[0] = 0x21;
    let mut spn = SpecSPN::default();
    spn.length = 8;
    spn.start_bit = 0;
    let info = vec![(7u16, spn.clone()), (7u16, spn)];
    parse_j1939_data(&mut d, &info);
    assert_eq!(d.spns.len(), 1);
    assert_eq!(d.spns[0], (7, 0x21));
}

#[test]
fn default_message_is_all_zero() {
    let m = CANMessage::default();
    assert_eq!(m.ts, "");
    assert_eq!(m.id.id, 0);
    // The destination defaults to the broadcast sentinel.
    assert_eq!(m.id.da, 255);
    assert_eq!(m.id.sa, 0);
    assert_eq!(m.id.pgn, 0);
    assert_eq!(m.data.len, 0);
    assert!(m.data.data.iter().all(|b| *b == 0));
    assert!(m.data.spns.is_empty());
    let p = SpecPGN::default();
    assert_eq!(p.spns.len(), 0);
    assert_eq!(p.label.len(), 32);
}

fn default_canid() -> CANID {
    CANID {
        id: 0,
        pri: 0,
        da: 0,
        sa: 0,
        pgn: 0,
        flags: CANMessageFlags {
            ext: false,
            err: false,
            rtr: false,
        },
    }
}

#[test]
fn unknown_pgn_is_not_cached_and_decodes_without_signals() {
    // PGN 61443 (id 0CF00300) is absent from the annex: the frame is
    // emitted with no signals, no error is raised, and the PGN does not
    // enter the cache.
    let mut parser = parser_with_annex(CANDUMP);
    let lines = vec!["(1.0) can0 0CF00300#0102030405060708".to_string()];
    parser.parse_lines(&lines).unwrap();
    assert_eq!(parser.messages.len(), 1);
    assert!(parser.messages[0].data.spns.is_empty());
    assert!(parser.filtered_spec.j1939.is_empty());
}

#[test]
fn decoding_order_does_not_change_the_frames() {
    let lines = vec![
        "(1.0) can0 0CF00400#FF7D837D8210FFFF".to_string(),
        "(2.0) can0 123#01".to_string(),
        "(3.0) can0 0CF00400#0000000000000000".to_string(),
    ];
    let mut reversed = lines.clone();
    reversed.reverse();
    let mut a = parser_with_annex(CANDUMP);
    a.parse_lines(&lines).unwrap();
    let mut b = parser_with_annex(CANDUMP);
    b.parse_lines(&reversed).unwrap();
    let key = |m: &CANMessage| (m.ts.clone(), m.id.id, m.data.spns.clone());
    let mut ka: Vec<_> = a.messages.iter().map(key).collect();
    let mut kb: Vec<_> = b.messages.iter().map(key).collect();
    ka.sort();
    kb.sort();
    assert_eq!(ka, kb);
    assert_eq!(a.filtered_spec.j1939, b.filtered_spec.j1939);
}

#[test]
fn line_without_data_group_has_empty_payload() {
    let mut parser = parser_with_annex(r"^(?P<id>[0-9A-F]{3,8})#");
    parser.parse_lines(&vec!["123#".to_string()]).unwrap();
    let m = &parser.messages[0];
    assert_eq!(m.data.len, 0);
    assert!(m.data.data.iter().all(|b| *b == 0));
    assert_eq!(m.id.id, 0x123);
}

#[test]
fn sheet_annex_through_the_parser() {
    let mut cells: Vec<CellValue> = vec![CellValue::Empty; 36];
    cells[4] = CellValue::Num {
        text: "61444".to_string(),
        trunc: 61444,
        eighth: 0,
    };
    cells[5] = CellValue::Text("Electronic Engine Controller 1".to_string());
    cells[6] = CellValue::Text("EEC1".to_string());
    cells[18] = CellValue::Num {
        text: "4.1".to_string(),
        trunc: 4,
        eighth: 1,
    };
    cells[19] = CellValue::Int(190);
    cells[32] = CellValue::Num {
        text: "0.125".to_string(),
        trunc: 0,
        eighth: 1,
    };
    cells[35] = CellValue::Int(16);
    let mut parser = CANParser::new(
        "warn".to_string(),
        Some(CANDUMP.to_string()),
        Some(vec![(
            "j1939".to_string(),
            AnnexInput::Sheet(vec![SheetRow { cells }]),
        )]),
    )
    .unwrap();
    parser
        .parse_lines(&vec!["(1.0) can0 0CF00400#FF7D837D8210FFFF".to_string()])
        .unwrap();
    let m = &parser.messages[0];
    assert_eq!(m.data.spns.len(), 1);
    assert_eq!(m.data.spns[0], (190, 0x827D));
}

#[test]
fn decode_without_specs_still_decodes_identifier() {
    // The identifier decoder runs on every captured id, with or without
    // a configured specification; without one the frame simply carries
    // no signals and nothing is cached.
    let caps = can_parser::LineCaptures {
        timestamp: None,
        id: Some("0CF00400".to_string()),
        data: Some("FF7D".to_string()),
    };
    let mut cache = can_parser::specification::FilteredSpec::default();
    let m = can_parser::decode_captured(&caps, &None, &mut cache).unwrap();
    assert_eq!(m.id.id, 0x0CF00400);
    assert!(m.id.flags.ext);
    assert_eq!(m.id.pgn, 61444);
    assert_eq!(m.id.pri, 3);
    assert!(m.data.spns.is_empty());
    assert_eq!(m.data.len, 2);
    assert_eq!(m.ts, "");
    assert!(cache.j1939.is_empty());

    // With specifications configured but no annex loaded, the same.
    let specs = Some(can_parser::Specs { j1939: None });
    let m2 = can_parser::decode_captured(&caps, &specs, &mut cache).unwrap();
    assert_eq!(m2.id.id, 0x0CF00400);
    assert!(m2.id.flags.ext);
    assert!(m2.data.spns.is_empty());
    assert!(cache.j1939.is_empty());
}

#[test]
fn bad_id_fails_line_without_specs() {
    // An unparsable captured id fails the line even when no
    // specification is configured.
    let caps = can_parser::LineCaptures {
        timestamp: None,
        id: Some("xyz".to_string()),
        data: None,
    };
    let mut cache = can_parser::specification::FilteredSpec::default();
    let e = can_parser::decode_captured(&caps, &None, &mut cache).unwrap_err();
    assert_eq!(e, "Failed to parse id");
}

#[test]
fn error_mode_is_stored_lowercased() {
    let parser = CANParser::new("WARN".to_string(), None, None).unwrap();
    assert_eq!(parser.error_handling, "warn");
    let parser = CANParser::new("Ignore".to_string(), None, None).unwrap();
    assert_eq!(parser.error_handling, "ignore");
}

#[test]
fn spreadsheet_literal_is_rejected() {
    // Zip-prefixed literal content cannot be an annex source: only
    // spreadsheet files are accepted.
    let r = CANParser::new(
        "warn".to_string(),
        None,
        Some(vec![(
            "j1939".to_string(),
            AnnexInput::Literal("PK\u{3}\u{4}zip".to_string()),
        )]),
    );
    match r {
        Err(can_parser::error::CANParserError::SpecError(e)) => {
            assert_eq!(e.0, "Xlsx can only be read from file not from string.");
        }
        other => panic!("expected a spec error, got {:?}", other.is_ok()),
    }
}

#[test]
fn parse_line_reports_behind_fixed_prefix() {
    let mut parser = parser_with_annex(CANDUMP);
    let m = parser
        .parse_line("(1.0) can0 0CF00400#FF7D837D8210FFFF".to_string())
        .unwrap();
    assert_eq!(m.id.pgn, 61444);
    let e = parser.parse_line("garbage".to_string()).unwrap_err();
    match e {
        can_parser::error::CANParserError::ParserError(t) => {
            assert_eq!(t, "Failed to parse line: No captures found");
        }
        other => panic!("expected a parser error, got {:?}", other),
    }
}

#[test]
fn line_errors_report_in_field_order() {
    // A line with several bad groups reports the timestamp first, then
    // the data, then the identifier.
    let mut cache = can_parser::specification::FilteredSpec::default();
    let specs = Some(can_parser::Specs { j1939: None });
    let caps = can_parser::LineCaptures {
        timestamp: Some("bad".to_string()),
        id: Some("xyz".to_string()),
        data: Some("zz".to_string()),
    };
    let e = can_parser::decode_captured(&caps, &specs, &mut cache).unwrap_err();
    assert_eq!(e, "Failed to parse timestamp");
    let caps = can_parser::LineCaptures {
        timestamp: Some("1.5".to_string()),
        id: Some("xyz".to_string()),
        data: Some("zz".to_string()),
    };
    let e = can_parser::decode_captured(&caps, &specs, &mut cache).unwrap_err();
    assert_eq!(e, "Failed to parse data");
    let caps = can_parser::LineCaptures {
        timestamp: Some("1.5".to_string()),
        id: Some("xyz".to_string()),
        data: Some("1234".to_string()),
    };
    let e = can_parser::decode_captured(&caps, &specs, &mut cache).unwrap_err();
    assert_eq!(e, "Failed to parse id");
}

use can_parser::j1939_spec::{J1939Spec, Specification};
use can_parser::specification::{Annex, CellValue, Metadata, SheetRow};
use can_parser::can_message::{CANID, CANMessageFlags};

fn annex_json() -> String {
    let mut s = String::new();
    s.push_str("{\"J1939PGNdb\": {\"61444\": {");
    s.push_str("\"Name\": \"Electronic Engine Controller 1\", \"Label\": \"EEC1\", ");
    s.push_str("\"PGNLength\": \"8\", \"Rate\": \"0.01 s\", ");
    s.push_str("\"SPNs\": [190], \"SPNStartBits\": [[24]]}}, ");
    s.push_str("\"J1939SPNdb\": {\"190\": {\"Name\": \"Engine Speed\", \"Units\": \"rpm\", ");
    s.push_str("\"SPNLength\": 16, \"Resolution\": 0.125, \"Offset\": 0, ");
    s.push_str("\"OperationalHigh\": 8031.875}}}");
    s
}

#[test]
fn json_lookup_found() {
    let spec = J1939Spec::from_json_str(annex_json().as_str()).unwrap();
    let layout = spec.lookup_pgn(61444).unwrap().unwrap();
    // The group label is the rendered JSON of the Name member (which
    // keeps its quotes), coerced into the 32-byte field.
    assert_eq!(
        layout.label,
        b"\"Electronic Engine Controller 1\"".to_vec()
    );
    assert_eq!(&layout.acronym[..], b"\"EEC1\"    ");
    assert_eq!(layout.length, 8);
    assert_eq!(layout.spns.len(), 1);
    let (id, spn) = &layout.spns[0];
    assert_eq!(*id, 190);
    // The SPN label comes from the string itself, unquoted; the nested
    // start-bit array supplies its first element.
    assert!(spn.label.starts_with(b"Engine Speed"));
    assert_eq!(spn.start_bit, 24);
    assert_eq!(spn.length, 16);
    assert_eq!(spn.resolution, "0.125");
    assert_eq!(spn.offset, "0");
    assert_eq!(spn.max, "8031.875");
    assert_eq!(&spn.units[..], b"rpm       ");
}

#[test]
fn json_lookup_absent_pgn_is_none() {
    let spec = J1939Spec::from_json_str(annex_json().as_str()).unwrap();
    assert!(spec.lookup_pgn(1234).unwrap().is_none());
}

#[test]
fn json_lookup_missing_database_is_an_error() {
    let spec = J1939Spec::from_json_str("{\"other\": 1}").unwrap();
    let err = spec.lookup_pgn(61444).unwrap_err();
    assert_eq!(err.0, "Could not find PGN database in JSON Digital Annex");
}

#[test]
fn json_parse_error_is_reported() {
    let err = match J1939Spec::from_json_str("{ not json") {
        Err(e) => e,
        Ok(_) => panic!("expected a parse error"),
    };
    assert!(err.0.starts_with("Error parsing specification file: "));
}

#[test]
fn dbc_annex_is_carried_but_not_queried() {
    let text = "VERSION \"1.0\"\n\nBU_: ECU1\n";
    match J1939Spec::from_dbc_str(text) {
        Ok(spec) => {
            let err = spec.lookup_pgn(61444).unwrap_err();
            assert_eq!(err.0, "Annex type not supported");
        }
        Err(e) => {
            // The database text was rejected by the DBC parser; the
            // loader reports that as an annex error.
            assert_eq!(e.0, "Could not parse DBC Digital Annex.");
        }
    }
}

fn sheet_rows() -> Vec<SheetRow> {
    let mut cells: Vec<CellValue> = Vec::new();
    for _ in 0..4 {
        cells.push(CellValue::Empty);
    }
    cells.push(CellValue::Num {
        text: "61444".to_string(),
        trunc: 61444,
        eighth: 0,
    });
    cells.push(CellValue::Text("Electronic Engine Controller 1".to_string()));
    cells.push(CellValue::Text("EEC1".to_string()));
    cells.push(CellValue::Text("engine controller".to_string()));
    cells.push(CellValue::Empty);
    cells.push(CellValue::Empty);
    cells.push(CellValue::Int(240));
    cells.push(CellValue::Int(4));
    cells.push(CellValue::Empty);
    cells.push(CellValue::Text("0.01 s".to_string()));
    cells.push(CellValue::Int(8));
    cells.push(CellValue::Int(3));
    for _ in 16..18 {
        cells.push(CellValue::Empty);
    }
    cells.push(CellValue::Num {
        text: "4.1".to_string(),
        trunc: 4,
        eighth: 1,
    });
    cells.push(CellValue::Int(190));
    cells.push(CellValue::Text("Engine Speed".to_string()));
    cells.push(CellValue::Text("engine speed".to_string()));
    for _ in 22..27 {
        cells.push(CellValue::Empty);
    }
    cells.push(CellValue::Text("rpm".to_string()));
    for _ in 28..30 {
        cells.push(CellValue::Empty);
    }
    cells.push(CellValue::Text("Measured".to_string()));
    cells.push(CellValue::Empty);
    cells.push(CellValue::Num {
        text: "0.125".to_string(),
        trunc: 0,
        eighth: 1,
    });
    cells.push(CellValue::Num {
        text: "0".to_string(),
        trunc: 0,
        eighth: 0,
    });
    cells.push(CellValue::Num {
        text: "8031.875".to_string(),
        trunc: 8031,
        eighth: 7,
    });
    cells.push(CellValue::Int(16));
    vec![SheetRow { cells }]
}

#[test]
fn sheet_lookup_found() {
    let spec = J1939Spec::from_sheet_rows(sheet_rows());
    let layout = spec.lookup_pgn(61444).unwrap().unwrap();
    assert!(layout.label.starts_with(b"Electronic Engine Controller 1"));
    assert_eq!(&layout.acronym[..], b"EEC1      ");
    assert_eq!(layout.pdu_format, 240);
    assert_eq!(layout.pdu_specific, 4);
    assert_eq!(layout.priority, 3);
    assert_eq!(layout.length, 8);
    assert_eq!(layout.spns.len(), 1);
    let (id, spn) = &layout.spns[0];
    assert_eq!(*id, 190);
    assert_eq!(spn.length, 16);
    assert_eq!(spn.resolution, "0.125");
    // Cell 4.1 means byte four, bit one, both counted from one.
    assert_eq!(spn.start_bit, 24);
    assert!(spn.spn_type.starts_with(b"Measured"));
}

#[test]
fn sheet_lookup_absent_pgn_is_none() {
    let spec = J1939Spec::from_sheet_rows(sheet_rows());
    assert!(spec.lookup_pgn(99).unwrap().is_none());
}

#[test]
fn metadata_defaults_for_unknown_pgn() {
    let spec = J1939Spec::from_json_str(annex_json().as_str()).unwrap();
    let id = CANID {
        id: 0,
        pri: 0,
        da: 0,
        sa: 0,
        pgn: 4321,
        flags: CANMessageFlags {
            ext: true,
            err: false,
            rtr: false,
        },
    };
    match spec.get_id_metadata(&id).unwrap() {
        Metadata::J1939(p) => assert!(p.spns.is_empty()),
        _ => panic!("expected a J1939 layout"),
    }
    match &spec.annex {
        Annex::Json(_) => {}
        _ => panic!("expected a JSON annex"),
    }
}

#[test]
fn sheet_start_bit_zero_parts_yield_zero() {
    // A start-bit cell of 2.0 has a zero bit part; the formula counts
    // both parts from one, so it falls back to zero.
    let mut rows = sheet_rows();
    rows[0].cells[18] = CellValue::Num {
        text: "2.0".to_string(),
        trunc: 2,
        eighth: 0,
    };
    let spec = J1939Spec::from_sheet_rows(rows);
    let layout = spec.lookup_pgn(61444).unwrap().unwrap();
    assert_eq!(layout.spns[0].1.start_bit, 0);
}

#[test]
fn sheet_scan_stops_at_first_other_group() {
    // Two rows of the group, then a row of another group, then a stray
    // row of the first group again: the scan stops at the other group,
    // so the stray row's signal is not collected.
    let mut first = sheet_rows().remove(0);
    first.cells[19] = CellValue::Int(190);
    let mut second = first.clone();
    second.cells[19] = CellValue::Int(191);
    let mut other = first.clone();
    other.cells[4] = CellValue::Num {
        text: "100".to_string(),
        trunc: 100,
        eighth: 0,
    };
    let mut stray = first.clone();
    stray.cells[19] = CellValue::Int(192);
    let spec = J1939Spec::from_sheet_rows(vec![first, second, other, stray]);
    let layout = spec.lookup_pgn(61444).unwrap().unwrap();
    let mut keys: Vec<u16> = layout.spns.iter().map(|(k, _)| *k).collect();
    keys.sort();
    assert_eq!(keys, vec![190, 191]);
}

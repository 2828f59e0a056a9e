//! The J1939 annex: loading a specification document and resolving the
//! layout of a parameter group.
//!
//! A JSON annex is a parsed document with the databases `J1939PGNdb` and
//! `J1939SPNdb` at top level; it is read through trusted wrappers around
//! serde_json, whose results are named by uninterpreted functions so that
//! the lookup logic is verified against a fixed meaning of the document.
//! A spreadsheet annex arrives as rows of plain cells; a DBC database is
//! carried but not queried.
use vstd::prelude::*;

verus! {

use serde_json::Value;
use vstd::string::StringSliceAdditionalSpecFns;
use vstd::utf8::encode_utf8;
use crate::can_message::CANID;
use crate::dec_text::{dec_body, dec_chars_of, dec_val, parse_dec_capped, parses_as_dec, u16_dec_string};
use crate::specification::{
    Annex, CellValue, Metadata, SheetRow, SpecError, SpecPGN, SpecSPN, has_spn_key, unique_keys,
    upsert_spec_spn, upsert_spn, ACRONYM_WIDTH, LABEL_WIDTH, RATE_WIDTH, SPN_TYPE_WIDTH,
    UNITS_WIDTH,
};
use crate::utils::{pack_bytes_spec, pack_string};

/// The object keys of a JSON value (empty for anything but an object).
pub uninterp spec fn json_keys(v: Value) -> Set<Seq<char>>;

/// The member of a JSON object under a key it contains.
pub uninterp spec fn json_child(v: Value, key: Seq<char>) -> Value;

/// The characters of a JSON string value, if the value is a string.
pub uninterp spec fn json_str_of(v: Value) -> Option<Seq<char>>;

/// The 64-bit integer of a JSON number value, if it is such an integer.
pub uninterp spec fn json_i64_of(v: Value) -> Option<i64>;

/// The elements of a JSON array value, if the value is an array.
pub uninterp spec fn json_items(v: Value) -> Option<Seq<Value>>;

/// The decimal text of a JSON number value, if the value is a number.
pub uninterp spec fn json_num_text(v: Value) -> Option<Seq<char>>;

/// The JSON text a value renders to.
pub uninterp spec fn json_text(v: Value) -> Seq<char>;

/// Whether a text parses as a JSON document: parsing is a function of the
/// text alone.
pub uninterp spec fn json_parses(text: Seq<char>) -> bool;

/// Whether a text parses as a DBC database: parsing is a function of the
/// text alone.
pub uninterp spec fn dbc_parses(text: Seq<char>) -> bool;

/// Relies on serde_json::from_str: parses a JSON document, succeeding on
/// exactly the well-formed texts; nothing is assumed of the parsed value.
#[verifier::external_body]
fn json_parse(s: &str) -> (r: Result<Value, String>)
    ensures
        r is Ok <==> json_parses(s@),
{
    serde_json::from_str::<Value>(s).map_err(|e| e.to_string())
}

/// Relies on serde_json::Value::get with a string index: returns the
/// member of an object under the key, `None` for an absent key or any
/// non-object.
#[verifier::external_body]
fn json_get<'a>(v: &'a Value, key: &str) -> (r: Option<&'a Value>)
    ensures
        r is Some <==> json_keys(*v).contains(key@),
        r matches Some(c) ==> *c == json_child(*v, key@),
{
    v.get(key)
}

/// Relies on serde_json::Value::as_str: returns the characters of a
/// string value, `None` otherwise.
#[verifier::external_body]
fn json_as_str<'a>(v: &'a Value) -> (r: Option<&'a str>)
    ensures
        match r {
            Some(s) => json_str_of(*v) == Some(s@),
            None => json_str_of(*v) is None,
        },
{
    v.as_str()
}

/// Relies on serde_json::Value::as_i64: returns the value of an integer
/// number representable in 64 bits, `None` otherwise.
#[verifier::external_body]
fn json_as_i64(v: &Value) -> (r: Option<i64>)
    ensures
        r == json_i64_of(*v),
{
    v.as_i64()
}

/// Relies on serde_json::Value::as_array: returns the elements of an
/// array value, `None` otherwise.
#[verifier::external_body]
fn json_array_items(v: &Value) -> (r: Option<Vec<Value>>)
    ensures
        r is Some <==> json_items(*v) is Some,
        r matches Some(a) ==> json_items(*v) == Some(a@),
{
    v.as_array().cloned()
}

/// Relies on serde_json's Display for Value: renders the value as JSON
/// text (a string value keeps its quotes, a number its digits).
#[verifier::external_body]
fn json_render(v: &Value) -> (r: String)
    ensures
        r@ == json_text(*v),
{
    v.to_string()
}

/// Relies on serde_json::Value::is_number and Display: the decimal text
/// of a number value, `None` for any other value.
#[verifier::external_body]
fn json_number_text(v: &Value) -> (r: Option<String>)
    ensures
        match r {
            Some(s) => json_num_text(*v) == Some(s@),
            None => json_num_text(*v) is None,
        },
{
    if v.is_number() {
        Some(v.to_string())
    } else {
        None
    }
}

/// Relies on can_dbc::Dbc::try_from: parses DBC text into a database,
/// succeeding on exactly the well-formed texts.
#[verifier::external_body]
fn dbc_parse(s: &str) -> (r: Option<can_dbc::Dbc>)
    ensures
        r is Some <==> dbc_parses(s@),
{
    can_dbc::Dbc::try_from(s).ok()
}

/// The J1939 specification: an annex and the queries against it.
pub struct J1939Spec {
    /// The annex document.
    pub annex: Annex,
}

/// A specification resolves the metadata of an identifier.
pub trait Specification {
    /// Resolves the metadata for a decoded identifier.
    fn get_id_metadata(&self, id: &CANID) -> Result<Metadata, SpecError>;
}

/// The characters, or empty when absent.
pub open spec fn chars_or_empty(o: Option<Seq<char>>) -> Seq<char> {
    match o {
        Some(s) => s,
        None => Seq::empty(),
    }
}

/// The string member of a JSON object under `key`, as characters; empty
/// when the key is absent or the member is not a string.
pub open spec fn field_str(e: Value, key: Seq<char>) -> Seq<char> {
    if json_keys(e).contains(key) {
        chars_or_empty(json_str_of(json_child(e, key)))
    } else {
        Seq::empty()
    }
}

/// The integer member of a JSON object under `key`; zero when absent or
/// not an integer.
pub open spec fn field_i64(e: Value, key: Seq<char>) -> i64 {
    if json_keys(e).contains(key) {
        match json_i64_of(json_child(e, key)) {
            Some(x) => x,
            None => 0,
        }
    } else {
        0
    }
}

/// The decimal text of the number member of a JSON object under `key`;
/// the text `0` when absent or not a number.
pub open spec fn field_num_text(e: Value, key: Seq<char>) -> Seq<char> {
    if json_keys(e).contains(key) && json_num_text(json_child(e, key)) is Some {
        json_num_text(json_child(e, key))->0
    } else {
        "0"@
    }
}

/// A 64-bit value stored in a byte-sized field: the low byte.
pub open spec fn wrap_u8(x: i64) -> u8 {
    (x & 0xFF) as u8
}

/// A 64-bit value stored in a 16-bit field: the low two bytes.
pub open spec fn wrap_u16(x: i64) -> u16 {
    (x & 0xFFFF) as u16
}

/// A start bit taken from the annex: the low byte for non-negative
/// values, zero otherwise.
pub open spec fn start_clamp(x: i64) -> u8 {
    if x >= 0 {
        wrap_u8(x)
    } else {
        0
    }
}

/// The SPN id encoded by the rendered key text: its decimal value, zero
/// when the text is not a 16-bit numeral.
pub open spec fn spn_key_of(name: Seq<char>) -> u16 {
    if parses_as_dec(encode_utf8(name), 0xFFFF) {
        dec_val(dec_body(encode_utf8(name))) as u16
    } else {
        0
    }
}

/// The start bit for item `k`: the parallel array's entry (or the first
/// element of a nested array there), zero when the array is absent, too
/// short, or the entry is not an integer.
pub open spec fn start_of(sb: Option<Seq<Value>>, k: int) -> i64 {
    match sb {
        None => 0,
        Some(arr) => if 0 <= k < arr.len() {
            match json_items(arr[k]) {
                Some(inner) => if inner.len() >= 1 {
                    match json_i64_of(inner[0]) {
                        Some(x) => x,
                        None => 0,
                    }
                } else {
                    0
                },
                None => match json_i64_of(arr[k]) {
                    Some(x) => x,
                    None => 0,
                },
            }
        } else {
            0
        },
    }
}

/// `entry` under `key` is exactly the layout that the SPN database gives
/// for the SPN named by the rendered text of `sv`, with `start` as its
/// start bit.
pub open spec fn spn_matches(
    entry: SpecSPN,
    key: u16,
    spn_db: Value,
    sv: Value,
    start: i64,
) -> bool {
    let name = json_text(sv);
    let e = json_child(spn_db, name);
    &&& json_keys(spn_db).contains(name)
    &&& key == spn_key_of(name)
    &&& entry.label@ == pack_bytes_spec(encode_utf8(field_str(e, "Name"@)), LABEL_WIDTH as nat)
    &&& entry.units@ == pack_bytes_spec(encode_utf8(field_str(e, "Units"@)), UNITS_WIDTH as nat)
    &&& entry.description@ == Seq::<char>::empty()
    &&& entry.length == wrap_u8(field_i64(e, "SPNLength"@))
    &&& entry.resolution@ == field_num_text(e, "Resolution"@)
    &&& entry.offset@ == field_num_text(e, "Offset"@)
    &&& entry.max@ == field_num_text(e, "OperationalHigh"@)
    &&& entry.start_bit == start_clamp(start)
    &&& entry.spn_type@ == Seq::new(SPN_TYPE_WIDTH as nat, |i: int| 0u8)
}

/// The PGN entry has every required field: Name, Label and Rate, a string
/// PGNLength, and an SPNs array; a present SPNStartBits must be an array.
pub open spec fn json_row_ok(d: Value) -> bool {
    &&& json_keys(d).contains("Name"@)
    &&& json_keys(d).contains("Label"@)
    &&& json_keys(d).contains("PGNLength"@)
    &&& json_keys(d).contains("Rate"@)
    &&& json_keys(d).contains("SPNs"@)
    &&& json_str_of(json_child(d, "PGNLength"@)) is Some
    &&& json_items(json_child(d, "SPNs"@)) is Some
    &&& (json_keys(d).contains("SPNStartBits"@) ==> json_items(
        json_child(d, "SPNStartBits"@),
    ) is Some)
}

/// The data length of a PGN entry: its PGNLength text read as a byte,
/// zero when unparseable.
pub open spec fn pgn_len_of(d: Value) -> u8 {
    let s = chars_or_empty(json_str_of(json_child(d, "PGNLength"@)));
    if parses_as_dec(encode_utf8(s), 0xFF) {
        dec_val(dec_body(encode_utf8(s))) as u8
    } else {
        0
    }
}

/// The JSON annex contains the PGN: the PGN database is present and has
/// an entry under the PGN's decimal key.
pub open spec fn json_has_pgn(root: Value, pgn: u16) -> bool {
    &&& json_keys(root).contains("J1939PGNdb"@)
    &&& json_keys(json_child(root, "J1939PGNdb"@)).contains(dec_chars_of(pgn as nat))
}

/// The PGN entry of the annex, assuming it is present.
pub open spec fn json_pgn_entry(root: Value, pgn: u16) -> Value {
    json_child(json_child(root, "J1939PGNdb"@), dec_chars_of(pgn as nat))
}

/// A lookup in the JSON annex fails: the PGN database is missing, or the
/// PGN is present but its entry lacks a required field, or the SPN
/// database is missing.
pub open spec fn json_lookup_fails(root: Value, pgn: u16) -> bool {
    ||| !json_keys(root).contains("J1939PGNdb"@)
    ||| (json_has_pgn(root, pgn) && (!json_row_ok(json_pgn_entry(root, pgn)) || !json_keys(
        root,
    ).contains("J1939SPNdb"@)))
}

/// The scalar fields of the layout returned for a PGN found in the JSON
/// annex: Name, Label and Rate rendered and packed, PGNLength parsed; the
/// fields the JSON annex does not carry stay zero.
pub open spec fn json_scalar_fields_ok(p: SpecPGN, root: Value, pgn: u16) -> bool {
    let d = json_pgn_entry(root, pgn);
    &&& p.label@ == pack_bytes_spec(
        encode_utf8(json_text(json_child(d, "Name"@))),
        LABEL_WIDTH as nat,
    )
    &&& p.acronym@ == pack_bytes_spec(
        encode_utf8(json_text(json_child(d, "Label"@))),
        ACRONYM_WIDTH as nat,
    )
    &&& p.transmission_rate@ == pack_bytes_spec(
        encode_utf8(json_text(json_child(d, "Rate"@))),
        RATE_WIDTH as nat,
    )
    &&& p.length == pgn_len_of(d)
    &&& p.description@ == Seq::<char>::empty()
    &&& p.pdu_format == 0
    &&& p.pdu_specific == 0
    &&& p.priority == 0
}

/// The SPN start-bit array of a PGN entry, when present.
pub open spec fn json_start_bits(d: Value) -> Option<Seq<Value>> {
    if json_keys(d).contains("SPNStartBits"@) {
        json_items(json_child(d, "SPNStartBits"@))
    } else {
        None
    }
}

/// The stored entry is justified: some listed SPN yields exactly it.
pub open spec fn entry_justified(
    entry: (u16, SpecSPN),
    spn_db: Value,
    items: Seq<Value>,
    sb: Option<Seq<Value>>,
) -> bool {
    exists|j: int|
        0 <= j < items.len() && spn_matches(entry.1, entry.0, spn_db, items[j], start_of(sb, j))
}

/// The SPN list of the layout is built from the entry's SPNs array: every
/// stored layout comes from some listed SPN that the SPN database knows,
/// and every listed SPN the database knows is stored.
pub open spec fn json_spns_ok(p: SpecPGN, root: Value, pgn: u16) -> bool {
    let d = json_pgn_entry(root, pgn);
    let spn_db = json_child(root, "J1939SPNdb"@);
    let items = json_items(json_child(d, "SPNs"@))->0;
    let sb = json_start_bits(d);
    &&& forall|i: int|
        0 <= i < p.spns@.len() ==> entry_justified(#[trigger] p.spns@[i], spn_db, items, sb)
    &&& forall|j: int|
        0 <= j < items.len() && json_keys(spn_db).contains(json_text(#[trigger] items[j]))
            ==> has_spn_key(p.spns@, spn_key_of(json_text(items[j])))
}

/// The cell of a row at a column, `Empty` past the row's end.
pub open spec fn cell_at(row: SheetRow, i: int) -> CellValue {
    if 0 <= i < row.cells@.len() {
        row.cells@[i]
    } else {
        CellValue::Empty
    }
}

/// The characters of a text cell; empty for any other cell.
pub open spec fn cell_text(c: CellValue) -> Seq<char> {
    match c {
        CellValue::Text(s) => s@,
        _ => Seq::empty(),
    }
}

/// The value of an integer cell; zero for any other cell.
pub open spec fn cell_i64(c: CellValue) -> i64 {
    match c {
        CellValue::Int(v) => v,
        _ => 0,
    }
}

/// The decimal text of a numeric cell; the text `0` for any other cell.
pub open spec fn cell_num(c: CellValue) -> Seq<char> {
    match c {
        CellValue::Num { text, .. } => text@,
        _ => "0"@,
    }
}

/// The start bit encoded by a `byte.bit` numeric cell: bytes and bits
/// count from one, so one is subtracted from each part after clamping
/// the byte to the field's range; a zero cell or a zero part yields
/// zero, and the combined value wraps in the byte-sized field.
pub open spec fn cell_start(c: CellValue) -> u8 {
    match c {
        CellValue::Num { trunc, eighth, .. } => {
            if trunc == 0 && eighth == 0 {
                0
            } else {
                let b: i64 = if trunc < 0 { 0 } else if trunc > 255 { 255 } else { trunc };
                if b >= 1 && eighth >= 1 {
                    ((((b - 1) * 8 + (eighth - 1)) as i64) & 0xFF) as u8
                } else {
                    0
                }
            }
        },
        _ => 0,
    }
}

/// The group fields of the layout are read from the given row: label,
/// acronym and rate packed from the text cells, the byte fields from
/// the integer cells.
pub open spec fn sheet_row_fields_ok(p: SpecPGN, row: SheetRow) -> bool {
    &&& p.label@ == pack_bytes_spec(encode_utf8(cell_text(cell_at(row, 5))), LABEL_WIDTH as nat)
    &&& p.acronym@ == pack_bytes_spec(
        encode_utf8(cell_text(cell_at(row, 6))),
        ACRONYM_WIDTH as nat,
    )
    &&& p.description@ == cell_text(cell_at(row, 7))
    &&& p.pdu_format == wrap_u8(cell_i64(cell_at(row, 10)))
    &&& p.pdu_specific == wrap_u8(cell_i64(cell_at(row, 11)))
    &&& p.priority == wrap_u8(cell_i64(cell_at(row, 15)))
    &&& p.length == wrap_u8(cell_i64(cell_at(row, 14)))
    &&& p.transmission_rate@ == pack_bytes_spec(
        encode_utf8(cell_text(cell_at(row, 13))),
        RATE_WIDTH as nat,
    )
}

/// The SPN layout is read from the given row's signal columns.
pub open spec fn sheet_spn_matches(e: SpecSPN, key: u16, row: SheetRow) -> bool {
    &&& key == wrap_u16(cell_i64(cell_at(row, 19)))
    &&& e.label@ == pack_bytes_spec(encode_utf8(cell_text(cell_at(row, 20))), LABEL_WIDTH as nat)
    &&& e.description@ == cell_text(cell_at(row, 21))
    &&& e.units@ == pack_bytes_spec(encode_utf8(cell_text(cell_at(row, 27))), UNITS_WIDTH as nat)
    &&& e.spn_type@ == pack_bytes_spec(
        encode_utf8(cell_text(cell_at(row, 30))),
        SPN_TYPE_WIDTH as nat,
    )
    &&& e.length == wrap_u8(cell_i64(cell_at(row, 35)))
    &&& e.resolution@ == cell_num(cell_at(row, 32))
    &&& e.offset@ == cell_num(cell_at(row, 33))
    &&& e.max@ == cell_num(cell_at(row, 34))
    &&& e.start_bit == cell_start(cell_at(row, 18))
}

/// The position of the first row carrying the PGN; the length if none.
pub open spec fn first_match(rows: Seq<SheetRow>, pgn: u16) -> int
    decreases rows.len(),
{
    if rows.len() == 0 {
        0
    } else if row_matches(rows[0], pgn) {
        0
    } else {
        1 + first_match(rows.skip(1), pgn)
    }
}

/// A prefix without a match followed by a match pins the first match.
proof fn lemma_first_match_at(rows: Seq<SheetRow>, pgn: u16, i: int)
    requires
        0 <= i < rows.len(),
        row_matches(rows[i], pgn),
        forall|t: int| 0 <= t < i ==> !row_matches(#[trigger] rows[t], pgn),
    ensures
        first_match(rows, pgn) == i,
    decreases i,
{
    if i > 0 {
        lemma_first_match_at(rows.skip(1), pgn, i - 1);
    }
}

/// A scanned range without a run-ending row, closed by one (or by the
/// end of the rows), pins the first run-ending position.
proof fn lemma_first_stop_at(rows: Seq<SheetRow>, pgn: u16, s: int, i: int)
    requires
        0 <= s <= i <= rows.len(),
        forall|t: int| s <= t < i ==> !row_stops(#[trigger] rows[t], pgn),
        i < rows.len() ==> row_stops(rows[i], pgn),
    ensures
        first_stop_from(rows, pgn, s) == i,
    decreases i - s,
{
    if s < i {
        lemma_first_stop_at(rows, pgn, s + 1, i);
    }
}

/// A spreadsheet row carries the PGN: its fifth column is a number whose
/// integer part equals the PGN.
pub open spec fn row_matches(row: SheetRow, pgn: u16) -> bool {
    row.cells@.len() > 4 && (row.cells@[4] matches CellValue::Num { trunc, .. } && trunc
        == pgn as i64)
}

/// The spreadsheet annex contains the PGN.
pub open spec fn sheet_has_pgn(rows: Seq<SheetRow>, pgn: u16) -> bool {
    exists|i: int| 0 <= i < rows.len() && row_matches(#[trigger] rows[i], pgn)
}

/// A row ends the group's run: its fifth column is a number whose integer
/// part names another group.
pub open spec fn row_stops(row: SheetRow, pgn: u16) -> bool {
    row.cells@.len() > 4 && (row.cells@[4] matches CellValue::Num { trunc, .. } && trunc
        != pgn as i64)
}

/// The position of the first run-ending row at or after `s`; the length
/// if none.
pub open spec fn first_stop_from(rows: Seq<SheetRow>, pgn: u16, s: int) -> int
    decreases rows.len() - s,
    when 0 <= s
{
    if s >= rows.len() {
        rows.len() as int
    } else if row_stops(rows[s], pgn) {
        s
    } else {
        first_stop_from(rows, pgn, s + 1)
    }
}

/// The end of the group's run: the first row after the first match whose
/// numbered group column names another group.
pub open spec fn run_end(rows: Seq<SheetRow>, pgn: u16) -> int {
    first_stop_from(rows, pgn, first_match(rows, pgn) + 1)
}

/// The SPN id a spreadsheet row stores its signal under.
pub open spec fn row_spn_key(row: SheetRow) -> u16 {
    wrap_u16(cell_i64(cell_at(row, 19)))
}

/// Every stored SPN layout is read off some row of the group.
pub open spec fn sheet_spns_sound(p: SpecPGN, rows: Seq<SheetRow>, pgn: u16) -> bool {
    forall|t: int|
        0 <= t < p.spns@.len() ==> exists|j: int|
            0 <= j < rows.len() && row_matches(rows[j], pgn) && sheet_spn_matches(
                (#[trigger] p.spns@[t]).1,
                p.spns@[t].0,
                rows[j],
            )
}

/// Every matching row of the group's first run contributes its SPN.
pub open spec fn sheet_spns_complete(p: SpecPGN, rows: Seq<SheetRow>, pgn: u16) -> bool {
    forall|j: int|
        first_match(rows, pgn) <= j < run_end(rows, pgn) && row_matches(#[trigger] rows[j], pgn)
            ==> has_spn_key(p.spns@, row_spn_key(rows[j]))
}

/// The layout is exactly what the spreadsheet gives for the PGN: the
/// group fields of the first matching row, and one SPN per matching row
/// of the first run, each read off its row.
pub open spec fn sheet_layout_ok(p: SpecPGN, rows: Seq<SheetRow>, pgn: u16) -> bool {
    &&& sheet_row_fields_ok(p, rows[first_match(rows, pgn)])
    &&& sheet_spns_sound(p, rows, pgn)
    &&& sheet_spns_complete(p, rows, pgn)
}

/// The annex contains a layout for the PGN.
pub open spec fn annex_has_pgn(annex: Annex, pgn: u16) -> bool {
    match annex {
        Annex::Json(root) => json_has_pgn(root, pgn),
        Annex::Sheet(rows) => sheet_has_pgn(rows@, pgn),
        Annex::Dbc(_) => false,
    }
}

/// Resolving the PGN against the annex fails: the annex is a DBC
/// database, or a JSON annex whose document refuses the lookup.
pub open spec fn lookup_err(annex: Annex, pgn: u16) -> bool {
    match annex {
        Annex::Json(root) => json_lookup_fails(root, pgn),
        Annex::Sheet(_) => false,
        Annex::Dbc(_) => true,
    }
}

/// The layout is exactly what the annex gives for the PGN.
pub open spec fn layout_matches(annex: Annex, pgn: u16, p: SpecPGN) -> bool {
    match annex {
        Annex::Json(root) => json_scalar_fields_ok(p, root, pgn) && json_spns_ok(p, root, pgn),
        Annex::Sheet(rows) => sheet_layout_ok(p, rows@, pgn),
        Annex::Dbc(_) => false,
    }
}

/// The all-default layout: zeroed fields and no SPNs.
pub open spec fn default_pgn_layout(p: SpecPGN) -> bool {
    &&& p.spns@.len() == 0
    &&& p.pdu_format == 0
    &&& p.pdu_specific == 0
    &&& p.priority == 0
    &&& p.length == 0
    &&& p.label@ == Seq::new(LABEL_WIDTH as nat, |i: int| 0u8)
    &&& p.acronym@ == Seq::new(ACRONYM_WIDTH as nat, |i: int| 0u8)
    &&& p.transmission_rate@ == Seq::new(RATE_WIDTH as nat, |i: int| 0u8)
    &&& p.description@ == Seq::<char>::empty()
}

impl J1939Spec {
    /// Builds the specification from JSON annex text; it succeeds on
    /// exactly the texts that parse as JSON.
    pub fn from_json_str(content: &str) -> (r: Result<J1939Spec, SpecError>)
        ensures
            r is Ok <==> json_parses(content@),
            r matches Ok(s) ==> s.annex is Json,
            r matches Err(e) ==> "Error parsing specification file: "@.is_prefix_of(e.0@),
    {
        match json_parse(content) {
            Ok(root) => Ok(J1939Spec { annex: Annex::Json(root) }),
            Err(e) => {
                let mut m: String = "Error parsing specification file: ".to_owned();
                m.append(e.as_str());
                Err(SpecError(m))
            },
        }
    }

    /// Builds the specification from DBC annex text; it succeeds on
    /// exactly the texts that parse as a DBC database.
    pub fn from_dbc_str(content: &str) -> (r: Result<J1939Spec, SpecError>)
        ensures
            r is Ok <==> dbc_parses(content@),
            r matches Ok(s) ==> s.annex is Dbc,
            r matches Err(e) ==> e.0@ == "Could not parse DBC Digital Annex."@,
    {
        match dbc_parse(content) {
            Some(db) => Ok(J1939Spec { annex: Annex::Dbc(db) }),
            None => Err(SpecError("Could not parse DBC Digital Annex.".to_owned())),
        }
    }

    /// Builds the specification from spreadsheet rows.
    pub fn from_sheet_rows(rows: Vec<SheetRow>) -> (r: J1939Spec)
        ensures
            r.annex matches Annex::Sheet(rs) && rs@ == rows@,
    {
        J1939Spec { annex: Annex::Sheet(rows) }
    }

    /// Resolves the layout of a PGN against the annex. Returns the layout
    /// when the annex has the PGN, `None` when it does not (that is no
    /// error: the frame simply decodes without signals), and an error for
    /// an unsupported annex kind or a malformed entry.
    pub fn lookup_pgn(&self, pgn: u16) -> (r: Result<Option<SpecPGN>, SpecError>)
        ensures
            r is Err <==> lookup_err(self.annex, pgn),
            r matches Ok(Some(p)) ==> annex_has_pgn(self.annex, pgn) && p.wf() && layout_matches(
                self.annex,
                pgn,
                p,
            ),
            r matches Ok(None) ==> !annex_has_pgn(self.annex, pgn),
            self.annex matches Annex::Dbc(_) ==> (r matches Err(e) && e.0@
                == "Annex type not supported"@),
            self.annex matches Annex::Json(root) && !json_keys(root).contains("J1939PGNdb"@) ==> (
            r matches Err(e) && e.0@ == "Could not find PGN database in JSON Digital Annex"@),
    {
        match &self.annex {
            Annex::Dbc(_) => Err(SpecError("Annex type not supported".to_owned())),
            Annex::Json(root) => Self::lookup_pgn_json(root, pgn),
            Annex::Sheet(rows) => Ok(Self::lookup_pgn_sheet(rows, pgn)),
        }
    }

    /// Resolves a PGN in the JSON annex.
    fn lookup_pgn_json(root: &Value, pgn: u16) -> (r: Result<Option<SpecPGN>, SpecError>)
        ensures
            r matches Ok(Some(p)) ==> json_has_pgn(*root, pgn) && p.wf() && json_scalar_fields_ok(
                p,
                *root,
                pgn,
            ) && json_spns_ok(p, *root, pgn),
            r matches Ok(None) ==> !json_has_pgn(*root, pgn),
            r is Err <==> json_lookup_fails(*root, pgn),
            !json_keys(*root).contains("J1939PGNdb"@) ==> (r matches Err(e) && e.0@
                == "Could not find PGN database in JSON Digital Annex"@),
    {
        let pgn_db = match json_get(root, "J1939PGNdb") {
            Some(v) => v,
            None => {
                return Err(
                    SpecError("Could not find PGN database in JSON Digital Annex".to_owned()),
                );
            },
        };
        let key = u16_dec_string(pgn);
        let d = match json_get(pgn_db, key.as_str()) {
            Some(v) => v,
            None => {
                return Ok(None);
            },
        };
        let name_v = match json_get(d, "Name") {
            Some(v) => v,
            None => {
                return Err(SpecError("Missing required PGN fields in JSON Digital Annex".to_owned()));
            },
        };
        let label_v = match json_get(d, "Label") {
            Some(v) => v,
            None => {
                return Err(SpecError("Missing required PGN fields in JSON Digital Annex".to_owned()));
            },
        };
        let len_v = match json_get(d, "PGNLength") {
            Some(v) => v,
            None => {
                return Err(SpecError("Missing required PGN fields in JSON Digital Annex".to_owned()));
            },
        };
        let rate_v = match json_get(d, "Rate") {
            Some(v) => v,
            None => {
                return Err(SpecError("Missing required PGN fields in JSON Digital Annex".to_owned()));
            },
        };
        let spns_v = match json_get(d, "SPNs") {
            Some(v) => v,
            None => {
                return Err(SpecError("Missing required PGN fields in JSON Digital Annex".to_owned()));
            },
        };
        let len_s = match json_as_str(len_v) {
            Some(s) => s,
            None => {
                return Err(SpecError("Missing required PGN fields in JSON Digital Annex".to_owned()));
            },
        };
        let items = match json_array_items(spns_v) {
            Some(a) => a,
            None => {
                return Err(SpecError("Missing required PGN fields in JSON Digital Annex".to_owned()));
            },
        };
        let spn_db = match json_get(root, "J1939SPNdb") {
            Some(v) => v,
            None => {
                return Err(
                    SpecError("Could not find SPN database in JSON Digital Annex".to_owned()),
                );
            },
        };
        let sbits: Option<Vec<Value>> = match json_get(d, "SPNStartBits") {
            Some(sv) => match json_array_items(sv) {
                Some(a) => Some(a),
                None => {
                    return Err(
                        SpecError("Missing required PGN fields in JSON Digital Annex".to_owned()),
                    );
                },
            },
            None => None,
        };
        let mut out = SpecPGN::default();
        let name_s = json_render(name_v);
        out.label = pack_string(name_s.as_str(), LABEL_WIDTH);
        let label_s = json_render(label_v);
        out.acronym = pack_string(label_s.as_str(), ACRONYM_WIDTH);
        let rate_s = json_render(rate_v);
        out.transmission_rate = pack_string(rate_s.as_str(), RATE_WIDTH);
        out.length = match parse_dec_capped(len_s, 0xFF) {
            Some(x) => x as u8,
            None => 0,
        };
        let ghost sb_spec: Option<Seq<Value>> = match sbits {
            Some(ref a) => Some(a@),
            None => None,
        };
        proof {
            assert(sb_spec == json_start_bits(*d));
        }
        let mut k: usize = 0;
        while k < items.len()
            invariant
                k <= items@.len(),
                json_has_pgn(*root, pgn),
                *d == json_pgn_entry(*root, pgn),
                items@ == json_items(json_child(*d, "SPNs"@))->0,
                sb_spec == (match sbits {
                    Some(ref a) => Some(a@),
                    None => None,
                }),
                sb_spec == json_start_bits(*d),
                *spn_db == json_child(*root, "J1939SPNdb"@),
                out.wf(),
                json_scalar_fields_ok(out, *root, pgn),
                forall|i: int|
                    0 <= i < out.spns@.len() ==> entry_justified(
                        #[trigger] out.spns@[i],
                        *spn_db,
                        items@,
                        sb_spec,
                    ),
                forall|j: int|
                    0 <= j < k && json_keys(*spn_db).contains(json_text(#[trigger] items@[j]))
                        ==> has_spn_key(out.spns@, spn_key_of(json_text(items@[j]))),
            decreases items@.len() - k,
        {
            let start: i64 = match &sbits {
                None => 0,
                Some(arr) => if k < arr.len() {
                    match json_array_items(&arr[k]) {
                        Some(inner) => if inner.len() >= 1 {
                            match json_as_i64(&inner[0]) {
                                Some(x) => x,
                                None => 0,
                            }
                        } else {
                            0
                        },
                        None => match json_as_i64(&arr[k]) {
                            Some(x) => x,
                            None => 0,
                        },
                    }
                } else {
                    0
                },
            };
            proof {
                assert(start == start_of(sb_spec, k as int));
            }
            let name = json_render(&items[k]);
            match json_get(spn_db, name.as_str()) {
                None => {},
                Some(e) => {
                    let spn_key: u16 = match parse_dec_capped(name.as_str(), 0xFFFF) {
                        Some(x) => x as u16,
                        None => 0,
                    };
                    let entry = Self::build_spn_entry(e, start);
                    proof {
                        assert(spn_matches(
                            entry,
                            spn_key,
                            *spn_db,
                            items@[k as int],
                            start_of(sb_spec, k as int),
                        ));
                    }
                    let ghost before = out.spns@;
                    upsert_spec_spn(&mut out.spns, spn_key, entry);
                    proof {
                        lemma_upsert_matches(before, out.spns@, spn_key, entry);
                        assert(spn_key == spn_key_of(json_text(items@[k as int])));
                        assert(entry_justified((spn_key, entry), *spn_db, items@, sb_spec)) by {
                            assert(0 <= k < items@.len() && spn_matches(
                                entry,
                                spn_key,
                                *spn_db,
                                items@[k as int],
                                start_of(sb_spec, k as int),
                            ));
                        }
                        assert forall|i: int|
                            0 <= i < out.spns@.len() implies entry_justified(
                            #[trigger] out.spns@[i],
                            *spn_db,
                            items@,
                            sb_spec,
                        ) by {
                            if out.spns@[i] != (spn_key, entry) {
                                let t = choose|t: int|
                                    0 <= t < before.len() && before[t] == out.spns@[i];
                                assert(entry_justified(before[t], *spn_db, items@, sb_spec));
                            }
                        }
                        assert forall|j: int|
                            0 <= j < k + 1 && json_keys(*spn_db).contains(
                                json_text(#[trigger] items@[j]),
                            ) implies has_spn_key(out.spns@, spn_key_of(json_text(items@[j]))) by {
                            if j < k {
                                assert(has_spn_key(before, spn_key_of(json_text(items@[j]))));
                            } else {
                                assert(has_spn_key(out.spns@, spn_key));
                            }
                        }
                    }
                },
            }
            k = k + 1;
        }
        proof {
            let d_spec = json_pgn_entry(*root, pgn);
            let spndb_spec = json_child(*root, "J1939SPNdb"@);
            let items_spec = json_items(json_child(d_spec, "SPNs"@))->0;
            let sb2 = json_start_bits(d_spec);
            assert(items@ == items_spec);
            assert(sb_spec == sb2);
            assert forall|i: int|
                0 <= i < out.spns@.len() implies entry_justified(
                #[trigger] out.spns@[i],
                spndb_spec,
                items_spec,
                sb2,
            ) by {
                assert(entry_justified(out.spns@[i], *spn_db, items@, sb_spec));
            }
            assert forall|j: int|
                0 <= j < items_spec.len() && json_keys(spndb_spec).contains(
                    json_text(#[trigger] items_spec[j]),
                ) implies has_spn_key(out.spns@, spn_key_of(json_text(items_spec[j]))) by {
                assert(items@[j] == items_spec[j]);
                assert(json_keys(*spn_db).contains(json_text(items@[j])));
            }
            assert(json_spns_ok(out, *root, pgn));
        }
        Ok(Some(out))
    }

    /// Reads one SPN layout out of its database entry.
    fn build_spn_entry(e: &Value, start: i64) -> (r: SpecSPN)
        ensures
            r.wf(),
            r.label@ == pack_bytes_spec(encode_utf8(field_str(*e, "Name"@)), LABEL_WIDTH as nat),
            r.units@ == pack_bytes_spec(encode_utf8(field_str(*e, "Units"@)), UNITS_WIDTH as nat),
            r.description@ == Seq::<char>::empty(),
            r.length == wrap_u8(field_i64(*e, "SPNLength"@)),
            r.resolution@ == field_num_text(*e, "Resolution"@),
            r.offset@ == field_num_text(*e, "Offset"@),
            r.max@ == field_num_text(*e, "OperationalHigh"@),
            r.start_bit == start_clamp(start),
            r.spn_type@ == Seq::new(SPN_TYPE_WIDTH as nat, |i: int| 0u8),
    {
        let mut r = SpecSPN::default();
        let name_s = Self::field_string(e, "Name");
        r.label = pack_string(name_s.as_str(), LABEL_WIDTH);
        let units_s = Self::field_string(e, "Units");
        r.units = pack_string(units_s.as_str(), UNITS_WIDTH);
        r.length = Self::field_int_u8(e, "SPNLength");
        r.resolution = Self::field_number_text(e, "Resolution");
        r.offset = Self::field_number_text(e, "Offset");
        r.max = Self::field_number_text(e, "OperationalHigh");
        proof {
            assert(0 <= start & 0xFF < 256) by (bit_vector);
        }
        r.start_bit = if start >= 0 {
            (start & 0xFF) as u8
        } else {
            0
        };
        r
    }

    /// The string member under `key`, or empty text.
    fn field_string(e: &Value, key: &str) -> (r: String)
        ensures
            r@ == field_str(*e, key@),
    {
        match json_get(e, key) {
            Some(v) => match json_as_str(v) {
                Some(s) => s.to_owned(),
                None => String::new(),
            },
            None => String::new(),
        }
    }

    /// The integer member under `key`, wrapped to a byte.
    fn field_int_u8(e: &Value, key: &str) -> (r: u8)
        ensures
            r == wrap_u8(field_i64(*e, key@)),
    {
        let x: i64 = match json_get(e, key) {
            Some(v) => match json_as_i64(v) {
                Some(x) => x,
                None => 0,
            },
            None => 0,
        };
        proof {
            assert(0 <= x & 0xFF < 256) by (bit_vector);
        }
        (x & 0xFF) as u8
    }

    /// The decimal text of the number member under `key`, or `0`.
    fn field_number_text(e: &Value, key: &str) -> (r: String)
        ensures
            r@ == field_num_text(*e, key@),
    {
        match json_get(e, key) {
            Some(v) => match json_number_text(v) {
                Some(s) => s,
                None => crate::specification::zero_text(),
            },
            None => crate::specification::zero_text(),
        }
    }

    /// Resolves a PGN in the spreadsheet annex: the first matching row
    /// fills the group fields, and every matching row up to the first
    /// non-matching numbered row after it adds one SPN layout.
    fn lookup_pgn_sheet(rows: &Vec<SheetRow>, pgn: u16) -> (r: Option<SpecPGN>)
        ensures
            r is Some <==> sheet_has_pgn(rows@, pgn),
            r matches Some(p) ==> p.wf() && sheet_layout_ok(p, rows@, pgn),
    {
        let mut out = SpecPGN::default();
        let mut got_info = false;
        let mut i: usize = 0;
        while i < rows.len()
            invariant
                i <= rows@.len(),
                out.wf(),
                got_info ==> sheet_has_pgn(rows@, pgn),
                got_info ==> sheet_row_fields_ok(out, rows@[first_match(rows@, pgn)]),
                got_info ==> 0 <= first_match(rows@, pgn) < i,
                got_info ==> forall|t: int|
                    first_match(rows@, pgn) < t < i ==> !row_stops(#[trigger] rows@[t], pgn),
                got_info ==> forall|j: int|
                    first_match(rows@, pgn) <= j < i && row_matches(#[trigger] rows@[j], pgn)
                        ==> has_spn_key(out.spns@, row_spn_key(rows@[j])),
                !got_info ==> forall|t: int| 0 <= t < i ==> !row_matches(#[trigger] rows@[t], pgn),
                !got_info ==> out.spns@.len() == 0,
                forall|t: int|
                    0 <= t < out.spns@.len() ==> exists|j: int|
                        0 <= j < rows@.len() && row_matches(rows@[j], pgn) && sheet_spn_matches(
                            (#[trigger] out.spns@[t]).1,
                            out.spns@[t].0,
                            rows@[j],
                        ),
            decreases rows@.len() - i,
        {
            let row = &rows[i];
            if row.cells.len() > 4 {
                let is_num_match: Option<bool> = match &row.cells[4] {
                    CellValue::Num { trunc, .. } => Some(*trunc == pgn as i64),
                    _ => None,
                };
                match is_num_match {
                    Some(true) => {
                        proof {
                            assert(row_matches(rows@[i as int], pgn));
                            assert(!row_stops(rows@[i as int], pgn));
                        }
                        if !got_info {
                            proof {
                                lemma_first_match_at(rows@, pgn, i as int);
                            }
                            Self::parse_row_for_pgn_info_sheet(&mut out, row);
                            got_info = true;
                        }
                        let spn = Self::parse_spn_sheet(row);
                        let key = Self::cell_int_u16(row, 19);
                        let ghost before = out.spns@;
                        upsert_spec_spn(&mut out.spns, key, spn);
                        proof {
                            lemma_upsert_matches(before, out.spns@, key, spn);
                            assert(key == row_spn_key(rows@[i as int]));
                            assert forall|t: int|
                                0 <= t < out.spns@.len() implies exists|j: int|
                                0 <= j < rows@.len() && row_matches(rows@[j], pgn)
                                    && sheet_spn_matches(
                                    (#[trigger] out.spns@[t]).1,
                                    out.spns@[t].0,
                                    rows@[j],
                                ) by {
                                if out.spns@[t] == (key, spn) {
                                    assert(row_matches(rows@[i as int], pgn) && sheet_spn_matches(
                                        out.spns@[t].1,
                                        out.spns@[t].0,
                                        rows@[i as int],
                                    ));
                                } else {
                                    let u = choose|u: int|
                                        0 <= u < before.len() && before[u] == out.spns@[t];
                                    assert(exists|j: int|
                                        0 <= j < rows@.len() && row_matches(rows@[j], pgn)
                                            && sheet_spn_matches(
                                            (#[trigger] before[u]).1,
                                            before[u].0,
                                            rows@[j],
                                        ));
                                }
                            }
                        }
                    },
                    Some(false) => {
                        if got_info {
                            proof {
                                assert(row_stops(rows@[i as int], pgn));
                                lemma_first_stop_at(
                                    rows@,
                                    pgn,
                                    first_match(rows@, pgn) + 1,
                                    i as int,
                                );
                            }
                            return Some(out);
                        }
                    },
                    None => {
                        proof {
                            assert(!row_stops(rows@[i as int], pgn));
                            assert(!row_matches(rows@[i as int], pgn));
                        }
                    },
                }
            } else {
                proof {
                    assert(!row_stops(rows@[i as int], pgn));
                    assert(!row_matches(rows@[i as int], pgn));
                }
            }
            i = i + 1;
        }
        if got_info {
            proof {
                lemma_first_stop_at(rows@, pgn, first_match(rows@, pgn) + 1, rows@.len() as int);
            }
            Some(out)
        } else {
            None
        }
    }

    /// Fills the group fields from a spreadsheet row: label, acronym and
    /// rate packed from the text cells, the byte fields from the integer
    /// cells.
    fn parse_row_for_pgn_info_sheet(out: &mut SpecPGN, row: &SheetRow)
        requires
            old(out).wf(),
        ensures
            final (out).wf(),
            final (out).spns == old(out).spns,
            sheet_row_fields_ok(*final (out), *row),
    {
        let label_s = Self::cell_string(row, 5);
        out.label = pack_string(label_s.as_str(), LABEL_WIDTH);
        let acro_s = Self::cell_string(row, 6);
        out.acronym = pack_string(acro_s.as_str(), ACRONYM_WIDTH);
        out.description = Self::cell_string(row, 7);
        out.pdu_format = Self::cell_int_u8(row, 10);
        out.pdu_specific = Self::cell_int_u8(row, 11);
        out.priority = Self::cell_int_u8(row, 15);
        out.length = Self::cell_int_u8(row, 14);
        let rate_s = Self::cell_string(row, 13);
        out.transmission_rate = pack_string(rate_s.as_str(), RATE_WIDTH);
    }

    /// Reads one SPN layout from a spreadsheet row.
    fn parse_spn_sheet(row: &SheetRow) -> (r: SpecSPN)
        ensures
            r.wf(),
            r.label@ == pack_bytes_spec(
                encode_utf8(cell_text(cell_at(*row, 20))),
                LABEL_WIDTH as nat,
            ),
            r.description@ == cell_text(cell_at(*row, 21)),
            r.units@ == pack_bytes_spec(
                encode_utf8(cell_text(cell_at(*row, 27))),
                UNITS_WIDTH as nat,
            ),
            r.spn_type@ == pack_bytes_spec(
                encode_utf8(cell_text(cell_at(*row, 30))),
                SPN_TYPE_WIDTH as nat,
            ),
            r.length == wrap_u8(cell_i64(cell_at(*row, 35))),
            r.resolution@ == cell_num(cell_at(*row, 32)),
            r.offset@ == cell_num(cell_at(*row, 33)),
            r.max@ == cell_num(cell_at(*row, 34)),
            r.start_bit == cell_start(cell_at(*row, 18)),
    {
        let mut r = SpecSPN::default();
        let label_s = Self::cell_string(row, 20);
        r.label = pack_string(label_s.as_str(), LABEL_WIDTH);
        r.description = Self::cell_string(row, 21);
        let units_s = Self::cell_string(row, 27);
        r.units = pack_string(units_s.as_str(), UNITS_WIDTH);
        let type_s = Self::cell_string(row, 30);
        r.spn_type = pack_string(type_s.as_str(), SPN_TYPE_WIDTH);
        r.length = Self::cell_int_u8(row, 35);
        r.resolution = Self::cell_num_string(row, 32);
        r.offset = Self::cell_num_string(row, 33);
        r.max = Self::cell_num_string(row, 34);
        r.start_bit = Self::cell_start_bit(row, 18);
        r
    }

    /// The text of a cell, or empty.
    fn cell_string(row: &SheetRow, idx: usize) -> (r: String)
        ensures
            r@ == cell_text(cell_at(*row, idx as int)),
    {
        if idx < row.cells.len() {
            match &row.cells[idx] {
                CellValue::Text(s) => s.clone(),
                _ => String::new(),
            }
        } else {
            String::new()
        }
    }

    /// The integer of a cell wrapped to a byte, or zero.
    fn cell_int_u8(row: &SheetRow, idx: usize) -> (r: u8)
        ensures
            r == wrap_u8(cell_i64(cell_at(*row, idx as int))),
    {
        let x: i64 = if idx < row.cells.len() {
            match &row.cells[idx] {
                CellValue::Int(v) => *v,
                _ => 0,
            }
        } else {
            0
        };
        proof {
            assert(0 <= x & 0xFF < 256) by (bit_vector);
        }
        (x & 0xFF) as u8
    }

    /// The integer of a cell wrapped to 16 bits, or zero.
    fn cell_int_u16(row: &SheetRow, idx: usize) -> (r: u16)
        ensures
            r == wrap_u16(cell_i64(cell_at(*row, idx as int))),
    {
        let x: i64 = if idx < row.cells.len() {
            match &row.cells[idx] {
                CellValue::Int(v) => *v,
                _ => 0,
            }
        } else {
            0
        };
        proof {
            assert(0 <= x & 0xFFFF < 0x10000) by (bit_vector);
        }
        (x & 0xFFFF) as u16
    }

    /// The decimal text of a numeric cell, or `0`.
    fn cell_num_string(row: &SheetRow, idx: usize) -> (r: String)
        ensures
            r@ == cell_num(cell_at(*row, idx as int)),
    {
        if idx < row.cells.len() {
            match &row.cells[idx] {
                CellValue::Num { text, .. } => text.clone(),
                _ => crate::specification::zero_text(),
            }
        } else {
            crate::specification::zero_text()
        }
    }

    /// The start bit encoded by a `byte.bit` numeric cell: bytes and bits
    /// count from one, so one is subtracted from each part; a zero cell
    /// or a part of zero yields zero. The combined value is stored in the
    /// byte-sized field, so it wraps at 256.
    fn cell_start_bit(row: &SheetRow, idx: usize) -> (r: u8)
        ensures
            r == cell_start(cell_at(*row, idx as int)),
    {
        if idx < row.cells.len() {
            match &row.cells[idx] {
                CellValue::Num { trunc, eighth, .. } => {
                    let t = *trunc;
                    let e = *eighth;
                    if t == 0 && e == 0 {
                        0
                    } else {
                        let byte_part: i64 = if t < 0 {
                            0
                        } else if t > 255 {
                            255
                        } else {
                            t
                        };
                        if byte_part >= 1 && e >= 1 {
                            let v: i64 = (byte_part - 1) * 8 + (e as i64 - 1);
                            proof {
                                assert(0 <= v & 0xFF < 256) by (bit_vector);
                            }
                            (v & 0xFF) as u8
                        } else {
                            0
                        }
                    }
                },
                _ => 0,
            }
        } else {
            0
        }
    }
}

/// An upsert keeps every stored entry justified and never loses a key.
proof fn lemma_upsert_matches(
    before: Seq<(u16, SpecSPN)>,
    after: Seq<(u16, SpecSPN)>,
    k: u16,
    v: SpecSPN,
)
    requires
        after == upsert_spn(before, k, v),
    ensures
        forall|i: int|
            #![trigger after[i]]
            0 <= i < after.len() ==> (after[i] == (k, v) || (exists|t: int|
                0 <= t < before.len() && before[t] == after[i])),
        forall|x: u16| has_spn_key(before, x) ==> has_spn_key(after, x),
        has_spn_key(after, k),
{
    if has_spn_key(before, k) {
        let u = crate::specification::spn_key_index(before, k);
        assert(0 <= u < before.len() && before[u].0 == k);
        assert(after[u] == (k, v));
        assert forall|x: u16| has_spn_key(before, x) implies has_spn_key(after, x) by {
            let t = choose|t: int| 0 <= t < before.len() && before[t].0 == x;
            if t == u {
                assert(after[u].0 == k);
                assert(before[u].0 == x);
            } else {
                assert(after[t].0 == x);
            }
        }
    } else {
        assert(after[before.len() as int] == (k, v));
        assert forall|x: u16| has_spn_key(before, x) implies has_spn_key(after, x) by {
            let t = choose|t: int| 0 <= t < before.len() && before[t].0 == x;
            assert(after[t].0 == x);
        }
    }
}

impl Specification for J1939Spec {
    /// Resolves the metadata for an identifier: exactly the annex layout
    /// of its PGN when the annex has it, the all-default layout when the
    /// annex is silent on it, and an error exactly where the lookup
    /// fails.
    fn get_id_metadata(&self, id: &CANID) -> (r: Result<Metadata, SpecError>)
        ensures
            r is Err <==> lookup_err(self.annex, id.pgn),
            r matches Ok(m) ==> (m matches Metadata::J1939(p) && p.wf() && (
            if annex_has_pgn(self.annex, id.pgn) {
                layout_matches(self.annex, id.pgn, p)
            } else {
                default_pgn_layout(p)
            })),
    {
        match self.lookup_pgn(id.pgn) {
            Ok(Some(p)) => Ok(Metadata::J1939(p)),
            Ok(None) => Ok(Metadata::J1939(SpecPGN::default())),
            Err(e) => Err(e),
        }
    }
}

} // verus!


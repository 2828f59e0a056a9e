//! A verified decoder for CAN / J1939 capture logs.
//!
//! Lines are matched by a caller-supplied regular expression with the
//! named groups `timestamp`, `id` and `data`; the identifier is decomposed
//! into its J1939 fields; signal values are extracted from the payload by
//! bit-level unpacking against an annex-provided layout, which is resolved
//! once per parameter group and memoized. Signal values are raw unscaled
//! integers, with the decimal scale factors carried beside them as text;
//! callers apply the floating-point scaling at the edge.
use vstd::prelude::*;

pub mod can_message;
pub mod dec_text;
pub mod error;
pub mod float_text;
pub mod hex_text;
pub mod j1939_spec;
pub mod laws;
pub mod specification;
pub mod utils;
pub mod csv_serializer;

verus! {

use vstd::string::StringSliceAdditionalSpecFns;
use crate::can_message::{
    parse_id, parse_j1939_data, spec_ext, j1939_fields_ok, spn_values_map, extended_spn_map,
    CANData, CANID, CANMessage, PAYLOAD_WIDTH,
};
use crate::error::CANParserError;
use crate::float_text::is_float_text;
use crate::hex_text::{hex_body, hex_val, hex_pairs_bytes, hex_pairs_ok, decode_hex_pairs, parses_as_hex_u32};
use crate::j1939_spec::{annex_has_pgn, J1939Spec};
use crate::specification::{
    determine_file_type_from_contents, has_pgn_key, pgn_key_index, Annex, CellValue, FileType,
    SheetRow, SpecError, SpecPGN,
};

/// The error-handling mode that drops failing lines.
pub const ERROR_IGNORE: &'static str = "ignore";

/// The error-handling mode that collects failing lines as warnings.
pub const ERROR_WARN: &'static str = "warn";

/// The key of the J1939 specification in the annex map.
pub const SPEC_TYPE_J1939: &'static str = "j1939";

/// The key of the plain CAN specification in the annex map.
pub const SPEC_TYPE_CAN: &'static str = "can";

/// The key of the UDS specification in the annex map.
pub const SPEC_TYPE_UDS: &'static str = "uds";

/// The key of the transport specification in the annex map.
pub const SPEC_TYPE_TRANSPORT: &'static str = "transport";

/// A text log.
pub const LOG_TYPE_TEXT: &'static str = "text";

/// A binary log.
pub const LOG_TYPE_BINARY: &'static str = "binary";

/// Declares the compiled regular expression type; the library calls it
/// only through its trusted wrappers.
#[verifier::external_type_specification]
#[verifier::external_body]
pub struct ExRegex(regex::Regex);

/// Whether a regular-expression pattern compiles: compilation is a
/// function of the pattern text alone.
pub uninterp spec fn regex_compiles(pattern: Seq<char>) -> bool;

/// The texts of the named capture groups `timestamp`, `id` and `data` of
/// the first match of a pattern on a line, and `None` when the line does
/// not match: matching is a function of the pattern and the line alone.
pub uninterp spec fn caps_of(pattern: Seq<char>, line: Seq<char>) -> Option<
    (Option<Seq<char>>, Option<Seq<char>>, Option<Seq<char>>),
>;

/// The named capture groups of one matched input line.
pub struct LineCaptures {
    /// The `timestamp` group, if captured.
    pub timestamp: Option<String>,
    /// The `id` group, if captured.
    pub id: Option<String>,
    /// The `data` group, if captured.
    pub data: Option<String>,
}

/// The characters of an optional text.
pub open spec fn opt_chars(o: Option<String>) -> Option<Seq<char>> {
    match o {
        Some(s) => Some(s@),
        None => None,
    }
}

/// The view of a capture record: the characters of its three groups.
pub open spec fn caps_view(c: LineCaptures) -> (
    Option<Seq<char>>,
    Option<Seq<char>>,
    Option<Seq<char>>,
) {
    (opt_chars(c.timestamp), opt_chars(c.id), opt_chars(c.data))
}

/// Relies on regex::Regex::new: compilation succeeds on exactly the
/// well-formed patterns; the error is rendered as text.
#[verifier::external_body]
fn regex_new(pattern: &str) -> (r: Result<regex::Regex, String>)
    ensures
        r is Ok <==> regex_compiles(pattern@),
{
    regex::Regex::new(pattern).map_err(|e| e.to_string())
}

/// A compiled line pattern, carrying the text it was compiled from so
/// that contracts can speak of what the pattern captures on a line.
pub struct LineRegex {
    re: regex::Regex,
    pattern: Ghost<Seq<char>>,
}

impl LineRegex {
    /// The text the pattern was compiled from.
    pub closed spec fn pattern(self) -> Seq<char> {
        self.pattern@
    }

    /// Compiles a pattern, remembering its text beside the compiled
    /// value.
    pub fn new(pattern: &str) -> (r: Result<LineRegex, String>)
        ensures
            r is Ok <==> regex_compiles(pattern@),
            r matches Ok(re) ==> re.pattern() == pattern@,
    {
        match regex_new(pattern) {
            Ok(re) => Ok(LineRegex { re, pattern: Ghost(pattern@) }),
            Err(e) => Err(e),
        }
    }

    /// Relies on regex::Regex::captures and regex::Captures::name: the
    /// named groups of the first match are a function of the pattern and
    /// the line.
    #[verifier::external_body]
    pub fn captures(&self, line: &str) -> (r: Option<LineCaptures>)
        ensures
            r is Some <==> caps_of(self.pattern(), line@) is Some,
            r matches Some(c) ==> Some(caps_view(c)) == caps_of(self.pattern(), line@),
    {
        self.re.captures(line).map(|c| LineCaptures {
            timestamp: c.name("timestamp").map(|m| m.as_str().to_owned()),
            id: c.name("id").map(|m| m.as_str().to_owned()),
            data: c.name("data").map(|m| m.as_str().to_owned()),
        })
    }
}

/// Relies on str::to_ascii_lowercase: every ASCII upper-case letter is
/// folded to lower case byte for byte; all other bytes are unchanged.
#[verifier::external_body]
fn ascii_lower_string(s: &str) -> (r: String)
    ensures
        vstd::utf8::encode_utf8(r@) == lower_text(s@),
{
    s.to_ascii_lowercase()
}

/// The specifications configured for a run, by protocol.
pub struct Specs {
    /// The J1939 specification, when configured.
    pub j1939: Option<J1939Spec>,
}

impl Default for Specs {
    /// No specification configured.
    fn default() -> (r: Self)
        ensures
            r.j1939 is None,
    {
        Specs { j1939: None }
    }
}

/// Flags for protocol features observed during parsing.
#[derive(Clone, Copy, Debug, PartialEq, Eq, Structural)]
pub struct FileFlags {
    pub j1939: bool,
    pub canfd: bool,
    pub transport_protocol: bool,
    pub uds: bool,
    pub ethernet: bool,
}

impl Default for FileFlags {
    /// All flags off.
    fn default() -> (r: Self)
        ensures
            r == (FileFlags {
                j1939: false,
                canfd: false,
                transport_protocol: false,
                uds: false,
                ethernet: false,
            }),
    {
        FileFlags { j1939: false, canfd: false, transport_protocol: false, uds: false, ethernet: false }
    }
}

/// One annex source, already loaded: literal document text, or the rows
/// of a spreadsheet sheet reduced to plain cells.
pub enum AnnexInput {
    /// The text of a JSON or DBC annex.
    Literal(String),
    /// The rows of a spreadsheet annex.
    Sheet(Vec<SheetRow>),
}

/// The view of the payload buffer after decoding `bytes`: the decoded
/// bytes, zero-padded to the buffer width.
pub open spec fn padded_payload(bytes: Seq<u8>) -> Seq<u8> {
    bytes + Seq::new((PAYLOAD_WIDTH - bytes.len()) as nat, |i: int| 0u8)
}

/// An existing cache entry survives unchanged: the key is still present
/// and looks up to the same layout.
pub open spec fn cache_entry_kept(
    before: crate::specification::FilteredSpec,
    after: crate::specification::FilteredSpec,
    k: u16,
) -> bool {
    &&& after.key_set().contains(k)
    &&& after.j1939@[pgn_key_index(after.j1939@, k)] == before.j1939@[pgn_key_index(
        before.j1939@,
        k,
    )]
}

/// The view of a line's captures: the characters of the `timestamp`, `id`
/// and `data` groups, each absent when the group did not take part.
pub type CapsView = (Option<Seq<char>>, Option<Seq<char>>, Option<Seq<char>>);

/// The timestamp group is present but is not floating-point text.
pub open spec fn ts_bad(v: CapsView) -> bool {
    v.0 matches Some(t) && !is_float_text(vstd::utf8::encode_utf8(t))
}

/// The data group is present but is not an even run of hex digits after
/// truncation.
pub open spec fn data_bad(v: CapsView) -> bool {
    v.2 matches Some(d) && !hex_pairs_ok(taken_of_chars(d))
}

/// The hex text of a data group, truncated to the payload width, over
/// its characters.
pub open spec fn taken_of_chars(chars: Seq<char>) -> Seq<u8> {
    let bytes = vstd::utf8::encode_utf8(chars);
    if bytes.len() > 2 * PAYLOAD_WIDTH {
        bytes.take(2 * PAYLOAD_WIDTH as int)
    } else {
        bytes
    }
}

/// The identifier group is present but is not a 32-bit hex numeral.
pub open spec fn id_bad(v: CapsView) -> bool {
    v.1 matches Some(t) && !parses_as_hex_u32(vstd::utf8::encode_utf8(t))
}

/// The identifier value of the captured id text.
pub open spec fn cap_id_val(v: CapsView) -> u32 {
    hex_val(hex_body(vstd::utf8::encode_utf8(v.1->0))) as u32
}

/// The parameter group number of the captured identifier.
pub open spec fn cap_pgn(v: CapsView) -> u16 {
    crate::can_message::spec_pgn(cap_id_val(v))
}

/// Resolving this PGN against the configured annex would fail.
pub open spec fn specs_lookup_fails(specs: Option<Specs>, pgn: u16) -> bool {
    match specs {
        Some(sp) => match sp.j1939 {
            Some(j) => crate::j1939_spec::lookup_err(j.annex, pgn),
            None => false,
        },
        None => false,
    }
}

/// Decoding these captures succeeds: every present group is well formed,
/// and an extended identifier whose group is not cached yet does not run
/// into an annex whose lookup fails.
pub open spec fn decode_ok(
    v: CapsView,
    specs: Option<Specs>,
    c0: crate::specification::FilteredSpec,
) -> bool {
    &&& !ts_bad(v)
    &&& !data_bad(v)
    &&& !id_bad(v)
    &&& !(v.1 is Some && spec_ext(cap_id_val(v)) && !c0.key_set().contains(cap_pgn(v))
        && specs_lookup_fails(specs, cap_pgn(v)))
}

/// The error text of a failing decode: the first bad group in the order
/// timestamp, data, identifier names itself; otherwise the annex lookup
/// failed and the text names the parameter group.
pub open spec fn decode_err_text(v: CapsView, e: Seq<char>) -> bool {
    if ts_bad(v) {
        e == "Failed to parse timestamp"@
    } else if data_bad(v) {
        e == "Failed to parse data"@
    } else if id_bad(v) {
        e == "Failed to parse id"@
    } else {
        ("Failed to get metadata for PGN "@ + crate::dec_text::dec_chars_of(cap_pgn(v) as nat)
            + ": "@).is_prefix_of(e)
    }
}

/// The cache after a decode grows only by annex-backed layouts and keeps
/// every earlier entry.
pub open spec fn cache_evolves(
    specs: Option<Specs>,
    c0: crate::specification::FilteredSpec,
    c1: crate::specification::FilteredSpec,
) -> bool {
    &&& c1.wf()
    &&& (forall|k: u16|
        c1.key_set().contains(k) ==> c0.key_set().contains(k) || specs_annex_has(specs, k))
    &&& (forall|k: u16| c0.key_set().contains(k) ==> cache_entry_kept(c0, c1, k))
}

/// The message is the decode of these captures against the cache `c1`
/// left by the decode: the timestamp text is carried over, the payload is
/// the captured hex, the identifier is decomposed per its flags (a
/// standard identifier keeps the default J1939 fields), and the signal
/// map is exactly the extraction of the cached layout of the frame's PGN,
/// empty when the cache has none.
pub open spec fn decode_msg(
    v: CapsView,
    c1: crate::specification::FilteredSpec,
    m: CANMessage,
) -> bool {
    &&& m.data.wf()
    &&& m.ts@ == (match v.0 {
        Some(t) => t,
        None => Seq::<char>::empty(),
    })
    &&& (v.2 matches Some(d) ==> m.data.len as nat == taken_of_chars(d).len() / 2
        && m.data.data@ == padded_payload(hex_pairs_bytes(taken_of_chars(d))))
    &&& (v.2 is None ==> m.data.len == 0 && m.data.data@ == Seq::new(
        PAYLOAD_WIDTH as nat,
        |i: int| 0u8,
    ))
    &&& (v.1 is Some ==> {
        &&& m.id.id == cap_id_val(v)
        &&& m.id.flags.ext == spec_ext(m.id.id)
        &&& m.id.flags.err == crate::can_message::spec_err(m.id.id)
        &&& m.id.flags.rtr == crate::can_message::spec_rtr(m.id.id)
        &&& (spec_ext(m.id.id) ==> j1939_fields_ok(m.id))
        &&& (!spec_ext(m.id.id) ==> m.id.pri == 0 && m.id.da == 255 && m.id.sa == 0 && m.id.pgn
            == 0)
    })
    &&& (v.1 is None ==> m.id == default_canid())
    &&& spn_values_map(m.data.spns@) == (if v.1 is Some && spec_ext(m.id.id) && has_pgn_key(
        c1.j1939@,
        m.id.pgn,
    ) {
        extended_spn_map(
            Map::empty(),
            m.data.data@,
            c1.j1939@[pgn_key_index(c1.j1939@, m.id.pgn)].1.spns@,
        )
    } else {
        Map::<u16, u64>::empty()
    })
}

/// The configured annex has a layout for this PGN.
pub open spec fn specs_annex_has(specs: Option<Specs>, pgn: u16) -> bool {
    match specs {
        Some(sp) => match sp.j1939 {
            Some(j) => annex_has_pgn(j.annex, pgn),
            None => false,
        },
        None => false,
    }
}

/// Fills the payload buffer from the captured data hex: pairs of digits
/// become bytes, at most the buffer width of them.
fn apply_data(data: &mut CANData, d: &str) -> (ok: bool)
    requires
        old(data).wf(),
        old(data).data@ == Seq::new(PAYLOAD_WIDTH as nat, |i: int| 0u8),
        old(data).len == 0,
        old(data).spns@ == Seq::<(u16, u64)>::empty(),
    ensures
        final (data).wf(),
        final (data).spns == old(data).spns,
        ok <==> hex_pairs_ok(taken_of_chars(d@)),
        ok ==> {
            &&& final (data).len as nat == taken_of_chars(d@).len() / 2
            &&& final (data).data@ == padded_payload(hex_pairs_bytes(taken_of_chars(d@)))
        },
        !ok ==> *final (data) == *old(data),
{
    let bytes = d.as_bytes();
    let n: usize = if bytes.len() > 2 * PAYLOAD_WIDTH {
        2 * PAYLOAD_WIDTH
    } else {
        bytes.len()
    };
    let mut taken: Vec<u8> = Vec::new();
    let mut i: usize = 0;
    while i < n
        invariant
            i <= n <= bytes@.len(),
            taken@ == bytes@.take(i as int),
        decreases n - i,
    {
        taken.push(bytes[i]);
        proof {
            assert(taken@ =~= bytes@.take(i + 1));
        }
        i = i + 1;
    }
    proof {
        if n < bytes@.len() {
            assert(taken@ == taken_of_chars(d@));
        } else {
            assert(bytes@.take(bytes@.len() as int) =~= bytes@);
            assert(taken@ == taken_of_chars(d@));
        }
    }
    match decode_hex_pairs(taken.as_slice()) {
        None => false,
        Some(decoded) => {
            let m = decoded.len();
            proof {
                assert(decoded@.len() <= PAYLOAD_WIDTH);
            }
            let mut j: usize = 0;
            while j < m
                invariant
                    j <= m,
                    m == decoded@.len(),
                    m <= PAYLOAD_WIDTH,
                    data.data@.len() == PAYLOAD_WIDTH,
                    data.len == old(data).len,
                    data.spns == old(data).spns,
                    spns_keys_unique(*data),
                    forall|t: int| 0 <= t < j ==> data.data@[t] == decoded@[t],
                    forall|t: int| j <= t < PAYLOAD_WIDTH ==> data.data@[t] == 0,
                decreases m - j,
            {
                data.data.set(j, decoded[j]);
                j = j + 1;
            }
            data.len = m as u8;
            proof {
                assert(data.data@ =~= padded_payload(decoded@));
            }
            true
        },
    }
}

/// The value keys of the payload record are unique.
pub open spec fn spns_keys_unique(d: CANData) -> bool {
    crate::can_message::unique_value_keys(d.spns@)
}

/// Decodes one matched line: the timestamp text is validated, the data
/// hex fills the payload, the identifier is decomposed, and, for an
/// extended identifier, the signal layout of its PGN is taken from the
/// cache or resolved against the annex and memoized; signals are then
/// extracted. A PGN the annex does not know decodes to a frame without
/// signals and is not cached.
pub fn decode_captured(caps: &LineCaptures, specs: &Option<Specs>, cache: &mut crate::specification::FilteredSpec) -> (r: Result<
    CANMessage,
    String,
>)
    requires
        old(cache).wf(),
    ensures
        cache_evolves(*specs, *old(cache), *final (cache)),
        r is Ok <==> decode_ok(caps_view(*caps), *specs, *old(cache)),
        r matches Ok(m) ==> decode_msg(caps_view(*caps), *final (cache), m),
        r matches Err(e) ==> decode_err_text(caps_view(*caps), e@) && *final (cache) == *old(
            cache,
        ),
{
    let mut msg = CANMessage::default();
    match &caps.timestamp {
        Some(t) => {
            if crate::float_text::is_float_literal(t.as_str()) {
                msg.ts = t.clone();
            } else {
                return Err("Failed to parse timestamp".to_owned());
            }
        },
        None => {},
    }
    match &caps.data {
        Some(d) => {
            if !apply_data(&mut msg.data, d.as_str()) {
                return Err("Failed to parse data".to_owned());
            }
        },
        None => {},
    }
    match &caps.id {
        Some(id_text) => {
            match crate::hex_text::parse_hex_u32(id_text.as_str()) {
                None => {
                    return Err("Failed to parse id".to_owned());
                },
                Some(_) => {},
            }
            parse_id(id_text.as_str(), &mut msg.id);
            if msg.id.flags.ext {
                let pgn = msg.id.pgn;
                proof {
                    assert(spn_values_map(Seq::<(u16, u64)>::empty()) == Map::<u16, u64>::empty());
                }
                let mut hit = false;
                match cache.get(pgn) {
                    Some(layout) => {
                        parse_j1939_data(&mut msg.data, &layout.spns);
                        hit = true;
                        proof {
                            assert(has_pgn_key(cache.j1939@, pgn));
                            assert(spn_values_map(msg.data.spns@) == extended_spn_map(
                                Map::empty(),
                                msg.data.data@,
                                cache.j1939@[pgn_key_index(cache.j1939@, pgn)].1.spns@,
                            ));
                        }
                    },
                    None => {},
                }
                if !hit {
                    match specs {
                        Some(sp) => match &sp.j1939 {
                            Some(j1939) => {
                                match j1939.lookup_pgn(pgn) {
                                    Err(e) => {
                                        let mut m: String =
                                            "Failed to get metadata for PGN ".to_owned();
                                        let pt = crate::dec_text::u16_dec_string(pgn);
                                        m.append(pt.as_str());
                                        m.append(": ");
                                        m.append(e.0.as_str());
                                        proof {
                                            assert(("Failed to get metadata for PGN "@
                                                + crate::dec_text::dec_chars_of(pgn as nat)
                                                + ": "@).is_prefix_of(m@)) by {
                                                assert(m@ =~= ("Failed to get metadata for PGN "@
                                                    + crate::dec_text::dec_chars_of(pgn as nat)
                                                    + ": "@) + e.0@);
                                            }
                                        }
                                        return Err(m);
                                    },
                                    Ok(Some(layout)) => {
                                        parse_j1939_data(&mut msg.data, &layout.spns);
                                        let ghost cache_before = cache.j1939@;
                                        cache.insert(pgn, layout);
                                        proof {
                                            crate::specification::lemma_upsert_pgn_lookup(
                                                cache_before,
                                                cache.j1939@,
                                                pgn,
                                                layout,
                                            );
                                            assert(cache.j1939@[pgn_key_index(cache.j1939@, pgn)].1
                                                == layout);
                                            assert forall|k: u16|
                                                has_pgn_key(cache_before, k) implies has_pgn_key(
                                                cache.j1939@,
                                                k,
                                            ) && cache.j1939@[pgn_key_index(cache.j1939@, k)]
                                                == cache_before[pgn_key_index(cache_before, k)] by {
                                                crate::specification::lemma_push_preserves_lookup(
                                                    cache_before,
                                                    cache.j1939@,
                                                    pgn,
                                                    layout,
                                                    k,
                                                );
                                            }
                                        }
                                    },
                                    Ok(None) => {
                                        proof {
                                            assert(!has_pgn_key(cache.j1939@, pgn));
                                        }
                                    },
                                }
                            },
                            None => {
                                proof {
                                    assert(!has_pgn_key(cache.j1939@, pgn));
                                }
                            },
                        },
                        None => {
                            proof {
                                assert(!has_pgn_key(cache.j1939@, pgn));
                            }
                        },
                    }
                }
            }
        },
        None => {},
    }
    Ok(msg)
}

/// The identifier record of a default message: zero fields but the
/// not-addressed destination sentinel 255.
pub open spec fn default_canid() -> CANID {
    CANID {
        id: 0,
        pri: 0,
        da: 255,
        sa: 0,
        pgn: 0,
        flags: crate::can_message::CANMessageFlags { ext: false, err: false, rtr: false },
    }
}

/// The text case-folded to ASCII lower case, as bytes.
pub open spec fn lower_text(s: Seq<char>) -> Seq<u8> {
    vstd::utf8::encode_utf8(s).map(|i: int, b: u8| crate::float_text::lower_byte(b))
}

/// The error-handling mode drops failing lines.
pub open spec fn mode_is_ignore(s: Seq<char>) -> bool {
    lower_text(s) == seq![105u8, 103u8, 110u8, 111u8, 114u8, 101u8]
}

/// The error-handling mode collects failing lines as warnings.
pub open spec fn mode_is_warn(s: Seq<char>) -> bool {
    lower_text(s) == seq![119u8, 97u8, 114u8, 110u8]
}

/// The error-handling mode is one of the two recognized modes.
pub open spec fn valid_mode(s: Seq<char>) -> bool {
    mode_is_ignore(s) || mode_is_warn(s)
}

/// The key names a recognized specification type.
pub open spec fn key_known(s: Seq<char>) -> bool {
    ||| lower_text(s) == seq![106u8, 49u8, 57u8, 51u8, 57u8]
    ||| lower_text(s) == seq![99u8, 97u8, 110u8]
    ||| lower_text(s) == seq![117u8, 100u8, 115u8]
    ||| lower_text(s) == seq![116u8, 114u8, 97u8, 110u8, 115u8, 112u8, 111u8, 114u8, 116u8]
}

/// The key names the J1939 specification.
pub open spec fn key_is_j1939(s: Seq<char>) -> bool {
    lower_text(s) == seq![106u8, 49u8, 57u8, 51u8, 57u8]
}

/// Case-folds the text to ASCII lower case, as bytes.
fn lower_bytes_of(s: &str) -> (r: Vec<u8>)
    ensures
        r@ == lower_text(s@),
{
    let bytes = s.as_bytes();
    let mut r: Vec<u8> = Vec::new();
    let mut i: usize = 0;
    while i < bytes.len()
        invariant
            i <= bytes@.len(),
            bytes@ == vstd::utf8::encode_utf8(s@),
            r@ =~= lower_text(s@).take(i as int),
        decreases bytes@.len() - i,
    {
        let b = bytes[i];
        let c: u8 = if 65 <= b && b <= 90 {
            b + 32
        } else {
            b
        };
        r.push(c);
        proof {
            assert(r@ =~= lower_text(s@).take(i + 1));
        }
        i = i + 1;
    }
    proof {
        assert(lower_text(s@).take(bytes@.len() as int) =~= lower_text(s@));
    }
    r
}

/// The case-folded text equals the expected bytes.
fn lower_eq(s: &str, expected: &[u8]) -> (r: bool)
    ensures
        r == (lower_text(s@) == expected@),
{
    let lowered = lower_bytes_of(s);
    if lowered.len() != expected.len() {
        proof {
            assert(lower_text(s@) != expected@);
        }
        return false;
    }
    let mut i: usize = 0;
    while i < lowered.len()
        invariant
            i <= lowered@.len(),
            lowered@.len() == expected@.len(),
            lowered@ == lower_text(s@),
            forall|j: int| 0 <= j < i ==> lowered@[j] == expected@[j],
        decreases lowered@.len() - i,
    {
        if lowered[i] != expected[i] {
            proof {
                assert(lowered@[i as int] != expected@[i as int]);
            }
            return false;
        }
        i = i + 1;
    }
    proof {
        assert(lowered@ =~= expected@);
    }
    true
}

/// Case folding is idempotent on the folded bytes.
proof fn lemma_lower_text_stable(b: Seq<u8>)
    ensures
        b.map(|i: int, x: u8| crate::float_text::lower_byte(x)).map(
            |i: int, x: u8| crate::float_text::lower_byte(x),
        ) == b.map(|i: int, x: u8| crate::float_text::lower_byte(x)),
{
    let once = b.map(|i: int, x: u8| crate::float_text::lower_byte(x));
    assert(once.map(|i: int, x: u8| crate::float_text::lower_byte(x)) =~= once);
}

/// Every key of the list names a recognized specification type.
pub open spec fn all_keys_known(list: Seq<(String, AnnexInput)>) -> bool {
    forall|i: int| 0 <= i < list.len() ==> key_known((#[trigger] list[i]).0@)
}

/// Some key of the list names the J1939 specification.
pub open spec fn has_j1939_key(list: Seq<(String, AnnexInput)>) -> bool {
    exists|i: int| 0 <= i < list.len() && key_is_j1939((#[trigger] list[i]).0@)
}

/// The position of the first J1939 key; the length if none.
pub open spec fn first_j1939_key(list: Seq<(String, AnnexInput)>) -> int
    decreases list.len(),
{
    if list.len() == 0 {
        0
    } else if key_is_j1939(list[0].0@) {
        0
    } else {
        1 + first_j1939_key(list.skip(1))
    }
}

/// A prefix without a J1939 key followed by one pins the first position.
proof fn lemma_first_j1939_at(list: Seq<(String, AnnexInput)>, i: int)
    requires
        0 <= i < list.len(),
        key_is_j1939(list[i].0@),
        forall|t: int| 0 <= t < i ==> !key_is_j1939((#[trigger] list[t]).0@),
    ensures
        first_j1939_key(list) == i,
    decreases i,
{
    if i > 0 {
        lemma_first_j1939_at(list.skip(1), i - 1);
    }
}

/// Loading this annex source fails: literal text of an unsupported or
/// spreadsheet kind, or of a kind whose parser rejects it. Spreadsheet
/// rows always load.
pub open spec fn annex_input_fails(input: AnnexInput) -> bool {
    match input {
        AnnexInput::Literal(c) => {
            let b = vstd::utf8::encode_utf8(c@);
            if crate::specification::bytes_start_json(b) {
                !crate::j1939_spec::json_parses(c@)
            } else if crate::specification::bytes_start_pk(b) {
                true
            } else if crate::specification::bytes_start_version(b) {
                !crate::j1939_spec::dbc_parses(c@)
            } else {
                true
            }
        },
        AnnexInput::Sheet(_) => false,
    }
}

/// The loaded annex carries the given source: JSON text parses to a JSON
/// annex, DBC text to a DBC annex, and sheet rows are kept cell for cell.
pub open spec fn annex_matches_input(annex: Annex, input: AnnexInput) -> bool {
    match input {
        AnnexInput::Literal(c) => {
            if crate::specification::bytes_start_json(vstd::utf8::encode_utf8(c@)) {
                annex is Json
            } else {
                annex is Dbc
            }
        },
        AnnexInput::Sheet(rows) => annex matches Annex::Sheet(rs) && rs@.len() == rows@.len()
            && (forall|j: int| 0 <= j < rows@.len() ==> (#[trigger] rs@[j]).cells@ == rows@[j].cells@),
    }
}

/// Building the J1939 specification of the list fails: it has a J1939 key
/// and the first one's annex source does not load.
pub open spec fn j1939_input_fails(list: Seq<(String, AnnexInput)>) -> bool {
    has_j1939_key(list) && annex_input_fails(list[first_j1939_key(list)].1)
}

/// The parser: a line pattern, the configured specifications, the error
/// policy, and the decoded output.
pub struct CANParser {
    /// The compiled line pattern, if one was given.
    pub line_regex: Option<LineRegex>,
    /// The configured specifications.
    pub specs: Option<Specs>,
    /// The error-handling mode text.
    pub error_handling: String,
    /// Protocol flags observed during parsing.
    pub flags: FileFlags,
    /// The layouts resolved so far.
    pub filtered_spec: crate::specification::FilteredSpec,
    /// The decoded messages of the last run.
    pub messages: Vec<CANMessage>,
}

impl CANParser {
    /// The error-handling mode text.
    pub open spec fn mode(self) -> Seq<char> {
        self.error_handling@
    }

    /// The cache is well formed.
    pub open spec fn wf(self) -> bool {
        self.filtered_spec.wf()
    }

    /// The configured annex has a layout for this PGN.
    pub open spec fn annex_has(self, pgn: u16) -> bool {
        specs_annex_has(self.specs, pgn)
    }

    /// A J1939 specification is configured.
    pub open spec fn has_j1939(self) -> bool {
        self.specs matches Some(sp) && sp.j1939 is Some
    }

    /// Builds a parser: compiles the line pattern, checks the
    /// specification keys, loads the J1939 annex of the first J1939 key
    /// if one is given, and stores the error-handling mode case-folded.
    /// It fails exactly on a bad pattern, an unknown key, or an annex
    /// source that does not load, each under its own error kind, checked
    /// in that order.
    pub fn new(
        error_handling: String,
        line_regex: Option<String>,
        specs_annexes: Option<Vec<(String, AnnexInput)>>,
    ) -> (r: Result<CANParser, CANParserError>)
        ensures
            r is Ok <==> ((line_regex matches Some(p) ==> regex_compiles(p@)) && (
            specs_annexes matches Some(list) ==> all_keys_known(list@) && !j1939_input_fails(
                list@,
            ))),
            (line_regex matches Some(p) && !regex_compiles(p@)) ==> (r matches Err(e)
                && e is RegexError),
            ((line_regex matches Some(p) ==> regex_compiles(p@)) && specs_annexes is Some
                && !all_keys_known(specs_annexes->0@)) ==> (r matches Err(e)
                && e matches CANParserError::ParserError(t) && (exists|i: int|
                0 <= i < specs_annexes->0@.len() && !key_known(
                    (#[trigger] specs_annexes->0@[i]).0@,
                ) && t@ == "Unknown spec key: "@ + specs_annexes->0@[i].0@)),
            ((line_regex matches Some(p) ==> regex_compiles(p@)) && specs_annexes is Some
                && all_keys_known(specs_annexes->0@) && j1939_input_fails(specs_annexes->0@)) ==> (
            r matches Err(e) && e is SpecError),
            r matches Ok(p) ==> {
                &&& p.wf()
                &&& vstd::utf8::encode_utf8(p.mode()) == lower_text(error_handling@)
                &&& (mode_is_ignore(p.mode()) <==> mode_is_ignore(error_handling@))
                &&& (mode_is_warn(p.mode()) <==> mode_is_warn(error_handling@))
                &&& p.messages@.len() == 0
                &&& p.filtered_spec.j1939@.len() == 0
                &&& p.flags == (FileFlags {
                    j1939: false,
                    canfd: false,
                    transport_protocol: false,
                    uds: false,
                    ethernet: false,
                })
                &&& (p.line_regex is Some <==> line_regex is Some)
                &&& pattern_of(p.line_regex) == (match line_regex {
                    Some(pt) => Some(pt@),
                    None => None::<Seq<char>>,
                })
                &&& (p.specs is Some <==> specs_annexes is Some)
                &&& (p.has_j1939() <==> (specs_annexes is Some && has_j1939_key(
                    specs_annexes->0@,
                )))
                &&& (specs_annexes is Some && has_j1939_key(specs_annexes->0@) ==> (
                p.specs->0.j1939 matches Some(j) && annex_matches_input(
                    j.annex,
                    specs_annexes->0@[first_j1939_key(specs_annexes->0@)].1,
                )))
            },
    {
        let compiled: Option<LineRegex> = match &line_regex {
            Some(p) => match LineRegex::new(p.as_str()) {
                Ok(re) => Some(re),
                Err(e) => {
                    return Err(CANParserError::RegexError(e));
                },
            },
            None => None,
        };
        let specs: Option<Specs> = match &specs_annexes {
            Some(annexes) => {
                let mut i: usize = 0;
                while i < annexes.len()
                    invariant
                        i <= annexes@.len(),
                        forall|j: int| 0 <= j < i ==> key_known((#[trigger] annexes@[j]).0@),
                        specs_annexes matches Some(list) && list@ == annexes@,
                        line_regex matches Some(pt) ==> regex_compiles(pt@),
                    decreases annexes@.len() - i,
                {
                    let known = lower_eq(annexes[i].0.as_str(), &[106u8, 49u8, 57u8, 51u8, 57u8])
                        || lower_eq(annexes[i].0.as_str(), &[99u8, 97u8, 110u8]) || lower_eq(
                        annexes[i].0.as_str(),
                        &[117u8, 100u8, 115u8],
                    ) || lower_eq(
                        annexes[i].0.as_str(),
                        &[116u8, 114u8, 97u8, 110u8, 115u8, 112u8, 111u8, 114u8, 116u8],
                    );
                    if !known {
                        let mut m: String = "Unknown spec key: ".to_owned();
                        m.append(annexes[i].0.as_str());
                        proof {
                            assert(!key_known(annexes@[i as int].0@));
                            assert(!all_keys_known(annexes@));
                        }
                        return Err(CANParserError::ParserError(m));
                    }
                    i = i + 1;
                }
                let mut j1939: Option<J1939Spec> = None;
                let mut k: usize = 0;
                while k < annexes.len()
                    invariant
                        k <= annexes@.len(),
                        forall|j: int| 0 <= j < annexes@.len() ==> key_known((#[trigger] annexes@[j]).0@),
                        specs_annexes matches Some(list) && list@ == annexes@,
                        line_regex matches Some(pt) ==> regex_compiles(pt@),
                        j1939 is None ==> forall|j: int|
                            0 <= j < k ==> !key_is_j1939((#[trigger] annexes@[j]).0@),
                        j1939 matches Some(spec) ==> {
                            &&& has_j1939_key(annexes@)
                            &&& 0 <= first_j1939_key(annexes@) < k
                            &&& !annex_input_fails(annexes@[first_j1939_key(annexes@)].1)
                            &&& annex_matches_input(
                                spec.annex,
                                annexes@[first_j1939_key(annexes@)].1,
                            )
                        },
                    decreases annexes@.len() - k,
                {
                    if j1939.is_none() && lower_eq(
                        annexes[k].0.as_str(),
                        &[106u8, 49u8, 57u8, 51u8, 57u8],
                    ) {
                        proof {
                            lemma_first_j1939_at(annexes@, k as int);
                        }
                        match Self::build_j1939(&annexes[k].1) {
                            Ok(spec) => {
                                j1939 = Some(spec);
                            },
                            Err(e) => {
                                proof {
                                    assert(has_j1939_key(annexes@));
                                    assert(j1939_input_fails(annexes@));
                                }
                                return Err(CANParserError::SpecError(e));
                            },
                        }
                    }
                    k = k + 1;
                }
                proof {
                    if j1939 is None {
                        assert(!has_j1939_key(annexes@));
                    }
                }
                Some(Specs { j1939 })
            },
            None => None,
        };
        let stored_mode = ascii_lower_string(error_handling.as_str());
        proof {
            lemma_lower_text_stable(vstd::utf8::encode_utf8(error_handling@));
        }
        Ok(
            CANParser {
                line_regex: compiled,
                specs,
                error_handling: stored_mode,
                flags: FileFlags {
                    j1939: false,
                    canfd: false,
                    transport_protocol: false,
                    uds: false,
                    ethernet: false,
                },
                filtered_spec: crate::specification::FilteredSpec { j1939: Vec::new() },
                messages: Vec::new(),
            },
        )
    }

    /// A cell copied value for value.
    fn clone_cell(c: &CellValue) -> (r: CellValue)
        ensures
            r == *c,
    {
        match c {
            CellValue::Empty => CellValue::Empty,
            CellValue::Int(v) => CellValue::Int(*v),
            CellValue::Num { text, trunc, eighth } => CellValue::Num {
                text: text.clone(),
                trunc: *trunc,
                eighth: *eighth,
            },
            CellValue::Text(s) => CellValue::Text(s.clone()),
        }
    }

    /// A row copied cell for cell.
    fn clone_row(row: &SheetRow) -> (r: SheetRow)
        ensures
            r.cells@ == row.cells@,
    {
        let mut cells: Vec<CellValue> = Vec::new();
        let mut i: usize = 0;
        while i < row.cells.len()
            invariant
                i <= row.cells@.len(),
                cells@ =~= row.cells@.take(i as int),
            decreases row.cells@.len() - i,
        {
            cells.push(Self::clone_cell(&row.cells[i]));
            i = i + 1;
        }
        proof {
            assert(cells@ =~= row.cells@);
        }
        SheetRow { cells }
    }

    /// Loads one J1939 annex source: literal text is classified by its
    /// first bytes and parsed; spreadsheet rows are taken as they are.
    /// A spreadsheet literal is rejected; so is text of no known kind.
    fn build_j1939(input: &AnnexInput) -> (r: Result<J1939Spec, SpecError>)
        ensures
            r is Ok <==> !annex_input_fails(*input),
            r matches Ok(spec) ==> annex_matches_input(spec.annex, *input),
            (input matches AnnexInput::Literal(c) && !crate::specification::bytes_start_json(
                vstd::utf8::encode_utf8(c@),
            ) && crate::specification::bytes_start_pk(vstd::utf8::encode_utf8(c@))) ==> (
            r matches Err(e) && e.0@ == "Xlsx can only be read from file not from string."@),
    {
        match input {
            AnnexInput::Literal(content) => {
                match determine_file_type_from_contents(content.as_str()) {
                    Ok(FileType::Json) => J1939Spec::from_json_str(content.as_str()),
                    Ok(FileType::Dbc) => J1939Spec::from_dbc_str(content.as_str()),
                    Ok(FileType::Xlsx) => Err(
                        SpecError("Xlsx can only be read from file not from string.".to_owned()),
                    ),
                    Err(e) => Err(e),
                }
            },
            AnnexInput::Sheet(rows) => {
                let mut copy: Vec<SheetRow> = Vec::new();
                let mut i: usize = 0;
                while i < rows.len()
                    invariant
                        i <= rows@.len(),
                        copy@.len() == i,
                        forall|j: int| 0 <= j < i ==> (#[trigger] copy@[j]).cells@ == rows@[j].cells@,
                    decreases rows@.len() - i,
                {
                    copy.push(Self::clone_row(&rows[i]));
                    i = i + 1;
                }
                Ok(J1939Spec::from_sheet_rows(copy))
            },
        }
    }

    /// Extracts the three named capture groups from a line. Without a
    /// pattern every line counts as matched with no groups captured.
    fn captures_of(line_regex: &Option<LineRegex>, line: &str) -> (r: Option<LineCaptures>)
        ensures
            r is Some <==> line_caps(pattern_of(*line_regex), line@) is Some,
            r matches Some(c) ==> line_caps(pattern_of(*line_regex), line@) == Some(caps_view(c)),
    {
        match line_regex {
            Some(re) => re.captures(line),
            None => Some(LineCaptures { timestamp: None, id: None, data: None }),
        }
    }

    /// Records a failing line according to the error policy: dropped
    /// under `ignore`, kept as exactly `line: reason` otherwise.
    fn handle_parsing_error(
        error_handling: &String,
        errors: &mut Vec<String>,
        error: String,
        line: &String,
    )
        ensures
            mode_is_ignore(error_handling@) ==> final (errors)@ == old(errors)@,
            !mode_is_ignore(error_handling@) ==> final (errors)@.len() == old(errors)@.len() + 1
                && final (errors)@.drop_last() == old(errors)@
                && final (errors)@.last()@ == warning_entry(line@, error@),
    {
        if lower_eq(error_handling.as_str(), &[105u8, 103u8, 110u8, 111u8, 114u8, 101u8]) {
        } else {
            let mut m = line.clone();
            m.append(": ");
            m.append(error.as_str());
            proof {
                assert(m@ =~= warning_entry(line@, error@));
            }
            errors.push(m);
        }
    }

    /// Decodes one line into a message: the line succeeds exactly when it
    /// matches the pattern and its captures decode, the returned message
    /// is the decode against the cache the line left, and a failing line
    /// reports its reason behind a fixed prefix and leaves the cache
    /// unchanged.
    pub fn parse_line(&mut self, line: String) -> (r: Result<CANMessage, CANParserError>)
        requires
            old(self).wf(),
        ensures
            final (self).wf(),
            final (self).mode() == old(self).mode(),
            final (self).specs == old(self).specs,
            final (self).flags == old(self).flags,
            final (self).line_regex == old(self).line_regex,
            final (self).messages == old(self).messages,
            cache_evolves(old(self).specs, old(self).filtered_spec, final (self).filtered_spec),
            r is Ok <==> line_ok(
                pattern_of(old(self).line_regex),
                old(self).specs,
                old(self).filtered_spec,
                line@,
            ),
            r matches Ok(m) ==> line_msg(
                pattern_of(old(self).line_regex),
                line@,
                final (self).filtered_spec,
                m,
            ),
            r matches Err(e) ==> {
                &&& e matches CANParserError::ParserError(t)
                &&& "Failed to parse line: "@.is_prefix_of(t@)
                &&& line_err_text(
                    pattern_of(old(self).line_regex),
                    line@,
                    t@.skip("Failed to parse line: "@.len() as int),
                )
                &&& final (self).filtered_spec == old(self).filtered_spec
            },
    {
        let caps = Self::captures_of(&self.line_regex, line.as_str());
        let decoded: Result<CANMessage, String> = match caps {
            None => Err("No captures found".to_owned()),
            Some(c) => decode_captured(&c, &self.specs, &mut self.filtered_spec),
        };
        match decoded {
            Ok(m) => Ok(m),
            Err(e) => {
                let mut m: String = "Failed to parse line: ".to_owned();
                m.append(e.as_str());
                proof {
                    assert(m@ =~= "Failed to parse line: "@ + e@);
                    assert(m@.skip("Failed to parse line: "@.len() as int) =~= e@);
                }
                Err(CANParserError::ParserError(m))
            },
        }
    }

    /// Decodes a batch of lines sequentially. The decoded messages
    /// replace the parser's output and are exactly the per-line decodes
    /// of the lines that decode, in input order; failing lines follow the
    /// error policy, and outside `ignore` the collected `line: reason`
    /// entries, one per failing line in order, are returned as a warning
    /// that does not invalidate the decoded messages.
    pub fn parse_lines(&mut self, lines: &Vec<String>) -> (r: Result<(), CANParserError>)
        requires
            old(self).wf(),
            valid_mode(old(self).mode()),
        ensures
            final (self).wf(),
            final (self).mode() == old(self).mode(),
            final (self).specs == old(self).specs,
            final (self).flags == old(self).flags,
            final (self).line_regex == old(self).line_regex,
            final (self).messages@.len() <= lines@.len(),
            cache_evolves(old(self).specs, old(self).filtered_spec, final (self).filtered_spec),
            forall|i: int|
                0 <= i < final (self).messages@.len() ==> message_covered(
                    #[trigger] final (self).messages@[i],
                    final (self).filtered_spec,
                ),
            mode_is_ignore(old(self).mode()) ==> r is Ok,
            r is Ok ==> batch_decodes(
                pattern_of(old(self).line_regex),
                old(self).specs,
                old(self).filtered_spec,
                lines@.map_values(|l: String| l@),
                final (self).messages@,
                Seq::<Seq<char>>::empty(),
                final (self).filtered_spec,
                !mode_is_ignore(old(self).mode()),
            ),
            r matches Err(e) ==> (e matches CANParserError::ParserWarning(v) && v@.len() >= 1
                && mode_is_warn(old(self).mode()) && batch_decodes(
                pattern_of(old(self).line_regex),
                old(self).specs,
                old(self).filtered_spec,
                lines@.map_values(|l: String| l@),
                final (self).messages@,
                v@.map_values(|s: String| s@),
                final (self).filtered_spec,
                true,
            )),
    {
        let ghost pattern = pattern_of(old(self).line_regex);
        let ghost collect = !mode_is_ignore(old(self).mode());
        let ghost mut caches: Seq<crate::specification::FilteredSpec> = seq![
            old(self).filtered_spec,
        ];
        let mut errors: Vec<String> = Vec::new();
        let mut messages: Vec<CANMessage> = Vec::new();
        let mut i: usize = 0;
        proof {
            assert(lines@.take(0).map_values(|l: String| l@) =~= Seq::<Seq<char>>::empty());
            assert(errors@.map_values(|s: String| s@) =~= Seq::<Seq<char>>::empty());
        }
        while i < lines.len()
            invariant
                i <= lines@.len(),
                self.wf(),
                self.mode() == old(self).mode(),
                valid_mode(self.mode()),
                self.specs == old(self).specs,
                self.flags == old(self).flags,
                self.line_regex == old(self).line_regex,
                self.messages == old(self).messages,
                pattern == pattern_of(old(self).line_regex),
                collect == !mode_is_ignore(old(self).mode()),
                messages@.len() <= i,
                cache_evolves(old(self).specs, old(self).filtered_spec, self.filtered_spec),
                forall|t: int|
                    0 <= t < messages@.len() ==> message_covered(
                        #[trigger] messages@[t],
                        self.filtered_spec,
                    ),
                mode_is_ignore(self.mode()) ==> errors@.len() == 0,
                caches.first() == old(self).filtered_spec,
                caches.last() == self.filtered_spec,
                batch_trace(
                    pattern,
                    old(self).specs,
                    lines@.take(i as int).map_values(|l: String| l@),
                    messages@,
                    errors@.map_values(|s: String| s@),
                    caches,
                    collect,
                ),
            decreases lines@.len() - i,
        {
            let ghost cache_pre = self.filtered_spec;
            let ghost caches_pre = caches;
            let ghost lines_pre = lines@.take(i as int).map_values(|l: String| l@);
            let ghost errors_pre = errors@.map_values(|s: String| s@);
            let caps = Self::captures_of(&self.line_regex, lines[i].as_str());
            let decoded: Result<CANMessage, String> = match caps {
                None => Err("No captures found".to_owned()),
                Some(c) => decode_captured(&c, &self.specs, &mut self.filtered_spec),
            };
            proof {
                assert(lines@.take(i + 1).map_values(|l: String| l@) =~= lines_pre.push(
                    lines@[i as int]@,
                ));
            }
            match decoded {
                Ok(m) => {
                    proof {
                        assert forall|t: int|
                            0 <= t < messages@.len() implies message_covered(
                            #[trigger] messages@[t],
                            self.filtered_spec,
                        ) by {
                            lemma_covered_stable(messages@[t], cache_pre, self.filtered_spec);
                        }
                        caches = caches.push(self.filtered_spec);
                        lemma_trace_snoc_ok(
                            pattern,
                            old(self).specs,
                            lines_pre,
                            messages@,
                            errors_pre,
                            caches_pre,
                            collect,
                            lines@[i as int]@,
                            self.filtered_spec,
                            m,
                        );
                        assert(caches.first() == caches_pre.first());
                        assert(caches.last() == self.filtered_spec);
                    }
                    messages.push(m);
                },
                Err(e) => {
                    proof {
                        assert forall|t: int|
                            0 <= t < messages@.len() implies message_covered(
                            #[trigger] messages@[t],
                            self.filtered_spec,
                        ) by {
                            lemma_covered_stable(messages@[t], cache_pre, self.filtered_spec);
                        }
                    }
                    let ghost e_view = e@;
                    Self::handle_parsing_error(&self.error_handling, &mut errors, e, &lines[i]);
                    proof {
                        reveal_strlit(": ");
                        if !mode_is_ignore(self.mode()) {
                            let w = errors@.last()@;
                            assert(w =~= lines@[i as int]@ + ": "@ + e_view);
                            assert((lines@[i as int]@ + ": "@).is_prefix_of(w)) by {
                                let pre = lines@[i as int]@ + ": "@;
                                assert(w.take(pre.len() as int) =~= pre);
                            }
                            assert(w.skip(lines@[i as int]@.len() as int + 2) =~= e_view);
                            assert(errors@.map_values(|s: String| s@) =~= errors_pre.push(w));
                        } else {
                            assert(errors@.map_values(|s: String| s@) =~= errors_pre);
                        }
                        caches = caches.push(cache_pre);
                        assert(caches_pre.last() == cache_pre);
                        assert(caches =~= caches_pre.push(caches_pre.last()));
                        lemma_trace_snoc_err(
                            pattern,
                            old(self).specs,
                            lines_pre,
                            messages@,
                            errors_pre,
                            caches_pre,
                            collect,
                            lines@[i as int]@,
                            if collect {
                                errors@.last()@
                            } else {
                                Seq::<char>::empty()
                            },
                        );
                        assert(caches.first() == caches_pre.first());
                        assert(caches.last() == cache_pre);
                    }
                },
            }
            i = i + 1;
        }
        proof {
            assert(lines@.take(lines@.len() as int) =~= lines@);
            assert(batch_decodes(
                pattern,
                old(self).specs,
                old(self).filtered_spec,
                lines@.map_values(|l: String| l@),
                messages@,
                errors@.map_values(|s: String| s@),
                self.filtered_spec,
                collect,
            )) by {
                assert(batch_trace(
                    pattern,
                    old(self).specs,
                    lines@.map_values(|l: String| l@),
                    messages@,
                    errors@.map_values(|s: String| s@),
                    caches,
                    collect,
                ));
            }
        }
        self.messages = messages;
        if errors.len() == 0 {
            proof {
                assert(errors@.map_values(|s: String| s@) =~= Seq::<Seq<char>>::empty());
            }
            Ok(())
        } else {
            Err(CANParserError::ParserWarning(errors))
        }
    }
}

/// One warning entry: the offending line, a separating `: `, and the
/// reason.
pub open spec fn warning_entry(line: Seq<char>, reason: Seq<char>) -> Seq<char> {
    line + ": "@ + reason
}

/// The pattern text of an optional compiled pattern.
pub open spec fn pattern_of(lr: Option<LineRegex>) -> Option<Seq<char>> {
    match lr {
        Some(re) => Some(re.pattern()),
        None => None,
    }
}

/// The captures a line yields under an optional pattern: without a
/// pattern every line counts as matched with no groups captured.
pub open spec fn line_caps(pattern: Option<Seq<char>>, line: Seq<char>) -> Option<CapsView> {
    match pattern {
        None => Some(
            (None::<Seq<char>>, None::<Seq<char>>, None::<Seq<char>>),
        ),
        Some(p) => caps_of(p, line),
    }
}

/// The line decodes: it matches the pattern and its captures decode.
pub open spec fn line_ok(
    pattern: Option<Seq<char>>,
    specs: Option<Specs>,
    c0: crate::specification::FilteredSpec,
    line: Seq<char>,
) -> bool {
    line_caps(pattern, line) matches Some(v) && decode_ok(v, specs, c0)
}

/// The message is the decode of the line against the cache it left.
pub open spec fn line_msg(
    pattern: Option<Seq<char>>,
    line: Seq<char>,
    c1: crate::specification::FilteredSpec,
    m: CANMessage,
) -> bool {
    line_caps(pattern, line) matches Some(v) && decode_msg(v, c1, m)
}

/// The reason a line fails: no match, or the first bad group.
pub open spec fn line_err_text(pattern: Option<Seq<char>>, line: Seq<char>, e: Seq<char>) -> bool {
    match line_caps(pattern, line) {
        None => e == "No captures found"@,
        Some(v) => decode_err_text(v, e),
    }
}

/// One step of the batch: the line either decodes, moving the cache
/// from `caches[0]` to `caches[1]` and yielding the next message, or it
/// fails, leaving the cache unchanged and, under `collect`, yielding the
/// next `line: reason` warning entry.
pub open spec fn batch_trace(
    pattern: Option<Seq<char>>,
    specs: Option<Specs>,
    lines: Seq<Seq<char>>,
    msgs: Seq<CANMessage>,
    warns: Seq<Seq<char>>,
    caches: Seq<crate::specification::FilteredSpec>,
    collect: bool,
) -> bool
    decreases lines.len(),
{
    &&& caches.len() == lines.len() + 1
    &&& if lines.len() == 0 {
        msgs.len() == 0 && warns.len() == 0
    } else if line_ok(pattern, specs, caches[0], lines[0]) {
        &&& cache_evolves(specs, caches[0], caches[1])
        &&& msgs.len() >= 1
        &&& line_msg(pattern, lines[0], caches[1], msgs[0])
        &&& batch_trace(pattern, specs, lines.skip(1), msgs.skip(1), warns, caches.skip(1), collect)
    } else {
        &&& caches[1] == caches[0]
        &&& (collect ==> warns.len() >= 1 && (lines[0] + ": "@).is_prefix_of(warns[0])
            && line_err_text(pattern, lines[0], warns[0].skip(lines[0].len() as int + 2)))
        &&& batch_trace(
            pattern,
            specs,
            lines.skip(1),
            msgs,
            if collect {
                warns.skip(1)
            } else {
                warns
            },
            caches.skip(1),
            collect,
        )
    }
}

/// The batch relation: along some sequence of cache states from `c0` to
/// `c1`, the messages are exactly the decodes of the lines that decode,
/// in input order, each against the cache state its line left; and under
/// `collect` the warnings hold exactly one `line: reason` entry per
/// failing line, in order. A failing line leaves the cache unchanged, so
/// an empty warning list under `collect` means every line decoded.
pub open spec fn batch_decodes(
    pattern: Option<Seq<char>>,
    specs: Option<Specs>,
    c0: crate::specification::FilteredSpec,
    lines: Seq<Seq<char>>,
    msgs: Seq<CANMessage>,
    warns: Seq<Seq<char>>,
    c1: crate::specification::FilteredSpec,
    collect: bool,
) -> bool {
    exists|caches: Seq<crate::specification::FilteredSpec>|
        {
            &&& #[trigger] batch_trace(pattern, specs, lines, msgs, warns, caches, collect)
            &&& caches.first() == c0
            &&& caches.last() == c1
        }
}

/// A decoded batch extends by one succeeding line at its end.
proof fn lemma_trace_snoc_ok(
    pattern: Option<Seq<char>>,
    specs: Option<Specs>,
    lines: Seq<Seq<char>>,
    msgs: Seq<CANMessage>,
    warns: Seq<Seq<char>>,
    caches: Seq<crate::specification::FilteredSpec>,
    collect: bool,
    line: Seq<char>,
    c2: crate::specification::FilteredSpec,
    m: CANMessage,
)
    requires
        batch_trace(pattern, specs, lines, msgs, warns, caches, collect),
        line_ok(pattern, specs, caches.last(), line),
        cache_evolves(specs, caches.last(), c2),
        line_msg(pattern, line, c2, m),
    ensures
        batch_trace(
            pattern,
            specs,
            lines.push(line),
            msgs.push(m),
            warns,
            caches.push(c2),
            collect,
        ),
    decreases lines.len(),
{
    if lines.len() == 0 {
        assert(lines.push(line)[0] == line);
        assert(caches.push(c2)[0] == caches[0]);
        assert(caches[0] == caches.last());
        assert(msgs.push(m)[0] == m);
        assert(lines.push(line).skip(1) =~= Seq::<Seq<char>>::empty());
        assert(msgs.push(m).skip(1) =~= Seq::<CANMessage>::empty());
        assert(caches.push(c2).skip(1) =~= seq![c2]);
        assert(batch_trace(
            pattern,
            specs,
            lines.push(line).skip(1),
            msgs.push(m).skip(1),
            warns,
            caches.push(c2).skip(1),
            collect,
        ));
    } else {
        assert(lines.push(line)[0] == lines[0]);
        assert(caches.push(c2)[0] == caches[0]);
        assert(caches.push(c2)[1] == caches[1]);
        assert(lines.push(line).skip(1) =~= lines.skip(1).push(line));
        assert(caches.push(c2).skip(1) =~= caches.skip(1).push(c2));
        assert(caches.skip(1).last() == caches.last());
        if line_ok(pattern, specs, caches[0], lines[0]) {
            lemma_trace_snoc_ok(
                pattern,
                specs,
                lines.skip(1),
                msgs.skip(1),
                warns,
                caches.skip(1),
                collect,
                line,
                c2,
                m,
            );
            assert(msgs.push(m)[0] == msgs[0]);
            assert(msgs.push(m).skip(1) =~= msgs.skip(1).push(m));
        } else {
            let tail_warns = if collect {
                warns.skip(1)
            } else {
                warns
            };
            lemma_trace_snoc_ok(
                pattern,
                specs,
                lines.skip(1),
                msgs,
                tail_warns,
                caches.skip(1),
                collect,
                line,
                c2,
                m,
            );
        }
    }
}

/// A decoded batch extends by one failing line at its end.
proof fn lemma_trace_snoc_err(
    pattern: Option<Seq<char>>,
    specs: Option<Specs>,
    lines: Seq<Seq<char>>,
    msgs: Seq<CANMessage>,
    warns: Seq<Seq<char>>,
    caches: Seq<crate::specification::FilteredSpec>,
    collect: bool,
    line: Seq<char>,
    w: Seq<char>,
)
    requires
        batch_trace(pattern, specs, lines, msgs, warns, caches, collect),
        !line_ok(pattern, specs, caches.last(), line),
        collect ==> (line + ": "@).is_prefix_of(w) && line_err_text(
            pattern,
            line,
            w.skip(line.len() as int + 2),
        ),
    ensures
        batch_trace(
            pattern,
            specs,
            lines.push(line),
            msgs,
            if collect {
                warns.push(w)
            } else {
                warns
            },
            caches.push(caches.last()),
            collect,
        ),
    decreases lines.len(),
{
    let new_warns = if collect {
        warns.push(w)
    } else {
        warns
    };
    let c1 = caches.last();
    if lines.len() == 0 {
        assert(lines.push(line)[0] == line);
        assert(caches.push(c1)[0] == caches[0]);
        assert(caches[0] == c1);
        assert(caches.push(c1)[1] == c1);
        if collect {
            assert(warns.push(w)[0] == w);
            assert(warns.push(w).skip(1) =~= Seq::<Seq<char>>::empty());
        }
        assert(lines.push(line).skip(1) =~= Seq::<Seq<char>>::empty());
        assert(caches.push(c1).skip(1) =~= seq![c1]);
        assert(batch_trace(
            pattern,
            specs,
            lines.push(line).skip(1),
            msgs,
            if collect {
                new_warns.skip(1)
            } else {
                new_warns
            },
            caches.push(c1).skip(1),
            collect,
        ));
    } else {
        assert(lines.push(line)[0] == lines[0]);
        assert(caches.push(c1)[0] == caches[0]);
        assert(caches.push(c1)[1] == caches[1]);
        assert(lines.push(line).skip(1) =~= lines.skip(1).push(line));
        assert(caches.push(c1).skip(1) =~= caches.skip(1).push(c1));
        assert(caches.skip(1).last() == caches.last());
        if line_ok(pattern, specs, caches[0], lines[0]) {
            lemma_trace_snoc_err(
                pattern,
                specs,
                lines.skip(1),
                msgs.skip(1),
                warns,
                caches.skip(1),
                collect,
                line,
                w,
            );
        } else {
            let tail_warns = if collect {
                warns.skip(1)
            } else {
                warns
            };
            lemma_trace_snoc_err(
                pattern,
                specs,
                lines.skip(1),
                msgs,
                tail_warns,
                caches.skip(1),
                collect,
                line,
                w,
            );
            if collect {
                assert(warns.push(w)[0] == warns[0]);
                assert(warns.push(w).skip(1) =~= warns.skip(1).push(w));
            }
        }
    }
}

/// The message is a sound decode against the cache: its payload record
/// is well formed; an extended identifier carries its J1939
/// decomposition; and its signal map is justified by the cache (empty,
/// or exactly the extraction of the cached layout of its PGN from the
/// payload).
pub open spec fn message_covered(m: CANMessage, cache: crate::specification::FilteredSpec) -> bool {
    &&& m.data.wf()
    &&& (m.id.flags.ext ==> j1939_fields_ok(m.id))
    &&& {
        ||| spn_values_map(m.data.spns@) == Map::<u16, u64>::empty()
        ||| (m.id.flags.ext && has_pgn_key(cache.j1939@, m.id.pgn) && spn_values_map(m.data.spns@)
            == extended_spn_map(
            Map::empty(),
            m.data.data@,
            cache.j1939@[pgn_key_index(cache.j1939@, m.id.pgn)].1.spns@,
        ))
    }
}

/// A message stays covered when the cache grows without touching its
/// existing entries.
proof fn lemma_covered_stable(
    m: CANMessage,
    before: crate::specification::FilteredSpec,
    after: crate::specification::FilteredSpec,
)
    requires
        message_covered(m, before),
        forall|k: u16| before.key_set().contains(k) ==> cache_entry_kept(before, after, k),
    ensures
        message_covered(m, after),
{
    if !(spn_values_map(m.data.spns@) == Map::<u16, u64>::empty()) {
        assert(before.key_set().contains(m.id.pgn));
        assert(cache_entry_kept(before, after, m.id.pgn));
    }
}

} // verus!

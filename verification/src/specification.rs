//! Specification records: the layout of a parameter group (PGN) and of the
//! signals (SPNs) it carries, together with the error and source-kind types
//! of the annex loader.
//!
//! Scale factors (`resolution`, `offset`, `max`) are carried as the decimal
//! text found in the annex; the library never does floating-point
//! arithmetic, so callers apply the scaling at the edge.
use vstd::prelude::*;

verus! {

use vstd::string::StringSliceAdditionalSpecFns;

/// Width of the label field of a PGN or SPN record, in bytes.
pub const LABEL_WIDTH: usize = 32;

/// Width of the acronym field of a PGN record, in bytes.
pub const ACRONYM_WIDTH: usize = 10;

/// Width of the units field of an SPN record, in bytes.
pub const UNITS_WIDTH: usize = 10;

/// Width of the transmission-rate field of a PGN record, in bytes.
pub const RATE_WIDTH: usize = 50;

/// Width of the type field of an SPN record, in bytes.
pub const SPN_TYPE_WIDTH: usize = 8;

/// The layout of one signal: where its bits sit in the payload and how the
/// raw value is scaled. `resolution`, `offset` and `max` hold the decimal
/// text of the annex entry.
#[derive(Clone, Debug, PartialEq)]
pub struct SpecSPN {
    /// Label of the SPN, space-padded to `LABEL_WIDTH` bytes.
    pub label: Vec<u8>,
    /// Description of the SPN.
    pub description: String,
    /// Units of the SPN, space-padded to `UNITS_WIDTH` bytes.
    pub units: Vec<u8>,
    /// Length of the SPN in bits.
    pub length: u8,
    /// Resolution (scale factor), as decimal text.
    pub resolution: String,
    /// Offset, as decimal text.
    pub offset: String,
    /// Maximum value (wrap ceiling), as decimal text.
    pub max: String,
    /// Starting bit of the SPN, counted from payload bit 0.
    pub start_bit: u8,
    /// Type of the SPN, space-padded to `SPN_TYPE_WIDTH` bytes.
    pub spn_type: Vec<u8>,
}

impl SpecSPN {
    /// The fixed-width byte fields have their fixed widths.
    pub open spec fn wf(self) -> bool {
        &&& self.label@.len() == LABEL_WIDTH
        &&& self.units@.len() == UNITS_WIDTH
        &&& self.spn_type@.len() == SPN_TYPE_WIDTH
    }
}

impl Default for SpecSPN {
    /// An all-zero layout: empty texts, zero scaling.
    fn default() -> (r: Self)
        ensures
            r.wf(),
            r.length == 0,
            r.start_bit == 0,
            r.label@ == Seq::new(LABEL_WIDTH as nat, |i: int| 0u8),
            r.units@ == Seq::new(UNITS_WIDTH as nat, |i: int| 0u8),
            r.spn_type@ == Seq::new(SPN_TYPE_WIDTH as nat, |i: int| 0u8),
            r.description@ == Seq::<char>::empty(),
            r.resolution@ == "0"@,
            r.offset@ == "0"@,
            r.max@ == "0"@,
    {
        let zero: String = zero_text();
        SpecSPN {
            label: zero_bytes(LABEL_WIDTH),
            description: String::new(),
            units: zero_bytes(UNITS_WIDTH),
            length: 0,
            resolution: zero.clone(),
            offset: zero.clone(),
            max: zero,
            start_bit: 0,
            spn_type: zero_bytes(SPN_TYPE_WIDTH),
        }
    }
}

/// The decimal text "0", the default for absent scale factors.
pub fn zero_text() -> (r: String)
    ensures
        r@ == "0"@,
{
    let s: &str = "0";
    s.to_owned()
}

/// A vector of `n` zero bytes.
pub fn zero_bytes(n: usize) -> (r: Vec<u8>)
    ensures
        r@ == Seq::new(n as nat, |i: int| 0u8),
{
    let mut r: Vec<u8> = Vec::new();
    let mut i: usize = 0;
    while i < n
        invariant
            i <= n,
            r@ =~= Seq::new(i as nat, |j: int| 0u8),
        decreases n - i,
    {
        r.push(0u8);
        i = i + 1;
    }
    proof {
        assert(r@ =~= Seq::new(n as nat, |j: int| 0u8));
    }
    r
}

/// The layout of one parameter group: its fixed-width descriptive fields and
/// the list of SPN layouts it carries, keyed by SPN id.
#[derive(Clone, Debug, PartialEq)]
pub struct SpecPGN {
    /// Label of the PGN, space-padded to `LABEL_WIDTH` bytes.
    pub label: Vec<u8>,
    /// Acronym of the PGN, space-padded to `ACRONYM_WIDTH` bytes.
    pub acronym: Vec<u8>,
    /// Description of the PGN.
    pub description: String,
    /// PDU format byte.
    pub pdu_format: u8,
    /// PDU specific byte.
    pub pdu_specific: u8,
    /// Priority.
    pub priority: u8,
    /// Data length in bytes.
    pub length: u8,
    /// Transmission-rate text, space-padded to `RATE_WIDTH` bytes.
    pub transmission_rate: Vec<u8>,
    /// SPN layouts, keyed by SPN id; keys are unique.
    pub spns: Vec<(u16, SpecSPN)>,
}

/// Keys of an association list are pairwise distinct.
pub open spec fn unique_keys(spns: Seq<(u16, SpecSPN)>) -> bool {
    forall|i: int, j: int| 0 <= i < j < spns.len() ==> spns[i].0 != spns[j].0
}

impl SpecPGN {
    /// Fixed widths hold, SPN keys are unique, and each SPN layout is
    /// well formed.
    pub open spec fn wf(self) -> bool {
        &&& self.label@.len() == LABEL_WIDTH
        &&& self.acronym@.len() == ACRONYM_WIDTH
        &&& self.transmission_rate@.len() == RATE_WIDTH
        &&& unique_keys(self.spns@)
        &&& forall|i: int| 0 <= i < self.spns@.len() ==> (#[trigger] self.spns@[i]).1.wf()
    }
}

impl Default for SpecPGN {
    /// An all-zero layout with no SPNs.
    fn default() -> (r: Self)
        ensures
            r.wf(),
            r.spns@.len() == 0,
            r.pdu_format == 0,
            r.pdu_specific == 0,
            r.priority == 0,
            r.length == 0,
            r.label@ == Seq::new(LABEL_WIDTH as nat, |i: int| 0u8),
            r.acronym@ == Seq::new(ACRONYM_WIDTH as nat, |i: int| 0u8),
            r.transmission_rate@ == Seq::new(RATE_WIDTH as nat, |i: int| 0u8),
            r.description@ == Seq::<char>::empty(),
    {
        SpecPGN {
            label: zero_bytes(LABEL_WIDTH),
            acronym: zero_bytes(ACRONYM_WIDTH),
            description: String::new(),
            pdu_format: 0,
            pdu_specific: 0,
            priority: 0,
            length: 0,
            transmission_rate: zero_bytes(RATE_WIDTH),
            spns: Vec::new(),
        }
    }
}

/// An error raised while loading or querying an annex.
#[derive(Debug, Clone, PartialEq)]
pub struct SpecError(pub String);

impl SpecError {
    /// The error rendered as text.
    pub fn message(&self) -> (r: String)
        ensures
            r@ == self.0@,
    {
        self.0.clone()
    }
}

/// The recognized kinds of annex source.
#[derive(Debug, Clone, Copy, PartialEq, Eq, Structural)]
pub enum FileType {
    Json,
    Xlsx,
    Dbc,
}

/// Declares serde_json's value type so that an annex can hold a parsed
/// JSON document; the library reads it only through its trusted wrappers.
#[verifier::external_type_specification]
#[verifier::external_body]
pub struct ExValue(serde_json::Value);

/// Declares can_dbc's database type so that an annex can hold a parsed
/// DBC database; the library carries it opaquely.
#[verifier::external_type_specification]
#[verifier::external_body]
pub struct ExDbc(can_dbc::Dbc);

/// One cell of a spreadsheet annex row, already reduced to plain values:
/// a number carries its decimal text (for scale factors), its integer
/// part, and its fraction rounded to eighths (for start-bit cells).
#[derive(Clone, Debug, PartialEq)]
pub enum CellValue {
    /// An empty or unrecognized cell.
    Empty,
    /// An integer cell.
    Int(i64),
    /// A numeric cell: its decimal text, truncated integer part, and
    /// `round(fraction * 8)`.
    Num { text: String, trunc: i64, eighth: u8 },
    /// A text cell.
    Text(String),
}

/// One row of a spreadsheet annex.
#[derive(Clone, Debug, PartialEq)]
pub struct SheetRow {
    /// The cells of the row, in column order.
    pub cells: Vec<CellValue>,
}

/// An annex: a parsed JSON document, spreadsheet rows reduced to plain
/// cells, or a DBC database.
pub enum Annex {
    /// A parsed JSON document with the two J1939 databases at top level.
    Json(serde_json::Value),
    /// Rows of the spreadsheet annex sheet.
    Sheet(Vec<SheetRow>),
    /// A DBC database; layout queries on it are not supported.
    Dbc(can_dbc::Dbc),
}

/// Metadata resolved for an identifier, by protocol.
pub enum Metadata {
    /// A J1939 parameter group layout.
    J1939(SpecPGN),
    CAN(u32),
    UDS(u32),
    Transport(u32),
}

impl Default for Metadata {
    /// The default metadata: a zero CAN tag.
    fn default() -> (r: Self)
        ensures
            r matches Metadata::CAN(v) && v == 0,
    {
        Metadata::CAN(0)
    }
}

/// A key is present in a layout list.
pub open spec fn has_spn_key(s: Seq<(u16, SpecSPN)>, k: u16) -> bool {
    exists|i: int| 0 <= i < s.len() && s[i].0 == k
}

/// The position of a key in a layout list.
pub open spec fn spn_key_index(s: Seq<(u16, SpecSPN)>, k: u16) -> int {
    choose|i: int| 0 <= i < s.len() && s[i].0 == k
}

/// The layout list with `(k, v)` stored: an existing entry for `k` is
/// replaced in place, a new key is appended.
pub open spec fn upsert_spn(s: Seq<(u16, SpecSPN)>, k: u16, v: SpecSPN) -> Seq<(u16, SpecSPN)> {
    if has_spn_key(s, k) {
        s.update(spn_key_index(s, k), (k, v))
    } else {
        s.push((k, v))
    }
}

/// Stores `(k, v)` in a layout list, replacing an entry with the same key.
pub fn upsert_spec_spn(spns: &mut Vec<(u16, SpecSPN)>, k: u16, v: SpecSPN)
    requires
        unique_keys(old(spns)@),
    ensures
        unique_keys(final (spns)@),
        final (spns)@ == upsert_spn(old(spns)@, k, v),
        (forall|i: int| 0 <= i < old(spns)@.len() ==> (#[trigger] old(spns)@[i]).1.wf()) && v.wf()
            ==> forall|i: int| 0 <= i < final (spns)@.len() ==> (#[trigger] final (spns)@[i]).1.wf(),
{
    let mut j: usize = 0;
    while j < spns.len()
        invariant
            j <= spns@.len(),
            *spns == *old(spns),
            unique_keys(spns@),
            forall|t: int| 0 <= t < j ==> (#[trigger] spns@[t]).0 != k,
        decreases spns@.len() - j,
    {
        if spns[j].0 == k {
            proof {
                assert(has_spn_key(spns@, k));
                let i = spn_key_index(spns@, k);
                assert(0 <= i < spns@.len() && spns@[i].0 == k);
                assert(i == j as int);
            }
            spns.set(j, (k, v));
            return ;
        }
        j = j + 1;
    }
    proof {
        assert(!has_spn_key(spns@, k));
    }
    spns.push((k, v));
}

/// A key is present in a cached layout map.
pub open spec fn has_pgn_key(s: Seq<(u16, SpecPGN)>, k: u16) -> bool {
    exists|i: int| 0 <= i < s.len() && s[i].0 == k
}

/// The position of a key in a cached layout map.
pub open spec fn pgn_key_index(s: Seq<(u16, SpecPGN)>, k: u16) -> int {
    choose|i: int| 0 <= i < s.len() && s[i].0 == k
}

/// Keys of a cached layout map are pairwise distinct.
pub open spec fn unique_pgn_keys(s: Seq<(u16, SpecPGN)>) -> bool {
    forall|i: int, j: int| 0 <= i < j < s.len() ==> s[i].0 != s[j].0
}

/// The cache with `(k, v)` stored: an existing entry for `k` is replaced,
/// a new key appended.
pub open spec fn upsert_pgn(s: Seq<(u16, SpecPGN)>, k: u16, v: SpecPGN) -> Seq<(u16, SpecPGN)> {
    if has_pgn_key(s, k) {
        s.update(pgn_key_index(s, k), (k, v))
    } else {
        s.push((k, v))
    }
}

/// The resolved layouts seen so far: a map from PGN to its layout, grown
/// once per PGN during a run and never evicted.
#[derive(Clone, Debug, PartialEq)]
pub struct FilteredSpec {
    /// The J1939 layouts, keyed by PGN; keys are unique.
    pub j1939: Vec<(u16, SpecPGN)>,
}

impl FilteredSpec {
    /// Keys are unique and every stored layout is well formed.
    pub open spec fn wf(self) -> bool {
        &&& unique_pgn_keys(self.j1939@)
        &&& forall|i: int| 0 <= i < self.j1939@.len() ==> (#[trigger] self.j1939@[i]).1.wf()
    }

    /// The set of cached PGNs.
    pub open spec fn key_set(self) -> Set<u16> {
        Set::new(|k: u16| has_pgn_key(self.j1939@, k))
    }

    /// The cached layout under `pgn`, if any.
    pub fn get(&self, pgn: u16) -> (r: Option<&SpecPGN>)
        requires
            self.wf(),
        ensures
            r is Some <==> has_pgn_key(self.j1939@, pgn),
            r matches Some(p) ==> *p == self.j1939@[pgn_key_index(self.j1939@, pgn)].1 && p.wf(),
    {
        let mut j: usize = 0;
        while j < self.j1939.len()
            invariant
                j <= self.j1939@.len(),
                self.wf(),
                forall|t: int| 0 <= t < j ==> (#[trigger] self.j1939@[t]).0 != pgn,
            decreases self.j1939@.len() - j,
        {
            if self.j1939[j].0 == pgn {
                proof {
                    assert(has_pgn_key(self.j1939@, pgn));
                    let i = pgn_key_index(self.j1939@, pgn);
                    assert(0 <= i < self.j1939@.len() && self.j1939@[i].0 == pgn);
                    assert(i == j as int);
                }
                return Some(&self.j1939[j].1);
            }
            j = j + 1;
        }
        proof {
            assert(!has_pgn_key(self.j1939@, pgn));
        }
        None
    }

    /// Stores a layout under `pgn`; a later insertion for the same PGN
    /// replaces the earlier one.
    pub fn insert(&mut self, pgn: u16, layout: SpecPGN)
        requires
            old(self).wf(),
            layout.wf(),
        ensures
            final (self).wf(),
            final (self).j1939@ == upsert_pgn(old(self).j1939@, pgn, layout),
            final (self).key_set() == old(self).key_set().insert(pgn),
    {
        let mut j: usize = 0;
        while j < self.j1939.len()
            invariant
                j <= self.j1939@.len(),
                *self == *old(self),
                self.wf(),
                layout.wf(),
                forall|t: int| 0 <= t < j ==> (#[trigger] self.j1939@[t]).0 != pgn,
            decreases self.j1939@.len() - j,
        {
            if self.j1939[j].0 == pgn {
                proof {
                    assert(has_pgn_key(self.j1939@, pgn));
                    let i = pgn_key_index(self.j1939@, pgn);
                    assert(0 <= i < self.j1939@.len() && self.j1939@[i].0 == pgn);
                    assert(i == j as int);
                }
                self.j1939.set(j, (pgn, layout));
                proof {
                    lemma_upsert_keys(old(self).j1939@, self.j1939@, pgn, layout);
                    assert forall|a: int, b: int|
                        0 <= a < b < self.j1939@.len() implies self.j1939@[a].0
                        != self.j1939@[b].0 by {
                        assert(old(self).j1939@[a].0 != old(self).j1939@[b].0);
                        if a != j as int {
                            assert(self.j1939@[a] == old(self).j1939@[a]);
                        }
                        if b != j as int {
                            assert(self.j1939@[b] == old(self).j1939@[b]);
                        }
                        if a == j as int || b == j as int {
                            assert(old(self).j1939@[j as int].0 == pgn);
                        }
                    }
                    assert forall|i: int|
                        0 <= i < self.j1939@.len() implies (#[trigger] self.j1939@[i]).1.wf() by {
                        if i != j as int {
                            assert(self.j1939@[i] == old(self).j1939@[i]);
                        } else {
                            assert(self.j1939@[i] == (pgn, layout));
                        }
                    }
                }
                return ;
            }
            j = j + 1;
        }
        proof {
            assert(!has_pgn_key(self.j1939@, pgn));
        }
        self.j1939.push((pgn, layout));
        proof {
            lemma_upsert_keys(old(self).j1939@, self.j1939@, pgn, layout);
        }
    }
}

/// After an upsert on a map with unique keys, the stored key is present
/// and looks up to the stored value.
pub proof fn lemma_upsert_pgn_lookup(
    before: Seq<(u16, SpecPGN)>,
    after: Seq<(u16, SpecPGN)>,
    k: u16,
    v: SpecPGN,
)
    requires
        after == upsert_pgn(before, k, v),
        unique_pgn_keys(before),
    ensures
        has_pgn_key(after, k),
        after[pgn_key_index(after, k)] == (k, v),
{
    if has_pgn_key(before, k) {
        let u = pgn_key_index(before, k);
        assert(0 <= u < before.len() && before[u].0 == k);
        assert(after[u] == (k, v));
        assert(has_pgn_key(after, k));
        let i = pgn_key_index(after, k);
        assert(0 <= i < after.len() && after[i].0 == k);
        if i != u {
            assert(before[i].0 == k);
        }
    } else {
        let u = before.len() as int;
        assert(after[u] == (k, v));
        assert(has_pgn_key(after, k));
        let i = pgn_key_index(after, k);
        assert(0 <= i < after.len() && after[i].0 == k);
        if i != u {
            assert(before[i].0 == k);
        }
    }
}

/// Appending a fresh key leaves every existing lookup unchanged.
pub proof fn lemma_push_preserves_lookup(
    before: Seq<(u16, SpecPGN)>,
    after: Seq<(u16, SpecPGN)>,
    k: u16,
    v: SpecPGN,
    x: u16,
)
    requires
        !has_pgn_key(before, k),
        after == upsert_pgn(before, k, v),
        unique_pgn_keys(before),
        has_pgn_key(before, x),
    ensures
        has_pgn_key(after, x),
        after[pgn_key_index(after, x)] == before[pgn_key_index(before, x)],
{
    let u = pgn_key_index(before, x);
    assert(0 <= u < before.len() && before[u].0 == x);
    assert(after[u].0 == x);
    assert(has_pgn_key(after, x));
    let i = pgn_key_index(after, x);
    assert(0 <= i < after.len() && after[i].0 == x);
    if i == before.len() as int {
        assert(after[i] == (k, v));
        assert(has_pgn_key(before, k));
    } else {
        assert(after[i] == before[i]);
        if i != u {
            assert(before[i].0 == x && before[u].0 == x);
        }
    }
}

/// After an upsert the key set grows by exactly the stored key.
proof fn lemma_upsert_keys(before: Seq<(u16, SpecPGN)>, after: Seq<(u16, SpecPGN)>, k: u16, v: SpecPGN)
    requires
        after == upsert_pgn(before, k, v),
    ensures
        Set::new(|x: u16| has_pgn_key(after, x)) == Set::new(
            |x: u16| has_pgn_key(before, x),
        ).insert(k),
{
    let sa = Set::new(|x: u16| has_pgn_key(after, x));
    let sb = Set::new(|x: u16| has_pgn_key(before, x)).insert(k);
    assert forall|x: u16| sa.contains(x) implies sb.contains(x) by {
        let i = choose|i: int| 0 <= i < after.len() && after[i].0 == x;
        if has_pgn_key(before, k) {
            let u = pgn_key_index(before, k);
            if i != u {
                assert(before[i].0 == x);
            }
        } else {
            if i < before.len() {
                assert(before[i].0 == x);
            }
        }
    }
    assert forall|x: u16| sb.contains(x) implies sa.contains(x) by {
        if x == k {
            if has_pgn_key(before, k) {
                let u = pgn_key_index(before, k);
                assert(after[u].0 == k);
            } else {
                assert(after[before.len() as int].0 == k);
            }
        } else {
            let i = choose|i: int| 0 <= i < before.len() && before[i].0 == x;
            if has_pgn_key(before, k) {
                let u = pgn_key_index(before, k);
                assert(i != u ==> after[i].0 == x);
                assert(before[u].0 == k);
            } else {
                assert(after[i].0 == x);
            }
        }
    }
    assert(sa =~= sb);
}

impl Default for FilteredSpec {
    /// An empty cache.
    fn default() -> (r: Self)
        ensures
            r.j1939@.len() == 0,
            r.wf(),
    {
        FilteredSpec { j1939: Vec::new() }
    }
}

/// Content begins with `{`: a JSON document.
pub open spec fn bytes_start_json(b: Seq<u8>) -> bool {
    b.len() >= 1 && b[0] == 123
}

/// Content begins with `PK`: a zip archive, so a packed spreadsheet.
pub open spec fn bytes_start_pk(b: Seq<u8>) -> bool {
    b.len() >= 2 && b[0] == 80 && b[1] == 75
}

/// Content begins with `VERSION`: a DBC database.
pub open spec fn bytes_start_version(b: Seq<u8>) -> bool {
    b.len() >= 7 && b[0] == 86 && b[1] == 69 && b[2] == 82 && b[3] == 83 && b[4] == 73 && b[5]
        == 79 && b[6] == 78
}

/// Classifies annex content by its first bytes: `{` starts a JSON document,
/// `PK` a zip-packed spreadsheet, `VERSION` a DBC database; anything else is
/// unsupported.
pub fn determine_file_type_from_contents(contents: &str) -> (r: Result<FileType, SpecError>)
    ensures
        r == Ok::<FileType, SpecError>(FileType::Json) <==> bytes_start_json(
            contents.spec_bytes(),
        ),
        r == Ok::<FileType, SpecError>(FileType::Xlsx) <==> (!bytes_start_json(
            contents.spec_bytes(),
        ) && bytes_start_pk(contents.spec_bytes())),
        r == Ok::<FileType, SpecError>(FileType::Dbc) <==> (!bytes_start_json(
            contents.spec_bytes(),
        ) && !bytes_start_pk(contents.spec_bytes()) && bytes_start_version(
            contents.spec_bytes(),
        )),
        r is Err <==> (!bytes_start_json(contents.spec_bytes()) && !bytes_start_pk(
            contents.spec_bytes(),
        ) && !bytes_start_version(contents.spec_bytes())),
        r is Err ==> r->Err_0.0@ == "Unsupported specification file type"@,
{
    let bytes = contents.as_bytes();
    if bytes.len() >= 1 && bytes[0] == 123u8 {
        Ok(FileType::Json)
    } else if bytes.len() >= 2 && bytes[0] == 80u8 && bytes[1] == 75u8 {
        Ok(FileType::Xlsx)
    } else if bytes.len() >= 7 && bytes[0] == 86u8 && bytes[1] == 69u8 && bytes[2] == 82u8
        && bytes[3] == 83u8 && bytes[4] == 73u8 && bytes[5] == 79u8 && bytes[6] == 78u8 {
        Ok(FileType::Dbc)
    } else {
        Err(SpecError("Unsupported specification file type".to_owned()))
    }
}

} // verus!

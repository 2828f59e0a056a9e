//! Decoded frames: the identifier record with its J1939 decomposition, the
//! payload with its extracted signal values, and the message record.
//!
//! Signal values are kept as the raw unscaled integers read from the
//! payload bits; the decimal scale factors of the layout travel beside them
//! as text, and callers apply `raw * resolution + offset` at the edge.
use vstd::prelude::*;

verus! {

use vstd::arithmetic::power2::pow2;
use vstd::string::StringSliceAdditionalSpecFns;
use crate::hex_text::{hex_body, hex_val, parse_hex_u32, parses_as_hex_u32};
use crate::specification::SpecSPN;

/// Mask of an 11-bit standard identifier.
pub const CAN_SFF_MASK: u32 = 0x000007FF;

/// Flag bit of a remote transmission request.
pub const CAN_RTR_FLAG: u32 = 0x40000000;

/// Flag bit of an error frame.
pub const CAN_ERR_FLAG: u32 = 0x20000000;

/// Width of the payload buffer, in bytes.
pub const PAYLOAD_WIDTH: usize = 64;

/// The flags of a CAN message.
#[derive(Clone, Copy, Debug, PartialEq, Eq, Structural)]
pub struct CANMessageFlags {
    /// The identifier is extended (more than 11 bits).
    pub ext: bool,
    /// The frame is an error frame.
    pub err: bool,
    /// The frame is a remote transmission request.
    pub rtr: bool,
}

/// A CAN identifier with its J1939 decomposition.
#[derive(Clone, Copy, Debug, PartialEq, Eq, Structural)]
pub struct CANID {
    /// The raw 32-bit identifier.
    pub id: u32,
    /// Priority (0-7).
    pub pri: u8,
    /// Destination address; 255 means broadcast or not addressed.
    pub da: u8,
    /// Source address.
    pub sa: u8,
    /// Parameter group number.
    pub pgn: u16,
    /// The frame flags.
    pub flags: CANMessageFlags,
}

/// The identifier is extended: it does not fit in 11 bits.
pub open spec fn spec_ext(id: u32) -> bool {
    id > 0x7FF
}

/// The error-frame flag bit is set.
pub open spec fn spec_err(id: u32) -> bool {
    id & CAN_ERR_FLAG == CAN_ERR_FLAG
}

/// The remote-transmission-request flag bit is set.
pub open spec fn spec_rtr(id: u32) -> bool {
    id & CAN_RTR_FLAG == CAN_RTR_FLAG
}

/// Priority: bits 26..29 of an extended identifier.
pub open spec fn spec_pri(id: u32) -> u8 {
    ((id >> 26) & 0x7) as u8
}

/// PDU format: bits 16..26 of an extended identifier. The ten-bit mask is
/// kept as the protocol rule of this library; the two extra bits wrap away
/// in the 16-bit PGN composition below.
pub open spec fn spec_pdu_format(id: u32) -> u16 {
    ((id >> 16) & 0x3FF) as u16
}

/// PDU specific: bits 8..16 of an extended identifier.
pub open spec fn spec_pdu_specific(id: u32) -> u8 {
    ((id >> 8) & 0xFF) as u8
}

/// Source address: the low byte of an extended identifier.
pub open spec fn spec_sa(id: u32) -> u8 {
    (id & 0xFF) as u8
}

/// The parameter group number of an extended identifier: the PDU format
/// shifted into the high byte (wrapping at 16 bits), joined with the PDU
/// specific byte for group broadcasts (PDU format 240 and above).
pub open spec fn spec_pgn(id: u32) -> u16 {
    let pf = spec_pdu_format(id) as u32;
    let ps = spec_pdu_specific(id) as u32;
    if pf >= 240 {
        ((pf * 256 + ps) % 0x10000) as u16
    } else {
        ((pf * 256) % 0x10000) as u16
    }
}

/// The destination address of an extended identifier: the PDU specific
/// byte when destination-specific (PDU format below 240), else 255.
pub open spec fn spec_da(id: u32) -> u8 {
    if spec_pdu_format(id) >= 240 {
        255
    } else {
        spec_pdu_specific(id)
    }
}

/// The J1939 fields of `c` carry the decomposition of `c.id`.
pub open spec fn j1939_fields_ok(c: CANID) -> bool {
    &&& c.pri == spec_pri(c.id)
    &&& c.sa == spec_sa(c.id)
    &&& c.pgn == spec_pgn(c.id)
    &&& c.da == spec_da(c.id)
}

/// Derives priority, PGN, source and destination address from an extended
/// identifier; the raw identifier and the flags are left alone.
pub fn parse_j1939_id(can_id: &mut CANID)
    ensures
        final (can_id).id == old(can_id).id,
        final (can_id).flags == old(can_id).flags,
        j1939_fields_ok(*final (can_id)),
{
    let id = can_id.id;
    can_id.pri = ((id >> 26) & 0x7) as u8;
    let pdu_fmt: u16 = ((id >> 16) & 0x3FF) as u16;
    let pdu_spec: u8 = ((id >> 8) & 0xFF) as u8;
    proof {
        assert((id >> 26) & 0x7 < 256 && (id >> 16) & 0x3FF < 0x10000 && (id >> 8) & 0xFF < 256
            && id & 0xFF < 256) by (bit_vector);
    }
    can_id.sa = (id & 0xFF) as u8;
    can_id.da = 255;
    if pdu_fmt >= 240 {
        can_id.pgn = (((pdu_fmt as u32) * 256 + pdu_spec as u32) % 0x10000) as u16;
    } else {
        can_id.pgn = (((pdu_fmt as u32) * 256) % 0x10000) as u16;
        can_id.da = pdu_spec;
    }
}

/// Parses the hexadecimal identifier text into `can_id`: the raw value, the
/// three flags, and, for an extended identifier, the J1939 decomposition.
/// Fields of a standard identifier other than the flags are left alone.
pub fn parse_id(id_text: &str, can_id: &mut CANID)
    requires
        parses_as_hex_u32(id_text.spec_bytes()),
    ensures
        final (can_id).id as nat == hex_val(hex_body(id_text.spec_bytes())),
        final (can_id).flags.ext == spec_ext(final (can_id).id),
        final (can_id).flags.err == spec_err(final (can_id).id),
        final (can_id).flags.rtr == spec_rtr(final (can_id).id),
        spec_ext(final (can_id).id) ==> j1939_fields_ok(*final (can_id)),
        !spec_ext(final (can_id).id) ==> {
            &&& final (can_id).pri == old(can_id).pri
            &&& final (can_id).da == old(can_id).da
            &&& final (can_id).sa == old(can_id).sa
            &&& final (can_id).pgn == old(can_id).pgn
        },
{
    let parsed = parse_hex_u32(id_text);
    let v: u32 = match parsed {
        Some(v) => v,
        None => {
            proof {
                assert(false);
            }
            0
        },
    };
    can_id.id = v;
    can_id.flags.ext = v > CAN_SFF_MASK;
    can_id.flags.err = (v & CAN_ERR_FLAG) == CAN_ERR_FLAG;
    can_id.flags.rtr = (v & CAN_RTR_FLAG) == CAN_RTR_FLAG;
    if can_id.flags.ext {
        parse_j1939_id(can_id);
    }
}

/// The payload of a message: the significant length, the 64-byte buffer,
/// and the signal values extracted from it, keyed by SPN id. A value is
/// the raw unscaled integer read from the payload bits.
#[derive(Clone, Debug, PartialEq)]
pub struct CANData {
    /// Number of meaningful bytes at the front of `data`.
    pub len: u8,
    /// The payload buffer; always exactly 64 bytes.
    pub data: Vec<u8>,
    /// Raw signal values, keyed by SPN id; keys are unique.
    pub spns: Vec<(u16, u64)>,
}

/// Keys of a value list are pairwise distinct.
pub open spec fn unique_value_keys(s: Seq<(u16, u64)>) -> bool {
    forall|i: int, j: int| 0 <= i < j < s.len() ==> s[i].0 != s[j].0
}

/// A value list read as a map; a later entry for a key wins.
pub open spec fn spn_values_map(s: Seq<(u16, u64)>) -> Map<u16, u64>
    decreases s.len(),
{
    if s.len() == 0 {
        Map::empty()
    } else {
        spn_values_map(s.drop_last()).insert(s.last().0, s.last().1)
    }
}

impl CANData {
    /// The buffer has its fixed width and value keys are unique.
    pub open spec fn wf(self) -> bool {
        &&& self.data@.len() == PAYLOAD_WIDTH
        &&& unique_value_keys(self.spns@)
    }
}

/// A decoded CAN message: capture timestamp, identifier, payload. The
/// timestamp is kept as the text captured from the input line; an empty
/// text means none was captured.
#[derive(Clone, Debug, PartialEq)]
pub struct CANMessage {
    /// Timestamp text, seconds since the epoch of the capture.
    pub ts: String,
    /// The identifier record.
    pub id: CANID,
    /// The payload record.
    pub data: CANData,
}

impl Default for CANMessage {
    /// The default message: no timestamp, zero identifier with the
    /// not-addressed destination sentinel 255, empty payload.
    fn default() -> (r: Self)
        ensures
            r.ts@ == Seq::<char>::empty(),
            r.id == (CANID {
                id: 0,
                pri: 0,
                da: 255,
                sa: 0,
                pgn: 0,
                flags: CANMessageFlags { ext: false, err: false, rtr: false },
            }),
            r.data.len == 0,
            r.data.data@ == Seq::new(PAYLOAD_WIDTH as nat, |i: int| 0u8),
            r.data.spns@ == Seq::<(u16, u64)>::empty(),
            r.data.wf(),
    {
        CANMessage {
            ts: String::new(),
            id: CANID {
                id: 0,
                pri: 0,
                da: 255,
                sa: 0,
                pgn: 0,
                flags: CANMessageFlags { ext: false, err: false, rtr: false },
            },
            data: CANData {
                len: 0,
                data: crate::specification::zero_bytes(PAYLOAD_WIDTH),
                spns: Vec::new(),
            },
        }
    }
}

/// The bit length actually read: clamped to one less than the buffer
/// width, which preserves partial decoding for short signals.
pub open spec fn eff_len(length: u8) -> u8 {
    if length > 63 {
        63
    } else {
        length
    }
}

/// Bit `i` of the signal: bit `start + i` of the payload, read
/// least-significant-first within each byte.
pub open spec fn spn_bit(data: Seq<u8>, start: u8, i: int) -> u64 {
    let pos = start + i;
    ((data[pos / 8] >> ((pos % 8) as u8)) & 1) as u64
}

/// The raw value of the first `n` bits of the signal, least significant
/// first.
pub open spec fn raw_spn_prefix(data: Seq<u8>, start: u8, n: nat) -> nat
    decreases n,
{
    if n == 0 {
        0
    } else {
        raw_spn_prefix(data, start, (n - 1) as nat) + (spn_bit(data, start, n - 1)
            * pow2((n - 1) as nat)) as nat
    }
}

/// The raw value of a signal: its bits read least-significant-first from
/// the payload, starting at `start_bit`.
pub open spec fn raw_spn_value(data: Seq<u8>, start_bit: u8, length: u8) -> nat {
    raw_spn_prefix(data, start_bit, eff_len(length) as nat)
}

proof fn lemma_raw_prefix_bound(data: Seq<u8>, start: u8, n: nat)
    ensures
        raw_spn_prefix(data, start, n) < pow2(n),
    decreases n,
{
    vstd::arithmetic::power2::lemma_pow2_pos(n);
    if n > 0 {
        lemma_raw_prefix_bound(data, start, (n - 1) as nat);
        vstd::arithmetic::power2::lemma_pow2_unfold(n);
        let pos = start + (n - 1);
        let b = data[pos / 8];
        let sh = (pos % 8) as u8;
        assert((b >> sh) & 1 <= 1) by (bit_vector);
        let bv = spn_bit(data, start, n as int - 1);
        assert(bv <= 1);
        assert(bv * pow2((n - 1) as nat) <= pow2((n - 1) as nat)) by (nonlinear_arith)
            requires bv <= 1,
        ;
    }
}

/// Reads the raw value of one signal from the payload: bit `start_bit + i`
/// of the buffer contributes `2^i`, for `i` below the bit length (clamped
/// to 63). The value is bounded by two to the power of the bits read.
pub fn parse_j1939_data_inner(data: &Vec<u8>, start_bit: u8, length: u8) -> (r: u64)
    requires
        data@.len() == PAYLOAD_WIDTH,
    ensures
        r as nat == raw_spn_value(data@, start_bit, length),
        (r as nat) < pow2(eff_len(length) as nat),
{
    let len: u8 = if length > 63 {
        63
    } else {
        length
    };
    let mut value: u64 = 0;
    let mut i: u8 = 0;
    proof {
        vstd::arithmetic::power2::lemma2_to64();
        vstd::arithmetic::power2::lemma2_to64_rest();
    }
    while i < len
        invariant
            i <= len,
            len == eff_len(length),
            data@.len() == PAYLOAD_WIDTH,
            value as nat == raw_spn_prefix(data@, start_bit, i as nat),
            (value as nat) < pow2(i as nat),
            pow2(i as nat) <= pow2(63),
            pow2(63) == 0x8000000000000000,
        decreases len - i,
    {
        let pos: usize = start_bit as usize + i as usize;
        let byte: usize = pos / 8;
        let bit: usize = pos % 8;
        let bit_value: u8 = (data[byte] >> (bit as u8)) & 1;
        proof {
            let b = data@[byte as int];
            let sh = (bit % 8) as u8;
            assert((b >> sh) & 1 <= 1) by (bit_vector);
            assert(bit_value as u64 == spn_bit(data@, start_bit, i as int));
            vstd::arithmetic::power2::lemma_pow2_unfold(i as nat + 1);
            if i as nat + 1 < 63 {
                vstd::arithmetic::power2::lemma_pow2_strictly_increases(i as nat + 1, 63);
            }
            let bv = bit_value as u64;
            assert(bv * pow2(i as nat) <= pow2(i as nat)) by (nonlinear_arith)
                requires bv <= 1,
            ;
            vstd::bits::lemma_u64_shl_is_mul(bit_value as u64, i as u64);
        }
        value = value + ((bit_value as u64) << (i as u64));
        i = i + 1;
    }
    value
}

/// Extracts every signal of the layout list from the payload and records
/// the raw values under their SPN ids; an id already present is replaced.
/// The payload bytes themselves are left alone.
pub fn parse_j1939_data(data: &mut CANData, spn_info: &Vec<(u16, SpecSPN)>)
    requires
        old(data).wf(),
    ensures
        final (data).wf(),
        final (data).len == old(data).len,
        final (data).data == old(data).data,
        spn_values_map(final (data).spns@) == extended_spn_map(
            spn_values_map(old(data).spns@),
            old(data).data@,
            spn_info@,
        ),
{
    let mut k: usize = 0;
    while k < spn_info.len()
        invariant
            k <= spn_info@.len(),
            data.wf(),
            data.len == old(data).len,
            data.data == old(data).data,
            spn_values_map(data.spns@) == extended_spn_map(
                spn_values_map(old(data).spns@),
                old(data).data@,
                spn_info@.take(k as int),
            ),
        decreases spn_info@.len() - k,
    {
        let spn: u16 = spn_info[k].0;
        let raw = parse_j1939_data_inner(
            &data.data,
            spn_info[k].1.start_bit,
            spn_info[k].1.length,
        );
        proof {
            assert(spn_info@.take(k + 1).drop_last() =~= spn_info@.take(k as int));
            assert(spn_info@.take(k + 1).last() == spn_info@[k as int]);
        }
        insert_spn_value(&mut data.spns, spn, raw);
        k = k + 1;
    }
    proof {
        assert(spn_info@.take(spn_info@.len() as int) =~= spn_info@);
    }
}

/// The value map extended with the raw value of each signal of the layout
/// list, in order.
pub open spec fn extended_spn_map(
    m: Map<u16, u64>,
    data: Seq<u8>,
    info: Seq<(u16, SpecSPN)>,
) -> Map<u16, u64>
    decreases info.len(),
{
    if info.len() == 0 {
        m
    } else {
        extended_spn_map(m, data, info.drop_last()).insert(
            info.last().0,
            raw_spn_value(data, info.last().1.start_bit, info.last().1.length) as u64,
        )
    }
}

/// Stores `raw` under `spn`, replacing an entry with the same id.
fn insert_spn_value(spns: &mut Vec<(u16, u64)>, spn: u16, raw: u64)
    requires
        unique_value_keys(old(spns)@),
    ensures
        unique_value_keys(final (spns)@),
        spn_values_map(final (spns)@) == spn_values_map(old(spns)@).insert(spn, raw),
{
    let mut j: usize = 0;
    while j < spns.len()
        invariant
            j <= spns@.len(),
            *spns == *old(spns),
            unique_value_keys(spns@),
            forall|t: int| 0 <= t < j ==> (#[trigger] spns@[t]).0 != spn,
        decreases spns@.len() - j,
    {
        if spns[j].0 == spn {
            let ghost before = spns@;
            spns.set(j, (spn, raw));
            proof {
                lemma_spn_map_update(before, j as int, spn, raw);
            }
            return ;
        }
        j = j + 1;
    }
    spns.push((spn, raw));
    proof {
        assert(spns@.drop_last() =~= old(spns)@);
    }
}

/// Replacing the entry at `j`, whose key appears only there, updates the
/// map at that key alone.
proof fn lemma_spn_map_update(s: Seq<(u16, u64)>, j: int, spn: u16, raw: u64)
    requires
        0 <= j < s.len(),
        s[j].0 == spn,
        unique_value_keys(s),
    ensures
        spn_values_map(s.update(j, (spn, raw))) == spn_values_map(s).insert(spn, raw),
    decreases s.len(),
{
    let s2 = s.update(j, (spn, raw));
    if j == s.len() - 1 {
        assert(s2.drop_last() =~= s.drop_last());
        assert(s2.last() == (spn, raw));
    } else {
        lemma_spn_map_update(s.drop_last(), j, spn, raw);
        assert(s2.drop_last() =~= s.drop_last().update(j, (spn, raw)));
        assert(s2.last() == s.last());
        assert(s.last().0 != spn);
        assert(spn_values_map(s2) == spn_values_map(s.drop_last()).insert(spn, raw).insert(
            s.last().0,
            s.last().1,
        ));
        assert(spn_values_map(s.drop_last()).insert(spn, raw).insert(s.last().0, s.last().1)
            =~= spn_values_map(s.drop_last()).insert(s.last().0, s.last().1).insert(spn, raw));
    }
}

/// Every raw signal value lies below two to the power of the bits read:
/// the value of `n` extracted bits is within `[0, 2^n)`.
pub proof fn lemma_raw_value_range(data: Seq<u8>, start_bit: u8, length: u8)
    ensures
        raw_spn_value(data, start_bit, length) < pow2(eff_len(length) as nat),
{
    lemma_raw_prefix_bound(data, start_bit, eff_len(length) as nat);
}

/// The keys of an extracted signal map all come from the layout list (or
/// from the map it extends): extraction adds no signal the layout does
/// not name.
pub proof fn lemma_extracted_keys(m: Map<u16, u64>, data: Seq<u8>, info: Seq<(u16, SpecSPN)>)
    ensures
        forall|k: u16|
            extended_spn_map(m, data, info).dom().contains(k) ==> m.dom().contains(k) || exists|
                i: int,
            | 0 <= i < info.len() && (#[trigger] info[i]).0 == k,
    decreases info.len(),
{
    if info.len() > 0 {
        lemma_extracted_keys(m, data, info.drop_last());
        assert forall|k: u16|
            extended_spn_map(m, data, info).dom().contains(k) implies m.dom().contains(k) || exists|
            i: int,
        | 0 <= i < info.len() && (#[trigger] info[i]).0 == k by {
            if k == info.last().0 {
                assert(info[info.len() - 1].0 == k);
            } else {
                assert(extended_spn_map(m, data, info.drop_last()).dom().contains(k));
                if !m.dom().contains(k) {
                    let i = choose|i: int|
                        0 <= i < info.drop_last().len() && (#[trigger] info.drop_last()[i]).0 == k;
                    assert(info[i].0 == k);
                }
            }
        }
    }
}

/// Two frames with the same payload decoded under the same layout list
/// carry identical raw signal maps: extraction reads nothing else.
pub proof fn lemma_spn_maps_identical(
    d1: Seq<u8>,
    d2: Seq<u8>,
    l1: Seq<(u16, SpecSPN)>,
    l2: Seq<(u16, SpecSPN)>,
)
    requires
        d1 == d2,
        l1 == l2,
    ensures
        extended_spn_map(Map::empty(), d1, l1) == extended_spn_map(Map::empty(), d2, l2),
{
}

} // verus!

//! Hexadecimal text: parsing identifier and payload fields from hex digits,
//! and rendering them back in upper case.
use vstd::prelude::*;

verus! {

use vstd::string::StringSliceAdditionalSpecFns;
use vstd::arithmetic::power2::pow2;
use crate::utils::string_from_chars;

/// The byte is an ASCII hex digit.
pub open spec fn is_hex_digit(b: u8) -> bool {
    (48 <= b <= 57) || (65 <= b <= 70) || (97 <= b <= 102)
}

/// Value of an ASCII hex digit.
pub open spec fn hex_digit_val(b: u8) -> u8 {
    if 48 <= b <= 57 {
        (b - 48) as u8
    } else if 65 <= b <= 70 {
        (b - 55) as u8
    } else {
        (b - 87) as u8
    }
}

/// Every byte of the sequence is an ASCII hex digit.
pub open spec fn all_hex(s: Seq<u8>) -> bool {
    forall|i: int| 0 <= i < s.len() ==> is_hex_digit(#[trigger] s[i])
}

/// Value of a sequence of hex digits, most significant first.
pub open spec fn hex_val(s: Seq<u8>) -> nat
    decreases s.len(),
{
    if s.len() == 0 {
        0
    } else {
        hex_val(s.drop_last()) * 16 + hex_digit_val(s.last()) as nat
    }
}

/// The digits of a hex numeral after an optional leading `+`.
pub open spec fn hex_body(s: Seq<u8>) -> Seq<u8> {
    if s.len() >= 1 && s[0] == 43 {
        s.skip(1)
    } else {
        s
    }
}

/// The text is accepted as a base-16 `u32` numeral: at least one digit
/// after the optional sign, only hex digits, and a value within range.
pub open spec fn parses_as_hex_u32(s: Seq<u8>) -> bool {
    &&& hex_body(s).len() >= 1
    &&& all_hex(hex_body(s))
    &&& hex_val(hex_body(s)) <= u32::MAX
}

/// A longer digit string has at least the value of any prefix of it.
proof fn lemma_hex_val_prefix(s: Seq<u8>, i: int)
    requires
        0 <= i <= s.len(),
    ensures
        hex_val(s.take(i)) <= hex_val(s),
    decreases s.len() - i,
{
    if i < s.len() {
        lemma_hex_val_prefix(s.drop_last(), i);
        assert(s.drop_last().take(i) =~= s.take(i));
    } else {
        assert(s.take(i) =~= s);
    }
}

/// Parses a base-16 `u32` numeral: an optional `+` sign followed by one or
/// more hex digits, rejecting empty digits, stray characters and overflow.
pub fn parse_hex_u32(s: &str) -> (r: Option<u32>)
    ensures
        r is Some <==> parses_as_hex_u32(s.spec_bytes()),
        r is Some ==> r->0 as nat == hex_val(hex_body(s.spec_bytes())),
{
    let bytes = s.as_bytes();
    let ghost whole = s.spec_bytes();
    let start: usize = if bytes.len() >= 1 && bytes[0] == 43u8 {
        1
    } else {
        0
    };
    let ghost body = hex_body(whole);
    proof {
        assert(body =~= whole.skip(start as int));
    }
    if bytes.len() == start {
        return None;
    }
    let mut acc: u64 = 0;
    let mut i: usize = start;
    while i < bytes.len()
        invariant
            start <= i <= bytes@.len(),
            bytes@ == whole,
            whole == s.spec_bytes(),
            body == hex_body(whole),
            body == whole.skip(start as int),
            start == 0 || start == 1,
            all_hex(body.take(i - start)),
            acc as nat == hex_val(body.take(i - start)),
            acc <= u32::MAX,
        decreases bytes@.len() - i,
    {
        let b = bytes[i];
        let d: u8 = if 48 <= b && b <= 57 {
            b - 48
        } else if 65 <= b && b <= 70 {
            b - 55
        } else if 97 <= b && b <= 102 {
            b - 87
        } else {
            proof {
                assert(0 <= i - start < body.len());
                assert(body[i - start] == whole[i as int]);
                assert(!is_hex_digit(body[i - start]));
                assert(!all_hex(body));
            }
            return None;
        };
        let next: u64 = acc * 16 + d as u64;
        proof {
            assert(body[i - start] == whole[i as int]);
            assert(body.take(i + 1 - start).drop_last() =~= body.take(i - start));
            assert(body.take(i + 1 - start).last() == b);
            assert(d == hex_digit_val(b));
            assert(next as nat == hex_val(body.take(i + 1 - start)));
            assert(all_hex(body.take(i + 1 - start)));
        }
        if next > 0xFFFF_FFFF {
            proof {
                lemma_hex_val_prefix(body, i + 1 - start);
                assert(hex_val(body) >= next as nat);
                assert(!parses_as_hex_u32(whole));
            }
            return None;
        }
        acc = next;
        i = i + 1;
    }
    proof {
        assert(body.take(bytes@.len() - start) =~= body);
    }
    Some(acc as u32)
}

/// Upper-case hex digit of a value below 16.
pub open spec fn hex_char_upper(n: u8) -> char {
    if n < 10 {
        ((48 + n) as u8) as char
    } else {
        ((55 + n) as u8) as char
    }
}

/// The nibble of `v` at position `k`, counting from the least significant.
pub open spec fn nibble_u32(v: u32, k: int) -> u8 {
    ((v >> (4 * k) as u32) & 0xF) as u8
}

/// The eight hex digits of a `u32`, most significant first.
pub open spec fn u32_hex_chars(v: u32) -> Seq<char> {
    Seq::new(8, |i: int| hex_char_upper(nibble_u32(v, 7 - i)))
}

/// Renders an identifier as eight upper-case hex digits.
pub fn id_hex_string(v: u32) -> (r: String)
    ensures
        r@ == u32_hex_chars(v),
{
    let mut chars: Vec<char> = Vec::new();
    let mut k: usize = 0;
    while k < 8
        invariant
            k <= 8,
            chars@ =~= u32_hex_chars(v).take(k as int),
        decreases 8 - k,
    {
        let shift: u32 = 28 - 4 * (k as u32);
        let n: u8 = ((v >> shift) & 0xF) as u8;
        proof {
            assert((v >> shift) & 0xF < 16) by (bit_vector);
            assert(shift == 4 * (7 - k as u32)) by {
                assert(k < 8);
            }
        }
        let c: char = if n < 10 {
            (48 + n) as char
        } else {
            (55 + n) as char
        };
        chars.push(c);
        proof {
            assert(chars@ =~= u32_hex_chars(v).take(k as int + 1));
        }
        k = k + 1;
    }
    proof {
        assert(u32_hex_chars(v).take(8) =~= u32_hex_chars(v));
    }
    string_from_chars(&chars)
}

/// The hex digits produced for a `u32` read back as the same value:
/// rendering and parsing an identifier is the identity.
pub proof fn lemma_id_hex_round_trip(v: u32)
    ensures
        parses_as_hex_u32(u32_hex_chars(v).map(|i: int, c: char| c as u8)),
        hex_val(hex_body(u32_hex_chars(v).map(|i: int, c: char| c as u8))) == v,
{
    let digits = u32_hex_chars(v).map(|i: int, c: char| c as u8);
    assert forall|i: int| 0 <= i < digits.len() implies is_hex_digit(#[trigger] digits[i]) by {
        let sh: u32 = (4 * (7 - i)) as u32;
        assert((v >> sh) & 0xF < 16) by (bit_vector);
        assert(nibble_u32(v, 7 - i) < 16);
    }
    assert(digits[0] != 43);
    assert(hex_body(digits) == digits);
    lemma_hex_val_take(v, 8);
    assert(v >> 0u32 == v) by (bit_vector);
    assert(digits.take(8) =~= digits);
}

/// The first `k` digits of the rendering carry the top `k` nibbles.
proof fn lemma_hex_val_take(v: u32, k: int)
    requires
        0 <= k <= 8,
    ensures
        hex_val(u32_hex_chars(v).map(|i: int, c: char| c as u8).take(k)) == (v >> (4 * (8 - k))
            as u32) as nat,
    decreases k,
{
    let digits = u32_hex_chars(v).map(|i: int, c: char| c as u8);
    if k == 0 {
        assert(digits.take(0) =~= Seq::<u8>::empty());
        assert(v >> 32u32 == 0) by (bit_vector);
    } else {
        lemma_hex_val_take(v, k - 1);
        assert(digits.take(k).drop_last() =~= digits.take(k - 1));
        let n = nibble_u32(v, 8 - k);
        assert(digits.take(k).last() == (if n < 10 {
            (48 + n) as u8
        } else {
            (55 + n) as u8
        }));
        let sh: u32 = (4 * (8 - k)) as u32;
        assert((v >> (sh + 4)) as nat * 16 + ((v >> sh) & 0xF) as nat == (v >> sh) as nat
            && (v >> sh) & 0xF < 16) by (bit_vector)
            requires sh <= 28 && sh % 4 == 0,
        ;
        if n < 10 {
            assert(hex_digit_val((48 + n) as u8) == n);
        } else {
            assert(hex_digit_val((55 + n) as u8) == n);
        }
    }
}

/// An even run of hex digits, two per byte.
pub open spec fn hex_pairs_ok(s: Seq<u8>) -> bool {
    s.len() % 2 == 0 && all_hex(s)
}

/// The bytes encoded by a run of hex digit pairs.
pub open spec fn hex_pairs_bytes(s: Seq<u8>) -> Seq<u8> {
    Seq::new(s.len() / 2, |i: int| (hex_digit_val(s[2 * i]) * 16 + hex_digit_val(s[2 * i + 1])) as u8)
}

/// Decodes pairs of hex digits into bytes; fails on an odd count or a
/// character that is not a hex digit.
pub fn decode_hex_pairs(bytes: &[u8]) -> (r: Option<Vec<u8>>)
    ensures
        r is Some <==> hex_pairs_ok(bytes@),
        r is Some ==> r->0@ == hex_pairs_bytes(bytes@),
{
    if bytes.len() % 2 != 0 {
        return None;
    }
    let mut out: Vec<u8> = Vec::new();
    let mut i: usize = 0;
    while i + 1 < bytes.len() + 1
        invariant
            i % 2 == 0,
            i <= bytes@.len(),
            bytes@.len() % 2 == 0,
            all_hex(bytes@.take(i as int)),
            out@ =~= hex_pairs_bytes(bytes@).take(i as int / 2),
        decreases bytes@.len() - i,
    {
        let hi = bytes[i];
        let lo = bytes[i + 1];
        let dh: u8 = if 48 <= hi && hi <= 57 {
            hi - 48
        } else if 65 <= hi && hi <= 70 {
            hi - 55
        } else if 97 <= hi && hi <= 102 {
            hi - 87
        } else {
            return None;
        };
        let dl: u8 = if 48 <= lo && lo <= 57 {
            lo - 48
        } else if 65 <= lo && lo <= 70 {
            lo - 55
        } else if 97 <= lo && lo <= 102 {
            lo - 87
        } else {
            return None;
        };
        out.push(dh * 16 + dl);
        proof {
            assert(all_hex(bytes@.take(i + 2)));
            assert(out@ =~= hex_pairs_bytes(bytes@).take((i + 2) / 2));
        }
        i = i + 2;
    }
    proof {
        assert(bytes@.take(bytes@.len() as int) =~= bytes@);
        assert(hex_pairs_bytes(bytes@).take(bytes@.len() as int / 2) =~= hex_pairs_bytes(bytes@));
    }
    Some(out)
}

/// Upper-case hex text of a byte sequence, two digits per byte.
pub open spec fn bytes_hex_upper(b: Seq<u8>) -> Seq<char> {
    Seq::new(
        2 * b.len(),
        |i: int|
            if i % 2 == 0 {
                hex_char_upper(b[i / 2] / 16)
            } else {
                hex_char_upper(b[i / 2] % 16)
            },
    )
}

/// Renders bytes as upper-case hex text, two digits per byte.
pub fn encode_hex_upper(b: &[u8]) -> (r: String)
    ensures
        r@ == bytes_hex_upper(b@),
{
    let mut chars: Vec<char> = Vec::new();
    let mut i: usize = 0;
    while i < b.len()
        invariant
            i <= b@.len(),
            chars@ =~= bytes_hex_upper(b@).take(2 * i as int),
        decreases b@.len() - i,
    {
        let hi: u8 = b[i] / 16;
        let lo: u8 = b[i] % 16;
        let ch: char = if hi < 10 {
            (48 + hi) as char
        } else {
            (55 + hi) as char
        };
        let cl: char = if lo < 10 {
            (48 + lo) as char
        } else {
            (55 + lo) as char
        };
        chars.push(ch);
        chars.push(cl);
        proof {
            assert(chars@ =~= bytes_hex_upper(b@).take(2 * (i + 1)));
        }
        i = i + 1;
    }
    proof {
        assert(bytes_hex_upper(b@).take(2 * b@.len() as int) =~= bytes_hex_upper(b@));
    }
    string_from_chars(&chars)
}

/// Hex text rendered from bytes decodes back to the same bytes: payload
/// rendering and re-parsing is the identity.
pub proof fn lemma_payload_hex_round_trip(b: Seq<u8>)
    ensures
        hex_pairs_ok(bytes_hex_upper(b).map(|i: int, c: char| c as u8)),
        hex_pairs_bytes(bytes_hex_upper(b).map(|i: int, c: char| c as u8)) == b,
{
    let digits = bytes_hex_upper(b).map(|i: int, c: char| c as u8);
    assert forall|i: int| 0 <= i < digits.len() implies is_hex_digit(#[trigger] digits[i]) by {
        if i % 2 == 0 {
            assert(b[i / 2] / 16 < 16);
        } else {
            assert(b[i / 2] % 16 < 16);
        }
    }
    assert forall|i: int| 0 <= i < b.len() implies hex_pairs_bytes(digits)[i] == b[i] by {
        assert(digits[2 * i] == (if b[i] / 16 < 10 {
            (48 + b[i] / 16) as u8
        } else {
            (55 + b[i] / 16) as u8
        }));
        assert(digits[2 * i + 1] == (if b[i] % 16 < 10 {
            (48 + b[i] % 16) as u8
        } else {
            (55 + b[i] % 16) as u8
        }));
        assert(hex_digit_val(digits[2 * i]) == b[i] / 16);
        assert(hex_digit_val(digits[2 * i + 1]) == b[i] % 16);
    }
    assert(hex_pairs_bytes(digits) =~= b);
}

} // verus!

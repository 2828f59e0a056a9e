//! Decimal text: parsing small unsigned numerals from annex fields and
//! rendering map keys as decimal strings.
use vstd::prelude::*;

verus! {

use vstd::string::StringSliceAdditionalSpecFns;
use crate::utils::string_from_chars;

/// ASCII decimal digit.
pub open spec fn is_dec_digit(b: u8) -> bool {
    48 <= b <= 57
}

/// Every byte is a decimal digit.
pub open spec fn all_dec(s: Seq<u8>) -> bool {
    forall|i: int| 0 <= i < s.len() ==> is_dec_digit(#[trigger] s[i])
}

/// Value of a run of decimal digits, most significant first.
pub open spec fn dec_val(s: Seq<u8>) -> nat
    decreases s.len(),
{
    if s.len() == 0 {
        0
    } else {
        dec_val(s.drop_last()) * 10 + (s.last() - 48) as nat
    }
}

/// The digits after an optional leading `+`.
pub open spec fn dec_body(s: Seq<u8>) -> Seq<u8> {
    if s.len() >= 1 && s[0] == 43 {
        s.skip(1)
    } else {
        s
    }
}

/// The text is accepted as a decimal numeral no greater than `cap`.
pub open spec fn parses_as_dec(s: Seq<u8>, cap: nat) -> bool {
    &&& dec_body(s).len() >= 1
    &&& all_dec(dec_body(s))
    &&& dec_val(dec_body(s)) <= cap
}

proof fn lemma_dec_val_prefix(s: Seq<u8>, i: int)
    requires
        0 <= i <= s.len(),
    ensures
        dec_val(s.take(i)) <= dec_val(s),
    decreases s.len() - i,
{
    if i < s.len() {
        lemma_dec_val_prefix(s.drop_last(), i);
        assert(s.drop_last().take(i) =~= s.take(i));
    } else {
        assert(s.take(i) =~= s);
    }
}

/// Parses a decimal numeral with an optional `+` sign, rejecting empty
/// digits, stray characters and values over `cap`; mirrors the standard
/// parser for the unsigned integer of that range.
pub fn parse_dec_capped(s: &str, cap: u32) -> (r: Option<u32>)
    ensures
        r is Some <==> parses_as_dec(s.spec_bytes(), cap as nat),
        r matches Some(v) ==> v as nat == dec_val(dec_body(s.spec_bytes())) && v <= cap,
{
    let bytes = s.as_bytes();
    let ghost whole = s.spec_bytes();
    let start: usize = if bytes.len() >= 1 && bytes[0] == 43u8 {
        1
    } else {
        0
    };
    let ghost body = dec_body(whole);
    proof {
        assert(body =~= whole.skip(start as int));
    }
    if bytes.len() == start {
        return None;
    }
    let mut acc: u64 = 0;
    let mut i: usize = start;
    while i < bytes.len()
        invariant
            start <= i <= bytes@.len(),
            bytes@ == whole,
            whole == s.spec_bytes(),
            body == dec_body(whole),
            body == whole.skip(start as int),
            start == 0 || start == 1,
            all_dec(body.take(i - start)),
            acc as nat == dec_val(body.take(i - start)),
            acc <= cap,
        decreases bytes@.len() - i,
    {
        let b = bytes[i];
        if !(48 <= b && b <= 57) {
            proof {
                assert(body[i - start] == whole[i as int]);
                assert(!all_dec(body));
            }
            return None;
        }
        let next: u64 = acc * 10 + (b - 48) as u64;
        proof {
            assert(body[i - start] == whole[i as int]);
            assert(body.take(i + 1 - start).drop_last() =~= body.take(i - start));
            assert(body.take(i + 1 - start).last() == b);
            assert(next as nat == dec_val(body.take(i + 1 - start)));
            assert(all_dec(body.take(i + 1 - start)));
        }
        if next > cap as u64 {
            proof {
                lemma_dec_val_prefix(body, i + 1 - start);
            }
            return None;
        }
        acc = next;
        i = i + 1;
    }
    proof {
        assert(body.take(bytes@.len() - start) =~= body);
    }
    Some(acc as u32)
}

/// The decimal digits of a value, most significant first.
pub open spec fn dec_chars_of(v: nat) -> Seq<char>
    decreases v,
{
    if v < 10 {
        seq![((48 + v) as u8) as char]
    } else {
        dec_chars_of(v / 10).push(((48 + v % 10) as u8) as char)
    }
}

/// The decimal digits of a value, least significant first.
pub open spec fn rev_dec_chars(v: nat) -> Seq<char>
    decreases v,
{
    if v < 10 {
        seq![((48 + v) as u8) as char]
    } else {
        seq![((48 + v % 10) as u8) as char] + rev_dec_chars(v / 10)
    }
}

/// The two digit orders mirror one another.
proof fn lemma_rev_dec_chars(v: nat)
    ensures
        rev_dec_chars(v).len() == dec_chars_of(v).len(),
        forall|j: int|
            0 <= j < rev_dec_chars(v).len() ==> rev_dec_chars(v)[j] == dec_chars_of(v)[
                rev_dec_chars(v).len() - 1 - j
            ],
    decreases v,
{
    if v >= 10 {
        lemma_rev_dec_chars(v / 10);
    }
}

/// Renders a 16-bit value as decimal text.
pub fn u16_dec_string(v: u16) -> (r: String)
    ensures
        r@ == dec_chars_of(v as nat),
{
    let mut digits: Vec<char> = Vec::new();
    let mut x: u16 = v;
    loop
        invariant_except_break
            rev_dec_chars(v as nat) =~= digits@ + rev_dec_chars(x as nat),
        ensures
            digits@ == rev_dec_chars(v as nat),
        decreases x,
    {
        let d: char = (48 + (x % 10) as u8) as char;
        let ghost before = digits@;
        let ghost x0 = x as nat;
        digits.push(d);
        x = x / 10;
        if x == 0 {
            proof {
                assert(rev_dec_chars(x0) =~= seq![d]);
                assert(before + rev_dec_chars(x0) =~= before.push(d));
            }
            break ;
        }
        proof {
            assert(x0 >= 10);
            assert(rev_dec_chars(x0) =~= seq![d] + rev_dec_chars(x0 / 10));
            assert(before + rev_dec_chars(x0) =~= before.push(d) + rev_dec_chars(x as nat));
        }
    }
    proof {
        lemma_rev_dec_chars(v as nat);
    }
    let mut out: Vec<char> = Vec::new();
    let n = digits.len();
    let mut k: usize = 0;
    while k < n
        invariant
            k <= n,
            n == digits@.len(),
            digits@ == rev_dec_chars(v as nat),
            n == dec_chars_of(v as nat).len(),
            forall|j: int|
                0 <= j < n ==> digits@[j] == dec_chars_of(v as nat)[n - 1 - j],
            out@ =~= dec_chars_of(v as nat).take(k as int),
        decreases n - k,
    {
        out.push(digits[n - 1 - k]);
        proof {
            assert(out@ =~= dec_chars_of(v as nat).take(k + 1));
        }
        k = k + 1;
    }
    proof {
        assert(dec_chars_of(v as nat).take(n as int) =~= dec_chars_of(v as nat));
    }
    string_from_chars(&out)
}

} // verus!

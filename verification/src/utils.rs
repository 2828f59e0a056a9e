//! Fixed-width text coercion: variable strings are shortened by a
//! deterministic abbreviation rule (drop spaces, then drop vowels, then
//! truncate) so that labels and units survive storage in fixed arrays.
use vstd::prelude::*;

verus! {

use vstd::string::StringSliceAdditionalSpecFns;
use vstd::string::StrSliceExecFns;

/// ASCII vowels, upper and lower case.
pub open spec fn is_vowel_char(c: char) -> bool {
    c == 'a' || c == 'e' || c == 'i' || c == 'o' || c == 'u'
        || c == 'A' || c == 'E' || c == 'I' || c == 'O' || c == 'U'
}

/// ASCII lower-case letter, as a character.
pub open spec fn is_lower_char(c: char) -> bool {
    97 <= c as u32 && c as u32 <= 122
}

/// No ASCII lower-case letter occurs: the text counts as all-uppercase.
pub open spec fn all_upper_chars(s: Seq<char>) -> bool {
    forall|i: int| 0 <= i < s.len() ==> !is_lower_char(#[trigger] s[i])
}

/// The abbreviation rule on a character sequence: text that fits is kept
/// whole; all-uppercase text is truncated; otherwise spaces are removed,
/// then vowels if still too long, then the rest is truncated. The result
/// never exceeds `n` characters.
pub open spec fn process_spec(s: Seq<char>, n: nat) -> Seq<char> {
    if s.len() <= n {
        s
    } else if all_upper_chars(s) {
        s.take(n as int)
    } else {
        let no_spaces = s.filter(|c: char| c != ' ');
        let no_vowels = if no_spaces.len() > n {
            no_spaces.filter(|c: char| !is_vowel_char(c))
        } else {
            no_spaces
        };
        if no_vowels.len() > n {
            no_vowels.take(n as int)
        } else {
            no_vowels
        }
    }
}

proof fn lemma_filter_take_step<A>(s: Seq<A>, pred: spec_fn(A) -> bool, i: int)
    requires
        0 <= i < s.len(),
    ensures
        s.take(i + 1).filter(pred) == if pred(s[i]) {
            s.take(i).filter(pred).push(s[i])
        } else {
            s.take(i).filter(pred)
        },
{
    assert(s.take(i + 1) =~= s.take(i) + seq![s[i]]);
    Seq::<A>::filter_distributes_over_add(s.take(i), seq![s[i]], pred);
    reveal_with_fuel(Seq::filter, 2);
    if pred(s[i]) {
        assert(seq![s[i]].filter(pred) =~= seq![s[i]]);
        assert(s.take(i).filter(pred) + seq![s[i]] =~= s.take(i).filter(pred).push(s[i]));
    } else {
        assert(seq![s[i]].filter(pred) =~= Seq::<A>::empty());
        assert(s.take(i).filter(pred) + Seq::<A>::empty() =~= s.take(i).filter(pred));
    }
}

/// Keeps only the characters admitted by `keep_space` / `keep_vowel` rules.
fn filter_chars(v: &Vec<char>, drop_spaces: bool) -> (r: Vec<char>)
    ensures
        drop_spaces ==> r@ == v@.filter(|c: char| c != ' '),
        !drop_spaces ==> r@ == v@.filter(|c: char| !is_vowel_char(c)),
{
    let mut r: Vec<char> = Vec::new();
    let ghost pred: spec_fn(char) -> bool = if drop_spaces {
        |c: char| c != ' '
    } else {
        |c: char| !is_vowel_char(c)
    };
    let mut i: usize = 0;
    while i < v.len()
        invariant
            i <= v.len(),
            r@ == v@.take(i as int).filter(pred),
            pred == (if drop_spaces {
                |c: char| c != ' '
            } else {
                |c: char| !is_vowel_char(c)
            }),
        decreases v.len() - i,
    {
        let c = v[i];
        let keep = if drop_spaces {
            c != ' '
        } else {
            !(c == 'a' || c == 'e' || c == 'i' || c == 'o' || c == 'u'
                || c == 'A' || c == 'E' || c == 'I' || c == 'O' || c == 'U')
        };
        proof {
            lemma_filter_take_step(v@, pred, i as int);
        }
        if keep {
            r.push(c);
        }
        i = i + 1;
    }
    proof {
        assert(v@.take(v@.len() as int) =~= v@);
    }
    r
}

/// Collects the characters of a string into a vector.
pub fn str_chars(s: &str) -> (v: Vec<char>)
    ensures
        v@ == s@,
{
    let n = s.unicode_len();
    let mut v: Vec<char> = Vec::new();
    let mut i: usize = 0;
    while i < n
        invariant
            i <= n,
            n == s@.len(),
            v@ == s@.take(i as int),
        decreases n - i,
    {
        let c = s.get_char(i);
        v.push(c);
        proof {
            assert(v@ =~= s@.take(i + 1));
        }
        i = i + 1;
    }
    proof {
        assert(s@.take(n as int) =~= s@);
    }
    v
}

/// Relies on `String::from_iter` over `char`: collecting characters in
/// order yields the string of exactly those characters.
#[verifier::external_body]
pub fn string_from_chars(v: &Vec<char>) -> (r: String)
    ensures
        r@ == v@,
{
    v.iter().collect()
}

/// No character of the vector is an ASCII lower-case letter.
fn is_all_upper_chars(v: &Vec<char>) -> (r: bool)
    ensures
        r == all_upper_chars(v@),
{
    let mut i: usize = 0;
    while i < v.len()
        invariant
            i <= v.len(),
            all_upper_chars(v@.take(i as int)),
        decreases v.len() - i,
    {
        let c = v[i];
        if 97 <= c as u32 && c as u32 <= 122 {
            proof {
                assert(v@[i as int] == c);
            }
            return false;
        }
        proof {
            assert(forall|j: int|
                0 <= j < i + 1 ==> !is_lower_char(#[trigger] v@.take(i + 1)[j]));
        }
        i = i + 1;
    }
    proof {
        assert(v@.take(v@.len() as int) =~= v@);
    }
    true
}

/// Shortens `input` to at most `len` characters: text that fits is kept,
/// all-uppercase text is truncated, and otherwise spaces are removed,
/// then vowels, and the remainder is truncated.
pub fn process_string(input: &str, len: usize) -> (r: String)
    ensures
        r@ == process_spec(input@, len as nat),
        r@.len() <= len,
{
    let mut v = str_chars(input);
    if v.len() > len {
        if is_all_upper_chars(&v) {
            v.truncate(len);
        } else {
            v = filter_chars(&v, true);
            if v.len() > len {
                v = filter_chars(&v, false);
            }
            if v.len() > len {
                v.truncate(len);
            }
        }
    }
    string_from_chars(&v)
}

/// The abbreviation rule is idempotent: shortening an already shortened
/// text changes nothing, since the result always fits the width.
pub proof fn lemma_process_idempotent(s: Seq<char>, n: nat)
    ensures
        process_spec(process_spec(s, n), n) == process_spec(s, n),
{
}

/// ASCII lower-case letter.
pub open spec fn is_lower_ascii(b: u8) -> bool {
    97 <= b <= 122
}

/// ASCII vowel byte, upper or lower case.
pub open spec fn is_vowel_byte(b: u8) -> bool {
    b == 97 || b == 101 || b == 105 || b == 111 || b == 117 || b == 65 || b == 69 || b == 73 || b
        == 79 || b == 85
}

/// No ASCII lower-case letter occurs: the text counts as all-uppercase.
pub open spec fn all_upper_bytes(s: Seq<u8>) -> bool {
    forall|i: int| 0 <= i < s.len() ==> !is_lower_ascii(#[trigger] s[i])
}

/// The abbreviation of a byte text to at most `n` bytes: text that fits is
/// kept whole; all-uppercase text is truncated; otherwise spaces are
/// removed, then vowels if still too long, then the rest is truncated.
pub open spec fn abbreviate_bytes(s: Seq<u8>, n: nat) -> Seq<u8> {
    if s.len() <= n {
        s
    } else if all_upper_bytes(s) {
        s.take(n as int)
    } else {
        let no_spaces = s.filter(|b: u8| b != 32);
        let no_vowels = if no_spaces.len() > n {
            no_spaces.filter(|b: u8| !is_vowel_byte(b))
        } else {
            no_spaces
        };
        if no_vowels.len() > n {
            no_vowels.take(n as int)
        } else {
            no_vowels
        }
    }
}

/// A run of `k` ASCII spaces.
pub open spec fn spaces(k: nat) -> Seq<u8> {
    Seq::new(k, |i: int| 32u8)
}

/// The abbreviation padded with spaces to exactly `n` bytes.
pub open spec fn pack_bytes_spec(s: Seq<u8>, n: nat) -> Seq<u8> {
    abbreviate_bytes(s, n) + spaces((n - abbreviate_bytes(s, n).len()) as nat)
}

/// Keeps only the bytes admitted by the space or vowel rule.
fn filter_bytes(v: &Vec<u8>, drop_spaces: bool) -> (r: Vec<u8>)
    ensures
        drop_spaces ==> r@ == v@.filter(|b: u8| b != 32),
        !drop_spaces ==> r@ == v@.filter(|b: u8| !is_vowel_byte(b)),
{
    let mut r: Vec<u8> = Vec::new();
    let ghost pred: spec_fn(u8) -> bool = if drop_spaces {
        |b: u8| b != 32
    } else {
        |b: u8| !is_vowel_byte(b)
    };
    let mut i: usize = 0;
    while i < v.len()
        invariant
            i <= v.len(),
            r@ == v@.take(i as int).filter(pred),
            pred == (if drop_spaces {
                |b: u8| b != 32
            } else {
                |b: u8| !is_vowel_byte(b)
            }),
        decreases v.len() - i,
    {
        let b = v[i];
        let keep = if drop_spaces {
            b != 32
        } else {
            !(b == 97 || b == 101 || b == 105 || b == 111 || b == 117 || b == 65 || b == 69 || b
                == 73 || b == 79 || b == 85)
        };
        proof {
            lemma_filter_take_step(v@, pred, i as int);
        }
        if keep {
            r.push(b);
        }
        i = i + 1;
    }
    proof {
        assert(v@.take(v@.len() as int) =~= v@);
    }
    r
}

/// No byte of the vector is an ASCII lower-case letter.
fn is_all_upper(v: &Vec<u8>) -> (r: bool)
    ensures
        r == all_upper_bytes(v@),
{
    let mut i: usize = 0;
    while i < v.len()
        invariant
            i <= v.len(),
            all_upper_bytes(v@.take(i as int)),
        decreases v.len() - i,
    {
        let b = v[i];
        if 97 <= b && b <= 122 {
            proof {
                assert(v@[i as int] == b);
            }
            return false;
        }
        proof {
            assert(forall|j: int|
                0 <= j < i + 1 ==> !is_lower_ascii(#[trigger] v@.take(i + 1)[j]));
        }
        i = i + 1;
    }
    proof {
        assert(v@.take(v@.len() as int) =~= v@);
    }
    true
}

/// Packs a string into a fixed byte array of `width` bytes: the text is
/// abbreviated by the rule above (kept whole when it fits, truncated when
/// all-uppercase, else spaces then vowels removed then truncated) and
/// space-padded on the right.
pub fn pack_string(input: &str, width: usize) -> (r: Vec<u8>)
    ensures
        r@ == pack_bytes_spec(input.spec_bytes(), width as nat),
        r@.len() == width,
{
    let mut v = input.as_bytes_vec();
    if v.len() > width {
        if is_all_upper(&v) {
            v.truncate(width);
        } else {
            v = filter_bytes(&v, true);
            if v.len() > width {
                v = filter_bytes(&v, false);
            }
            if v.len() > width {
                v.truncate(width);
            }
        }
    }
    proof {
        assert(v@ == abbreviate_bytes(input.spec_bytes(), width as nat));
    }
    let mut k: usize = v.len();
    while k < width
        invariant
            v@.len() == k,
            k <= width || v@.len() == abbreviate_bytes(input.spec_bytes(), width as nat).len(),
            v@ == abbreviate_bytes(input.spec_bytes(), width as nat) + spaces(
                (k - abbreviate_bytes(input.spec_bytes(), width as nat).len()) as nat,
            ),
        decreases width - k,
    {
        v.push(32u8);
        proof {
            assert(v@ =~= abbreviate_bytes(input.spec_bytes(), width as nat) + spaces(
                (k + 1 - abbreviate_bytes(input.spec_bytes(), width as nat).len()) as nat,
            ));
        }
        k = k + 1;
    }
    proof {
        assert(v@ =~= pack_bytes_spec(input.spec_bytes(), width as nat));
    }
    v
}

/// The text without its trailing spaces.
pub open spec fn trim_spaces(s: Seq<u8>) -> Seq<u8>
    decreases s.len(),
{
    if s.len() > 0 && s.last() == 32 {
        trim_spaces(s.drop_last())
    } else {
        s
    }
}

/// Removes trailing spaces.
pub fn trim_trailing_spaces(v: &Vec<u8>) -> (r: Vec<u8>)
    ensures
        r@ == trim_spaces(v@),
{
    let mut end: usize = v.len();
    proof {
        assert(v@.take(v@.len() as int) =~= v@);
    }
    while end > 0 && v[end - 1] == 32u8
        invariant
            end <= v.len(),
            trim_spaces(v@) == trim_spaces(v@.take(end as int)),
        decreases end,
    {
        proof {
            assert(v@.take(end as int).drop_last() =~= v@.take(end - 1));
        }
        end = end - 1;
    }
    let mut r: Vec<u8> = Vec::new();
    let mut i: usize = 0;
    while i < end
        invariant
            i <= end <= v.len(),
            trim_spaces(v@) == v@.take(end as int),
            r@ == v@.take(i as int),
        decreases end - i,
    {
        r.push(v[i]);
        proof {
            assert(r@ =~= v@.take(i + 1));
        }
        i = i + 1;
    }
    proof {
        if end > 0 {
            assert(trim_spaces(v@.take(end as int)) == v@.take(end as int));
        } else {
            assert(v@.take(0) =~= Seq::<u8>::empty());
        }
    }
    r
}

/// Trimming removes appended spaces.
proof fn lemma_trim_appended_spaces(s: Seq<u8>, k: nat)
    ensures
        trim_spaces(s + spaces(k)) == trim_spaces(s),
    decreases k,
{
    if k == 0 {
        assert(s + spaces(0) =~= s);
    } else {
        assert((s + spaces(k)).last() == 32);
        assert((s + spaces(k)).drop_last() =~= s + spaces((k - 1) as nat));
        lemma_trim_appended_spaces(s, (k - 1) as nat);
    }
}

/// A text is its trimmed form plus trailing spaces.
proof fn lemma_trim_decompose(s: Seq<u8>)
    ensures
        trim_spaces(s).len() <= s.len(),
        s == trim_spaces(s) + spaces((s.len() - trim_spaces(s).len()) as nat),
    decreases s.len(),
{
    if s.len() > 0 && s.last() == 32 {
        let sd = s.drop_last();
        lemma_trim_decompose(sd);
        assert(s =~= sd.push(32));
        assert(sd.push(32) =~= trim_spaces(sd) + spaces(
            (sd.len() - trim_spaces(sd).len() + 1) as nat,
        ));
    } else {
        assert(s =~= trim_spaces(s) + spaces(0));
    }
}

/// Packing, trimming the trailing pad, and packing again gives the same
/// bytes: a fixed-width field survives the serialize-then-deserialize
/// round trip unchanged.
pub proof fn lemma_pack_trim_round_trip(s: Seq<u8>, n: nat)
    ensures
        pack_bytes_spec(trim_spaces(pack_bytes_spec(s, n)), n) == pack_bytes_spec(s, n),
{
    let a = abbreviate_bytes(s, n);
    lemma_trim_appended_spaces(a, (n - a.len()) as nat);
    lemma_trim_decompose(a);
    let t = trim_spaces(a);
    assert(abbreviate_bytes(t, n) == t);
    assert(pack_bytes_spec(t, n) =~= a + spaces((n - a.len()) as nat));
}

/// Relies on `String::from_utf8`: succeeds exactly on valid UTF-8 and
/// returns the decoded characters.
#[verifier::external_body]
pub fn string_from_utf8(bytes: Vec<u8>) -> (r: Option<String>)
    ensures
        r is Some <==> vstd::utf8::valid_utf8(bytes@),
        r is Some ==> r->0@ == vstd::utf8::decode_utf8(bytes@),
{
    String::from_utf8(bytes).ok()
}

/// The text of a fixed-width field: empty when the field is all zero
/// bytes, else the bytes up to the trailing pad, decoded as UTF-8.
pub fn field_text(bytes: &Vec<u8>) -> (r: Option<String>)
    ensures
        (forall|i: int| 0 <= i < bytes@.len() ==> bytes@[i] == 0) ==> (r matches Some(t)
            && t@ == Seq::<char>::empty()),
        !(forall|i: int| 0 <= i < bytes@.len() ==> bytes@[i] == 0) ==> {
            &&& (r is Some <==> vstd::utf8::valid_utf8(trim_spaces(bytes@)))
            &&& (r matches Some(t) ==> t@ == vstd::utf8::decode_utf8(trim_spaces(bytes@)))
        },
{
    let mut all_zero = true;
    let mut i: usize = 0;
    while i < bytes.len()
        invariant
            i <= bytes@.len(),
            all_zero == (forall|j: int| 0 <= j < i ==> bytes@[j] == 0),
        decreases bytes@.len() - i,
    {
        if bytes[i] != 0u8 {
            all_zero = false;
        }
        i = i + 1;
    }
    if all_zero {
        Some(String::new())
    } else {
        string_from_utf8(trim_trailing_spaces(bytes))
    }
}

} // verus!

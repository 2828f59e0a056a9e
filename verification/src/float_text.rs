//! Recognition of floating-point literal text. Timestamps and scale
//! factors are carried through the library as text; this module decides,
//! without any floating-point arithmetic, whether such text is a valid
//! floating-point literal in the syntax of Rust's standard parser: an
//! optional sign, then `inf`, `infinity` or `nan` (case-insensitive), or a
//! decimal number `Digit+ | Digit+ '.' Digit* | Digit* '.' Digit+` with an
//! optional exponent `(e|E) Sign? Digit+`.
use vstd::prelude::*;

verus! {

use vstd::string::StringSliceAdditionalSpecFns;

/// ASCII decimal digit.
pub open spec fn is_digit(b: u8) -> bool {
    48 <= b <= 57
}

/// ASCII letter folded to lower case.
pub open spec fn lower_byte(b: u8) -> u8 {
    if 65 <= b <= 90 {
        (b + 32) as u8
    } else {
        b
    }
}

/// The text after an optional leading sign.
pub open spec fn strip_sign(s: Seq<u8>) -> Seq<u8> {
    if s.len() >= 1 && (s[0] == 43 || s[0] == 45) {
        s.skip(1)
    } else {
        s
    }
}

/// One of the special values `inf`, `infinity`, `nan`, compared after
/// case folding.
pub open spec fn is_special_float(s: Seq<u8>) -> bool {
    ||| s.map(|i: int, b: u8| lower_byte(b)) == seq![105u8, 110u8, 102u8]
    ||| s.map(|i: int, b: u8| lower_byte(b)) == seq![
        105u8,
        110u8,
        102u8,
        105u8,
        110u8,
        105u8,
        116u8,
        121u8,
    ]
    ||| s.map(|i: int, b: u8| lower_byte(b)) == seq![110u8, 97u8, 110u8]
}

/// States of the recognizer for the decimal number syntax.
#[derive(Clone, Copy, Debug, PartialEq, Eq, Structural)]
pub enum NumState {
    /// Nothing read yet.
    Start,
    /// Reading integer digits.
    Int,
    /// A leading dot with no integer digits; fraction digits must follow.
    LeadDot,
    /// A dot after integer digits; fraction digits may follow.
    DotAfterInt,
    /// Reading fraction digits.
    Frac,
    /// Just read the exponent marker.
    Exp,
    /// Just read the exponent sign.
    ExpSign,
    /// Reading exponent digits.
    ExpDigits,
    /// The text cannot be a number.
    Dead,
}

/// One step of the number recognizer.
pub open spec fn num_step(st: NumState, b: u8) -> NumState {
    match st {
        NumState::Start => if is_digit(b) {
            NumState::Int
        } else if b == 46 {
            NumState::LeadDot
        } else {
            NumState::Dead
        },
        NumState::Int => if is_digit(b) {
            NumState::Int
        } else if b == 46 {
            NumState::DotAfterInt
        } else if b == 101 || b == 69 {
            NumState::Exp
        } else {
            NumState::Dead
        },
        NumState::LeadDot => if is_digit(b) {
            NumState::Frac
        } else {
            NumState::Dead
        },
        NumState::DotAfterInt => if is_digit(b) {
            NumState::Frac
        } else if b == 101 || b == 69 {
            NumState::Exp
        } else {
            NumState::Dead
        },
        NumState::Frac => if is_digit(b) {
            NumState::Frac
        } else if b == 101 || b == 69 {
            NumState::Exp
        } else {
            NumState::Dead
        },
        NumState::Exp => if is_digit(b) {
            NumState::ExpDigits
        } else if b == 43 || b == 45 {
            NumState::ExpSign
        } else {
            NumState::Dead
        },
        NumState::ExpSign => if is_digit(b) {
            NumState::ExpDigits
        } else {
            NumState::Dead
        },
        NumState::ExpDigits => if is_digit(b) {
            NumState::ExpDigits
        } else {
            NumState::Dead
        },
        NumState::Dead => NumState::Dead,
    }
}

/// The state after reading the whole text.
pub open spec fn num_run(st: NumState, s: Seq<u8>) -> NumState
    decreases s.len(),
{
    if s.len() == 0 {
        st
    } else {
        num_run(num_step(st, s[0]), s.skip(1))
    }
}

/// The state accepts: a complete number has been read.
pub open spec fn num_accepting(st: NumState) -> bool {
    st == NumState::Int || st == NumState::DotAfterInt || st == NumState::Frac || st
        == NumState::ExpDigits
}

/// The text is a decimal number with optional fraction and exponent.
pub open spec fn is_number_text(s: Seq<u8>) -> bool {
    num_accepting(num_run(NumState::Start, s))
}

/// The text is a floating-point literal: an optional sign, then a special
/// value or a decimal number.
pub open spec fn is_float_text(s: Seq<u8>) -> bool {
    is_special_float(strip_sign(s)) || is_number_text(strip_sign(s))
}

proof fn lemma_num_run_snoc(st: NumState, s: Seq<u8>, b: u8)
    ensures
        num_run(st, s.push(b)) == num_step(num_run(st, s), b),
    decreases s.len(),
{
    if s.len() == 0 {
        reveal_with_fuel(num_run, 2);
        assert(s.push(b).skip(1) =~= Seq::<u8>::empty());
    } else {
        assert(s.push(b)[0] == s[0]);
        assert(s.push(b).skip(1) =~= s.skip(1).push(b));
        lemma_num_run_snoc(num_step(st, s[0]), s.skip(1), b);
    }
}

/// Decides whether the text is a floating-point literal, in the syntax
/// that Rust's standard parser documents.
pub fn is_float_literal(s: &str) -> (r: bool)
    ensures
        r == is_float_text(s.spec_bytes()),
{
    let bytes = s.as_bytes();
    let start: usize = if bytes.len() >= 1 && (bytes[0] == 43u8 || bytes[0] == 45u8) {
        1
    } else {
        0
    };
    let ghost body = strip_sign(s.spec_bytes());
    proof {
        assert(body =~= bytes@.skip(start as int));
    }
    if special_match(bytes, start) {
        return true;
    }
    let mut st = NumState::Start;
    let mut i: usize = start;
    while i < bytes.len()
        invariant
            start <= i <= bytes@.len(),
            body == bytes@.skip(start as int),
            st == num_run(NumState::Start, body.take(i - start)),
        decreases bytes@.len() - i,
    {
        let b = bytes[i];
        let digit = 48u8 <= b && b <= 57u8;
        let next = match st {
            NumState::Start => if digit {
                NumState::Int
            } else if b == 46u8 {
                NumState::LeadDot
            } else {
                NumState::Dead
            },
            NumState::Int => if digit {
                NumState::Int
            } else if b == 46u8 {
                NumState::DotAfterInt
            } else if b == 101u8 || b == 69u8 {
                NumState::Exp
            } else {
                NumState::Dead
            },
            NumState::LeadDot => if digit {
                NumState::Frac
            } else {
                NumState::Dead
            },
            NumState::DotAfterInt => if digit {
                NumState::Frac
            } else if b == 101u8 || b == 69u8 {
                NumState::Exp
            } else {
                NumState::Dead
            },
            NumState::Frac => if digit {
                NumState::Frac
            } else if b == 101u8 || b == 69u8 {
                NumState::Exp
            } else {
                NumState::Dead
            },
            NumState::Exp => if digit {
                NumState::ExpDigits
            } else if b == 43u8 || b == 45u8 {
                NumState::ExpSign
            } else {
                NumState::Dead
            },
            NumState::ExpSign => if digit {
                NumState::ExpDigits
            } else {
                NumState::Dead
            },
            NumState::ExpDigits => if digit {
                NumState::ExpDigits
            } else {
                NumState::Dead
            },
            NumState::Dead => NumState::Dead,
        };
        proof {
            assert(body[i - start] == b);
            assert(next == num_step(st, b));
            assert(body.take(i + 1 - start) =~= body.take(i - start).push(b));
            lemma_num_run_snoc(NumState::Start, body.take(i - start), b);
        }
        st = next;
        i = i + 1;
    }
    proof {
        assert(body.take(bytes@.len() - start) =~= body);
    }
    match st {
        NumState::Int => true,
        NumState::DotAfterInt => true,
        NumState::Frac => true,
        NumState::ExpDigits => true,
        _ => false,
    }
}

/// Compares the text from `start` on, case-folded, against the special
/// values `inf`, `infinity` and `nan`.
fn special_match(bytes: &[u8], start: usize) -> (r: bool)
    requires
        start <= bytes@.len(),
    ensures
        r == is_special_float(bytes@.skip(start as int)),
{
    let n = bytes.len() - start;
    let ghost body = bytes@.skip(start as int);
    let ghost folded = body.map(|i: int, b: u8| lower_byte(b));
    if n == 3 {
        let a = lower(bytes[start]);
        let b = lower(bytes[start + 1]);
        let c = lower(bytes[start + 2]);
        proof {
            assert(folded =~= seq![
                lower_byte(body[0]),
                lower_byte(body[1]),
                lower_byte(body[2]),
            ]);
        }
        (a == 105u8 && b == 110u8 && c == 102u8) || (a == 110u8 && b == 97u8 && c == 110u8)
    } else if n == 8 {
        let c0 = lower(bytes[start]);
        let c1 = lower(bytes[start + 1]);
        let c2 = lower(bytes[start + 2]);
        let c3 = lower(bytes[start + 3]);
        let c4 = lower(bytes[start + 4]);
        let c5 = lower(bytes[start + 5]);
        let c6 = lower(bytes[start + 6]);
        let c7 = lower(bytes[start + 7]);
        proof {
            assert(folded =~= seq![
                lower_byte(body[0]),
                lower_byte(body[1]),
                lower_byte(body[2]),
                lower_byte(body[3]),
                lower_byte(body[4]),
                lower_byte(body[5]),
                lower_byte(body[6]),
                lower_byte(body[7]),
            ]);
        }
        let ok = c0 == 105u8 && c1 == 110u8 && c2 == 102u8 && c3 == 105u8 && c4 == 110u8 && c5
            == 105u8 && c6 == 116u8 && c7 == 121u8;
        proof {
            if ok {
                assert(folded =~= seq![105u8, 110u8, 102u8, 105u8, 110u8, 105u8, 116u8, 121u8]);
            } else {
                assert(folded != seq![105u8, 110u8, 102u8, 105u8, 110u8, 105u8, 116u8, 121u8]);
            }
        }
        ok
    } else {
        proof {
            assert(folded.len() == body.len());
        }
        false
    }
}

/// Folds one ASCII letter to lower case.
fn lower(b: u8) -> (r: u8)
    ensures
        r == lower_byte(b),
{
    if 65 <= b && b <= 90 {
        b + 32
    } else {
        b
    }
}

} // verus!

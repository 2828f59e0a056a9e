//! The errors of the parser. Payloads carry rendered text so that the
//! library stays free of the outside error types that produce them.
use vstd::prelude::*;

verus! {

use crate::specification::SpecError;

/// The possible errors of parsing and serialization.
#[derive(Debug, Clone, PartialEq)]
pub enum CANParserError {
    /// A fatal error during parsing.
    ParserError(String),
    /// Recoverable per-line errors collected while parsing.
    ParserWarning(Vec<String>),
    /// An error during serialization.
    SerializationError(String),
    /// An error during input or output.
    IOError(String),
    /// An error while writing CSV.
    CsvError(String),
    /// An error from the relational sink.
    SqliteError(String),
    /// An invalid specification.
    SpecError(SpecError),
    /// An error while rendering JSON.
    JsonError(String),
    /// An error while finishing a CSV writer.
    WriterError(String),
    /// An invalid regular expression.
    RegexError(String),
}

/// The warning lines joined for display, one per line.
pub open spec fn joined_lines(v: Seq<Seq<char>>) -> Seq<char>
    decreases v.len(),
{
    if v.len() == 0 {
        Seq::empty()
    } else {
        joined_lines(v.drop_last()) + v.last() + "\n"@
    }
}

/// The error rendered as text.
pub open spec fn message_spec(e: CANParserError) -> Seq<char> {
    match e {
        CANParserError::ParserError(s) => "Parser Error: "@ + s@,
        CANParserError::ParserWarning(v) => "Parser Warning:\n"@ + joined_lines(
            v@.map(|i: int, s: String| s@),
        ),
        CANParserError::SerializationError(s) => "Serialization Error: "@ + s@,
        CANParserError::IOError(s) => "IO Error: "@ + s@,
        CANParserError::CsvError(s) => "CSV Error: "@ + s@,
        CANParserError::SqliteError(s) => "SQLite Error: "@ + s@,
        CANParserError::SpecError(s) => "Specification Error: SpecError: "@ + s.0@,
        CANParserError::JsonError(s) => "JSON Error: "@ + s@,
        CANParserError::WriterError(s) => "Writer Error: "@ + s@,
        CANParserError::RegexError(s) => "Regex Error: "@ + s@,
    }
}

impl CANParserError {
    /// Renders the error as text: a tag naming the kind, then the payload;
    /// a warning lists its lines one per line.
    pub fn message(&self) -> (r: String)
        ensures
            r@ == message_spec(*self),
    {
        match self {
            CANParserError::ParserError(s) => prefixed("Parser Error: ", s),
            CANParserError::ParserWarning(v) => {
                let mut m: String = "Parser Warning:\n".to_owned();
                let mut i: usize = 0;
                while i < v.len()
                    invariant
                        i <= v@.len(),
                        m@ == "Parser Warning:\n"@ + joined_lines(
                            v@.map(|t: int, s: String| s@).take(i as int),
                        ),
                    decreases v@.len() - i,
                {
                    m.append(v[i].as_str());
                    m.append("\n");
                    proof {
                        let mapped = v@.map(|t: int, s: String| s@);
                        assert(mapped.take(i + 1).drop_last() =~= mapped.take(i as int));
                        assert(mapped.take(i + 1).last() == v@[i as int]@);
                    }
                    i = i + 1;
                }
                proof {
                    let mapped = v@.map(|t: int, s: String| s@);
                    assert(mapped.take(v@.len() as int) =~= mapped);
                }
                m
            },
            CANParserError::SerializationError(s) => prefixed("Serialization Error: ", s),
            CANParserError::IOError(s) => prefixed("IO Error: ", s),
            CANParserError::CsvError(s) => prefixed("CSV Error: ", s),
            CANParserError::SqliteError(s) => prefixed("SQLite Error: ", s),
            CANParserError::SpecError(s) => {
                let mut m: String = "Specification Error: SpecError: ".to_owned();
                m.append(s.0.as_str());
                m
            },
            CANParserError::JsonError(s) => prefixed("JSON Error: ", s),
            CANParserError::WriterError(s) => prefixed("Writer Error: ", s),
            CANParserError::RegexError(s) => prefixed("Regex Error: ", s),
        }
    }
}

/// `prefix` followed by `s`.
fn prefixed(prefix: &str, s: &String) -> (r: String)
    ensures
        r@ == prefix@ + s@,
{
    let mut m: String = prefix.to_owned();
    m.append(s.as_str());
    m
}

} // verus!

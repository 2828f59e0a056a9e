//! Combination of the per-table CSV outputs into one text.
use vstd::prelude::*;

verus! {

use crate::error::CANParserError;
use crate::utils::string_from_utf8;

/// The combined text: for each `(name, bytes)` entry in order, the name,
/// a colon and a line break, the decoded bytes, and a line break.
pub open spec fn combined_csv(entries: Seq<(Seq<char>, Seq<u8>)>) -> Seq<char>
    decreases entries.len(),
{
    if entries.len() == 0 {
        Seq::empty()
    } else {
        combined_csv(entries.drop_last()) + entries.last().0 + ":\n"@ + vstd::utf8::decode_utf8(
            entries.last().1,
        ) + "\n"@
    }
}

/// Every byte block decodes as UTF-8.
pub open spec fn all_utf8(entries: Seq<(Seq<char>, Seq<u8>)>) -> bool {
    forall|i: int| 0 <= i < entries.len() ==> vstd::utf8::valid_utf8((#[trigger] entries[i]).1)
}

/// The entries of the collection, as sequences.
pub open spec fn entries_view(v: Seq<(String, Vec<u8>)>) -> Seq<(Seq<char>, Seq<u8>)> {
    v.map(|i: int, e: (String, Vec<u8>)| (e.0@, e.1@))
}

/// Joins named CSV byte blocks into a single text: each block under a
/// `name:` heading, separated by line breaks. Fails on a block that is
/// not UTF-8.
pub fn combine_csv_strings(csv_collection: Vec<(String, Vec<u8>)>) -> (r: Result<
    String,
    CANParserError,
>)
    ensures
        r is Ok <==> all_utf8(entries_view(csv_collection@)),
        r matches Ok(s) ==> s@ == combined_csv(entries_view(csv_collection@)),
        r is Err ==> r->Err_0 is ParserError,
{
    let ghost entries = entries_view(csv_collection@);
    let mut csv_string = String::new();
    let mut i: usize = 0;
    while i < csv_collection.len()
        invariant
            i <= csv_collection@.len(),
            entries == entries_view(csv_collection@),
            csv_string@ == combined_csv(entries.take(i as int)),
            all_utf8(entries.take(i as int)),
        decreases csv_collection@.len() - i,
    {
        let mut block: Vec<u8> = Vec::new();
        let mut b: usize = 0;
        while b < csv_collection[i].1.len()
            invariant
                i < csv_collection@.len(),
                b <= csv_collection@[i as int].1@.len(),
                block@ == csv_collection@[i as int].1@.take(b as int),
            decreases csv_collection@[i as int].1@.len() - b,
        {
            block.push(csv_collection[i].1[b]);
            proof {
                assert(block@ =~= csv_collection@[i as int].1@.take(b + 1));
            }
            b = b + 1;
        }
        proof {
            assert(csv_collection@[i as int].1@.take(csv_collection@[i as int].1@.len() as int)
                =~= csv_collection@[i as int].1@);
        }
        let decoded = match string_from_utf8(block) {
            Some(s) => s,
            None => {
                proof {
                    assert(!vstd::utf8::valid_utf8(entries[i as int].1));
                    assert(!all_utf8(entries));
                }
                let mut m: String = "Failed to convert to string: ".to_owned();
                m.append(csv_collection[i].0.as_str());
                return Err(CANParserError::ParserError(m));
            },
        };
        csv_string.append(csv_collection[i].0.as_str());
        csv_string.append(":\n");
        csv_string.append(decoded.as_str());
        csv_string.append("\n");
        proof {
            assert(entries.take(i + 1).drop_last() =~= entries.take(i as int));
            assert(entries.take(i + 1).last() == entries[i as int]);
            assert(all_utf8(entries.take(i + 1)));
        }
        i = i + 1;
    }
    proof {
        assert(entries.take(csv_collection@.len() as int) =~= entries);
    }
    Ok(csv_string)
}

} // verus!

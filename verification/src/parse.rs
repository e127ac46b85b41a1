//! Whole-buffer parsing: tokenize a text and hand back the header (when
//! requested) and the data rows.

use vstd::prelude::*;
use crate::text::str_chars;
use crate::tokenizer::{scan_chars, tokenize};

verus! {

/// One logical row: an ordered sequence of field strings.
pub struct Row {
    pub data: Vec<String>,
}

/// The outcome of a whole-buffer parse: the header row, when header mode was
/// on and a first row existed, and the remaining rows.
pub struct ParsedResult {
    pub headers: Option<Vec<String>>,
    pub rows: Vec<Vec<String>>,
}

/// The header a parse returns: the first tokenized row, if header mode is on
/// and the buffer holds at least one row; absent otherwise.
pub open spec fn spec_parse_headers(s: Seq<char>, header: bool, d: char) -> Option<Seq<Seq<char>>> {
    if header && tokenize(s, d).len() > 0 {
        Some(tokenize(s, d)[0])
    } else {
        None
    }
}

/// The data rows a parse returns: all tokenized rows, minus the first one when
/// it was consumed as the header.
pub open spec fn spec_parse_rows(s: Seq<char>, header: bool, d: char) -> Seq<Seq<Seq<char>>> {
    if header && tokenize(s, d).len() > 0 {
        tokenize(s, d).skip(1)
    } else if header {
        Seq::empty()
    } else {
        tokenize(s, d)
    }
}

/// Parses a whole text buffer with the given header mode and delimiter.
///
/// Every tokenized row is returned; with header mode on, the first row (when
/// there is one) becomes the header instead of a data row, and an empty
/// buffer yields no header rather than an error.
pub fn parse_csv(input: &str, header: bool, delimiter: char) -> (r: ParsedResult)
    ensures
        r.headers.deep_view() == spec_parse_headers(input@, header, delimiter),
        r.rows.deep_view() == spec_parse_rows(input@, header, delimiter),
{
    let chars = str_chars(input);
    let (mut rows, _consumed) = scan_chars(&chars, delimiter, true);
    let ghost all = tokenize(input@, delimiter);
    let mut headers: Option<Vec<String>> = None;
    if header && rows.len() > 0 {
        let ghost rows_before = rows;
        let h = rows.remove(0);
        proof {
            assert(h.deep_view() == all[0]);
            assert(rows.deep_view() =~= all.skip(1));
        }
        headers = Some(h);
    } else {
        proof {
            if header {
                assert(rows.deep_view() =~= Seq::<Seq<Seq<char>>>::empty());
            }
        }
    }
    ParsedResult { headers, rows }
}

/// With header mode on and at least one tokenized row, the header is exactly
/// that row and the data rows are exactly the remaining rows, in order.
pub proof fn lemma_parse_header_mode(s: Seq<char>, d: char)
    requires
        tokenize(s, d).len() > 0,
    ensures
        spec_parse_headers(s, true, d) == Some(tokenize(s, d)[0]),
        spec_parse_rows(s, true, d) == tokenize(s, d).skip(1),
        spec_parse_rows(s, true, d).len() == tokenize(s, d).len() - 1,
{
}

/// With header mode off, no header is returned and every tokenized row
/// becomes one output row, with exactly the fields tokenization produced.
pub proof fn lemma_parse_no_header(s: Seq<char>, d: char)
    ensures
        spec_parse_headers(s, false, d) is None,
        spec_parse_rows(s, false, d) == tokenize(s, d),
{
}

} // verus!

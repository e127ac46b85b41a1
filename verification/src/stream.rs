//! The chunk-fed streaming session. Input arrives in arbitrarily sized
//! pieces; a record split across pieces is held back until its terminator
//! arrives, consumed input is dropped from the buffer, and no record is ever
//! emitted twice or lost.

use vstd::prelude::*;
use crate::text::{str_chars, vec_suffix, lemma_deep_view_empty};
use crate::tokenizer::{
    scan_chars, tok_clean, tok_run, tokenize, lemma_clean_restart, lemma_rows_monotone,
};
use crate::parse::spec_parse_rows;

verus! {

/// The rows completed (terminated) within the input fed so far.
pub open spec fn stream_rows(s: Seq<char>, d: char) -> Seq<Seq<Seq<char>>> {
    tok_run(s, d).rows
}

/// The data rows a session has emitted after feeding `s`: the completed rows,
/// minus the first one when header mode consumes it as the header.
pub open spec fn stream_emitted(s: Seq<char>, d: char, header: bool) -> Seq<Seq<Seq<char>>> {
    if header {
        if stream_rows(s, d).len() > 0 {
            stream_rows(s, d).skip(1)
        } else {
            Seq::empty()
        }
    } else {
        stream_rows(s, d)
    }
}

/// What closing the session returns after feeding `s`: the data rows of the
/// full parse that feeding alone had not yet emitted - the final unterminated
/// record, if any.
pub open spec fn stream_close_rows(s: Seq<char>, d: char, header: bool) -> Seq<Seq<Seq<char>>> {
    spec_parse_rows(s, header, d).skip(stream_emitted(s, d, header).len() as int)
}

/// A streaming parse session: configuration, the header once seen, the bytes
/// not yet consumed by completed records, and (for specification only) the
/// whole input fed so far.
pub struct StreamingParser {
    buf: Vec<char>,
    header_mode: bool,
    delimiter: char,
    headers: Option<Vec<String>>,
    fed: Ghost<Seq<char>>,
}

impl StreamingParser {
    /// Everything fed to the session since it was opened (or last closed).
    pub closed spec fn fed_input(self) -> Seq<char> {
        self.fed@
    }

    /// Whether the session consumes a header row.
    pub closed spec fn header_mode(self) -> bool {
        self.header_mode
    }

    /// The field delimiter the session was opened with.
    pub closed spec fn delimiter(self) -> char {
        self.delimiter
    }

    /// The session invariant: the buffer is the tail of the fed input past a
    /// clean cut, every completed row before the cut has been handed out, and
    /// the header has been taken exactly when one complete row has been seen.
    pub closed spec fn wf(self) -> bool {
        let cut = self.fed@.len() - self.buf@.len();
        &&& self.buf@.len() <= self.fed@.len()
        &&& self.buf@ == self.fed@.skip(cut)
        &&& tok_clean(tok_run(self.fed@.take(cut), self.delimiter))
        &&& tok_run(self.buf@, self.delimiter).rows == Seq::<Seq<Seq<char>>>::empty()
        &&& match self.headers {
            None => !(self.header_mode && stream_rows(self.fed@, self.delimiter).len() > 0),
            Some(h) => self.header_mode && stream_rows(self.fed@, self.delimiter).len() > 0
                && h.deep_view() == stream_rows(self.fed@, self.delimiter)[0],
        }
    }

    /// Opens a fresh session with the given header mode and delimiter.
    pub fn new(header: bool, delimiter: char) -> (p: StreamingParser)
        ensures
            p.wf(),
            p.fed_input() == Seq::<char>::empty(),
            p.header_mode() == header,
            p.delimiter() == delimiter,
    {
        let p = StreamingParser {
            buf: Vec::new(),
            header_mode: header,
            delimiter,
            headers: None,
            fed: Ghost(Seq::empty()),
        };
        proof {
            assert(p.fed@.take(0) =~= Seq::<char>::empty());
            assert(p.buf@ =~= p.fed@.skip(0));
        }
        p
    }

    /// Feeds one chunk and returns the data rows newly completed by it.
    ///
    /// Only records terminated within the buffered input are returned: a
    /// trailing record with no terminator yet stays pending. With header mode
    /// on, the first completed row ever seen becomes the header and is not
    /// returned. Consumed input is dropped from the buffer.
    pub fn push_chunk(&mut self, chunk: &str) -> (out: Vec<Vec<String>>)
        requires
            old(self).wf(),
        ensures
            final(self).wf(),
            final(self).header_mode() == old(self).header_mode(),
            final(self).delimiter() == old(self).delimiter(),
            final(self).fed_input() == old(self).fed_input() + chunk@,
            out.deep_view() == stream_emitted(
                old(self).fed_input() + chunk@,
                old(self).delimiter(),
                old(self).header_mode(),
            ).skip(
                stream_emitted(
                    old(self).fed_input(),
                    old(self).delimiter(),
                    old(self).header_mode(),
                ).len() as int,
            ),
    {
        let d = self.delimiter;
        let ghost fed0 = self.fed@;
        let ghost buf0 = self.buf@;
        let ghost prefix = fed0.take(fed0.len() - buf0.len());
        let mut add = str_chars(chunk);
        self.buf.append(&mut add);
        self.fed = Ghost(fed0 + chunk@);
        let ghost fed1 = self.fed@;
        proof {
            assert(self.buf@ == buf0 + chunk@);
            assert(prefix + buf0 =~= fed0);
            lemma_clean_restart(prefix, buf0, d);
            assert(prefix + self.buf@ =~= fed1);
            lemma_clean_restart(prefix, self.buf@, d);
        }
        let (mut rows, consumed) = scan_chars(&self.buf, d, false);
        let rest = vec_suffix(&self.buf, consumed);
        let ghost scanned = self.buf@;
        self.buf = rest;
        proof {
            // The new cut is clean, and the kept tail holds no completed rows.
            assert(prefix + scanned.take(consumed as int) =~= fed1.take(
                prefix.len() + consumed,
            ));
            lemma_clean_restart(prefix, scanned.take(consumed as int), d);
            assert(fed1.take(prefix.len() + consumed).len() == fed1.len() - self.buf@.len());
            assert(self.buf@ =~= fed1.skip(fed1.len() - self.buf@.len()));
            lemma_clean_restart(scanned.take(consumed as int), scanned.skip(consumed as int), d);
            assert(scanned.take(consumed as int) + scanned.skip(consumed as int) =~= scanned);
            assert(tok_run(scanned, d).rows == tok_run(scanned.take(consumed as int), d).rows
                + tok_run(scanned.skip(consumed as int), d).rows);
            assert(tok_run(self.buf@, d).rows =~= Seq::<Seq<Seq<char>>>::empty());
            // All completed rows of the fed input, old and new.
            assert(stream_rows(fed1, d) =~= tok_run(prefix, d).rows + tok_run(scanned, d).rows);
            assert(stream_rows(fed0, d) =~= tok_run(prefix, d).rows);
            assert(rows.deep_view() == tok_run(scanned, d).rows);
            assert(stream_rows(fed1, d).skip(stream_rows(fed0, d).len() as int) =~= tok_run(
                scanned,
                d,
            ).rows);
        }
        if self.header_mode {
            let take_header = self.headers.is_none();
            if take_header {
                if rows.len() > 0 {
                    let h = rows.remove(0);
                    proof {
                        assert(stream_rows(fed0, d).len() == 0);
                        assert(h.deep_view() == stream_rows(fed1, d)[0]);
                        assert(rows.deep_view() =~= stream_rows(fed1, d).skip(1));
                        assert(stream_emitted(fed0, d, true) =~= Seq::<Seq<Seq<char>>>::empty());
                    }
                    self.headers = Some(h);
                } else {
                    proof {
                        assert(stream_rows(fed1, d) =~= stream_rows(fed0, d));
                        lemma_deep_view_empty(rows);
                        if stream_rows(fed0, d).len() > 0 {
                            assert(stream_emitted(fed1, d, true).skip(
                                stream_emitted(fed0, d, true).len() as int,
                            ) =~= Seq::<Seq<Seq<char>>>::empty());
                        } else {
                            assert(stream_emitted(fed1, d, true).skip(
                                stream_emitted(fed0, d, true).len() as int,
                            ) =~= Seq::<Seq<Seq<char>>>::empty());
                        }
                    }
                }
            } else {
                proof {
                    assert(stream_rows(fed0, d).len() > 0);
                    assert(stream_rows(fed1, d)[0] == stream_rows(fed0, d)[0]) by {
                        lemma_rows_monotone(fed0, chunk@, d);
                        assert(fed0 + chunk@ =~= fed1);
                    };
                    assert(stream_emitted(fed1, d, true).skip(
                        stream_emitted(fed0, d, true).len() as int,
                    ) =~= tok_run(scanned, d).rows);
                }
            }
        }
        rows
    }

    /// Closes the stream: flushes the final pending record, if any, as a
    /// best-effort row, and releases all buffered state, leaving the session
    /// as a fresh one.
    pub fn finish(&mut self) -> (out: Vec<Vec<String>>)
        requires
            old(self).wf(),
        ensures
            final(self).wf(),
            final(self).header_mode() == old(self).header_mode(),
            final(self).delimiter() == old(self).delimiter(),
            final(self).fed_input() == Seq::<char>::empty(),
            out.deep_view() == stream_close_rows(
                old(self).fed_input(),
                old(self).delimiter(),
                old(self).header_mode(),
            ),
    {
        let d = self.delimiter;
        let ghost fed0 = self.fed@;
        let ghost prefix = fed0.take(fed0.len() - self.buf@.len());
        let (rows, _consumed) = scan_chars(&self.buf, d, true);
        let ghost scanned = self.buf@;
        proof {
            assert(prefix + scanned =~= fed0);
            lemma_clean_restart(prefix, scanned, d);
            // The pending tail of the whole fed input is that of the buffer.
            assert(tokenize(fed0, d) =~= tok_run(prefix, d).rows + tokenize(scanned, d));
            assert(stream_rows(fed0, d) =~= tok_run(prefix, d).rows);
            assert(rows.deep_view() == tokenize(scanned, d));
        }
        let keep_back = self.header_mode && self.headers.is_none();
        self.buf = Vec::new();
        self.headers = None;
        self.fed = Ghost(Seq::empty());
        proof {
            assert(self.fed@.take(0) =~= Seq::<char>::empty());
            assert(self.buf@ =~= self.fed@.skip(0));
            assert(tokenize(scanned, d).len() <= 1);
        }
        if keep_back {
            proof {
                assert(stream_rows(fed0, d).len() == 0);
                if tokenize(fed0, d).len() > 0 {
                    assert(spec_parse_rows(fed0, true, d) =~= tokenize(fed0, d).skip(1));
                    assert(tokenize(fed0, d).len() == 1);
                    assert(stream_close_rows(fed0, d, true) =~= Seq::<Seq<Seq<char>>>::empty());
                } else {
                    assert(stream_close_rows(fed0, d, true) =~= Seq::<Seq<Seq<char>>>::empty());
                }
            }
            let empty_out: Vec<Vec<String>> = Vec::new();
            proof {
                lemma_deep_view_empty(empty_out);
            }
            empty_out
        } else {
            proof {
                if self.header_mode {
                    assert(stream_rows(fed0, d).len() > 0);
                    assert(tokenize(fed0, d).len() > 0);
                    assert(stream_close_rows(fed0, d, true) =~= tokenize(scanned, d));
                } else {
                    assert(stream_close_rows(fed0, d, false) =~= tokenize(scanned, d));
                }
            }
            rows
        }
    }
}

/// Streaming equivalence: feeding the whole input and then closing yields, in
/// order, exactly the rows of the one-shot parse with the same header mode
/// and delimiter.
pub proof fn lemma_stream_matches_parse(s: Seq<char>, d: char, header: bool)
    ensures
        stream_emitted(s, d, header) + stream_close_rows(s, d, header) == spec_parse_rows(
            s,
            header,
            d,
        ),
{
    let rows = stream_rows(s, d);
    let all = tokenize(s, d);
    assert(all.take(rows.len() as int) =~= rows);
    if header {
        if rows.len() > 0 {
            assert(stream_emitted(s, d, header) + stream_close_rows(s, d, header) =~= all.skip(1));
        } else {
            assert(stream_emitted(s, d, header) + stream_close_rows(s, d, header) =~= spec_parse_rows(
                s,
                header,
                d,
            ));
        }
    } else {
        assert(stream_emitted(s, d, header) + stream_close_rows(s, d, header) =~= all);
    }
}

/// Chunk-split invariance: splitting the input anywhere into two feeds emits,
/// across both feeds and the close, the same rows in the same order as one
/// feed of the whole input - which in turn match the one-shot parse.
pub proof fn lemma_stream_split(a: Seq<char>, b: Seq<char>, d: char, header: bool)
    ensures
        stream_emitted(a, d, header) + stream_emitted(a + b, d, header).skip(
            stream_emitted(a, d, header).len() as int,
        ) == stream_emitted(a + b, d, header),
        stream_emitted(a, d, header) + stream_emitted(a + b, d, header).skip(
            stream_emitted(a, d, header).len() as int,
        ) + stream_close_rows(a + b, d, header) == spec_parse_rows(a + b, header, d),
{
    lemma_rows_monotone(a, b, d);
    let ra = stream_rows(a, d);
    let rab = stream_rows(a + b, d);
    assert(rab.take(ra.len() as int) == ra);
    if header {
        if ra.len() > 0 {
            assert(stream_emitted(a, d, header) + stream_emitted(a + b, d, header).skip(
                stream_emitted(a, d, header).len() as int,
            ) =~= stream_emitted(a + b, d, header));
        } else {
            assert(stream_emitted(a, d, header) + stream_emitted(a + b, d, header).skip(
                stream_emitted(a, d, header).len() as int,
            ) =~= stream_emitted(a + b, d, header));
        }
    } else {
        assert(stream_emitted(a, d, header) + stream_emitted(a + b, d, header).skip(
            stream_emitted(a, d, header).len() as int,
        ) =~= stream_emitted(a + b, d, header));
    }
    lemma_stream_matches_parse(a + b, d, header);
}

} // verus!

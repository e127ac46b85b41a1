//! The delimited-text tokenizer: a character-level state machine that splits
//! input into rows of fields, honouring a configurable delimiter, quoted
//! fields with doubled-quote escaping, and LF / CR / CRLF row terminators.
//!
//! The machine is specified as a step function over an abstract scanner state
//! (`tok_step` / `tok_run`); the executable scanner mirrors it and is proved
//! to compute exactly the rows of the specification.

use vstd::prelude::*;
use crate::text::{chars_to_string, lemma_deep_view_push, lemma_deep_view_empty};

verus! {

/// Where the scanner stands inside the current record.
#[derive(Clone, Copy, PartialEq, Eq, Structural)]
pub enum ScanMode {
    /// At the start of a field: a quote here opens a quoted field.
    FieldStart,
    /// Inside an unquoted field.
    Unquoted,
    /// Inside a quoted field.
    Quoted,
    /// Just after a quote inside a quoted field: a second quote is an escaped
    /// literal quote, anything else closes the quoted part.
    QuoteClose,
}

/// The abstract scanner state: completed rows, the fields and characters of
/// the record in progress, and whether the current record has seen any input.
pub struct TokState {
    pub rows: Seq<Seq<Seq<char>>>,
    pub cur_row: Seq<Seq<char>>,
    pub cur_field: Seq<char>,
    pub mode: ScanMode,
    pub row_started: bool,
}

/// The quote character. Fields wrapped in it may contain the delimiter and row
/// terminators literally; an embedded quote is escaped by doubling it.
pub open spec fn quote_char() -> char {
    '"'
}

/// Row terminators: LF or CR. A CRLF pair acts as a single terminator because
/// the LF after the CR meets an empty record, and empty records are skipped.
pub open spec fn is_term(c: char) -> bool {
    c == '\n' || c == '\r'
}

/// The scanner state before any input.
pub open spec fn tok_init() -> TokState {
    TokState {
        rows: Seq::empty(),
        cur_row: Seq::empty(),
        cur_field: Seq::empty(),
        mode: ScanMode::FieldStart,
        row_started: false,
    }
}

/// One character of input advances the scanner.
pub open spec fn tok_step(st: TokState, c: char, d: char) -> TokState {
    match st.mode {
        ScanMode::FieldStart => {
            if c == quote_char() {
                TokState { mode: ScanMode::Quoted, row_started: true, ..st }
            } else if c == d {
                TokState {
                    cur_row: st.cur_row.push(st.cur_field),
                    cur_field: Seq::empty(),
                    mode: ScanMode::FieldStart,
                    row_started: true,
                    ..st
                }
            } else if is_term(c) {
                if st.row_started {
                    TokState {
                        rows: st.rows.push(st.cur_row.push(st.cur_field)),
                        cur_row: Seq::empty(),
                        cur_field: Seq::empty(),
                        mode: ScanMode::FieldStart,
                        row_started: false,
                    }
                } else {
                    st
                }
            } else {
                TokState {
                    cur_field: st.cur_field.push(c),
                    mode: ScanMode::Unquoted,
                    row_started: true,
                    ..st
                }
            }
        },
        ScanMode::Unquoted => {
            if c == d {
                TokState {
                    cur_row: st.cur_row.push(st.cur_field),
                    cur_field: Seq::empty(),
                    mode: ScanMode::FieldStart,
                    ..st
                }
            } else if is_term(c) {
                TokState {
                    rows: st.rows.push(st.cur_row.push(st.cur_field)),
                    cur_row: Seq::empty(),
                    cur_field: Seq::empty(),
                    mode: ScanMode::FieldStart,
                    row_started: false,
                }
            } else {
                TokState { cur_field: st.cur_field.push(c), ..st }
            }
        },
        ScanMode::Quoted => {
            if c == quote_char() {
                TokState { mode: ScanMode::QuoteClose, ..st }
            } else {
                TokState { cur_field: st.cur_field.push(c), ..st }
            }
        },
        ScanMode::QuoteClose => {
            if c == quote_char() {
                TokState { cur_field: st.cur_field.push(quote_char()), mode: ScanMode::Quoted, ..st }
            } else if c == d {
                TokState {
                    cur_row: st.cur_row.push(st.cur_field),
                    cur_field: Seq::empty(),
                    mode: ScanMode::FieldStart,
                    ..st
                }
            } else if is_term(c) {
                TokState {
                    rows: st.rows.push(st.cur_row.push(st.cur_field)),
                    cur_row: Seq::empty(),
                    cur_field: Seq::empty(),
                    mode: ScanMode::FieldStart,
                    row_started: false,
                }
            } else {
                TokState { cur_field: st.cur_field.push(c), mode: ScanMode::Unquoted, ..st }
            }
        },
    }
}

/// The scanner state after reading all of `s` with delimiter `d`.
pub open spec fn tok_run(s: Seq<char>, d: char) -> TokState
    decreases s.len(),
{
    if s.len() == 0 {
        tok_init()
    } else {
        tok_step(tok_run(s.drop_last(), d), s.last(), d)
    }
}

/// End of input: a record in progress is flushed as a final row even without
/// a trailing terminator.
pub open spec fn tok_finish(st: TokState) -> Seq<Seq<Seq<char>>> {
    if st.row_started {
        st.rows.push(st.cur_row.push(st.cur_field))
    } else {
        st.rows
    }
}

/// All rows of `s`: the terminated rows plus a final unterminated one, if any.
pub open spec fn tokenize(s: Seq<char>, d: char) -> Seq<Seq<Seq<char>>> {
    tok_finish(tok_run(s, d))
}

/// A state with no record in progress: right after a terminator, or at the
/// very start.
pub open spec fn tok_clean(st: TokState) -> bool {
    &&& st.mode is FieldStart
    &&& !st.row_started
    &&& st.cur_row == Seq::<Seq<char>>::empty()
    &&& st.cur_field == Seq::<char>::empty()
}

/// Reading one more character unfolds `tok_run` by one step.
pub proof fn lemma_tok_run_snoc(s: Seq<char>, i: int, d: char)
    requires
        0 <= i < s.len(),
    ensures
        tok_run(s.take(i + 1), d) == tok_step(tok_run(s.take(i), d), s[i], d),
{
    assert(s.take(i + 1).drop_last() =~= s.take(i));
    assert(s.take(i + 1).last() == s[i]);
}

/// The scanner resumed from an arbitrary state instead of the initial one.
pub open spec fn tok_resume(st: TokState, s: Seq<char>, d: char) -> TokState
    decreases s.len(),
{
    if s.len() == 0 {
        st
    } else {
        tok_step(tok_resume(st, s.drop_last(), d), s.last(), d)
    }
}

/// Running over a concatenation is running over the first part, then resuming
/// over the second.
pub proof fn lemma_run_concat(a: Seq<char>, b: Seq<char>, d: char)
    ensures
        tok_run(a + b, d) == tok_resume(tok_run(a, d), b, d),
    decreases b.len(),
{
    if b.len() == 0 {
        assert(a + b =~= a);
    } else {
        lemma_run_concat(a, b.drop_last(), d);
        assert((a + b).drop_last() =~= a + b.drop_last());
        assert((a + b).last() == b.last());
    }
}

/// Running from the initial state is `tok_run`.
pub proof fn lemma_resume_init(s: Seq<char>, d: char)
    ensures
        tok_resume(tok_init(), s, d) == tok_run(s, d),
    decreases s.len(),
{
    if s.len() > 0 {
        lemma_resume_init(s.drop_last(), d);
    }
}

/// Two states that agree on everything but the completed rows.
pub open spec fn same_scan(a: TokState, b: TokState) -> bool {
    &&& a.cur_row == b.cur_row
    &&& a.cur_field == b.cur_field
    &&& a.mode == b.mode
    &&& a.row_started == b.row_started
}

/// `st` with its completed rows removed.
pub open spec fn clear_rows(st: TokState) -> TokState {
    TokState { rows: Seq::empty(), ..st }
}

/// The completed rows only accumulate: resuming appends to them whatever the
/// scan of `s` alone would produce, and the rest of the state is independent
/// of them.
pub proof fn lemma_resume_rows(st: TokState, s: Seq<char>, d: char)
    ensures
        same_scan(tok_resume(st, s, d), tok_resume(clear_rows(st), s, d)),
        tok_resume(st, s, d).rows == st.rows + tok_resume(clear_rows(st), s, d).rows,
    decreases s.len(),
{
    if s.len() == 0 {
        assert(st.rows =~= st.rows + tok_resume(clear_rows(st), s, d).rows);
    } else {
        lemma_resume_rows(st, s.drop_last(), d);
        let p1 = tok_resume(st, s.drop_last(), d);
        let p2 = tok_resume(clear_rows(st), s.drop_last(), d);
        let n1 = tok_step(p1, s.last(), d);
        let n2 = tok_step(p2, s.last(), d);
        assert(same_scan(n1, n2));
        assert(n1.rows == st.rows + n2.rows) by {
            if n2.rows == p2.rows {
                assert(n1.rows == p1.rows);
            } else {
                assert(n2.rows == p2.rows.push(p2.cur_row.push(p2.cur_field)));
                assert(n1.rows == p1.rows.push(p1.cur_row.push(p1.cur_field)));
                assert(st.rows + p2.rows.push(p2.cur_row.push(p2.cur_field)) =~= (st.rows
                    + p2.rows).push(p2.cur_row.push(p2.cur_field)));
            }
        };
    }
}

/// Restarting after a clean prefix: the scan of `a + b` is the scan of `b`
/// with the rows of `a` prepended.
pub proof fn lemma_clean_restart(a: Seq<char>, b: Seq<char>, d: char)
    requires
        tok_clean(tok_run(a, d)),
    ensures
        same_scan(tok_run(a + b, d), tok_run(b, d)),
        tok_run(a + b, d).rows == tok_run(a, d).rows + tok_run(b, d).rows,
{
    lemma_run_concat(a, b, d);
    lemma_resume_rows(tok_run(a, d), b, d);
    assert(clear_rows(tok_run(a, d)) == tok_init()) by {
        assert(clear_rows(tok_run(a, d)).rows =~= tok_init().rows);
        assert(tok_run(a, d).cur_row =~= tok_init().cur_row);
        assert(tok_run(a, d).cur_field =~= tok_init().cur_field);
    };
    lemma_resume_init(b, d);
}

/// Rows already completed stay, in order, under any further input.
pub proof fn lemma_rows_monotone(a: Seq<char>, b: Seq<char>, d: char)
    ensures
        tok_run(a + b, d).rows.len() >= tok_run(a, d).rows.len(),
        tok_run(a + b, d).rows.take(tok_run(a, d).rows.len() as int) == tok_run(a, d).rows,
    decreases b.len(),
{
    if b.len() == 0 {
        assert(a + b =~= a);
        assert(tok_run(a, d).rows.take(tok_run(a, d).rows.len() as int) =~= tok_run(a, d).rows);
    } else {
        lemma_rows_monotone(a, b.drop_last(), d);
        assert((a + b).drop_last() =~= a + b.drop_last());
        let p = tok_run(a + b.drop_last(), d);
        let n = tok_run(a + b, d);
        assert(n == tok_step(p, b.last(), d));
        let k = tok_run(a, d).rows.len() as int;
        if n.rows == p.rows {
        } else {
            assert(n.rows == p.rows.push(p.cur_row.push(p.cur_field)));
            assert(n.rows.take(k) =~= p.rows.take(k));
        }
    }
}

/// A scanner whose current record is untouched is clean in full.
pub proof fn lemma_not_started_clean(s: Seq<char>, d: char)
    ensures
        !tok_run(s, d).row_started ==> tok_clean(tok_run(s, d)),
    decreases s.len(),
{
    if s.len() == 0 {
        assert(tok_run(s, d).cur_row =~= Seq::<Seq<char>>::empty());
        assert(tok_run(s, d).cur_field =~= Seq::<char>::empty());
    } else {
        lemma_not_started_clean(s.drop_last(), d);
        let p = tok_run(s.drop_last(), d);
        let n = tok_run(s, d);
        assert(n == tok_step(p, s.last(), d));
        if !n.row_started {
            assert(n.cur_row =~= Seq::<Seq<char>>::empty());
            assert(n.cur_field =~= Seq::<char>::empty());
        }
    }
}

/// Scans `buf` and returns the rows it holds, together with the number of
/// leading characters that are fully consumed by terminated rows.
///
/// With `flush` set, end of input flushes a record in progress as a final row
/// and the whole buffer counts as consumed: the result is `tokenize(buf@, d)`.
/// Without it, only terminated rows are returned (`tok_run(buf@, d).rows`),
/// and the consumed count is a clean cut: everything the returned rows came
/// from lies before it, so the rest of the buffer can be kept for later input.
pub fn scan_chars(buf: &Vec<char>, d: char, flush: bool) -> (out: (Vec<Vec<String>>, usize))
    ensures
        flush ==> out.0.deep_view() == tokenize(buf@, d) && out.1 == buf@.len(),
        !flush ==> out.0.deep_view() == tok_run(buf@, d).rows,
        !flush ==> out.1 <= buf@.len(),
        !flush ==> tok_clean(tok_run(buf@.take(out.1 as int), d)),
        !flush ==> tok_run(buf@.take(out.1 as int), d).rows == tok_run(buf@, d).rows,
{
    let n = buf.len();
    let mut rows: Vec<Vec<String>> = Vec::new();
    let mut cur_row: Vec<String> = Vec::new();
    let mut cur_field: Vec<char> = Vec::new();
    let mut mode = ScanMode::FieldStart;
    let mut started = false;
    let mut consumed: usize = 0;
    let mut i: usize = 0;
    proof {
        assert(buf@.take(0) =~= Seq::<char>::empty());
        lemma_deep_view_empty(rows);
        lemma_deep_view_empty(cur_row);
    }
    while i < n
        invariant
            i <= n,
            n == buf@.len(),
            consumed <= i,
            rows.deep_view() == tok_run(buf@.take(i as int), d).rows,
            cur_row.deep_view() == tok_run(buf@.take(i as int), d).cur_row,
            cur_field@ == tok_run(buf@.take(i as int), d).cur_field,
            mode == tok_run(buf@.take(i as int), d).mode,
            started == tok_run(buf@.take(i as int), d).row_started,
            tok_clean(tok_run(buf@.take(consumed as int), d)),
            tok_run(buf@.take(consumed as int), d).rows == tok_run(buf@.take(i as int), d).rows,
        decreases n - i,
    {
        let c = buf[i];
        proof {
            lemma_tok_run_snoc(buf@, i as int, d);
        }
        let ghost st = tok_run(buf@.take(i as int), d);
        let ghost st2 = tok_step(st, c, d);
        let is_term_c = c == '\n' || c == '\r';
        match mode {
            ScanMode::FieldStart => {
                if c == '"' {
                    mode = ScanMode::Quoted;
                    started = true;
                } else if c == d {
                    let f = chars_to_string(&cur_field);
                    let ghost row_before = cur_row;
                    cur_row.push(f);
                    cur_field = Vec::new();
                    started = true;
                    proof {
                        lemma_deep_view_push(row_before, cur_row, f);
                    }
                } else if is_term_c {
                    if started {
                        let f = chars_to_string(&cur_field);
                        let ghost row_before = cur_row;
                        cur_row.push(f);
                        let ghost rows_before = rows;
                        let ghost finished = cur_row;
                        rows.push(cur_row);
                        cur_row = Vec::new();
                        cur_field = Vec::new();
                        started = false;
                        consumed = i + 1;
                        proof {
                            lemma_deep_view_push(row_before, finished, f);
                            lemma_deep_view_push(rows_before, rows, finished);
                            lemma_deep_view_empty(cur_row);
                        }
                    } else {
                        consumed = i + 1;
                        proof {
                            lemma_not_started_clean(buf@.take(i as int), d);
                            assert(st2 == st);
                        }
                    }
                } else {
                    cur_field.push(c);
                    mode = ScanMode::Unquoted;
                    started = true;
                }
            },
            ScanMode::Unquoted => {
                if c == d {
                    let f = chars_to_string(&cur_field);
                    let ghost row_before = cur_row;
                    cur_row.push(f);
                    cur_field = Vec::new();
                    mode = ScanMode::FieldStart;
                    proof {
                        lemma_deep_view_push(row_before, cur_row, f);
                    }
                } else if is_term_c {
                    let f = chars_to_string(&cur_field);
                    let ghost row_before = cur_row;
                    cur_row.push(f);
                    let ghost rows_before = rows;
                    let ghost finished = cur_row;
                    rows.push(cur_row);
                    cur_row = Vec::new();
                    cur_field = Vec::new();
                    mode = ScanMode::FieldStart;
                    started = false;
                    consumed = i + 1;
                    proof {
                        lemma_deep_view_push(row_before, finished, f);
                        lemma_deep_view_push(rows_before, rows, finished);
                        lemma_deep_view_empty(cur_row);
                    }
                } else {
                    cur_field.push(c);
                }
            },
            ScanMode::Quoted => {
                if c == '"' {
                    mode = ScanMode::QuoteClose;
                } else {
                    cur_field.push(c);
                }
            },
            ScanMode::QuoteClose => {
                if c == '"' {
                    cur_field.push('"');
                    mode = ScanMode::Quoted;
                } else if c == d {
                    let f = chars_to_string(&cur_field);
                    let ghost row_before = cur_row;
                    cur_row.push(f);
                    cur_field = Vec::new();
                    mode = ScanMode::FieldStart;
                    proof {
                        lemma_deep_view_push(row_before, cur_row, f);
                    }
                } else if is_term_c {
                    let f = chars_to_string(&cur_field);
                    let ghost row_before = cur_row;
                    cur_row.push(f);
                    let ghost rows_before = rows;
                    let ghost finished = cur_row;
                    rows.push(cur_row);
                    cur_row = Vec::new();
                    cur_field = Vec::new();
                    mode = ScanMode::FieldStart;
                    started = false;
                    consumed = i + 1;
                    proof {
                        lemma_deep_view_push(row_before, finished, f);
                        lemma_deep_view_push(rows_before, rows, finished);
                        lemma_deep_view_empty(cur_row);
                    }
                } else {
                    cur_field.push(c);
                    mode = ScanMode::Unquoted;
                }
            },
        }
        i += 1;
    }
    proof {
        assert(buf@.take(n as int) =~= buf@);
    }
    if flush {
        if started {
            let f = chars_to_string(&cur_field);
            let ghost row_before = cur_row;
            cur_row.push(f);
            let ghost rows_before = rows;
            let ghost finished = cur_row;
            rows.push(cur_row);
            proof {
                lemma_deep_view_push(row_before, finished, f);
                lemma_deep_view_push(rows_before, rows, finished);
            }
        }
        (rows, n)
    } else {
        (rows, consumed)
    }
}

} // verus!

use csvstream::{parse_csv, StreamingParser};

fn run_session(header: bool, delimiter: char, chunks: &[&str]) -> Vec<Vec<String>> {
    let mut session = StreamingParser::new(header, delimiter);
    let mut rows = Vec::new();
    for chunk in chunks {
        rows.extend(session.push_chunk(chunk));
    }
    rows.extend(session.finish());
    rows
}

#[test]
fn one_feed_then_close_matches_parse_with_header() {
    let input = "name,age\nAlice,30\nBob,25";
    let streamed = run_session(true, ',', &[input]);
    let parsed = parse_csv(input, true, ',');
    assert_eq!(streamed, parsed.rows);
}

#[test]
fn one_feed_then_close_matches_parse_without_header() {
    let input = "Alice,30\nBob,25\n";
    let streamed = run_session(false, ',', &[input]);
    let parsed = parse_csv(input, false, ',');
    assert_eq!(streamed, parsed.rows);
}

#[test]
fn any_split_point_gives_the_same_rows() {
    let input = "name,age\n\"A,B\",30\nBob,\"2\n5\"\r\nEve,7";
    let whole = run_session(true, ',', &[input]);
    for i in 0..=input.len() {
        if !input.is_char_boundary(i) {
            continue;
        }
        let (a, b) = input.split_at(i);
        let split = run_session(true, ',', &[a, b]);
        assert_eq!(split, whole, "split at byte {}", i);
    }
}

#[test]
fn unterminated_record_waits_for_more_input() {
    let mut session = StreamingParser::new(false, ',');
    assert!(session.push_chunk("Ali").is_empty());
    let rows = session.push_chunk("ce,30\nBob");
    assert_eq!(rows, vec![vec!["Alice", "30"]]);
    let rows = session.push_chunk(",25\n");
    assert_eq!(rows, vec![vec!["Bob", "25"]]);
    assert!(session.finish().is_empty());
}

#[test]
fn close_flushes_the_final_pending_record() {
    let mut session = StreamingParser::new(false, ',');
    assert_eq!(session.push_chunk("x,y\nz,"), vec![vec!["x", "y"]]);
    let tail = session.finish();
    assert_eq!(tail, vec![vec!["z", ""]]);
}

#[test]
fn no_data_rows_before_the_header_is_complete() {
    let mut session = StreamingParser::new(true, ',');
    assert!(session.push_chunk("na").is_empty());
    assert!(session.push_chunk("me,age").is_empty());
    let rows = session.push_chunk("\nAlice,30\n");
    assert_eq!(rows, vec![vec!["Alice", "30"]]);
}

#[test]
fn header_row_is_never_emitted_as_data() {
    let rows = run_session(true, ',', &["h1,h2\n", "1,2\n", "3,4\n"]);
    assert_eq!(rows, vec![vec!["1", "2"], vec!["3", "4"]]);
}

#[test]
fn pending_header_alone_is_consumed_at_close() {
    let rows = run_session(true, ',', &["only,a,header"]);
    assert!(rows.is_empty());
}

#[test]
fn quoted_newline_does_not_split_a_record() {
    let rows = run_session(false, ',', &["\"a\n", "b\",c\n"]);
    assert_eq!(rows, vec![vec!["a\nb", "c"]]);
}

#[test]
fn configured_delimiter_is_used_for_every_chunk() {
    let rows = run_session(false, '|', &["a|b\nc", "|d\n"]);
    assert_eq!(rows, vec![vec!["a", "b"], vec!["c", "d"]]);
}

#[test]
fn finish_resets_the_session() {
    let mut session = StreamingParser::new(false, ',');
    session.push_chunk("a,b\n");
    assert!(session.finish().is_empty());
    assert!(session.finish().is_empty());
    let rows = session.push_chunk("c,d\n");
    assert_eq!(rows, vec![vec!["c", "d"]]);
    assert!(session.finish().is_empty());
}

#[test]
fn doubled_quote_across_chunks() {
    let rows = run_session(false, ',', &["\"he said \"", "\"hi\"\"\",2\n"]);
    assert_eq!(rows, vec![vec!["he said \"hi\"", "2"]]);
}

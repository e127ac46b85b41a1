use csvstream::parse_csv;

#[test]
fn test_parse_csv_with_headers() {
    let input = "name,age\nAlice,30\nBob,25";
    let parsed = parse_csv(input, true, ',');
    assert_eq!(parsed.headers, Some(vec!["name".to_string(), "age".to_string()]));
    assert_eq!(parsed.rows.len(), 2);
    assert_eq!(parsed.rows[0], vec!["Alice", "30"]);
}

#[test]
fn test_parse_csv_no_headers() {
    let input = "Alice,30\nBob,25";
    let parsed = parse_csv(input, false, ',');
    assert!(parsed.headers.is_none());
    assert_eq!(parsed.rows.len(), 2);
}

#[test]
fn headers_and_rows_example() {
    let parsed = parse_csv("name,age\nAlice,30\nBob,25", true, ',');
    assert_eq!(parsed.headers, Some(vec!["name".to_string(), "age".to_string()]));
    assert_eq!(parsed.rows, vec![vec!["Alice", "30"], vec!["Bob", "25"]]);
}

#[test]
fn no_header_mode_keeps_every_row() {
    let parsed = parse_csv("a,b\nc\nd,e,f", false, ',');
    assert!(parsed.headers.is_none());
    assert_eq!(parsed.rows, vec![vec!["a", "b"], vec!["c"], vec!["d", "e", "f"]]);
}

#[test]
fn quoted_field_keeps_delimiter_and_newline() {
    let parsed = parse_csv("\"a,b\",c\n\"x\ny\",z", false, ',');
    assert_eq!(parsed.rows, vec![vec!["a,b", "c"], vec!["x\ny", "z"]]);
}

#[test]
fn doubled_quote_is_one_literal_quote() {
    let parsed = parse_csv("\"he said \"\"hi\"\"\",2", false, ',');
    assert_eq!(parsed.rows, vec![vec!["he said \"hi\"", "2"]]);
}

#[test]
fn crlf_terminates_rows() {
    let parsed = parse_csv("a,b\r\nc,d\r\ne,f", false, ',');
    assert_eq!(parsed.rows, vec![vec!["a", "b"], vec!["c", "d"], vec!["e", "f"]]);
}

#[test]
fn blank_lines_are_skipped() {
    let parsed = parse_csv("a\n\n\nb\n", false, ',');
    assert_eq!(parsed.rows, vec![vec!["a"], vec!["b"]]);
}

#[test]
fn trailing_newline_adds_no_row() {
    let parsed = parse_csv("a,b\n", false, ',');
    assert_eq!(parsed.rows, vec![vec!["a", "b"]]);
}

#[test]
fn final_row_without_terminator_is_parsed() {
    let parsed = parse_csv("a,b\nc,d", false, ',');
    assert_eq!(parsed.rows, vec![vec!["a", "b"], vec!["c", "d"]]);
}

#[test]
fn empty_input_with_header_mode_has_no_header() {
    let parsed = parse_csv("", true, ',');
    assert!(parsed.headers.is_none());
    assert!(parsed.rows.is_empty());
}

#[test]
fn custom_delimiter() {
    let parsed = parse_csv("x;y\n1;2", true, ';');
    assert_eq!(parsed.headers, Some(vec!["x".to_string(), "y".to_string()]));
    assert_eq!(parsed.rows, vec![vec!["1", "2"]]);
}

#[test]
fn empty_fields_survive() {
    let parsed = parse_csv("a,,c\n,,", false, ',');
    assert_eq!(parsed.rows, vec![vec!["a", "", "c"], vec!["", "", ""]]);
}

#[test]
fn quoted_empty_field_makes_a_row() {
    let parsed = parse_csv("\"\"\n", false, ',');
    assert_eq!(parsed.rows, vec![vec![""]]);
}

#[test]
fn unquoted_whitespace_is_preserved() {
    let parsed = parse_csv(" a , b \n", false, ',');
    assert_eq!(parsed.rows, vec![vec![" a ", " b "]]);
}

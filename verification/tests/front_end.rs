use renamer::locator::find_ident_range;
use renamer::query::parse_query;
use renamer::scanner::word_ranges;

#[test]
fn scanner_plain_line() {
    let runs = word_ranges(b"let value = value + 1;");
    assert_eq!(runs, vec![(0, 3), (4, 9), (12, 17)]);
}

#[test]
fn scanner_empty_line() {
    let runs = word_ranges(b"");
    assert_eq!(runs, Vec::<(usize, usize)>::new());
}

#[test]
fn scanner_only_separators() {
    let runs = word_ranges(b" \t;=+ 123 _ ");
    assert_eq!(runs, Vec::<(usize, usize)>::new());
}

#[test]
fn scanner_run_at_end_is_flushed() {
    let runs = word_ranges(b"foo bar");
    assert_eq!(runs, vec![(0, 3), (4, 7)]);
}

#[test]
fn scanner_digits_and_underscores_separate() {
    let runs = word_ranges(b"foo_bar2baz");
    assert_eq!(runs, vec![(0, 3), (4, 7), (8, 11)]);
}

#[test]
fn scanner_multibyte_offsets_are_byte_offsets() {
    // 'e' with acute accent is two bytes; the runs around it see
    // byte offsets, and non-ASCII letters are separators.
    let runs = word_ranges("h\u{e9}llo".as_bytes());
    assert_eq!(runs, vec![(0, 1), (3, 6)]);
}

#[test]
fn locator_inside_word() {
    let text = b"let value = value + 1;\n";
    assert_eq!(find_ident_range(text, 0, 5), Some((4, 9)));
}

#[test]
fn locator_inclusive_end_boundary() {
    let text = b"let value = value + 1;\n";
    assert_eq!(find_ident_range(text, 0, 6), find_ident_range(text, 0, 9));
    assert_eq!(find_ident_range(text, 0, 9), Some((4, 9)));
}

#[test]
fn locator_separator_away_from_words() {
    // Column 10 is '=', and column 9 before it is a space.
    let text = b"let value = value + 1;\n";
    assert_eq!(find_ident_range(text, 0, 10), None);
}

#[test]
fn locator_line_out_of_range() {
    let text = b"let value = value + 1;\n";
    assert_eq!(find_ident_range(text, 1, 0), None);
}

#[test]
fn locator_second_line() {
    let text = b"alpha\nbeta gamma\n";
    assert_eq!(find_ident_range(text, 1, 0), Some((0, 4)));
    assert_eq!(find_ident_range(text, 1, 5), Some((5, 10)));
}

#[test]
fn locator_crlf_line_ending() {
    let text = b"alpha\r\nbeta\r\n";
    assert_eq!(find_ident_range(text, 0, 5), Some((0, 5)));
    assert_eq!(find_ident_range(text, 1, 2), Some((0, 4)));
}

#[test]
fn parse_round_trip_indexing() {
    let q = parse_query(b"path:5:3").expect("should parse");
    assert_eq!(q.file, b"path".to_vec());
    assert_eq!(q.line, 4);
    assert_eq!(q.column, 2);
}

#[test]
fn parse_rejects_zero_line() {
    assert!(parse_query(b"path:0:1").is_none());
}

#[test]
fn parse_rejects_zero_column() {
    assert!(parse_query(b"path:1:0").is_none());
}

#[test]
fn parse_rejects_extra_field() {
    assert!(parse_query(b"path:1:2:3").is_none());
}

#[test]
fn parse_rejects_missing_fields() {
    assert!(parse_query(b"path").is_none());
    assert!(parse_query(b"path:1").is_none());
}

#[test]
fn parse_rejects_empty_path() {
    assert!(parse_query(b":1:2").is_none());
}

#[test]
fn parse_rejects_non_numeric() {
    assert!(parse_query(b"path:a:2").is_none());
    assert!(parse_query(b"path:1:2b").is_none());
    assert!(parse_query(b"path::2").is_none());
}

#[test]
fn parse_rejects_huge_number() {
    assert!(parse_query(b"path:99999999999999999999999:1").is_none());
}

#[test]
fn parse_rejects_drive_letter_path() {
    // A colon inside the path misparses by design.
    assert!(parse_query(b"C:\\src\\main.rs:1:2").is_none());
}

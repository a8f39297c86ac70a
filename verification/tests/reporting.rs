use renamer::locator::find_ident_range;
use renamer::render::{format_refs, render_ref_line, RefSpan};
use renamer::store::{resolve_refs, Store, StoreError};

#[test]
fn render_converts_back_to_one_indexed() {
    let out = render_ref_line(&b"path".to_vec(), 4, 2, 6);
    assert_eq!(out, b"path:5:3-7".to_vec());
}

#[test]
fn render_multi_digit_positions() {
    let out = render_ref_line(&b"src/lib.rs".to_vec(), 99, 0, 120);
    assert_eq!(out, b"src/lib.rs:100:1-121".to_vec());
}

#[test]
fn located_span_through_stub_store_values() {
    // One line of source; the query points into the first `value`.
    let text = b"let value = value + 1;";
    let span = find_ident_range(text, 0, 5);
    assert_eq!(span, Some((4, 9)));

    // A store that maps the span to some id and yields two references
    // produces exactly two output lines, each 1-indexed.
    let refs = vec![
        RefSpan { file: b"main.rs".to_vec(), row: 0, col_start: 4, col_end: 9 },
        RefSpan { file: b"main.rs".to_vec(), row: 0, col_start: 12, col_end: 17 },
    ];
    let lines = format_refs(&refs);
    assert_eq!(lines.len(), 2);
    assert_eq!(lines[0], b"main.rs:1:5-10".to_vec());
    assert_eq!(lines[1], b"main.rs:1:13-18".to_vec());
}

#[test]
fn empty_reference_set_yields_no_lines() {
    let lines = format_refs(&Vec::new());
    assert_eq!(lines.len(), 0);
}

#[test]
fn unresolvable_span_is_identifier_not_indexed() {
    // A store with no analysis loaded cannot resolve any span.
    let store = Store { host: rls_analysis::AnalysisHost::new(rls_analysis::Target::Debug) };
    let r = resolve_refs(&store, &b"main.rs".to_vec(), 0, 4, 9);
    assert_eq!(r, Err(StoreError::IdentifierNotIndexed));
}

use vcsv::csv::{parse_csv, split_bytes, trim_ascii};
use vcsv::VcsvError;

#[test]
fn parse_resolves_headers_rows_and_column() {
    let csv = b"id, price ,qty\n1, 120,3\n\n2,80, 1 \n";
    let doc = parse_csv(csv, Some(b"price")).unwrap();
    assert_eq!(doc.headers, b"id, price ,qty".to_vec());
    assert_eq!(
        doc.cols,
        vec![b"id".to_vec(), b"price".to_vec(), b"qty".to_vec()]
    );
    assert_eq!(doc.idx, 1);
    // the empty line is skipped, fields are trimmed
    assert_eq!(doc.lines.len(), 2);
    assert_eq!(
        doc.lines[0],
        vec![b"1".to_vec(), b"120".to_vec(), b"3".to_vec()]
    );
    assert_eq!(
        doc.lines[1],
        vec![b"2".to_vec(), b"80".to_vec(), b"1".to_vec()]
    );
}

#[test]
fn parse_without_a_requested_column_uses_index_zero() {
    let csv = b"a,b\n1,2\n";
    let doc = parse_csv(csv, None).unwrap();
    assert_eq!(doc.idx, 0);
}

#[test]
fn missing_column_is_rejected() {
    let csv = b"id,price\n1,2\n";
    assert_eq!(
        parse_csv(csv, Some(b"total")).unwrap_err(),
        VcsvError::ColumnNotFound
    );
}

#[test]
fn invalid_utf8_is_rejected() {
    let csv = b"id,price\n1,\xff\n";
    assert_eq!(parse_csv(csv, None).unwrap_err(), VcsvError::InvalidEncoding);
}

#[test]
fn empty_input_is_rejected() {
    assert_eq!(parse_csv(b"", None).unwrap_err(), VcsvError::EmptyInput);
}

#[test]
fn trim_touches_only_ascii_whitespace_at_the_edges() {
    assert_eq!(trim_ascii(b"  a b\t"), b"a b");
    assert_eq!(trim_ascii(b"\r\nx\r\n"), b"x");
    assert_eq!(trim_ascii(b""), b"");
    assert_eq!(trim_ascii(b" \t "), b"");
    // multi-byte UTF-8 stays untouched
    let s = " caf\u{e9} ".as_bytes();
    assert_eq!(trim_ascii(s), "caf\u{e9}".as_bytes());
}

#[test]
fn split_keeps_empty_pieces() {
    let pieces = split_bytes(b"a,,b,", 44);
    assert_eq!(
        pieces,
        vec![b"a".to_vec(), b"".to_vec(), b"b".to_vec(), b"".to_vec()]
    );
    assert_eq!(split_bytes(b"", 44), vec![b"".to_vec()]);
    assert_eq!(split_bytes(b"abc", 44), vec![b"abc".to_vec()]);
}

#[test]
fn a_trailing_newline_adds_no_row() {
    let with = parse_csv(b"a\n1\n", None).unwrap();
    let without = parse_csv(b"a\n1", None).unwrap();
    assert_eq!(with.lines, without.lines);
}

use cq::query::{execute, normalize_delimiter, resolve_mode, trim_end, Config, Mode, QueryError};

fn run(delimiter: u8, mode: Mode, has_header: bool, input: &[u8]) -> (Vec<Vec<u8>>, Option<QueryError>) {
    let config = Config { delimiter, mode, has_header };
    let out = execute(&config, input.to_vec());
    (out.lines, out.err)
}

#[test]
fn count_mode_reports_two_records() {
    let (lines, err) = run(b',', Mode::Count, true, b"name,age\nAlice,30\nBob,25");
    assert_eq!(lines, vec![b"2 records".to_vec()]);
    assert_eq!(err, None);
}

#[test]
fn count_mode_counts_all_rows_without_header() {
    let (lines, err) = run(b',', Mode::Count, false, b"h\na\nb");
    assert_eq!(lines, vec![b"3 records".to_vec()]);
    assert_eq!(err, None);
}

#[test]
fn count_mode_on_empty_input_is_zero() {
    let (lines, err) = run(b',', Mode::Count, true, b"");
    assert_eq!(lines, vec![b"0 records".to_vec()]);
    assert_eq!(err, None);
}

#[test]
fn count_mode_formats_multi_digit_counts() {
    let input = b"h\n".iter().chain(b"x\n".iter().cycle().take(24)).copied().collect::<Vec<u8>>();
    let (lines, err) = run(b',', Mode::Count, true, &input);
    assert_eq!(lines, vec![b"12 records".to_vec()]);
    assert_eq!(err, None);
}

#[test]
fn header_mode_prints_the_header_record() {
    let (lines, err) = run(b',', Mode::Header, true, b"name,age\nAlice,30");
    assert_eq!(lines, vec![b"[\"name\", \"age\"]".to_vec()]);
    assert_eq!(err, None);
}

#[test]
fn header_mode_with_headers_disabled_prints_nothing() {
    let (lines, err) = run(b',', Mode::Header, false, b"name,age\nAlice,30");
    assert_eq!(lines, Vec::<Vec<u8>>::new());
    assert_eq!(err, None);
}

#[test]
fn header_mode_fails_on_malformed_first_row() {
    let (lines, err) = run(b',', Mode::Header, true, b"\"name");
    assert_eq!(lines, Vec::<Vec<u8>>::new());
    assert_eq!(err, Some(QueryError::HeaderRead));
}

#[test]
fn header_mode_on_empty_input_prints_empty_record() {
    let (lines, err) = run(b',', Mode::Header, true, b"");
    assert_eq!(lines, vec![b"[]".to_vec()]);
    assert_eq!(err, None);
}

#[test]
fn projection_emits_one_field_per_record() {
    let (lines, err) = run(b',', Mode::IndexProjection(1), false, b"Alice,30\nBob,25");
    assert_eq!(lines, vec![b"30".to_vec(), b"25".to_vec()]);
    assert_eq!(err, None);
}

#[test]
fn projection_skips_the_header_row() {
    let (lines, err) = run(b',', Mode::IndexProjection(0), true, b"name,age\nAlice,30\nBob,25");
    assert_eq!(lines, vec![b"Alice".to_vec(), b"Bob".to_vec()]);
    assert_eq!(err, None);
}

#[test]
fn projection_stops_at_short_record_with_error() {
    let (lines, err) = run(b',', Mode::IndexProjection(1), false, b"a,b\nc");
    assert_eq!(lines, vec![b"b".to_vec()]);
    assert_eq!(err, Some(QueryError::IndexOutOfRange { index: 1 }));
}

#[test]
fn projection_trims_trailing_whitespace_of_the_field() {
    let (lines, err) = run(b',', Mode::IndexProjection(1), false, b"x,30 \t");
    assert_eq!(lines, vec![b"30".to_vec()]);
    assert_eq!(err, None);
}

#[test]
fn projection_reports_parse_error_after_good_rows() {
    let (lines, err) = run(b',', Mode::IndexProjection(1), false, b"a,b\n\"c");
    assert_eq!(lines, vec![b"b".to_vec()]);
    assert_eq!(err, Some(QueryError::RecordParse { row: 2 }));
}

#[test]
fn full_dump_emits_each_row_with_its_own_field_count() {
    let (lines, err) = run(b',', Mode::FullDump, false, b"a,b\nc,d,e");
    assert_eq!(lines, vec![b"[\"a\", \"b\"]".to_vec(), b"[\"c\", \"d\", \"e\"]".to_vec()]);
    assert_eq!(err, None);
}

#[test]
fn full_dump_reports_parse_error_after_good_rows() {
    let (lines, err) = run(b',', Mode::FullDump, false, b"a\n\"b");
    assert_eq!(lines, vec![b"[\"a\"]".to_vec()]);
    assert_eq!(err, Some(QueryError::RecordParse { row: 2 }));
}

#[test]
fn full_dump_quotes_fields_that_hold_the_delimiter() {
    let (lines, err) = run(b',', Mode::FullDump, false, b"\"a,b\",x");
    assert_eq!(lines, vec![b"[\"a,b\", \"x\"]".to_vec()]);
    assert_eq!(err, None);
}

#[test]
fn resolve_mode_precedence_is_count_header_index_dump() {
    assert_eq!(resolve_mode(true, true, false, 3), Mode::Count);
    assert_eq!(resolve_mode(false, true, false, 3), Mode::Header);
    assert_eq!(resolve_mode(false, false, false, 3), Mode::IndexProjection(3));
    assert_eq!(resolve_mode(false, false, false, 0), Mode::IndexProjection(0));
    assert_eq!(resolve_mode(false, false, false, -1), Mode::FullDump);
}

#[test]
fn resolve_mode_header_with_noheader_falls_through() {
    assert_eq!(resolve_mode(false, true, true, 1), Mode::IndexProjection(1));
    assert_eq!(resolve_mode(false, true, true, -1), Mode::FullDump);
}

#[test]
fn normalize_delimiter_handles_escape_and_plain_bytes() {
    assert_eq!(normalize_delimiter(&Vec::new()), None);
    assert_eq!(normalize_delimiter(&b",".to_vec()), Some(b','));
    assert_eq!(normalize_delimiter(&b";x".to_vec()), Some(b';'));
    assert_eq!(normalize_delimiter(&b"\\t".to_vec()), Some(b'\t'));
    assert_eq!(normalize_delimiter(&b"\\x".to_vec()), Some(b'\\'));
    assert_eq!(normalize_delimiter(&b"x\\t".to_vec()), Some(b'x'));
}

#[test]
fn trim_end_strips_trailing_ascii_whitespace_only() {
    assert_eq!(trim_end(&b"abc \t\r\n".to_vec()), b"abc".to_vec());
    assert_eq!(trim_end(&b"  abc".to_vec()), b"  abc".to_vec());
    assert_eq!(trim_end(&b"a b ".to_vec()), b"a b".to_vec());
    assert_eq!(trim_end(&b"   ".to_vec()), Vec::<u8>::new());
    assert_eq!(trim_end(&Vec::new()), Vec::<u8>::new());
}

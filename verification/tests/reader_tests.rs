use cq::reader::{get_reader_from_input, HeaderError, RecordReader};
use cq::record::Record;

fn collect_ok(mut r: RecordReader) -> Vec<Record> {
    let mut v = Vec::new();
    loop {
        match r.next() {
            Some(Ok(rec)) => v.push(rec),
            Some(Err(e)) => panic!("unexpected parse error at row {}", e.row),
            None => break,
        }
    }
    v
}

fn field(rec: &Record, i: usize) -> &[u8] {
    rec.get(i).unwrap().as_slice()
}

#[test]
fn test_get_file_reader_reads_csv_data() {
    let input = b"name,age\nAlice,30\nBob,25\n".to_vec();
    let delimiter = b",".to_vec();
    let reader = get_reader_from_input(&delimiter, true, input);

    let records = collect_ok(reader);

    assert_eq!(records.len(), 2);
    assert_eq!(field(&records[0], 0), b"Alice");
    assert_eq!(field(&records[1], 1), b"25");
}

#[test]
fn test_get_file_reader_reads_csv_data_without_headers() {
    let input = b"Alice,30\nBob,25\n".to_vec();
    let delimiter = b",".to_vec();
    let reader = get_reader_from_input(&delimiter, false, input);

    let records = collect_ok(reader);

    assert_eq!(records.len(), 2);
    assert_eq!(field(&records[0], 0), b"Alice");
    assert_eq!(field(&records[1], 1), b"25");
}

#[test]
fn test_get_reader_from_input_reads_tab_delimited_data() {
    let input = b"name\tage\nCharlie\t40\nDana\t35".to_vec();
    let delimiter = b"\t".to_vec();
    let reader = get_reader_from_input(&delimiter, true, input);

    let records = collect_ok(reader);

    assert_eq!(records.len(), 2);
    assert_eq!(field(&records[0], 0), b"Charlie");
    assert_eq!(field(&records[1], 1), b"35");
}

#[test]
fn headers_are_first_row_and_excluded_from_data() {
    let input = b"name,age\nAlice,30\nBob,25".to_vec();
    let reader = RecordReader::new(input, b',', true);

    {
        let h = reader.headers().unwrap();
        assert_eq!(h.len(), 2);
        assert_eq!(h.get(0).unwrap().as_slice(), b"name");
        assert_eq!(h.get(1).unwrap().as_slice(), b"age");
    }

    let records = collect_ok(reader);
    assert_eq!(records.len(), 2);
    assert_eq!(field(&records[0], 0), b"Alice");
    assert_eq!(field(&records[0], 1), b"30");
    assert_eq!(field(&records[1], 0), b"Bob");
    assert_eq!(field(&records[1], 1), b"25");
}

#[test]
fn headers_fail_explicitly_when_disabled() {
    let input = b"name,age\nAlice,30".to_vec();
    let reader = RecordReader::new(input, b',', false);
    assert_eq!(reader.headers().err(), Some(HeaderError::NoHeader));
    let records = collect_ok(reader);
    assert_eq!(records.len(), 2);
}

#[test]
fn headers_fail_when_first_row_is_malformed() {
    let input = b"\"name".to_vec();
    let reader = RecordReader::new(input, b',', true);
    assert_eq!(reader.headers().err(), Some(HeaderError::Unreadable));
}

#[test]
fn headers_on_empty_input_are_empty() {
    let reader = RecordReader::new(Vec::new(), b',', true);
    let h = reader.headers().unwrap();
    assert_eq!(h.len(), 0);
}

#[test]
fn escaped_tab_delimiter_behaves_as_literal_tab() {
    let input = b"name\tage\nCharlie\t40\nDana\t35".to_vec();
    let delimiter = cq::query::normalize_delimiter(&b"\\t".to_vec()).unwrap();
    assert_eq!(delimiter, b'\t');
    let reader = RecordReader::new(input, delimiter, true);

    let records = collect_ok(reader);
    assert_eq!(records.len(), 2);
    assert_eq!(field(&records[0], 0), b"Charlie");
    assert_eq!(field(&records[0], 1), b"40");
    assert_eq!(field(&records[1], 0), b"Dana");
    assert_eq!(field(&records[1], 1), b"35");
}

#[test]
fn quoted_field_keeps_embedded_delimiter() {
    let input = b"\"a,b\",x".to_vec();
    let records = collect_ok(RecordReader::new(input, b',', false));
    assert_eq!(records.len(), 1);
    assert_eq!(records[0].len(), 2);
    assert_eq!(field(&records[0], 0), b"a,b");
    assert_eq!(field(&records[0], 1), b"x");
}

#[test]
fn doubled_quote_is_a_literal_quote() {
    let input = b"\"a\"\"b\",c".to_vec();
    let records = collect_ok(RecordReader::new(input, b',', false));
    assert_eq!(records.len(), 1);
    assert_eq!(field(&records[0], 0), b"a\"b");
    assert_eq!(field(&records[0], 1), b"c");
}

#[test]
fn quoted_field_keeps_embedded_newline() {
    let input = b"\"a\nb\",c".to_vec();
    let records = collect_ok(RecordReader::new(input, b',', false));
    assert_eq!(records.len(), 1);
    assert_eq!(field(&records[0], 0), b"a\nb");
    assert_eq!(field(&records[0], 1), b"c");
}

#[test]
fn unterminated_quote_is_a_parse_error_with_row() {
    let input = b"a,b\n\"c".to_vec();
    let mut reader = RecordReader::new(input, b',', false);
    match reader.next() {
        Some(Ok(rec)) => assert_eq!(rec.len(), 2),
        other => panic!("expected first record, got {:?}", other.is_some()),
    }
    match reader.next() {
        Some(Err(e)) => assert_eq!(e.row, 2),
        _ => panic!("expected a parse error"),
    }
}

#[test]
fn ragged_rows_are_not_rejected() {
    let input = b"a,b\nc,d,e\nf".to_vec();
    let records = collect_ok(RecordReader::new(input, b',', false));
    assert_eq!(records.len(), 3);
    assert_eq!(records[0].len(), 2);
    assert_eq!(records[1].len(), 3);
    assert_eq!(records[2].len(), 1);
}

#[test]
fn crlf_ends_a_row() {
    let input = b"a,b\r\nc,d".to_vec();
    let records = collect_ok(RecordReader::new(input, b',', false));
    assert_eq!(records.len(), 2);
    assert_eq!(field(&records[0], 1), b"b");
    assert_eq!(field(&records[1], 0), b"c");
}

#[test]
fn blank_lines_yield_no_record() {
    let input = b"a\n\nb\n".to_vec();
    let records = collect_ok(RecordReader::new(input, b',', false));
    assert_eq!(records.len(), 2);
    assert_eq!(field(&records[0], 0), b"a");
    assert_eq!(field(&records[1], 0), b"b");
}

#[test]
fn trailing_delimiter_yields_trailing_empty_field() {
    let input = b"a,\n,b".to_vec();
    let records = collect_ok(RecordReader::new(input, b',', false));
    assert_eq!(records.len(), 2);
    assert_eq!(records[0].len(), 2);
    assert_eq!(field(&records[0], 0), b"a");
    assert_eq!(field(&records[0], 1), b"");
    assert_eq!(field(&records[1], 0), b"");
    assert_eq!(field(&records[1], 1), b"b");
}

#[test]
fn get_out_of_range_is_none() {
    let input = b"a,b".to_vec();
    let records = collect_ok(RecordReader::new(input, b',', false));
    assert!(records[0].get(2).is_none());
}

//! The library's general guarantees, stated and proved over the parsing and
//! query specifications: how the header relates to the data records, what
//! Count reports, how projection fails on short records, that a tab escape
//! behaves as a literal tab, that quoting round-trips a field holding the
//! delimiter, and that ragged rows are never rejected.

use vstd::prelude::*;
use crate::record::{QUOTE, spec_render};
use crate::parse::{Machine, ScanState, ParseOut, scan, spec_parse, close_rec};
use crate::reader::{spec_header, spec_data};
use crate::query::{Mode, QueryError, spec_execute, spec_project, spec_count_line,
    spec_normalize_delimiter, spec_render_all};

verus! {

/// When the input has a header row and header detection is on, the header
/// is exactly the first parsed row's fields, and the data record sequence
/// is exactly the remaining rows: the header row is not among them.
pub proof fn lemma_headers_exclude_first_row(input: Seq<u8>, d: u8)
    requires
        spec_parse(input, d).recs.len() > 0,
    ensures
        spec_header(input, d, true) == Some(spec_parse(input, d).recs[0]),
        spec_data(input, d, true) == spec_parse(input, d).recs.skip(1),
{
}

/// Count mode reports exactly the number of data records: all parsed rows
/// when no header is configured, and all but the header row when one is.
/// It reports no error.
pub proof fn lemma_count_counts_data_rows(input: Seq<u8>, d: u8, has_header: bool)
    ensures
        spec_execute(d, Mode::Count, has_header, input).0 == seq![spec_count_line(spec_data(
            input, d, has_header).len())],
        spec_execute(d, Mode::Count, has_header, input).1 is None,
        !has_header ==> spec_data(input, d, has_header).len() == spec_parse(input, d).recs.len(),
        has_header && spec_parse(input, d).recs.len() > 0 ==> spec_data(input, d,
            has_header).len() == spec_parse(input, d).recs.len() - 1,
{
}

/// Projecting field `i` stops at the first record with fewer than `i + 1`
/// fields: the run ends with an out-of-range error, exactly one line was
/// emitted for each earlier record, and none for the failing one.
pub proof fn lemma_projection_stops_at_short_record(data: Seq<Seq<Seq<u8>>>, err_row: Option<
    int>, i: int, j: int)
    requires
        0 <= j < data.len(),
        data[j].len() <= i,
        forall|k: int| 0 <= k < j ==> i < data[k].len(),
    ensures
        spec_project(data, err_row, i).1 == Some(QueryError::IndexOutOfRange {
            index: i as usize }),
        spec_project(data, err_row, i).0.len() == j,
    decreases j,
{
    if j == 0 {
    } else {
        assert(i < data[0].len());
        let rest = data.skip(1);
        assert(rest[j - 1] == data[j]);
        assert forall|k: int| 0 <= k < j - 1 implies i < rest[k].len() by {
            assert(rest[k] == data[k + 1]);
        }
        lemma_projection_stops_at_short_record(rest, err_row, i, j - 1);
    }
}

/// A delimiter string written as the two-character tab escape stands for
/// the literal tab byte: parsing with the normalized escape is parsing with
/// a literal tab.
pub proof fn lemma_tab_escape_like_literal_tab(input: Seq<u8>)
    ensures
        spec_normalize_delimiter(seq![92u8, 116u8]) == Some(9u8),
        spec_parse(input, spec_normalize_delimiter(seq![92u8, 116u8])->0) == spec_parse(input,
            9u8),
{
    assert(seq![92u8, 116u8].len() == 2);
    assert(seq![92u8, 116u8][0] == 92u8);
    assert(seq![92u8, 116u8][1] == 116u8);
}

/// Scanning a quote-free stretch of bytes from inside a quoted field
/// appends that stretch to the field literally, delimiters and row
/// terminators included.
proof fn lemma_scan_quoted_run(input: Seq<u8>, d: u8, i: int, j: int, m: Machine)
    requires
        m.state is Quoted,
        0 <= i <= j <= input.len(),
        forall|k: int| i <= k < j ==> input[k] != QUOTE,
    ensures
        scan(input, d, i, m) == scan(input, d, j, Machine {
            field: m.field + input.subrange(i, j),
            ..m
        }),
    decreases j - i,
{
    if i == j {
        assert(m.field + input.subrange(i, j) =~= m.field);
        assert(Machine { field: m.field + input.subrange(i, j), ..m } == m);
    } else {
        let b = input[i];
        assert(b != QUOTE);
        let m2 = Machine { field: m.field.push(b), ..m };
        assert(scan(input, d, i, m) == scan(input, d, i + 1, m2));
        lemma_scan_quoted_run(input, d, i + 1, j, m2);
        assert(m2.field + input.subrange(i + 1, j) =~= m.field + input.subrange(i, j));
    }
}

/// Quoting round-trips: a field quoted in the input, containing any bytes
/// but the quote itself -- the delimiter and row terminators included -- is
/// parsed back as a single record with that single field, mis-split
/// nowhere, and with no error.
pub proof fn lemma_quoted_field_round_trip(f: Seq<u8>, d: u8)
    requires
        forall|k: int| 0 <= k < f.len() ==> f[k] != QUOTE,
    ensures
        spec_parse(seq![QUOTE] + f + seq![QUOTE], d).recs == seq![seq![f]],
        spec_parse(seq![QUOTE] + f + seq![QUOTE], d).err_row is None,
{
    let input = seq![QUOTE] + f + seq![QUOTE];
    let n = f.len() as int;
    assert(input.len() == n + 2);
    assert(input[0] == QUOTE);
    assert forall|k: int| 1 <= k < n + 1 implies input[k] != QUOTE by {
        assert(input[k] == f[k - 1]);
    }
    assert(input[n + 1] == QUOTE);
    let m0 = Machine {
        state: ScanState::Start,
        field: Seq::empty(),
        rec: Seq::empty(),
        out: Seq::empty(),
    };
    let m1 = Machine { state: ScanState::Quoted, ..m0 };
    assert(scan(input, d, 0, m0) == scan(input, d, 1, m1));
    lemma_scan_quoted_run(input, d, 1, n + 1, m1);
    let m2 = Machine { field: m1.field + input.subrange(1, n + 1), ..m1 };
    assert(m2.field =~= f);
    assert(input[n + 1] == QUOTE && !(n + 2 < input.len()));
    let m3 = Machine { state: ScanState::Plain, ..m2 };
    assert(scan(input, d, n + 1, m2) == scan(input, d, n + 2, m3));
    assert(scan(input, d, n + 2, m3) == ParseOut {
        recs: m3.out.push(close_rec(m3)),
        err_row: None,
    });
    assert(m3.out.push(close_rec(m3)) =~= seq![seq![f]]);
    assert(spec_parse(input, d) == scan(input, d, 0, m0));
}

/// From outside a quoted field, scanning input that holds no quote byte
/// never enters a quoted field, so it never fails: row-width never causes
/// rejection.
proof fn lemma_scan_no_quote(input: Seq<u8>, d: u8, i: int, m: Machine)
    requires
        !(m.state is Quoted),
        forall|k: int| i <= k < input.len() ==> input[k] != QUOTE,
    ensures
        scan(input, d, i, m).err_row is None,
    decreases input.len() - i,
{
    if i < 0 || i >= input.len() {
    } else {
        let b = input[i];
        assert(b != QUOTE);
        match m.state {
            ScanState::Start => {
                if b == d {
                    lemma_scan_no_quote(input, d, i + 1, Machine {
                        state: ScanState::Start,
                        field: Seq::empty(),
                        rec: m.rec.push(m.field),
                        out: m.out,
                    });
                } else if b == 10 {
                    if m.rec.len() == 0 && m.field.len() == 0 {
                        lemma_scan_no_quote(input, d, i + 1, m);
                    } else {
                        lemma_scan_no_quote(input, d, i + 1, Machine {
                            state: ScanState::Start,
                            field: Seq::empty(),
                            rec: Seq::empty(),
                            out: m.out.push(close_rec(m)),
                        });
                    }
                } else if b == 13 && i + 1 < input.len() && input[i + 1] == 10 {
                    if m.rec.len() == 0 && m.field.len() == 0 {
                        lemma_scan_no_quote(input, d, i + 2, m);
                    } else {
                        lemma_scan_no_quote(input, d, i + 2, Machine {
                            state: ScanState::Start,
                            field: Seq::empty(),
                            rec: Seq::empty(),
                            out: m.out.push(close_rec(m)),
                        });
                    }
                } else {
                    lemma_scan_no_quote(input, d, i + 1, Machine {
                        state: ScanState::Plain,
                        field: m.field.push(b),
                        ..m
                    });
                }
            },
            ScanState::Plain => {
                if b == d {
                    lemma_scan_no_quote(input, d, i + 1, Machine {
                        state: ScanState::Start,
                        field: Seq::empty(),
                        rec: m.rec.push(m.field),
                        out: m.out,
                    });
                } else if b == 10 {
                    lemma_scan_no_quote(input, d, i + 1, Machine {
                        state: ScanState::Start,
                        field: Seq::empty(),
                        rec: Seq::empty(),
                        out: m.out.push(close_rec(m)),
                    });
                } else if b == 13 && i + 1 < input.len() && input[i + 1] == 10 {
                    lemma_scan_no_quote(input, d, i + 2, Machine {
                        state: ScanState::Start,
                        field: Seq::empty(),
                        rec: Seq::empty(),
                        out: m.out.push(close_rec(m)),
                    });
                } else {
                    lemma_scan_no_quote(input, d, i + 1, Machine {
                        field: m.field.push(b),
                        ..m
                    });
                }
            },
            ScanState::Quoted => {
            },
        }
    }
}

/// Rows of differing widths are never rejected: any input without a quote
/// byte parses without error, whatever its rows' field counts, and the full
/// dump then emits exactly one line per data record, each record rendered
/// with exactly its own fields.
pub proof fn lemma_ragged_rows_not_rejected(input: Seq<u8>, d: u8, has_header: bool)
    requires
        forall|k: int| 0 <= k < input.len() ==> input[k] != QUOTE,
    ensures
        spec_parse(input, d).err_row is None,
        spec_execute(d, Mode::FullDump, has_header, input).1 is None,
        spec_execute(d, Mode::FullDump, has_header, input).0.len() == spec_data(input, d,
            has_header).len(),
        forall|j: int| 0 <= j < spec_data(input, d, has_header).len() ==> spec_execute(d,
            Mode::FullDump, has_header, input).0[j] == spec_render(spec_data(input, d,
            has_header)[j]),
{
    let m0 = Machine {
        state: ScanState::Start,
        field: Seq::empty(),
        rec: Seq::empty(),
        out: Seq::empty(),
    };
    lemma_scan_no_quote(input, d, 0, m0);
    assert(spec_parse(input, d) == scan(input, d, 0, m0));
    assert(spec_execute(d, Mode::FullDump, has_header, input).0 == spec_render_all(spec_data(
        input, d, has_header)));
}

} // verus!

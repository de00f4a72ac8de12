//! The query executor: interprets the resolved mode and drives the record
//! stream reader, producing the output lines and, when a record fails, the
//! error that ends the run. Lines produced before the failure stand.

use vstd::prelude::*;
use crate::record::spec_render;
use crate::parse::{spec_parse, fields_view, records_view};
use crate::reader::{RecordReader, HeaderError, spec_header, spec_data};

verus! {

/// What the tool is asked to do, in precedence order: count the records,
/// print the header, print one field of every record, or print every record.
#[derive(Clone, Copy, Debug, PartialEq, Eq, Structural)]
pub enum Mode {
    Count,
    Header,
    IndexProjection(usize),
    FullDump,
}

/// The resolved configuration the executor runs under.
#[derive(Clone, Copy, Debug)]
pub struct Config {
    /// Field separator, a single byte.
    pub delimiter: u8,
    /// The query to run.
    pub mode: Mode,
    /// Whether the first row of the input is a header.
    pub has_header: bool,
}

/// The mode that a set of command-line switches selects, first match wins:
/// counting, then header output (only while header detection is on; asking
/// for the header with headers disabled falls through), then projection for
/// a non-negative index, then the full dump.
pub open spec fn spec_resolve_mode(count: bool, header: bool, noheader: bool, index: i16) -> Mode {
    if count {
        Mode::Count
    } else if header && !noheader {
        Mode::Header
    } else if index >= 0 {
        Mode::IndexProjection(index as usize)
    } else {
        Mode::FullDump
    }
}

/// Picks the mode from the tool's switches. See [`spec_resolve_mode`].
pub fn resolve_mode(count: bool, header: bool, noheader: bool, index: i16) -> (m: Mode)
    ensures
        m == spec_resolve_mode(count, header, noheader, index),
{
    if count {
        Mode::Count
    } else if header && !noheader {
        Mode::Header
    } else if index >= 0 {
        Mode::IndexProjection(index as usize)
    } else {
        Mode::FullDump
    }
}

/// The delimiter byte a configured delimiter string stands for: a leading
/// two-character tab escape (`\` then `t`) means a literal tab, otherwise
/// the string's first byte; an empty string names no delimiter.
pub open spec fn spec_normalize_delimiter(s: Seq<u8>) -> Option<u8> {
    if s.len() == 0 {
        None
    } else if s.len() >= 2 && s[0] == 92 && s[1] == 116 {
        Some(9u8)
    } else {
        Some(s[0])
    }
}

/// Resolves a delimiter string to its single delimiter byte.
/// See [`spec_normalize_delimiter`].
pub fn normalize_delimiter(s: &Vec<u8>) -> (r: Option<u8>)
    ensures
        r == spec_normalize_delimiter(s@),
{
    if s.len() == 0 {
        None
    } else if s.len() >= 2 && s[0] == 92 && s[1] == 116 {
        Some(9u8)
    } else {
        Some(s[0])
    }
}

/// The bytes `str::trim_end` would strip: ASCII whitespace.
pub open spec fn is_ascii_whitespace(b: u8) -> bool {
    b == 32 || (9 <= b && b <= 13)
}

/// `s` without its trailing ASCII whitespace.
pub open spec fn spec_trim_end(s: Seq<u8>) -> Seq<u8>
    decreases s.len(),
{
    if s.len() > 0 && is_ascii_whitespace(s.last()) {
        spec_trim_end(s.drop_last())
    } else {
        s
    }
}

/// Whether `b` is ASCII whitespace.
fn byte_is_ws(b: u8) -> (r: bool)
    ensures
        r == is_ascii_whitespace(b),
{
    b == 32 || (9 <= b && b <= 13)
}

/// Copies `s` without its trailing ASCII whitespace.
pub fn trim_end(s: &Vec<u8>) -> (r: Vec<u8>)
    ensures
        r@ == spec_trim_end(s@),
{
    let mut end: usize = s.len();
    proof {
        assert(s@.take(end as int) =~= s@);
    }
    while end > 0 && byte_is_ws(s[end - 1])
        invariant
            end <= s@.len(),
            spec_trim_end(s@) == spec_trim_end(s@.take(end as int)),
        decreases end,
    {
        proof {
            let t = s@.take(end as int);
            assert(t.len() == end);
            assert(t.last() == s@[end - 1]);
            assert(t.drop_last() =~= s@.take(end - 1));
        }
        end = end - 1;
    }
    proof {
        let t = s@.take(end as int);
        if end > 0 {
            assert(t.last() == s@[end - 1]);
        }
        assert(spec_trim_end(t) == t);
    }
    let mut r: Vec<u8> = Vec::new();
    let mut j: usize = 0;
    while j < end
        invariant
            j <= end,
            end <= s@.len(),
            r@ == s@.subrange(0, j as int),
        decreases end - j,
    {
        let b = s[j];
        r.push(b);
        proof {
            assert(r@ =~= s@.subrange(0, j + 1));
        }
        j = j + 1;
    }
    proof {
        assert(r@ =~= s@.take(end as int));
    }
    r
}

/// The decimal digits of `n`, most significant first.
pub open spec fn spec_digits(n: nat) -> Seq<u8>
    decreases n,
{
    if n < 10 {
        seq![(48 + n) as u8]
    } else {
        spec_digits(n / 10).push((48 + n % 10) as u8)
    }
}

/// Writes `n` in decimal.
pub fn fmt_usize(n: usize) -> (r: Vec<u8>)
    ensures
        r@ == spec_digits(n as nat),
    decreases n,
{
    if n < 10 {
        let mut v: Vec<u8> = Vec::new();
        v.push(48 + n as u8);
        proof {
            assert(v@ =~= seq![(48 + n as nat) as u8]);
        }
        v
    } else {
        let mut v = fmt_usize(n / 10);
        v.push(48 + (n % 10) as u8);
        proof {
            assert((n as nat) / 10 == (n / 10) as nat);
            assert((n as nat) % 10 == (n % 10) as nat);
        }
        v
    }
}

/// The line Count mode prints for `n` records: `n` in decimal, then
/// `" records"`.
pub open spec fn spec_count_line(n: nat) -> Seq<u8> {
    spec_digits(n) + seq![32u8, 114u8, 101u8, 99u8, 111u8, 114u8, 100u8, 115u8]
}

/// Builds the Count mode line for `n` records.
pub fn count_line(n: usize) -> (r: Vec<u8>)
    ensures
        r@ == spec_count_line(n as nat),
{
    let mut v = fmt_usize(n);
    v.push(32u8);
    v.push(114u8);
    v.push(101u8);
    v.push(99u8);
    v.push(111u8);
    v.push(114u8);
    v.push(100u8);
    v.push(115u8);
    proof {
        assert(v@ =~= spec_count_line(n as nat));
    }
    v
}

/// What ends a run early.
#[derive(Clone, Copy, Debug, PartialEq, Eq, Structural)]
pub enum QueryError {
    /// The header was requested but the first row could not be parsed.
    HeaderRead,
    /// Malformed quoting in the input, at the given 1-based row.
    RecordParse { row: usize },
    /// The projection index exceeds a record's field count.
    IndexOutOfRange { index: usize },
}

/// What a run produces: the output lines in order, and the error that ended
/// the run early, if one did. Lines printed before the error stand.
pub struct ExecOutput {
    pub lines: Vec<Vec<u8>>,
    pub err: Option<QueryError>,
}

/// The renderings of every record of `data`, one line per record, each with
/// exactly its own field count.
pub open spec fn spec_render_all(data: Seq<Seq<Seq<u8>>>) -> Seq<Seq<u8>> {
    Seq::new(data.len(), |i: int| spec_render(data[i]))
}

/// The lines and outcome of projecting field `i` from every record of
/// `data`, in order: each in-range field is emitted trimmed of trailing
/// whitespace; the first record with fewer than `i + 1` fields ends the run
/// with an out-of-range error and gets no line; when every record is in
/// range, a pending parse error of the stream is reported after the lines.
pub open spec fn spec_project(data: Seq<Seq<Seq<u8>>>, err_row: Option<int>, i: int) -> (Seq<
    Seq<u8>>, Option<QueryError>)
    decreases data.len(),
{
    if data.len() == 0 {
        (Seq::empty(), match err_row {
            Some(r) => Some(QueryError::RecordParse { row: r as usize }),
            None => None,
        })
    } else if i < data[0].len() {
        let rest = spec_project(data.skip(1), err_row, i);
        (seq![spec_trim_end(data[0][i])] + rest.0, rest.1)
    } else {
        (Seq::empty(), Some(QueryError::IndexOutOfRange { index: i as usize }))
    }
}

/// The output of a whole run: the lines the mode produces over the input's
/// data records, and the error that ends the run, if any.
///
/// Count reports the number of data records (the header row, when one is
/// configured, is not counted). Header prints the header record when one is
/// available, prints nothing when header detection is off, and fails when
/// the header row is malformed. IndexProjection and FullDump stream the
/// records in input order; a malformed row ends either with a parse error
/// after the lines already produced.
pub open spec fn spec_execute(delimiter: u8, mode: Mode, has_header: bool, input: Seq<u8>) -> (
    Seq<Seq<u8>>, Option<QueryError>) {
    let po = spec_parse(input, delimiter);
    let data = spec_data(input, delimiter, has_header);
    match mode {
        Mode::Count => (seq![spec_count_line(data.len())], None),
        Mode::Header => match spec_header(input, delimiter, has_header) {
            Some(h) => (seq![spec_render(h)], None),
            None => if has_header {
                (Seq::empty(), Some(QueryError::HeaderRead))
            } else {
                (Seq::empty(), None)
            },
        },
        Mode::IndexProjection(i) => spec_project(data, po.err_row, i as int),
        Mode::FullDump => (spec_render_all(data), match po.err_row {
            Some(r) => Some(QueryError::RecordParse { row: r as usize }),
            None => None,
        }),
    }
}

/// Runs the configured query over `input` and returns its output lines and
/// outcome. See [`spec_execute`].
pub fn execute(config: &Config, input: Vec<u8>) -> (r: ExecOutput)
    ensures
        fields_view(r.lines@) == spec_execute(config.delimiter, config.mode, config.has_header,
            input@).0,
        r.err == spec_execute(config.delimiter, config.mode, config.has_header, input@).1,
{
    let ghost inb = input@;
    let ghost data = spec_data(inb, config.delimiter, config.has_header);
    let ghost er = spec_parse(inb, config.delimiter).err_row;
    let mut reader = RecordReader::new(input, config.delimiter, config.has_header);
    let mut lines: Vec<Vec<u8>> = Vec::new();
    let mut err: Option<QueryError> = None;
    match config.mode {
        Mode::Count => {
            let n = reader.remaining.len();
            proof {
                assert(records_view(reader.remaining@).len() == reader.remaining@.len());
                assert(data.skip(0) =~= data);
            }
            let line = count_line(n);
            lines.push(line);
            proof {
                assert(fields_view(lines@) =~= seq![spec_count_line(data.len())]);
            }
        },
        Mode::Header => {
            match reader.headers() {
                Ok(h) => {
                    let line = h.render();
                    lines.push(line);
                    proof {
                        let hh = spec_header(inb, config.delimiter,
                            config.has_header)->0;
                        assert(fields_view(lines@) =~= seq![spec_render(hh)]);
                    }
                },
                Err(HeaderError::Unreadable) => {
                    err = Some(QueryError::HeaderRead);
                    proof {
                        assert(fields_view(lines@) =~= Seq::<Seq<u8>>::empty());
                    }
                },
                Err(HeaderError::NoHeader) => {
                    proof {
                        assert(fields_view(lines@) =~= Seq::<Seq<u8>>::empty());
                    }
                },
            }
        },
        Mode::IndexProjection(idx) => {
            let ghost full = spec_project(data, er, idx as int);
            proof {
                assert(data.skip(0) =~= data);
                assert(fields_view(lines@) =~= Seq::<Seq<u8>>::empty());
                assert(full.0 =~= fields_view(lines@) + full.0);
            }
            let mut stop = false;
            while !stop
                invariant
                    reader.wf(),
                    reader.src_bytes@ == inb,
                    reader.src_delim@ == config.delimiter,
                    reader.has_header == config.has_header,
                    data == reader.data_records(),
                    er == spec_parse(inb, config.delimiter).err_row,
                    full == spec_project(data, er, idx as int),
                    !stop ==> err is None,
                    !stop ==> ({
                        let rest = spec_project(data.skip(reader.taken@ as int), er,
                            idx as int);
                        full.0 == fields_view(lines@) + rest.0 && full.1 == rest.1
                    }),
                    stop ==> fields_view(lines@) == full.0 && err == full.1,
                decreases data.len() - reader.taken@ + (if stop { 0int } else { 1int }),
            {
                let ghost t = reader.taken@ as int;
                match reader.next() {
                    Some(Ok(rec)) => {
                        proof {
                            assert(data.skip(t).len() > 0);
                            assert(data.skip(t)[0] == data[t]);
                            assert(data.skip(t).skip(1) =~= data.skip(t + 1));
                        }
                        match rec.get(idx) {
                            Some(fval) => {
                                let line = trim_end(fval);
                                proof {
                                    let prev = fields_view(lines@);
                                    let rest = spec_project(data.skip(t), er, idx as int);
                                    let rest2 = spec_project(data.skip(t + 1), er,
                                        idx as int);
                                    assert(rest.0 == seq![spec_trim_end(data[t][idx as int])]
                                        + rest2.0);
                                    assert(fields_view(lines@.push(line)) =~= prev + seq![
                                        spec_trim_end(data[t][idx as int])]);
                                    assert(prev + (seq![spec_trim_end(data[t][idx as int])]
                                        + rest2.0) =~= (prev + seq![spec_trim_end(
                                        data[t][idx as int])]) + rest2.0);
                                }
                                lines.push(line);
                            },
                            None => {
                                proof {
                                    let rest = spec_project(data.skip(t), er, idx as int);
                                    assert(rest.0 =~= Seq::<Seq<u8>>::empty());
                                    assert(full.0 =~= fields_view(lines@));
                                }
                                err = Some(QueryError::IndexOutOfRange { index: idx });
                                stop = true;
                            },
                        }
                    },
                    Some(Err(e)) => {
                        proof {
                            assert(data.skip(t) =~= Seq::<Seq<Seq<u8>>>::empty());
                            assert(full.0 =~= fields_view(lines@));
                        }
                        err = Some(QueryError::RecordParse { row: e.row });
                        stop = true;
                    },
                    None => {
                        proof {
                            assert(data.skip(t) =~= Seq::<Seq<Seq<u8>>>::empty());
                            assert(full.0 =~= fields_view(lines@));
                        }
                        stop = true;
                    },
                }
            }
        },
        Mode::FullDump => {
            let mut stop = false;
            while !stop
                invariant
                    reader.wf(),
                    reader.src_bytes@ == inb,
                    reader.src_delim@ == config.delimiter,
                    reader.has_header == config.has_header,
                    data == reader.data_records(),
                    er == spec_parse(inb, config.delimiter).err_row,
                    !stop ==> err is None,
                    !stop ==> fields_view(lines@) == spec_render_all(data.take(
                        reader.taken@ as int)),
                    stop ==> fields_view(lines@) == spec_render_all(data),
                    stop ==> err == (match er {
                        Some(r) => Some(QueryError::RecordParse { row: r as usize }),
                        None => None,
                    }),
                decreases data.len() - reader.taken@ + (if stop { 0int } else { 1int }),
            {
                let ghost t = reader.taken@ as int;
                match reader.next() {
                    Some(Ok(rec)) => {
                        let line = rec.render();
                        proof {
                            assert(data.take(t + 1) =~= data.take(t).push(data[t]));
                            assert(spec_render_all(data.take(t + 1)) =~= spec_render_all(
                                data.take(t)).push(spec_render(data[t])));
                            assert(fields_view(lines@.push(line)) =~= fields_view(lines@).push(
                                spec_render(data[t])));
                        }
                        lines.push(line);
                    },
                    Some(Err(e)) => {
                        proof {
                            assert(data.take(t) =~= data);
                        }
                        err = Some(QueryError::RecordParse { row: e.row });
                        stop = true;
                    },
                    None => {
                        proof {
                            assert(data.take(t) =~= data);
                        }
                        stop = true;
                    },
                }
            }
        },
    }
    ExecOutput { lines, err }
}

} // verus!

//! The record stream reader: wraps a byte source, splits it into records,
//! optionally captures the first row as the header, and hands the data
//! records out one at a time, in input order, each consumed once.

use vstd::prelude::*;
use crate::record::Record;
use crate::parse::{spec_parse, parse_records, records_view, ParseError};

verus! {

/// Why no header record could be handed out.
#[derive(Clone, Copy, Debug, PartialEq, Eq, Structural)]
pub enum HeaderError {
    /// The reader was built with header detection disabled: no header exists.
    NoHeader,
    /// A header was requested but the first row could not be parsed.
    Unreadable,
}

/// The header of an input, when one is available: the first row's fields
/// when the input has any row, the empty record when the input has none,
/// and nothing when header detection is off or the first row is malformed.
pub open spec fn spec_header(input: Seq<u8>, d: u8, has_header: bool) -> Option<Seq<Seq<u8>>> {
    let po = spec_parse(input, d);
    if !has_header {
        None
    } else if po.recs.len() > 0 {
        Some(po.recs[0])
    } else if po.err_row is None {
        Some(Seq::empty())
    } else {
        None
    }
}

/// The data records of an input: every parsed record, except the first row
/// when it is taken as the header.
pub open spec fn spec_data(input: Seq<u8>, d: u8, has_header: bool) -> Seq<Seq<Seq<u8>>> {
    let po = spec_parse(input, d);
    if has_header && po.recs.len() > 0 {
        po.recs.skip(1)
    } else {
        po.recs
    }
}

/// Reads a byte source as an ordered sequence of records.
pub struct RecordReader {
    /// The data records not yet handed out, in input order.
    pub remaining: Vec<Record>,
    /// The parse error to report once the complete records are exhausted.
    pub pending_err: Option<ParseError>,
    /// The captured header, when one is available.
    pub header: Option<Record>,
    /// Whether the first row was treated as a header.
    pub has_header: bool,
    /// The bytes the reader was built over.
    pub src_bytes: Ghost<Seq<u8>>,
    /// The delimiter the reader was built with.
    pub src_delim: Ghost<u8>,
    /// How many data records have been handed out so far.
    pub taken: Ghost<nat>,
}

impl RecordReader {
    /// Every record of the underlying input, header row included.
    pub open spec fn all_records(self) -> Seq<Seq<Seq<u8>>> {
        spec_parse(self.src_bytes@, self.src_delim@).recs
    }

    /// The data records of the underlying input.
    pub open spec fn data_records(self) -> Seq<Seq<Seq<u8>>> {
        spec_data(self.src_bytes@, self.src_delim@, self.has_header)
    }

    /// The reader's tie to its input: the records not yet handed out are
    /// exactly the data records after the first `taken`, the stored header
    /// matches the input's header, and the stored error matches the input's
    /// parse error.
    pub open spec fn wf(self) -> bool {
        let po = spec_parse(self.src_bytes@, self.src_delim@);
        &&& self.taken@ <= self.data_records().len()
        &&& records_view(self.remaining@) == self.data_records().skip(self.taken@ as int)
        &&& (match self.header {
            Some(h) => spec_header(self.src_bytes@, self.src_delim@, self.has_header) == Some(
                h@),
            None => spec_header(self.src_bytes@, self.src_delim@, self.has_header) is None,
        })
        &&& (match self.pending_err {
            Some(e) => po.err_row == Some(e.row as int),
            None => po.err_row is None,
        })
    }

    /// Builds a reader over `input`, splitting on `delimiter`. When
    /// `has_header` is true the first row is captured as the header and is
    /// not yielded as a data record; otherwise the first row is data.
    pub fn new(input: Vec<u8>, delimiter: u8, has_header: bool) -> (r: RecordReader)
        ensures
            r.wf(),
            r.src_bytes@ == input@,
            r.src_delim@ == delimiter,
            r.has_header == has_header,
            r.taken@ == 0,
    {
        let (mut recs, err) = parse_records(&input, delimiter);
        let ghost po = spec_parse(input@, delimiter);
        let header: Option<Record> = if has_header {
            if recs.len() > 0 {
                let h = recs.remove(0);
                proof {
                    assert(records_view(recs@) =~= po.recs.skip(1));
                }
                Some(h)
            } else if err.is_none() {
                Some(Record::new())
            } else {
                None
            }
        } else {
            None
        };
        let r = RecordReader {
            remaining: recs,
            pending_err: err,
            header,
            has_header,
            src_bytes: Ghost(input@),
            src_delim: Ghost(delimiter),
            taken: Ghost(0),
        };
        proof {
            assert(r.data_records().skip(0) =~= r.data_records());
        }
        r
    }

    /// The captured header record, or the explicit reason none is available:
    /// `NoHeader` when header detection is off, `Unreadable` when the first
    /// row could not be parsed.
    pub fn headers(&self) -> (r: Result<&Record, HeaderError>)
        requires
            self.wf(),
        ensures
            match r {
                Ok(h) => spec_header(self.src_bytes@, self.src_delim@, self.has_header)
                    == Some(h@),
                Err(e) => spec_header(self.src_bytes@, self.src_delim@, self.has_header)
                    is None && (e is NoHeader <==> !self.has_header),
            },
    {
        match &self.header {
            Some(h) => Ok(h),
            None => {
                if self.has_header {
                    Err(HeaderError::Unreadable)
                } else {
                    Err(HeaderError::NoHeader)
                }
            },
        }
    }

    /// The next data record in input order, or the terminal parse error once
    /// the complete records are exhausted, or nothing when the stream ended
    /// cleanly. A yielded record is consumed: it is not handed out again.
    pub fn next(&mut self) -> (r: Option<Result<Record, ParseError>>)
        requires
            old(self).wf(),
        ensures
            final(self).wf(),
            final(self).src_bytes == old(self).src_bytes,
            final(self).src_delim == old(self).src_delim,
            final(self).has_header == old(self).has_header,
            final(self).header == old(self).header,
            final(self).pending_err == old(self).pending_err,
            match r {
                Some(Ok(rec)) => {
                    &&& old(self).taken@ < old(self).data_records().len()
                    &&& rec@ == old(self).data_records()[old(self).taken@ as int]
                    &&& final(self).taken@ == old(self).taken@ + 1
                },
                Some(Err(e)) => {
                    &&& old(self).taken@ == old(self).data_records().len()
                    &&& old(self).pending_err == Some(e)
                    &&& *final(self) == *old(self)
                },
                None => {
                    &&& old(self).taken@ == old(self).data_records().len()
                    &&& old(self).pending_err is None
                    &&& *final(self) == *old(self)
                },
            },
    {
        if self.remaining.len() > 0 {
            let rec = self.remaining.remove(0);
            proof {
                let data = old(self).data_records();
                let t = old(self).taken@ as int;
                assert(rec@ == records_view(old(self).remaining@)[0]);
                assert(records_view(old(self).remaining@)[0] == data.skip(t)[0]);
                assert(records_view(self.remaining@) =~= records_view(old(self).remaining@).skip(
                    1));
                assert(data.skip(t).skip(1) =~= data.skip(t + 1));
            }
            self.taken = Ghost(self.taken@ + 1);
            Some(Ok(rec))
        } else {
            proof {
                assert(records_view(self.remaining@).len() == 0);
            }
            match self.pending_err {
                Some(e) => Some(Err(e)),
                None => None,
            }
        }
    }
}

/// Builds a reader from a delimiter string, as the surrounding tool hands it
/// over: the first byte of the (already normalized) delimiter string is the
/// delimiter.
pub fn get_reader_from_input(delimiter: &Vec<u8>, has_header: bool, input: Vec<u8>) -> (r:
    RecordReader)
    requires
        delimiter@.len() > 0,
    ensures
        r.wf(),
        r.src_bytes@ == input@,
        r.src_delim@ == delimiter@[0],
        r.has_header == has_header,
        r.taken@ == 0,
{
    RecordReader::new(input, delimiter[0], has_header)
}

} // verus!

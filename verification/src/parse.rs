//! The record stream grammar: a byte-at-a-time state machine that splits a
//! byte sequence into records under a configurable single-byte delimiter,
//! with standard double-quote quoting (doubled quote as escape), rows ended
//! by `\n` or `\r\n`, blank lines skipped, and ragged rows accepted.
//!
//! The only malformed input is an unterminated quoted field at end of input;
//! it is reported with the 1-based position of the offending row.

use vstd::prelude::*;
use crate::record::{Record, QUOTE, LF, CR};

verus! {

/// Where the scanner stands inside the current field.
#[derive(Clone, Copy)]
pub enum ScanState {
    /// At the start of a field: quoting is still possible.
    Start,
    /// Inside an unquoted stretch of a field.
    Plain,
    /// Inside a quoted stretch of a field.
    Quoted,
}

/// The scanner's accumulated state: the bytes of the current field, the
/// fields of the current record, and the completed records, in input order.
pub struct Machine {
    pub state: ScanState,
    pub field: Seq<u8>,
    pub rec: Seq<Seq<u8>>,
    pub out: Seq<Seq<Seq<u8>>>,
}

/// What a parse yields: the complete records, and, when the input ends
/// inside an unterminated quoted field, the 1-based row of that field.
pub struct ParseOut {
    pub recs: Seq<Seq<Seq<u8>>>,
    pub err_row: Option<int>,
}

/// The scanner's state before any byte is read.
pub open spec fn init_machine() -> Machine {
    Machine {
        state: ScanState::Start,
        field: Seq::empty(),
        rec: Seq::empty(),
        out: Seq::empty(),
    }
}

/// One record's worth of fields once the current field is closed.
pub open spec fn close_rec(m: Machine) -> Seq<Seq<u8>> {
    m.rec.push(m.field)
}

/// Runs the scanner over `input[i..]` from state `m`.
///
/// At each byte the checks are made in this order: opening or closing
/// quote, delimiter, `\n`, `\r\n`, literal byte. A row boundary at which
/// nothing of a record has accumulated (a blank line, or the end of input
/// right after a terminator) yields no record.
pub open spec fn scan(input: Seq<u8>, d: u8, i: int, m: Machine) -> ParseOut
    decreases input.len() - i,
{
    if i < 0 || i >= input.len() {
        match m.state {
            ScanState::Quoted => ParseOut { recs: m.out, err_row: Some(m.out.len() as int + 1) },
            ScanState::Start => if m.rec.len() == 0 && m.field.len() == 0 {
                ParseOut { recs: m.out, err_row: None }
            } else {
                ParseOut { recs: m.out.push(close_rec(m)), err_row: None }
            },
            ScanState::Plain => ParseOut { recs: m.out.push(close_rec(m)), err_row: None },
        }
    } else {
        let b = input[i];
        match m.state {
            ScanState::Start => {
                if b == QUOTE {
                    scan(input, d, i + 1, Machine { state: ScanState::Quoted, ..m })
                } else if b == d {
                    scan(input, d, i + 1, Machine {
                        state: ScanState::Start,
                        field: Seq::empty(),
                        rec: m.rec.push(m.field),
                        out: m.out,
                    })
                } else if b == LF {
                    if m.rec.len() == 0 && m.field.len() == 0 {
                        scan(input, d, i + 1, m)
                    } else {
                        scan(input, d, i + 1, Machine {
                            state: ScanState::Start,
                            field: Seq::empty(),
                            rec: Seq::empty(),
                            out: m.out.push(close_rec(m)),
                        })
                    }
                } else if b == CR && i + 1 < input.len() && input[i + 1] == LF {
                    if m.rec.len() == 0 && m.field.len() == 0 {
                        scan(input, d, i + 2, m)
                    } else {
                        scan(input, d, i + 2, Machine {
                            state: ScanState::Start,
                            field: Seq::empty(),
                            rec: Seq::empty(),
                            out: m.out.push(close_rec(m)),
                        })
                    }
                } else {
                    scan(input, d, i + 1, Machine {
                        state: ScanState::Plain,
                        field: m.field.push(b),
                        ..m
                    })
                }
            },
            ScanState::Plain => {
                if b == d {
                    scan(input, d, i + 1, Machine {
                        state: ScanState::Start,
                        field: Seq::empty(),
                        rec: m.rec.push(m.field),
                        out: m.out,
                    })
                } else if b == LF {
                    scan(input, d, i + 1, Machine {
                        state: ScanState::Start,
                        field: Seq::empty(),
                        rec: Seq::empty(),
                        out: m.out.push(close_rec(m)),
                    })
                } else if b == CR && i + 1 < input.len() && input[i + 1] == LF {
                    scan(input, d, i + 2, Machine {
                        state: ScanState::Start,
                        field: Seq::empty(),
                        rec: Seq::empty(),
                        out: m.out.push(close_rec(m)),
                    })
                } else {
                    scan(input, d, i + 1, Machine { field: m.field.push(b), ..m })
                }
            },
            ScanState::Quoted => {
                if b == QUOTE {
                    if i + 1 < input.len() && input[i + 1] == QUOTE {
                        scan(input, d, i + 2, Machine { field: m.field.push(QUOTE), ..m })
                    } else {
                        scan(input, d, i + 1, Machine { state: ScanState::Plain, ..m })
                    }
                } else {
                    scan(input, d, i + 1, Machine { field: m.field.push(b), ..m })
                }
            },
        }
    }
}

/// The records and the possible parse error of a whole input.
pub open spec fn spec_parse(input: Seq<u8>, d: u8) -> ParseOut {
    scan(input, d, 0, init_machine())
}

/// The field sequences of a sequence of field vectors.
pub open spec fn fields_view(v: Seq<Vec<u8>>) -> Seq<Seq<u8>> {
    Seq::new(v.len(), |i: int| v[i]@)
}

/// The record sequences of a sequence of records.
pub open spec fn records_view(v: Seq<Record>) -> Seq<Seq<Seq<u8>>> {
    Seq::new(v.len(), |i: int| v[i]@)
}

/// Malformed quoting: the input ended inside a quoted field. `row` is the
/// 1-based position of the row in which the unterminated field stands.
#[derive(Clone, Copy, Debug, PartialEq, Eq, Structural)]
pub struct ParseError {
    pub row: usize,
}

/// Splits the whole input into records under delimiter `d`.
///
/// Returns every complete record in input order and, when the input ends
/// inside an unterminated quoted field, the error tagged with that row;
/// no partial record is yielded for the failing row.
pub fn parse_records(input: &Vec<u8>, d: u8) -> (r: (Vec<Record>, Option<ParseError>))
    ensures
        ({
            let po = spec_parse(input@, d);
            records_view(r.0@) == po.recs && (match r.1 {
                Some(e) => po.err_row == Some(e.row as int),
                None => po.err_row is None,
            })
        }),
{
    let mut i: usize = 0;
    let mut st = ScanState::Start;
    let mut field: Vec<u8> = Vec::new();
    let mut rec: Vec<Vec<u8>> = Vec::new();
    let mut out: Vec<Record> = Vec::new();
    proof {
        assert(fields_view(rec@) =~= Seq::<Seq<u8>>::empty());
        assert(records_view(out@) =~= Seq::<Seq<Seq<u8>>>::empty());
        assert(Machine {
            state: st,
            field: field@,
            rec: fields_view(rec@),
            out: records_view(out@),
        } == init_machine());
    }
    while i < input.len()
        invariant
            i <= input@.len(),
            out@.len() <= i,
            st is Quoted ==> out@.len() < i,
            st is Start ==> field@.len() == 0,
            scan(input@, d, i as int, Machine {
                state: st,
                field: field@,
                rec: fields_view(rec@),
                out: records_view(out@),
            }) == spec_parse(input@, d),
        decreases input@.len() - i,
    {
        let ghost m_old = Machine {
            state: st,
            field: field@,
            rec: fields_view(rec@),
            out: records_view(out@),
        };
        let b = input[i];
        match st {
            ScanState::Start => {
                if b == QUOTE {
                    st = ScanState::Quoted;
                    i = i + 1;
                    proof {
                        let m_new = Machine { state: ScanState::Quoted, ..m_old };
                        assert(scan(input@, d, i as int, m_new) == spec_parse(input@, d));
                    }
                } else if b == d {
                    rec.push(field);
                    field = Vec::new();
                    i = i + 1;
                    proof {
                        assert(fields_view(rec@) =~= m_old.rec.push(m_old.field));
                        let m_new = Machine {
                            state: ScanState::Start,
                            field: Seq::empty(),
                            rec: m_old.rec.push(m_old.field),
                            out: m_old.out,
                        };
                        assert(field@ =~= Seq::<u8>::empty());
                        assert(scan(input@, d, i as int, m_new) == spec_parse(input@, d));
                    }
                } else if b == LF {
                    if rec.len() == 0 {
                        i = i + 1;
                    } else {
                        rec.push(field);
                        field = Vec::new();
                        let full = Record { fields: rec };
                        rec = Vec::new();
                        proof {
                            assert(full@ =~= close_rec(m_old));
                            assert(records_view(out@.push(full)) =~= m_old.out.push(close_rec(
                                m_old)));
                        }
                        out.push(full);
                        i = i + 1;
                        proof {
                            let m_new = Machine {
                                state: ScanState::Start,
                                field: Seq::empty(),
                                rec: Seq::empty(),
                                out: m_old.out.push(close_rec(m_old)),
                            };
                            assert(field@ =~= Seq::<u8>::empty());
                            assert(fields_view(rec@) =~= Seq::<Seq<u8>>::empty());
                            assert(scan(input@, d, i as int, m_new) == spec_parse(input@, d));
                        }
                    }
                } else if b == CR && i + 1 < input.len() && input[i + 1] == LF {
                    if rec.len() == 0 {
                        i = i + 2;
                    } else {
                        rec.push(field);
                        field = Vec::new();
                        let full = Record { fields: rec };
                        rec = Vec::new();
                        proof {
                            assert(full@ =~= close_rec(m_old));
                            assert(records_view(out@.push(full)) =~= m_old.out.push(close_rec(
                                m_old)));
                        }
                        out.push(full);
                        i = i + 2;
                        proof {
                            let m_new = Machine {
                                state: ScanState::Start,
                                field: Seq::empty(),
                                rec: Seq::empty(),
                                out: m_old.out.push(close_rec(m_old)),
                            };
                            assert(field@ =~= Seq::<u8>::empty());
                            assert(fields_view(rec@) =~= Seq::<Seq<u8>>::empty());
                            assert(scan(input@, d, i as int, m_new) == spec_parse(input@, d));
                        }
                    }
                } else {
                    field.push(b);
                    st = ScanState::Plain;
                    i = i + 1;
                    proof {
                        let m_new = Machine {
                            state: ScanState::Plain,
                            field: m_old.field.push(b),
                            ..m_old
                        };
                        assert(scan(input@, d, i as int, m_new) == spec_parse(input@, d));
                    }
                }
            },
            ScanState::Plain => {
                if b == d {
                    rec.push(field);
                    field = Vec::new();
                    st = ScanState::Start;
                    i = i + 1;
                    proof {
                        assert(fields_view(rec@) =~= m_old.rec.push(m_old.field));
                        let m_new = Machine {
                            state: ScanState::Start,
                            field: Seq::empty(),
                            rec: m_old.rec.push(m_old.field),
                            out: m_old.out,
                        };
                        assert(field@ =~= Seq::<u8>::empty());
                        assert(scan(input@, d, i as int, m_new) == spec_parse(input@, d));
                    }
                } else if b == LF || (b == CR && i + 1 < input.len() && input[i + 1] == LF) {
                    let step: usize = if b == LF { 1 } else { 2 };
                    rec.push(field);
                    field = Vec::new();
                    let full = Record { fields: rec };
                    rec = Vec::new();
                    proof {
                        assert(full@ =~= close_rec(m_old));
                        assert(records_view(out@.push(full)) =~= m_old.out.push(close_rec(m_old)));
                    }
                    out.push(full);
                    st = ScanState::Start;
                    i = i + step;
                    proof {
                        let m_new = Machine {
                            state: ScanState::Start,
                            field: Seq::empty(),
                            rec: Seq::empty(),
                            out: m_old.out.push(close_rec(m_old)),
                        };
                        assert(field@ =~= Seq::<u8>::empty());
                        assert(fields_view(rec@) =~= Seq::<Seq<u8>>::empty());
                        assert(scan(input@, d, i as int, m_new) == spec_parse(input@, d));
                    }
                } else {
                    field.push(b);
                    i = i + 1;
                    proof {
                        let m_new = Machine { field: m_old.field.push(b), ..m_old };
                        assert(scan(input@, d, i as int, m_new) == spec_parse(input@, d));
                    }
                }
            },
            ScanState::Quoted => {
                if b == QUOTE {
                    if i + 1 < input.len() && input[i + 1] == QUOTE {
                        field.push(QUOTE);
                        i = i + 2;
                        proof {
                            let m_new = Machine { field: m_old.field.push(QUOTE), ..m_old };
                            assert(scan(input@, d, i as int, m_new) == spec_parse(input@, d));
                        }
                    } else {
                        st = ScanState::Plain;
                        i = i + 1;
                        proof {
                            let m_new = Machine { state: ScanState::Plain, ..m_old };
                            assert(scan(input@, d, i as int, m_new) == spec_parse(input@, d));
                        }
                    }
                } else {
                    field.push(b);
                    i = i + 1;
                    proof {
                        let m_new = Machine { field: m_old.field.push(b), ..m_old };
                        assert(scan(input@, d, i as int, m_new) == spec_parse(input@, d));
                    }
                }
            },
        }
    }
    let ghost m_end = Machine {
        state: st,
        field: field@,
        rec: fields_view(rec@),
        out: records_view(out@),
    };
    match st {
        ScanState::Quoted => {
            let row = out.len() + 1;
            proof {
                assert(spec_parse(input@, d).recs == records_view(out@));
                assert(spec_parse(input@, d).err_row == Some(records_view(out@).len() as int + 1));
            }
            (out, Some(ParseError { row }))
        },
        ScanState::Start => {
            if rec.len() == 0 {
                proof {
                    assert(spec_parse(input@, d).recs == records_view(out@));
                    assert(spec_parse(input@, d).err_row is None);
                }
                (out, None)
            } else {
                rec.push(field);
                let full = Record { fields: rec };
                proof {
                    assert(full@ =~= close_rec(m_end));
                    assert(records_view(out@.push(full)) =~= m_end.out.push(close_rec(m_end)));
                }
                out.push(full);
                proof {
                    assert(spec_parse(input@, d).recs == records_view(out@));
                    assert(spec_parse(input@, d).err_row is None);
                }
                (out, None)
            }
        },
        ScanState::Plain => {
            rec.push(field);
            let full = Record { fields: rec };
            proof {
                assert(full@ =~= close_rec(m_end));
                assert(records_view(out@.push(full)) =~= m_end.out.push(close_rec(m_end)));
            }
            out.push(full);
            proof {
                assert(spec_parse(input@, d).recs == records_view(out@));
                assert(spec_parse(input@, d).err_row is None);
            }
            (out, None)
        },
    }
}

} // verus!

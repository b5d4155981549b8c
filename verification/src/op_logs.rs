//! The operation log store: the full-load reader and the streaming
//! reader with double-buffered prefetch.
//!
//! The streaming reader hands records out one at a time from two buffers
//! of fixed capacity. A refill of the idle buffer is requested when the
//! read cursor passes the active buffer's midpoint, so one buffer is
//! always warm. The reader owns the arithmetic and the ordering; reading
//! lines off the disk and parsing them is its caller's work, handed back
//! through [`StreamReader::refill`].

use vstd::prelude::*;
use vstd::math::min;

use crate::document::DocV;
use crate::json::{json_doc_of, parse_json_line};
use crate::op_row::{row_of_doc_v, trans_row_v, Op, OpRow, OpRowV};
use crate::op_row::row_from_doc;
use crate::op_row::trans_value_to_doc;
use crate::regexp::{regex_match, regex_match_of, regex_pattern_ok, regex_pattern_valid};
use crate::views::{lemma_rows_view_index, lemma_strs_view_index, rows_view, strs_view};

verus! {

/// Capacity of each streaming buffer, in records.
pub const BUFF_SIZE: usize = 10000;

/// How an executor run reads the log.
#[derive(Debug, Clone)]
pub enum OpReadMode {
    /// Shared streaming with double-buffered prefetch: each record goes
    /// to exactly one consumer, in file order.
    StreamLine,
    /// A light sequential line reader; the flag disallows returning to
    /// the file start at its end.
    ReadLine(bool),
    /// The whole log in memory, optionally filtered by a regex over the
    /// raw lines.
    FullLine(Option<String>),
}

/// The record one log line denotes: parsed as JSON, read by the record
/// schema, then prepared for dispatch.
pub open spec fn row_of_line_v(s: Seq<char>) -> Option<OpRowV> {
    match json_doc_of(s) {
        Option::Some(d) => match row_of_doc_v(d) {
            Option::Some(r) => Option::Some(trans_row_v(r)),
            Option::None => Option::None,
        },
        Option::None => Option::None,
    }
}

/// Parses one log line into a record ready for dispatch. Returns the
/// record exactly when the line is valid JSON in the record schema.
pub fn parse_row_line(line: &str) -> (r: Option<OpRow>)
    ensures
        match r {
            Option::Some(row) => row_of_line_v(line@) == Option::Some(row@),
            Option::None => row_of_line_v(line@) is None,
        },
{
    match parse_json_line(line) {
        Some(d) => match row_from_doc(&d) {
            Some(row) => Some(trans_value_to_doc(row)),
            None => None,
        },
        None => None,
    }
}

/// What one consumer is asked to fetch into the idle buffer: the records
/// `from .. from + count` of the log, destined for buffer `buffer`.
pub struct RefillRequest {
    /// Which of the two buffers the batch goes to.
    pub buffer: usize,
    /// The index of the first record of the batch.
    pub from: usize,
    /// How many records the batch holds.
    pub count: usize,
}

/// The buffer holds the records of the supplied run starting at `start`.
pub open spec fn holds_window(buf: Seq<OpRow>, sup: Seq<OpRowV>, start: int) -> bool {
    forall|j: int| 0 <= j < buf.len() ==> (#[trigger] buf[j])@ == sup[start + j]
}

/// The streaming reader: a monotone cursor over the log's records,
/// backed by two fixed-capacity buffers.
pub struct StreamReader {
    buf0: Vec<OpRow>,
    buf1: Vec<OpRow>,
    index: usize,
    offset: usize,
    filled: usize,
    length: usize,
    supplied: Ghost<Seq<OpRowV>>,
    returned: Ghost<Seq<OpRowV>>,
}

impl StreamReader {
    /// The read cursor: the index of the next record to hand out.
    pub closed spec fn spec_index(self) -> usize {
        self.index
    }

    /// The number of records in the log.
    pub closed spec fn spec_length(self) -> usize {
        self.length
    }

    /// The nominal prefetch boundary: refills counted in buffer
    /// capacities, whether or not the log had that many records.
    pub closed spec fn spec_offset(self) -> usize {
        self.offset
    }

    /// Everything the refills have supplied, in file order.
    pub closed spec fn supplied_seq(self) -> Seq<OpRowV> {
        self.supplied@
    }

    /// Everything `next` has returned, in order.
    pub closed spec fn returned_seq(self) -> Seq<OpRowV> {
        self.returned@
    }

    /// A refill is wanted: the cursor is at or past the midpoint window
    /// before the prefetch boundary, and the log is not exhausted.
    pub open spec fn refill_pending(self) -> bool {
        self.spec_index() + BUFF_SIZE / 2 >= self.spec_offset() && self.spec_offset()
            < self.spec_length()
    }

    /// The reader's invariant: the cursor never passes what was
    /// supplied; what was returned is exactly the supplied prefix up to
    /// the cursor; and the two buffers hold the last two supplied
    /// windows, the newer one possibly short at the log's tail.
    pub closed spec fn wf(self) -> bool {
        &&& self.length <= usize::MAX - 2 * BUFF_SIZE
        &&& self.offset == self.filled * BUFF_SIZE
        &&& self.offset <= self.length + BUFF_SIZE
        &&& self.supplied@.len() == min(self.offset as int, self.length as int)
        &&& self.index <= self.supplied@.len()
        &&& self.index + 2 * BUFF_SIZE >= self.offset
        &&& self.returned@ == self.supplied@.take(self.index as int)
        &&& self.filled >= 1 ==> {
            let start = (self.filled - 1) * BUFF_SIZE;
            if (self.filled - 1) % 2 == 0 {
                self.buf0@.len() == self.supplied@.len() - start && holds_window(
                    self.buf0@,
                    self.supplied@,
                    start,
                )
            } else {
                self.buf1@.len() == self.supplied@.len() - start && holds_window(
                    self.buf1@,
                    self.supplied@,
                    start,
                )
            }
        }
        &&& self.filled >= 2 ==> {
            let start = (self.filled - 2) * BUFF_SIZE;
            if self.filled % 2 == 0 {
                self.buf0@.len() == BUFF_SIZE && holds_window(self.buf0@, self.supplied@, start)
            } else {
                self.buf1@.len() == BUFF_SIZE && holds_window(self.buf1@, self.supplied@, start)
            }
        }
    }

    /// A fresh reader over a log of `length` records: cursor at the
    /// start, nothing supplied, nothing returned.
    pub fn new(length: usize) -> (r: StreamReader)
        requires
            length <= usize::MAX - 2 * BUFF_SIZE,
        ensures
            r.wf(),
            r.spec_index() == 0,
            r.spec_length() == length,
            r.supplied_seq().len() == 0,
            r.returned_seq().len() == 0,
    {
        let r = StreamReader {
            buf0: Vec::new(),
            buf1: Vec::new(),
            index: 0,
            offset: 0,
            filled: 0,
            length,
            supplied: Ghost(Seq::empty()),
            returned: Ghost(Seq::empty()),
        };
        proof {
            assert(r.supplied@.take(0) =~= r.returned@);
        }
        r
    }

    /// Whether a refill is wanted now, and of what: which buffer, from
    /// which record, and how many records.
    pub fn needs_refill(&self) -> (r: Option<RefillRequest>)
        requires
            self.wf(),
        ensures
            match r {
                Option::Some(req) => {
                    &&& self.refill_pending()
                    &&& req.from == self.spec_offset()
                    &&& req.count == min(
                        BUFF_SIZE as int,
                        self.spec_length() - self.spec_offset(),
                    )
                },
                Option::None => !self.refill_pending(),
            },
    {
        if self.index + BUFF_SIZE / 2 >= self.offset && self.offset < self.length {
            let count = if self.length - self.offset < BUFF_SIZE {
                self.length - self.offset
            } else {
                BUFF_SIZE
            };
            Some(RefillRequest { buffer: self.filled % 2, from: self.offset, count })
        } else {
            None
        }
    }

    /// Takes one fetched batch into the idle buffer and advances the
    /// prefetch boundary by one buffer capacity. The batch must be the
    /// next run of records, in file order, as long as the log allows.
    pub fn refill(&mut self, rows: Vec<OpRow>)
        requires
            old(self).wf(),
            old(self).refill_pending(),
            rows@.len() == min(
                BUFF_SIZE as int,
                old(self).spec_length() - old(self).spec_offset(),
            ),
        ensures
            final(self).wf(),
            !final(self).refill_pending(),
            final(self).spec_index() == old(self).spec_index(),
            final(self).spec_length() == old(self).spec_length(),
            final(self).spec_offset() == old(self).spec_offset() + BUFF_SIZE,
            final(self).supplied_seq() == old(self).supplied_seq() + rows_view(rows@),
            final(self).returned_seq() == old(self).returned_seq(),
    {
        broadcast use lemma_rows_view_index;

        proof {
            assert(self.filled * BUFF_SIZE < self.length);
            assert(self.filled < self.length);
        }
        let ghost old_supplied = self.supplied@;
        let target: usize = self.filled % 2;
        if target == 0 {
            self.buf0 = rows;
        } else {
            self.buf1 = rows;
        }
        self.filled = self.filled + 1;
        self.offset = self.offset + BUFF_SIZE;
        proof {
            let of = old(self).filled as int;
            let nb = if target == 0 {
                self.buf0@
            } else {
                self.buf1@
            };
            self.supplied@ = old_supplied + rows_view(nb);
            assert(self.supplied@.take(self.index as int) =~= old_supplied.take(
                self.index as int,
            ));
            assert(self.offset == self.filled * BUFF_SIZE) by {
                assert((of + 1) * BUFF_SIZE == of * BUFF_SIZE + BUFF_SIZE) by (nonlinear_arith);
            }
            let start = (self.filled - 1) * BUFF_SIZE;
            assert(start == old(self).offset);
            assert(nb.len() == self.supplied@.len() - start);
            assert(holds_window(nb, self.supplied@, start));
            if self.filled >= 2 {
                assert((of - 1) * BUFF_SIZE == of * BUFF_SIZE - BUFF_SIZE) by (nonlinear_arith);
                let ostart = (self.filled - 2) * BUFF_SIZE;
                assert(ostart == old(self).offset - BUFF_SIZE);
                if self.filled % 2 == 0 {
                    assert(self.buf0@ == old(self).buf0@);
                    assert(old(self).buf0@.len() == old_supplied.len() - ostart);
                    assert(old_supplied.len() == old(self).offset);
                    assert(holds_window(old(self).buf0@, old_supplied, ostart));
                    assert forall|j: int| 0 <= j < self.buf0@.len() implies (
                    #[trigger] self.buf0@[j])@ == self.supplied@[ostart + j] by {
                        assert(old(self).buf0@[j]@ == old_supplied[ostart + j]);
                    }
                    assert(holds_window(self.buf0@, self.supplied@, ostart));
                } else {
                    assert(self.buf1@ == old(self).buf1@);
                    assert(old(self).buf1@.len() == old_supplied.len() - ostart);
                    assert(old_supplied.len() == old(self).offset);
                    assert(holds_window(old(self).buf1@, old_supplied, ostart));
                    assert forall|j: int| 0 <= j < self.buf1@.len() implies (
                    #[trigger] self.buf1@[j])@ == self.supplied@[ostart + j] by {
                        assert(old(self).buf1@[j]@ == old_supplied[ostart + j]);
                    }
                    assert(holds_window(self.buf1@, self.supplied@, ostart));
                }
            }
        }
    }

    /// Hands out the next record, or nothing at the log's end. Callers
    /// satisfy any pending refill first.
    pub fn next(&mut self) -> (r: Option<OpRow>)
        requires
            old(self).wf(),
            !old(self).refill_pending(),
        ensures
            final(self).wf(),
            final(self).spec_length() == old(self).spec_length(),
            final(self).supplied_seq() == old(self).supplied_seq(),
            old(self).spec_index() < old(self).spec_length() ==> {
                &&& r matches Some(row) && row@ == old(self).supplied_seq()[old(
                    self,
                ).spec_index() as int]
                &&& final(self).spec_index() == old(self).spec_index() + 1
                &&& final(self).returned_seq() == old(self).returned_seq().push(
                    old(self).supplied_seq()[old(self).spec_index() as int],
                )
            },
            old(self).spec_index() >= old(self).spec_length() ==> {
                &&& r is None
                &&& final(self).spec_index() == old(self).spec_index()
                &&& final(self).returned_seq() == old(self).returned_seq()
            },
    {
        if self.index >= self.length {
            return None;
        }
        proof {
            assert(self.supplied@.len() > 0);
            assert(self.filled >= 1);
        }
        let i = self.index;
        let newest_start = self.offset - BUFF_SIZE;
        let row: OpRow = if i >= newest_start {
            let slot = i - newest_start;
            proof {
                let nb = if (self.filled - 1) % 2 == 0 {
                    self.buf0@
                } else {
                    self.buf1@
                };
                assert(newest_start == (self.filled - 1) * BUFF_SIZE) by {
                    assert(self.filled * BUFF_SIZE - BUFF_SIZE == (self.filled - 1) * BUFF_SIZE)
                        by (nonlinear_arith);
                }
                assert(slot < nb.len());
                assert(nb[slot as int]@ == self.supplied@[i as int]);
            }
            if (self.filled - 1) % 2 == 0 {
                self.buf0[slot].duplicate()
            } else {
                self.buf1[slot].duplicate()
            }
        } else {
            proof {
                assert(self.offset >= 1 * BUFF_SIZE + 1);
                assert(self.filled * BUFF_SIZE >= BUFF_SIZE + 1);
                assert(self.filled >= 2);
            }
            let older_start = self.offset - 2 * BUFF_SIZE;
            let slot = i - older_start;
            proof {
                let ob = if self.filled % 2 == 0 {
                    self.buf0@
                } else {
                    self.buf1@
                };
                assert(older_start == (self.filled - 2) * BUFF_SIZE) by {
                    assert(self.filled * BUFF_SIZE - 2 * BUFF_SIZE == (self.filled - 2)
                        * BUFF_SIZE) by (nonlinear_arith);
                }
                assert(slot < ob.len());
                assert(ob[slot as int]@ == self.supplied@[i as int]);
            }
            if self.filled % 2 == 0 {
                self.buf0[slot].duplicate()
            } else {
                self.buf1[slot].duplicate()
            }
        };
        self.index = i + 1;
        proof {
            self.returned@ = self.returned@.push(self.supplied@[i as int]);
            assert(self.returned@ =~= self.supplied@.take(self.index as int));
        }
        Some(row)
    }
}

/// Law: streaming order. In every well-formed reader state, what `next`
/// has returned, in order, is exactly the leading run of the records the
/// refills supplied from the file: repeated single-threaded `next` calls
/// yield the file's records in file order, each exactly once.
pub proof fn lemma_stream_order(r: StreamReader)
    requires
        r.wf(),
    ensures
        r.supplied_seq().len() == min(r.spec_offset() as int, r.spec_length() as int),
        r.spec_index() <= r.supplied_seq().len(),
        r.spec_index() <= r.spec_length(),
        r.returned_seq() == r.supplied_seq().take(r.spec_index() as int),
{
}

/// Why a full load failed.
#[derive(Debug, PartialEq)]
pub enum LogError {
    /// The filter is not a valid regular expression.
    BadPattern,
    /// The line at this index should hold a record and does not.
    BadLine(usize),
}

/// The filter, if present, is a valid regular expression.
pub open spec fn filter_ok(filter: Option<Seq<char>>) -> bool {
    match filter {
        Option::Some(p) => regex_pattern_ok(p),
        Option::None => true,
    }
}

/// A raw line survives the full load: not empty, not a comment, and
/// matching the filter when one is given.
pub open spec fn line_kept(s: Seq<char>, filter: Option<Seq<char>>) -> bool {
    &&& s.len() > 0
    &&& s[0] != '#'
    &&& match filter {
        Option::Some(p) => regex_match_of(p, s),
        Option::None => true,
    }
}

/// Every kept line parses as a record.
pub open spec fn all_kept_parse(lines: Seq<Seq<char>>, filter: Option<Seq<char>>) -> bool {
    forall|i: int|
        0 <= i < lines.len() && line_kept(#[trigger] lines[i], filter) ==> row_of_line_v(lines[i])
            is Some
}

/// The records a full load yields: the kept lines, parsed, in order.
/// Lines that do not parse contribute nothing; the load only returns
/// this sequence when every kept line parses.
pub open spec fn loaded_rows_v(lines: Seq<Seq<char>>, filter: Option<Seq<char>>) -> Seq<OpRowV>
    decreases lines.len(),
{
    if lines.len() == 0 {
        Seq::empty()
    } else {
        let rest = loaded_rows_v(lines.drop_first(), filter);
        if line_kept(lines[0], filter) {
            match row_of_line_v(lines[0]) {
                Option::Some(r) => seq![r] + rest,
                Option::None => rest,
            }
        } else {
            rest
        }
    }
}

/// Loads a whole log held as raw lines: drops comments, empty lines and
/// lines not matching the filter, and parses the rest, in order. Returns
/// the records exactly when the filter (if any) is a valid regular
/// expression and every kept line parses; otherwise says what failed.
pub fn full_load(lines: &Vec<String>, filter: Option<&str>) -> (r: Result<Vec<OpRow>, LogError>)
    ensures
        match r {
            Result::Ok(rows) => {
                &&& filter_ok(filter_view(filter))
                &&& all_kept_parse(strs_view(lines@), filter_view(filter))
                &&& rows_view(rows@) == loaded_rows_v(strs_view(lines@), filter_view(filter))
            },
            Result::Err(LogError::BadPattern) => {
                &&& filter_view(filter) matches Option::Some(p) && !regex_pattern_ok(p)
            },
            Result::Err(LogError::BadLine(i)) => {
                &&& filter_ok(filter_view(filter))
                &&& i < lines@.len()
                &&& line_kept(strs_view(lines@)[i as int], filter_view(filter))
                &&& row_of_line_v(strs_view(lines@)[i as int]) is None
            },
        },
{
    broadcast use lemma_strs_view_index, lemma_rows_view_index;

    let ghost lv = strs_view(lines@);
    let ghost fv = filter_view(filter);
    if let Some(p) = filter {
        if !regex_pattern_valid(p) {
            return Err(LogError::BadPattern);
        }
    }
    let mut rows: Vec<OpRow> = Vec::new();
    let mut i: usize = 0;
    proof {
        assert(lv.skip(0) =~= lv);
    }
    while i < lines.len()
        invariant
            0 <= i <= lines@.len(),
            lv == strs_view(lines@),
            lv.len() == lines@.len(),
            forall|k: int| 0 <= k < lines@.len() ==> lv[k] == lines@[k]@,
            filter_ok(fv),
            fv == filter_view(filter),
            filter matches Option::Some(p) ==> fv == Option::Some(p@),
            filter is None ==> fv is None,
            loaded_rows_v(lv, fv) =~= rows_view(rows@) + loaded_rows_v(lv.skip(i as int), fv),
            forall|k: int| 0 <= k < i && line_kept(#[trigger] lv[k], fv) ==> row_of_line_v(lv[k])
                is Some,
        decreases lines@.len() - i,
    {
        proof {
            assert(lv.skip(i as int).drop_first() =~= lv.skip(i + 1));
            assert(lv.skip(i as int)[0] == lv[i as int]);
        }
        let line: &String = &lines[i];
        let kept: bool = if line.as_str().is_empty() {
            false
        } else if line.as_str().get_char(0) == '#' {
            false
        } else {
            match filter {
                Some(p) => match regex_match(p, line.as_str()) {
                    Some(b) => b,
                    None => {
                        proof {
                            assert(false);
                        }
                        false
                    },
                },
                None => true,
            }
        };
        if kept {
            match parse_row_line(line.as_str()) {
                Some(row) => {
                    let ghost prev = rows@;
                    let ghost rv = row@;
                    rows.push(row);
                    proof {
                        lemma_rows_view_index(prev);
                        lemma_rows_view_index(rows@);
                        assert(rows_view(rows@) =~= rows_view(prev).push(rv));
                        assert(loaded_rows_v(lv.skip(i as int), fv) == seq![rv] + loaded_rows_v(
                            lv.skip(i + 1),
                            fv,
                        ));
                        assert(rows_view(rows@) + loaded_rows_v(lv.skip(i + 1), fv)
                            =~= rows_view(prev) + loaded_rows_v(lv.skip(i as int), fv));
                    }
                },
                None => {
                    return Err(LogError::BadLine(i));
                },
            }
        }
        i = i + 1;
    }
    proof {
        assert(loaded_rows_v(lv, fv) =~= rows_view(rows@));
    }
    Ok(rows)
}

/// The view of an optional filter text.
pub open spec fn filter_view(filter: Option<&str>) -> Option<Seq<char>> {
    match filter {
        Option::Some(p) => Option::Some(p@),
        Option::None => Option::None,
    }
}

/// What the light sequential read path makes of one raw line, with the
/// end of the file handed in as no line at all: at the end, no record,
/// and the file rewinds to its start unless that is disallowed; a
/// comment line yields the empty record; any other line must parse.
pub open spec fn read_line_outcome_v(line: Option<Seq<char>>, never_loop: bool) -> Option<
    (Option<OpRowV>, bool),
> {
    match line {
        Option::None => Option::Some((Option::None, !never_loop)),
        Option::Some(s) => {
            if s.len() > 0 && s[0] == '#' {
                Option::Some((Option::Some(empty_row_v()), false))
            } else {
                match row_of_line_v(s) {
                    Option::Some(r) => Option::Some((Option::Some(r), false)),
                    Option::None => Option::None,
                }
            }
        },
    }
}

/// The empty record's shape.
pub open spec fn empty_row_v() -> OpRowV {
    OpRowV {
        id: Seq::empty(),
        op: Op::Nop,
        db: Seq::empty(),
        coll: Seq::empty(),
        cmd: DocV::Null,
        ns: Seq::empty(),
        ts: 0,
        args: DocV::Null,
    }
}

/// One step of the light sequential read path. Takes the next raw line,
/// or nothing at the end of the file; gives the record to hand out (none
/// at the end of the file) and whether to rewind to the file's start.
/// Nothing comes back only for a line that should hold a record and does
/// not.
pub fn read_line_record(line: Option<&String>, never_loop: bool) -> (r: Option<(Option<OpRow>, bool)>)
    ensures
        match r {
            Option::Some((row, rewind)) => read_line_outcome_v(line_opt_view(line), never_loop)
                == Option::Some((row_opt_view(row), rewind)),
            Option::None => read_line_outcome_v(line_opt_view(line), never_loop) is None,
        },
{
    match line {
        None => Some((None, !never_loop)),
        Some(s) => {
            if !s.as_str().is_empty() && s.as_str().get_char(0) == '#' {
                Some((Some(OpRow::default()), false))
            } else {
                match parse_row_line(s.as_str()) {
                    Some(row) => Some((Some(row), false)),
                    None => None,
                }
            }
        },
    }
}

/// The view of an optional line.
pub open spec fn line_opt_view(line: Option<&String>) -> Option<Seq<char>> {
    match line {
        Option::Some(s) => Option::Some(s@),
        Option::None => Option::None,
    }
}

/// The view of an optional record.
pub open spec fn row_opt_view(row: Option<OpRow>) -> Option<OpRowV> {
    match row {
        Option::Some(r) => Option::Some(r@),
        Option::None => Option::None,
    }
}

} // verus!

//! Framing: reading 4-line records out of a stream of input lines.
//!
//! A record is a header line (first byte `@`, possibly preceded by skipped
//! non-header lines), one or more sequence lines concatenated until a line
//! whose first byte is `+`, then quality lines concatenated until the
//! accumulated quality reaches the sequence length; excess quality bytes on
//! the last line are discarded.

use vstd::prelude::*;
use crate::record::FastqRecord;
use crate::record::RecordModel;
use crate::record::records_view;
use crate::record::append_bytes;
use crate::record::clone_bytes;

verus! {

/// ASCII `@`, the header line marker.
pub const HEADER_MARK: u8 = 64;

/// ASCII `+`, the separator line marker.
pub const PLUS_MARK: u8 = 43;

/// Framing failures: the input ends inside a record.
#[derive(Clone, Copy, Debug, PartialEq, Eq, Structural)]
pub enum FramingError {
    /// The input ended while sequence lines were being collected.
    TruncatedSequence,
    /// The input ended before the quality reached the sequence length.
    TruncatedQuality,
}

/// The models of a sequence of input lines.
pub open spec fn lines_view(ls: Seq<Vec<u8>>) -> Seq<Seq<u8>> {
    Seq::new(ls.len(), |i: int| ls[i]@)
}

/// Whether a line's first byte is the given marker.
pub open spec fn is_marked_line(l: Seq<u8>, mark: u8) -> bool {
    l.len() > 0 && l[0] == mark
}

/// Index of the first line at or after `i` whose first byte is `mark`.
pub open spec fn spec_find_marked(l: Seq<Seq<u8>>, i: int, mark: u8) -> Option<int>
    decreases l.len() - i when 0 <= i
{
    if i >= l.len() {
        None
    } else if is_marked_line(l[i], mark) {
        Some(i)
    } else {
        spec_find_marked(l, i + 1, mark)
    }
}

/// Concatenation of the lines with indices in `[i, j)`.
pub open spec fn spec_concat_lines(l: Seq<Seq<u8>>, i: int, j: int) -> Seq<u8>
    decreases j - i when i <= j
{
    if i >= j {
        Seq::empty()
    } else {
        l[i] + spec_concat_lines(l, i + 1, j)
    }
}

/// The first index `q >= i` at which quality lines starting with `have`
/// accumulated bytes reach `need` bytes, or `None` when the lines run out
/// first.
pub open spec fn spec_qual_end(l: Seq<Seq<u8>>, i: int, have: int, need: int) -> Option<int>
    decreases l.len() - i when 0 <= i
{
    if have >= need {
        Some(i)
    } else if i >= l.len() {
        None
    } else {
        spec_qual_end(l, i + 1, have + l[i].len(), need)
    }
}

/// Outcome of parsing one record: clean end of input, a framing failure,
/// or a record together with the index of the first unread line.
pub enum ParseStep {
    Finished,
    Failed(FramingError),
    Parsed(RecordModel, int),
}

/// Parse one record from the lines starting at index `i`.
pub open spec fn spec_parse_record(l: Seq<Seq<u8>>, i: int) -> ParseStep {
    match spec_find_marked(l, i, HEADER_MARK) {
        Option::None => ParseStep::Finished,
        Option::Some(h) => match spec_find_marked(l, h + 1, PLUS_MARK) {
            Option::None => ParseStep::Failed(FramingError::TruncatedSequence),
            Option::Some(p) => {
                let sequence = spec_concat_lines(l, h + 1, p);
                match spec_qual_end(l, p + 1, 0, sequence.len() as int) {
                    Option::None => ParseStep::Failed(FramingError::TruncatedQuality),
                    Option::Some(q) => ParseStep::Parsed(
                        RecordModel {
                            header: l[h],
                            sequence: sequence,
                            plus: seq![PLUS_MARK],
                            quality: spec_concat_lines(l, p + 1, q).take(sequence.len() as int),
                        },
                        q,
                    ),
                }
            },
        },
    }
}

pub proof fn lemma_find_marked_bounds(l: Seq<Seq<u8>>, i: int, mark: u8)
    requires
        0 <= i,
    ensures
        spec_find_marked(l, i, mark) is Some ==> i <= spec_find_marked(l, i, mark).unwrap()
            < l.len(),
    decreases l.len() - i,
{
    if i < l.len() && !is_marked_line(l[i], mark) {
        lemma_find_marked_bounds(l, i + 1, mark);
    }
}

pub proof fn lemma_qual_end_bounds(l: Seq<Seq<u8>>, i: int, have: int, need: int)
    requires
        0 <= i <= l.len(),
    ensures
        spec_qual_end(l, i, have, need) is Some ==> {
            let q = spec_qual_end(l, i, have, need).unwrap();
            i <= q <= l.len() && have + spec_concat_lines(l, i, q).len() >= need
        },
    decreases l.len() - i,
{
    if have >= need {
        assert(spec_concat_lines(l, i, i).len() == 0);
    } else if i < l.len() {
        lemma_qual_end_bounds(l, i + 1, have + l[i].len(), need);
        if spec_qual_end(l, i, have, need) is Some {
            let q = spec_qual_end(l, i, have, need).unwrap();
            assert(i < q);
            assert(spec_concat_lines(l, i, q) == l[i] + spec_concat_lines(l, i + 1, q));
        }
    }
}

/// A parsed record advances the position by at least the two marker lines,
/// stays within the input, and satisfies the record invariant.
pub proof fn lemma_parse_record_advances(l: Seq<Seq<u8>>, i: int)
    requires
        0 <= i,
    ensures
        spec_parse_record(l, i) matches ParseStep::Parsed(rec, n) ==> i + 2 <= n <= l.len()
            && rec.wf(),
{
    lemma_find_marked_bounds(l, i, HEADER_MARK);
    match spec_find_marked(l, i, HEADER_MARK) {
        Option::Some(h) => {
            lemma_find_marked_bounds(l, h + 1, PLUS_MARK);
            match spec_find_marked(l, h + 1, PLUS_MARK) {
                Option::Some(p) => {
                    let sequence = spec_concat_lines(l, h + 1, p);
                    lemma_qual_end_bounds(l, p + 1, 0, sequence.len() as int);
                },
                Option::None => {},
            }
        },
        Option::None => {},
    }
}

/// Appending one more line extends a line concatenation at its end.
pub proof fn lemma_concat_snoc(l: Seq<Seq<u8>>, i: int, j: int)
    requires
        i <= j,
    ensures
        spec_concat_lines(l, i, j + 1) == spec_concat_lines(l, i, j) + l[j],
    decreases j - i,
{
    if i == j {
        assert(spec_concat_lines(l, j + 1, j + 1) =~= Seq::<u8>::empty());
        assert(spec_concat_lines(l, i, j + 1) =~= spec_concat_lines(l, i, j) + l[j]);
    } else {
        lemma_concat_snoc(l, i + 1, j);
        assert(spec_concat_lines(l, i, j + 1) =~= spec_concat_lines(l, i, j) + l[j]);
    }
}

/// Whether a line's first byte is `mark`.
pub fn starts_with_mark(line: &Vec<u8>, mark: u8) -> (r: bool)
    ensures
        r == is_marked_line(line@, mark),
{
    line.len() > 0 && line[0] == mark
}

/// Read one record from `lines` starting at line index `start`.
///
/// Returns the record and the index of the first unread line, `None` at a
/// clean end of input, or the framing failure.
pub fn read_fastq_record(lines: &Vec<Vec<u8>>, start: usize) -> (r: Result<
    Option<(FastqRecord, usize)>,
    FramingError,
>)
    requires
        start <= lines@.len(),
    ensures
        ({
            let l = lines_view(lines@);
            match r {
                Result::Ok(opt) => match opt {
                    Option::None => spec_parse_record(l, start as int) == ParseStep::Finished,
                    Option::Some(pr) => spec_parse_record(l, start as int) == ParseStep::Parsed(
                        pr.0@,
                        pr.1 as int,
                    ) && start + 2 <= pr.1 <= lines@.len() && pr.0@.wf(),
                },
                Result::Err(e) => spec_parse_record(l, start as int) == ParseStep::Failed(e),
            }
        }),
{
    let ghost l = lines_view(lines@);
    let n = lines.len();

    // Find the header line, skipping anything else.
    let mut h = start;
    while h < n && !starts_with_mark(&lines[h], HEADER_MARK)
        invariant
            start <= h <= n,
            n == lines@.len(),
            l == lines_view(lines@),
            spec_find_marked(l, start as int, HEADER_MARK) == spec_find_marked(
                l,
                h as int,
                HEADER_MARK,
            ),
        decreases n - h,
    {
        h = h + 1;
    }
    if h == n {
        return Result::Ok(Option::None);
    }

    // Collect sequence lines until the separator line.
    let mut p = h + 1;
    let mut sequence: Vec<u8> = Vec::new();
    while p < n && !starts_with_mark(&lines[p], PLUS_MARK)
        invariant
            start <= h < n,
            h + 1 <= p <= n,
            n == lines@.len(),
            l == lines_view(lines@),
            spec_find_marked(l, start as int, HEADER_MARK) == Option::Some(h as int),
            spec_find_marked(l, h + 1, PLUS_MARK) == spec_find_marked(l, p as int, PLUS_MARK),
            sequence@ == spec_concat_lines(l, h + 1, p as int),
        decreases n - p,
    {
        append_bytes(&mut sequence, lines[p].as_slice());
        proof {
            lemma_concat_snoc(l, h + 1, p as int);
        }
        p = p + 1;
    }
    if p == n {
        return Result::Err(FramingError::TruncatedSequence);
    }

    // Collect quality lines until the sequence length is reached.
    let need = sequence.len();
    let mut q = p + 1;
    let mut quality: Vec<u8> = Vec::new();
    while quality.len() < need
        invariant
            start <= h < n,
            h + 1 <= p < n,
            p + 1 <= q <= n,
            n == lines@.len(),
            l == lines_view(lines@),
            spec_find_marked(l, start as int, HEADER_MARK) == Option::Some(h as int),
            spec_find_marked(l, h + 1, PLUS_MARK) == Option::Some(p as int),
            sequence@ == spec_concat_lines(l, h + 1, p as int),
            need == sequence@.len(),
            quality@ == spec_concat_lines(l, p + 1, q as int),
            spec_qual_end(l, p + 1, 0, need as int) == spec_qual_end(
                l,
                q as int,
                quality@.len() as int,
                need as int,
            ),
        decreases n - q + (if quality@.len() < need { 1int } else { 0int }),
    {
        if q == n {
            return Result::Err(FramingError::TruncatedQuality);
        }
        append_bytes(&mut quality, lines[q].as_slice());
        proof {
            lemma_concat_snoc(l, p + 1, q as int);
        }
        q = q + 1;
    }
    quality.truncate(need);
    let header = clone_bytes(&lines[h]);
    let mut plus: Vec<u8> = Vec::new();
    plus.push(PLUS_MARK);
    proof {
        assert(plus@ =~= seq![PLUS_MARK]);
        assert(quality@ =~= spec_concat_lines(l, p + 1, q as int).take(need as int));
    }
    let record = FastqRecord::new(header, sequence, plus, quality);
    Result::Ok(Option::Some((record, q)))
}

/// Outcome of reading a batch: the records up to the batch size with the
/// index of the first unread line, or a framing failure.
pub enum BatchStep {
    Records(Seq<RecordModel>, int),
    Failed(FramingError),
}

/// Parse up to `k` records from the lines starting at index `i`.
pub open spec fn spec_parse_batch(l: Seq<Seq<u8>>, i: int, k: nat) -> BatchStep
    decreases k,
{
    if k == 0 {
        BatchStep::Records(Seq::empty(), i)
    } else {
        match spec_parse_record(l, i) {
            ParseStep::Finished => BatchStep::Records(Seq::empty(), i),
            ParseStep::Failed(e) => BatchStep::Failed(e),
            ParseStep::Parsed(rec, next) => match spec_parse_batch(l, next, (k - 1) as nat) {
                BatchStep::Records(rest, fin) => BatchStep::Records(seq![rec] + rest, fin),
                BatchStep::Failed(e) => BatchStep::Failed(e),
            },
        }
    }
}

/// Read up to `batch_size` records from `lines` starting at line index
/// `start`.  Returns the records with the index of the first unread line,
/// or the first framing failure.
pub fn read_fastq_batch(lines: &Vec<Vec<u8>>, start: usize, batch_size: usize) -> (r: Result<
    (Vec<FastqRecord>, usize),
    FramingError,
>)
    requires
        start <= lines@.len(),
    ensures
        ({
            let l = lines_view(lines@);
            match r {
                Result::Ok(pair) => spec_parse_batch(l, start as int, batch_size as nat)
                    == BatchStep::Records(records_view(pair.0@), pair.1 as int) && start <= pair.1
                    <= lines@.len() && pair.0@.len() <= batch_size && (forall|i: int|
                    0 <= i < pair.0@.len() ==> (#[trigger] pair.0@[i])@.wf()),
                Result::Err(e) => spec_parse_batch(l, start as int, batch_size as nat)
                    == BatchStep::Failed(e),
            }
        }),
{
    let ghost l = lines_view(lines@);
    let mut batch: Vec<FastqRecord> = Vec::new();
    let mut pos = start;
    let mut count: usize = 0;
    let mut done = false;
    while count < batch_size && !done
        invariant
            start <= pos <= lines@.len(),
            count <= batch_size,
            l == lines_view(lines@),
            batch@.len() == count,
            forall|i: int| 0 <= i < batch@.len() ==> (#[trigger] batch@[i])@.wf(),
            spec_parse_batch(l, start as int, batch_size as nat) == (match spec_parse_batch(
                l,
                pos as int,
                (batch_size - count) as nat,
            ) {
                BatchStep::Records(rest, fin) => BatchStep::Records(
                    records_view(batch@) + rest,
                    fin,
                ),
                BatchStep::Failed(e) => BatchStep::Failed(e),
            }),
            done ==> spec_parse_record(l, pos as int) == ParseStep::Finished,
        decreases batch_size - count + (if done { 0int } else { 1int }),
    {
        match read_fastq_record(lines, pos) {
            Result::Ok(Option::Some((rec, next))) => {
                proof {
                    let k = (batch_size - count) as nat;
                    assert(spec_parse_batch(l, pos as int, k) == (
                    match spec_parse_batch(l, next as int, (k - 1) as nat) {
                        BatchStep::Records(rest, fin) => BatchStep::Records(
                            seq![rec@] + rest,
                            fin,
                        ),
                        BatchStep::Failed(e) => BatchStep::Failed(e),
                    }));
                    assert(records_view(batch@.push(rec)) =~= records_view(batch@) + seq![rec@]);
                    match spec_parse_batch(l, next as int, (k - 1) as nat) {
                        BatchStep::Records(rest, fin) => {
                            assert((records_view(batch@) + seq![rec@]) + rest =~= records_view(
                                batch@,
                            ) + (seq![rec@] + rest));
                        },
                        BatchStep::Failed(_) => {},
                    }
                }
                batch.push(rec);
                pos = next;
                count = count + 1;
            },
            Result::Ok(Option::None) => {
                done = true;
            },
            Result::Err(e) => {
                return Result::Err(e);
            },
        }
    }
    proof {
        if !done {
            assert((batch_size - count) as nat == 0);
        }
        assert(records_view(batch@) + Seq::<RecordModel>::empty() =~= records_view(batch@));
    }
    Result::Ok((batch, pos))
}

} // verus!

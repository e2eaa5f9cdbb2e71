//! The sequential core of the pipeline: read both streams in lock-step,
//! transform and filter each pair, distribute the results to the three
//! outputs, and count.  The concurrent process around the library applies
//! the same per-batch functions from several workers; the transform
//! distributes over batch concatenation, so only order across batches can
//! differ, never content.

use vstd::prelude::*;
use crate::record::FastqRecord;
use crate::record::RecordModel;
use crate::record::records_view;
use crate::parser::FramingError;
use crate::parser::ParseStep;
use crate::parser::lines_view;
use crate::parser::spec_parse_record;
use crate::parser::lemma_parse_record_advances;
use crate::parser::read_fastq_record;
use crate::process::ProcessedRecord;
use crate::process::pair_accepted;
use crate::process::spec_zip_min;
use crate::process::spec_process_pair;
use crate::process::spec_triples;
use crate::process::triples_view;
use crate::process::process_record_pair;
use crate::output::firsts;
use crate::output::seconds;
use crate::output::thirds;
use crate::output::split_triples;
use crate::stats::Statistics;

verus! {

/// Outcome of reading both streams in lock-step: the pairs read before
/// either stream ended cleanly, or the first framing failure.
pub enum PairsStep {
    Pairs(Seq<(RecordModel, RecordModel)>),
    Failed(FramingError),
}

/// The pairs obtained by reading one record from each stream per step,
/// starting at line indices `i1` and `i2`.  Reading stops at the first
/// step on which either stream ends cleanly; records of the longer stream
/// beyond that step are never read.  A framing failure of the primary
/// stream is reported before one of the combined stream at the same step.
pub open spec fn spec_read_pairs(l1: Seq<Seq<u8>>, l2: Seq<Seq<u8>>, i1: int, i2: int) -> PairsStep
    decreases l1.len() - i1 when 0 <= i1
{
    match spec_parse_record(l1, i1) {
        ParseStep::Finished => PairsStep::Pairs(Seq::empty()),
        ParseStep::Failed(e) => PairsStep::Failed(e),
        ParseStep::Parsed(r1, n1) => match spec_parse_record(l2, i2) {
            ParseStep::Finished => PairsStep::Pairs(Seq::empty()),
            ParseStep::Failed(e) => PairsStep::Failed(e),
            ParseStep::Parsed(r2, n2) => {
                proof {
                    lemma_parse_record_advances(l1, i1);
                }
                match spec_read_pairs(l1, l2, n1, n2) {
                    PairsStep::Pairs(rest) => PairsStep::Pairs(seq![(r1, r2)] + rest),
                    PairsStep::Failed(e) => PairsStep::Failed(e),
                }
            },
        },
    }
}

/// All records of one stream, parsed to its clean end, or `None` when a
/// framing failure occurs first.
pub open spec fn spec_records(l: Seq<Seq<u8>>, i: int) -> Option<Seq<RecordModel>>
    decreases l.len() - i when 0 <= i
{
    match spec_parse_record(l, i) {
        ParseStep::Finished => Option::Some(Seq::empty()),
        ParseStep::Failed(_) => Option::None,
        ParseStep::Parsed(rec, n) => {
            proof {
                lemma_parse_record_advances(l, i);
            }
            match spec_records(l, n) {
                Option::Some(rest) => Option::Some(seq![rec] + rest),
                Option::None => Option::None,
            }
        },
    }
}

/// Law: pairing is positional.  When both streams parse cleanly to their
/// ends, reading them in lock-step yields exactly the positional zip of
/// the two record lists, truncated to the shorter one; in particular the
/// number of pairs read is the smaller record count.
pub proof fn lemma_pairing_is_positional(l1: Seq<Seq<u8>>, l2: Seq<Seq<u8>>, i1: int, i2: int)
    requires
        0 <= i1,
        0 <= i2,
        spec_records(l1, i1) is Some,
        spec_records(l2, i2) is Some,
    ensures
        spec_read_pairs(l1, l2, i1, i2) == PairsStep::Pairs(
            spec_zip_min(
                spec_records(l1, i1).unwrap(),
                spec_records(l2, i2).unwrap(),
            ),
        ),
    decreases l1.len() - i1,
{
    let rs1 = spec_records(l1, i1).unwrap();
    let rs2 = spec_records(l2, i2).unwrap();
    lemma_parse_record_advances(l1, i1);
    match spec_parse_record(l1, i1) {
        ParseStep::Finished => {
            assert(spec_zip_min(rs1, rs2) =~= Seq::<(
                RecordModel,
                RecordModel,
            )>::empty());
        },
        ParseStep::Failed(_) => {},
        ParseStep::Parsed(r1, n1) => {
            match spec_parse_record(l2, i2) {
                ParseStep::Finished => {
                    assert(spec_zip_min(rs1, rs2) =~= Seq::<(
                        RecordModel,
                        RecordModel,
                    )>::empty());
                },
                ParseStep::Failed(_) => {},
                ParseStep::Parsed(r2, n2) => {
                    lemma_parse_record_advances(l2, i2);
                    lemma_pairing_is_positional(l1, l2, n1, n2);
                    let rest1 = spec_records(l1, n1).unwrap();
                    let rest2 = spec_records(l2, n2).unwrap();
                    assert(rs1 == seq![r1] + rest1);
                    assert(rs2 == seq![r2] + rest2);
                    assert(spec_zip_min(rs1, rs2) =~= seq![(r1, r2)]
                        + spec_zip_min(rest1, rest2));
                },
            }
        },
    }
}

/// Everything a finished run yields: the three output record lists and
/// the final counters.
pub struct PipelineResult {
    pub r1_records: Vec<FastqRecord>,
    pub r2_records: Vec<FastqRecord>,
    pub r3_records: Vec<FastqRecord>,
    pub stats: Statistics,
}

/// Run the whole pipeline over two streams of input lines: read pairs in
/// lock-step until either stream ends, transform and filter each pair,
/// and de-interleave the results.  Every pair read is counted exactly
/// once as processed or filtered, and each of the three outputs holds
/// exactly one record per processed pair, in pair order.
pub fn run_pipeline(r1_lines: &Vec<Vec<u8>>, r2_lines: &Vec<Vec<u8>>) -> (r: Result<
    PipelineResult,
    FramingError,
>)
    ensures
        ({
            let step = spec_read_pairs(lines_view(r1_lines@), lines_view(r2_lines@), 0, 0);
            match r {
                Result::Ok(out) => match step {
                    PairsStep::Pairs(ps) => {
                        let ts = spec_triples(ps);
                        &&& out.stats.read == ps.len()
                        &&& out.stats.processed == ts.len()
                        &&& out.stats.processed + out.stats.filtered == out.stats.read
                        &&& records_view(out.r1_records@) == firsts(ts)
                        &&& records_view(out.r2_records@) == seconds(ts)
                        &&& records_view(out.r3_records@) == thirds(ts)
                        &&& out.r1_records@.len() == ts.len()
                        &&& out.r2_records@.len() == ts.len()
                        &&& out.r3_records@.len() == ts.len()
                    },
                    PairsStep::Failed(_) => false,
                },
                Result::Err(e) => step == PairsStep::Failed(e),
            }
        }),
{
    let ghost l1 = lines_view(r1_lines@);
    let ghost l2 = lines_view(r2_lines@);
    let mut triples: Vec<ProcessedRecord> = Vec::new();
    let mut stats = Statistics::new();
    let mut p1: usize = 0;
    let mut p2: usize = 0;
    let ghost mut gpairs: Seq<(RecordModel, RecordModel)> = Seq::empty();
    let mut done = false;
    while !done
        invariant
            l1 == lines_view(r1_lines@),
            l2 == lines_view(r2_lines@),
            p1 <= r1_lines@.len(),
            p2 <= r2_lines@.len(),
            2 * gpairs.len() <= p1,
            stats.read == gpairs.len(),
            stats.processed == spec_triples(gpairs).len(),
            stats.processed + stats.filtered == stats.read,
            triples_view(triples@) == spec_triples(gpairs),
            spec_read_pairs(l1, l2, 0, 0) == (match spec_read_pairs(l1, l2, p1 as int, p2 as int) {
                PairsStep::Pairs(rest) => PairsStep::Pairs(gpairs + rest),
                PairsStep::Failed(e) => PairsStep::Failed(e),
            }),
            done ==> spec_read_pairs(l1, l2, p1 as int, p2 as int) == PairsStep::Pairs(
                Seq::empty(),
            ),
        decreases r1_lines@.len() - p1 + (if done { 0int } else { 1int }),
    {
        match read_fastq_record(r1_lines, p1) {
            Result::Err(e) => {
                return Result::Err(e);
            },
            Result::Ok(Option::None) => {
                done = true;
            },
            Result::Ok(Option::Some((rec1, n1))) => {
                match read_fastq_record(r2_lines, p2) {
                    Result::Err(e) => {
                        return Result::Err(e);
                    },
                    Result::Ok(Option::None) => {
                        done = true;
                    },
                    Result::Ok(Option::Some((rec2, n2))) => {
                        let ghost m1 = rec1@;
                        let ghost m2 = rec2@;
                        let ghost gp2 = gpairs.push((m1, m2));
                        proof {
                            assert(gp2.drop_last() =~= gpairs);
                            assert(gp2.last() == (m1, m2));
                            assert(gpairs + (seq![(m1, m2)]
                                + Seq::<(RecordModel, RecordModel)>::empty()) =~= gp2);
                            match spec_read_pairs(l1, l2, n1 as int, n2 as int) {
                                PairsStep::Pairs(rest) => {
                                    assert(gpairs + (seq![(m1, m2)] + rest) =~= gp2 + rest);
                                },
                                PairsStep::Failed(_) => {},
                            }
                        }
                        stats.add_read(1);
                        match process_record_pair(rec1, rec2) {
                            Option::Some(t) => {
                                proof {
                                    assert(spec_triples(gp2) =~= spec_triples(gpairs) + seq![
                                        spec_process_pair(m1, m2),
                                    ]);
                                    assert(triples_view(triples@.push(t)) =~= spec_triples(gp2));
                                }
                                triples.push(t);
                                stats.record_batch(1, 1);
                            },
                            Option::None => {
                                proof {
                                    assert(spec_triples(gp2) =~= spec_triples(gpairs));
                                }
                                stats.record_batch(1, 0);
                            },
                        }
                        proof {
                            gpairs = gp2;
                        }
                        p1 = n1;
                        p2 = n2;
                    },
                }
            },
        }
    }
    proof {
        assert(gpairs + Seq::<(RecordModel, RecordModel)>::empty() =~= gpairs);
    }
    let (out1, out2, out3) = split_triples(&triples);
    Result::Ok(
        PipelineResult { r1_records: out1, r2_records: out2, r3_records: out3, stats: stats },
    )
}

} // verus!

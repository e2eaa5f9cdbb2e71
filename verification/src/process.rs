//! The per-pair transform/filter and batch processing.

use vstd::prelude::*;
use crate::stats::Statistics;
use crate::record::FastqRecord;
use crate::record::RecordModel;
use crate::record::records_view;
use crate::record::clone_bytes;
use crate::transform::spec_base_header;
use crate::transform::spec_revcomp;
use crate::transform::spec_reverse;
use crate::transform::extract_base_header;
use crate::transform::reverse_complement;

verus! {

/// Required length of the combined-stream sequence.
pub const COMBINED_LEN: usize = 166;

/// Length of the forward insert prefix kept in the third output.
pub const INSERT_LEN: usize = 150;

/// Mathematical model of one transform result: three record models.
pub struct TripleModel {
    pub r1_out: RecordModel,
    pub r2_out: RecordModel,
    pub r3_out: RecordModel,
}

/// The three records derived from one accepted pair.
pub struct ProcessedRecord {
    pub r1_out: FastqRecord,
    pub r2_out: FastqRecord,
    pub r3_out: FastqRecord,
}

impl View for ProcessedRecord {
    type V = TripleModel;

    open spec fn view(&self) -> TripleModel {
        TripleModel { r1_out: self.r1_out@, r2_out: self.r2_out@, r3_out: self.r3_out@ }
    }
}

/// The models of a sequence of transform results.
pub open spec fn triples_view(ts: Seq<ProcessedRecord>) -> Seq<TripleModel> {
    Seq::new(ts.len(), |i: int| ts[i]@)
}

/// Whether a pair passes the filter: the combined sequence has the fixed
/// length and the two base identities agree byte for byte.
pub open spec fn pair_accepted(r1: RecordModel, r2: RecordModel) -> bool {
    r2.sequence.len() == COMBINED_LEN
        && spec_base_header(r1.header) == spec_base_header(r2.header)
}

/// The transform of one accepted pair: the primary under its base
/// identity, the reverse-complemented tail of the combined read with its
/// quality reversed, and the forward prefix of the combined read.
pub open spec fn spec_process_pair(r1: RecordModel, r2: RecordModel) -> TripleModel {
    let base = spec_base_header(r1.header);
    TripleModel {
        r1_out: RecordModel {
            header: base,
            sequence: r1.sequence,
            plus: r1.plus,
            quality: r1.quality,
        },
        r2_out: RecordModel {
            header: base,
            sequence: spec_revcomp(r2.sequence.subrange(INSERT_LEN as int, COMBINED_LEN as int)),
            plus: r2.plus,
            quality: spec_reverse(r2.quality.subrange(INSERT_LEN as int, COMBINED_LEN as int)),
        },
        r3_out: RecordModel {
            header: base,
            sequence: r2.sequence.subrange(0, INSERT_LEN as int),
            plus: r2.plus,
            quality: r2.quality.subrange(0, INSERT_LEN as int),
        },
    }
}

/// Compare two byte strings.
pub fn bytes_equal(a: &[u8], b: &[u8]) -> (r: bool)
    ensures
        r <==> a@ == b@,
{
    let n = a.len();
    if n != b.len() {
        return false;
    }
    let mut i: usize = 0;
    while i < n
        invariant
            i <= n,
            n == a@.len(),
            n == b@.len(),
            forall|j: int| 0 <= j < i ==> a@[j] == b@[j],
        decreases n - i,
    {
        if *vstd::slice::slice_index_get(a, i) != *vstd::slice::slice_index_get(b, i) {
            return false;
        }
        i = i + 1;
    }
    proof {
        assert(a@ =~= b@);
    }
    true
}

/// Reverse a byte string.
pub fn reverse_bytes(s: &[u8]) -> (r: Vec<u8>)
    ensures
        r@ == spec_reverse(s@),
{
    let n = s.len();
    let mut out: Vec<u8> = Vec::with_capacity(n);
    let mut i: usize = 0;
    while i < n
        invariant
            i <= n,
            n == s@.len(),
            out@.len() == i,
            forall|j: int| 0 <= j < i ==> out@[j] == s@[n - 1 - j],
        decreases n - i,
    {
        out.push(*vstd::slice::slice_index_get(s, n - 1 - i));
        i = i + 1;
    }
    proof {
        assert(out@ =~= spec_reverse(s@));
    }
    out
}

/// Transform one pair, or reject it.  Success exactly on accepted pairs.
pub fn process_record_pair(r1: FastqRecord, r2: FastqRecord) -> (r: Option<ProcessedRecord>)
    requires
        r1@.wf(),
        r2@.wf(),
    ensures
        r.is_some() <==> pair_accepted(r1@, r2@),
        r.is_some() ==> r.unwrap()@ == spec_process_pair(r1@, r2@),
{
    if r2.sequence.len() != COMBINED_LEN {
        return None;
    }
    let r1_base = extract_base_header(r1.header.as_slice());
    let r2_base = extract_base_header(r2.header.as_slice());
    if !bytes_equal(r1_base, r2_base) {
        return None;
    }
    let base: Vec<u8> = vstd::slice::slice_to_vec(r1_base);

    let tail_seq = vstd::slice::slice_subrange(r2.sequence.as_slice(), INSERT_LEN, COMBINED_LEN);
    let tail_qual = vstd::slice::slice_subrange(r2.quality.as_slice(), INSERT_LEN, COMBINED_LEN);
    let rc_seq = reverse_complement(tail_seq);
    let rc_qual = reverse_bytes(tail_qual);

    let head_seq = vstd::slice::slice_to_vec(
        vstd::slice::slice_subrange(r2.sequence.as_slice(), 0, INSERT_LEN),
    );
    let head_qual = vstd::slice::slice_to_vec(
        vstd::slice::slice_subrange(r2.quality.as_slice(), 0, INSERT_LEN),
    );

    let r1_out = FastqRecord::new(clone_bytes(&base), r1.sequence, r1.plus, r1.quality);
    let r2_out = FastqRecord::new(clone_bytes(&base), rc_seq, clone_bytes(&r2.plus), rc_qual);
    let r3_out = FastqRecord::new(base, head_seq, r2.plus, head_qual);
    Some(ProcessedRecord { r1_out, r2_out, r3_out })
}

/// Pairs of a batch: the two record lists zipped positionally up to the
/// shorter length.
pub open spec fn spec_zip_min(a: Seq<RecordModel>, b: Seq<RecordModel>) -> Seq<(RecordModel, RecordModel)> {
    Seq::new(if a.len() <= b.len() { a.len() } else { b.len() }, |i: int| (a[i], b[i]))
}

/// The transform results of a pair sequence, in order: one triple per
/// accepted pair, nothing for a rejected pair.
pub open spec fn spec_triples(pairs: Seq<(RecordModel, RecordModel)>) -> Seq<TripleModel>
    decreases pairs.len(),
{
    if pairs.len() == 0 {
        Seq::empty()
    } else {
        let last = pairs.last();
        spec_triples(pairs.drop_last()) + if pair_accepted(last.0, last.1) {
            seq![spec_process_pair(last.0, last.1)]
        } else {
            Seq::empty()
        }
    }
}

/// Law: a single accepted pair yields exactly its one triple; a single
/// rejected pair yields none.
pub proof fn lemma_single_pair(r1: RecordModel, r2: RecordModel)
    ensures
        pair_accepted(r1, r2) ==> spec_triples(seq![(r1, r2)]) == seq![spec_process_pair(r1, r2)],
        !pair_accepted(r1, r2) ==> spec_triples(seq![(r1, r2)]) == Seq::<TripleModel>::empty(),
{
    reveal_with_fuel(spec_triples, 2);
    let p = seq![(r1, r2)];
    assert(p.len() == 1);
    assert(p.last() == (r1, r2));
    assert(p.drop_last() =~= Seq::<(RecordModel, RecordModel)>::empty());
    assert(spec_triples(p.drop_last()) == Seq::<TripleModel>::empty());
    if pair_accepted(r1, r2) {
        assert(spec_triples(p) =~= seq![spec_process_pair(r1, r2)]);
    } else {
        assert(spec_triples(p) =~= Seq::<TripleModel>::empty());
    }
}

/// Law: the transform never yields more triples than pairs.
pub proof fn lemma_triples_len(pairs: Seq<(RecordModel, RecordModel)>)
    ensures
        spec_triples(pairs).len() <= pairs.len(),
    decreases pairs.len(),
{
    if pairs.len() > 0 {
        lemma_triples_len(pairs.drop_last());
    }
}

/// Law: the transform distributes over concatenation of pair sequences;
/// within-batch order is kept end to end.
pub proof fn lemma_triples_concat(a: Seq<(RecordModel, RecordModel)>, b: Seq<(RecordModel, RecordModel)>)
    ensures
        spec_triples(a + b) == spec_triples(a) + spec_triples(b),
    decreases b.len(),
{
    if b.len() == 0 {
        assert(a + b =~= a);
        assert(spec_triples(a) + spec_triples(b) =~= spec_triples(a));
    } else {
        lemma_triples_concat(a, b.drop_last());
        assert((a + b).drop_last() =~= a + b.drop_last());
        assert((a + b).last() == b.last());
        if pair_accepted(b.last().0, b.last().1) {
            assert(spec_triples(a + b) =~= spec_triples(a) + spec_triples(b));
        } else {
            assert(spec_triples(b) =~= spec_triples(b.drop_last()));
            assert(spec_triples(a + b) =~= spec_triples(a) + spec_triples(b));
        }
    }
}

/// Law: swapping the order of two batches permutes the triples but
/// keeps their multiset: several workers may reorder batches, yet the
/// content delivered downstream stays the same.
pub proof fn lemma_triples_batch_order(a: Seq<(RecordModel, RecordModel)>, b: Seq<(RecordModel, RecordModel)>)
    ensures
        spec_triples(a + b).to_multiset() == spec_triples(b + a).to_multiset(),
{
    lemma_triples_concat(a, b);
    lemma_triples_concat(b, a);
    vstd::seq_lib::lemma_seq_union_to_multiset_commutative(spec_triples(a), spec_triples(b));
}

/// The concatenated transform results of a sequence of batches, each
/// batch transformed in its own order: what a worker pool delivers when
/// it hands the batches on in the order given.
pub open spec fn spec_triples_of_batches(bs: Seq<Seq<(RecordModel, RecordModel)>>) -> Seq<
    TripleModel,
>
    decreases bs.len(),
{
    if bs.len() == 0 {
        Seq::empty()
    } else {
        spec_triples(bs.first()) + spec_triples_of_batches(bs.drop_first())
    }
}

/// Taking one batch out of the sequence splits the delivered multiset.
pub proof fn lemma_triples_of_batches_remove(bs: Seq<Seq<(RecordModel, RecordModel)>>, j: int)
    requires
        0 <= j < bs.len(),
    ensures
        spec_triples_of_batches(bs).to_multiset() == spec_triples(bs[j]).to_multiset().add(
            spec_triples_of_batches(bs.remove(j)).to_multiset(),
        ),
    decreases bs.len(),
{
    broadcast use vstd::multiset::group_multiset_axioms;

    vstd::seq_lib::lemma_multiset_commutative(
        spec_triples(bs.first()),
        spec_triples_of_batches(bs.drop_first()),
    );
    if j == 0 {
        assert(bs.remove(0) =~= bs.drop_first());
    } else {
        let tail = bs.drop_first();
        lemma_triples_of_batches_remove(tail, j - 1);
        assert(tail[j - 1] == bs[j]);
        assert(bs.remove(j).first() == bs.first());
        assert(bs.remove(j).drop_first() =~= tail.remove(j - 1));
        vstd::seq_lib::lemma_multiset_commutative(
            spec_triples(bs.remove(j).first()),
            spec_triples_of_batches(bs.remove(j).drop_first()),
        );
        assert(spec_triples_of_batches(bs).to_multiset() =~= spec_triples(bs[j]).to_multiset().add(
            spec_triples_of_batches(bs.remove(j)).to_multiset(),
        ));
    }
}

/// Law: handing the same batches to the workers in any order delivers
/// the same multiset of triples.  A worker count above one reorders
/// batches; the content of the three outputs cannot change.
pub proof fn lemma_worker_order_irrelevant(
    bs1: Seq<Seq<(RecordModel, RecordModel)>>,
    bs2: Seq<Seq<(RecordModel, RecordModel)>>,
)
    requires
        bs1.to_multiset() == bs2.to_multiset(),
    ensures
        spec_triples_of_batches(bs1).to_multiset() == spec_triples_of_batches(bs2).to_multiset(),
    decreases bs1.len(),
{
    broadcast use vstd::seq_lib::group_to_multiset_ensures;
    broadcast use vstd::multiset::group_multiset_axioms;

    if bs1.len() == 0 {
        assert(bs2.to_multiset().len() == 0);
        assert(bs2.len() == 0);
    } else {
        let b = bs1.first();
        assert(bs1.contains(b));
        assert(bs2.to_multiset().count(b) > 0);
        assert(bs2.contains(b));
        assert(exists|i: int| 0 <= i < bs2.len() && bs2[i] == b);
        let j = choose|i: int| 0 <= i < bs2.len() && bs2[i] == b;
        assert(bs1.remove(0).to_multiset() =~= bs1.to_multiset().remove(b));
        assert(bs2.remove(j).to_multiset() =~= bs2.to_multiset().remove(b));
        assert(bs1.remove(0) =~= bs1.drop_first());
        lemma_worker_order_irrelevant(bs1.drop_first(), bs2.remove(j));
        lemma_triples_of_batches_remove(bs1, 0);
        lemma_triples_of_batches_remove(bs2, j);
    }
}

/// Transform a batch pair: apply the per-pair transform positionally up
/// to the shorter batch, keeping the batch's order among the accepted
/// pairs.
pub fn process_batch(r1_batch: Vec<FastqRecord>, r2_batch: Vec<FastqRecord>) -> (r: Vec<ProcessedRecord>)
    requires
        forall|i: int| 0 <= i < r1_batch@.len() ==> (#[trigger] r1_batch@[i])@.wf(),
        forall|i: int| 0 <= i < r2_batch@.len() ==> (#[trigger] r2_batch@[i])@.wf(),
    ensures
        triples_view(r@) == spec_triples(spec_zip_min(records_view(r1_batch@), records_view(r2_batch@))),
        r@.len() <= r1_batch@.len() && r@.len() <= r2_batch@.len(),
{
    let ghost pairs = spec_zip_min(records_view(r1_batch@), records_view(r2_batch@));
    let n = if r1_batch.len() <= r2_batch.len() {
        r1_batch.len()
    } else {
        r2_batch.len()
    };
    let mut out: Vec<ProcessedRecord> = Vec::new();
    let mut i: usize = 0;
    while i < n
        invariant
            i <= n,
            n <= r1_batch@.len(),
            n <= r2_batch@.len(),
            pairs == spec_zip_min(records_view(r1_batch@), records_view(r2_batch@)),
            pairs.len() == n,
            forall|k: int| 0 <= k < r1_batch@.len() ==> (#[trigger] r1_batch@[k])@.wf(),
            forall|k: int| 0 <= k < r2_batch@.len() ==> (#[trigger] r2_batch@[k])@.wf(),
            out@.len() <= i,
            triples_view(out@) == spec_triples(pairs.take(i as int)),
        decreases n - i,
    {
        let a = r1_batch[i].clone();
        let b = r2_batch[i].clone();
        proof {
            assert(pairs.take(i + 1).drop_last() =~= pairs.take(i as int));
            assert(pairs.take(i + 1).last() == pairs[i as int]);
        }
        if let Some(t) = process_record_pair(a, b) {
            out.push(t);
            proof {
                assert(triples_view(out@) =~= spec_triples(pairs.take(i as int))
                    + seq![spec_process_pair(pairs[i as int].0, pairs[i as int].1)]);
            }
        }
        i = i + 1;
    }
    proof {
        assert(pairs.take(n as int) =~= pairs);
    }
    out
}

/// One worker step: transform a batch pair and count its outcome, one
/// processed-count increment per accepted pair and one filtered-count
/// increment per rejected pair, once per batch.
pub fn process_batch_counted(
    r1_batch: Vec<FastqRecord>,
    r2_batch: Vec<FastqRecord>,
    stats: &mut Statistics,
) -> (r: Vec<ProcessedRecord>)
    requires
        forall|i: int| 0 <= i < r1_batch@.len() ==> (#[trigger] r1_batch@[i])@.wf(),
        forall|i: int| 0 <= i < r2_batch@.len() ==> (#[trigger] r2_batch@[i])@.wf(),
        old(stats).processed + r1_batch@.len() <= usize::MAX,
        old(stats).filtered + r1_batch@.len() <= usize::MAX,
    ensures
        ({
            let pairs = spec_zip_min(records_view(r1_batch@), records_view(r2_batch@));
            &&& triples_view(r@) == spec_triples(pairs)
            &&& final(stats).read == old(stats).read
            &&& final(stats).processed == old(stats).processed + r@.len()
            &&& final(stats).filtered == old(stats).filtered + (pairs.len() - r@.len())
        }),
{
    let n = if r1_batch.len() <= r2_batch.len() {
        r1_batch.len()
    } else {
        r2_batch.len()
    };
    let results = process_batch(r1_batch, r2_batch);
    proof {
        let pairs = spec_zip_min(records_view(r1_batch@), records_view(r2_batch@));
        lemma_triples_len(pairs);
    }
    stats.record_batch(n, results.len());
    results
}

} // verus!

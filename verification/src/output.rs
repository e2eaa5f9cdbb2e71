//! Distribution of transform results to the three destinations, batch
//! serialization, and output naming.

use vstd::prelude::*;
use crate::record::FastqRecord;
use crate::record::RecordModel;
use crate::record::records_view;
use crate::record::spec_serialized;
use crate::record::append_bytes;
use crate::process::ProcessedRecord;
use crate::process::TripleModel;
use crate::process::triples_view;

verus! {

/// The primary-output records of a sequence of triples.
pub open spec fn firsts(ts: Seq<TripleModel>) -> Seq<RecordModel> {
    Seq::new(ts.len(), |i: int| ts[i].r1_out)
}

/// The barcode-tail-output records of a sequence of triples.
pub open spec fn seconds(ts: Seq<TripleModel>) -> Seq<RecordModel> {
    Seq::new(ts.len(), |i: int| ts[i].r2_out)
}

/// The insert-prefix-output records of a sequence of triples.
pub open spec fn thirds(ts: Seq<TripleModel>) -> Seq<RecordModel> {
    Seq::new(ts.len(), |i: int| ts[i].r3_out)
}

/// De-interleave a batch of triples into three parallel record batches,
/// position for position; no triple is dropped.
pub fn split_triples(triples: &Vec<ProcessedRecord>) -> (r: (
    Vec<FastqRecord>,
    Vec<FastqRecord>,
    Vec<FastqRecord>,
))
    ensures
        records_view(r.0@) == firsts(triples_view(triples@)),
        records_view(r.1@) == seconds(triples_view(triples@)),
        records_view(r.2@) == thirds(triples_view(triples@)),
        r.0@.len() == triples@.len(),
        r.1@.len() == triples@.len(),
        r.2@.len() == triples@.len(),
{
    let n = triples.len();
    let mut out1: Vec<FastqRecord> = Vec::with_capacity(n);
    let mut out2: Vec<FastqRecord> = Vec::with_capacity(n);
    let mut out3: Vec<FastqRecord> = Vec::with_capacity(n);
    let mut i: usize = 0;
    while i < n
        invariant
            i <= n,
            n == triples@.len(),
            out1@.len() == i,
            out2@.len() == i,
            out3@.len() == i,
            forall|j: int| 0 <= j < i ==> (#[trigger] out1@[j])@ == triples@[j]@.r1_out,
            forall|j: int| 0 <= j < i ==> (#[trigger] out2@[j])@ == triples@[j]@.r2_out,
            forall|j: int| 0 <= j < i ==> (#[trigger] out3@[j])@ == triples@[j]@.r3_out,
        decreases n - i,
    {
        let t = &triples[i];
        out1.push(t.r1_out.clone());
        out2.push(t.r2_out.clone());
        out3.push(t.r3_out.clone());
        i = i + 1;
    }
    proof {
        assert(records_view(out1@) =~= firsts(triples_view(triples@)));
        assert(records_view(out2@) =~= seconds(triples_view(triples@)));
        assert(records_view(out3@) =~= thirds(triples_view(triples@)));
    }
    (out1, out2, out3)
}

/// The 4-line serialized form of a batch of records, in order.
pub open spec fn spec_serialize_batch(rs: Seq<RecordModel>) -> Seq<u8>
    decreases rs.len(),
{
    if rs.len() == 0 {
        Seq::empty()
    } else {
        spec_serialize_batch(rs.drop_last()) + spec_serialized(rs.last())
    }
}

/// Serialize a batch of records into one output buffer.
pub fn serialize_batch(records: &Vec<FastqRecord>) -> (r: Vec<u8>)
    ensures
        r@ == spec_serialize_batch(records_view(records@)),
{
    let ghost rs = records_view(records@);
    let n = records.len();
    let mut buffer: Vec<u8> = Vec::new();
    let mut i: usize = 0;
    while i < n
        invariant
            i <= n,
            n == records@.len(),
            rs == records_view(records@),
            buffer@ == spec_serialize_batch(rs.take(i as int)),
        decreases n - i,
    {
        proof {
            assert(rs.take(i + 1).drop_last() =~= rs.take(i as int));
            assert(rs.take(i + 1).last() == rs[i as int]);
        }
        records[i].write_to_bytes(&mut buffer);
        i = i + 1;
    }
    proof {
        assert(rs.take(n as int) =~= rs);
    }
    buffer
}

/// Which of the three destinations a name is for.
#[derive(Clone, Copy, Debug, PartialEq, Eq, Structural)]
pub enum OutputRole {
    R1,
    R2,
    R3,
}

/// The digit byte of a role: `1`, `2` or `3`.
pub open spec fn spec_role_digit(role: OutputRole) -> u8 {
    match role {
        OutputRole::R1 => 49,
        OutputRole::R2 => 50,
        OutputRole::R3 => 51,
    }
}

/// The fixed sample/lane tag `_S1_L001_R` that precedes the role digit.
pub open spec fn spec_lane_tag() -> Seq<u8> {
    seq![95u8, 83u8, 49u8, 95u8, 76u8, 48u8, 48u8, 49u8, 95u8, 82u8]
}

/// The extension `.fastq`, with `.gz` appended when compressing.
pub open spec fn spec_extension(compress: bool) -> Seq<u8> {
    let plain = seq![46u8, 102u8, 97u8, 115u8, 116u8, 113u8];
    if compress {
        plain + seq![46u8, 103u8, 122u8]
    } else {
        plain
    }
}

/// The output name: prefix, the sample/lane tag, the role digit, an
/// underscore, the discriminator token, and the extension.
pub open spec fn spec_output_name(
    prefix: Seq<u8>,
    role: OutputRole,
    number_suffix: Seq<u8>,
    compress: bool,
) -> Seq<u8> {
    prefix + spec_lane_tag() + seq![spec_role_digit(role)] + seq![95u8] + number_suffix
        + spec_extension(compress)
}

/// Build one destination name from the configured prefix, the role, the
/// discriminator token and the compression toggle.
pub fn make_output_name(prefix: &[u8], role: OutputRole, number_suffix: &[u8], compress: bool) -> (r:
    Vec<u8>)
    ensures
        r@ == spec_output_name(prefix@, role, number_suffix@, compress),
{
    let mut out: Vec<u8> = Vec::new();
    append_bytes(&mut out, prefix);
    out.push(95);
    out.push(83);
    out.push(49);
    out.push(95);
    out.push(76);
    out.push(48);
    out.push(48);
    out.push(49);
    out.push(95);
    out.push(82);
    let digit: u8 = match role {
        OutputRole::R1 => 49,
        OutputRole::R2 => 50,
        OutputRole::R3 => 51,
    };
    out.push(digit);
    out.push(95);
    append_bytes(&mut out, number_suffix);
    out.push(46);
    out.push(102);
    out.push(97);
    out.push(115);
    out.push(116);
    out.push(113);
    if compress {
        out.push(46);
        out.push(103);
        out.push(122);
    }
    proof {
        assert(out@ =~= spec_output_name(prefix@, role, number_suffix@, compress));
    }
    out
}

} // verus!

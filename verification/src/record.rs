//! The record value type and its 4-line serialized form.

use vstd::prelude::*;

verus! {

/// ASCII line feed, the separator of the 4-line record layout.
pub const NEWLINE: u8 = 10;

/// Mathematical model of one record: four byte sequences.
pub struct RecordModel {
    pub header: Seq<u8>,
    pub sequence: Seq<u8>,
    pub plus: Seq<u8>,
    pub quality: Seq<u8>,
}

impl RecordModel {
    /// The record invariant: quality and sequence have the same length.
    pub open spec fn wf(self) -> bool {
        self.sequence.len() == self.quality.len()
    }
}

/// One sequencing record: header, sequence, separator line, quality.
pub struct FastqRecord {
    pub header: Vec<u8>,
    pub sequence: Vec<u8>,
    pub plus: Vec<u8>,
    pub quality: Vec<u8>,
}

impl View for FastqRecord {
    type V = RecordModel;

    open spec fn view(&self) -> RecordModel {
        RecordModel {
            header: self.header@,
            sequence: self.sequence@,
            plus: self.plus@,
            quality: self.quality@,
        }
    }
}

/// The models of a sequence of records.
pub open spec fn records_view(rs: Seq<FastqRecord>) -> Seq<RecordModel> {
    Seq::new(rs.len(), |i: int| rs[i]@)
}

/// The 4-line serialized form of one record model.
pub open spec fn spec_serialized(r: RecordModel) -> Seq<u8> {
    r.header + seq![NEWLINE] + r.sequence + seq![NEWLINE] + r.plus + seq![NEWLINE] + r.quality
        + seq![NEWLINE]
}

/// Append a byte slice to a buffer.
pub fn append_bytes(dst: &mut Vec<u8>, src: &[u8])
    ensures
        final(dst)@ == old(dst)@ + src@,
{
    let ghost dst0: Seq<u8> = dst@;
    let n = src.len();
    let mut i: usize = 0;
    while i < n
        invariant
            i <= n,
            n == src@.len(),
            dst@ == dst0 + src@.subrange(0, i as int),
        decreases n - i,
    {
        let b = *vstd::slice::slice_index_get(src, i);
        dst.push(b);
        proof {
            assert(dst@ =~= dst0 + src@.subrange(0, i + 1));
        }
        i = i + 1;
    }
    proof {
        assert(src@.subrange(0, n as int) =~= src@);
    }
}

/// Copy a byte vector.
pub fn clone_bytes(v: &Vec<u8>) -> (r: Vec<u8>)
    ensures
        r@ == v@,
{
    vstd::slice::slice_to_vec(v.as_slice())
}

impl FastqRecord {
    /// Build a record from its four fields.
    pub fn new(header: Vec<u8>, sequence: Vec<u8>, plus: Vec<u8>, quality: Vec<u8>) -> (r: Self)
        requires
            sequence@.len() == quality@.len(),
        ensures
            r@ == (RecordModel { header: header@, sequence: sequence@, plus: plus@, quality: quality@ }),
            r@.wf(),
    {
        FastqRecord { header, sequence, plus, quality }
    }

    /// Append the 4-line serialized form of this record to a buffer.
    pub fn write_to_bytes(&self, buffer: &mut Vec<u8>)
        ensures
            final(buffer)@ == old(buffer)@ + spec_serialized(self@),
    {
        append_bytes(buffer, self.header.as_slice());
        buffer.push(NEWLINE);
        append_bytes(buffer, self.sequence.as_slice());
        buffer.push(NEWLINE);
        append_bytes(buffer, self.plus.as_slice());
        buffer.push(NEWLINE);
        append_bytes(buffer, self.quality.as_slice());
        buffer.push(NEWLINE);
        proof {
            assert(buffer@ =~= old(buffer)@ + spec_serialized(self@));
        }
    }
}

impl Clone for FastqRecord {
    /// Copy the record; the copy has the same model.
    fn clone(&self) -> (r: Self)
        ensures
            r@ == self@,
    {
        FastqRecord {
            header: clone_bytes(&self.header),
            sequence: clone_bytes(&self.sequence),
            plus: clone_bytes(&self.plus),
            quality: clone_bytes(&self.quality),
        }
    }
}

} // verus!

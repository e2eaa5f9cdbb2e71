use scatac_barcode_splitter::FramingError;
use scatac_barcode_splitter::FastqRecord;
use scatac_barcode_splitter::OutputRole;
use scatac_barcode_splitter::make_output_name;
use scatac_barcode_splitter::run_pipeline;
use scatac_barcode_splitter::serialize_batch;
use scatac_barcode_splitter::split_triples;
use scatac_barcode_splitter::process_record_pair;

fn combined_lines(header: &[u8], out: &mut Vec<Vec<u8>>) {
    let mut sequence = vec![b'C'; 150];
    sequence.extend_from_slice(b"ACGTACGTACGTACGT");
    out.push(header.to_vec());
    out.push(sequence);
    out.push(b"+".to_vec());
    out.push(vec![b'F'; 166]);
}

fn primary_lines(header: &[u8], out: &mut Vec<Vec<u8>>) {
    out.push(header.to_vec());
    out.push(b"TTAACC".to_vec());
    out.push(b"+".to_vec());
    out.push(b"KKKKKK".to_vec());
}

#[test]
fn test_run_pipeline_counts_and_outputs() {
    // Three primary records, but only two combined ones: the run truncates
    // to two pairs; the second pair has mismatched identities.
    let mut r1 = Vec::new();
    primary_lines(b"@a/1", &mut r1);
    primary_lines(b"@b/1", &mut r1);
    primary_lines(b"@c/1", &mut r1);
    let mut r2 = Vec::new();
    combined_lines(b"@a/2", &mut r2);
    combined_lines(b"@other/2", &mut r2);

    let out = run_pipeline(&r1, &r2).unwrap();
    assert_eq!(out.stats.read, 2);
    assert_eq!(out.stats.processed, 1);
    assert_eq!(out.stats.filtered, 1);
    assert_eq!(out.stats.processed + out.stats.filtered, out.stats.read);
    assert_eq!(out.r1_records.len(), 1);
    assert_eq!(out.r2_records.len(), 1);
    assert_eq!(out.r3_records.len(), 1);

    assert_eq!(out.r1_records[0].header, b"@a");
    assert_eq!(out.r1_records[0].sequence, b"TTAACC");
    assert_eq!(out.r2_records[0].header, b"@a");
    assert_eq!(out.r2_records[0].sequence, b"ACGTACGTACGTACGT");
    assert_eq!(out.r2_records[0].quality, vec![b'F'; 16]);
    assert_eq!(out.r3_records[0].header, b"@a");
    assert_eq!(out.r3_records[0].sequence, vec![b'C'; 150]);
    assert_eq!(out.r3_records[0].quality, vec![b'F'; 150]);
}

#[test]
fn test_run_pipeline_empty_inputs() {
    let empty: Vec<Vec<u8>> = Vec::new();
    let out = run_pipeline(&empty, &empty).unwrap();
    assert_eq!(out.stats.read, 0);
    assert_eq!(out.stats.processed, 0);
    assert_eq!(out.stats.filtered, 0);
    assert_eq!(out.r1_records.len(), 0);
}

#[test]
fn test_run_pipeline_propagates_framing_error() {
    let mut r1 = Vec::new();
    primary_lines(b"@a/1", &mut r1);
    // The combined stream ends in the middle of its record.
    let r2 = vec![b"@a/2".to_vec(), b"ACGT".to_vec()];
    assert!(matches!(run_pipeline(&r1, &r2), Err(FramingError::TruncatedSequence)));
}

#[test]
fn test_run_pipeline_ignores_error_beyond_shorter_stream() {
    // The primary stream ends cleanly first, so the malformed tail of the
    // combined stream is never read.
    let mut r1 = Vec::new();
    primary_lines(b"@a/1", &mut r1);
    let mut r2 = Vec::new();
    combined_lines(b"@a/2", &mut r2);
    r2.push(b"@bad".to_vec());
    r2.push(b"ACGT".to_vec());
    let out = run_pipeline(&r1, &r2).unwrap();
    assert_eq!(out.stats.read, 1);
    assert_eq!(out.stats.processed, 1);
}

#[test]
fn test_split_triples_keeps_positions() {
    let r1 = FastqRecord::new(b"@a/1".to_vec(), b"AA".to_vec(), b"+".to_vec(), b"II".to_vec());
    let mut seq = vec![b'G'; 150];
    seq.extend_from_slice(b"TTTTTTTTTTTTTTTT");
    let r2 = FastqRecord::new(b"@a/2".to_vec(), seq, b"+".to_vec(), vec![b'J'; 166]);
    let triple = process_record_pair(r1, r2).unwrap();
    let triples = vec![triple];
    let (o1, o2, o3) = split_triples(&triples);
    assert_eq!(o1.len(), 1);
    assert_eq!(o2.len(), 1);
    assert_eq!(o3.len(), 1);
    assert_eq!(o1[0].header, b"@a");
    assert_eq!(o2[0].sequence, b"AAAAAAAAAAAAAAAA");
    assert_eq!(o3[0].sequence, vec![b'G'; 150]);
}

#[test]
fn test_serialize_batch_four_line_layout() {
    let rec1 = FastqRecord::new(b"@x".to_vec(), b"AC".to_vec(), b"+".to_vec(), b"IJ".to_vec());
    let rec2 = FastqRecord::new(b"@y".to_vec(), b"G".to_vec(), b"+".to_vec(), b"K".to_vec());
    let batch = vec![rec1, rec2];
    let bytes = serialize_batch(&batch);
    assert_eq!(bytes, b"@x\nAC\n+\nIJ\n@y\nG\n+\nK\n");
}

#[test]
fn test_serialize_batch_empty() {
    let batch: Vec<FastqRecord> = Vec::new();
    assert_eq!(serialize_batch(&batch), b"");
}

#[test]
fn test_make_output_name_roles_and_extensions() {
    assert_eq!(
        make_output_name(b"out", OutputRole::R1, b"001", false),
        b"out_S1_L001_R1_001.fastq"
    );
    assert_eq!(
        make_output_name(b"out", OutputRole::R2, b"007", false),
        b"out_S1_L001_R2_007.fastq"
    );
    assert_eq!(
        make_output_name(b"sample", OutputRole::R3, b"001", true),
        b"sample_S1_L001_R3_001.fastq.gz"
    );
}

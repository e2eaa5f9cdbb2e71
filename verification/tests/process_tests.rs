use scatac_barcode_splitter::FastqRecord;
use scatac_barcode_splitter::Statistics;
use scatac_barcode_splitter::process_batch;
use scatac_barcode_splitter::process_batch_counted;
use scatac_barcode_splitter::process_record_pair;

fn combined_record(header: &[u8]) -> FastqRecord {
    // 150 A bases, then a 16-base tail; quality mirrors the layout.
    let mut sequence = vec![b'A'; 150];
    sequence.extend_from_slice(b"ACGTACGTACGTACGT");
    let mut quality = vec![b'I'; 150];
    quality.extend_from_slice(b"0123456789ABCDEF");
    FastqRecord::new(header.to_vec(), sequence, b"+".to_vec(), quality)
}

fn primary_record(header: &[u8]) -> FastqRecord {
    FastqRecord::new(header.to_vec(), b"TTGGCC".to_vec(), b"+".to_vec(), b"ABCDEF".to_vec())
}

#[test]
fn test_process_record_pair_accepted() {
    let r1 = primary_record(b"@read9/1");
    let r2 = combined_record(b"@read9/2");
    let triple = process_record_pair(r1, r2).expect("matching pair of the right length");

    assert_eq!(triple.r1_out.header, b"@read9");
    assert_eq!(triple.r1_out.sequence, b"TTGGCC");
    assert_eq!(triple.r1_out.quality, b"ABCDEF");

    assert_eq!(triple.r2_out.header, b"@read9");
    assert_eq!(triple.r2_out.sequence, b"ACGTACGTACGTACGT");
    assert_eq!(triple.r2_out.quality, b"FEDCBA9876543210");

    assert_eq!(triple.r3_out.header, b"@read9");
    assert_eq!(triple.r3_out.sequence, vec![b'A'; 150]);
    assert_eq!(triple.r3_out.quality, vec![b'I'; 150]);
}

#[test]
fn test_process_record_pair_rejects_wrong_length() {
    let r1 = primary_record(b"@read9/1");
    let r2 = FastqRecord::new(
        b"@read9/2".to_vec(),
        b"ACGT".to_vec(),
        b"+".to_vec(),
        b"IIII".to_vec(),
    );
    assert!(process_record_pair(r1, r2).is_none());
}

#[test]
fn test_process_record_pair_rejects_header_mismatch() {
    let r1 = primary_record(b"@read9/1");
    let r2 = combined_record(b"@other/2");
    assert!(process_record_pair(r1, r2).is_none());
}

#[test]
fn test_process_record_pair_accepts_suffixless_headers() {
    let r1 = primary_record(b"@plain");
    let r2 = combined_record(b"@plain");
    assert!(process_record_pair(r1, r2).is_some());
}

#[test]
fn test_process_batch_zips_to_shorter_side() {
    let r1_batch = vec![
        primary_record(b"@a/1"),
        primary_record(b"@b/1"),
        primary_record(b"@c/1"),
    ];
    let r2_batch = vec![combined_record(b"@a/2"), combined_record(b"@x/2")];
    let results = process_batch(r1_batch, r2_batch);
    // Pair 1 is accepted, pair 2 has a header mismatch, pair 3 has no partner.
    assert_eq!(results.len(), 1);
    assert_eq!(results[0].r1_out.header, b"@a");
}

#[test]
fn test_process_batch_counted_updates_counters() {
    let mut stats = Statistics::new();
    let r1_batch = vec![
        primary_record(b"@a/1"),
        primary_record(b"@b/1"),
        primary_record(b"@c/1"),
    ];
    let r2_batch = vec![
        combined_record(b"@a/2"),
        combined_record(b"@mismatch/2"),
        combined_record(b"@c/2"),
    ];
    let results = process_batch_counted(r1_batch, r2_batch, &mut stats);
    assert_eq!(results.len(), 2);
    assert_eq!(stats.processed, 2);
    assert_eq!(stats.filtered, 1);
    assert_eq!(stats.read, 0);
}

#[test]
fn test_statistics_counters() {
    let mut stats = Statistics::new();
    assert_eq!((stats.read, stats.processed, stats.filtered), (0, 0, 0));
    stats.add_read(5);
    stats.record_batch(3, 2);
    stats.record_batch(2, 2);
    assert_eq!(stats.read, 5);
    assert_eq!(stats.processed, 4);
    assert_eq!(stats.filtered, 1);
    assert_eq!(stats.processed + stats.filtered, stats.read);
}

#[test]
fn test_record_serialization() {
    let rec = FastqRecord::new(b"@h".to_vec(), b"ACGT".to_vec(), b"+".to_vec(), b"IIII".to_vec());
    let mut buffer = b"before\n".to_vec();
    rec.write_to_bytes(&mut buffer);
    assert_eq!(buffer, b"before\n@h\nACGT\n+\nIIII\n");
}

#[test]
fn test_batch_order_changes_no_content() {
    // Two batches handed to workers in either order produce the same
    // records, only possibly in a different order.
    let batch_a1 = vec![primary_record(b"@a/1")];
    let batch_a2 = vec![combined_record(b"@a/2")];
    let batch_b1 = vec![primary_record(b"@b/1"), primary_record(b"@nope/1")];
    let batch_b2 = vec![combined_record(b"@b/2"), combined_record(b"@c/2")];

    let mut forward: Vec<Vec<u8>> = Vec::new();
    for t in process_batch(batch_a1.clone(), batch_a2.clone()) {
        forward.push(t.r1_out.header);
    }
    for t in process_batch(batch_b1.clone(), batch_b2.clone()) {
        forward.push(t.r1_out.header);
    }

    let mut backward: Vec<Vec<u8>> = Vec::new();
    for t in process_batch(batch_b1, batch_b2) {
        backward.push(t.r1_out.header);
    }
    for t in process_batch(batch_a1, batch_a2) {
        backward.push(t.r1_out.header);
    }

    forward.sort();
    backward.sort();
    assert_eq!(forward, backward);
    assert_eq!(forward, vec![b"@a".to_vec(), b"@b".to_vec()]);
}

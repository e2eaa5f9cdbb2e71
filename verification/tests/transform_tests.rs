use scatac_barcode_splitter::complement_base;
use scatac_barcode_splitter::extract_base_header;
use scatac_barcode_splitter::reverse_complement;

#[test]
fn test_complement_base_values() {
    assert_eq!(complement_base(b'A'), b'T');
    assert_eq!(complement_base(b'T'), b'A');
    assert_eq!(complement_base(b'G'), b'C');
    assert_eq!(complement_base(b'C'), b'G');
    assert_eq!(complement_base(b'a'), b'T');
    assert_eq!(complement_base(b't'), b'A');
    assert_eq!(complement_base(b'g'), b'C');
    assert_eq!(complement_base(b'c'), b'G');
    assert_eq!(complement_base(b'N'), b'N');
    assert_eq!(complement_base(b'n'), b'N');
    assert_eq!(complement_base(b'X'), b'N');
    assert_eq!(complement_base(b'.'), b'N');
}

#[test]
fn test_reverse_complement_involution_uppercase() {
    // Twice the reverse complement of canonical uppercase bases is the input.
    let input = b"ATGCCGTAGGATC";
    let once = reverse_complement(input);
    let twice = reverse_complement(&once);
    assert_eq!(twice, input);
}

#[test]
fn test_reverse_complement_output_uppercase() {
    // Whatever goes in, only uppercase A, T, G, C, N come out.
    let input = b"aTxG?cN9";
    let out = reverse_complement(input);
    assert_eq!(out.len(), input.len());
    for b in out {
        assert!(b == b'A' || b == b'T' || b == b'G' || b == b'C' || b == b'N');
    }
}

#[test]
fn test_extract_base_header_strips_both_suffixes() {
    // Both pair-suffix markers strip to the same base identity.
    assert_eq!(extract_base_header(b"id/1"), b"id");
    assert_eq!(extract_base_header(b"id/2"), b"id");
}

#[test]
fn test_extract_base_header_idempotent() {
    // Stripping an already-stripped header changes nothing.
    let once = extract_base_header(b"@read77/1");
    assert_eq!(once, b"@read77");
    let twice = extract_base_header(once);
    assert_eq!(twice, once);
}

#[test]
fn test_extract_base_header_no_suffix() {
    assert_eq!(extract_base_header(b"@read77"), b"@read77");
    assert_eq!(extract_base_header(b"/1"), b"");
    assert_eq!(extract_base_header(b"x/3"), b"x/3");
    assert_eq!(extract_base_header(b""), b"");
}

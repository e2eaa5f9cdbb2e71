use scatac_barcode_splitter::reverse_complement;

#[test]
fn test_reverse_complement_basic() {
    // Plain uppercase bases.
    let input = b"ATGC";
    let expected = b"GCAT";
    let result = reverse_complement(input);
    assert_eq!(result, expected);
}

#[test]
fn test_reverse_complement_lowercase() {
    // Lowercase input is uppercased.
    let input = b"atgc";
    let expected = b"GCAT";
    let result = reverse_complement(input);
    assert_eq!(result, expected);
}

#[test]
fn test_reverse_complement_mixed_case() {
    // Mixed case input.
    let input = b"AtGc";
    let expected = b"GCAT";
    let result = reverse_complement(input);
    assert_eq!(result, expected);
}

#[test]
fn test_reverse_complement_with_n() {
    // An unknown base N stays N.
    let input = b"ATGCN";
    let expected = b"NGCAT";
    let result = reverse_complement(input);
    assert_eq!(result, expected);
}

#[test]
fn test_reverse_complement_unknown_bases() {
    // A byte outside the four bases becomes N.
    let input = b"ATXGC";
    let expected = b"GCNAT";
    let result = reverse_complement(input);
    assert_eq!(result, expected);
}

#[test]
fn test_reverse_complement_empty() {
    // The empty sequence maps to itself.
    let input = b"";
    let expected = b"";
    let result = reverse_complement(input);
    assert_eq!(result, expected);
}

#[test]
fn test_reverse_complement_long_sequence() {
    // A longer run of repeated bases.
    let input = b"AAATTTGGGCCC";
    let expected = b"GGGCCCAAATTT";
    let result = reverse_complement(input);
    assert_eq!(result, expected);
}

#[test]
fn test_reverse_complement_palindrome() {
    // A reverse-complement palindrome maps to itself.
    let input = b"GAATTC";
    let expected = b"GAATTC";
    let result = reverse_complement(input);
    assert_eq!(result, expected);
}

//! Base complementing and header identity extraction.

use vstd::prelude::*;
use vstd::slice::slice_index_get;
use vstd::slice::slice_subrange;

verus! {

/// ASCII byte values used by the record grammar and the base alphabet.
pub const UPPER_A: u8 = 65;
pub const UPPER_C: u8 = 67;
pub const UPPER_G: u8 = 71;
pub const UPPER_N: u8 = 78;
pub const UPPER_T: u8 = 84;
pub const LOWER_A: u8 = 97;
pub const LOWER_Z: u8 = 122;
pub const SLASH: u8 = 47;
pub const DIGIT_ONE: u8 = 49;
pub const DIGIT_TWO: u8 = 50;

/// ASCII uppercasing of a single byte.
pub open spec fn spec_upper(b: u8) -> u8 {
    if LOWER_A <= b && b <= LOWER_Z {
        (b - 32) as u8
    } else {
        b
    }
}

/// Watson-Crick complement after uppercasing; every byte outside the four
/// canonical bases maps to `N`.
pub open spec fn spec_complement(b: u8) -> u8 {
    let u = spec_upper(b);
    if u == UPPER_A {
        UPPER_T
    } else if u == UPPER_T {
        UPPER_A
    } else if u == UPPER_G {
        UPPER_C
    } else if u == UPPER_C {
        UPPER_G
    } else {
        UPPER_N
    }
}

/// Reverse of a byte sequence.
pub open spec fn spec_reverse(s: Seq<u8>) -> Seq<u8> {
    Seq::new(s.len(), |i: int| s[s.len() - 1 - i])
}

/// Reverse complement: reverse the byte order, then complement each base.
pub open spec fn spec_revcomp(s: Seq<u8>) -> Seq<u8> {
    Seq::new(s.len(), |i: int| spec_complement(s[s.len() - 1 - i]))
}

/// Complement one base byte.
pub fn complement_base(b: u8) -> (r: u8)
    ensures
        r == spec_complement(b),
{
    let u = if b >= LOWER_A && b <= LOWER_Z {
        b - 32
    } else {
        b
    };
    match u {
        UPPER_A => UPPER_T,
        UPPER_T => UPPER_A,
        UPPER_G => UPPER_C,
        UPPER_C => UPPER_G,
        _ => UPPER_N,
    }
}

/// Reverse-complement a sequence of base bytes.
pub fn reverse_complement(seq: &[u8]) -> (r: Vec<u8>)
    ensures
        r@ == spec_revcomp(seq@),
{
    let n = seq.len();
    let mut out: Vec<u8> = Vec::with_capacity(n);
    let mut i: usize = 0;
    while i < n
        invariant
            i <= n,
            n == seq@.len(),
            out@.len() == i,
            forall|j: int| 0 <= j < i ==> out@[j] == spec_complement(seq@[n - 1 - j]),
        decreases n - i,
    {
        let b = *slice_index_get(seq, n - 1 - i);
        out.push(complement_base(b));
        i = i + 1;
    }
    proof {
        assert(out@ =~= spec_revcomp(seq@));
    }
    out
}

/// Whether a header ends in a two-byte pair-suffix marker (`/1` or `/2`).
pub open spec fn spec_has_pair_suffix(h: Seq<u8>) -> bool {
    h.len() >= 2 && h[h.len() - 2] == SLASH && (h[h.len() - 1] == DIGIT_ONE || h[h.len() - 1] == DIGIT_TWO)
}

/// The base identity of a header: the header with a trailing pair-suffix
/// marker removed, or the header unchanged when none is present.
pub open spec fn spec_base_header(h: Seq<u8>) -> Seq<u8> {
    if spec_has_pair_suffix(h) {
        h.subrange(0, h.len() - 2)
    } else {
        h
    }
}

/// Strip a trailing `/1` or `/2` pair-suffix marker from a header.
pub fn extract_base_header(head: &[u8]) -> (r: &[u8])
    ensures
        r@ == spec_base_header(head@),
{
    let n = head.len();
    if n >= 2 {
        let c1 = *slice_index_get(head, n - 2);
        let c2 = *slice_index_get(head, n - 1);
        if c1 == SLASH && (c2 == DIGIT_ONE || c2 == DIGIT_TWO) {
            return slice_subrange(head, 0, n - 2);
        }
    }
    head
}

/// One of the four canonical (uppercase) bases.
pub open spec fn is_canonical_base(b: u8) -> bool {
    b == UPPER_A || b == UPPER_T || b == UPPER_G || b == UPPER_C
}

/// A byte the reverse complement can produce: a canonical base or `N`.
pub open spec fn is_output_base(b: u8) -> bool {
    is_canonical_base(b) || b == UPPER_N
}

/// Law: on sequences of canonical uppercase bases, the reverse complement
/// is an involution.  The premise keeps lowercase bases out: the first
/// application uppercases them, so a second application cannot restore
/// the original bytes.
pub proof fn lemma_revcomp_involution(s: Seq<u8>)
    requires
        forall|i: int| 0 <= i < s.len() ==> is_canonical_base(s[i]),
    ensures
        spec_revcomp(spec_revcomp(s)) == s,
{
    assert(spec_revcomp(spec_revcomp(s)) =~= s);
}

/// Law: the reverse complement keeps the length, produces only uppercase
/// canonical bases or `N`, and sends every byte that is not a canonical
/// base (in either case) to `N` at the mirrored position.
pub proof fn lemma_revcomp_alphabet(s: Seq<u8>)
    ensures
        spec_revcomp(s).len() == s.len(),
        forall|i: int| 0 <= i < s.len() ==> is_output_base(#[trigger] spec_revcomp(s)[i]),
        forall|i: int|
            0 <= i < s.len() && !is_canonical_base(spec_upper(s[i]))
                ==> spec_revcomp(s)[s.len() - 1 - i] == UPPER_N,
{
}

/// Law: stripping the pair-suffix from an already-stripped header is a
/// no-op.  The premise excludes headers whose stripped form still ends in
/// a pair-suffix marker (such headers lose a second suffix).
pub proof fn lemma_base_header_idempotent(h: Seq<u8>)
    requires
        !spec_has_pair_suffix(spec_base_header(h)),
    ensures
        spec_base_header(spec_base_header(h)) == spec_base_header(h),
{
}

} // verus!

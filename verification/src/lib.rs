//! Language-aware, incremental detection of matched delimiters, comments,
//! string literals and named spans in source text: a scanner that finds
//! candidate token positions, a per-grammar state machine that classifies
//! them while carrying state across line boundaries, a line parser that
//! threads that state over a whole buffer, and an incremental store with
//! range reparse and pairing queries. Works best-effort on unbalanced,
//! partially typed input and never fails on it.

use vstd::prelude::*;

verus! {

/// Compares two byte slices for element-wise equality.
pub fn bytes_eq(a: &[u8], b: &[u8]) -> (r: bool)
    ensures
        r == (a@ == b@),
{
    if a.len() != b.len() {
        assert(a@.len() != b@.len());
        return false;
    }
    let mut i: usize = 0;
    while i < a.len()
        invariant
            i <= a.len(),
            a.len() == b.len(),
            forall|j: int| 0 <= j < i ==> a@[j] == b@[j],
        decreases a.len() - i,
    {
        if a[i] != b[i] {
            return false;
        }
        i += 1;
    }
    proof {
        assert(a@ =~= b@);
    }
    true
}

} // verus!

pub mod matcher;
pub mod config;
pub mod scan;
pub mod parse;
pub mod buffer;
pub mod nom;
pub mod laws;

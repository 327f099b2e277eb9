use vstd::prelude::*;
use crate::matcher::CharPos;

verus! {

/// The candidate positions of a line from a given column on: one entry, in
/// order, for every byte of the line that lies in the interesting set.
pub open spec fn scan_spec(line: Seq<u8>, set: Seq<u8>, col: int) -> Seq<CharPos>
    decreases line.len() - col,
{
    if col < 0 || col >= line.len() {
        seq![]
    } else {
        let rest = scan_spec(line, set, col + 1);
        if set.contains(line[col]) {
            seq![CharPos { col: col as usize, byte: line[col] }] + rest
        } else {
            rest
        }
    }
}

/// Whether a byte vector holds the byte.
pub fn set_contains(set: &Vec<u8>, b: u8) -> (r: bool)
    ensures
        r == set@.contains(b),
{
    let mut i: usize = 0;
    while i < set.len()
        invariant
            i <= set@.len(),
            forall|j: int| 0 <= j < i ==> set@[j] != b,
        decreases set@.len() - i,
    {
        if set[i] == b {
            return true;
        }
        i += 1;
    }
    false
}

/// The scanner: walks a line and hands back, in order, the column and byte of
/// every occurrence of an interesting byte. A pure function of its inputs.
pub fn scan_line(line: &Vec<u8>, set: &Vec<u8>) -> (r: Vec<CharPos>)
    ensures
        r@ == scan_spec(line@, set@, 0),
{
    let mut r: Vec<CharPos> = Vec::new();
    let mut col: usize = 0;
    while col < line.len()
        invariant
            col <= line@.len(),
            scan_spec(line@, set@, 0) == r@ + scan_spec(line@, set@, col as int),
        decreases line@.len() - col,
    {
        let b = line[col];
        if set_contains(set, b) {
            r.push(CharPos { col, byte: b });
        }
        assert(scan_spec(line@, set@, 0) =~= r@ + scan_spec(line@, set@, col + 1));
        col += 1;
    }
    assert(scan_spec(line@, set@, 0) =~= r@);
    r
}

} // verus!

//! The fixed amino-acid alphabet.
//!
//! Twenty standard residue letters in the canonical order that every
//! substitution table of this library uses, plus the gap marker `-`.
//! The letter-to-index map is a closed enumeration, so an unknown
//! letter is an explicitly handled case, never a lookup failure.

use vstd::prelude::*;

verus! {

/// The gap marker.
pub open spec fn is_gap(c: char) -> bool {
    c == '-'
}

/// Whether `c` is one of the twenty standard residue letters.
pub open spec fn is_residue(c: char) -> bool {
    residue_index(c) < 20
}

/// Index of `c` in the canonical order `ARNDCQEGHILKMFPSTWYV`;
/// 20 for any character outside the alphabet.
pub open spec fn residue_index(c: char) -> int {
    if c == 'A' {
        0
    } else if c == 'R' {
        1
    } else if c == 'N' {
        2
    } else if c == 'D' {
        3
    } else if c == 'C' {
        4
    } else if c == 'Q' {
        5
    } else if c == 'E' {
        6
    } else if c == 'G' {
        7
    } else if c == 'H' {
        8
    } else if c == 'I' {
        9
    } else if c == 'L' {
        10
    } else if c == 'K' {
        11
    } else if c == 'M' {
        12
    } else if c == 'F' {
        13
    } else if c == 'P' {
        14
    } else if c == 'S' {
        15
    } else if c == 'T' {
        16
    } else if c == 'W' {
        17
    } else if c == 'Y' {
        18
    } else if c == 'V' {
        19
    } else {
        20
    }
}

/// A site character is a residue letter or the gap marker.
pub open spec fn valid_site_char(c: char) -> bool {
    is_gap(c) || is_residue(c)
}

/// Every character of the column is a residue letter or a gap.
pub open spec fn valid_site(col: Seq<char>) -> bool {
    forall|i: int| 0 <= i < col.len() ==> valid_site_char(#[trigger] col[i])
}

/// Look up the alphabet index of a character.
pub fn index_of(c: char) -> (r: Option<usize>)
    ensures
        r is Some <==> is_residue(c),
        r matches Some(i) ==> i == residue_index(c) && i < 20,
{
    if c == 'A' {
        Some(0)
    } else if c == 'R' {
        Some(1)
    } else if c == 'N' {
        Some(2)
    } else if c == 'D' {
        Some(3)
    } else if c == 'C' {
        Some(4)
    } else if c == 'Q' {
        Some(5)
    } else if c == 'E' {
        Some(6)
    } else if c == 'G' {
        Some(7)
    } else if c == 'H' {
        Some(8)
    } else if c == 'I' {
        Some(9)
    } else if c == 'L' {
        Some(10)
    } else if c == 'K' {
        Some(11)
    } else if c == 'M' {
        Some(12)
    } else if c == 'F' {
        Some(13)
    } else if c == 'P' {
        Some(14)
    } else if c == 'S' {
        Some(15)
    } else if c == 'T' {
        Some(16)
    } else if c == 'W' {
        Some(17)
    } else if c == 'Y' {
        Some(18)
    } else if c == 'V' {
        Some(19)
    } else {
        None
    }
}

} // verus!

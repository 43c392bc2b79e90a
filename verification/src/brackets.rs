//! Bracket matching over a command sequence, stated mathematically.
//!
//! `depth(cmds, a, b)` counts opens minus closes in `cmds[a..b)`; an open at
//! `i` and a close at `j` match when the interior is balanced and never dips
//! below the level of the open.  Matching partners are unique, which is what
//! lets the builder speak of *the* resolved target of a jump.

use vstd::prelude::*;

verus! {

/// The contribution of one character to the bracket nesting level.
pub open spec fn bracket_delta(c: char) -> int {
    if c == '[' {
        1
    } else if c == ']' {
        -1
    } else {
        0
    }
}

/// Opens minus closes in `cmds[a..b)`.
pub open spec fn depth(cmds: Seq<char>, a: int, b: int) -> int
    decreases b - a,
{
    if a >= b {
        0
    } else {
        depth(cmds, a, b - 1) + bracket_delta(cmds[b - 1])
    }
}

/// The open bracket at `i` and the close bracket at `j` are syntactic
/// partners: the region strictly between them is balanced and no prefix of
/// it closes more brackets than it opens.
pub open spec fn matches_at(cmds: Seq<char>, i: int, j: int) -> bool {
    &&& 0 <= i < j < cmds.len()
    &&& cmds[i] == '['
    &&& cmds[j] == ']'
    &&& depth(cmds, i + 1, j) == 0
    &&& forall|k: int| i + 1 <= k < j ==> #[trigger] depth(cmds, i + 1, k) >= 0
}

/// The open bracket at `i` has a syntactic partner.
pub open spec fn has_close(cmds: Seq<char>, i: int) -> bool {
    exists|j: int| matches_at(cmds, i, j)
}

/// The close bracket at `j` has a syntactic partner.
pub open spec fn has_open(cmds: Seq<char>, j: int) -> bool {
    exists|i: int| matches_at(cmds, i, j)
}

/// The position of the close bracket matching the open at `i`.
pub open spec fn close_of(cmds: Seq<char>, i: int) -> int {
    choose|j: int| matches_at(cmds, i, j)
}

/// The position of the open bracket matching the close at `j`.
pub open spec fn open_of(cmds: Seq<char>, j: int) -> int {
    choose|i: int| matches_at(cmds, i, j)
}

/// Every bracket in `cmds` has a syntactic partner.
pub open spec fn well_bracketed(cmds: Seq<char>) -> bool {
    forall|k: int|
        0 <= k < cmds.len() ==> {
            &&& (cmds[k] == '[' ==> has_close(cmds, k))
            &&& (cmds[k] == ']' ==> has_open(cmds, k))
        }
}

/// The bracket at `k` has no partner.
pub open spec fn bad_at(cmds: Seq<char>, k: int) -> bool {
    ||| cmds[k] == '[' && !has_close(cmds, k)
    ||| cmds[k] == ']' && !has_open(cmds, k)
}

/// Counting over `[a, c)` splits at any midpoint `b`.
pub proof fn lemma_depth_split(cmds: Seq<char>, a: int, b: int, c: int)
    requires
        a <= b <= c,
    ensures
        depth(cmds, a, c) == depth(cmds, a, b) + depth(cmds, b, c),
    decreases c - b,
{
    if b < c {
        lemma_depth_split(cmds, a, b, c - 1);
    }
}

proof fn lemma_no_later_close(cmds: Seq<char>, i: int, j1: int, j2: int)
    requires
        matches_at(cmds, i, j1),
        j1 < j2,
    ensures
        !matches_at(cmds, i, j2),
{
    if matches_at(cmds, i, j2) {
        assert(depth(cmds, i + 1, j1 + 1) == depth(cmds, i + 1, j1) + bracket_delta(cmds[j1]));
        assert(depth(cmds, i + 1, j1 + 1) == -1);
        if j1 + 1 < j2 {
            assert(depth(cmds, i + 1, j1 + 1) >= 0);
        } else {
            assert(j2 == j1 + 1);
            assert(depth(cmds, i + 1, j2) == -1);
        }
    }
}

/// An open bracket has at most one syntactic partner.
pub proof fn lemma_close_unique(cmds: Seq<char>, i: int, j1: int, j2: int)
    requires
        matches_at(cmds, i, j1),
        matches_at(cmds, i, j2),
    ensures
        j1 == j2,
{
    if j1 < j2 {
        lemma_no_later_close(cmds, i, j1, j2);
    } else if j2 < j1 {
        lemma_no_later_close(cmds, i, j2, j1);
    }
}

proof fn lemma_no_earlier_open(cmds: Seq<char>, i1: int, i2: int, j: int)
    requires
        matches_at(cmds, i2, j),
        i1 < i2,
    ensures
        !matches_at(cmds, i1, j),
{
    if matches_at(cmds, i1, j) {
        lemma_depth_split(cmds, i1 + 1, i2, i2 + 1);
        lemma_depth_split(cmds, i1 + 1, i2 + 1, j);
        assert(depth(cmds, i1 + 1, i2) >= 0);
        assert(depth(cmds, i1 + 1, i2 + 1) == depth(cmds, i1 + 1, i2) + 1);
        assert(depth(cmds, i2 + 1, j) == 0);
        assert(depth(cmds, i1 + 1, j) >= 1);
    }
}

/// A close bracket has at most one syntactic partner.
pub proof fn lemma_open_unique(cmds: Seq<char>, i1: int, i2: int, j: int)
    requires
        matches_at(cmds, i1, j),
        matches_at(cmds, i2, j),
    ensures
        i1 == i2,
{
    if i1 < i2 {
        lemma_no_earlier_open(cmds, i1, i2, j);
    } else if i2 < i1 {
        lemma_no_earlier_open(cmds, i2, i1, j);
    }
}

} // verus!

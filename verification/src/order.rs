//! Values that are ordered by an integer, and the leftmost minimum of a
//! sequence of integers.

use vstd::prelude::*;

verus! {

/// A type whose values are ordered by an integer rank.
pub trait Ranked: Copy {
    /// The integer by which values are compared.
    spec fn rank(self) -> int;

    /// Whether `self` comes strictly before `other`.
    fn below(self, other: Self) -> (b: bool)
        ensures
            b == (self.rank() < other.rank()),
    ;
}

impl Ranked for usize {
    open spec fn rank(self) -> int {
        self as int
    }

    fn below(self, other: Self) -> (b: bool) {
        self < other
    }
}

impl Ranked for isize {
    open spec fn rank(self) -> int {
        self as int
    }

    fn below(self, other: Self) -> (b: bool) {
        self < other
    }
}

impl Ranked for u8 {
    open spec fn rank(self) -> int {
        self as int
    }

    fn below(self, other: Self) -> (b: bool) {
        self < other
    }
}

impl Ranked for u32 {
    open spec fn rank(self) -> int {
        self as int
    }

    fn below(self, other: Self) -> (b: bool) {
        self < other
    }
}

impl Ranked for u64 {
    open spec fn rank(self) -> int {
        self as int
    }

    fn below(self, other: Self) -> (b: bool) {
        self < other
    }
}

impl Ranked for i32 {
    open spec fn rank(self) -> int {
        self as int
    }

    fn below(self, other: Self) -> (b: bool) {
        self < other
    }
}

impl Ranked for i64 {
    open spec fn rank(self) -> int {
        self as int
    }

    fn below(self, other: Self) -> (b: bool) {
        self < other
    }
}

/// A number that is not negative as an `isize` holds it: itself, or the
/// largest `isize` where it is more than that.
pub open spec fn capped(x: int) -> int {
    if x > isize::MAX {
        isize::MAX as int
    } else {
        x
    }
}

/// The larger of two integers.
pub open spec fn larger(a: int, b: int) -> int {
    if a >= b {
        a
    } else {
        b
    }
}

/// The smaller of two integers.
pub open spec fn smaller(a: int, b: int) -> int {
    if a <= b {
        a
    } else {
        b
    }
}

/// Whether `i` is the smallest index in `lo..hi` at which `s` is least.
pub open spec fn is_leftmost_min(s: Seq<int>, lo: int, hi: int, i: int) -> bool {
    &&& lo <= i < hi
    &&& forall|j: int| lo <= j < hi ==> s[i] <= #[trigger] s[j]
    &&& forall|j: int| lo <= j < i ==> s[i] < #[trigger] s[j]
}

/// The smallest index in `lo..hi` at which `s` is least; `lo` where the range
/// is empty.
pub open spec fn leftmost_min(s: Seq<int>, lo: int, hi: int) -> int
    decreases hi - lo,
{
    if hi - lo <= 1 {
        lo
    } else {
        let m = leftmost_min(s, lo, hi - 1);
        if s[hi - 1] < s[m] {
            hi - 1
        } else {
            m
        }
    }
}

/// On a range that is not empty `leftmost_min` is the leftmost minimum.
pub proof fn lemma_leftmost_min(s: Seq<int>, lo: int, hi: int)
    requires
        lo < hi,
    ensures
        is_leftmost_min(s, lo, hi, leftmost_min(s, lo, hi)),
    decreases hi - lo,
{
    if hi - lo > 1 {
        lemma_leftmost_min(s, lo, hi - 1);
    }
}

/// There is only one leftmost minimum.
pub proof fn lemma_leftmost_min_unique(s: Seq<int>, lo: int, hi: int, i: int)
    requires
        is_leftmost_min(s, lo, hi, i),
    ensures
        i == leftmost_min(s, lo, hi),
{
    lemma_leftmost_min(s, lo, hi);
    let m = leftmost_min(s, lo, hi);
    if i < m {
        assert(s[m] < s[i]);
        assert(s[i] <= s[m]);
    } else if m < i {
        assert(s[i] < s[m]);
        assert(s[m] <= s[i]);
    }
}

} // verus!

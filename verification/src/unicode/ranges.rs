//! Contiguous ranges of Unicode code points.

use vstd::prelude::*;

verus! {

/// The largest Unicode code point.
pub const MAX_CODE_POINT: u32 = 0x10FFFF;

/// A contiguous, inclusive range of Unicode code points.
#[derive(Debug, Clone, PartialEq, Eq)]
pub struct UnicodeRange {
    pub start: u32,
    pub end: u32,
    pub description: Option<String>,
}

/// `cp` lies in the inclusive range `[start, end]`.
pub open spec fn in_range(start: u32, end: u32, cp: u32) -> bool {
    start <= cp && cp <= end
}

/// The ranges `[s1, e1]` and `[s2, e2]` share at least one code point, when
/// both are well formed.
pub open spec fn ranges_intersect(s1: u32, e1: u32, s2: u32, e2: u32) -> bool {
    s1 <= e2 && s2 <= e1
}

/// The ranges overlap or touch end to end, so that their union is one range.
pub open spec fn ranges_mergeable(s1: u32, e1: u32, s2: u32, e2: u32) -> bool {
    ranges_intersect(s1, e1, s2, e2) || e1 + 1 == s2 || e2 + 1 == s1
}

pub open spec fn min_u32(a: u32, b: u32) -> u32 {
    if a <= b { a } else { b }
}

pub open spec fn max_u32(a: u32, b: u32) -> u32 {
    if a >= b { a } else { b }
}

impl UnicodeRange {
    /// The range is ordered and lies within the Unicode code space.
    pub open spec fn wf(&self) -> bool {
        self.start <= self.end && self.end <= MAX_CODE_POINT
    }

    /// Create a range without description; the bounds must be ordered and
    /// valid code points.
    pub fn new(start: u32, end: u32) -> (r: Self)
        requires
            start <= end,
            start <= MAX_CODE_POINT,
            end <= MAX_CODE_POINT,
        ensures
            r.start == start,
            r.end == end,
            r.description is None,
            r.wf(),
    {
        UnicodeRange { start, end, description: None }
    }

    /// Create a range that carries a description.
    pub fn with_description(start: u32, end: u32, description: String) -> (r: Self)
        requires
            start <= end,
            start <= MAX_CODE_POINT,
            end <= MAX_CODE_POINT,
        ensures
            r.start == start,
            r.end == end,
            r.description == Some(description),
            r.wf(),
    {
        let mut range = Self::new(start, end);
        range.description = Some(description);
        range
    }

    /// Whether `code_point` lies within this range.
    pub fn contains(&self, code_point: u32) -> (b: bool)
        ensures
            b == in_range(self.start, self.end, code_point),
    {
        code_point >= self.start && code_point <= self.end
    }

    /// Whether this range and `other` share a code point (for well-formed
    /// ranges; the test compares the bounds in any case).
    pub fn intersects(&self, other: &UnicodeRange) -> (b: bool)
        ensures
            b == ranges_intersect(self.start, self.end, other.start, other.end),
    {
        self.start <= other.end && other.start <= self.end
    }

    /// The smallest range covering both, when they overlap or are adjacent.
    pub fn merge(&self, other: &UnicodeRange) -> (r: Option<UnicodeRange>)
        requires
            self.wf(),
            other.wf(),
        ensures
            ranges_mergeable(self.start, self.end, other.start, other.end) <==> r is Some,
            r matches Some(m) ==> {
                &&& m.start == min_u32(self.start, other.start)
                &&& m.end == max_u32(self.end, other.end)
                &&& m.description is None
                &&& m.wf()
            },
    {
        if self.intersects(other) || self.end + 1 == other.start || other.end + 1 == self.start {
            let start = if self.start <= other.start { self.start } else { other.start };
            let end = if self.end >= other.end { self.end } else { other.end };
            Some(UnicodeRange::new(start, end))
        } else {
            None
        }
    }
}

/// Intersection is symmetric.
pub proof fn intersects_symmetric(a: UnicodeRange, b: UnicodeRange)
    ensures
        ranges_intersect(a.start, a.end, b.start, b.end) == ranges_intersect(
            b.start,
            b.end,
            a.start,
            a.end,
        ),
{
}

/// A well-formed range intersects itself.
pub proof fn intersects_reflexive(a: UnicodeRange)
    requires
        a.wf(),
    ensures
        ranges_intersect(a.start, a.end, a.start, a.end),
{
}

/// Two ranges that share a code point intersect.
pub proof fn common_point_implies_intersects(a: UnicodeRange, b: UnicodeRange, cp: u32)
    requires
        in_range(a.start, a.end, cp),
        in_range(b.start, b.end, cp),
    ensures
        ranges_intersect(a.start, a.end, b.start, b.end),
{
}

/// A merged range covers exactly the code points of the two ranges it was
/// made from: nothing is lost and nothing is added.
pub proof fn merge_covers_exactly_the_union(a: UnicodeRange, b: UnicodeRange, cp: u32)
    requires
        a.wf(),
        b.wf(),
        ranges_mergeable(a.start, a.end, b.start, b.end),
    ensures
        in_range(min_u32(a.start, b.start), max_u32(a.end, b.end), cp) <==> (in_range(
            a.start,
            a.end,
            cp,
        ) || in_range(b.start, b.end, cp)),
{
}

/// Merging is commutative in the bounds it produces.
pub proof fn merge_commutative(a: UnicodeRange, b: UnicodeRange)
    ensures
        ranges_mergeable(a.start, a.end, b.start, b.end) == ranges_mergeable(
            b.start,
            b.end,
            a.start,
            a.end,
        ),
        min_u32(a.start, b.start) == min_u32(b.start, a.start),
        max_u32(a.end, b.end) == max_u32(b.end, a.end),
{
}

} // verus!

//! Preemption-count expectations and the arithmetic on them.

use vstd::prelude::*;
use crate::util::{decimal, push_decimal};

verus! {

/// The largest value a `u32` can hold, as a mathematical integer.
pub open spec fn u32_max() -> int {
    0xffff_ffff
}

/// Clamps a mathematical integer into the range of `u32`.
pub open spec fn clamp_u32(v: int) -> u32 {
    if v < 0 {
        0
    } else if v > u32_max() {
        u32::MAX
    } else {
        v as u32
    }
}

/// `x + y`, saturating at both ends of the `u32` range.
pub fn saturating_add(x: u32, y: i32) -> (res: u32)
    ensures
        res == clamp_u32(x + y),
{
    let sum: i64 = x as i64 + y as i64;
    if sum < 0 {
        0
    } else if sum > 0xffff_ffffi64 {
        u32::MAX
    } else {
        sum as u32
    }
}

/// Range of preemption count that the function expects.
///
/// Since the preemption count is a non-negative integer, the lower bound is just represented using
/// a `u32` and "no expectation" is represented with 0; the upper bound is represented using an
/// `Option<u32>`, with `None` representing "no expectation". The upper bound is exclusive so
/// `(0, Some(0))` represents an unsatisfiable condition.
#[derive(Clone, Copy, Debug, PartialEq, Eq, Structural)]
pub struct ExpectationRange {
    pub lo: u32,
    pub hi: Option<u32>,
}

/// Bounds on the adjustment a function makes to the preemption count.
///
/// `lo` is inclusive and `hi` is exclusive; `None` means that the adjustment is unbounded in
/// that direction.
#[derive(Clone, Copy, Debug, PartialEq, Eq, Structural)]
pub struct AdjustmentBounds {
    pub lo: Option<i32>,
    pub hi: Option<i32>,
}

/// Whether an optional exclusive upper bound `a` is at most `b` (`None` is infinity).
pub open spec fn hi_le(a: Option<u32>, b: Option<u32>) -> bool {
    match (a, b) {
        (_, None) => true,
        (None, Some(_)) => false,
        (Some(x), Some(y)) => x <= y,
    }
}

/// The smaller of two optional exclusive upper bounds (`None` is infinity).
pub open spec fn hi_min(a: Option<u32>, b: Option<u32>) -> Option<u32> {
    match (a, b) {
        (_, None) => a,
        (None, Some(_)) => b,
        (Some(x), Some(y)) => if x > y { Some(y) } else { Some(x) },
    }
}

/// Decimal rendering of an expectation range, as klint prints it in diagnostics.
pub open spec fn display_spec(r: ExpectationRange) -> Seq<char> {
    match r.hi {
        None => decimal(r.lo as nat) + seq!['.', '.'],
        Some(hi) => if r.lo >= hi {
            seq!['u', 'n', 's', 'a', 't', 'i', 's', 'f', 'i', 'a', 'b', 'l', 'e']
        } else if r.lo + 1 == hi {
            decimal(r.lo as nat)
        } else {
            decimal(r.lo as nat) + seq!['.', '.'] + decimal(hi as nat)
        },
    }
}

impl ExpectationRange {
    /// Whether preemption count `n` satisfies the expectation.
    pub open spec fn contains(self, n: int) -> bool {
        &&& self.lo <= n
        &&& match self.hi {
            None => true,
            Some(h) => n < h,
        }
    }

    /// The range holds no count at all.
    pub open spec fn is_empty_spec(self) -> bool {
        match self.hi {
            Some(h) => self.lo >= h,
            None => false,
        }
    }

    /// The greatest lower bound of two ranges: the larger low end and the smaller high end.
    pub open spec fn meet_spec(self, other: Self) -> Self {
        ExpectationRange {
            lo: if self.lo < other.lo { other.lo } else { self.lo },
            hi: hi_min(self.hi, other.hi),
        }
    }

    /// `other` lies within `self`, bound by bound.
    pub open spec fn contains_range_spec(self, other: Self) -> bool {
        other.lo >= self.lo && hi_le(other.hi, self.hi)
    }

    /// The range shifted by `k`, each bound saturating in `u32`.
    pub open spec fn shift_spec(self, k: int) -> Self {
        ExpectationRange {
            lo: clamp_u32(self.lo + k),
            hi: match self.hi {
                None => None,
                Some(h) => Some(clamp_u32(h + k)),
            },
        }
    }

    /// The range of counts a caller may hold so that, after an adjustment within `b`, the count
    /// lies in `self`.
    pub open spec fn add_bounds_spec(self, b: AdjustmentBounds) -> Self {
        ExpectationRange {
            lo: match b.lo {
                None => 0,
                Some(bound) => clamp_u32(self.lo + bound),
            },
            hi: match (self.hi, b.hi) {
                (Some(hi), Some(bound)) => Some(clamp_u32(hi + bound - 1)),
                _ => None,
            },
        }
    }

    /// `add_bounds_spec` does not overflow `i32` on these inputs.
    pub open spec fn add_bounds_req(self, b: AdjustmentBounds) -> bool {
        (self.hi is Some && b.hi is Some) ==> b.hi.unwrap() != i32::MIN
    }

    /// The range of counts reachable from `self` after an adjustment within `b`, undone.
    pub open spec fn sub_bounds_spec(self, b: AdjustmentBounds) -> Self {
        ExpectationRange {
            lo: match b.lo {
                None => 0,
                Some(bound) => clamp_u32(self.lo - bound),
            },
            hi: match (self.hi, b.hi) {
                (None, _) => None,
                (_, None) => Some(0),
                (Some(hi), Some(bound)) => Some(clamp_u32(hi + 1 - bound)),
            },
        }
    }

    /// `sub_bounds_spec` does not overflow `i32` on these inputs.
    pub open spec fn sub_bounds_req(self, b: AdjustmentBounds) -> bool {
        &&& b.lo is Some ==> b.lo.unwrap() != i32::MIN
        &&& (self.hi is Some && b.hi is Some) ==> b.hi.unwrap() >= i32::MIN + 2
    }

    /// The range that places no expectation at all.
    pub fn top() -> (r: Self)
        ensures
            r == (ExpectationRange { lo: 0, hi: None }),
    {
        Self { lo: 0, hi: None }
    }

    /// The range holding exactly `v`.
    pub fn single_value(v: u32) -> (r: Self)
        requires
            v < u32::MAX,
        ensures
            r == (ExpectationRange { lo: v, hi: Some((v + 1) as u32) }),
    {
        Self { lo: v, hi: Some(v + 1) }
    }

    /// Whether the range is unsatisfiable.
    pub fn is_empty(&self) -> (b: bool)
        ensures
            b == self.is_empty_spec(),
    {
        if let Some(hi) = self.hi {
            self.lo >= hi
        } else {
            false
        }
    }

    /// Narrows `self` to its meet with `other`; returns whether `self` changed.
    pub fn meet(&mut self, other: &Self) -> (changed: bool)
        ensures
            *final(self) == old(self).meet_spec(*other),
            changed == (*final(self) != *old(self)),
    {
        let mut changed = false;
        if self.lo < other.lo {
            self.lo = other.lo;
            changed = true;
        }
        match (self.hi, other.hi) {
            (_, None) => (),
            (None, Some(_)) => {
                self.hi = other.hi;
                changed = true;
            },
            (Some(a), Some(b)) => {
                if a > b {
                    self.hi = Some(b);
                    changed = true;
                }
            },
        }
        changed
    }

    /// Whether `other` lies within `self`, bound by bound.
    pub fn contains_range(&self, other: Self) -> (b: bool)
        ensures
            b == self.contains_range_spec(other),
    {
        let mut other = other;
        !other.meet(self)
    }

    /// Renders the range as klint shows it: `lo..`, `unsatisfiable`, `lo` or `lo..hi`.
    pub fn to_string(&self) -> (s: String)
        ensures
            s@ == display_spec(*self),
    {
        let mut s = String::new();
        match self.hi {
            None => {
                push_decimal(&mut s, self.lo);
                s.append("..");
                proof {
                    reveal_strlit("..");
                }
            },
            Some(hi) => {
                if self.lo >= hi {
                    s.append("unsatisfiable");
                    proof {
                        reveal_strlit("unsatisfiable");
                    }
                } else if self.lo + 1 == hi {
                    push_decimal(&mut s, self.lo);
                } else {
                    push_decimal(&mut s, self.lo);
                    s.append("..");
                    proof {
                        reveal_strlit("..");
                    }
                    push_decimal(&mut s, hi);
                }
            },
        }
        s
    }
}

impl core::ops::Add<i32> for ExpectationRange {
    type Output = Self;

    fn add(self, rhs: i32) -> (r: Self)
        ensures
            r == self.shift_spec(rhs as int),
    {
        Self {
            lo: saturating_add(self.lo, rhs),
            hi: match self.hi {
                None => None,
                Some(hi) => Some(saturating_add(hi, rhs)),
            },
        }
    }
}

impl vstd::std_specs::ops::AddSpecImpl<i32> for ExpectationRange {
    open spec fn obeys_add_spec() -> bool {
        true
    }

    open spec fn add_req(self, rhs: i32) -> bool {
        true
    }

    open spec fn add_spec(self, rhs: i32) -> Self {
        self.shift_spec(rhs as int)
    }
}

impl core::ops::Sub<i32> for ExpectationRange {
    type Output = Self;

    fn sub(self, rhs: i32) -> (r: Self)
        ensures
            r == self.shift_spec(-rhs),
    {
        Self {
            lo: saturating_add(self.lo, -rhs),
            hi: match self.hi {
                None => None,
                Some(hi) => Some(saturating_add(hi, -rhs)),
            },
        }
    }
}

impl vstd::std_specs::ops::SubSpecImpl<i32> for ExpectationRange {
    open spec fn obeys_sub_spec() -> bool {
        true
    }

    open spec fn sub_req(self, rhs: i32) -> bool {
        rhs != i32::MIN
    }

    open spec fn sub_spec(self, rhs: i32) -> Self {
        self.shift_spec(-rhs)
    }
}

impl core::ops::Add<AdjustmentBounds> for ExpectationRange {
    type Output = Self;

    fn add(self, rhs: AdjustmentBounds) -> (r: Self)
        ensures
            r == self.add_bounds_spec(rhs),
    {
        Self {
            lo: match rhs.lo {
                None => 0,
                Some(bound) => saturating_add(self.lo, bound),
            },
            hi: match (self.hi, rhs.hi) {
                (Some(hi), Some(bound)) => Some(saturating_add(hi, bound - 1)),
                _ => None,
            },
        }
    }
}

impl vstd::std_specs::ops::AddSpecImpl<AdjustmentBounds> for ExpectationRange {
    open spec fn obeys_add_spec() -> bool {
        true
    }

    open spec fn add_req(self, rhs: AdjustmentBounds) -> bool {
        self.add_bounds_req(rhs)
    }

    open spec fn add_spec(self, rhs: AdjustmentBounds) -> Self {
        self.add_bounds_spec(rhs)
    }
}

impl core::ops::Sub<AdjustmentBounds> for ExpectationRange {
    type Output = Self;

    fn sub(self, rhs: AdjustmentBounds) -> (r: Self)
        ensures
            r == self.sub_bounds_spec(rhs),
    {
        Self {
            lo: match rhs.lo {
                None => 0,
                Some(bound) => saturating_add(self.lo, -bound),
            },
            hi: match (self.hi, rhs.hi) {
                (None, _) => None,
                (_, None) => Some(0),
                (Some(hi), Some(bound)) => Some(saturating_add(hi, 1 - bound)),
            },
        }
    }
}

impl vstd::std_specs::ops::SubSpecImpl<AdjustmentBounds> for ExpectationRange {
    open spec fn obeys_sub_spec() -> bool {
        true
    }

    open spec fn sub_req(self, rhs: AdjustmentBounds) -> bool {
        self.sub_bounds_req(rhs)
    }

    open spec fn sub_spec(self, rhs: AdjustmentBounds) -> Self {
        self.sub_bounds_spec(rhs)
    }
}

/// The meet of two ranges holds exactly the counts that both ranges hold.
pub proof fn lemma_meet_is_intersection(a: ExpectationRange, b: ExpectationRange, n: int)
    ensures
        a.meet_spec(b).contains(n) <==> (a.contains(n) && b.contains(n)),
{
}

/// Meet is commutative.
pub proof fn lemma_meet_commutative(a: ExpectationRange, b: ExpectationRange)
    ensures
        a.meet_spec(b) == b.meet_spec(a),
{
}

/// Meet is idempotent.
pub proof fn lemma_meet_idempotent(a: ExpectationRange)
    ensures
        a.meet_spec(a) == a,
{
}

/// Meet is associative.
pub proof fn lemma_meet_associative(a: ExpectationRange, b: ExpectationRange, c: ExpectationRange)
    ensures
        a.meet_spec(b).meet_spec(c) == a.meet_spec(b.meet_spec(c)),
{
}

/// The meet lies within both of its arguments.
pub proof fn lemma_meet_is_lower_bound(a: ExpectationRange, b: ExpectationRange)
    ensures
        a.contains_range_spec(a.meet_spec(b)),
        b.contains_range_spec(a.meet_spec(b)),
{
}

/// `contains_range` holds exactly when meeting `other` with `self` leaves `other` unchanged.
pub proof fn lemma_contains_range_is_meet_fixpoint(a: ExpectationRange, b: ExpectationRange)
    ensures
        a.contains_range_spec(b) <==> b.meet_spec(a) == b,
{
}

/// Every count of a range that `a` contains is a count of `a`.
pub proof fn lemma_contains_range_sound(a: ExpectationRange, b: ExpectationRange, n: int)
    requires
        a.contains_range_spec(b),
        b.contains(n),
    ensures
        a.contains(n),
{
}

/// For a satisfiable range `b`, `a` contains `b` as soon as every count of `b` is a count of `a`.
pub proof fn lemma_contains_range_complete(a: ExpectationRange, b: ExpectationRange)
    requires
        !b.is_empty_spec(),
        forall|n: int| #[trigger] b.contains(n) ==> a.contains(n),
    ensures
        a.contains_range_spec(b),
{
    if b.lo < a.lo {
        assert(b.contains(b.lo as int));
    }
    match (b.hi, a.hi) {
        (None, Some(h)) => {
            let n: int = if b.lo < h { h as int } else { b.lo as int };
            assert(b.contains(n));
        },
        (Some(bh), Some(ah)) => {
            if bh > ah {
                let n: int = if b.lo < ah { ah as int } else { b.lo as int };
                assert(b.contains(n));
            }
        },
        _ => {},
    }
}

/// A range is empty exactly when no preemption count satisfies it.
pub proof fn lemma_is_empty_means_no_count(r: ExpectationRange)
    ensures
        r.is_empty_spec() <==> (forall|n: int| 0 <= n ==> !#[trigger] r.contains(n)),
{
    if !r.is_empty_spec() {
        assert(r.contains(r.lo as int));
    }
}

/// The top range allows every preemption count.
pub proof fn lemma_top_contains_all(n: int)
    requires
        0 <= n,
    ensures
        (ExpectationRange { lo: 0, hi: None }).contains(n),
{
}

/// The range built for a single value allows that value and no other.
pub proof fn lemma_single_value_exact(v: u32, n: int)
    requires
        v < u32::MAX,
    ensures
        (ExpectationRange { lo: v, hi: Some((v + 1) as u32) }).contains(n) <==> n == v,
{
}

/// Shifting a range by `k` and back by `-k` gives it back when neither bound saturates.
pub proof fn lemma_shift_roundtrip(r: ExpectationRange, k: int)
    requires
        0 <= r.lo + k <= u32_max(),
        r.hi is Some ==> 0 <= r.hi.unwrap() + k <= u32_max(),
    ensures
        r.shift_spec(k).shift_spec(-k) == r,
{
}

/// Shifting a range by `k` shifts the counts it allows by `k` when neither bound saturates.
pub proof fn lemma_shift_contains(r: ExpectationRange, k: int, n: int)
    requires
        0 <= r.lo + k <= u32_max(),
        r.hi is Some ==> 0 <= r.hi.unwrap() + k <= u32_max(),
    ensures
        r.shift_spec(k).contains(n + k) <==> r.contains(n),
{
}

/// Subtracting adjustment bounds from a range keeps an unbounded range unbounded and a bounded
/// range bounded; adjustment bounds with no lower end leave no lower end either.
pub proof fn lemma_sub_bounds_keeps_unbounded(r: ExpectationRange, b: AdjustmentBounds)
    ensures
        (r.sub_bounds_spec(b).hi is None) == (r.hi is None),
        b.lo is None ==> r.sub_bounds_spec(b).lo == 0,
{
}

/// Adding adjustment bounds to a range gives an upper end exactly when both have one; adjustment
/// bounds with no lower end leave no lower end either.
pub proof fn lemma_add_bounds_upper_end(r: ExpectationRange, b: AdjustmentBounds)
    ensures
        (r.add_bounds_spec(b).hi is Some) == (r.hi is Some && b.hi is Some),
        b.lo is None ==> r.add_bounds_spec(b).lo == 0,
{
}

} // verus!

//! Axis-aligned bounding boxes over integer coordinates.
//!
//! Coordinates are fixed-point integers: the caller chooses the unit (for
//! instance a thousandth of a world unit) and every test on boxes is exact.

use vstd::prelude::*;

verus! {

/// The value of `x` brought back into the range of `i64`.
pub open spec fn clamped(x: int) -> int {
    if x < i64::MIN {
        i64::MIN as int
    } else if x > i64::MAX {
        i64::MAX as int
    } else {
        x
    }
}

/// An axis-aligned box in `D` dimensions, given by its lowest and highest
/// corner. A box holds its faces: one with `mins == maxs` is a single point.
#[derive(Clone, Copy, Debug)]
pub struct Aabb<const D: usize> {
    pub mins: [i64; D],
    pub maxs: [i64; D],
}

impl<const D: usize> Aabb<D> {
    /// The box is not empty: on no axis does the low face lie above the high one.
    pub open spec fn valid(&self) -> bool {
        forall|k: int|
            #![trigger self.mins[k]]
            #![trigger self.maxs[k]]
            0 <= k < D ==> self.mins[k] <= self.maxs[k]
    }

    /// The two boxes share a point: their intervals meet on every axis.
    pub open spec fn overlaps(&self, other: &Aabb<D>) -> bool {
        forall|k: int|
            #![trigger self.mins[k]]
            #![trigger self.maxs[k]]
            #![trigger other.mins[k]]
            #![trigger other.maxs[k]]
            0 <= k < D ==> self.mins[k] <= other.maxs[k] && other.mins[k] <= self.maxs[k]
    }

    /// Every point of `other` is a point of `self`.
    pub open spec fn encloses(&self, other: &Aabb<D>) -> bool {
        forall|k: int|
            #![trigger self.mins[k]]
            #![trigger self.maxs[k]]
            #![trigger other.mins[k]]
            #![trigger other.maxs[k]]
            0 <= k < D ==> self.mins[k] <= other.mins[k] && other.maxs[k] <= self.maxs[k]
    }

    /// `self` is the smallest box around `a` and `b`.
    pub open spec fn unites(&self, a: &Aabb<D>, b: &Aabb<D>) -> bool {
        forall|k: int|
            #![trigger self.mins[k]]
            #![trigger self.maxs[k]]
            #![trigger a.mins[k]]
            #![trigger a.maxs[k]]
            #![trigger b.mins[k]]
            #![trigger b.maxs[k]]
            0 <= k < D ==> {
                &&& self.mins[k] == if a.mins[k] <= b.mins[k] { a.mins[k] } else { b.mins[k] }
                &&& self.maxs[k] == if a.maxs[k] >= b.maxs[k] { a.maxs[k] } else { b.maxs[k] }
            }
    }

    /// `self` is `a` with every face pushed outwards by `margin`, as far as the
    /// range of the coordinates allows.
    pub open spec fn loosens(&self, a: &Aabb<D>, margin: int) -> bool {
        forall|k: int|
            #![trigger self.mins[k]]
            #![trigger self.maxs[k]]
            #![trigger a.mins[k]]
            #![trigger a.maxs[k]]
            0 <= k < D ==> {
                &&& self.mins[k] == clamped(a.mins[k] - margin)
                &&& self.maxs[k] == clamped(a.maxs[k] + margin)
            }
    }

    /// By how much the sum of the edge lengths along the first `k` axes grows
    /// when the box is widened to hold `added` as well.
    pub open spec fn growth_upto(&self, added: &Aabb<D>, k: int) -> int
        decreases k,
    {
        if k <= 0 {
            0
        } else {
            let low = if self.mins[k - 1] <= added.mins[k - 1] {
                self.mins[k - 1]
            } else {
                added.mins[k - 1]
            };
            let high = if self.maxs[k - 1] >= added.maxs[k - 1] {
                self.maxs[k - 1]
            } else {
                added.maxs[k - 1]
            };
            self.growth_upto(added, k - 1) + ((high - low) - (self.maxs[k - 1] - self.mins[k - 1]))
        }
    }

    /// By how much the sum of the edge lengths grows when the box is widened to
    /// hold `added` as well.
    pub open spec fn growth(&self, added: &Aabb<D>) -> int {
        self.growth_upto(added, D as int)
    }

    /// The box with the given corners, which may be empty: see `is_valid`.
    pub fn new(mins: [i64; D], maxs: [i64; D]) -> (b: Aabb<D>)
        ensures
            b.mins == mins,
            b.maxs == maxs,
    {
        Aabb { mins, maxs }
    }

    /// Whether the box is not empty.
    pub fn is_valid(&self) -> (r: bool)
        ensures
            r == self.valid(),
    {
        let mut k: usize = 0;
        while k < D
            invariant
                k <= D,
                forall|j: int| #![trigger self.mins[j]] 0 <= j < k ==> self.mins[j] <= self.maxs[j],
            decreases D - k,
        {
            if self.mins[k] > self.maxs[k] {
                return false;
            }
            k += 1;
        }
        true
    }

    /// Whether the two boxes share a point.
    pub fn intersects(&self, other: &Aabb<D>) -> (r: bool)
        ensures
            r == self.overlaps(other),
    {
        let mut k: usize = 0;
        while k < D
            invariant
                k <= D,
                forall|j: int|
                    #![trigger self.mins[j]]
                    0 <= j < k ==> self.mins[j] <= other.maxs[j] && other.mins[j] <= self.maxs[j],
            decreases D - k,
        {
            if self.mins[k] > other.maxs[k] || other.mins[k] > self.maxs[k] {
                return false;
            }
            k += 1;
        }
        true
    }

    /// Whether `other` lies inside `self`.
    pub fn contains(&self, other: &Aabb<D>) -> (r: bool)
        ensures
            r == self.encloses(other),
    {
        let mut k: usize = 0;
        while k < D
            invariant
                k <= D,
                forall|j: int|
                    #![trigger self.mins[j]]
                    0 <= j < k ==> self.mins[j] <= other.mins[j] && other.maxs[j] <= self.maxs[j],
            decreases D - k,
        {
            if self.mins[k] > other.mins[k] || other.maxs[k] > self.maxs[k] {
                return false;
            }
            k += 1;
        }
        true
    }

    /// The smallest box around `self` and `other`.
    pub fn merged(&self, other: &Aabb<D>) -> (r: Aabb<D>)
        ensures
            r.unites(self, other),
    {
        let mut mins = self.mins;
        let mut maxs = self.maxs;
        let mut k: usize = 0;
        while k < D
            invariant
                k <= D,
                forall|j: int|
                    #![trigger mins[j]]
                    #![trigger maxs[j]]
                    0 <= j < k ==> {
                        &&& mins[j] == if self.mins[j] <= other.mins[j] { self.mins[j] } else { other.mins[j] }
                        &&& maxs[j] == if self.maxs[j] >= other.maxs[j] { self.maxs[j] } else { other.maxs[j] }
                    },
                forall|j: int|
                    #![trigger mins[j]]
                    #![trigger maxs[j]]
                    k <= j < D ==> mins[j] == self.mins[j] && maxs[j] == self.maxs[j],
            decreases D - k,
        {
            if other.mins[k] < mins[k] {
                mins[k] = other.mins[k];
            }
            if other.maxs[k] > maxs[k] {
                maxs[k] = other.maxs[k];
            }
            k += 1;
        }
        Aabb { mins, maxs }
    }

    /// The box with every face pushed outwards by `margin`. A face that would
    /// leave the range of the coordinates stays at its end.
    pub fn loosened(&self, margin: u64) -> (r: Aabb<D>)
        ensures
            r.loosens(self, margin as int),
    {
        let mut mins = self.mins;
        let mut maxs = self.maxs;
        let mut k: usize = 0;
        while k < D
            invariant
                k <= D,
                forall|j: int|
                    #![trigger mins[j]]
                    #![trigger maxs[j]]
                    0 <= j < k ==> {
                        &&& mins[j] == clamped(self.mins[j] - margin)
                        &&& maxs[j] == clamped(self.maxs[j] + margin)
                    },
                forall|j: int|
                    #![trigger mins[j]]
                    #![trigger maxs[j]]
                    k <= j < D ==> mins[j] == self.mins[j] && maxs[j] == self.maxs[j],
            decreases D - k,
        {
            let low: i128 = mins[k] as i128 - margin as i128;
            let high: i128 = maxs[k] as i128 + margin as i128;
            mins[k] = if low < i64::MIN as i128 {
                i64::MIN
            } else {
                low as i64
            };
            maxs[k] = if high > i64::MAX as i128 {
                i64::MAX
            } else {
                high as i64
            };
            k += 1;
        }
        Aabb { mins, maxs }
    }

    /// By how much the sum of the edge lengths grows when the box is widened to
    /// hold `added` as well.
    pub(crate) fn growth_by(&self, added: &Aabb<D>) -> (r: u128)
        requires
            self.valid(),
            added.valid(),
        ensures
            r == self.growth(added),
    {
        let mut sum: u128 = 0;
        let mut k: usize = 0;
        while k < D
            invariant
                k <= D,
                self.valid(),
                added.valid(),
                sum == self.growth_upto(added, k as int),
                sum <= k * 0xffff_ffff_ffff_ffff,
            decreases D - k,
        {
            let low: i64 = if self.mins[k] <= added.mins[k] {
                self.mins[k]
            } else {
                added.mins[k]
            };
            let high: i64 = if self.maxs[k] >= added.maxs[k] {
                self.maxs[k]
            } else {
                added.maxs[k]
            };
            let wide: i128 = high as i128 - low as i128;
            let own: i128 = self.maxs[k] as i128 - self.mins[k] as i128;
            let step: u128 = (wide - own) as u128;
            assert(step <= 0xffff_ffff_ffff_ffff);
            assert((k + 1) * 0xffff_ffff_ffff_ffff <= 0xffff_ffff_ffff_ffff * 0xffff_ffff_ffff_ffff)
                by (nonlinear_arith)
                requires
                    k + 1 <= 0xffff_ffff_ffff_ffff,
            ;
            assert(self.growth_upto(added, k + 1) == self.growth_upto(added, k as int) + step);
            sum = sum + step;
            k += 1;
        }
        sum
    }
}

/// A box that is not empty shares a point with itself.
pub proof fn lemma_overlaps_itself<const D: usize>(a: &Aabb<D>)
    requires
        a.valid(),
    ensures
        a.overlaps(a),
{
}

/// Boxes around two boxes that share a point share a point too.
pub proof fn lemma_overlaps_grows<const D: usize>(
    a: &Aabb<D>,
    b: &Aabb<D>,
    around_a: &Aabb<D>,
    around_b: &Aabb<D>,
)
    requires
        a.overlaps(b),
        around_a.encloses(a),
        around_b.encloses(b),
    ensures
        around_a.overlaps(around_b),
{
}

/// Being inside is transitive.
pub proof fn lemma_encloses_transitive<const D: usize>(a: &Aabb<D>, b: &Aabb<D>, c: &Aabb<D>)
    requires
        a.encloses(b),
        b.encloses(c),
    ensures
        a.encloses(c),
{
}

/// A loosened box holds the box it was made from.
pub proof fn lemma_loosened_encloses<const D: usize>(l: &Aabb<D>, a: &Aabb<D>, margin: int)
    requires
        l.loosens(a, margin),
        margin >= 0,
    ensures
        l.encloses(a),
        a.valid() ==> l.valid(),
{
}

} // verus!

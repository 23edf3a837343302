//! Particle effect descriptors and their sampling rules: piecewise-linear
//! channel envelopes and uniform random ranges, in fixed point.

use vstd::prelude::*;
use vstd::arithmetic::div_mod::{lemma_div_is_ordered, lemma_div_multiples_vanish,
    lemma_div_pos_is_pos};
use crate::definition::COORD_LIMIT;

verus! {

/// `d * rem / 1000`, toward zero, for a possibly negative `d`.
pub open spec fn scaled_diff(d: int, rem: int) -> int {
    if d >= 0 {
        d * rem / 1000
    } else {
        -((-d) * rem / 1000)
    }
}

/// Where `frac` thousandths of the way through `vals` lands: the node pair
/// it falls between and the interpolation between them; past the end, the
/// last node.
pub open spec fn spec_linear_sample(vals: Seq<i64>, frac: int) -> int {
    if vals.len() == 1 {
        vals[0] as int
    } else if frac >= 1000 {
        vals.last() as int
    } else {
        let t = frac * (vals.len() - 1);
        let idx = t / 1000;
        let rem = t % 1000;
        vals[idx] + scaled_diff(vals[idx + 1] - vals[idx], rem)
    }
}

/// A piecewise-linear envelope over `[0, 1]`: at least one node, sampled by
/// linear interpolation (milli units per node).
pub struct Linear {
    pub values: Vec<i64>,
}

impl Linear {
    /// At least one node, all within range.
    pub open spec fn wf(&self) -> bool {
        &&& 1 <= self.values@.len() <= 10_000
        &&& forall|i: int| 0 <= i < self.values@.len()
            ==> -COORD_LIMIT <= #[trigger] self.values@[i] <= COORD_LIMIT
    }

    /// An envelope from its nodes.
    pub fn new(values: Vec<i64>) -> (r: Linear)
        ensures
            r.values@ == values@,
    {
        Linear { values }
    }

    /// The envelope's value `frac` thousandths of the way through.
    pub fn get(&self, frac: i64) -> (r: i64)
        requires
            self.wf(),
            0 <= frac,
        ensures
            r == spec_linear_sample(self.values@, frac as int),
            -COORD_LIMIT <= r <= COORD_LIMIT,
    {
        let n = self.values.len();
        if n == 1 {
            self.values[0]
        } else if frac >= 1000 {
            self.values[n - 1]
        } else {
            proof {
                assert(frac * (n - 1) <= 999 * (n - 1)) by (nonlinear_arith)
                    requires 0 <= frac <= 999, 1 <= n;
                assert(999 * (n - 1) < 1000 * (n - 1)) by (nonlinear_arith)
                    requires 2 <= n;
                assert(0 <= frac * (n - 1)) by (nonlinear_arith)
                    requires 0 <= frac, 1 <= n;
                lemma_div_pos_is_pos(frac as int * (n - 1), 1000);
                lemma_div_is_ordered(frac as int * (n - 1), 1000 * (n - 1), 1000);
                lemma_div_multiples_vanish(n - 1, 1000);
                assert(frac as int * (n - 1) < 1000 * (n - 1) ==> frac as int * (n - 1)
                    <= 1000 * (n - 1) - 1);
                lemma_div_is_ordered(frac as int * (n - 1), 1000 * (n - 1) - 1, 1000);
            }
            let t: u64 = (frac as u64) * ((n - 1) as u64);
            let idx: usize = (t / 1000) as usize;
            let rem: u64 = t % 1000;
            proof {
                assert(t / 1000 < n - 1) by {
                    if t / 1000 >= n - 1 {
                        lemma_div_multiples_vanish(n - 1, 1000);
                        assert((1000 * (n - 1) - 1) / 1000 <= (n - 1) - 1) by {
                            vstd::arithmetic::div_mod::lemma_fundamental_div_mod(
                                1000 * (n - 1) - 1, 1000);
                        };
                    }
                };
            }
            let lo = self.values[idx];
            let hi = self.values[idx + 1];
            let d = hi - lo;
            proof {
                let dd = if d >= 0 { d as int } else { -d as int };
                assert(dd * rem <= 2_000_000_000int * 1000int) by (nonlinear_arith)
                    requires 0 <= dd <= 2_000_000_000int, 0 <= rem < 1000u64;
                assert(0 <= dd * rem) by (nonlinear_arith)
                    requires 0 <= dd, 0 <= rem;
                lemma_div_pos_is_pos(dd * rem as int, 1000);
                assert(dd * rem <= dd * 1000) by (nonlinear_arith)
                    requires 0 <= dd, 0 <= rem <= 1000u64;
                lemma_div_is_ordered(dd * rem as int, dd * 1000, 1000);
                lemma_div_multiples_vanish(dd, 1000);
                assert(dd * 1000 == 1000 * dd) by (nonlinear_arith);
            }
            let step: i64 = if d >= 0 {
                (((d as u64) * rem) / 1000) as i64
            } else {
                -(((((-d) as u64) * rem) / 1000) as i64)
            };
            lo + step
        }
    }
}

/// A uniform inclusive range of fixed-point scalars.
pub struct RandRange {
    pub lo: i64,
    pub hi: i64,
}

impl RandRange {
    /// An ordered, bounded range.
    pub open spec fn wf(&self) -> bool {
        -COORD_LIMIT <= self.lo <= self.hi <= COORD_LIMIT
    }

    /// The point of the range a raw draw selects: `lo + (hi - lo) * rnd`
    /// over the draw's full span.
    pub fn rand(&self, rnd: u32) -> (r: i64)
        requires
            self.wf(),
        ensures
            r == self.lo + (self.hi - self.lo) * (rnd as int) / (u32::MAX as int),
            self.lo <= r <= self.hi,
    {
        let span: u64 = (self.hi - self.lo) as u64;
        proof {
            assert(span * rnd <= 2_000_000_000u64 * 4_294_967_295u64) by (nonlinear_arith)
                requires 0 <= span <= 2_000_000_000u64, rnd <= 4_294_967_295u64;
            assert(0 <= span * rnd) by (nonlinear_arith);
            lemma_div_pos_is_pos(span as int * rnd as int, u32::MAX as int);
            assert(span * rnd <= span * (u32::MAX as int)) by (nonlinear_arith)
                requires 0 <= span, rnd <= u32::MAX;
            lemma_div_is_ordered(span as int * rnd as int, span as int * (u32::MAX as int),
                u32::MAX as int);
            lemma_div_multiples_vanish(span as int, u32::MAX as int);
            assert(span as int * (u32::MAX as int) == (u32::MAX as int) * span as int)
                by (nonlinear_arith);
        }
        let off: u64 = span * (rnd as u64) / (u32::MAX as u64);
        self.lo + (off as i64)
    }

    /// The index a raw draw selects, uniform over `[lo, hi]` by remainder.
    pub fn rand_index(lo: usize, hi: usize, rnd: u32) -> (r: usize)
        requires
            lo <= hi,
            hi - lo < u32::MAX,
        ensures
            r == lo + (rnd as int) % (hi - lo + 1),
            lo <= r <= hi,
    {
        lo + (rnd % ((hi - lo + 1) as u32)) as usize
    }
}

/// A scattering burst: sprites thrown outward with tinted, fading channels.
pub struct ScatteringDef {
    /// The sprite images thrown.
    pub image_asset_paths: Vec<String>,
    /// Sprite scale (milli).
    pub image_scale: i64,
    /// Channel envelopes over a particle's lifetime (milli).
    pub alpha: Linear,
    pub red: Linear,
    pub green: Linear,
    pub blue: Linear,
    /// Launch direction range (milli degrees).
    pub theta: RandRange,
    /// Launch speed range (milli units per second).
    pub velocity: RandRange,
    /// Spin range (milli turns per second).
    pub rotation: RandRange,
    /// Acceleration ranges per axis (milli units per second squared).
    pub accelation_x: RandRange,
    pub accelation_y: RandRange,
    /// How many particles to throw.
    pub num_min: usize,
    pub num_max: usize,
    /// Lifetime range (milliseconds).
    pub time: RandRange,
}

/// The effect kinds a merge can trigger.
pub enum EffectDef {
    Scattering(ScatteringDef),
}

} // verus!

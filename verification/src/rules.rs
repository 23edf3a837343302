//! Pure merge rules: ball levels, promotion, and scoring.

use vstd::prelude::*;

verus! {

/// Smallest ball level.
pub const BALL_LEVEL_MIN: usize = 1;

/// Discrete ball size class; `1` is the smallest.  Two touching balls of the
/// same level merge into one ball of the next level.
#[derive(Clone, Copy, Debug, PartialEq, Eq, Structural)]
pub struct BallLevel(pub usize);

/// `lv` names a level the definition `max_level` knows.
pub open spec fn is_valid_level(lv: BallLevel, max_level: BallLevel) -> bool {
    BALL_LEVEL_MIN <= lv.0 <= max_level.0
}

impl BallLevel {
    /// A level from its number.
    pub fn new(lv: usize) -> (r: BallLevel)
        requires
            lv >= BALL_LEVEL_MIN,
        ensures
            r.0 == lv,
    {
        BallLevel(lv)
    }

    /// The level a raw random draw selects, uniform over `[min, max]`.
    pub fn from_rand_u32(rnd: u32, min: BallLevel, max: BallLevel) -> (r: BallLevel)
        requires
            BALL_LEVEL_MIN <= min.0,
            min.0 <= max.0,
        ensures
            r.0 == min.0 + (rnd as int) % (max.0 - min.0 + 1),
            min.0 <= r.0 <= max.0,
    {
        BallLevel((rnd as usize % (max.0 - min.0 + 1)) + min.0)
    }
}

/// Level of the ball a merge of two `lv` balls produces: `Some(lv + 1)` below
/// the maximum level, `None` at the maximum (the pair vanishes).
pub fn promote(lv: BallLevel, max_level: BallLevel) -> (r: Option<BallLevel>)
    requires
        is_valid_level(lv, max_level),
    ensures
        lv.0 < max_level.0 ==> r == Some(BallLevel((lv.0 + 1) as usize)),
        lv.0 == max_level.0 ==> r == Option::<BallLevel>::None,
        r is Some ==> is_valid_level(r->Some_0, max_level),
{
    if lv.0 < max_level.0 {
        Some(BallLevel(lv.0 + 1))
    } else {
        None
    }
}

/// The level whose square a merge scores: one below the promoted level, or
/// the maximum level when the pair vanished.
pub open spec fn combined_level(promoted: Option<BallLevel>, max_level: BallLevel) -> int {
    match promoted {
        Some(lv) => lv.0 - 1,
        None => max_level.0 as int,
    }
}

/// Points one merge yields: the square of the level of the pair that merged.
/// Dropping a ball yields nothing.
pub fn score_for_merge(promoted: Option<BallLevel>, max_level: BallLevel) -> (r: u32)
    requires
        promoted is Some ==> promoted->Some_0.0 >= BALL_LEVEL_MIN,
        combined_level(promoted, max_level) <= 65535,
    ensures
        r == combined_level(promoted, max_level) * combined_level(promoted, max_level),
{
    let c: usize = match promoted {
        Some(lv) => lv.0 - 1,
        None => max_level.0,
    };
    proof {
        assert(c * c <= 65535 * 65535) by (nonlinear_arith)
            requires c <= 65535;
    }
    (c as u32) * (c as u32)
}

/// Promotion closure: a merge that yields a new ball leaves that ball with a
/// level the definition knows, so a later pair of such balls is again an
/// admissible identical-level merge.
pub proof fn lemma_promotion_closure(lv: BallLevel, promoted: BallLevel, max_level: BallLevel)
    requires
        is_valid_level(lv, max_level),
        lv.0 < max_level.0,
        promoted.0 == lv.0 + 1,
    ensures
        is_valid_level(promoted, max_level),
{
}

} // verus!

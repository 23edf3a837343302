//! The immutable game definition: per-level ball records, bottle geometry,
//! and physics tunables, all in fixed-point milli units, with the
//! well-formedness every other module relies on.

use vstd::prelude::*;
use crate::math::{isqrt_u64, sqrt_val, lemma_sqrt_val};
use crate::rules::{BallLevel, BALL_LEVEL_MIN};

verus! {

/// Bound on radii and view sizes (milli units).
pub const RADIUS_LIMIT: i64 = 1_000_000_000;

/// Bound on coordinates, widths and offsets (milli units).
pub const COORD_LIMIT: i64 = 1_000_000_000;

/// Bound on velocity components (milli units per second).
pub const VELOCITY_LIMIT: i64 = 1_000_000_000;

/// Bound on the number of ball levels one definition may hold.
pub const MAX_LEVEL_LIMIT: usize = 255;

/// Bound on the growth duration (milliseconds).
pub const GROW_TIME_LIMIT_MS: u64 = 600_000;

/// Immutable per-level record.
pub struct BallLevelDef {
    /// Radius of the ball's circular collider once fully grown (milli).
    pub physics_radius: i64,
    /// Width of the ball's view rectangle (milli).
    pub view_width: i64,
    /// Height of the ball's view rectangle (milli).
    pub view_height: i64,
    /// Where the ball's image is found; the core only carries it.
    pub image_asset_path: String,
    /// Index of the effect played when a merge produces this level.
    pub effect_index: Option<usize>,
}

/// The bottle's static geometry: interior size, wall thickness and the offset
/// of its center from the world origin (all milli).
pub struct BottleDef {
    pub inner_width: i64,
    pub inner_height: i64,
    pub thickness: i64,
    pub offset_x: i64,
    pub offset_y: i64,
}

impl BottleDef {
    /// Outer size of the bottle: the interior plus two side walls across,
    /// and the interior plus the floor in height.
    pub fn outer_size(&self) -> (r: (i64, i64))
        requires
            0 <= self.inner_width <= COORD_LIMIT,
            0 <= self.inner_height <= COORD_LIMIT,
            0 <= self.thickness <= COORD_LIMIT,
        ensures
            r.0 == self.inner_width + self.thickness * 2,
            r.1 == self.inner_height + self.thickness,
    {
        (self.inner_width + self.thickness * 2, self.inner_height + self.thickness)
    }

    /// Size of the floor capsule's bounding box.
    pub fn bottom_size(&self) -> (r: (i64, i64))
        requires
            0 <= self.inner_width <= COORD_LIMIT,
            0 <= self.inner_height <= COORD_LIMIT,
            0 <= self.thickness <= COORD_LIMIT,
        ensures
            r.0 == self.inner_width + self.thickness * 2,
            r.1 == self.thickness,
    {
        let outer = self.outer_size();
        (outer.0, self.thickness)
    }

    /// Size of one side wall capsule's bounding box.
    pub fn side_size(&self) -> (r: (i64, i64))
        requires
            0 <= self.inner_width <= COORD_LIMIT,
            0 <= self.inner_height <= COORD_LIMIT,
            0 <= self.thickness <= COORD_LIMIT,
        ensures
            r.0 == self.thickness,
            r.1 == self.inner_height + self.thickness,
    {
        let outer = self.outer_size();
        (self.thickness, outer.1)
    }

    /// The bottle's top-left corner.
    pub fn left_top(&self) -> (r: (i64, i64))
        requires
            0 <= self.inner_width <= COORD_LIMIT,
            0 <= self.inner_height <= COORD_LIMIT,
            0 <= self.thickness <= COORD_LIMIT,
            -COORD_LIMIT <= self.offset_x <= COORD_LIMIT,
            -COORD_LIMIT <= self.offset_y <= COORD_LIMIT,
        ensures
            r.0 == -((self.inner_width + self.thickness * 2) / 2) + self.offset_x,
            r.1 == (self.inner_height + self.thickness) / 2 + self.offset_y,
    {
        let outer = self.outer_size();
        (-(outer.0 / 2) + self.offset_x, outer.1 / 2 + self.offset_y)
    }

    /// The bottle's bottom-right corner.
    pub fn right_bottom(&self) -> (r: (i64, i64))
        requires
            0 <= self.inner_width <= COORD_LIMIT,
            0 <= self.inner_height <= COORD_LIMIT,
            0 <= self.thickness <= COORD_LIMIT,
            -COORD_LIMIT <= self.offset_x <= COORD_LIMIT,
            -COORD_LIMIT <= self.offset_y <= COORD_LIMIT,
        ensures
            r.0 == (self.inner_width + self.thickness * 2) / 2 + self.offset_x,
            r.1 == -((self.inner_height + self.thickness) / 2) + self.offset_y,
    {
        let outer = self.outer_size();
        (outer.0 / 2 + self.offset_x, -(outer.1 / 2) + self.offset_y)
    }
}

/// Bounded rectangle; a ball whose center leaves it ends the game.
#[derive(Clone, Copy, Debug, PartialEq, Eq, Structural)]
pub struct Area {
    pub min_x: i64,
    pub max_x: i64,
    pub min_y: i64,
    pub max_y: i64,
}

/// Reasons a definition is rejected at load.
#[derive(Clone, Copy, Debug, PartialEq, Eq, Structural)]
pub enum DefinitionError {
    /// No levels at all, or more than `MAX_LEVEL_LIMIT`.
    BadLevelCount,
    /// The droppable maximum is zero or exceeds the last level.
    BadDropLevelMax,
    /// A radius or view size is out of range.
    BadBallGeometry,
    /// A merged ball would start larger than it ends.
    StartRadiusTooLarge,
    /// The player's cursor speed is out of range.
    BadPlayerSpeed,
    /// A bottle dimension is out of range.
    BadBottle,
    /// The play area is inverted or out of range.
    BadArea,
    /// A physics tunable is out of range.
    BadPhysics,
}

/// One mode's full table of tunables, as the loader hands it to the core.
pub struct GameDefinition {
    /// One record per level; level `L` lives at index `L - 1`.
    pub balls: Vec<BallLevelDef>,
    /// Largest level the player may spawn directly.
    pub drop_ball_level_max: BallLevel,
    /// Cursor speed: milli units per full-deflection move input.
    pub player_speed: i64,
    /// Bottle geometry.
    pub bottle: BottleDef,
    /// Time a merged ball takes to grow to its final radius.
    pub grow_time_ms: u64,
    /// Play area; leaving it is game over.
    pub area: Area,
    /// Speed cap enforced by the per-tick velocity clamp (milli/s).
    pub max_velocity: i64,
    /// Scale of the bottle's shake offset (milli).
    pub shake_k: i64,
}

impl GameDefinition {
    /// Final radius of a level-`lv` ball.
    pub open spec fn spec_ball_radius(&self, lv: int) -> int {
        self.balls@[lv - 1].physics_radius as int
    }

    /// Radius at which a freshly merged level-`lv` ball appears: the largest
    /// circle fitting the free space where two level-`(lv-1)` balls tangent
    /// to a level-1 ball touched, `sqrt(2*r1*r_{lv-1} + r1^2) - r1`.
    pub open spec fn spec_start_radius(&self, lv: int) -> int {
        if lv <= BALL_LEVEL_MIN {
            self.spec_ball_radius(lv)
        } else {
            let r1 = self.spec_ball_radius(BALL_LEVEL_MIN as int);
            let y = self.spec_ball_radius(lv - 1);
            sqrt_val(2 * r1 * y + r1 * r1) - r1
        }
    }

    /// Number of levels, as the largest valid level.
    pub open spec fn spec_max_level(&self) -> int {
        self.balls@.len() as int
    }

    /// Everything the rest of the core assumes of a loaded definition.
    pub open spec fn wf(&self) -> bool {
        &&& 1 <= self.balls@.len() <= MAX_LEVEL_LIMIT
        &&& BALL_LEVEL_MIN <= self.drop_ball_level_max.0 <= self.balls@.len()
        &&& forall|i: int| 0 <= i < self.balls@.len() ==> {
            &&& 1 <= #[trigger] self.balls@[i].physics_radius <= RADIUS_LIMIT
            &&& 0 <= self.balls@[i].view_width <= RADIUS_LIMIT
            &&& 0 <= self.balls@[i].view_height <= RADIUS_LIMIT
        }
        &&& forall|lv: int| 2 <= lv <= self.balls@.len() ==> {
            &&& 0 <= #[trigger] self.spec_start_radius(lv)
            &&& self.spec_start_radius(lv) <= self.spec_ball_radius(lv)
        }
        &&& 1 <= self.player_speed <= COORD_LIMIT
        &&& 0 <= self.bottle.inner_width <= COORD_LIMIT
        &&& 0 <= self.bottle.inner_height <= COORD_LIMIT
        &&& 0 <= self.bottle.thickness <= COORD_LIMIT
        &&& -COORD_LIMIT <= self.bottle.offset_x <= COORD_LIMIT
        &&& -COORD_LIMIT <= self.bottle.offset_y <= COORD_LIMIT
        &&& -COORD_LIMIT <= self.area.min_x <= self.area.max_x <= COORD_LIMIT
        &&& -COORD_LIMIT <= self.area.min_y <= self.area.max_y <= COORD_LIMIT
        &&& 0 <= self.max_velocity <= VELOCITY_LIMIT
        &&& 0 <= self.shake_k <= COORD_LIMIT
        &&& 1 <= self.grow_time_ms <= GROW_TIME_LIMIT_MS
    }

    /// The largest level two balls may merge at.
    pub fn get_ball_max_level(&self) -> (r: BallLevel)
        requires
            self.wf(),
        ensures
            r.0 == self.spec_max_level(),
    {
        BallLevel(self.balls.len())
    }

    /// Final collider radius of a level-`lv` ball.
    pub fn get_ball_r(&self, lv: BallLevel) -> (r: i64)
        requires
            self.wf(),
            BALL_LEVEL_MIN <= lv.0 <= self.balls@.len(),
        ensures
            r == self.spec_ball_radius(lv.0 as int),
            1 <= r <= RADIUS_LIMIT,
    {
        self.balls[lv.0 - 1].physics_radius
    }

    /// View rectangle of a level-`lv` ball, as `(width, height)`.
    pub fn get_ball_mesh_wh(&self, lv: BallLevel) -> (r: (i64, i64))
        requires
            self.wf(),
            BALL_LEVEL_MIN <= lv.0 <= self.balls@.len(),
        ensures
            r.0 == self.balls@[lv.0 - 1].view_width,
            r.1 == self.balls@[lv.0 - 1].view_height,
    {
        let s = &self.balls[lv.0 - 1];
        (s.view_width, s.view_height)
    }

    /// The whole per-level record of level `lv`.
    pub fn get_ball_setting(&self, lv: BallLevel) -> (r: &BallLevelDef)
        requires
            self.wf(),
            BALL_LEVEL_MIN <= lv.0 <= self.balls@.len(),
        ensures
            *r == self.balls@[lv.0 - 1],
    {
        &self.balls[lv.0 - 1]
    }

    /// Where the bottle's center sits in the world.
    pub fn bottle_center(&self) -> (r: (i64, i64))
        requires
            self.wf(),
        ensures
            r.0 == self.bottle.offset_x,
            r.1 == self.bottle.offset_y,
    {
        (self.bottle.offset_x, self.bottle.offset_y)
    }

    /// The bottle's outer size.
    pub fn bottle_outer_size(&self) -> (r: (i64, i64))
        requires
            self.wf(),
        ensures
            r.0 == self.bottle.inner_width + self.bottle.thickness * 2,
            r.1 == self.bottle.inner_height + self.bottle.thickness,
    {
        self.bottle.outer_size()
    }

    /// Collider radius a freshly merged level-`lv` ball starts from.
    pub fn get_ball_start_r(&self, lv: BallLevel) -> (r: i64)
        requires
            self.wf(),
            2 <= lv.0 <= self.balls@.len(),
        ensures
            r == self.spec_start_radius(lv.0 as int),
            0 <= r <= self.spec_ball_radius(lv.0 as int),
    {
        let r1 = self.balls[BALL_LEVEL_MIN - 1].physics_radius;
        let y = self.balls[lv.0 - 2].physics_radius;
        let r = start_r_raw(r1, y);
        proof {
            assert(r == self.spec_start_radius(lv.0 as int));
            assert(self.spec_start_radius(lv.0 as int) <= self.spec_ball_radius(lv.0 as int));
        }
        r
    }

    /// Checks every clause of `wf`, reporting the first violation found.
    pub fn check(&self) -> (r: Result<(), DefinitionError>)
        ensures
            r is Ok <==> self.wf(),
            r == Err::<(), DefinitionError>(DefinitionError::BadLevelCount)
                ==> !(1 <= self.balls@.len() <= MAX_LEVEL_LIMIT),
            r == Err::<(), DefinitionError>(DefinitionError::BadDropLevelMax)
                ==> !(BALL_LEVEL_MIN <= self.drop_ball_level_max.0 <= self.balls@.len()),
            r == Err::<(), DefinitionError>(DefinitionError::StartRadiusTooLarge)
                ==> exists|lv: int| 2 <= lv <= self.balls@.len()
                    && !(#[trigger] self.spec_start_radius(lv) <= self.spec_ball_radius(lv)),
    {
        let n = self.balls.len();
        if !(1 <= n && n <= MAX_LEVEL_LIMIT) {
            return Err(DefinitionError::BadLevelCount);
        }
        if !(BALL_LEVEL_MIN <= self.drop_ball_level_max.0 && self.drop_ball_level_max.0 <= n) {
            return Err(DefinitionError::BadDropLevelMax);
        }
        let mut i: usize = 0;
        while i < n
            invariant
                n == self.balls@.len(),
                i <= n,
                forall|k: int| 0 <= k < i ==> {
                    &&& 1 <= #[trigger] self.balls@[k].physics_radius <= RADIUS_LIMIT
                    &&& 0 <= self.balls@[k].view_width <= RADIUS_LIMIT
                    &&& 0 <= self.balls@[k].view_height <= RADIUS_LIMIT
                },
            decreases n - i,
        {
            let b = &self.balls[i];
            if !(1 <= b.physics_radius && b.physics_radius <= RADIUS_LIMIT
                && 0 <= b.view_width && b.view_width <= RADIUS_LIMIT
                && 0 <= b.view_height && b.view_height <= RADIUS_LIMIT) {
                return Err(DefinitionError::BadBallGeometry);
            }
            i = i + 1;
        }
        let mut lv: usize = 2;
        while lv <= n
            invariant
                n == self.balls@.len(),
                1 <= n <= MAX_LEVEL_LIMIT,
                2 <= lv,
                lv <= n + 1,
                forall|k: int| 0 <= k < n ==> 1 <= #[trigger] self.balls@[k].physics_radius <= RADIUS_LIMIT,
                forall|k: int| 2 <= k < lv ==> {
                    &&& 0 <= #[trigger] self.spec_start_radius(k)
                    &&& self.spec_start_radius(k) <= self.spec_ball_radius(k)
                },
            decreases n + 1 - lv,
        {
            let r1 = self.balls[BALL_LEVEL_MIN - 1].physics_radius;
            let y = self.balls[lv - 2].physics_radius;
            let start = start_r_raw(r1, y);
            proof {
                assert(start == self.spec_start_radius(lv as int));
            }
            if start > self.balls[lv - 1].physics_radius {
                proof {
                    assert(!(self.spec_start_radius(lv as int) <= self.spec_ball_radius(lv as int)));
                }
                return Err(DefinitionError::StartRadiusTooLarge);
            }
            lv = lv + 1;
        }
        if !(1 <= self.player_speed && self.player_speed <= COORD_LIMIT) {
            return Err(DefinitionError::BadPlayerSpeed);
        }
        if !(0 <= self.bottle.inner_width && self.bottle.inner_width <= COORD_LIMIT
            && 0 <= self.bottle.inner_height && self.bottle.inner_height <= COORD_LIMIT
            && 0 <= self.bottle.thickness && self.bottle.thickness <= COORD_LIMIT
            && -COORD_LIMIT <= self.bottle.offset_x && self.bottle.offset_x <= COORD_LIMIT
            && -COORD_LIMIT <= self.bottle.offset_y && self.bottle.offset_y <= COORD_LIMIT) {
            return Err(DefinitionError::BadBottle);
        }
        if !(-COORD_LIMIT <= self.area.min_x && self.area.min_x <= self.area.max_x
            && self.area.max_x <= COORD_LIMIT
            && -COORD_LIMIT <= self.area.min_y && self.area.min_y <= self.area.max_y
            && self.area.max_y <= COORD_LIMIT) {
            return Err(DefinitionError::BadArea);
        }
        if !(0 <= self.max_velocity && self.max_velocity <= VELOCITY_LIMIT
            && 0 <= self.shake_k && self.shake_k <= COORD_LIMIT
            && 1 <= self.grow_time_ms && self.grow_time_ms <= GROW_TIME_LIMIT_MS) {
            return Err(DefinitionError::BadPhysics);
        }
        Ok(())
    }
}

/// `sqrt(2*r1*y + r1^2) - r1`, the start radius computed from the level-1
/// radius `r1` and the merged-from radius `y`.
fn start_r_raw(r1: i64, y: i64) -> (r: i64)
    requires
        1 <= r1 <= RADIUS_LIMIT,
        1 <= y <= RADIUS_LIMIT,
    ensures
        r == sqrt_val(2 * r1 * y + r1 * r1) - r1,
        r >= 0,
{
    proof {
        assert(2 * (r1 as int) * (y as int) + (r1 as int) * (r1 as int)
            <= 3_000_000_000_000_000_000int) by (nonlinear_arith)
            requires 1 <= r1 <= RADIUS_LIMIT, 1 <= y <= RADIUS_LIMIT;
    }
    let v: u64 = 2 * (r1 as u64) * (y as u64) + (r1 as u64) * (r1 as u64);
    let s = isqrt_u64(v);
    proof {
        lemma_sqrt_val(v as int, s as int);
        assert((r1 as int) * (r1 as int) <= v as int) by (nonlinear_arith)
            requires 1 <= r1, 1 <= y, v as int == 2 * (r1 as int) * (y as int) + (r1 as int) * (r1 as int);
        if (s as int) < r1 as int {
            assert((s + 1) * (s + 1) <= (r1 as int) * (r1 as int)) by (nonlinear_arith)
                requires 0 <= s as int, (s as int) + 1 <= r1 as int;
        }
    }
    (s as i64) - r1
}

} // verus!

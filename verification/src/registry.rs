//! The ball registry: sole owner of the live balls, with the invariants the
//! rest of the simulation relies on — unique ids, levels the definition
//! knows, radii between start and final, and at most one dropping ball.

use vstd::prelude::*;
use crate::definition::{GameDefinition, VELOCITY_LIMIT, GROW_TIME_LIMIT_MS};
use crate::rules::{BallLevel, BALL_LEVEL_MIN};
use crate::math::{
    isqrt_ceil_u64, sqrt_ceil_val, lerp_spec, lemma_lerp_bounds, lemma_clamp_norm,
};

verus! {

/// Bound on ball center coordinates (milli).
pub const POSITION_LIMIT: i64 = 2_000_000_000;

/// Growth attached to a ball a merge produced: elapsed time and duration.
#[derive(Clone, Copy, Debug, PartialEq, Eq, Structural)]
pub struct BallGrowing {
    pub sec_ms: u64,
    pub sec_max_ms: u64,
}

/// A live ball: stable id, level, center, velocity, current collider radius,
/// the dropping flag, and its growth phase if a merge produced it.
#[derive(Clone, Copy, Debug)]
pub struct Ball {
    pub id: u64,
    pub level: BallLevel,
    pub x: i64,
    pub y: i64,
    pub vx: i64,
    pub vy: i64,
    pub radius: i64,
    pub dropping: bool,
    pub growing: Option<BallGrowing>,
}

/// An operation named a ball that is not live.
#[derive(Clone, Copy, Debug, PartialEq, Eq, Structural)]
pub enum RegistryError {
    UnknownId,
}

/// Some ball in `s` has id `id`.
pub open spec fn spec_has_ball(s: Seq<Ball>, id: u64) -> bool {
    exists|i: int| 0 <= i < s.len() && s[i].id == id
}

/// Index of the ball with id `id`.
pub open spec fn spec_ball_idx(s: Seq<Ball>, id: u64) -> int {
    choose|i: int| 0 <= i < s.len() && s[i].id == id
}

/// The ball with id `id`.
pub open spec fn spec_ball(s: Seq<Ball>, id: u64) -> Ball {
    s[spec_ball_idx(s, id)]
}

/// No two balls share an id.
pub open spec fn distinct_ids(s: Seq<Ball>) -> bool {
    forall|i: int, j: int| 0 <= i < j < s.len() ==> s[i].id != s[j].id
}

/// Some ball still carries the dropping flag.
pub open spec fn spec_has_dropping(s: Seq<Ball>) -> bool {
    exists|i: int| 0 <= i < s.len() && s[i].dropping
}

/// At most one ball carries the dropping flag.
pub open spec fn at_most_one_dropping(s: Seq<Ball>) -> bool {
    forall|i: int, j: int|
        0 <= i < s.len() && 0 <= j < s.len() && s[i].dropping && s[j].dropping ==> i == j
}

/// Everything the registry maintains of a single ball.
pub open spec fn valid_ball(def: &GameDefinition, b: Ball) -> bool {
    &&& BALL_LEVEL_MIN <= b.level.0 <= def.balls@.len()
    &&& def.spec_start_radius(b.level.0 as int) <= b.radius
    &&& b.radius <= def.spec_ball_radius(b.level.0 as int)
    &&& -POSITION_LIMIT <= b.x <= POSITION_LIMIT
    &&& -POSITION_LIMIT <= b.y <= POSITION_LIMIT
    &&& -VELOCITY_LIMIT <= b.vx <= VELOCITY_LIMIT
    &&& -VELOCITY_LIMIT <= b.vy <= VELOCITY_LIMIT
    &&& match b.growing {
        Some(g) => {
            &&& 1 <= g.sec_max_ms <= GROW_TIME_LIMIT_MS
            &&& g.sec_ms <= g.sec_max_ms
            &&& 2 <= b.level.0
        },
        None => true,
    }
}

/// The ball `b` after `dt_ms` more growth: still interpolating while the
/// timer runs; once the timer reaches its duration the radius is pinned to
/// final and the growth record is removed.
pub open spec fn grown_ball(def: &GameDefinition, b: Ball, dt_ms: u64) -> Ball {
    match b.growing {
        None => b,
        Some(g) => {
            let lv = b.level.0 as int;
            if g.sec_ms + dt_ms >= g.sec_max_ms {
                Ball { radius: def.spec_ball_radius(lv) as i64, growing: None, ..b }
            } else {
                Ball {
                    radius: lerp_spec(
                        def.spec_start_radius(lv),
                        def.spec_ball_radius(lv),
                        g.sec_ms + dt_ms,
                        g.sec_max_ms as int,
                    ) as i64,
                    growing: Some(
                        BallGrowing { sec_ms: (g.sec_ms + dt_ms) as u64, sec_max_ms: g.sec_max_ms },
                    ),
                    ..b
                }
            }
        },
    }
}

/// One velocity component scaled down by `n / l`, keeping its sign.
pub open spec fn clamped_component(v: int, n: int, l: int) -> int {
    if v >= 0 {
        (v * n) / l
    } else {
        -((-v) * n / l)
    }
}

/// The ball `b` after the velocity clamp: untouched while its speed is within
/// `max_velocity`, else scaled to at most `max_velocity` along its direction.
pub open spec fn clamped_ball(def: &GameDefinition, b: Ball) -> Ball {
    let s = b.vx * b.vx + b.vy * b.vy;
    let n = def.max_velocity as int;
    if s <= n * n {
        b
    } else {
        let l = sqrt_ceil_val(s);
        Ball {
            vx: clamped_component(b.vx as int, n, l) as i64,
            vy: clamped_component(b.vy as int, n, l) as i64,
            ..b
        }
    }
}

/// Every live ball's level is one the definition knows and its collider
/// radius lies between its start and final radii.
pub proof fn lemma_live_ball_bounds(reg: &BallRegistry, def: &GameDefinition, i: int)
    requires
        reg.wf(def),
        0 <= i < reg.balls@.len(),
    ensures
        BALL_LEVEL_MIN <= reg.balls@[i].level.0 <= def.balls@.len(),
        def.spec_start_radius(reg.balls@[i].level.0 as int) <= reg.balls@[i].radius,
        reg.balls@[i].radius <= def.spec_ball_radius(reg.balls@[i].level.0 as int),
{
    assert(valid_ball(def, reg.balls@[i]));
}

/// With distinct ids, an index holding `id` is the index `spec_ball_idx`
/// names.
pub proof fn lemma_ball_idx(s: Seq<Ball>, i: int, id: u64)
    requires
        distinct_ids(s),
        0 <= i < s.len(),
        s[i].id == id,
    ensures
        spec_has_ball(s, id),
        spec_ball_idx(s, id) == i,
        spec_ball(s, id) == s[i],
{
    assert(spec_has_ball(s, id));
    let j = spec_ball_idx(s, id);
    assert(0 <= j < s.len() && s[j].id == id);
    if i < j {
        assert(s[i].id != s[j].id);
    } else if j < i {
        assert(s[j].id != s[i].id);
    }
}

/// Owns the live balls and hands out fresh ids.
pub struct BallRegistry {
    /// The live balls, in spawn order.
    pub balls: Vec<Ball>,
    /// Next id to hand out; every live id is below it.
    pub next_id: u64,
}

impl BallRegistry {
    /// The registry's invariant against the loaded definition.
    pub open spec fn wf(&self, def: &GameDefinition) -> bool {
        &&& forall|i: int| 0 <= i < self.balls@.len() ==> valid_ball(def, #[trigger] self.balls@[i])
        &&& distinct_ids(self.balls@)
        &&& forall|i: int| 0 <= i < self.balls@.len() ==> (#[trigger] self.balls@[i].id) < self.next_id
        &&& at_most_one_dropping(self.balls@)
    }

    /// An empty registry.
    pub fn new() -> (r: BallRegistry)
        ensures
            r.balls@.len() == 0,
            r.next_id == 0,
    {
        BallRegistry { balls: Vec::new(), next_id: 0 }
    }

    /// Number of live balls.
    pub fn len(&self) -> (r: usize)
        ensures
            r == self.balls@.len(),
    {
        self.balls.len()
    }

    /// Index of the live ball with id `id`, if any.
    pub fn index_of(&self, id: u64) -> (r: Option<usize>)
        ensures
            match r {
                Some(i) => i < self.balls@.len() && self.balls@[i as int].id == id,
                None => !spec_has_ball(self.balls@, id),
            },
    {
        let n = self.balls.len();
        let mut i: usize = 0;
        while i < n
            invariant
                n == self.balls@.len(),
                i <= n,
                forall|k: int| 0 <= k < i ==> self.balls@[k].id != id,
            decreases n - i,
        {
            if self.balls[i].id == id {
                return Some(i);
            }
            i = i + 1;
        }
        None
    }

    /// Spawns a fully grown ball the player dropped at `(x, y)`; it carries
    /// the dropping flag until its first contact.
    pub fn spawn_dropped(&mut self, def: &GameDefinition, level: BallLevel, x: i64, y: i64)
        -> (id: u64)
        requires
            def.wf(),
            old(self).wf(def),
            BALL_LEVEL_MIN <= level.0 <= def.balls@.len(),
            -POSITION_LIMIT <= x <= POSITION_LIMIT,
            -POSITION_LIMIT <= y <= POSITION_LIMIT,
            !spec_has_dropping(old(self).balls@),
            old(self).next_id < u64::MAX,
        ensures
            final(self).wf(def),
            id == old(self).next_id,
            final(self).next_id == old(self).next_id + 1,
            final(self).balls@ == old(self).balls@.push(Ball {
                id,
                level,
                x,
                y,
                vx: 0,
                vy: 0,
                radius: def.spec_ball_radius(level.0 as int) as i64,
                dropping: true,
                growing: None,
            }),
    {
        let id = self.next_id;
        let radius = def.get_ball_r(level);
        let ball = Ball {
            id,
            level,
            x,
            y,
            vx: 0,
            vy: 0,
            radius,
            dropping: true,
            growing: None,
        };
        self.balls.push(ball);
        self.next_id = id + 1;
        id
    }

    /// Spawns the growing replacement a merge produced at `(x, y)`.
    pub fn spawn_growing(
        &mut self,
        def: &GameDefinition,
        level: BallLevel,
        x: i64,
        y: i64,
        duration_ms: u64,
    ) -> (id: u64)
        requires
            def.wf(),
            old(self).wf(def),
            2 <= level.0 <= def.balls@.len(),
            -POSITION_LIMIT <= x <= POSITION_LIMIT,
            -POSITION_LIMIT <= y <= POSITION_LIMIT,
            1 <= duration_ms <= GROW_TIME_LIMIT_MS,
            old(self).next_id < u64::MAX,
        ensures
            final(self).wf(def),
            id == old(self).next_id,
            final(self).next_id == old(self).next_id + 1,
            final(self).balls@ == old(self).balls@.push(Ball {
                id,
                level,
                x,
                y,
                vx: 0,
                vy: 0,
                radius: def.spec_start_radius(level.0 as int) as i64,
                dropping: false,
                growing: Some(BallGrowing { sec_ms: 0, sec_max_ms: duration_ms }),
            }),
            spec_has_dropping(final(self).balls@) == spec_has_dropping(old(self).balls@),
    {
        let id = self.next_id;
        let radius = def.get_ball_start_r(level);
        let ball = Ball {
            id,
            level,
            x,
            y,
            vx: 0,
            vy: 0,
            radius,
            dropping: false,
            growing: Some(BallGrowing { sec_ms: 0, sec_max_ms: duration_ms }),
        };
        self.balls.push(ball);
        self.next_id = id + 1;
        proof {
            if spec_has_dropping(old(self).balls@) {
                let i = choose|i: int|
                    0 <= i < old(self).balls@.len() && old(self).balls@[i].dropping;
                assert(self.balls@[i].dropping);
            }
        }
        id
    }

    /// Removes the ball with id `id`; fails with `UnknownId` if it is not
    /// live.
    pub fn despawn(&mut self, def: &GameDefinition, id: u64) -> (r: Result<(), RegistryError>)
        requires
            old(self).wf(def),
        ensures
            final(self).wf(def),
            final(self).next_id == old(self).next_id,
            r is Ok <==> spec_has_ball(old(self).balls@, id),
            r is Ok ==> final(self).balls@ == old(self).balls@.remove(
                spec_ball_idx(old(self).balls@, id)),
            r is Err ==> *final(self) == *old(self) && r == Err::<(), RegistryError>(
                RegistryError::UnknownId),
            !spec_has_ball(final(self).balls@, id),
    {
        match self.index_of(id) {
            Some(i) => {
                proof {
                    lemma_ball_idx(self.balls@, i as int, id);
                }
                self.balls.remove(i);
                proof {
                    let olds = old(self).balls@;
                    let news = self.balls@;
                    assert forall|k: int| 0 <= k < news.len() implies valid_ball(def, #[trigger] news[k])
                        && news[k].id < self.next_id by {
                        if k < i as int {
                            assert(news[k] == olds[k]);
                        } else {
                            assert(news[k] == olds[k + 1]);
                        }
                    };
                    assert forall|k: int, j: int| 0 <= k < j < news.len() implies
                        news[k].id != news[j].id by {
                        let k0 = if k < i as int { k } else { k + 1 };
                        let j0 = if j < i as int { j } else { j + 1 };
                        assert(news[k] == olds[k0] && news[j] == olds[j0]);
                    };
                    assert forall|k: int, j: int|
                        0 <= k < news.len() && 0 <= j < news.len() && news[k].dropping
                            && news[j].dropping implies k == j by {
                        let k0 = if k < i as int { k } else { k + 1 };
                        let j0 = if j < i as int { j } else { j + 1 };
                        assert(news[k] == olds[k0] && news[j] == olds[j0]);
                    };
                    assert forall|k: int| 0 <= k < news.len() implies news[k].id != id by {
                        let k0 = if k < i as int { k } else { k + 1 };
                        assert(news[k] == olds[k0]);
                    };
                }
                Ok(())
            },
            None => Err(RegistryError::UnknownId),
        }
    }

    /// Marks the ball with id `id` as dropping.
    pub fn set_dropping(&mut self, def: &GameDefinition, id: u64) -> (r: Result<(), RegistryError>)
        requires
            old(self).wf(def),
            !spec_has_dropping(old(self).balls@),
        ensures
            final(self).wf(def),
            final(self).next_id == old(self).next_id,
            r is Ok <==> spec_has_ball(old(self).balls@, id),
            r is Ok ==> final(self).balls@ == old(self).balls@.update(
                spec_ball_idx(old(self).balls@, id),
                Ball { dropping: true, ..spec_ball(old(self).balls@, id) }),
            r is Err ==> *final(self) == *old(self),
    {
        match self.index_of(id) {
            Some(i) => {
                proof {
                    lemma_ball_idx(self.balls@, i as int, id);
                }
                let b = self.balls[i];
                self.balls[i] = Ball { dropping: true, ..b };
                Ok(())
            },
            None => Err(RegistryError::UnknownId),
        }
    }

    /// Clears the dropping flag of the ball with id `id` (its first contact).
    pub fn clear_dropping(&mut self, def: &GameDefinition, id: u64) -> (r: Result<
        (),
        RegistryError,
    >)
        requires
            old(self).wf(def),
        ensures
            final(self).wf(def),
            final(self).next_id == old(self).next_id,
            r is Ok <==> spec_has_ball(old(self).balls@, id),
            r is Ok ==> final(self).balls@ == old(self).balls@.update(
                spec_ball_idx(old(self).balls@, id),
                Ball { dropping: false, ..spec_ball(old(self).balls@, id) }),
            r is Err ==> *final(self) == *old(self),
    {
        match self.index_of(id) {
            Some(i) => {
                proof {
                    lemma_ball_idx(self.balls@, i as int, id);
                }
                let b = self.balls[i];
                self.balls[i] = Ball { dropping: false, ..b };
                Ok(())
            },
            None => Err(RegistryError::UnknownId),
        }
    }

    /// Writes the position and velocity the physics engine computed for the
    /// ball with id `id`.
    pub fn update_motion(
        &mut self,
        def: &GameDefinition,
        id: u64,
        x: i64,
        y: i64,
        vx: i64,
        vy: i64,
    ) -> (r: Result<(), RegistryError>)
        requires
            old(self).wf(def),
            -POSITION_LIMIT <= x <= POSITION_LIMIT,
            -POSITION_LIMIT <= y <= POSITION_LIMIT,
            -VELOCITY_LIMIT <= vx <= VELOCITY_LIMIT,
            -VELOCITY_LIMIT <= vy <= VELOCITY_LIMIT,
        ensures
            final(self).wf(def),
            final(self).next_id == old(self).next_id,
            r is Ok <==> spec_has_ball(old(self).balls@, id),
            r is Ok ==> final(self).balls@ == old(self).balls@.update(
                spec_ball_idx(old(self).balls@, id),
                Ball { x, y, vx, vy, ..spec_ball(old(self).balls@, id) }),
            r is Err ==> *final(self) == *old(self),
    {
        match self.index_of(id) {
            Some(i) => {
                proof {
                    lemma_ball_idx(self.balls@, i as int, id);
                }
                let b = self.balls[i];
                self.balls[i] = Ball { x, y, vx, vy, ..b };
                Ok(())
            },
            None => Err(RegistryError::UnknownId),
        }
    }

    /// A copy of the live ball with id `id`, if any.
    pub fn get(&self, id: u64) -> (r: Option<Ball>)
        requires
            distinct_ids(self.balls@),
        ensures
            match r {
                Some(b) => spec_has_ball(self.balls@, id) && b == spec_ball(self.balls@, id),
                None => !spec_has_ball(self.balls@, id),
            },
    {
        match self.index_of(id) {
            Some(i) => {
                proof {
                    lemma_ball_idx(self.balls@, i as int, id);
                }
                Some(self.balls[i])
            },
            None => None,
        }
    }

    /// Id of the ball currently carrying the dropping flag, if any.
    pub fn find_dropping(&self) -> (r: Option<u64>)
        requires
            distinct_ids(self.balls@),
        ensures
            match r {
                Some(d) => spec_has_ball(self.balls@, d) && spec_ball(self.balls@, d).dropping,
                None => !spec_has_dropping(self.balls@),
            },
    {
        let n = self.balls.len();
        let mut i: usize = 0;
        while i < n
            invariant
                distinct_ids(self.balls@),
                n == self.balls@.len(),
                i <= n,
                forall|k: int| 0 <= k < i ==> !(#[trigger] self.balls@[k]).dropping,
            decreases n - i,
        {
            if self.balls[i].dropping {
                proof {
                    lemma_ball_idx(self.balls@, i as int, self.balls@[i as int].id);
                }
                return Some(self.balls[i].id);
            }
            i = i + 1;
        }
        None
    }

    /// Advances every growth timer by `dt_ms` and updates the collider radii:
    /// `r = r_start + (t / duration) * (r_final - r_start)` while growing;
    /// reaching `t == duration` counts as complete: the radius is set to the
    /// final radius exactly, by assignment, and the growth record is removed.
    pub fn tick_growth(&mut self, def: &GameDefinition, dt_ms: u64)
        requires
            def.wf(),
            old(self).wf(def),
            dt_ms <= GROW_TIME_LIMIT_MS,
        ensures
            final(self).wf(def),
            final(self).next_id == old(self).next_id,
            final(self).balls@.len() == old(self).balls@.len(),
            forall|i: int| 0 <= i < old(self).balls@.len()
                ==> final(self).balls@[i] == grown_ball(def, #[trigger] old(self).balls@[i], dt_ms),
            forall|i: int| (0 <= i < old(self).balls@.len()
                && (#[trigger] old(self).balls@[i]).growing is Some
                && old(self).balls@[i].growing->Some_0.sec_ms + dt_ms
                    >= old(self).balls@[i].growing->Some_0.sec_max_ms)
                ==> final(self).balls@[i].radius
                    == def.spec_ball_radius(old(self).balls@[i].level.0 as int)
                    && final(self).balls@[i].growing is None,
    {
        let n = self.balls.len();
        let mut i: usize = 0;
        while i < n
            invariant
                def.wf(),
                old(self).wf(def),
                dt_ms <= GROW_TIME_LIMIT_MS,
                n == self.balls@.len(),
                n == old(self).balls@.len(),
                i <= n,
                self.next_id == old(self).next_id,
                self.wf(def),
                forall|k: int| 0 <= k < i
                    ==> self.balls@[k] == grown_ball(def, #[trigger] old(self).balls@[k], dt_ms),
                forall|k: int| i <= k < n ==> self.balls@[k] == old(self).balls@[k],
            decreases n - i,
        {
            let b = self.balls[i];
            match b.growing {
                None => {},
                Some(g) => {
                    let ghost prev = self.balls@;
                    let sec = g.sec_ms + dt_ms;
                    let nb: Ball;
                    if sec >= g.sec_max_ms {
                        nb = Ball { radius: def.get_ball_r(b.level), growing: None, ..b };
                    } else {
                        let start = def.get_ball_start_r(b.level);
                        let fin = def.get_ball_r(b.level);
                        let d: u64 = (fin - start) as u64;
                        proof {
                            assert(sec * d <= 600_000int * 1_000_000_000int) by (nonlinear_arith)
                                requires 0 <= sec <= 600_000int, 0 <= d <= 1_000_000_000int;
                            lemma_lerp_bounds(start as int, fin as int, sec as int, g.sec_max_ms as int);
                        }
                        let num: u64 = sec * d;
                        let q: u64 = num / g.sec_max_ms;
                        nb = Ball {
                            radius: start + (q as i64),
                            growing: Some(BallGrowing { sec_ms: sec, sec_max_ms: g.sec_max_ms }),
                            ..b
                        };
                    }
                    self.balls[i] = nb;
                    proof {
                        assert(nb == grown_ball(def, prev[i as int], dt_ms));
                        assert forall|k: int| 0 <= k < n implies self.balls@[k].id == prev[k].id
                            && self.balls@[k].dropping == prev[k].dropping by {
                            if k != i as int {
                                assert(self.balls@[k] == prev[k]);
                            }
                        };
                        assert(distinct_ids(self.balls@)) by {
                            assert forall|k: int, j: int| 0 <= k < j < n implies
                                self.balls@[k].id != self.balls@[j].id by {
                                assert(self.balls@[k].id == prev[k].id);
                                assert(self.balls@[j].id == prev[j].id);
                            };
                        };
                        assert(at_most_one_dropping(self.balls@)) by {
                            assert forall|k: int, j: int|
                                0 <= k < n && 0 <= j < n && self.balls@[k].dropping
                                    && self.balls@[j].dropping implies k == j by {
                                assert(prev[k].dropping && prev[j].dropping);
                            };
                        };
                    }
                },
            }
            i = i + 1;
        }
        proof {
            assert forall|k: int| (0 <= k < old(self).balls@.len()
                && (#[trigger] old(self).balls@[k]).growing is Some
                && old(self).balls@[k].growing->Some_0.sec_ms + dt_ms
                    >= old(self).balls@[k].growing->Some_0.sec_max_ms)
                implies self.balls@[k].radius
                    == def.spec_ball_radius(old(self).balls@[k].level.0 as int)
                    && self.balls@[k].growing is None by {
                assert(self.balls@[k] == grown_ball(def, old(self).balls@[k], dt_ms));
            };
        }
    }

    /// Scales every ball whose speed exceeds `max_velocity` back to exactly
    /// that speed along its current direction (up to fixed-point flooring),
    /// so that afterwards every speed is within the cap.
    pub fn clamp_velocities(&mut self, def: &GameDefinition)
        requires
            def.wf(),
            old(self).wf(def),
        ensures
            final(self).wf(def),
            final(self).next_id == old(self).next_id,
            final(self).balls@.len() == old(self).balls@.len(),
            forall|i: int| 0 <= i < old(self).balls@.len()
                ==> final(self).balls@[i] == clamped_ball(def, #[trigger] old(self).balls@[i]),
            forall|i: int| 0 <= i < final(self).balls@.len()
                ==> (#[trigger] final(self).balls@[i]).vx * final(self).balls@[i].vx
                    + final(self).balls@[i].vy * final(self).balls@[i].vy
                    <= def.max_velocity * def.max_velocity,
    {
        let n = self.balls.len();
        let mut i: usize = 0;
        while i < n
            invariant
                def.wf(),
                old(self).wf(def),
                n == self.balls@.len(),
                n == old(self).balls@.len(),
                i <= n,
                self.next_id == old(self).next_id,
                self.wf(def),
                forall|k: int| 0 <= k < i
                    ==> self.balls@[k] == clamped_ball(def, #[trigger] old(self).balls@[k]),
                forall|k: int| 0 <= k < i
                    ==> (#[trigger] self.balls@[k]).vx * self.balls@[k].vx
                        + self.balls@[k].vy * self.balls@[k].vy
                        <= def.max_velocity * def.max_velocity,
                forall|k: int| i <= k < n ==> self.balls@[k] == old(self).balls@[k],
            decreases n - i,
        {
            let b = self.balls[i];
            let ax: u64 = if b.vx < 0 { (-b.vx) as u64 } else { b.vx as u64 };
            let ay: u64 = if b.vy < 0 { (-b.vy) as u64 } else { b.vy as u64 };
            proof {
                assert(ax * ax == b.vx * b.vx && ay * ay == b.vy * b.vy) by (nonlinear_arith)
                    requires
                        ax == if b.vx < 0 { -b.vx as int } else { b.vx as int },
                        ay == if b.vy < 0 { -b.vy as int } else { b.vy as int };
                assert(ax * ax <= 1_000_000_000_000_000_000u64 && ay * ay
                    <= 1_000_000_000_000_000_000u64) by (nonlinear_arith)
                    requires 0 <= ax <= 1_000_000_000u64, 0 <= ay <= 1_000_000_000u64;
            }
            let s: u64 = ax * ax + ay * ay;
            let nmax: u64 = def.max_velocity as u64;
            proof {
                assert(nmax * nmax <= 1_000_000_000_000_000_000u64) by (nonlinear_arith)
                    requires 0 <= nmax <= 1_000_000_000u64;
            }
            if s > nmax * nmax {
                let ghost prev = self.balls@;
                let l: u64 = isqrt_ceil_u64(s);
                proof {
                    assert(l >= 1);
                    assert(ax * nmax <= 1_000_000_000_000_000_000u64
                        && ay * nmax <= 1_000_000_000_000_000_000u64) by (nonlinear_arith)
                        requires
                            0 <= ax <= 1_000_000_000u64,
                            0 <= ay <= 1_000_000_000u64,
                            0 <= nmax <= 1_000_000_000u64;
                }
                let qx: u64 = ax * nmax / l;
                let qy: u64 = ay * nmax / l;
                proof {
                    lemma_clamp_norm(ax as int, ay as int, nmax as int, l as int, qx as int,
                        qy as int);
                }
                let nvx: i64 = if b.vx < 0 { -(qx as i64) } else { qx as i64 };
                let nvy: i64 = if b.vy < 0 { -(qy as i64) } else { qy as i64 };
                let nb = Ball { vx: nvx, vy: nvy, ..b };
                self.balls[i] = nb;
                proof {
                    assert(nvx * nvx == qx * qx && nvy * nvy == qy * qy) by (nonlinear_arith)
                        requires
                            nvx == qx as int || nvx == -(qx as int),
                            nvy == qy as int || nvy == -(qy as int);
                    assert(nb == clamped_ball(def, prev[i as int]));
                    assert forall|k: int| 0 <= k < n implies self.balls@[k].id == prev[k].id
                        && self.balls@[k].dropping == prev[k].dropping by {
                        if k != i as int {
                            assert(self.balls@[k] == prev[k]);
                        }
                    };
                    assert(distinct_ids(self.balls@)) by {
                        assert forall|k: int, j: int| 0 <= k < j < n implies
                            self.balls@[k].id != self.balls@[j].id by {
                            assert(self.balls@[k].id == prev[k].id);
                            assert(self.balls@[j].id == prev[j].id);
                        };
                    };
                    assert(at_most_one_dropping(self.balls@)) by {
                        assert forall|k: int, j: int|
                            0 <= k < n && 0 <= j < n && self.balls@[k].dropping
                                && self.balls@[j].dropping implies k == j by {
                            assert(prev[k].dropping && prev[j].dropping);
                        };
                    };
                }
            }
            i = i + 1;
        }
    }
}

} // verus!

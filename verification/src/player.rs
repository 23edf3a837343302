//! The player: cursor movement, the next/held ball levels, drop gating and
//! scoring, together with the jitter and cursor-height rules.

use vstd::prelude::*;
use vstd::arithmetic::div_mod::{lemma_div_multiples_vanish, lemma_div_pos_is_pos,
    lemma_div_is_ordered};
use crate::definition::{GameDefinition, COORD_LIMIT};
use crate::math::clamp_spec;
use crate::rules::{BallLevel, BALL_LEVEL_MIN};
use crate::rng::rng_next_u32;

verus! {

/// Vertical clearance of the player above the bottle's top edge (milli).
pub const PLAYER_GAP_WALL: i64 = 50_000;

/// The abstract inputs the player acts on.
#[derive(Clone, Copy, Debug, PartialEq, Structural)]
pub enum PlayerInput {
    /// Drop the next ball.
    Drop,
    /// Move the cursor; thousandths of full deflection, in `[-1000, 1000]`.
    Move(i64),
    /// Swap the next ball with the held one.
    Hold,
    /// Shake the bottle with amplitude `(x, y)` in milli units.
    Shake(i64, i64),
    /// Pause the session.
    Pause,
}

/// The player's mutable state.
pub struct Player {
    /// Cursor speed: milli units per full-deflection move input.
    pub speed: i64,
    /// Level of the ball the next drop spawns.
    pub next_ball_level: BallLevel,
    /// Largest level a drop may spawn.
    pub max_ball_level: BallLevel,
    /// The held ball, if any.
    pub hold_ball: Option<BallLevel>,
    /// A drop is allowed; true exactly while no dropping ball is in flight.
    pub can_drop: bool,
    /// Accumulated score.
    pub score: u32,
}

impl Player {
    /// The player's invariant against the loaded definition.
    pub open spec fn wf(&self, def: &GameDefinition) -> bool {
        &&& self.speed == def.player_speed
        &&& self.max_ball_level == def.drop_ball_level_max
        &&& BALL_LEVEL_MIN <= self.next_ball_level.0 <= self.max_ball_level.0
        &&& match self.hold_ball {
            Some(h) => BALL_LEVEL_MIN <= h.0 <= self.max_ball_level.0,
            None => true,
        }
    }

    /// A fresh player who may drop at once, holds nothing and has no score.
    pub fn new(speed: i64, first_ball_level: BallLevel, max_ball_level: BallLevel)
        -> (r: Player)
        ensures
            r.speed == speed,
            r.next_ball_level == first_ball_level,
            r.max_ball_level == max_ball_level,
            r.hold_ball is None,
            r.can_drop,
            r.score == 0,
    {
        Player {
            speed,
            next_ball_level: first_ball_level,
            max_ball_level,
            hold_ball: None,
            can_drop: true,
            score: 0,
        }
    }

    /// The preview ball under the cursor exists exactly while a drop is
    /// allowed; the aim guide is visible under the same condition.
    pub fn is_fakeball_exists(&self) -> (r: bool)
        ensures
            r == self.can_drop,
    {
        self.can_drop
    }

    /// Draws the next ball's level from the player's random stream, uniform
    /// over the droppable levels.
    pub fn set_next_ball_level_from_rng(&mut self, rng: &mut rand_chacha::ChaCha8Rng)
        requires
            BALL_LEVEL_MIN <= old(self).max_ball_level.0,
        ensures
            BALL_LEVEL_MIN <= final(self).next_ball_level.0 <= final(self).max_ball_level.0,
            final(self).speed == old(self).speed,
            final(self).max_ball_level == old(self).max_ball_level,
            final(self).hold_ball == old(self).hold_ball,
            final(self).can_drop == old(self).can_drop,
            final(self).score == old(self).score,
    {
        let rnd = rng_next_u32(rng);
        self.next_ball_level = BallLevel::from_rand_u32(
            rnd,
            BallLevel::new(BALL_LEVEL_MIN),
            self.max_ball_level,
        );
    }

    /// Swaps the next ball with the held one.  When nothing is held, the next
    /// ball moves into the hold and a fresh level is drawn.  While a drop is
    /// not allowed this does nothing at all.
    pub fn hold(&mut self, rng: &mut rand_chacha::ChaCha8Rng)
        requires
            BALL_LEVEL_MIN <= old(self).max_ball_level.0,
        ensures
            !old(self).can_drop ==> *final(self) == *old(self),
            old(self).can_drop ==> final(self).hold_ball == Some(old(self).next_ball_level),
            old(self).can_drop ==> match old(self).hold_ball {
                Some(h) => final(self).next_ball_level == h,
                None => BALL_LEVEL_MIN <= final(self).next_ball_level.0
                    <= final(self).max_ball_level.0,
            },
            final(self).speed == old(self).speed,
            final(self).max_ball_level == old(self).max_ball_level,
            final(self).can_drop == old(self).can_drop,
            final(self).score == old(self).score,
    {
        if self.can_drop {
            let lv = self.next_ball_level;
            match self.hold_ball {
                Some(hold_level) => {
                    self.next_ball_level = hold_level;
                },
                None => {
                    self.set_next_ball_level_from_rng(rng);
                },
            }
            self.hold_ball = Some(lv);
        }
    }

    /// Adds points to the score, saturating at the top; the score never
    /// decreases.
    pub fn add_score(&mut self, points: u32)
        ensures
            final(self).score == if old(self).score + points <= u32::MAX {
                old(self).score + points
            } else {
                u32::MAX as int
            },
            final(self).score >= old(self).score,
            final(self).speed == old(self).speed,
            final(self).next_ball_level == old(self).next_ball_level,
            final(self).max_ball_level == old(self).max_ball_level,
            final(self).hold_ball == old(self).hold_ball,
            final(self).can_drop == old(self).can_drop,
    {
        self.score = if self.score <= u32::MAX - points {
            self.score + points
        } else {
            u32::MAX
        };
    }
}

/// One move input applied to the cursor: advance by `dir/1000` of the cursor
/// speed, truncated toward zero, then clamp to the bottle's interior.
pub open spec fn moved_cursor(cursor_x: int, dir: int, speed: int, inner_width: int) -> int {
    let step = if dir >= 0 {
        dir * speed / 1000
    } else {
        -((-dir) * speed / 1000)
    };
    clamp_spec(cursor_x + step, -(inner_width / 2), inner_width / 2)
}

/// Moves the cursor by one input, keeping it inside the bottle's interior.
pub fn move_puppeteer(cursor_x: i64, dir: i64, speed: i64, inner_width: i64) -> (r: i64)
    requires
        -1000 <= dir <= 1000,
        1 <= speed <= COORD_LIMIT,
        0 <= inner_width <= COORD_LIMIT,
        -COORD_LIMIT <= cursor_x <= COORD_LIMIT,
    ensures
        r == moved_cursor(cursor_x as int, dir as int, speed as int, inner_width as int),
        -(inner_width / 2) <= r <= inner_width / 2,
{
    let mag: u64 = if dir < 0 { (-dir) as u64 } else { dir as u64 };
    proof {
        assert(mag * speed <= 1000u64 * 1_000_000_000u64) by (nonlinear_arith)
            requires 0 <= mag <= 1000u64, 0 <= speed <= 1_000_000_000u64;
        assert(mag as int * speed as int <= 1000 * speed as int) by (nonlinear_arith)
            requires 0 <= mag <= 1000u64, 1 <= speed;
        lemma_div_pos_is_pos(mag as int * speed as int, 1000);
        lemma_div_is_ordered(mag as int * speed as int, 1000 * speed as int, 1000);
        lemma_div_multiples_vanish(speed as int, 1000);
    }
    let step_mag: u64 = mag * (speed as u64) / 1000;
    let step: i64 = if dir < 0 { -(step_mag as i64) } else { step_mag as i64 };
    let hw = inner_width / 2;
    let nx = cursor_x + step;
    if nx < -hw {
        -hw
    } else if nx > hw {
        hw
    } else {
        nx
    }
}

/// The cursor position after `n` full-deflection moves to the right.
pub open spec fn iterate_move_right(cursor_x: int, speed: int, hw: int, n: nat) -> int
    decreases n,
{
    if n == 0 {
        cursor_x
    } else {
        iterate_move_right(clamp_spec(cursor_x + speed, -hw, hw), speed, hw, (n - 1) as nat)
    }
}

/// A full-deflection move advances by exactly the cursor speed.
pub proof fn lemma_full_deflection_step(cursor_x: int, speed: int, hw2: int)
    requires
        1 <= speed,
    ensures
        moved_cursor(cursor_x, 1000, speed, hw2) == clamp_spec(cursor_x + speed, -(hw2 / 2),
            hw2 / 2),
{
    lemma_div_multiples_vanish(speed, 1000);
    assert(1000 * speed == speed * 1000) by (nonlinear_arith);
}

/// Cursor clamp saturation: once enough full-deflection moves to the right
/// have accumulated, the cursor sits exactly on the right interior wall, and
/// stays there no matter how many more are applied.
pub proof fn lemma_cursor_saturates(cursor_x: int, speed: int, hw: int, n: nat)
    requires
        1 <= speed,
        0 <= hw,
        -hw <= cursor_x <= hw,
        cursor_x + n * speed >= hw,
    ensures
        iterate_move_right(cursor_x, speed, hw, n) == hw,
    decreases n,
{
    if n == 0 {
        assert(n * speed == 0) by (nonlinear_arith)
            requires n == 0;
    } else {
        let next = clamp_spec(cursor_x + speed, -hw, hw);
        assert(n * speed == (n - 1) * speed + speed) by (nonlinear_arith);
        if cursor_x + speed >= hw {
            assert(next == hw);
            assert((n - 1) * speed >= 0) by (nonlinear_arith)
                requires n >= 1, speed >= 1;
            lemma_cursor_saturates(next, speed, hw, (n - 1) as nat);
        } else {
            assert(next == cursor_x + speed);
            lemma_cursor_saturates(next, speed, hw, (n - 1) as nat);
        }
    }
}

/// Height the cursor rests at: the cast hit point plus the preview ball's
/// radius, never below the fixed clearance above the bottle's top edge.
pub fn puppet_player_pos(
    def: &GameDefinition,
    can_drop: bool,
    next_level: BallLevel,
    puppeteer_y: i64,
    hit_toi: i64,
) -> (y: i64)
    requires
        def.wf(),
        BALL_LEVEL_MIN <= next_level.0 <= def.balls@.len(),
        -4_000_000_000 <= puppeteer_y <= 4_000_000_000,
        0 <= hit_toi <= 4_000_000_000,
    ensures
        ({
            let floor_y = (def.bottle.inner_height + def.bottle.thickness) / 2
                + def.bottle.offset_y + PLAYER_GAP_WALL;
            let ball_r: int = if can_drop {
                def.spec_ball_radius(next_level.0 as int)
            } else {
                0
            };
            y == if floor_y >= puppeteer_y - hit_toi + ball_r {
                floor_y as int
            } else {
                puppeteer_y - hit_toi + ball_r
            }
        }),
{
    let ball_r: i64 = if can_drop {
        def.get_ball_r(next_level)
    } else {
        0
    };
    let floor_y = (def.bottle.inner_height + def.bottle.thickness) / 2 + def.bottle.offset_y
        + PLAYER_GAP_WALL;
    let cast_y = puppeteer_y - hit_toi + ball_r;
    if floor_y >= cast_y {
        floor_y
    } else {
        cast_y
    }
}

/// Length of the aim guide drawn below the cursor: from the cursor down to
/// the cast hit point, the preview ball's radius included.  The guide
/// itself is visible exactly while a drop is allowed.
pub fn guide_length(puppeteer_y: i64, player_y: i64, hit_toi: i64, ball_r: i64) -> (r: i64)
    requires
        -4_000_000_000 <= puppeteer_y <= 4_000_000_000,
        -4_000_000_000 <= player_y <= 4_000_000_000,
        0 <= hit_toi <= 4_000_000_000,
        0 <= ball_r <= 1_000_000_000,
    ensures
        r == hit_toi - (puppeteer_y - player_y) + ball_r,
{
    hit_toi - (puppeteer_y - player_y) + ball_r
}

/// The horizontal jitter a drop adds, from one random draw: spread uniformly
/// over about `[-500, 500]` milli (half a world unit each way), so dropped
/// balls do not stack into a perfect totem.
pub fn jitter_of_rand(rnd: u32) -> (r: i64)
    ensures
        r == rnd * 1000int / (u32::MAX as int) - 500,
        -500 <= r <= 500,
{
    proof {
        lemma_div_pos_is_pos(rnd as int * 1000, u32::MAX as int);
        lemma_div_is_ordered(rnd as int * 1000, u32::MAX as int * 1000, u32::MAX as int);
        lemma_div_multiples_vanish(1000, u32::MAX as int);
        assert(u32::MAX as int * 1000 == 1000 * u32::MAX as int) by (nonlinear_arith);
        assert(rnd as int * 1000 <= u32::MAX as int * 1000) by (nonlinear_arith)
            requires rnd <= u32::MAX;
    }
    let scaled: u64 = (rnd as u64) * 1000 / (u32::MAX as u64);
    (scaled as i64) - 500
}

} // verus!

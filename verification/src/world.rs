//! One playing session's world: the player, the ball registry, the shake
//! state and the screen state, advanced tick by tick through a fixed
//! pipeline — pairing, drop gating, player actions, merging, scoring,
//! growth, the velocity clamp, shake and the game-over check.

use vstd::prelude::*;
use crate::definition::{Area, GameDefinition, COORD_LIMIT};
use crate::engine::{
    combine_balls_touched, score_ball_events, spec_events_score, spec_combined, BallSpawnEvent,
    combine_event_wf, event_score_ok,
};
use crate::math::clamp_spec;
use crate::pairing::{
    check_ball_collisions, filter_canon, first_partner, has_first, is_merge_contact,
    lemma_filter_canon_ids, lemma_first_partner_mem, pair_names,
};
use crate::player::{
    jitter_of_rand, move_puppeteer, puppet_player_pos, Player, PlayerInput, PLAYER_GAP_WALL,
};
use crate::registry::{
    grown_ball, clamped_ball, spec_ball, spec_has_ball, spec_has_dropping, Ball, BallRegistry,
};
use crate::rng::rng_next_u32;
use crate::rules::{BallLevel, BALL_LEVEL_MIN};
use crate::session::{spec_session_transition, GameScreenState, SessionSignal};
use crate::shake::{ShakeState, spec_shake_offset};

verus! {

/// Clearance between the bottle's top edge and the cast origin.
pub const PLAYER_GAP_TO_MAX: i64 = 9_999_000;

/// The ball's center is inside the play area.
pub open spec fn inside_area(area: Area, b: Ball) -> bool {
    &&& area.min_x <= b.x <= area.max_x
    &&& area.min_y <= b.y <= area.max_y
}

/// The dropping flags after one step's contacts: a dropping ball named by
/// some contact loses the flag — its first touch — and nothing else moves.
pub open spec fn spec_gate_cleared(s: Seq<Ball>, contacts: Seq<(u64, u64)>) -> Seq<Ball> {
    s.map_values(
        |b: Ball|
            if b.dropping && pair_names(contacts, b.id) {
                Ball { dropping: false, ..b }
            } else {
                b
            },
    )
}

/// Some input of the tick asked to pause.
pub open spec fn spec_has_pause(inputs: Seq<PlayerInput>) -> bool {
    exists|k: int| 0 <= k < inputs.len() && inputs[k] is Pause
}

/// Some input of the tick asked to drop.
pub open spec fn spec_has_drop(inputs: Seq<PlayerInput>) -> bool {
    exists|k: int| 0 <= k < inputs.len() && inputs[k] is Drop
}

/// Some input of the tick asked to hold.
pub open spec fn spec_has_hold(inputs: Seq<PlayerInput>) -> bool {
    exists|k: int| 0 <= k < inputs.len() && inputs[k] is Hold
}

/// Some input of the tick acts on the player's levels or gate.
pub open spec fn spec_touches_player(inputs: Seq<PlayerInput>) -> bool {
    exists|k: int| 0 <= k < inputs.len() && ((inputs[k] is Drop) || (inputs[k] is Hold))
}

/// The height the cursor rests at for one tick: the cast hit point from
/// above the bottle plus the preview ball's radius, never below the fixed
/// clearance over the bottle's top edge, kept within position bounds.
pub open spec fn spec_cursor_y(
    def: &GameDefinition,
    can_drop: bool,
    next: BallLevel,
    hit_toi: int,
) -> int {
    let floor_y = (def.bottle.inner_height + def.bottle.thickness) / 2 + def.bottle.offset_y
        + PLAYER_GAP_WALL;
    let ball_r: int = if can_drop {
        def.spec_ball_radius(next.0 as int)
    } else {
        0
    };
    let cast = floor_y + PLAYER_GAP_TO_MAX - hit_toi + ball_r;
    let y = if floor_y >= cast {
        floor_y as int
    } else {
        cast
    };
    clamp_spec(y, -2_000_000_000, 2_000_000_000)
}

/// An input the world accepts: move deflections and shake amplitudes within
/// their ranges.
pub open spec fn valid_input(input: PlayerInput) -> bool {
    match input {
        PlayerInput::Move(d) => -1000 <= d <= 1000,
        PlayerInput::Shake(x, y) => -COORD_LIMIT <= x <= COORD_LIMIT && -COORD_LIMIT <= y
            <= COORD_LIMIT,
        _ => true,
    }
}

/// What one tick hands back to its caller.
pub struct TickOutput {
    /// The merge touches the tick resolved.
    pub touches: Vec<(u64, u64)>,
    /// The spawn events of the tick: the player's drops and the merges.
    pub events: Vec<BallSpawnEvent>,
    /// A ball's center left the play area; the session is over.
    pub game_over: bool,
    /// The bottle's downward shake offset after this tick (milli).
    pub shake_offset_y: i64,
}

/// One session's mutable world.
pub struct GameWorld {
    /// The loaded, immutable definition.
    pub def: GameDefinition,
    /// Screen-level state.
    pub state: GameScreenState,
    /// The player.
    pub player: Player,
    /// The live balls.
    pub reg: BallRegistry,
    /// Active shake envelopes.
    pub shake: ShakeState,
    /// The cursor, within the bottle's interior.
    pub cursor_x: i64,
    /// The ball tagged as having escaped the area, once the game is over.
    pub protruded: Option<u64>,
}

impl GameWorld {
    /// Everything a tick preserves: the definition, registry, player and
    /// shake invariants, the cursor clamp, and that a drop is allowed
    /// exactly while no ball carries the dropping flag.
    pub open spec fn wf(&self) -> bool {
        &&& self.def.wf()
        &&& self.reg.wf(&self.def)
        &&& self.player.wf(&self.def)
        &&& self.shake.wf()
        &&& -(self.def.bottle.inner_width / 2) <= self.cursor_x
        &&& self.cursor_x <= self.def.bottle.inner_width / 2
        &&& self.player.can_drop == !spec_has_dropping(self.reg.balls@)
    }

    /// A fresh world for a loaded definition: empty bottle, centered cursor,
    /// a first ball drawn from the player's stream, session not yet started.
    pub fn new(def: GameDefinition, rng: &mut rand_chacha::ChaCha8Rng) -> (r: GameWorld)
        requires
            def.wf(),
        ensures
            r.wf(),
            r.state is Inactive,
            r.reg.balls@.len() == 0,
            r.player.score == 0,
            r.def == def,
    {
        let speed = def.player_speed;
        let drop_max = def.drop_ball_level_max;
        let mut player = Player::new(speed, BallLevel::new(BALL_LEVEL_MIN), drop_max);
        player.set_next_ball_level_from_rng(rng);
        GameWorld {
            def,
            state: GameScreenState::Inactive,
            player,
            reg: BallRegistry::new(),
            shake: ShakeState::new(),
            cursor_x: 0,
            protruded: None,
        }
    }

    /// Applies one session signal to the screen state.
    pub fn transition(&mut self, signal: SessionSignal)
        ensures
            final(self).state == spec_session_transition(old(self).state, signal),
            final(self).def == old(self).def,
            final(self).player == old(self).player,
            final(self).reg == old(self).reg,
            final(self).shake == old(self).shake,
            final(self).cursor_x == old(self).cursor_x,
            final(self).protruded == old(self).protruded,
    {
        self.state = crate::session::session_transition(self.state, signal);
    }

    /// Clears the dropping flag on a ball's first contact, and re-allows the
    /// drop; with no dropping ball in flight a drop is allowed at once.
    fn check_dropping_ball(&mut self, contacts: &Vec<(u64, u64)>)
        requires
            old(self).wf(),
        ensures
            final(self).wf(),
            final(self).player.can_drop == !spec_has_dropping(final(self).reg.balls@),
            final(self).reg.balls@ == spec_gate_cleared(old(self).reg.balls@, contacts@),
            forall|d: u64| spec_has_ball(final(self).reg.balls@, d)
                && (#[trigger] spec_ball(final(self).reg.balls@, d)).dropping
                ==> spec_has_ball(old(self).reg.balls@, d)
                    && spec_ball(old(self).reg.balls@, d).dropping
                    && !pair_names(contacts@, d),
            forall|d: u64| spec_has_ball(old(self).reg.balls@, d)
                && (#[trigger] spec_ball(old(self).reg.balls@, d)).dropping
                && !pair_names(contacts@, d)
                ==> spec_has_ball(final(self).reg.balls@, d)
                    && spec_ball(final(self).reg.balls@, d).dropping,
            forall|d: u64| spec_has_ball(old(self).reg.balls@, d)
                && (#[trigger] spec_ball(old(self).reg.balls@, d)).dropping
                && pair_names(contacts@, d)
                ==> spec_has_ball(final(self).reg.balls@, d)
                    && !spec_ball(final(self).reg.balls@, d).dropping,
            final(self).reg.next_id == old(self).reg.next_id,
            final(self).reg.balls@.len() == old(self).reg.balls@.len(),
            final(self).player.score == old(self).player.score,
            final(self).player.next_ball_level == old(self).player.next_ball_level,
            final(self).player.hold_ball == old(self).player.hold_ball,
            final(self).def == old(self).def,
            final(self).state == old(self).state,
            final(self).shake == old(self).shake,
            final(self).cursor_x == old(self).cursor_x,
            final(self).protruded == old(self).protruded,
    {
        let ghost entry = self.reg.balls@;
        let found = self.reg.find_dropping();
        match found {
            Some(d) => {
                if contacts_name(contacts, d) {
                    let def = &self.def;
                    let ghost pre = self.reg.balls@;
                    let res = self.reg.clear_dropping(def, d);
                    proof {
                        let idx = crate::registry::spec_ball_idx(pre, d);
                        assert forall|k: int| 0 <= k < self.reg.balls@.len() implies
                            !(#[trigger] self.reg.balls@[k]).dropping by {
                            if k != idx {
                                assert(self.reg.balls@[k] == pre[k]);
                                if pre[k].dropping {
                                    assert(pre[idx].dropping);
                                }
                            }
                        };
                        assert(self.reg.balls@ =~= spec_gate_cleared(entry, contacts@)) by {
                            assert forall|k: int| 0 <= k < entry.len() implies
                                self.reg.balls@[k] == spec_gate_cleared(entry, contacts@)[k] by {
                                if k != idx && entry[k].dropping {
                                    assert(entry[idx].dropping);
                                }
                            };
                        };
                    }
                    self.player.can_drop = true;
                } else {
                    proof {
                        assert forall|d2: u64| spec_has_ball(self.reg.balls@, d2)
                            && (#[trigger] spec_ball(self.reg.balls@, d2)).dropping
                            implies !pair_names(contacts@, d2) by {
                            let i2 = crate::registry::spec_ball_idx(self.reg.balls@, d2);
                            let i1 = crate::registry::spec_ball_idx(self.reg.balls@, d);
                            assert(self.reg.balls@[i2].dropping
                                && self.reg.balls@[i1].dropping);
                            assert(i1 == i2);
                        };
                        assert(spec_has_dropping(self.reg.balls@));
                        assert(self.reg.balls@ =~= spec_gate_cleared(entry, contacts@)) by {
                            let i1 = crate::registry::spec_ball_idx(entry, d);
                            assert forall|k: int| 0 <= k < entry.len() implies
                                entry[k] == spec_gate_cleared(entry, contacts@)[k] by {
                                if entry[k].dropping {
                                    assert(entry[i1].dropping);
                                    assert(k == i1);
                                }
                            };
                        };
                    }
                }
            },
            None => {
                self.player.can_drop = true;
                proof {
                    assert(self.reg.balls@ =~= spec_gate_cleared(entry, contacts@)) by {
                        assert forall|k: int| 0 <= k < entry.len() implies
                            entry[k] == spec_gate_cleared(entry, contacts@)[k] by {
                            assert(!entry[k].dropping);
                        };
                    };
                }
            },
        }
        proof {
            assert forall|d: u64| spec_has_ball(old(self).reg.balls@, d)
                && (#[trigger] spec_ball(old(self).reg.balls@, d)).dropping
                implies spec_has_ball(self.reg.balls@, d)
                    && (spec_ball(self.reg.balls@, d).dropping
                        == !pair_names(contacts@, d)) by {
                let di = crate::registry::spec_ball_idx(old(self).reg.balls@, d);
                assert(old(self).reg.balls@[di].id == d);
                assert(self.reg.balls@[di].id == d);
                crate::registry::lemma_ball_idx(self.reg.balls@, di, d);
            };
        }
    }

    /// Consumes the tick's inputs in order: moves clamp the cursor, a drop
    /// (while allowed) spawns the next ball with a jittered x, a hold swaps
    /// with the held ball, a shake starts an envelope, and a pause is
    /// reported to the session.
    fn apply_inputs(
        &mut self,
        inputs: &Vec<PlayerInput>,
        hit_toi: i64,
        rng: &mut rand_chacha::ChaCha8Rng,
    ) -> (r: (Vec<BallSpawnEvent>, bool))
        requires
            old(self).wf(),
            0 <= hit_toi <= 4_000_000_000,
            forall|k: int| 0 <= k < inputs@.len() ==> valid_input(#[trigger] inputs@[k]),
            old(self).reg.next_id + inputs@.len() <= u64::MAX,
        ensures
            final(self).wf(),
            final(self).player.can_drop == !spec_has_dropping(final(self).reg.balls@),
            final(self).player.can_drop == (old(self).player.can_drop && !spec_has_drop(
                inputs@)),
            !spec_touches_player(inputs@) ==> final(self).player == old(self).player,
            !(spec_has_hold(inputs@) || (old(self).player.can_drop && spec_has_drop(inputs@)))
                ==> final(self).player.next_ball_level == old(self).player.next_ball_level
                    && final(self).player.hold_ball == old(self).player.hold_ball,
            forall|k: int| 0 <= k < r.0@.len() ==> (#[trigger] r.0@[k]) is Drop,
            r.0@.len() == (if old(self).player.can_drop && spec_has_drop(inputs@) {
                1int
            } else {
                0int
            }),
            !(old(self).player.can_drop && spec_has_drop(inputs@))
                ==> final(self).reg == old(self).reg,
            old(self).player.can_drop && spec_has_drop(inputs@) ==> match r.0@[0] {
                BallSpawnEvent::Drop((x, y), lv) => {
                    &&& BALL_LEVEL_MIN <= lv.0 <= old(self).player.max_ball_level.0
                    &&& y == spec_cursor_y(&old(self).def, old(self).player.can_drop,
                        old(self).player.next_ball_level, hit_toi as int)
                    &&& -(old(self).def.bottle.inner_width / 2) - 500 <= x
                    &&& x <= old(self).def.bottle.inner_width / 2 + 500
                    &&& final(self).reg.balls@ == old(self).reg.balls@.push(Ball {
                        id: old(self).reg.next_id,
                        level: lv,
                        x,
                        y,
                        vx: 0,
                        vy: 0,
                        radius: old(self).def.spec_ball_radius(lv.0 as int) as i64,
                        dropping: true,
                        growing: None,
                    })
                    &&& final(self).reg.next_id == old(self).reg.next_id + 1
                },
                BallSpawnEvent::Combine(_, _) => false,
            },
            r.1 == spec_has_pause(inputs@),
            final(self).player.score == old(self).player.score,
            final(self).reg.next_id <= old(self).reg.next_id + inputs@.len(),
            forall|d: u64| spec_has_ball(final(self).reg.balls@, d)
                && (#[trigger] spec_ball(final(self).reg.balls@, d)).dropping
                ==> (spec_has_ball(old(self).reg.balls@, d)
                    && spec_ball(old(self).reg.balls@, d).dropping)
                    || d >= old(self).reg.next_id,
            final(self).def == old(self).def,
            final(self).state == old(self).state,
            final(self).protruded == old(self).protruded,
    {
        let mut drops: Vec<BallSpawnEvent> = Vec::new();
        let mut pause = false;
        // The cursor's height for this tick, from the shape cast the
        // physics engine performed above the bottle.
        let floor_y = (self.def.bottle.inner_height + self.def.bottle.thickness) / 2
            + self.def.bottle.offset_y + PLAYER_GAP_WALL;
        let puppeteer_y = floor_y + PLAYER_GAP_TO_MAX;
        let def_for_y = &self.def;
        let cursor_y_raw = puppet_player_pos(
            def_for_y,
            self.player.can_drop,
            self.player.next_ball_level,
            puppeteer_y,
            hit_toi,
        );
        let cursor_y = crate::math::clamp_i64(cursor_y_raw, -2_000_000_000, 2_000_000_000);
        proof {
            assert(cursor_y as int == spec_cursor_y(&self.def, self.player.can_drop,
                self.player.next_ball_level, hit_toi as int));
        }
        let n = inputs.len();
        let mut i: usize = 0;
        while i < n
            invariant
                self.wf(),
                old(self).wf(),
                n == inputs@.len(),
                i <= n,
                forall|k: int| 0 <= k < inputs@.len() ==> valid_input(#[trigger] inputs@[k]),
                old(self).reg.next_id + n <= u64::MAX,
                old(self).reg.next_id <= self.reg.next_id,
                self.reg.next_id <= old(self).reg.next_id + i,
                -2_000_000_000 <= cursor_y <= 2_000_000_000,
                cursor_y as int == spec_cursor_y(&old(self).def, old(self).player.can_drop,
                    old(self).player.next_ball_level, hit_toi as int),
                forall|k: int| 0 <= k < drops@.len() ==> (#[trigger] drops@[k]) is Drop,
                pause == (exists|k: int| 0 <= k < i && inputs@[k] is Pause),
                self.player.can_drop == (old(self).player.can_drop
                    && !(exists|k: int| 0 <= k < i && inputs@[k] is Drop)),
                !(exists|k: int| 0 <= k < i && ((inputs@[k] is Drop) || (inputs@[k] is Hold)))
                    ==> self.player == old(self).player,
                !((exists|k: int| 0 <= k < i && inputs@[k] is Hold)
                    || (old(self).player.can_drop
                        && (exists|k: int| 0 <= k < i && inputs@[k] is Drop)))
                    ==> self.player.next_ball_level == old(self).player.next_ball_level
                        && self.player.hold_ball == old(self).player.hold_ball,
                drops@.len() == (if old(self).player.can_drop
                    && (exists|k: int| 0 <= k < i && inputs@[k] is Drop) {
                    1int
                } else {
                    0int
                }),
                !(old(self).player.can_drop
                    && (exists|k: int| 0 <= k < i && inputs@[k] is Drop))
                    ==> self.reg == old(self).reg,
                (old(self).player.can_drop
                    && (exists|k: int| 0 <= k < i && inputs@[k] is Drop)) ==> match drops@[0] {
                    BallSpawnEvent::Drop((x, y), lv) => {
                        &&& BALL_LEVEL_MIN <= lv.0 <= old(self).player.max_ball_level.0
                        &&& y == spec_cursor_y(&old(self).def, old(self).player.can_drop,
                            old(self).player.next_ball_level, hit_toi as int)
                        &&& -(old(self).def.bottle.inner_width / 2) - 500 <= x
                        &&& x <= old(self).def.bottle.inner_width / 2 + 500
                        &&& self.reg.balls@ == old(self).reg.balls@.push(Ball {
                            id: old(self).reg.next_id,
                            level: lv,
                            x,
                            y,
                            vx: 0,
                            vy: 0,
                            radius: old(self).def.spec_ball_radius(lv.0 as int) as i64,
                            dropping: true,
                            growing: None,
                        })
                        &&& self.reg.next_id == old(self).reg.next_id + 1
                    },
                    BallSpawnEvent::Combine(_, _) => false,
                },
                self.player.score == old(self).player.score,
                forall|d: u64| spec_has_ball(self.reg.balls@, d)
                    && (#[trigger] spec_ball(self.reg.balls@, d)).dropping
                    ==> (spec_has_ball(old(self).reg.balls@, d)
                        && spec_ball(old(self).reg.balls@, d).dropping)
                        || d >= old(self).reg.next_id,
                self.def == old(self).def,
                self.state == old(self).state,
                self.protruded == old(self).protruded,
            decreases n - i,
        {
            let input = inputs[i];
            match input {
                PlayerInput::Move(d) => {
                    let iw = self.def.bottle.inner_width;
                    self.cursor_x = move_puppeteer(self.cursor_x, d, self.player.speed, iw);
                },
                PlayerInput::Drop => {
                    if self.player.can_drop {
                        proof {
                            // A drop is still allowed, so no earlier input
                            // of this tick spawned a ball: the registry is
                            // exactly as it was handed in.
                            assert(old(self).player.can_drop);
                            assert(self.reg == old(self).reg);
                            assert(BALL_LEVEL_MIN <= self.player.next_ball_level.0
                                && self.player.next_ball_level.0
                                    <= old(self).player.max_ball_level.0);
                        }
                        let jitter = jitter_of_rand(rng_next_u32(rng));
                        let x = self.cursor_x + jitter;
                        let lv = self.player.next_ball_level;
                        let ghost pre = self.reg.balls@;
                        let def2 = &self.def;
                        let id = self.reg.spawn_dropped(def2, lv, x, cursor_y);
                        drops.push(BallSpawnEvent::Drop((x, cursor_y), lv));
                        self.player.set_next_ball_level_from_rng(rng);
                        self.player.can_drop = false;
                        proof {
                            assert(drops@[0] == BallSpawnEvent::Drop((x, cursor_y), lv));
                            assert forall|d2: u64| spec_has_ball(self.reg.balls@, d2)
                                && (#[trigger] spec_ball(self.reg.balls@, d2)).dropping
                                implies (spec_has_ball(old(self).reg.balls@, d2)
                                    && spec_ball(old(self).reg.balls@, d2).dropping)
                                    || d2 >= old(self).reg.next_id by {
                                let i2 = crate::registry::spec_ball_idx(self.reg.balls@, d2);
                                if i2 < pre.len() {
                                    assert(self.reg.balls@[i2] == pre[i2]);
                                    assert(!pre[i2].dropping);
                                } else {
                                    assert(self.reg.balls@[i2].id == id);
                                }
                            };
                            assert(spec_has_dropping(self.reg.balls@)) by {
                                assert(self.reg.balls@[pre.len() as int].dropping);
                            };
                        }
                    }
                },
                PlayerInput::Hold => {
                    self.player.hold(rng);
                },
                PlayerInput::Shake(x, y) => {
                    self.shake.add(x, y);
                },
                PlayerInput::Pause => {
                    pause = true;
                },
            }
            i = i + 1;
        }
        (drops, pause)
    }

    /// First ball (in registry order) whose center is outside the play
    /// area, if any.
    fn scan_area_escape(&self) -> (r: Option<u64>)
        requires
            self.wf(),
        ensures
            match r {
                Some(id) => {
                    &&& spec_has_ball(self.reg.balls@, id)
                    &&& !inside_area(self.def.area, spec_ball(self.reg.balls@, id))
                    &&& exists|i: int| 0 <= i < self.reg.balls@.len()
                        && (#[trigger] self.reg.balls@[i]).id == id
                        && !inside_area(self.def.area, self.reg.balls@[i])
                        && forall|k: int| 0 <= k < i
                            ==> inside_area(self.def.area, #[trigger] self.reg.balls@[k])
                },
                None => forall|i: int| 0 <= i < self.reg.balls@.len()
                    ==> inside_area(self.def.area, #[trigger] self.reg.balls@[i]),
            },
    {
        let area = Area {
            min_x: self.def.area.min_x,
            max_x: self.def.area.max_x,
            min_y: self.def.area.min_y,
            max_y: self.def.area.max_y,
        };
        let n = self.reg.len();
        let mut i: usize = 0;
        while i < n
            invariant
                self.wf(),
                n == self.reg.balls@.len(),
                i <= n,
                area == self.def.area,
                forall|k: int| 0 <= k < i
                    ==> inside_area(self.def.area, #[trigger] self.reg.balls@[k]),
            decreases n - i,
        {
            let b = &self.reg.balls[i];
            if !(area.min_x <= b.x && b.x <= area.max_x && area.min_y <= b.y
                && b.y <= area.max_y) {
                proof {
                    crate::registry::lemma_ball_idx(self.reg.balls@, i as int,
                        self.reg.balls@[i as int].id);
                }
                return Some(self.reg.balls[i].id);
            }
            i = i + 1;
        }
        None
    }

    /// One tick while playing.  In order: collision pairing over the raw
    /// contacts, drop gating, the player's inputs, merge resolution,
    /// scoring, growth, the velocity clamp, shake, and the game-over check.
    /// Afterwards the world invariant holds again — every ball's level and
    /// radius in range, at most one dropping ball, the drop gate mirroring
    /// it — the score has not decreased, every speed is within the cap, and
    /// the emitted touches are strictly sorted same-level pairs.
    pub fn tick(
        &mut self,
        inputs: &Vec<PlayerInput>,
        contacts: &Vec<(u64, u64)>,
        hit_toi: i64,
        dt_ms: u64,
        rng: &mut rand_chacha::ChaCha8Rng,
    ) -> (out: TickOutput)
        requires
            old(self).wf(),
            old(self).state is Playing,
            0 <= hit_toi <= 4_000_000_000,
            1 <= dt_ms <= 1000,
            forall|k: int| 0 <= k < inputs@.len() ==> valid_input(#[trigger] inputs@[k]),
            old(self).reg.next_id + inputs@.len() + contacts@.len() <= u64::MAX,
        ensures
            final(self).wf(),
            final(self).def == old(self).def,
            // Score monotonicity.
            final(self).player.score >= old(self).player.score,
            final(self).player.score == if old(self).player.score
                + spec_events_score(out.events@, BallLevel(old(self).def.balls@.len() as usize))
                <= u32::MAX {
                old(self).player.score + spec_events_score(out.events@,
                    BallLevel(old(self).def.balls@.len() as usize))
            } else {
                u32::MAX as int
            },
            // Velocity cap after the clamp substep.
            forall|i: int| 0 <= i < final(self).reg.balls@.len()
                ==> (#[trigger] final(self).reg.balls@[i]).vx * final(self).reg.balls@[i].vx
                    + final(self).reg.balls@[i].vy * final(self).reg.balls@[i].vy
                    <= old(self).def.max_velocity * old(self).def.max_velocity,
            // Emitted touches: ordered same-level pairs of live balls, no
            // two sharing a first id.
            forall|k: int| 0 <= k < out.touches@.len()
                ==> (#[trigger] out.touches@[k]).0 < out.touches@[k].1
                    && is_merge_contact(old(self).reg.balls@, out.touches@[k]),
            forall|k: int, j: int| 0 <= k < j < out.touches@.len()
                ==> out.touches@[k].0 < out.touches@[j].0,
            // Touches completeness: every first id among the canonical
            // same-level contacts is represented.
            forall|m: int| 0 <= m < filter_canon(old(self).reg.balls@, contacts@).len()
                ==> has_first(out.touches@,
                    (#[trigger] filter_canon(old(self).reg.balls@, contacts@)[m]).0),
            // One tick, stated end to end: the contacts settle the dropping
            // flag, at most one ball is dropped, the touches are resolved in
            // order, then growth and the velocity clamp apply to every ball.
            ({
                let def0 = &old(self).def;
                let gated = spec_gate_cleared(old(self).reg.balls@, contacts@);
                let gate_open = !spec_has_dropping(gated);
                let nid0 = old(self).reg.next_id;
                if gate_open && spec_has_drop(inputs@) {
                    &&& out.events@.len() >= 1
                    &&& match out.events@[0] {
                        BallSpawnEvent::Drop((x, y), lv) => {
                            let b = (Ball {
                                id: nid0,
                                level: lv,
                                x,
                                y,
                                vx: 0,
                                vy: 0,
                                radius: def0.spec_ball_radius(lv.0 as int) as i64,
                                dropping: true,
                                growing: None,
                            });
                            let folded = spec_combined(def0, gated.push(b), (nid0 + 1) as u64,
                                out.touches@);
                            &&& BALL_LEVEL_MIN <= lv.0 <= def0.drop_ball_level_max.0
                            &&& y == spec_cursor_y(def0, gate_open,
                                old(self).player.next_ball_level, hit_toi as int)
                            &&& -(def0.bottle.inner_width / 2) - 500 <= x
                            &&& x <= def0.bottle.inner_width / 2 + 500
                            &&& final(self).reg.balls@ == folded.0.map_values(
                                |bb: Ball| grown_ball(def0, bb, dt_ms)).map_values(
                                |bb: Ball| clamped_ball(def0, bb))
                            &&& final(self).reg.next_id == folded.1
                            &&& out.events@ == seq![out.events@[0]] + folded.2
                        },
                        BallSpawnEvent::Combine(_, _) => false,
                    }
                } else {
                    let folded = spec_combined(def0, gated, nid0, out.touches@);
                    &&& final(self).reg.balls@ == folded.0.map_values(
                        |bb: Ball| grown_ball(def0, bb, dt_ms)).map_values(
                        |bb: Ball| clamped_ball(def0, bb))
                    &&& final(self).reg.next_id == folded.1
                    &&& out.events@ == folded.2
                }
            }),
            // Session outcome of the tick.
            out.game_over == !(forall|i: int| 0 <= i < final(self).reg.balls@.len()
                ==> inside_area(old(self).def.area, #[trigger] final(self).reg.balls@[i])),
            final(self).state == if out.game_over {
                GameScreenState::GameOver
            } else if spec_has_pause(inputs@) {
                GameScreenState::Paused
            } else {
                GameScreenState::Playing
            },
            // The player's levels move only on a hold or on a drop that
            // actually lands; further drops stay barred exactly while a
            // dropping ball survives its contacts or a drop lands this tick.
            !(spec_has_hold(inputs@) || (!spec_has_dropping(spec_gate_cleared(
                old(self).reg.balls@, contacts@)) && spec_has_drop(inputs@)))
                ==> final(self).player.next_ball_level == old(self).player.next_ball_level
                    && final(self).player.hold_ball == old(self).player.hold_ball,
            final(self).player.can_drop == (!spec_has_dropping(spec_gate_cleared(
                old(self).reg.balls@, contacts@)) && !spec_has_drop(inputs@)),
            // The escaped ball is tagged; otherwise the tag is untouched.
            out.game_over ==> ({
                &&& final(self).protruded is Some
                &&& spec_has_ball(final(self).reg.balls@, final(self).protruded->Some_0)
                &&& !inside_area(old(self).def.area,
                    spec_ball(final(self).reg.balls@, final(self).protruded->Some_0))
            }),
            !out.game_over ==> final(self).protruded == old(self).protruded,
            out.shake_offset_y == spec_shake_offset(final(self).shake.envelopes@,
                old(self).def.shake_k as int),
    {
        let ghost entry_balls = self.reg.balls@;
        let ghost entry_next = self.reg.next_id;

        // 1. Collision pairing over the contacts of the last physics step.
        let touches = check_ball_collisions(&self.reg, contacts);

        // 2. The dropping ball's first contact re-allows the drop.
        self.check_dropping_ball(contacts);
        let ghost gated = self.reg.balls@;
        let ghost gate_open = self.player.can_drop;
        proof {
            assert(gated == spec_gate_cleared(entry_balls, contacts@));
            assert(gate_open == !spec_has_dropping(gated));
        }

        // 3. Player actions.
        let (mut events, pause) = self.apply_inputs(inputs, hit_toi, rng);
        let ghost drop_fired = gate_open && spec_has_drop(inputs@);

        // 4. Merges: no touch names a surviving dropping ball, so the drop
        // gate stays consistent.
        proof {
            lemma_filter_canon_ids(entry_balls, contacts@);
            let fc = filter_canon(entry_balls, contacts@);
            assert forall|d: u64| spec_has_ball(self.reg.balls@, d)
                && (#[trigger] spec_ball(self.reg.balls@, d)).dropping
                implies !pair_names(touches@, d) by {
                assert forall|k: int| 0 <= k < touches@.len() implies
                    (#[trigger] touches@[k]).0 != d && touches@[k].1 != d by {
                    lemma_first_partner_mem(fc, touches@[k].0);
                    let kk = choose|kk: int| 0 <= kk < fc.len()
                        && fc[kk] == (touches@[k].0, first_partner(fc, touches@[k].0));
                    assert(touches@[k] == fc[kk]);
                    assert(pair_names(contacts@, fc[kk].0)
                        && pair_names(contacts@, fc[kk].1));
                    assert(spec_has_ball(entry_balls, touches@[k].0)
                        && spec_has_ball(entry_balls, touches@[k].1));
                    assert(touches@[k].0 < entry_next && touches@[k].1 < entry_next) by {
                        let w0 = crate::registry::spec_ball_idx(entry_balls, touches@[k].0);
                        let w1 = crate::registry::spec_ball_idx(entry_balls, touches@[k].1);
                        assert(entry_balls[w0].id == touches@[k].0);
                        assert(entry_balls[w1].id == touches@[k].1);
                    };
                };
            };
        }
        let def_combine = &self.def;
        let ghost pre_combine = self.reg.balls@;
        let combines = combine_balls_touched(&mut self.reg, def_combine, &touches);
        proof {
            if self.player.can_drop {
                assert(!spec_has_dropping(pre_combine));
                assert(!spec_has_dropping(self.reg.balls@));
            } else {
                assert(spec_has_dropping(pre_combine));
                let di = choose|di: int| 0 <= di < pre_combine.len()
                    && pre_combine[di].dropping;
                crate::registry::lemma_ball_idx(pre_combine, di, pre_combine[di].id);
                assert(spec_has_dropping(self.reg.balls@)) by {
                    assert(spec_has_ball(self.reg.balls@, pre_combine[di].id)
                        && spec_ball(self.reg.balls@, pre_combine[di].id).dropping);
                    let w = crate::registry::spec_ball_idx(self.reg.balls@,
                        pre_combine[di].id);
                    assert(self.reg.balls@[w].dropping);
                };
            }
        }
        let ghost drop_events = events@;
        let ghost combine_events = combines@;
        let mut combines_mut = combines;
        events.append(&mut combines_mut);
        proof {
            if drop_fired {
                assert(drop_events =~= seq![drop_events[0]]);
                assert(events@ == seq![events@[0]] + combine_events);
            } else {
                assert(events@ =~= combine_events);
            }
        }

        // 5. Scoring reads the tick's complete spawn-event list.
        proof {
            assert forall|k: int| 0 <= k < events@.len() implies
                event_score_ok(#[trigger] events@[k],
                    BallLevel(self.def.balls@.len() as usize)) by {
                if k < drop_events.len() {
                    assert(events@[k] == drop_events[k]);
                } else {
                    assert(combine_event_wf(events@[k], &self.def));
                }
            };
        }
        let max_level = self.def.get_ball_max_level();
        score_ball_events(&mut self.player, &events, max_level);

        // 6. Growth timers advance and colliders follow.
        let def_growth = &self.def;
        let ghost pre_growth = self.reg.balls@;
        self.reg.tick_growth(def_growth, dt_ms);
        proof {
            assert forall|i: int| 0 <= i < self.reg.balls@.len() implies
                (#[trigger] self.reg.balls@[i]).dropping == pre_growth[i].dropping by {
                assert(self.reg.balls@[i] == grown_ball(&self.def, pre_growth[i], dt_ms));
            };
            lemma_pointwise_dropping(pre_growth, self.reg.balls@);
            assert(self.reg.balls@ =~= pre_growth.map_values(
                |bb: Ball| grown_ball(&old(self).def, bb, dt_ms)));
        }

        // 7. The velocity clamp substep.
        let def_clamp = &self.def;
        let ghost pre_clamp = self.reg.balls@;
        self.reg.clamp_velocities(def_clamp);
        proof {
            assert forall|i: int| 0 <= i < self.reg.balls@.len() implies
                (#[trigger] self.reg.balls@[i]).dropping == pre_clamp[i].dropping by {
                assert(self.reg.balls@[i] == clamped_ball(&self.def, pre_clamp[i]));
            };
            lemma_pointwise_dropping(pre_clamp, self.reg.balls@);
            assert(self.reg.balls@ =~= pre_clamp.map_values(
                |bb: Ball| clamped_ball(&old(self).def, bb)));
        }

        // 8. Shake envelopes advance; the bottle offset follows.
        self.shake.tick(dt_ms);
        let shake_offset_y = self.shake.offset_y(self.def.shake_k);

        // 9. Game over when any ball's center left the area.
        let escaped = self.scan_area_escape();
        let game_over = match escaped {
            Some(id) => {
                self.protruded = Some(id);
                self.state = crate::session::session_transition(self.state,
                    SessionSignal::AreaEscape);
                true
            },
            None => {
                if pause {
                    self.state = crate::session::session_transition(self.state,
                        SessionSignal::PauseInput);
                }
                false
            },
        };
        proof {
            if game_over {
                let id = self.protruded->Some_0;
                let w = crate::registry::spec_ball_idx(self.reg.balls@, id);
                assert(!inside_area(self.def.area, self.reg.balls@[w]));
            }
        }
        TickOutput { touches, events, game_over, shake_offset_y }
    }

    /// Records the final score under `key` on entering the game-over state.
    pub fn record_score(&self, scores: &mut crate::scores::Scores, key: &crate::scores::GameCond)
        requires
            old(scores).wf(),
        ensures
            final(scores).wf(),
            crate::scores::spec_recorded(old(scores).scores@, final(scores).scores@,
                key.app_ver@, key.mode@, crate::scores::Score { score: self.player.score }),
    {
        let sc = crate::scores::Score::new(self.player.score);
        scores.push(key, sc);
    }
}

/// `id` appears in some contact pair.
fn contacts_name(contacts: &Vec<(u64, u64)>, id: u64) -> (r: bool)
    ensures
        r == pair_names(contacts@, id),
{
    let n = contacts.len();
    let mut i: usize = 0;
    while i < n
        invariant
            n == contacts@.len(),
            i <= n,
            forall|k: int| 0 <= k < i
                ==> (#[trigger] contacts@[k]).0 != id && contacts@[k].1 != id,
        decreases n - i,
    {
        let c = contacts[i];
        if c.0 == id || c.1 == id {
            return true;
        }
        i = i + 1;
    }
    false
}

/// Two ball lists with pointwise equal dropping flags hold a dropping ball
/// together or not at all.
proof fn lemma_pointwise_dropping(a: Seq<Ball>, b: Seq<Ball>)
    requires
        a.len() == b.len(),
        forall|i: int| 0 <= i < a.len() ==> (#[trigger] b[i]).dropping == a[i].dropping,
    ensures
        spec_has_dropping(a) == spec_has_dropping(b),
{
    if spec_has_dropping(a) {
        let i = choose|i: int| 0 <= i < a.len() && a[i].dropping;
        assert(b[i].dropping);
    }
    if spec_has_dropping(b) {
        let i = choose|i: int| 0 <= i < b.len() && b[i].dropping;
        assert(a[i].dropping);
    }
}

} // verus!

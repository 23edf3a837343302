//! The merge/spawn engine: resolves merge touches into despawns, grown-in
//! replacements and scoring events.

use vstd::prelude::*;
use crate::definition::GameDefinition;
use crate::registry::{
    Ball, BallGrowing, BallRegistry, spec_ball, spec_ball_idx, spec_has_ball,
    spec_has_dropping, distinct_ids, lemma_ball_idx,
};
use crate::pairing::pair_names;
use crate::rules::{BallLevel, combined_level, score_for_merge};
use crate::player::Player;

verus! {

/// A request to create a ball, or to score a vanished top-level pair.
#[derive(Clone, Copy, Debug)]
pub enum BallSpawnEvent {
    /// The player dropped a ball of this level at this position.
    Drop((i64, i64), BallLevel),
    /// Two balls merged at this position into a ball of this level, or into
    /// nothing when they were already at the top level.
    Combine((i64, i64), Option<BallLevel>),
}

/// Midpoint coordinate, truncated toward zero.
pub open spec fn mid_coord(a: int, b: int) -> int {
    if a + b >= 0 {
        (a + b) / 2
    } else {
        -((-(a + b)) / 2)
    }
}

/// Midpoint coordinate of two bounded coordinates.
fn mid_coord_exec(a: i64, b: i64) -> (r: i64)
    requires
        -2_000_000_000 <= a <= 2_000_000_000,
        -2_000_000_000 <= b <= 2_000_000_000,
    ensures
        r == mid_coord(a as int, b as int),
        -2_000_000_000 <= r <= 2_000_000_000,
{
    let s = a + b;
    if s >= 0 {
        ((s as u64) / 2) as i64
    } else {
        -((((-s) as u64) / 2) as i64)
    }
}

/// A touch still fires: it names two distinct live balls of equal level.
pub open spec fn touch_fires(balls: Seq<Ball>, a: u64, b: u64) -> bool {
    &&& a != b
    &&& spec_has_ball(balls, a)
    &&& spec_has_ball(balls, b)
    &&& spec_ball(balls, a).level == spec_ball(balls, b).level
}

/// The exact effect of one merge touch on the live balls and the id
/// counter, with the event it emits: a dead or mismatched touch changes
/// nothing; a firing touch removes both balls and, below the top level,
/// pushes the grown-in replacement at their midpoint.
pub open spec fn spec_combine_step(
    def: &GameDefinition,
    balls: Seq<Ball>,
    next_id: u64,
    a: u64,
    b: u64,
) -> (Seq<Ball>, u64, Option<BallSpawnEvent>) {
    if !touch_fires(balls, a, b) {
        (balls, next_id, None)
    } else {
        let ba = spec_ball(balls, a);
        let bb = spec_ball(balls, b);
        let mid_x = mid_coord(ba.x as int, bb.x as int) as i64;
        let mid_y = mid_coord(ba.y as int, bb.y as int) as i64;
        let s1 = balls.remove(spec_ball_idx(balls, a));
        let s2 = s1.remove(spec_ball_idx(s1, b));
        if ba.level.0 == def.balls@.len() {
            (s2, next_id, Some(BallSpawnEvent::Combine((mid_x, mid_y), None)))
        } else {
            let lv = BallLevel((ba.level.0 + 1) as usize);
            (
                s2.push(Ball {
                    id: next_id,
                    level: lv,
                    x: mid_x,
                    y: mid_y,
                    vx: 0,
                    vy: 0,
                    radius: def.spec_start_radius(lv.0 as int) as i64,
                    dropping: false,
                    growing: Some(BallGrowing { sec_ms: 0, sec_max_ms: def.grow_time_ms }),
                }),
                (next_id + 1) as u64,
                Some(BallSpawnEvent::Combine((mid_x, mid_y), Some(lv))),
            )
        }
    }
}

/// A step's touches folded, in order, over the live balls and the id
/// counter; the third component is the event list the step emits.
pub open spec fn spec_combined(
    def: &GameDefinition,
    balls: Seq<Ball>,
    next_id: u64,
    touches: Seq<(u64, u64)>,
) -> (Seq<Ball>, u64, Seq<BallSpawnEvent>)
    decreases touches.len(),
{
    if touches.len() == 0 {
        (balls, next_id, Seq::empty())
    } else {
        let prev = spec_combined(def, balls, next_id, touches.drop_last());
        let t = touches.last();
        let step = spec_combine_step(def, prev.0, prev.1, t.0, t.1);
        (
            step.0,
            step.1,
            prev.2 + (match step.2 {
                Some(e) => seq![e],
                None => Seq::<BallSpawnEvent>::empty(),
            }),
        )
    }
}

/// Resolves one merge touch `(a, b)`: when both are distinct live balls of
/// the same level, both despawn and — below the top level — one growing ball
/// of the next level spawns at their midpoint.  A touch naming a dead ball,
/// or one whose recorded levels disagree, is dropped and nothing changes.
pub fn combine_pair(reg: &mut BallRegistry, def: &GameDefinition, a: u64, b: u64)
    -> (ev: Option<BallSpawnEvent>)
    requires
        def.wf(),
        old(reg).wf(def),
        old(reg).next_id < u64::MAX,
    ensures
        final(reg).wf(def),
        old(reg).next_id <= final(reg).next_id <= old(reg).next_id + 1,
        final(reg).next_id == old(reg).next_id + (match ev {
            Some(BallSpawnEvent::Combine(_, Some(_))) => 1int,
            _ => 0int,
        }),
        ev is Some <==> (a != b && spec_has_ball(old(reg).balls@, a)
            && spec_has_ball(old(reg).balls@, b)
            && spec_ball(old(reg).balls@, a).level == spec_ball(old(reg).balls@, b).level),
        ev is None ==> *final(reg) == *old(reg),
        ev is Some ==> ({
            let ba = spec_ball(old(reg).balls@, a);
            let bb = spec_ball(old(reg).balls@, b);
            let mid_x = mid_coord(ba.x as int, bb.x as int);
            let mid_y = mid_coord(ba.y as int, bb.y as int);
            let promoted: Option<BallLevel> = if ba.level.0 == def.balls@.len() {
                None
            } else {
                Some(BallLevel((ba.level.0 + 1) as usize))
            };
            let s1 = old(reg).balls@.remove(spec_ball_idx(old(reg).balls@, a));
            let s2 = s1.remove(spec_ball_idx(s1, b));
            &&& ev == Some(BallSpawnEvent::Combine((mid_x as i64, mid_y as i64), promoted))
            &&& match promoted {
                Some(lv) => {
                    &&& 2 <= lv.0 <= def.balls@.len()
                    &&& final(reg).balls@ == s2.push(Ball {
                        id: old(reg).next_id,
                        level: lv,
                        x: mid_x as i64,
                        y: mid_y as i64,
                        vx: 0,
                        vy: 0,
                        radius: def.spec_start_radius(lv.0 as int) as i64,
                        dropping: false,
                        growing: Some(BallGrowing {
                            sec_ms: 0,
                            sec_max_ms: def.grow_time_ms,
                        }),
                    })
                    &&& final(reg).balls@.len() == old(reg).balls@.len() - 1
                },
                None => {
                    &&& final(reg).balls@ == s2
                    &&& final(reg).balls@.len() == old(reg).balls@.len() - 2
                },
            }
        }),
{
    if a == b {
        return None;
    }
    let ball_a = reg.get(a);
    let ball_b = reg.get(b);
    match (ball_a, ball_b) {
        (Some(ba), Some(bb)) => {
            if ba.level.0 != bb.level.0 {
                // Recorded levels disagree: impossible after pairing, kept
                // as a defensive check; the touch is ignored.
                return None;
            }
            let mid_x = mid_coord_exec(ba.x, bb.x);
            let mid_y = mid_coord_exec(ba.y, bb.y);
            let res_a = reg.despawn(def, a);
            proof {
                assert(res_a is Ok);
            }
            let res_b = reg.despawn(def, b);
            proof {
                let s1 = old(reg).balls@.remove(spec_ball_idx(old(reg).balls@, a));
                let ib = spec_ball_idx(old(reg).balls@, b);
                let ia = spec_ball_idx(old(reg).balls@, a);
                let ib2 = if ib < ia { ib } else { ib - 1 };
                assert(s1[ib2] == old(reg).balls@[ib]);
                lemma_ball_idx(s1, ib2, b);
                assert(res_b is Ok);
            }
            let max_level = def.get_ball_max_level();
            if ba.level.0 == max_level.0 {
                Some(BallSpawnEvent::Combine((mid_x, mid_y), None))
            } else {
                let lv = BallLevel(ba.level.0 + 1);
                let _id = reg.spawn_growing(def, lv, mid_x, mid_y, def.grow_time_ms);
                Some(BallSpawnEvent::Combine((mid_x, mid_y), Some(lv)))
            }
        },
        _ => None,
    }
}

/// Number of events that spawn a new ball.
pub open spec fn promoted_count(evs: Seq<BallSpawnEvent>) -> int
    decreases evs.len(),
{
    if evs.len() == 0 {
        0
    } else {
        promoted_count(evs.drop_last()) + match evs.last() {
            BallSpawnEvent::Combine(_, Some(_)) => 1int,
            _ => 0int,
        }
    }
}

/// A combine event a merge may emit: any spawned level is one the
/// definition knows and above the smallest.
pub open spec fn combine_event_wf(ev: BallSpawnEvent, def: &GameDefinition) -> bool {
    match ev {
        BallSpawnEvent::Combine(_, Some(lv)) => 2 <= lv.0 <= def.balls@.len(),
        BallSpawnEvent::Combine(_, None) => true,
        BallSpawnEvent::Drop(_, _) => false,
    }
}

/// Consumes the merge touches of one step, in order: the registry, the id
/// counter and the emitted events equal `spec_combined` folded over the
/// touches.  Each touch that still names two live same-level balls despawns
/// exactly those two and spawns at most one replacement, so the net ball
/// count change per emitted event is `-2` (top level) or `-1` (promotion);
/// touches referencing despawned balls are silently dropped.  A ball that
/// carries the dropping flag and is named by no touch keeps it, and no
/// merge ever creates one.
pub fn combine_balls_touched(
    reg: &mut BallRegistry,
    def: &GameDefinition,
    touches: &Vec<(u64, u64)>,
) -> (events: Vec<BallSpawnEvent>)
    requires
        def.wf(),
        old(reg).wf(def),
        old(reg).next_id + touches@.len() <= u64::MAX,
    ensures
        final(reg).wf(def),
        ({
            let folded = spec_combined(def, old(reg).balls@, old(reg).next_id, touches@);
            &&& final(reg).balls@ == folded.0
            &&& final(reg).next_id == folded.1
            &&& events@ == folded.2
        }),
        forall|k: int| 0 <= k < events@.len()
            ==> combine_event_wf(#[trigger] events@[k], def),
        final(reg).balls@.len() == old(reg).balls@.len() - 2 * events@.len()
            + promoted_count(events@),
        0 <= promoted_count(events@) <= events@.len(),
        !spec_has_dropping(old(reg).balls@) ==> !spec_has_dropping(final(reg).balls@),
        forall|d: u64| spec_has_ball(old(reg).balls@, d)
            && (#[trigger] spec_ball(old(reg).balls@, d)).dropping
            && !pair_names(touches@, d)
            ==> spec_has_ball(final(reg).balls@, d) && spec_ball(final(reg).balls@, d).dropping,
{
    let mut events: Vec<BallSpawnEvent> = Vec::new();
    let n = touches.len();
    let mut i: usize = 0;
    while i < n
        invariant
            def.wf(),
            reg.wf(def),
            n == touches@.len(),
            i <= n,
            reg.next_id <= old(reg).next_id + i,
            old(reg).next_id + n <= u64::MAX,
            events@.len() <= i,
            ({
                let folded = spec_combined(def, old(reg).balls@, old(reg).next_id,
                    touches@.subrange(0, i as int));
                &&& reg.balls@ == folded.0
                &&& reg.next_id == folded.1
                &&& events@ == folded.2
            }),
            forall|k: int| 0 <= k < events@.len()
                ==> combine_event_wf(#[trigger] events@[k], def),
            reg.balls@.len() == old(reg).balls@.len() - 2 * events@.len()
                + promoted_count(events@),
            0 <= promoted_count(events@) <= events@.len(),
            !spec_has_dropping(old(reg).balls@) ==> !spec_has_dropping(reg.balls@),
            forall|d: u64| spec_has_ball(old(reg).balls@, d)
                && (#[trigger] spec_ball(old(reg).balls@, d)).dropping
                && !pair_names(touches@, d)
                ==> spec_has_ball(reg.balls@, d) && spec_ball(reg.balls@, d).dropping,
        decreases n - i,
    {
        let (a, b) = touches[i];
        let ghost pre = reg.balls@;
        let ghost pre_nid = reg.next_id;
        let ghost pre_evs = events@;
        let ev = combine_pair(reg, def, a, b);
        match ev {
            Some(e) => {
                let ghost oldevs = events@;
                events.push(e);
                proof {
                    assert(events@.drop_last() =~= oldevs);
                    let s1 = pre.remove(spec_ball_idx(pre, a));
                    let s2 = s1.remove(spec_ball_idx(s1, b));
                    if reg.balls@ != s2 {
                        assert(reg.balls@.drop_last() =~= s2);
                    }
                    lemma_combine_step_preserves(pre, reg.balls@, touches@, a, b, i as int);
                    assert forall|d: u64| spec_has_ball(old(reg).balls@, d)
                        && (#[trigger] spec_ball(old(reg).balls@, d)).dropping
                        && !pair_names(touches@, d)
                        implies spec_has_ball(reg.balls@, d)
                            && spec_ball(reg.balls@, d).dropping by {
                        assert(spec_has_ball(pre, d) && spec_ball(pre, d).dropping);
                    };
                    assert(events@ =~= pre_evs + seq![e]);
                }
            },
            None => {
                proof {
                    assert(events@ =~= pre_evs + Seq::<BallSpawnEvent>::empty());
                }
            },
        }
        proof {
            assert(touches@.subrange(0, i + 1).drop_last() =~= touches@.subrange(0, i as int));
            assert(touches@.subrange(0, i + 1).last() == touches@[i as int]);
            let step = spec_combine_step(def, pre, pre_nid, a, b);
            assert(reg.balls@ == step.0 && reg.next_id == step.1 && ev == step.2);
        }
        i = i + 1;
    }
    proof {
        assert(touches@.subrange(0, n as int) =~= touches@);
    }
    events
}

/// One resolved touch keeps every dropping ball that no touch names, and
/// creates no dropping ball.
proof fn lemma_combine_step_preserves(
    pre: Seq<Ball>,
    post: Seq<Ball>,
    touches: Seq<(u64, u64)>,
    a: u64,
    b: u64,
    i: int,
)
    requires
        0 <= i < touches.len(),
        touches[i].0 == a && touches[i].1 == b,
        distinct_ids(pre),
        spec_has_ball(pre, a),
        spec_has_ball(pre, b),
        a != b,
        distinct_ids(post),
        ({
            let s1 = pre.remove(spec_ball_idx(pre, a));
            let s2 = s1.remove(spec_ball_idx(s1, b));
            post == s2 || (post.len() == s2.len() + 1 && post.drop_last() == s2
                && !post.last().dropping)
        }),
    ensures
        !spec_has_dropping(pre) ==> !spec_has_dropping(post),
        forall|d: u64| spec_has_ball(pre, d) && (#[trigger] spec_ball(pre, d)).dropping
            && !pair_names(touches, d)
            ==> spec_has_ball(post, d) && spec_ball(post, d).dropping,
{
    let ia = spec_ball_idx(pre, a);
    let s1 = pre.remove(ia);
    let ib = spec_ball_idx(s1, b);
    let s2 = s1.remove(ib);
    assert(0 <= ia < pre.len() && pre[ia].id == a);
    let jb = spec_ball_idx(pre, b);
    assert(0 <= jb < pre.len() && pre[jb].id == b);
    assert(jb != ia);
    let jb1 = if jb < ia { jb } else { jb - 1 };
    assert(s1[jb1] == pre[jb]);
    assert(spec_has_ball(s1, b));
    assert(0 <= ib < s1.len() && s1[ib].id == b);
    // Every ball of `post` except a pushed non-dropping one is a ball of
    // `pre`.
    assert forall|k: int| 0 <= k < s2.len() implies exists|j: int|
        0 <= j < pre.len() && pre[j] == #[trigger] s2[k] by {
        let k1 = if k < ib { k } else { k + 1 };
        let k0 = if k1 < ia { k1 } else { k1 + 1 };
        assert(s2[k] == s1[k1] && s1[k1] == pre[k0]);
    };
    if !spec_has_dropping(pre) {
        assert forall|k: int| 0 <= k < post.len() implies !(#[trigger] post[k]).dropping by {
            if post == s2 || k < s2.len() {
                let j = choose|j: int| 0 <= j < pre.len() && pre[j] == s2[k];
                assert(!pre[j].dropping);
            }
        };
    }
    assert forall|d: u64| spec_has_ball(pre, d) && (#[trigger] spec_ball(pre, d)).dropping
        && !pair_names(touches, d)
        implies spec_has_ball(post, d) && spec_ball(post, d).dropping by {
        assert(touches[i].0 == a || touches[i].1 == b);
        assert(d != a && d != b);
        let di = spec_ball_idx(pre, d);
        assert(0 <= di < pre.len() && pre[di].id == d);
        assert(di != ia);
        let d1 = if di < ia { di } else { di - 1 };
        assert(s1[d1] == pre[di]);
        assert(d1 != ib) by {
            assert(s1[ib].id == b);
        };
        let d2 = if d1 < ib { d1 } else { d1 - 1 };
        assert(s2[d2] == s1[d1]);
        if post == s2 {
            lemma_ball_idx(post, d2, d);
        } else {
            assert(post[d2] == s2[d2]);
            lemma_ball_idx(post, d2, d);
        }
    };
}

/// Points one spawn event yields: a drop scores nothing, a merge scores the
/// square of the level of the pair that merged.
pub open spec fn spec_event_score(ev: BallSpawnEvent, max_level: BallLevel) -> int {
    match ev {
        BallSpawnEvent::Drop(_, _) => 0,
        BallSpawnEvent::Combine(_, promoted) => combined_level(promoted, max_level)
            * combined_level(promoted, max_level),
    }
}

/// Total points of a tick's spawn events.
pub open spec fn spec_events_score(evs: Seq<BallSpawnEvent>, max_level: BallLevel) -> int
    decreases evs.len(),
{
    if evs.len() == 0 {
        0
    } else {
        spec_events_score(evs.drop_last(), max_level) + spec_event_score(evs.last(), max_level)
    }
}

/// An event whose score fits the scoring arithmetic.
pub open spec fn event_score_ok(ev: BallSpawnEvent, max_level: BallLevel) -> bool {
    &&& max_level.0 <= 65535
    &&& match ev {
        BallSpawnEvent::Combine(_, Some(lv)) => 1 <= lv.0 <= 65536,
        _ => true,
    }
}

/// Event scores are never negative.
pub proof fn lemma_event_score_nonneg(ev: BallSpawnEvent, max_level: BallLevel)
    ensures
        spec_event_score(ev, max_level) >= 0,
{
    match ev {
        BallSpawnEvent::Drop(_, _) => {},
        BallSpawnEvent::Combine(_, promoted) => {
            let c = combined_level(promoted, max_level);
            assert(c * c >= 0) by (nonlinear_arith);
        },
    }
}

/// A tick's total score is never negative.
pub proof fn lemma_events_score_nonneg(evs: Seq<BallSpawnEvent>, max_level: BallLevel)
    ensures
        spec_events_score(evs, max_level) >= 0,
    decreases evs.len(),
{
    if evs.len() > 0 {
        lemma_events_score_nonneg(evs.drop_last(), max_level);
        lemma_event_score_nonneg(evs.last(), max_level);
    }
}

/// Points one spawn event yields.
pub fn score_of_spawn_event(ev: &BallSpawnEvent, max_level: BallLevel) -> (r: u32)
    requires
        event_score_ok(*ev, max_level),
    ensures
        r == spec_event_score(*ev, max_level),
{
    match ev {
        BallSpawnEvent::Drop(_, _) => 0,
        BallSpawnEvent::Combine(_, promoted) => score_for_merge(*promoted, max_level),
    }
}

/// Credits the player with the points of a tick's spawn events, saturating
/// at the top of the score range; the score never decreases.
pub fn score_ball_events(
    player: &mut Player,
    events: &Vec<BallSpawnEvent>,
    max_level: BallLevel,
)
    requires
        forall|k: int| 0 <= k < events@.len()
            ==> event_score_ok(#[trigger] events@[k], max_level),
    ensures
        final(player).score == if old(player).score + spec_events_score(events@, max_level)
            <= u32::MAX {
            old(player).score + spec_events_score(events@, max_level)
        } else {
            u32::MAX as int
        },
        final(player).score >= old(player).score,
        final(player).speed == old(player).speed,
        final(player).next_ball_level == old(player).next_ball_level,
        final(player).max_ball_level == old(player).max_ball_level,
        final(player).hold_ball == old(player).hold_ball,
        final(player).can_drop == old(player).can_drop,
{
    let n = events.len();
    let mut i: usize = 0;
    while i < n
        invariant
            n == events@.len(),
            i <= n,
            forall|k: int| 0 <= k < events@.len()
                ==> event_score_ok(#[trigger] events@[k], max_level),
            player.score == if old(player).score
                + spec_events_score(events@.subrange(0, i as int), max_level) <= u32::MAX {
                old(player).score + spec_events_score(events@.subrange(0, i as int), max_level)
            } else {
                u32::MAX as int
            },
            player.score >= old(player).score,
            player.speed == old(player).speed,
            player.next_ball_level == old(player).next_ball_level,
            player.max_ball_level == old(player).max_ball_level,
            player.hold_ball == old(player).hold_ball,
            player.can_drop == old(player).can_drop,
        decreases n - i,
    {
        let points = score_of_spawn_event(&events[i], max_level);
        proof {
            let pre = events@.subrange(0, i as int);
            let post = events@.subrange(0, i + 1);
            assert(post.drop_last() =~= pre);
            assert(post.last() == events@[i as int]);
            lemma_events_score_nonneg(pre, max_level);
            lemma_event_score_nonneg(events@[i as int], max_level);
        }
        player.add_score(points);
        i = i + 1;
    }
    proof {
        assert(events@.subrange(0, n as int) =~= events@);
    }
}

} // verus!

use rand_core::SeedableRng;

use suika_core::definition::{Area, BallLevelDef, BottleDef, DefinitionError, GameDefinition};
use suika_core::effects::{Linear, RandRange};
use suika_core::engine::{combine_balls_touched, score_of_spawn_event, BallSpawnEvent};
use suika_core::math::{clamp_i64, isqrt_ceil_u64, isqrt_u64};
use suika_core::pairing::check_ball_collisions;
use suika_core::player::{jitter_of_rand, move_puppeteer, puppet_player_pos, Player, PlayerInput};
use suika_core::registry::{Ball, BallGrowing, BallRegistry, RegistryError};
use suika_core::rules::{promote, score_for_merge, BallLevel};
use suika_core::scale::scale_definition;
use suika_core::scores::{GameCond, Score, Scores};
use suika_core::session::{
    session_transition, ControllerGameOverPopup, ControllerPausePopup, GameOverPopupInput,
    GameOverOutcome, GameScreenState, PauseOutcome, PausePopupInput, SessionSignal,
};
use suika_core::shake::{bell_micro, ShakeState};
use suika_core::world::GameWorld;
use suika_core::config::Config;

/// Eleven-level definition in milli units; level 1 has radius 28 units.
fn test_def() -> GameDefinition {
    let radii: [i64; 11] = [
        28_000, 34_500, 42_000, 51_000, 61_000, 73_000, 87_000, 104_000, 124_000, 148_000,
        176_000,
    ];
    let mut balls = Vec::new();
    for (i, r) in radii.iter().enumerate() {
        balls.push(BallLevelDef {
            physics_radius: *r,
            view_width: *r * 2,
            view_height: *r * 2,
            image_asset_path: format!("balls/{}.png", i + 1),
            effect_index: None,
        });
    }
    GameDefinition {
        balls,
        drop_ball_level_max: BallLevel(5),
        player_speed: 20_000,
        bottle: BottleDef {
            inner_width: 340_000,
            inner_height: 500_000,
            thickness: 30_000,
            offset_x: 0,
            offset_y: 0,
        },
        grow_time_ms: 1000,
        area: Area { min_x: -700_000, max_x: 700_000, min_y: -600_000, max_y: 10_000_000 },
        max_velocity: 3_000_000,
        shake_k: 60_000,
    }
}

fn ball_at(id: u64, level: usize, x: i64, y: i64, radius: i64) -> Ball {
    Ball { id, level: BallLevel(level), x, y, vx: 0, vy: 0, radius, dropping: false, growing: None }
}

fn playing_world(def: GameDefinition, balls: Vec<Ball>, next_id: u64) -> GameWorld {
    let player = Player::new(def.player_speed, BallLevel(3), def.drop_ball_level_max);
    GameWorld {
        def,
        state: GameScreenState::Playing,
        player,
        reg: BallRegistry { balls, next_id },
        shake: ShakeState::new(),
        cursor_x: 0,
        protruded: None,
    }
}

#[test]
fn definition_validates() {
    let def = test_def();
    assert!(def.check().is_ok());
}

#[test]
fn definition_error_level_count() {
    let mut def = test_def();
    def.balls.clear();
    assert_eq!(def.check(), Err(DefinitionError::BadLevelCount));
}

#[test]
fn definition_error_drop_level_max() {
    let mut def = test_def();
    def.drop_ball_level_max = BallLevel(12);
    assert_eq!(def.check(), Err(DefinitionError::BadDropLevelMax));
}

#[test]
fn definition_error_ball_geometry() {
    let mut def = test_def();
    def.balls[0].physics_radius = 0;
    assert_eq!(def.check(), Err(DefinitionError::BadBallGeometry));
}

#[test]
fn definition_error_start_radius() {
    let mut def = test_def();
    // A huge level-1 ball makes the level-2 start radius exceed its final
    // radius.
    def.balls[0].physics_radius = 1_000_000_000;
    def.balls[1].physics_radius = 1;
    assert_eq!(def.check(), Err(DefinitionError::StartRadiusTooLarge));
}

#[test]
fn definition_error_player_speed() {
    let mut def = test_def();
    def.player_speed = 0;
    assert_eq!(def.check(), Err(DefinitionError::BadPlayerSpeed));
}

#[test]
fn definition_error_bottle() {
    let mut def = test_def();
    def.bottle.inner_width = -1;
    assert_eq!(def.check(), Err(DefinitionError::BadBottle));
}

#[test]
fn definition_error_area() {
    let mut def = test_def();
    def.area.min_x = def.area.max_x + 1;
    assert_eq!(def.check(), Err(DefinitionError::BadArea));
}

#[test]
fn definition_error_physics() {
    let mut def = test_def();
    def.grow_time_ms = 0;
    assert_eq!(def.check(), Err(DefinitionError::BadPhysics));
}

#[test]
fn isqrt_values() {
    assert_eq!(isqrt_u64(0), 0);
    assert_eq!(isqrt_u64(3), 1);
    assert_eq!(isqrt_u64(4), 2);
    assert_eq!(isqrt_u64(2_352_000_000), 48_497);
    assert_eq!(isqrt_ceil_u64(2_352_000_000), 48_498);
    assert_eq!(isqrt_ceil_u64(49), 7);
}

#[test]
fn start_radius_matches_free_space_formula() {
    let def = test_def();
    // sqrt(2*28*28 + 28^2) - 28, in milli units: about 20.497.
    assert_eq!(def.get_ball_start_r(BallLevel(2)), 20_497);
    // Start radius never exceeds the final radius.
    for lv in 2..=11usize {
        let start = def.get_ball_start_r(BallLevel(lv));
        assert!(start <= def.get_ball_r(BallLevel(lv)));
        assert!(start >= 0);
    }
}

#[test]
fn promote_and_score() {
    assert_eq!(promote(BallLevel(1), BallLevel(11)), Some(BallLevel(2)));
    assert_eq!(promote(BallLevel(10), BallLevel(11)), Some(BallLevel(11)));
    assert_eq!(promote(BallLevel(11), BallLevel(11)), None);
    // A merged level-1 pair scores 1; a merged top-level pair scores Lmax^2.
    assert_eq!(score_for_merge(Some(BallLevel(2)), BallLevel(11)), 1);
    assert_eq!(score_for_merge(Some(BallLevel(11)), BallLevel(11)), 100);
    assert_eq!(score_for_merge(None, BallLevel(11)), 121);
}

#[test]
fn from_rand_u32_is_uniform_remainder() {
    assert_eq!(BallLevel::from_rand_u32(0, BallLevel(1), BallLevel(5)), BallLevel(1));
    assert_eq!(BallLevel::from_rand_u32(7, BallLevel(1), BallLevel(5)), BallLevel(3));
    assert_eq!(BallLevel::from_rand_u32(4, BallLevel(1), BallLevel(5)), BallLevel(5));
}

#[test]
fn jitter_spans_half_unit_each_way() {
    assert_eq!(jitter_of_rand(0), -500);
    assert_eq!(jitter_of_rand(u32::MAX), 500);
    // Just below the midpoint the scaled value floors to 499.
    assert_eq!(jitter_of_rand(u32::MAX / 2), -1);
    assert_eq!(jitter_of_rand(u32::MAX / 2 + 1), 0);
}

#[test]
fn pairing_canonicalizes_and_sorts() {
    let balls = vec![
        ball_at(4, 2, 0, 0, 34_500),
        ball_at(2, 2, 60_000, 0, 34_500),
        ball_at(9, 3, 120_000, 0, 42_000),
    ];
    let reg = BallRegistry { balls, next_id: 10 };
    // Reversed pair is canonicalized; a different-level contact and a
    // contact naming a dead ball are discarded.
    let contacts = vec![(4u64, 2u64), (9, 4), (77, 2)];
    let touches = check_ball_collisions(&reg, &contacts);
    assert_eq!(touches, vec![(2, 4)]);
}

#[test]
fn three_touching_balls_one_merge() {
    // Three level-3 balls touching pairwise: after canonicalization, the
    // sort and the dedup by first id, the pair of the two smallest ids
    // fires; the pair led by the middle id survives the dedup but then
    // references a despawned ball and is silently dropped.
    let def = test_def();
    let a = ball_at(1, 3, -40_000, 0, 42_000);
    let b = ball_at(2, 3, 0, 0, 42_000);
    let c = ball_at(3, 3, 40_000, 0, 42_000);
    let mut reg = BallRegistry { balls: vec![a, b, c], next_id: 4 };
    let contacts = vec![(1u64, 2u64), (2, 3), (1, 3)];
    let touches = check_ball_collisions(&reg, &contacts);
    assert_eq!(touches, vec![(1, 2), (2, 3)]);
    let events = combine_balls_touched(&mut reg, &def, &touches);
    assert_eq!(events.len(), 1);
    // Only one merge fired: the two smallest despawned, one level-4 ball
    // grew in, and the third ball is still level 3.
    assert_eq!(reg.balls.len(), 2);
    assert_eq!(reg.balls[0].id, 3);
    assert_eq!(reg.balls[0].level, BallLevel(3));
    assert_eq!(reg.balls[1].level, BallLevel(4));
}

#[test]
fn two_level_one_balls_merge() {
    // Two touching level-1 balls vanish; a growing level-2 ball appears at
    // their midpoint with the free-space start radius; the merge scores 1.
    let def = test_def();
    let a = ball_at(0, 1, -14_000, 100_000, 28_000);
    let b = ball_at(1, 1, 14_000, 100_000, 28_000);
    let mut reg = BallRegistry { balls: vec![a, b], next_id: 2 };
    let touches = vec![(0u64, 1u64)];
    let events = combine_balls_touched(&mut reg, &def, &touches);
    assert_eq!(events.len(), 1);
    match events[0] {
        BallSpawnEvent::Combine((x, y), Some(lv)) => {
            assert_eq!((x, y), (0, 100_000));
            assert_eq!(lv, BallLevel(2));
        },
        _ => panic!("expected a promoting combine event"),
    }
    assert_eq!(score_of_spawn_event(&events[0], BallLevel(11)), 1);
    assert_eq!(reg.balls.len(), 1);
    let newborn = &reg.balls[0];
    assert_eq!(newborn.id, 2);
    assert_eq!(newborn.level, BallLevel(2));
    assert_eq!(newborn.radius, 20_497);
    assert_eq!(newborn.growing, Some(BallGrowing { sec_ms: 0, sec_max_ms: 1000 }));
}

#[test]
fn top_level_merge_spawns_nothing() {
    // Merging two top-level balls removes both, spawns nothing and scores
    // the square of the top level.
    let def = test_def();
    let a = ball_at(5, 11, -100_000, 0, 176_000);
    let b = ball_at(6, 11, 100_000, 0, 176_000);
    let mut reg = BallRegistry { balls: vec![a, b], next_id: 7 };
    let events = combine_balls_touched(&mut reg, &def, &vec![(5u64, 6u64)]);
    assert_eq!(events.len(), 1);
    match events[0] {
        BallSpawnEvent::Combine(_, None) => {},
        _ => panic!("expected a vanishing combine event"),
    }
    assert_eq!(reg.balls.len(), 0);
    assert_eq!(score_of_spawn_event(&events[0], BallLevel(11)), 121);
}

#[test]
fn mismatched_touch_is_dropped() {
    // A touch whose balls record different levels is ignored; both remain.
    let def = test_def();
    let a = ball_at(0, 1, 0, 0, 28_000);
    let b = ball_at(1, 2, 60_000, 0, 34_500);
    let mut reg = BallRegistry { balls: vec![a, b], next_id: 2 };
    let events = combine_balls_touched(&mut reg, &def, &vec![(0u64, 1u64)]);
    assert_eq!(events.len(), 0);
    assert_eq!(reg.balls.len(), 2);
}

#[test]
fn registry_unknown_id() {
    let def = test_def();
    let mut reg = BallRegistry { balls: vec![], next_id: 0 };
    assert_eq!(reg.despawn(&def, 99), Err(RegistryError::UnknownId));
    assert_eq!(reg.clear_dropping(&def, 99), Err(RegistryError::UnknownId));
    assert_eq!(reg.update_motion(&def, 99, 0, 0, 0, 0), Err(RegistryError::UnknownId));
}

#[test]
fn registry_spawn_despawn_and_flags() {
    let def = test_def();
    let mut reg = BallRegistry { balls: vec![], next_id: 0 };
    let a = reg.spawn_dropped(&def, BallLevel(1), 0, 100_000);
    assert_eq!(a, 0);
    assert!(reg.balls[0].dropping);
    assert_eq!(reg.balls[0].radius, 28_000);
    assert_eq!(reg.clear_dropping(&def, a), Ok(()));
    assert!(!reg.balls[0].dropping);
    assert_eq!(reg.set_dropping(&def, a), Ok(()));
    assert!(reg.balls[0].dropping);
    assert_eq!(reg.clear_dropping(&def, a), Ok(()));
    let b = reg.spawn_growing(&def, BallLevel(2), 50_000, 50_000, 1000);
    assert_eq!(b, 1);
    assert_eq!(reg.balls[1].radius, 20_497);
    assert_eq!(reg.update_motion(&def, b, 60_000, 40_000, 100, -100), Ok(()));
    assert_eq!((reg.balls[1].x, reg.balls[1].y), (60_000, 40_000));
    assert_eq!((reg.balls[1].vx, reg.balls[1].vy), (100, -100));
    assert_eq!(reg.despawn(&def, a), Ok(()));
    assert_eq!(reg.len(), 1);
    assert_eq!(reg.balls[0].id, b);
    assert_eq!(reg.despawn(&def, a), Err(RegistryError::UnknownId));
}

#[test]
fn growth_hits_final_radius_exactly() {
    // Reaching t == duration completes the growth: the radius is set to
    // the final radius exactly and the growth record is removed.
    let def = test_def();
    let mut b = ball_at(0, 2, 0, 0, 20_497);
    b.growing = Some(BallGrowing { sec_ms: 0, sec_max_ms: 1000 });
    let mut reg = BallRegistry { balls: vec![b], next_id: 1 };
    reg.tick_growth(&def, 999);
    assert_eq!(reg.balls[0].growing, Some(BallGrowing { sec_ms: 999, sec_max_ms: 1000 }));
    reg.tick_growth(&def, 1);
    assert_eq!(reg.balls[0].radius, 34_500);
    assert_eq!(reg.balls[0].growing, None);
    // A further tick changes nothing.
    reg.tick_growth(&def, 1);
    assert_eq!(reg.balls[0].radius, 34_500);
    assert_eq!(reg.balls[0].growing, None);
}

#[test]
fn growth_interpolates_linearly() {
    let def = test_def();
    let mut b = ball_at(0, 2, 0, 0, 20_497);
    b.growing = Some(BallGrowing { sec_ms: 0, sec_max_ms: 1000 });
    let mut reg = BallRegistry { balls: vec![b], next_id: 1 };
    reg.tick_growth(&def, 500);
    // Half way: 20497 + 500 * (34500 - 20497) / 1000.
    assert_eq!(reg.balls[0].radius, 20_497 + 7_001);
}

#[test]
fn velocity_clamp_caps_speed() {
    // A 3-4-5 velocity above the cap scales to exactly the cap.
    let def = test_def();
    let mut b = ball_at(0, 1, 0, 0, 28_000);
    b.vx = 4_000_000;
    b.vy = -3_000_000;
    let mut reg = BallRegistry { balls: vec![b], next_id: 1 };
    reg.clamp_velocities(&def);
    assert_eq!(reg.balls[0].vx, 2_400_000);
    assert_eq!(reg.balls[0].vy, -1_800_000);
    let (vx, vy) = (reg.balls[0].vx, reg.balls[0].vy);
    assert!(vx * vx + vy * vy <= def.max_velocity * def.max_velocity);
    // A slow ball is untouched.
    let mut slow = ball_at(1, 1, 0, 0, 28_000);
    slow.vx = 1000;
    let mut reg2 = BallRegistry { balls: vec![slow], next_id: 2 };
    reg2.clamp_velocities(&def);
    assert_eq!(reg2.balls[0].vx, 1000);
}

#[test]
fn cursor_clamp_saturates_exactly() {
    // Spamming full right deflection pins the cursor to exactly half the
    // interior width.
    let speed = 20_000i64;
    let iw = 340_000i64;
    let mut x = 0i64;
    for _ in 0..100 {
        x = move_puppeteer(x, 1000, speed, iw);
        assert!(x <= iw / 2);
    }
    assert_eq!(x, iw / 2);
    x = move_puppeteer(x, 1000, speed, iw);
    assert_eq!(x, iw / 2);
    for _ in 0..100 {
        x = move_puppeteer(x, -1000, speed, iw);
    }
    assert_eq!(x, -(iw / 2));
}

#[test]
fn cursor_height_follows_cast() {
    let def = test_def();
    // floor_y = (500000 + 30000) / 2 + 0 + 50000 = 315000.
    let y_no_hit = puppet_player_pos(&def, true, BallLevel(1), 10_264_000, 0);
    assert_eq!(y_no_hit, 10_264_000 + 28_000);
    let y_deep = puppet_player_pos(&def, true, BallLevel(1), 10_264_000, 4_000_000_000);
    assert_eq!(y_deep, 315_000);
    // Without a preview ball the radius is not added.
    let y_locked = puppet_player_pos(&def, false, BallLevel(1), 10_264_000, 10_000_000);
    assert_eq!(y_locked, 315_000);
}

#[test]
fn hold_swaps_next_and_held() {
    let mut rng = rand_chacha::ChaCha8Rng::seed_from_u64(7);
    let mut player = Player::new(20_000, BallLevel(3), BallLevel(5));
    assert!(player.can_drop);
    player.hold(&mut rng);
    assert_eq!(player.hold_ball, Some(BallLevel(3)));
    let drawn = player.next_ball_level;
    assert!((1..=5).contains(&drawn.0));
    player.hold(&mut rng);
    assert_eq!(player.next_ball_level, BallLevel(3));
    assert_eq!(player.hold_ball, Some(drawn));
}

#[test]
fn hold_is_noop_while_locked() {
    let mut rng = rand_chacha::ChaCha8Rng::seed_from_u64(7);
    let mut player = Player::new(20_000, BallLevel(3), BallLevel(5));
    player.can_drop = false;
    player.hold(&mut rng);
    assert_eq!(player.next_ball_level, BallLevel(3));
    assert_eq!(player.hold_ball, None);
    assert!(!player.can_drop);
}

#[test]
fn score_saturates_and_never_decreases() {
    let mut player = Player::new(20_000, BallLevel(1), BallLevel(5));
    player.add_score(10);
    assert_eq!(player.score, 10);
    player.add_score(0);
    assert_eq!(player.score, 10);
    player.score = u32::MAX - 1;
    player.add_score(5);
    assert_eq!(player.score, u32::MAX);
}

#[test]
fn bell_peaks_at_half_second() {
    assert_eq!(bell_micro(500), 398_942);
    assert_eq!(bell_micro(0), 134);
    assert_eq!(bell_micro(1000), 134);
    assert_eq!(bell_micro(-250), 134);
    assert_eq!(bell_micro(2000), 134);
    // Between nodes the bell interpolates linearly: half way from node 10
    // to node 11.
    assert_eq!(bell_micro(525), 398_942 - (398_942 - 368_270) * 25 / 50);
}

#[test]
fn shake_two_equal_envelopes_move_like_one() {
    // The envelopes combine by maximum, not by sum: a duplicated envelope
    // leaves the bottle offset exactly unchanged.
    let mut one = ShakeState::new();
    one.add(0, 1000);
    one.tick(500);
    let mut two = ShakeState::new();
    two.add(0, 1000);
    two.add(0, 1000);
    two.tick(500);
    let k = 60_000i64;
    assert_eq!(one.offset_y(k), two.offset_y(k));
    assert!(one.offset_y(k) > 0);
}

#[test]
fn shake_envelopes_expire_after_a_second() {
    let mut s = ShakeState::new();
    s.add(0, 1000);
    s.tick(999);
    assert_eq!(s.envelopes.len(), 1);
    s.tick(1);
    assert_eq!(s.envelopes.len(), 0);
    assert_eq!(s.offset_y(60_000), 0);
}

#[test]
fn session_state_machine_paths() {
    assert_eq!(
        session_transition(GameScreenState::Inactive, SessionSignal::Activate),
        GameScreenState::Init
    );
    assert_eq!(
        session_transition(GameScreenState::Init, SessionSignal::InitDone),
        GameScreenState::Playing
    );
    assert_eq!(
        session_transition(GameScreenState::Playing, SessionSignal::PauseInput),
        GameScreenState::Paused
    );
    assert_eq!(
        session_transition(GameScreenState::Paused, SessionSignal::PopupResume),
        GameScreenState::Playing
    );
    assert_eq!(
        session_transition(GameScreenState::Paused, SessionSignal::PopupRestart),
        GameScreenState::Restart
    );
    assert_eq!(
        session_transition(GameScreenState::Restart, SessionSignal::RestartDone),
        GameScreenState::Init
    );
    assert_eq!(
        session_transition(GameScreenState::Playing, SessionSignal::AreaEscape),
        GameScreenState::GameOver
    );
    assert_eq!(
        session_transition(GameScreenState::GameOver, SessionSignal::PopupRestart),
        GameScreenState::Init
    );
    assert_eq!(
        session_transition(GameScreenState::Paused, SessionSignal::PopupGoToTitle),
        GameScreenState::Inactive
    );
    assert_eq!(
        session_transition(GameScreenState::GameOver, SessionSignal::PopupGoToTitle),
        GameScreenState::Inactive
    );
    // Meaningless signals change nothing.
    assert_eq!(
        session_transition(GameScreenState::Playing, SessionSignal::PopupResume),
        GameScreenState::Playing
    );
    assert_eq!(
        session_transition(GameScreenState::Inactive, SessionSignal::PauseInput),
        GameScreenState::Inactive
    );
}

#[test]
fn pause_popup_gates_inputs() {
    let mut popup = ControllerPausePopup::new();
    // Resume works at once; restart and back-to-title wait for the
    // suppression window.
    assert_eq!(popup.act(PausePopupInput::Resume), Some(PauseOutcome::ResumePlaying));
    assert_eq!(popup.act(PausePopupInput::Restart), None);
    assert!(!popup.delayed_messages_visible());
    popup.tick(1500);
    assert!(popup.delayed_messages_visible());
    assert_eq!(popup.act(PausePopupInput::Restart), Some(PauseOutcome::RestartGame));
    assert_eq!(popup.act(PausePopupInput::GoToTitle), Some(PauseOutcome::GoToTitle));
    // The back-to-title long press completes after three held seconds.
    assert!(!popup.long_press_finished());
    popup.press_select();
    popup.tick(2999);
    assert!(!popup.long_press_finished());
    popup.tick(1);
    assert!(popup.long_press_finished());
}

#[test]
fn gameover_popup_gates_inputs() {
    let mut popup = ControllerGameOverPopup::new();
    assert_eq!(popup.act(GameOverPopupInput::Restart), None);
    popup.tick(1500);
    assert_eq!(popup.act(GameOverPopupInput::Restart), Some(GameOverOutcome::RestartGame));
    assert_eq!(popup.act(GameOverPopupInput::GoToTitle), Some(GameOverOutcome::GoToTitle));
}

#[test]
fn scores_sorted_and_truncated() {
    let mut scores = Scores::new();
    let key = GameCond::new("kao", "0.1.0");
    for v in [5u32, 1, 9, 3, 9, 7, 2, 8, 4, 6, 0, 10] {
        scores.push(&key, Score::new(v));
    }
    let bucket = scores.get(&key).expect("bucket exists");
    assert_eq!(bucket.len(), 10);
    let values: Vec<u32> = bucket.iter().map(|s| s.score).collect();
    assert_eq!(values, vec![10, 9, 9, 8, 7, 6, 5, 4, 3, 2]);
    assert_eq!(scores.get_highest(&key).map(|s| s.score), Some(10));
    // Other buckets are untouched.
    let other = GameCond::new("other", "0.1.0");
    assert!(scores.get(&other).is_none());
    scores.push(&other, Score::new(42));
    assert_eq!(scores.get_highest(&other).map(|s| s.score), Some(42));
    assert_eq!(scores.get_highest(&key).map(|s| s.score), Some(10));
}

#[test]
fn scale_doubles_balls_only() {
    // Scaling by 2 with only the balls selected doubles each level's
    // radius and view rectangle, leaves the bottle untouched, and the
    // result is still a valid definition.
    let mut def = test_def();
    scale_definition(&mut def, 2000, true, false);
    assert_eq!(def.balls[0].physics_radius, 56_000);
    assert_eq!(def.balls[0].view_width, 112_000);
    assert_eq!(def.balls[0].view_height, 112_000);
    assert_eq!(def.balls[10].physics_radius, 352_000);
    assert_eq!(def.bottle.inner_width, 340_000);
    assert_eq!(def.bottle.thickness, 30_000);
    assert!(def.check().is_ok());
}

#[test]
fn scale_bottle_only() {
    let mut def = test_def();
    scale_definition(&mut def, 500, false, true);
    assert_eq!(def.bottle.inner_width, 170_000);
    assert_eq!(def.bottle.inner_height, 250_000);
    assert_eq!(def.bottle.thickness, 15_000);
    assert_eq!(def.balls[0].physics_radius, 28_000);
}

#[test]
fn tick_merges_and_scores() {
    // End to end: one tick resolves a level-1 contact pair into a growing
    // level-2 ball and one point of score.
    let def = test_def();
    let a = ball_at(0, 1, -14_000, 100_000, 28_000);
    let b = ball_at(1, 1, 14_000, 100_000, 28_000);
    let mut world = playing_world(def, vec![a, b], 2);
    let mut rng = rand_chacha::ChaCha8Rng::seed_from_u64(3);
    let out = world.tick(&vec![], &vec![(0, 1)], 0, 16, &mut rng);
    assert_eq!(out.touches, vec![(0, 1)]);
    assert!(!out.game_over);
    assert_eq!(world.player.score, 1);
    assert_eq!(world.reg.balls.len(), 1);
    assert_eq!(world.reg.balls[0].level, BallLevel(2));
    // Sixteen milliseconds of growth: 20497 + 16 * (34500 - 20497) / 1000.
    assert_eq!(world.reg.balls[0].radius, 20_497 + 224);
    assert_eq!(world.state, GameScreenState::Playing);
}

#[test]
fn tick_drop_sets_gate_and_contact_clears_it() {
    let def = test_def();
    let mut world = playing_world(def, vec![], 0);
    let mut rng = rand_chacha::ChaCha8Rng::seed_from_u64(9);
    // Dropping spawns one dropping-flagged ball and locks further drops;
    // the cast from above the bottle rests the cursor near its floor.
    let out = world.tick(&vec![PlayerInput::Drop], &vec![], 10_500_000, 16, &mut rng);
    assert!(!out.game_over);
    assert_eq!(world.reg.balls.len(), 1);
    assert!(world.reg.balls[0].dropping);
    assert!(!world.player.can_drop);
    let id = world.reg.balls[0].id;
    // A second drop while locked is ignored, and the contactless ball
    // keeps its flag.
    world.tick(&vec![PlayerInput::Drop], &vec![], 10_500_000, 16, &mut rng);
    assert_eq!(world.reg.balls.len(), 1);
    assert!(world.reg.balls[0].dropping);
    assert!(!world.player.can_drop);
    // Its first contact (here with a wall id) clears the flag and unlocks.
    world.tick(&vec![], &vec![(id, 1_000_000)], 0, 16, &mut rng);
    assert!(!world.reg.balls[0].dropping);
    assert!(world.player.can_drop);
}

#[test]
fn tick_drop_event_is_exact() {
    // One open-gate Drop emits exactly one Drop event: the ball appears at
    // the tick's cursor height with at most half a unit of x jitter, and
    // carries the level the player showed.
    let def = test_def();
    let mut world = playing_world(def, vec![], 0);
    let mut rng = rand_chacha::ChaCha8Rng::seed_from_u64(21);
    let out = world.tick(&vec![PlayerInput::Drop], &vec![], 10_500_000, 16, &mut rng);
    assert_eq!(out.events.len(), 1);
    match out.events[0] {
        BallSpawnEvent::Drop((x, y), lv) => {
            // floor_y = (500000 + 30000)/2 + 50000; the cast lands below it.
            assert_eq!(y, 315_000);
            assert!((-500..=500).contains(&x));
            assert_eq!(lv, BallLevel(3));
            assert_eq!(world.reg.balls[0].x, x);
            assert_eq!(world.reg.balls[0].y, y);
            assert_eq!(world.reg.balls[0].level, lv);
            assert_eq!(world.reg.balls[0].radius, 42_000);
        },
        _ => panic!("expected a drop event"),
    }
    // A locked Drop emits nothing.
    let out2 = world.tick(&vec![PlayerInput::Drop], &vec![], 10_500_000, 16, &mut rng);
    assert_eq!(out2.events.len(), 0);
    assert_eq!(world.reg.balls.len(), 1);
}

#[test]
fn tick_pause_and_move() {
    let def = test_def();
    let mut world = playing_world(def, vec![], 0);
    let mut rng = rand_chacha::ChaCha8Rng::seed_from_u64(2);
    let out = world.tick(
        &vec![PlayerInput::Move(1000), PlayerInput::Pause],
        &vec![],
        0,
        16,
        &mut rng,
    );
    assert!(!out.game_over);
    assert_eq!(world.cursor_x, 20_000);
    assert_eq!(world.state, GameScreenState::Paused);
}

#[test]
fn game_over_on_area_escape_records_score() {
    // A ball above the area's top edge ends the game within one tick, tags
    // the ball, and the final score lands in the persistent table.
    let def = test_def();
    let escaped = ball_at(4, 2, 0, 10_001_000, 34_500);
    let mut world = playing_world(def, vec![escaped], 5);
    world.player.score = 77;
    let mut rng = rand_chacha::ChaCha8Rng::seed_from_u64(4);
    let out = world.tick(&vec![], &vec![], 0, 16, &mut rng);
    assert!(out.game_over);
    assert_eq!(world.state, GameScreenState::GameOver);
    assert_eq!(world.protruded, Some(4));
    let mut scores = Scores::new();
    let key = GameCond::new("kao", "0.1.0");
    world.record_score(&mut scores, &key);
    assert_eq!(scores.get_highest(&key).map(|s| s.score), Some(77));
}

#[test]
fn world_new_draws_first_ball() {
    let def = test_def();
    let mut rng = rand_chacha::ChaCha8Rng::seed_from_u64(11);
    let world = GameWorld::new(def, &mut rng);
    assert!(world.player.can_drop);
    assert!((1..=5).contains(&world.player.next_ball_level.0));
    assert_eq!(world.player.score, 0);
    assert_eq!(world.state, GameScreenState::Inactive);
}

#[test]
fn config_volume_is_scaled_fraction() {
    let config = Config::new(50, 25, String::from("kao"), String::from("ron/kao.game.ron"));
    assert_eq!(config.get_bgm_volume(1_000_000), 500_000);
    assert_eq!(config.get_se_volume(1_000_000), 250_000);
    assert_eq!(config.get_se_volume(0), 0);
}

#[test]
fn linear_envelope_samples() {
    let single = Linear::new(vec![7]);
    assert_eq!(single.get(0), 7);
    assert_eq!(single.get(5000), 7);
    let ramp = Linear::new(vec![0, 1000]);
    assert_eq!(ramp.get(0), 0);
    assert_eq!(ramp.get(500), 500);
    assert_eq!(ramp.get(1000), 1000);
    let fall = Linear::new(vec![1000, 0]);
    assert_eq!(fall.get(250), 750);
    let tent = Linear::new(vec![0, 1000, 0]);
    assert_eq!(tent.get(750), 500);
}

#[test]
fn rand_ranges_cover_their_span() {
    let range = RandRange { lo: -1000, hi: 1000 };
    assert_eq!(range.rand(0), -1000);
    assert_eq!(range.rand(u32::MAX), 1000);
    assert_eq!(RandRange::rand_index(2, 5, 9), 3);
    assert_eq!(RandRange::rand_index(4, 4, 77), 4);
}

#[test]
fn clamp_behaves() {
    assert_eq!(clamp_i64(5, 0, 10), 5);
    assert_eq!(clamp_i64(-5, 0, 10), 0);
    assert_eq!(clamp_i64(15, 0, 10), 10);
}

#[test]
fn bottle_geometry() {
    let def = test_def();
    assert_eq!(def.bottle.outer_size(), (400_000, 530_000));
    assert_eq!(def.bottle.bottom_size(), (400_000, 30_000));
    assert_eq!(def.bottle.side_size(), (30_000, 530_000));
    assert_eq!(def.bottle.left_top(), (-200_000, 265_000));
    assert_eq!(def.bottle.right_bottom(), (200_000, -265_000));
}

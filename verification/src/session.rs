//! The session controller: the screen-level state machine and the pause and
//! game-over popup timers, together with the camera nudge toward a ball that
//! escaped the play area.

use vstd::prelude::*;

verus! {

/// Screen-level states of one game session.
#[derive(Clone, Copy, Debug, PartialEq, Eq, Structural)]
pub enum GameScreenState {
    /// No session is running.
    Inactive,
    /// Session entities are being spawned.
    Init,
    /// The game is live; physics runs.
    Playing,
    /// The pause popup is up; physics is paused.
    Paused,
    /// The game-over popup is up; physics is paused; the score is recorded.
    GameOver,
    /// In-session entities are being despawned before a fresh `Init`.
    Restart,
}

/// What can drive the session state machine.
#[derive(Clone, Copy, Debug, PartialEq, Eq, Structural)]
pub enum SessionSignal {
    /// A session starts.
    Activate,
    /// Session entities are spawned; play begins at once.
    InitDone,
    /// The player pressed pause while playing.
    PauseInput,
    /// A ball's center left the play area.
    AreaEscape,
    /// The pause popup asked to resume.
    PopupResume,
    /// A popup asked to restart the session.
    PopupRestart,
    /// A popup asked to leave for the title screen.
    PopupGoToTitle,
    /// Restart cleanup is done.
    RestartDone,
}

/// The session state machine of one screen: `Inactive -> Init -> Playing`,
/// `Playing <-> Paused`, `Playing -> GameOver`, back to `Init` through
/// `Restart`, and out to the title screen — `Inactive` — from either popup.
/// A signal that has no meaning in the current state changes nothing.
pub open spec fn spec_session_transition(
    state: GameScreenState,
    signal: SessionSignal,
) -> GameScreenState {
    match (state, signal) {
        (GameScreenState::Inactive, SessionSignal::Activate) => GameScreenState::Init,
        (GameScreenState::Init, SessionSignal::InitDone) => GameScreenState::Playing,
        (GameScreenState::Playing, SessionSignal::PauseInput) => GameScreenState::Paused,
        (GameScreenState::Playing, SessionSignal::AreaEscape) => GameScreenState::GameOver,
        (GameScreenState::Paused, SessionSignal::PopupResume) => GameScreenState::Playing,
        (GameScreenState::Paused, SessionSignal::PopupRestart) => GameScreenState::Restart,
        (GameScreenState::Paused, SessionSignal::PopupGoToTitle) => GameScreenState::Inactive,
        (GameScreenState::GameOver, SessionSignal::PopupRestart) => GameScreenState::Init,
        (GameScreenState::GameOver, SessionSignal::PopupGoToTitle) => GameScreenState::Inactive,
        (GameScreenState::Restart, SessionSignal::RestartDone) => GameScreenState::Init,
        _ => state,
    }
}

/// Physics runs only while playing.
pub open spec fn spec_physics_running(state: GameScreenState) -> bool {
    state is Playing
}

/// Applies one signal to the session state machine.
pub fn session_transition(state: GameScreenState, signal: SessionSignal)
    -> (r: GameScreenState)
    ensures
        r == spec_session_transition(state, signal),
{
    match (state, signal) {
        (GameScreenState::Inactive, SessionSignal::Activate) => GameScreenState::Init,
        (GameScreenState::Init, SessionSignal::InitDone) => GameScreenState::Playing,
        (GameScreenState::Playing, SessionSignal::PauseInput) => GameScreenState::Paused,
        (GameScreenState::Playing, SessionSignal::AreaEscape) => GameScreenState::GameOver,
        (GameScreenState::Paused, SessionSignal::PopupResume) => GameScreenState::Playing,
        (GameScreenState::Paused, SessionSignal::PopupRestart) => GameScreenState::Restart,
        (GameScreenState::Paused, SessionSignal::PopupGoToTitle) => GameScreenState::Inactive,
        (GameScreenState::GameOver, SessionSignal::PopupRestart) => GameScreenState::Init,
        (GameScreenState::GameOver, SessionSignal::PopupGoToTitle) => GameScreenState::Inactive,
        (GameScreenState::Restart, SessionSignal::RestartDone) => GameScreenState::Init,
        _ => state,
    }
}

/// How long popup inputs are suppressed after a popup appears.
pub const INPUT_SUPPRESS_MS: u64 = 1500;

/// How long the back-to-title press must be held.
pub const LONG_PRESS_MS: u64 = 3000;

/// Inputs the pause popup understands.
#[derive(Clone, Copy, Debug, PartialEq, Eq, Structural)]
pub enum PausePopupInput {
    Resume,
    Restart,
    GoToTitle,
}

/// What an accepted pause popup input asks the session to do.
#[derive(Clone, Copy, Debug, PartialEq, Eq, Structural)]
pub enum PauseOutcome {
    /// Back to `Playing`.
    ResumePlaying,
    /// To `Restart`.
    RestartGame,
    /// Leave the session for the title screen.
    GoToTitle,
}

/// Timers of the pause popup: the input suppressor and the optional
/// long-press countdown.
pub struct ControllerPausePopup {
    /// Time since the popup appeared, saturated at the suppression window.
    pub input_suppresser_ms: u64,
    /// Time the back-to-title press has been held, if one is in progress.
    pub long_press_ms: Option<u64>,
}

impl ControllerPausePopup {
    /// A popup that just appeared.
    pub fn new() -> (r: ControllerPausePopup)
        ensures
            r.input_suppresser_ms == 0,
            r.long_press_ms is None,
    {
        ControllerPausePopup { input_suppresser_ms: 0, long_press_ms: None }
    }

    /// The suppression window has passed.
    pub open spec fn spec_suppresser_finished(&self) -> bool {
        self.input_suppresser_ms >= INPUT_SUPPRESS_MS
    }

    /// Advances both timers, saturating at their targets.
    pub fn tick(&mut self, dt_ms: u64)
        ensures
            final(self).input_suppresser_ms == if old(self).input_suppresser_ms + dt_ms
                <= INPUT_SUPPRESS_MS {
                old(self).input_suppresser_ms + dt_ms
            } else {
                INPUT_SUPPRESS_MS as int
            },
            final(self).long_press_ms == match old(self).long_press_ms {
                Some(t) => Some((if t + dt_ms <= LONG_PRESS_MS {
                    (t + dt_ms) as u64
                } else {
                    LONG_PRESS_MS
                }) as u64),
                None => None::<u64>,
            },
    {
        self.input_suppresser_ms = if dt_ms <= INPUT_SUPPRESS_MS
            && self.input_suppresser_ms <= INPUT_SUPPRESS_MS - dt_ms {
            self.input_suppresser_ms + dt_ms
        } else {
            INPUT_SUPPRESS_MS
        };
        self.long_press_ms = match self.long_press_ms {
            Some(t) => Some(
                if dt_ms <= LONG_PRESS_MS && t <= LONG_PRESS_MS - dt_ms {
                    t + dt_ms
                } else {
                    LONG_PRESS_MS
                },
            ),
            None => None,
        };
    }

    /// The back-to-title press begins; a press already in progress is kept.
    pub fn press_select(&mut self)
        ensures
            final(self).long_press_ms == match old(self).long_press_ms {
                Some(t) => Some(t),
                None => Some(0u64),
            },
            final(self).input_suppresser_ms == old(self).input_suppresser_ms,
    {
        if self.long_press_ms.is_none() {
            self.long_press_ms = Some(0);
        }
    }

    /// The long press has been held to completion.
    pub fn long_press_finished(&self) -> (r: bool)
        ensures
            r == match self.long_press_ms {
                Some(t) => t >= LONG_PRESS_MS,
                None => false,
            },
    {
        match self.long_press_ms {
            Some(t) => t >= LONG_PRESS_MS,
            None => false,
        }
    }

    /// The popup's delayed message lines are visible once the suppression
    /// window has passed.
    pub fn delayed_messages_visible(&self) -> (r: bool)
        ensures
            r == self.spec_suppresser_finished(),
    {
        self.input_suppresser_ms >= INPUT_SUPPRESS_MS
    }

    /// What one pause popup input does: resume is always accepted; restart
    /// and back-to-title only once the suppression window has passed.
    pub fn act(&self, input: PausePopupInput) -> (r: Option<PauseOutcome>)
        ensures
            r == match input {
                PausePopupInput::Resume => Some(PauseOutcome::ResumePlaying),
                PausePopupInput::Restart => if self.spec_suppresser_finished() {
                    Some(PauseOutcome::RestartGame)
                } else {
                    None::<PauseOutcome>
                },
                PausePopupInput::GoToTitle => if self.spec_suppresser_finished() {
                    Some(PauseOutcome::GoToTitle)
                } else {
                    None::<PauseOutcome>
                },
            },
    {
        match input {
            PausePopupInput::Resume => Some(PauseOutcome::ResumePlaying),
            PausePopupInput::Restart => {
                if self.input_suppresser_ms >= INPUT_SUPPRESS_MS {
                    Some(PauseOutcome::RestartGame)
                } else {
                    None
                }
            },
            PausePopupInput::GoToTitle => {
                if self.input_suppresser_ms >= INPUT_SUPPRESS_MS {
                    Some(PauseOutcome::GoToTitle)
                } else {
                    None
                }
            },
        }
    }
}

/// Inputs the game-over popup understands.
#[derive(Clone, Copy, Debug, PartialEq, Eq, Structural)]
pub enum GameOverPopupInput {
    Restart,
    GoToTitle,
}

/// What an accepted game-over popup input asks the session to do.
#[derive(Clone, Copy, Debug, PartialEq, Eq, Structural)]
pub enum GameOverOutcome {
    /// Straight back to `Init`.
    RestartGame,
    /// Leave the session for the title screen.
    GoToTitle,
}

/// Timer of the game-over popup: its input suppressor.
pub struct ControllerGameOverPopup {
    /// Time since the popup appeared, saturated at the suppression window.
    pub input_suppresser_ms: u64,
}

impl ControllerGameOverPopup {
    /// A popup that just appeared.
    pub fn new() -> (r: ControllerGameOverPopup)
        ensures
            r.input_suppresser_ms == 0,
    {
        ControllerGameOverPopup { input_suppresser_ms: 0 }
    }

    /// The suppression window has passed.
    pub open spec fn spec_suppresser_finished(&self) -> bool {
        self.input_suppresser_ms >= INPUT_SUPPRESS_MS
    }

    /// Advances the suppressor, saturating at its window.
    pub fn tick(&mut self, dt_ms: u64)
        ensures
            final(self).input_suppresser_ms == if old(self).input_suppresser_ms + dt_ms
                <= INPUT_SUPPRESS_MS {
                old(self).input_suppresser_ms + dt_ms
            } else {
                INPUT_SUPPRESS_MS as int
            },
    {
        self.input_suppresser_ms = if dt_ms <= INPUT_SUPPRESS_MS
            && self.input_suppresser_ms <= INPUT_SUPPRESS_MS - dt_ms {
            self.input_suppresser_ms + dt_ms
        } else {
            INPUT_SUPPRESS_MS
        };
    }

    /// What one game-over popup input does, gated by the suppression window.
    pub fn act(&self, input: GameOverPopupInput) -> (r: Option<GameOverOutcome>)
        ensures
            r == if self.spec_suppresser_finished() {
                match input {
                    GameOverPopupInput::Restart => Some(GameOverOutcome::RestartGame),
                    GameOverPopupInput::GoToTitle => Some(GameOverOutcome::GoToTitle),
                }
            } else {
                None::<GameOverOutcome>
            },
    {
        if self.input_suppresser_ms >= INPUT_SUPPRESS_MS {
            match input {
                GameOverPopupInput::Restart => Some(GameOverOutcome::RestartGame),
                GameOverPopupInput::GoToTitle => Some(GameOverOutcome::GoToTitle),
            }
        } else {
            None
        }
    }
}

/// How far the camera must move along one axis so that a ball at `ball_pos`
/// with radius `ball_r` fits inside a view of half-width `half_w` centered
/// at `pos_cur`; the camera stays put when the ball already fits.
pub fn offset_to_go_to_inside(pos_cur: i64, half_w: i64, ball_pos: i64, ball_r: i64)
    -> (r: i64)
    requires
        -2_000_000_000 <= pos_cur <= 2_000_000_000,
        0 <= half_w <= 2_000_000_000,
        -2_000_000_000 <= ball_pos <= 2_000_000_000,
        0 <= ball_r <= 2_000_000_000,
    ensures
        r == if pos_cur + half_w < ball_pos + ball_r {
            ball_pos + ball_r - half_w
        } else if pos_cur - half_w > ball_pos - ball_r {
            ball_pos - ball_r + half_w
        } else {
            pos_cur as int
        },
{
    if pos_cur + half_w < ball_pos + ball_r {
        pos_cur + (ball_pos + ball_r) - (pos_cur + half_w)
    } else if pos_cur - half_w > ball_pos - ball_r {
        pos_cur + (ball_pos - ball_r) - (pos_cur - half_w)
    } else {
        pos_cur
    }
}

} // verus!

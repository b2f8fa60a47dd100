//! The game-state machine — paused, running, or starting a new game — the
//! key handling that drives it, and the audio mute toggle.

use vstd::prelude::*;

verus! {

/// What the game is doing: sitting in the menu, playing, or about to
/// start a new round.
#[derive(Clone, Copy, PartialEq, Eq, Structural, Debug, Hash)]
pub enum GameState {
    Paused,
    Running,
    Start,
}

impl Default for GameState {
    /// The game opens paused, in the menu.
    fn default() -> (s: GameState)
        ensures
            s == GameState::Paused,
    {
        GameState::Paused
    }
}

/// What the menu shows: always the prompt to start a new game, and — once
/// any score was made — the prompt to resume.
#[derive(Clone, Copy, PartialEq, Eq, Structural, Debug)]
pub enum MenuText {
    StartOnly,
    StartAndResume,
}

/// One menu frame while paused: the resume keys return to the running
/// game, the start key begins a new one (and wins when both are down),
/// and the menu text offers resuming only once any score was made.
pub fn main_menu_paused(resume_pressed: bool, start_pressed: bool, score_raw: i64) -> (r: (
    Option<GameState>,
    MenuText,
))
    ensures
        r.0 == if start_pressed {
            Some(GameState::Start)
        } else if resume_pressed {
            Some(GameState::Running)
        } else {
            None::<GameState>
        },
        r.1 == if score_raw > 0 {
            MenuText::StartAndResume
        } else {
            MenuText::StartOnly
        },
{
    let next: Option<GameState> = if start_pressed {
        Some(GameState::Start)
    } else if resume_pressed {
        Some(GameState::Running)
    } else {
        None
    };
    let text: MenuText = if score_raw > 0 {
        MenuText::StartAndResume
    } else {
        MenuText::StartOnly
    };
    (next, text)
}

/// One frame of key handling while running: the pause keys return to the
/// menu.
pub fn unpaused(pause_pressed: bool) -> (r: Option<GameState>)
    ensures
        r == if pause_pressed {
            Some(GameState::Paused)
        } else {
            None::<GameState>
        },
{
    if pause_pressed {
        Some(GameState::Paused)
    } else {
        None
    }
}

/// The mute key toggles whether the audio is muted.
pub fn mute(muted: bool, mute_pressed: bool) -> (r: bool)
    ensures
        r == if mute_pressed {
            !muted
        } else {
            muted
        },
{
    if mute_pressed {
        !muted
    } else {
        muted
    }
}

} // verus!

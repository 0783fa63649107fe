//! The states of the program and what each of them asks its host to run.

use vstd::prelude::*;

verus! {

/// A state of the program.
#[derive(Clone, Copy, Debug, PartialEq, Eq, Structural)]
pub enum StateType {
    /// The menu is shown.
    Menu,
    /// The level with the given number is played.
    Playing(usize),
    /// The player is asked whether to leave.
    ExitConfirm,
    /// The instructions are shown.
    Help,
    /// The program ends.
    Quit,
}

/// What a state asks its host to run.
#[derive(Clone, Copy, Debug, PartialEq, Eq, Structural)]
pub enum Screen {
    /// Silence the music and run the menu until it names the next state.
    Menu,
    /// Load the level with the given number and run it until it names the
    /// next state.
    Level(usize),
    /// Run nothing: the next state is `Quit`.
    Leave,
}

/// The program in one of its states.
#[derive(Clone, Copy, Debug)]
pub struct GameState {
    pub state: StateType,
}

impl GameState {
    /// What a state asks its host to run.
    pub open spec fn screen_of(state: StateType) -> Screen {
        match state {
            StateType::Menu => Screen::Menu,
            StateType::Playing(level) => Screen::Level(level),
            _ => Screen::Leave,
        }
    }

    /// The program in the given state.
    pub fn new(state: StateType) -> (game: GameState)
        ensures
            game.state == state,
    {
        GameState { state }
    }

    /// Decides what to run in this state: the menu, a level, or nothing at
    /// all, in which case the program goes on to `Quit`.
    pub fn run(&self) -> (screen: Screen)
        ensures
            screen == GameState::screen_of(self.state),
    {
        match self.state {
            StateType::Menu => Screen::Menu,
            StateType::Playing(level) => Screen::Level(level),
            _ => Screen::Leave,
        }
    }

    /// Whether the program has come to its end.
    pub fn is_over(&self) -> (over: bool)
        ensures
            over == (self.state == StateType::Quit),
    {
        match self.state {
            StateType::Quit => true,
            _ => false,
        }
    }
}

} // verus!

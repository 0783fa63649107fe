//! What the keys of one frame do to a level in play.

use vstd::prelude::*;
use crate::apply::{fade_sounds, handle_move_tiles};
use crate::playing_state::{Board, PlayingState};
use crate::sound::Sounds;
use crate::states::StateType;
use crate::tile::Direction;

verus! {

/// The keys that a level reacts to, as they stand in one frame.
#[derive(Clone, Copy, Debug)]
pub struct Keys {
    /// The cursor keys, pressed in this frame.
    pub left: bool,
    pub right: bool,
    pub up: bool,
    pub down: bool,
    /// The drag key, held down.
    pub space: bool,
    /// Restart the level.
    pub restart: bool,
    /// Confirm the exit.
    pub confirm: bool,
    /// Ask to leave, or take that back.
    pub escape: bool,
    /// Pause, or go on.
    pub pause: bool,
}

/// A list of no sound or one.
pub open spec fn heard(sound: Option<Sounds>) -> Seq<Sounds> {
    match sound {
        Some(s) => seq![s],
        None => Seq::empty(),
    }
}

impl Board {
    /// Whether a sideways key takes effect: it is pressed and no sideways
    /// step was taken since the drag key went down.
    pub open spec fn steps_sideways(self, pressed: bool) -> bool {
        pressed && self.dragging_step == 0
    }

    /// The state after a sideways key. A step taken while dragging is counted,
    /// so that one drag moves a tile by one cell.
    pub open spec fn after_sideways(self, direction: Direction, pressed: bool) -> Board {
        if self.steps_sideways(pressed) {
            let moved = self.moved(direction);
            if moved.dragging {
                Board { dragging_step: 1, ..moved }
            } else {
                moved
            }
        } else {
            self
        }
    }

    /// The sound of a move of the cursor: one while dragging.
    pub open spec fn move_sound(self, moves: bool) -> Seq<Sounds> {
        if moves && self.dragging {
            seq![Sounds::MOVE]
        } else {
            Seq::empty()
        }
    }

    /// The state before the down key is looked at: left, right and up were
    /// handled, in this order, and the drag key was recorded. Up is ignored
    /// while dragging.
    pub open spec fn before_down(self, keys: Keys) -> Board {
        let a = self.after_sideways(Direction::Left, keys.left);
        let b = a.after_sideways(Direction::Right, keys.right);
        let c = if keys.up && !b.dragging {
            b.moved(Direction::Up)
        } else {
            b
        };
        c.with_dragging(keys.space)
    }

    /// The state after the cursor keys and the drag key of one frame.
    pub open spec fn after_keys(self, keys: Keys) -> Board {
        let d = self.before_down(keys);
        if keys.down {
            d.moved(Direction::Down)
        } else {
            d
        }
    }

    /// The sounds of the cursor keys of one frame.
    pub open spec fn key_sounds(self, keys: Keys) -> Seq<Sounds> {
        let a = self.after_sideways(Direction::Left, keys.left);
        self.move_sound(self.steps_sideways(keys.left)) + a.move_sound(
            a.steps_sideways(keys.right),
        ) + self.before_down(keys).move_sound(keys.down)
    }

    /// Whether the keys of a frame end the level before anything else
    /// happens: a restart, or the confirmation of a pending exit.
    pub open spec fn leaves_at_once(self, keys: Keys) -> Option<StateType> {
        if keys.restart {
            Some(StateType::Playing(self.level))
        } else if self.exit_intent && keys.confirm {
            Some(StateType::Menu)
        } else {
            None
        }
    }

    /// The state after the escape and pause keys, each of which flips its flag.
    pub open spec fn toggled(self, keys: Keys) -> Board {
        Board {
            exit_intent: self.exit_intent != keys.escape,
            paused: self.paused != keys.pause,
            ..self
        }
    }

    /// Whether the level runs in this state: it is neither paused nor waiting
    /// for the exit to be confirmed.
    pub open spec fn runs(self) -> bool {
        !self.paused && !self.exit_intent
    }

    /// The state after one frame. Unless the frame ends the level at once,
    /// the flags are flipped, and while the level runs the cursor keys take
    /// effect and, with the drag key up, one tick passes.
    pub open spec fn after_frame(self, keys: Keys) -> Board {
        if self.leaves_at_once(keys) is Some {
            self
        } else if !self.toggled(keys).runs() {
            self.toggled(keys)
        } else if keys.space {
            self.toggled(keys).after_keys(keys)
        } else {
            self.toggled(keys).after_keys(keys).ticked()
        }
    }

    /// The number of the level that follows this one.
    pub open spec fn next_level(self) -> usize {
        if self.level < usize::MAX {
            (self.level + 1) as usize
        } else {
            self.level
        }
    }

    /// The state that the level leaves for after one frame, if it leaves: the
    /// same level on a restart, the menu on a confirmed exit, the next level
    /// once the board is complete.
    pub open spec fn frame_outcome(self, keys: Keys) -> Option<StateType> {
        if self.leaves_at_once(keys) is Some {
            self.leaves_at_once(keys)
        } else if self.after_frame(keys).complete() {
            Some(StateType::Playing(self.next_level()))
        } else {
            None
        }
    }

    /// The sounds of one frame: those of the cursor keys, then those of the tick.
    pub open spec fn frame_sounds(self, keys: Keys) -> Seq<Sounds> {
        if self.leaves_at_once(keys) is Some || !self.toggled(keys).runs() {
            Seq::empty()
        } else {
            let moved = self.toggled(keys).after_keys(keys);
            if keys.space {
                self.toggled(keys).key_sounds(keys)
            } else {
                self.toggled(keys).key_sounds(keys) + fade_sounds(
                    moved.map,
                    moved.next_changes(moved.map),
                )
            }
        }
    }
}

/// Handles a sideways key.
fn step_sideways(level: &mut PlayingState, direction: Direction, pressed: bool) -> (sound: Option<
    Sounds,
>)
    ensures
        final(level)@ == old(level)@.after_sideways(direction, pressed),
        heard(sound) == old(level)@.move_sound(old(level)@.steps_sideways(pressed)),
        old(level)@.wf() ==> final(level)@.wf(),
{
    if pressed && level.dragging_step == 0 {
        let sound = level.move_player(direction);
        if level.dragging {
            level.dragging_step = 1;
        }
        sound
    } else {
        None
    }
}

/// Appends a sound, if there is one.
fn note(sounds: &mut Vec<Sounds>, sound: Option<Sounds>)
    ensures
        final(sounds)@ == old(sounds)@ + heard(sound),
{
    match sound {
        Some(s) => {
            sounds.push(s);
            assert(sounds@ =~= old(sounds)@ + heard(sound));
        },
        None => {
            assert(sounds@ =~= old(sounds)@ + heard(sound));
        },
    }
}

/// Takes the cursor keys and the drag key of one frame: left, right, up, the
/// drag key, down, in this order. While dragging, one sideways step is taken
/// at most and up is ignored. Returns the sounds to play.
pub fn handle_move_player(level: &mut PlayingState, keys: &Keys) -> (sounds: Vec<Sounds>)
    ensures
        final(level)@ == old(level)@.after_keys(*keys),
        sounds@ == old(level)@.key_sounds(*keys),
        old(level)@.wf() ==> final(level)@.wf(),
{
    let mut sounds: Vec<Sounds> = Vec::new();
    let left = step_sideways(level, Direction::Left, keys.left);
    note(&mut sounds, left);
    let right = step_sideways(level, Direction::Right, keys.right);
    note(&mut sounds, right);
    if keys.up && !level.dragging {
        level.move_player(Direction::Up);
    }
    level.set_dragging(keys.space);
    if keys.down {
        let down = level.move_player(Direction::Down);
        note(&mut sounds, down);
    }
    assert(sounds@ =~= old(level)@.key_sounds(*keys));
    sounds
}

impl PlayingState {
    /// Runs the level for one frame: the host calls this frame after frame
    /// with the keys as they stand. Returns the state to leave for, if the
    /// level ends with this frame, and the sounds to play.
    pub fn run(&mut self, keys: &Keys) -> (result: (Option<StateType>, Vec<Sounds>))
        ensures
            final(self)@ == old(self)@.after_frame(*keys),
            result.0 == old(self)@.frame_outcome(*keys),
            result.1@ == old(self)@.frame_sounds(*keys),
            old(self)@.wf() ==> final(self)@.wf(),
    {
        if keys.restart {
            return (Some(StateType::Playing(self.level)), Vec::new());
        }
        if self.exit_intent && keys.confirm {
            return (Some(StateType::Menu), Vec::new());
        }
        if keys.escape {
            self.exit_intent = !self.exit_intent;
        }
        if keys.pause {
            self.paused = !self.paused;
        }
        assert(self@ =~= old(self)@.toggled(*keys));
        let mut sounds: Vec<Sounds> = Vec::new();
        if !self.paused && !self.exit_intent {
            sounds = handle_move_player(self, keys);
            if !keys.space {
                let mut faded = handle_move_tiles(self);
                sounds.append(&mut faded);
            }
        }
        let next = if self.is_complete() {
            Some(
                StateType::Playing(
                    if self.level < usize::MAX {
                        self.level + 1
                    } else {
                        self.level
                    },
                ),
            )
        } else {
            None
        };
        (next, sounds)
    }
}

} // verus!

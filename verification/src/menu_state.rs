//! The menu: three entries, one of which is selected.

use vstd::prelude::*;
use crate::states::StateType;

verus! {

/// Number of entries of the menu.
pub const MENU_ENTRIES: u8 = 3;

/// The keys that the menu reacts to, as pressed in one frame.
#[derive(Clone, Copy, Debug)]
pub struct MenuKeys {
    pub down: bool,
    pub up: bool,
    pub enter: bool,
    pub escape: bool,
}

/// The menu.
#[derive(Clone, Copy, Debug)]
pub struct MenuState {
    selection: u8,
}

/// The entry below `selection`; the first one below the last.
pub open spec fn entry_below(selection: u8) -> u8 {
    if selection + 1 >= MENU_ENTRIES {
        0
    } else {
        (selection + 1) as u8
    }
}

/// The entry above `selection`; the last one above the first.
pub open spec fn entry_above(selection: u8) -> u8 {
    if selection == 0 {
        (MENU_ENTRIES - 1) as u8
    } else {
        (selection - 1) as u8
    }
}

/// The entry that is selected after the keys of one frame: down first, then up.
pub open spec fn entry_after(selection: u8, keys: MenuKeys) -> u8 {
    let lowered = if keys.down {
        entry_below(selection)
    } else {
        selection
    };
    if keys.up {
        entry_above(lowered)
    } else {
        lowered
    }
}

/// The state that an entry of the menu leads to.
pub open spec fn entry_target(selection: u8) -> Option<StateType> {
    if selection == 0 {
        Some(StateType::Playing(1))
    } else if selection == 1 {
        Some(StateType::Help)
    } else if selection == 2 {
        Some(StateType::Quit)
    } else {
        None
    }
}

/// The state that the menu leaves for after the keys of one frame, if it
/// leaves: enter takes the selected entry, escape starts the first level.
pub open spec fn menu_outcome(selection: u8, keys: MenuKeys) -> Option<StateType> {
    let chosen = entry_after(selection, keys);
    if keys.enter && entry_target(chosen) is Some {
        entry_target(chosen)
    } else if keys.escape {
        Some(StateType::Playing(1))
    } else {
        None
    }
}

impl MenuState {
    /// The selected entry.
    pub closed spec fn selected(&self) -> u8 {
        self.selection
    }

    /// A menu with its first entry selected.
    pub fn new() -> (menu: MenuState)
        ensures
            menu.selected() == 0,
    {
        MenuState { selection: 0 }
    }

    /// The selected entry.
    pub fn selection(&self) -> (selection: u8)
        ensures
            selection == self.selected(),
    {
        self.selection
    }

    /// Whether `entry` is the selected one, which is drawn brighter.
    pub fn is_selected(&self, entry: u8) -> (bright: bool)
        ensures
            bright == (self.selected() == entry),
    {
        self.selection == entry
    }

    /// Runs the menu for one frame: the host calls this frame after frame
    /// with the keys that were pressed. Moves the selection and tells which
    /// state to leave for, if any.
    pub fn run(&mut self, keys: MenuKeys) -> (next: Option<StateType>)
        ensures
            final(self).selected() == entry_after(old(self).selected(), keys),
            next == menu_outcome(old(self).selected(), keys),
    {
        if keys.down {
            self.selection = if self.selection >= MENU_ENTRIES - 1 {
                0
            } else {
                self.selection + 1
            };
        }
        if keys.up {
            self.selection = if self.selection == 0 {
                MENU_ENTRIES - 1
            } else {
                self.selection - 1
            };
        }
        if keys.enter {
            if self.selection == 0 {
                return Some(StateType::Playing(1));
            } else if self.selection == 1 {
                return Some(StateType::Help);
            } else if self.selection == 2 {
                return Some(StateType::Quit);
            }
        }
        if keys.escape {
            return Some(StateType::Playing(1));
        }
        None
    }
}

} // verus!

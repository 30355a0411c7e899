//! What the game decides on a key press: which hotbar slot is meant, what a
//! choice of slot changes, and where the welcome screen goes next.

use vstd::prelude::*;

verus! {

/// How many slots the hotbar has.
pub const HOTBAR_SLOTS: usize = 9;

/// The choice that means "put away what is selected".
pub const UNARM: usize = HOTBAR_SLOTS + 1;

/// The slot whose key is down, the lowest where several are; `UNARM` where
/// no slot key is down but the unarm key is; nothing where no key is down.
pub fn process_hotbar_select(slots_down: &[bool; 9], unarm_down: bool) -> (choice: Option<usize>)
    ensures
        match choice {
            Some(slot) => if slot < HOTBAR_SLOTS {
                &&& slots_down@[slot as int]
                &&& forall|j: int| 0 <= j < slot ==> !slots_down@[j]
            } else {
                &&& slot == UNARM
                &&& unarm_down
                &&& forall|j: int| 0 <= j < HOTBAR_SLOTS ==> !slots_down@[j]
            },
            None => {
                &&& !unarm_down
                &&& forall|j: int| 0 <= j < HOTBAR_SLOTS ==> !slots_down@[j]
            },
        },
{
    let mut slot: usize = 0;
    while slot < HOTBAR_SLOTS
        invariant
            slot <= HOTBAR_SLOTS,
            forall|j: int| 0 <= j < slot ==> !slots_down@[j],
        decreases HOTBAR_SLOTS - slot,
    {
        if slots_down[slot] {
            return Some(slot);
        }
        slot += 1;
    }
    if unarm_down {
        Some(UNARM)
    } else {
        None
    }
}

/// What a choice of slot changes on the hotbar.
#[derive(Debug, PartialEq, Eq, Structural)]
pub struct HotbarChange {
    /// The slot that is drawn as selected.
    pub lit: usize,
    /// The slot that is drawn as plain again, after `lit` is drawn.
    pub dimmed: Option<usize>,
    /// The slot that counts as selected from now on.
    pub selected: usize,
}

/// The slot that a choice means: `UNARM` means the selected slot where there
/// is one, every other choice means itself.
pub open spec fn chosen_slot(selected: Option<usize>, choice: usize) -> usize {
    if choice == UNARM && selected is Some {
        selected->0
    } else {
        choice
    }
}

/// The change that a choice makes. The chosen slot is lit and selected. The
/// slot that was selected before is dimmed when another slot was chosen, and
/// also when the choice was to unarm.
pub fn hotbar_press(selected: Option<usize>, choice: usize) -> (change: HotbarChange)
    ensures
        change.lit == chosen_slot(selected, choice),
        change.selected == chosen_slot(selected, choice),
        change.dimmed == (match selected {
            Some(old) => if old != chosen_slot(selected, choice) || choice == UNARM {
                Some(old)
            } else {
                None
            },
            None => None,
        }),
{
    let unarm = choice == UNARM && selected.is_some();
    let index = match selected {
        Some(old) => if unarm {
            old
        } else {
            choice
        },
        None => choice,
    };
    let dimmed = match selected {
        Some(old) => if old != index || unarm {
            Some(old)
        } else {
            None
        },
        None => None,
    };
    HotbarChange { lit: index, dimmed, selected: index }
}

/// Where the welcome screen goes next.
#[derive(Debug, PartialEq, Eq, Structural)]
pub enum WelcomeAction {
    /// Leave the welcome screen and start the game.
    Start,
    /// Leave the program.
    Quit,
    /// Stay on the welcome screen.
    Stay,
}

/// A window event starts the game where a start key is down, and otherwise
/// quits where the window is being closed or a quit key is down. Anything
/// else changes nothing.
pub fn welcome_action(window_event: bool, start_key: bool, close_requested: bool, quit_key: bool) -> (action:
    WelcomeAction)
    ensures
        action == (if window_event && start_key {
            WelcomeAction::Start
        } else if window_event && (close_requested || quit_key) {
            WelcomeAction::Quit
        } else {
            WelcomeAction::Stay
        }),
{
    if window_event {
        if start_key {
            WelcomeAction::Start
        } else if close_requested || quit_key {
            WelcomeAction::Quit
        } else {
            WelcomeAction::Stay
        }
    } else {
        WelcomeAction::Stay
    }
}

} // verus!

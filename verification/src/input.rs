//! Input debouncing: raw per-tick key readings are folded into a tri-state
//! model that distinguishes the first down-tick of a key from a continued
//! hold, so screens can tell a tap from a hold.

use vstd::prelude::*;

verus! {

/// Debounced state of one logical key.
///
/// `Pressed` means this tick is the first down-tick; `Holding` means the key
/// has been down for at least two consecutive ticks.
#[derive(Clone, Copy, Debug, PartialEq, Eq, Structural)]
pub enum KeyState {
    Pressed,
    Holding,
    Released,
}

impl Default for KeyState {
    fn default() -> (r: Self)
        ensures
            r == KeyState::Released,
    {
        KeyState::Released
    }
}

/// One step of the debouncer: the next tri-state from the previous tri-state
/// and this tick's raw key reading.
pub open spec fn spec_debounce(prev: KeyState, raw_down: bool) -> KeyState {
    if raw_down {
        if prev == KeyState::Released {
            KeyState::Pressed
        } else {
            KeyState::Holding
        }
    } else {
        KeyState::Released
    }
}

/// Folds one raw key reading into the previous debounced state.
pub fn debounce(prev: KeyState, raw_down: bool) -> (r: KeyState)
    ensures
        r == spec_debounce(prev, raw_down),
{
    if raw_down {
        match prev {
            KeyState::Released => KeyState::Pressed,
            _ => KeyState::Holding,
        }
    } else {
        KeyState::Released
    }
}

/// Whether a key counts as pressed this tick: a fresh press always does, and
/// a held key auto-repeats on every even tick.
pub open spec fn spec_was_pressed(input: KeyState, ticker: u64) -> bool {
    input == KeyState::Pressed || (input == KeyState::Holding && ticker % 2 == 0)
}

pub fn was_pressed(input: KeyState, ticker: u64) -> (r: bool)
    ensures
        r == spec_was_pressed(input, ticker),
{
    match input {
        KeyState::Pressed => true,
        KeyState::Holding => ticker % 2 == 0,
        KeyState::Released => false,
    }
}

/// Raw per-tick readings for every tracked key, as the input source reports
/// them: `true` while the key is down.
#[derive(Clone, Copy, Debug, PartialEq, Eq, Structural, Default)]
pub struct RawInput {
    pub up: bool,
    pub down: bool,
    pub left: bool,
    pub right: bool,
    pub rot_right: bool,
    pub rot_left: bool,
    pub escape: bool,
}

/// Debounced states for every tracked key.
#[derive(Clone, Copy, Debug, PartialEq, Eq, Structural)]
pub struct PlayerInput {
    pub up: KeyState,
    pub down: KeyState,
    pub left: KeyState,
    pub right: KeyState,
    pub rot_right: KeyState,
    pub rot_left: KeyState,
    pub escape: KeyState,
}

impl Default for PlayerInput {
    fn default() -> (r: Self)
        ensures
            r == PlayerInput::all_released(),
    {
        PlayerInput {
            up: KeyState::Released,
            down: KeyState::Released,
            left: KeyState::Released,
            right: KeyState::Released,
            rot_right: KeyState::Released,
            rot_left: KeyState::Released,
            escape: KeyState::Released,
        }
    }
}

impl PlayerInput {
    pub open spec fn all_released() -> PlayerInput {
        PlayerInput {
            up: KeyState::Released,
            down: KeyState::Released,
            left: KeyState::Released,
            right: KeyState::Released,
            rot_right: KeyState::Released,
            rot_left: KeyState::Released,
            escape: KeyState::Released,
        }
    }

    pub open spec fn spec_all_pressed() -> PlayerInput {
        PlayerInput {
            up: KeyState::Holding,
            down: KeyState::Holding,
            left: KeyState::Holding,
            right: KeyState::Holding,
            rot_right: KeyState::Holding,
            rot_left: KeyState::Holding,
            escape: KeyState::Holding,
        }
    }

    /// The state a menu starts from: every key already held, so that keys
    /// still down from a previous screen do not register as fresh presses.
    pub fn all_pressed() -> (r: Self)
        ensures
            r == PlayerInput::spec_all_pressed(),
    {
        PlayerInput {
            up: KeyState::Holding,
            down: KeyState::Holding,
            left: KeyState::Holding,
            right: KeyState::Holding,
            rot_right: KeyState::Holding,
            rot_left: KeyState::Holding,
            escape: KeyState::Holding,
        }
    }
}

/// Debouncing of a whole input frame: every key independently.
pub open spec fn spec_debounce_all(prev: PlayerInput, raw: RawInput) -> PlayerInput {
    PlayerInput {
        up: spec_debounce(prev.up, raw.up),
        down: spec_debounce(prev.down, raw.down),
        left: spec_debounce(prev.left, raw.left),
        right: spec_debounce(prev.right, raw.right),
        rot_right: spec_debounce(prev.rot_right, raw.rot_right),
        rot_left: spec_debounce(prev.rot_left, raw.rot_left),
        escape: spec_debounce(prev.escape, raw.escape),
    }
}

/// Applies the debouncer identically and independently to every tracked key.
pub fn debounce_all(prev: PlayerInput, raw: RawInput) -> (r: PlayerInput)
    ensures
        r == spec_debounce_all(prev, raw),
{
    PlayerInput {
        up: debounce(prev.up, raw.up),
        down: debounce(prev.down, raw.down),
        left: debounce(prev.left, raw.left),
        right: debounce(prev.right, raw.right),
        rot_right: debounce(prev.rot_right, raw.rot_right),
        rot_left: debounce(prev.rot_left, raw.rot_left),
        escape: debounce(prev.escape, raw.escape),
    }
}

/// Law: three consecutive raw-down ticks from `Released` give
/// `Pressed`, `Holding`, `Holding`, and one raw-up tick gives `Released`
/// from any state.
pub proof fn lemma_debounce_sequence(s: KeyState)
    ensures
        spec_debounce(KeyState::Released, true) == KeyState::Pressed,
        spec_debounce(spec_debounce(KeyState::Released, true), true) == KeyState::Holding,
        spec_debounce(
            spec_debounce(spec_debounce(KeyState::Released, true), true),
            true,
        ) == KeyState::Holding,
        spec_debounce(s, false) == KeyState::Released,
{
}

} // verus!

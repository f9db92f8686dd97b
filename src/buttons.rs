//! What the action buttons stand for, and their toggle state.
use vstd::prelude::*;

verus! {

/// The actions a player can pick during combat.
#[derive(Clone, Copy, Debug, PartialEq, Eq, Structural)]
pub enum AcitonType {
    EndPhase,
    Fireball,
    Smack,
    RunSmack,
}

#[derive(Clone, Copy, Debug, PartialEq, Eq, Structural)]
pub enum CombatButtonType {
    Movement,
    Action(AcitonType),
}

#[derive(Clone, Copy, Debug, PartialEq, Eq, Structural)]
pub enum NonCombatButtonType {
    A,
    B,
}

#[derive(Clone, Copy, Debug, PartialEq, Eq, Structural)]
pub enum ButtonType {
    CombatButton(CombatButtonType),
    NonCombatButton(NonCombatButtonType),
}

/// A button that stays pressed until pressed again.
#[derive(Clone, Copy, Debug, PartialEq, Eq, Structural)]
pub struct ToggleButton {
    pub is_on: bool,
}

impl ToggleButton {
    pub fn new() -> (t: ToggleButton)
        ensures
            !t.is_on,
    {
        ToggleButton { is_on: false }
    }
}

/// The two captions of a toggle button.
#[derive(Clone, Debug)]
pub struct ButtonText {
    pub passive_text: String,
    pub active_text: String,
}

/// Whether the world accepts clicks on tiles.
#[derive(Clone, Copy, Debug, PartialEq, Eq, Structural)]
pub enum GIState {
    /// No tile can be picked.
    Locked,
    /// No tile can be picked while the player walks.
    LockedByMovement,
    /// Tiles can be picked.
    Unlocked,
}

} // verus!

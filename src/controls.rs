//! The player's control flags, set from the input of each frame.
use vstd::prelude::*;

verus! {

/// What the player's input has selected.
#[derive(Clone, Copy, Debug, PartialEq, Eq)]
pub struct PlayerControls {
    /// The dive is held: gravity pulls harder.
    pub diving: bool,
    /// The trail of followers is shown in place of the player.
    pub cosmetic_mode: bool,
}

impl Default for PlayerControls {
    fn default() -> (r: PlayerControls)
        ensures
            !r.diving,
            !r.cosmetic_mode,
    {
        PlayerControls { diving: false, cosmetic_mode: false }
    }
}

impl PlayerControls {
    /// Reads one frame of input: the player dives while the dive key is held
    /// or the screen is touched, and a press of the toggle key switches the
    /// cosmetic mode.
    pub fn apply_input(&mut self, dive_key_held: bool, screen_touched: bool, toggle_pressed: bool)
        ensures
            final(self).diving == (dive_key_held || screen_touched),
            final(self).cosmetic_mode == (old(self).cosmetic_mode != toggle_pressed),
    {
        self.diving = dive_key_held || screen_touched;
        if toggle_pressed {
            self.cosmetic_mode = !self.cosmetic_mode;
        }
    }

    /// The player's own sprite is shown unless the cosmetic mode is on.
    pub fn player_visible(&self) -> (r: bool)
        ensures
            r == !self.cosmetic_mode,
    {
        !self.cosmetic_mode
    }

    /// The trail is shown exactly when the cosmetic mode is on.
    pub fn trail_visible(&self) -> (r: bool)
        ensures
            r == self.cosmetic_mode,
    {
        self.cosmetic_mode
    }
}

} // verus!

//! Shared audio flags: microphone mute and output deafen.  The surrounding
//! process holds them behind atomics; the logic here works on their values.

use vstd::prelude::*;

verus! {

/// The two user-controlled audio switches.
pub struct AudioState {
    pub is_muted: bool,
    pub is_deafened: bool,
}

impl AudioState {
    /// Both switches start off.
    pub fn new() -> (r: AudioState)
        ensures
            !r.is_muted,
            !r.is_deafened,
    {
        AudioState { is_muted: false, is_deafened: false }
    }

    /// Flips the microphone mute switch.
    pub fn toggle_mute(&mut self)
        ensures
            final(self).is_muted == !old(self).is_muted,
            final(self).is_deafened == old(self).is_deafened,
    {
        self.is_muted = !self.is_muted;
    }

    /// Flips the output deafen switch.
    pub fn toggle_deafen(&mut self)
        ensures
            final(self).is_deafened == !old(self).is_deafened,
            final(self).is_muted == old(self).is_muted,
    {
        self.is_deafened = !self.is_deafened;
    }
}

} // verus!

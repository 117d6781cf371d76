//! Input latch holding at most one currently pressed logical key.
use vstd::prelude::*;

verus! {

/// Latch for the key currently considered pressed, if any.
pub struct Keyboard {
    /// The pressed logical key, or `None` when no key is pressed.
    pub key_pressed: Option<u8>,
}

impl Keyboard {
    /// Creates a latch with no key pressed.
    pub fn new() -> (k: Self)
        ensures
            k.key_pressed == None::<u8>,
    {
        Keyboard { key_pressed: None }
    }

    /// Replaces the latch with `key`.
    pub fn set_key_pressed(&mut self, key: Option<u8>)
        ensures
            final(self).key_pressed == key,
    {
        self.key_pressed = key;
    }

    /// Returns the latch verbatim.
    pub fn get_key_pressed(&self) -> (r: Option<u8>)
        ensures
            r == self.key_pressed,
    {
        self.key_pressed
    }

    /// True exactly when the latch holds `key`.
    pub fn is_key_pressed(&self, key: u8) -> (r: bool)
        ensures
            r == (self.key_pressed == Some(key)),
    {
        match self.key_pressed {
            Some(pressed) => pressed == key,
            None => false,
        }
    }
}

} // verus!

//! Colours of the two status lights.
use vstd::prelude::*;

verus! {

/// RGB LED colors
#[derive(Debug, Clone, Copy, PartialEq, Eq, Structural)]
pub enum LedColor {
    Red,
    Green,
    Blue,
    Yellow,
    Off,
}

impl LedColor {
    /// Which of the red, green and blue elements are lit: yellow is red
    /// and green together.
    pub fn levels(&self) -> (r: (bool, bool, bool))
        ensures
            r == match *self {
                LedColor::Red => (true, false, false),
                LedColor::Green => (false, true, false),
                LedColor::Blue => (false, false, true),
                LedColor::Yellow => (true, true, false),
                LedColor::Off => (false, false, false),
            },
    {
        match self {
            LedColor::Red => (true, false, false),
            LedColor::Green => (false, true, false),
            LedColor::Blue => (false, false, true),
            LedColor::Yellow => (true, true, false),
            LedColor::Off => (false, false, false),
        }
    }
}

} // verus!

use vstd::prelude::*;

use crate::buttons::{Button, Buttons};

verus! {

/// An 8x8 frame for the LED matrix, one byte per display row.
pub type Frame = [u8; 8];

/// Alternating lit and dark pixels.
#[allow(non_upper_case_globals)]
pub const Chess: Frame = [
    0b1010_1010,
    0b0101_0101,
    0b1010_1010,
    0b0101_0101,
    0b1010_1010,
    0b0101_0101,
    0b1010_1010,
    0b0101_0101,
];

/// The digit one.
#[allow(non_upper_case_globals)]
pub const One: Frame = [
    0b0000_0000,
    0b0000_0000,
    0b0000_0001,
    0b1111_1111,
    0b1111_1111,
    0b0110_0001,
    0b0000_0000,
    0b0000_0000,
];

/// Whether `key` is among the pressed keys `buttons`.
pub open spec fn held(buttons: Button, key: Button) -> bool {
    buttons & key != 0
}

/// The frame to show next: holding key 1 alone (of keys 1, 2 and 3) shows the
/// digit, holding key 2 alone shows the chess board, anything else keeps the
/// current frame.
pub fn select_pattern(buttons: Button, current: Frame) -> (f: Frame)
    ensures
        f == if held(buttons, Buttons::One) && !held(buttons, Buttons::Two) && !held(
            buttons,
            Buttons::Three,
        ) {
            One
        } else if !held(buttons, Buttons::One) && held(buttons, Buttons::Two) && !held(
            buttons,
            Buttons::Three,
        ) {
            Chess
        } else {
            current
        },
{
    let one = buttons & Buttons::One != 0;
    let two = buttons & Buttons::Two != 0;
    let three = buttons & Buttons::Three != 0;
    if one && !two && !three {
        One
    } else if !one && two && !three {
        Chess
    } else {
        current
    }
}

} // verus!

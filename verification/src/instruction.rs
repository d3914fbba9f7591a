use vstd::prelude::*;

verus! {

/// `>`: move the cursor right.
pub const MOVE_RIGHT: u8 = 0x3e;

/// `<`: move the cursor left.
pub const MOVE_LEFT: u8 = 0x3c;

/// `+`: add one to the current cell.
pub const INCREMENT: u8 = 0x2b;

/// `-`: take one from the current cell.
pub const DECREMENT: u8 = 0x2d;

/// `.`: emit the current cell.
pub const OUTPUT: u8 = 0x2e;

/// `,`: read a byte into the current cell.
pub const INPUT: u8 = 0x2c;

/// `[`: open a loop.
pub const LOOP_OPEN: u8 = 0x5b;

/// `]`: close a loop.
pub const LOOP_CLOSE: u8 = 0x5d;

} // verus!

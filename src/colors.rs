//! Basic terminal color codes: eight standard and eight bright ones.
use vstd::prelude::*;

verus! {

pub const BLACK: u8 = 30;
pub const RED: u8 = 31;
pub const GREEN: u8 = 32;
pub const YELLOW: u8 = 33;
pub const BLUE: u8 = 34;
pub const MAGENTA: u8 = 35;
pub const CYAN: u8 = 36;
pub const WHITE: u8 = 37;

pub const BRIGHT_BLACK: u8 = 90;
pub const BRIGHT_RED: u8 = 91;
pub const BRIGHT_GREEN: u8 = 92;
pub const BRIGHT_YELLOW: u8 = 93;
pub const BRIGHT_BLUE: u8 = 94;
pub const BRIGHT_MAGENTA: u8 = 95;
pub const BRIGHT_CYAN: u8 = 96;
pub const BRIGHT_WHITE: u8 = 97;

} // verus!

//! The characters that cells, ghost pieces and frames are drawn with.
use vstd::prelude::*;

verus! {

pub const FULL_BLOCK: char = '\u{2588}';
pub const LIGHT_SHADE: char = '\u{2591}';

pub const LIGHT_HORIZONTAL: char = '\u{2500}';
pub const LIGHT_VERTICAL: char = '\u{2502}';

pub const LIGHT_DOWN_AND_RIGHT: char = '\u{250C}';
pub const LIGHT_DOWN_AND_LEFT: char = '\u{2510}';
pub const LIGHT_UP_AND_RIGHT: char = '\u{2514}';
pub const LIGHT_UP_AND_LEFT: char = '\u{2518}';

} // verus!

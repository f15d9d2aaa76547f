//! Piece geometry: four cell offsets around a pivot, and the rotations and
//! flips that act on them.
use vstd::prelude::*;
use crate::board::{GAME_HEIGHT, GAME_WIDTH};
use crate::screen::Pixel;

verus! {

/// Every piece is made of exactly this many cells.
pub const SHAPE_PIXEL_COUNT: usize = 4;

/// A piece: the offsets of its cells from its pivot, and what fills them.
#[derive(Clone, Copy, PartialEq, Eq, Debug)]
pub struct Shape {
    pub pixels: [(i16, i16); SHAPE_PIXEL_COUNT],
    pub fill_pixel: Pixel,
}

/// One offset turned a quarter about the pivot: `(dx, dy)` becomes
/// `(-dy, dx)` when turning left and `(dy, -dx)` when turning right.
pub open spec fn rotated_offset(p: (i16, i16), rotate_left: bool) -> (i16, i16) {
    if rotate_left {
        ((-p.1) as i16, p.0)
    } else {
        (p.1, (-p.0) as i16)
    }
}

/// One offset mirrored: `dx` negated for a horizontal flip, `dy` otherwise.
pub open spec fn flipped_offset(p: (i16, i16), horizontally: bool) -> (i16, i16) {
    if horizontally {
        ((-p.0) as i16, p.1)
    } else {
        (p.0, (-p.1) as i16)
    }
}

pub open spec fn rotated_offsets(offsets: Seq<(i16, i16)>, rotate_left: bool) -> Seq<(i16, i16)> {
    offsets.map_values(|p: (i16, i16)| rotated_offset(p, rotate_left))
}

pub open spec fn flipped_offsets(offsets: Seq<(i16, i16)>, horizontally: bool) -> Seq<(i16, i16)> {
    offsets.map_values(|p: (i16, i16)| flipped_offset(p, horizontally))
}

/// Every coordinate can be negated within `i16`.
pub open spec fn negatable(offsets: Seq<(i16, i16)>) -> bool {
    forall|i: int| 0 <= i < offsets.len() ==> offsets[i].0 != i16::MIN && offsets[i].1 != i16::MIN
}

/// A column that a piece's cell may occupy: `1..=GAME_WIDTH`, column 0 and
/// the columns past the width being the frame around the playfield.
pub open spec fn column_in_bounds(bx: int) -> bool {
    1 <= bx <= GAME_WIDTH
}

/// A row that a piece's cell may occupy on a playfield of `height` rows:
/// the top row and everything from the last row on are out.
pub open spec fn row_in_bounds(by: int, height: int) -> bool {
    1 <= by < height
}

/// Whether every cell of `offsets` anchored at `(x, y)` lies in the allowed
/// columns, and whether every one lies in the allowed rows.
pub open spec fn offsets_within(offsets: Seq<(i16, i16)>, x: int, y: int, height: int) -> (bool, bool) {
    (
        forall|i: int| 0 <= i < offsets.len() ==> column_in_bounds(x + offsets[i].0),
        forall|i: int| 0 <= i < offsets.len() ==> row_in_bounds(y + offsets[i].1, height),
    )
}

impl Shape {
    /// Turns the piece a quarter about its pivot, to the left or to the right.
    pub fn rotate(&mut self, rotate_left: bool)
        requires
            negatable(old(self).pixels@),
        ensures
            final(self).pixels@ == rotated_offsets(old(self).pixels@, rotate_left),
            final(self).fill_pixel == old(self).fill_pixel,
    {
        let ghost start = self.pixels@;
        let mut i: usize = 0;
        while i < SHAPE_PIXEL_COUNT
            invariant
                0 <= i <= SHAPE_PIXEL_COUNT,
                negatable(start),
                start.len() == SHAPE_PIXEL_COUNT,
                self.fill_pixel == old(self).fill_pixel,
                start == old(self).pixels@,
                forall|j: int| 0 <= j < i ==> self.pixels@[j] == rotated_offset(start[j], rotate_left),
                forall|j: int| i <= j < SHAPE_PIXEL_COUNT ==> self.pixels@[j] == start[j],
            decreases SHAPE_PIXEL_COUNT - i,
        {
            let (x, y) = self.pixels[i];
            assert(start[i as int] == (x, y));
            if rotate_left {
                self.pixels[i] = (-y, x);
            } else {
                self.pixels[i] = (y, -x);
            }
            i += 1;
        }
        assert(self.pixels@ =~= rotated_offsets(start, rotate_left));
    }

    /// Mirrors the piece about its pivot: horizontally or vertically.
    pub fn flip(&mut self, horizontally: bool)
        requires
            negatable(old(self).pixels@),
        ensures
            final(self).pixels@ == flipped_offsets(old(self).pixels@, horizontally),
            final(self).fill_pixel == old(self).fill_pixel,
    {
        let ghost start = self.pixels@;
        let mut i: usize = 0;
        while i < SHAPE_PIXEL_COUNT
            invariant
                0 <= i <= SHAPE_PIXEL_COUNT,
                negatable(start),
                start.len() == SHAPE_PIXEL_COUNT,
                self.fill_pixel == old(self).fill_pixel,
                start == old(self).pixels@,
                forall|j: int| 0 <= j < i ==> self.pixels@[j] == flipped_offset(start[j], horizontally),
                forall|j: int| i <= j < SHAPE_PIXEL_COUNT ==> self.pixels@[j] == start[j],
            decreases SHAPE_PIXEL_COUNT - i,
        {
            let (x, y) = self.pixels[i];
            assert(start[i as int] == (x, y));
            if horizontally {
                self.pixels[i] = (-x, y);
            } else {
                self.pixels[i] = (x, -y);
            }
            i += 1;
        }
        assert(self.pixels@ =~= flipped_offsets(start, horizontally));
    }

    /// Whether the piece anchored at `(x, y)` keeps every cell inside the
    /// playfield's columns, and every cell inside its rows; the board's
    /// contents play no part here.
    pub fn is_within_bounds(&self, x: u16, y: u16) -> (r: (bool, bool))
        ensures
            r == offsets_within(self.pixels@, x as int, y as int, GAME_HEIGHT as int),
    {
        let mut within_x_bounds = true;
        let mut within_y_bounds = true;
        let mut i: usize = 0;
        while i < SHAPE_PIXEL_COUNT
            invariant
                0 <= i <= SHAPE_PIXEL_COUNT,
                self.pixels@.len() == SHAPE_PIXEL_COUNT,
                within_x_bounds == (forall|j: int| 0 <= j < i ==> column_in_bounds(x + self.pixels@[j].0)),
                within_y_bounds == (forall|j: int| 0 <= j < i ==> row_in_bounds(y + self.pixels@[j].1, GAME_HEIGHT as int)),
            decreases SHAPE_PIXEL_COUNT - i,
        {
            let (dx, dy) = self.pixels[i];
            let block_x: i32 = dx as i32 + x as i32;
            let block_y: i32 = dy as i32 + y as i32;
            if block_y >= GAME_HEIGHT as i32 || block_y <= 0 {
                within_y_bounds = false;
            }
            if block_x > GAME_WIDTH as i32 || block_x <= 0 {
                within_x_bounds = false;
            }
            i += 1;
        }
        (within_x_bounds, within_y_bounds)
    }
}

/// A quarter turn to the left followed by one to the right gives back the
/// original offsets, and so does the opposite order.
pub proof fn lemma_rotate_inverse(offsets: Seq<(i16, i16)>)
    requires
        negatable(offsets),
    ensures
        negatable(rotated_offsets(offsets, true)),
        negatable(rotated_offsets(offsets, false)),
        rotated_offsets(rotated_offsets(offsets, true), false) == offsets,
        rotated_offsets(rotated_offsets(offsets, false), true) == offsets,
{
    assert(rotated_offsets(rotated_offsets(offsets, true), false) =~= offsets);
    assert(rotated_offsets(rotated_offsets(offsets, false), true) =~= offsets);
}

/// Flipping twice about the same axis gives back the original offsets.
pub proof fn lemma_flip_involution(offsets: Seq<(i16, i16)>, horizontally: bool)
    requires
        negatable(offsets),
    ensures
        negatable(flipped_offsets(offsets, horizontally)),
        flipped_offsets(flipped_offsets(offsets, horizontally), horizontally) == offsets,
{
    assert(flipped_offsets(flipped_offsets(offsets, horizontally), horizontally) =~= offsets);
}

} // verus!

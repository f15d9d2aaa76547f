//! The seven piece kinds, each with its four cells and its color.
use vstd::prelude::*;
use crate::colors::{BLUE, BRIGHT_YELLOW, CYAN, GREEN, MAGENTA, RED, YELLOW};
use crate::glyphs::FULL_BLOCK;
use crate::screen::{Color, Pixel};
use crate::shape::{negatable, Shape};

verus! {

#[derive(Clone, Copy, PartialEq, Eq, Debug, Structural)]
pub enum PieceKind {
    Square,
    Straight,
    Tee,
    LeftSkew,
    RightSkew,
    LeftL,
    RightL,
}

/// The kind that a drawn number selects: the number modulo 7, in the order
/// in which the kinds are declared.
pub open spec fn kind_of_index(v: u64) -> PieceKind {
    let i = v % 7;
    if i == 0 {
        PieceKind::Square
    } else if i == 1 {
        PieceKind::Straight
    } else if i == 2 {
        PieceKind::Tee
    } else if i == 3 {
        PieceKind::LeftSkew
    } else if i == 4 {
        PieceKind::RightSkew
    } else if i == 5 {
        PieceKind::LeftL
    } else {
        PieceKind::RightL
    }
}

/// The cells of each kind as it spawns.
pub open spec fn kind_offsets(k: PieceKind) -> Seq<(i16, i16)> {
    match k {
        PieceKind::Square => seq![(0i16, 0i16), (1i16, 0i16), (1i16, 1i16), (0i16, 1i16)],
        PieceKind::Straight => seq![(0i16, -1i16), (0i16, 0i16), (0i16, 1i16), (0i16, 2i16)],
        PieceKind::Tee => seq![(0i16, -1i16), (0i16, 0i16), (-1i16, 0i16), (1i16, 0i16)],
        PieceKind::LeftSkew => seq![(-1i16, 0i16), (0i16, 0i16), (0i16, -1i16), (1i16, -1i16)],
        PieceKind::RightSkew => seq![(-1i16, -1i16), (0i16, 0i16), (0i16, -1i16), (1i16, 0i16)],
        PieceKind::LeftL => seq![(-1i16, 0i16), (0i16, 0i16), (0i16, -1i16), (0i16, -2i16)],
        PieceKind::RightL => seq![(1i16, 0i16), (0i16, 0i16), (0i16, -1i16), (0i16, -2i16)],
    }
}

/// The color code of each kind.
pub open spec fn kind_color(k: PieceKind) -> u8 {
    match k {
        PieceKind::Square => BRIGHT_YELLOW,
        PieceKind::Straight => CYAN,
        PieceKind::Tee => MAGENTA,
        PieceKind::LeftSkew => GREEN,
        PieceKind::RightSkew => RED,
        PieceKind::LeftL => BLUE,
        PieceKind::RightL => YELLOW,
    }
}

/// Solid blocks in the kind's color.
pub open spec fn kind_fill(k: PieceKind) -> Pixel {
    Pixel { shape: [FULL_BLOCK, FULL_BLOCK], color: Color::Basic(kind_color(k)) }
}

impl PieceKind {
    pub fn from_index(v: u64) -> (r: PieceKind)
        ensures
            r == kind_of_index(v),
    {
        let i = v % 7;
        if i == 0 {
            PieceKind::Square
        } else if i == 1 {
            PieceKind::Straight
        } else if i == 2 {
            PieceKind::Tee
        } else if i == 3 {
            PieceKind::LeftSkew
        } else if i == 4 {
            PieceKind::RightSkew
        } else if i == 5 {
            PieceKind::LeftL
        } else {
            PieceKind::RightL
        }
    }

    pub fn color(&self) -> (r: u8)
        ensures
            r == kind_color(*self),
    {
        match self {
            PieceKind::Square => BRIGHT_YELLOW,
            PieceKind::Straight => CYAN,
            PieceKind::Tee => MAGENTA,
            PieceKind::LeftSkew => GREEN,
            PieceKind::RightSkew => RED,
            PieceKind::LeftL => BLUE,
            PieceKind::RightL => YELLOW,
        }
    }

    /// The kind's shape as it spawns.
    pub fn shape(&self) -> (r: Shape)
        ensures
            r.pixels@ == kind_offsets(*self),
            r.fill_pixel == kind_fill(*self),
            negatable(r.pixels@),
    {
        let pixels: [(i16, i16); 4] = match self {
            PieceKind::Square => [(0, 0), (1, 0), (1, 1), (0, 1)],
            PieceKind::Straight => [(0, -1), (0, 0), (0, 1), (0, 2)],
            PieceKind::Tee => [(0, -1), (0, 0), (-1, 0), (1, 0)],
            PieceKind::LeftSkew => [(-1, 0), (0, 0), (0, -1), (1, -1)],
            PieceKind::RightSkew => [(-1, -1), (0, 0), (0, -1), (1, 0)],
            PieceKind::LeftL => [(-1, 0), (0, 0), (0, -1), (0, -2)],
            PieceKind::RightL => [(1, 0), (0, 0), (0, -1), (0, -2)],
        };
        let r = Shape {
            pixels,
            fill_pixel: Pixel { shape: [FULL_BLOCK, FULL_BLOCK], color: Color::Basic(self.color()) },
        };
        assert(r.pixels@ =~= kind_offsets(*self));
        r
    }
}

} // verus!

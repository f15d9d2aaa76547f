use tetris::{Color, Pixel, PieceKind, Shape};

const KINDS: [PieceKind; 7] = [
    PieceKind::Square,
    PieceKind::Straight,
    PieceKind::Tee,
    PieceKind::LeftSkew,
    PieceKind::RightSkew,
    PieceKind::LeftL,
    PieceKind::RightL,
];

#[test]
fn rotate_left_then_right_restores_every_kind() {
    for kind in KINDS {
        let original = kind.shape();
        let mut shape = original;
        shape.rotate(true);
        shape.rotate(false);
        assert_eq!(shape, original);
        shape.rotate(false);
        shape.rotate(true);
        assert_eq!(shape, original);
    }
}

#[test]
fn flip_twice_restores_every_kind() {
    for kind in KINDS {
        for horizontally in [true, false] {
            let original = kind.shape();
            let mut shape = original;
            shape.flip(horizontally);
            shape.flip(horizontally);
            assert_eq!(shape, original);
        }
    }
}

#[test]
fn rotate_left_maps_each_offset() {
    let mut shape = PieceKind::Straight.shape();
    shape.rotate(true);
    assert_eq!(shape.pixels, [(1, 0), (0, 0), (-1, 0), (-2, 0)]);
}

#[test]
fn rotate_right_maps_each_offset() {
    let mut shape = PieceKind::RightL.shape();
    shape.rotate(false);
    assert_eq!(shape.pixels, [(0, -1), (0, 0), (-1, 0), (-2, 0)]);
}

#[test]
fn four_quarter_turns_restore_the_shape() {
    let original = PieceKind::LeftSkew.shape();
    let mut shape = original;
    for _ in 0..4 {
        shape.rotate(false);
    }
    assert_eq!(shape, original);
}

#[test]
fn flip_negates_one_axis() {
    let mut shape = PieceKind::LeftL.shape();
    shape.flip(true);
    assert_eq!(shape.pixels, [(1, 0), (0, 0), (0, -1), (0, -2)]);
    let mut shape = PieceKind::LeftL.shape();
    shape.flip(false);
    assert_eq!(shape.pixels, [(-1, 0), (0, 0), (0, 1), (0, 2)]);
}

#[test]
fn rotation_keeps_the_fill() {
    let mut shape = PieceKind::Tee.shape();
    let fill = shape.fill_pixel;
    shape.rotate(true);
    assert_eq!(shape.fill_pixel, fill);
    assert_eq!(fill.color, Color::Basic(35));
}

#[test]
fn within_bounds_inside_the_playfield() {
    let shape = PieceKind::Square.shape();
    assert_eq!(shape.is_within_bounds(5, 5), (true, true));
    assert_eq!(shape.is_within_bounds(9, 18), (true, true));
}

#[test]
fn within_bounds_reports_each_axis() {
    let shape = PieceKind::Square.shape();
    // Cells at columns 10 and 11: the second is past the width.
    assert_eq!(shape.is_within_bounds(10, 5), (false, true));
    // Column 0 is the frame.
    assert_eq!(shape.is_within_bounds(0, 5), (false, true));
    // Rows 19 and 20: the last row index counts as out.
    assert_eq!(shape.is_within_bounds(5, 19), (true, false));
    // Row 0 counts as out.
    assert_eq!(shape.is_within_bounds(5, 0), (true, false));
    assert_eq!(shape.is_within_bounds(0, 0), (false, false));
}

#[test]
fn kinds_from_index_cycle_through_seven() {
    assert_eq!(PieceKind::from_index(0), PieceKind::Square);
    assert_eq!(PieceKind::from_index(1), PieceKind::Straight);
    assert_eq!(PieceKind::from_index(6), PieceKind::RightL);
    assert_eq!(PieceKind::from_index(7), PieceKind::Square);
    assert_eq!(PieceKind::from_index(100), PieceKind::Tee);
}

#[test]
fn shapes_are_solid_blocks_in_their_color() {
    let shape = PieceKind::Straight.shape();
    assert_eq!(shape.fill_pixel, Pixel { shape: ['\u{2588}', '\u{2588}'], color: Color::Basic(36) });
    assert_eq!(PieceKind::Square.color(), 93);
}

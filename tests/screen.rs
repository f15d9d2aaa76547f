use tetris::{decimal_chars, Color, PieceKind, Pixel, Screen, Tetris};

const BLANK: Pixel = Pixel { shape: [' ', ' '], color: Color::Default };

fn screen(width: u32, height: u32) -> Screen {
    Screen::new(width, height).ok().unwrap()
}

fn text(chars: Vec<char>) -> String {
    chars.into_iter().collect()
}

#[test]
fn new_screen_is_blank() {
    let s = screen(4, 3);
    assert_eq!(s._width(), 4);
    assert_eq!(s._height(), 3);
    for x in 0..4 {
        for y in 0..3 {
            assert_eq!(s.pixel_at(x, y), BLANK);
        }
    }
}

#[test]
fn oversized_screen_is_refused() {
    assert!(Screen::new(70_000, 70_000).is_err());
    assert!(Screen::new(65_536, 65_536).is_err());
    assert!(Screen::new(0, 5).is_ok());
}

#[test]
fn set_and_clear_pixels() {
    let mut s = screen(3, 3);
    let red = Pixel { shape: ['a', 'b'], color: Color::Basic(31) };
    s.set_pixel(2, 1, red);
    assert_eq!(s.pixel_at(2, 1), red);
    assert_eq!(s.pixel_at(1, 2), BLANK);
    s.clear();
    assert_eq!(s.pixel_at(2, 1), BLANK);
}

#[test]
fn fill_area_covers_the_rectangle_only() {
    let mut s = screen(5, 4);
    let p = Pixel { shape: ['#', '#'], color: Color::Basic(32) };
    s.fill_area_with_pixel(&p, 1, 1, 3, 3);
    for x in 0..5 {
        for y in 0..4 {
            let inside = (1..3).contains(&x) && (1..3).contains(&y);
            assert_eq!(s.pixel_at(x, y), if inside { p } else { BLANK });
        }
    }
    s._fill_with_pixel(&p);
    assert_eq!(s.pixel_at(4, 3), p);
}

#[test]
fn draw_box_places_corners_and_edges() {
    let mut s = screen(6, 5);
    assert!(s.draw_box(1, 1, 3, 2).is_ok());
    assert_eq!(s.pixel_at(1, 1).shape, [' ', '\u{250C}']);
    assert_eq!(s.pixel_at(4, 1).shape, ['\u{2510}', ' ']);
    assert_eq!(s.pixel_at(1, 3).shape, [' ', '\u{2514}']);
    assert_eq!(s.pixel_at(4, 3).shape, ['\u{2518}', ' ']);
    assert_eq!(s.pixel_at(2, 1).shape, ['\u{2500}', '\u{2500}']);
    assert_eq!(s.pixel_at(3, 3).shape, ['\u{2500}', '\u{2500}']);
    assert_eq!(s.pixel_at(1, 2).shape, [' ', '\u{2502}']);
    assert_eq!(s.pixel_at(4, 2).shape, ['\u{2502}', ' ']);
    assert_eq!(s.pixel_at(2, 2), BLANK);
    assert_eq!(s.pixel_at(0, 0), BLANK);
}

#[test]
fn draw_box_past_the_edge_fails_and_draws_nothing() {
    let mut s = screen(6, 5);
    assert!(s.draw_box(1, 1, 5, 2).is_err());
    assert!(s.draw_box(0, 2, 2, 3).is_err());
    for x in 0..6 {
        for y in 0..5 {
            assert_eq!(s.pixel_at(x, y), BLANK);
        }
    }
}

#[test]
fn draw_text_puts_two_characters_per_cell() {
    let mut s = screen(4, 2);
    s.draw_text(1, 1, "SCORE");
    assert_eq!(s.pixel_at(1, 1).shape, ['S', 'C']);
    assert_eq!(s.pixel_at(2, 1).shape, ['O', 'R']);
    assert_eq!(s.pixel_at(3, 1).shape, ['E', ' ']);
    assert_eq!(s.pixel_at(0, 1), BLANK);
}

#[test]
fn draw_text_is_cut_at_the_edge_and_ignored_off_screen() {
    let mut s = screen(3, 2);
    s.draw_text(1, 0, "abcdefgh");
    assert_eq!(s.pixel_at(1, 0).shape, ['a', 'b']);
    assert_eq!(s.pixel_at(2, 0).shape, ['c', 'd']);
    s.draw_text(3, 1, "zz");
    s.draw_text(0, 2, "zz");
    assert_eq!(s.pixel_at(0, 1), BLANK);
}

#[test]
fn draw_shape_clips_and_shades_ghosts() {
    let mut s = screen(4, 4);
    let square = PieceKind::Square.shape();
    s.draw_shape(&square, 3, 3, false);
    assert_eq!(s.pixel_at(3, 3), square.fill_pixel);
    assert_eq!(s.pixel_at(2, 3), BLANK);
    s.draw_shape(&square, 0, 0, true);
    assert_eq!(s.pixel_at(1, 1), Pixel { shape: ['\u{2591}', '\u{2591}'], color: Color::Basic(93) });
    assert_eq!(s.pixel_at(2, 2), BLANK);
}

#[test]
fn resize_keeps_stored_pixels_and_pads_with_blanks() {
    let mut s = screen(2, 2);
    let p = Pixel { shape: ['x', 'y'], color: Color::Default };
    s.set_pixel(0, 1, p);
    s._resize(3, 2);
    assert_eq!(s._width(), 3);
    assert_eq!(s.pixel_at(0, 1), p);
    assert_eq!(s.pixel_at(2, 1), BLANK);
    s._resize(1, 1);
    assert_eq!(s.pixel_at(0, 0), BLANK);
}

#[test]
fn present_writes_rows_with_color_codes() {
    let mut s = screen(2, 1);
    s.set_pixel(0, 0, Pixel { shape: ['a', 'b'], color: Color::Basic(31) });
    assert_eq!(text(s.present()), "\x1B[31mab\x1B[0m  \n");
    assert_eq!(text(s.present()), "\x1B[2D\x1B[2A\n\x1B[31mab\x1B[0m  \n");
}

#[test]
fn decimal_digits() {
    assert_eq!(text(decimal_chars(0)), "0");
    assert_eq!(text(decimal_chars(475)), "475");
    assert_eq!(text(decimal_chars(4_294_967_295)), "4294967295");
}

#[test]
fn render_draws_frame_panel_and_piece() {
    let mut t = Tetris::new(7).ok().unwrap();
    t.update(None);
    let out = text(t.render());
    let s = t.screen();
    assert_eq!(s.pixel_at(0, 0).shape, [' ', '\u{250C}']);
    assert_eq!(s.pixel_at(11, 21).shape, ['\u{2518}', ' ']);
    assert_eq!(s.pixel_at(12, 1).shape, ['S', 'C']);
    assert_eq!(s.pixel_at(12, 2).shape, ['0', ' ']);
    // The Straight at (5, 3) covers rows 2..=5 of column 5.
    assert_eq!(s.pixel_at(5, 2).color, Color::Basic(36));
    assert_eq!(s.pixel_at(5, 5).shape, ['\u{2588}', '\u{2588}']);
    // Its ghost lands with its lowest cell on the frame's inner bottom row.
    assert_eq!(s.pixel_at(5, 20).shape, ['\u{2591}', '\u{2591}']);
    assert!(out.ends_with("\n"));
    assert_eq!(out.matches('\n').count(), 25);
    let again = text(t.render());
    assert!(again.starts_with("\x1B[30D\x1B[26A\n"));
}

#[test]
fn render_shows_settled_blocks_and_score() {
    let mut t = Tetris::new(9).ok().unwrap();
    t.spawn_piece(PieceKind::Square);
    t.update(Some(' '));
    t.render();
    let s = t.screen();
    // The Square settled at columns 5, 6 and rows 18, 19 of the playfield.
    assert_eq!(s.pixel_at(5, 19), Pixel { shape: ['\u{2588}', '\u{2588}'], color: Color::Basic(93) });
    assert_eq!(s.pixel_at(6, 20).color, Color::Basic(93));
}

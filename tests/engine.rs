use tetris::{PieceKind, Tetris, GAME_HEIGHT, GAME_WIDTH};

fn game(seed: u64) -> Tetris {
    Tetris::new(seed).ok().unwrap()
}

/// Puts a Straight piece in play, turns it lying if asked, moves its pivot
/// to column `x` and drops it.
fn drop_straight(t: &mut Tetris, lying: bool, x: u16) {
    t.spawn_piece(PieceKind::Straight);
    if lying {
        t.update(Some('s'));
    }
    while t.position().0 > x {
        t.update(Some('a'));
    }
    while t.position().0 < x {
        t.update(Some('d'));
    }
    assert_eq!(t.position().0, x);
    t.update(Some(' '));
}

fn filled(t: &Tetris, y: usize) -> usize {
    (0..GAME_WIDTH).filter(|&x| t.board().is_occupied(x, y)).count()
}

#[test]
fn new_game_starts_empty_and_running() {
    let t = game(3);
    assert!(t.is_running());
    assert_eq!(t.score(), 0);
    assert_eq!(t.current_piece(), None);
    assert_eq!(t.held_piece(), None);
    assert_eq!(t.position(), (5, 3));
    assert_eq!(t.fall_speed(), 10);
    assert_eq!(t.board().height(), GAME_HEIGHT);
}

#[test]
fn first_tick_spawns_without_game_over() {
    for seed in 0..300 {
        let mut t = game(seed);
        t.update(None);
        assert!(t.is_running());
        assert!(t.current_piece().is_some());
        assert_eq!(t.position(), (5, 3));
    }
}

#[test]
fn every_kind_spawns_on_an_empty_board() {
    let kinds = [
        PieceKind::Square,
        PieceKind::Straight,
        PieceKind::Tee,
        PieceKind::LeftSkew,
        PieceKind::RightSkew,
        PieceKind::LeftL,
        PieceKind::RightL,
    ];
    for kind in kinds {
        let mut t = game(11);
        t.spawn_piece(kind);
        assert!(t.is_running());
        assert_eq!(t.current_piece().unwrap().kind, kind);
        assert_eq!(t.current_piece().unwrap().shape, kind.shape());
    }
}

#[test]
fn spawned_kind_follows_the_generator() {
    // Seed 7: the first number drawn is 29, and 29 mod 7 selects Straight.
    let mut t = game(7);
    t.update(None);
    assert_eq!(t.current_piece().unwrap().kind, PieceKind::Straight);
}

#[test]
fn consecutive_pieces_differ_in_kind() {
    for seed in 0..40 {
        let mut t = game(seed);
        t.update(None);
        let mut last = t.current_piece().unwrap().kind;
        for _ in 0..6 {
            t.update(Some(' '));
            if !t.is_running() {
                break;
            }
            let next = t.current_piece().unwrap().kind;
            assert_ne!(next, last);
            last = next;
        }
    }
}

#[test]
fn quit_stops_the_game() {
    let mut t = game(1);
    t.update(Some('q'));
    assert!(!t.is_running());
}

#[test]
fn moves_stop_at_the_walls() {
    let mut t = game(1);
    t.spawn_piece(PieceKind::Straight);
    for _ in 0..20 {
        t.update(Some('a'));
    }
    assert_eq!(t.position().0, 1);
    for _ in 0..20 {
        t.update(Some('d'));
    }
    assert_eq!(t.position().0, 10);
}

#[test]
fn rotation_out_of_bounds_is_undone() {
    let mut t = game(1);
    t.spawn_piece(PieceKind::Straight);
    for _ in 0..20 {
        t.update(Some('a'));
    }
    let before = t.current_piece().unwrap().shape;
    // Lying, the piece would reach column -1.
    t.update(Some('s'));
    assert_eq!(t.current_piece().unwrap().shape, before);
    // Turned the other way it reaches columns 0..=3: also out.
    t.update(Some('w'));
    assert_eq!(t.current_piece().unwrap().shape, before);
}

#[test]
fn rotation_inside_bounds_applies() {
    let mut t = game(1);
    t.spawn_piece(PieceKind::Tee);
    t.update(Some('w'));
    let mut expected = PieceKind::Tee.shape();
    expected.rotate(false);
    assert_eq!(t.current_piece().unwrap().shape, expected);
    t.update(Some('z'));
    expected.rotate(true);
    expected.rotate(true);
    assert_eq!(t.current_piece().unwrap().shape, expected);
}

#[test]
fn hold_swaps_once_per_piece() {
    let mut t = game(5);
    t.spawn_piece(PieceKind::Tee);
    t.update(Some('d'));
    t.update(Some('h'));
    assert_eq!(t.held_piece().unwrap().kind, PieceKind::Tee);
    // Nothing was held: a new piece of another kind comes in.
    let next = t.current_piece().unwrap();
    assert_ne!(next.kind, PieceKind::Tee);
    assert_eq!(t.position(), (5, 3));
    // A second hold before the piece settles does nothing.
    t.update(Some('h'));
    assert_eq!(t.held_piece().unwrap().kind, PieceKind::Tee);
    assert_eq!(t.current_piece().unwrap(), next);
    // After the piece settles, holding swaps again.
    t.update(Some(' '));
    let spawned = t.current_piece().unwrap();
    t.update(Some('h'));
    assert_eq!(t.current_piece().unwrap().kind, PieceKind::Tee);
    assert_eq!(t.held_piece().unwrap(), spawned);
}

#[test]
fn hard_drop_lands_on_the_floor() {
    let mut t = game(2);
    drop_straight(&mut t, false, 4);
    // Cells of an upright Straight at rows 16..=19, column 4 (index 3).
    for y in 16..20 {
        assert!(t.board().is_occupied(3, y));
    }
    assert!(!t.board().is_occupied(3, 15));
    assert_eq!(t.score(), 0);
}

#[test]
fn hard_drop_stacks_on_blocks() {
    let mut t = game(2);
    drop_straight(&mut t, false, 4);
    drop_straight(&mut t, false, 4);
    for y in 12..20 {
        assert!(t.board().is_occupied(3, y));
    }
    assert!(!t.board().is_occupied(3, 11));
}

#[test]
fn upright_straights_fill_four_rows_then_clear_them() {
    let mut t = game(9);
    for x in 1..=10u16 {
        drop_straight(&mut t, false, x);
        if x < 10 {
            for y in 16..20 {
                assert_eq!(filled(&t, y), x as usize);
            }
            assert_eq!(t.score(), 0);
        }
    }
    // Four rows at once: 4 * 100 + 3 * 25.
    assert_eq!(t.score(), 475);
    assert_eq!(t.fall_speed(), 14);
    for y in 0..GAME_HEIGHT {
        assert_eq!(filled(&t, y), 0);
    }
}

#[test]
fn straights_tiling_one_row_clear_it_for_one_hundred() {
    let mut t = game(9);
    // Lying Straights cover columns x-2..=x+1.
    drop_straight(&mut t, true, 3);
    drop_straight(&mut t, true, 7);
    drop_straight(&mut t, false, 9);
    assert_eq!(filled(&t, 19), 9);
    assert_eq!(t.score(), 0);
    drop_straight(&mut t, false, 10);
    assert_eq!(t.score(), 100);
    assert_eq!(t.fall_speed(), 11);
    assert_eq!(filled(&t, 19), 2);
    assert_eq!(filled(&t, 16), 0);
    assert!(t.board().is_occupied(8, 17));
    assert!(t.board().is_occupied(9, 17));
}

#[test]
fn two_rows_at_once_score_two_hundred_twenty_five() {
    let mut t = game(4);
    // Two lying Straights per row for columns 1..=8, then two Squares.
    drop_straight(&mut t, true, 3);
    drop_straight(&mut t, true, 7);
    drop_straight(&mut t, true, 3);
    drop_straight(&mut t, true, 7);
    t.spawn_piece(PieceKind::Square);
    while t.position().0 < 9 {
        t.update(Some('d'));
    }
    t.update(Some(' '));
    assert_eq!(t.score(), 225);
    assert_eq!(t.fall_speed(), 12);
}

#[test]
fn piece_falls_when_the_timer_reaches_thirty() {
    let mut t = game(8);
    t.update(None);
    let y = t.position().1;
    // The first tick left the timer at 1: it reaches 30 on the 29th tick after.
    for _ in 0..28 {
        t.update(None);
    }
    assert_eq!(t.position().1, y);
    t.update(None);
    assert_eq!(t.position().1, y + 1);
}

#[test]
fn piece_settles_when_it_cannot_fall() {
    let mut t = game(8);
    t.spawn_piece(PieceKind::Square);
    let mut ticks = 0;
    while t.board().height() > 0 && !t.board().is_occupied(4, 19) {
        t.update(None);
        ticks += 1;
        assert!(ticks < 2000);
    }
    assert!(t.board().is_occupied(4, 18));
    assert!(t.board().is_occupied(5, 19));
}

#[test]
fn blocks_reaching_the_top_end_the_game() {
    let mut t = game(6);
    let mut drops = 0;
    while t.is_running() {
        drop_straight(&mut t, false, 5);
        drops += 1;
        assert!(drops < 10);
    }
    assert!(!t.is_running());
}

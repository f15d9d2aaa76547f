//! The game engine: the active, held and previous pieces, the playfield,
//! score and fall timing, advanced one tick at a time, and drawn onto a
//! screen.
use vstd::prelude::*;
use crate::board::{
    cleared_rows, empty_row, full_rows, lemma_placement_flags, placement_flags, Board, Cells, GAME_HEIGHT,
    GAME_WIDTH,
};
use crate::piece::{kind_fill, kind_of_index, kind_offsets, PieceKind};
use crate::random::RandomGenerator;
use crate::glyphs::FULL_BLOCK;
use crate::screen::{
    blank_pixel, box_drawn_at, covers, decimal, decimal_chars, shape_drawn_at, text_drawn_at, Color,
    DimensionError, Pixel, Screen,
};
use crate::shape::{negatable, offsets_within, rotated_offsets, lemma_rotate_inverse, Shape, SHAPE_PIXEL_COUNT};

verus! {

pub const SCREEN_WIDTH: u32 = 30;
pub const SCREEN_HEIGHT: u32 = 25;

/// Where a new or swapped-in piece has its pivot.
pub const PLAYER_STARTING_X: u16 = 5;
pub const PLAYER_STARTING_Y: u16 = 3;

/// Ticks per second of the game loop.
pub const FRAME_RATE: u16 = 60;

/// The fall timer value at which the active piece falls one row.
pub const FALL_THRESHOLD: u16 = FRAME_RATE / 2;

/// The fall speed at the start, in tenths of a timer step per tick.
pub const BASE_FALL_SPEED: u32 = 10;

pub const RANDOM_MODULUS: u64 = 101;
pub const RANDOM_MULTIPLIER: u64 = 4;
pub const RANDOM_INCREMENT: u64 = 1;

/// No pivot coordinate goes past this; a piece there is far outside the
/// playfield in any case.
pub const POSITION_LIMIT: u16 = 40000;

/// A piece in play: its kind and its current, possibly turned, shape.
#[derive(Clone, Copy, PartialEq, Eq, Debug)]
pub struct Piece {
    pub kind: PieceKind,
    pub shape: Shape,
}

/// A piece as the contracts see it.
pub struct PieceModel {
    pub kind: PieceKind,
    pub offsets: Seq<(i16, i16)>,
    pub fill: crate::screen::Pixel,
}

impl Piece {
    pub open spec fn model(self) -> PieceModel {
        PieceModel { kind: self.kind, offsets: self.shape.pixels@, fill: self.shape.fill_pixel }
    }
}

pub open spec fn model_of(p: Option<Piece>) -> Option<PieceModel> {
    match p {
        Some(q) => Some(q.model()),
        None => None,
    }
}

/// A piece of `kind` as it spawns.
pub open spec fn fresh_piece(kind: PieceKind) -> PieceModel {
    PieceModel { kind, offsets: kind_offsets(kind), fill: kind_fill(kind) }
}

/// The state of a game as the contracts see it.
pub struct Game {
    pub board: Seq<Cells>,
    pub current: Option<PieceModel>,
    pub held: Option<PieceModel>,
    /// The kind of the piece that last settled or was put on hold.
    pub previous: Option<PieceKind>,
    pub x: u16,
    pub y: u16,
    pub score: u32,
    pub fall_timer: u16,
    /// In tenths of a timer step per tick.
    pub fall_speed: u32,
    pub can_hold: bool,
    pub running: bool,
    pub rng: RandomGenerator,
}

pub open spec fn piece_ok(p: Option<PieceModel>) -> bool {
    match p {
        Some(q) => negatable(q.offsets) && q.offsets.len() == SHAPE_PIXEL_COUNT,
        None => true,
    }
}

impl Game {
    pub open spec fn wf(self) -> bool {
        &&& self.board.len() == GAME_HEIGHT
        &&& forall|r: int| 0 <= r < self.board.len() ==> (#[trigger] self.board[r]).len() == GAME_WIDTH
        &&& self.rng.modulus > 0
        &&& self.x <= POSITION_LIMIT
        &&& self.y <= POSITION_LIMIT
        &&& piece_ok(self.current)
        &&& piece_ok(self.held)
    }
}

/// The game at the start: an empty playfield, no piece yet.
pub open spec fn initial_game(seed: u64) -> Game {
    Game {
        board: Seq::new(GAME_HEIGHT as nat, |i: int| empty_row()),
        current: None,
        held: None,
        previous: None,
        x: PLAYER_STARTING_X,
        y: PLAYER_STARTING_Y,
        score: 0,
        fall_timer: 0,
        fall_speed: BASE_FALL_SPEED,
        can_hold: true,
        running: true,
        rng: RandomGenerator {
            modulus: RANDOM_MODULUS,
            multiplier: RANDOM_MULTIPLIER,
            increment: RANDOM_INCREMENT,
            seed,
        },
    }
}

/// The collision checker on the active piece; with none, both flags are false.
pub open spec fn flags(g: Game) -> (bool, bool) {
    match g.current {
        Some(p) => placement_flags(g.board, p.offsets, g.x as int, g.y as int),
        None => (false, false),
    }
}

/// What a settled cell holds: the color code of a basic color, else nothing.
pub open spec fn color_code(c: Color) -> Option<u8> {
    match c {
        Color::Basic(v) => Some(v),
        Color::Default => None,
    }
}

/// The playfield with the cells of `offsets` anchored at `(x, y)` written in
/// (cell `(bx, by)` goes to row `by`, column `bx - 1`); cells off the
/// playfield are left out.
pub open spec fn stamped(board: Seq<Cells>, offsets: Seq<(i16, i16)>, fill: Option<u8>, x: int, y: int) -> Seq<Cells> {
    Seq::new(
        board.len(),
        |r: int|
            Seq::new(
                board[r].len(),
                |c: int|
                    if covers(offsets, x, y, c + 1, r) {
                        fill
                    } else {
                        board[r][c]
                    },
            ),
    )
}

/// Points for clearing `k` rows at once: 100 each, and 25 for every row
/// after the first.
pub open spec fn clear_points(k: int) -> int {
    if k > 0 {
        100 * k + 25 * (k - 1)
    } else {
        0
    }
}

pub open spec fn saturating_u32(v: int) -> u32 {
    if v > u32::MAX {
        u32::MAX
    } else {
        v as u32
    }
}

pub open spec fn saturating_u16(v: int) -> u16 {
    if v > u16::MAX {
        u16::MAX
    } else {
        v as u16
    }
}

/// The active piece written into the playfield, full rows cleared, points
/// and speed added for them, and holding allowed again.
pub open spec fn fossilized(g: Game) -> Game {
    match g.current {
        Some(p) => {
            let b = stamped(g.board, p.offsets, color_code(p.fill.color), g.x as int, g.y as int);
            let k = full_rows(b).len() as int;
            Game {
                board: cleared_rows(b),
                current: None,
                previous: Some(p.kind),
                score: saturating_u32(g.score + clear_points(k)),
                fall_speed: saturating_u32(g.fall_speed + k),
                can_hold: true,
                ..g
            }
        },
        None => Game { can_hold: true, ..g },
    }
}

/// One tick of the fall timer: it advances by the speed; once it has
/// reached the threshold it is reset and the active piece moves down a row,
/// or, where that row is blocked, stays and settles.
pub open spec fn fall_step(g: Game) -> Game {
    let g0 = Game { fall_timer: saturating_u16(g.fall_timer + g.fall_speed / 10), ..g };
    if g0.fall_timer >= FALL_THRESHOLD {
        let g1 = Game { fall_timer: 0, ..g0 };
        if g1.current is Some {
            let down = Game { y: (g1.y + 1) as u16, ..g1 };
            if flags(down).1 {
                down
            } else {
                fossilized(g1)
            }
        } else {
            g1
        }
    } else {
        g0
    }
}

/// The first row, from `y` down, at which the active piece no longer passes
/// the row check (or `POSITION_LIMIT`).
pub open spec fn first_blocked_row(g: Game, y: int) -> int
    decreases POSITION_LIMIT - y,
{
    if y < POSITION_LIMIT && flags(Game { y: y as u16, ..g }).1 {
        first_blocked_row(g, y + 1)
    } else {
        y
    }
}

/// The row the active piece lands on when dropped: the last one before it
/// is blocked.
pub open spec fn landing_row(g: Game) -> u16 {
    let b = first_blocked_row(g, g.y as int);
    if b > 0 {
        (b - 1) as u16
    } else {
        0
    }
}

/// The active piece turned once or twice; kept only where it stays within
/// the columns and rows at its anchor.
pub open spec fn rotated(g: Game, rotate_left: bool, twice: bool) -> Game {
    match g.current {
        Some(p) => {
            let once = rotated_offsets(p.offsets, rotate_left);
            let o = if twice {
                rotated_offsets(once, rotate_left)
            } else {
                once
            };
            let w = offsets_within(o, g.x as int, g.y as int, GAME_HEIGHT as int);
            if w.0 && w.1 {
                Game { current: Some(PieceModel { offsets: o, ..p }), ..g }
            } else {
                g
            }
        },
        None => g,
    }
}

/// Hold: where allowed, the active and held pieces swap, the pivot goes
/// back to the start, and holding is barred until the next piece settles.
pub open spec fn held(g: Game) -> Game {
    if g.can_hold {
        Game {
            current: g.held,
            held: g.current,
            previous: match g.current {
                Some(p) => Some(p.kind),
                None => None,
            },
            x: PLAYER_STARTING_X,
            y: PLAYER_STARTING_Y,
            can_hold: false,
            ..g
        }
    } else {
        g
    }
}

/// One key: `q` quits, `a` and `d` move left and right where the column
/// check passes, `s` and `w` turn left and right, `z` and `x` turn twice,
/// `h` holds, a space drops the piece and settles it; others do nothing.
pub open spec fn input_step(g: Game, c: char) -> Game {
    if c == 'q' {
        Game { running: false, ..g }
    } else if c == 'a' {
        if g.x > 0 {
            let m = Game { x: (g.x - 1) as u16, ..g };
            if flags(m).0 {
                m
            } else {
                g
            }
        } else {
            g
        }
    } else if c == 'd' {
        let m = Game { x: (g.x + 1) as u16, ..g };
        if flags(m).0 {
            m
        } else {
            g
        }
    } else if c == 's' {
        rotated(g, true, false)
    } else if c == 'w' {
        rotated(g, false, false)
    } else if c == 'z' {
        rotated(g, true, true)
    } else if c == 'x' {
        rotated(g, false, true)
    } else if c == 'h' {
        held(g)
    } else if c == ' ' {
        fossilized(Game { y: landing_row(g), ..g })
    } else {
        g
    }
}

/// How many numbers the generator `r` draws to pick the next kind: it
/// draws until the kind differs from `previous`, at most `budget` times.
pub open spec fn draws_needed(r: RandomGenerator, previous: Option<PieceKind>, budget: nat) -> nat
    decreases budget,
{
    if budget <= 1 || previous != Some(kind_of_index(r.next_value())) {
        1
    } else {
        1 + draws_needed(r.advanced(), previous, (budget - 1) as nat)
    }
}

/// A fresh piece of `kind` at the start position; the game is over where it
/// does not pass the collision check there.
pub open spec fn placed(g: Game, kind: PieceKind) -> Game {
    let g1 = Game {
        current: Some(fresh_piece(kind)),
        x: PLAYER_STARTING_X,
        y: PLAYER_STARTING_Y,
        ..g
    };
    let f = flags(g1);
    if f.0 && f.1 {
        g1
    } else {
        Game { running: false, ..g1 }
    }
}

/// With no active piece, one of the kind that the generator picks, drawing
/// as many numbers as `draws_needed` says.
pub open spec fn spawned(g: Game) -> Game {
    if g.current is None {
        let r = g.rng.advanced_by(draws_needed(g.rng, g.previous, g.rng.modulus as nat));
        placed(Game { rng: r, ..g }, kind_of_index(r.seed))
    } else {
        g
    }
}

/// One tick: the fall timer, then the key (if any), then a new piece where
/// none is active.
pub open spec fn tick(g: Game, input: Option<char>) -> Game {
    let fallen = fall_step(g);
    let acted = match input {
        Some(c) => input_step(fallen, c),
        None => fallen,
    };
    spawned(acted)
}

/// What a settled block leaves at `(x, y)` of the screen: the playfield is
/// drawn inside a one-cell frame, so row `r`, column `c` goes to
/// `(c + 1, r + 1)`.
pub open spec fn block_drawn_at(old: Pixel, board: Seq<Cells>, x: int, y: int) -> Pixel {
    if 1 <= x <= GAME_WIDTH && 1 <= y <= board.len() && board[y - 1][x - 1] is Some {
        Pixel { shape: [FULL_BLOCK, FULL_BLOCK], color: Color::Basic(board[y - 1][x - 1]->0) }
    } else {
        old
    }
}

pub open spec fn piece_drawn_at(old: Pixel, p: Option<PieceModel>, xp: int, yp: int, ghost: bool, x: int, y: int) -> Pixel {
    match p {
        Some(q) => shape_drawn_at(old, q.offsets, q.fill, xp, yp, ghost, x, y),
        None => old,
    }
}

/// Column of the side panel.
pub open spec fn panel_x() -> int {
    GAME_WIDTH + 2
}

/// The frame that `render` draws, cell by cell: the ghost of the active
/// piece where it would land, the playfield's frame, the score and the key
/// help, the hold box with the held piece, the settled blocks, and the
/// active piece on top.
pub open spec fn render_pixel(g: Game, x: int, y: int) -> Pixel {
    let p = piece_drawn_at(blank_pixel(), g.current, g.x as int, landing_row(g) + 1, true, x, y);
    let p = box_drawn_at(p, 0, 0, GAME_WIDTH + 1, GAME_HEIGHT + 1, x, y);
    let p = text_drawn_at(p, "SCORE"@, panel_x(), 1, x, y);
    let p = text_drawn_at(p, decimal(g.score as nat), panel_x(), 2, x, y);
    let p = text_drawn_at(p, "CONTROLS"@, panel_x(), 4, x, y);
    let p = text_drawn_at(p, "a => Move Left"@, panel_x(), 5, x, y);
    let p = text_drawn_at(p, "d => Move Right"@, panel_x(), 6, x, y);
    let p = text_drawn_at(p, "w => Rotate Right"@, panel_x(), 7, x, y);
    let p = text_drawn_at(p, "s => Rotate Left"@, panel_x(), 8, x, y);
    let p = text_drawn_at(p, "z => Rotate left 180 degrees"@, panel_x(), 9, x, y);
    let p = text_drawn_at(p, "x => Rotate right 180 degrees"@, panel_x(), 10, x, y);
    let p = text_drawn_at(p, "h => Hold"@, panel_x(), 11, x, y);
    let p = text_drawn_at(p, "[SPACE] => Drop"@, panel_x(), 12, x, y);
    let p = box_drawn_at(p, panel_x(), 13, panel_x() + 7, 20, x, y);
    let p = piece_drawn_at(p, g.held, panel_x() + 4, 17, false, x, y);
    let p = block_drawn_at(p, g.board, x, y);
    piece_drawn_at(p, g.current, g.x as int, g.y as int, false, x, y)
}

/// Draws the settled blocks of `blocks` inside the playfield's frame.
fn draw_blocks(screen: &mut Screen, blocks: &Board)
    requires
        old(screen).wf(),
        old(screen).spec_width() > GAME_WIDTH,
        old(screen).spec_height() > blocks@.len(),
        blocks.wf(),
    ensures
        final(screen).wf(),
        final(screen).same_shape(old(screen)),
        forall|x: int, y: int|
            0 <= x < old(screen).spec_width() && 0 <= y < old(screen).spec_height() ==> #[trigger] final(screen).pixel(x, y)
                == block_drawn_at(old(screen).pixel(x, y), blocks@, x, y),
{
    let height = blocks.height();
    let mut i: usize = 0;
    while i < height
        invariant
            screen.wf(),
            screen.same_shape(old(screen)),
            old(screen).spec_width() > GAME_WIDTH,
            old(screen).spec_height() > height,
            height == blocks@.len(),
            blocks.wf(),
            i <= height,
            forall|x: int, y: int|
                0 <= x < old(screen).spec_width() && 0 <= y < old(screen).spec_height() ==> #[trigger] screen.pixel(x, y)
                    == if y <= i {
                    block_drawn_at(old(screen).pixel(x, y), blocks@, x, y)
                } else {
                    old(screen).pixel(x, y)
                },
        decreases height - i,
    {
        let mut j: usize = 0;
        while j < GAME_WIDTH
            invariant
                screen.wf(),
                screen.same_shape(old(screen)),
                old(screen).spec_width() > GAME_WIDTH,
                old(screen).spec_height() > height,
                height == blocks@.len(),
                blocks.wf(),
                i < height,
                j <= GAME_WIDTH,
                forall|x: int, y: int|
                    0 <= x < old(screen).spec_width() && 0 <= y < old(screen).spec_height() ==> #[trigger] screen.pixel(x, y)
                        == if y <= i || (y == i + 1 && x <= j) {
                        block_drawn_at(old(screen).pixel(x, y), blocks@, x, y)
                    } else {
                        old(screen).pixel(x, y)
                    },
            decreases GAME_WIDTH - j,
        {
            if let Some(color) = blocks.cell(j, i) {
                screen.set_pixel(
                    (j + 1) as u32,
                    (i + 1) as u32,
                    Pixel { shape: [FULL_BLOCK, FULL_BLOCK], color: Color::Basic(color) },
                );
            }
            j += 1;
        }
        i += 1;
    }
}

pub struct Tetris {
    screen: Screen,
    is_running: bool,
    random_generator: RandomGenerator,
    fall_timer: u16,
    fall_speed: u32,
    player_x: u16,
    player_y: u16,
    score: u32,
    blocks: Board,
    previous_kind: Option<PieceKind>,
    current_piece: Option<Piece>,
    held_piece: Option<Piece>,
    can_hold_shape: bool,
}

impl View for Tetris {
    type V = Game;

    closed spec fn view(&self) -> Game {
        Game {
            board: self.blocks@,
            current: model_of(self.current_piece),
            held: model_of(self.held_piece),
            previous: self.previous_kind,
            x: self.player_x,
            y: self.player_y,
            score: self.score,
            fall_timer: self.fall_timer,
            fall_speed: self.fall_speed,
            can_hold: self.can_hold_shape,
            running: self.is_running,
            rng: self.random_generator,
        }
    }
}

/// Writing one more cell of `offsets` changes the stamped playfield at that
/// cell alone, and not at all where the cell is off the playfield.
proof fn lemma_stamp_step(board: Seq<Cells>, offsets: Seq<(i16, i16)>, fill: Option<u8>, x: int, y: int, i: int)
    requires
        0 <= i < offsets.len(),
        forall|r: int| 0 <= r < board.len() ==> (#[trigger] board[r]).len() == GAME_WIDTH,
    ensures
        ({
            let before = stamped(board, offsets.subrange(0, i), fill, x, y);
            let after = stamped(board, offsets.subrange(0, i + 1), fill, x, y);
            let bx = x + offsets[i].0;
            let by = y + offsets[i].1;
            if 1 <= bx <= GAME_WIDTH && 0 <= by < board.len() {
                after == before.update(by, before[by].update(bx - 1, fill))
            } else {
                after == before
            }
        }),
{
    let before = stamped(board, offsets.subrange(0, i), fill, x, y);
    let after = stamped(board, offsets.subrange(0, i + 1), fill, x, y);
    let bx = x + offsets[i].0;
    let by = y + offsets[i].1;
    let pre = offsets.subrange(0, i);
    let post = offsets.subrange(0, i + 1);
    assert forall|c: int, r: int| covers(post, x, y, c, r) <==> (covers(pre, x, y, c, r) || (c == bx && r == by)) by {
        if covers(pre, x, y, c, r) {
            let k = choose|k: int| 0 <= k < pre.len() && x + pre[k].0 == c && y + pre[k].1 == r;
            assert(post[k] == pre[k]);
        }
        if c == bx && r == by {
            assert(post[i] == offsets[i]);
        }
        if covers(post, x, y, c, r) {
            let k = choose|k: int| 0 <= k < post.len() && x + post[k].0 == c && y + post[k].1 == r;
            if k < i {
                assert(post[k] == pre[k]);
            }
        }
    }
    if 1 <= bx <= GAME_WIDTH && 0 <= by < board.len() {
        let expected = before.update(by, before[by].update(bx - 1, fill));
        assert forall|r: int| 0 <= r < board.len() implies #[trigger] after[r] == expected[r] by {
            assert(after[r] =~= expected[r]);
        }
        assert(after =~= expected);
    } else {
        assert forall|r: int| 0 <= r < board.len() implies #[trigger] after[r] == before[r] by {
            assert(after[r] =~= before[r]);
        }
        assert(after =~= before);
    }
}

/// Writes the cells of `shape` anchored at `(x, y)` into the playfield.
fn stamp(blocks: &mut Board, shape: &Shape, fill: Option<u8>, x: u16, y: u16)
    requires
        old(blocks)@.len() == GAME_HEIGHT,
    ensures
        final(blocks)@ == stamped(old(blocks)@, shape.pixels@, fill, x as int, y as int),
        final(blocks).wf(),
{
    let ghost board0 = blocks@;
    let ghost offsets = shape.pixels@;
    proof {
        blocks.lemma_wf();
        assert(stamped(board0, offsets.subrange(0, 0), fill, x as int, y as int) =~= board0) by {
            assert forall|r: int| 0 <= r < board0.len() implies #[trigger] stamped(board0, offsets.subrange(0, 0), fill, x as int, y as int)[r] =~= board0[r] by {}
        }
    }
    let mut i: usize = 0;
    while i < SHAPE_PIXEL_COUNT
        invariant
            0 <= i <= SHAPE_PIXEL_COUNT,
            offsets == shape.pixels@,
            offsets.len() == SHAPE_PIXEL_COUNT,
            board0.len() == GAME_HEIGHT,
            forall|r: int| 0 <= r < board0.len() ==> (#[trigger] board0[r]).len() == GAME_WIDTH,
            blocks@ == stamped(board0, offsets.subrange(0, i as int), fill, x as int, y as int),
        decreases SHAPE_PIXEL_COUNT - i,
    {
        proof {
            lemma_stamp_step(board0, offsets, fill, x as int, y as int, i as int);
        }
        let (dx, dy) = shape.pixels[i];
        let bx: i32 = x as i32 + dx as i32;
        let by: i32 = y as i32 + dy as i32;
        if 1 <= bx && bx <= GAME_WIDTH as i32 && 0 <= by && by < GAME_HEIGHT as i32 {
            match fill {
                Some(c) => blocks.set_cell((bx - 1) as usize, by as usize, c),
                None => blocks.clear_cell((bx - 1) as usize, by as usize),
            }
        }
        i += 1;
    }
    assert(offsets.subrange(0, SHAPE_PIXEL_COUNT as int) =~= offsets);
    proof {
        blocks.lemma_wf();
    }
}

impl Tetris {
    /// What is drawn on the screen.
    pub closed spec fn frame(&self) -> Screen {
        self.screen
    }

    pub open spec fn wf(&self) -> bool {
        &&& self@.wf()
        &&& self.frame().wf()
        &&& self.frame().spec_width() == SCREEN_WIDTH
        &&& self.frame().spec_height() == SCREEN_HEIGHT
    }

    /// A new game whose piece generator starts from `seed`.
    pub fn new(seed: u64) -> (r: Result<Tetris, DimensionError>)
        ensures
            r matches Ok(t) && t.wf() && t@ == initial_game(seed) && !t.frame().cursor_moved(),
    {
        let screen = Screen::new(SCREEN_WIDTH, SCREEN_HEIGHT)?;
        let blocks = Board::new(GAME_HEIGHT);
        proof {
            blocks.lemma_wf();
        }
        Ok(Tetris {
            screen,
            is_running: true,
            random_generator: RandomGenerator::new(RANDOM_MODULUS, RANDOM_MULTIPLIER, RANDOM_INCREMENT, seed),
            fall_timer: 0,
            fall_speed: BASE_FALL_SPEED,
            player_x: PLAYER_STARTING_X,
            player_y: PLAYER_STARTING_Y,
            score: 0,
            blocks,
            previous_kind: None,
            current_piece: None,
            held_piece: None,
            can_hold_shape: true,
        })
    }

    pub fn is_running(&self) -> (r: bool)
        ensures
            r == self@.running,
    {
        self.is_running
    }

    /// The collision checker on the active piece at its anchor.
    fn is_shape_in_bounds(&self) -> (r: (bool, bool))
        ensures
            r == flags(self@),
    {
        match &self.current_piece {
            Some(piece) => self.blocks.check_placement(&piece.shape, self.player_x, self.player_y),
            None => (false, false),
        }
    }

    /// Writes the active piece into the playfield, clears full rows and
    /// scores them; holding is allowed again.
    fn fossilize_current_piece(&mut self)
        requires
            old(self).wf(),
        ensures
            final(self).wf(),
            final(self)@ == fossilized(old(self)@),
            final(self).frame() == old(self).frame(),
    {
        if let Some(piece) = self.current_piece {
            let fill = match piece.shape.fill_pixel.color {
                Color::Basic(c) => Some(c),
                Color::Default => None,
            };
            stamp(&mut self.blocks, &piece.shape, fill, self.player_x, self.player_y);
            self.previous_kind = Some(piece.kind);
            self.current_piece = None;
            let rows_cleared = self.blocks.clear_full_rows();
            proof {
                self.blocks.lemma_wf();
            }
            let mut points: u64 = rows_cleared as u64 * 100;
            if rows_cleared > 0 {
                points = points + (rows_cleared as u64 - 1) * 25;
            }
            let score: u64 = self.score as u64 + points;
            self.score = if score > u32::MAX as u64 {
                u32::MAX
            } else {
                score as u32
            };
            let speed: u64 = self.fall_speed as u64 + rows_cleared as u64;
            self.fall_speed = if speed > u32::MAX as u64 {
                u32::MAX
            } else {
                speed as u32
            };
        }
        self.can_hold_shape = true;
    }

    /// Drops the active piece to the last row before it is blocked.
    fn fall_until_hit(&mut self)
        requires
            old(self).wf(),
        ensures
            final(self).wf(),
            final(self)@ == (Game { y: landing_row(old(self)@), ..old(self)@ }),
            final(self).frame() == old(self).frame(),
    {
        self.player_y = self.drop_row();
    }

    pub fn score(&self) -> (r: u32)
        ensures
            r == self@.score,
    {
        self.score
    }

    pub fn board(&self) -> (r: &Board)
        ensures
            r@ == self@.board,
    {
        &self.blocks
    }

    pub fn current_piece(&self) -> (r: Option<Piece>)
        ensures
            model_of(r) == self@.current,
    {
        self.current_piece
    }

    pub fn held_piece(&self) -> (r: Option<Piece>)
        ensures
            model_of(r) == self@.held,
    {
        self.held_piece
    }

    /// The pivot of the active piece.
    pub fn position(&self) -> (r: (u16, u16))
        ensures
            r == (self@.x, self@.y),
    {
        (self.player_x, self.player_y)
    }

    /// In tenths of a timer step per tick.
    pub fn fall_speed(&self) -> (r: u32)
        ensures
            r == self@.fall_speed,
    {
        self.fall_speed
    }

    pub fn screen(&self) -> (r: &Screen)
        ensures
            *r == self.frame(),
    {
        &self.screen
    }

    /// The row the active piece would land on if dropped now.
    fn drop_row(&self) -> (r: u16)
        requires
            self.wf(),
        ensures
            r == landing_row(self@),
            r <= POSITION_LIMIT,
    {
        let mut y = self.player_y;
        loop
            invariant
                self.wf(),
                y <= POSITION_LIMIT,
                first_blocked_row(self@, self@.y as int) == first_blocked_row(self@, y as int),
            decreases POSITION_LIMIT - y,
        {
            let not_at_bottom = match &self.current_piece {
                Some(piece) => self.blocks.check_placement(&piece.shape, self.player_x, y).1,
                None => false,
            };
            assert(not_at_bottom == flags(Game { y: y, ..self@ }).1);
            if y < POSITION_LIMIT && not_at_bottom {
                y += 1;
            } else {
                return if y > 0 {
                    y - 1
                } else {
                    0
                };
            }
        }
    }

    /// Turns the active piece once or twice; where it would leave the
    /// columns or rows at its anchor, it stays as it was.
    fn rotate_current(&mut self, rotate_left: bool, twice: bool)
        requires
            old(self).wf(),
        ensures
            final(self).wf(),
            final(self)@ == rotated(old(self)@, rotate_left, twice),
            final(self).frame() == old(self).frame(),
    {
        if let Some(piece) = self.current_piece {
            let mut shape = piece.shape;
            proof {
                lemma_rotate_inverse(shape.pixels@);
            }
            shape.rotate(rotate_left);
            if twice {
                proof {
                    lemma_rotate_inverse(shape.pixels@);
                }
                shape.rotate(rotate_left);
            }
            proof {
                lemma_rotate_inverse(shape.pixels@);
            }
            let (within_x_bounds, within_y_bounds) = shape.is_within_bounds(self.player_x, self.player_y);
            if within_x_bounds && within_y_bounds {
                self.current_piece = Some(Piece { kind: piece.kind, shape });
            }
        }
    }

    /// Swaps the active and held pieces where holding is allowed.
    fn hold(&mut self)
        requires
            old(self).wf(),
        ensures
            final(self).wf(),
            final(self)@ == held(old(self)@),
            final(self).frame() == old(self).frame(),
    {
        if self.can_hold_shape {
            let current = self.current_piece;
            self.current_piece = self.held_piece;
            self.previous_kind = match current {
                Some(p) => Some(p.kind),
                None => None,
            };
            self.held_piece = current;
            self.player_x = PLAYER_STARTING_X;
            self.player_y = PLAYER_STARTING_Y;
            self.can_hold_shape = false;
        }
    }

    /// Acts on one key.
    fn handle_input(&mut self, input: char)
        requires
            old(self).wf(),
        ensures
            final(self).wf(),
            final(self)@ == input_step(old(self)@, input),
            final(self).frame() == old(self).frame(),
    {
        if input == 'q' {
            self.is_running = false;
        } else if input == 'a' {
            if self.player_x > 0 {
                self.player_x -= 1;
                let (within_bounds, _) = self.is_shape_in_bounds();
                if !within_bounds {
                    self.player_x += 1;
                }
            }
        } else if input == 'd' {
            self.player_x += 1;
            let (within_bounds, _) = self.is_shape_in_bounds();
            if !within_bounds {
                self.player_x -= 1;
            } else {
                proof {
                    lemma_flags_bound(self@);
                }
            }
        } else if input == 's' {
            self.rotate_current(true, false);
        } else if input == 'w' {
            self.rotate_current(false, false);
        } else if input == 'z' {
            self.rotate_current(true, true);
        } else if input == 'x' {
            self.rotate_current(false, true);
        } else if input == 'h' {
            self.hold();
        } else if input == ' ' {
            self.fall_until_hit();
            self.fossilize_current_piece();
        }
    }

    /// Draws numbers until the kind they select differs from the previous
    /// piece's, at most `modulus` times, and returns the last kind drawn.
    fn draw_kind(&mut self) -> (kind: PieceKind)
        requires
            old(self).wf(),
        ensures
            final(self).wf(),
            final(self)@ == (Game {
                rng: old(self)@.rng.advanced_by(draws_needed(old(self)@.rng, old(self)@.previous, old(self)@.rng.modulus as nat)),
                ..old(self)@
            }),
            kind == kind_of_index(final(self)@.rng.seed),
            final(self).frame() == old(self).frame(),
    {
        let ghost start = self.random_generator;
        let ghost prev = self.previous_kind;
        let budget = self.random_generator.modulus;
        let mut tries: u64 = 1;
        let mut kind = PieceKind::from_index(self.random_generator.generate());
        proof {
            start.lemma_advanced_by_succ(0);
            assert(start.advanced_by(0) == start);
        }
        while tries < budget && is_kind(self.previous_kind, kind)
            invariant
                self.wf(),
                self@ == (Game { rng: self.random_generator, ..old(self)@ }),
                self.frame() == old(self).frame(),
                prev == old(self)@.previous,
                self.previous_kind == prev,
                start == old(self)@.rng,
                1 <= tries <= budget,
                budget == start.modulus,
                self.random_generator == start.advanced_by(tries as nat),
                self.random_generator == start.advanced_by((tries - 1) as nat).advanced(),
                kind == kind_of_index(self.random_generator.seed),
                draws_needed(start, prev, budget as nat) == (tries - 1) + draws_needed(
                    start.advanced_by((tries - 1) as nat),
                    prev,
                    (budget - (tries - 1)) as nat,
                ),
            decreases budget - tries,
        {
            proof {
                start.lemma_advanced_by_succ(tries as nat);
            }
            kind = PieceKind::from_index(self.random_generator.generate());
            tries += 1;
        }
        kind
    }

    /// Puts a fresh piece of `kind` at the start position; the game ends
    /// where it does not pass the collision check there.
    pub fn spawn_piece(&mut self, kind: PieceKind)
        requires
            old(self).wf(),
        ensures
            final(self).wf(),
            final(self)@ == placed(old(self)@, kind),
            final(self).frame() == old(self).frame(),
    {
        let shape = kind.shape();
        self.current_piece = Some(Piece { kind, shape });
        self.player_x = PLAYER_STARTING_X;
        self.player_y = PLAYER_STARTING_Y;
        let (within_x_bounds, within_y_bounds) = self.is_shape_in_bounds();
        if !within_x_bounds || !within_y_bounds {
            self.is_running = false;
        }
    }

    /// Draws the game onto its screen and returns the text that shows the
    /// screen on a terminal; the game itself is left as it is.
    pub fn render(&mut self) -> (text: Vec<char>)
        requires
            old(self).wf(),
        ensures
            final(self).wf(),
            final(self)@ == old(self)@,
            final(self).frame().cursor_moved(),
            text@ == final(self).frame().frame_text(old(self).frame().cursor_moved()),
            forall|x: int, y: int|
                0 <= x < SCREEN_WIDTH && 0 <= y < SCREEN_HEIGHT ==> #[trigger] final(self).frame().pixel(x, y)
                    == render_pixel(old(self)@, x, y),
    {
        let ghost g = self@;
        self.screen.clear();
        if let Some(piece) = self.current_piece {
            let ghost_y = self.drop_row();
            self.screen.draw_shape(&piece.shape, self.player_x, ghost_y + 1, true);
        }
        let _ = self.screen.draw_box(0, 0, (GAME_WIDTH + 1) as u16, (GAME_HEIGHT + 1) as u16);
        let panel: u32 = GAME_WIDTH as u32 + 2;
        self.screen.draw_text(panel, 1, "SCORE");
        let digits = decimal_chars(self.score as u64);
        self.screen.draw_chars(panel, 2, &digits);
        self.screen.draw_text(panel, 4, "CONTROLS");
        self.screen.draw_text(panel, 5, "a => Move Left");
        self.screen.draw_text(panel, 6, "d => Move Right");
        self.screen.draw_text(panel, 7, "w => Rotate Right");
        self.screen.draw_text(panel, 8, "s => Rotate Left");
        self.screen.draw_text(panel, 9, "z => Rotate left 180 degrees");
        self.screen.draw_text(panel, 10, "x => Rotate right 180 degrees");
        self.screen.draw_text(panel, 11, "h => Hold");
        self.screen.draw_text(panel, 12, "[SPACE] => Drop");
        let hold_box_x: u16 = GAME_WIDTH as u16 + 2;
        let hold_box_y: u16 = 13;
        let hold_box_size: u16 = GAME_HEIGHT as u16 - 13;
        let _ = self.screen.draw_box(hold_box_x, hold_box_y, hold_box_size, hold_box_size);
        if let Some(held) = self.held_piece {
            self.screen.draw_shape(&held.shape, hold_box_x + 4, hold_box_y + 4, false);
        }
        proof {
            self.blocks.lemma_wf();
        }
        draw_blocks(&mut self.screen, &self.blocks);
        if let Some(piece) = self.current_piece {
            self.screen.draw_shape(&piece.shape, self.player_x, self.player_y, false);
        }
        let ghost drawn = self.screen;
        let text = self.screen.present();
        assert forall|x: int, y: int| 0 <= x < SCREEN_WIDTH && 0 <= y < SCREEN_HEIGHT implies #[trigger] self.frame().pixel(x, y)
            == drawn.pixel(x, y) by {}
        text
    }

    /// Advances the game by one tick, with the key pressed during it, if any.
    pub fn update(&mut self, input: Option<char>)
        requires
            old(self).wf(),
        ensures
            final(self).wf(),
            final(self)@ == tick(old(self)@, input),
            final(self).frame() == old(self).frame(),
    {
        let timer: u32 = self.fall_timer as u32 + self.fall_speed / 10;
        self.fall_timer = if timer > u16::MAX as u32 {
            u16::MAX
        } else {
            timer as u16
        };
        if self.fall_timer >= FALL_THRESHOLD {
            self.fall_timer = 0;
            if self.current_piece.is_some() {
                self.player_y += 1;
                let (_, not_at_bottom) = self.is_shape_in_bounds();
                if !not_at_bottom {
                    self.player_y -= 1;
                    self.fossilize_current_piece();
                } else {
                    proof {
                        lemma_flags_bound(self@);
                    }
                }
            }
        }
        if let Some(c) = input {
            self.handle_input(c);
        }
        if self.current_piece.is_none() {
            let kind = self.draw_kind();
            self.spawn_piece(kind);
        }
    }
}

fn is_kind(previous: Option<PieceKind>, kind: PieceKind) -> (r: bool)
    ensures
        r == (previous == Some(kind)),
{
    match previous {
        Some(p) => p == kind,
        None => false,
    }
}

/// A piece that passes the column check has its pivot well inside the
/// position limit, and so does one that passes the row check.
proof fn lemma_flags_bound(g: Game)
    requires
        piece_ok(g.current),
        g.board.len() == GAME_HEIGHT,
    ensures
        flags(g).0 ==> g.x <= GAME_WIDTH + 32767,
        flags(g).1 ==> g.y <= GAME_HEIGHT + 32767,
{
    if let Some(p) = g.current {
        assert(p.offsets[0].0 != i16::MIN && p.offsets[0].1 != i16::MIN);
    }
}

/// Settling a piece whose cells complete `k` rows clears them, adds
/// `100k + 25 * max(0, k - 1)` points to the score and `k` tenths to the fall
/// speed (both stopping at the largest `u32`).
pub proof fn lemma_settle_scoring(g: Game)
    requires
        g.current is Some,
    ensures
        ({
            let p = g.current->0;
            let b = stamped(g.board, p.offsets, color_code(p.fill.color), g.x as int, g.y as int);
            let k = full_rows(b).len() as int;
            let extra = if k >= 1 {
                k - 1
            } else {
                0
            };
            &&& fossilized(g).board == cleared_rows(b)
            &&& fossilized(g).score == saturating_u32(g.score + 100 * k + 25 * extra)
            &&& fossilized(g).fall_speed == saturating_u32(g.fall_speed + k)
        }),
{
}

proof fn lemma_fossilized_score(g: Game)
    ensures
        fossilized(g).score >= g.score,
{
}

/// The score never goes down: no tick lowers it.
pub proof fn lemma_score_never_decreases(g: Game, input: Option<char>)
    ensures
        tick(g, input).score >= g.score,
{
    let fallen = fall_step(g);
    lemma_fossilized_score(Game { fall_timer: 0, ..g });
    assert(fallen.score >= g.score);
    if let Some(c) = input {
        lemma_fossilized_score(Game { y: landing_row(fallen), ..fallen });
        assert(input_step(fallen, c).score >= fallen.score);
    }
}

/// Drawing stops at the first number whose kind differs from `previous`,
/// so where any of the first `budget` numbers selects another kind, the
/// one picked differs from `previous`.
pub proof fn lemma_draws_avoid_previous(r: RandomGenerator, previous: Option<PieceKind>, budget: nat, j: nat)
    requires
        1 <= j <= budget,
        previous != Some(kind_of_index(r.advanced_by(j).seed)),
    ensures
        previous != Some(kind_of_index(r.advanced_by(draws_needed(r, previous, budget)).seed)),
    decreases budget,
{
    assert(r.advanced_by(1) == r.advanced().advanced_by(0));
    if budget <= 1 || previous != Some(kind_of_index(r.next_value())) {
    } else {
        assert(j != 1);
        assert(r.advanced_by(j) == r.advanced().advanced_by((j - 1) as nat));
        lemma_draws_avoid_previous(r.advanced(), previous, (budget - 1) as nat, (j - 1) as nat);
        let d = draws_needed(r.advanced(), previous, (budget - 1) as nat);
        assert(r.advanced_by(1 + d) == r.advanced().advanced_by(d));
    }
}

/// No two pieces in a row are of the same kind, where the generator can
/// give another kind at all: if any of the next `modulus` numbers selects a
/// kind other than the previous piece's, the piece spawned is not of the
/// previous kind.
pub proof fn lemma_spawn_avoids_repeat(g: Game, j: nat)
    requires
        g.current is None,
        g.previous is Some,
        1 <= j <= g.rng.modulus,
        g.previous != Some(kind_of_index(g.rng.advanced_by(j).seed)),
    ensures
        spawned(g).current is Some,
        Some(spawned(g).current->0.kind) != g.previous,
{
    lemma_draws_avoid_previous(g.rng, g.previous, g.rng.modulus as nat, j);
}

/// A piece of any kind spawned at the start position on an empty standard
/// playfield passes the collision check: the game goes on.
pub proof fn lemma_spawn_on_empty_board(g: Game, kind: PieceKind)
    requires
        g.board == Seq::new(GAME_HEIGHT as nat, |i: int| empty_row()),
    ensures
        placed(g, kind).running == g.running,
        placed(g, kind).current == Some(fresh_piece(kind)),
{
    let o = kind_offsets(kind);
    let x = PLAYER_STARTING_X as int;
    let y = PLAYER_STARTING_Y as int;
    assert(forall|i: int| 0 <= i < o.len() ==> -1 <= (#[trigger] o[i]).0 <= 1 && -2 <= o[i].1 <= 2);
    lemma_placement_flags(g.board, o, x, y);
}

/// A piece spawned by the generator on an empty standard playfield passes
/// the collision check too, whatever the generator picks.
pub proof fn lemma_spawn_from_generator_on_empty_board(g: Game)
    requires
        g.board == Seq::new(GAME_HEIGHT as nat, |i: int| empty_row()),
        g.current is None,
    ensures
        spawned(g).running == g.running,
        spawned(g).current is Some,
{
    let r = g.rng.advanced_by(draws_needed(g.rng, g.previous, g.rng.modulus as nat));
    lemma_spawn_on_empty_board(Game { rng: r, ..g }, kind_of_index(r.seed));
}

} // verus!

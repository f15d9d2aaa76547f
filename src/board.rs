//! The playfield: a fixed number of rows of `GAME_WIDTH` cells, each empty or
//! holding the color code of a settled block. Row 0 is the top row.
use vstd::prelude::*;
use crate::shape::{column_in_bounds, offsets_within, row_in_bounds, Shape, SHAPE_PIXEL_COUNT};

verus! {

pub const GAME_WIDTH: usize = 10;
pub const GAME_HEIGHT: usize = 20;

/// One row of the playfield, left to right.
pub type Row = [Option<u8>; GAME_WIDTH];

/// A row as the contracts see it: its cells, left to right.
pub type Cells = Seq<Option<u8>>;

pub open spec fn row_full(r: Cells) -> bool {
    forall|i: int| 0 <= i < r.len() ==> (#[trigger] r[i]) is Some
}

pub open spec fn empty_row() -> Cells {
    Seq::new(GAME_WIDTH as nat, |i: int| None)
}

/// The playfield after clearing: as many empty rows as there were full
/// ones, then the rows that were not full, in their order.
pub open spec fn cleared_rows(rows: Seq<Cells>) -> Seq<Cells> {
    Seq::new(full_rows(rows).len(), |i: int| empty_row()) + kept_rows(rows)
}

/// The rows that are not full, in their order.
pub open spec fn kept_rows(rows: Seq<Cells>) -> Seq<Cells> {
    rows.filter(|r: Cells| !row_full(r))
}

/// The rows that are full, in their order.
pub open spec fn full_rows(rows: Seq<Cells>) -> Seq<Cells> {
    rows.filter(|r: Cells| row_full(r))
}

/// `after` is `before` with its full rows taken out and `cleared` empty rows
/// put on top of what is left.
pub open spec fn rows_cleared(before: Seq<Cells>, after: Seq<Cells>, cleared: int) -> bool {
    &&& cleared == full_rows(before).len()
    &&& after == cleared_rows(before)
}

/// Whether the cell at column `bx`, row `by` (in the coordinates in which
/// column 1 is the playfield's first) lies inside and holds a block.
pub open spec fn cell_taken(rows: Seq<Cells>, bx: int, by: int) -> bool {
    &&& column_in_bounds(bx)
    &&& row_in_bounds(by, rows.len() as int)
    &&& rows[by][bx - 1] is Some
}

/// Some cell of `offsets` anchored at `(x, y)` lands on a settled block.
pub open spec fn collides(rows: Seq<Cells>, offsets: Seq<(i16, i16)>, x: int, y: int) -> bool {
    exists|i: int| 0 <= i < offsets.len() && cell_taken(rows, x + offsets[i].0, y + offsets[i].1)
}

/// The two flags of a placement: every cell within the columns, every cell
/// within the rows; a cell on a settled block makes both false.
pub open spec fn placement_flags(rows: Seq<Cells>, offsets: Seq<(i16, i16)>, x: int, y: int) -> (bool, bool) {
    let within = offsets_within(offsets, x, y, rows.len() as int);
    let hit = collides(rows, offsets, x, y);
    (within.0 && !hit, within.1 && !hit)
}

pub struct Board {
    rows: Vec<Row>,
}

impl View for Board {
    type V = Seq<Cells>;

    closed spec fn view(&self) -> Seq<Cells> {
        self.rows@.map_values(|r: Row| r@)
    }
}

impl Board {
    /// An empty playfield of `height` rows.
    pub fn new(height: usize) -> (r: Board)
        ensures
            r@ == Seq::new(height as nat, |i: int| empty_row()),
    {
        let mut rows: Vec<Row> = Vec::new();
        while rows.len() < height
            invariant
                rows@.len() <= height,
                forall|i: int| 0 <= i < rows@.len() ==> (#[trigger] rows@[i])@ == empty_row(),
            decreases height - rows@.len(),
        {
            let row: Row = [None; GAME_WIDTH];
            assert(row@ =~= empty_row());
            rows.push(row);
        }
        let r = Board { rows };
        assert(r@ =~= Seq::new(height as nat, |i: int| empty_row()));
        r
    }

    pub open spec fn wf(&self) -> bool {
        forall|y: int| 0 <= y < self@.len() ==> (#[trigger] self@[y]).len() == GAME_WIDTH
    }

    pub proof fn lemma_wf(&self)
        ensures
            self.wf(),
    {
        assert forall|y: int| 0 <= y < self@.len() implies (#[trigger] self@[y]).len() == GAME_WIDTH by {
            assert(self@[y] == self.rows@[y]@);
        }
    }

    pub fn height(&self) -> (r: usize)
        ensures
            r == self@.len(),
    {
        self.rows.len()
    }

    /// The color code at column `x`, row `y`, if a block is there.
    pub fn cell(&self, x: usize, y: usize) -> (r: Option<u8>)
        requires
            x < GAME_WIDTH,
            y < self@.len(),
        ensures
            r == self@[y as int][x as int],
    {
        self.rows[y][x]
    }

    pub fn is_occupied(&self, x: usize, y: usize) -> (r: bool)
        requires
            x < GAME_WIDTH,
            y < self@.len(),
        ensures
            r == self@[y as int][x as int] is Some,
    {
        self.rows[y][x].is_some()
    }

    /// Puts a block of color `color` at column `x`, row `y`.
    pub fn set_cell(&mut self, x: usize, y: usize, color: u8)
        requires
            x < GAME_WIDTH,
            y < old(self)@.len(),
        ensures
            final(self)@ == old(self)@.update(y as int, old(self)@[y as int].update(x as int, Some(color))),
    {
        self.put(x, y, Some(color));
    }

    /// Empties the cell at column `x`, row `y`.
    pub fn clear_cell(&mut self, x: usize, y: usize)
        requires
            x < GAME_WIDTH,
            y < old(self)@.len(),
        ensures
            final(self)@ == old(self)@.update(y as int, old(self)@[y as int].update(x as int, None)),
    {
        self.put(x, y, None);
    }

    fn put(&mut self, x: usize, y: usize, value: Option<u8>)
        requires
            x < GAME_WIDTH,
            y < old(self)@.len(),
        ensures
            final(self)@ == old(self)@.update(y as int, old(self)@[y as int].update(x as int, value)),
    {
        let mut row = self.rows[y];
        row[x] = value;
        self.rows.set(y, row);
        assert(self@ =~= old(self)@.update(y as int, old(self)@[y as int].update(x as int, value)));
    }

    pub fn row_is_full(&self, y: usize) -> (r: bool)
        requires
            y < self@.len(),
        ensures
            r == row_full(self@[y as int]),
    {
        full(&self.rows[y])
    }

    /// Takes out every full row, keeping the order of the others, and puts
    /// as many empty rows on top; returns how many rows it took out.
    pub fn clear_full_rows(&mut self) -> (cleared: usize)
        ensures
            rows_cleared(old(self)@, final(self)@, cleared as int),
            final(self)@.len() == old(self)@.len(),
    {
        let ghost start = self@;
        let n = self.rows.len();
        let mut kept: Vec<Row> = Vec::new();
        let mut i: usize = 0;
        while i < n
            invariant
                0 <= i <= n,
                n == start.len(),
                self@ == start,
                self.rows@.len() == n,
                kept@.map_values(|r: Row| r@) == kept_rows(start.subrange(0, i as int)),
                kept@.len() <= i,
            decreases n - i,
        {
            let row = self.rows[i];
            assert(row@ == start[i as int]);
            proof {
                reveal(Seq::filter);
                assert(start.subrange(0, i + 1).drop_last() =~= start.subrange(0, i as int));
                kept_rows(start.subrange(0, i as int)).lemma_filter_len(|r: Cells| !row_full(r));
            }
            let ghost before = kept@;
            if !full(&row) {
                kept.push(row);
                assert(kept@.map_values(|r: Row| r@) =~= before.map_values(|r: Row| r@).push(row@));
            }
            i += 1;
        }
        assert(start.subrange(0, n as int) =~= start);
        proof {
            lemma_partition_len(start);
        }
        let cleared = n - kept.len();
        let mut rows: Vec<Row> = Vec::new();
        while rows.len() < cleared
            invariant
                rows@.len() <= cleared,
                forall|j: int| 0 <= j < rows@.len() ==> (#[trigger] rows@[j])@ == empty_row(),
            decreases cleared - rows@.len(),
        {
            let row: Row = [None; GAME_WIDTH];
            assert(row@ =~= empty_row());
            rows.push(row);
        }
        let ghost top = rows@;
        let ghost rest = kept@;
        rows.append(&mut kept);
        self.rows = rows;
        assert(self@ =~= cleared_rows(start)) by {
            assert forall|j: int| 0 <= j < n implies #[trigger] self@[j] == cleared_rows(start)[j] by {
                if j < cleared {
                    assert(self.rows@[j] == top[j]);
                } else {
                    assert(self.rows@[j] == rest[j - cleared]);
                }
            }
        }
        cleared
    }

    /// Checks a placement of `shape` with its pivot at `(x, y)`: whether all
    /// its cells are within the columns, and whether all are within the rows
    /// (the top row and the rows from the height on count as out); a cell on a
    /// settled block makes both false.
    pub fn check_placement(&self, shape: &Shape, x: u16, y: u16) -> (r: (bool, bool))
        ensures
            r == placement_flags(self@, shape.pixels@, x as int, y as int),
    {
        let height = self.rows.len();
        let mut within_x_bounds = true;
        let mut within_y_bounds = true;
        let mut hit = false;
        let mut i: usize = 0;
        while i < SHAPE_PIXEL_COUNT
            invariant
                0 <= i <= SHAPE_PIXEL_COUNT,
                height == self@.len(),
                self.rows@.len() == height,
                shape.pixels@.len() == SHAPE_PIXEL_COUNT,
                within_x_bounds == (forall|j: int| 0 <= j < i ==> column_in_bounds(x + shape.pixels@[j].0)),
                within_y_bounds == (forall|j: int| 0 <= j < i ==> row_in_bounds(y + shape.pixels@[j].1, height as int)),
                hit == (exists|j: int| 0 <= j < i && cell_taken(self@, x + shape.pixels@[j].0, y + shape.pixels@[j].1)),
            decreases SHAPE_PIXEL_COUNT - i,
        {
            let (dx, dy) = shape.pixels[i];
            let block_x: i32 = dx as i32 + x as i32;
            let block_y: i32 = dy as i32 + y as i32;
            let y_ok = 0 < block_y && (block_y as usize) < height;
            let x_ok = 0 < block_x && block_x <= GAME_WIDTH as i32;
            if !y_ok {
                within_y_bounds = false;
            }
            if !x_ok {
                within_x_bounds = false;
            }
            if x_ok && y_ok {
                assert(self@[block_y as int] == self.rows@[block_y as int]@);
                if self.rows[block_y as usize][(block_x - 1) as usize].is_some() {
                    hit = true;
                }
            }
            proof {
                if !hit {
                    assert(!cell_taken(self@, x + shape.pixels@[i as int].0, y + shape.pixels@[i as int].1));
                }
            }
            i += 1;
        }
        (within_x_bounds && !hit, within_y_bounds && !hit)
    }
}

/// Every row is either full or not: the two filters split the rows.
pub proof fn lemma_partition_len(rows: Seq<Cells>)
    ensures
        full_rows(rows).len() + kept_rows(rows).len() == rows.len(),
    decreases rows.len(),
{
    reveal(Seq::filter);
    if rows.len() > 0 {
        lemma_partition_len(rows.drop_last());
    }
}

/// Clearing a playfield with exactly `k` full rows takes out exactly `k`
/// rows, keeps the rest in their order below `k` empty rows, keeps the
/// height, and leaves no row full.
pub proof fn lemma_clear_full_rows(before: Seq<Cells>, after: Seq<Cells>, cleared: int, k: int)
    requires
        full_rows(before).len() == k,
        rows_cleared(before, after, cleared),
        forall|y: int| 0 <= y < before.len() ==> (#[trigger] before[y]).len() == GAME_WIDTH,
    ensures
        cleared == k,
        0 <= k <= before.len(),
        after.len() == before.len(),
        forall|i: int| 0 <= i < k ==> #[trigger] after[i] == empty_row(),
        after.subrange(k, after.len() as int) == kept_rows(before),
        forall|i: int| 0 <= i < after.len() ==> (#[trigger] after[i]).len() == GAME_WIDTH,
        forall|i: int| 0 <= i < after.len() ==> !row_full(#[trigger] after[i]),
{
    lemma_partition_len(before);
    assert(after.subrange(k, after.len() as int) =~= kept_rows(before));
    assert forall|i: int| 0 <= i < after.len() implies !row_full(#[trigger] after[i]) && after[i].len() == GAME_WIDTH by {
        if i < k {
            assert(after[i][0] is None);
        } else {
            assert(after[i] == kept_rows(before)[i - k]);
            before.lemma_filter_pred(|r: Cells| !row_full(r), i - k);
            before.lemma_filter_contains_rev(|r: Cells| !row_full(r), after[i]);
        }
    }
}

/// The collision checker's flags. On an empty playfield a piece whose
/// cells all lie in columns `1..=GAME_WIDTH` and rows `1..height` passes on
/// both axes. A cell in column 0 or past `GAME_WIDTH` fails the column flag;
/// a cell in row 0 or in a row from the height on fails the row flag; a cell
/// on a settled block fails both.
pub proof fn lemma_placement_flags(rows: Seq<Cells>, offsets: Seq<(i16, i16)>, x: int, y: int)
    ensures
        (forall|r: int| 0 <= r < rows.len() ==> #[trigger] rows[r] == empty_row()) && (forall|i: int|
            0 <= i < offsets.len() ==> 1 <= x + (#[trigger] offsets[i]).0 <= GAME_WIDTH && 1 <= y
                + offsets[i].1 < rows.len()) ==> placement_flags(rows, offsets, x, y) == (true, true),
        forall|i: int|
            0 <= i < offsets.len() && (x + (#[trigger] offsets[i]).0 <= 0 || x + offsets[i].0 > GAME_WIDTH)
                ==> !placement_flags(rows, offsets, x, y).0,
        forall|i: int|
            0 <= i < offsets.len() && (y + (#[trigger] offsets[i]).1 <= 0 || y + offsets[i].1 >= rows.len())
                ==> !placement_flags(rows, offsets, x, y).1,
        forall|i: int|
            0 <= i < offsets.len() && cell_taken(rows, x + (#[trigger] offsets[i]).0, y + offsets[i].1)
                ==> !placement_flags(rows, offsets, x, y).0 && !placement_flags(rows, offsets, x, y).1,
{
    if forall|r: int| 0 <= r < rows.len() ==> #[trigger] rows[r] == empty_row() {
        assert forall|i: int| 0 <= i < offsets.len() implies !cell_taken(rows, x + offsets[i].0, y + offsets[i].1) by {
            let by = y + offsets[i].1;
            let bx = x + offsets[i].0;
            if row_in_bounds(by, rows.len() as int) && column_in_bounds(bx) {
                assert(rows[by] == empty_row());
                assert(rows[by][bx - 1] is None);
            }
        }
    }
}

fn full(row: &Row) -> (r: bool)
    ensures
        r == row_full(row@),
{
    let mut i: usize = 0;
    while i < GAME_WIDTH
        invariant
            0 <= i <= GAME_WIDTH,
            forall|j: int| 0 <= j < i ==> (#[trigger] row[j]) is Some,
        decreases GAME_WIDTH - i,
    {
        if row[i].is_none() {
            return false;
        }
        i += 1;
    }
    true
}

} // verus!

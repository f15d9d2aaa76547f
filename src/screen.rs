//! A character-cell frame buffer: every cell ("pixel") is two characters wide
//! and has a color.
use vstd::prelude::*;
use vstd::string::*;
use crate::glyphs::{
    LIGHT_DOWN_AND_LEFT, LIGHT_DOWN_AND_RIGHT, LIGHT_HORIZONTAL, LIGHT_SHADE, LIGHT_UP_AND_LEFT,
    LIGHT_UP_AND_RIGHT, LIGHT_VERTICAL,
};
use crate::shape::{Shape, SHAPE_PIXEL_COUNT};

verus! {

/// What the frame shows in one cell: two characters and their color.
#[derive(Clone, Copy, PartialEq, Eq, Debug)]
pub struct Pixel {
    pub shape: [char; 2],
    pub color: Color,
}

/// A cell color: the terminal's default, or one of the basic color codes.
#[derive(Clone, Copy, PartialEq, Eq, Debug)]
pub enum Color {
    Default,
    Basic(u8),
}

/// The blank cell: two spaces in the default color.
pub open spec fn blank_pixel() -> Pixel {
    Pixel { shape: [' ', ' '], color: Color::Default }
}

impl Default for Pixel {
    fn default() -> (r: Pixel)
        ensures
            r == blank_pixel(),
    {
        Pixel { shape: [' ', ' '], color: Color::Default }
    }
}

/// A drawing that does not fit on the screen.
#[derive(Debug)]
pub struct OutOfBoundsError {}

/// A screen whose cell count does not fit in a `u32`.
#[derive(Debug)]
pub struct DimensionError {}

/// A `width` by `height` grid of pixels, stored column after column.
pub struct Screen {
    width: u32,
    height: u32,
    has_cursor_moved: bool,
    pixels: Vec<Pixel>,
}

/// Where column `x`, row `y` is stored.
pub open spec fn cell_index(x: int, y: int, height: int) -> int {
    x * height + y
}

proof fn lemma_cell_index(x: int, y: int, width: int, height: int)
    requires
        0 <= x < width,
        0 <= y < height,
    ensures
        0 <= cell_index(x, y, height) < width * height,
{
    assert(0 <= x * height + y < width * height) by (nonlinear_arith)
        requires
            0 <= x < width,
            0 <= y < height,
    ;
}

proof fn lemma_cell_index_distinct(x1: int, y1: int, x2: int, y2: int, height: int)
    requires
        0 <= x1,
        0 <= x2,
        0 <= y1 < height,
        0 <= y2 < height,
        x1 != x2 || y1 != y2,
    ensures
        cell_index(x1, y1, height) != cell_index(x2, y2, height),
{
    if x1 < x2 {
        assert(x1 * height + height <= x2 * height) by (nonlinear_arith)
            requires
                x1 < x2,
                0 <= height,
        ;
    } else if x2 < x1 {
        assert(x2 * height + height <= x1 * height) by (nonlinear_arith)
            requires
                x2 < x1,
                0 <= height,
        ;
    }
}

/// Whether some cell of `offsets` anchored at `(xp, yp)` lands on `(x, y)`.
pub open spec fn covers(offsets: Seq<(i16, i16)>, xp: int, yp: int, x: int, y: int) -> bool {
    exists|i: int| 0 <= i < offsets.len() && xp + offsets[i].0 == x && yp + offsets[i].1 == y
}

/// What a piece drawing leaves at `(x, y)`: the fill pixel where a cell of
/// the piece lands (shaded, in the fill's color, for a ghost), else `old`.
pub open spec fn shape_drawn_at(
    old: Pixel,
    offsets: Seq<(i16, i16)>,
    fill: Pixel,
    xp: int,
    yp: int,
    ghost: bool,
    x: int,
    y: int,
) -> Pixel {
    if covers(offsets, xp, yp, x, y) {
        if ghost {
            Pixel { shape: [LIGHT_SHADE, LIGHT_SHADE], color: fill.color }
        } else {
            fill
        }
    } else {
        old
    }
}

/// The glyph that a frame with corners `(left, top)` and `(right, bottom)`
/// puts at `(x, y)`, if any: corners, then the two sides, then the top and
/// bottom edges, the later-drawn part winning where they meet.
pub open spec fn box_glyph(left: int, top: int, right: int, bottom: int, x: int, y: int) -> Option<[char; 2]> {
    if x == right && y == bottom {
        Some([LIGHT_UP_AND_LEFT, ' '])
    } else if x == left && y == bottom {
        Some([' ', LIGHT_UP_AND_RIGHT])
    } else if x == right && y == top {
        Some([LIGHT_DOWN_AND_LEFT, ' '])
    } else if x == left && y == top {
        Some([' ', LIGHT_DOWN_AND_RIGHT])
    } else if x == right && top <= y < bottom {
        Some([LIGHT_VERTICAL, ' '])
    } else if x == left && top <= y < bottom {
        Some([' ', LIGHT_VERTICAL])
    } else if (y == top || y == bottom) && left <= x < right {
        Some([LIGHT_HORIZONTAL, LIGHT_HORIZONTAL])
    } else {
        None
    }
}

/// What a frame drawing leaves at `(x, y)`.
pub open spec fn box_drawn_at(old: Pixel, left: int, top: int, right: int, bottom: int, x: int, y: int) -> Pixel {
    match box_glyph(left, top, right, bottom, x, y) {
        Some(g) => Pixel { shape: g, color: Color::Default },
        None => old,
    }
}

/// What a text drawing leaves at `(x, y)`: the text goes two characters to a
/// cell from `(x0, y0)` rightwards, the last cell padded with a space.
pub open spec fn text_drawn_at(old: Pixel, text: Seq<char>, x0: int, y0: int, x: int, y: int) -> Pixel {
    let k = x - x0;
    if y == y0 && 0 <= k && 2 * k < text.len() {
        Pixel {
            shape: [text[2 * k], if 2 * k + 1 < text.len() { text[2 * k + 1] } else { ' ' }],
            color: Color::Default,
        }
    } else {
        old
    }
}

/// `old` resized to `len` pixels: cut, or padded with blank pixels.
pub open spec fn resized(old: Seq<Pixel>, len: int) -> Seq<Pixel> {
    if len <= old.len() {
        old.subrange(0, len)
    } else {
        old + Seq::new((len - old.len()) as nat, |i: int| blank_pixel())
    }
}

/// The decimal digit `d`.
pub open spec fn digit_char(d: int) -> char {
    if d == 0 {
        '0'
    } else if d == 1 {
        '1'
    } else if d == 2 {
        '2'
    } else if d == 3 {
        '3'
    } else if d == 4 {
        '4'
    } else if d == 5 {
        '5'
    } else if d == 6 {
        '6'
    } else if d == 7 {
        '7'
    } else if d == 8 {
        '8'
    } else {
        '9'
    }
}

/// `n` written in decimal, without leading zeros.
pub open spec fn decimal(n: nat) -> Seq<char>
    decreases n,
{
    if n < 10 {
        seq![digit_char(n as int)]
    } else {
        decimal(n / 10).push(digit_char((n % 10) as int))
    }
}

fn digit(d: u64) -> (r: char)
    requires
        d < 10,
    ensures
        r == digit_char(d as int),
{
    if d == 0 {
        '0'
    } else if d == 1 {
        '1'
    } else if d == 2 {
        '2'
    } else if d == 3 {
        '3'
    } else if d == 4 {
        '4'
    } else if d == 5 {
        '5'
    } else if d == 6 {
        '6'
    } else if d == 7 {
        '7'
    } else if d == 8 {
        '8'
    } else {
        '9'
    }
}

/// The decimal digits of `n`.
pub fn decimal_chars(n: u64) -> (r: Vec<char>)
    ensures
        r@ == decimal(n as nat),
    decreases n,
{
    if n < 10 {
        let mut v: Vec<char> = Vec::new();
        v.push(digit(n));
        assert(v@ =~= seq![digit_char(n as int)]);
        v
    } else {
        let mut v = decimal_chars(n / 10);
        v.push(digit(n % 10));
        v
    }
}

/// What one pixel prints as: its two characters, wrapped in the color's
/// escape codes where it has a basic color.
pub open spec fn pixel_text(p: Pixel) -> Seq<char> {
    match p.color {
        Color::Basic(code) => "\x1B["@ + decimal(code as nat) + "m"@ + seq![p.shape[0], p.shape[1]] + "\x1B[0m"@,
        Color::Default => seq![p.shape[0], p.shape[1]],
    }
}

/// Appends `text` to `out`.
fn push_str(out: &mut Vec<char>, text: &str)
    ensures
        final(out)@ == old(out)@ + text@,
{
    let n = text.unicode_len();
    let mut i: usize = 0;
    while i < n
        invariant
            n == text@.len(),
            i <= n,
            out@ == old(out)@ + text@.subrange(0, i as int),
        decreases n - i,
    {
        out.push(text.get_char(i));
        i += 1;
        assert(out@ =~= old(out)@ + text@.subrange(0, i as int));
    }
    assert(text@.subrange(0, n as int) =~= text@);
}

/// Appends `more` to `out`.
fn push_chars(out: &mut Vec<char>, more: &Vec<char>)
    ensures
        final(out)@ == old(out)@ + more@,
{
    let mut i: usize = 0;
    while i < more.len()
        invariant
            i <= more@.len(),
            out@ == old(out)@ + more@.subrange(0, i as int),
        decreases more@.len() - i,
    {
        out.push(more[i]);
        i += 1;
        assert(out@ =~= old(out)@ + more@.subrange(0, i as int));
    }
    assert(more@.subrange(0, more@.len() as int) =~= more@);
}

/// The first `n` cells of row `y` of the pixels `stored` (column after
/// column, `height` to a column), as printed.
pub open spec fn row_text(stored: Seq<Pixel>, height: int, y: int, n: nat) -> Seq<char>
    decreases n,
{
    if n == 0 {
        Seq::empty()
    } else {
        row_text(stored, height, y, (n - 1) as nat) + pixel_text(stored[cell_index(n - 1, y, height)])
    }
}

/// The first `m` rows, each printed and ended by a newline.
pub open spec fn rows_text(stored: Seq<Pixel>, width: nat, height: int, m: nat) -> Seq<char>
    decreases m,
{
    if m == 0 {
        Seq::empty()
    } else {
        rows_text(stored, width, height, (m - 1) as nat) + row_text(stored, height, m - 1, width) + "\n"@
    }
}

fn box_glyph_exec(left: u32, top: u32, right: u32, bottom: u32, x: u32, y: u32) -> (r: Option<[char; 2]>)
    ensures
        r == box_glyph(left as int, top as int, right as int, bottom as int, x as int, y as int),
{
    if x == right && y == bottom {
        Some([LIGHT_UP_AND_LEFT, ' '])
    } else if x == left && y == bottom {
        Some([' ', LIGHT_UP_AND_RIGHT])
    } else if x == right && y == top {
        Some([LIGHT_DOWN_AND_LEFT, ' '])
    } else if x == left && y == top {
        Some([' ', LIGHT_DOWN_AND_RIGHT])
    } else if x == right && top <= y && y < bottom {
        Some([LIGHT_VERTICAL, ' '])
    } else if x == left && top <= y && y < bottom {
        Some([' ', LIGHT_VERTICAL])
    } else if (y == top || y == bottom) && left <= x && x < right {
        Some([LIGHT_HORIZONTAL, LIGHT_HORIZONTAL])
    } else {
        None
    }
}

impl Screen {
    /// What `present` hands out (`moved`: whether it has run before): after
    /// the first time, the escape codes that move the cursor back over the
    /// last frame, then every row.
    pub open spec fn frame_text(&self, moved: bool) -> Seq<char> {
        let back = if moved {
            "\x1B["@ + decimal(self.spec_width() as nat) + "D\x1B["@ + decimal((self.spec_height() + 1) as nat) + "A\n"@
        } else {
            Seq::empty()
        };
        back + rows_text(self.stored(), self.spec_width() as nat, self.spec_height() as int, self.spec_height() as nat)
    }

    pub closed spec fn spec_width(&self) -> u32 {
        self.width
    }

    pub closed spec fn spec_height(&self) -> u32 {
        self.height
    }

    pub closed spec fn cursor_moved(&self) -> bool {
        self.has_cursor_moved
    }

    /// The pixels as stored, column after column.
    pub closed spec fn stored(&self) -> Seq<Pixel> {
        self.pixels@
    }

    /// The pixel at column `x`, row `y`.
    pub open spec fn pixel(&self, x: int, y: int) -> Pixel {
        self.stored()[cell_index(x, y, self.spec_height() as int)]
    }

    /// One pixel stored for each cell, and the cell count fits in a `u32`.
    pub closed spec fn wf(&self) -> bool {
        &&& self.pixels@.len() == self.width * self.height
        &&& self.width * self.height <= u32::MAX
    }

    /// Same size and cursor state as `other`.
    pub open spec fn same_shape(&self, other: &Screen) -> bool {
        &&& self.spec_width() == other.spec_width()
        &&& self.spec_height() == other.spec_height()
        &&& self.cursor_moved() == other.cursor_moved()
    }

    /// A blank screen of `width` by `height` cells; fails when the cell count
    /// does not fit in a `u32`.
    pub fn new(width: u32, height: u32) -> (r: Result<Screen, DimensionError>)
        ensures
            r is Err <==> width * height > u32::MAX,
            r matches Ok(s) ==> {
                &&& s.wf()
                &&& s.spec_width() == width
                &&& s.spec_height() == height
                &&& !s.cursor_moved()
                &&& forall|x: int, y: int|
                    0 <= x < width && 0 <= y < height ==> #[trigger] s.pixel(x, y) == blank_pixel()
            },
    {
        assert(width as int * height as int <= 0xffff_ffffu64 as int * 0xffff_ffffu64 as int) by (nonlinear_arith)
            requires
                width <= 0xffff_ffffu32,
                height <= 0xffff_ffffu32,
        ;
        let count = width as u64 * height as u64;
        if count > u32::MAX as u64 {
            return Err(DimensionError {});
        }
        let n = count as usize;
        let mut pixels: Vec<Pixel> = Vec::new();
        while pixels.len() < n
            invariant
                pixels@.len() <= n,
                forall|i: int| 0 <= i < pixels@.len() ==> #[trigger] pixels@[i] == blank_pixel(),
            decreases n - pixels@.len(),
        {
            pixels.push(Pixel::default());
        }
        let s = Screen { width, height, has_cursor_moved: false, pixels };
        assert forall|x: int, y: int| 0 <= x < width && 0 <= y < height implies #[trigger] s.pixel(x, y)
            == blank_pixel() by {
            lemma_cell_index(x, y, width as int, height as int);
        }
        Ok(s)
    }

    pub fn _width(&self) -> (r: u32)
        ensures
            r == self.spec_width(),
    {
        self.width
    }

    pub fn _height(&self) -> (r: u32)
        ensures
            r == self.spec_height(),
    {
        self.height
    }

    /// The pixel at column `x`, row `y`.
    pub fn pixel_at(&self, x: u32, y: u32) -> (r: Pixel)
        requires
            self.wf(),
            x < self.spec_width(),
            y < self.spec_height(),
        ensures
            r == self.pixel(x as int, y as int),
    {
        proof {
            lemma_cell_index(x as int, y as int, self.width as int, self.height as int);
        }
        self.pixels[x as usize * self.height as usize + y as usize]
    }

    /// The text that shows the screen on a terminal, to be written out as
    /// it is; from then on the cursor counts as moved.
    pub fn present(&mut self) -> (text: Vec<char>)
        requires
            old(self).wf(),
        ensures
            text@ == final(self).frame_text(old(self).cursor_moved()),
            final(self).wf(),
            final(self).cursor_moved(),
            final(self).spec_width() == old(self).spec_width(),
            final(self).spec_height() == old(self).spec_height(),
            final(self).stored() == old(self).stored(),
    {
        let mut out: Vec<char> = Vec::new();
        if self.has_cursor_moved {
            push_str(&mut out, "\x1B[");
            push_chars(&mut out, &decimal_chars(self.width as u64));
            push_str(&mut out, "D\x1B[");
            push_chars(&mut out, &decimal_chars(self.height as u64 + 1));
            push_str(&mut out, "A\n");
        }
        let ghost back = out@;
        assert(back =~= self.frame_text(self.has_cursor_moved).subrange(0, back.len() as int));
        let mut i: u32 = 0;
        while i < self.height
            invariant
                self.wf(),
                self == old(self),
                i <= self.spec_height(),
                out@ == back + rows_text(self.pixels@, self.width as nat, self.height as int, i as nat),
            decreases self.spec_height() - i,
        {
            let mut j: u32 = 0;
            while j < self.width
                invariant
                    self.wf(),
                    self == old(self),
                    i < self.spec_height(),
                    j <= self.spec_width(),
                    out@ == back + rows_text(self.pixels@, self.width as nat, self.height as int, i as nat) + row_text(self.pixels@, self.height as int, i as int, j as nat),
                decreases self.spec_width() - j,
            {
                let p = self.pixel_at(j, i);
                let ghost before = out@;
                match p.color {
                    Color::Basic(code) => {
                        push_str(&mut out, "\x1B[");
                        push_chars(&mut out, &decimal_chars(code as u64));
                        push_str(&mut out, "m");
                        out.push(p.shape[0]);
                        out.push(p.shape[1]);
                        push_str(&mut out, "\x1B[0m");
                    },
                    Color::Default => {
                        out.push(p.shape[0]);
                        out.push(p.shape[1]);
                    },
                }
                assert(out@ =~= before + pixel_text(p));
                j += 1;
            }
            let ghost before = out@;
            push_str(&mut out, "\n");
            assert(out@ =~= back + rows_text(self.pixels@, self.width as nat, self.height as int, (i + 1) as nat));
            i += 1;
        }
        assert(out@ =~= self.frame_text(self.has_cursor_moved));
        self.has_cursor_moved = true;
        assert(out@ == self.frame_text(old(self).has_cursor_moved));
        out
    }

    /// Writes one pixel.
    pub fn set_pixel(&mut self, x: u32, y: u32, pixel: Pixel)
        requires
            old(self).wf(),
            x < old(self).spec_width(),
            y < old(self).spec_height(),
        ensures
            final(self).wf(),
            final(self).same_shape(old(self)),
            forall|a: int, b: int|
                0 <= a < old(self).spec_width() && 0 <= b < old(self).spec_height() ==> #[trigger] final(self).pixel(a, b)
                    == if a == x && b == y {
                    pixel
                } else {
                    old(self).pixel(a, b)
                },
    {
        proof {
            lemma_cell_index(x as int, y as int, self.width as int, self.height as int);
        }
        let i = x as usize * self.height as usize + y as usize;
        self.pixels.set(i, pixel);
        assert forall|a: int, b: int|
            0 <= a < old(self).spec_width() && 0 <= b < old(self).spec_height() && (a != x || b != y)
                implies #[trigger] self.pixel(a, b) == old(self).pixel(a, b) by {
            lemma_cell_index_distinct(a, b, x as int, y as int, self.height as int);
            lemma_cell_index(a, b, self.width as int, self.height as int);
        }
    }

    /// Changes the size to `new_width` by `new_height`; the stored pixels are
    /// kept as far as they reach and blank ones added after them.
    pub fn _resize(&mut self, new_width: u32, new_height: u32)
        requires
            old(self).wf(),
            new_width * new_height <= u32::MAX,
        ensures
            final(self).wf(),
            final(self).spec_width() == new_width,
            final(self).spec_height() == new_height,
            final(self).cursor_moved() == old(self).cursor_moved(),
            final(self).stored() == resized(old(self).stored(), new_width * new_height),
    {
        assert(new_width as int * new_height as int <= u32::MAX);
        let n = new_width as usize * new_height as usize;
        self.width = new_width;
        self.height = new_height;
        let ghost start = self.pixels@;
        if n <= self.pixels.len() {
            self.pixels.truncate(n);
        } else {
            let old_len = self.pixels.len();
            while self.pixels.len() < n
                invariant
                    n > old_len,
                    n == new_width * new_height,
                    self.width == new_width,
                    self.height == new_height,
                    self.has_cursor_moved == old(self).has_cursor_moved,
                    old_len == start.len(),
                    old_len <= self.pixels@.len() <= n,
                    self.pixels@.subrange(0, old_len as int) == start,
                    forall|i: int| old_len <= i < self.pixels@.len() ==> #[trigger] self.pixels@[i] == blank_pixel(),
                decreases n - self.pixels@.len(),
            {
                let ghost before = self.pixels@;
                self.pixels.push(Pixel::default());
                assert(self.pixels@.subrange(0, old_len as int) =~= before.subrange(0, old_len as int));
            }
            assert(self.pixels@ =~= resized(start, n as int));
        }
    }

    /// Draws a frame with its top left corner at `(x_pos, y_pos)`, `width`
    /// cells across and `height` down between its corners. Fails, drawing
    /// nothing, where the far corner is not on the screen.
    pub fn draw_box(&mut self, x_pos: u16, y_pos: u16, width: u16, height: u16) -> (r: Result<(), OutOfBoundsError>)
        requires
            old(self).wf(),
        ensures
            final(self).wf(),
            final(self).same_shape(old(self)),
            r is Err <==> x_pos + width >= old(self).spec_width() || y_pos + height >= old(self).spec_height(),
            forall|x: int, y: int|
                0 <= x < old(self).spec_width() && 0 <= y < old(self).spec_height() ==> #[trigger] final(self).pixel(x, y)
                    == if r is Err {
                    old(self).pixel(x, y)
                } else {
                    box_drawn_at(old(self).pixel(x, y), x_pos as int, y_pos as int, x_pos + width, y_pos + height, x, y)
                },
    {
        let left = x_pos as u32;
        let right = x_pos as u32 + width as u32;
        let top = y_pos as u32;
        let bottom = y_pos as u32 + height as u32;
        if right >= self.width || bottom >= self.height {
            return Err(OutOfBoundsError {});
        }
        let mut i = left;
        while i <= right
            invariant
                self.wf(),
                self.same_shape(old(self)),
                right < self.spec_width(),
                bottom < self.spec_height(),
                left <= i <= right + 1,
                left == x_pos,
                top == y_pos,
                right == x_pos + width,
                bottom == y_pos + height,
                forall|x: int, y: int|
                    0 <= x < old(self).spec_width() && 0 <= y < old(self).spec_height() ==> #[trigger] self.pixel(x, y)
                        == if left <= x < i {
                        box_drawn_at(old(self).pixel(x, y), left as int, top as int, right as int, bottom as int, x, y)
                    } else {
                        old(self).pixel(x, y)
                    },
            decreases right + 1 - i,
        {
            let mut j = top;
            while j <= bottom
                invariant
                    self.wf(),
                    self.same_shape(old(self)),
                    right < self.spec_width(),
                    bottom < self.spec_height(),
                    left <= i <= right,
                    top <= j <= bottom + 1,
                    left == x_pos,
                    top == y_pos,
                    right == x_pos + width,
                    bottom == y_pos + height,
                    forall|x: int, y: int|
                        0 <= x < old(self).spec_width() && 0 <= y < old(self).spec_height() ==> #[trigger] self.pixel(x, y)
                            == if left <= x < i || (x == i && top <= y < j) {
                            box_drawn_at(old(self).pixel(x, y), left as int, top as int, right as int, bottom as int, x, y)
                        } else {
                            old(self).pixel(x, y)
                        },
                decreases bottom + 1 - j,
            {
                if let Some(g) = box_glyph_exec(left, top, right, bottom, i, j) {
                    self.set_pixel(i, j, Pixel { shape: g, color: Color::Default });
                }
                j += 1;
            }
            i += 1;
        }
        assert forall|x: int, y: int|
            0 <= x < old(self).spec_width() && 0 <= y < old(self).spec_height() implies #[trigger] self.pixel(x, y)
                == box_drawn_at(old(self).pixel(x, y), left as int, top as int, right as int, bottom as int, x, y) by {
            if !(left <= x <= right && top <= y <= bottom) {
                assert(box_glyph(left as int, top as int, right as int, bottom as int, x, y) is None);
            }
        }
        Ok(())
    }

    /// Writes `text` from `(x, y)` rightwards, two characters to a cell, the
    /// last one padded with a space; what passes the right edge is cut off.
    /// Draws nothing where `(x, y)` is off the screen.
    pub fn draw_chars(&mut self, x: u32, y: u32, text: &Vec<char>)
        requires
            old(self).wf(),
        ensures
            final(self).wf(),
            final(self).same_shape(old(self)),
            forall|a: int, b: int|
                0 <= a < old(self).spec_width() && 0 <= b < old(self).spec_height() ==> #[trigger] final(self).pixel(a, b)
                    == text_drawn_at(old(self).pixel(a, b), text@, x as int, y as int, a, b),
    {
        if x >= self.width || y >= self.height {
            return;
        }
        let n = text.len();
        let mut k: u32 = 0;
        while k < self.width - x && (k as usize) < n / 2 + n % 2
            invariant
                self.wf(),
                self.same_shape(old(self)),
                x < self.spec_width(),
                y < self.spec_height(),
                n == text@.len(),
                k <= self.spec_width() - x,
                forall|a: int, b: int|
                    0 <= a < old(self).spec_width() && 0 <= b < old(self).spec_height() ==> #[trigger] self.pixel(a, b)
                        == if a < x + k {
                        text_drawn_at(old(self).pixel(a, b), text@, x as int, y as int, a, b)
                    } else {
                        old(self).pixel(a, b)
                    },
            decreases self.spec_width() - x - k,
        {
            let i = 2 * k as usize;
            let second = if i + 1 < n {
                text[i + 1]
            } else {
                ' '
            };
            self.set_pixel(x + k, y, Pixel { shape: [text[i], second], color: Color::Default });
            k += 1;
        }
    }

    /// Writes `text` as `draw_chars` does.
    pub fn draw_text(&mut self, x: u32, y: u32, text: &str)
        requires
            old(self).wf(),
        ensures
            final(self).wf(),
            final(self).same_shape(old(self)),
            forall|a: int, b: int|
                0 <= a < old(self).spec_width() && 0 <= b < old(self).spec_height() ==> #[trigger] final(self).pixel(a, b)
                    == text_drawn_at(old(self).pixel(a, b), text@, x as int, y as int, a, b),
    {
        let n = text.unicode_len();
        let mut chars: Vec<char> = Vec::new();
        let mut i: usize = 0;
        while i < n
            invariant
                n == text@.len(),
                i <= n,
                chars@ == text@.subrange(0, i as int),
            decreases n - i,
        {
            chars.push(text.get_char(i));
            i += 1;
        }
        assert(chars@ =~= text@);
        self.draw_chars(x, y, &chars);
    }

    /// Sets every pixel of the rectangle `[start_x, end_x) x [start_y, end_y)`
    /// to `pixel`.
    fn fill_columns(&mut self, pixel: Pixel, start_x: u32, start_y: u32, end_x: u32, end_y: u32)
        requires
            old(self).wf(),
            start_x <= end_x <= old(self).spec_width(),
            start_y <= end_y <= old(self).spec_height(),
        ensures
            final(self).wf(),
            final(self).same_shape(old(self)),
            forall|x: int, y: int|
                0 <= x < old(self).spec_width() && 0 <= y < old(self).spec_height() ==> #[trigger] final(self).pixel(x, y) == if start_x <= x < end_x && start_y <= y < end_y {
                    pixel
                } else {
                    old(self).pixel(x, y)
                },
    {
        let mut i = start_x;
        while i < end_x
            invariant
                self.wf(),
                self.same_shape(old(self)),
                end_x <= self.spec_width(),
                end_y <= self.spec_height(),
                start_x <= i <= end_x,
                start_y <= end_y,
                forall|x: int, y: int|
                    0 <= x < old(self).spec_width() && 0 <= y < old(self).spec_height() ==> #[trigger] self.pixel(x, y) == if start_x <= x < i && start_y <= y < end_y {
                        pixel
                    } else {
                        old(self).pixel(x, y)
                    },
            decreases end_x - i,
        {
            let mut j = start_y;
            while j < end_y
                invariant
                    self.wf(),
                    self.same_shape(old(self)),
                    start_x <= i < end_x,
                    end_x <= self.spec_width(),
                    end_y <= self.spec_height(),
                    start_y <= j <= end_y,
                    forall|x: int, y: int|
                        0 <= x < old(self).spec_width() && 0 <= y < old(self).spec_height() ==> #[trigger] self.pixel(x, y) == if (start_x <= x < i && start_y <= y < end_y) || (x == i && start_y <= y
                            < j) {
                            pixel
                        } else {
                            old(self).pixel(x, y)
                        },
                decreases end_y - j,
            {
                self.set_pixel(i, j, pixel);
                j += 1;
            }
            i += 1;
        }
    }

    /// Resets every pixel to the blank one.
    pub fn clear(&mut self)
        requires
            old(self).wf(),
        ensures
            final(self).wf(),
            final(self).same_shape(old(self)),
            forall|x: int, y: int|
                0 <= x < old(self).spec_width() && 0 <= y < old(self).spec_height() ==> #[trigger] final(self).pixel(x, y) == blank_pixel(),
    {
        let (w, h) = (self.width, self.height);
        self.fill_columns(Pixel::default(), 0, 0, w, h);
    }

    /// Sets every pixel to `pixel`.
    pub fn _fill_with_pixel(&mut self, pixel: &Pixel)
        requires
            old(self).wf(),
        ensures
            final(self).wf(),
            final(self).same_shape(old(self)),
            forall|x: int, y: int|
                0 <= x < old(self).spec_width() && 0 <= y < old(self).spec_height() ==> #[trigger] final(self).pixel(x, y) == *pixel,
    {
        let (w, h) = (self.width, self.height);
        self.fill_columns(*pixel, 0, 0, w, h);
    }

    /// Sets every pixel of the rectangle `[start_x, end_x) x [start_y, end_y)`
    /// to `pixel`; a nonempty rectangle must lie on the screen.
    pub fn fill_area_with_pixel(&mut self, pixel: &Pixel, start_x: u16, start_y: u16, end_x: u16, end_y: u16)
        requires
            old(self).wf(),
            start_x < end_x && start_y < end_y ==> end_x <= old(self).spec_width() && end_y <= old(self).spec_height(),
        ensures
            final(self).wf(),
            final(self).same_shape(old(self)),
            forall|x: int, y: int|
                0 <= x < old(self).spec_width() && 0 <= y < old(self).spec_height() ==> #[trigger] final(self).pixel(x, y) == if start_x <= x < end_x && start_y <= y < end_y {
                    *pixel
                } else {
                    old(self).pixel(x, y)
                },
    {
        if start_x < end_x && start_y < end_y {
            self.fill_columns(*pixel, start_x as u32, start_y as u32, end_x as u32, end_y as u32);
        }
    }

    /// Draws `shape` with its pivot at `(x_pos, y_pos)`; cells off the screen
    /// are left out. A ghost is drawn in shaded blocks of the fill's color.
    pub fn draw_shape(&mut self, shape: &Shape, x_pos: u16, y_pos: u16, ghost: bool)
        requires
            old(self).wf(),
        ensures
            final(self).wf(),
            final(self).same_shape(old(self)),
            forall|x: int, y: int|
                0 <= x < old(self).spec_width() && 0 <= y < old(self).spec_height() ==> #[trigger] final(self).pixel(x, y) == shape_drawn_at(
                    old(self).pixel(x, y),
                    shape.pixels@,
                    shape.fill_pixel,
                    x_pos as int,
                    y_pos as int,
                    ghost,
                    x,
                    y,
                ),
    {
        let fill = if ghost {
            Pixel { shape: [LIGHT_SHADE, LIGHT_SHADE], color: shape.fill_pixel.color }
        } else {
            shape.fill_pixel
        };
        let mut i: usize = 0;
        while i < SHAPE_PIXEL_COUNT
            invariant
                0 <= i <= SHAPE_PIXEL_COUNT,
                shape.pixels@.len() == SHAPE_PIXEL_COUNT,
                self.wf(),
                self.same_shape(old(self)),
                fill == (if ghost {
                    Pixel { shape: [LIGHT_SHADE, LIGHT_SHADE], color: shape.fill_pixel.color }
                } else {
                    shape.fill_pixel
                }),
                forall|x: int, y: int|
                    0 <= x < old(self).spec_width() && 0 <= y < old(self).spec_height() ==> #[trigger] self.pixel(x, y) == if covers(shape.pixels@.subrange(0, i as int), x_pos as int, y_pos as int, x, y) {
                        fill
                    } else {
                        old(self).pixel(x, y)
                    },
            decreases SHAPE_PIXEL_COUNT - i,
        {
            let (dx, dy) = shape.pixels[i];
            let real_x: i32 = x_pos as i32 + dx as i32;
            let real_y: i32 = y_pos as i32 + dy as i32;
            let ghost before = *self;
            if 0 <= real_x && (real_x as u32) < self.width && 0 <= real_y && (real_y as u32) < self.height {
                self.set_pixel(real_x as u32, real_y as u32, fill);
            }
            assert forall|x: int, y: int|
                0 <= x < old(self).spec_width() && 0 <= y < old(self).spec_height() implies #[trigger] self.pixel(x, y) == if covers(shape.pixels@.subrange(0, i + 1), x_pos as int, y_pos as int, x, y) {
                    fill
                } else {
                    old(self).pixel(x, y)
                } by {
                let prev = shape.pixels@.subrange(0, i as int);
                let next = shape.pixels@.subrange(0, i + 1);
                if covers(prev, x_pos as int, y_pos as int, x, y) {
                    let k = choose|k: int| 0 <= k < prev.len() && x_pos + prev[k].0 == x && y_pos + prev[k].1 == y;
                    assert(next[k] == prev[k]);
                }
                if covers(next, x_pos as int, y_pos as int, x, y) && !covers(prev, x_pos as int, y_pos as int, x, y) {
                    let k = choose|k: int| 0 <= k < next.len() && x_pos + next[k].0 == x && y_pos + next[k].1 == y;
                    if k < i {
                        assert(prev[k] == next[k]);
                    }
                }
                if !covers(next, x_pos as int, y_pos as int, x, y) {
                    if covers(prev, x_pos as int, y_pos as int, x, y) {
                        let k = choose|k: int| 0 <= k < prev.len() && x_pos + prev[k].0 == x && y_pos + prev[k].1 == y;
                        assert(next[k] == prev[k]);
                    }
                    assert(x != real_x || y != real_y) by {
                        assert(next[i as int] == (dx, dy));
                    }
                }
            }
            i += 1;
        }
        assert(shape.pixels@.subrange(0, SHAPE_PIXEL_COUNT as int) =~= shape.pixels@);
    }
}

} // verus!

//! The boot stage's display: a pixel buffer that is copied to the screen
//! in one go, and a text terminal (colours and a 150 by 200 character grid
//! with a current line and column). Copying to the screen and rendering
//! the grid with a font are left to the caller.
use crate::text::char_to_string;
use vstd::arithmetic::div_mod::{lemma_fundamental_div_mod, lemma_fundamental_div_mod_converse};
use vstd::arithmetic::mul::lemma_mul_is_commutative;
use vstd::prelude::*;

verus! {

#[derive(Debug, Clone, Copy)]
pub struct TTYColors {
    pub foreground: (u8, u8, u8),
    pub background: (u8, u8, u8),
}

impl TTYColors {
    pub fn new(foreground: (u8, u8, u8), background: (u8, u8, u8)) -> (res: Self)
        ensures
            res.foreground == foreground,
            res.background == background,
    {
        Self { foreground, background }
    }

    /// White on black.
    pub fn default() -> (res: Self)
        ensures
            res.foreground == (255u8, 255u8, 255u8),
            res.background == (0u8, 0u8, 0u8),
    {
        Self { foreground: (255, 255, 255), background: (0, 0, 0) }
    }

    /// Black on white.
    pub fn bonw() -> (res: Self)
        ensures
            res.foreground == (0u8, 0u8, 0u8),
            res.background == (255u8, 255u8, 255u8),
    {
        Self { foreground: (0, 0, 0), background: (255, 255, 255) }
    }

    /// White on yellow.
    pub fn wony() -> (res: Self)
        ensures
            res.foreground == (255u8, 255u8, 255u8),
            res.background == (255u8, 255u8, 0u8),
    {
        Self { foreground: (255, 255, 255), background: (255, 255, 0) }
    }
}

/// One pixel of the boot buffer.
#[derive(Debug, Clone, Copy, PartialEq, Eq, Structural)]
pub struct Pixel {
    pub red: u8,
    pub green: u8,
    pub blue: u8,
}

/// Why a buffer operation is refused.
#[derive(Debug, Clone, Copy, PartialEq, Eq, Structural)]
pub enum BufferError {
    InvalidParameter,
}

/// A `width` by `height` buffer of pixels, row after row.
pub struct Buffer {
    pub width: usize,
    pub height: usize,
    pixels: Vec<Pixel>,
}

/// Whether a position lies outside the buffer.
pub open spec fn out_of_bounds(width: usize, height: usize, x: usize, y: usize) -> bool {
    x >= width || y >= height
}

/// Whether a `bw` by `bh` area at (`pos_x`, `pos_y`) leaves the buffer.
pub open spec fn area_out_of_bounds(width: usize, height: usize, bw: usize, bh: usize, pos_x: usize, pos_y: usize) -> bool {
    out_of_bounds(width, height, pos_x, pos_y) || bw > width - pos_x || bh > height - pos_y
}

/// The columns and rows of a bitmap that lie inside the buffer.
pub open spec fn copied_window(width: int, height: int, bw: int, bh: int, pos_x: int, pos_y: int) -> (int, int) {
    let cols = if pos_x < width {
        if bw < width - pos_x { bw } else { width - pos_x }
    } else {
        0
    };
    let rows = if pos_y < height {
        if bh < height - pos_y { bh } else { height - pos_y }
    } else {
        0
    };
    (cols, rows)
}

/// Pixel `j` after a bitmap copy: inside the copied window it is the
/// bitmap's pixel for that place, elsewhere it is unchanged.
pub open spec fn bitmap_pixel(
    old: Seq<Pixel>,
    bitmap: Seq<Pixel>,
    width: int,
    height: int,
    bw: int,
    bh: int,
    pos_x: int,
    pos_y: int,
    j: int,
) -> Pixel {
    let (cols, rows) = copied_window(width, height, bw, bh, pos_x, pos_y);
    let row = j / width;
    let col = j % width;
    if pos_y <= row < pos_y + rows && pos_x <= col < pos_x + cols {
        bitmap[(row - pos_y) * bw + (col - pos_x)]
    } else {
        old[j]
    }
}

impl Buffer {
    pub closed spec fn pixels(&self) -> Seq<Pixel> {
        self.pixels@
    }

    pub closed spec fn buf_width(&self) -> usize {
        self.width
    }

    pub closed spec fn buf_height(&self) -> usize {
        self.height
    }

    pub closed spec fn wf(&self) -> bool {
        self.pixels@.len() == self.width * self.height
    }

    /// A black buffer of the given size.
    pub fn new(width: usize, height: usize) -> (res: Self)
        requires
            width * height <= usize::MAX,
        ensures
            res.wf(),
            res.buf_width() == width,
            res.buf_height() == height,
            res.pixels() == Seq::new((width * height) as nat, |i: int| Pixel { red: 0, green: 0, blue: 0 }),
    {
        let n = width * height;
        let mut pixels: Vec<Pixel> = Vec::new();
        let mut i: usize = 0;
        while i < n
            invariant
                i <= n,
                pixels@ == Seq::new(i as nat, |k: int| Pixel { red: 0, green: 0, blue: 0 }),
            decreases n - i,
        {
            pixels.push(Pixel { red: 0, green: 0, blue: 0 });
            assert(pixels@ =~= Seq::new((i + 1) as nat, |k: int| Pixel { red: 0, green: 0, blue: 0 }));
            i = i + 1;
        }
        Buffer { width, height, pixels }
    }

    /// Whether a position is out of bounds.
    pub fn check_bounds(&self, x: usize, y: usize) -> (res: bool)
        ensures
            res == out_of_bounds(self.buf_width(), self.buf_height(), x, y),
    {
        x >= self.width || y >= self.height
    }

    /// The pixel at (`x`, `y`): `None` out of bounds.
    pub fn get_pxl(&self, x: usize, y: usize) -> (res: Option<Pixel>)
        requires
            self.wf(),
        ensures
            res == (if out_of_bounds(self.buf_width(), self.buf_height(), x, y) {
                None
            } else {
                Some(self.pixels()[y * self.buf_width() + x])
            }),
    {
        if self.check_bounds(x, y) {
            return None;
        }
        let n = self.pixels.len();
        proof {
            let (w, h) = (self.width as int, self.height as int);
            assert(0 <= y * w + x < w * h) by (nonlinear_arith)
                requires
                    0 <= x < w,
                    0 <= y < h,
            ;
            assert(n == w * h);
        }
        Some(self.pixels[y * self.width + x])
    }

    /// Copies a `bw` by `bh` bitmap into the buffer at (`pos_x`, `pos_y`).
    /// Refused with `InvalidParameter` when the bitmap's length is not
    /// `bw * bh` or the area it would cover leaves the buffer; on success the
    /// caller copies the buffer to the screen.
    pub fn draw_bitmap(&mut self, bitmap: &[Pixel], bw: usize, bh: usize, pos_x: usize, pos_y: usize) -> (res: Result<(), BufferError>)
        requires
            old(self).wf(),
            bw * bh <= usize::MAX,
        ensures
            final(self).wf(),
            final(self).buf_width() == old(self).buf_width(),
            final(self).buf_height() == old(self).buf_height(),
            res is Err <==> (bitmap@.len() != bw * bh || area_out_of_bounds(old(self).buf_width(), old(self).buf_height(), bw, bh, pos_x, pos_y)),
            res is Err ==> final(self).pixels() == old(self).pixels(),
            res is Ok ==> final(self).pixels().len() == old(self).pixels().len() && forall|j: int|
                0 <= j < old(self).pixels().len() ==> #[trigger] final(self).pixels()[j] == bitmap_pixel(
                    old(self).pixels(),
                    bitmap@,
                    old(self).buf_width() as int,
                    old(self).buf_height() as int,
                    bw as int,
                    bh as int,
                    pos_x as int,
                    pos_y as int,
                    j,
                ),
    {
        if bitmap.len() != bw * bh || self.check_bounds(pos_x, pos_y) || bw > self.width - pos_x || bh > self.height - pos_y {
            return Err(BufferError::InvalidParameter);
        }
        let ghost old_px = self.pixels@;
        let ghost w = self.width as int;
        let ghost h = self.height as int;
        let ghost (cols, rows) = copied_window(w, h, bw as int, bh as int, pos_x as int, pos_y as int);
        let total = self.pixels.len();
        assert(w * h == total);
        let mut y: usize = 0;
        while y < bh
            invariant_except_break
                y <= bh,
                y <= rows,
            invariant
                self.wf(),
                self.width == w,
                self.height == h,
                bitmap@.len() == bw * bh,
                bw * bh <= usize::MAX,
                w * h <= usize::MAX,
                old_px.len() == w * h,
                bw <= w,
                bh <= h,
                pos_x + bw <= w,
                pos_y + bh <= h,
                (cols, rows) == copied_window(w, h, bw as int, bh as int, pos_x as int, pos_y as int),
                self.pixels@.len() == old_px.len(),
                forall|j: int|
                    0 <= j < old_px.len() ==> #[trigger] self.pixels@[j] == if (j / w) - pos_y < y {
                        bitmap_pixel(old_px, bitmap@, w, h, bw as int, bh as int, pos_x as int, pos_y as int, j)
                    } else {
                        old_px[j]
                    },
            ensures
                self.pixels@.len() == old_px.len(),
                self.wf(),
                self.width == w,
                self.height == h,
                forall|j: int|
                    0 <= j < old_px.len() ==> #[trigger] self.pixels@[j] == bitmap_pixel(old_px, bitmap@, w, h, bw as int, bh as int, pos_x as int, pos_y as int, j),
            decreases bh - y,
        {
            if pos_y + y >= self.height {
                break;
            }
            let mut x: usize = 0;
            while x < bw
                invariant_except_break
                    x <= bw,
                    x <= cols,
                invariant
                    self.wf(),
                    self.width == w,
                    self.height == h,
                    bitmap@.len() == bw * bh,
                    bw * bh <= usize::MAX,
                    w * h <= usize::MAX,
                    old_px.len() == w * h,
                    bw <= w,
                    bh <= h,
                    y < bh,
                    y < rows,
                    pos_x + bw <= w,
                    pos_y + bh <= h,
                    (cols, rows) == copied_window(w, h, bw as int, bh as int, pos_x as int, pos_y as int),
                    self.pixels@.len() == old_px.len(),
                    forall|j: int|
                        0 <= j < old_px.len() ==> #[trigger] self.pixels@[j] == if (j / w) - pos_y < y || ((j / w) - pos_y == y && (j % w) - pos_x < x) {
                            bitmap_pixel(old_px, bitmap@, w, h, bw as int, bh as int, pos_x as int, pos_y as int, j)
                        } else {
                            old_px[j]
                        },
                ensures
                    self.pixels@.len() == old_px.len(),
                    self.wf(),
                    self.width == w,
                    self.height == h,
                    x == cols,
                    forall|j: int|
                        0 <= j < old_px.len() ==> #[trigger] self.pixels@[j] == if (j / w) - pos_y < y || ((j / w) - pos_y == y && (j % w) - pos_x < x) {
                            bitmap_pixel(old_px, bitmap@, w, h, bw as int, bh as int, pos_x as int, pos_y as int, j)
                        } else {
                            old_px[j]
                        },
                decreases bw - x,
            {
                if pos_x + x >= self.width {
                    break;
                }
                proof {
                    lemma_copy_indices(w, h, bw as int, bh as int, pos_x as int, pos_y as int, x as int, y as int, rows, cols);
                }
                let bmp_idx = y * bw + x;
                let buf_idx = (pos_y + y) * self.width + (pos_x + x);
                let ghost before = self.pixels@;
                self.pixels.set(buf_idx, bitmap[bmp_idx]);
                proof {
                    lemma_copy_step(before, self.pixels@, old_px, bitmap@, w, h, bw as int, bh as int, pos_x as int, pos_y as int, x as int, y as int);
                }
                x = x + 1;
            }
            proof {
                lemma_row_done(self.pixels@, old_px, bitmap@, w, h, bw as int, bh as int, pos_x as int, pos_y as int, x as int, y as int);
            }
            y = y + 1;
        }
        Ok(())
    }

    /// Sets every pixel to `color`; the caller then copies the buffer to
    /// the screen.
    pub fn fill_buffer(&mut self, color: Pixel)
        requires
            old(self).wf(),
        ensures
            final(self).wf(),
            final(self).buf_width() == old(self).buf_width(),
            final(self).buf_height() == old(self).buf_height(),
            final(self).pixels() == Seq::new(old(self).pixels().len(), |i: int| color),
    {
        let n = self.pixels.len();
        let mut i: usize = 0;
        while i < n
            invariant
                n == self.pixels@.len(),
                self.width == old(self).buf_width(),
                self.height == old(self).buf_height(),
                self.pixels@.len() == old(self).pixels@.len(),
                i <= n,
                forall|k: int| 0 <= k < i ==> #[trigger] self.pixels@[k] == color,
            decreases n - i,
        {
            self.pixels.set(i, color);
            i = i + 1;
        }
        assert(self.pixels@ =~= Seq::new(old(self).pixels().len(), |i: int| color));
    }
}

/// The indices a bitmap copy step uses lie in their buffers.
proof fn lemma_copy_indices(w: int, h: int, bw: int, bh: int, pos_x: int, pos_y: int, x: int, y: int, rows: int, cols: int)
    requires
        0 <= x < bw <= w,
        0 <= y < bh <= h,
        0 <= pos_x,
        0 <= pos_y,
        pos_x + x < w,
        pos_y + y < h,
        (cols, rows) == copied_window(w, h, bw, bh, pos_x, pos_y),
    ensures
        0 <= y * bw + x < bw * bh,
        0 <= (pos_y + y) * w + (pos_x + x) < w * h,
        x < cols,
        y < rows,
{
    assert(0 <= y * bw + x < bw * bh) by (nonlinear_arith)
        requires
            0 <= x < bw,
            0 <= y < bh,
    ;
    assert(x < cols && y < rows);
    assert(0 <= (pos_y + y) * w + (pos_x + x) < w * h) by (nonlinear_arith)
        requires
            0 <= pos_y + y < h,
            0 <= pos_x + x < w,
    ;
}

proof fn lemma_copy_step(
    before: Seq<Pixel>,
    after: Seq<Pixel>,
    old_px: Seq<Pixel>,
    bitmap: Seq<Pixel>,
    w: int,
    h: int,
    bw: int,
    bh: int,
    pos_x: int,
    pos_y: int,
    x: int,
    y: int,
)
    requires
        0 <= x < bw <= w,
        0 <= y < bh <= h,
        0 <= pos_x,
        0 <= pos_y,
        pos_x + x < w,
        pos_y + y < h,
        old_px.len() == w * h,
        before.len() == old_px.len(),
        bitmap.len() == bw * bh,
        0 <= (pos_y + y) * w + (pos_x + x) < w * h,
        0 <= y * bw + x < bw * bh,
        after == before.update((pos_y + y) * w + (pos_x + x), bitmap[y * bw + x]),
        forall|j: int|
            0 <= j < old_px.len() ==> #[trigger] before[j] == if (j / w) - pos_y < y || ((j / w) - pos_y == y && (j % w) - pos_x < x) {
                bitmap_pixel(old_px, bitmap, w, h, bw, bh, pos_x, pos_y, j)
            } else {
                old_px[j]
            },
    ensures
        after.len() == old_px.len(),
        forall|j: int|
            0 <= j < old_px.len() ==> #[trigger] after[j] == if (j / w) - pos_y < y || ((j / w) - pos_y == y && (j % w) - pos_x < x + 1) {
                bitmap_pixel(old_px, bitmap, w, h, bw, bh, pos_x, pos_y, j)
            } else {
                old_px[j]
            },
{
    let k = (pos_y + y) * w + (pos_x + x);
    lemma_fundamental_div_mod_converse(k, w, pos_y + y, pos_x + x);
    assert forall|j: int| 0 <= j < old_px.len() implies #[trigger] after[j] == if (j / w) - pos_y < y || ((j / w) - pos_y == y && (j % w) - pos_x < x + 1) {
        bitmap_pixel(old_px, bitmap, w, h, bw, bh, pos_x, pos_y, j)
    } else {
        old_px[j]
    } by {
        if j != k {
            if (j / w) - pos_y == y && (j % w) - pos_x == x {
                lemma_fundamental_div_mod(j, w);
                lemma_mul_is_commutative(w, j / w);
            }
        }
    }
}

proof fn lemma_row_done(
    px: Seq<Pixel>,
    old_px: Seq<Pixel>,
    bitmap: Seq<Pixel>,
    w: int,
    h: int,
    bw: int,
    bh: int,
    pos_x: int,
    pos_y: int,
    x: int,
    y: int,
)
    requires
        0 <= y < bh,
        0 <= w,
        old_px.len() == w * h,
        0 <= pos_x,
        0 <= pos_y,
        y < copied_window(w, h, bw, bh, pos_x, pos_y).1,
        x == copied_window(w, h, bw, bh, pos_x, pos_y).0,
        px.len() == old_px.len(),
        forall|j: int|
            0 <= j < old_px.len() ==> #[trigger] px[j] == if (j / w) - pos_y < y || ((j / w) - pos_y == y && (j % w) - pos_x < x) {
                bitmap_pixel(old_px, bitmap, w, h, bw, bh, pos_x, pos_y, j)
            } else {
                old_px[j]
            },
    ensures
        forall|j: int|
            0 <= j < old_px.len() ==> #[trigger] px[j] == if (j / w) - pos_y < y + 1 {
                bitmap_pixel(old_px, bitmap, w, h, bw, bh, pos_x, pos_y, j)
            } else {
                old_px[j]
            },
{
}

pub struct TTY {
    text_buffer: [[char; 200]; 150],
    cur_line: u8,
    cur_char: u8,
    colors: Option<TTYColors>,
}

/// The terminal as rows of characters, the current line and column, and the
/// colours set (if any).
pub struct TextView {
    pub rows: Seq<Seq<char>>,
    pub cur_line: int,
    pub cur_char: int,
    pub colors: Option<TTYColors>,
}

pub open spec fn blank_row() -> Seq<char> {
    Seq::new(200, |j: int| ' ')
}

pub open spec fn text_wf(v: TextView) -> bool {
    &&& v.rows.len() == 150
    &&& forall|i: int| 0 <= i < 150 ==> (#[trigger] v.rows[i]).len() == 200
    &&& 0 <= v.cur_line <= 150
    &&& 0 <= v.cur_char <= 200
}

/// Rows move up by one; the last row stays as it was.
pub open spec fn shifted(rows: Seq<Seq<char>>) -> Seq<Seq<char>> {
    Seq::new(150, |i: int| if i < 149 { rows[i + 1] } else { rows[149] })
}

pub open spec fn after_new_line(v: TextView) -> TextView {
    if v.cur_line == 150 {
        TextView { cur_char: 0, rows: shifted(v.rows), ..v }
    } else {
        TextView { cur_char: 0, cur_line: v.cur_line + 1, ..v }
    }
}

/// Adding a character moves the column on first and writes there; a full
/// line (column 200) refuses it.
pub open spec fn after_add_char(v: TextView, c: char) -> Option<TextView> {
    if v.cur_char == 200 {
        None
    } else {
        Some(
            TextView {
                cur_char: v.cur_char + 1,
                rows: v.rows.update(v.cur_line, v.rows[v.cur_line].update(v.cur_char + 1, c)),
                ..v
            },
        )
    }
}

/// Whether adding a character would index past the grid (which panics).
pub open spec fn add_char_panics(v: TextView) -> bool {
    v.cur_char != 200 && (v.cur_line >= 150 || v.cur_char + 1 >= 200)
}

/// Adding `k` spaces, each of which must be accepted (a refusal panics);
/// `None` when that fails.
pub open spec fn add_spaces(v: TextView, k: nat) -> Option<TextView>
    decreases k,
{
    if k == 0 {
        Some(v)
    } else if add_char_panics(v) {
        None
    } else {
        match after_add_char(v, ' ') {
            Some(v1) => add_spaces(v1, (k - 1) as nat),
            None => None,
        }
    }
}

/// Writing the characters of `s` from position `i`: a newline starts a new
/// line and a tab first writes four spaces; every character is then added
/// after the current column. The outcome is the terminal state and, when a
/// character was refused, the refusal message; `None` when writing panics.
pub open spec fn text_write(v: TextView, s: Seq<char>, i: int) -> Option<(TextView, Option<Seq<char>>)>
    decreases s.len() - i,
{
    if i >= s.len() || i < 0 {
        Some((v, None))
    } else {
        let c = s[i];
        let v1 = if c == '\n' {
            Some(after_new_line(v))
        } else if c == '\t' {
            add_spaces(v, 4)
        } else {
            Some(v)
        };
        match v1 {
            None => None,
            Some(v1) => if add_char_panics(v1) {
                None
            } else {
                match after_add_char(v1, c) {
                    Some(v2) => text_write(v2, s, i + 1),
                    None => Some((v1, Some(line_full_message(c)))),
                }
            },
        }
    }
}

impl View for TTY {
    type V = TextView;

    closed spec fn view(&self) -> TextView {
        TextView {
            rows: self.text_buffer@.map_values(|r: [char; 200]| r@),
            cur_line: self.cur_line as int,
            cur_char: self.cur_char as int,
            colors: self.colors,
        }
    }
}

/// The text of the message refusing a character on a full line.
pub open spec fn line_full_message(c: char) -> Seq<char> {
    "Line length is 200, so character '"@ + seq![c] + "' cannot be placed!"@
}

impl TTY {
    pub closed spec fn wf(&self) -> bool {
        text_wf(self@) && self.cur_line <= 150 && self.cur_char <= 200
    }

    /// An empty terminal: every cell a space, at line 0, column 0, no colours.
    pub fn new() -> (res: Self)
        ensures
            res.wf(),
            res@.rows == Seq::new(150, |i: int| blank_row()),
            res@.cur_line == 0,
            res@.cur_char == 0,
            res@.colors.is_none(),
    {
        let res = Self { text_buffer: [[' '; 200]; 150], cur_line: 0, cur_char: 0, colors: None };
        assert(res@.rows =~= Seq::new(150, |i: int| blank_row())) by {
            assert forall|i: int| 0 <= i < 150 implies res@.rows[i] =~= blank_row() by {
                assert(res.text_buffer@[i]@ =~= blank_row());
            }
        }
        res
    }

    pub fn set_colors(&mut self, tty_colors: TTYColors)
        requires
            old(self).wf(),
        ensures
            final(self).wf(),
            final(self)@ == (TextView { colors: Some(tty_colors), ..old(self)@ }),
    {
        self.colors = Some(tty_colors);
    }

    /// Clears the screen buffer to the background colour (black when no
    /// colours are set), blanks every row and returns to line 0; the column
    /// is kept.
    pub fn clear_buf(&mut self, buf: &mut Buffer)
        requires
            old(self).wf(),
            old(buf).wf(),
        ensures
            final(self).wf(),
            final(self)@ == (TextView {
                rows: Seq::new(150, |i: int| blank_row()),
                cur_line: 0,
                ..old(self)@
            }),
            final(buf).wf(),
            final(buf).buf_width() == old(buf).buf_width(),
            final(buf).buf_height() == old(buf).buf_height(),
            final(buf).pixels() == Seq::new(old(buf).pixels().len(), |i: int| {
                let bg = match old(self)@.colors {
                    Some(c) => c.background,
                    None => (0u8, 0u8, 0u8),
                };
                Pixel { red: bg.0, green: bg.1, blue: bg.2 }
            }),
    {
        let bg = match self.colors {
            Some(c) => c.background,
            None => TTYColors::default().background,
        };
        buf.fill_buffer(Pixel { red: bg.0, green: bg.1, blue: bg.2 });
        self.cur_line = 0;
        self.text_buffer = [[' ';200];150];
        assert(self@.rows =~= Seq::new(150, |i: int| blank_row())) by {
            assert forall|i: int| 0 <= i < 150 implies self@.rows[i] =~= blank_row() by {
                assert(self.text_buffer@[i]@ =~= blank_row());
            }
        }
    }

    /// Moves every row up by one (the first is lost, the last is kept).
    fn shift_buf(&mut self)
        requires
            old(self).wf(),
        ensures
            final(self).wf(),
            final(self)@ == (TextView { rows: shifted(old(self)@.rows), ..old(self)@ }),
    {
        self.text_buffer[0] = [' ';200];
        let mut i: usize = 1;
        while i < 150
            invariant
                1 <= i <= 150,
                self.cur_line == old(self).cur_line,
                self.cur_char == old(self).cur_char,
                self.colors == old(self).colors,
                forall|k: int| 0 <= k < i - 1 ==> #[trigger] self.text_buffer@[k] == old(self).text_buffer@[k + 1],
                forall|k: int| i <= k < 150 ==> #[trigger] self.text_buffer@[k] == old(self).text_buffer@[k],
                self.text_buffer@[149] == old(self).text_buffer@[149],
            decreases 150 - i,
        {
            self.text_buffer[i - 1] = self.text_buffer[i];
            i = i + 1;
        }
        assert forall|k: int| 0 <= k < 150 implies #[trigger] self@.rows[k] == shifted(
            old(self)@.rows,
        )[k] by {
            if k < 149 {
                assert(self.text_buffer@[k] == old(self).text_buffer@[k + 1]);
            } else {
                assert(self.text_buffer@[k] == old(self).text_buffer@[k]);
            }
        }
        assert(self@.rows =~= shifted(old(self)@.rows));
    }

    /// Starts a new line: column 0, next line, or a shift when on line 150.
    pub fn new_line(&mut self)
        requires
            old(self).wf(),
        ensures
            final(self).wf(),
            final(self)@ == after_new_line(old(self)@),
    {
        self.cur_char = 0;
        if self.cur_line == 150 {
            self.shift_buf();
        } else {
            self.cur_line += 1;
        }
    }

    /// Adds a character after the current column; a full line refuses it.
    fn add_char(&mut self, c: char) -> (res: Result<(), String>)
        requires
            old(self).wf(),
            !add_char_panics(old(self)@),
        ensures
            final(self).wf(),
            match after_add_char(old(self)@, c) {
                Some(v) => res is Ok && final(self)@ == v,
                None => res matches Err(m) && m@ == line_full_message(c) && final(self)@ == old(
                    self,
                )@,
            },
    {
        if self.cur_char == 200 {
            let mut msg = String::from_str("Line length is 200, so character '");
            let ch = char_to_string(c);
            msg.append(ch.as_str());
            msg.append("' cannot be placed!");
            return Err(msg);
        }
        self.cur_char += 1;
        let line = self.cur_line as usize;
        let mut row = self.text_buffer[line];
        row[self.cur_char as usize] = c;
        self.text_buffer[line] = row;
        assert(self@.rows =~= after_add_char(old(self)@, c).unwrap().rows);
        Ok(())
    }

    /// Writes four spaces for a tab.
    fn add_tab(&mut self)
        requires
            old(self).wf(),
            add_spaces(old(self)@, 4) is Some,
        ensures
            final(self).wf(),
            Some(final(self)@) == add_spaces(old(self)@, 4),
    {
        let mut k: usize = 4;
        while k > 0
            invariant
                k <= 4,
                self.wf(),
                add_spaces(old(self)@, 4) == add_spaces(self@, k as nat),
                add_spaces(self@, k as nat) is Some,
            decreases k,
        {
            match self.add_char(' ') {
                Ok(()) => {},
                Err(_) => {
                    assert(false);
                },
            }
            k = k - 1;
        }
    }

    /// Writes text into the grid (rendering it is the caller's part): see
    /// `text_write`. Stops at the first refused character with its message.
    pub fn write_str(&mut self, s: &str) -> (res: Result<(), String>)
        requires
            old(self).wf(),
            text_write(old(self)@, s@, 0) is Some,
        ensures
            final(self).wf(),
            ({
                let (v, err) = text_write(old(self)@, s@, 0)->0;
                &&& final(self)@ == v
                &&& match err {
                    None => res is Ok,
                    Some(m) => res matches Err(e) && e@ == m,
                }
            }),
    {
        let n = s.unicode_len();
        let mut i: usize = 0;
        while i < n
            invariant
                n == s@.len(),
                i <= n,
                self.wf(),
                text_write(old(self)@, s@, 0) == text_write(self@, s@, i as int),
                text_write(self@, s@, i as int) is Some,
            decreases n - i,
        {
            let c = s.get_char(i);
            if c == '\n' {
                self.new_line();
            } else if c == '\t' {
                self.add_tab();
            }
            match self.add_char(c) {
                Ok(()) => {},
                Err(e) => return Err(e),
            }
            i = i + 1;
        }
        Ok(())
    }

    /// Writes a character at (row, column) `pos`, which must be inside the grid.
    pub fn set_char(&mut self, pos: (usize, usize), c: char)
        requires
            old(self).wf(),
            pos.0 < 150,
            pos.1 < 200,
        ensures
            final(self).wf(),
            final(self)@ == (TextView {
                rows: old(self)@.rows.update(
                    pos.0 as int,
                    old(self)@.rows[pos.0 as int].update(pos.1 as int, c),
                ),
                ..old(self)@
            }),
    {
        let mut row = self.text_buffer[pos.0];
        row[pos.1] = c;
        self.text_buffer[pos.0] = row;
        assert(self@.rows =~= old(self)@.rows.update(
            pos.0 as int,
            old(self)@.rows[pos.0 as int].update(pos.1 as int, c),
        ));
    }
}

} // verus!

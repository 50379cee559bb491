//! The kernel's text terminal: a grid of character cells with a cursor and
//! a foreground colour, driven by text with ANSI colour escapes. Drawing the
//! cells on the framebuffer is left to the caller; this module keeps the
//! grid and decides what it holds.
use crate::framebuffer::{put_pixels, sad_points, screen_cleared, smiley_points, Framebuffer};
use vstd::prelude::*;

verus! {

pub type Color = (u8, u8, u8, u8);

/// The number of cells the grid holds (130 columns by 50 rows at most).
pub const TTY_CELLS: usize = 6500;

#[derive(Clone, Copy)]
pub struct Cell {
    pub ch: char,
    pub color: Color,
}

impl Cell {
    pub fn empty(color: Color) -> (res: Self)
        ensures
            res == (Cell { ch: '\x00', color }),
    {
        Self { ch: '\x00', color }
    }
}

pub struct TTY {
    width: usize,
    height: usize,
    text_buf: Vec<Cell>,
    cursor_x: usize,
    cursor_y: usize,
    fg_color: Color,
}

/// The state of a terminal: size in cells, the cell grid (row by row,
/// `width` cells a row), the cursor and the colour new text gets.
pub struct TtyView {
    pub width: int,
    pub height: int,
    pub buf: Seq<Cell>,
    pub cursor_x: int,
    pub cursor_y: int,
    pub fg: Color,
}

pub open spec fn white() -> Color {
    (255, 255, 255, 255)
}

pub open spec fn empty_cell(fg: Color) -> Cell {
    Cell { ch: '\x00', color: fg }
}

/// At most 130 by 50 cells and a full-size grid.
pub open spec fn grid_wf(v: TtyView) -> bool {
    &&& 0 <= v.width <= 130
    &&& 0 <= v.height <= 50
    &&& v.buf.len() == TTY_CELLS
}

/// A well-formed terminal: a well-formed grid and the cursor no further
/// than one past the last column or row.
pub open spec fn view_wf(v: TtyView) -> bool {
    &&& grid_wf(v)
    &&& 0 <= v.cursor_x <= v.width
    &&& 0 <= v.cursor_y <= v.height
}

/// The grid after writing `c` in colour `color` at column `x`, row `y`
/// (nothing changes outside the terminal).
pub open spec fn put_char(v: TtyView, x: int, y: int, c: char, color: Color) -> TtyView {
    if x >= v.width || y >= v.height || x < 0 || y < 0 {
        v
    } else {
        TtyView { buf: v.buf.update(y * v.width + x, Cell { ch: c, color }), ..v }
    }
}

/// Every row moves up by one, the last row becomes empty; `None` on a
/// terminal without rows (which panics).
pub open spec fn scrolled(v: TtyView) -> Option<TtyView> {
    if v.height == 0 {
        None
    } else {
        Some(
            TtyView {
                buf: Seq::new(
                    v.buf.len(),
                    |k: int|
                        if k < (v.height - 1) * v.width {
                            v.buf[k + v.width]
                        } else if k < v.height * v.width {
                            empty_cell(v.fg)
                        } else {
                            v.buf[k]
                        },
                ),
                ..v
            },
        )
    }
}

/// Deleting in the cursor row: with `bksp` the character left of the cursor
/// (the cursor moves left), otherwise the one under it; the rest of the row
/// moves left and an empty cell closes it.
pub open spec fn deleted(v: TtyView, bksp: bool) -> TtyView {
    if v.cursor_y >= v.height {
        v
    } else if bksp && v.cursor_x == 0 {
        v
    } else if !bksp && v.cursor_x >= v.width {
        v
    } else {
        let cx = if bksp { v.cursor_x - 1 } else { v.cursor_x };
        let rs = v.cursor_y * v.width;
        TtyView {
            cursor_x: cx,
            buf: Seq::new(
                v.buf.len(),
                |k: int|
                    if rs + cx <= k < rs + v.width - 1 {
                        v.buf[k + 1]
                    } else if k == rs + v.width - 1 {
                        empty_cell(v.fg)
                    } else {
                        v.buf[k]
                    },
            ),
            ..v
        }
    }
}

/// The colour an SGR code selects (30-37 and 0), or the current one.
pub open spec fn sgr_color(code: int, current: Color) -> Color {
    if code == 30 {
        (0, 0, 0, 255)
    } else if code == 31 {
        (243, 139, 168, 255)
    } else if code == 32 {
        (166, 227, 161, 255)
    } else if code == 33 {
        (249, 226, 175, 255)
    } else if code == 34 {
        (137, 180, 250, 255)
    } else if code == 35 {
        (203, 166, 247, 255)
    } else if code == 36 {
        (0, 170, 170, 255)
    } else if code == 37 {
        (255, 255, 255, 255)
    } else if code == 0 {
        (205, 214, 244, 255)
    } else {
        current
    }
}

pub open spec fn is_digit_char(c: char) -> bool {
    '0' <= c <= '9'
}

/// How many digits (at most three) follow position `i`.
pub open spec fn digit_run(s: Seq<char>, i: int) -> int {
    if i < s.len() && is_digit_char(s[i]) {
        if i + 1 < s.len() && is_digit_char(s[i + 1]) {
            if i + 2 < s.len() && is_digit_char(s[i + 2]) {
                3
            } else {
                2
            }
        } else {
            1
        }
    } else {
        0
    }
}

/// The decimal value of `n` digits from position `i`, or 0 when it does not
/// fit in a byte (the parse fails).
pub open spec fn sgr_code(s: Seq<char>, i: int, n: int) -> int {
    let d = |k: int| (s[i + k] as int) - 48;
    let value = if n == 1 {
        d(0)
    } else if n == 2 {
        d(0) * 10 + d(1)
    } else {
        d(0) * 100 + d(1) * 10 + d(2)
    };
    if value > 255 {
        0
    } else {
        value
    }
}

/// The effect of one ordinary character: newline, carriage return,
/// backspace, delete, or a printed character; then the cursor wraps to the
/// next line and the grid scrolls when it runs past the last row.
pub open spec fn handle_char(v: TtyView, c: char) -> Option<TtyView> {
    let v1 = if c == '\n' {
        TtyView { cursor_x: 0, cursor_y: v.cursor_y + 1, ..v }
    } else if c == '\r' {
        TtyView { cursor_x: 0, ..v }
    } else if c == '\x08' {
        deleted(v, true)
    } else if c == '\x7f' {
        deleted(v, false)
    } else {
        let p = put_char(v, v.cursor_x, v.cursor_y, c, v.fg);
        TtyView { cursor_x: p.cursor_x + 1, ..p }
    };
    let v2 = if v1.cursor_x >= v1.width {
        TtyView { cursor_x: 0, cursor_y: v1.cursor_y + 1, ..v1 }
    } else {
        v1
    };
    if v2.cursor_y >= v2.height {
        match scrolled(v2) {
            Some(v3) => Some(TtyView { cursor_y: v3.height - 1, ..v3 }),
            None => None,
        }
    } else {
        Some(v2)
    }
}

/// Writing the characters of `s` from position `i` on; `None` when the
/// terminal would panic (scrolling a terminal without rows).
pub open spec fn tty_write(v: TtyView, s: Seq<char>, i: int) -> Option<TtyView>
    decreases s.len() - i,
{
    if i >= s.len() || i < 0 {
        Some(v)
    } else {
        let c = s[i];
        if c == '\x1b' && i + 1 < s.len() && s[i + 1] == '[' {
            let n = digit_run(s, i + 2);
            let j = i + 2 + n;
            if j < s.len() && s[j] == 'm' {
                let fg = if n > 0 {
                    sgr_color(sgr_code(s, i + 2, n), v.fg)
                } else {
                    (205, 214, 244, 255)
                };
                tty_write(TtyView { fg, ..v }, s, j + 1)
            } else {
                match handle_char(v, c) {
                    Some(v1) => tty_write(v1, s, j),
                    None => None,
                }
            }
        } else {
            match handle_char(v, c) {
                Some(v1) => tty_write(v1, s, i + 1),
                None => None,
            }
        }
    }
}

/// One ordinary character on a terminal with rows is always handled, and
/// keeps the size; on a terminal with columns too, a cursor inside it stays
/// inside it.
proof fn lemma_handle_char(v: TtyView, c: char)
    requires
        v.height > 0,
    ensures
        handle_char(v, c) matches Some(w) && w.width == v.width && w.height == v.height,
        v.width > 0 && 0 <= v.cursor_x < v.width && 0 <= v.cursor_y < v.height ==> (handle_char(
            v,
            c,
        ) matches Some(w) && 0 <= w.cursor_x < w.width && 0 <= w.cursor_y < w.height),
{
}

/// Writing any text to a terminal with rows is defined (it never scrolls a
/// terminal without rows), and keeps the terminal's size.
pub proof fn lemma_write_defined(v: TtyView, s: Seq<char>, i: int)
    requires
        v.height > 0,
    ensures
        tty_write(v, s, i) matches Some(w) && w.width == v.width && w.height == v.height,
    decreases s.len() - i,
{
    if i >= s.len() || i < 0 {
    } else {
        let c = s[i];
        if c == '\x1b' && i + 1 < s.len() && s[i + 1] == '[' {
            let n = digit_run(s, i + 2);
            let j = i + 2 + n;
            if j < s.len() && s[j] == 'm' {
                let fg = if n > 0 { sgr_color(sgr_code(s, i + 2, n), v.fg) } else { (205, 214, 244, 255) };
                lemma_write_defined(TtyView { fg, ..v }, s, j + 1);
            } else {
                lemma_handle_char(v, c);
                lemma_write_defined(handle_char(v, c)->0, s, j);
            }
        } else {
            lemma_handle_char(v, c);
            lemma_write_defined(handle_char(v, c)->0, s, i + 1);
        }
    }
}

/// Writing any text to a terminal with rows and columns, its cursor inside
/// it, leaves the cursor inside it and the size unchanged.
pub proof fn lemma_write_keeps_cursor(v: TtyView, s: Seq<char>, i: int)
    requires
        v.width > 0,
        v.height > 0,
        0 <= v.cursor_x < v.width,
        0 <= v.cursor_y < v.height,
    ensures
        tty_write(v, s, i) matches Some(w) && w.width == v.width && w.height == v.height && 0 <= w.cursor_x
            < w.width && 0 <= w.cursor_y < w.height,
    decreases s.len() - i,
{
    if i >= s.len() || i < 0 {
    } else {
        let c = s[i];
        if c == '\x1b' && i + 1 < s.len() && s[i + 1] == '[' {
            let n = digit_run(s, i + 2);
            let j = i + 2 + n;
            if j < s.len() && s[j] == 'm' {
                let fg = if n > 0 { sgr_color(sgr_code(s, i + 2, n), v.fg) } else { (205, 214, 244, 255) };
                lemma_write_keeps_cursor(TtyView { fg, ..v }, s, j + 1);
            } else {
                lemma_handle_char(v, c);
                lemma_write_keeps_cursor(handle_char(v, c)->0, s, j);
            }
        } else {
            lemma_handle_char(v, c);
            lemma_write_keeps_cursor(handle_char(v, c)->0, s, i + 1);
        }
    }
}

impl View for TTY {
    type V = TtyView;

    closed spec fn view(&self) -> TtyView {
        TtyView {
            width: self.width as int,
            height: self.height as int,
            buf: self.text_buf@,
            cursor_x: self.cursor_x as int,
            cursor_y: self.cursor_y as int,
            fg: self.fg_color,
        }
    }
}

/// What is put in a cell inside the terminal is read back from it, and
/// every other cell keeps its contents.
pub proof fn lemma_put_char_read_back(v: TtyView, x: int, y: int, c: char, color: Color, x2: int, y2: int)
    requires
        view_wf(v),
        0 <= x < v.width,
        0 <= y < v.height,
        0 <= x2 < v.width,
        0 <= y2 < v.height,
    ensures
        put_char(v, x, y, c, color).buf[y * v.width + x] == (Cell { ch: c, color }),
        x2 != x || y2 != y ==> put_char(v, x, y, c, color).buf[y2 * v.width + x2] == v.buf[y2 * v.width + x2],
        put_char(v, x, y, c, color).width == v.width,
        put_char(v, x, y, c, color).height == v.height,
        view_wf(put_char(v, x, y, c, color)),
{
    lemma_cell_index(v.width, v.height, x, y);
    lemma_cell_index(v.width, v.height, x2, y2);
    if x2 != x || y2 != y {
        let w = v.width;
        if y2 == y {
            assert(y2 * w + x2 != y * w + x);
        } else if y2 < y {
            assert(y2 * w + x2 < y * w + x) by (nonlinear_arith)
                requires
                    0 <= x2 < w,
                    0 <= x,
                    0 <= y2 < y,
            ;
        } else {
            assert(y * w + x < y2 * w + x2) by (nonlinear_arith)
                requires
                    0 <= x < w,
                    0 <= x2,
                    0 <= y < y2,
            ;
        }
    }
}

proof fn lemma_cell_index(w: int, h: int, x: int, y: int)
    requires
        0 <= w <= 130,
        0 <= h <= 50,
        0 <= x < w,
        0 <= y < h,
    ensures
        0 <= y * w + x < h * w <= 6500,
{
    assert(0 <= y * w + x < h * w <= 6500) by (nonlinear_arith)
        requires
            0 <= w <= 130,
            0 <= h <= 50,
            0 <= x < w,
            0 <= y < h,
    ;
}

impl TTY {
    pub open spec fn wf(&self) -> bool {
        view_wf(self@)
    }

    /// A terminal sized to a framebuffer resolution in pixels (8 by 8 pixels a
    /// cell, at most 130 by 50 cells); without a framebuffer it has no cells.
    pub fn new(resolution: Option<(usize, usize)>) -> (res: Self)
        ensures
            res.wf(),
            res@.width == (match resolution {
                Some(r) => if r.0 / 8 < 130 { r.0 / 8 } else { 130 },
                None => 0,
            }),
            res@.height == (match resolution {
                Some(r) => if r.1 / 8 < 50 { r.1 / 8 } else { 50 },
                None => 0,
            }),
            res@.buf == Seq::new(TTY_CELLS as nat, |k: int| Cell { ch: '\x00', color: white() }),
            res@.cursor_x == 0,
            res@.cursor_y == 0,
            res@.fg == white(),
    {
        let (mut width, mut height): (usize, usize) = (0, 0);
        if let Some((w, h)) = resolution {
            width = w;
            height = h;
        }
        let width = if width / 8 < 130 {
            width / 8
        } else {
            130
        };
        let height = if height / 8 < 50 {
            height / 8
        } else {
            50
        };
        let mut buffer: Vec<Cell> = Vec::new();
        let mut k: usize = 0;
        while k < TTY_CELLS
            invariant
                k <= TTY_CELLS,
                buffer@ == Seq::new(k as nat, |j: int| Cell { ch: '\x00', color: white() }),
            decreases TTY_CELLS - k,
        {
            buffer.push(Cell { ch: '\x00', color: (255, 255, 255, 255) });
            k = k + 1;
        }
        Self {
            width,
            height,
            text_buf: buffer,
            cursor_x: 0,
            cursor_y: 0,
            fg_color: (255, 255, 255, 255),
        }
    }

    /// Puts a character in a cell; positions outside the terminal are ignored.
    pub fn set_char(&mut self, x: usize, y: usize, c: char, color: Color)
        requires
            old(self).wf(),
        ensures
            final(self).wf(),
            final(self)@ == put_char(old(self)@, x as int, y as int, c, color),
    {
        if x >= self.width || y >= self.height {
            return;
        }
        proof {
            lemma_cell_index(self.width as int, self.height as int, x as int, y as int);
        }
        self.text_buf.set(y * self.width + x, Cell { ch: c, color });
    }

    /// The character in a cell, if the position is inside the terminal.
    pub fn get_char(&self, x: usize, y: usize) -> (res: Option<char>)
        requires
            self.wf(),
        ensures
            res == (if x < self@.width && y < self@.height {
                Some(self@.buf[y * self@.width + x].ch)
            } else {
                None::<char>
            }),
    {
        if x >= self.width || y >= self.height {
            return None;
        }
        proof {
            lemma_cell_index(self.width as int, self.height as int, x as int, y as int);
        }
        Some(self.text_buf[y * self.width + x].ch)
    }

    /// The whole cell (character and colour) at a position inside the
    /// terminal, for drawing it.
    pub fn cell(&self, x: usize, y: usize) -> (res: Option<Cell>)
        requires
            self.wf(),
        ensures
            res == (if x < self@.width && y < self@.height {
                Some(self@.buf[y * self@.width + x])
            } else {
                None::<Cell>
            }),
    {
        if x >= self.width || y >= self.height {
            return None;
        }
        proof {
            lemma_cell_index(self.width as int, self.height as int, x as int, y as int);
        }
        Some(self.text_buf[y * self.width + x])
    }

    /// The size of the terminal in cells.
    pub fn size(&self) -> (res: (usize, usize))
        ensures
            res.0 == self@.width,
            res.1 == self@.height,
    {
        (self.width, self.height)
    }

    /// Clears the screen to the background colour (30, 30, 46), empties
    /// every cell (in the current colour) and homes the cursor.
    pub fn clear_tty(&mut self, fb: &mut Framebuffer)
        requires
            old(self).wf(),
            old(fb).wf(),
        ensures
            final(fb).wf(),
            screen_cleared(old(fb)@, final(fb)@, (30, 30, 46)),
            final(self).wf(),
            final(self)@ == (TtyView {
                buf: Seq::new(TTY_CELLS as nat, |k: int| empty_cell(old(self)@.fg)),
                cursor_x: 0,
                cursor_y: 0,
                ..old(self)@
            }),
    {
        fb.clear_screen((30, 30, 46));
        let mut i: usize = 0;
        while i < self.text_buf.len()
            invariant
                self.text_buf@.len() == TTY_CELLS,
                i <= TTY_CELLS,
                self.width == old(self).width,
                self.height == old(self).height,
                self.cursor_x == old(self).cursor_x,
                self.cursor_y == old(self).cursor_y,
                self.fg_color == old(self).fg_color,
                forall|k: int| 0 <= k < i ==> #[trigger] self.text_buf@[k] == empty_cell(self.fg_color),
            decreases TTY_CELLS - i,
        {
            let fg = self.fg_color;
            self.text_buf.set(i, Cell::empty(fg));
            i = i + 1;
        }
        self.cursor_x = 0;
        self.cursor_y = 0;
        assert(self.text_buf@ =~= Seq::new(TTY_CELLS as nat, |k: int| empty_cell(old(self)@.fg)));
    }

    /// Moves every row up by one and empties the last row.
    pub fn scroll_up(&mut self)
        requires
            grid_wf(old(self)@),
            old(self)@.height > 0,
        ensures
            grid_wf(final(self)@),
            Some(final(self)@) == scrolled(old(self)@),
    {
        let w = self.width;
        let h = self.height;
        let ghost old_buf = self.text_buf@;
        let mut y: usize = 1;
        while y < h
            invariant
                w == self.width,
                h == self.height,
                self.width == old(self).width,
                self.height == old(self).height,
                self.cursor_x == old(self).cursor_x,
                self.cursor_y == old(self).cursor_y,
                self.fg_color == old(self).fg_color,
                old_buf == old(self).text_buf@,
                grid_wf(old(self)@),
                1 <= y <= h,
                self.text_buf@.len() == TTY_CELLS,
                forall|k: int| 0 <= k < (y - 1) * w ==> #[trigger] self.text_buf@[k] == old_buf[k + w],
                forall|k: int| (y - 1) * w <= k < TTY_CELLS ==> #[trigger] self.text_buf@[k] == old_buf[k],
            decreases h - y,
        {
            let mut x: usize = 0;
            while x < w
                invariant
                    w == self.width,
                    h == self.height,
                    self.width == old(self).width,
                    self.height == old(self).height,
                    self.cursor_x == old(self).cursor_x,
                    self.cursor_y == old(self).cursor_y,
                    self.fg_color == old(self).fg_color,
                    old_buf == old(self).text_buf@,
                    grid_wf(old(self)@),
                    1 <= y < h,
                    x <= w,
                    self.text_buf@.len() == TTY_CELLS,
                    forall|k: int| 0 <= k < (y - 1) * w + x ==> #[trigger] self.text_buf@[k] == old_buf[k + w],
                    forall|k: int| (y - 1) * w + x <= k < TTY_CELLS ==> #[trigger] self.text_buf@[k] == old_buf[k],
                decreases w - x,
            {
                proof {
                    lemma_cell_index(w as int, h as int, x as int, y as int);
                    assert((y - 1) * w + x + w == y * w + x) by (nonlinear_arith);
                }
                let from = self.text_buf[y * w + x];
                self.text_buf.set((y - 1) * w + x, from);
                x = x + 1;
            }
            proof {
                assert((y - 1) * w + w == y * w) by (nonlinear_arith);
            }
            y = y + 1;
        }
        let mut x: usize = 0;
        proof {
            assert((h - 1) * w + w == h * w) by (nonlinear_arith);
            assert(h * w <= 6500) by (nonlinear_arith)
                requires
                    h <= 50,
                    w <= 130,
            ;
        }
        while x < w
            invariant
                w == self.width,
                h == self.height,
                h >= 1,
                (h - 1) * w + w == h * w,
                h * w <= 6500,
                self.width == old(self).width,
                self.height == old(self).height,
                self.cursor_x == old(self).cursor_x,
                self.cursor_y == old(self).cursor_y,
                self.fg_color == old(self).fg_color,
                old_buf == old(self).text_buf@,
                grid_wf(old(self)@),
                x <= w,
                self.text_buf@.len() == TTY_CELLS,
                forall|k: int| 0 <= k < (h - 1) * w ==> #[trigger] self.text_buf@[k] == old_buf[k + w],
                forall|k: int|
                    (h - 1) * w <= k < (h - 1) * w + x ==> #[trigger] self.text_buf@[k] == empty_cell(
                        self.fg_color,
                    ),
                forall|k: int| (h - 1) * w + x <= k < TTY_CELLS ==> #[trigger] self.text_buf@[k] == old_buf[k],
            decreases w - x,
        {
            let fg = self.fg_color;
            self.text_buf.set((h - 1) * w + x, Cell { ch: '\x00', color: fg });
            x = x + 1;
        }
        assert(self.text_buf@ =~= scrolled(old(self)@).unwrap().buf);
    }

    /// Deletes the character left of the cursor (`bksp`) or under it, within
    /// the cursor's row.
    pub fn delete(&mut self, bksp: bool)
        requires
            old(self).wf(),
        ensures
            final(self).wf(),
            final(self)@ == deleted(old(self)@, bksp),
    {
        if self.cursor_y >= self.height {
            return;
        }
        proof {
            assert(self.cursor_y * self.width + self.width <= self.height * self.width <= 6500)
                by (nonlinear_arith)
                requires
                    self.cursor_y < self.height,
                    self.height <= 50,
                    self.width <= 130,
            ;
        }
        let row_start = self.cursor_y * self.width;
        let row_end = row_start + self.width;
        if bksp {
            if self.cursor_x == 0 {
                return;
            }
            self.cursor_x -= 1;
        } else {
            if self.cursor_x >= self.width {
                return;
            }
        }
        let ghost old_buf = self.text_buf@;
        let mut x = self.cursor_x;
        let w = self.width;
        while x < w - 1
            invariant
                w == self.width,
                w > 0,
                self.cursor_x < w,
                row_start == self.cursor_y * w,
                row_end == row_start + w,
                row_end <= TTY_CELLS,
                self.text_buf@.len() == TTY_CELLS,
                self.cursor_x <= x <= w - 1,
                old_buf == old(self).text_buf@,
                self.width == old(self).width,
                self.height == old(self).height,
                self.cursor_y == old(self).cursor_y,
                self.fg_color == old(self).fg_color,
                self.cursor_x == (if bksp { old(self).cursor_x - 1 } else { old(self).cursor_x as int }),
                forall|k: int|
                    row_start + self.cursor_x <= k < row_start + x ==> #[trigger] self.text_buf@[k]
                        == old_buf[k + 1],
                forall|k: int|
                    0 <= k < TTY_CELLS && !(row_start + self.cursor_x <= k < row_start + x)
                        ==> #[trigger] self.text_buf@[k] == old_buf[k],
            decreases w - x,
        {
            let next = self.text_buf[row_start + x + 1];
            self.text_buf.set(row_start + x, next);
            x = x + 1;
        }
        let fg = self.fg_color;
        self.text_buf.set(row_end - 1, Cell { ch: '\x00', color: fg });
        assert(self.text_buf@ =~= deleted(old(self)@, bksp).buf);
    }

    /// Handles one ordinary character (see `handle_char`).
    fn put_plain_char(&mut self, c: char)
        requires
            old(self).wf(),
            handle_char(old(self)@, c) is Some,
        ensures
            final(self).wf(),
            Some(final(self)@) == handle_char(old(self)@, c),
    {
        if c == '\n' {
            self.cursor_x = 0;
            self.cursor_y += 1;
        } else if c == '\r' {
            self.cursor_x = 0;
        } else if c == '\x08' {
            self.delete(true);
        } else if c == '\x7f' {
            self.delete(false);
        } else {
            let (x, y, fg) = (self.cursor_x, self.cursor_y, self.fg_color);
            self.set_char(x, y, c, fg);
            self.cursor_x += 1;
        }
        if self.cursor_x >= self.width {
            self.cursor_x = 0;
            self.cursor_y += 1;
        }
        if self.cursor_y >= self.height {
            self.scroll_up();
            self.cursor_y = self.height - 1;
        }
    }

    /// Writes text: ordinary characters go to the cursor, and an SGR escape
    /// (`ESC [ digits m`) selects the foreground colour. The text must not
    /// make a terminal without rows scroll (that panics).
    pub fn write_str(&mut self, s: &str)
        requires
            old(self).wf(),
            tty_write(old(self)@, s@, 0) is Some,
        ensures
            final(self).wf(),
            Some(final(self)@) == tty_write(old(self)@, s@, 0),
    {
        let n = s.unicode_len();
        let mut i: usize = 0;
        while i < n
            invariant
                n == s@.len(),
                i <= n,
                self.wf(),
                tty_write(old(self)@, s@, 0) == tty_write(self@, s@, i as int),
                tty_write(self@, s@, i as int) is Some,
            decreases n - i,
        {
            let ghost i0 = i as int;
            let c = s.get_char(i);
            i = i + 1;
            if c == '\x1b' && i < n && s.get_char(i) == '[' {
                i = i + 1;
                let ghost p = i as int;
                let mut num_buf = [0u8; 3];
                let mut num_len: usize = 0;
                while i < n && num_len < 3
                    invariant
                        n == s@.len(),
                        p <= n,
                        i == p + num_len,
                        i <= n,
                        num_len <= 3,
                        forall|k: int| 0 <= k < num_len ==> is_digit_char(#[trigger] s@[p + k]),
                        forall|k: int| 0 <= k < num_len ==> #[trigger] num_buf@[k] == s@[p + k] as u8,
                    ensures
                        i == n || num_len == 3 || !is_digit_char(s@[i as int]),
                    decreases n - i,
                {
                    let d = s.get_char(i);
                    if d >= '0' && d <= '9' {
                        num_buf[num_len] = d as u8;
                        num_len = num_len + 1;
                        i = i + 1;
                    } else {
                        break;
                    }
                }
                assert(digit_run(s@, p) == num_len as int);
                if i < n && s.get_char(i) == 'm' {
                    i = i + 1;
                    if num_len > 0 {
                        let code = decimal_code(&num_buf, num_len);
                        assert(code as int == sgr_code(s@, p, num_len as int));
                        self.fg_color = sgr_color_exec(code, self.fg_color);
                    } else {
                        self.fg_color = (205, 214, 244, 255);
                    }
                    continue;
                }
            }
            self.put_plain_char(c);
        }
    }

    /// The pixel position of the cursor (cells are 8 pixels wide and
    /// `font_height` pixels high).
    pub fn get_cur_loc(&mut self, font_height: usize) -> (res: (usize, usize))
        requires
            old(self).wf(),
            old(self)@.cursor_y * font_height <= usize::MAX,
        ensures
            final(self)@ == old(self)@,
            res.0 == old(self)@.cursor_x * 8,
            res.1 == old(self)@.cursor_y * font_height,
    {
        (self.cursor_x * 8, self.cursor_y * font_height)
    }

    /// Draws a smiley face into `fb` at the cursor's cell, in the given
    /// colour or the current foreground, and moves the cursor one cell on,
    /// wrapping to the first row at the end; returns where and in which
    /// colour it was drawn.
    pub fn yay(&mut self, color: Option<Color>, font_height: usize, fb: &mut Framebuffer) -> (res: (usize, usize, Color))
        requires
            old(self).wf(),
            old(self)@.cursor_y * font_height + 5 <= usize::MAX,
            old(fb).wf(),
        ensures
            final(self).wf(),
            res.0 == old(self)@.cursor_x * 8,
            res.1 == old(self)@.cursor_y * font_height,
            res.2 == (match color {
                Some(c) => c,
                None => old(self)@.fg,
            }),
            final(self)@ == advance_face(old(self)@),
            final(fb).wf(),
            final(fb)@.info == old(fb)@.info,
            final(fb)@.buffer == if res.2.3 == 0 {
                old(fb)@.buffer
            } else {
                put_pixels(old(fb)@.info, old(fb)@.buffer, smiley_points(res.0 as int, res.1 as int), (res.2.0, res.2.1, res.2.2))
            },
    {
        let (x, y, c) = self.face(color, font_height);
        fb.draw_smiley(x, y, c);
        (x, y, c)
    }

    /// The same as `yay`, for a sad face.
    pub fn sad(&mut self, color: Option<Color>, font_height: usize, fb: &mut Framebuffer) -> (res: (usize, usize, Color))
        requires
            old(self).wf(),
            old(self)@.cursor_y * font_height + 5 <= usize::MAX,
            old(fb).wf(),
        ensures
            final(self).wf(),
            res.0 == old(self)@.cursor_x * 8,
            res.1 == old(self)@.cursor_y * font_height,
            res.2 == (match color {
                Some(c) => c,
                None => old(self)@.fg,
            }),
            final(self)@ == advance_face(old(self)@),
            final(fb).wf(),
            final(fb)@.info == old(fb)@.info,
            final(fb)@.buffer == if res.2.3 == 0 {
                old(fb)@.buffer
            } else {
                put_pixels(old(fb)@.info, old(fb)@.buffer, sad_points(res.0 as int, res.1 as int), (res.2.0, res.2.1, res.2.2))
            },
    {
        let (x, y, c) = self.face(color, font_height);
        fb.draw_sad_face(x, y, c);
        (x, y, c)
    }

    fn face(&mut self, color: Option<Color>, font_height: usize) -> (res: (usize, usize, Color))
        requires
            old(self).wf(),
            old(self)@.cursor_y * font_height <= usize::MAX,
        ensures
            final(self).wf(),
            res.0 == old(self)@.cursor_x * 8,
            res.1 == old(self)@.cursor_y * font_height,
            res.2 == (match color {
                Some(c) => c,
                None => old(self)@.fg,
            }),
            final(self)@ == advance_face(old(self)@),
    {
        let (x, y) = self.get_cur_loc(font_height);
        let c = match color {
            Some(c) => c,
            None => self.fg_color,
        };
        self.cursor_x += 1;
        if self.cursor_x >= self.width {
            self.cursor_x = 0;
            self.cursor_y += 1;
        }
        if self.cursor_y >= self.height {
            self.cursor_y = 0;
        }
        (x, y, c)
    }
}

/// The cursor after a face is drawn: one cell on, wrapping to the next row,
/// and back to the first row past the last.
pub open spec fn advance_face(v: TtyView) -> TtyView {
    let x1 = v.cursor_x + 1;
    let (x2, y2) = if x1 >= v.width {
        (0, v.cursor_y + 1)
    } else {
        (x1, v.cursor_y)
    };
    let y3 = if y2 >= v.height {
        0
    } else {
        y2
    };
    TtyView { cursor_x: x2, cursor_y: y3, ..v }
}

/// The value of up to three ASCII digits, or 0 when it exceeds 255.
fn decimal_code(num_buf: &[u8; 3], num_len: usize) -> (res: u8)
    requires
        1 <= num_len <= 3,
        forall|k: int| 0 <= k < num_len ==> 48 <= #[trigger] num_buf@[k] <= 57,
    ensures
        ({
            let d = |k: int| (num_buf@[k] as int) - 48;
            let value = if num_len == 1 {
                d(0)
            } else if num_len == 2 {
                d(0) * 10 + d(1)
            } else {
                d(0) * 100 + d(1) * 10 + d(2)
            };
            res == if value > 255 {
                0
            } else {
                value
            }
        }),
{
    let mut value: u32 = 0;
    let mut k: usize = 0;
    while k < num_len
        invariant
            k <= num_len <= 3,
            forall|j: int| 0 <= j < num_len ==> 48 <= #[trigger] num_buf@[j] <= 57,
            value == (if k == 0 {
                0
            } else if k == 1 {
                num_buf@[0] - 48
            } else if k == 2 {
                (num_buf@[0] - 48) * 10 + (num_buf@[1] - 48)
            } else {
                (num_buf@[0] - 48) * 100 + (num_buf@[1] - 48) * 10 + (num_buf@[2] - 48)
            }),
        decreases num_len - k,
    {
        value = value * 10 + (num_buf[k] - 48) as u32;
        k = k + 1;
    }
    if value > 255 {
        0
    } else {
        value as u8
    }
}

fn sgr_color_exec(code: u8, current: Color) -> (res: Color)
    ensures
        res == sgr_color(code as int, current),
{
    match code {
        30 => (0, 0, 0, 255),
        31 => (243, 139, 168, 255),
        32 => (166, 227, 161, 255),
        33 => (249, 226, 175, 255),
        34 => (137, 180, 250, 255),
        35 => (203, 166, 247, 255),
        36 => (0, 170, 170, 255),
        37 => (255, 255, 255, 255),
        0 => (205, 214, 244, 255),
        _ => current,
    }
}

} // verus!

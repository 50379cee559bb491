//! The kernel's linear framebuffer: a byte buffer of `height` rows of
//! `stride` pixels, each `bytes_per_pixel` bytes wide, in RGB, BGR or
//! 8-bit grey. Pixels, rectangles, the whole screen, bitmaps and the two
//! little faces are drawn into it.
use vstd::arithmetic::div_mod::{lemma_fundamental_div_mod, lemma_fundamental_div_mod_converse};
use vstd::arithmetic::mul::lemma_mul_is_commutative;
use vstd::prelude::*;

verus! {

#[derive(Debug, Clone, Copy, PartialEq, Eq, Structural)]
pub enum PixelFormat {
    Rgb,
    Bgr,
    U8,
    Unknown,
}

/// What the boot loader reports of the framebuffer's shape.
#[derive(Debug, Clone, Copy)]
pub struct FrameBufferInfo {
    pub width: usize,
    pub height: usize,
    pub stride: usize,
    pub bytes_per_pixel: usize,
    pub pixel_format: PixelFormat,
}

/// The shape fits a buffer of `len` bytes: rows are at least as wide as
/// the visible width, and RGB/BGR pixels hold their three bytes.
pub open spec fn info_fits(info: FrameBufferInfo, len: nat) -> bool {
    &&& info.width <= info.stride
    &&& info.bytes_per_pixel >= 1
    &&& (info.pixel_format == PixelFormat::Rgb || info.pixel_format == PixelFormat::Bgr)
        ==> info.bytes_per_pixel >= 3
    &&& info.height * info.stride * info.bytes_per_pixel <= len
}

/// How many bytes of a pixel a format writes.
pub open spec fn components(f: PixelFormat) -> int {
    match f {
        PixelFormat::Rgb => 3,
        PixelFormat::Bgr => 3,
        PixelFormat::U8 => 1,
        PixelFormat::Unknown => 0,
    }
}

/// Byte `k` of a pixel of colour `c`: red, green, blue in RGB; blue,
/// green, red in BGR; the red value in 8-bit grey.
pub open spec fn component(f: PixelFormat, c: (u8, u8, u8), k: int) -> u8 {
    match f {
        PixelFormat::Bgr => if k == 0 {
            c.2
        } else if k == 1 {
            c.1
        } else {
            c.0
        },
        PixelFormat::Rgb => if k == 0 {
            c.0
        } else if k == 1 {
            c.1
        } else {
            c.2
        },
        _ => c.0,
    }
}

/// The grey a colour is cleared to: the mean of its three values.
pub open spec fn grey(c: (u8, u8, u8)) -> u8 {
    ((c.0 + c.1 + c.2) / 3) as u8
}

/// Byte `i` of a buffer of `unit`-byte cells, `stride` cells per row, lies
/// in the rectangle of rows `y0..y0+h` and columns `x0..x0+w`, and is one
/// of the first `n` bytes of its cell.
pub open spec fn in_area(i: int, unit: int, stride: int, x0: int, w: int, y0: int, h: int, n: int) -> bool {
    let p = i / unit;
    let k = i % unit;
    let row = p / stride;
    let col = p % stride;
    y0 <= row < y0 + h && x0 <= col < x0 + w && k < n
}

/// `new` is `old` with every byte of the rectangle set to the value for
/// its place in the cell.
pub open spec fn painted(
    old: Seq<u8>,
    new: Seq<u8>,
    unit: int,
    stride: int,
    x0: int,
    w: int,
    y0: int,
    h: int,
    n: int,
    vals: Seq<u8>,
) -> bool {
    &&& new.len() == old.len()
    &&& forall|i: int|
        0 <= i < old.len() ==> #[trigger] new[i] == if in_area(i, unit, stride, x0, w, y0, h, n) {
            vals[i % unit]
        } else {
            old[i]
        }
}

/// The cell of row `row`, column `col` starts at `(row * stride + col) *
/// unit`, and its `k`th byte decomposes back to those.
proof fn lemma_cell(row: int, col: int, k: int, stride: int, unit: int)
    requires
        0 <= row,
        0 <= col < stride,
        0 <= k < unit,
    ensures
        ((row * stride + col) * unit + k) / unit == row * stride + col,
        ((row * stride + col) * unit + k) % unit == k,
        (row * stride + col) / stride == row,
        (row * stride + col) % stride == col,
{
    lemma_fundamental_div_mod_converse((row * stride + col) * unit + k, unit, row * stride + col, k);
    lemma_fundamental_div_mod_converse(row * stride + col, stride, row, col);
}

/// A byte whose cell is `p` and whose place in it is `k` is byte
/// `p * unit + k`.
proof fn lemma_recompose(i: int, unit: int)
    requires
        0 <= i,
        0 < unit,
    ensures
        i == (i / unit) * unit + i % unit,
{
    lemma_fundamental_div_mod(i, unit);
    lemma_mul_is_commutative(unit, i / unit);
}

proof fn lemma_cell_in_bounds(row: int, col: int, k: int, stride: int, unit: int, rows: int)
    requires
        0 <= row < rows,
        0 <= col < stride,
        0 <= k < unit,
    ensures
        0 <= (row * stride + col) * unit + k < rows * stride * unit,
        0 <= row * stride <= row * stride + col <= (row * stride + col) * unit,
{
    assert(0 <= (row * stride + col) * unit + k < rows * stride * unit) by (nonlinear_arith)
        requires
            0 <= row < rows,
            0 <= col < stride,
            0 <= k < unit,
    ;
    assert(0 <= row * stride) by (nonlinear_arith)
        requires
            0 <= row,
            0 <= stride,
    ;
    assert(row * stride + col <= (row * stride + col) * unit) by (nonlinear_arith)
        requires
            0 <= row * stride + col,
            1 <= unit,
    ;
}

/// Sets the first `n` bytes of every cell of a rectangle to `vals`.
fn fill_area(
    buf: &mut Vec<u8>,
    unit: usize,
    stride: usize,
    x0: usize,
    w: usize,
    y0: usize,
    h: usize,
    vals: [u8; 3],
    n: usize,
)
    requires
        1 <= unit,
        n <= 3,
        n <= unit,
        x0 + w <= stride,
        y0 + h <= usize::MAX,
        (y0 + h) * stride * unit <= old(buf)@.len(),
    ensures
        painted(old(buf)@, final(buf)@, unit as int, stride as int, x0 as int, w as int, y0 as int, h as int, n as int, vals@),
{
    let ghost old_buf = buf@;
    let len = buf.len();
    let ghost u = unit as int;
    let ghost s = stride as int;
    let mut row = y0;
    while row < y0 + h
        invariant
            1 <= unit,
            n <= 3,
            n <= unit,
            x0 + w <= stride,
            (y0 + h) * stride * unit <= old_buf.len(),
            y0 + h <= usize::MAX,
            len == old_buf.len(),
            u == unit,
            s == stride,
            y0 <= row <= y0 + h,
            buf@.len() == old_buf.len(),
            forall|i: int|
                0 <= i < old_buf.len() ==> #[trigger] buf@[i] == if in_area(i, u, s, x0 as int, w as int, y0 as int, row - y0, n as int) {
                    vals@[i % u]
                } else {
                    old_buf[i]
                },
        decreases y0 + h - row,
    {
        let mut col = x0;
        while col < x0 + w
            invariant
                1 <= unit,
                n <= 3,
                n <= unit,
                x0 + w <= stride,
                (y0 + h) * stride * unit <= old_buf.len(),
                y0 + h <= usize::MAX,
                len == old_buf.len(),
                u == unit,
                s == stride,
                y0 <= row < y0 + h,
                x0 <= col <= x0 + w,
                buf@.len() == old_buf.len(),
                forall|i: int|
                    0 <= i < old_buf.len() ==> #[trigger] buf@[i] == if in_area(i, u, s, x0 as int, w as int, y0 as int, row - y0, n as int)
                        || in_area(i, u, s, x0 as int, col - x0, row as int, 1, n as int) {
                        vals@[i % u]
                    } else {
                        old_buf[i]
                    },
            decreases x0 + w - col,
        {
            proof {
                lemma_cell_in_bounds(row as int, col as int, 0, s, u, (y0 + h) as int);
                assert((y0 + h) * stride * unit == ((y0 + h) as int) * s * u);
            }
            let base = (row * stride + col) * unit;
            let mut k: usize = 0;
            while k < n
                invariant
                    1 <= unit,
                    n <= 3,
                    n <= unit,
                    x0 + w <= stride,
                    (y0 + h) * stride * unit <= old_buf.len(),
                    y0 + h <= usize::MAX,
                    len == old_buf.len(),
                    u == unit,
                    s == stride,
                    y0 <= row < y0 + h,
                    x0 <= col < x0 + w,
                    base == (row * stride + col) * unit,
                    k <= n,
                    buf@.len() == old_buf.len(),
                    forall|i: int|
                        0 <= i < old_buf.len() ==> #[trigger] buf@[i] == if in_area(i, u, s, x0 as int, w as int, y0 as int, row - y0, n as int)
                            || in_area(i, u, s, x0 as int, col - x0, row as int, 1, n as int)
                            || in_area(i, u, s, col as int, 1, row as int, 1, k as int) {
                            vals@[i % u]
                        } else {
                            old_buf[i]
                        },
                decreases n - k,
            {
                proof {
                    lemma_cell_in_bounds(row as int, col as int, k as int, s, u, (y0 + h) as int);
                    lemma_cell(row as int, col as int, k as int, s, u);
                }
                let j = base + k;
                let ghost before = buf@;
                buf.set(j, vals[k]);
                proof {
                    assert forall|i: int| 0 <= i < old_buf.len() implies #[trigger] buf@[i] == if in_area(i, u, s, x0 as int, w as int, y0 as int, row - y0, n as int)
                        || in_area(i, u, s, x0 as int, col - x0, row as int, 1, n as int)
                        || in_area(i, u, s, col as int, 1, row as int, 1, k + 1) {
                        vals@[i % u]
                    } else {
                        old_buf[i]
                    } by {
                        if i == j {
                        } else {
                            assert(buf@[i] == before[i]);
                            if in_area(i, u, s, col as int, 1, row as int, 1, k + 1) && !in_area(i, u, s, col as int, 1, row as int, 1, k as int) {
                                lemma_recompose(i, u);
                                lemma_recompose(i / u, s);
                                assert(i / u == row * s + col);
                                assert(i == (row * s + col) * u + k);
                            }
                        }
                    }
                }
                k = k + 1;
            }
            proof {
                assert forall|i: int| 0 <= i < old_buf.len() implies #[trigger] buf@[i] == if in_area(i, u, s, x0 as int, w as int, y0 as int, row - y0, n as int)
                    || in_area(i, u, s, x0 as int, col + 1 - x0, row as int, 1, n as int) {
                    vals@[i % u]
                } else {
                    old_buf[i]
                } by {
                    assert(in_area(i, u, s, x0 as int, col + 1 - x0, row as int, 1, n as int) == (in_area(i, u, s, x0 as int, col - x0, row as int, 1, n as int)
                        || in_area(i, u, s, col as int, 1, row as int, 1, n as int)));
                }
            }
            col = col + 1;
        }
        proof {
            assert forall|i: int| 0 <= i < old_buf.len() implies #[trigger] buf@[i] == if in_area(i, u, s, x0 as int, w as int, y0 as int, row + 1 - y0, n as int) {
                vals@[i % u]
            } else {
                old_buf[i]
            } by {
                assert(in_area(i, u, s, x0 as int, w as int, y0 as int, row + 1 - y0, n as int) == (in_area(i, u, s, x0 as int, w as int, y0 as int, row - y0, n as int)
                    || in_area(i, u, s, x0 as int, col - x0, row as int, 1, n as int)));
            }
        }
        row = row + 1;
    }
}

/// The framebuffer: its shape and its bytes.
pub struct Framebuffer {
    info: FrameBufferInfo,
    buffer: Vec<u8>,
}

pub struct FramebufferView {
    pub info: FrameBufferInfo,
    pub buffer: Seq<u8>,
}

impl View for Framebuffer {
    type V = FramebufferView;

    closed spec fn view(&self) -> FramebufferView {
        FramebufferView { info: self.info, buffer: self.buffer@ }
    }
}

/// The bytes of pixel (`x`, `y`) of colour `c`, as the three values its
/// format writes in order.
/// A screen cleared to `color`: the same shape, and every visible pixel
/// painted in that colour (grey for a one-byte format), the rest unchanged.
pub open spec fn screen_cleared(before: FramebufferView, after: FramebufferView, color: (u8, u8, u8)) -> bool {
    &&& after.info == before.info
    &&& painted(
        before.buffer,
        after.buffer,
        before.info.bytes_per_pixel as int,
        before.info.stride as int,
        0,
        before.info.width as int,
        0,
        before.info.height as int,
        components(before.info.pixel_format),
        if before.info.pixel_format == PixelFormat::U8 {
            seq![grey(color), grey(color), grey(color)]
        } else {
            pixel_vals(before.info.pixel_format, color)
        },
    )
}

pub open spec fn pixel_vals(f: PixelFormat, c: (u8, u8, u8)) -> Seq<u8> {
    seq![component(f, c, 0), component(f, c, 1), component(f, c, 2)]
}

/// The buffer after `put_pixel`: a pixel inside the visible area gets the
/// bytes of its format at `(y * stride + x) * bytes_per_pixel`; anything
/// else leaves the buffer as it was.
pub open spec fn put_pixel_spec(info: FrameBufferInfo, buf: Seq<u8>, x: int, y: int, c: (u8, u8, u8)) -> Seq<u8> {
    let off = (y * info.stride + x) * info.bytes_per_pixel;
    if x < 0 || y < 0 || x >= info.width || y >= info.height {
        buf
    } else {
        match info.pixel_format {
            PixelFormat::Rgb => buf.update(off, c.0).update(off + 1, c.1).update(off + 2, c.2),
            PixelFormat::Bgr => buf.update(off, c.2).update(off + 1, c.1).update(off + 2, c.0),
            PixelFormat::U8 => buf.update(off, c.0),
            PixelFormat::Unknown => buf,
        }
    }
}

/// The buffer after putting the pixels of `pts`, in order.
pub open spec fn put_pixels(info: FrameBufferInfo, buf: Seq<u8>, pts: Seq<(int, int)>, c: (u8, u8, u8)) -> Seq<u8>
    decreases pts.len(),
{
    if pts.len() == 0 {
        buf
    } else {
        put_pixel_spec(info, put_pixels(info, buf, pts.drop_last(), c), pts.last().0, pts.last().1, c)
    }
}

/// The smiley's eleven pixels relative to its corner: two eyes two pixels
/// tall, and a mouth curving up at both ends.
pub open spec fn smiley_points(x: int, y: int) -> Seq<(int, int)> {
    seq![
        (x + 1, y), (x + 1, y + 1), (x + 5, y), (x + 5, y + 1),
        (x, y + 4), (x + 1, y + 5), (x + 2, y + 5), (x + 3, y + 5), (x + 4, y + 5), (x + 5, y + 5),
        (x + 6, y + 4),
    ]
}

/// The sad face's pixels: the same eyes, and a mouth curving down.
pub open spec fn sad_points(x: int, y: int) -> Seq<(int, int)> {
    seq![
        (x + 1, y), (x + 1, y + 1), (x + 5, y), (x + 5, y + 1),
        (x, y + 5), (x + 1, y + 4), (x + 2, y + 4), (x + 3, y + 4), (x + 4, y + 4), (x + 5, y + 4),
        (x + 6, y + 5),
    ]
}

/// The rectangle `draw_rect` fills: empty or starting off screen gives
/// none; otherwise it is moved left and up to fit, keeping its size.
pub open spec fn rect_origin(info: FrameBufferInfo, x: int, y: int, w: int, h: int) -> (int, int) {
    (if x < info.width - w { x } else { info.width - w }, if y < info.height - h { y } else { info.height - h })
}

pub open spec fn rect_skipped(info: FrameBufferInfo, x: int, y: int, w: int, h: int) -> bool {
    x >= info.width || y >= info.height || w == 0 || h == 0
}

/// The visible part of a bitmap placed at (`x`, `y`): its columns and rows
/// that fall on screen.
pub open spec fn bitmap_window(info: FrameBufferInfo, bw: int, bh: int, x: int, y: int) -> (int, int) {
    let room_x = if x < info.width { info.width - x } else { 0 };
    let room_y = if y < info.height { info.height - y } else { 0 };
    (if room_x < bw { room_x } else { bw }, if room_y < bh { room_y } else { bh })
}

/// The row, column and place in the pixel of byte `i`.
pub open spec fn cell_of(info: FrameBufferInfo, i: int) -> (int, int, int) {
    let p = i / (info.bytes_per_pixel as int);
    (p / (info.stride as int), p % (info.stride as int), i % (info.bytes_per_pixel as int))
}

/// The bitmap entry that lands on byte `i` when the bitmap is drawn at
/// (`x`, `y`), as an index.
pub open spec fn bitmap_index(info: FrameBufferInfo, bw: int, x: int, y: int, i: int) -> int {
    let (row, col, k) = cell_of(info, i);
    (row - y) * bw + (col - x)
}

/// Byte `i` is drawn over: its pixel is inside the visible window of the
/// bitmap, it is a byte the format writes, and the bitmap entry for the
/// pixel exists and is not fully transparent.
pub open spec fn bitmap_hit(
    info: FrameBufferInfo,
    bitmap: Seq<(u8, u8, u8, u8)>,
    bw: int,
    bh: int,
    x: int,
    y: int,
    i: int,
) -> bool {
    let (mw, mh) = bitmap_window(info, bw, bh, x, y);
    let (row, col, k) = cell_of(info, i);
    let idx = bitmap_index(info, bw, x, y, i);
    &&& y <= row < y + mh
    &&& x <= col < x + mw
    &&& k < components(info.pixel_format)
    &&& idx < bitmap.len()
    &&& bitmap[idx].3 != 0
}

/// Byte `i` after drawing a bitmap: a byte drawn over takes its entry's
/// colour; everything else is unchanged.
pub open spec fn bitmap_byte(
    info: FrameBufferInfo,
    old: Seq<u8>,
    bitmap: Seq<(u8, u8, u8, u8)>,
    bw: int,
    bh: int,
    x: int,
    y: int,
    i: int,
) -> u8 {
    if bitmap_hit(info, bitmap, bw, bh, x, y, i) {
        let e = bitmap[bitmap_index(info, bw, x, y, i)];
        component(info.pixel_format, (e.0, e.1, e.2), cell_of(info, i).2)
    } else {
        old[i]
    }
}

/// One pixel of a bitmap drawn: the bytes of pixel (`x + col`, `y + row`)
/// join the drawn part, and nothing else changes.
proof fn lemma_bitmap_step(
    info: FrameBufferInfo,
    before: Seq<u8>,
    after: Seq<u8>,
    old_buf: Seq<u8>,
    bm: Seq<(u8, u8, u8, u8)>,
    bw: int,
    bh: int,
    x: int,
    y: int,
    row: int,
    col: int,
    wrote: bool,
    rgb: (u8, u8, u8),
)
    requires
        info_fits(info, old_buf.len()),
        before.len() == old_buf.len(),
        0 <= x,
        0 <= y,
        0 <= bw,
        0 <= row < bitmap_window(info, bw, bh, x, y).1,
        0 <= col < bitmap_window(info, bw, bh, x, y).0,
        wrote == (row * bw + col < bm.len() && bm[row * bw + col].3 != 0),
        wrote ==> rgb == (bm[row * bw + col].0, bm[row * bw + col].1, bm[row * bw + col].2),
        after == if wrote {
            put_pixel_spec(info, before, x + col, y + row, rgb)
        } else {
            before
        },
        forall|i: int|
            0 <= i < old_buf.len() ==> #[trigger] before[i] == if bitmap_hit(info, bm, bw, bh, x, y, i) && (cell_of(info, i).0 - y < row
                || (cell_of(info, i).0 - y == row && cell_of(info, i).1 - x < col)) {
                bitmap_byte(info, old_buf, bm, bw, bh, x, y, i)
            } else {
                old_buf[i]
            },
    ensures
        after.len() == old_buf.len(),
        forall|i: int|
            0 <= i < old_buf.len() ==> #[trigger] after[i] == if bitmap_hit(info, bm, bw, bh, x, y, i) && (cell_of(info, i).0 - y < row
                || (cell_of(info, i).0 - y == row && cell_of(info, i).1 - x < col + 1)) {
                bitmap_byte(info, old_buf, bm, bw, bh, x, y, i)
            } else {
                old_buf[i]
            },
{
    let unit = info.bytes_per_pixel as int;
    let st = info.stride as int;
    let px = x + col;
    let py = y + row;
    let off = (py * st + px) * unit;
    assert(px < info.width && py < info.height);
    lemma_cell_in_bounds(py, px, unit - 1, st, unit, info.height as int);
    assert(off + unit - 1 < before.len());
    assert(after.len() == before.len());
    assert forall|i: int| 0 <= i < old_buf.len() implies #[trigger] after[i] == if bitmap_hit(info, bm, bw, bh, x, y, i) && (cell_of(info, i).0 - y < row
        || (cell_of(info, i).0 - y == row && cell_of(info, i).1 - x < col + 1)) {
        bitmap_byte(info, old_buf, bm, bw, bh, x, y, i)
    } else {
        old_buf[i]
    } by {
        let (crow, ccol, ck) = cell_of(info, i);
        lemma_recompose(i, unit);
        lemma_recompose(i / unit, st);
        lemma_cell(py, px, 0, st, unit);
        if 1 < unit {
            lemma_cell(py, px, 1, st, unit);
        }
        if 2 < unit {
            lemma_cell(py, px, 2, st, unit);
        }
        if crow == py && ccol == px {
            assert(i / unit == py * st + px);
            assert(i == off + ck);
            assert(bitmap_index(info, bw, x, y, i) == row * bw + col);
        } else {
            assert(i != off);
            assert(1 < unit ==> i != off + 1);
            assert(2 < unit ==> i != off + 2);
            if wrote {
                match info.pixel_format {
                    PixelFormat::Rgb => {
                        assert(after[i] == before[i]);
                    },
                    PixelFormat::Bgr => {
                        assert(after[i] == before[i]);
                    },
                    PixelFormat::U8 => {
                        assert(after[i] == before[i]);
                    },
                    PixelFormat::Unknown => {},
                }
            }
            assert(after[i] == before[i]);
        }
    }
}

impl Framebuffer {
    pub closed spec fn wf(&self) -> bool {
        info_fits(self.info, self.buffer@.len())
    }

    /// A framebuffer over `buffer` with the given shape.
    pub fn new(info: FrameBufferInfo, buffer: Vec<u8>) -> (res: Self)
        requires
            info_fits(info, buffer@.len()),
        ensures
            res.wf(),
            res@.info == info,
            res@.buffer == buffer@,
    {
        Framebuffer { info, buffer }
    }

    pub fn info(&self) -> (res: FrameBufferInfo)
        ensures
            res == self@.info,
    {
        self.info
    }

    pub fn buffer(&self) -> (res: &[u8])
        ensures
            res@ == self@.buffer,
    {
        self.buffer.as_slice()
    }

    /// The visible width and height.
    pub fn resolution(&self) -> (res: (usize, usize))
        ensures
            res == (self@.info.width, self@.info.height),
    {
        (self.info.width, self.info.height)
    }

    /// Colours pixel (`x`, `y`); pixels off screen are ignored.
    pub fn put_pixel(&mut self, x: usize, y: usize, color: (u8, u8, u8))
        requires
            old(self).wf(),
        ensures
            final(self).wf(),
            final(self)@.info == old(self)@.info,
            final(self)@.buffer == put_pixel_spec(old(self)@.info, old(self)@.buffer, x as int, y as int, color),
            final(self)@.buffer.len() == old(self)@.buffer.len(),
    {
        let info = self.info;
        if x >= info.width || y >= info.height {
            return;
        }
        let len = self.buffer.len();
        proof {
            lemma_cell_in_bounds(y as int, x as int, 0, info.stride as int, info.bytes_per_pixel as int, info.height as int);
            lemma_cell_in_bounds(y as int, x as int, (info.bytes_per_pixel - 1) as int, info.stride as int, info.bytes_per_pixel as int, info.height as int);
        }
        let off = (y * info.stride + x) * info.bytes_per_pixel;
        match info.pixel_format {
            PixelFormat::Rgb => {
                self.buffer.set(off, color.0);
                self.buffer.set(off + 1, color.1);
                self.buffer.set(off + 2, color.2);
            },
            PixelFormat::Bgr => {
                self.buffer.set(off, color.2);
                self.buffer.set(off + 1, color.1);
                self.buffer.set(off + 2, color.0);
            },
            PixelFormat::U8 => {
                self.buffer.set(off, color.0);
            },
            PixelFormat::Unknown => {},
        }
    }

    /// Fills the whole visible area with one colour (grey as the mean of
    /// the three values for an 8-bit display, whose sum must fit a byte).
    pub fn clear_screen(&mut self, color: (u8, u8, u8))
        requires
            old(self).wf(),
            old(self)@.info.pixel_format == PixelFormat::U8 ==> color.0 + color.1 + color.2 <= 255,
        ensures
            final(self).wf(),
            screen_cleared(old(self)@, final(self)@, color),
    {
        let info = self.info;
        let (vals, n) = match info.pixel_format {
            PixelFormat::Rgb => ([color.0, color.1, color.2], 3usize),
            PixelFormat::Bgr => ([color.2, color.1, color.0], 3usize),
            PixelFormat::U8 => {
                let g = (color.0 + color.1 + color.2) / 3;
                ([g, g, g], 1usize)
            },
            PixelFormat::Unknown => ([0u8, 0, 0], 0usize),
        };
        assert(info.height * info.stride * info.bytes_per_pixel == (0 + info.height) * info.stride * info.bytes_per_pixel);
        fill_area(&mut self.buffer, info.bytes_per_pixel, info.stride, 0, info.width, 0, info.height, vals, n);
        proof {
            let f = info.pixel_format;
            let want = if f == PixelFormat::U8 {
                seq![grey(color), grey(color), grey(color)]
            } else {
                pixel_vals(f, color)
            };
            if f == PixelFormat::Rgb || f == PixelFormat::Bgr || f == PixelFormat::U8 {
                assert(vals@ =~= want);
            } else {
                assert forall|i: int| 0 <= i < old(self)@.buffer.len() implies !in_area(i, info.bytes_per_pixel as int, info.stride as int, 0, info.width as int, 0, info.height as int, 0) by {}
            }
        }
    }

    /// Fills a `w` by `h` rectangle at (`x`, `y`), moved to fit on screen;
    /// nothing happens for an empty rectangle or one starting off screen.
    /// RGB and BGR rows are laid out at three bytes per pixel, grey ones at
    /// one.
    pub fn draw_rect(&mut self, x: usize, y: usize, w: usize, h: usize, color: (u8, u8, u8))
        requires
            old(self).wf(),
            x + w <= usize::MAX,
            y + h <= usize::MAX,
            !rect_skipped(old(self)@.info, x as int, y as int, w as int, h as int) ==> w <= old(self)@.info.width
                && h <= old(self)@.info.height,
            !rect_skipped(old(self)@.info, x as int, y as int, w as int, h as int) && old(self)@.info.pixel_format
                == PixelFormat::U8 ==> color.0 + color.1 + color.2 <= 255,
        ensures
            final(self).wf(),
            final(self)@.info == old(self)@.info,
            rect_skipped(old(self)@.info, x as int, y as int, w as int, h as int) ==> final(self)@.buffer == old(self)@.buffer,
            !rect_skipped(old(self)@.info, x as int, y as int, w as int, h as int) ==> ({
                let info = old(self)@.info;
                let (x0, y0) = rect_origin(info, x as int, y as int, w as int, h as int);
                let f = info.pixel_format;
                if f == PixelFormat::U8 {
                    painted(old(self)@.buffer, final(self)@.buffer, 1, info.stride as int, x0, w as int, y0, h as int, 1, seq![grey(color), grey(color), grey(color)])
                } else {
                    painted(old(self)@.buffer, final(self)@.buffer, 3, info.stride as int, x0, w as int, y0, h as int, components(f), pixel_vals(f, color))
                }
            }),
    {
        let info = self.info;
        if x >= info.width || y >= info.height || x + w <= x || y + h <= y {
            return;
        }
        let x0 = if x < info.width - w {
            x
        } else {
            info.width - w
        };
        let y0 = if y < info.height - h {
            y
        } else {
            info.height - h
        };
        let (vals, n, unit) = match info.pixel_format {
            PixelFormat::Rgb => ([color.0, color.1, color.2], 3usize, 3usize),
            PixelFormat::Bgr => ([color.2, color.1, color.0], 3usize, 3usize),
            PixelFormat::U8 => {
                let g = (color.0 + color.1 + color.2) / 3;
                ([g, g, g], 1usize, 1usize)
            },
            PixelFormat::Unknown => ([0u8, 0, 0], 0usize, 1usize),
        };
        proof {
            let hh = info.height as int;
            let ss = info.stride as int;
            let bb = info.bytes_per_pixel as int;
            assert((y0 + h) * ss * (unit as int) <= hh * ss * bb) by (nonlinear_arith)
                requires
                    0 <= y0 + h <= hh,
                    0 <= ss,
                    1 <= unit <= bb,
            ;
        }
        fill_area(&mut self.buffer, unit, info.stride, x0, w, y0, h, vals, n);
        proof {
            let f = info.pixel_format;
            if f == PixelFormat::Rgb || f == PixelFormat::Bgr {
                assert(vals@ =~= pixel_vals(f, color));
            } else if f == PixelFormat::U8 {
                assert(vals@ =~= seq![grey(color), grey(color), grey(color)]);
            } else {
                assert forall|i: int| 0 <= i < old(self)@.buffer.len() implies !in_area(i, 3, info.stride as int, x0 as int, w as int, y0 as int, h as int, 0)
                    && !in_area(i, 1, info.stride as int, x0 as int, w as int, y0 as int, h as int, 0) by {}
            }
        }
    }

    /// Draws a `bw` by `bh` bitmap of RGBA entries (row after row) with its
    /// corner at (`x`, `y`): the part that falls on screen, skipping fully
    /// transparent entries and entries past the end of the slice.
    pub fn draw_bitmap(&mut self, bitmap: &[(u8, u8, u8, u8)], bw: usize, bh: usize, x: usize, y: usize)
        requires
            old(self).wf(),
            ({
                let (mw, mh) = bitmap_window(old(self)@.info, bw as int, bh as int, x as int, y as int);
                mw > 0 && mh > 0 ==> (mh - 1) * bw + (mw - 1) <= usize::MAX
            }),
        ensures
            final(self).wf(),
            final(self)@.info == old(self)@.info,
            final(self)@.buffer.len() == old(self)@.buffer.len(),
            forall|i: int|
                0 <= i < old(self)@.buffer.len() ==> #[trigger] final(self)@.buffer[i] == bitmap_byte(
                    old(self)@.info,
                    old(self)@.buffer,
                    bitmap@,
                    bw as int,
                    bh as int,
                    x as int,
                    y as int,
                    i,
                ),
    {
        let info = self.info;
        let ghost old_buf = self@.buffer;
        let ghost bm = bitmap@;
        let room_x = if x < info.width {
            info.width - x
        } else {
            0
        };
        let room_y = if y < info.height {
            info.height - y
        } else {
            0
        };
        let mw = if room_x < bw {
            room_x
        } else {
            bw
        };
        let mh = if room_y < bh {
            room_y
        } else {
            bh
        };
        if mw == 0 || mh == 0 {
            assert forall|i: int| 0 <= i < old_buf.len() implies #[trigger] self@.buffer[i] == bitmap_byte(info, old_buf, bm, bw as int, bh as int, x as int, y as int, i) by {}
            return;
        }
        let ghost unit = info.bytes_per_pixel as int;
        let ghost st = info.stride as int;
        let mut row: usize = 0;
        while row < mh
            invariant
                self.wf(),
                self@.info == info,
                self@.buffer.len() == old_buf.len(),
                bm == bitmap@,
                unit == info.bytes_per_pixel,
                st == info.stride,
                (mw as int, mh as int) == bitmap_window(info, bw as int, bh as int, x as int, y as int),
                0 < mw,
                0 < mh,
                (mh - 1) * bw + (mw - 1) <= usize::MAX,
                row <= mh,
                forall|i: int|
                    0 <= i < old_buf.len() ==> #[trigger] self@.buffer[i] == if bitmap_hit(info, bm, bw as int, bh as int, x as int, y as int, i)
                        && cell_of(info, i).0 - y < row {
                        bitmap_byte(info, old_buf, bm, bw as int, bh as int, x as int, y as int, i)
                    } else {
                        old_buf[i]
                    },
            decreases mh - row,
        {
            let mut col: usize = 0;
            while col < mw
                invariant
                    self.wf(),
                    self@.info == info,
                    self@.buffer.len() == old_buf.len(),
                    bm == bitmap@,
                    unit == info.bytes_per_pixel,
                    st == info.stride,
                    (mw as int, mh as int) == bitmap_window(info, bw as int, bh as int, x as int, y as int),
                    0 < mw,
                    0 < mh,
                    (mh - 1) * bw + (mw - 1) <= usize::MAX,
                    row < mh,
                    col <= mw,
                    forall|i: int|
                        0 <= i < old_buf.len() ==> #[trigger] self@.buffer[i] == if bitmap_hit(info, bm, bw as int, bh as int, x as int, y as int, i)
                            && (cell_of(info, i).0 - y < row || (cell_of(info, i).0 - y == row && cell_of(info, i).1 - x < col)) {
                            bitmap_byte(info, old_buf, bm, bw as int, bh as int, x as int, y as int, i)
                        } else {
                            old_buf[i]
                        },
                decreases mw - col,
            {
                assert(row * bw + col <= (mh - 1) * bw + (mw - 1)) by (nonlinear_arith)
                    requires
                        row <= mh - 1,
                        col <= mw - 1,
                        0 <= bw,
                ;
                let idx = row * bw + col;
                let px = x + col;
                let py = y + row;
                let ghost before = self@.buffer;
                let wrote = idx < bitmap.len() && bitmap[idx].3 != 0;
                let mut rgb: (u8, u8, u8) = (0, 0, 0);
                if wrote {
                    let (r, g, b, _a) = bitmap[idx];
                    rgb = (r, g, b);
                    self.put_pixel(px, py, rgb);
                }
                proof {
                    lemma_bitmap_step(info, before, self@.buffer, old_buf, bm, bw as int, bh as int, x as int, y as int, row as int, col as int, wrote, rgb);
                }
                col = col + 1;
            }
            row = row + 1;
        }
    }

    /// Puts the pixels of `pts` in order.
    pub(crate) fn put_points(&mut self, pts: &Vec<(usize, usize)>, color: (u8, u8, u8))
        requires
            old(self).wf(),
        ensures
            final(self).wf(),
            final(self)@.info == old(self)@.info,
            final(self)@.buffer == put_pixels(old(self)@.info, old(self)@.buffer, pts@.map_values(|p: (usize, usize)| (p.0 as int, p.1 as int)), color),
    {
        let ghost start = self@.buffer;
        let ghost ipts = pts@.map_values(|p: (usize, usize)| (p.0 as int, p.1 as int));
        let mut i: usize = 0;
        while i < pts.len()
            invariant
                self.wf(),
                self@.info == old(self)@.info,
                start == old(self)@.buffer,
                ipts == pts@.map_values(|p: (usize, usize)| (p.0 as int, p.1 as int)),
                i <= pts@.len(),
                self@.buffer == put_pixels(self@.info, start, ipts.take(i as int), color),
            decreases pts@.len() - i,
        {
            let (px, py) = pts[i];
            self.put_pixel(px, py, color);
            assert(ipts.take(i + 1).drop_last() =~= ipts.take(i as int));
            i = i + 1;
        }
        assert(ipts.take(pts@.len() as int) =~= ipts);
    }

    /// Draws the smiley with its corner at (`x`, `y`), unless the colour is
    /// fully transparent.
    pub fn draw_smiley(&mut self, x: usize, y: usize, color: (u8, u8, u8, u8))
        requires
            old(self).wf(),
            x + 6 <= usize::MAX,
            y + 5 <= usize::MAX,
        ensures
            final(self).wf(),
            final(self)@.info == old(self)@.info,
            final(self)@.buffer == if color.3 == 0 {
                old(self)@.buffer
            } else {
                put_pixels(old(self)@.info, old(self)@.buffer, smiley_points(x as int, y as int), (color.0, color.1, color.2))
            },
    {
        let (r, g, b, a) = color;
        if a == 0 {
            return;
        }
        let pts = vec![
            (x + 1, y), (x + 1, y + 1), (x + 5, y), (x + 5, y + 1),
            (x, y + 4), (x + 1, y + 5), (x + 2, y + 5), (x + 3, y + 5), (x + 4, y + 5), (x + 5, y + 5),
            (x + 6, y + 4),
        ];
        assert(pts@.map_values(|p: (usize, usize)| (p.0 as int, p.1 as int)) =~= smiley_points(x as int, y as int));
        self.put_points(&pts, (r, g, b));
    }

    /// Draws the sad face with its corner at (`x`, `y`), unless the colour
    /// is fully transparent.
    pub fn draw_sad_face(&mut self, x: usize, y: usize, color: (u8, u8, u8, u8))
        requires
            old(self).wf(),
            x + 6 <= usize::MAX,
            y + 5 <= usize::MAX,
        ensures
            final(self).wf(),
            final(self)@.info == old(self)@.info,
            final(self)@.buffer == if color.3 == 0 {
                old(self)@.buffer
            } else {
                put_pixels(old(self)@.info, old(self)@.buffer, sad_points(x as int, y as int), (color.0, color.1, color.2))
            },
    {
        let (r, g, b, a) = color;
        if a == 0 {
            return;
        }
        let pts = vec![
            (x + 1, y), (x + 1, y + 1), (x + 5, y), (x + 5, y + 1),
            (x, y + 5), (x + 1, y + 4), (x + 2, y + 4), (x + 3, y + 4), (x + 4, y + 4), (x + 5, y + 4),
            (x + 6, y + 5),
        ];
        assert(pts@.map_values(|p: (usize, usize)| (p.0 as int, p.1 as int)) =~= sad_points(x as int, y as int));
        self.put_points(&pts, (r, g, b));
    }
}

} // verus!

//! PC Screen Font (PSF1 and PSF2) parsing and glyph rasterisation: which
//! pixels of a character cell are set.
use crate::bytes::{le16, le32, read_le16, read_le32};
use crate::framebuffer::{put_pixels, Framebuffer};
use vstd::arithmetic::power2::pow2;
use vstd::prelude::*;

verus! {

pub const PSF1_MAGIC: u16 = 0x0436;
pub const PSF2_MAGIC: u32 = 0x864a_b572;

/// A parsed font: its glyph bitmaps and their layout.
pub struct Font<'a> {
    pub glyphs: &'a [u8],
    pub num_glyphs: usize,
    pub bytes_per_glyph: usize,
    pub height: usize,
    pub width: usize,
}

/// A font as plain values.
pub struct FontSpec {
    pub glyphs: Seq<u8>,
    pub num_glyphs: int,
    pub bytes_per_glyph: int,
    pub height: int,
    pub width: int,
}

pub open spec fn font_view(f: Font) -> FontSpec {
    FontSpec {
        glyphs: f.glyphs@,
        num_glyphs: f.num_glyphs as int,
        bytes_per_glyph: f.bytes_per_glyph as int,
        height: f.height as int,
        width: f.width as int,
    }
}

/// What a font file holds. A PSF2 header (32 bytes, magic 0x864ab572)
/// gives the header size, glyph count, bytes per glyph, height and width;
/// a PSF1 header (4 bytes, magic 0x0436) gives the glyph size (also the
/// height; width 8) and 256 or 512 glyphs (mode bit 0). The glyph data must
/// hold all glyphs. A file with the PSF2 magic is never read as PSF1.
pub open spec fn psf_parse(b: Seq<u8>) -> Option<FontSpec> {
    if b.len() >= 32 && le32(b, 0) == PSF2_MAGIC {
        let hs = le32(b, 8);
        let bpg = le32(b, 20);
        let ng = le32(b, 16);
        if b.len() < hs || bpg * ng > usize::MAX || b.len() - hs < bpg * ng {
            None
        } else {
            Some(
                FontSpec {
                    glyphs: b.subrange(hs, b.len() as int),
                    num_glyphs: ng,
                    bytes_per_glyph: bpg,
                    height: le32(b, 24),
                    width: le32(b, 28),
                },
            )
        }
    } else if b.len() >= 4 && le16(b, 0) == PSF1_MAGIC {
        let bpg = b[3] as int;
        let ng: int = if b[2] & 1 != 0 {
            512
        } else {
            256
        };
        if b.len() - 4 < bpg * ng {
            None
        } else {
            Some(
                FontSpec {
                    glyphs: b.subrange(4, b.len() as int),
                    num_glyphs: ng,
                    bytes_per_glyph: bpg,
                    height: bpg,
                    width: 8,
                },
            )
        }
    } else {
        None
    }
}

/// Reads a PSF1 or PSF2 font.
pub fn parse_psf<'a>(font: &'a [u8]) -> (res: Option<Font<'a>>)
    requires
        usize::BITS == 64,
    ensures
        match psf_parse(font@) {
            None => res is None,
            Some(f) => res matches Some(r) && font_view(r) == f,
        },
{
    let len = font.len();
    if len >= 32 && read_le32(font, 0) == PSF2_MAGIC {
        let hdr_sz = read_le32(font, 8) as usize;
        if len < hdr_sz {
            return None;
        }
        let glyphs = vstd::slice::slice_subrange(font, hdr_sz, len);
        let bytes_per_glyph = read_le32(font, 20) as usize;
        let num_glyphs = read_le32(font, 16) as usize;
        let need = match bytes_per_glyph.checked_mul(num_glyphs) {
            Some(v) => v,
            None => {
                return None;
            },
        };
        if glyphs.len() < need {
            return None;
        }
        return Some(
            Font {
                glyphs,
                num_glyphs,
                bytes_per_glyph,
                height: read_le32(font, 24) as usize,
                width: read_le32(font, 28) as usize,
            },
        );
    }
    if len >= 4 && read_le16(font, 0) == PSF1_MAGIC {
        let glyphs = vstd::slice::slice_subrange(font, 4, len);
        let bytes_per_glyph = font[3] as usize;
        let num_glyphs: usize = if (font[2] & 0x01) != 0 {
            512
        } else {
            256
        };
        assert(bytes_per_glyph * num_glyphs <= 255 * 512) by (nonlinear_arith)
            requires
                bytes_per_glyph <= 255,
                num_glyphs <= 512,
        ;
        if glyphs.len() < bytes_per_glyph * num_glyphs {
            return None;
        }
        return Some(
            Font {
                glyphs,
                num_glyphs,
                bytes_per_glyph,
                height: bytes_per_glyph,
                width: 8,
            },
        );
    }
    None
}

/// The glyph drawn for a character code: its own glyph for codes up to
/// 0xFF that the font has, else the glyph 32 places lower when the font
/// has that one, else glyph 0.
pub open spec fn glyph_index(code: int, num: int) -> int {
    let gi = if code <= 0xFF {
        code
    } else {
        0
    };
    if gi >= num {
        if code >= 32 && code - 32 < num {
            code - 32
        } else {
            0
        }
    } else {
        gi
    }
}

/// Whether bit `b` of row `r` of a glyph is set (most significant bit
/// leftmost, rows of `rowbytes` bytes); bits past the glyph's bytes are
/// clear.
pub open spec fn pixel_on(glyph: Seq<u8>, r: int, b: int, rowbytes: int) -> bool {
    let i = r * rowbytes + b / 8;
    i < glyph.len() && (glyph[i] >> ((7 - b % 8) as u8)) & 1u8 != 0
}

/// The set pixels among the first `n` bits of row `r`, left to right, at
/// screen position (`x`, `y`).
pub open spec fn row_pixels(glyph: Seq<u8>, r: int, rowbytes: int, x: int, y: int, n: int) -> Seq<
    (usize, usize),
>
    decreases n,
{
    if n <= 0 {
        Seq::empty()
    } else {
        let prev = row_pixels(glyph, r, rowbytes, x, y, n - 1);
        if pixel_on(glyph, r, n - 1, rowbytes) {
            prev.push(((x + n - 1) as usize, (y + r) as usize))
        } else {
            prev
        }
    }
}

/// The set pixels of the first `rows` rows of a `w`-bit-wide glyph.
pub open spec fn glyph_pixels(glyph: Seq<u8>, w: int, rowbytes: int, x: int, y: int, rows: int) -> Seq<
    (usize, usize),
>
    decreases rows,
{
    if rows <= 0 {
        Seq::empty()
    } else {
        glyph_pixels(glyph, w, rowbytes, x, y, rows - 1) + row_pixels(
            glyph,
            rows - 1,
            rowbytes,
            x,
            y,
            w,
        )
    }
}

/// The pixels `draw_char_psf` sets for `ch` at (`x`, `y`): none when the
/// font cannot be read or the glyph lies outside its data.
pub open spec fn char_pixels(data: Seq<u8>, x: int, y: int, ch: char) -> Seq<(usize, usize)> {
    match psf_parse(data) {
        None => Seq::empty(),
        Some(f) => {
            let gi = glyph_index(ch as int, f.num_glyphs);
            let start = gi * f.bytes_per_glyph;
            if start >= usize::MAX || start + f.bytes_per_glyph > f.glyphs.len() {
                Seq::empty()
            } else {
                glyph_pixels(
                    f.glyphs.subrange(start, start + f.bytes_per_glyph),
                    f.width,
                    (f.width + 7) / 8,
                    x,
                    y,
                    f.height,
                )
            }
        },
    }
}

proof fn lemma_row_tail_clear(glyph: Seq<u8>, r: int, rowbytes: int, x: int, y: int, b: int, n: int)
    requires
        0 <= b <= n,
        r * rowbytes + b / 8 >= glyph.len(),
    ensures
        row_pixels(glyph, r, rowbytes, x, y, n) == row_pixels(glyph, r, rowbytes, x, y, b),
    decreases n - b,
{
    if n > b {
        lemma_row_tail_clear(glyph, r, rowbytes, x, y, b, n - 1);
        vstd::arithmetic::div_mod::lemma_div_is_ordered(b, n - 1, 8);
    }
}

/// The glyph of `ch` fits on the screen's coordinates from (`x`, `y`).
pub open spec fn glyph_fits(data: Seq<u8>, x: int, y: int) -> bool {
    psf_parse(data) matches Some(f) ==> x + f.width <= usize::MAX && y + f.height <= usize::MAX
}

/// Draws `ch` with its top left corner at (`x`, `y`) in the colour's red,
/// green and blue, with the font in `font_data`: one pixel for each set
/// bit of the glyph, row by row, left to right; nothing when the font
/// cannot be read or has no data for the glyph.
pub fn draw_char_psf(fb: &mut Framebuffer, font_data: &[u8], x: usize, y: usize, ch: char, color: (u8, u8, u8, u8))
    requires
        usize::BITS == 64,
        old(fb).wf(),
        glyph_fits(font_data@, x as int, y as int),
    ensures
        final(fb).wf(),
        final(fb)@.info == old(fb)@.info,
        final(fb)@.buffer == put_pixels(
            old(fb)@.info,
            old(fb)@.buffer,
            char_pixels(font_data@, x as int, y as int, ch).map_values(|p: (usize, usize)| (p.0 as int, p.1 as int)),
            (color.0, color.1, color.2),
        ),
{
    let pts = glyph_points(font_data, x, y, ch);
    fb.put_points(&pts, (color.0, color.1, color.2));
}

/// The screen pixels to set to draw `ch` at (`x`, `y`) with the font in
/// `font_data`, row by row, left to right.
fn glyph_points(font_data: &[u8], x: usize, y: usize, ch: char) -> (res: Vec<(usize, usize)>)
    requires
        usize::BITS == 64,
        glyph_fits(font_data@, x as int, y as int),
    ensures
        res@ == char_pixels(font_data@, x as int, y as int, ch),
{
    let mut out: Vec<(usize, usize)> = Vec::new();
    let font = match parse_psf(font_data) {
        Some(f) => f,
        None => {
            return out;
        },
    };
    let ghost f = font_view(font);
    assert(x + font.width <= usize::MAX && y + font.height <= usize::MAX);
    proof {
        assert(font.width <= u32::MAX && font.height <= u32::MAX && font.num_glyphs <= u32::MAX
            && font.bytes_per_glyph <= u32::MAX);
    }
    let code = ch as u32;
    let mut glyph_index: usize = if code <= 0xFF {
        code as usize
    } else {
        0
    };
    if glyph_index >= font.num_glyphs {
        if code >= 32 && ((code - 32) as usize) < font.num_glyphs {
            glyph_index = (code - 32) as usize;
        } else {
            glyph_index = 0;
        }
    }
    let bpg = font.bytes_per_glyph;
    let start = match glyph_index.checked_mul(bpg) {
        Some(v) => v,
        None => usize::MAX,
    };
    if start == usize::MAX {
        return out;
    }
    assert(glyph_index <= u32::MAX);
    assert(start + bpg <= 0xFFFF_FFFF * 0xFFFF_FFFF + 0xFFFF_FFFF) by (nonlinear_arith)
        requires
            start == glyph_index * bpg,
            glyph_index <= 0xFFFF_FFFF,
            bpg <= 0xFFFF_FFFF,
    ;
    let end = start + bpg;
    if end > font.glyphs.len() {
        return out;
    }
    let glyph = vstd::slice::slice_subrange(font.glyphs, start, end);
    let width = font.width;
    let height = font.height;
    let rowbytes = (width + 7) / 8;
    let glen = glyph.len();
    let mut row: usize = 0;
    while row < height
        invariant
            usize::BITS == 64,
            x + width <= usize::MAX,
            y + height <= usize::MAX,
            width <= u32::MAX,
            height <= u32::MAX,
            rowbytes == (width + 7) / 8,
            glen == glyph@.len(),
            row <= height,
            out@ == glyph_pixels(glyph@, width as int, rowbytes as int, x as int, y as int, row as int),
        decreases height - row,
    {
        assert(row * rowbytes <= 0xFFFF_FFFF * 0x2000_0000) by (nonlinear_arith)
            requires
                row < 0x1_0000_0000,
                rowbytes <= 0x2000_0000,
        ;
        let row_byte_offset = row * rowbytes;
        let ghost base = out@;
        let mut bit: usize = 0;
        while bit < width
            invariant_except_break
                out@ == base + row_pixels(glyph@, row as int, rowbytes as int, x as int, y as int, bit as int),
            invariant
                usize::BITS == 64,
                x + width <= usize::MAX,
                y + height <= usize::MAX,
                width <= u32::MAX,
                row < height,
                height <= u32::MAX,
                row_byte_offset == row * rowbytes,
                row_byte_offset <= 0xFFFF_FFFF * 0x2000_0000,
                glen == glyph@.len(),
                bit <= width,
            ensures
                out@ == base + row_pixels(glyph@, row as int, rowbytes as int, x as int, y as int, width as int),
            decreases width - bit,
        {
            let byte_idx = row_byte_offset + bit / 8;
            if byte_idx >= glen {
                proof {
                    lemma_row_tail_clear(glyph@, row as int, rowbytes as int, x as int, y as int, bit as int, width as int);
                }
                break;
            }
            let b = glyph[byte_idx];
            let bit_in_byte = bit % 8;
            let shift = (7 - bit_in_byte) as u8;
            let pixel = (b >> shift) & 1 != 0;
            if pixel {
                out.push((x + bit, y + row));
            }
            proof {
                assert(pixel == pixel_on(glyph@, row as int, bit as int, rowbytes as int));
            }
            assert(out@ =~= base + row_pixels(glyph@, row as int, rowbytes as int, x as int, y as int, bit + 1));
            bit = bit + 1;
        }
        row = row + 1;
    }
    proof {
        assert(f.glyphs.subrange(start as int, start + bpg) =~= glyph@);
    }
    out
}

/// A PSF1 font's glyph count: for a file that starts with the PSF1 magic
/// bytes 0x36 0x04, the font has 512 glyphs exactly when bit 0 of the mode
/// byte is set (an odd mode byte) and 256 otherwise, whatever the other mode
/// bits; its glyphs are 8 pixels wide and as many rows as the glyph size
/// byte, and it is read exactly when the data after the 4-byte header holds
/// every glyph.
pub proof fn lemma_psf1_glyph_count(b: Seq<u8>)
    requires
        b.len() >= 4,
        b[0] == 0x36,
        b[1] == 0x04,
    ensures
        ({
            let count: int = if b[2] % 2 == 1 { 512 } else { 256 };
            &&& psf_parse(b) is Some <==> b.len() - 4 >= b[3] * count
            &&& psf_parse(b) matches Some(f) ==> f.num_glyphs == count && f.width == 8 && f.height == b[3]
                && f.bytes_per_glyph == b[3] && f.glyphs == b.subrange(4, b.len() as int)
        }),
{
    vstd::bits::lemma_u8_low_bits_mask_is_mod(b[2], 1);
    vstd::bits::lemma_low_bits_mask_values();
    vstd::arithmetic::power2::lemma2_to64();
    assert(b[2] & 1 == b[2] % 2);
    if b.len() >= 32 {
        assert(le32(b, 0) != PSF2_MAGIC);
    }
}

/// Bit `7 - k` of a byte, as the shift-and-mask test reads it, is its
/// `k`-th bit counted from the most significant one.
proof fn lemma_bit_from_left(v: u8, k: int)
    requires
        0 <= k < 8,
    ensures
        ((v >> ((7 - k) as u8)) & 1u8 != 0) == ((v as int / pow2((7 - k) as nat) as int) % 2 == 1),
{
    let sh = (7 - k) as u8;
    vstd::bits::lemma_u8_shr_is_div(v, sh);
    vstd::bits::lemma_u8_low_bits_mask_is_mod(v >> sh, 1);
    vstd::bits::lemma_low_bits_mask_values();
    vstd::arithmetic::power2::lemma2_to64();
    assert((v >> sh) & 1 == (v >> sh) % 2);
}

proof fn lemma_row_pixels_shape(glyph: Seq<u8>, r: int, rowbytes: int, x: int, y: int, n: int)
    requires
        0 <= x,
        x + n <= usize::MAX,
        0 <= y + r <= usize::MAX,
    ensures
        forall|k: int|
            0 <= k < row_pixels(glyph, r, rowbytes, x, y, n).len() ==> {
                let e = #[trigger] row_pixels(glyph, r, rowbytes, x, y, n)[k];
                &&& x <= e.0 < x + n
                &&& e.1 == y + r
            },
    decreases n,
{
    if n > 0 {
        lemma_row_pixels_shape(glyph, r, rowbytes, x, y, n - 1);
        let prev = row_pixels(glyph, r, rowbytes, x, y, n - 1);
        let cur = row_pixels(glyph, r, rowbytes, x, y, n);
        let last = ((x + n - 1) as usize, (y + r) as usize);
        assert(last.0 == x + n - 1 && last.1 == y + r);
        assert forall|k: int| 0 <= k < cur.len() implies x <= (#[trigger] cur[k]).0 < x + n && cur[k].1 == y
            + r by {
            if k < prev.len() {
                assert(cur[k] == prev[k]);
            } else {
                assert(cur == prev.push(last));
            }
        }
    }
}

/// Glyph rows are drawn most significant bit first: among the first `n`
/// columns of row `r`, pixel (`x + c`, `y + r`) is drawn exactly when the
/// row's byte `c / 8` is in the glyph and has its bit `c % 8`, counted from
/// the most significant bit, set; so a row byte with only its top bit set
/// draws the row's leftmost pixel.
pub proof fn lemma_row_pixels_msb_first(glyph: Seq<u8>, r: int, rowbytes: int, x: int, y: int, n: int, c: int)
    requires
        0 <= r,
        0 <= rowbytes,
        0 <= x,
        0 <= y,
        0 <= c < n,
        x + n <= usize::MAX,
        y + r <= usize::MAX,
    ensures
        row_pixels(glyph, r, rowbytes, x, y, n).contains(((x + c) as usize, (y + r) as usize)) <==> (r
            * rowbytes + c / 8 < glyph.len() && (glyph[r * rowbytes + c / 8] as int / pow2(
            (7 - c % 8) as nat,
        ) as int) % 2 == 1),
    decreases n,
{
    let target = ((x + c) as usize, (y + r) as usize);
    let prev = row_pixels(glyph, r, rowbytes, x, y, n - 1);
    let cur = row_pixels(glyph, r, rowbytes, x, y, n);
    assert(0 <= r * rowbytes) by (nonlinear_arith)
        requires
            0 <= r,
            0 <= rowbytes,
    ;
    lemma_row_pixels_shape(glyph, r, rowbytes, x, y, n - 1);
    if c == n - 1 {
        let i = r * rowbytes + c / 8;
        if i < glyph.len() {
            lemma_bit_from_left(glyph[i], c % 8);
        }
        if prev.contains(target) {
            let k = choose|k: int| 0 <= k < prev.len() && prev[k] == target;
            assert(prev[k].0 < x + n - 1);
        }
        if pixel_on(glyph, r, n - 1, rowbytes) {
            assert(cur == prev.push(target));
            assert(cur[prev.len() as int] == target);
        }
    } else {
        lemma_row_pixels_msb_first(glyph, r, rowbytes, x, y, n - 1, c);
        if pixel_on(glyph, r, n - 1, rowbytes) {
            let last = ((x + n - 1) as usize, (y + r) as usize);
            assert(cur == prev.push(last));
            if cur.contains(target) {
                let k = choose|k: int| 0 <= k < cur.len() && cur[k] == target;
                if k < prev.len() {
                    assert(prev[k] == target);
                }
            }
            if prev.contains(target) {
                let k = choose|k: int| 0 <= k < prev.len() && prev[k] == target;
                assert(cur[k] == target);
            }
        }
    }
}

proof fn lemma_glyph_pixels_shape(glyph: Seq<u8>, w: int, rowbytes: int, x: int, y: int, rows: int)
    requires
        0 <= x,
        0 <= y,
        x + w <= usize::MAX,
        y + rows <= usize::MAX,
    ensures
        forall|k: int|
            0 <= k < glyph_pixels(glyph, w, rowbytes, x, y, rows).len() ==> {
                let e = #[trigger] glyph_pixels(glyph, w, rowbytes, x, y, rows)[k];
                y <= e.1 < y + rows
            },
    decreases rows,
{
    if rows > 0 {
        lemma_glyph_pixels_shape(glyph, w, rowbytes, x, y, rows - 1);
        lemma_row_pixels_shape(glyph, rows - 1, rowbytes, x, y, w);
        let a = glyph_pixels(glyph, w, rowbytes, x, y, rows - 1);
        let b = row_pixels(glyph, rows - 1, rowbytes, x, y, w);
        let all = glyph_pixels(glyph, w, rowbytes, x, y, rows);
        assert forall|k: int| 0 <= k < all.len() implies y <= #[trigger] all[k].1 < y + rows by {
            if k < a.len() {
                assert(all[k] == a[k]);
            } else {
                assert(all[k] == b[k - a.len()]);
            }
        }
    }
}

/// What a glyph draws: with rows of `rowbytes` bytes, pixel (`x + c`,
/// `y + r`) of a glyph `w` pixels wide and `rows` rows high is drawn exactly
/// when byte `c / 8` of row `r` is in the glyph and has its bit `c % 8`,
/// counted from the most significant bit, set; the most significant bit is
/// the leftmost pixel.
pub proof fn lemma_glyph_pixels_msb_first(
    glyph: Seq<u8>,
    w: int,
    rowbytes: int,
    x: int,
    y: int,
    rows: int,
    r: int,
    c: int,
)
    requires
        0 <= rowbytes,
        0 <= x,
        0 <= y,
        0 <= c < w,
        0 <= r < rows,
        x + w <= usize::MAX,
        y + rows <= usize::MAX,
    ensures
        glyph_pixels(glyph, w, rowbytes, x, y, rows).contains(((x + c) as usize, (y + r) as usize)) <==> (r
            * rowbytes + c / 8 < glyph.len() && (glyph[r * rowbytes + c / 8] as int / pow2(
            (7 - c % 8) as nat,
        ) as int) % 2 == 1),
    decreases rows,
{
    let target = ((x + c) as usize, (y + r) as usize);
    let a = glyph_pixels(glyph, w, rowbytes, x, y, rows - 1);
    let b = row_pixels(glyph, rows - 1, rowbytes, x, y, w);
    let all = glyph_pixels(glyph, w, rowbytes, x, y, rows);
    assert(all == a + b);
    lemma_row_pixels_shape(glyph, rows - 1, rowbytes, x, y, w);
    lemma_glyph_pixels_shape(glyph, w, rowbytes, x, y, rows - 1);
    if r == rows - 1 {
        lemma_row_pixels_msb_first(glyph, r, rowbytes, x, y, w, c);
        if all.contains(target) {
            let k = choose|k: int| 0 <= k < all.len() && all[k] == target;
            if k < a.len() {
                assert(all[k] == a[k]);
                assert(a[k].1 < y + rows - 1);
            } else {
                assert(all[k] == b[k - a.len()]);
            }
        }
        if b.contains(target) {
            let k = choose|k: int| 0 <= k < b.len() && b[k] == target;
            assert(all[k + a.len()] == target);
        }
    } else {
        lemma_glyph_pixels_msb_first(glyph, w, rowbytes, x, y, rows - 1, r, c);
        if all.contains(target) {
            let k = choose|k: int| 0 <= k < all.len() && all[k] == target;
            if k < a.len() {
                assert(all[k] == a[k]);
            } else {
                assert(all[k] == b[k - a.len()]);
                assert(b[k - a.len()].1 == y + rows - 1);
            }
        }
        if a.contains(target) {
            let k = choose|k: int| 0 <= k < a.len() && a[k] == target;
            assert(all[k] == target);
        }
    }
}

/// What `draw_char_psf` draws for a character that has its own glyph (a
/// code point below 256 and below the glyph count, whose glyph lies in the
/// data): pixel (`x + c`, `y + r`) of the cell is drawn exactly when, in
/// that character's glyph (glyph number `ch`, `bytes_per_glyph` bytes from
/// glyph `ch * bytes_per_glyph` of the glyph data), byte `c / 8` of row `r`
/// (rows of `(width + 7) / 8` bytes) exists and has its bit `c % 8`, counted
/// from the most significant bit, set.
pub proof fn lemma_char_pixels_msb_first(data: Seq<u8>, x: int, y: int, ch: char, r: int, c: int)
    requires
        data.len() < usize::MAX,
        psf_parse(data) is Some,
        (ch as int) < 256,
        (ch as int) < psf_parse(data)->0.num_glyphs,
        (ch as int + 1) * psf_parse(data)->0.bytes_per_glyph <= psf_parse(data)->0.glyphs.len(),
        0 <= r < psf_parse(data)->0.height,
        0 <= c < psf_parse(data)->0.width,
        0 <= x,
        0 <= y,
        x + psf_parse(data)->0.width <= usize::MAX,
        y + psf_parse(data)->0.height <= usize::MAX,
    ensures
        ({
            let f = psf_parse(data)->0;
            let rb = (f.width + 7) / 8;
            let i = r * rb + c / 8;
            char_pixels(data, x, y, ch).contains(((x + c) as usize, (y + r) as usize)) <==> (i
                < f.bytes_per_glyph && (f.glyphs[ch as int * f.bytes_per_glyph + i] as int / pow2(
                (7 - c % 8) as nat,
            ) as int) % 2 == 1)
        }),
{
    let f = psf_parse(data)->0;
    let bpg = f.bytes_per_glyph;
    let code = ch as int;
    assert(glyph_index(code, f.num_glyphs) == code);
    assert(0 <= bpg);
    assert(code * bpg + bpg == (code + 1) * bpg) by (nonlinear_arith);
    assert(0 <= code * bpg) by (nonlinear_arith)
        requires
            0 <= code,
            0 <= bpg,
    ;
    assert(f.glyphs.len() <= data.len());
    let start = code * bpg;
    let glyph = f.glyphs.subrange(start, start + bpg);
    assert(0 <= f.width);
    lemma_glyph_pixels_msb_first(glyph, f.width, (f.width + 7) / 8, x, y, f.height, r, c);
    let i = r * ((f.width + 7) / 8) + c / 8;
    assert(0 <= i) by (nonlinear_arith)
        requires
            0 <= r,
            0 <= (f.width + 7) / 8,
            0 <= c,
            i == r * ((f.width + 7) / 8) + c / 8,
    ;
    if i < bpg {
        assert(glyph[i] == f.glyphs[start + i]);
    }
}

} // verus!

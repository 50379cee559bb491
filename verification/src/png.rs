//! PNG images: zune-png decodes the file, and the RGBA samples it hands back
//! are grouped into pixels and drawn here.
use vstd::prelude::*;
use crate::framebuffer::{bitmap_byte, bitmap_window, Framebuffer};

verus! {

/// A decoded image: its 8-bit samples, its size and whether the samples are
/// RGBA (four to a pixel).
pub struct PngImage {
    pub pixels: Vec<u8>,
    pub width: usize,
    pub height: usize,
    pub rgba: bool,
}

/// A decoded image as plain values: width, height, RGBA or not, samples.
pub open spec fn png_view(img: Option<PngImage>) -> Option<(int, int, bool, Seq<u8>)> {
    match img {
        Some(i) => Some((i.width as int, i.height as int, i.rgba, i.pixels@)),
        None => None,
    }
}

/// What zune-png makes of a file's bytes: `None` when decoding fails, the
/// size is unknown or the samples are not 8-bit; else the width, the height,
/// whether the colour space is RGBA, and the samples.
pub uninterp spec fn png_decoded(data: Seq<u8>) -> Option<(int, int, bool, Seq<u8>)>;

/// Calls `zune_png::PngDecoder::decode` on the bytes, then `dimensions`,
/// `colorspace` and `DecodingResult::u8`; the contract only names the
/// outcome (`png_decoded`), a function of the bytes.
#[verifier::external_body]
fn png_decode(data: &[u8]) -> (res: Option<PngImage>)
    ensures
        png_view(res) == png_decoded(data@),
{
    let mut decoder = zune_png::PngDecoder::new(zune_png::zune_core::bytestream::ZCursor::new(data));
    let samples = match decoder.decode() {
        Ok(s) => s,
        Err(_) => return None,
    };
    let (width, height) = decoder.dimensions()?;
    let rgba = matches!(decoder.colorspace(), Some(zune_png::zune_core::colorspace::ColorSpace::RGBA));
    Some(PngImage { pixels: samples.u8()?, width, height, rgba })
}

/// Samples grouped four at a time into (red, green, blue, alpha) pixels; a
/// trailing partial group is dropped.
pub open spec fn rgba_tuples(s: Seq<u8>) -> Seq<(u8, u8, u8, u8)> {
    Seq::new(s.len() / 4, |i: int| (s[4 * i], s[4 * i + 1], s[4 * i + 2], s[4 * i + 3]))
}

/// The image's pixels when its samples are RGBA; `None` for any other
/// colour space.
pub fn rgba_pixels(img: &PngImage) -> (res: Option<Vec<(u8, u8, u8, u8)>>)
    ensures
        res is Some <==> img.rgba,
        res matches Some(v) ==> v@ == rgba_tuples(img.pixels@),
{
    if !img.rgba {
        return None;
    }
    let n = img.pixels.len() / 4;
    let mut out: Vec<(u8, u8, u8, u8)> = Vec::new();
    let mut i: usize = 0;
    while i < n
        invariant
            n == img.pixels@.len() / 4,
            i <= n,
            out@ == rgba_tuples(img.pixels@).take(i as int),
        decreases n - i,
    {
        let len = img.pixels.len();
        assert(4 * i + 4 <= len) by (nonlinear_arith)
            requires
                i < n,
                n == len / 4,
        ;
        let k = 4 * i;
        let p = (img.pixels[k], img.pixels[k + 1], img.pixels[k + 2], img.pixels[k + 3]);
        out.push(p);
        assert(out@ =~= rgba_tuples(img.pixels@).take(i + 1));
        i = i + 1;
    }
    assert(out@ =~= rgba_tuples(img.pixels@));
    Some(out)
}

/// What `decode_png_rgba` gives for a decoder outcome: the pixels, width
/// and height of an RGBA image, `None` for a failed decode or another
/// colour space.
pub open spec fn rgba_image(decoded: Option<(int, int, bool, Seq<u8>)>) -> Option<(Seq<(u8, u8, u8, u8)>, int, int)> {
    match decoded {
        Some((w, h, rgba, s)) => if rgba {
            Some((rgba_tuples(s), w, h))
        } else {
            None
        },
        None => None,
    }
}

/// Decodes a PNG file into RGBA pixels with its width and height; `None`
/// when decoding fails or the image is not RGBA.
pub fn decode_png_rgba(data: &[u8]) -> (res: Option<(Vec<(u8, u8, u8, u8)>, usize, usize)>)
    ensures
        match rgba_image(png_decoded(data@)) {
            Some((px, w, h)) => res matches Some((v, w2, h2)) && v@ == px && w2 == w && h2 == h,
            None => res is None,
        },
{
    let img = match png_decode(data) {
        Some(i) => i,
        None => return None,
    };
    match rgba_pixels(&img) {
        Some(px) => Some((px, img.width, img.height)),
        None => None,
    }
}

/// Whether a `bw`-wide bitmap's visible window (see `bitmap_window`) can be
/// indexed without passing the address space.
pub open spec fn bitmap_indexable(win: (int, int), bw: int) -> bool {
    win.0 > 0 && win.1 > 0 ==> (win.1 - 1) * bw + (win.0 - 1) <= usize::MAX
}

/// Decodes a PNG file and draws its RGBA pixels with the image's corner at
/// (`x`, `y`). Answers whether it drew: not for a file that does not
/// decode to an RGBA image, nor for one whose visible part cannot be
/// indexed.
pub fn draw_png(fb: &mut Framebuffer, data: &[u8], x: usize, y: usize) -> (res: bool)
    requires
        old(fb).wf(),
    ensures
        final(fb).wf(),
        final(fb)@.info == old(fb)@.info,
        res <==> (rgba_image(png_decoded(data@)) matches Some((_px, w, h)) && bitmap_indexable(
            bitmap_window(old(fb)@.info, w, h, x as int, y as int),
            w,
        )),
        !res ==> final(fb)@ == old(fb)@,
        res ==> ({
            let (px, w, h) = rgba_image(png_decoded(data@))->0;
            &&& final(fb)@.buffer.len() == old(fb)@.buffer.len()
            &&& forall|i: int|
                0 <= i < old(fb)@.buffer.len() ==> #[trigger] final(fb)@.buffer[i] == bitmap_byte(
                    old(fb)@.info,
                    old(fb)@.buffer,
                    px,
                    w,
                    h,
                    x as int,
                    y as int,
                    i,
                )
        }),
{
    let (px, w, h) = match decode_png_rgba(data) {
        Some(d) => d,
        None => return false,
    };
    let info = fb.info();
    let room_x = if x < info.width {
        info.width - x
    } else {
        0
    };
    let room_y = if y < info.height {
        info.height - y
    } else {
        0
    };
    let mw = if room_x < w {
        room_x
    } else {
        w
    };
    let mh = if room_y < h {
        room_y
    } else {
        h
    };
    assert((mw as int, mh as int) == bitmap_window(info, w as int, h as int, x as int, y as int));
    if mw > 0 && mh > 0 {
        let last = match (mh - 1).checked_mul(w) {
            Some(v) => v.checked_add(mw - 1),
            None => None,
        };
        if last.is_none() {
            return false;
        }
    }
    fb.draw_bitmap(px.as_slice(), w, h, x, y);
    true
}

} // verus!

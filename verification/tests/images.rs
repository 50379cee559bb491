use lemoncake::framebuffer::{FrameBufferInfo, Framebuffer, PixelFormat};
use lemoncake::png::{decode_png_rgba, draw_png, rgba_pixels, PngImage};
use zune_png::zune_core::bit_depth::BitDepth;
use zune_png::zune_core::colorspace::ColorSpace;
use zune_png::zune_core::options::EncoderOptions;
use zune_png::PngEncoder;

fn encode(samples: &[u8], w: usize, h: usize, cs: ColorSpace) -> Vec<u8> {
    let mut out: Vec<u8> = Vec::new();
    let mut enc = PngEncoder::new(samples, EncoderOptions::new(w, h, cs, BitDepth::Eight));
    enc.encode(&mut out).unwrap();
    out
}

#[test]
fn png_rgba_pixels_group_samples() {
    let img = PngImage { pixels: vec![1, 2, 3, 4, 5, 6, 7, 8, 9], width: 2, height: 1, rgba: true };
    assert_eq!(rgba_pixels(&img), Some(vec![(1, 2, 3, 4), (5, 6, 7, 8)]));
    let rgb = PngImage { pixels: vec![1, 2, 3], width: 1, height: 1, rgba: false };
    assert_eq!(rgba_pixels(&rgb), None);
}

#[test]
fn png_decode_rgba_and_refusals() {
    assert_eq!(decode_png_rgba(&[1, 2, 3, 4]), None);
    assert_eq!(decode_png_rgba(&[]), None);
    let samples = [255, 0, 0, 255, 0, 0, 255, 128];
    let file = encode(&samples, 2, 1, ColorSpace::RGBA);
    assert_eq!(decode_png_rgba(&file), Some((vec![(255, 0, 0, 255), (0, 0, 255, 128)], 2, 1)));
    // an RGB image decodes, but is not RGBA
    let rgb = encode(&[1, 2, 3, 4, 5, 6], 2, 1, ColorSpace::RGB);
    assert_eq!(decode_png_rgba(&rgb), None);
}

#[test]
fn png_draw_on_framebuffer() {
    let info = FrameBufferInfo { width: 4, height: 2, stride: 4, bytes_per_pixel: 3, pixel_format: PixelFormat::Rgb };
    let mut fb = Framebuffer::new(info, vec![0u8; 4 * 2 * 3]);
    let file = encode(&[10, 20, 30, 255, 40, 50, 60, 255], 2, 1, ColorSpace::RGBA);
    assert!(draw_png(&mut fb, &file, 1, 1));
    let off = (1 * 4 + 1) * 3;
    assert_eq!(&fb.buffer()[off..off + 6], &[10, 20, 30, 40, 50, 60]);
    assert_eq!(fb.buffer().iter().filter(|&&b| b != 0).count(), 6);
    assert!(!draw_png(&mut fb, &[0, 1, 2], 0, 0));
}

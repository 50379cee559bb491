use lemoncake::boot::display::{Buffer, BufferError, Pixel, TTY};
use lemoncake::framebuffer::{FrameBufferInfo, Framebuffer, PixelFormat};

fn rgb_fb(w: usize, h: usize, stride: usize, bpp: usize) -> Framebuffer {
    let info = FrameBufferInfo { width: w, height: h, stride, bytes_per_pixel: bpp, pixel_format: PixelFormat::Rgb };
    Framebuffer::new(info, vec![0u8; h * stride * bpp])
}

#[test]
fn framebuffer_put_pixel_formats() {
    let mut fb = rgb_fb(4, 3, 5, 4);
    fb.put_pixel(1, 2, (10, 20, 30));
    let off = (2 * 5 + 1) * 4;
    assert_eq!(&fb.buffer()[off..off + 4], &[10, 20, 30, 0]);
    fb.put_pixel(4, 0, (1, 1, 1)); // off screen
    assert_eq!(fb.buffer().iter().filter(|&&b| b != 0).count(), 3);
    let info = FrameBufferInfo { width: 2, height: 2, stride: 2, bytes_per_pixel: 3, pixel_format: PixelFormat::Bgr };
    let mut bgr = Framebuffer::new(info, vec![0u8; 12]);
    bgr.put_pixel(1, 1, (10, 20, 30));
    assert_eq!(&bgr.buffer()[9..12], &[30, 20, 10]);
    let info8 = FrameBufferInfo { width: 2, height: 1, stride: 2, bytes_per_pixel: 1, pixel_format: PixelFormat::U8 };
    let mut grey = Framebuffer::new(info8, vec![0u8; 2]);
    grey.put_pixel(1, 0, (7, 8, 9));
    assert_eq!(grey.buffer(), &[0, 7]);
    assert_eq!(grey.resolution(), (2, 1));
}

#[test]
fn framebuffer_clear_and_rect() {
    let mut fb = rgb_fb(2, 2, 3, 4);
    fb.clear_screen((30, 30, 46));
    // Visible pixels set, the padding column and the fourth byte kept.
    assert_eq!(&fb.buffer()[0..4], &[30, 30, 46, 0]);
    assert_eq!(&fb.buffer()[8..12], &[0, 0, 0, 0]);
    assert_eq!(&fb.buffer()[12..16], &[30, 30, 46, 0]);
    let info8 = FrameBufferInfo { width: 3, height: 1, stride: 3, bytes_per_pixel: 1, pixel_format: PixelFormat::U8 };
    let mut grey = Framebuffer::new(info8, vec![0u8; 3]);
    grey.clear_screen((30, 60, 90));
    assert_eq!(grey.buffer(), &[60, 60, 60]);
    // A 2x1 rectangle asked at x = 3 is moved left to fit a width of 4;
    // RGB rows are laid out at three bytes per pixel.
    let mut r = rgb_fb(4, 2, 4, 4);
    r.draw_rect(3, 1, 2, 1, (1, 2, 3));
    let start = (1 * 4 + 2) * 3;
    assert_eq!(&r.buffer()[start..start + 6], &[1, 2, 3, 1, 2, 3]);
    assert_eq!(r.buffer().iter().filter(|&&b| b != 0).count(), 6);
    let before = r.buffer().to_vec();
    r.draw_rect(4, 0, 1, 1, (9, 9, 9)); // starts off screen
    r.draw_rect(0, 0, 0, 1, (9, 9, 9)); // empty
    assert_eq!(r.buffer(), &before[..]);
}

#[test]
fn framebuffer_bitmap_and_faces() {
    let mut fb = rgb_fb(3, 3, 3, 3);
    let bmp = [(1, 1, 1, 255), (2, 2, 2, 0), (3, 3, 3, 255), (4, 4, 4, 255)];
    fb.draw_bitmap(&bmp, 2, 2, 2, 1);
    // Only the first column fits (x = 2); the transparent entry is skipped.
    assert_eq!(&fb.buffer()[(1 * 3 + 2) * 3..(1 * 3 + 2) * 3 + 3], &[1, 1, 1]);
    assert_eq!(&fb.buffer()[(2 * 3 + 2) * 3..(2 * 3 + 2) * 3 + 3], &[3, 3, 3]);
    assert_eq!(fb.buffer().iter().filter(|&&b| b != 0).count(), 6);
    let mut face = rgb_fb(8, 8, 8, 3);
    face.draw_smiley(0, 0, (255, 0, 0, 255));
    let lit = |fb: &Framebuffer, x: usize, y: usize| fb.buffer()[(y * 8 + x) * 3] == 255;
    assert!(lit(&face, 1, 0) && lit(&face, 5, 1) && lit(&face, 0, 4) && lit(&face, 3, 5) && lit(&face, 6, 4));
    assert_eq!(face.buffer().iter().filter(|&&b| b != 0).count(), 11);
    let mut sad = rgb_fb(8, 8, 8, 3);
    sad.draw_sad_face(0, 0, (255, 0, 0, 255));
    assert!(lit(&sad, 0, 5) && lit(&sad, 3, 4) && lit(&sad, 6, 5));
    let mut none = rgb_fb(8, 8, 8, 3);
    none.draw_smiley(0, 0, (255, 0, 0, 0));
    assert!(none.buffer().iter().all(|&b| b == 0));
}

#[test]
fn boot_buffer_bitmap_and_fill() {
    let mut b = Buffer::new(4, 3);
    assert_eq!(b.get_pxl(0, 0), Some(Pixel { red: 0, green: 0, blue: 0 }));
    assert_eq!(b.get_pxl(5, 0), None);
    assert_eq!(b.get_pxl(4, 1), None); // x equal to the width is out of bounds
    assert_eq!(b.get_pxl(3, 3), None); // y equal to the height is out of bounds
    assert_eq!(b.get_pxl(3, 2), Some(Pixel { red: 0, green: 0, blue: 0 }));
    let red = Pixel { red: 255, green: 0, blue: 0 };
    let blue = Pixel { red: 0, green: 0, blue: 255 };
    assert_eq!(b.draw_bitmap(&[red, blue, blue, red], 2, 2, 1, 0), Ok(()));
    assert_eq!(b.get_pxl(1, 0), Some(red));
    assert_eq!(b.get_pxl(2, 0), Some(blue));
    assert_eq!(b.get_pxl(1, 1), Some(blue));
    assert_eq!(b.get_pxl(2, 1), Some(red));
    assert_eq!(b.draw_bitmap(&[red], 2, 2, 0, 0), Err(BufferError::InvalidParameter));
    assert_eq!(b.draw_bitmap(&[red; 25], 5, 5, 0, 0), Err(BufferError::InvalidParameter));
    // an area that would leave the buffer is refused and nothing is drawn
    assert_eq!(b.draw_bitmap(&[red; 4], 2, 2, 0, 2), Err(BufferError::InvalidParameter));
    assert_eq!(b.draw_bitmap(&[red; 4], 2, 2, 3, 0), Err(BufferError::InvalidParameter));
    assert_eq!(b.draw_bitmap(&[red; 4], 2, 2, 4, 0), Err(BufferError::InvalidParameter));
    assert_eq!(b.get_pxl(0, 2), Some(Pixel { red: 0, green: 0, blue: 0 }));
    assert_eq!(b.get_pxl(3, 0), Some(Pixel { red: 0, green: 0, blue: 0 }));
    // the bottom-right corner is reachable
    assert_eq!(b.draw_bitmap(&[red; 4], 2, 2, 2, 1), Ok(()));
    assert_eq!(b.get_pxl(3, 2), Some(red));
    let mut sq = Buffer::new(4, 4);
    assert_eq!(sq.draw_bitmap(&[red; 4], 2, 2, 0, 3), Err(BufferError::InvalidParameter));
    b.fill_buffer(blue);
    assert_eq!(b.get_pxl(3, 2), Some(blue));
    let mut tty = TTY::new();
    tty.write_str("hi").unwrap();
    tty.clear_buf(&mut b);
    assert_eq!(b.get_pxl(0, 0), Some(Pixel { red: 0, green: 0, blue: 0 }));
}

use mandelbrot_zoom::buffer::{rgb_from_rgba, write_row_band, PixelBuffer, Rgb};

fn color(x: u32, y: u32) -> Rgb {
    Rgb { r: x as u8, g: y as u8, b: (10 * x + y) as u8 }
}

fn rows(width: u32, height: u32) -> Vec<Vec<Rgb>> {
    (0..height).map(|y| (0..width).map(|x| color(x, y)).collect()).collect()
}

fn expected_bytes(width: u32, height: u32) -> Vec<u8> {
    let mut out = Vec::new();
    for y in 0..height {
        for x in 0..width {
            let c = color(x, y);
            out.extend_from_slice(&[c.r, c.g, c.b]);
        }
    }
    out
}

#[test]
fn rgba_drops_alpha() {
    assert_eq!(rgb_from_rgba([1, 2, 3, 255]), Rgb { r: 1, g: 2, b: 3 });
    assert_eq!(rgb_from_rgba([200, 0, 7, 0]), Rgb { r: 200, g: 0, b: 7 });
}

#[test]
fn new_buffer_is_black() {
    let buf = PixelBuffer::new(4, 3);
    assert_eq!(buf.width(), 4);
    assert_eq!(buf.height(), 3);
    assert_eq!(buf.as_bytes(), &[0u8; 36][..]);
}

#[test]
fn empty_buffer_has_no_bytes() {
    assert!(PixelBuffer::new(0, 5).into_bytes().is_empty());
    assert!(PixelBuffer::new(5, 0).into_bytes().is_empty());
}

#[test]
fn put_pixel_sets_three_bytes() {
    let mut buf = PixelBuffer::new(3, 2);
    buf.put_pixel(2, 1, Rgb { r: 9, g: 8, b: 7 });
    let mut expected = vec![0u8; 18];
    expected[15] = 9;
    expected[16] = 8;
    expected[17] = 7;
    assert_eq!(buf.into_bytes(), expected);
}

#[test]
fn put_row_replaces_only_that_row() {
    let mut buf = PixelBuffer::new(2, 3);
    buf.put_row(1, &vec![Rgb { r: 1, g: 2, b: 3 }, Rgb { r: 4, g: 5, b: 6 }]);
    assert_eq!(
        buf.into_bytes(),
        vec![0, 0, 0, 0, 0, 0, 1, 2, 3, 4, 5, 6, 0, 0, 0, 0, 0, 0]
    );
}

#[test]
fn write_row_band_fills_band() {
    let mut band = [0u8; 6];
    write_row_band(&mut band, &vec![Rgb { r: 1, g: 2, b: 3 }, Rgb { r: 4, g: 5, b: 6 }]);
    assert_eq!(band, [1, 2, 3, 4, 5, 6]);
}

#[test]
fn from_rows_is_row_major() {
    let buf = PixelBuffer::from_rows(4, 3, &rows(4, 3));
    assert_eq!(buf.into_bytes(), expected_bytes(4, 3));
}

#[test]
fn every_strategy_gives_identical_bytes() {
    let (w, h) = (5u32, 4u32);
    let all = rows(w, h);
    let assembled = PixelBuffer::from_rows(w, h, &all).into_bytes();

    let mut by_pixel = PixelBuffer::new(w, h);
    for y in 0..h {
        for x in 0..w {
            by_pixel.put_pixel(x, y, color(x, y));
        }
    }

    let mut by_row_reversed = PixelBuffer::new(w, h);
    for y in (0..h).rev() {
        by_row_reversed.put_row(y, &all[y as usize]);
    }

    let mut by_band = vec![0u8; (3 * w * h) as usize];
    for (y, band) in by_band.chunks_mut(3 * w as usize).enumerate().rev() {
        write_row_band(band, &all[y]);
    }

    assert_eq!(assembled, expected_bytes(w, h));
    assert_eq!(by_pixel.into_bytes(), assembled);
    assert_eq!(by_row_reversed.into_bytes(), assembled);
    assert_eq!(by_band, assembled);
}

#[test]
fn rewriting_a_row_keeps_last_write() {
    let mut buf = PixelBuffer::new(1, 2);
    buf.put_row(0, &vec![Rgb { r: 1, g: 1, b: 1 }]);
    buf.put_row(0, &vec![Rgb { r: 2, g: 3, b: 4 }]);
    assert_eq!(buf.into_bytes(), vec![2, 3, 4, 0, 0, 0]);
}

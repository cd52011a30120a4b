use showie::{render, Image, Pixel, Trim};

fn px(r: u8, g: u8, b: u8, a: u8) -> Pixel {
    Pixel { r, g, b, a }
}

fn clear() -> Pixel {
    px(0, 0, 0, 0)
}

fn img(width: usize, height: usize, pixels: Vec<Pixel>) -> Image {
    Image::new(width, height, pixels).expect("dimensions must match the pixel data")
}

fn same_pixels(a: &Image, b: &Image) -> bool {
    a.width == b.width && a.height == b.height && a.pixels == b.pixels
}

#[test]
fn trim_transparent_image_is_unchanged() {
    // A fully transparent 2x2 image comes back as it went in.
    let i = img(2, 2, vec![clear(), clear(), clear(), clear()]);
    let t = img(2, 2, vec![clear(), clear(), clear(), clear()]).trim();
    assert!(same_pixels(&i, &t));
    // Rendering the untrimmed transparent image gives one line of two
    // bare spaces.
    assert_eq!(render(&i), "  ");
}

#[test]
fn trim_empty_image() {
    let t = img(0, 0, vec![]).trim();
    assert_eq!(t.width, 0);
    assert_eq!(t.height, 0);
}

#[test]
fn trim_fully_opaque_is_unchanged() {
    let pixels: Vec<Pixel> = (0..6).map(|k| px(k as u8, 0, 0, 255)).collect();
    let i = img(3, 2, pixels.clone());
    let t = img(3, 2, pixels).trim();
    assert!(same_pixels(&i, &t));
}

#[test]
fn trim_single_opaque_pixel() {
    let mut pixels = vec![clear(); 9];
    pixels[4] = px(9, 9, 9, 255); // center of a 3x3 grid
    let t = img(3, 3, pixels).trim();
    assert_eq!(t.width, 1);
    assert_eq!(t.height, 1);
    assert_eq!(t.get_pixel(0, 0), px(9, 9, 9, 255));
}

#[test]
fn trim_crops_to_bounding_box() {
    // Opaque pixels at (1,1) and (2,2) of a 4x4 grid: the box is the
    // 2x2 region from (1,1) to (2,2).
    let mut pixels = vec![clear(); 16];
    pixels[1 * 4 + 1] = px(1, 0, 0, 255);
    pixels[2 * 4 + 2] = px(2, 0, 0, 7);
    let t = img(4, 4, pixels).trim();
    assert_eq!(t.width, 2);
    assert_eq!(t.height, 2);
    assert_eq!(t.get_pixel(0, 0), px(1, 0, 0, 255));
    assert_eq!(t.get_pixel(1, 1), px(2, 0, 0, 7));
    assert_eq!(t.get_pixel(1, 0), clear());
    assert_eq!(t.get_pixel(0, 1), clear());
}

#[test]
fn trim_is_idempotent() {
    let mut pixels = vec![clear(); 20];
    pixels[2 * 5 + 1] = px(1, 2, 3, 255);
    pixels[3 * 5 + 3] = px(4, 5, 6, 255);
    let once = img(5, 4, pixels.clone()).trim();
    let twice = img(5, 4, pixels).trim().trim();
    assert!(same_pixels(&once, &twice));
}

#[test]
fn trim_borders_keep_an_opaque_pixel() {
    // After trimming, each border row and column of the result holds at
    // least one opaque pixel.
    let mut pixels = vec![clear(); 25];
    pixels[1 * 5 + 2] = px(1, 0, 0, 255);
    pixels[3 * 5 + 1] = px(2, 0, 0, 255);
    pixels[2 * 5 + 3] = px(3, 0, 0, 255);
    let t = img(5, 5, pixels).trim();
    assert_eq!(t.width, 3);
    assert_eq!(t.height, 3);
    let opaque_in_row = |im: &Image, y: usize| (0..im.width).any(|x| im.get_pixel(x, y).a != 0);
    let opaque_in_col = |im: &Image, x: usize| (0..im.height).any(|y| im.get_pixel(x, y).a != 0);
    assert!(opaque_in_row(&t, 0));
    assert!(opaque_in_row(&t, t.height - 1));
    assert!(opaque_in_col(&t, 0));
    assert!(opaque_in_col(&t, t.width - 1));
}

#[test]
fn crop_copies_subregion() {
    let pixels: Vec<Pixel> = (0..12).map(|k| px(k as u8, 0, 0, 255)).collect();
    let i = img(4, 3, pixels);
    let c = i.crop(1, 1, 2, 2);
    assert_eq!(c.width, 2);
    assert_eq!(c.height, 2);
    assert_eq!(c.get_pixel(0, 0).r, 5);
    assert_eq!(c.get_pixel(1, 0).r, 6);
    assert_eq!(c.get_pixel(0, 1).r, 9);
    assert_eq!(c.get_pixel(1, 1).r, 10);
}

#[test]
fn trim_then_render_compacts_output() {
    // A lone opaque pixel in a large transparent frame renders as a
    // single glyph once trimmed.
    let mut pixels = vec![clear(); 64];
    pixels[3 * 8 + 4] = px(200, 100, 50, 255);
    let t = img(8, 8, pixels).trim();
    assert_eq!(render(&t), "\x1b[38;2;200;100;50m\u{2580}\x1b[0m");
}

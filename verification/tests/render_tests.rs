use showie::{ansi, render, Image, Pixel};

fn px(r: u8, g: u8, b: u8, a: u8) -> Pixel {
    Pixel { r, g, b, a }
}

fn clear() -> Pixel {
    px(0, 0, 0, 0)
}

fn img(width: usize, height: usize, pixels: Vec<Pixel>) -> Image {
    Image::new(width, height, pixels).expect("dimensions must match the pixel data")
}

#[test]
fn ansi_background_three_digits() {
    assert_eq!(ansi(255, 0, 0, true), "\x1b[48;2;255;0;0m");
}

#[test]
fn ansi_foreground_three_digits() {
    assert_eq!(ansi(0, 255, 0, false), "\x1b[38;2;0;255;0m");
}

#[test]
fn ansi_mixed_digit_widths() {
    assert_eq!(ansi(5, 42, 255, false), "\x1b[38;2;5;42;255m");
    assert_eq!(ansi(9, 10, 99, true), "\x1b[48;2;9;10;99m");
    assert_eq!(ansi(100, 0, 7, false), "\x1b[38;2;100;0;7m");
}

#[test]
fn opaque_pair_single_column() {
    // Fully opaque 1x2 image: red on top of green gives one line with a
    // background escape for the top, a foreground escape for the bottom,
    // the lower half block, and a reset.
    let i = img(1, 2, vec![px(255, 0, 0, 255), px(0, 255, 0, 255)]);
    assert_eq!(
        render(&i),
        "\x1b[48;2;255;0;0m\x1b[38;2;0;255;0m\u{2584}\x1b[0m"
    );
}

#[test]
fn single_opaque_pixel() {
    // A 1x1 opaque pixel renders as one line with no leading newline: a
    // foreground escape, the upper half block, and a reset.
    let i = img(1, 1, vec![px(10, 20, 30, 255)]);
    assert_eq!(render(&i), "\x1b[38;2;10;20;30m\u{2580}\x1b[0m");
}

#[test]
fn transparent_pair_renders_space() {
    let i = img(2, 2, vec![clear(), clear(), clear(), clear()]);
    assert_eq!(render(&i), "  ");
}

#[test]
fn transparent_top_opaque_bottom() {
    // Only the bottom pixel shows: foreground escape and lower half
    // block, with no background escape.
    let i = img(1, 2, vec![clear(), px(1, 2, 3, 255)]);
    assert_eq!(render(&i), "\x1b[38;2;1;2;3m\u{2584}\x1b[0m");
}

#[test]
fn opaque_top_transparent_bottom() {
    // Only the top pixel shows: foreground escape and upper half block.
    let i = img(1, 2, vec![px(4, 5, 6, 255), clear()]);
    assert_eq!(render(&i), "\x1b[38;2;4;5;6m\u{2580}\x1b[0m");
}

#[test]
fn partial_alpha_counts_as_opaque() {
    // Any non-zero alpha is treated as opaque, with no blending.
    let i = img(1, 1, vec![px(7, 8, 9, 1)]);
    assert_eq!(render(&i), "\x1b[38;2;7;8;9m\u{2580}\x1b[0m");
}

#[test]
fn render_empty_image() {
    let i = img(0, 0, vec![]);
    assert_eq!(render(&i), "");
}

#[test]
fn render_zero_width_rows() {
    // Rows of width zero contribute empty lines, still newline-joined.
    let i = img(0, 4, vec![]);
    assert_eq!(render(&i), "\n");
    let i = img(0, 2, vec![]);
    assert_eq!(render(&i), "");
    let i = img(0, 3, vec![]);
    assert_eq!(render(&i), "\n");
}

#[test]
fn render_is_deterministic() {
    let i = img(
        2,
        3,
        vec![
            px(1, 2, 3, 255),
            clear(),
            px(4, 5, 6, 128),
            px(7, 8, 9, 255),
            clear(),
            px(10, 11, 12, 255),
        ],
    );
    assert_eq!(render(&i), render(&i));
}

#[test]
fn render_line_counts() {
    // floor(H/2) paired lines plus one trailing line when H is odd,
    // joined by single newlines.
    let opaque_col = |h: usize| -> Image {
        img(1, h, (0..h).map(|_| px(1, 1, 1, 255)).collect())
    };
    for h in 0..7usize {
        let out = render(&opaque_col(h));
        let newlines = out.chars().filter(|&c| c == '\n').count();
        let lines = h / 2 + h % 2;
        assert_eq!(newlines, if lines == 0 { 0 } else { lines - 1 });
        assert!(!out.starts_with('\n'));
        assert!(!out.ends_with('\n'));
    }
}

#[test]
fn render_odd_height_last_row() {
    // Height 3: one paired line, a newline, then the odd row drawn with
    // upper half blocks.
    let i = img(
        1,
        3,
        vec![px(1, 0, 0, 255), px(0, 1, 0, 255), px(0, 0, 1, 255)],
    );
    assert_eq!(
        render(&i),
        "\x1b[48;2;1;0;0m\x1b[38;2;0;1;0m\u{2584}\x1b[0m\n\x1b[38;2;0;0;1m\u{2580}\x1b[0m"
    );
}

#[test]
fn new_rejects_mismatched_length() {
    assert!(Image::new(2, 2, vec![clear(), clear(), clear()]).is_none());
    assert!(Image::new(1, 1, vec![]).is_none());
}

#[test]
fn get_pixel_row_major() {
    let i = img(
        2,
        2,
        vec![
            px(1, 0, 0, 255),
            px(2, 0, 0, 255),
            px(3, 0, 0, 255),
            px(4, 0, 0, 255),
        ],
    );
    assert_eq!(i.get_pixel(0, 0).r, 1);
    assert_eq!(i.get_pixel(1, 0).r, 2);
    assert_eq!(i.get_pixel(0, 1).r, 3);
    assert_eq!(i.get_pixel(1, 1).r, 4);
}

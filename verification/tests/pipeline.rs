use pokeball::ascii::ascii_from_rgb;
use pokeball::ascii::glyph_index;
use pokeball::ascii::luminance;
use pokeball::background::background_mask;
use pokeball::color::quantize_256;
use pokeball::color::Rgb;

fn ramp10() -> Vec<char> {
    vec![' ', '.', ':', '-', '=', '+', '*', '#', '%', '@']
}

#[test]
fn glyph_index_endpoints() {
    // full brightness picks the first glyph, full darkness the last
    assert_eq!(glyph_index(1024, 10), 0);
    assert_eq!(glyph_index(0, 10), 9);
    assert_eq!(glyph_index(1024, 2), 0);
    assert_eq!(glyph_index(0, 2), 1);
}

#[test]
fn glyph_index_stays_in_range() {
    for shaded in 0..=1024u32 {
        let idx = glyph_index(shaded, 10);
        assert!(idx < 10);
    }
    // midpoint rounds to the nearest step
    assert_eq!(glyph_index(512, 3), 1);
}

#[test]
fn luminance_endpoints() {
    assert_eq!(luminance(Rgb { r: 0, g: 0, b: 0 }), 0);
    assert_eq!(luminance(Rgb { r: 255, g: 255, b: 255 }), 1024);
    // green weighs most, blue least
    let lg = luminance(Rgb { r: 0, g: 255, b: 0 });
    let lb = luminance(Rgb { r: 0, g: 0, b: 255 });
    let lr = luminance(Rgb { r: 255, g: 0, b: 0 });
    assert!(lg > lr && lr > lb);
}

#[test]
fn flood_fill_keeps_enclosed_speckle() {
    // 5x5: white border and ring, one white-looking speckle in the center
    // fenced off by a black ring; the speckle matches the corner mean but
    // is not border-reachable, so it stays foreground.
    let w = 5usize;
    let h = 5usize;
    let white = Rgb { r: 250, g: 250, b: 250 };
    let black = Rgb { r: 10, g: 10, b: 10 };
    let mut pixels = vec![white; w * h];
    for y in 1..4 {
        for x in 1..4 {
            pixels[y * w + x] = black;
        }
    }
    pixels[2 * w + 2] = white; // the speckle
    let mask = background_mask(&pixels, w, h);
    // border cells are background
    assert!(mask[0]);
    assert!(mask[4]);
    assert!(mask[20]);
    assert!(mask[24]);
    // the black ring is foreground
    assert!(!mask[1 * w + 1]);
    assert!(!mask[1 * w + 2]);
    // the enclosed white speckle stays foreground
    assert!(!mask[2 * w + 2]);
}

#[test]
fn flood_fill_reaches_through_corridor() {
    // the same ring with a gap lets the fill reach the center
    let w = 5usize;
    let h = 5usize;
    let white = Rgb { r: 250, g: 250, b: 250 };
    let black = Rgb { r: 10, g: 10, b: 10 };
    let mut pixels = vec![white; w * h];
    for y in 1..4 {
        for x in 1..4 {
            pixels[y * w + x] = black;
        }
    }
    pixels[2 * w + 2] = white;
    pixels[1 * w + 2] = white; // gap in the ring
    let mask = background_mask(&pixels, w, h);
    assert!(mask[1 * w + 2]);
    assert!(mask[2 * w + 2]);
}

#[test]
fn conversion_blanks_background_and_inks_foreground() {
    // white field with a black blob in the middle: the border becomes
    // spaces, the blob gets dark-end glyphs
    let w = 6usize;
    let h = 6usize;
    let white = Rgb { r: 250, g: 250, b: 250 };
    let black = Rgb { r: 5, g: 5, b: 5 };
    let mut pixels = vec![white; w * h];
    for y in 2..4 {
        for x in 2..4 {
            pixels[y * w + x] = black;
        }
    }
    let ramp = ramp10();
    let img = ascii_from_rgb(&pixels, w, h, &ramp);
    assert_eq!(img.width, w);
    assert_eq!(img.height, h);
    assert_eq!(img.chars.len(), w * h);
    assert_eq!(img.chars[0], ' ');
    assert_eq!(img.chars[w * h - 1], ' ');
    // the blob is visible and drawn with an inky glyph
    let c = img.chars[2 * w + 2];
    assert_ne!(c, ' ');
    let idx = ramp.iter().position(|&g| g == c).unwrap();
    assert!(idx >= 5, "dark cell should pick a dark glyph, got index {idx}");
}

#[test]
fn quantize_black_white_and_gray() {
    // black: gray level 0 is outside the gray band, darkest cube corner
    assert_eq!(quantize_256(0, 0, 0), 16);
    // white: gray level 255 is outside the gray band, lightest cube corner
    assert_eq!(quantize_256(255, 255, 255), 231);
    // mid gray: deltas within 12 and level in range, gray ramp entry
    assert_eq!(quantize_256(128, 128, 128), 232 + 12);
}

#[test]
fn quantize_more_points() {
    // near-gray lands on the ramp
    assert_eq!(quantize_256(100, 108, 104), 232 + 9);
    // saturated red lands on the cube
    let red = quantize_256(255, 0, 0);
    assert_eq!(red, 16 + 36 * 5);
    // the calls are deterministic
    assert_eq!(quantize_256(37, 99, 201), quantize_256(37, 99, 201));
}

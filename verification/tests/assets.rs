use std::io::Cursor;

use image::codecs::gif::GifEncoder;
use image::Frame;
use image::ImageFormat;
use image::RgbImage;
use image::RgbaImage;

use pokeball::ascii::load_ascii_image;
use pokeball::ascii::load_ascii_animation;
use pokeball::pokemon::load_arcanine_frames;
use pokeball::pokemon::load_growlithe;
use pokeball::pokemon::GROWLITHE_HEIGHT;
use pokeball::pokemon::GROWLITHE_WIDTH;
use pokeball::pokemon::ARCANINE_HEIGHT;
use pokeball::pokemon::ARCANINE_WIDTH;

fn ramp10() -> Vec<char> {
    vec![' ', '.', ':', '-', '=', '+', '*', '#', '%', '@']
}

/// A white field with a black blob in the middle, PNG-encoded.
fn blob_png(w: u32, h: u32) -> Vec<u8> {
    let img = RgbImage::from_fn(w, h, |x, y| {
        let inside = x > w / 3 && x < 2 * w / 3 && y > h / 3 && y < 2 * h / 3;
        if inside {
            image::Rgb([10, 10, 10])
        } else {
            image::Rgb([250, 250, 250])
        }
    });
    let mut buf: Vec<u8> = Vec::new();
    image::DynamicImage::ImageRgb8(img)
        .write_to(&mut Cursor::new(&mut buf), ImageFormat::Png)
        .unwrap();
    buf
}

/// A two-frame GIF of the same blob.
fn blob_gif(w: u32, h: u32) -> Vec<u8> {
    let mut buf: Vec<u8> = Vec::new();
    {
        let mut enc = GifEncoder::new(&mut buf);
        for shade in [10u8, 60u8] {
            let img = RgbaImage::from_fn(w, h, |x, y| {
                let inside = x > w / 3 && x < 2 * w / 3 && y > h / 3 && y < 2 * h / 3;
                if inside {
                    image::Rgba([shade, shade, shade, 255])
                } else {
                    image::Rgba([250, 250, 250, 255])
                }
            });
            enc.encode_frame(Frame::new(img)).unwrap();
        }
    }
    buf
}

#[test]
fn still_image_decodes_and_converts() {
    let data = blob_png(24, 24);
    let ramp = ramp10();
    let img = load_ascii_image(&data, 12, 12, &ramp).unwrap();
    assert_eq!(img.width, 12);
    assert_eq!(img.height, 12);
    assert_eq!(img.chars.len(), 144);
    assert_eq!(img.colors.len(), 144);
    // the white surround flood-fills away, the blob survives
    assert_eq!(img.chars[0], ' ');
    let center = 6 * 12 + 6;
    assert_ne!(img.chars[center], ' ');
}

#[test]
fn undecodable_bytes_are_refused() {
    let ramp = ramp10();
    assert!(load_ascii_image(&b"not an image".to_vec(), 8, 8, &ramp).is_none());
    assert!(load_ascii_animation(&b"not a gif".to_vec(), 8, 8, &ramp).is_none());
    assert!(load_growlithe(&b"junk".to_vec(), &ramp).is_none());
}

#[test]
fn growlithe_loads_at_its_fixed_size() {
    let data = blob_png(100, 80);
    let ramp = ramp10();
    let img = load_growlithe(&data, &ramp).unwrap();
    assert_eq!(img.width, GROWLITHE_WIDTH);
    assert_eq!(img.height, GROWLITHE_HEIGHT);
    assert_eq!(img.chars.len(), GROWLITHE_WIDTH * GROWLITHE_HEIGHT);
}

#[test]
fn animation_decodes_every_frame() {
    let data = blob_gif(32, 16);
    let ramp = ramp10();
    let frames = load_ascii_animation(&data, 16, 8, &ramp).unwrap();
    assert_eq!(frames.len(), 2);
    for f in &frames {
        assert_eq!(f.width, 16);
        assert_eq!(f.height, 8);
        assert_eq!(f.chars.len(), 16 * 8);
    }
    // the two frames differ: the blob brightens in the second
    assert_ne!(frames[0].colors, frames[1].colors);
}

#[test]
fn arcanine_frames_load_at_their_fixed_size() {
    let data = blob_gif(96, 24);
    let ramp = ramp10();
    let frames = load_arcanine_frames(&data, &ramp).unwrap();
    assert_eq!(frames.len(), 2);
    assert_eq!(frames[0].width, ARCANINE_WIDTH);
    assert_eq!(frames[0].height, ARCANINE_HEIGHT);
}

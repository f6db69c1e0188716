use vstd::prelude::*;

use crate::color::Rgb;

verus! {

/// What the still-image decoder yields for given bytes and target size,
/// or None when the bytes do not decode. Decoding and nearest-neighbor
/// resampling depend on the bytes and the size alone, so the result
/// carries a name that callers' contracts can speak of exactly.
pub uninterp spec fn decoded_rgb_of(data: Seq<u8>, width: int, height: int) -> Option<Seq<Rgb>>;

/// What the animation decoder yields for given bytes and target size: one
/// pixel grid per frame in source order, or None when the bytes do not
/// decode. A function of the bytes and the size alone.
pub uninterp spec fn decoded_gif_frames_of(data: Seq<u8>, width: int, height: int) -> Option<
    Seq<Seq<Rgb>>,
>;

/// Relies on image::load_from_memory, DynamicImage::resize_exact and
/// DynamicImage::to_rgb8: a still image decoded from bytes and resized to
/// exactly width x height yields one RGB pixel per cell, row-major.
/// Undecodable bytes yield None.
#[verifier::external_body]
pub(crate) fn decode_rgb_resized(data: &Vec<u8>, width: usize, height: usize) -> (r: Option<
    Vec<Rgb>,
>)
    requires
        1 <= width <= 4096,
        1 <= height <= 4096,
    ensures
        r is Some <==> decoded_rgb_of(data@, width as int, height as int) is Some,
        r is Some ==> r.unwrap()@ == decoded_rgb_of(data@, width as int, height as int).unwrap(),
        r is Some ==> r.unwrap()@.len() == width * height,
{
    let img = match image::load_from_memory(data) {
        Ok(img) => img,
        Err(_) => return None,
    };
    let rgb = img.resize_exact(width as u32, height as u32, image::imageops::FilterType::Nearest)
        .to_rgb8();
    Some(rgb.pixels().map(|p| Rgb { r: p.0[0], g: p.0[1], b: p.0[2] }).collect())
}

/// Relies on image::codecs::gif::GifDecoder, AnimationDecoder::into_frames
/// and Frames::collect_frames: every frame of a decodable animation,
/// resized to exactly width x height, yields one RGB pixel per cell,
/// row-major, frames in source order. Undecodable bytes or a bad frame
/// yield None.
#[verifier::external_body]
pub(crate) fn decode_gif_frames_rgb_resized(data: &Vec<u8>, width: usize, height: usize) -> (r:
    Option<Vec<Vec<Rgb>>>)
    requires
        1 <= width <= 4096,
        1 <= height <= 4096,
    ensures
        r is Some <==> decoded_gif_frames_of(data@, width as int, height as int) is Some,
        r is Some ==> r.unwrap()@.len() == decoded_gif_frames_of(
            data@,
            width as int,
            height as int,
        ).unwrap().len(),
        r is Some ==> forall|k: int|
            0 <= k < r.unwrap()@.len() ==> (#[trigger] r.unwrap()@[k])@ == decoded_gif_frames_of(
                data@,
                width as int,
                height as int,
            ).unwrap()[k] && r.unwrap()@[k]@.len() == width * height,
{
    let dec = image::codecs::gif::GifDecoder::new(std::io::Cursor::new(data.as_slice())).ok()?;
    let frames = image::AnimationDecoder::into_frames(dec).collect_frames().ok()?;
    let mut out: Vec<Vec<Rgb>> = Vec::new();
    for f in frames {
        let rgb = image::DynamicImage::ImageRgba8(f.into_buffer())
            .resize_exact(width as u32, height as u32, image::imageops::FilterType::Nearest)
            .to_rgb8();
        out.push(rgb.pixels().map(|p| Rgb { r: p.0[0], g: p.0[1], b: p.0[2] }).collect());
    }
    Some(out)
}

} // verus!

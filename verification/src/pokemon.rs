use vstd::prelude::*;

use crate::ascii::AsciiImage;
use crate::ascii::load_ascii_image;
use crate::ascii::load_ascii_animation;
use crate::ascii::spec_converted_image;
use crate::decode::decoded_gif_frames_of;
use crate::decode::decoded_rgb_of;

verus! {

/// Glyph-grid width of the growlithe sprite.
pub const GROWLITHE_WIDTH: usize = 56;

/// Glyph-grid height of the growlithe sprite.
pub const GROWLITHE_HEIGHT: usize = 34;

/// Glyph-grid width of the pikachu sprite.
pub const PIKACHU_WIDTH: usize = 78;

/// Glyph-grid height of the pikachu sprite.
pub const PIKACHU_HEIGHT: usize = 34;

/// Glyph-grid width of one arcanine animation frame.
pub const ARCANINE_WIDTH: usize = 96;

/// Glyph-grid height of one arcanine animation frame.
pub const ARCANINE_HEIGHT: usize = 24;

/// Converts the growlithe sprite from its encoded image bytes at the
/// fixed grid size. Succeeds exactly when the bytes decode; the result is
/// then the conversion of the decoded grid.
pub fn load_growlithe(data: &Vec<u8>, ramp: &Vec<char>) -> (r: Option<AsciiImage>)
    requires
        2 <= ramp@.len() <= 0xFFFF_FFFF,
    ensures
        r is Some <==> decoded_rgb_of(data@, GROWLITHE_WIDTH as int, GROWLITHE_HEIGHT as int)
            is Some,
        match r {
            Some(img) => spec_converted_image(
                decoded_rgb_of(data@, GROWLITHE_WIDTH as int, GROWLITHE_HEIGHT as int).unwrap(),
                GROWLITHE_WIDTH as int,
                GROWLITHE_HEIGHT as int,
                ramp@,
                img,
            ),
            None => true,
        },
        r is Some ==> r.unwrap().width == GROWLITHE_WIDTH && r.unwrap().height
            == GROWLITHE_HEIGHT && r.unwrap().wf(),
{
    load_ascii_image(data, GROWLITHE_WIDTH, GROWLITHE_HEIGHT, ramp)
}

/// Converts the pikachu sprite from its encoded image bytes at the fixed
/// grid size. Succeeds exactly when the bytes decode; the result is then
/// the conversion of the decoded grid.
pub fn load_pikachu(data: &Vec<u8>, ramp: &Vec<char>) -> (r: Option<AsciiImage>)
    requires
        2 <= ramp@.len() <= 0xFFFF_FFFF,
    ensures
        r is Some <==> decoded_rgb_of(data@, PIKACHU_WIDTH as int, PIKACHU_HEIGHT as int)
            is Some,
        match r {
            Some(img) => spec_converted_image(
                decoded_rgb_of(data@, PIKACHU_WIDTH as int, PIKACHU_HEIGHT as int).unwrap(),
                PIKACHU_WIDTH as int,
                PIKACHU_HEIGHT as int,
                ramp@,
                img,
            ),
            None => true,
        },
        r is Some ==> r.unwrap().width == PIKACHU_WIDTH && r.unwrap().height == PIKACHU_HEIGHT
            && r.unwrap().wf(),
{
    load_ascii_image(data, PIKACHU_WIDTH, PIKACHU_HEIGHT, ramp)
}

/// Converts every frame of the arcanine animation from its encoded GIF
/// bytes at the fixed grid size. Succeeds exactly when the bytes decode;
/// the result then holds one image per decoded frame, in source order,
/// each the conversion of that frame.
pub fn load_arcanine_frames(data: &Vec<u8>, ramp: &Vec<char>) -> (r: Option<Vec<AsciiImage>>)
    requires
        2 <= ramp@.len() <= 0xFFFF_FFFF,
    ensures
        r is Some <==> decoded_gif_frames_of(data@, ARCANINE_WIDTH as int, ARCANINE_HEIGHT as int)
            is Some,
        match r {
            Some(v) => v@.len() == decoded_gif_frames_of(
                data@,
                ARCANINE_WIDTH as int,
                ARCANINE_HEIGHT as int,
            ).unwrap().len() && forall|k: int|
                #![trigger v@[k]]
                0 <= k < v@.len() ==> spec_converted_image(
                    decoded_gif_frames_of(
                        data@,
                        ARCANINE_WIDTH as int,
                        ARCANINE_HEIGHT as int,
                    ).unwrap()[k],
                    ARCANINE_WIDTH as int,
                    ARCANINE_HEIGHT as int,
                    ramp@,
                    v@[k],
                ),
            None => true,
        },
{
    load_ascii_animation(data, ARCANINE_WIDTH, ARCANINE_HEIGHT, ramp)
}

} // verus!

//! A verified rendering core for an animated ANSI terminal scene: a rotating
//! "Pokéball" sphere rasterized over a depth buffer, bitmap-derived sprite
//! art converted to colorized glyphs, a frame compositor that serializes the
//! result to escape sequences, and the capture-game state machine that drives
//! the animation parameters tick by tick.
//!
//! All shading arithmetic is fixed point: values that the scene treats as
//! reals in [0, 1] are carried as integers in [0, 1024] (see [`fixed`]).

pub mod ascii;
pub mod background;
pub mod color;
pub mod commands;
pub mod compose;
pub mod decode;
pub mod fixed;
pub mod framebuffer;
pub mod game;
pub mod pokemon;
pub mod serialize;
pub mod sphere;

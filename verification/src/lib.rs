//! A software rasteriser for a small packed-RGBA pixel buffer, and a decoder
//! that turns a byte stream into three-bit palette pixels.

pub mod circle;
pub mod colour;
pub mod decoder;
pub mod framebuffer;
pub mod game;
pub mod hexagon;
pub mod layout;
pub mod player;
pub mod rect;
pub mod sprite;
pub mod text;
pub mod triangle;
pub mod widgets;

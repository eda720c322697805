//! A software pixel compositor for a 2D platform game: pixel buffers of
//! packed colour, the draw calls that copy, scale, recolour, light and
//! rasterise into them, text, and the tile atlas and tile grid with their
//! sampling under the active colour mask.
//!
//! Every function states what it does as a contract over a mathematical
//! model of its data, and the contracts are proved.

pub mod color;
pub mod bitmap;
pub mod span;
pub mod paint;
pub mod composite;
pub mod shapes;
pub mod triangle;
pub mod font;
pub mod image;
pub mod tileflags;
pub mod tilemap;
pub mod editorview;
pub mod number;
pub mod leveltext;
pub mod atlas;
pub mod background;
pub mod sound;

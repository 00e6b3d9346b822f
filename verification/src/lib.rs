//! A software ray caster: a tile map, a texture atlas and a raster target,
//! and the integer rasterisation that draws walls and sprites into it.

pub mod error;
pub mod framebuffer;
pub mod grid;
pub mod overhead;
pub mod ppm;
pub mod render;
pub mod sprites;
pub mod texture;
pub mod utils;
pub mod walls;

pub use error::RenderError;
pub use framebuffer::{FrameError, Framebuffer};
pub use grid::{GridMap, MapError};
pub use texture::{Texture, TextureError};

//! A Truevision TGA image codec with verified contracts: the fixed header
//! record, pixel colours, the in-memory raster with pixel access and flips,
//! the run-length packet stream and the file layout.
//!
//! Beside the codec stand the small integer tools of a renderer that draws
//! into such images: vectors, straight lines, the bounding box of a
//! triangle, and the face lines of a polygon mesh in text form.

pub mod arith;
pub mod error;
pub mod color;
pub mod header;
pub mod rle;
pub mod raster;
pub mod file;
pub mod image;
pub mod geometry;
pub mod renderer;
pub mod obj;

pub use crate::error::TgaError;
pub use crate::color::Color;
pub use crate::header::TgaHeader;
pub use crate::image::{Encoding, Image};
pub use crate::raster::Raster;

use vstd::prelude::*;

pub mod color_table;
pub mod decoder;
pub mod encoder;
pub mod image;
pub mod quote;
pub mod raw_image;

pub use color_table::ColorTable;
pub use decoder::VanGoghDecoder;
pub use encoder::VanGoghEncoder;
pub use image::{CodecError, VanGoghImage};
pub use quote::random_quote;
pub use raw_image::{ImageError, PngColor, PngFrame, RawImage};

verus! {

} // verus!

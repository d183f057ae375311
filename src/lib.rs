//! Decoding of Jupiter Texture images: a tiled, Morton-ordered, bit-packed
//! texture format, decoded here into row-major 8-bit-per-channel pixels.
pub mod colour_type;
pub mod decoder;
pub mod error;
pub mod lz;
pub mod tiling;
pub mod util;

pub use colour_type::JupiterColourType;
pub use decoder::{JupiterDecoder, JupiterReader};
pub use error::{Error, NintendoLzError, Truncation};
pub use util::{decimal_ordinate_to_x_y, next_largest_power_of_2, next_multiple_of};

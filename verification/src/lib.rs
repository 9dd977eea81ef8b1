//! Block compression of RGBA pixels into BC1 (DXT1): every 4x4 tile of an
//! image becomes 8 bytes, two RGB565 endpoints and sixteen 2-bit indices
//! into the four colors that the endpoints span.
//!
//! The encoder chooses the endpoints of a tile among candidate pairs taken
//! from its pixels and keeps the pair with the least distortion. Every
//! function states its result over the spec functions of its module.

pub mod color;
pub mod endpoints;
pub mod candidates;
pub mod table;
pub mod block;
pub mod image;

pub use crate::block::encode_block;
pub use crate::candidates::{build_endpoints, minmax};
pub use crate::color::{encode_endpoint, pixel_dist, quantize, Block, Color};
pub use crate::endpoints::{
    extrapolate_endpoints, quantize_endpoints, sort_quantize_endpoints, EndpointPair,
};
pub use crate::image::{encode, encode_measured, per_pixel_dist, EncodeError, Image};
pub use crate::table::{block_dist, build_entry, build_table, encode_pixels, nearest_entry, Table};

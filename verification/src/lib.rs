//! Tile coordinate model and fetch/parse/tessellate pipeline for tiled maps.
//!
//! The crate turns a requested map area into cached, renderable tile
//! geometry: a view region expands into wanted tile coordinates, each
//! coordinate becomes a request, the cache is consulted, misses are fetched,
//! and fetched bytes flow through parse and tessellate stages whose outputs
//! are posted on a message bus and written into the cache.

pub mod apc;
pub mod cache;
pub mod coords;
pub mod example;
pub mod geometry_index;
pub mod glyph;
pub mod layer;
pub mod parse;
pub mod pipeline;
pub mod populate;
pub mod request;
pub mod scheduler;
pub mod source;
pub mod tessellate;
mod text;

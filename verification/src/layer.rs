//! The decoded form of one tile: named layers holding typed vector
//! geometry and per-feature key/value properties.

use vstd::prelude::*;

verus! {

/// A position in the local coordinate system of one tile, usually within
/// `[0, EXTENT)` on both axes.
#[derive(Clone, Copy, Debug, PartialEq, Eq, Structural)]
pub struct TilePoint {
    pub x: i32,
    pub y: i32,
}

/// The geometry class of a feature.
#[derive(Clone, Copy, Debug, PartialEq, Eq, Structural)]
pub enum GeometryType {
    /// Isolated positions.
    Point,
    /// A connected run of segments.
    LineString,
    /// A closed ring, wound in the order its points are listed.
    Polygon,
}

/// One feature of a layer: its geometry and its key/value properties.
#[derive(Debug)]
pub struct Feature {
    pub geom_type: GeometryType,
    pub geometry: Vec<TilePoint>,
    pub properties: Vec<(String, String)>,
}

/// One named layer of a decoded tile.
#[derive(Debug)]
pub struct Layer {
    pub name: String,
    pub extent: u32,
    pub features: Vec<Feature>,
}

impl Layer {
    /// The layer's name as a character sequence, for contracts.
    pub open spec fn spec_name(&self) -> Seq<char> {
        self.name@
    }
}

/// A group of related geometry runs, such as the rings of one polygon or the
/// parts of one multi-line.
pub type GeometryCollection = Vec<Vec<TilePoint>>;

/// Feature data carried with its full geometry collection.
#[derive(Debug)]
pub struct VectorGeometryTileFeature {
    pub geometry: GeometryCollection,
}

} // verus!

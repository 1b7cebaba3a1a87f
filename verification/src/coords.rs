//! Utilities related to coordinates: zoom levels, tile grid addressing,
//! world-tile coordinates, quad keys and view regions.

use vstd::prelude::*;
use vstd::arithmetic::power2::{pow2, lemma_pow2_strictly_increases, lemma2_to64};
use vstd::bits::{lemma_u32_shl_is_mul, lemma_u32_shr_is_div};

verus! {

/// Width and height of the local coordinate system inside one tile.
pub const EXTENT_UINT: u32 = 4096;

/// Signed form of the tile-local extent.
pub const EXTENT_SINT: i32 = 4096;

/// Number of representable zoom levels: valid levels are `0 .. MAX_ZOOM`.
pub const MAX_ZOOM: usize = 32;

/// Convention for which vertical direction `y` increases in a tile grid.
#[derive(Clone, Copy, Debug, PartialEq, Eq, Structural)]
pub enum TileAddressingScheme {
    /// Slippy-map addressing: the origin is the upper-left corner.
    XYZ,
    /// TMS addressing: the origin is the lower-left corner.
    TMS,
}

/// Discrete grid resolution index, valid in `[0, MAX_ZOOM)`.
#[derive(Ord, PartialOrd, Eq, PartialEq, Hash, Copy, Clone, Debug, Structural)]
pub struct ZoomLevel(pub u8);

impl ZoomLevel {
    pub fn new(z: u8) -> (r: Self)
        ensures
            r.0 == z,
    {
        ZoomLevel(z)
    }

    /// Whether this is the root zoom level, whose grid is a single tile.
    pub fn is_root(self) -> (r: bool)
        ensures
            r == (self.0 == 0),
    {
        self.0 == 0
    }

    /// Moves `rhs` levels deeper; fails when the result leaves `[0, MAX_ZOOM)`.
    pub fn checked_add(self, rhs: u8) -> (r: Option<ZoomLevel>)
        ensures
            self.0 + rhs < MAX_ZOOM ==> r == Some(ZoomLevel((self.0 + rhs) as u8)),
            self.0 + rhs >= MAX_ZOOM ==> r is None,
    {
        if rhs < 32 && self.0 < 32 - rhs {
            Some(ZoomLevel(self.0 + rhs))
        } else {
            None
        }
    }

    /// Moves `rhs` levels shallower; fails when the result would go below the root.
    pub fn checked_sub(self, rhs: u8) -> (r: Option<ZoomLevel>)
        ensures
            self.0 >= rhs ==> r == Some(ZoomLevel((self.0 - rhs) as u8)),
            self.0 < rhs ==> r is None,
    {
        if self.0 >= rhs {
            Some(ZoomLevel(self.0 - rhs))
        } else {
            None
        }
    }
}

impl Default for ZoomLevel {
    fn default() -> (r: Self)
        ensures
            r.0 == 0,
    {
        ZoomLevel(0)
    }
}

impl From<u8> for ZoomLevel {
    fn from(zoom_level: u8) -> (r: Self)
        ensures
            r.0 == zoom_level,
    {
        ZoomLevel(zoom_level)
    }
}

impl vstd::std_specs::convert::FromSpecImpl<u8> for ZoomLevel {
    open spec fn obeys_from_spec() -> bool {
        true
    }

    open spec fn from_spec(zoom_level: u8) -> Self {
        ZoomLevel(zoom_level)
    }
}

/// The number of tiles per axis at zoom level `z`, as the mathematical `2^z`.
pub open spec fn grid_size(z: u8) -> nat {
    pow2(z as nat)
}

/// The number of tiles per axis at zoom level `z`; the executable form of the
/// precomputed power-of-two bounds table.
pub fn zoom_bound(z: ZoomLevel) -> (r: u32)
    requires
        z.0 < MAX_ZOOM,
    ensures
        r == grid_size(z.0),
        r <= 0x8000_0000u32,
{
    proof {
        lemma2_to64();
        if z.0 < 31 {
            lemma_pow2_strictly_increases(z.0 as nat, 31);
        }
        lemma_u32_shl_is_mul(1u32, z.0 as u32);
    }
    1u32 << (z.0 as u32)
}

/// The precomputed powers-of-two bound table: entry `i` holds the grid size
/// of zoom level `i`.
pub fn create_zoom_bounds(dim: usize) -> (r: Vec<u32>)
    requires
        dim <= MAX_ZOOM,
    ensures
        r@.len() == dim,
        forall|i: int| 0 <= i < dim ==> r@[i] == grid_size(i as u8),
{
    let mut result: Vec<u32> = Vec::new();
    let mut i: usize = 0;
    while i < dim
        invariant
            i <= dim <= MAX_ZOOM,
            result@.len() == i,
            forall|j: int| 0 <= j < i ==> result@[j] == grid_size(j as u8),
        decreases dim - i,
    {
        result.push(zoom_bound(ZoomLevel(i as u8)));
        i = i + 1;
    }
    result
}

/// Tile coordinates in the addressing scheme of a data source, also called
/// slippy-map tile names. Valid iff `x < 2^z` and `y < 2^z`.
#[derive(Clone, Copy, Debug, Hash, Eq, PartialEq, Structural)]
pub struct TileCoords {
    pub x: u32,
    pub y: u32,
    pub z: ZoomLevel,
}

/// Whether `(x, y)` addresses a tile that exists on the grid of level `z`.
pub open spec fn tile_in_bounds(x: u32, y: u32, z: u8) -> bool {
    (x as nat) < grid_size(z) && (y as nat) < grid_size(z)
}

/// The world tile a tile coordinate denotes, by scheme: XYZ is the identity,
/// TMS flips the vertical axis via `y' = 2^z - 1 - y`. `None` when the
/// coordinate exceeds the grid.
pub open spec fn spec_into_world_tile(t: TileCoords, scheme: TileAddressingScheme) -> Option<
    WorldTileCoords,
> {
    if !tile_in_bounds(t.x, t.y, t.z.0) {
        None
    } else {
        match scheme {
            TileAddressingScheme::XYZ => Some(
                WorldTileCoords { x: t.x as i32, y: t.y as i32, z: t.z },
            ),
            TileAddressingScheme::TMS => Some(
                WorldTileCoords {
                    x: t.x as i32,
                    y: (grid_size(t.z.0) - 1 - t.y) as i32,
                    z: t.z,
                },
            ),
        }
    }
}

impl TileCoords {
    /// Transforms tile coordinates as addressed by a source's scheme into the
    /// canonical world-tile representation. Returns `None` when this
    /// coordinate exceeds its bounds: there is no tile `x=5, y=5` at zoom
    /// level 0.
    pub fn into_world_tile(self, scheme: TileAddressingScheme) -> (r: Option<WorldTileCoords>)
        requires
            self.z.0 < MAX_ZOOM,
        ensures
            r == spec_into_world_tile(self, scheme),
            r is Some <==> tile_in_bounds(self.x, self.y, self.z.0),
    {
        let bounds = zoom_bound(self.z);
        if self.x >= bounds || self.y >= bounds {
            return None;
        }
        match scheme {
            TileAddressingScheme::XYZ => Some(
                WorldTileCoords { x: self.x as i32, y: self.y as i32, z: self.z },
            ),
            TileAddressingScheme::TMS => Some(
                WorldTileCoords { x: self.x as i32, y: (bounds - 1 - self.y) as i32, z: self.z },
            ),
        }
    }
}

impl From<(u32, u32, ZoomLevel)> for TileCoords {
    fn from(tuple: (u32, u32, ZoomLevel)) -> (r: Self)
        ensures
            r.x == tuple.0 && r.y == tuple.1 && r.z == tuple.2,
    {
        TileCoords { x: tuple.0, y: tuple.1, z: tuple.2 }
    }
}

impl vstd::std_specs::convert::FromSpecImpl<(u32, u32, ZoomLevel)> for TileCoords {
    open spec fn obeys_from_spec() -> bool {
        true
    }

    open spec fn from_spec(tuple: (u32, u32, ZoomLevel)) -> Self {
        TileCoords { x: tuple.0, y: tuple.1, z: tuple.2 }
    }
}

/// The canonical internal identity of a tile, always XYZ-oriented: the origin
/// is the upper-left corner and `y` grows downward. Signed so that positions
/// outside the grid are representable.
#[derive(Clone, Copy, Debug, PartialEq, Eq, PartialOrd, Ord, Hash, Structural)]
pub struct WorldTileCoords {
    pub x: i32,
    pub y: i32,
    pub z: ZoomLevel,
}

/// Whether a world tile coordinate lies on the grid of its zoom level.
pub open spec fn world_tile_in_bounds(w: WorldTileCoords) -> bool {
    0 <= w.x && (w.x as nat) < grid_size(w.z.0) && 0 <= w.y && (w.y as nat) < grid_size(w.z.0)
}

/// The tile coordinate a world tile maps to under a scheme; the inverse of
/// [`spec_into_world_tile`].
pub open spec fn spec_into_tile(w: WorldTileCoords, scheme: TileAddressingScheme) -> Option<
    TileCoords,
> {
    if !world_tile_in_bounds(w) {
        None
    } else {
        match scheme {
            TileAddressingScheme::XYZ => Some(
                TileCoords { x: w.x as u32, y: w.y as u32, z: w.z },
            ),
            TileAddressingScheme::TMS => Some(
                TileCoords { x: w.x as u32, y: (grid_size(w.z.0) - 1 - w.y) as u32, z: w.z },
            ),
        }
    }
}

impl WorldTileCoords {
    /// Returns the tile coordinate under an addressing scheme. Returns `None`
    /// when this coordinate exceeds its bounds: there is no tile `x=5, y=5`
    /// at zoom level 0.
    pub fn into_tile(self, scheme: TileAddressingScheme) -> (r: Option<TileCoords>)
        requires
            self.z.0 < MAX_ZOOM,
        ensures
            r == spec_into_tile(self, scheme),
            r is Some <==> world_tile_in_bounds(self),
    {
        let bounds = zoom_bound(self.z);
        if self.x < 0 || self.y < 0 {
            return None;
        }
        let x = self.x as u32;
        let y = self.y as u32;
        if x >= bounds || y >= bounds {
            return None;
        }
        match scheme {
            TileAddressingScheme::XYZ => Some(TileCoords { x, y, z: self.z }),
            TileAddressingScheme::TMS => Some(TileCoords { x, y: bounds - 1 - y, z: self.z }),
        }
    }
}

impl From<(i32, i32, ZoomLevel)> for WorldTileCoords {
    fn from(tuple: (i32, i32, ZoomLevel)) -> (r: Self)
        ensures
            r.x == tuple.0 && r.y == tuple.1 && r.z == tuple.2,
    {
        WorldTileCoords { x: tuple.0, y: tuple.1, z: tuple.2 }
    }
}

impl vstd::std_specs::convert::FromSpecImpl<(i32, i32, ZoomLevel)> for WorldTileCoords {
    open spec fn obeys_from_spec() -> bool {
        true
    }

    open spec fn from_spec(tuple: (i32, i32, ZoomLevel)) -> Self {
        WorldTileCoords { x: tuple.0, y: tuple.1, z: tuple.2 }
    }
}

/// Bit `k` of a nonnegative value.
pub open spec fn bit_of(v: nat, k: nat) -> nat {
    (v / pow2(k)) % 2
}

/// The 2-bit quadrant selector a tile picks at coordinate bit `k`: bit `k`
/// of `x` plus twice bit `k` of `y`.
pub open spec fn quad_selector(x: nat, y: nat, k: nat) -> nat {
    bit_of(x, k) + 2 * bit_of(y, k)
}

/// The position of a node within a quad tree. Entry 0 holds the encoded path
/// length (the node's zoom level); entries 1 onward hold the 2-bit quadrant
/// selectors of the subdivision steps from the root down to the node, so a
/// tile's encoded path extends its parent's by one entry.
#[derive(Clone, Copy, Debug)]
pub struct Quadkey(pub [ZoomLevel; 32]);

impl Quadkey {
    /// The number of encoded quadrant selectors, from the length prefix.
    pub open spec fn encoded_len(&self) -> int {
        self.0@[0].0 as int
    }

    /// Well-formed: the length prefix leaves every encoded entry inside the
    /// fixed-length array.
    pub open spec fn wf(&self) -> bool {
        self.encoded_len() < MAX_ZOOM
    }

    /// Whether every encoded level of the two keys matches up to the
    /// shorter key's length.
    pub open spec fn spec_prefix_matches(&self, other: &Quadkey) -> bool {
        forall|j: int|
            1 <= j <= self.encoded_len() && j <= other.encoded_len() ==> self.0@[j]
                == #[trigger] other.0@[j]
    }

    /// Builds a key from its encoded quadrant selectors, storing their count
    /// in the length prefix and zero-filling the remaining entries.
    pub fn new(quad_encoded: &[ZoomLevel]) -> (r: Self)
        requires
            quad_encoded@.len() < MAX_ZOOM,
        ensures
            r.wf(),
            r.0@.len() == MAX_ZOOM,
            r.0@[0].0 == quad_encoded@.len(),
            forall|i: int| 0 <= i < quad_encoded@.len() ==> r.0@[i + 1] == quad_encoded@[i],
            forall|i: int| quad_encoded@.len() < i < MAX_ZOOM ==> r.0@[i].0 == 0,
    {
        let mut key: [ZoomLevel; 32] = [ZoomLevel(0);32];
        let n = quad_encoded.len();
        key[0] = ZoomLevel(n as u8);
        let mut i: usize = 0;
        while i < n
            invariant
                n == quad_encoded@.len() < MAX_ZOOM,
                i <= n,
                key@.len() == MAX_ZOOM,
                key@[0].0 == n,
                forall|j: int| 0 <= j < i ==> key@[j + 1] == quad_encoded@[j],
                forall|j: int| i < j < MAX_ZOOM ==> key@[j].0 == 0,
            decreases n - i,
        {
            key[i + 1] = quad_encoded[i];
            i = i + 1;
        }
        Quadkey(key)
    }

    /// The ancestor/descendant test: two quad keys compare equal up to the
    /// shorter key's length iff every encoded level they share matches —
    /// the shorter key's node then lies on the path of the longer key's.
    /// This relation is not transitive, so it is a method of its own rather
    /// than the keys' `==`.
    pub fn prefix_matches(&self, other: &Quadkey) -> (r: bool)
        requires
            self.wf(),
            other.wf(),
        ensures
            r == self.spec_prefix_matches(other),
    {
        let len_self = self.0[0].0;
        let len_other = other.0[0].0;
        let shared = if len_self < len_other {
            len_self
        } else {
            len_other
        };
        let mut j: usize = 1;
        while j <= shared as usize
            invariant
                self.wf(),
                other.wf(),
                shared as int <= self.encoded_len() && shared as int <= other.encoded_len(),
                (self.encoded_len() <= other.encoded_len() ==> shared as int
                    == self.encoded_len()),
                (other.encoded_len() <= self.encoded_len() ==> shared as int
                    == other.encoded_len()),
                1 <= j <= shared + 1,
                forall|i: int| 1 <= i < j ==> self.0@[i] == #[trigger] other.0@[i],
            decreases shared + 1 - j,
        {
            if self.0[j].0 != other.0[j].0 {
                return false;
            }
            j = j + 1;
        }
        true
    }
}

impl PartialEq for Quadkey {
    /// Value equality: the length prefix and every entry match. Two keys of
    /// different encoded lengths are never `==`, even when one's path is a
    /// prefix of the other's; the ancestor/descendant comparison is
    /// [`Quadkey::prefix_matches`].
    fn eq(&self, other: &Self) -> (r: bool) {
        let mut i: usize = 0;
        while i < 32
            invariant
                i <= 32,
                self.0@.len() == 32,
                other.0@.len() == 32,
                forall|j: int| 0 <= j < i ==> self.0@[j] == other.0@[j],
            decreases 32 - i,
        {
            if self.0[i].0 != other.0[i].0 {
                return false;
            }
            i = i + 1;
        }
        proof {
            assert(self.0@ =~= other.0@);
        }
        true
    }
}

impl Eq for Quadkey {

}

impl vstd::std_specs::cmp::PartialEqSpecImpl for Quadkey {
    open spec fn obeys_eq_spec() -> bool {
        true
    }

    open spec fn eq_spec(&self, other: &Self) -> bool {
        self.0@ == other.0@
    }
}

/// Floor division by two, the step from a tile to its parent's coordinate.
pub open spec fn half_floor(x: int) -> int {
    x / 2
}

/// The four children of a world tile, one zoom level deeper, in the fixed
/// order NW, NE, SE, SW.
pub open spec fn spec_children(w: WorldTileCoords) -> Seq<WorldTileCoords> {
    seq![
        WorldTileCoords { x: (2 * w.x) as i32, y: (2 * w.y) as i32, z: ZoomLevel((w.z.0 + 1) as u8) },
        WorldTileCoords {
            x: (2 * w.x + 1) as i32,
            y: (2 * w.y) as i32,
            z: ZoomLevel((w.z.0 + 1) as u8),
        },
        WorldTileCoords {
            x: (2 * w.x + 1) as i32,
            y: (2 * w.y + 1) as i32,
            z: ZoomLevel((w.z.0 + 1) as u8),
        },
        WorldTileCoords {
            x: (2 * w.x) as i32,
            y: (2 * w.y + 1) as i32,
            z: ZoomLevel((w.z.0 + 1) as u8),
        },
    ]
}

/// The tile one zoom level shallower that contains this one; `None` at the
/// root, which has no parent.
pub open spec fn spec_parent(w: WorldTileCoords) -> Option<WorldTileCoords> {
    if w.z.0 == 0 {
        None
    } else {
        Some(
            WorldTileCoords {
                x: half_floor(w.x as int) as i32,
                y: half_floor(w.y as int) as i32,
                z: ZoomLevel((w.z.0 - 1) as u8),
            },
        )
    }
}

/// Floor division of an `i32` by two, without overflow anywhere in range.
fn div2_floor(x: i32) -> (r: i32)
    ensures
        r as int == half_floor(x as int),
{
    if x >= 0 {
        let q = (x as u32) / 2;
        proof {
            assert(q as int == half_floor(x as int));
        }
        q as i32
    } else {
        let m = (-(x as i64)) as u32;
        let q = (m + 1) / 2;
        let r = -(q as i64);
        proof {
            let xi = x as int;
            let qi = r as int;
            vstd::arithmetic::div_mod::lemma_fundamental_div_mod_converse(
                xi,
                2,
                qi,
                xi - 2 * qi,
            );
        }
        r as i32
    }
}

impl WorldTileCoords {
    /// Anchors this coordinate to the 2x2-aligned tile raster that contains
    /// it, keeping the upper-left member of the raster.
    pub fn into_aligned(self) -> (r: AlignedWorldTileCoords)
        ensures
            r.0.x as int == 2 * half_floor(self.x as int),
            r.0.y as int == 2 * half_floor(self.y as int),
            r.0.z == self.z,
    {
        let x2 = div2_floor(self.x);
        let y2 = div2_floor(self.y);
        AlignedWorldTileCoords(WorldTileCoords { x: x2 * 2, y: y2 * 2, z: self.z })
    }

    /// Encodes the path from the root tile down to this tile, one 2-bit
    /// quadrant selector per zoom level from the root first, prefixed by
    /// the path length: entry `j` selects by coordinate bit `z - j`.
    /// Returns `None` when this coordinate exceeds its grid.
    pub fn build_quad_key(&self) -> (r: Option<Quadkey>)
        requires
            self.z.0 < MAX_ZOOM,
        ensures
            r is Some <==> world_tile_in_bounds(*self),
            r matches Some(k) ==> {
                &&& k.wf()
                &&& k.0@.len() == MAX_ZOOM
                &&& k.0@[0].0 == self.z.0
                &&& forall|j: int|
                    1 <= j <= self.z.0 ==> k.0@[j].0 as nat == quad_selector(
                        self.x as nat,
                        self.y as nat,
                        (self.z.0 - j) as nat,
                    )
                &&& forall|j: int| self.z.0 < j < MAX_ZOOM ==> k.0@[j].0 == 0
            },
    {
        let bounds = zoom_bound(self.z);
        if self.x < 0 || self.y < 0 {
            return None;
        }
        let ux = self.x as u32;
        let uy = self.y as u32;
        if ux >= bounds || uy >= bounds {
            return None;
        }
        let mut key: [ZoomLevel; 32] = [ZoomLevel(0);32];
        key[0] = self.z;
        let mut j: u8 = 1;
        while j <= self.z.0
            invariant
                self.z.0 < MAX_ZOOM,
                self.x >= 0 && self.y >= 0,
                ux as int == self.x as int,
                uy as int == self.y as int,
                1 <= j <= self.z.0 + 1,
                key@.len() == MAX_ZOOM,
                key@[0].0 == self.z.0,
                forall|i: int|
                    1 <= i < j ==> key@[i].0 as nat == quad_selector(
                        ux as nat,
                        uy as nat,
                        (self.z.0 - i) as nat,
                    ),
                forall|i: int| j <= i < MAX_ZOOM ==> key@[i].0 == 0,
            decreases self.z.0 + 1 - j,
        {
            let k = (self.z.0 - j) as u32;
            let bx = (ux >> k) & 1;
            let by = (uy >> k) & 1;
            proof {
                lemma_u32_shr_is_div(ux, k);
                lemma_u32_shr_is_div(uy, k);
                assert(((ux >> k) & 1) == (ux >> k) % 2) by (bit_vector);
                assert(((uy >> k) & 1) == (uy >> k) % 2) by (bit_vector);
            }
            let b = (bx + 2 * by) as u8;
            key[j as usize] = ZoomLevel(b);
            j = j + 1;
        }
        Some(Quadkey(key))
    }

    /// The four tiles covering this tile one zoom level deeper, in the fixed
    /// order NW, NE, SE, SW.
    pub fn get_children(&self) -> (r: [WorldTileCoords; 4])
        requires
            self.z.0 + 1 < MAX_ZOOM,
            -0x4000_0000 <= self.x < 0x4000_0000,
            -0x4000_0000 <= self.y < 0x4000_0000,
        ensures
            r@ == spec_children(*self),
    {
        let child_z = ZoomLevel(self.z.0 + 1);
        let r = [
            WorldTileCoords { x: self.x * 2, y: self.y * 2, z: child_z },
            WorldTileCoords { x: self.x * 2 + 1, y: self.y * 2, z: child_z },
            WorldTileCoords { x: self.x * 2 + 1, y: self.y * 2 + 1, z: child_z },
            WorldTileCoords { x: self.x * 2, y: self.y * 2 + 1, z: child_z },
        ];
        proof {
            assert(r@ =~= spec_children(*self));
        }
        r
    }

    /// The tile one zoom level shallower that contains this one. Returns
    /// `None` for a root-zoom tile: the root has no parent.
    pub fn get_parent(&self) -> (r: Option<WorldTileCoords>)
        ensures
            r == spec_parent(*self),
            r is None <==> self.z.0 == 0,
    {
        if self.z.0 == 0 {
            return None;
        }
        Some(
            WorldTileCoords {
                x: div2_floor(self.x),
                y: div2_floor(self.y),
                z: ZoomLevel(self.z.0 - 1),
            },
        )
    }
}

/// Each child returned by [`WorldTileCoords::get_children`] has the original
/// tile as its parent, and the root tile has no parent.
pub proof fn lemma_children_parent(w: WorldTileCoords)
    requires
        w.z.0 + 1 < MAX_ZOOM,
        -0x4000_0000 <= w.x < 0x4000_0000,
        -0x4000_0000 <= w.y < 0x4000_0000,
    ensures
        forall|i: int|
            0 <= i < 4 ==> #[trigger] spec_parent(spec_children(w)[i]) == Some(w),
        w.z.0 == 0 ==> spec_parent(w) is None,
{
    let x = w.x as int;
    let y = w.y as int;
    vstd::arithmetic::div_mod::lemma_fundamental_div_mod_converse(2 * x, 2, x, 0);
    vstd::arithmetic::div_mod::lemma_fundamental_div_mod_converse(2 * x + 1, 2, x, 1);
    vstd::arithmetic::div_mod::lemma_fundamental_div_mod_converse(2 * y, 2, y, 0);
    vstd::arithmetic::div_mod::lemma_fundamental_div_mod_converse(2 * y + 1, 2, y, 1);
    assert forall|i: int| 0 <= i < 4 implies #[trigger] spec_parent(spec_children(w)[i])
        == Some(w) by {
        assert(spec_children(w)[i].z.0 == w.z.0 + 1);
    }
}

/// A tile's quad key and its parent's quad key share the same encoded
/// prefix up to the parent's length: at every encoded level of the parent,
/// the parent's quadrant selector (entry `j`, bit `parent.z - j`) equals the
/// tile's (entry `j`, bit `tile.z - j`). A built parent key therefore
/// prefix-matches the tile's built key.
pub proof fn lemma_quad_key_parent_prefix(w: WorldTileCoords)
    requires
        1 <= w.z.0 < MAX_ZOOM,
        world_tile_in_bounds(w),
    ensures
        spec_parent(w) is Some,
        forall|j: int|
            1 <= j <= w.z.0 - 1 ==> #[trigger] quad_selector(
                spec_parent(w)->Some_0.x as nat,
                spec_parent(w)->Some_0.y as nat,
                (w.z.0 - 1 - j) as nat,
            ) == quad_selector(w.x as nat, w.y as nat, (w.z.0 - j) as nat),
{
    let p = spec_parent(w)->Some_0;
    assert forall|j: int| 1 <= j <= w.z.0 - 1 implies #[trigger] quad_selector(
        p.x as nat,
        p.y as nat,
        (w.z.0 - 1 - j) as nat,
    ) == quad_selector(w.x as nat, w.y as nat, (w.z.0 - j) as nat) by {
        let k = (w.z.0 - 1 - j) as nat;
        vstd::arithmetic::power2::lemma_pow2_pos(k);
        vstd::arithmetic::power2::lemma_pow2_adds(1, k);
        vstd::arithmetic::power2::lemma2_to64();
        vstd::arithmetic::div_mod::lemma_div_denominator(w.x as int, 2, pow2(k) as int);
        vstd::arithmetic::div_mod::lemma_div_denominator(w.y as int, 2, pow2(k) as int);
        assert(p.x as int == (w.x as int) / 2);
        assert(bit_of(p.x as nat, k) == bit_of(w.x as nat, (k + 1) as nat));
        assert(bit_of(p.y as nat, k) == bit_of(w.y as nat, (k + 1) as nat));
    }
}

/// An aligned world tile coordinate anchors a world coordinate to a 2x2 tile
/// raster; it is identified by the upper-left tile of the raster.
pub struct AlignedWorldTileCoords(pub WorldTileCoords);

impl AlignedWorldTileCoords {
    /// The upper-left tile of the 2x2 raster.
    pub fn upper_left(self) -> (r: WorldTileCoords)
        ensures
            r == self.0,
    {
        self.0
    }

    /// The tile to the right of the upper-left tile.
    pub fn upper_right(&self) -> (r: WorldTileCoords)
        requires
            self.0.x < i32::MAX,
        ensures
            r.x == self.0.x + 1 && r.y == self.0.y && r.z == self.0.z,
    {
        WorldTileCoords { x: self.0.x + 1, y: self.0.y, z: self.0.z }
    }

    /// The tile below the upper-left tile: the origin is the upper-left
    /// corner and `y` grows downward.
    pub fn lower_left(&self) -> (r: WorldTileCoords)
        requires
            self.0.y < i32::MAX,
        ensures
            r.x == self.0.x && r.y == self.0.y + 1 && r.z == self.0.z,
    {
        WorldTileCoords { x: self.0.x, y: self.0.y + 1, z: self.0.z }
    }

    /// The tile diagonally right and below the upper-left tile.
    pub fn lower_right(&self) -> (r: WorldTileCoords)
        requires
            self.0.x < i32::MAX,
            self.0.y < i32::MAX,
        ensures
            r.x == self.0.x + 1 && r.y == self.0.y + 1 && r.z == self.0.z,
    {
        WorldTileCoords { x: self.0.x + 1, y: self.0.y + 1, z: self.0.z }
    }
}

/// A rectangle of world tiles at a fixed zoom level, expanded by an integer
/// padding (in tile units) on all sides. Enumerating the covered tiles and
/// testing membership are derived from the same bound computation, so the
/// two can never disagree.
#[derive(Debug)]
pub struct ViewRegion {
    pub min_tile: WorldTileCoords,
    pub max_tile: WorldTileCoords,
    pub z: ZoomLevel,
    pub padding: i32,
}

impl ViewRegion {
    /// Leftmost covered column (inclusive).
    pub open spec fn x_lo(&self) -> int {
        self.min_tile.x - self.padding
    }

    /// First column right of the covered ones (exclusive).
    pub open spec fn x_hi(&self) -> int {
        self.max_tile.x + self.padding + 1
    }

    /// Topmost covered row (inclusive).
    pub open spec fn y_lo(&self) -> int {
        self.min_tile.y - self.padding
    }

    /// First row below the covered ones (exclusive).
    pub open spec fn y_hi(&self) -> int {
        self.max_tile.y + self.padding + 1
    }

    /// Number of covered columns.
    pub open spec fn width_x(&self) -> int {
        if self.x_hi() > self.x_lo() {
            self.x_hi() - self.x_lo()
        } else {
            0
        }
    }

    /// Number of covered rows.
    pub open spec fn width_y(&self) -> int {
        if self.y_hi() > self.y_lo() {
            self.y_hi() - self.y_lo()
        } else {
            0
        }
    }

    /// Number of tiles the region covers.
    pub open spec fn tile_count(&self) -> int {
        self.width_x() * self.width_y()
    }

    /// Well-formed: the padding is nonnegative and the padded bounds stay
    /// representable.
    pub open spec fn wf(&self) -> bool {
        &&& 0 <= self.padding
        &&& i32::MIN <= self.x_lo()
        &&& self.x_hi() <= i32::MAX
        &&& i32::MIN <= self.y_lo()
        &&& self.y_hi() <= i32::MAX
    }

    /// Whether a coordinate lies within the padded bounds at this region's
    /// zoom level.
    pub open spec fn spec_is_in_view(&self, c: WorldTileCoords) -> bool {
        &&& self.x_lo() <= c.x < self.x_hi()
        &&& self.y_lo() <= c.y < self.y_hi()
        &&& c.z == self.z
    }

    /// The `k`-th coordinate of the enumeration, column by column.
    pub open spec fn tile_at(&self, k: int) -> WorldTileCoords {
        WorldTileCoords {
            x: (self.x_lo() + k / self.width_y()) as i32,
            y: (self.y_lo() + k % self.width_y()) as i32,
            z: self.z,
        }
    }

    /// Builds the region covering `min_tile ..= max_tile`, expanded by
    /// `padding` tiles on all sides, at zoom level `z`.
    pub fn new(
        min_tile: WorldTileCoords,
        max_tile: WorldTileCoords,
        padding: i32,
        z: ZoomLevel,
    ) -> (r: ViewRegion)
        requires
            0 <= padding,
            i32::MIN + padding <= min_tile.x,
            i32::MIN + padding <= min_tile.y,
            max_tile.x + padding + 1 <= i32::MAX,
            max_tile.y + padding + 1 <= i32::MAX,
        ensures
            r.min_tile == min_tile,
            r.max_tile == max_tile,
            r.z == z,
            r.padding == padding,
            r.wf(),
    {
        ViewRegion { min_tile, max_tile, z, padding }
    }

    /// The zoom level whose grid the region's tiles address.
    pub fn zoom_level(&self) -> (r: ZoomLevel)
        ensures
            r == self.z,
    {
        self.z
    }

    /// Whether a coordinate lies within the padded bounds at this region's
    /// zoom level; agrees exactly with the sequence [`ViewRegion::iter`]
    /// enumerates.
    pub fn is_in_view(&self, world_coords: &WorldTileCoords) -> (r: bool)
        requires
            self.wf(),
        ensures
            r == self.spec_is_in_view(*world_coords),
    {
        world_coords.x <= self.max_tile.x + self.padding && world_coords.y <= self.max_tile.y
            + self.padding && world_coords.x >= self.min_tile.x - self.padding && world_coords.y
            >= self.min_tile.y - self.padding && world_coords.z.0 == self.z.0
    }

    /// Enumerates every coordinate the region covers, column by column, in a
    /// finite restartable sequence of `width_x * width_y` tiles.
    pub fn iter(&self) -> (r: Vec<WorldTileCoords>)
        requires
            self.wf(),
        ensures
            r@.len() == self.tile_count(),
            forall|k: int| 0 <= k < r@.len() ==> r@[k] == self.tile_at(k),
    {
        let x_lo = self.min_tile.x - self.padding;
        let x_hi = self.max_tile.x + self.padding + 1;
        let y_lo = self.min_tile.y - self.padding;
        let y_hi = self.max_tile.y + self.padding + 1;
        let mut out: Vec<WorldTileCoords> = Vec::new();
        if x_hi <= x_lo || y_hi <= y_lo {
            return out;
        }
        let ghost w: int = self.width_y();
        let mut x = x_lo;
        while x < x_hi
            invariant
                self.wf(),
                x_lo as int == self.x_lo(),
                x_hi as int == self.x_hi(),
                y_lo as int == self.y_lo(),
                y_hi as int == self.y_hi(),
                x_lo < x_hi,
                y_lo < y_hi,
                w == self.width_y(),
                x_lo <= x <= x_hi,
                out@.len() == (x - x_lo) * w,
                forall|k: int| 0 <= k < out@.len() ==> out@[k] == self.tile_at(k),
            decreases x_hi - x,
        {
            let mut y = y_lo;
            while y < y_hi
                invariant
                    self.wf(),
                    x_lo as int == self.x_lo(),
                    x_hi as int == self.x_hi(),
                    y_lo as int == self.y_lo(),
                    y_hi as int == self.y_hi(),
                    x_lo < x_hi,
                    y_lo < y_hi,
                    w == self.width_y(),
                    x_lo <= x < x_hi,
                    y_lo <= y <= y_hi,
                    out@.len() == (x - x_lo) * w + (y - y_lo),
                    forall|k: int| 0 <= k < out@.len() ==> out@[k] == self.tile_at(k),
                decreases y_hi - y,
            {
                proof {
                    let k = (x - x_lo) * w + (y - y_lo);
                    vstd::arithmetic::div_mod::lemma_fundamental_div_mod_converse(
                        k,
                        w,
                        (x - x_lo) as int,
                        (y - y_lo) as int,
                    );
                    assert(self.tile_at(k) == WorldTileCoords { x, y, z: self.z });
                }
                out.push(WorldTileCoords { x, y, z: self.z });
                y = y + 1;
            }
            x = x + 1;
            proof {
                vstd::arithmetic::mul::lemma_mul_is_distributive_add_other_way(
                    w,
                    (x - x_lo - 1) as int,
                    1,
                );
            }
        }
        out
    }
}

/// The enumeration of a view region and its membership test agree: a
/// coordinate is covered by some position of the enumerated sequence exactly
/// when `is_in_view` accepts it.
pub proof fn lemma_view_region_agreement(region: ViewRegion, c: WorldTileCoords)
    requires
        region.wf(),
    ensures
        region.spec_is_in_view(c) <==> exists|k: int|
            0 <= k < region.tile_count() && region.tile_at(k) == c,
{
    let w = region.width_y();
    let wx = region.width_x();
    if region.spec_is_in_view(c) {
        let k = (c.x - region.x_lo()) * w + (c.y - region.y_lo());
        vstd::arithmetic::div_mod::lemma_fundamental_div_mod_converse(
            k,
            w,
            (c.x - region.x_lo()) as int,
            (c.y - region.y_lo()) as int,
        );
        assert(region.tile_at(k) == c);
        vstd::arithmetic::mul::lemma_mul_inequality(c.x - region.x_lo() + 1, wx, w);
        vstd::arithmetic::mul::lemma_mul_is_distributive_add_other_way(
            w,
            (c.x - region.x_lo()) as int,
            1,
        );
        assert(0 <= k < region.tile_count());
    }
    if exists|k: int| 0 <= k < region.tile_count() && region.tile_at(k) == c {
        let k = choose|k: int| 0 <= k < region.tile_count() && region.tile_at(k) == c;
        assert(w > 0 && wx > 0) by {
            vstd::arithmetic::mul::lemma_mul_nonnegative(wx, w);
        }
        vstd::arithmetic::div_mod::lemma_fundamental_div_mod(k, w);
        vstd::arithmetic::div_mod::lemma_div_pos_is_pos(k, w);
        vstd::arithmetic::div_mod::lemma_mod_bound(k, w);
        assert(k / w < wx) by {
            if k / w >= wx {
                vstd::arithmetic::mul::lemma_mul_inequality(wx, k / w, w);
            }
        }
        assert(region.spec_is_in_view(c));
    }
}

/// Round trip: a tile coordinate that is on its grid converts to a world
/// tile and back to exactly itself, under either addressing scheme.
pub proof fn lemma_tile_world_round_trip(t: TileCoords, scheme: TileAddressingScheme)
    requires
        t.z.0 < MAX_ZOOM,
        tile_in_bounds(t.x, t.y, t.z.0),
    ensures
        spec_into_world_tile(t, scheme) matches Some(w) && spec_into_tile(w, scheme) == Some(t),
{
    lemma2_to64();
    if t.z.0 < 31 {
        lemma_pow2_strictly_increases(t.z.0 as nat, 31);
    }
    let w = spec_into_world_tile(t, scheme)->Some_0;
    assert(world_tile_in_bounds(w));
    assert(spec_into_tile(w, scheme) == Some(t));
}

/// Round trip in the other direction: a world tile on its grid converts to a
/// tile coordinate and back to exactly itself, under either scheme.
pub proof fn lemma_world_tile_round_trip(w: WorldTileCoords, scheme: TileAddressingScheme)
    requires
        w.z.0 < MAX_ZOOM,
        world_tile_in_bounds(w),
    ensures
        spec_into_tile(w, scheme) matches Some(t) && spec_into_world_tile(t, scheme) == Some(w),
{
    lemma2_to64();
    if w.z.0 < 31 {
        lemma_pow2_strictly_increases(w.z.0 as nat, 31);
    }
    let t = spec_into_tile(w, scheme)->Some_0;
    assert(tile_in_bounds(t.x, t.y, t.z.0));
    assert(spec_into_world_tile(t, scheme) == Some(w));
}

} // verus!



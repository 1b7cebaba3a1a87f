//! Decoding of the raw tile byte format: a length-prefixed binary container
//! of named layers, each holding typed geometry and per-feature key/value
//! properties.
//!
//! Layout, all integers little-endian: a 16-bit layer count, then per layer
//! a 16-bit name length and that many ASCII name bytes, a 32-bit extent, a
//! 16-bit feature count, and the features; per feature one geometry-type
//! byte (1 point, 2 line string, 3 polygon), a 16-bit point count, the
//! points as pairs of signed 32-bit coordinates, a 16-bit property count,
//! and the properties as length-prefixed ASCII key/value pairs. A container
//! that deviates anywhere — truncated, an unknown geometry type, a
//! non-ASCII string, trailing bytes — is rejected as a whole; the pipeline
//! then reports the requested layers as unavailable rather than failing.

use vstd::prelude::*;
use crate::layer::{Feature, GeometryType, Layer, TilePoint};

verus! {

/// The 16-bit little-endian value at position `p`.
pub open spec fn spec_u16(b: Seq<u8>, p: int) -> int {
    b[p] + 256 * b[p + 1]
}

/// The 32-bit little-endian value at position `p`.
pub open spec fn spec_u32(b: Seq<u8>, p: int) -> int {
    b[p] + 256 * b[p + 1] + 0x1_0000 * b[p + 2] + 0x100_0000 * b[p + 3]
}

/// The 32-bit little-endian two's-complement value at position `p`.
pub open spec fn spec_i32(b: Seq<u8>, p: int) -> int {
    if spec_u32(b, p) >= 0x8000_0000 {
        spec_u32(b, p) - 0x1_0000_0000
    } else {
        spec_u32(b, p)
    }
}

/// The mathematical form of one decoded feature.
pub struct FeatureModel {
    pub geom_type: GeometryType,
    pub geometry: Seq<TilePoint>,
    pub properties: Seq<(Seq<char>, Seq<char>)>,
}

/// The mathematical form of one decoded layer.
pub struct LayerModel {
    pub name: Seq<char>,
    pub extent: u32,
    pub features: Seq<FeatureModel>,
}

/// The mathematical form of a decoded feature value.
pub open spec fn feature_model(f: Feature) -> FeatureModel {
    FeatureModel {
        geom_type: f.geom_type,
        geometry: f.geometry@,
        properties: f.properties@.map_values(|p: (String, String)| (p.0@, p.1@)),
    }
}

/// The mathematical form of a decoded layer value.
pub open spec fn layer_model(l: Layer) -> LayerModel {
    LayerModel { name: l.name@, extent: l.extent, features: l.features@.map_values(|f: Feature| feature_model(f)) }
}

/// The mathematical form of a run of decoded layers.
pub open spec fn layers_model(ls: Seq<Layer>) -> Seq<LayerModel> {
    ls.map_values(|l: Layer| layer_model(l))
}

/// Reads `n` ASCII bytes at `p` as characters; fails on truncation or on
/// any byte outside the ASCII range.
pub open spec fn spec_parse_ascii(b: Seq<u8>, p: int, n: int) -> Option<(Seq<char>, int)> {
    if n < 0 || p < 0 || p + n > b.len() {
        None
    } else if exists|k: int| p <= k < p + n && b[k] >= 0x80 {
        None
    } else {
        Some((Seq::new(n as nat, |k: int| b[p + k] as char), p + n))
    }
}

/// Reads `n` coordinate pairs starting at `p`.
pub open spec fn spec_parse_points(b: Seq<u8>, p: int, n: int) -> Option<(Seq<TilePoint>, int)>
    decreases n,
{
    if n <= 0 || p < 0 {
        if n == 0 && 0 <= p <= b.len() {
            Some((Seq::empty(), p))
        } else {
            None
        }
    } else if p + 8 > b.len() {
        None
    } else {
        let pt = TilePoint { x: spec_i32(b, p) as i32, y: spec_i32(b, p + 4) as i32 };
        match spec_parse_points(b, p + 8, n - 1) {
            None => None,
            Some((rest, end)) => Some((seq![pt] + rest, end)),
        }
    }
}

/// Reads one length-prefixed ASCII key/value pair starting at `p`.
pub open spec fn spec_parse_prop(b: Seq<u8>, p: int) -> Option<((Seq<char>, Seq<char>), int)> {
    if p < 0 || p + 2 > b.len() {
        None
    } else {
        match spec_parse_ascii(b, p + 2, spec_u16(b, p)) {
            None => None,
            Some((key, p2)) => if p2 + 2 > b.len() {
                None
            } else {
                match spec_parse_ascii(b, p2 + 2, spec_u16(b, p2)) {
                    None => None,
                    Some((value, p3)) => Some(((key, value), p3)),
                }
            },
        }
    }
}

/// Reads `n` key/value pairs starting at `p`.
pub open spec fn spec_parse_props(b: Seq<u8>, p: int, n: int) -> Option<
    (Seq<(Seq<char>, Seq<char>)>, int),
>
    decreases n,
{
    if n <= 0 || p < 0 {
        if n == 0 && 0 <= p <= b.len() {
            Some((Seq::empty(), p))
        } else {
            None
        }
    } else {
        match spec_parse_prop(b, p) {
            None => None,
            Some((pair, p2)) => match spec_parse_props(b, p2, n - 1) {
                None => None,
                Some((rest, end)) => Some((seq![pair] + rest, end)),
            },
        }
    }
}

/// Reads one feature starting at `p`: geometry-type byte, point count,
/// points, property count, properties.
pub open spec fn spec_parse_feature(b: Seq<u8>, p: int) -> Option<(FeatureModel, int)> {
    if p < 0 || p + 3 > b.len() {
        None
    } else if b[p] != 1 && b[p] != 2 && b[p] != 3 {
        None
    } else {
        let gt = if b[p] == 1 {
            GeometryType::Point
        } else if b[p] == 2 {
            GeometryType::LineString
        } else {
            GeometryType::Polygon
        };
        match spec_parse_points(b, p + 3, spec_u16(b, p + 1)) {
            None => None,
            Some((pts, p2)) => if p2 + 2 > b.len() {
                None
            } else {
                match spec_parse_props(b, p2 + 2, spec_u16(b, p2)) {
                    None => None,
                    Some((props, end)) => Some(
                        (FeatureModel { geom_type: gt, geometry: pts, properties: props }, end),
                    ),
                }
            },
        }
    }
}

/// Reads `n` features starting at `p`.
pub open spec fn spec_parse_features(b: Seq<u8>, p: int, n: int) -> Option<
    (Seq<FeatureModel>, int),
>
    decreases n,
{
    if n <= 0 || p < 0 {
        if n == 0 && 0 <= p <= b.len() {
            Some((Seq::empty(), p))
        } else {
            None
        }
    } else {
        match spec_parse_feature(b, p) {
            None => None,
            Some((f, p2)) => match spec_parse_features(b, p2, n - 1) {
                None => None,
                Some((rest, end)) => Some((seq![f] + rest, end)),
            },
        }
    }
}

/// Reads one layer starting at `p`: name length, ASCII name, extent,
/// feature count, features.
pub open spec fn spec_parse_layer(b: Seq<u8>, p: int) -> Option<(LayerModel, int)> {
    if p < 0 || p + 2 > b.len() {
        None
    } else {
        match spec_parse_ascii(b, p + 2, spec_u16(b, p)) {
            None => None,
            Some((name, p2)) => if p2 + 6 > b.len() {
                None
            } else {
                match spec_parse_features(b, p2 + 6, spec_u16(b, p2 + 4)) {
                    None => None,
                    Some((fs, end)) => Some(
                        (
                            LayerModel {
                                name,
                                extent: spec_u32(b, p2) as u32,
                                features: fs,
                            },
                            end,
                        ),
                    ),
                }
            },
        }
    }
}

/// Reads `n` layers starting at `p`.
pub open spec fn spec_parse_layers(b: Seq<u8>, p: int, n: int) -> Option<(Seq<LayerModel>, int)>
    decreases n,
{
    if n <= 0 || p < 0 {
        if n == 0 && 0 <= p <= b.len() {
            Some((Seq::empty(), p))
        } else {
            None
        }
    } else {
        match spec_parse_layer(b, p) {
            None => None,
            Some((l, p2)) => match spec_parse_layers(b, p2, n - 1) {
                None => None,
                Some((rest, end)) => Some((seq![l] + rest, end)),
            },
        }
    }
}

/// Decodes a whole container: layer count, the layers, and nothing after
/// them. `None` on any deviation.
pub open spec fn spec_parse_tile(b: Seq<u8>) -> Option<Seq<LayerModel>> {
    if b.len() < 2 {
        None
    } else {
        match spec_parse_layers(b, 2, spec_u16(b, 0)) {
            None => None,
            Some((ls, end)) => if end == b.len() {
                Some(ls)
            } else {
                None
            },
        }
    }
}

/// Reads the 16-bit little-endian value at `p`.
fn read_u16(b: &Vec<u8>, p: usize) -> (r: u16)
    requires
        p + 2 <= b@.len(),
    ensures
        r == spec_u16(b@, p as int),
{
    let n = b.len();
    proof {
        assert(p + 2 <= n);
    }
    b[p] as u16 + 256 * (b[p + 1] as u16)
}

/// Reads the 32-bit little-endian value at `p`.
fn read_u32(b: &Vec<u8>, p: usize) -> (r: u32)
    requires
        p + 4 <= b@.len(),
    ensures
        r == spec_u32(b@, p as int),
{
    let n = b.len();
    proof {
        assert(p + 4 <= n);
    }
    b[p] as u32 + 256 * (b[p + 1] as u32) + 0x1_0000 * (b[p + 2] as u32) + 0x100_0000 * (
    b[p + 3] as u32)
}

/// Reads the 32-bit little-endian two's-complement value at `p`.
fn read_i32(b: &Vec<u8>, p: usize) -> (r: i32)
    requires
        p + 4 <= b@.len(),
    ensures
        r as int == spec_i32(b@, p as int),
{
    let u = read_u32(b, p);
    if u >= 0x8000_0000 {
        ((u as i64) - 0x1_0000_0000i64) as i32
    } else {
        u as i32
    }
}

/// Reads `n` ASCII bytes at `p` as a string.
fn parse_ascii(b: &Vec<u8>, p: usize, n: usize) -> (r: Option<(String, usize)>)
    ensures
        r is Some <==> spec_parse_ascii(b@, p as int, n as int) is Some,
        r matches Some((s, q)) ==> spec_parse_ascii(b@, p as int, n as int) == Some(
            (s@, q as int),
        )
            && p <= q <= b@.len(),
{
    let total = b.len();
    if p > total || n > total - p {
        return None;
    }
    let mut chars: Vec<char> = Vec::new();
    let mut k: usize = 0;
    while k < n
        invariant
            total == b@.len(),
            p + n <= total,
            k <= n,
            chars@.len() == k,
            forall|j: int| 0 <= j < k ==> chars@[j] == b@[p + j] as char,
            forall|j: int| p <= j < p + k ==> b@[j] < 0x80,
        decreases n - k,
    {
        let byte = b[p + k];
        if byte >= 0x80 {
            proof {
                assert(b@[p + k as int] >= 0x80);
            }
            return None;
        }
        chars.push(byte as char);
        k = k + 1;
    }
    let s = crate::text::string_of_chars(chars);
    proof {
        assert(s@ =~= Seq::new(n as nat, |j: int| b@[p + j] as char));
    }
    Some((s, p + n))
}

/// Reads `n` coordinate pairs at `p`.
fn parse_points(b: &Vec<u8>, p: usize, n: usize) -> (r: Option<(Vec<TilePoint>, usize)>)
    requires
        p <= b@.len(),
    ensures
        r is Some <==> spec_parse_points(b@, p as int, n as int) is Some,
        r matches Some((pts, q)) ==> spec_parse_points(b@, p as int, n as int) == Some(
            (pts@, q as int),
        )
            && p <= q <= b@.len(),
{
    let mut acc: Vec<TilePoint> = Vec::new();
    let mut pos: usize = p;
    let mut k: usize = 0;
    while k < n
        invariant
            k <= n,
            p <= pos <= b@.len(),
            acc@.len() == k,
            spec_parse_points(b@, pos as int, (n - k) as int) is None ==> spec_parse_points(
                b@,
                p as int,
                n as int,
            ) is None,
            spec_parse_points(b@, pos as int, (n - k) as int) matches Some(pr)
                ==> spec_parse_points(b@, p as int, n as int) == Some((acc@ + pr.0, pr.1)),
        decreases n - k,
    {
        if b.len() - pos < 8 {
            return None;
        }
        let x = read_i32(b, pos);
        let y = read_i32(b, pos + 4);
        proof {
            let pt = TilePoint { x: spec_i32(b@, pos as int) as i32, y: spec_i32(b@, pos as int + 4) as i32 };
            let next = spec_parse_points(b@, pos as int + 8, (n - k - 1) as int);
            if next is Some {
                let rest = next->Some_0.0;
                let end = next->Some_0.1;
                assert(spec_parse_points(b@, pos as int, (n - k) as int) == Some(
                    (seq![pt] + rest, end),
                ));
                assert(acc@ + (seq![pt] + rest) =~= acc@.push(pt) + rest);
            }
        }
        acc.push(TilePoint { x, y });
        pos = pos + 8;
        k = k + 1;
    }
    proof {
        assert(spec_parse_points(b@, pos as int, 0) == Some::<(Seq<TilePoint>, int)>(
            (Seq::empty(), pos as int),
        ));
        assert(acc@ + Seq::<TilePoint>::empty() =~= acc@);
    }
    Some((acc, pos))
}

/// Reads one key/value pair at `p`.
fn parse_prop(b: &Vec<u8>, p: usize) -> (r: Option<((String, String), usize)>)
    requires
        p <= b@.len(),
    ensures
        r is Some <==> spec_parse_prop(b@, p as int) is Some,
        r matches Some(((key, value), q)) ==> spec_parse_prop(b@, p as int) == Some(
            ((key@, value@), q as int),
        ),
        r matches Some((pair, q)) ==> p < q <= b@.len(),
{
    if b.len() - p < 2 {
        return None;
    }
    let klen = read_u16(b, p);
    let (key, p2) = match parse_ascii(b, p + 2, klen as usize) {
        Some(kv) => kv,
        None => {
            return None;
        },
    };
    if b.len() - p2 < 2 {
        return None;
    }
    let vlen = read_u16(b, p2);
    let (value, p3) = match parse_ascii(b, p2 + 2, vlen as usize) {
        Some(vv) => vv,
        None => {
            return None;
        },
    };
    Some(((key, value), p3))
}

/// Reads `n` key/value pairs at `p`.
fn parse_props(b: &Vec<u8>, p: usize, n: usize) -> (r: Option<(Vec<(String, String)>, usize)>)
    requires
        p <= b@.len(),
    ensures
        r is Some <==> spec_parse_props(b@, p as int, n as int) is Some,
        r matches Some((props, q)) ==> spec_parse_props(b@, p as int, n as int) == Some(
            (props@.map_values(|e: (String, String)| (e.0@, e.1@)), q as int),
        )
            && p <= q <= b@.len(),
{
    let mut acc: Vec<(String, String)> = Vec::new();
    let mut pos: usize = p;
    let mut k: usize = 0;
    while k < n
        invariant
            k <= n,
            p <= pos <= b@.len(),
            spec_parse_props(b@, pos as int, (n - k) as int) is None ==> spec_parse_props(
                b@,
                p as int,
                n as int,
            ) is None,
            spec_parse_props(b@, pos as int, (n - k) as int) matches Some(pr)
                ==> spec_parse_props(b@, p as int, n as int) == Some(
                (acc@.map_values(|e: (String, String)| (e.0@, e.1@)) + pr.0, pr.1),
            ),
        decreases n - k,
    {
        let (pair, p2) = match parse_prop(b, pos) {
            Some(pp) => pp,
            None => {
                return None;
            },
        };
        proof {
            let pm = (pair.0@, pair.1@);
            let m = |e: (String, String)| (e.0@, e.1@);
            assert(acc@.push(pair).map_values(m) =~= acc@.map_values(m).push(pm));
            let next = spec_parse_props(b@, p2 as int, (n - k - 1) as int);
            if next is Some {
                let rest = next->Some_0.0;
                let end = next->Some_0.1;
                assert(spec_parse_props(b@, pos as int, (n - k) as int) == Some(
                    (seq![pm] + rest, end),
                ));
                assert(acc@.map_values(m) + (seq![pm] + rest) =~= acc@.map_values(m).push(pm)
                    + rest);
            }
        }
        acc.push(pair);
        pos = p2;
        k = k + 1;
    }
    proof {
        let m = |e: (String, String)| (e.0@, e.1@);
        assert(spec_parse_props(b@, pos as int, 0) == Some::<(Seq<(Seq<char>, Seq<char>)>, int)>(
            (Seq::empty(), pos as int),
        ));
        assert(acc@.map_values(m) + Seq::<(Seq<char>, Seq<char>)>::empty() =~= acc@.map_values(m));
    }
    Some((acc, pos))
}

/// Reads one feature at `p`.
fn parse_feature(b: &Vec<u8>, p: usize) -> (r: Option<(Feature, usize)>)
    requires
        p <= b@.len(),
    ensures
        r is Some <==> spec_parse_feature(b@, p as int) is Some,
        r matches Some((f, q)) ==> spec_parse_feature(b@, p as int) == Some(
            (feature_model(f), q as int),
        )
            && p <= q <= b@.len(),
{
    if b.len() - p < 3 {
        return None;
    }
    let gt_byte = b[p];
    let geom_type = if gt_byte == 1 {
        GeometryType::Point
    } else if gt_byte == 2 {
        GeometryType::LineString
    } else if gt_byte == 3 {
        GeometryType::Polygon
    } else {
        return None;
    };
    let npts = read_u16(b, p + 1);
    let (pts, p2) = match parse_points(b, p + 3, npts as usize) {
        Some(pv) => pv,
        None => {
            return None;
        },
    };
    proof {
        lemma_parse_points_pos(b@, p as int + 3, npts as int);
    }
    if b.len() - p2 < 2 {
        return None;
    }
    let nprops = read_u16(b, p2);
    let (props, p3) = match parse_props(b, p2 + 2, nprops as usize) {
        Some(pv) => pv,
        None => {
            return None;
        },
    };
    Some((Feature { geom_type, geometry: pts, properties: props }, p3))
}

/// A successful point-list parse ends inside the buffer.
proof fn lemma_parse_points_pos(b: Seq<u8>, p: int, n: int)
    ensures
        spec_parse_points(b, p, n) matches Some((pts, end)) ==> 0 <= end <= b.len(),
    decreases n,
{
    if n > 0 {
        lemma_parse_points_pos(b, p + 8, n - 1);
    }
}

/// Reads `n` features at `p`.
fn parse_features(b: &Vec<u8>, p: usize, n: usize) -> (r: Option<(Vec<Feature>, usize)>)
    requires
        p <= b@.len(),
    ensures
        r is Some <==> spec_parse_features(b@, p as int, n as int) is Some,
        r matches Some((fs, q)) ==> spec_parse_features(b@, p as int, n as int) == Some(
            (fs@.map_values(|f: Feature| feature_model(f)), q as int),
        )
            && p <= q <= b@.len(),
{
    let mut acc: Vec<Feature> = Vec::new();
    let mut pos: usize = p;
    let mut k: usize = 0;
    while k < n
        invariant
            k <= n,
            p <= pos <= b@.len(),
            spec_parse_features(b@, pos as int, (n - k) as int) is None ==> spec_parse_features(
                b@,
                p as int,
                n as int,
            ) is None,
            spec_parse_features(b@, pos as int, (n - k) as int) matches Some(pr)
                ==> spec_parse_features(b@, p as int, n as int) == Some(
                (acc@.map_values(|ff: Feature| feature_model(ff)) + pr.0, pr.1),
            ),
        decreases n - k,
    {
        let (f, p2) = match parse_feature(b, pos) {
            Some(fv) => fv,
            None => {
                return None;
            },
        };
        proof {
            let fm = feature_model(f);
            let m = |ff: Feature| feature_model(ff);
            assert(acc@.push(f).map_values(m) =~= acc@.map_values(m).push(fm));
            let next = spec_parse_features(b@, p2 as int, (n - k - 1) as int);
            if next is Some {
                let rest = next->Some_0.0;
                let end = next->Some_0.1;
                assert(spec_parse_features(b@, pos as int, (n - k) as int) == Some(
                    (seq![fm] + rest, end),
                ));
                assert(acc@.map_values(m) + (seq![fm] + rest) =~= acc@.map_values(m).push(fm)
                    + rest);
            }
        }
        acc.push(f);
        pos = p2;
        k = k + 1;
    }
    proof {
        let m = |ff: Feature| feature_model(ff);
        assert(spec_parse_features(b@, pos as int, 0) == Some::<(Seq<FeatureModel>, int)>(
            (Seq::empty(), pos as int),
        ));
        assert(acc@.map_values(m) + Seq::<FeatureModel>::empty() =~= acc@.map_values(m));
    }
    Some((acc, pos))
}

/// Reads one layer at `p`.
fn parse_layer(b: &Vec<u8>, p: usize) -> (r: Option<(Layer, usize)>)
    requires
        p <= b@.len(),
    ensures
        r is Some <==> spec_parse_layer(b@, p as int) is Some,
        r matches Some((l, q)) ==> spec_parse_layer(b@, p as int) == Some(
            (layer_model(l), q as int),
        )
            && p <= q <= b@.len(),
{
    if b.len() - p < 2 {
        return None;
    }
    let nlen = read_u16(b, p);
    let (name, p2) = match parse_ascii(b, p + 2, nlen as usize) {
        Some(nv) => nv,
        None => {
            return None;
        },
    };
    if b.len() - p2 < 6 {
        return None;
    }
    let extent = read_u32(b, p2);
    let nfeatures = read_u16(b, p2 + 4);
    let (features, p3) = match parse_features(b, p2 + 6, nfeatures as usize) {
        Some(fv) => fv,
        None => {
            return None;
        },
    };
    Some((Layer { name, extent, features }, p3))
}

/// Decodes a whole container into its layers, in stored order. Returns
/// `None` exactly when the container is malformed anywhere: truncated, an
/// unknown geometry type, a non-ASCII string, or trailing bytes.
#[verifier::rlimit(40)]
pub fn parse_tile(data: &Vec<u8>) -> (r: Option<Vec<Layer>>)
    ensures
        r is Some <==> spec_parse_tile(data@) is Some,
        r matches Some(layers) ==> spec_parse_tile(data@) == Some(layers_model(layers@)),
{
    if data.len() < 2 {
        return None;
    }
    let count = read_u16(data, 0);
    let mut acc: Vec<Layer> = Vec::new();
    let mut pos: usize = 2;
    let mut k: usize = 0;
    let n = count as usize;
    while k < n
        invariant
            k <= n,
            2 <= pos <= data@.len(),
            data@.len() >= 2,
            n == spec_u16(data@, 0),
            spec_parse_layers(data@, pos as int, (n - k) as int) is None ==> spec_parse_layers(
                data@,
                2,
                n as int,
            ) is None,
            spec_parse_layers(data@, pos as int, (n - k) as int) matches Some(pr)
                ==> spec_parse_layers(data@, 2, n as int) == Some(
                (acc@.map_values(|ll: Layer| layer_model(ll)) + pr.0, pr.1),
            ),
        decreases n - k,
    {
        let (l, p2) = match parse_layer(data, pos) {
            Some(lv) => lv,
            None => {
                return None;
            },
        };
        proof {
            let lm = layer_model(l);
            let m = |ll: Layer| layer_model(ll);
            assert(acc@.push(l).map_values(m) =~= acc@.map_values(m).push(lm));
            let next = spec_parse_layers(data@, p2 as int, (n - k - 1) as int);
            if next is Some {
                let rest = next->Some_0.0;
                let end = next->Some_0.1;
                assert(spec_parse_layers(data@, pos as int, (n - k) as int) == Some(
                    (seq![lm] + rest, end),
                ));
                assert(acc@.map_values(m) + (seq![lm] + rest) =~= acc@.map_values(m).push(lm)
                    + rest);
            }
        }
        acc.push(l);
        pos = p2;
        k = k + 1;
    }
    proof {
        let m = |ll: Layer| layer_model(ll);
        assert(spec_parse_layers(data@, pos as int, 0) == Some::<(Seq<LayerModel>, int)>(
            (Seq::empty(), pos as int),
        ));
        assert(acc@.map_values(m) + Seq::<LayerModel>::empty() =~= acc@.map_values(m));
    }
    if pos != data.len() {
        return None;
    }
    Some(acc)
}

} // verus!

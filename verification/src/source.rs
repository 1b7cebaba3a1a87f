//! Source descriptors and the transport-facing interfaces: a source names a
//! tile set, its addressing scheme, and a URL template whose `{x}`, `{y}`
//! and `{z}` placeholders are substituted with a tile's coordinates rendered
//! as decimal integers.

use vstd::prelude::*;
use crate::coords::{TileAddressingScheme, WorldTileCoords};

verus! {

/// The decimal digit character for one digit value.
pub open spec fn digit_char(d: int) -> char {
    if d == 0 {
        '0'
    } else if d == 1 {
        '1'
    } else if d == 2 {
        '2'
    } else if d == 3 {
        '3'
    } else if d == 4 {
        '4'
    } else if d == 5 {
        '5'
    } else if d == 6 {
        '6'
    } else if d == 7 {
        '7'
    } else if d == 8 {
        '8'
    } else {
        '9'
    }
}

/// The decimal digits of a nonnegative integer, most significant first.
pub open spec fn dec_digits(n: int) -> Seq<char>
    decreases n,
{
    if n < 10 {
        seq![digit_char(n)]
    } else {
        dec_digits(n / 10).push(digit_char(n % 10))
    }
}

/// The decimal rendering of a signed integer: a minus sign before the
/// digits of its magnitude when negative.
pub open spec fn dec_signed(x: int) -> Seq<char> {
    if x >= 0 {
        dec_digits(x)
    } else {
        seq!['-'] + dec_digits(-x)
    }
}

/// The template with every `{x}`, `{y}` and `{z}` replaced, scanned left to
/// right.
pub open spec fn spec_substituted(
    t: Seq<char>,
    xs: Seq<char>,
    ys: Seq<char>,
    zs: Seq<char>,
) -> Seq<char>
    decreases t.len(),
{
    if t.len() == 0 {
        Seq::empty()
    } else if t.len() >= 3 && t[0] == '{' && t[2] == '}' && (t[1] == 'x' || t[1] == 'y' || t[1]
        == 'z') {
        (if t[1] == 'x' {
            xs
        } else if t[1] == 'y' {
            ys
        } else {
            zs
        }) + spec_substituted(t.skip(3), xs, ys, zs)
    } else {
        seq![t[0]] + spec_substituted(t.skip(1), xs, ys, zs)
    }
}

/// The digit character for one digit value.
fn digit_of(d: u8) -> (r: char)
    requires
        d < 10,
    ensures
        r == digit_char(d as int),
{
    if d == 0 {
        '0'
    } else if d == 1 {
        '1'
    } else if d == 2 {
        '2'
    } else if d == 3 {
        '3'
    } else if d == 4 {
        '4'
    } else if d == 5 {
        '5'
    } else if d == 6 {
        '6'
    } else if d == 7 {
        '7'
    } else if d == 8 {
        '8'
    } else {
        '9'
    }
}

/// The decimal digits of `n`, most significant first.
fn u32_digits(n: u32) -> (r: Vec<char>)
    ensures
        r@ == dec_digits(n as int),
    decreases n,
{
    if n < 10 {
        let mut v: Vec<char> = Vec::new();
        v.push(digit_of(n as u8));
        proof {
            assert(v@ =~= dec_digits(n as int));
        }
        v
    } else {
        let mut v = u32_digits(n / 10);
        v.push(digit_of((n % 10) as u8));
        v
    }
}

/// The decimal rendering of `x`, with a minus sign when negative.
fn i32_digits(x: i32) -> (r: Vec<char>)
    ensures
        r@ == dec_signed(x as int),
{
    if x >= 0 {
        u32_digits(x as u32)
    } else {
        let magnitude: u32 = if x == i32::MIN {
            0x8000_0000u32
        } else {
            (-x) as u32
        };
        let mut v: Vec<char> = Vec::new();
        v.push('-');
        let digits = u32_digits(magnitude);
        let mut k: usize = 0;
        while k < digits.len()
            invariant
                k <= digits@.len(),
                v@ == seq!['-'] + digits@.take(k as int),
            decreases digits@.len() - k,
        {
            proof {
                assert(seq!['-'] + digits@.take(k + 1) =~= (seq!['-'] + digits@.take(
                    k as int,
                )).push(digits@[k as int]));
            }
            v.push(digits[k]);
            k = k + 1;
        }
        proof {
            assert(digits@.take(digits@.len() as int) =~= digits@);
        }
        v
    }
}

/// Appends every character of `src` to `out`.
fn push_all(out: &mut Vec<char>, src: &Vec<char>)
    ensures
        final(out)@ == old(out)@ + src@,
{
    let mut k: usize = 0;
    while k < src.len()
        invariant
            k <= src@.len(),
            out@ == old(out)@ + src@.take(k as int),
        decreases src@.len() - k,
    {
        proof {
            assert(old(out)@ + src@.take(k + 1) =~= (old(out)@ + src@.take(k as int)).push(
                src@[k as int],
            ));
        }
        out.push(src[k]);
        k = k + 1;
    }
    proof {
        assert(src@.take(src@.len() as int) =~= src@);
    }
}

/// A tile URL template with `{x}`, `{y}` and `{z}` placeholders.
#[derive(Debug)]
pub struct SourceUrl {
    pub url: String,
}

impl SourceUrl {
    pub fn new(url: String) -> (r: Self)
        ensures
            r.url == url,
    {
        Self { url }
    }

    /// Substitutes the coordinate's fields, rendered as decimal integers,
    /// for the placeholders of the template.
    pub fn format(&self, coords: WorldTileCoords) -> (r: String)
        ensures
            r@ == spec_substituted(
                self.url@,
                dec_signed(coords.x as int),
                dec_signed(coords.y as int),
                dec_digits(coords.z.0 as int),
            ),
    {
        let xs = i32_digits(coords.x);
        let ys = i32_digits(coords.y);
        let zs = u32_digits(coords.z.0 as u32);
        let t = self.url.as_str();
        let n = t.unicode_len();
        let ghost tv = self.url@;
        let mut out: Vec<char> = Vec::new();
        let mut i: usize = 0;
        proof {
            assert(tv.skip(0) =~= tv);
            assert(Seq::<char>::empty() + spec_substituted(tv, xs@, ys@, zs@)
                =~= spec_substituted(tv, xs@, ys@, zs@));
        }
        while i < n
            invariant
                i <= n == tv.len(),
                tv == self.url@,
                t@ == tv,
                xs@ == dec_signed(coords.x as int),
                ys@ == dec_signed(coords.y as int),
                zs@ == dec_digits(coords.z.0 as int),
                spec_substituted(tv, xs@, ys@, zs@) == out@ + spec_substituted(
                    tv.skip(i as int),
                    xs@,
                    ys@,
                    zs@,
                ),
            decreases n - i,
        {
            let ghost rest = tv.skip(i as int);
            let c0 = t.get_char(i);
            proof {
                assert(rest[0] == tv[i as int]);
            }
            if n - i >= 3 && c0 == '{' {
                let c1 = t.get_char(i + 1);
                let c2 = t.get_char(i + 2);
                proof {
                    assert(rest[1] == tv[i as int + 1]);
                    assert(rest[2] == tv[i as int + 2]);
                    assert(rest.skip(3) =~= tv.skip(i as int + 3));
                }
                if c2 == '}' && (c1 == 'x' || c1 == 'y' || c1 == 'z') {
                    let ghost prev = out@;
                    if c1 == 'x' {
                        push_all(&mut out, &xs);
                    } else if c1 == 'y' {
                        push_all(&mut out, &ys);
                    } else {
                        push_all(&mut out, &zs);
                    }
                    proof {
                        let sub = if rest[1] == 'x' {
                            xs@
                        } else if rest[1] == 'y' {
                            ys@
                        } else {
                            zs@
                        };
                        assert(out@ == prev + sub);
                        assert(spec_substituted(rest, xs@, ys@, zs@) == sub + spec_substituted(
                            tv.skip(i as int + 3),
                            xs@,
                            ys@,
                            zs@,
                        ));
                        assert(prev + (sub + spec_substituted(tv.skip(i as int + 3), xs@, ys@, zs@))
                            =~= (prev + sub) + spec_substituted(
                            tv.skip(i as int + 3),
                            xs@,
                            ys@,
                            zs@,
                        ));
                    }
                    i = i + 3;
                    continue;
                }
            }
            proof {
                assert(rest.skip(1) =~= tv.skip(i as int + 1));
                assert(spec_substituted(rest, xs@, ys@, zs@) == seq![rest[0]] + spec_substituted(
                    tv.skip(i as int + 1),
                    xs@,
                    ys@,
                    zs@,
                ));
                assert(out@.push(tv[i as int]) + spec_substituted(
                    tv.skip(i as int + 1),
                    xs@,
                    ys@,
                    zs@,
                ) =~= out@ + spec_substituted(rest, xs@, ys@, zs@));
            }
            out.push(c0);
            i = i + 1;
        }
        proof {
            assert(tv.skip(tv.len() as int) =~= Seq::<char>::empty());
            assert(out@ + Seq::<char>::empty() =~= out@);
        }
        crate::text::string_of_chars(out)
    }
}

/// Describes one tile data source: its name, the addressing scheme its grid
/// uses, and its URL template.
#[derive(Debug)]
pub struct Source {
    pub name: String,
    pub addressing_scheme: TileAddressingScheme,
    pub url: SourceUrl,
}

impl Source {
    pub fn new(name: String, addressing_scheme: TileAddressingScheme, url: SourceUrl) -> (r: Self)
        ensures
            r.name == name,
            r.addressing_scheme == addressing_scheme,
            r.url == url,
    {
        Self { name, addressing_scheme, url }
    }
}

/// Failure to fetch a tile from a source; recoverable, the tile is marked
/// unavailable and the pipeline continues.
#[derive(Debug)]
pub struct SourceFetchError {
    pub message: String,
}

/// Failure of the underlying HTTP transport.
#[derive(Debug)]
pub struct HttpError {
    pub message: String,
}

/// Raw bytes handed back by a transport.
pub trait SourceFetchResult {
    fn as_bytes(&self) -> &[u8];
}

impl SourceFetchResult for Vec<u8> {
    fn as_bytes(&self) -> (r: &[u8])
        ensures
            r@ == self@,
    {
        self.as_slice()
    }
}

/// The transport collaborator: fetches the bytes behind a URL, or fails.
/// Implementations decide the medium; callers must not assume one.
pub trait HttpClient {
    fn fetch(&self, url: &str) -> Result<Vec<u8>, HttpError>;
}

/// A client that can fetch one tile of a source by its coordinates.
pub trait SourceClient {
    fn fetch(&self, source: &Source, coords: WorldTileCoords) -> Result<Vec<u8>, SourceFetchError>;
}

/// Adapts an HTTP transport into a source client by building each tile's
/// URL from the source's template.
#[derive(Debug)]
pub struct HttpSourceClient<HC: HttpClient> {
    pub inner_client: HC,
}

impl<HC: HttpClient> HttpSourceClient<HC> {
    pub fn new(http_client: HC) -> (r: Self)
        ensures
            r.inner_client == http_client,
    {
        Self { inner_client: http_client }
    }
}

impl<HC: HttpClient> SourceClient for HttpSourceClient<HC> {
    fn fetch(&self, source: &Source, coords: WorldTileCoords) -> Result<Vec<u8>, SourceFetchError> {
        let url = source.url.format(coords);
        match self.inner_client.fetch(url.as_str()) {
            Ok(bytes) => Ok(bytes),
            Err(e) => Err(SourceFetchError { message: e.message }),
        }
    }
}

} // verus!

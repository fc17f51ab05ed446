//! SRTM elevation tiles: their file names and their raw samples.
use vstd::prelude::*;
use vstd::string::StringExecFns;
use crate::osm::Coordinates;

verus! {

/// The sample value that marks a void.
pub const VOID: i16 = -32768;

/// The whole degree at or below a fixed-point angle.
pub open spec fn floor_degree(v: int) -> int {
    if v >= 0 {
        v / 10_000_000
    } else {
        -((-v + 9_999_999) / 10_000_000)
    }
}

pub open spec fn digit_char(d: int) -> char {
    if d == 0 {
        '0'
    } else if d == 1 {
        '1'
    } else if d == 2 {
        '2'
    } else if d == 3 {
        '3'
    } else if d == 4 {
        '4'
    } else if d == 5 {
        '5'
    } else if d == 6 {
        '6'
    } else if d == 7 {
        '7'
    } else if d == 8 {
        '8'
    } else {
        '9'
    }
}

/// The last `count` decimal digits of `n`.
pub open spec fn digits(n: nat, count: nat) -> Seq<char>
    decreases count,
{
    if count == 0 {
        Seq::empty()
    } else {
        digits(n / 10, (count - 1) as nat).push(digit_char((n % 10) as int))
    }
}

/// `n` in decimal, zero-padded to at least `width` digits.
pub open spec fn padded(n: nat, width: nat) -> Seq<char> {
    let len: nat = if n >= 100 {
        3
    } else if n >= 10 {
        2
    } else {
        1
    };
    digits(n, if len > width { len } else { width })
}

/// The name of the tile whose south-west corner is at whole degrees
/// `(lat, lon)`: `N47E011.hgt`, `S05W010.hgt`.
pub open spec fn tile_name(lat: int, lon: int) -> Seq<char> {
    (if lat >= 0 { "N"@ } else { "S"@ }) + padded(
        (if lat >= 0 { lat } else { -lat }) as nat,
        2,
    ) + (if lon >= 0 { "E"@ } else { "W"@ }) + padded(
        (if lon >= 0 { lon } else { -lon }) as nat,
        3,
    ) + ".hgt"@
}

fn floor_deg(v: i32) -> (r: i32)
    ensures
        r == floor_degree(v as int),
        -215 <= r <= 215,
{
    let w = v as i64;
    let r = if w >= 0 {
        w / 10_000_000
    } else {
        -((-w + 9_999_999) / 10_000_000)
    };
    r as i32
}

fn digit_str(d: u32) -> (r: &'static str)
    requires
        d < 10,
    ensures
        r@ == seq![digit_char(d as int)],
{
    proof {
        reveal_strlit("0");
        reveal_strlit("1");
        reveal_strlit("2");
        reveal_strlit("3");
        reveal_strlit("4");
        reveal_strlit("5");
        reveal_strlit("6");
        reveal_strlit("7");
        reveal_strlit("8");
        reveal_strlit("9");
    }
    if d == 0 {
        "0"
    } else if d == 1 {
        "1"
    } else if d == 2 {
        "2"
    } else if d == 3 {
        "3"
    } else if d == 4 {
        "4"
    } else if d == 5 {
        "5"
    } else if d == 6 {
        "6"
    } else if d == 7 {
        "7"
    } else if d == 8 {
        "8"
    } else {
        "9"
    }
}

fn push_digits(s: &mut String, n: u32, count: u32)
    ensures
        final(s)@ == old(s)@ + digits(n as nat, count as nat),
    decreases count,
{
    if count > 0 {
        push_digits(s, n / 10, count - 1);
        s.append(digit_str(n % 10));
    } else {
        assert(old(s)@ + digits(n as nat, 0) =~= old(s)@);
    }
}

fn push_padded(s: &mut String, n: u32, width: u32)
    ensures
        final(s)@ == old(s)@ + padded(n as nat, width as nat),
{
    let len: u32 = if n >= 100 {
        3
    } else if n >= 10 {
        2
    } else {
        1
    };
    push_digits(s, n, if len > width { len } else { width });
}

/// The file name of the tile that holds `coords`.
pub fn filename(coords: &Coordinates) -> (r: String)
    ensures
        r@ == tile_name(floor_degree(coords.lat as int), floor_degree(coords.lon as int)),
{
    proof {
        reveal_strlit("N");
        reveal_strlit("S");
        reveal_strlit("E");
        reveal_strlit("W");
        reveal_strlit(".hgt");
    }
    let lat = floor_deg(coords.lat);
    let lon = floor_deg(coords.lon);
    let mut name = String::new();
    if lat >= 0 {
        name.append("N");
    } else {
        name.append("S");
    }
    let lat_abs: u32 = if lat >= 0 { lat as u32 } else { (-lat) as u32 };
    push_padded(&mut name, lat_abs, 2);
    if lon >= 0 {
        name.append("E");
    } else {
        name.append("W");
    }
    let lon_abs: u32 = if lon >= 0 { lon as u32 } else { (-lon) as u32 };
    push_padded(&mut name, lon_abs, 3);
    name.append(".hgt");
    name
}

/// A big-endian signed 16-bit value.
pub open spec fn be_i16(hi: u8, lo: u8) -> int {
    let v = hi * 256 + lo;
    if v >= 32768 {
        v - 65536
    } else {
        v
    }
}

/// The sample at `row` and `column` of a square raster of big-endian signed
/// 16-bit values, `side` samples wide; absent outside the raster or void.
pub open spec fn sample_at(data: Seq<u8>, side: int, row: int, column: int) -> Option<i16> {
    let index = row * side + column;
    if !(0 <= row < side && 0 <= column < side) || 2 * index + 1 >= data.len() {
        None
    } else if be_i16(data[2 * index], data[2 * index + 1]) == VOID {
        None
    } else {
        Some(be_i16(data[2 * index], data[2 * index + 1]) as i16)
    }
}

/// Reads the sample at `row` and `column` of a tile's raster.
pub fn sample(data: &Vec<u8>, side: u32, row: i64, column: i64) -> (r: Option<i16>)
    ensures
        r == sample_at(data@, side as int, row as int, column as int),
{
    if row < 0 || column < 0 || row >= side as i64 || column >= side as i64 {
        return None;
    }
    proof {
        assert(row * side + column < side * side) by (nonlinear_arith)
            requires
                0 <= row < side,
                0 <= column < side,
        ;
        assert(side * side <= u32::MAX * u32::MAX) by (nonlinear_arith)
            requires
                0 <= side <= u32::MAX,
        ;
    }
    let index: u64 = row as u64 * side as u64 + column as u64;
    if index >= data.len() as u64 / 2 {
        return None;
    }
    let start = (2 * index) as usize;
    let value: i32 = data[start] as i32 * 256 + data[start + 1] as i32;
    let value = if value >= 32768 {
        value - 65536
    } else {
        value
    };
    if value == VOID as i32 {
        None
    } else {
        Some(value as i16)
    }
}

/// The decompressed bytes of the member called `name` of the zip archive
/// `archive`; absent when the archive cannot be read or has no such member.
pub uninterp spec fn zip_member(archive: Seq<u8>, name: Seq<char>) -> Option<Seq<u8>>;

/// Relies on zip's `ZipArchive::new` and `ZipArchive::by_name_decrypt` over an
/// archive held in memory, read to its end: what comes out depends on the
/// archive's bytes and the name alone. `by_name_decrypt` hands back a refused
/// password as a value where `by_name` would panic on it; it becomes `None`.
#[verifier::external_body]
fn read_member(archive: &Vec<u8>, name: &str) -> (r: Option<Vec<u8>>)
    ensures
        match r {
            Some(bytes) => zip_member(archive@, name@) == Some(bytes@),
            None => zip_member(archive@, name@).is_none(),
        },
{
    let mut zip = zip::ZipArchive::new(std::io::Cursor::new(archive.clone())).ok()?;
    let mut member = zip.by_name_decrypt(name, b"").ok()?.ok()?;
    let mut bytes = Vec::new();
    std::io::Read::read_to_end(&mut member, &mut bytes).ok()?;
    Some(bytes)
}

/// Why a tile's raster could not be had.
#[derive(Debug, Clone, Copy, PartialEq, Eq, Structural)]
pub enum TileError {
    /// The archive is unreadable or holds no member of the tile's name.
    MissingMember,
}

/// The raster of tile `filename` out of a downloaded zip archive.
pub fn unzip(archive: &Vec<u8>, filename: &str) -> (r: Result<Vec<u8>, TileError>)
    ensures
        match r {
            Ok(bytes) => zip_member(archive@, filename@) == Some(bytes@),
            Err(e) => e == TileError::MissingMember && zip_member(archive@, filename@).is_none(),
        },
{
    match read_member(archive, filename) {
        Some(bytes) => Ok(bytes),
        None => Err(TileError::MissingMember),
    }
}

} // verus!

//! Conversion between coordinates and canonical tile filenames.
//!
//! Tiles are named `{N|S}{2-digit lat}{E|W}{3-digit lon}.hgt` after the
//! whole-degree southwest corner of the cell, e.g. `N35E138.hgt` or
//! `S01W001.hgt`.  The sign prefix follows the sign of the floored
//! integer, not of the raw input, so -0.5 degrees becomes `S01`.

use vstd::prelude::*;
use crate::coord::{Coord, TileKey, floor_deg, spec_valid_coord, to_tile_key};

verus! {

/// The decimal digit character for `d` (0 to 9).
pub open spec fn spec_digit_char(d: int) -> char {
    if d == 0 { '0' }
    else if d == 1 { '1' }
    else if d == 2 { '2' }
    else if d == 3 { '3' }
    else if d == 4 { '4' }
    else if d == 5 { '5' }
    else if d == 6 { '6' }
    else if d == 7 { '7' }
    else if d == 8 { '8' }
    else { '9' }
}

/// Two-digit zero-padded decimal rendering of `v` (0 to 99).
pub open spec fn spec_two_digits(v: int) -> Seq<char> {
    seq![spec_digit_char(v / 10), spec_digit_char(v % 10)]
}

/// Three-digit zero-padded decimal rendering of `v` (0 to 999).
pub open spec fn spec_three_digits(v: int) -> Seq<char> {
    seq![spec_digit_char(v / 100), spec_digit_char((v / 10) % 10), spec_digit_char(v % 10)]
}

/// The canonical filename for the tile with southwest corner
/// `(lat, lon)` in whole degrees.
pub open spec fn spec_tile_filename(lat: int, lon: int) -> Seq<char> {
    seq![if lat >= 0 { 'N' } else { 'S' }]
        + spec_two_digits(if lat >= 0 { lat } else { -lat })
        + seq![if lon >= 0 { 'E' } else { 'W' }]
        + spec_three_digits(if lon >= 0 { lon } else { -lon })
        + seq!['.', 'h', 'g', 't']
}

/// A path separator, as accepted when stripping a leading path.
pub open spec fn spec_is_sep(c: char) -> bool {
    c == '/' || c == '\\'
}

/// Index just after the last path separator in `s` (0 when `s` holds
/// no separator).
pub open spec fn spec_sep_cut(s: Seq<char>) -> nat
    decreases s.len(),
{
    if s.len() == 0 {
        0
    } else if spec_is_sep(s.last()) {
        s.len()
    } else {
        spec_sep_cut(s.drop_last())
    }
}

/// The part of `s` after its last path separator.
pub open spec fn spec_after_last_sep(s: Seq<char>) -> Seq<char> {
    s.subrange(spec_sep_cut(s) as int, s.len() as int)
}

/// `s` with a trailing `.hgt` removed, if present.
pub open spec fn spec_strip_hgt(s: Seq<char>) -> Seq<char> {
    if s.len() >= 4 && s[s.len() - 4] == '.' && s[s.len() - 3] == 'h' && s[s.len() - 2] == 'g'
        && s[s.len() - 1] == 't' {
        s.subrange(0, s.len() - 4)
    } else {
        s
    }
}

/// Whether `c` is a decimal digit.
pub open spec fn spec_is_digit(c: char) -> bool {
    48 <= c as int <= 57
}

/// The value of a decimal digit character.
pub open spec fn spec_digit_val(c: char) -> int {
    c as int - 48
}

/// Parse a bare 7-character tile name `[NS]dd[EW]ddd`, case-insensitive
/// in the hemisphere prefixes.
pub open spec fn spec_parse7(s: Seq<char>) -> Option<(int, int)> {
    if s.len() != 7 {
        None
    } else if !(s[0] == 'N' || s[0] == 'n' || s[0] == 'S' || s[0] == 's') {
        None
    } else if !(spec_is_digit(s[1]) && spec_is_digit(s[2])) {
        None
    } else if !(s[3] == 'E' || s[3] == 'e' || s[3] == 'W' || s[3] == 'w') {
        None
    } else if !(spec_is_digit(s[4]) && spec_is_digit(s[5]) && spec_is_digit(s[6])) {
        None
    } else {
        let lat = 10 * spec_digit_val(s[1]) + spec_digit_val(s[2]);
        let lon = 100 * spec_digit_val(s[4]) + 10 * spec_digit_val(s[5]) + spec_digit_val(s[6]);
        let lat_signed = if s[0] == 'N' || s[0] == 'n' { lat } else { -lat };
        let lon_signed = if s[3] == 'E' || s[3] == 'e' { lon } else { -lon };
        Some((lat_signed, lon_signed))
    }
}

/// Full parse of a tile filename: strip any leading path and a `.hgt`
/// extension, then parse the remaining 7 characters.
pub open spec fn spec_parse_tile_name(s: Seq<char>) -> Option<(int, int)> {
    spec_parse7(spec_strip_hgt(spec_after_last_sep(s)))
}

/// `spec_parse_tile_name` with its components narrowed to `i32` (they
/// are at most 2 and 3 digits, so they always fit).
pub open spec fn spec_parse_tile_name_i32(s: Seq<char>) -> Option<(i32, i32)> {
    match spec_parse_tile_name(s) {
        Some(p) => Some((p.0 as i32, p.1 as i32)),
        None => None,
    }
}

/// The single-character string for decimal digit `d`.
fn digit_str(d: u32) -> (r: &'static str)
    requires
        d < 10,
    ensures
        r@ =~= seq![spec_digit_char(d as int)],
{
    proof {
        reveal_strlit("0");
        reveal_strlit("1");
        reveal_strlit("2");
        reveal_strlit("3");
        reveal_strlit("4");
        reveal_strlit("5");
        reveal_strlit("6");
        reveal_strlit("7");
        reveal_strlit("8");
        reveal_strlit("9");
    }
    match d {
        0 => "0",
        1 => "1",
        2 => "2",
        3 => "3",
        4 => "4",
        5 => "5",
        6 => "6",
        7 => "7",
        8 => "8",
        _ => "9",
    }
}

/// Append the two-digit zero-padded rendering of `v` to `s`.
fn push_two_digits(s: &mut String, v: u32)
    requires
        v < 100,
    ensures
        final(s)@ == old(s)@ + spec_two_digits(v as int),
{
    s.append(digit_str(v / 10));
    s.append(digit_str(v % 10));
    proof {
        assert(final(s)@ =~= old(s)@ + spec_two_digits(v as int));
    }
}

/// Append the three-digit zero-padded rendering of `v` to `s`.
fn push_three_digits(s: &mut String, v: u32)
    requires
        v < 1000,
    ensures
        final(s)@ == old(s)@ + spec_three_digits(v as int),
{
    s.append(digit_str(v / 100));
    s.append(digit_str((v / 10) % 10));
    s.append(digit_str(v % 10));
    proof {
        assert(final(s)@ =~= old(s)@ + spec_three_digits(v as int));
    }
}

/// The canonical tile filename for a coordinate: the tile's southwest
/// corner is the floor of each component, and the sign prefixes follow
/// the sign of those floored integers.
pub fn lat_lon_to_filename(c: Coord) -> (r: String)
    requires
        spec_valid_coord(c),
    ensures
        r@ == spec_tile_filename(floor_deg(c.lat_micro as int), floor_deg(c.lon_micro as int)),
{
    let k: TileKey = to_tile_key(c);
    proof {
        vstd::arithmetic::div_mod::lemma_fundamental_div_mod(c.lat_micro as int, 1_000_000int);
        vstd::arithmetic::div_mod::lemma_fundamental_div_mod(c.lon_micro as int, 1_000_000int);
    }
    tile_key_to_filename(k)
}

/// The canonical filename for the tile with key `k`.
pub fn tile_key_to_filename(k: TileKey) -> (r: String)
    requires
        -99 <= k.lat <= 99,
        -999 <= k.lon <= 999,
    ensures
        r@ == spec_tile_filename(k.lat as int, k.lon as int),
{
    proof {
        reveal_strlit("N");
        reveal_strlit("S");
        reveal_strlit("E");
        reveal_strlit("W");
        reveal_strlit(".hgt");
    }
    let mut s = String::new();
    if k.lat >= 0 {
        s.append("N");
    } else {
        s.append("S");
    }
    let lat_abs: u32 = if k.lat >= 0 { k.lat as u32 } else { (-k.lat) as u32 };
    push_two_digits(&mut s, lat_abs);
    if k.lon >= 0 {
        s.append("E");
    } else {
        s.append("W");
    }
    let lon_abs: u32 = if k.lon >= 0 { k.lon as u32 } else { (-k.lon) as u32 };
    push_three_digits(&mut s, lon_abs);
    s.append(".hgt");
    proof {
        assert(s@ =~= spec_tile_filename(k.lat as int, k.lon as int));
    }
    s
}

/// The characters of `s`, as a vector.
pub(crate) fn str_chars(s: &str) -> (v: Vec<char>)
    ensures
        v@ == s@,
{
    let n: usize = s.unicode_len();
    let mut v: Vec<char> = Vec::new();
    let mut i: usize = 0;
    while i < n
        invariant
            i <= n,
            n == s@.len(),
            v@ == s@.subrange(0, i as int),
        decreases n - i,
    {
        v.push(s.get_char(i));
        i = i + 1;
        proof {
            assert(v@ =~= s@.subrange(0, i as int));
        }
    }
    proof {
        assert(v@ =~= s@);
    }
    v
}

proof fn lemma_sep_cut_at(s: Seq<char>, j: int)
    requires
        0 <= j <= s.len(),
        j == 0 || spec_is_sep(s[j - 1]),
        forall|i: int| j <= i < s.len() ==> !spec_is_sep(#[trigger] s[i]),
    ensures
        spec_sep_cut(s) == j,
    decreases s.len(),
{
    if s.len() == 0 {
    } else if j == s.len() {
    } else {
        assert(!spec_is_sep(s.last()));
        lemma_sep_cut_at(s.drop_last(), j);
    }
}

/// Whether `c` is a path separator.
fn is_sep(c: char) -> (r: bool)
    ensures
        r == spec_is_sep(c),
{
    c == '/' || c == '\\'
}

/// Parse a tile filename (with or without a leading path, with or
/// without the `.hgt` extension) into the whole-degree coordinates of
/// the tile's southwest corner.  Returns `None` on any malformed input.
pub fn filename_to_lat_lon(filename: &str) -> (r: Option<(i32, i32)>)
    ensures
        r == spec_parse_tile_name_i32(filename@),
{
    let v: Vec<char> = str_chars(filename);
    let n: usize = v.len();

    // Skip past the last path separator.
    let mut start: usize = n;
    while start > 0 && !is_sep(v[start - 1])
        invariant
            start <= n,
            n == v.len(),
            forall|i: int| start <= i < n ==> !spec_is_sep(#[trigger] v@[i]),
        decreases start,
    {
        start = start - 1;
    }
    proof {
        lemma_sep_cut_at(v@, start as int);
        assert(spec_after_last_sep(v@) == v@.subrange(start as int, n as int));
    }

    // Drop a trailing ".hgt", if present.
    let mut end: usize = n;
    if n - start >= 4 && v[n - 4] == '.' && v[n - 3] == 'h' && v[n - 2] == 'g' && v[n - 1] == 't' {
        end = n - 4;
    }
    let ghost name: Seq<char> = spec_strip_hgt(spec_after_last_sep(filename@));
    proof {
        assert(name =~= v@.subrange(start as int, end as int));
    }

    // The bare name must be exactly [NS]dd[EW]ddd.
    if end - start != 7 {
        return None;
    }
    let c0 = v[start];
    let c1 = v[start + 1];
    let c2 = v[start + 2];
    let c3 = v[start + 3];
    let c4 = v[start + 4];
    let c5 = v[start + 5];
    let c6 = v[start + 6];

    let lat_north: bool = c0 == 'N' || c0 == 'n';
    if !(lat_north || c0 == 'S' || c0 == 's') {
        return None;
    }
    if !(is_digit(c1) && is_digit(c2)) {
        return None;
    }
    let lon_east: bool = c3 == 'E' || c3 == 'e';
    if !(lon_east || c3 == 'W' || c3 == 'w') {
        return None;
    }
    if !(is_digit(c4) && is_digit(c5) && is_digit(c6)) {
        return None;
    }

    let lat: i32 = 10 * digit_val(c1) + digit_val(c2);
    let lon: i32 = 100 * digit_val(c4) + 10 * digit_val(c5) + digit_val(c6);
    let lat_signed: i32 = if lat_north { lat } else { -lat };
    let lon_signed: i32 = if lon_east { lon } else { -lon };
    Some((lat_signed, lon_signed))
}

/// Whether `c` is a decimal digit.
fn is_digit(c: char) -> (r: bool)
    ensures
        r == spec_is_digit(c),
{
    '0' <= c && c <= '9'
}

/// The value of the decimal digit `c`.
fn digit_val(c: char) -> (r: i32)
    requires
        spec_is_digit(c),
    ensures
        r == spec_digit_val(c),
        0 <= r <= 9,
{
    (c as u32 as i32) - 48
}

/// Rendering a value of 0 to 99 as two digits and reading the digits
/// back yields the same value.
proof fn lemma_two_digits_value(v: int)
    requires
        0 <= v < 100,
    ensures
        spec_is_digit(spec_two_digits(v)[0]),
        spec_is_digit(spec_two_digits(v)[1]),
        10 * spec_digit_val(spec_two_digits(v)[0]) + spec_digit_val(spec_two_digits(v)[1]) == v,
{
    assert(0 <= v / 10 < 10);
    assert(0 <= v % 10 < 10);
    assert(10 * (v / 10) + v % 10 == v) by {
        vstd::arithmetic::div_mod::lemma_fundamental_div_mod(v, 10);
    }
}

/// Rendering a value of 0 to 999 as three digits and reading the
/// digits back yields the same value.
proof fn lemma_three_digits_value(v: int)
    requires
        0 <= v < 1000,
    ensures
        spec_is_digit(spec_three_digits(v)[0]),
        spec_is_digit(spec_three_digits(v)[1]),
        spec_is_digit(spec_three_digits(v)[2]),
        100 * spec_digit_val(spec_three_digits(v)[0]) + 10 * spec_digit_val(
            spec_three_digits(v)[1],
        ) + spec_digit_val(spec_three_digits(v)[2]) == v,
{
    assert(0 <= v / 100 < 10);
    assert(0 <= (v / 10) % 10 < 10);
    assert(0 <= v % 10 < 10);
    assert(100 * (v / 100) + 10 * ((v / 10) % 10) + v % 10 == v) by {
        vstd::arithmetic::div_mod::lemma_fundamental_div_mod(v, 10);
        vstd::arithmetic::div_mod::lemma_fundamental_div_mod(v / 10, 10);
        assert(v / 10 / 10 == v / 100) by {
            vstd::arithmetic::div_mod::lemma_div_denominator(v, 10, 10);
        }
    }
}

/// A canonical tile filename holds no path separator.
proof fn lemma_filename_no_sep(lat: int, lon: int)
    requires
        -180 <= lat <= 180,
        -1000 < lon < 1000,
    ensures
        forall|i: int|
            0 <= i < spec_tile_filename(lat, lon).len() ==> !spec_is_sep(
                #[trigger] spec_tile_filename(lat, lon)[i],
            ),
{
}

/// A canonical tile filename parses back to exactly its key.
pub proof fn lemma_canonical_name_parses(k: TileKey)
    requires
        -99 <= k.lat <= 99,
        -999 <= k.lon <= 999,
    ensures
        spec_parse_tile_name(spec_tile_filename(k.lat as int, k.lon as int)) == Some(
            (k.lat as int, k.lon as int),
        ),
        spec_parse_tile_name_i32(spec_tile_filename(k.lat as int, k.lon as int)) == Some(
            (k.lat, k.lon),
        ),
{
    let lat = k.lat as int;
    let lon = k.lon as int;
    let name = spec_tile_filename(lat, lon);
    let lat_abs = if lat >= 0 { lat } else { -lat };
    let lon_abs = if lon >= 0 { lon } else { -lon };

    lemma_filename_no_sep(lat, lon);
    lemma_sep_cut_at(name, 0);
    assert(spec_after_last_sep(name) =~= name);

    let bare = spec_strip_hgt(name);
    assert(bare =~= name.subrange(0, 7));

    lemma_two_digits_value(lat_abs);
    lemma_three_digits_value(lon_abs);
    assert(bare[1] == spec_two_digits(lat_abs)[0]);
    assert(bare[2] == spec_two_digits(lat_abs)[1]);
    assert(bare[4] == spec_three_digits(lon_abs)[0]);
    assert(bare[5] == spec_three_digits(lon_abs)[1]);
    assert(bare[6] == spec_three_digits(lon_abs)[2]);
    assert(spec_parse7(bare) == Some((lat, lon)));
}

/// Round trip: parsing the canonical filename of any valid coordinate
/// yields exactly the floor of its latitude and longitude.
pub proof fn lemma_filename_round_trip(c: Coord)
    requires
        spec_valid_coord(c),
    ensures
        spec_parse_tile_name(
            spec_tile_filename(floor_deg(c.lat_micro as int), floor_deg(c.lon_micro as int)),
        ) == Some((floor_deg(c.lat_micro as int), floor_deg(c.lon_micro as int))),
{
    let lat = floor_deg(c.lat_micro as int);
    let lon = floor_deg(c.lon_micro as int);
    assert(-60 <= lat <= 60 && -180 <= lon <= 180) by {
        vstd::arithmetic::div_mod::lemma_fundamental_div_mod(c.lat_micro as int, 1_000_000int);
        vstd::arithmetic::div_mod::lemma_fundamental_div_mod(c.lon_micro as int, 1_000_000int);
    }
    lemma_canonical_name_parses(TileKey { lat: lat as i32, lon: lon as i32 });
}

} // verus!

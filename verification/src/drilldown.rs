//! Drilldown analyzer: parses a flat comma-separated coordinate list and
//! computes, per tileset and per zoom level, how many distinct tiles of the
//! standard tile grid cover the given points. Coordinates are projected
//! planar values held in fixed point (millionths), so an operator can
//! estimate cache pre-warming cost without rendering a single tile.
//!
//! Malformed input — a non-numeric token or an odd count — fails the whole
//! request as a client error; partial statistics are never produced.

use vstd::prelude::*;
use crate::bytes::{
    all_digits, copy_bytes, digits_value, extend_bytes, skip_first, spec_split, split_bytes,
    strip_suffix, BYTE_COMMA, BYTE_DOT,
};

verus! {

/// Leading byte of a negative number token.
pub const BYTE_MINUS: u8 = 45;

/// Largest integer part accepted in a coordinate token. It keeps every
/// parsed magnitude in millionths inside `i64`.
pub const MAX_INT_PART: u64 = 9_000_000_000_000;

/// Millionths per unit: parsed coordinates are held in fixed point.
pub const MICROS_PER_UNIT: u64 = 1_000_000;

/// Half-width of the projected world extent, in millionths: tile row and
/// column 0 start at `-WORLD_EXTENT_MICROS` on both axes.
pub const WORLD_EXTENT_MICROS: i64 = 20_037_508_342_789;

/// One projected point, both axes in millionths.
#[derive(PartialEq, Eq, Structural, Debug)]
pub struct DrilldownPoint {
    pub x: i64,
    pub y: i64,
}

impl View for DrilldownPoint {
    type V = (int, int);

    open spec fn view(&self) -> (int, int) {
        (self.x as int, self.y as int)
    }
}

/// `10^n`.
pub open spec fn spec_pow10(n: nat) -> nat
    decreases n,
{
    if n == 0 {
        1
    } else {
        10 * spec_pow10((n - 1) as nat)
    }
}

/// The fraction digits of a token, scaled to millionths: digits beyond the
/// sixth are truncated.
pub open spec fn spec_frac_micros(f: Seq<u8>) -> nat {
    if f.len() >= 6 {
        digits_value(f.take(6))
    } else {
        digits_value(f) * spec_pow10((6 - f.len()) as nat)
    }
}

/// The value of one coordinate token in millionths: an optional minus sign,
/// then digits with an optional dot and fraction digits, at least one digit
/// in all; the integer part at most `MAX_INT_PART`. Negative values truncate
/// toward zero.
pub open spec fn spec_number(t: Seq<u8>) -> Option<int> {
    if t.len() == 0 {
        None
    } else {
        let neg = t[0] == BYTE_MINUS;
        let u = if neg {
            t.skip(1)
        } else {
            t
        };
        let parts = spec_split(u, BYTE_DOT);
        let shape_ok = if parts.len() == 1 {
            parts[0].len() > 0 && all_digits(parts[0])
        } else if parts.len() == 2 {
            all_digits(parts[0]) && all_digits(parts[1]) && parts[0].len() + parts[1].len() > 0
        } else {
            false
        };
        if shape_ok {
            let ip = parts[0];
            let fp = if parts.len() == 2 {
                parts[1]
            } else {
                Seq::empty()
            };
            if digits_value(ip) <= MAX_INT_PART {
                let mag = digits_value(ip) * MICROS_PER_UNIT + spec_frac_micros(fp);
                if neg {
                    Some(-(mag as int))
                } else {
                    Some(mag as int)
                }
            } else {
                None
            }
        } else {
            None
        }
    }
}

/// Parses a digit string whose value stays within `MAX_INT_PART`; the empty
/// string parses to zero.
fn parse_digits_bounded(s: &[u8]) -> (r: Option<u64>)
    ensures
        match r {
            Some(n) => all_digits(s@) && digits_value(s@) <= MAX_INT_PART && n == digits_value(s@),
            None => !all_digits(s@) || digits_value(s@) > MAX_INT_PART,
        },
{
    let n = s.len();
    let mut acc: u64 = 0;
    let mut too_big: bool = false;
    let mut i: usize = 0;
    while i < n
        invariant
            n == s@.len(),
            0 <= i <= n,
            forall|j: int| 0 <= j < i ==> crate::bytes::is_digit(s@[j]),
            !too_big ==> acc == digits_value(s@.subrange(0, i as int)) && acc <= MAX_INT_PART,
            too_big ==> digits_value(s@.subrange(0, i as int)) > MAX_INT_PART,
        decreases n - i,
    {
        let b = s[i];
        if b < 48 || b > 57 {
            return None;
        }
        let d = b - 48;
        proof {
            assert(s@.subrange(0, i + 1 as int).drop_last() =~= s@.subrange(0, i as int));
            assert(digits_value(s@.subrange(0, i + 1 as int)) == digits_value(
                s@.subrange(0, i as int),
            ) * 10 + d as nat);
        }
        if !too_big {
            if acc > (MAX_INT_PART - d as u64) / 10 {
                too_big = true;
            } else {
                acc = acc * 10 + d as u64;
            }
        }
        i += 1;
    }
    proof {
        assert(s@.subrange(0, n as int) =~= s@);
    }
    if too_big {
        None
    } else {
        Some(acc)
    }
}

/// `10^n` for small `n`.
fn pow10_small(n: usize) -> (r: u64)
    requires
        n <= 6,
    ensures
        r == spec_pow10(n as nat),
{
    let mut r: u64 = 1;
    let mut i: usize = 0;
    while i < n
        invariant
            0 <= i <= n <= 6,
            r == spec_pow10(i as nat),
            r <= 1_000_000,
        decreases n - i,
    {
        proof {
            assert(spec_pow10((i + 1) as nat) == 10 * spec_pow10(i as nat));
            lemma_pow10_le_million((i + 1) as nat);
        }
        r = r * 10;
        i += 1;
    }
    r
}

/// Parses one coordinate token to millionths.
pub fn parse_number(t: &[u8]) -> (r: Option<i64>)
    ensures
        match r {
            Some(v) => spec_number(t@) == Some(v as int),
            None => spec_number(t@) is None,
        },
{
    if t.len() == 0 {
        return None;
    }
    let neg = t[0] == BYTE_MINUS;
    let rest: Vec<u8> = if neg {
        skip_first(t)
    } else {
        copy_bytes(t)
    };
    proof {
        if neg {
            assert(rest@ == t@.skip(1));
        } else {
            assert(rest@ == t@);
        }
    }
    let parts = split_bytes(rest.as_slice(), BYTE_DOT);
    let ghost pm = parts@.map_values(|p: Vec<u8>| p@);
    proof {
        assert(pm == spec_split(rest@, BYTE_DOT));
        assert(pm[0] == parts@[0]@);
    }
    if parts.len() > 2 {
        return None;
    }
    let ip_val = match parse_digits_bounded(parts[0].as_slice()) {
        Some(v) => v,
        None => {
            return None;
        },
    };
    proof {
        assert(ip_val <= MAX_INT_PART);
        assert(ip_val * MICROS_PER_UNIT <= MAX_INT_PART * MICROS_PER_UNIT) by (nonlinear_arith)
            requires
                ip_val <= MAX_INT_PART,
        ;
    }
    if parts.len() == 1 {
        if parts[0].len() == 0 {
            return None;
        }
        let mag = ip_val * MICROS_PER_UNIT;
        proof {
            assert(spec_frac_micros(Seq::empty()) == 0) by {
                assert(digits_value(Seq::<u8>::empty()) == 0);
                assert(spec_pow10(6) == 1_000_000) by {
                    reveal_with_fuel(spec_pow10, 8);
                }
            }
        }
        if neg {
            Some(-(mag as i64))
        } else {
            Some(mag as i64)
        }
    } else {
        proof {
            assert(pm[1] == parts@[1]@);
        }
        if parts[0].len() == 0 && parts[1].len() == 0 {
            return None;
        }
        if !check_all_digits(parts[1].as_slice()) {
            return None;
        }
        let frac: u64 = frac_micros(parts[1].as_slice());
        let mag = ip_val * MICROS_PER_UNIT + frac;
        if neg {
            Some(-(mag as i64))
        } else {
            Some(mag as i64)
        }
    }
}

/// The value of a bounded digit string, for at most six digits.
fn six_digits_value(s: &[u8]) -> (r: u64)
    requires
        all_digits(s@),
        s@.len() <= 6,
    ensures
        r == digits_value(s@),
        r < 1_000_000,
{
    let n = s.len();
    let mut acc: u64 = 0;
    let mut i: usize = 0;
    while i < n
        invariant
            n == s@.len() <= 6,
            all_digits(s@),
            0 <= i <= n,
            acc == digits_value(s@.subrange(0, i as int)),
            acc < spec_pow10(i as nat),
            acc < 1_000_000,
        decreases n - i,
    {
        let b = s[i];
        let d = b - 48;
        proof {
            assert(s@.subrange(0, i + 1 as int).drop_last() =~= s@.subrange(0, i as int));
            assert(digits_value(s@.subrange(0, i + 1 as int)) == digits_value(
                s@.subrange(0, i as int),
            ) * 10 + d as nat);
            assert(spec_pow10((i + 1) as nat) == 10 * spec_pow10(i as nat));
            lemma_pow10_le_million((i + 1) as nat);
        }
        acc = acc * 10 + d as u64;
        i += 1;
    }
    proof {
        assert(s@.subrange(0, n as int) =~= s@);
    }
    acc
}

/// Ten to a power at most six stays at most one million.
proof fn lemma_pow10_le_million(k: nat)
    requires
        k <= 6,
    ensures
        spec_pow10(k) <= 1_000_000,
    decreases 6 - k,
{
    if k == 6 {
        assert(spec_pow10(6) == 1_000_000) by {
            reveal_with_fuel(spec_pow10, 8);
        }
    } else {
        lemma_pow10_le_million(k + 1);
        assert(spec_pow10(k + 1) == 10 * spec_pow10(k));
    }
}

/// Scales a fraction-digit string to millionths, truncating past the sixth
/// digit.
fn frac_micros(fp: &[u8]) -> (r: u64)
    requires
        all_digits(fp@),
    ensures
        r == spec_frac_micros(fp@),
        r < 1_000_000,
{
    if fp.len() >= 6 {
        let head = strip_suffix(fp, fp.len() - 6);
        proof {
            assert(head@ =~= fp@.take(6));
            assert(all_digits(fp@.take(6))) by {
                assert(forall|j: int| 0 <= j < 6 ==> fp@.take(6)[j] == fp@[j]);
            }
        }
        six_digits_value(head.as_slice())
    } else {
        let raw = six_digits_value(fp);
        let scale = pow10_small(6 - fp.len());
        proof {
            lemma_digits_bound(fp@);
            lemma_pow10_mul_bound(fp@.len() as nat);
            assert(raw * scale < 1_000_000) by (nonlinear_arith)
                requires
                    raw < spec_pow10(fp@.len() as nat),
                    scale == spec_pow10((6 - fp@.len()) as nat),
                    spec_pow10(fp@.len() as nat) * spec_pow10((6 - fp@.len()) as nat)
                        == 1_000_000,
            ;
        }
        raw * scale
    }
}

/// A string of `n` digits writes a number below `10^n`.
proof fn lemma_digits_bound(s: Seq<u8>)
    requires
        all_digits(s),
    ensures
        digits_value(s) < spec_pow10(s.len()),
    decreases s.len(),
{
    if s.len() == 0 {
    } else {
        assert(all_digits(s.drop_last())) by {
            assert(forall|j: int| 0 <= j < s.len() - 1 ==> s.drop_last()[j] == s[j]);
        }
        lemma_digits_bound(s.drop_last());
        assert(spec_pow10(s.len()) == 10 * spec_pow10((s.len() - 1) as nat));
    }
}

/// Scaling fewer than seven fraction digits to millionths stays below one
/// million.
proof fn lemma_pow10_mul_bound(k: nat)
    requires
        k <= 6,
    ensures
        spec_pow10(k) * spec_pow10((6 - k) as nat) == 1_000_000,
    decreases k,
{
    if k == 0 {
        assert(spec_pow10(6) == 1_000_000) by {
            reveal_with_fuel(spec_pow10, 8);
        }
        assert(spec_pow10(0) == 1);
        assert((6 - k) as nat == 6);
        assert(spec_pow10(k) * spec_pow10((6 - k) as nat) == 1_000_000);
    } else {
        lemma_pow10_mul_bound((k - 1) as nat);
        assert((6 - ((k - 1) as nat)) as nat == (7 - k) as nat);
        assert(spec_pow10((k - 1) as nat) * spec_pow10((7 - k) as nat) == 1_000_000);
        assert(spec_pow10(k) == 10 * spec_pow10((k - 1) as nat));
        assert(spec_pow10((7 - k) as nat) == 10 * spec_pow10((6 - k) as nat));
        assert(spec_pow10(k) * spec_pow10((6 - k) as nat) == 1_000_000) by (nonlinear_arith)
            requires
                spec_pow10((k - 1) as nat) * spec_pow10((7 - k) as nat) == 1_000_000,
                spec_pow10(k) == 10 * spec_pow10((k - 1) as nat),
                spec_pow10((7 - k) as nat) == 10 * spec_pow10((6 - k) as nat),
        ;
    }
}

fn check_all_digits(s: &[u8]) -> (r: bool)
    ensures
        r == all_digits(s@),
{
    let n = s.len();
    let mut i: usize = 0;
    while i < n
        invariant
            n == s@.len(),
            0 <= i <= n,
            forall|j: int| 0 <= j < i ==> crate::bytes::is_digit(s@[j]),
        decreases n - i,
    {
        if s[i] < 48 || s[i] > 57 {
            return false;
        }
        i += 1;
    }
    true
}

/// Why a point list was rejected.
#[derive(PartialEq, Eq, Structural, Debug)]
pub enum PointsError {
    /// Some token is not a number this grammar accepts.
    NotNumeric,
    /// The flat list has an odd number of values.
    OddCount,
}

/// The parse of a whole `points` value: every comma-separated token must be
/// numeric and the count even; then the tokens pair up in order.
pub open spec fn spec_parse_points(s: Seq<u8>) -> Option<Seq<(int, int)>> {
    let toks = spec_split(s, BYTE_COMMA);
    if (forall|i: int| 0 <= i < toks.len() ==> spec_number(toks[i]) is Some) && toks.len() % 2
        == 0 {
        Some(
            Seq::new(
                (toks.len() / 2) as nat,
                |i: int|
                    (
                        spec_number(toks[2 * i]).unwrap(),
                        spec_number(toks[2 * i + 1]).unwrap(),
                    ),
            ),
        )
    } else {
        None
    }
}

/// Parses the flat coordinate list. No partial result ever escapes: the
/// error says whether a token was non-numeric or the count odd.
pub fn parse_points(s: &[u8]) -> (r: Result<Vec<DrilldownPoint>, PointsError>)
    ensures
        ({
            let toks = spec_split(s@, BYTE_COMMA);
            match r {
                Ok(ps) => spec_parse_points(s@) == Some(
                    ps@.map_values(|p: DrilldownPoint| p@),
                ),
                Err(e) => spec_parse_points(s@) is None && (e == PointsError::NotNumeric <==> exists|
                    i: int,
                |
                    0 <= i < toks.len() && spec_number(toks[i]) is None),
            }
        }),
{
    let toks = split_bytes(s, BYTE_COMMA);
    let ghost tm = toks@.map_values(|t: Vec<u8>| t@);
    let n = toks.len();
    let mut vals: Vec<i64> = Vec::new();
    let mut i: usize = 0;
    while i < n
        invariant
            n == toks@.len(),
            tm == toks@.map_values(|t: Vec<u8>| t@),
            tm == spec_split(s@, BYTE_COMMA),
            0 <= i <= n,
            vals@.len() == i,
            forall|j: int| 0 <= j < i ==> spec_number(tm[j]) == Some(vals@[j] as int),
        decreases n - i,
    {
        match parse_number(toks[i].as_slice()) {
            Some(v) => {
                vals.push(v);
            },
            None => {
                proof {
                    assert(tm[i as int] == toks@[i as int]@);
                    assert(spec_number(tm[i as int]) is None);
                }
                return Err(PointsError::NotNumeric);
            },
        }
        i += 1;
    }
    if n % 2 != 0 {
        proof {
            assert(forall|j: int| 0 <= j < tm.len() ==> spec_number(tm[j]) is Some);
        }
        return Err(PointsError::OddCount);
    }
    let half = n / 2;
    let mut out: Vec<DrilldownPoint> = Vec::new();
    let mut k: usize = 0;
    while k < half
        invariant
            n == toks@.len(),
            tm == spec_split(s@, BYTE_COMMA),
            n % 2 == 0,
            half == n / 2,
            vals@.len() == n,
            forall|j: int| 0 <= j < n ==> spec_number(tm[j]) == Some(vals@[j] as int),
            0 <= k <= half,
            out@.len() == k,
            forall|j: int|
                0 <= j < k ==> out@[j]@ == (vals@[2 * j] as int, vals@[2 * j + 1] as int),
        decreases half - k,
    {
        out.push(DrilldownPoint { x: vals[2 * k], y: vals[2 * k + 1] });
        k += 1;
    }
    proof {
        let expected = spec_parse_points(s@).unwrap();
        assert(out@.map_values(|p: DrilldownPoint| p@) =~= expected);
    }
    Ok(out)
}

/// `2^n`.
pub open spec fn spec_pow2(n: nat) -> nat
    decreases n,
{
    if n == 0 {
        1
    } else {
        2 * spec_pow2((n - 1) as nat)
    }
}

/// Two to a power at most thirty stays at most `2^30`.
proof fn lemma_pow2_le(k: nat)
    requires
        k <= 30,
    ensures
        spec_pow2(k) <= 0x40000000,
    decreases 30 - k,
{
    if k == 30 {
        assert(spec_pow2(30) == 0x40000000) by {
            reveal_with_fuel(spec_pow2, 31);
        }
    } else {
        lemma_pow2_le(k + 1);
        assert(spec_pow2(k + 1) == 2 * spec_pow2(k));
    }
}

/// `2^z` for a zoom level.
fn two_pow(z: u8) -> (r: u64)
    requires
        z <= 30,
    ensures
        r == spec_pow2(z as nat),
        1 <= r <= 0x40000000,
{
    let mut r: u64 = 1;
    let mut i: u8 = 0;
    while i < z
        invariant
            0 <= i <= z <= 30,
            r == spec_pow2(i as nat),
            1 <= r <= 0x40000000,
        decreases z - i,
    {
        proof {
            assert(spec_pow2((i + 1) as nat) == 2 * spec_pow2(i as nat));
            lemma_pow2_le((i + 1) as nat);
        }
        r = r * 2;
        i += 1;
    }
    proof {
        lemma_pow2_le(z as nat);
    }
    r
}

/// The tile index covering coordinate `c` at zoom `z` under the standard
/// tile grid: the world span `[-WORLD_EXTENT_MICROS, WORLD_EXTENT_MICROS]`
/// is cut into `2^z` equal tiles; out-of-range coordinates clamp to the edge
/// tiles.
pub open spec fn spec_tile_cover(c: int, z: nat) -> int {
    let e = WORLD_EXTENT_MICROS as int;
    let clamped = if c < -e {
        -e
    } else if c > e {
        e
    } else {
        c
    };
    let t = ((clamped + e) * spec_pow2(z)) / (2 * e);
    if t >= spec_pow2(z) {
        spec_pow2(z) - 1
    } else {
        t
    }
}

/// Computes the covering tile index for one axis.
pub fn tile_cover(c: i64, z: u8) -> (r: u32)
    requires
        z <= 30,
    ensures
        r as int == spec_tile_cover(c as int, z as nat),
        r < spec_pow2(z as nat),
{
    let e = WORLD_EXTENT_MICROS;
    let clamped: i64 = if c < -e {
        -e
    } else if c > e {
        e
    } else {
        c
    };
    let num: u64 = (clamped + e) as u64;
    let p: u64 = two_pow(z);
    proof {
        assert(num as int * p as int <= 0x10000000000000000000) by (nonlinear_arith)
            requires
                num <= 2 * WORLD_EXTENT_MICROS,
                p <= 0x40000000,
        ;
    }
    let prod: u128 = (num as u128) * (p as u128);
    let denom: u128 = 2 * (e as u128);
    let t: u128 = prod / denom;
    if t >= p as u128 {
        (p - 1) as u32
    } else {
        t as u32
    }
}

/// The first occurrence of each element, in order.
pub open spec fn spec_distinct<A>(s: Seq<A>) -> Seq<A>
    decreases s.len(),
{
    if s.len() == 0 {
        s
    } else if s.drop_last().contains(s.last()) {
        spec_distinct(s.drop_last())
    } else {
        spec_distinct(s.drop_last()).push(s.last())
    }
}

/// Deduplication keeps membership: an element occurs in the distinct list
/// exactly when it occurs in the input sequence.
pub proof fn lemma_distinct_contains<A>(s: Seq<A>, x: A)
    ensures
        spec_distinct(s).contains(x) == s.contains(x),
    decreases s.len(),
{
    if s.len() == 0 {
    } else {
        let dl = s.drop_last();
        lemma_distinct_contains(dl, x);
        assert(s.contains(x) == (dl.contains(x) || s.last() == x)) by {
            if s.contains(x) {
                let i = choose|i: int| 0 <= i < s.len() && s[i] == x;
                if i < s.len() - 1 {
                    assert(dl[i] == x);
                }
            }
            if dl.contains(x) {
                let i = choose|i: int| 0 <= i < dl.len() && dl[i] == x;
                assert(s[i] == x);
            }
            if s.last() == x {
                assert(s[s.len() - 1] == x);
            }
        }
        if !dl.contains(s.last()) {
            assert(spec_distinct(s) == spec_distinct(dl).push(s.last()));
            assert(spec_distinct(s).contains(x) == (spec_distinct(dl).contains(x) || s.last()
                == x)) by {
                if spec_distinct(s).contains(x) {
                    let i = choose|i: int|
                        0 <= i < spec_distinct(s).len() && spec_distinct(s)[i] == x;
                    if i < spec_distinct(s).len() - 1 {
                        assert(spec_distinct(dl)[i] == x);
                    }
                }
                if spec_distinct(dl).contains(x) {
                    let i = choose|i: int|
                        0 <= i < spec_distinct(dl).len() && spec_distinct(dl)[i] == x;
                    assert(spec_distinct(s)[i] == x);
                }
                if s.last() == x {
                    assert(spec_distinct(s).last() == x);
                }
            }
        }
    }
}

/// The tile covering one point at one zoom, both axes.
pub open spec fn spec_cover_of(p: (int, int), z: nat) -> (int, int) {
    (spec_tile_cover(p.0, z), spec_tile_cover(p.1, z))
}

/// The covering tiles of a point list at one zoom, in point order.
pub open spec fn spec_covers(pts: Seq<(int, int)>, z: nat) -> Seq<(int, int)> {
    pts.map_values(|p: (int, int)| spec_cover_of(p, z))
}

/// Model of an executable tile-index pair.
pub open spec fn spec_tiles_model(tiles: Seq<(u32, u32)>) -> Seq<(int, int)> {
    tiles.map_values(|t: (u32, u32)| (t.0 as int, t.1 as int))
}

fn contains_tile(tiles: &Vec<(u32, u32)>, t: (u32, u32)) -> (r: bool)
    ensures
        r == spec_tiles_model(tiles@).contains((t.0 as int, t.1 as int)),
{
    let ghost tm = spec_tiles_model(tiles@);
    let n = tiles.len();
    let mut i: usize = 0;
    while i < n
        invariant
            n == tiles@.len(),
            tm == spec_tiles_model(tiles@),
            0 <= i <= n,
            forall|j: int| 0 <= j < i ==> tm[j] != (t.0 as int, t.1 as int),
        decreases n - i,
    {
        if tiles[i].0 == t.0 && tiles[i].1 == t.1 {
            proof {
                assert(tm[i as int] == (t.0 as int, t.1 as int));
            }
            return true;
        }
        i += 1;
    }
    false
}

/// Computes the distinct covering tiles of the points at one zoom, in first
/// occurrence order.
pub fn distinct_tiles(points: &Vec<DrilldownPoint>, z: u8) -> (tiles: Vec<(u32, u32)>)
    requires
        z <= 30,
    ensures
        spec_tiles_model(tiles@) == spec_distinct(
            spec_covers(points@.map_values(|p: DrilldownPoint| p@), z as nat),
        ),
{
    let ghost pm = points@.map_values(|p: DrilldownPoint| p@);
    let ghost cm = spec_covers(pm, z as nat);
    let n = points.len();
    let mut tiles: Vec<(u32, u32)> = Vec::new();
    proof {
        assert(cm.take(0) =~= Seq::<(int, int)>::empty());
        assert(spec_tiles_model(tiles@) =~= spec_distinct(cm.take(0)));
    }
    let mut i: usize = 0;
    while i < n
        invariant
            z <= 30,
            n == points@.len(),
            pm == points@.map_values(|p: DrilldownPoint| p@),
            cm == spec_covers(pm, z as nat),
            cm.len() == n,
            0 <= i <= n,
            spec_tiles_model(tiles@) == spec_distinct(cm.take(i as int)),
        decreases n - i,
    {
        let tx = tile_cover(points[i].x, z);
        let ty = tile_cover(points[i].y, z);
        proof {
            assert(cm[i as int] == spec_cover_of(pm[i as int], z as nat));
            assert(pm[i as int] == points@[i as int]@);
            assert((tx as int, ty as int) == cm[i as int]);
            assert(cm.take(i + 1).drop_last() =~= cm.take(i as int));
            assert(cm.take(i + 1).last() == cm[i as int]);
            lemma_distinct_contains(cm.take(i as int), cm[i as int]);
        }
        if !contains_tile(&tiles, (tx, ty)) {
            tiles.push((tx, ty));
            proof {
                assert(spec_tiles_model(tiles@) =~= spec_distinct(cm.take(i as int)).push(
                    cm[i as int],
                ));
            }
        }
        i += 1;
    }
    proof {
        assert(cm.take(n as int) =~= cm);
    }
    tiles
}

/// One configured tileset: its name and its configured zoom bounds, used as
/// drilldown defaults.
pub struct TilesetInfo {
    pub name: Vec<u8>,
    pub minzoom: u8,
    pub maxzoom: u8,
}

/// Mathematical model of a `TilesetInfo`.
pub struct TilesetModel {
    pub name: Seq<u8>,
    pub minzoom: u8,
    pub maxzoom: u8,
}

impl View for TilesetInfo {
    type V = TilesetModel;

    open spec fn view(&self) -> TilesetModel {
        TilesetModel { name: self.name@, minzoom: self.minzoom, maxzoom: self.maxzoom }
    }
}

/// One aggregate row: distinct covering tiles for one tileset at one zoom.
pub struct StatEntry {
    pub tileset: Vec<u8>,
    pub zoom: u8,
    pub tiles: usize,
}

/// Mathematical model of a `StatEntry`.
pub struct StatModel {
    pub tileset: Seq<u8>,
    pub zoom: u8,
    pub tiles: int,
}

impl View for StatEntry {
    type V = StatModel;

    open spec fn view(&self) -> StatModel {
        StatModel { tileset: self.tileset@, zoom: self.zoom, tiles: self.tiles as int }
    }
}

/// The drilldown aggregate, computed fresh per request and never persisted.
pub struct DrilldownStats {
    pub entries: Vec<StatEntry>,
}

/// Coordinates are validated to this zoom at most.
pub const MAX_DRILLDOWN_ZOOM: u8 = 30;

/// The lower zoom bound in effect: the query value overrides the tileset
/// default.
pub open spec fn spec_zoom_lo(ts: TilesetModel, minq: Option<u8>) -> u8 {
    match minq {
        Some(z) => z,
        None => ts.minzoom,
    }
}

/// The upper zoom bound in effect: the query value overrides the tileset
/// default; either is capped at the deepest valid zoom.
pub open spec fn spec_zoom_hi(ts: TilesetModel, maxq: Option<u8>) -> u8 {
    let h = match maxq {
        Some(z) => z,
        None => ts.maxzoom,
    };
    if h > MAX_DRILLDOWN_ZOOM {
        MAX_DRILLDOWN_ZOOM
    } else {
        h
    }
}

/// Whether a tileset is in scope for a request: all of them without a
/// filter, exactly the named one with.
pub open spec fn spec_in_scope(ts: TilesetModel, filter: Option<Seq<u8>>) -> bool {
    match filter {
        None => true,
        Some(f) => ts.name == f,
    }
}

/// The rows owed for one tileset: one per zoom in the effective range, in
/// ascending zoom order, counting the distinct covering tiles of the points.
pub open spec fn spec_tileset_stats(
    ts: TilesetModel,
    minq: Option<u8>,
    maxq: Option<u8>,
    pts: Seq<(int, int)>,
) -> Seq<StatModel> {
    let lo = spec_zoom_lo(ts, minq);
    let hi = spec_zoom_hi(ts, maxq);
    if lo > hi {
        Seq::empty()
    } else {
        Seq::new(
            (hi - lo + 1) as nat,
            |k: int|
                StatModel {
                    tileset: ts.name,
                    zoom: (lo + k) as u8,
                    tiles: spec_distinct(spec_covers(pts, (lo + k) as nat)).len() as int,
                },
        )
    }
}

/// The full drilldown: the in-scope tilesets in configuration order, each
/// contributing its per-zoom rows.
pub open spec fn spec_drilldown_stats(
    tss: Seq<TilesetModel>,
    filter: Option<Seq<u8>>,
    minq: Option<u8>,
    maxq: Option<u8>,
    pts: Seq<(int, int)>,
) -> Seq<StatModel>
    decreases tss.len(),
{
    if tss.len() == 0 {
        Seq::empty()
    } else {
        let head = if spec_in_scope(tss[0], filter) {
            spec_tileset_stats(tss[0], minq, maxq, pts)
        } else {
            Seq::empty()
        };
        head + spec_drilldown_stats(tss.skip(1), filter, minq, maxq, pts)
    }
}

/// Model of an optional tileset filter.
pub open spec fn spec_filter_model(filter: Option<&Vec<u8>>) -> Option<Seq<u8>> {
    match filter {
        Some(f) => Some(f@),
        None => None,
    }
}

/// Computes drilldown statistics for the in-scope tilesets over the
/// effective zoom ranges. Deterministic and side-effect free: no tile is
/// rendered or cached.
pub fn drilldown(
    tilesets: &Vec<TilesetInfo>,
    filter: Option<&Vec<u8>>,
    minzoom: Option<u8>,
    maxzoom: Option<u8>,
    points: &Vec<DrilldownPoint>,
) -> (r: DrilldownStats)
    ensures
        r.entries@.map_values(|e: StatEntry| e@) == spec_drilldown_stats(
            tilesets@.map_values(|t: TilesetInfo| t@),
            spec_filter_model(filter),
            minzoom,
            maxzoom,
            points@.map_values(|p: DrilldownPoint| p@),
        ),
{
    let ghost tsm = tilesets@.map_values(|t: TilesetInfo| t@);
    let ghost fm = spec_filter_model(filter);
    let ghost pm = points@.map_values(|p: DrilldownPoint| p@);
    let n = tilesets.len();
    let mut entries: Vec<StatEntry> = Vec::new();
    proof {
        assert(tsm.skip(0) =~= tsm);
        assert(entries@.map_values(|e: StatEntry| e@) =~= Seq::<StatModel>::empty());
    }
    let mut i: usize = 0;
    while i < n
        invariant
            n == tilesets@.len(),
            tsm == tilesets@.map_values(|t: TilesetInfo| t@),
            fm == spec_filter_model(filter),
            pm == points@.map_values(|p: DrilldownPoint| p@),
            0 <= i <= n,
            spec_drilldown_stats(tsm, fm, minzoom, maxzoom, pm) == entries@.map_values(
                |e: StatEntry| e@,
            ) + spec_drilldown_stats(tsm.skip(i as int), fm, minzoom, maxzoom, pm),
        decreases n - i,
    {
        proof {
            assert(tsm.skip(i as int)[0] == tsm[i as int]);
            assert(tsm.skip(i as int).skip(1) =~= tsm.skip(i + 1));
        }
        let in_scope = match filter {
            Some(f) => crate::bytes::bytes_eq(tilesets[i].name.as_slice(), f.as_slice()),
            None => true,
        };
        if in_scope {
            let lo: u8 = match minzoom {
                Some(z) => z,
                None => tilesets[i].minzoom,
            };
            let hi0: u8 = match maxzoom {
                Some(z) => z,
                None => tilesets[i].maxzoom,
            };
            let hi: u8 = if hi0 > MAX_DRILLDOWN_ZOOM {
                MAX_DRILLDOWN_ZOOM
            } else {
                hi0
            };
            proof {
                assert(lo == spec_zoom_lo(tsm[i as int], minzoom));
                assert(hi == spec_zoom_hi(tsm[i as int], maxzoom));
            }
            if lo <= hi {
                let ghost base = entries@.map_values(|e: StatEntry| e@);
                let ghost piece = spec_tileset_stats(tsm[i as int], minzoom, maxzoom, pm);
                let mut zi: usize = lo as usize;
                proof {
                    assert(base + piece.take(0) =~= base);
                }
                while zi <= hi as usize
                    invariant
                        n == tilesets@.len(),
                        tsm == tilesets@.map_values(|t: TilesetInfo| t@),
                        pm == points@.map_values(|p: DrilldownPoint| p@),
                        0 <= i < n,
                        lo == spec_zoom_lo(tsm[i as int], minzoom),
                        hi == spec_zoom_hi(tsm[i as int], maxzoom),
                        lo <= hi <= MAX_DRILLDOWN_ZOOM,
                        piece == spec_tileset_stats(tsm[i as int], minzoom, maxzoom, pm),
                        piece.len() == hi - lo + 1,
                        lo as usize <= zi <= hi as usize + 1,
                        entries@.map_values(|e: StatEntry| e@) == base + piece.take(
                            zi - lo as usize,
                        ),
                    decreases hi as usize + 1 - zi,
                {
                    let z: u8 = zi as u8;
                    let tiles = distinct_tiles(points, z);
                    let mut name: Vec<u8> = Vec::new();
                    extend_bytes(&mut name, tilesets[i].name.as_slice());
                    proof {
                        assert(name@ =~= tsm[i as int].name);
                    }
                    let entry = StatEntry { tileset: name, zoom: z, tiles: tiles.len() };
                    proof {
                        let k = zi - lo as int;
                        assert(piece[k].zoom == (lo + k) as u8 == z);
                        assert(spec_tiles_model(tiles@).len() == tiles@.len());
                        assert(entry@ == piece[k]);
                    }
                    let ghost pre = entries@;
                    entries.push(entry);
                    proof {
                        let k = zi - lo as int;
                        assert(entries@ == pre.push(entry));
                        assert(entries@.map_values(|e: StatEntry| e@) =~= pre.map_values(
                            |e: StatEntry| e@,
                        ).push(entry@));
                        assert(base + piece.take(k + 1) =~= (base + piece.take(k)).push(
                            piece[k],
                        ));
                        assert(entries@.map_values(|e: StatEntry| e@) =~= base + piece.take(
                            k + 1,
                        ));
                    }
                    zi += 1;
                }
                proof {
                    assert(piece.take(hi + 1 - lo as int) =~= piece);
                    assert(entries@.map_values(|e: StatEntry| e@) =~= base + piece);
                    assert(spec_drilldown_stats(tsm, fm, minzoom, maxzoom, pm)
                        == entries@.map_values(|e: StatEntry| e@) + spec_drilldown_stats(
                        tsm.skip(i + 1),
                        fm,
                        minzoom,
                        maxzoom,
                        pm,
                    )) by {
                        assert(base + spec_drilldown_stats(tsm.skip(i as int), fm, minzoom,
                            maxzoom, pm) =~= (base + piece) + spec_drilldown_stats(
                            tsm.skip(i + 1),
                            fm,
                            minzoom,
                            maxzoom,
                            pm,
                        ));
                    }
                }
            } else {
                proof {
                    assert(spec_tileset_stats(tsm[i as int], minzoom, maxzoom, pm)
                        =~= Seq::<StatModel>::empty());
                    assert(entries@.map_values(|e: StatEntry| e@) + spec_drilldown_stats(
                        tsm.skip(i as int),
                        fm,
                        minzoom,
                        maxzoom,
                        pm,
                    ) =~= entries@.map_values(|e: StatEntry| e@) + spec_drilldown_stats(
                        tsm.skip(i + 1),
                        fm,
                        minzoom,
                        maxzoom,
                        pm,
                    ));
                }
            }
        } else {
            proof {
                assert(entries@.map_values(|e: StatEntry| e@) + spec_drilldown_stats(
                    tsm.skip(i as int),
                    fm,
                    minzoom,
                    maxzoom,
                    pm,
                ) =~= entries@.map_values(|e: StatEntry| e@) + spec_drilldown_stats(
                    tsm.skip(i + 1),
                    fm,
                    minzoom,
                    maxzoom,
                    pm,
                ));
            }
        }
        i += 1;
    }
    proof {
        assert(tsm.skip(n as int) =~= Seq::<TilesetModel>::empty());
        assert(entries@.map_values(|e: StatEntry| e@) + Seq::<StatModel>::empty()
            =~= entries@.map_values(|e: StatEntry| e@));
    }
    DrilldownStats { entries }
}


} // verus!

//! Dispatch router: maps a request path to exactly one route of the fixed,
//! ordered template table, extracting typed segments. First match wins; a
//! path no template matches falls through to static resolution.

use vstd::prelude::*;
use crate::bytes::{
    all_digits, bytes_eq, copy_bytes, digits_value, ends_with, skip_first, spec_ends_with,
    spec_split, split_bytes, strip_suffix, BYTE_SLASH,
};

verus! {

/// The path literal `index.json`.
pub open spec fn spec_lit_index_json() -> Seq<u8> {
    seq![105u8, 110u8, 100u8, 101u8, 120u8, 46u8, 106u8, 115u8, 111u8, 110u8]
}

/// The path literal `fontstacks.json`.
pub open spec fn spec_lit_fontstacks_json() -> Seq<u8> {
    seq![102u8, 111u8, 110u8, 116u8, 115u8, 116u8, 97u8, 99u8, 107u8, 115u8, 46u8, 106u8, 115u8, 111u8, 110u8]
}

/// The path literal `fonts`.
pub open spec fn spec_lit_fonts_seg() -> Seq<u8> {
    seq![102u8, 111u8, 110u8, 116u8, 115u8]
}

/// The path literal `.pbf`.
pub open spec fn spec_lit_pbf_ext() -> Seq<u8> {
    seq![46u8, 112u8, 98u8, 102u8]
}

/// The path literal `.style.json`.
pub open spec fn spec_lit_style_json_ext() -> Seq<u8> {
    seq![46u8, 115u8, 116u8, 121u8, 108u8, 101u8, 46u8, 106u8, 115u8, 111u8, 110u8]
}

/// The path literal `metadata.json`.
pub open spec fn spec_lit_metadata_json() -> Seq<u8> {
    seq![109u8, 101u8, 116u8, 97u8, 100u8, 97u8, 116u8, 97u8, 46u8, 106u8, 115u8, 111u8, 110u8]
}

/// The path literal `.json`.
pub open spec fn spec_lit_json_ext() -> Seq<u8> {
    seq![46u8, 106u8, 115u8, 111u8, 110u8]
}

/// The path literal `drilldown`.
pub open spec fn spec_lit_drilldown_seg() -> Seq<u8> {
    seq![100u8, 114u8, 105u8, 108u8, 108u8, 100u8, 111u8, 119u8, 110u8]
}

/// Whether a segment writes a zoom level: digits for a value a `u8` holds.
pub open spec fn spec_is_u8_num(s: Seq<u8>) -> bool {
    s.len() > 0 && all_digits(s) && digits_value(s) <= u8::MAX
}

/// Whether a segment writes a tile index: digits for a value a `u32` holds.
pub open spec fn spec_is_u32_num(s: Seq<u8>) -> bool {
    s.len() > 0 && all_digits(s) && digits_value(s) <= u32::MAX
}

/// One matched route with its extracted segments.
pub enum Route {
    /// `/index.json`: the catalog metadata document.
    Index,
    /// `/fontstacks.json`: the fixed family list.
    Fontstacks,
    /// `/fonts/{stack}/{range}.pbf`: a glyph-range payload.
    FontGlyphs { stack: Vec<u8>, range: Vec<u8> },
    /// `/{tileset}.style.json`: a style document.
    StyleJson { tileset: Vec<u8> },
    /// `/{tileset}/metadata.json`: a metadata document.
    MetadataJson { tileset: Vec<u8> },
    /// `/{tileset}.json`: a TileJSON document.
    TileJson { tileset: Vec<u8> },
    /// `/{tileset}/{z}/{x}/{y}.pbf`: one tile.
    Tile { tileset: Vec<u8>, z: u8, x: u32, y: u32 },
    /// `/drilldown`: the coverage analyzer.
    Drilldown,
    /// No template matched: static resolution decides.
    Fallback,
}

/// Mathematical model of a `Route`.
pub enum RouteModel {
    Index,
    Fontstacks,
    FontGlyphs { stack: Seq<u8>, range: Seq<u8> },
    StyleJson { tileset: Seq<u8> },
    MetadataJson { tileset: Seq<u8> },
    TileJson { tileset: Seq<u8> },
    Tile { tileset: Seq<u8>, z: u8, x: u32, y: u32 },
    Drilldown,
    Fallback,
}

impl View for Route {
    type V = RouteModel;

    open spec fn view(&self) -> RouteModel {
        match self {
            Route::Index => RouteModel::Index,
            Route::Fontstacks => RouteModel::Fontstacks,
            Route::FontGlyphs { stack, range } => RouteModel::FontGlyphs {
                stack: stack@,
                range: range@,
            },
            Route::StyleJson { tileset } => RouteModel::StyleJson { tileset: tileset@ },
            Route::MetadataJson { tileset } => RouteModel::MetadataJson { tileset: tileset@ },
            Route::TileJson { tileset } => RouteModel::TileJson { tileset: tileset@ },
            Route::Tile { tileset, z, x, y } => RouteModel::Tile {
                tileset: tileset@,
                z: *z,
                x: *x,
                y: *y,
            },
            Route::Drilldown => RouteModel::Drilldown,
            Route::Fallback => RouteModel::Fallback,
        }
    }
}

/// The route of a path under the ordered template table. Matching goes
/// template by template; the first hit decides, so `/index.json` is the
/// catalog and never the TileJSON of a tileset named `index`.
pub open spec fn spec_route(path: Seq<u8>) -> RouteModel {
    if path.len() == 0 || path[0] != BYTE_SLASH {
        RouteModel::Fallback
    } else {
        let segs = spec_split(path.skip(1), BYTE_SLASH);
        if segs.len() == 1 && segs[0] == spec_lit_index_json() {
            RouteModel::Index
        } else if segs.len() == 1 && segs[0] == spec_lit_fontstacks_json() {
            RouteModel::Fontstacks
        } else if segs.len() == 3 && segs[0] == spec_lit_fonts_seg() && spec_ends_with(
            segs[2],
            spec_lit_pbf_ext(),
        ) {
            RouteModel::FontGlyphs { stack: segs[1], range: segs[2].take(segs[2].len() - 4) }
        } else if segs.len() == 1 && spec_ends_with(segs[0], spec_lit_style_json_ext())
            && segs[0].len() > 11 {
            RouteModel::StyleJson { tileset: segs[0].take(segs[0].len() - 11) }
        } else if segs.len() == 2 && segs[1] == spec_lit_metadata_json() && segs[0].len() > 0 {
            RouteModel::MetadataJson { tileset: segs[0] }
        } else if segs.len() == 1 && spec_ends_with(segs[0], spec_lit_json_ext()) && segs[0].len()
            > 5 {
            RouteModel::TileJson { tileset: segs[0].take(segs[0].len() - 5) }
        } else if segs.len() == 4 && segs[0].len() > 0 && spec_ends_with(
            segs[3],
            spec_lit_pbf_ext(),
        ) && spec_is_u8_num(segs[1]) && spec_is_u32_num(segs[2]) && spec_is_u32_num(
            segs[3].take(segs[3].len() - 4),
        ) {
            RouteModel::Tile {
                tileset: segs[0],
                z: digits_value(segs[1]) as u8,
                x: digits_value(segs[2]) as u32,
                y: digits_value(segs[3].take(segs[3].len() - 4)) as u32,
            }
        } else if segs.len() == 1 && segs[0] == spec_lit_drilldown_seg() {
            RouteModel::Drilldown
        } else {
            RouteModel::Fallback
        }
    }
}

fn lit_index_json() -> (v: Vec<u8>)
    ensures
        v@ == spec_lit_index_json(),
{
    let mut v: Vec<u8> = Vec::new();
    v.push(105);
    v.push(110);
    v.push(100);
    v.push(101);
    v.push(120);
    v.push(46);
    v.push(106);
    v.push(115);
    v.push(111);
    v.push(110);
    proof {
        assert(v@ =~= spec_lit_index_json());
    }
    v
}

fn lit_fontstacks_json() -> (v: Vec<u8>)
    ensures
        v@ == spec_lit_fontstacks_json(),
{
    let mut v: Vec<u8> = Vec::new();
    v.push(102);
    v.push(111);
    v.push(110);
    v.push(116);
    v.push(115);
    v.push(116);
    v.push(97);
    v.push(99);
    v.push(107);
    v.push(115);
    v.push(46);
    v.push(106);
    v.push(115);
    v.push(111);
    v.push(110);
    proof {
        assert(v@ =~= spec_lit_fontstacks_json());
    }
    v
}

fn lit_fonts_seg() -> (v: Vec<u8>)
    ensures
        v@ == spec_lit_fonts_seg(),
{
    let mut v: Vec<u8> = Vec::new();
    v.push(102);
    v.push(111);
    v.push(110);
    v.push(116);
    v.push(115);
    proof {
        assert(v@ =~= spec_lit_fonts_seg());
    }
    v
}

fn lit_pbf_ext() -> (v: Vec<u8>)
    ensures
        v@ == spec_lit_pbf_ext(),
{
    let mut v: Vec<u8> = Vec::new();
    v.push(46);
    v.push(112);
    v.push(98);
    v.push(102);
    proof {
        assert(v@ =~= spec_lit_pbf_ext());
    }
    v
}

fn lit_style_json_ext() -> (v: Vec<u8>)
    ensures
        v@ == spec_lit_style_json_ext(),
{
    let mut v: Vec<u8> = Vec::new();
    v.push(46);
    v.push(115);
    v.push(116);
    v.push(121);
    v.push(108);
    v.push(101);
    v.push(46);
    v.push(106);
    v.push(115);
    v.push(111);
    v.push(110);
    proof {
        assert(v@ =~= spec_lit_style_json_ext());
    }
    v
}

fn lit_metadata_json() -> (v: Vec<u8>)
    ensures
        v@ == spec_lit_metadata_json(),
{
    let mut v: Vec<u8> = Vec::new();
    v.push(109);
    v.push(101);
    v.push(116);
    v.push(97);
    v.push(100);
    v.push(97);
    v.push(116);
    v.push(97);
    v.push(46);
    v.push(106);
    v.push(115);
    v.push(111);
    v.push(110);
    proof {
        assert(v@ =~= spec_lit_metadata_json());
    }
    v
}

fn lit_json_ext() -> (v: Vec<u8>)
    ensures
        v@ == spec_lit_json_ext(),
{
    let mut v: Vec<u8> = Vec::new();
    v.push(46);
    v.push(106);
    v.push(115);
    v.push(111);
    v.push(110);
    proof {
        assert(v@ =~= spec_lit_json_ext());
    }
    v
}

fn lit_drilldown_seg() -> (v: Vec<u8>)
    ensures
        v@ == spec_lit_drilldown_seg(),
{
    let mut v: Vec<u8> = Vec::new();
    v.push(100);
    v.push(114);
    v.push(105);
    v.push(108);
    v.push(108);
    v.push(100);
    v.push(111);
    v.push(119);
    v.push(110);
    proof {
        assert(v@ =~= spec_lit_drilldown_seg());
    }
    v
}

/// Matches a path against the template table.
pub fn route(path: &[u8]) -> (r: Route)
    ensures
        r@ == spec_route(path@),
{
    if path.len() == 0 || path[0] != BYTE_SLASH {
        return Route::Fallback;
    }
    let tail = skip_first(path);
    let segs = split_bytes(tail.as_slice(), BYTE_SLASH);
    let ghost sm = segs@.map_values(|p: Vec<u8>| p@);
    proof {
        assert(sm == spec_split(path@.skip(1), BYTE_SLASH));
    }
    let nsegs = segs.len();
    if nsegs == 1 {
        proof {
            assert(sm[0] == segs@[0]@);
        }
        let l_index = lit_index_json();
        if bytes_eq(segs[0].as_slice(), l_index.as_slice()) {
            return Route::Index;
        }
        let l_stacks = lit_fontstacks_json();
        if bytes_eq(segs[0].as_slice(), l_stacks.as_slice()) {
            return Route::Fontstacks;
        }
        let l_style = lit_style_json_ext();
        if ends_with(segs[0].as_slice(), l_style.as_slice()) && segs[0].len() > 11 {
            let tileset = strip_suffix(segs[0].as_slice(), 11);
            proof {
                assert(tileset@ =~= sm[0].take(sm[0].len() - 11));
            }
            return Route::StyleJson { tileset };
        }
        let l_json = lit_json_ext();
        if ends_with(segs[0].as_slice(), l_json.as_slice()) && segs[0].len() > 5 {
            let tileset = strip_suffix(segs[0].as_slice(), 5);
            proof {
                assert(tileset@ =~= sm[0].take(sm[0].len() - 5));
            }
            return Route::TileJson { tileset };
        }
        let l_drill = lit_drilldown_seg();
        if bytes_eq(segs[0].as_slice(), l_drill.as_slice()) {
            return Route::Drilldown;
        }
        return Route::Fallback;
    }
    if nsegs == 2 {
        proof {
            assert(sm[0] == segs@[0]@);
            assert(sm[1] == segs@[1]@);
        }
        let l_meta = lit_metadata_json();
        if bytes_eq(segs[1].as_slice(), l_meta.as_slice()) && segs[0].len() > 0 {
            let tileset = copy_bytes(segs[0].as_slice());
            return Route::MetadataJson { tileset };
        }
        return Route::Fallback;
    }
    if nsegs == 3 {
        proof {
            assert(sm[0] == segs@[0]@);
            assert(sm[1] == segs@[1]@);
            assert(sm[2] == segs@[2]@);
        }
        let l_fonts = lit_fonts_seg();
        let l_pbf = lit_pbf_ext();
        if bytes_eq(segs[0].as_slice(), l_fonts.as_slice()) && ends_with(
            segs[2].as_slice(),
            l_pbf.as_slice(),
        ) {
            let stack = copy_bytes(segs[1].as_slice());
            let range = strip_suffix(segs[2].as_slice(), 4);
            proof {
                assert(range@ =~= sm[2].take(sm[2].len() - 4));
            }
            return Route::FontGlyphs { stack, range };
        }
        return Route::Fallback;
    }
    if nsegs == 4 {
        proof {
            assert(sm[0] == segs@[0]@);
            assert(sm[1] == segs@[1]@);
            assert(sm[2] == segs@[2]@);
            assert(sm[3] == segs@[3]@);
        }
        let l_pbf = lit_pbf_ext();
        if segs[0].len() > 0 && ends_with(segs[3].as_slice(), l_pbf.as_slice()) {
            let ys = strip_suffix(segs[3].as_slice(), 4);
            proof {
                assert(ys@ =~= sm[3].take(sm[3].len() - 4));
            }
            let z_opt = crate::bytes::parse_u8(segs[1].as_slice());
            let x_opt = crate::bytes::parse_u32(segs[2].as_slice());
            let y_opt = crate::bytes::parse_u32(ys.as_slice());
            match (z_opt, x_opt, y_opt) {
                (Some(z), Some(x), Some(y)) => {
                    let tileset = copy_bytes(segs[0].as_slice());
                    return Route::Tile { tileset, z, x, y };
                },
                _ => {
                    return Route::Fallback;
                },
            }
        }
        return Route::Fallback;
    }
    Route::Fallback
}

} // verus!

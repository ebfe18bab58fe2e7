//! Dispatch gateway: classifies one normalized request, resolves what can
//! be resolved from the process-local read-only tables (fonts, static
//! assets, drilldown), and names the single external fetch the transport
//! layer must perform for the rest. Every request yields exactly one action.

use vstd::prelude::*;
use crate::bytes::{
    copy_bytes, extend_bytes, find_byte, parse_u8, spec_dec, spec_find, spec_split, split_bytes,
    sub_bytes, u64_to_dec, BYTE_AMPERSAND, BYTE_COMMA, BYTE_EQUALS, BYTE_SLASH,
};
use crate::drilldown::{
    drilldown, parse_points, spec_drilldown_stats, spec_parse_points, StatEntry,
    StatModel, TilesetInfo, TilesetModel,
};
use crate::fonts::{spec_resolve_fonts, spec_with_fallback, FontRegistry};
use crate::http::{spec_empty_response, MediaModel, MediaType, RespModel, Response};
use crate::router::{route, spec_is_u8_num, spec_route, Route, RouteModel};
use crate::statics::{spec_resolve_static, StaticModel, StaticResolver};

verus! {

/// One normalized request, as the transport layer hands it over.
pub struct Request {
    /// Whether the method is `GET` — every route is read-only.
    pub get: bool,
    /// The decoded path, starting with a slash.
    pub path: Vec<u8>,
    /// The raw query string, without the question mark.
    pub query: Vec<u8>,
    /// Whether `Accept-Encoding` names gzip.
    pub accept_gzip: bool,
    /// The request scheme, for building document URLs.
    pub scheme: Vec<u8>,
    /// The request host, for building document URLs.
    pub host: Vec<u8>,
}

/// Mathematical model of a `Request`.
pub struct ReqModel {
    pub get: bool,
    pub path: Seq<u8>,
    pub query: Seq<u8>,
    pub accept_gzip: bool,
    pub scheme: Seq<u8>,
    pub host: Seq<u8>,
}

impl View for Request {
    type V = ReqModel;

    open spec fn view(&self) -> ReqModel {
        ReqModel {
            get: self.get,
            path: self.path@,
            query: self.query@,
            accept_gzip: self.accept_gzip,
            scheme: self.scheme@,
            host: self.host@,
        }
    }
}

/// The query key `points`.
pub open spec fn spec_lit_points_key() -> Seq<u8> {
    seq![112u8, 111u8, 105u8, 110u8, 116u8, 115u8]
}

fn lit_points_key() -> (v: Vec<u8>)
    ensures
        v@ == spec_lit_points_key(),
{
    let mut v: Vec<u8> = Vec::new();
    v.push(112);
    v.push(111);
    v.push(105);
    v.push(110);
    v.push(116);
    v.push(115);
    proof {
        assert(v@ =~= spec_lit_points_key());
    }
    v
}
/// The query key `minzoom`.
pub open spec fn spec_lit_minzoom_key() -> Seq<u8> {
    seq![109u8, 105u8, 110u8, 122u8, 111u8, 111u8, 109u8]
}

fn lit_minzoom_key() -> (v: Vec<u8>)
    ensures
        v@ == spec_lit_minzoom_key(),
{
    let mut v: Vec<u8> = Vec::new();
    v.push(109);
    v.push(105);
    v.push(110);
    v.push(122);
    v.push(111);
    v.push(111);
    v.push(109);
    proof {
        assert(v@ =~= spec_lit_minzoom_key());
    }
    v
}
/// The query key `maxzoom`.
pub open spec fn spec_lit_maxzoom_key() -> Seq<u8> {
    seq![109u8, 97u8, 120u8, 122u8, 111u8, 111u8, 109u8]
}

fn lit_maxzoom_key() -> (v: Vec<u8>)
    ensures
        v@ == spec_lit_maxzoom_key(),
{
    let mut v: Vec<u8> = Vec::new();
    v.push(109);
    v.push(97);
    v.push(120);
    v.push(122);
    v.push(111);
    v.push(111);
    v.push(109);
    proof {
        assert(v@ =~= spec_lit_maxzoom_key());
    }
    v
}
/// The query key `tileset`.
pub open spec fn spec_lit_tileset_key() -> Seq<u8> {
    seq![116u8, 105u8, 108u8, 101u8, 115u8, 101u8, 116u8]
}

fn lit_tileset_key() -> (v: Vec<u8>)
    ensures
        v@ == spec_lit_tileset_key(),
{
    let mut v: Vec<u8> = Vec::new();
    v.push(116);
    v.push(105);
    v.push(108);
    v.push(101);
    v.push(115);
    v.push(101);
    v.push(116);
    proof {
        assert(v@ =~= spec_lit_tileset_key());
    }
    v
}
/// The fixed family list document.
pub open spec fn spec_lit_fontstacks_body() -> Seq<u8> {
    seq![91u8, 34u8, 82u8, 111u8, 98u8, 111u8, 116u8, 111u8, 32u8, 77u8, 101u8, 100u8, 105u8, 117u8, 109u8, 34u8, 44u8, 34u8, 82u8, 111u8, 98u8, 111u8, 116u8, 111u8, 32u8, 82u8, 101u8, 103u8, 117u8, 108u8, 97u8, 114u8, 34u8, 93u8]
}

fn lit_fontstacks_body() -> (v: Vec<u8>)
    ensures
        v@ == spec_lit_fontstacks_body(),
{
    let mut v: Vec<u8> = Vec::new();
    v.push(91);
    v.push(34);
    v.push(82);
    v.push(111);
    v.push(98);
    v.push(111);
    v.push(116);
    v.push(111);
    v.push(32);
    v.push(77);
    v.push(101);
    v.push(100);
    v.push(105);
    v.push(117);
    v.push(109);
    v.push(34);
    v.push(44);
    v.push(34);
    v.push(82);
    v.push(111);
    v.push(98);
    v.push(111);
    v.push(116);
    v.push(111);
    v.push(32);
    v.push(82);
    v.push(101);
    v.push(103);
    v.push(117);
    v.push(108);
    v.push(97);
    v.push(114);
    v.push(34);
    v.push(93);
    proof {
        assert(v@ =~= spec_lit_fontstacks_body());
    }
    v
}
/// The separator between scheme and host in a base URL.
pub open spec fn spec_lit_scheme_sep() -> Seq<u8> {
    seq![58u8, 47u8, 47u8]
}

fn lit_scheme_sep() -> (v: Vec<u8>)
    ensures
        v@ == spec_lit_scheme_sep(),
{
    let mut v: Vec<u8> = Vec::new();
    v.push(58);
    v.push(47);
    v.push(47);
    proof {
        assert(v@ =~= spec_lit_scheme_sep());
    }
    v
}
/// The opening of one drilldown row.
pub open spec fn spec_lit_json_obj_open() -> Seq<u8> {
    seq![123u8, 34u8, 116u8, 105u8, 108u8, 101u8, 115u8, 101u8, 116u8, 34u8, 58u8, 34u8]
}

fn lit_json_obj_open() -> (v: Vec<u8>)
    ensures
        v@ == spec_lit_json_obj_open(),
{
    let mut v: Vec<u8> = Vec::new();
    v.push(123);
    v.push(34);
    v.push(116);
    v.push(105);
    v.push(108);
    v.push(101);
    v.push(115);
    v.push(101);
    v.push(116);
    v.push(34);
    v.push(58);
    v.push(34);
    proof {
        assert(v@ =~= spec_lit_json_obj_open());
    }
    v
}
/// The zoom field of one drilldown row.
pub open spec fn spec_lit_json_zoom() -> Seq<u8> {
    seq![34u8, 44u8, 34u8, 122u8, 111u8, 111u8, 109u8, 34u8, 58u8]
}

fn lit_json_zoom() -> (v: Vec<u8>)
    ensures
        v@ == spec_lit_json_zoom(),
{
    let mut v: Vec<u8> = Vec::new();
    v.push(34);
    v.push(44);
    v.push(34);
    v.push(122);
    v.push(111);
    v.push(111);
    v.push(109);
    v.push(34);
    v.push(58);
    proof {
        assert(v@ =~= spec_lit_json_zoom());
    }
    v
}
/// The tile-count field of one drilldown row.
pub open spec fn spec_lit_json_tiles() -> Seq<u8> {
    seq![44u8, 34u8, 116u8, 105u8, 108u8, 101u8, 115u8, 34u8, 58u8]
}

fn lit_json_tiles() -> (v: Vec<u8>)
    ensures
        v@ == spec_lit_json_tiles(),
{
    let mut v: Vec<u8> = Vec::new();
    v.push(44);
    v.push(34);
    v.push(116);
    v.push(105);
    v.push(108);
    v.push(101);
    v.push(115);
    v.push(34);
    v.push(58);
    proof {
        assert(v@ =~= spec_lit_json_tiles());
    }
    v
}

/// The base URL of a request: `scheme://host`.
pub open spec fn spec_base_url(scheme: Seq<u8>, host: Seq<u8>) -> Seq<u8> {
    scheme + spec_lit_scheme_sep() + host
}

/// Builds the base URL of a request.
pub fn base_url(scheme: &[u8], host: &[u8]) -> (r: Vec<u8>)
    ensures
        r@ == spec_base_url(scheme@, host@),
{
    let mut r = copy_bytes(scheme);
    let sep = lit_scheme_sep();
    extend_bytes(&mut r, sep.as_slice());
    extend_bytes(&mut r, host);
    proof {
        assert(r@ =~= spec_base_url(scheme@, host@));
    }
    r
}

/// The response for the fixed family list.
pub open spec fn spec_fontstacks_response() -> RespModel {
    RespModel {
        status: 200,
        media: Some(MediaModel::Json),
        gzip_encoding: false,
        transport_compression: true,
        max_age: None,
        cors_any_origin: false,
        body: spec_lit_fontstacks_body(),
    }
}

/// The response for a glyph request: the first hit of the fallback chain,
/// always served pre-compressed — `Content-Encoding: gzip` with transport
/// compression off — or 404 when the whole chain, fallback included, misses.
pub open spec fn spec_font_response(
    reg: FontRegistry,
    stack: Seq<u8>,
    range: Seq<u8>,
) -> RespModel {
    let fams = spec_with_fallback(spec_split(stack, BYTE_COMMA));
    match spec_resolve_fonts(reg, fams, range) {
        Some(d) => RespModel {
            status: 200,
            media: Some(MediaModel::Protobuf),
            gzip_encoding: true,
            transport_compression: false,
            max_age: None,
            cors_any_origin: false,
            body: d,
        },
        None => spec_empty_response(404),
    }
}

/// The key a request path denotes in the static tables: the path without
/// its leading slash.
pub open spec fn spec_static_key(path: Seq<u8>) -> Seq<u8> {
    if path.len() > 0 && path[0] == BYTE_SLASH {
        path.skip(1)
    } else {
        path
    }
}

/// The response for a path no template matched: the static precedence
/// chain, 404 when nothing serves it. Only an embedded hit carries the
/// permissive cross-origin header.
pub open spec fn spec_static_response(sm: StaticModel, path: Seq<u8>) -> RespModel {
    match spec_resolve_static(sm, spec_static_key(path)) {
        Some((a, embedded)) => RespModel {
            status: 200,
            media: Some(MediaModel::Custom(a.media)),
            gzip_encoding: false,
            transport_compression: true,
            max_age: None,
            cors_any_origin: embedded,
            body: a.body,
        },
        None => spec_empty_response(404),
    }
}

/// The key of one `key=value` query part: everything before the first
/// equals sign, or the whole part.
pub open spec fn spec_param_key(p: Seq<u8>) -> Seq<u8> {
    match spec_find(p, BYTE_EQUALS) {
        Some(i) => p.take(i),
        None => p,
    }
}

/// The value of one query part: everything after the first equals sign, or
/// empty.
pub open spec fn spec_param_value(p: Seq<u8>) -> Seq<u8> {
    match spec_find(p, BYTE_EQUALS) {
        Some(i) => p.skip(i + 1),
        None => Seq::empty(),
    }
}

/// The value of the first query part carrying `key`.
pub open spec fn spec_param(parts: Seq<Seq<u8>>, key: Seq<u8>) -> Option<Seq<u8>>
    decreases parts.len(),
{
    if parts.len() == 0 {
        None
    } else if spec_param_key(parts[0]) == key {
        Some(spec_param_value(parts[0]))
    } else {
        spec_param(parts.skip(1), key)
    }
}

fn find_param(parts: &Vec<Vec<u8>>, key: &[u8]) -> (r: Option<Vec<u8>>)
    ensures
        ({
            let pm = parts@.map_values(|p: Vec<u8>| p@);
            match r {
                Some(v) => spec_param(pm, key@) == Some(v@),
                None => spec_param(pm, key@) is None,
            }
        }),
{
    let ghost pm = parts@.map_values(|p: Vec<u8>| p@);
    let n = parts.len();
    proof {
        assert(pm.skip(0) =~= pm);
    }
    let mut i: usize = 0;
    while i < n
        invariant
            n == parts@.len(),
            pm == parts@.map_values(|p: Vec<u8>| p@),
            0 <= i <= n,
            spec_param(pm, key@) == spec_param(pm.skip(i as int), key@),
        decreases n - i,
    {
        proof {
            assert(pm.skip(i as int)[0] == pm[i as int]);
            assert(pm.skip(i as int).skip(1) =~= pm.skip(i + 1));
        }
        let p = &parts[i];
        let (k, v): (Vec<u8>, Vec<u8>) = match find_byte(p.as_slice(), BYTE_EQUALS) {
            Some(eq) => {
                let plen = p.len();
                let k = sub_bytes(p.as_slice(), 0, eq);
                let v = sub_bytes(p.as_slice(), eq + 1, plen);
                proof {
                    assert(k@ =~= spec_param_key(pm[i as int]));
                    assert(v@ =~= spec_param_value(pm[i as int]));
                }
                (k, v)
            },
            None => {
                let k = copy_bytes(p.as_slice());
                (k, Vec::new())
            },
        };
        if crate::bytes::bytes_eq(k.as_slice(), key) {
            return Some(v);
        }
        i += 1;
    }
    proof {
        assert(pm.skip(n as int) =~= Seq::<Seq<u8>>::empty());
    }
    None
}

/// A parsed drilldown query: the raw point list, the zoom overrides and the
/// tileset filter.
pub open spec fn spec_drilldown_query(q: Seq<u8>) -> Option<
    (Seq<u8>, Option<u8>, Option<u8>, Option<Seq<u8>>),
> {
    let parts = spec_split(q, BYTE_AMPERSAND);
    let points = spec_param(parts, spec_lit_points_key());
    let minz = spec_param(parts, spec_lit_minzoom_key());
    let maxz = spec_param(parts, spec_lit_maxzoom_key());
    let filt = spec_param(parts, spec_lit_tileset_key());
    if points is None {
        None
    } else if (minz is Some && !spec_is_u8_num(minz.unwrap())) || (maxz is Some
        && !spec_is_u8_num(maxz.unwrap())) {
        None
    } else {
        Some(
            (
                points.unwrap(),
                match minz {
                    Some(v) => Some(crate::bytes::digits_value(v) as u8),
                    None => None,
                },
                match maxz {
                    Some(v) => Some(crate::bytes::digits_value(v) as u8),
                    None => None,
                },
                filt,
            ),
        )
    }
}

/// One drilldown row as a JSON object.
pub open spec fn spec_stat_json(e: StatModel) -> Seq<u8> {
    spec_lit_json_obj_open() + e.tileset + spec_lit_json_zoom() + spec_dec(e.zoom as nat)
        + spec_lit_json_tiles() + spec_dec(e.tiles as nat) + seq![125u8]
}

/// The drilldown rows joined into a JSON array.
pub open spec fn spec_stats_body(entries: Seq<StatModel>) -> Seq<u8>
    decreases entries.len(),
{
    if entries.len() == 0 {
        Seq::empty()
    } else if entries.len() == 1 {
        spec_stat_json(entries[0])
    } else {
        spec_stats_body(entries.drop_last()) + seq![44u8] + spec_stat_json(entries.last())
    }
}

/// The complete drilldown document.
pub open spec fn spec_stats_json(entries: Seq<StatModel>) -> Seq<u8> {
    seq![91u8] + spec_stats_body(entries) + seq![93u8]
}

fn stat_json(e: &StatEntry) -> (r: Vec<u8>)
    ensures
        r@ == spec_stat_json(e@),
{
    let mut r = lit_json_obj_open();
    extend_bytes(&mut r, e.tileset.as_slice());
    let zoom_lit = lit_json_zoom();
    extend_bytes(&mut r, zoom_lit.as_slice());
    let zd = u64_to_dec(e.zoom as u64);
    extend_bytes(&mut r, zd.as_slice());
    let tiles_lit = lit_json_tiles();
    extend_bytes(&mut r, tiles_lit.as_slice());
    let td = u64_to_dec(e.tiles as u64);
    extend_bytes(&mut r, td.as_slice());
    r.push(125);
    proof {
        assert(r@ =~= spec_stat_json(e@));
    }
    r
}

/// Renders the drilldown rows as one JSON array.
pub fn stats_json(entries: &Vec<StatEntry>) -> (r: Vec<u8>)
    ensures
        r@ == spec_stats_json(entries@.map_values(|e: StatEntry| e@)),
{
    let ghost em = entries@.map_values(|e: StatEntry| e@);
    let n = entries.len();
    let mut r: Vec<u8> = Vec::new();
    r.push(91);
    proof {
        assert(em.take(0) =~= Seq::<StatModel>::empty());
        assert(r@ =~= seq![91u8] + spec_stats_body(em.take(0)));
    }
    let mut i: usize = 0;
    while i < n
        invariant
            n == entries@.len(),
            em == entries@.map_values(|e: StatEntry| e@),
            0 <= i <= n,
            r@ == seq![91u8] + spec_stats_body(em.take(i as int)),
        decreases n - i,
    {
        proof {
            assert(em.take(i + 1).drop_last() =~= em.take(i as int));
            assert(em.take(i + 1).last() == em[i as int]);
            assert(em[i as int] == entries@[i as int]@);
        }
        if i > 0 {
            r.push(44);
        }
        let piece = stat_json(&entries[i]);
        extend_bytes(&mut r, piece.as_slice());
        proof {
            if i == 0 {
                assert(em.take(1).len() == 1);
                assert(r@ =~= seq![91u8] + spec_stats_body(em.take(1)));
            } else {
                assert(em.take(i + 1).len() >= 2);
                assert(r@ =~= seq![91u8] + spec_stats_body(em.take(i + 1)));
            }
        }
        i += 1;
    }
    r.push(93);
    proof {
        assert(em.take(n as int) =~= em);
        assert(r@ =~= spec_stats_json(em));
    }
    r
}

/// The full drilldown response over a configured tileset table: 400 when
/// the query or the point list is malformed — no partial statistics — and
/// otherwise the computed rows as JSON.
pub open spec fn spec_drilldown_response(tss: Seq<TilesetModel>, q: Seq<u8>) -> RespModel {
    match spec_drilldown_query(q) {
        None => spec_empty_response(400),
        Some((points_raw, minq, maxq, filter)) => match spec_parse_points(points_raw) {
            None => spec_empty_response(400),
            Some(pts) => RespModel {
                status: 200,
                media: Some(MediaModel::Json),
                gzip_encoding: false,
                transport_compression: true,
                max_age: None,
                cors_any_origin: false,
                body: spec_stats_json(spec_drilldown_stats(tss, filter, minq, maxq, pts)),
            },
        },
    }
}

/// Formats the fixed family list response.
pub fn fontstacks_response() -> (r: Response)
    ensures
        r@ == spec_fontstacks_response(),
{
    let body = lit_fontstacks_body();
    let r = Response {
        status: 200,
        media: Some(MediaType::Json),
        gzip_encoding: false,
        transport_compression: true,
        max_age: None,
        cors_any_origin: false,
        body,
    };
    proof {
        assert(r@ =~= spec_fontstacks_response());
    }
    r
}

/// Resolves a glyph request against the registry.
pub fn font_response(reg: &FontRegistry, stack: &[u8], range: &[u8]) -> (r: Response)
    requires
        reg.wf(),
    ensures
        r@ == spec_font_response(*reg, stack@, range@),
{
    let families = split_bytes(stack, BYTE_COMMA);
    match reg.resolve(&families, range) {
        Some(d) => {
            let r = Response {
                status: 200,
                media: Some(MediaType::Protobuf),
                gzip_encoding: true,
                transport_compression: false,
                max_age: None,
                cors_any_origin: false,
                body: d,
            };
            proof {
                assert(r@ =~= spec_font_response(*reg, stack@, range@));
            }
            r
        },
        None => {
            let r = crate::http::empty_response(404);
            proof {
                assert(r@ =~= spec_font_response(*reg, stack@, range@));
            }
            r
        },
    }
}

/// Resolves a fallback path against the static precedence chain.
pub fn static_response(statics: &StaticResolver, path: &[u8]) -> (r: Response)
    ensures
        r@ == spec_static_response(statics@, path@),
{
    let key: Vec<u8> = if path.len() > 0 && path[0] == BYTE_SLASH {
        crate::bytes::skip_first(path)
    } else {
        copy_bytes(path)
    };
    proof {
        assert(key@ == spec_static_key(path@));
    }
    match statics.resolve(key.as_slice()) {
        Some(hit) => {
            let r = Response {
                status: 200,
                media: Some(MediaType::Custom(hit.media)),
                gzip_encoding: false,
                transport_compression: true,
                max_age: None,
                cors_any_origin: hit.embedded,
                body: hit.body,
            };
            proof {
                assert(r@ =~= spec_static_response(statics@, path@));
            }
            r
        },
        None => {
            let r = crate::http::empty_response(404);
            proof {
                assert(r@ =~= spec_static_response(statics@, path@));
            }
            r
        },
    }
}

/// Computes the full drilldown response for a query string.
pub fn drilldown_response(tilesets: &Vec<TilesetInfo>, query: &[u8]) -> (r: Response)
    ensures
        r@ == spec_drilldown_response(tilesets@.map_values(|t: TilesetInfo| t@), query@),
{
    let ghost tsm = tilesets@.map_values(|t: TilesetInfo| t@);
    let parts = split_bytes(query, BYTE_AMPERSAND);
    let key_points = lit_points_key();
    let key_min = lit_minzoom_key();
    let key_max = lit_maxzoom_key();
    let key_filt = lit_tileset_key();
    let points_raw = match find_param(&parts, key_points.as_slice()) {
        Some(v) => v,
        None => {
            let r = crate::http::empty_response(400);
            proof {
                assert(r@ =~= spec_drilldown_response(tsm, query@));
            }
            return r;
        },
    };
    let minq: Option<u8> = match find_param(&parts, key_min.as_slice()) {
        Some(v) => match parse_u8(v.as_slice()) {
            Some(z) => Some(z),
            None => {
                let r = crate::http::empty_response(400);
                proof {
                    assert(r@ =~= spec_drilldown_response(tsm, query@));
                }
                return r;
            },
        },
        None => None,
    };
    let maxq: Option<u8> = match find_param(&parts, key_max.as_slice()) {
        Some(v) => match parse_u8(v.as_slice()) {
            Some(z) => Some(z),
            None => {
                let r = crate::http::empty_response(400);
                proof {
                    assert(r@ =~= spec_drilldown_response(tsm, query@));
                }
                return r;
            },
        },
        None => None,
    };
    let filt: Option<Vec<u8>> = find_param(&parts, key_filt.as_slice());
    let points = match parse_points(points_raw.as_slice()) {
        Ok(ps) => ps,
        Err(_) => {
            let r = crate::http::empty_response(400);
            proof {
                assert(r@ =~= spec_drilldown_response(tsm, query@));
            }
            return r;
        },
    };
    let filt_ref: Option<&Vec<u8>> = match &filt {
        Some(f) => Some(f),
        None => None,
    };
    let stats = drilldown(tilesets, filt_ref, minq, maxq, &points);
    let body = stats_json(&stats.entries);
    let r = Response {
        status: 200,
        media: Some(MediaType::Json),
        gzip_encoding: false,
        transport_compression: true,
        max_age: None,
        cors_any_origin: false,
        body,
    };
    proof {
        assert(r@ =~= spec_drilldown_response(tsm, query@));
    }
    r
}

/// What the gateway asks of its caller for one request: either a finished
/// response, or the single external fetch whose outcome the matching
/// response formatter turns into one.
pub enum Action {
    /// The response is fully resolved from process-local state.
    Done(Response),
    /// Fetch the catalog metadata document, then apply
    /// `upstream_json_response`.
    FetchIndexMetadata,
    /// Fetch the TileJSON of a tileset for a base URL, then apply
    /// `upstream_json_response`.
    FetchTileJson { tileset: Vec<u8>, base_url: Vec<u8> },
    /// Fetch the style document of a tileset for a base URL, then apply
    /// `upstream_json_response`.
    FetchStyleJson { tileset: Vec<u8>, base_url: Vec<u8> },
    /// Fetch the metadata document of a tileset, then apply
    /// `upstream_json_response`.
    FetchMetadata { tileset: Vec<u8> },
    /// Look the tile up in the external cache, then apply `tile_response`.
    FetchTile { tileset: Vec<u8>, z: u8, x: u32, y: u32, prefer_gzip: bool },
}

/// Mathematical model of an `Action`.
pub enum ActionModel {
    Done(RespModel),
    FetchIndexMetadata,
    FetchTileJson { tileset: Seq<u8>, base_url: Seq<u8> },
    FetchStyleJson { tileset: Seq<u8>, base_url: Seq<u8> },
    FetchMetadata { tileset: Seq<u8> },
    FetchTile { tileset: Seq<u8>, z: u8, x: u32, y: u32, prefer_gzip: bool },
}

impl View for Action {
    type V = ActionModel;

    open spec fn view(&self) -> ActionModel {
        match self {
            Action::Done(resp) => ActionModel::Done(resp@),
            Action::FetchIndexMetadata => ActionModel::FetchIndexMetadata,
            Action::FetchTileJson { tileset, base_url } => ActionModel::FetchTileJson {
                tileset: tileset@,
                base_url: base_url@,
            },
            Action::FetchStyleJson { tileset, base_url } => ActionModel::FetchStyleJson {
                tileset: tileset@,
                base_url: base_url@,
            },
            Action::FetchMetadata { tileset } => ActionModel::FetchMetadata { tileset: tileset@ },
            Action::FetchTile { tileset, z, x, y, prefer_gzip } => ActionModel::FetchTile {
                tileset: tileset@,
                z: *z,
                x: *x,
                y: *y,
                prefer_gzip: *prefer_gzip,
            },
        }
    }
}

/// The gateway's process-wide read-only state: built once at startup and
/// shared by every concurrent handling context without synchronization.
pub struct Gateway {
    /// Configured `Cache-Control` lifetime for tile responses, in seconds.
    pub cache_max_age: Option<u64>,
    /// The configured tilesets, fixed for the process lifetime.
    pub tilesets: Vec<TilesetInfo>,
    /// The embedded glyph table.
    pub fonts: FontRegistry,
    /// The static precedence chain and the viewer flag.
    pub statics: StaticResolver,
}

impl Gateway {
    /// The gateway's invariant: the glyph table is a map.
    pub open spec fn wf(self) -> bool {
        self.fonts.wf()
    }

    /// The action owed for one request: exactly one route decides, in
    /// template order; a non-GET request, like an unroutable path with the
    /// viewer off, is not found.
    pub open spec fn spec_dispatch(self, req: ReqModel) -> ActionModel {
        if !req.get {
            ActionModel::Done(spec_empty_response(404))
        } else {
            match spec_route(req.path) {
                RouteModel::Index => ActionModel::FetchIndexMetadata,
                RouteModel::Fontstacks => ActionModel::Done(spec_fontstacks_response()),
                RouteModel::FontGlyphs { stack, range } => ActionModel::Done(
                    spec_font_response(self.fonts, stack, range),
                ),
                RouteModel::StyleJson { tileset } => ActionModel::FetchStyleJson {
                    tileset: tileset,
                    base_url: spec_base_url(req.scheme, req.host),
                },
                RouteModel::MetadataJson { tileset } => ActionModel::FetchMetadata {
                    tileset: tileset,
                },
                RouteModel::TileJson { tileset } => ActionModel::FetchTileJson {
                    tileset: tileset,
                    base_url: spec_base_url(req.scheme, req.host),
                },
                RouteModel::Tile { tileset, z, x, y } => ActionModel::FetchTile {
                    tileset: tileset,
                    z: z,
                    x: x,
                    y: y,
                    prefer_gzip: req.accept_gzip,
                },
                RouteModel::Drilldown => if self.statics.viewer {
                    ActionModel::Done(
                        spec_drilldown_response(
                            self.tilesets@.map_values(|t: TilesetInfo| t@),
                            req.query,
                        ),
                    )
                } else {
                    ActionModel::Done(spec_static_response(self.statics@, req.path))
                },
                RouteModel::Fallback => ActionModel::Done(
                    spec_static_response(self.statics@, req.path),
                ),
            }
        }
    }

    /// Classifies one request and resolves everything process-local.
    pub fn dispatch(&self, req: &Request) -> (a: Action)
        requires
            self.wf(),
        ensures
            a@ == self.spec_dispatch(req@),
    {
        if !req.get {
            return Action::Done(crate::http::empty_response(404));
        }
        match route(req.path.as_slice()) {
            Route::Index => Action::FetchIndexMetadata,
            Route::Fontstacks => Action::Done(fontstacks_response()),
            Route::FontGlyphs { stack, range } => Action::Done(
                font_response(&self.fonts, stack.as_slice(), range.as_slice()),
            ),
            Route::StyleJson { tileset } => Action::FetchStyleJson {
                tileset,
                base_url: base_url(req.scheme.as_slice(), req.host.as_slice()),
            },
            Route::MetadataJson { tileset } => Action::FetchMetadata { tileset },
            Route::TileJson { tileset } => Action::FetchTileJson {
                tileset,
                base_url: base_url(req.scheme.as_slice(), req.host.as_slice()),
            },
            Route::Tile { tileset, z, x, y } => Action::FetchTile {
                tileset,
                z,
                x,
                y,
                prefer_gzip: req.accept_gzip,
            },
            Route::Drilldown => if self.statics.viewer {
                Action::Done(drilldown_response(&self.tilesets, req.query.as_slice()))
            } else {
                Action::Done(static_response(&self.statics, req.path.as_slice()))
            },
            Route::Fallback => Action::Done(static_response(&self.statics, req.path.as_slice())),
        }
    }
}

/// Request handling reads only the request and the startup tables: two
/// identical requests dispatched against the same gateway state — however
/// they interleave — are owed identical actions, so concurrent identical
/// tile requests resolve independently and alike.
pub proof fn lemma_dispatch_independent(g: Gateway, r1: ReqModel, r2: ReqModel)
    requires
        r1 == r2,
    ensures
        g.spec_dispatch(r1) == g.spec_dispatch(r2),
{
}

} // verus!

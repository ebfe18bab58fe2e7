//! Tile cache client policy: what response a tile lookup outcome maps to.
//! Absence is a legitimate empty tile (204), never an error; a present
//! payload is served as `application/x-protobuf` with a cache directive, and
//! an already-compressed payload requested with gzip acceptance is marked
//! `Content-Encoding: gzip` with transport compression suppressed, since
//! encoding twice corrupts the payload for single-decode clients.

use vstd::prelude::*;
use crate::http::{MediaModel, MediaType, RespModel, Response};

verus! {

/// Cache lifetime applied when the configuration names none, in seconds.
pub const DEFAULT_CACHE_MAX_AGE: u64 = 300;

/// A payload the external cache/render service returned for a tile, with its
/// stored-compression flag.
pub struct TileData {
    pub bytes: Vec<u8>,
    pub compressed: bool,
}

impl View for TileData {
    type V = (Seq<u8>, bool);

    open spec fn view(&self) -> (Seq<u8>, bool) {
        (self.bytes@, self.compressed)
    }
}

/// Model of an optional tile lookup outcome.
pub open spec fn spec_tile_model(tile: Option<TileData>) -> Option<(Seq<u8>, bool)> {
    match tile {
        Some(t) => Some(t@),
        None => None,
    }
}

/// The effective cache lifetime: the configured seconds, or the default.
pub open spec fn spec_effective_max_age(configured: Option<u64>) -> u64 {
    match configured {
        Some(age) => age,
        None => DEFAULT_CACHE_MAX_AGE,
    }
}

/// The response owed for a tile lookup outcome: 204 with no body when the
/// tile is absent; otherwise 200 with exactly the stored bytes, marked gzip
/// if and only if the client accepts gzip and the stored payload is already
/// compressed. Both outcomes carry the cache directive.
pub open spec fn spec_tile_response(
    tile: Option<(Seq<u8>, bool)>,
    prefer_gzip: bool,
    configured_max_age: Option<u64>,
) -> RespModel {
    let age = spec_effective_max_age(configured_max_age);
    match tile {
        None => RespModel {
            status: 204,
            media: None,
            gzip_encoding: false,
            transport_compression: true,
            max_age: Some(age),
            cors_any_origin: false,
            body: Seq::empty(),
        },
        Some((bytes, compressed)) => RespModel {
            status: 200,
            media: Some(MediaModel::Protobuf),
            gzip_encoding: prefer_gzip && compressed,
            transport_compression: !(prefer_gzip && compressed),
            max_age: Some(age),
            cors_any_origin: false,
            body: bytes,
        },
    }
}

/// Formats the response for a tile lookup outcome.
pub fn tile_response(
    tile: Option<TileData>,
    prefer_gzip: bool,
    configured_max_age: Option<u64>,
) -> (r: Response)
    ensures
        r@ == spec_tile_response(spec_tile_model(tile), prefer_gzip, configured_max_age),
{
    let age = match configured_max_age {
        Some(age) => age,
        None => DEFAULT_CACHE_MAX_AGE,
    };
    match tile {
        None => {
            let r = Response {
                status: 204,
                media: None,
                gzip_encoding: false,
                transport_compression: true,
                max_age: Some(age),
                cors_any_origin: false,
                body: Vec::new(),
            };
            proof {
                assert(r@ =~= spec_tile_response(None, prefer_gzip, configured_max_age));
            }
            r
        },
        Some(t) => {
            let mark_gzip = prefer_gzip && t.compressed;
            let ghost model = Some(t@);
            let r = Response {
                status: 200,
                media: Some(MediaType::Protobuf),
                gzip_encoding: mark_gzip,
                transport_compression: !mark_gzip,
                max_age: Some(age),
                cors_any_origin: false,
                body: t.bytes,
            };
            proof {
                assert(r@ =~= spec_tile_response(model, prefer_gzip, configured_max_age));
            }
            r
        },
    }
}

/// Tile resolution reads nothing but its arguments: two requests resolved
/// with the same lookup outcome, negotiation and configuration — concurrent
/// or not — receive identical responses.
pub proof fn lemma_tile_resolution_independent(
    tile: Option<(Seq<u8>, bool)>,
    prefer_gzip: bool,
    configured_max_age: Option<u64>,
    r1: RespModel,
    r2: RespModel,
)
    requires
        r1 == spec_tile_response(tile, prefer_gzip, configured_max_age),
        r2 == spec_tile_response(tile, prefer_gzip, configured_max_age),
    ensures
        r1 == r2,
{
}

/// The response for an upstream JSON document fetch: these are expected to
/// succeed for a well-formed name, so a failure is fatal for the request
/// (500); a document is served as JSON.
pub open spec fn spec_upstream_json_response(doc: Option<Seq<u8>>) -> RespModel {
    match doc {
        Some(body) => RespModel {
            status: 200,
            media: Some(MediaModel::Json),
            gzip_encoding: false,
            transport_compression: true,
            max_age: None,
            cors_any_origin: false,
            body: body,
        },
        None => RespModel {
            status: 500,
            media: None,
            gzip_encoding: false,
            transport_compression: true,
            max_age: None,
            cors_any_origin: false,
            body: Seq::empty(),
        },
    }
}

/// Formats the response for an upstream JSON document fetch outcome.
pub fn upstream_json_response(doc: Option<Vec<u8>>) -> (r: Response)
    ensures
        r@ == spec_upstream_json_response(
            match doc {
                Some(d) => Some(d@),
                None => None,
            },
        ),
{
    match doc {
        Some(body) => {
            let ghost model = Some(body@);
            let r = Response {
                status: 200,
                media: Some(MediaType::Json),
                gzip_encoding: false,
                transport_compression: true,
                max_age: None,
                cors_any_origin: false,
                body: body,
            };
            proof {
                assert(r@ =~= spec_upstream_json_response(model));
            }
            r
        },
        None => {
            let r = Response {
                status: 500,
                media: None,
                gzip_encoding: false,
                transport_compression: true,
                max_age: None,
                cors_any_origin: false,
                body: Vec::new(),
            };
            proof {
                assert(r@ =~= spec_upstream_json_response(None));
            }
            r
        },
    }
}

} // verus!

//! Route matching and request dispatch.

use tile_gateway::drilldown::TilesetInfo;
use tile_gateway::fonts::FontRegistry;
use tile_gateway::gateway::{Action, Gateway, Request};
use tile_gateway::http::MediaType;
use tile_gateway::router::{route, Route};
use tile_gateway::statics::{Asset, DirSource, StaticResolver};

fn b(s: &str) -> Vec<u8> {
    s.as_bytes().to_vec()
}

#[test]
fn template_table_matches_in_order() {
    assert!(matches!(route(b"/index.json"), Route::Index));
    assert!(matches!(route(b"/fontstacks.json"), Route::Fontstacks));
    assert!(matches!(route(b"/drilldown"), Route::Drilldown));
    match route(b"/fonts/Roboto%20Medium,Arial/0-255.pbf") {
        Route::FontGlyphs { stack, range } => {
            assert_eq!(stack, b("Roboto%20Medium,Arial"));
            assert_eq!(range, b("0-255"));
        },
        other => panic!("wrong route: {:?}", route_name(&other)),
    }
    match route(b"/roads.style.json") {
        Route::StyleJson { tileset } => assert_eq!(tileset, b("roads")),
        _ => panic!("wrong route"),
    }
    match route(b"/roads/metadata.json") {
        Route::MetadataJson { tileset } => assert_eq!(tileset, b("roads")),
        _ => panic!("wrong route"),
    }
    match route(b"/roads.json") {
        Route::TileJson { tileset } => assert_eq!(tileset, b("roads")),
        _ => panic!("wrong route"),
    }
    match route(b"/roads/5/17/11.pbf") {
        Route::Tile { tileset, z, x, y } => {
            assert_eq!(tileset, b("roads"));
            assert_eq!((z, x, y), (5, 17, 11));
        },
        _ => panic!("wrong route"),
    }
}

fn route_name(r: &Route) -> &'static str {
    match r {
        Route::Index => "index",
        Route::Fontstacks => "fontstacks",
        Route::FontGlyphs { .. } => "fonts",
        Route::StyleJson { .. } => "style",
        Route::MetadataJson { .. } => "metadata",
        Route::TileJson { .. } => "tilejson",
        Route::Tile { .. } => "tile",
        Route::Drilldown => "drilldown",
        Route::Fallback => "fallback",
    }
}

#[test]
fn unroutable_paths_fall_back() {
    assert!(matches!(route(b"/"), Route::Fallback));
    assert!(matches!(route(b"no-slash"), Route::Fallback));
    assert!(matches!(route(b"/roads/zz/17/11.pbf"), Route::Fallback));
    assert!(matches!(route(b"/roads/5/17/11.png"), Route::Fallback));
    assert!(matches!(route(b"/a/b/c/d/e"), Route::Fallback));
}

fn demo_gateway() -> Gateway {
    let mut fonts = FontRegistry::new();
    fonts.add(b("fonts/Roboto Regular/0-255.pbf"), vec![7, 8, 9]);
    Gateway {
        cache_max_age: Some(120),
        tilesets: vec![TilesetInfo { name: b("roads"), minzoom: 0, maxzoom: 2 }],
        fonts,
        statics: StaticResolver {
            dirs: Vec::new(),
            embedded: vec![Asset {
                path: b("index.html"),
                media: b("text/html"),
                body: b("<html>"),
            }],
            viewer: true,
        },
    }
}

fn get(path: &str, query: &str) -> Request {
    Request {
        get: true,
        path: b(path),
        query: b(query),
        accept_gzip: true,
        scheme: b("http"),
        host: b("localhost:6767"),
    }
}

#[test]
fn tile_request_becomes_a_fetch_with_negotiation() {
    let g = demo_gateway();
    match g.dispatch(&get("/roads/2/1/3.pbf", "")) {
        Action::FetchTile { tileset, z, x, y, prefer_gzip } => {
            assert_eq!(tileset, b("roads"));
            assert_eq!((z, x, y), (2, 1, 3));
            assert!(prefer_gzip);
        },
        _ => panic!("expected a tile fetch"),
    }
}

#[test]
fn document_routes_carry_the_request_base_url() {
    let g = demo_gateway();
    match g.dispatch(&get("/roads.json", "")) {
        Action::FetchTileJson { tileset, base_url } => {
            assert_eq!(tileset, b("roads"));
            assert_eq!(base_url, b("http://localhost:6767"));
        },
        _ => panic!("expected a TileJSON fetch"),
    }
}

#[test]
fn fontstacks_document_is_fixed() {
    let g = demo_gateway();
    match g.dispatch(&get("/fontstacks.json", "")) {
        Action::Done(r) => {
            assert_eq!(r.status, 200);
            assert_eq!(
                String::from_utf8(r.body).unwrap(),
                "[\"Roboto Medium\",\"Roboto Regular\"]"
            );
        },
        _ => panic!("expected a finished response"),
    }
}

#[test]
fn glyphs_resolve_through_the_fallback_chain() {
    let g = demo_gateway();
    match g.dispatch(&get("/fonts/Missing/0-255.pbf", "")) {
        Action::Done(r) => {
            assert_eq!(r.status, 200);
            assert_eq!(r.body, vec![7, 8, 9]);
            assert!(r.gzip_encoding);
            assert!(!r.transport_compression);
            assert!(matches!(r.media, Some(MediaType::Protobuf)));
        },
        _ => panic!("expected a finished response"),
    }
}

#[test]
fn unknown_glyph_range_is_404() {
    let g = demo_gateway();
    match g.dispatch(&get("/fonts/Missing/9999/extra", "")) {
        Action::Done(r) => assert_eq!(r.status, 404),
        _ => panic!("expected a finished response"),
    }
    match g.dispatch(&get("/fonts/Missing/512-767.pbf", "")) {
        Action::Done(r) => assert_eq!(r.status, 404),
        _ => panic!("expected a finished response"),
    }
}

#[test]
fn malformed_drilldown_points_are_a_client_error() {
    let g = demo_gateway();
    match g.dispatch(&get("/drilldown", "points=10,20,30")) {
        Action::Done(r) => {
            assert_eq!(r.status, 400);
            assert!(r.body.is_empty());
        },
        _ => panic!("expected a finished response"),
    }
}

#[test]
fn drilldown_zoom_override_is_exact() {
    let g = demo_gateway();
    match g.dispatch(&get("/drilldown", "points=0,0&minzoom=1&maxzoom=1")) {
        Action::Done(r) => {
            assert_eq!(r.status, 200);
            assert_eq!(
                String::from_utf8(r.body).unwrap(),
                "[{\"tileset\":\"roads\",\"zoom\":1,\"tiles\":1}]"
            );
        },
        _ => panic!("expected a finished response"),
    }
}

#[test]
fn missing_points_parameter_is_a_client_error() {
    let g = demo_gateway();
    match g.dispatch(&get("/drilldown", "minzoom=1")) {
        Action::Done(r) => assert_eq!(r.status, 400),
        _ => panic!("expected a finished response"),
    }
}

#[test]
fn fallback_serves_embedded_viewer_with_cors() {
    let g = demo_gateway();
    match g.dispatch(&get("/index.html", "")) {
        Action::Done(r) => {
            assert_eq!(r.status, 200);
            assert_eq!(r.body, b("<html>"));
            assert!(r.cors_any_origin);
        },
        _ => panic!("expected a finished response"),
    }
}

#[test]
fn non_get_requests_are_not_found() {
    let g = demo_gateway();
    let mut req = get("/index.json", "");
    req.get = false;
    match g.dispatch(&req) {
        Action::Done(r) => assert_eq!(r.status, 404),
        _ => panic!("expected a finished response"),
    }
}

#[test]
fn identical_requests_dispatch_identically() {
    // Dispatch reads only startup tables: repeating a request gives the
    // same action, the behaviour concurrent handlers rely on.
    let g = demo_gateway();
    let r1 = g.dispatch(&get("/drilldown", "points=1,2"));
    let r2 = g.dispatch(&get("/drilldown", "points=1,2"));
    match (r1, r2) {
        (Action::Done(a), Action::Done(b)) => {
            assert_eq!(a.status, b.status);
            assert_eq!(a.body, b.body);
        },
        _ => panic!("expected finished responses"),
    }
}

#[test]
fn index_and_metadata_routes_become_fetches() {
    let g = demo_gateway();
    assert!(matches!(g.dispatch(&get("/index.json", "")), Action::FetchIndexMetadata));
    match g.dispatch(&get("/roads/metadata.json", "")) {
        Action::FetchMetadata { tileset } => assert_eq!(tileset, b("roads")),
        _ => panic!("expected a metadata fetch"),
    }
    match g.dispatch(&get("/roads.style.json", "")) {
        Action::FetchStyleJson { tileset, base_url } => {
            assert_eq!(tileset, b("roads"));
            assert_eq!(base_url, b("http://localhost:6767"));
        },
        _ => panic!("expected a style fetch"),
    }
}

#[test]
fn drilldown_filter_parameter_restricts_tilesets() {
    let mut g = demo_gateway();
    g.tilesets.push(tile_gateway::drilldown::TilesetInfo {
        name: b("water"),
        minzoom: 1,
        maxzoom: 1,
    });
    match g.dispatch(&get("/drilldown", "points=0,0&tileset=water")) {
        Action::Done(r) => {
            assert_eq!(r.status, 200);
            assert_eq!(
                String::from_utf8(r.body).unwrap(),
                "[{\"tileset\":\"water\",\"zoom\":1,\"tiles\":1}]"
            );
        },
        _ => panic!("expected a finished response"),
    }
}

//! Tile response policy: absence, gzip negotiation, cache directives.

use tile_gateway::http::MediaType;
use tile_gateway::tiles::{tile_response, upstream_json_response, TileData};

#[test]
fn absent_tile_is_204_not_an_error() {
    let r = tile_response(None, true, None);
    assert_eq!(r.status, 204);
    assert!(r.body.is_empty());
    assert!(!r.gzip_encoding);
    assert_eq!(r.max_age, Some(300));
}

#[test]
fn gzip_round_trip_body_is_stored_bytes_exactly() {
    // Accept-Encoding: gzip against an already-compressed stored tile: the
    // body is byte-identical and Content-Encoding: gzip is set exactly once,
    // with transport compression suppressed.
    let stored = vec![0x1f, 0x8b, 8, 0, 1, 2, 3];
    let r = tile_response(Some(TileData { bytes: stored.clone(), compressed: true }), true, None);
    assert_eq!(r.status, 200);
    assert_eq!(r.body, stored);
    assert!(r.gzip_encoding);
    assert!(!r.transport_compression);
    assert!(matches!(r.media, Some(MediaType::Protobuf)));
}

#[test]
fn no_gzip_acceptance_leaves_encoding_unmarked() {
    let stored = vec![1, 2, 3];
    let r = tile_response(Some(TileData { bytes: stored.clone(), compressed: true }), false, None);
    assert_eq!(r.status, 200);
    assert_eq!(r.body, stored);
    assert!(!r.gzip_encoding);
    assert!(r.transport_compression);
}

#[test]
fn uncompressed_payload_never_marked_gzip() {
    let r = tile_response(Some(TileData { bytes: vec![9], compressed: false }), true, None);
    assert!(!r.gzip_encoding);
    assert!(r.transport_compression);
}

#[test]
fn configured_max_age_overrides_default() {
    let r = tile_response(Some(TileData { bytes: vec![1], compressed: false }), false, Some(60));
    assert_eq!(r.max_age, Some(60));
}

#[test]
fn identical_tile_requests_resolve_alike() {
    // No shared mutable state: the same inputs always give the same
    // response, with or without concurrent neighbours.
    let a = tile_response(Some(TileData { bytes: vec![5, 6], compressed: true }), true, Some(10));
    let b = tile_response(Some(TileData { bytes: vec![5, 6], compressed: true }), true, Some(10));
    assert_eq!(a.status, b.status);
    assert_eq!(a.body, b.body);
    assert_eq!(a.gzip_encoding, b.gzip_encoding);
    assert_eq!(a.max_age, b.max_age);
}

#[test]
fn upstream_document_served_as_json() {
    let r = upstream_json_response(Some(b"{}".to_vec()));
    assert_eq!(r.status, 200);
    assert_eq!(r.body, b"{}".to_vec());
    assert!(matches!(r.media, Some(MediaType::Json)));
}

#[test]
fn upstream_failure_is_fatal_500() {
    let r = upstream_json_response(None);
    assert_eq!(r.status, 500);
    assert!(r.body.is_empty());
}

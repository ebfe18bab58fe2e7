//! Point parsing and coverage statistics.

use tile_gateway::drilldown::{
    distinct_tiles, drilldown, parse_number, parse_points, DrilldownPoint, PointsError,
    TilesetInfo,
};
use tile_gateway::gateway::stats_json;

fn b(s: &str) -> Vec<u8> {
    s.as_bytes().to_vec()
}

#[test]
fn four_values_parse_to_two_points() {
    let ps = parse_points(b"10,20,30,40").unwrap();
    assert_eq!(ps.len(), 2);
    assert_eq!((ps[0].x, ps[0].y), (10_000_000, 20_000_000));
    assert_eq!((ps[1].x, ps[1].y), (30_000_000, 40_000_000));
}

#[test]
fn odd_count_fails_with_no_partial_result() {
    assert_eq!(parse_points(b"10,20,30"), Err(PointsError::OddCount));
}

#[test]
fn non_numeric_token_fails_the_whole_request() {
    assert_eq!(parse_points(b"10,zz,30,40"), Err(PointsError::NotNumeric));
}

#[test]
fn empty_list_is_rejected() {
    assert_eq!(parse_points(b""), Err(PointsError::NotNumeric));
}

#[test]
fn number_grammar_accepts_signs_and_fractions() {
    assert_eq!(parse_number(b"-3.5"), Some(-3_500_000));
    assert_eq!(parse_number(b"3."), Some(3_000_000));
    assert_eq!(parse_number(b".5"), Some(500_000));
    assert_eq!(parse_number(b"0"), Some(0));
    assert_eq!(parse_number(b"1.2345678"), Some(1_234_567));
}

#[test]
fn number_grammar_rejects_junk() {
    assert_eq!(parse_number(b""), None);
    assert_eq!(parse_number(b"-"), None);
    assert_eq!(parse_number(b"."), None);
    assert_eq!(parse_number(b"1.2.3"), None);
    assert_eq!(parse_number(b"1e3"), None);
}

fn one_tileset(name: &str, minz: u8, maxz: u8) -> Vec<TilesetInfo> {
    vec![TilesetInfo { name: b(name), minzoom: minz, maxzoom: maxz }]
}

#[test]
fn equal_zoom_bounds_restrict_to_one_level() {
    // minzoom=5&maxzoom=5 overrides the tileset defaults (0..14) and
    // computes exactly zoom 5.
    let tss = one_tileset("roads", 0, 14);
    let pts = vec![DrilldownPoint { x: 0, y: 0 }];
    let stats = drilldown(&tss, None, Some(5), Some(5), &pts);
    assert_eq!(stats.entries.len(), 1);
    assert_eq!(stats.entries[0].zoom, 5);
    assert_eq!(stats.entries[0].tileset, b("roads"));
}

#[test]
fn tileset_defaults_apply_when_bounds_omitted() {
    let tss = one_tileset("roads", 2, 4);
    let pts = vec![DrilldownPoint { x: 0, y: 0 }];
    let stats = drilldown(&tss, None, None, None, &pts);
    let zooms: Vec<u8> = stats.entries.iter().map(|e| e.zoom).collect();
    assert_eq!(zooms, vec![2, 3, 4]);
}

#[test]
fn duplicate_covering_tiles_counted_once() {
    // Two nearby points share a covering tile at zoom 0.
    let pts = vec![
        DrilldownPoint { x: 1_000_000, y: 1_000_000 },
        DrilldownPoint { x: 2_000_000, y: 2_000_000 },
    ];
    let tiles = distinct_tiles(&pts, 0);
    assert_eq!(tiles, vec![(0, 0)]);
}

#[test]
fn distant_points_cover_distinct_tiles() {
    let e = 20_037_508_342_789i64;
    let pts = vec![
        DrilldownPoint { x: -e + 1, y: -e + 1 },
        DrilldownPoint { x: e - 1, y: e - 1 },
    ];
    let tiles = distinct_tiles(&pts, 1);
    assert_eq!(tiles, vec![(0, 0), (1, 1)]);
}

#[test]
fn filter_restricts_to_named_tileset() {
    let mut tss = one_tileset("roads", 1, 1);
    tss.push(TilesetInfo { name: b("water"), minzoom: 1, maxzoom: 1 });
    let pts = vec![DrilldownPoint { x: 0, y: 0 }];
    let filter = b("water");
    let stats = drilldown(&tss, Some(&filter), None, None, &pts);
    assert_eq!(stats.entries.len(), 1);
    assert_eq!(stats.entries[0].tileset, b("water"));
}

#[test]
fn stats_render_as_exact_json() {
    let tss = one_tileset("roads", 3, 3);
    let pts = vec![DrilldownPoint { x: 0, y: 0 }];
    let stats = drilldown(&tss, None, None, None, &pts);
    let body = stats_json(&stats.entries);
    assert_eq!(
        String::from_utf8(body).unwrap(),
        "[{\"tileset\":\"roads\",\"zoom\":3,\"tiles\":1}]"
    );
}

#[test]
fn empty_stats_render_as_empty_array() {
    let body = stats_json(&Vec::new());
    assert_eq!(String::from_utf8(body).unwrap(), "[]");
}

#[test]
fn multiple_rows_join_with_commas() {
    let tss = one_tileset("roads", 0, 1);
    let pts = vec![DrilldownPoint { x: 0, y: 0 }];
    let stats = drilldown(&tss, None, None, None, &pts);
    let body = stats_json(&stats.entries);
    assert_eq!(
        String::from_utf8(body).unwrap(),
        "[{\"tileset\":\"roads\",\"zoom\":0,\"tiles\":1},{\"tileset\":\"roads\",\"zoom\":1,\"tiles\":1}]"
    );
}

#[test]
fn inverted_bounds_yield_no_rows() {
    let tss = one_tileset("roads", 0, 14);
    let pts = vec![DrilldownPoint { x: 0, y: 0 }];
    let stats = drilldown(&tss, None, Some(7), Some(3), &pts);
    assert!(stats.entries.is_empty());
}

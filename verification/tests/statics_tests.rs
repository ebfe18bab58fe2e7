//! Static asset precedence and startup warnings.

use tile_gateway::statics::{Asset, DirSource, StaticResolver};

fn b(s: &str) -> Vec<u8> {
    s.as_bytes().to_vec()
}

fn asset(path: &str, body: &str) -> Asset {
    Asset { path: b(path), media: b("text/html"), body: b(body) }
}

#[test]
fn configured_directory_beats_embedded() {
    // The same path exists in a configured directory and in the embedded
    // assets: the directory's content is served, without the cross-origin
    // header.
    let resolver = StaticResolver {
        dirs: vec![DirSource {
            name: b("./static"),
            available: true,
            assets: vec![asset("index.html", "from dir")],
        }],
        embedded: vec![asset("index.html", "embedded")],
        viewer: true,
    };
    let hit = resolver.resolve(b"index.html").unwrap();
    assert_eq!(hit.body, b("from dir"));
    assert!(!hit.embedded);
}

#[test]
fn directories_probed_in_declaration_order() {
    let resolver = StaticResolver {
        dirs: vec![
            DirSource { name: b("a"), available: true, assets: vec![asset("x", "first")] },
            DirSource { name: b("b"), available: true, assets: vec![asset("x", "second")] },
        ],
        embedded: Vec::new(),
        viewer: true,
    };
    assert_eq!(resolver.resolve(b"x").unwrap().body, b("first"));
}

#[test]
fn embedded_asset_carries_cors_header() {
    let resolver = StaticResolver {
        dirs: Vec::new(),
        embedded: vec![asset("viewer.js", "code")],
        viewer: true,
    };
    let hit = resolver.resolve(b"viewer.js").unwrap();
    assert!(hit.embedded);
    assert_eq!(hit.media, b("text/html"));
}

#[test]
fn viewer_disabled_hides_embedded_assets() {
    let resolver = StaticResolver {
        dirs: Vec::new(),
        embedded: vec![asset("viewer.js", "code")],
        viewer: false,
    };
    assert!(resolver.resolve(b"viewer.js").is_none());
}

#[test]
fn missing_directory_is_skipped_with_a_warning() {
    // A directory absent at startup never serves, is recorded as a warning,
    // and the rest keeps working.
    let resolver = StaticResolver {
        dirs: vec![
            DirSource { name: b("/gone"), available: false, assets: vec![asset("x", "ghost")] },
            DirSource { name: b("ok"), available: true, assets: vec![asset("x", "real")] },
        ],
        embedded: Vec::new(),
        viewer: true,
    };
    assert_eq!(resolver.resolve(b"x").unwrap().body, b("real"));
    let warnings = resolver.startup_warnings();
    assert_eq!(warnings, vec![b("/gone")]);
}

#[test]
fn nothing_matches_resolves_to_none() {
    let resolver = StaticResolver { dirs: Vec::new(), embedded: Vec::new(), viewer: true };
    assert!(resolver.resolve(b"absent").is_none());
}

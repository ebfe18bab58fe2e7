//! Byte utilities: splitting, decoding and decimal parsing.

use tile_gateway::bytes::{
    bytes_eq, decode_spaces, ends_with, find_byte, parse_u32, parse_u8, split_bytes, u64_to_dec,
};

#[test]
fn split_keeps_empty_parts() {
    let parts = split_bytes(b"a,,b", b',');
    let parts: Vec<&[u8]> = parts.iter().map(|p| p.as_slice()).collect();
    assert_eq!(parts, vec![b"a" as &[u8], b"", b"b"]);
}

#[test]
fn splitting_empty_input_gives_one_empty_part() {
    let parts = split_bytes(b"", b',');
    assert_eq!(parts.len(), 1);
    assert!(parts[0].is_empty());
}

#[test]
fn percent_twenty_decodes_to_space() {
    assert_eq!(decode_spaces(b"Open%20Sans"), b"Open Sans".to_vec());
    assert_eq!(decode_spaces(b"%20%2"), b" %2".to_vec());
}

#[test]
fn decimal_parsing_is_exact() {
    assert_eq!(parse_u32(b"0"), Some(0));
    assert_eq!(parse_u32(b"4294967295"), Some(u32::MAX));
    assert_eq!(parse_u32(b"4294967296"), None);
    assert_eq!(parse_u32(b""), None);
    assert_eq!(parse_u32(b"12a"), None);
    assert_eq!(parse_u8(b"255"), Some(255));
    assert_eq!(parse_u8(b"256"), None);
}

#[test]
fn decimal_rendering_matches_parsing() {
    assert_eq!(u64_to_dec(0), b"0".to_vec());
    assert_eq!(u64_to_dec(305), b"305".to_vec());
    assert_eq!(u64_to_dec(u64::MAX), u64::MAX.to_string().into_bytes());
}

#[test]
fn comparisons_and_searches() {
    assert!(bytes_eq(b"abc", b"abc"));
    assert!(!bytes_eq(b"abc", b"abd"));
    assert!(ends_with(b"tile.pbf", b".pbf"));
    assert!(!ends_with(b"pbf", b".pbf"));
    assert_eq!(find_byte(b"k=v=w", b'='), Some(1));
    assert_eq!(find_byte(b"kv", b'='), None);
}

//! Ordered font-stack fallback behaviour.

use tile_gateway::fonts::FontRegistry;

fn b(s: &str) -> Vec<u8> {
    s.as_bytes().to_vec()
}

fn registry_with(keys: &[&str]) -> FontRegistry {
    let mut reg = FontRegistry::new();
    for (i, k) in keys.iter().enumerate() {
        reg.add(b(k), vec![i as u8 + 1]);
    }
    reg
}

#[test]
fn order_preserved_second_family_wins() {
    // Payload present only under B: the stack resolves via A -> B, never
    // skipping ahead to the fallback.
    let reg = registry_with(&["fonts/B/0-255.pbf", "fonts/Roboto Regular/0-255.pbf"]);
    let families = vec![b("A"), b("B")];
    let got = reg.resolve(&families, b("0-255").as_slice());
    assert_eq!(got, Some(vec![1u8]));
}

#[test]
fn first_family_wins_over_later_hits() {
    let reg = registry_with(&["fonts/A/0-255.pbf", "fonts/B/0-255.pbf"]);
    let families = vec![b("A"), b("B")];
    let got = reg.resolve(&families, b("0-255").as_slice());
    assert_eq!(got, Some(vec![1u8]));
}

#[test]
fn fallback_family_is_probed_last() {
    let reg = registry_with(&["fonts/Roboto Regular/0-255.pbf"]);
    let families = vec![b("A"), b("B")];
    let got = reg.resolve(&families, b("0-255").as_slice());
    assert_eq!(got, Some(vec![1u8]));
}

#[test]
fn exhausted_stack_resolves_to_nothing() {
    // Nothing matches, the appended fallback included.
    let reg = registry_with(&["fonts/C/0-255.pbf"]);
    let families = vec![b("A"), b("B")];
    assert_eq!(reg.resolve(&families, b("0-255").as_slice()), None);
}

#[test]
fn percent_encoded_spaces_are_decoded() {
    let reg = registry_with(&["fonts/Open Sans/0-255.pbf"]);
    let families = vec![b("Open%20Sans")];
    assert_eq!(reg.resolve(&families, b("0-255").as_slice()), Some(vec![1u8]));
}

#[test]
fn range_label_matched_verbatim() {
    let reg = registry_with(&["fonts/A/0-255.pbf"]);
    let families = vec![b("A")];
    assert_eq!(reg.resolve(&families, b("256-511").as_slice()), None);
}

use pad_engine::defs::{PadDefinition, PadDefinitionList, PadDefinitionUpdates, PadUpdate};
use pad_engine::table::PadDefinitions;
use pad_engine::uri::Uri;

fn def(asn: u32, uri: &str) -> PadDefinition {
    PadDefinition::accept(asn, uri).unwrap()
}

fn parsed_uri(uri: &str) -> Uri {
    def(64999, uri).unpack().1
}

#[test]
fn upsert_is_idempotent() {
    let mut t = PadDefinitions::default();
    let d = def(64500, "https://a.example/pad");
    t.add_or_replace(d.clone());
    t.add_or_replace(d.clone());
    assert_eq!(t.len(), 1);
    assert!(t.has(64500));
    assert!(t.get(64500).unwrap().same_as(&d));
}

#[test]
fn upsert_replaces_by_subject() {
    let mut t = PadDefinitions::default();
    t.add_or_replace(def(64500, "https://a.example/pad"));
    t.add_or_replace(def(64500, "https://b.example/pad"));
    assert_eq!(t.len(), 1);
    assert_eq!(
        t.get(64500).unwrap().peering_api_uri().as_string().as_str(),
        "https://b.example/pad"
    );
}

#[test]
fn removal_is_idempotent() {
    let mut t = PadDefinitions::default();
    t.add_or_replace(def(64500, "https://a.example/pad"));
    t.remove(64500);
    assert!(!t.has(64500));
    t.remove(64500);
    assert!(!t.has(64500));
    assert!(t.is_empty());
}

#[test]
fn apply_update_creates_if_absent() {
    let mut t = PadDefinitions::default();
    let u = PadUpdate::new(parsed_uri("https://c.example/pad"));
    t.apply_update(64501, &u);
    assert_eq!(t.len(), 1);
    let d = t.get(64501).unwrap();
    assert_eq!(d.asn(), 64501);
    assert_eq!(d.peering_api_uri().as_string().as_str(), "https://c.example/pad");
}

#[test]
fn apply_update_preserves_subject() {
    let mut t = PadDefinitions::default();
    t.add_or_replace(def(64500, "https://a.example/pad"));
    let u = PadUpdate::new(parsed_uri("https://d.example/pad"));
    t.apply_update(64500, &u);
    assert_eq!(t.len(), 1);
    let d = t.get(64500).unwrap();
    assert_eq!(d.asn(), 64500);
    assert_eq!(d.peering_api_uri().as_string().as_str(), "https://d.example/pad");
}

#[test]
fn apply_delta_upserts_then_removes() {
    let mut t = PadDefinitions::default();
    t.add_or_replace(def(64500, "https://a.example/pad"));
    t.add_or_replace(def(64501, "https://b.example/pad"));
    let delta = PadDefinitionUpdates::new(
        vec![def(64502, "https://c.example/pad"), def(64500, "https://e.example/pad")],
        vec![64501, 64777],
    );
    t.apply_delta(delta);
    assert_eq!(t.len(), 2);
    assert!(!t.has(64501));
    assert_eq!(
        t.get(64500).unwrap().peering_api_uri().as_string().as_str(),
        "https://e.example/pad"
    );
    assert_eq!(
        t.get(64502).unwrap().peering_api_uri().as_string().as_str(),
        "https://c.example/pad"
    );
}

#[test]
fn all_lists_each_definition_once() {
    let mut t = PadDefinitions::default();
    t.add_or_replace(def(64500, "https://a.example/pad"));
    t.add_or_replace(def(64501, "https://b.example/pad"));
    let listed = t.all();
    assert_eq!(listed.len(), 2);
    let mut asns: Vec<u32> = listed.iter().map(|d| d.asn()).collect();
    asns.sort();
    assert_eq!(asns, vec![64500, 64501]);
}

#[test]
fn definition_display() {
    let d = def(64500, "https://a.example/pad");
    assert_eq!(d.display_string(), "64500 => https://a.example/pad");
}

#[test]
fn update_display() {
    let u = PadUpdate::new(parsed_uri("https://a.example/pad"));
    assert_eq!(u.display_string(), "new peering URI: https://a.example/pad");
}

#[test]
fn list_display_one_per_line() {
    let l = PadDefinitionList::new(vec![
        def(1, "https://a.example/pad"),
        def(2, "https://b.example/pad"),
    ]);
    assert_eq!(
        l.display_string(),
        "1 => https://a.example/pad\n2 => https://b.example/pad\n"
    );
}

#[test]
fn empty_list_display_is_empty() {
    let l = PadDefinitionList::new(Vec::new());
    assert_eq!(l.display_string(), "");
}

#[test]
fn list_keeps_its_definitions() {
    let l = PadDefinitionList::new(vec![def(64500, "https://a.example/pad")]);
    let listed = l.definitions();
    assert_eq!(listed.len(), 1);
    assert_eq!(listed[0].asn(), 64500);
}

#[test]
fn delta_display_both_parts() {
    let delta = PadDefinitionUpdates::new(vec![def(64500, "https://a.example/pad")], vec![64501]);
    assert_eq!(
        delta.display_string(),
        "Update PAD definitions:  update: 64500 => https://a.example/pad remove where ASN is: 64501"
    );
}

#[test]
fn delta_display_empty() {
    let delta = PadDefinitionUpdates::new(Vec::new(), Vec::new());
    assert_eq!(delta.display_string(), "Update PAD definitions: ");
}

#[test]
fn delta_unpack_round_trip() {
    let delta = PadDefinitionUpdates::new(vec![def(64500, "https://a.example/pad")], vec![64501]);
    let (ups, rems) = delta.unpack();
    assert_eq!(ups.len(), 1);
    assert_eq!(ups[0].asn(), 64500);
    assert_eq!(rems, vec![64501]);
}

#[test]
fn decimal_rendering() {
    assert_eq!(pad_engine::display::u32_to_dec(0), "0");
    assert_eq!(pad_engine::display::u32_to_dec(10), "10");
    assert_eq!(pad_engine::display::u32_to_dec(64500), "64500");
    assert_eq!(pad_engine::display::u32_to_dec(u32::MAX), "4294967295");
}

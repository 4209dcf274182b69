use pad_engine::batch::PadObjectsUpdates;
use pad_engine::defs::PadDefinition;
use pad_engine::objects::{make_pad_object, AsnSet, PadObjects};
use pad_engine::signer::{
    FakeSigner, IssuanceTiming, SignedArtifact, Signer, SigningError, Validity,
};
use pad_engine::record::PadInfo;
use pad_engine::table::PadDefinitions;

fn def(asn: u32, uri: &str) -> PadDefinition {
    PadDefinition::accept(asn, uri).unwrap()
}

fn timing() -> IssuanceTiming {
    IssuanceTiming { validity_seconds: 3600 }
}

/// A signing boundary that always fails, for exercising the abort path.
struct BrokenSigner;

impl Signer for BrokenSigner {
    fn sign(
        &mut self,
        _definition: &PadDefinition,
        _validity: Validity,
    ) -> Result<SignedArtifact, SigningError> {
        Err(SigningError::KeyUnavailable)
    }
}

fn record(asn: u32, uri: &str, not_after: i64, serial: u128) -> PadInfo {
    PadInfo::new(
        def(asn, uri),
        SignedArtifact {
            validity: Validity { not_before: 0, not_after },
            serial,
            signed_object_uri: Some(format!("rsync://repository.example/pad/{}.pad", asn)),
            content: vec![asn as u8, serial as u8],
        },
    )
}

fn store_with(records: Vec<PadInfo>) -> PadObjects {
    let mut store = PadObjects::default();
    let mut batch = PadObjectsUpdates::default();
    for r in records {
        batch.add_updated(r);
    }
    store.updated(batch);
    store
}

#[test]
fn end_to_end_issue_then_withdraw() {
    let mut defs = PadDefinitions::default();
    defs.add_or_replace(def(64500, "https://a.example/pad"));
    let resources = AsnSet::from_vec(vec![64500]);
    let mut store = PadObjects::default();
    let mut signer = FakeSigner::new();

    let batch = store
        .update(&defs, &resources, &timing(), 1_000, &mut signer)
        .unwrap();
    let (ups, rems) = batch.unpack();
    assert_eq!(ups.len(), 1);
    assert_eq!(ups[0].asn(), 64500);
    assert!(ups[0].definition().same_as(&def(64500, "https://a.example/pad")));
    assert_eq!(ups[0].validity(), Validity { not_before: 1_000, not_after: 4_600 });
    assert!(rems.is_empty());

    let mut commit = PadObjectsUpdates::default();
    for u in ups {
        commit.add_updated(u);
    }
    store.updated(commit);
    assert_eq!(store.len(), 1);
    assert!(store.get(64500).is_some());

    defs.remove(64500);
    let batch = store
        .update(&defs, &resources, &timing(), 2_000, &mut signer)
        .unwrap();
    let (ups, rems) = batch.unpack();
    assert!(ups.is_empty());
    assert_eq!(rems, vec![64500]);

    let mut commit = PadObjectsUpdates::default();
    for a in rems {
        commit.add_removed(a);
    }
    store.updated(commit);
    assert!(store.is_empty());
}

#[test]
fn coverage_requires_resources_too() {
    let mut defs = PadDefinitions::default();
    defs.add_or_replace(def(64500, "https://a.example/pad"));
    defs.add_or_replace(def(64501, "https://b.example/pad"));
    let resources = AsnSet::from_vec(vec![64500]);
    let store = PadObjects::default();
    let mut signer = FakeSigner::new();

    let (ups, rems) = store
        .update(&defs, &resources, &timing(), 0, &mut signer)
        .unwrap()
        .unpack();
    assert_eq!(ups.len(), 1);
    assert_eq!(ups[0].asn(), 64500);
    assert!(rems.is_empty());
}

#[test]
fn stored_object_outside_resources_is_removed() {
    let mut defs = PadDefinitions::default();
    defs.add_or_replace(def(64500, "https://a.example/pad"));
    let store = store_with(vec![record(64500, "https://a.example/pad", 99, 1)]);
    let resources = AsnSet::from_vec(Vec::new());
    let mut signer = FakeSigner::new();

    let (ups, rems) = store
        .update(&defs, &resources, &timing(), 0, &mut signer)
        .unwrap()
        .unpack();
    assert!(ups.is_empty());
    assert_eq!(rems, vec![64500]);
}

#[test]
fn changed_definition_is_reissued() {
    let mut defs = PadDefinitions::default();
    defs.add_or_replace(def(64500, "https://new.example/pad"));
    let store = store_with(vec![record(64500, "https://old.example/pad", 99, 1)]);
    let resources = AsnSet::from_vec(vec![64500]);
    let mut signer = FakeSigner::new();

    let (ups, rems) = store
        .update(&defs, &resources, &timing(), 0, &mut signer)
        .unwrap()
        .unpack();
    assert_eq!(ups.len(), 1);
    assert!(ups[0].definition().same_as(&def(64500, "https://new.example/pad")));
    assert!(rems.is_empty());
}

#[test]
fn update_is_stable_without_changes() {
    let mut defs = PadDefinitions::default();
    defs.add_or_replace(def(64500, "https://a.example/pad"));
    defs.add_or_replace(def(64501, "https://b.example/pad"));
    let resources = AsnSet::from_vec(vec![64500, 64501]);
    let mut store = PadObjects::default();
    let mut signer = FakeSigner::new();

    let batch = store
        .update(&defs, &resources, &timing(), 10, &mut signer)
        .unwrap();
    store.updated(batch);
    assert_eq!(store.len(), 2);

    let (ups, rems) = store
        .update(&defs, &resources, &timing(), 20, &mut signer)
        .unwrap()
        .unpack();
    assert!(ups.is_empty());
    assert!(rems.is_empty());
}

#[test]
fn signing_failure_aborts_whole_pass() {
    let mut defs = PadDefinitions::default();
    defs.add_or_replace(def(64500, "https://a.example/pad"));
    let resources = AsnSet::from_vec(vec![64500]);
    let store = PadObjects::default();
    let mut signer = BrokenSigner;

    let r = store.update(&defs, &resources, &timing(), 0, &mut signer);
    assert!(matches!(r, Err(SigningError::KeyUnavailable)));
    assert!(store.is_empty());
}

#[test]
fn renewal_failure_aborts_whole_pass() {
    let store = store_with(vec![record(64500, "https://a.example/pad", 1, 1)]);
    let mut signer = BrokenSigner;
    let r = store.renew(None, &timing(), 0, &mut signer);
    assert!(matches!(r, Err(SigningError::KeyUnavailable)));
}

#[test]
fn renew_only_below_threshold() {
    let store = store_with(vec![
        record(64500, "https://a.example/pad", 1, 1),
        record(64501, "https://b.example/pad", 10, 2),
    ]);
    let mut signer = FakeSigner::new();

    let (ups, rems) = store
        .renew(Some(5), &timing(), 100, &mut signer)
        .unwrap()
        .unpack();
    assert_eq!(ups.len(), 1);
    assert_eq!(ups[0].asn(), 64500);
    assert_eq!(ups[0].validity(), Validity { not_before: 100, not_after: 3_700 });
    assert!(rems.is_empty());
}

#[test]
fn renew_unconditionally_without_threshold() {
    let store = store_with(vec![
        record(64500, "https://a.example/pad", 1, 1),
        record(64501, "https://b.example/pad", 10, 2),
    ]);
    let mut signer = FakeSigner::new();

    let (ups, rems) = store.renew(None, &timing(), 100, &mut signer).unwrap().unpack();
    assert_eq!(ups.len(), 2);
    let mut asns: Vec<u32> = ups.iter().map(|p| p.asn()).collect();
    asns.sort();
    assert_eq!(asns, vec![64500, 64501]);
    assert!(rems.is_empty());
}

#[test]
fn renew_keeps_embedded_definition() {
    let store = store_with(vec![record(64500, "https://old.example/pad", 1, 1)]);
    let mut signer = FakeSigner::new();
    let (ups, _) = store.renew(None, &timing(), 100, &mut signer).unwrap().unpack();
    assert_eq!(ups.len(), 1);
    assert!(ups[0].definition().same_as(&def(64500, "https://old.example/pad")));
}

#[test]
fn commit_upserts_then_removes() {
    let mut store = store_with(vec![record(64500, "https://a.example/pad", 9, 1)]);
    let mut batch = PadObjectsUpdates::default();
    batch.add_updated(record(64501, "https://b.example/pad", 9, 2));
    batch.add_removed(64500);
    batch.add_removed(64999);
    store.updated(batch);
    assert_eq!(store.len(), 1);
    assert!(store.get(64500).is_none());
    assert_eq!(store.get(64501).unwrap().serial(), 2);
}

#[test]
fn record_fields_come_from_the_artifact() {
    let d = def(64500, "https://a.example/pad");
    let content = vec![1u8, 2, 3, 4, 5];
    let info = PadInfo::new(
        d,
        SignedArtifact {
            validity: Validity { not_before: 3, not_after: 17 },
            serial: 42,
            signed_object_uri: Some("rsync://repository.example/pad/64500.pad".to_string()),
            content: content.clone(),
        },
    );
    assert_eq!(info.asn(), 64500);
    assert_eq!(info.expires(), 17);
    assert_eq!(info.serial(), 42);
    assert_eq!(info.uri().as_str(), "rsync://repository.example/pad/64500.pad");

    let expected = rpki::ca::publication::Base64::from_content(&content);
    assert_eq!(info.base64().as_str(), expected.as_str());
    assert_eq!(
        info.hash().as_slice(),
        rpki::rrdp::Hash::from_data(&content).as_slice()
    );
}

#[test]
fn signed_artifact_carries_requested_validity() {
    let d = def(64500, "https://a.example/pad");
    let mut signer = FakeSigner::new();
    let v = Validity { not_before: 5, not_after: 60 };
    let a = make_pad_object(&d, v, &mut signer).unwrap();
    assert_eq!(a.validity, v);
    assert!(a.signed_object_uri.is_some());
    let b = make_pad_object(&d, v, &mut signer).unwrap();
    assert_ne!(a.serial, b.serial);
}

#[test]
fn asn_set_membership() {
    let s = AsnSet::from_vec(vec![1, 2, 64500]);
    assert!(s.contains(1));
    assert!(s.contains(64500));
    assert!(!s.contains(3));
    let empty = AsnSet::from_vec(Vec::new());
    assert!(!empty.contains(1));
}

#[test]
fn timing_builds_fresh_window() {
    let t = IssuanceTiming { validity_seconds: 86_400 };
    let v = t.new_pad_validity(1_000_000);
    assert_eq!(v, Validity { not_before: 1_000_000, not_after: 1_086_400 });
}

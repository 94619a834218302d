use glass_ui::ids::{ArtifactId, BundleId};

fn hex(bytes: &[u8]) -> String {
    bytes.iter().map(|b| format!("{:02x}", b)).collect()
}

#[test]
fn artifact_id_is_the_digest_of_its_contents() {
    let id = ArtifactId::from_bytes(b"");
    assert_eq!(
        hex(&id.as_bytes()),
        "af1349b9f5f9a1a6a0404dea36dcc9499bcb25c9adc112b7cc9a93cae41f3262"
    );
    assert_eq!(ArtifactId::from_bytes(b"abc").as_bytes(), *blake3::hash(b"abc").as_bytes());
    assert!(!id.same(&ArtifactId::from_bytes(b"abc")));
    assert!(id.same(&ArtifactId::from_bytes(b"")));
}

#[test]
fn bundle_id_is_the_digest_of_the_ids_in_order() {
    let a = ArtifactId::from_bytes(b"one");
    let b = ArtifactId::from_bytes(b"two");
    let mut hasher = blake3::Hasher::new();
    hasher.update(&a.as_bytes());
    hasher.update(&b.as_bytes());
    let id = BundleId::of_artifacts(&vec![a, b]);
    assert_eq!(id.as_bytes(), *hasher.finalize().as_bytes());
    let other = BundleId::of_artifacts(&vec![b, a]);
    assert_ne!(id.as_bytes(), other.as_bytes());
}

#[test]
fn raw_ids_round_trip() {
    let raw = [7u8; 32];
    assert_eq!(ArtifactId::from_raw(raw).as_bytes(), raw);
    assert_eq!(BundleId::from_raw(raw).as_bytes(), raw);
}

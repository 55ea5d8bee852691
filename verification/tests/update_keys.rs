use base64::Engine as _;
use ed25519_dalek::{Signer, SigningKey};
use sha2::{Digest, Sha256};

use devtoolbox::update::keys::{configured, KeyRing};

fn encode(bytes: &[u8]) -> String {
    base64::engine::general_purpose::STANDARD.encode(bytes)
}

#[test]
fn generated_constants_and_fingerprint_match_the_input() {
    let signing = SigningKey::from_bytes(&[7; 32]);
    let encoded = encode(signing.verifying_key().as_bytes());
    let ring = KeyRing::from_json(&format!(r#"{{"fixture":"{encoded}"}}"#)).unwrap();
    let payload = b"signed fixture";
    let signature = encode(&signing.sign(payload).to_bytes());
    ring.verify("fixture", payload, &signature).unwrap();
    assert_eq!(ring.fingerprints().len(), 1);
    assert!(!configured());
}

#[test]
fn unknown_or_modified_signatures_are_rejected() {
    let ring = KeyRing::from_json("{}").unwrap();
    assert!(ring.verify("missing", b"payload", "bad").is_err());
}

#[test]
fn verification_errors_say_what_went_wrong() {
    let signing = SigningKey::from_bytes(&[3; 32]);
    let encoded = encode(signing.verifying_key().as_bytes());
    let ring = KeyRing::from_json(&format!(r#"{{"k":"{encoded}"}}"#)).unwrap();
    assert_eq!(
        ring.verify("other", b"x", "AAAA").unwrap_err(),
        "unknown updater key: other"
    );
    assert!(ring
        .verify("k", b"x", "not base64!")
        .unwrap_err()
        .starts_with("invalid signature encoding: "));
    assert_eq!(
        ring.verify("k", b"x", &encode(&[1, 2, 3])).unwrap_err(),
        "invalid signature length: signature error"
    );
    let signature = encode(&signing.sign(b"original").to_bytes());
    assert_eq!(
        ring.verify("k", b"modified", &signature).unwrap_err(),
        "update signature rejected"
    );
    assert_eq!(ring.verify("k", b"original", &signature), Ok(()));
}

#[test]
fn malformed_keyrings_are_refused_with_the_failing_entry() {
    assert!(KeyRing::from_json("not json").is_err());
    assert_eq!(
        KeyRing::from_json(r#"{"short":"AAAA"}"#).err().unwrap(),
        "invalid key length for short"
    );
    assert!(KeyRing::from_json(r#"{"bad":"!!!"}"#)
        .err()
        .unwrap()
        .starts_with("invalid key bad: "));
    assert!(KeyRing::default().is_empty());
    assert!(KeyRing::embedded().unwrap().is_empty());
}

#[test]
fn fingerprints_are_sorted_by_id_and_hash_the_key() {
    let a = SigningKey::from_bytes(&[1; 32]);
    let b = SigningKey::from_bytes(&[2; 32]);
    let json = format!(
        r#"{{"zeta":"{}","alpha":"{}"}}"#,
        encode(a.verifying_key().as_bytes()),
        encode(b.verifying_key().as_bytes())
    );
    let ring = KeyRing::from_json(&json).unwrap();
    let prints = ring.fingerprints();
    assert_eq!(prints.len(), 2);
    assert_eq!(prints[0].0, "alpha");
    assert_eq!(prints[1].0, "zeta");
    assert_eq!(
        prints[0].1,
        format!("{:x}", Sha256::digest(b.verifying_key().as_bytes()))
    );
}

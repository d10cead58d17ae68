use velin::security::{
    expiry_remaining_days, is_expired, pairing_fingerprint, public_key_fingerprint, secret_bytes_from_hex,
    SecurityError, SecurityStore, TrustOutcome, TrustedPeer, DEFAULT_TRUST_VALIDITY_DAYS,
};

const DAY: u64 = 86_400;

fn key(byte: u8) -> String {
    format!("{byte:02x}").repeat(32)
}

fn identity_store(byte: u8) -> SecurityStore {
    SecurityStore::from_saved(key(byte), Vec::new(), 30)
}

#[test]
fn new_store_has_default_validity() {
    let store = SecurityStore::new();
    assert_eq!(store.trust_validity_days, DEFAULT_TRUST_VALIDITY_DAYS);
    assert_eq!(store.trust_validity_days(), 30);
    assert!(store.trusted_peers.is_empty());
    assert!(store.local_secret_hex.is_empty());
    assert!(!store.needs_save);
}

#[test]
fn trusted_peer_is_recognised() {
    let mut store = SecurityStore::new();
    store.trust_peer("  studio  ", &key(0xab).to_uppercase(), 1_000).expect("trusted");
    assert!(store.needs_save);
    assert_eq!(store.trusted_peers.len(), 1);
    assert_eq!(store.trusted_peers[0].machine_name, "studio");
    assert_eq!(store.trusted_peers[0].public_key_hex, key(0xab));
    assert_eq!(store.trusted_peers[0].trusted_at_unix_secs, 1_000);
    store.mark_saved();
    let outcome = store.verify_peer("studio", &format!(" {} ", key(0xab)), 1_000 + DAY).expect("verified");
    assert!(matches!(outcome, TrustOutcome::Trusted));
    assert!(!store.needs_save, "a plain verification changes nothing to save");
}

#[test]
fn trusted_name_with_another_key_is_refused() {
    let mut store = SecurityStore::new();
    store.trust_peer("studio", &key(0x01), 0).unwrap();
    match store.verify_peer("studio", &key(0x02), 10) {
        Err(SecurityError::IdentityMismatch { machine_name }) => assert_eq!(machine_name, "studio"),
        other => panic!("unexpected {other:?}"),
    }
}

#[test]
fn known_key_under_a_new_name_is_renamed() {
    let mut store = SecurityStore::new();
    store.trust_peer("old-name", &key(0x05), 0).unwrap();
    store.mark_saved();
    let outcome = store.verify_peer("new-name", &key(0x05), 10).unwrap();
    assert!(matches!(outcome, TrustOutcome::Trusted));
    assert_eq!(store.trusted_peers[0].machine_name, "new-name");
    assert!(store.needs_save);
}

#[test]
fn unknown_peer_is_untrusted() {
    let mut store = SecurityStore::new();
    store.trust_peer("a", &key(0x01), 0).unwrap();
    match store.verify_peer(" b ", &key(0x02), 10).unwrap() {
        TrustOutcome::Untrusted { machine_name } => assert_eq!(machine_name, "b"),
        TrustOutcome::Trusted => panic!("must not be trusted"),
    }
}

#[test]
fn verification_refuses_bad_input() {
    let mut store = SecurityStore::new();
    assert!(matches!(store.verify_peer("   ", &key(1), 0), Err(SecurityError::EmptyMachineName)));
    assert!(matches!(store.verify_peer("x", "zz", 0), Err(SecurityError::InvalidKeyEncoding)));
    assert!(matches!(store.verify_peer("x", "abc", 0), Err(SecurityError::InvalidKeyEncoding)));
    assert!(matches!(store.verify_peer("x", "abcd", 0), Err(SecurityError::InvalidKeyLength)));
    assert!(matches!(store.trust_peer("x", "abcd", 0), Err(SecurityError::InvalidKeyLength)));
    assert!(store.trusted_peers.is_empty());
}

#[test]
fn expired_trust_is_forgotten() {
    let mut store = SecurityStore::new();
    store.trust_peer("studio", &key(0x01), 0).unwrap();
    match store.verify_peer("studio", &key(0x01), 30 * DAY).unwrap() {
        TrustOutcome::Untrusted { machine_name } => assert_eq!(machine_name, "studio"),
        TrustOutcome::Trusted => panic!("trust should have expired"),
    }
    assert!(store.trusted_peers.is_empty());
}

#[test]
fn expiry_arithmetic() {
    assert!(!is_expired(0, 30, 30 * DAY - 1));
    assert!(is_expired(0, 30, 30 * DAY));
    assert!(!is_expired(100, 1, 50), "a clock before the trust time counts as no time");
    assert_eq!(expiry_remaining_days(0, 30, 0), Some(30));
    assert_eq!(expiry_remaining_days(0, 30, 1), Some(30));
    assert_eq!(expiry_remaining_days(0, 30, DAY), Some(29));
    assert_eq!(expiry_remaining_days(0, 30, 29 * DAY + 1), Some(1));
    assert_eq!(expiry_remaining_days(0, 30, 30 * DAY), None);
}

#[test]
fn trust_peer_replaces_same_name_or_key_and_sorts() {
    let mut store = SecurityStore::new();
    store.trust_peer("zeta", &key(0x03), 0).unwrap();
    store.trust_peer("alpha", &key(0x01), 0).unwrap();
    store.trust_peer("mid", &key(0x02), 0).unwrap();
    store.trust_peer("alpha", &key(0x04), 5).unwrap();
    store.trust_peer("beta", &key(0x02), 6).unwrap();
    let names: Vec<&str> = store.trusted_peers.iter().map(|p| p.machine_name.as_str()).collect();
    assert_eq!(names, vec!["alpha", "beta", "zeta"]);
    assert_eq!(store.trusted_peers[0].public_key_hex, key(0x04));
    assert_eq!(store.trusted_peers[1].public_key_hex, key(0x02));
}

#[test]
fn validity_is_at_least_one_day_and_prunes() {
    let mut store = SecurityStore::new();
    store.trust_peer("a", &key(0x01), 0).unwrap();
    store.trust_peer("b", &key(0x02), 2 * DAY).unwrap();
    store.mark_saved();
    store.set_trust_validity_days(0, 2 * DAY + 10).unwrap();
    assert_eq!(store.trust_validity_days, 1);
    assert_eq!(store.trust_validity_days(), 1);
    assert!(store.needs_save);
    assert_eq!(store.trusted_peers.len(), 1);
    assert_eq!(store.trusted_peers[0].machine_name, "b");
    let stale = SecurityStore::from_saved(String::new(), Vec::new(), 0);
    assert_eq!(stale.trust_validity_days(), 1);
}

#[test]
fn peer_views_show_fingerprint_and_days_sorted() {
    let peers = vec![
        TrustedPeer { machine_name: "zulu".into(), public_key_hex: key(0x09), trusted_at_unix_secs: 0 },
        TrustedPeer { machine_name: "alpha".into(), public_key_hex: "not hex".into(), trusted_at_unix_secs: DAY },
        TrustedPeer { machine_name: "mike".into(), public_key_hex: key(0x07), trusted_at_unix_secs: 0 },
    ];
    let mut store = SecurityStore::from_saved(String::new(), peers, 10);
    let views = store.trusted_peer_views(DAY + 5).unwrap();
    let expected_zulu = public_key_fingerprint(&key(0x09)).unwrap();
    assert_eq!(views.len(), 3);
    assert_eq!(views[0].machine_name, "alpha");
    assert_eq!(views[0].fingerprint, "Invalid fingerprint");
    assert_eq!(views[0].expires_in_days, Some(10));
    assert_eq!(views[1].machine_name, "mike");
    assert_eq!(views[2].machine_name, "zulu");
    assert_eq!(views[2].fingerprint, expected_zulu);
    assert_eq!(views[2].expires_in_days, Some(9));
}

#[test]
fn fingerprint_format() {
    let fp = public_key_fingerprint(&key(0x11)).unwrap();
    assert_eq!(fp.len(), 39);
    let groups: Vec<&str> = fp.split(':').collect();
    assert_eq!(groups.len(), 8);
    assert!(groups.iter().all(|g| g.len() == 4 && g.chars().all(|c| c.is_ascii_hexdigit() && !c.is_ascii_lowercase())));
    assert_eq!(public_key_fingerprint(&format!("  {}\n", key(0x11))).unwrap(), fp);
    assert!(matches!(public_key_fingerprint("xyz"), Err(SecurityError::InvalidPublicKeyEncoding)));
    // SHA-256 of the empty input starts e3b0c442 98fc1c14 9afbf4c8 996fb924
    assert_eq!(public_key_fingerprint("").unwrap(), "E3B0:C442:98FC:1C14:9AFB:F4C8:996F:B924");
}

#[test]
fn pairing_fingerprint_is_the_same_on_both_sides() {
    let a = key(0x21);
    let b = key(0x42);
    let ab = pairing_fingerprint(&a, &b).unwrap();
    let ba = pairing_fingerprint(&b, &a).unwrap();
    assert_eq!(ab, ba);
    assert_ne!(ab, public_key_fingerprint(&a).unwrap());
    assert!(matches!(pairing_fingerprint("q", &b), Err(SecurityError::InvalidLocalKeyEncoding)));
    assert!(matches!(pairing_fingerprint(&a, "q"), Err(SecurityError::InvalidPeerKeyEncoding)));
}

#[test]
fn removing_a_fingerprint_forgets_its_peer() {
    let mut store = SecurityStore::new();
    store.trust_peer("a", &key(0x01), 0).unwrap();
    store.trust_peer("b", &key(0x02), 0).unwrap();
    store.mark_saved();
    let fp = public_key_fingerprint(&key(0x02)).unwrap();
    assert!(store.remove_trusted_peer_by_fingerprint(&format!(" {} ", fp.to_lowercase())).unwrap());
    assert!(store.needs_save);
    assert_eq!(store.trusted_peers.len(), 1);
    assert_eq!(store.trusted_peers[0].machine_name, "a");
    store.mark_saved();
    assert!(!store.remove_trusted_peer_by_fingerprint(&fp).unwrap());
    assert!(!store.needs_save);
    store.clear_trusted_peers().unwrap();
    assert!(store.trusted_peers.is_empty());
    assert!(store.needs_save);
}

#[test]
fn session_keys_agree_between_peers() {
    let a = identity_store(0x10).local_identity().unwrap();
    let b = identity_store(0x20).local_identity().unwrap();
    let a_pub = a.public_key_hex();
    let b_pub = b.public_key_hex();
    assert_eq!(a_pub.len(), 64);
    assert_ne!(a_pub, key(0x10), "the public key is not the secret");
    let k1 = a.derive_session_key(&b_pub).unwrap();
    let k2 = b.derive_session_key(&a_pub).unwrap();
    assert_eq!(k1, k2);
    let c = identity_store(0x30).local_identity().unwrap();
    assert_ne!(k1, c.derive_session_key(&b_pub).unwrap());
    assert!(matches!(a.derive_session_key("12"), Err(SecurityError::InvalidKeyLength)));
}

#[test]
fn x25519_matches_the_rfc_test_vector() {
    // RFC 7748 section 6.1: Alice's key pair
    let alice = SecurityStore::from_saved(
        "77076d0a7318a57d3c16c17251b26645df4c2f87ebc0992ab177fba51db92c2a".to_string(),
        Vec::new(),
        30,
    );
    let identity = alice.local_identity().unwrap();
    assert_eq!(identity.public_key_hex(), "8520f0098930a754748b7ddcb43ef75a0dbf3a0d26381af4eba4a98eaa9b4e6a");
}

#[test]
fn local_identity_requires_a_32_byte_secret() {
    assert!(matches!(SecurityStore::new().local_identity(), Err(SecurityError::InvalidKeyLength)));
    let bad = SecurityStore::from_saved("nothex".to_string(), Vec::new(), 30);
    assert!(matches!(bad.local_identity(), Err(SecurityError::InvalidKeyEncoding)));
}

#[test]
fn secret_bytes_decode_either_case_and_trim() {
    let bytes = secret_bytes_from_hex(&format!(" {} ", "AB".repeat(32))).unwrap();
    assert_eq!(bytes, [0xab; 32]);
}

#[test]
fn a_fresh_identity_is_generated_once() {
    let mut store = SecurityStore::new();
    store.ensure_local_secret().expect("random source works");
    assert!(store.needs_save);
    let secret = store.local_secret_hex.clone();
    assert_eq!(secret.len(), 64);
    assert!(store.local_identity().is_ok());
    store.mark_saved();
    store.ensure_local_secret().unwrap();
    assert_eq!(store.local_secret_hex, secret);
    assert!(!store.needs_save);
}

#[test]
fn a_key_is_recognised_in_either_letter_case() {
    let mut store = SecurityStore::new();
    let k = "ab".repeat(16) + &"cd".repeat(16);
    store.trust_peer("studio", &k, 0).unwrap();
    assert!(matches!(store.verify_peer("studio", &k.to_uppercase(), 10).unwrap(), TrustOutcome::Trusted));
    assert!(matches!(store.verify_peer("studio", &k, 10).unwrap(), TrustOutcome::Trusted));
}

#[test]
fn a_lower_case_fingerprint_removes_its_peer() {
    let mut store = SecurityStore::new();
    store.trust_peer("studio", &key(0x3c), 0).unwrap();
    store.trust_peer("desk", &key(0x4d), 0).unwrap();
    store.mark_saved();
    let fingerprint = public_key_fingerprint(&key(0x3c)).unwrap();
    let typed = format!(" {} ", fingerprint.to_lowercase());
    assert!(matches!(store.remove_trusted_peer_by_fingerprint(&typed), Ok(true)));
    assert!(store.needs_save);
    assert_eq!(store.trusted_peers.len(), 1);
    assert!(store.trusted_peers.iter().all(|p| p.public_key_hex != key(0x3c)));
}

#[test]
fn peer_views_fit_unless_the_days_left_overflow() {
    let mut store = SecurityStore::new();
    store.trust_peer("studio", &key(0x01), 1_000).unwrap();
    assert!(store.peer_views_fit(1_000 + DAY));
    let far = SecurityStore::from_saved(
        key(0x09),
        vec![TrustedPeer { machine_name: "far".to_string(), public_key_hex: key(0x02), trusted_at_unix_secs: u64::MAX - 10 }],
        30,
    );
    assert!(far.peer_views_fit(u64::MAX - 10));
    assert!(!far.peer_views_fit(0));
}

#[test]
fn the_presented_keys_fingerprint_removes_the_stored_key() {
    let mut store = SecurityStore::new();
    let presented = format!("  {}  ", key(0xbe).to_uppercase());
    store.trust_peer("studio", &presented, 0).unwrap();
    let fingerprint = public_key_fingerprint(&presented).unwrap();
    assert_eq!(fingerprint, public_key_fingerprint(&key(0xbe)).unwrap());
    assert!(matches!(store.remove_trusted_peer_by_fingerprint(&format!("\t{}\n", fingerprint.to_lowercase())), Ok(true)));
    assert!(store.trusted_peers.is_empty());
}

#[test]
fn unicode_whitespace_is_trimmed_from_names() {
    let mut store = SecurityStore::new();
    store.trust_peer("\u{3000}studio\u{85}\u{2009}", &key(0x07), 0).unwrap();
    assert_eq!(store.trusted_peers[0].machine_name, "studio");
    assert!(matches!(store.verify_peer("studio\u{a0}", &key(0x07), 1).unwrap(), TrustOutcome::Trusted));
}

use velin::discovery::{DiscoveryAction, DiscoveryAdvertiser, DiscoveryService, PeerTable, PEER_TTL_MS};
use velin::handshake::{
    begin_pairing, classify_source_response, conclude_pairing, control_body_len, frame_control_message,
    pairing_request, sender_decision, HandshakeError, PairingStep, SourceResponseKind,
};
use velin::netinfo::{
    advertised_ipv4_addresses_for, ipv4_text, listening_message, local_ipv4_addresses, local_ipv4_summary,
    local_machine_name, local_primary_ipv4, normalized_bind_ip,
};
use velin::proto::{DiscoveryAnnouncement, DiscoveryPacket};
use velin::security::{pairing_fingerprint, SecurityError, SecurityStore};

fn strings(items: &[&str]) -> Vec<String> {
    items.iter().map(|s| s.to_string()).collect()
}

fn key(byte: u8) -> String {
    format!("{byte:02x}").repeat(32)
}

#[test]
fn bind_ip_is_trimmed_or_every_interface() {
    assert_eq!(normalized_bind_ip("  192.168.1.4 "), "192.168.1.4");
    assert_eq!(normalized_bind_ip("   "), "0.0.0.0");
    assert_eq!(normalized_bind_ip(""), "0.0.0.0");
}

#[test]
fn advertised_addresses() {
    let local = strings(&["10.0.0.2", "192.168.1.9"]);
    assert_eq!(advertised_ipv4_addresses_for("0.0.0.0", local.clone()), local);
    assert_eq!(advertised_ipv4_addresses_for("10.0.0.2", local.clone()), strings(&["10.0.0.2"]));
}

#[test]
fn local_address_summaries() {
    assert_eq!(local_ipv4_summary(&Vec::new()), "Local IP unavailable");
    assert_eq!(local_ipv4_summary(&strings(&["10.0.0.2", "192.168.1.9"])), "10.0.0.2  |  192.168.1.9");
    assert_eq!(local_primary_ipv4(&Vec::new()), "Unavailable");
    assert_eq!(local_primary_ipv4(&strings(&["10.0.0.2", "192.168.1.9"])), "10.0.0.2");
}

#[test]
fn machine_name_sources_in_order() {
    let s = |v: &str| Some(v.to_string());
    assert_eq!(local_machine_name(&s(" WIN "), &s("unix"), &None, &None), "WIN");
    assert_eq!(local_machine_name(&None, &s("  box\n"), &s("env"), &None), "box");
    assert_eq!(local_machine_name(&None, &s("   "), &s(" env "), &s("host")), "env");
    assert_eq!(local_machine_name(&None, &None, &None, &s("host")), "host");
    assert_eq!(local_machine_name(&None, &None, &s("  "), &s("host")), "unknown");
    assert_eq!(local_machine_name(&None, &None, &None, &None), "unknown");
}

#[test]
fn usable_local_addresses_are_private_unique_and_sorted() {
    let interfaces = vec![
        [192, 168, 1, 20],
        [127, 0, 0, 1],
        [10, 0, 0, 5],
        [169, 254, 3, 4],
        [8, 8, 8, 8],
        [172, 16, 0, 1],
        [172, 32, 0, 1],
        [192, 168, 1, 20],
    ];
    assert_eq!(local_ipv4_addresses(&interfaces), strings(&["10.0.0.5", "172.16.0.1", "192.168.1.20"]));
    assert_eq!(ipv4_text([255, 0, 10, 7]), "255.0.10.7");
}

#[test]
fn listening_messages() {
    assert_eq!(listening_message("0.0.0.0", 49000, &Vec::new()), "Receiver listening on port 49000.");
    assert_eq!(listening_message("0.0.0.0", 49000, &strings(&["10.0.0.2"])), "Receiver listening on 10.0.0.2:49000.");
    assert_eq!(
        listening_message("0.0.0.0", 7, &strings(&["10.0.0.2", "10.0.0.3"])),
        "Receiver listening on 10.0.0.2:7, 10.0.0.3:7."
    );
    assert_eq!(listening_message("10.1.1.1", 49000, &Vec::new()), "Receiver listening on 10.1.1.1:49000.");
}

fn announcement(name: &str, addresses: &[&str]) -> DiscoveryAnnouncement {
    DiscoveryAnnouncement { machine_name: name.to_string(), control_port: 49000, addresses: strings(addresses) }
}

#[test]
fn advertiser_set_clear_current() {
    let mut advertiser = DiscoveryAdvertiser::new();
    assert!(advertiser.current().is_none());
    advertiser.set(announcement("desk", &["10.0.0.2"]));
    let current = advertiser.current().expect("announcing");
    assert_eq!(current.machine_name, "desk");
    assert_eq!(current.addresses, strings(&["10.0.0.2"]));
    advertiser.clear();
    assert!(advertiser.current().is_none());
}

#[test]
fn announcements_are_filed_by_name_and_address() {
    let mut table = PeerTable::new();
    let locals = strings(&["10.0.0.9"]);
    table.remember_announcement(&announcement("me", &["10.0.0.1"]), "me", &locals, 0);
    assert!(table.records.is_empty(), "own announcements are ignored");
    table.remember_announcement(&announcement("desk", &["10.0.0.2", "10.0.0.9", "10.0.0.3"]), "me", &locals, 100);
    assert_eq!(table.records.len(), 2);
    table.remember_announcement(&announcement("desk", &["10.0.0.2"]), "me", &locals, 500);
    assert_eq!(table.records.len(), 2);
    let refreshed = table.records.iter().find(|r| r.ip == "10.0.0.2").unwrap();
    assert_eq!(refreshed.last_seen_ms, 500);
    let peers = table.snapshot();
    let labels: Vec<&str> = peers.iter().map(|p| p.label.as_str()).collect();
    assert_eq!(labels, vec!["desk (10.0.0.2)", "desk (10.0.0.3)"]);
    assert_eq!(peers[1].ip, "10.0.0.3");
}

#[test]
fn stale_receivers_are_forgotten() {
    let mut table = PeerTable::new();
    table.remember_announcement(&announcement("a", &["10.0.0.2"]), "me", &Vec::new(), 1_000);
    table.remember_announcement(&announcement("b", &["10.0.0.3"]), "me", &Vec::new(), 3_000);
    table.prune(1_000 + PEER_TTL_MS);
    assert_eq!(table.records.len(), 2);
    table.prune(1_001 + PEER_TTL_MS);
    assert_eq!(table.records.len(), 1);
    assert_eq!(table.records[0].machine_name, "b");
}

#[test]
fn discovery_service_files_and_answers() {
    let mut service = DiscoveryService::new("me".to_string(), Vec::new());
    match service.on_packet(&DiscoveryPacket::Announcement(announcement("zed", &["10.0.0.7"])), None, 10) {
        DiscoveryAction::Publish(peers) => assert_eq!(peers[0].label, "zed (10.0.0.7)"),
        other => panic!("unexpected {other:?}"),
    }
    let request = DiscoveryPacket::Request { requester_name: "other".to_string() };
    assert!(matches!(service.on_packet(&request, None, 20), DiscoveryAction::Nothing));
    match service.on_packet(&request, Some(announcement("me", &["10.0.0.1"])), 30) {
        DiscoveryAction::Reply(a) => assert_eq!(a.machine_name, "me"),
        other => panic!("unexpected {other:?}"),
    }
    assert_eq!(service.on_tick(10 + PEER_TTL_MS).len(), 1);
    assert!(service.on_tick(11 + PEER_TTL_MS).is_empty());
}

#[test]
fn control_messages_are_length_prefixed() {
    let framed = frame_control_message(b"{\"a\":1}").unwrap();
    assert_eq!(&framed[..4], &[7, 0, 0, 0]);
    assert_eq!(&framed[4..], b"{\"a\":1}");
    assert_eq!(control_body_len(&[7, 0, 0, 0]), 7);
    assert_eq!(control_body_len(&[0, 1, 0, 0]), 256);
    assert_eq!(frame_control_message(&[]).unwrap(), vec![0, 0, 0, 0]);
}

#[test]
fn source_responses_are_told_apart() {
    assert_eq!(
        classify_source_response(&strings(&["target_name", "audio_port", "identity_public_key"])).unwrap(),
        SourceResponseKind::Accept
    );
    assert_eq!(
        classify_source_response(&strings(&["target_name", "identity_public_key"])).unwrap(),
        SourceResponseKind::PairingRequired
    );
    assert!(matches!(
        classify_source_response(&strings(&["identity_public_key"])),
        Err(HandshakeError::UnexpectedMessage)
    ));
}

#[test]
fn pairing_flow_asks_then_trusts() {
    let mut store = SecurityStore::new();
    let local = key(0x11);
    let peer = key(0x22);
    let step = begin_pairing(&mut store, true, "sender", &local, " laptop ", &peer, 0).unwrap();
    let request = match step {
        PairingStep::Confirm(r) => r,
        PairingStep::Trusted => panic!("not trusted yet"),
    };
    assert_eq!(request.peer_name, "laptop");
    assert_eq!(request.role, "sender");
    assert_eq!(request.fingerprint, pairing_fingerprint(&local, &peer).unwrap());
    assert!(store.trusted_peers.is_empty(), "asking trusts no one yet");
    conclude_pairing(&mut store, &request, &peer, true, 0).unwrap();
    assert_eq!(store.trusted_peers.len(), 1);
    assert_eq!(store.trusted_peers[0].machine_name, "laptop");
    assert_eq!(store.trusted_peers[0].public_key_hex, peer);
    assert!(store.needs_save);
    assert!(matches!(begin_pairing(&mut store, false, "sender", &local, "laptop", &peer, 5).unwrap(), PairingStep::Trusted));
}

#[test]
fn pairing_refusals() {
    let mut store = SecurityStore::new();
    match begin_pairing(&mut store, false, "receiver", &key(1), "desk", &key(2), 0) {
        Err(HandshakeError::NotTrusted { role, machine_name }) => {
            assert_eq!((role.as_str(), machine_name.as_str()), ("receiver", "desk"))
        }
        other => panic!("unexpected {other:?}"),
    }
    let request = pairing_request(true, "receiver", &key(1), "desk", &key(2)).unwrap();
    match conclude_pairing(&mut store, &request, &key(2), false, 0) {
        Err(HandshakeError::PairingRejected { role, machine_name }) => {
            assert_eq!((role.as_str(), machine_name.as_str()), ("receiver", "desk"))
        }
        other => panic!("unexpected {other:?}"),
    }
    assert!(store.trusted_peers.is_empty());
    assert!(matches!(
        begin_pairing(&mut store, true, "sender", "zz", "desk", &key(2), 0),
        Err(HandshakeError::Security(SecurityError::InvalidLocalKeyEncoding))
    ));
    match sender_decision("laptop", false) {
        Err(HandshakeError::SenderRejected { machine_name }) => assert_eq!(machine_name, "laptop"),
        other => panic!("unexpected {other:?}"),
    }
    assert!(sender_decision("laptop", true).is_ok());
}

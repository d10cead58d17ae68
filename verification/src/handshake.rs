//! The control channel: how messages are framed on it, how a sender tells
//! the receiver's answers apart, and the pairing decisions of both ends.
use crate::security::{
    SecurityError, SecurityStore, TrustOutcome, effective_days, key_check, key_position,
    name_position, normalized_key, pairing_check, pairing_fingerprint, peer_name, trusted_after,
    unexpired,
};
use crate::sorting::names_sorted;
use crate::text::{push_str, str_eq, string_of, trimmed, views};
use crate::wire::append_bytes;
use vstd::bytes::*;
use vstd::prelude::*;

verus! {

/// What the user is asked to confirm before two machines pair.
#[derive(Debug)]
pub struct PairingRequest {
    pub peer_name: String,
    pub fingerprint: String,
    pub role: String,
}

/// Why a handshake ended.
#[derive(Debug, Clone)]
pub enum HandshakeError {
    /// The trust store refused.
    Security(SecurityError),
    /// A control message is longer than its 32-bit length can say.
    MessageTooLarge,
    /// The receiver answered with something else than an acceptance or a
    /// pairing request.
    UnexpectedMessage,
    /// The peer is not trusted and nobody can confirm its fingerprint.
    NotTrusted { role: String, machine_name: String },
    /// The user refused the fingerprint.
    PairingRejected { role: String, machine_name: String },
    /// The sender refused the fingerprint.
    SenderRejected { machine_name: String },
}

// ---------------------------------------------------------------------------
// Framing
// ---------------------------------------------------------------------------
/// The bytes of a control message: the body's length as a little-endian
/// `u32`, then the body.
pub open spec fn control_frame(body: Seq<u8>) -> Seq<u8> {
    spec_u32_to_le_bytes(body.len() as u32) + body
}

/// Frames a control message body, or refuses one too long for its length.
pub fn frame_control_message(body: &[u8]) -> (framed: Result<Vec<u8>, HandshakeError>)
    ensures
        match framed {
            Ok(f) => body@.len() <= u32::MAX && f@ == control_frame(body@),
            Err(e) => body@.len() > u32::MAX && e is MessageTooLarge,
        },
{
    if body.len() > u32::MAX as usize {
        return Err(HandshakeError::MessageTooLarge);
    }
    let header = u32_to_le_bytes(body.len() as u32);
    let mut framed: Vec<u8> = Vec::new();
    append_bytes(&mut framed, header.as_slice());
    append_bytes(&mut framed, body);
    Ok(framed)
}

/// The body length a control message header announces.
pub fn control_body_len(header: &[u8; 4]) -> (len: u32)
    ensures
        len == spec_u32_from_le_bytes(header@),
{
    u32_from_le_bytes(header.as_slice())
}

/// The header of a framed body announces the body's length.
pub proof fn lemma_control_frame_len(body: Seq<u8>)
    requires
        body.len() <= u32::MAX,
    ensures
        control_frame(body).subrange(0, 4).len() == 4,
        spec_u32_from_le_bytes(control_frame(body).subrange(0, 4)) == body.len(),
        control_frame(body).skip(4) == body,
{
    lemma_auto_spec_u32_to_from_le_bytes();
    assert(control_frame(body).subrange(0, 4) =~= spec_u32_to_le_bytes(body.len() as u32));
    assert(control_frame(body).skip(4) =~= body);
}

// ---------------------------------------------------------------------------
// The receiver's answer to a sender
// ---------------------------------------------------------------------------
/// What a receiver answered a sender's hello with.
#[derive(Debug, Clone, Copy, PartialEq, Eq, Structural)]
pub enum SourceResponseKind {
    Accept,
    PairingRequired,
}

/// Tells an answer apart by the fields of its JSON object: an acceptance
/// names an audio port; a pairing request names an identity key and the
/// receiver.
pub fn classify_source_response(fields: &Vec<String>) -> (kind: Result<SourceResponseKind, HandshakeError>)
    ensures
        match kind {
            Ok(SourceResponseKind::Accept) => views(fields@).contains("audio_port"@),
            Ok(SourceResponseKind::PairingRequired) => !views(fields@).contains("audio_port"@) && views(
                fields@,
            ).contains("identity_public_key"@) && views(fields@).contains("target_name"@),
            Err(e) => e is UnexpectedMessage && !views(fields@).contains("audio_port"@) && !(views(
                fields@,
            ).contains("identity_public_key"@) && views(fields@).contains("target_name"@)),
        },
{
    if has_field(fields, "audio_port") {
        return Ok(SourceResponseKind::Accept);
    }
    if has_field(fields, "identity_public_key") && has_field(fields, "target_name") {
        return Ok(SourceResponseKind::PairingRequired);
    }
    Err(HandshakeError::UnexpectedMessage)
}

fn has_field(fields: &Vec<String>, name: &str) -> (found: bool)
    ensures
        found == views(fields@).contains(name@),
{
    let mut i: usize = 0;
    while i < fields.len()
        invariant
            i <= fields@.len(),
            forall|q: int| 0 <= q < i ==> views(fields@)[q] != name@,
        decreases fields@.len() - i,
    {
        assert(views(fields@)[i as int] == fields@[i as int]@);
        if str_eq(fields[i].as_str(), name) {
            return true;
        }
        i += 1;
    }
    false
}

// ---------------------------------------------------------------------------
// Pairing
// ---------------------------------------------------------------------------
/// Where pairing with a peer stands after checking the trust store.
#[derive(Debug)]
pub enum PairingStep {
    /// The peer is trusted: go on.
    Trusted,
    /// The user has to confirm this fingerprint first.
    Confirm(PairingRequest),
}

/// The request shown to confirm pairing with `peer_name` as `role`, or why
/// there is none: no way to ask, or a key that does not decode.
pub fn pairing_request(
    can_prompt: bool,
    role: &str,
    local_public_key: &str,
    peer_name: &str,
    peer_public_key: &str,
) -> (request: Result<PairingRequest, HandshakeError>)
    ensures
        match request {
            Ok(r) => {
                &&& can_prompt
                &&& pairing_check(local_public_key@, peer_public_key@) is Ok
                &&& r.fingerprint@ == pairing_check(local_public_key@, peer_public_key@)->Ok_0
                &&& r.peer_name@ == peer_name@
                &&& r.role@ == role@
            },
            Err(HandshakeError::NotTrusted { role: r, machine_name }) => !can_prompt && r@ == role@
                && machine_name@ == peer_name@,
            Err(HandshakeError::Security(e)) => can_prompt && pairing_check(
                local_public_key@,
                peer_public_key@,
            ) == Err::<Seq<char>, SecurityError>(e),
            Err(_) => false,
        },
{
    if !can_prompt {
        return Err(HandshakeError::NotTrusted { role: string_of(role), machine_name: string_of(peer_name) });
    }
    match pairing_fingerprint(local_public_key, peer_public_key) {
        Ok(fingerprint) => Ok(
            PairingRequest { peer_name: string_of(peer_name), fingerprint, role: string_of(role) },
        ),
        Err(e) => Err(HandshakeError::Security(e)),
    }
}

/// Checks a peer against the trust store at `now_unix_secs` and, when it
/// is not trusted yet, prepares the fingerprint confirmation.
pub fn begin_pairing(
    security: &mut SecurityStore,
    can_prompt: bool,
    role: &str,
    local_public_key: &str,
    peer_name: &str,
    peer_public_key: &str,
    now_unix_secs: u64,
) -> (step: Result<PairingStep, HandshakeError>)
    ensures
        final(security).local_secret_hex == old(security).local_secret_hex,
        final(security).trust_validity_days == old(security).trust_validity_days,
        ({
            let name = trimmed(peer_name@);
            let key = normalized_key(peer_public_key@);
            let live = unexpired(
                old(security).trusted_peers@,
                effective_days(old(security).trust_validity_days),
                now_unix_secs,
            );
            if name.len() == 0 {
                step is Err && step->Err_0 is Security && *final(security) == *old(security)
            } else if key_check(key) is Err {
                step is Err && step->Err_0 is Security && *final(security) == *old(security)
            } else {
                match name_position(live, name) {
                    Some(i) => {
                        &&& final(security).trusted_peers@ == live
                        &&& final(security).needs_save == old(security).needs_save
                        &&& if live[i].public_key_hex@ == key {
                            step is Ok && step->Ok_0 is Trusted
                        } else {
                            step is Err && step->Err_0 is Security
                        }
                    },
                    None => match key_position(live, key) {
                        Some(j) => {
                            &&& step is Ok && step->Ok_0 is Trusted
                            &&& final(security).needs_save
                            &&& final(security).trusted_peers@.len() == live.len()
                            &&& forall|x: int|
                                0 <= x < live.len() && x != j ==> final(security).trusted_peers@[x]
                                    == #[trigger] live[x]
                            &&& final(security).trusted_peers@[j].machine_name@ == name
                            &&& final(security).trusted_peers@[j].public_key_hex
                                == live[j].public_key_hex
                            &&& final(security).trusted_peers@[j].trusted_at_unix_secs
                                == live[j].trusted_at_unix_secs
                        },
                        None => final(security).trusted_peers@ == live && final(security).needs_save
                            == old(security).needs_save && match step {
                            Ok(PairingStep::Confirm(r)) => {
                                &&& can_prompt
                                &&& r.peer_name@ == name
                                &&& r.role@ == role@
                                &&& pairing_check(local_public_key@, peer_public_key@) == Ok::<
                                    Seq<char>,
                                    SecurityError,
                                >(r.fingerprint@)
                            },
                            Err(HandshakeError::NotTrusted { role: r, machine_name }) => !can_prompt
                                && r@ == role@ && machine_name@ == name,
                            Err(HandshakeError::Security(_)) => can_prompt && pairing_check(
                                local_public_key@,
                                peer_public_key@,
                            ) is Err,
                            _ => false,
                        },
                    },
                }
            }
        }),
{
    match security.verify_peer(peer_name, peer_public_key, now_unix_secs) {
        Err(e) => Err(HandshakeError::Security(e)),
        Ok(TrustOutcome::Trusted) => Ok(PairingStep::Trusted),
        Ok(TrustOutcome::Untrusted { machine_name }) => {
            match pairing_request(can_prompt, role, local_public_key, machine_name.as_str(), peer_public_key) {
                Ok(r) => Ok(PairingStep::Confirm(r)),
                Err(e) => Err(e),
            }
        },
    }
}

/// Finishes pairing after the user answered `approved`: a refusal ends the
/// handshake, an approval trusts the peer's name and key from
/// `now_unix_secs` on.
pub fn conclude_pairing(
    security: &mut SecurityStore,
    request: &PairingRequest,
    peer_public_key: &str,
    approved: bool,
    now_unix_secs: u64,
) -> (result: Result<(), HandshakeError>)
    ensures
        !approved ==> *final(security) == *old(security) && match result {
            Err(HandshakeError::PairingRejected { role, machine_name }) => role@ == request.role@
                && machine_name@ == request.peer_name@,
            _ => false,
        },
        approved ==> match key_check(normalized_key(peer_public_key@)) {
            Err(e) => *final(security) == *old(security) && match result {
                Err(HandshakeError::Security(s)) => s == e,
                _ => false,
            },
            Ok(_) => {
                &&& result is Ok
                &&& final(security).needs_save
                &&& names_sorted(final(security).trusted_peers@, peer_name())
                &&& trusted_after(
                    old(security).trusted_peers@,
                    final(security).trusted_peers@,
                    trimmed(request.peer_name@),
                    normalized_key(peer_public_key@),
                    now_unix_secs,
                )
            },
        },
        final(security).local_secret_hex == old(security).local_secret_hex,
        final(security).trust_validity_days == old(security).trust_validity_days,
{
    if !approved {
        return Err(
            HandshakeError::PairingRejected {
                role: string_of(request.role.as_str()),
                machine_name: string_of(request.peer_name.as_str()),
            },
        );
    }
    match security.trust_peer(request.peer_name.as_str(), peer_public_key, now_unix_secs) {
        Ok(()) => Ok(()),
        Err(e) => Err(HandshakeError::Security(e)),
    }
}

/// The receiver's end of a sender's fingerprint confirmation: refused when
/// the sender did not approve.
pub fn sender_decision(machine_name: &str, sender_approved: bool) -> (result: Result<(), HandshakeError>)
    ensures
        sender_approved ==> result is Ok,
        !sender_approved ==> match result {
            Err(HandshakeError::SenderRejected { machine_name: m }) => m@ == machine_name@,
            _ => false,
        },
{
    if sender_approved {
        Ok(())
    } else {
        Err(HandshakeError::SenderRejected { machine_name: string_of(machine_name) })
    }
}

} // verus!

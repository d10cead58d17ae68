//! Pairing trust: the local X25519 identity, the peers it trusts and for
//! how long, fingerprints shown to the user, and session key derivation.
use crate::crypto::{
    fill_random, hex_decode, hex_decodes, hex_digit_value, hex_encode, hex_lower, hex_value, hkdf_sha256_expand,
    hkdf_sha256_okm, is_hex_digit, sha256, sha256_digest, x25519_diffie_hellman,
    x25519_public_key, x25519_public_key_of, x25519_shared_secret,
};
use crate::sorting::{
    insert_by_name, lemma_sort_by_name, lemma_sort_by_name_contains, lemma_upper_bound,
    names_sorted, sort_by_name, upper_bound,
};
use crate::text::{
    ascii_lower, ascii_lower_char, ascii_upper, is_ascii_text, lemma_trimmed_idempotent, is_white_space, lemma_ascii_case_absorb,
    lemma_ascii_case_trim, lemma_trim_noop, text_lowercase, push_str, str_eq, str_lt, to_lowercase,
    to_uppercase, trim, trimmed, text_uppercase,
};
use vstd::prelude::*;

verus! {

/// Trust in a peer lasts this many days unless configured otherwise.
pub const DEFAULT_TRUST_VALIDITY_DAYS: u32 = 30;

/// Seconds in a day.
pub const SECONDS_PER_DAY: u64 = 86_400;

/// What the security operations refuse, and why.
#[derive(Debug, Clone)]
pub enum SecurityError {
    /// A peer presented an empty machine name.
    EmptyMachineName,
    /// A key is not an even number of hexadecimal digits.
    InvalidKeyEncoding,
    /// A key does not decode to 32 bytes.
    InvalidKeyLength,
    /// A trusted machine presented another key than the one it was trusted
    /// with.
    IdentityMismatch { machine_name: String },
    /// The local public key of a pairing is not hexadecimal.
    InvalidLocalKeyEncoding,
    /// The peer public key of a pairing is not hexadecimal.
    InvalidPeerKeyEncoding,
    /// A public key to fingerprint is not hexadecimal.
    InvalidPublicKeyEncoding,
    /// The system random source failed.
    RandomUnavailable,
}

/// A peer trusted since `trusted_at_unix_secs`.
#[derive(Debug)]
pub struct TrustedPeer {
    pub machine_name: String,
    pub public_key_hex: String,
    pub trusted_at_unix_secs: u64,
}

/// A trusted peer as shown to the user.
#[derive(Debug)]
pub struct TrustedPeerView {
    pub machine_name: String,
    pub fingerprint: String,
    pub expires_in_days: Option<u32>,
}

/// Whether a peer is already trusted.
#[derive(Debug)]
pub enum TrustOutcome {
    Trusted,
    Untrusted { machine_name: String },
}

/// The name a trusted peer is sorted by.
pub open spec fn peer_name() -> spec_fn(TrustedPeer) -> Seq<char> {
    |p: TrustedPeer| p.machine_name@
}

/// The name a peer view is sorted by.
pub open spec fn view_name() -> spec_fn(TrustedPeerView) -> Seq<char> {
    |v: TrustedPeerView| v.machine_name@
}

// ---------------------------------------------------------------------------
// Expiry
// ---------------------------------------------------------------------------
/// `a - b`, or 0 when `b` is larger.
pub open spec fn sat_sub(a: int, b: int) -> int {
    if a >= b {
        a - b
    } else {
        0
    }
}

/// `a + b`, or `u64::MAX` when that overflows.
pub open spec fn sat_add_u64(a: int, b: int) -> int {
    if a + b > u64::MAX {
        u64::MAX as int
    } else {
        a + b
    }
}

/// Trust granted at `trusted_at` for `days` days has run out at `now`.
pub open spec fn expired(trusted_at: u64, days: u32, now: u64) -> bool {
    sat_sub(now as int, trusted_at as int) >= days * SECONDS_PER_DAY
}

/// Seconds from `now` until trust granted at `trusted_at` for `days` days
/// runs out, or 0 once it has.
pub open spec fn remaining_secs(trusted_at: u64, days: u32, now: u64) -> int {
    sat_sub(sat_add_u64(trusted_at as int, days * SECONDS_PER_DAY), now as int)
}

/// Whole days left (rounded up, truncated to 32 bits), or `None` once
/// expired.
pub open spec fn remaining_days(trusted_at: u64, days: u32, now: u64) -> Option<u32> {
    if expired(trusted_at, days, now) {
        None
    } else {
        Some(((remaining_secs(trusted_at, days, now) + 86_399) / 86_400) as u32)
    }
}

/// The count of remaining days can be rounded up without overflowing 64 bits.
pub open spec fn expiry_fits(trusted_at: u64, days: u32, now: u64) -> bool {
    expired(trusted_at, days, now) || remaining_secs(trusted_at, days, now) + 86_399 <= u64::MAX
}

/// Whether trust granted at `trusted_at_unix_secs` for `validity_days` days
/// has run out at `now_unix_secs`.
pub fn is_expired(trusted_at_unix_secs: u64, validity_days: u32, now_unix_secs: u64) -> (b: bool)
    ensures
        b == expired(trusted_at_unix_secs, validity_days, now_unix_secs),
{
    let validity_secs: u64 = validity_days as u64 * SECONDS_PER_DAY;
    now_unix_secs.saturating_sub(trusted_at_unix_secs) >= validity_secs
}

/// Whole days of trust left, rounded up; `None` once expired.
pub fn expiry_remaining_days(trusted_at_unix_secs: u64, validity_days: u32, now_unix_secs: u64) -> (days:
    Option<u32>)
    requires
        expiry_fits(trusted_at_unix_secs, validity_days, now_unix_secs),
    ensures
        days == remaining_days(trusted_at_unix_secs, validity_days, now_unix_secs),
{
    if is_expired(trusted_at_unix_secs, validity_days, now_unix_secs) {
        return None;
    }
    let validity_secs: u64 = validity_days as u64 * SECONDS_PER_DAY;
    let expires_at = trusted_at_unix_secs.saturating_add(validity_secs);
    let remaining_secs = expires_at.saturating_sub(now_unix_secs);
    Some(((remaining_secs + 86_399) / 86_400) as u32)
}

/// `days`, raised to at least one.
pub open spec fn effective_days(days: u32) -> u32 {
    if days < 1 {
        1
    } else {
        days
    }
}

/// The peers whose trust has not run out.
pub open spec fn unexpired(peers: Seq<TrustedPeer>, days: u32, now: u64) -> Seq<TrustedPeer> {
    peers.filter(|p: TrustedPeer| !expired(p.trusted_at_unix_secs, days, now))
}

// ---------------------------------------------------------------------------
// Keys
// ---------------------------------------------------------------------------
/// What decoding a 32-byte key from hexadecimal text gives: the text is
/// trimmed, then must be hexadecimal digits that make 32 bytes.
pub open spec fn key_check(text: Seq<char>) -> Result<Seq<u8>, SecurityError> {
    let t = trimmed(text);
    if !hex_decodes(t) {
        Err(SecurityError::InvalidKeyEncoding)
    } else if hex_value(t).len() != 32 {
        Err(SecurityError::InvalidKeyLength)
    } else {
        Ok(hex_value(t))
    }
}

/// The form a presented key is compared in: trimmed, then lower-cased.
pub open spec fn normalized_key(text: Seq<char>) -> Seq<char> {
    text_lowercase(trimmed(text))
}

/// The 32 bytes of `v` as an array.
pub fn array_from_bytes(v: &Vec<u8>) -> (a: [u8; 32])
    requires
        v@.len() == 32,
    ensures
        a@ == v@,
{
    let mut a = [0u8; 32];
    let mut i: usize = 0;
    while i < 32
        invariant
            i <= 32,
            v@.len() == 32,
            a@.len() == 32,
            forall|j: int| 0 <= j < i ==> a@[j] == v@[j],
        decreases 32 - i,
    {
        a.set(i, v[i]);
        i += 1;
    }
    assert(a@ =~= v@);
    a
}

/// Decodes a 32-byte key written in hexadecimal, ignoring surrounding
/// whitespace.
pub fn secret_bytes_from_hex(value: &str) -> (bytes: Result<[u8; 32], SecurityError>)
    ensures
        match (bytes, key_check(value@)) {
            (Ok(b), Ok(k)) => b@ == k,
            (Err(e), Err(k)) => e == k,
            _ => false,
        },
{
    let t = trim(value);
    match hex_decode(t.as_str()) {
        Err(_) => Err(SecurityError::InvalidKeyEncoding),
        Ok(v) => {
            if v.len() != 32 {
                Err(SecurityError::InvalidKeyLength)
            } else {
                Ok(array_from_bytes(&v))
            }
        },
    }
}

// ---------------------------------------------------------------------------
// Ordering peers by name
// ---------------------------------------------------------------------------
/// Stably sorts trusted peers by machine name.
pub fn sort_peers_by_name(peers: Vec<TrustedPeer>) -> (sorted: Vec<TrustedPeer>)
    ensures
        sorted@ == sort_by_name(peers@, peer_name()),
{
    let ghost s = peers@;
    let ghost key = peer_name();
    let mut rest = peers;
    let mut out: Vec<TrustedPeer> = Vec::new();
    let ghost mut k: int = 0;
    assert(s.take(0) =~= Seq::<TrustedPeer>::empty());
    while rest.len() > 0
        invariant
            0 <= k <= s.len(),
            rest@ == s.skip(k),
            out@ == sort_by_name(s.take(k), key),
            key == peer_name(),
        decreases rest@.len(),
    {
        let x = rest.remove(0);
        assert(x == s[k]);
        let ghost name = x.machine_name@;
        let mut i: usize = 0;
        assert(out@.skip(0) =~= out@);
        while i < out.len() && !str_lt(x.machine_name.as_str(), out[i].machine_name.as_str())
            invariant
                i <= out@.len(),
                name == x.machine_name@,
                key == peer_name(),
                upper_bound(out@, key, name) == i + upper_bound(out@.skip(i as int), key, name),
            decreases out@.len() - i,
        {
            assert(out@.skip(i as int).drop_first() =~= out@.skip(i + 1));
            i += 1;
        }
        proof {
            if i == out@.len() {
                assert(out@.skip(i as int).len() == 0);
            }
        }
        out.insert(i, x);
        proof {
            let t = s.take(k + 1);
            assert(t.drop_last() =~= s.take(k));
            assert(t.last() == x);
            assert(out@ == insert_by_name(sort_by_name(s.take(k), key), key, x));
            k = k + 1;
            assert(rest@ =~= s.skip(k));
        }
    }
    assert(s.take(k) =~= s);
    out
}

/// Stably sorts peer views by machine name.
pub fn sort_views_by_name(views: Vec<TrustedPeerView>) -> (sorted: Vec<TrustedPeerView>)
    ensures
        sorted@ == sort_by_name(views@, view_name()),
{
    let ghost s = views@;
    let ghost key = view_name();
    let mut rest = views;
    let mut out: Vec<TrustedPeerView> = Vec::new();
    let ghost mut k: int = 0;
    assert(s.take(0) =~= Seq::<TrustedPeerView>::empty());
    while rest.len() > 0
        invariant
            0 <= k <= s.len(),
            rest@ == s.skip(k),
            out@ == sort_by_name(s.take(k), key),
            key == view_name(),
        decreases rest@.len(),
    {
        let x = rest.remove(0);
        assert(x == s[k]);
        let ghost name = x.machine_name@;
        let mut i: usize = 0;
        assert(out@.skip(0) =~= out@);
        while i < out.len() && !str_lt(x.machine_name.as_str(), out[i].machine_name.as_str())
            invariant
                i <= out@.len(),
                name == x.machine_name@,
                key == view_name(),
                upper_bound(out@, key, name) == i + upper_bound(out@.skip(i as int), key, name),
            decreases out@.len() - i,
        {
            assert(out@.skip(i as int).drop_first() =~= out@.skip(i + 1));
            i += 1;
        }
        proof {
            if i == out@.len() {
                assert(out@.skip(i as int).len() == 0);
            }
        }
        out.insert(i, x);
        proof {
            let t = s.take(k + 1);
            assert(t.drop_last() =~= s.take(k));
            assert(t.last() == x);
            assert(out@ == insert_by_name(sort_by_name(s.take(k), key), key, x));
            k = k + 1;
            assert(rest@ =~= s.skip(k));
        }
    }
    assert(s.take(k) =~= s);
    out
}

// ---------------------------------------------------------------------------
// Fingerprints
// ---------------------------------------------------------------------------
/// Lower-case hexadecimal of `b`, two bytes per group, groups joined by `:`.
pub open spec fn grouped_hex(b: Seq<u8>) -> Seq<char>
    decreases b.len(),
{
    if b.len() <= 2 {
        hex_lower(b)
    } else {
        hex_lower(b.take(2)) + seq![':'] + grouped_hex(b.skip(2))
    }
}

/// The groups of `b` that follow an earlier group, each after its `:`.
pub open spec fn later_groups(b: Seq<u8>) -> Seq<char> {
    if b.len() == 0 {
        Seq::empty()
    } else {
        seq![':'] + grouped_hex(b)
    }
}

/// The text a fingerprint shows for the bytes `b`.
pub open spec fn fingerprint_text(b: Seq<u8>) -> Seq<char> {
    text_uppercase(grouped_hex(b))
}

/// The fingerprint of a SHA-256 digest: its first 16 bytes.
pub open spec fn digest_fingerprint(digest: Seq<u8>) -> Seq<char> {
    fingerprint_text(digest.take(16))
}

/// The fingerprint of a public key written in hexadecimal, or `None` when
/// the text is not hexadecimal.
pub open spec fn key_fingerprint(text: Seq<char>) -> Option<Seq<char>> {
    let t = trimmed(text);
    if hex_decodes(t) {
        Some(digest_fingerprint(sha256_digest(hex_value(t))))
    } else {
        None
    }
}

/// `a` sorts strictly before `b` in byte order.
pub open spec fn bytes_lt(a: Seq<u8>, b: Seq<u8>) -> bool
    decreases a.len(),
{
    if b.len() == 0 {
        false
    } else if a.len() == 0 {
        true
    } else if a[0] != b[0] {
        a[0] < b[0]
    } else {
        bytes_lt(a.drop_first(), b.drop_first())
    }
}

/// The two keys of a pairing, the smaller first.
pub open spec fn ordered_pair(a: Seq<u8>, b: Seq<u8>) -> Seq<u8> {
    if bytes_lt(b, a) {
        b + a
    } else {
        a + b
    }
}

/// The fingerprint both sides of a pairing show, or the error of the key
/// that does not decode.
pub open spec fn pairing_check(local: Seq<char>, peer: Seq<char>) -> Result<Seq<char>, SecurityError> {
    let l = trimmed(local);
    let p = trimmed(peer);
    if !hex_decodes(l) {
        Err(SecurityError::InvalidLocalKeyEncoding)
    } else if !hex_decodes(p) {
        Err(SecurityError::InvalidPeerKeyEncoding)
    } else {
        Ok(digest_fingerprint(sha256_digest(ordered_pair(hex_value(l), hex_value(p)))))
    }
}

/// Grouped hexadecimal text is the first group (two bytes, or fewer at the
/// end) followed by the groups of the rest.
pub proof fn lemma_grouped_hex_step(b: Seq<u8>)
    requires
        b.len() > 0,
    ensures
        grouped_hex(b) == hex_lower(b.take(if b.len() < 2 { b.len() as int } else { 2 })) + later_groups(
            b.skip(if b.len() < 2 { b.len() as int } else { 2 }),
        ),
{
    if b.len() <= 2 {
        assert(b.take(b.len() as int) =~= b);
        if b.len() == 2 {
            assert(b.take(2) =~= b);
        }
        assert(hex_lower(b) + Seq::<char>::empty() =~= hex_lower(b));
    } else {
        assert(hex_lower(b.take(2)) + seq![':'] + grouped_hex(b.skip(2)) =~= hex_lower(b.take(2)) + (
        seq![':'] + grouped_hex(b.skip(2))));
    }
}

/// Byte order is a strict total order.
pub proof fn lemma_bytes_lt_total(a: Seq<u8>, b: Seq<u8>)
    ensures
        !(bytes_lt(a, b) && bytes_lt(b, a)),
        a != b ==> bytes_lt(a, b) || bytes_lt(b, a),
    decreases a.len(),
{
    if a.len() > 0 && b.len() > 0 && a[0] == b[0] {
        lemma_bytes_lt_total(a.drop_first(), b.drop_first());
        if a.drop_first() == b.drop_first() {
            assert(a =~= seq![a[0]] + a.drop_first());
            assert(b =~= seq![b[0]] + b.drop_first());
            assert(a =~= b);
        }
    }
    if a.len() == 0 && b.len() == 0 {
        assert(a =~= b);
    }
}

/// Both sides of a pairing compute the same fingerprint, whichever key
/// each calls local.
pub proof fn lemma_pairing_fingerprint_symmetric(local: Seq<char>, peer: Seq<char>)
    requires
        hex_decodes(trimmed(local)),
        hex_decodes(trimmed(peer)),
    ensures
        pairing_check(local, peer) == pairing_check(peer, local),
        pairing_check(local, peer) is Ok,
{
    let a = hex_value(trimmed(local));
    let b = hex_value(trimmed(peer));
    lemma_bytes_lt_total(a, b);
    assert(ordered_pair(a, b) == ordered_pair(b, a));
}

/// Whether `a` sorts strictly before `b` in byte order.
pub fn bytes_less(a: &[u8], b: &[u8]) -> (lt: bool)
    ensures
        lt == bytes_lt(a@, b@),
{
    let mut i: usize = 0;
    assert(a@.skip(0) =~= a@);
    assert(b@.skip(0) =~= b@);
    while i < a.len() && i < b.len() && a[i] == b[i]
        invariant
            i <= a@.len(),
            i <= b@.len(),
            bytes_lt(a@, b@) == bytes_lt(a@.skip(i as int), b@.skip(i as int)),
        decreases a@.len() - i,
    {
        assert(a@.skip(i as int).drop_first() =~= a@.skip(i + 1));
        assert(b@.skip(i as int).drop_first() =~= b@.skip(i + 1));
        i += 1;
    }
    if i == b.len() {
        false
    } else if i == a.len() {
        true
    } else {
        a[i] < b[i]
    }
}

/// Formats bytes as upper-case hexadecimal, two bytes per group, groups
/// joined by `:`.
pub fn format_fingerprint(bytes: &[u8]) -> (text: String)
    ensures
        text@ == fingerprint_text(bytes@),
{
    let n = bytes.len();
    let mut joined = String::new();
    let mut i: usize = 0;
    while i < n
        invariant
            i <= n,
            n == bytes@.len(),
            grouped_hex(bytes@) == joined@ + (if i == 0 {
                grouped_hex(bytes@)
            } else {
                later_groups(bytes@.skip(i as int))
            }),
        decreases n - i,
    {
        let ghost rest = bytes@.skip(i as int);
        proof {
            lemma_grouped_hex_step(rest);
        }
        let mut chunk: Vec<u8> = Vec::new();
        chunk.push(bytes[i]);
        let pair = n - i >= 2;
        let end: usize = if pair {
            i + 2
        } else {
            n
        };
        if pair {
            chunk.push(bytes[i + 1]);
        }
        assert(chunk@ =~= rest.take(end - i));
        assert(rest.skip(end - i) =~= bytes@.skip(end as int));
        let ghost before = joined@;
        if i > 0 {
            joined.push(':');
        }
        let h = hex_encode(chunk.as_slice());
        push_str(&mut joined, h.as_str());
        proof {
            if i == 0 {
                assert(bytes@.skip(0) =~= bytes@);
                assert(joined@ =~= hex_lower(rest.take(end - i)));
            } else {
                assert(joined@ =~= before + seq![':'] + hex_lower(rest.take(end - i)));
                assert(later_groups(rest) =~= seq![':'] + hex_lower(rest.take(end - i)) + later_groups(
                    bytes@.skip(end as int),
                ));
            }
            assert(grouped_hex(bytes@) =~= joined@ + later_groups(bytes@.skip(end as int)));
        }
        i = end;
    }
    proof {
        if n == 0 {
            assert(grouped_hex(bytes@) =~= Seq::<char>::empty());
        } else {
            assert(bytes@.skip(n as int).len() == 0);
        }
        assert(grouped_hex(bytes@) =~= joined@);
    }
    to_uppercase(joined.as_str())
}

/// The first 16 bytes of a digest.
fn digest_prefix(digest: &[u8; 32]) -> (prefix: Vec<u8>)
    ensures
        prefix@ == digest@.take(16),
{
    let mut prefix: Vec<u8> = Vec::new();
    let mut i: usize = 0;
    while i < 16
        invariant
            i <= 16,
            digest@.len() == 32,
            prefix@ == digest@.take(i as int),
        decreases 16 - i,
    {
        prefix.push(digest[i]);
        i += 1;
        assert(prefix@ =~= digest@.take(i as int));
    }
    prefix
}

/// The fingerprint shown for a public key: the first 16 bytes of the
/// SHA-256 digest of the decoded key.
pub fn public_key_fingerprint(public_key_hex: &str) -> (fingerprint: Result<String, SecurityError>)
    ensures
        match (fingerprint, key_fingerprint(public_key_hex@)) {
            (Ok(f), Some(expected)) => f@ == expected,
            (Err(e), None) => e == SecurityError::InvalidPublicKeyEncoding,
            _ => false,
        },
{
    let t = trim(public_key_hex);
    match hex_decode(t.as_str()) {
        Err(_) => Err(SecurityError::InvalidPublicKeyEncoding),
        Ok(bytes) => {
            let digest = sha256(bytes.as_slice());
            let prefix = digest_prefix(&digest);
            Ok(format_fingerprint(prefix.as_slice()))
        },
    }
}

/// The fingerprint both peers show while pairing: the first 16 bytes of
/// the SHA-256 digest of both decoded keys, the smaller first, so that
/// both sides compute the same text.
pub fn pairing_fingerprint(local_public_key_hex: &str, peer_public_key_hex: &str) -> (fingerprint:
    Result<String, SecurityError>)
    ensures
        match (fingerprint, pairing_check(local_public_key_hex@, peer_public_key_hex@)) {
            (Ok(f), Ok(expected)) => f@ == expected,
            (Err(e), Err(expected)) => e == expected,
            _ => false,
        },
{
    let l = trim(local_public_key_hex);
    let local = match hex_decode(l.as_str()) {
        Err(_) => {
            return Err(SecurityError::InvalidLocalKeyEncoding);
        },
        Ok(bytes) => bytes,
    };
    let p = trim(peer_public_key_hex);
    let peer = match hex_decode(p.as_str()) {
        Err(_) => {
            return Err(SecurityError::InvalidPeerKeyEncoding);
        },
        Ok(bytes) => bytes,
    };
    let mut combined: Vec<u8> = Vec::new();
    if bytes_less(peer.as_slice(), local.as_slice()) {
        crate::wire::append_bytes(&mut combined, peer.as_slice());
        crate::wire::append_bytes(&mut combined, local.as_slice());
    } else {
        crate::wire::append_bytes(&mut combined, local.as_slice());
        crate::wire::append_bytes(&mut combined, peer.as_slice());
    }
    assert(combined@ =~= ordered_pair(local@, peer@));
    let digest = sha256(combined.as_slice());
    let prefix = digest_prefix(&digest);
    Ok(format_fingerprint(prefix.as_slice()))
}

// ---------------------------------------------------------------------------
// The local identity and session keys
// ---------------------------------------------------------------------------
/// The `info` input of the session key derivation: `velin-session-v1`.
pub open spec fn session_context() -> Seq<u8> {
    seq![
        118u8, 101u8, 108u8, 105u8, 110u8, 45u8, 115u8, 101u8, 115u8, 115u8, 105u8, 111u8, 110u8,
        45u8, 118u8, 49u8,
    ]
}

/// The session key of `secret` with a peer's public key: HKDF-SHA256 over
/// the X25519 shared secret.
pub open spec fn session_key(secret: Seq<u8>, peer_public: Seq<u8>) -> Seq<u8> {
    hkdf_sha256_okm(x25519_shared_secret(secret, peer_public), session_context())
}

fn session_context_bytes() -> (info: [u8; 16])
    ensures
        info@ == session_context(),
{
    let info = [
        118u8, 101u8, 108u8, 105u8, 110u8, 45u8, 115u8, 101u8, 115u8, 115u8, 105u8, 111u8, 110u8,
        45u8, 118u8, 49u8,
    ];
    assert(info@ =~= session_context());
    info
}

/// The X25519 key pair of this machine.
#[derive(Clone)]
pub struct LocalIdentity {
    secret: [u8; 32],
}

impl LocalIdentity {
    /// The 32 secret bytes.
    pub closed spec fn secret_bytes(&self) -> Seq<u8> {
        self.secret@
    }

    /// A local secret is always 32 bytes.
    pub proof fn lemma_secret_len(&self)
        ensures
            self.secret_bytes().len() == 32,
    {
    }

    /// The public key in lower-case hexadecimal.
    pub fn public_key_hex(&self) -> (text: String)
        ensures
            text@ == hex_lower(x25519_public_key_of(self.secret_bytes())),
            x25519_public_key_of(self.secret_bytes()).len() == 32,
    {
        let public = x25519_public_key(&self.secret);
        hex_encode(&public)
    }

    /// The session key shared with the peer whose public key is written in
    /// `peer_public_key_hex`.  It is the key the peer derives from this
    /// machine's public key: both ends of a session agree on it.
    pub fn derive_session_key(&self, peer_public_key_hex: &str) -> (key: Result<[u8; 32], SecurityError>)
        ensures
            match (key, key_check(peer_public_key_hex@)) {
                (Ok(k), Ok(peer)) => {
                    &&& k@ == session_key(self.secret_bytes(), peer)
                    &&& forall|other: Seq<u8>|
                        other.len() == 32 && x25519_public_key_of(other) == peer ==> k@
                            == #[trigger] session_key(other, x25519_public_key_of(self.secret_bytes()))
                },
                (Err(e), Err(expected)) => e == expected,
                _ => false,
            },
    {
        let peer = match secret_bytes_from_hex(peer_public_key_hex) {
            Err(e) => {
                return Err(e);
            },
            Ok(bytes) => bytes,
        };
        let public = x25519_public_key(&self.secret);
        let shared = x25519_diffie_hellman(&self.secret, &peer);
        let info = session_context_bytes();
        match hkdf_sha256_expand(&shared, &info) {
            Ok(k) => {
                proof {
                    assert forall|other: Seq<u8>|
                        other.len() == 32 && x25519_public_key_of(other) == peer@ implies k@
                            == #[trigger] session_key(other, public@) by {
                        assert(x25519_shared_secret(other, public@) == x25519_shared_secret(
                            self.secret@,
                            x25519_public_key_of(other),
                        ));
                    }
                }
                Ok(k)
            },
            // unreachable: a 32-byte expansion never fails
            Err(_) => Err(SecurityError::InvalidKeyLength),
        }
    }
}

/// A lower-case hexadecimal digit.
pub open spec fn hex_digit_lower_char(c: char) -> bool {
    ('0' <= c && c <= '9') || ('a' <= c && c <= 'f')
}

/// The lower-case hexadecimal text of 32 bytes decodes back to them as a
/// key.
pub proof fn lemma_key_check_hex(b: Seq<u8>)
    requires
        b.len() == 32,
    ensures
        key_check(hex_lower(b)) == Ok::<Seq<u8>, SecurityError>(b),
{
    let h = hex_lower(b);
    assert forall|i: int| 0 <= i < h.len() implies hex_digit_lower_char(#[trigger] h[i]) by {
        let q = i / 2;
        let v = if i % 2 == 0 {
            b[q] / 16
        } else {
            b[q] % 16
        };
        assert(0 <= v < 16);
    }
    assert forall|i: int| 0 <= i < h.len() implies !is_white_space(#[trigger] h[i]) && is_hex_digit(h[i]) by {
        assert(hex_digit_lower_char(h[i]));
    }
    lemma_trim_noop(h);
    assert forall|q: int| 0 <= q < b.len() implies #[trigger] hex_value(h)[q] == b[q] by {
        assert(h[2 * q] == crate::crypto::hex_digit_lower((b[q] / 16) as int));
        assert(h[2 * q + 1] == crate::crypto::hex_digit_lower((b[q] % 16) as int));
    }
    assert(hex_value(h) =~= b);
}

// ---------------------------------------------------------------------------
// The store of trusted peers
// ---------------------------------------------------------------------------
/// `i` is the first position of a peer named `name`.
pub open spec fn first_named(peers: Seq<TrustedPeer>, name: Seq<char>, i: int) -> bool {
    &&& 0 <= i < peers.len()
    &&& peers[i].machine_name@ == name
    &&& forall|j: int| 0 <= j < i ==> (#[trigger] peers[j]).machine_name@ != name
}

/// `i` is the first position of a peer with the key `key`.
pub open spec fn first_keyed(peers: Seq<TrustedPeer>, key: Seq<char>, i: int) -> bool {
    &&& 0 <= i < peers.len()
    &&& peers[i].public_key_hex@ == key
    &&& forall|j: int| 0 <= j < i ==> (#[trigger] peers[j]).public_key_hex@ != key
}

/// The first position of a peer named `name`.
pub open spec fn name_position(peers: Seq<TrustedPeer>, name: Seq<char>) -> Option<int> {
    if exists|i: int| first_named(peers, name, i) {
        Some(choose|i: int| first_named(peers, name, i))
    } else {
        None
    }
}

/// The first position of a peer with the key `key`.
pub open spec fn key_position(peers: Seq<TrustedPeer>, key: Seq<char>) -> Option<int> {
    if exists|i: int| first_keyed(peers, key, i) {
        Some(choose|i: int| first_keyed(peers, key, i))
    } else {
        None
    }
}

/// Whether a peer survives trusting `name` with `key`: it has neither.
pub open spec fn kept_when_trusting(name: Seq<char>, key: Seq<char>) -> spec_fn(TrustedPeer) -> bool {
    |p: TrustedPeer| p.machine_name@ != name && p.public_key_hex@ != key
}

/// `after` is `before` once `name` is trusted with `key` from `now` on:
/// every peer with that name or that key forgotten, the new peer added, and
/// the peers sorted by name.
pub open spec fn trusted_after(
    before: Seq<TrustedPeer>,
    after: Seq<TrustedPeer>,
    name: Seq<char>,
    key: Seq<char>,
    now: u64,
) -> bool {
    exists|p: TrustedPeer|
        {
            &&& p.machine_name@ == name
            &&& p.public_key_hex@ == key
            &&& p.trusted_at_unix_secs == now
            &&& after == #[trigger] sort_by_name(
                before.filter(kept_when_trusting(name, key)).push(p),
                peer_name(),
            )
        }
}

/// Whether a peer survives removing the fingerprint `fingerprint`.
pub open spec fn kept_when_removing(fingerprint: Seq<char>) -> spec_fn(TrustedPeer) -> bool {
    |p: TrustedPeer| key_fingerprint(p.public_key_hex@) != Some(fingerprint)
}

/// What a peer view shows as fingerprint.
pub open spec fn shown_fingerprint(key: Seq<char>) -> Seq<char> {
    match key_fingerprint(key) {
        Some(f) => f,
        None => "Invalid fingerprint"@,
    }
}

/// `views` shows `peers`, one view per peer in the same order.
pub open spec fn views_of(views: Seq<TrustedPeerView>, peers: Seq<TrustedPeer>, days: u32, now: u64) -> bool {
    &&& views.len() == peers.len()
    &&& forall|i: int|
        0 <= i < peers.len() ==> {
            &&& (#[trigger] views[i]).machine_name@ == peers[i].machine_name@
            &&& views[i].fingerprint@ == shown_fingerprint(peers[i].public_key_hex@)
            &&& views[i].expires_in_days == remaining_days(peers[i].trusted_at_unix_secs, days, now)
        }
}

/// Finds the first peer named `name`.
pub fn find_by_name(peers: &Vec<TrustedPeer>, name: &str) -> (pos: Option<usize>)
    ensures
        match pos {
            Some(i) => name_position(peers@, name@) == Some(i as int),
            None => name_position(peers@, name@) is None,
        },
{
    let mut i: usize = 0;
    while i < peers.len()
        invariant
            i <= peers@.len(),
            forall|j: int| 0 <= j < i ==> (#[trigger] peers@[j]).machine_name@ != name@,
        decreases peers@.len() - i,
    {
        if str_eq(peers[i].machine_name.as_str(), name) {
            assert(first_named(peers@, name@, i as int));
            let ghost c = choose|c: int| first_named(peers@, name@, c);
            assert(c == i) by {
                if c < i {
                    assert(peers@[c].machine_name@ != name@);
                } else if c > i {
                    assert(peers@[i as int].machine_name@ != name@);
                }
            }
            return Some(i);
        }
        i += 1;
    }
    None
}

/// Finds the first peer with the key `key`.
pub fn find_by_key(peers: &Vec<TrustedPeer>, key: &str) -> (pos: Option<usize>)
    ensures
        match pos {
            Some(i) => key_position(peers@, key@) == Some(i as int),
            None => key_position(peers@, key@) is None,
        },
{
    let mut i: usize = 0;
    while i < peers.len()
        invariant
            i <= peers@.len(),
            forall|j: int| 0 <= j < i ==> (#[trigger] peers@[j]).public_key_hex@ != key@,
        decreases peers@.len() - i,
    {
        if str_eq(peers[i].public_key_hex.as_str(), key) {
            assert(first_keyed(peers@, key@, i as int));
            let ghost c = choose|c: int| first_keyed(peers@, key@, c);
            assert(c == i) by {
                if c < i {
                    assert(peers@[c].public_key_hex@ != key@);
                } else if c > i {
                    assert(peers@[i as int].public_key_hex@ != key@);
                }
            }
            return Some(i);
        }
        i += 1;
    }
    None
}

/// The identity of this machine and the peers it trusts.  `needs_save`
/// records that the store changed in a way that has to be written back.
pub struct SecurityStore {
    pub local_secret_hex: String,
    pub trusted_peers: Vec<TrustedPeer>,
    pub trust_validity_days: u32,
    pub needs_save: bool,
}

impl SecurityStore {
    /// An empty store: no identity yet, no trusted peers, trust lasting the
    /// default number of days.
    pub fn new() -> (store: Self)
        ensures
            store.local_secret_hex@.len() == 0,
            store.trusted_peers@.len() == 0,
            store.trust_validity_days == DEFAULT_TRUST_VALIDITY_DAYS,
            !store.needs_save,
    {
        SecurityStore {
            local_secret_hex: String::new(),
            trusted_peers: Vec::new(),
            trust_validity_days: DEFAULT_TRUST_VALIDITY_DAYS,
            needs_save: false,
        }
    }

    /// A store as it was saved.
    pub fn from_saved(local_secret_hex: String, trusted_peers: Vec<TrustedPeer>, trust_validity_days: u32) -> (store: Self)
        ensures
            store.local_secret_hex == local_secret_hex,
            store.trusted_peers@ == trusted_peers@,
            store.trust_validity_days == trust_validity_days,
            !store.needs_save,
    {
        SecurityStore { local_secret_hex, trusted_peers, trust_validity_days, needs_save: false }
    }

    /// Gives the store a fresh random identity when it has none (its secret
    /// is blank), and marks it to be saved.
    pub fn ensure_local_secret(&mut self) -> (res: Result<(), SecurityError>)
        ensures
            final(self).trusted_peers@ == old(self).trusted_peers@,
            final(self).trust_validity_days == old(self).trust_validity_days,
            trimmed(old(self).local_secret_hex@).len() > 0 ==> res is Ok && *final(self) == *old(self),
            trimmed(old(self).local_secret_hex@).len() == 0 ==> match res {
                Ok(_) => {
                    &&& final(self).needs_save
                    &&& exists|b: Seq<u8>|
                        b.len() == 32 && final(self).local_secret_hex@ == hex_lower(b) && #[trigger] key_check(
                            final(self).local_secret_hex@,
                        ) == Ok::<Seq<u8>, SecurityError>(b)
                },
                Err(e) => e == SecurityError::RandomUnavailable && *final(self) == *old(self),
            },
    {
        let t = trim(self.local_secret_hex.as_str());
        if !t.as_str().is_empty() {
            return Ok(());
        }
        let mut bytes = [0u8; 32];
        match fill_random(&mut bytes) {
            Err(_) => Err(SecurityError::RandomUnavailable),
            Ok(()) => {
                proof {
                    lemma_key_check_hex(bytes@);
                }
                self.local_secret_hex = hex_encode(&bytes);
                self.needs_save = true;
                Ok(())
            },
        }
    }

    /// The identity held by the store.
    pub fn local_identity(&self) -> (identity: Result<LocalIdentity, SecurityError>)
        ensures
            match (identity, key_check(self.local_secret_hex@)) {
                (Ok(id), Ok(secret)) => id.secret_bytes() == secret,
                (Err(e), Err(expected)) => e == expected,
                _ => false,
            },
    {
        match secret_bytes_from_hex(self.local_secret_hex.as_str()) {
            Ok(secret) => Ok(LocalIdentity { secret }),
            Err(e) => Err(e),
        }
    }

    /// How many days trust lasts; never less than one.
    pub fn trust_validity_days(&self) -> (days: u32)
        ensures
            days == effective_days(self.trust_validity_days),
    {
        if self.trust_validity_days < 1 {
            1
        } else {
            self.trust_validity_days
        }
    }

    /// Whether the days of trust left can be shown for every stored peer at
    /// `now_unix_secs` without overflowing: what `trusted_peer_views` needs.
    pub fn peer_views_fit(&self, now_unix_secs: u64) -> (fit: bool)
        ensures
            fit == forall|i: int|
                0 <= i < self.trusted_peers@.len() ==> expiry_fits(
                    (#[trigger] self.trusted_peers@[i]).trusted_at_unix_secs,
                    effective_days(self.trust_validity_days),
                    now_unix_secs,
                ),
    {
        let days = self.trust_validity_days();
        let mut i: usize = 0;
        while i < self.trusted_peers.len()
            invariant
                i <= self.trusted_peers@.len(),
                days == effective_days(self.trust_validity_days),
                forall|j: int|
                    0 <= j < i ==> expiry_fits(
                        (#[trigger] self.trusted_peers@[j]).trusted_at_unix_secs,
                        days,
                        now_unix_secs,
                    ),
            decreases self.trusted_peers@.len() - i,
        {
            let trusted_at = self.trusted_peers[i].trusted_at_unix_secs;
            if !is_expired(trusted_at, days, now_unix_secs) {
                let validity_secs: u64 = days as u64 * SECONDS_PER_DAY;
                let remaining = trusted_at.saturating_add(validity_secs).saturating_sub(now_unix_secs);
                if remaining > u64::MAX - 86_399 {
                    assert(!expiry_fits(self.trusted_peers@[i as int].trusted_at_unix_secs, days, now_unix_secs));
                    return false;
                }
            }
            i += 1;
        }
        true
    }

    /// Forgets the peers whose trust has run out at `now_unix_secs`; the
    /// others keep their order.
    pub fn prune_expired_peers(&mut self, now_unix_secs: u64)
        ensures
            final(self).trusted_peers@ == unexpired(
                old(self).trusted_peers@,
                effective_days(old(self).trust_validity_days),
                now_unix_secs,
            ),
            final(self).local_secret_hex == old(self).local_secret_hex,
            final(self).trust_validity_days == old(self).trust_validity_days,
            final(self).needs_save == old(self).needs_save,
    {
        let days = self.trust_validity_days();
        let ghost pred = |p: TrustedPeer| !expired(p.trusted_at_unix_secs, days, now_unix_secs);
        let mut old_peers: Vec<TrustedPeer> = Vec::new();
        std::mem::swap(&mut old_peers, &mut self.trusted_peers);
        let ghost olds = old_peers@;
        let mut kept: Vec<TrustedPeer> = Vec::new();
        for peer in it: old_peers
            invariant
                olds == it.seq(),
                pred == (|p: TrustedPeer| !expired(p.trusted_at_unix_secs, days, now_unix_secs)),
                kept@ == olds.take(it.index() as int).filter(pred),
        {
            let ghost k = it.index();
            let keep = !is_expired(peer.trusted_at_unix_secs, days, now_unix_secs);
            assert(olds[k as int] == peer);
            if keep {
                kept.push(peer);
            }
            proof {
                reveal_with_fuel(Seq::<_>::filter, 1);
                let t = olds.take(k + 1);
                assert(t.drop_last() =~= olds.take(k as int));
                assert(t.last() == peer);
                assert(kept@ =~= t.filter(pred));
            }
        }
        proof {
            assert(olds.take(olds.len() as int) =~= olds);
        }
        self.trusted_peers = kept;
    }

    /// Checks a peer that presents `machine_name` and `public_key_hex` at
    /// `now_unix_secs`.  The name is trimmed and must not be empty; the key
    /// is trimmed, lower-cased and must decode to 32 bytes.  Expired trust
    /// is forgotten first.  A peer trusted under that name is accepted only
    /// with the key it was trusted with; a known key under a new name is
    /// accepted and the peer renamed; anything else is not trusted yet.
    pub fn verify_peer(&mut self, machine_name: &str, public_key_hex: &str, now_unix_secs: u64) -> (outcome:
        Result<TrustOutcome, SecurityError>)
        ensures
            final(self).local_secret_hex == old(self).local_secret_hex,
            final(self).trust_validity_days == old(self).trust_validity_days,
            ({
                let name = trimmed(machine_name@);
                let key = normalized_key(public_key_hex@);
                let live = unexpired(
                    old(self).trusted_peers@,
                    effective_days(old(self).trust_validity_days),
                    now_unix_secs,
                );
                if name.len() == 0 {
                    &&& outcome == Err::<TrustOutcome, SecurityError>(SecurityError::EmptyMachineName)
                    &&& *final(self) == *old(self)
                } else if key_check(key) is Err {
                    &&& outcome == Err::<TrustOutcome, SecurityError>(key_check(key)->Err_0)
                    &&& *final(self) == *old(self)
                } else {
                    match name_position(live, name) {
                        Some(i) => {
                            &&& final(self).trusted_peers@ == live
                            &&& final(self).needs_save == old(self).needs_save
                            &&& if live[i].public_key_hex@ == key {
                                outcome is Ok && outcome->Ok_0 is Trusted
                            } else {
                                outcome is Err && outcome->Err_0 is IdentityMismatch
                                    && outcome->Err_0->machine_name@ == name
                            }
                        },
                        None => match key_position(live, key) {
                            Some(j) => {
                                &&& outcome is Ok && outcome->Ok_0 is Trusted
                                &&& final(self).needs_save
                                &&& final(self).trusted_peers@.len() == live.len()
                                &&& forall|x: int|
                                    0 <= x < live.len() && x != j ==> final(self).trusted_peers@[x]
                                        == #[trigger] live[x]
                                &&& final(self).trusted_peers@[j].machine_name@ == name
                                &&& final(self).trusted_peers@[j].public_key_hex
                                    == live[j].public_key_hex
                                &&& final(self).trusted_peers@[j].trusted_at_unix_secs
                                    == live[j].trusted_at_unix_secs
                            },
                            None => {
                                &&& outcome is Ok && outcome->Ok_0 is Untrusted
                                &&& outcome->Ok_0->machine_name@ == name
                                &&& final(self).trusted_peers@ == live
                                &&& final(self).needs_save == old(self).needs_save
                            },
                        },
                    }
                }
            }),
    {
        let name = trim(machine_name);
        if name.as_str().is_empty() {
            return Err(SecurityError::EmptyMachineName);
        }
        let t = trim(public_key_hex);
        let key = to_lowercase(t.as_str());
        if let Err(e) = secret_bytes_from_hex(key.as_str()) {
            return Err(e);
        }
        self.prune_expired_peers(now_unix_secs);
        match find_by_name(&self.trusted_peers, name.as_str()) {
            Some(i) => {
                if str_eq(self.trusted_peers[i].public_key_hex.as_str(), key.as_str()) {
                    Ok(TrustOutcome::Trusted)
                } else {
                    Err(SecurityError::IdentityMismatch { machine_name: name })
                }
            },
            None => match find_by_key(&self.trusted_peers, key.as_str()) {
                Some(j) => {
                    let ghost live = self.trusted_peers@;
                    let mut peer = self.trusted_peers.remove(j);
                    peer.machine_name = name;
                    self.trusted_peers.insert(j, peer);
                    assert forall|x: int| 0 <= x < live.len() && x != j implies self.trusted_peers@[x]
                        == #[trigger] live[x] by {}
                    self.needs_save = true;
                    Ok(TrustOutcome::Trusted)
                },
                None => Ok(TrustOutcome::Untrusted { machine_name: name }),
            },
        }
    }

    /// Trusts `machine_name` (trimmed) with `public_key_hex` (trimmed and
    /// lower-cased) from `now_unix_secs` on.  Any peer with that name or
    /// that key is forgotten first; the peers stay sorted by name.
    pub fn trust_peer(&mut self, machine_name: &str, public_key_hex: &str, now_unix_secs: u64) -> (res:
        Result<(), SecurityError>)
        ensures
            final(self).local_secret_hex == old(self).local_secret_hex,
            final(self).trust_validity_days == old(self).trust_validity_days,
            ({
                let name = trimmed(machine_name@);
                let key = normalized_key(public_key_hex@);
                match key_check(key) {
                    Err(e) => res == Err::<(), SecurityError>(e) && *final(self) == *old(self),
                    Ok(_) => {
                        &&& res is Ok
                        &&& final(self).needs_save
                        &&& names_sorted(final(self).trusted_peers@, peer_name())
                        &&& trusted_after(
                            old(self).trusted_peers@,
                            final(self).trusted_peers@,
                            name,
                            key,
                            now_unix_secs,
                        )
                    },
                }
            }),
    {
        let name = trim(machine_name);
        let t = trim(public_key_hex);
        let key = to_lowercase(t.as_str());
        if let Err(e) = secret_bytes_from_hex(key.as_str()) {
            return Err(e);
        }
        let ghost pred = kept_when_trusting(name@, key@);
        let mut old_peers: Vec<TrustedPeer> = Vec::new();
        std::mem::swap(&mut old_peers, &mut self.trusted_peers);
        let ghost olds = old_peers@;
        let mut kept: Vec<TrustedPeer> = Vec::new();
        for peer in it: old_peers
            invariant
                olds == it.seq(),
                pred == kept_when_trusting(name@, key@),
                kept@ == olds.take(it.index() as int).filter(pred),
        {
            let ghost k = it.index();
            let keep = !str_eq(peer.machine_name.as_str(), name.as_str()) && !str_eq(
                peer.public_key_hex.as_str(),
                key.as_str(),
            );
            assert(olds[k as int] == peer);
            if keep {
                kept.push(peer);
            }
            proof {
                reveal_with_fuel(Seq::<_>::filter, 1);
                let t = olds.take(k + 1);
                assert(t.drop_last() =~= olds.take(k as int));
                assert(t.last() == peer);
                assert(kept@ =~= t.filter(pred));
            }
        }
        proof {
            assert(olds.take(olds.len() as int) =~= olds);
        }
        let peer = TrustedPeer {
            machine_name: name,
            public_key_hex: key,
            trusted_at_unix_secs: now_unix_secs,
        };
        let ghost added = peer;
        kept.push(peer);
        self.trusted_peers = sort_peers_by_name(kept);
        self.needs_save = true;
        assert(self.trusted_peers@ == sort_by_name(olds.filter(pred).push(added), peer_name()));
        proof {
            lemma_sort_by_name(olds.filter(pred).push(added), peer_name());
        }
        Ok(())
    }

    /// Sets how many days trust lasts (at least one), forgets the peers whose
    /// trust has run out under it, and marks the store to be saved.
    pub fn set_trust_validity_days(&mut self, days: u32, now_unix_secs: u64) -> (res: Result<(), SecurityError>)
        ensures
            res is Ok,
            final(self).trust_validity_days == effective_days(days),
            final(self).trusted_peers@ == unexpired(old(self).trusted_peers@, effective_days(days), now_unix_secs),
            final(self).local_secret_hex == old(self).local_secret_hex,
            final(self).needs_save,
    {
        self.trust_validity_days = if days < 1 {
            1
        } else {
            days
        };
        self.prune_expired_peers(now_unix_secs);
        self.needs_save = true;
        Ok(())
    }

    /// The trusted peers as shown to the user, sorted by name, after
    /// forgetting those whose trust has run out.
    pub fn trusted_peer_views(&mut self, now_unix_secs: u64) -> (views: Result<Vec<TrustedPeerView>, SecurityError>)
        requires
            forall|i: int|
                0 <= i < old(self).trusted_peers@.len() ==> expiry_fits(
                    (#[trigger] old(self).trusted_peers@[i]).trusted_at_unix_secs,
                    effective_days(old(self).trust_validity_days),
                    now_unix_secs,
                ),
        ensures
            ({
                let days = effective_days(old(self).trust_validity_days);
                let live = unexpired(old(self).trusted_peers@, days, now_unix_secs);
                &&& final(self).trusted_peers@ == live
                &&& final(self).local_secret_hex == old(self).local_secret_hex
                &&& final(self).trust_validity_days == old(self).trust_validity_days
                &&& final(self).needs_save == old(self).needs_save
                &&& match views {
                    Ok(v) => {
                        &&& names_sorted(v@, view_name())
                        &&& exists|shown: Seq<TrustedPeerView>|
                            views_of(shown, live, days, now_unix_secs) && v@ == #[trigger] sort_by_name(
                                shown,
                                view_name(),
                            )
                    },
                    Err(_) => false,
                }
            }),
    {
        let ghost olds = self.trusted_peers@;
        self.prune_expired_peers(now_unix_secs);
        let days = self.trust_validity_days();
        let ghost live = self.trusted_peers@;
        proof {
            assert forall|i: int| 0 <= i < live.len() implies expiry_fits(
                (#[trigger] live[i]).trusted_at_unix_secs,
                days,
                now_unix_secs,
            ) by {
                let pred = |p: TrustedPeer| !expired(p.trusted_at_unix_secs, days, now_unix_secs);
                assert(olds.filter(pred).contains(live[i]));
                olds.lemma_filter_contains_rev(pred, live[i]);
            }
        }
        let mut shown: Vec<TrustedPeerView> = Vec::new();
        let mut i: usize = 0;
        while i < self.trusted_peers.len()
            invariant
                i <= live.len(),
                self.trusted_peers@ == live,
                days == effective_days(old(self).trust_validity_days),
                forall|q: int| 0 <= q < live.len() ==> expiry_fits(
                    (#[trigger] live[q]).trusted_at_unix_secs,
                    days,
                    now_unix_secs,
                ),
                views_of(shown@, live.take(i as int), days, now_unix_secs),
            decreases live.len() - i,
        {
            let peer = &self.trusted_peers[i];
            let fingerprint = match public_key_fingerprint(peer.public_key_hex.as_str()) {
                Ok(f) => f,
                Err(_) => String::from_str("Invalid fingerprint"),
            };
            let expires_in_days = expiry_remaining_days(peer.trusted_at_unix_secs, days, now_unix_secs);
            shown.push(
                TrustedPeerView {
                    machine_name: peer.machine_name.clone(),
                    fingerprint,
                    expires_in_days,
                },
            );
            i += 1;
            assert(views_of(shown@, live.take(i as int), days, now_unix_secs)) by {
                assert forall|q: int| 0 <= q < i implies #[trigger] live.take(i as int)[q] == live[q] by {}
                assert forall|q: int| 0 <= q < i - 1 implies #[trigger] live.take(i - 1)[q] == live[q] by {}
            }
        }
        assert(live.take(live.len() as int) =~= live);
        let ghost shown_seq = shown@;
        let sorted = sort_views_by_name(shown);
        assert(sorted@ == sort_by_name(shown_seq, view_name()));
        proof {
            lemma_sort_by_name(shown_seq, view_name());
        }
        Ok(sorted)
    }

    /// Forgets every peer whose key has the fingerprint `fingerprint`
    /// (trimmed, upper-cased); peers whose key does not decode stay.  Says
    /// whether any peer was forgotten, and then marks the store to be saved.
    pub fn remove_trusted_peer_by_fingerprint(&mut self, fingerprint: &str) -> (removed: Result<bool, SecurityError>)
        ensures
            ({
                let target = text_uppercase(trimmed(fingerprint@));
                let kept = old(self).trusted_peers@.filter(kept_when_removing(target));
                &&& final(self).trusted_peers@ == kept
                &&& removed == Ok::<bool, SecurityError>(kept.len() != old(self).trusted_peers@.len())
                &&& final(self).needs_save == (old(self).needs_save || kept.len()
                    != old(self).trusted_peers@.len())
                &&& final(self).local_secret_hex == old(self).local_secret_hex
                &&& final(self).trust_validity_days == old(self).trust_validity_days
            }),
    {
        let t = trim(fingerprint);
        let target = to_uppercase(t.as_str());
        let ghost pred = kept_when_removing(target@);
        let before = self.trusted_peers.len();
        let mut old_peers: Vec<TrustedPeer> = Vec::new();
        std::mem::swap(&mut old_peers, &mut self.trusted_peers);
        let ghost olds = old_peers@;
        let mut kept: Vec<TrustedPeer> = Vec::new();
        for peer in it: old_peers
            invariant
                olds == it.seq(),
                pred == kept_when_removing(target@),
                kept@ == olds.take(it.index() as int).filter(pred),
        {
            let ghost k = it.index();
            let keep = match public_key_fingerprint(peer.public_key_hex.as_str()) {
                Ok(f) => !str_eq(f.as_str(), target.as_str()),
                Err(_) => true,
            };
            assert(olds[k as int] == peer);
            if keep {
                kept.push(peer);
            }
            proof {
                reveal_with_fuel(Seq::<_>::filter, 1);
                let t = olds.take(k + 1);
                assert(t.drop_last() =~= olds.take(k as int));
                assert(t.last() == peer);
                assert(kept@ =~= t.filter(pred));
            }
        }
        proof {
            assert(olds.take(olds.len() as int) =~= olds);
        }
        self.trusted_peers = kept;
        let removed = self.trusted_peers.len() != before;
        if removed {
            self.needs_save = true;
        }
        Ok(removed)
    }

    /// Forgets every trusted peer and marks the store to be saved.
    pub fn clear_trusted_peers(&mut self) -> (res: Result<(), SecurityError>)
        ensures
            res is Ok,
            final(self).trusted_peers@.len() == 0,
            final(self).needs_save,
            final(self).local_secret_hex == old(self).local_secret_hex,
            final(self).trust_validity_days == old(self).trust_validity_days,
    {
        self.trusted_peers.clear();
        self.needs_save = true;
        Ok(())
    }

    /// Records that the store was written back.
    pub fn mark_saved(&mut self)
        ensures
            !final(self).needs_save,
            final(self).local_secret_hex == old(self).local_secret_hex,
            final(self).trusted_peers@ == old(self).trusted_peers@,
            final(self).trust_validity_days == old(self).trust_validity_days,
    {
        self.needs_save = false;
    }
}

// ---------------------------------------------------------------------------
// Laws of the store
// ---------------------------------------------------------------------------
/// A position with a peer named `name` means there is a first one.
pub proof fn lemma_first_named_exists(peers: Seq<TrustedPeer>, name: Seq<char>, i: int)
    requires
        0 <= i < peers.len(),
        peers[i].machine_name@ == name,
    ensures
        exists|c: int| first_named(peers, name, c),
    decreases i,
{
    if exists|j: int| 0 <= j < i && (#[trigger] peers[j]).machine_name@ == name {
        let j = choose|j: int| 0 <= j < i && (#[trigger] peers[j]).machine_name@ == name;
        lemma_first_named_exists(peers, name, j);
    } else {
        assert(first_named(peers, name, i));
    }
}

/// A peer just trusted is recognised: while its trust lasts, the first peer
/// under its name, among those not expired, is that peer with its key.
/// This is what `verify_peer` checks, so verifying the name and key given to
/// `trust_peer` answers `Trusted`.
pub proof fn lemma_trusted_peer_recognised(peers: Seq<TrustedPeer>, p: TrustedPeer, days: u32, now: u64)
    requires
        !expired(p.trusted_at_unix_secs, days, now),
    ensures
        ({
            let trusted = sort_by_name(
                peers.filter(kept_when_trusting(p.machine_name@, p.public_key_hex@)).push(p),
                peer_name(),
            );
            let live = unexpired(trusted, days, now);
            match name_position(live, p.machine_name@) {
                Some(i) => live[i] == p,
                None => false,
            }
        }),
{
    let name = p.machine_name@;
    let kept = peers.filter(kept_when_trusting(name, p.public_key_hex@));
    let added = kept.push(p);
    let trusted = sort_by_name(added, peer_name());
    let pred = |q: TrustedPeer| !expired(q.trusted_at_unix_secs, days, now);
    let live = unexpired(trusted, days, now);
    assert(added.contains(p)) by {
        assert(added[added.len() - 1] == p);
    }
    lemma_sort_by_name_contains(added, peer_name(), p);
    let k = choose|k: int| 0 <= k < trusted.len() && trusted[k] == p;
    trusted.lemma_filter_contains(pred, k);
    assert(live.contains(p));
    let i0 = choose|i0: int| 0 <= i0 < live.len() && live[i0] == p;
    lemma_first_named_exists(live, name, i0);
    let c = choose|c: int| first_named(live, name, c);
    assert(live[c] == p) by {
        let x = live[c];
        assert(live.contains(x));
        trusted.lemma_filter_contains_rev(pred, x);
        lemma_sort_by_name_contains(added, peer_name(), x);
        let y = choose|y: int| 0 <= y < added.len() && added[y] == x;
        if y < kept.len() {
            assert(kept[y] == x);
            assert(kept.contains(x));
            peers.filter_lemma(kept_when_trusting(name, p.public_key_hex@));
        }
    }
}

/// A key is recognised whatever its letter case: on ASCII text, the
/// upper-cased and the lower-cased key normalise to the same key as the key
/// itself.
pub proof fn lemma_key_case_insensitive(k: Seq<char>)
    requires
        is_ascii_text(k),
    ensures
        normalized_key(text_uppercase(k)) == normalized_key(k),
        normalized_key(text_lowercase(k)) == normalized_key(k),
{
    lemma_ascii_case_trim(k);
    lemma_ascii_case_trim(ascii_upper(k));
    lemma_ascii_case_trim(ascii_lower(k));
    lemma_ascii_case_trim(trimmed(k));
    lemma_ascii_case_absorb(trimmed(k));
    lemma_ascii_case_absorb(ascii_lower(trimmed(k)));
    assert(ascii_lower(ascii_lower(trimmed(k))) == ascii_lower(trimmed(k))) by {
        lemma_ascii_case_absorb(trimmed(k));
        lemma_ascii_case_absorb(ascii_upper(trimmed(k)));
    }
}

/// Trust, then verify: after `name` is trusted with `key` (as
/// `trust_peer` leaves the store), and while that trust lasts, the first
/// live peer under `name` carries exactly the key `presented` normalises
/// to, for any `presented` that normalises like `key`, such as `key` in
/// another letter case (`lemma_key_case_insensitive`).  So `verify_peer`
/// answers `Trusted` for it.
pub proof fn lemma_trust_then_verify(
    before: Seq<TrustedPeer>,
    after: Seq<TrustedPeer>,
    name: Seq<char>,
    key: Seq<char>,
    presented: Seq<char>,
    trusted_at: u64,
    days: u32,
    now: u64,
)
    requires
        trusted_after(before, after, name, key, trusted_at),
        !expired(trusted_at, days, now),
        normalized_key(presented) == key,
    ensures
        ({
            let live = unexpired(after, days, now);
            match name_position(live, name) {
                Some(i) => live[i].public_key_hex@ == normalized_key(presented),
                None => false,
            }
        }),
{
    let p = choose|p: TrustedPeer|
        {
            &&& p.machine_name@ == name
            &&& p.public_key_hex@ == key
            &&& p.trusted_at_unix_secs == trusted_at
            &&& after == #[trigger] sort_by_name(
                before.filter(kept_when_trusting(name, key)).push(p),
                peer_name(),
            )
        };
    lemma_trusted_peer_recognised(before, p, days, now);
}

/// Grouped hexadecimal text is ASCII.
pub proof fn lemma_grouped_hex_ascii(b: Seq<u8>)
    ensures
        is_ascii_text(grouped_hex(b)),
    decreases b.len(),
{
    let t = b.take(if b.len() < 2 { b.len() as int } else { 2 });
    assert forall|i: int| 0 <= i < hex_lower(t).len() implies (#[trigger] hex_lower(t)[i] as u32) < 128 by {
        assert(t[i / 2] < 256);
    }
    if b.len() > 2 {
        lemma_grouped_hex_ascii(b.skip(2));
        let g = grouped_hex(b);
        assert(g == hex_lower(b.take(2)) + seq![':'] + grouped_hex(b.skip(2)));
        assert forall|i: int| 0 <= i < g.len() implies (#[trigger] g[i] as u32) < 128 by {
            if i < hex_lower(b.take(2)).len() {
                assert(g[i] == hex_lower(b.take(2))[i]);
            } else if i == hex_lower(b.take(2)).len() {
                assert(g[i] == ':');
            } else {
                assert(g[i] == grouped_hex(b.skip(2))[i - hex_lower(b.take(2)).len() - 1]);
            }
        }
    }
}

/// A fingerprint typed in either letter case upper-cases back to the
/// fingerprint shown.
pub proof fn lemma_fingerprint_any_case(b: Seq<u8>, typed: Seq<char>)
    requires
        typed == fingerprint_text(b) || typed == text_lowercase(fingerprint_text(b)),
    ensures
        text_uppercase(typed) == fingerprint_text(b),
{
    let g = grouped_hex(b);
    lemma_grouped_hex_ascii(b);
    lemma_ascii_case_trim(g);
    lemma_ascii_case_trim(ascii_upper(g));
    lemma_ascii_case_absorb(g);
    lemma_ascii_case_absorb(ascii_upper(g));
    lemma_ascii_case_absorb(ascii_lower(g));
}

/// Filtering out an element makes a sequence shorter.
pub proof fn lemma_filter_drops<A>(s: Seq<A>, pred: spec_fn(A) -> bool, i: int)
    requires
        0 <= i < s.len(),
        !pred(s[i]),
    ensures
        s.filter(pred).len() < s.len(),
    decreases s.len(),
{
    reveal_with_fuel(Seq::<_>::filter, 1);
    s.drop_last().lemma_filter_len(pred);
    if i < s.len() - 1 {
        assert(s.drop_last()[i] == s[i]);
        lemma_filter_drops(s.drop_last(), pred, i);
    }
}

/// Trust, then remove by fingerprint: after `name` is trusted with `key`,
/// removing the key's fingerprint (as `remove_trusted_peer_by_fingerprint`
/// compares it, upper-cased and trimmed) forgets at least one peer, and no
/// peer with `key` is left.
pub proof fn lemma_trust_then_remove(
    before: Seq<TrustedPeer>,
    after: Seq<TrustedPeer>,
    name: Seq<char>,
    key: Seq<char>,
    now: u64,
    target: Seq<char>,
)
    requires
        trusted_after(before, after, name, key, now),
        key_fingerprint(key) == Some(target),
    ensures
        ({
            let kept = after.filter(kept_when_removing(target));
            &&& kept.len() < after.len()
            &&& forall|i: int| 0 <= i < kept.len() ==> (#[trigger] kept[i]).public_key_hex@ != key
        }),
{
    let p = choose|p: TrustedPeer|
        {
            &&& p.machine_name@ == name
            &&& p.public_key_hex@ == key
            &&& p.trusted_at_unix_secs == now
            &&& after == #[trigger] sort_by_name(
                before.filter(kept_when_trusting(name, key)).push(p),
                peer_name(),
            )
        };
    let added = before.filter(kept_when_trusting(name, key)).push(p);
    let pred = kept_when_removing(target);
    assert(added[added.len() - 1] == p);
    assert(added.contains(p));
    lemma_sort_by_name_contains(added, peer_name(), p);
    let k = choose|k: int| 0 <= k < after.len() && after[k] == p;
    lemma_filter_drops(after, pred, k);
    let kept = after.filter(pred);
    assert forall|i: int| 0 <= i < kept.len() implies (#[trigger] kept[i]).public_key_hex@ != key by {
        after.lemma_filter_pred(pred, i);
    }
}

/// A key's fingerprint does not depend on its letter case: on ASCII text,
/// the key as it is stored (trimmed, lower-cased) has the fingerprint of the
/// key as it was presented.
pub proof fn lemma_key_fingerprint_ignores_case(k: Seq<char>)
    requires
        is_ascii_text(k),
    ensures
        key_fingerprint(normalized_key(k)) == key_fingerprint(k),
{
    let t = trimmed(k);
    lemma_ascii_case_trim(k);
    lemma_ascii_case_trim(t);
    lemma_trimmed_idempotent(k);
    let l = ascii_lower(t);
    assert(normalized_key(k) == l);
    assert(trimmed(l) == l);
    assert forall|i: int| 0 <= i < t.len() implies is_hex_digit(#[trigger] l[i]) == is_hex_digit(t[i]) && (
    is_hex_digit(t[i]) ==> hex_digit_value(l[i]) == hex_digit_value(t[i])) by {
        assert(l[i] == ascii_lower_char(t[i]));
    }
    if hex_decodes(t) {
        assert forall|i: int| 0 <= i < l.len() implies is_hex_digit(#[trigger] l[i]) by {
            assert(is_hex_digit(t[i]));
        }
        assert(hex_decodes(l));
        assert forall|i: int| 0 <= i < hex_value(l).len() implies #[trigger] hex_value(l)[i] == hex_value(t)[i] by {
            assert(is_hex_digit(t[2 * i]) && is_hex_digit(t[2 * i + 1]));
            assert(l[2 * i] == ascii_lower_char(t[2 * i]));
            assert(l[2 * i + 1] == ascii_lower_char(t[2 * i + 1]));
        }
        assert(hex_value(l) =~= hex_value(t));
    } else {
        if hex_decodes(l) {
            assert forall|i: int| 0 <= i < t.len() implies is_hex_digit(#[trigger] t[i]) by {
                assert(is_hex_digit(l[i]));
            }
        }
    }
}

/// Trust, then verify, with the key in any letter case: after `name` is
/// trusted with an ASCII key `k` (stored trimmed and lower-cased), and while
/// that trust lasts, the first live peer under `name` carries the key that
/// `k`, `k` upper-cased and `k` lower-cased all normalise to, so
/// `verify_peer` answers `Trusted` for each of them.
pub proof fn lemma_trust_then_verify_any_case(
    before: Seq<TrustedPeer>,
    after: Seq<TrustedPeer>,
    name: Seq<char>,
    k: Seq<char>,
    trusted_at: u64,
    days: u32,
    now: u64,
)
    requires
        trusted_after(before, after, name, normalized_key(k), trusted_at),
        !expired(trusted_at, days, now),
        is_ascii_text(k),
    ensures
        ({
            let live = unexpired(after, days, now);
            match name_position(live, name) {
                Some(i) => {
                    &&& live[i].public_key_hex@ == normalized_key(k)
                    &&& live[i].public_key_hex@ == normalized_key(text_uppercase(k))
                    &&& live[i].public_key_hex@ == normalized_key(text_lowercase(k))
                },
                None => false,
            }
        }),
{
    lemma_key_case_insensitive(k);
    lemma_trust_then_verify(before, after, name, normalized_key(k), k, trusted_at, days, now);
}

/// Trust, then remove by the presented key's fingerprint: after `name` is
/// trusted with an ASCII key `k`, removing the fingerprint of `k` as typed
/// in either letter case (surrounding whitespace aside) forgets at least
/// one peer and leaves none with the stored key.
pub proof fn lemma_trust_then_remove_presented(
    before: Seq<TrustedPeer>,
    after: Seq<TrustedPeer>,
    name: Seq<char>,
    k: Seq<char>,
    now: u64,
    typed: Seq<char>,
)
    requires
        trusted_after(before, after, name, normalized_key(k), now),
        is_ascii_text(k),
        key_fingerprint(k) is Some,
        trimmed(typed) == key_fingerprint(k)->0 || trimmed(typed) == text_lowercase(key_fingerprint(k)->0),
    ensures
        ({
            let kept = after.filter(kept_when_removing(text_uppercase(trimmed(typed))));
            &&& kept.len() < after.len()
            &&& forall|i: int| 0 <= i < kept.len() ==> (#[trigger] kept[i]).public_key_hex@ != normalized_key(k)
        }),
{
    let t = trimmed(k);
    let d = sha256_digest(hex_value(t));
    assert(key_fingerprint(k)->0 == fingerprint_text(d.take(16)));
    lemma_fingerprint_any_case(d.take(16), trimmed(typed));
    lemma_key_fingerprint_ignores_case(k);
    lemma_trust_then_remove(before, after, name, normalized_key(k), now, key_fingerprint(k)->0);
}

/// `x` comes before `y` in byte order: at the first position where they
/// differ `x` has the smaller byte, or `x` is a proper prefix of `y`.
pub open spec fn lexicographically_before(x: Seq<u8>, y: Seq<u8>) -> bool {
    exists|i: int|
        0 <= i <= x.len() && i < y.len() && #[trigger] x.take(i) == y.take(i) && (i == x.len() || x[i]
            < y[i])
}

/// `bytes_lt` is byte order, read at the first difference.
pub proof fn lemma_bytes_lt_is_lexicographic(x: Seq<u8>, y: Seq<u8>)
    ensures
        bytes_lt(x, y) == lexicographically_before(x, y),
    decreases x.len(),
{
    if y.len() == 0 {
    } else if x.len() == 0 {
        assert(x.take(0) =~= y.take(0));
    } else if x[0] != y[0] {
        if x[0] < y[0] {
            assert(x.take(0) =~= y.take(0));
        } else {
            if lexicographically_before(x, y) {
                let i = choose|i: int|
                    0 <= i <= x.len() && i < y.len() && #[trigger] x.take(i) == y.take(i) && (i == x.len()
                        || x[i] < y[i]);
                if i > 0 {
                    assert(x.take(i)[0] == y.take(i)[0]);
                }
            }
        }
    } else {
        let x1 = x.drop_first();
        let y1 = y.drop_first();
        lemma_bytes_lt_is_lexicographic(x1, y1);
        if lexicographically_before(x1, y1) {
            let i = choose|i: int|
                0 <= i <= x1.len() && i < y1.len() && #[trigger] x1.take(i) == y1.take(i) && (i == x1.len()
                    || x1[i] < y1[i]);
            assert(x.take(i + 1) =~= seq![x[0]] + x1.take(i));
            assert(y.take(i + 1) =~= seq![y[0]] + y1.take(i));
            assert(x.take(i + 1) == y.take(i + 1));
        }
        if lexicographically_before(x, y) {
            let i = choose|i: int|
                0 <= i <= x.len() && i < y.len() && #[trigger] x.take(i) == y.take(i) && (i == x.len()
                    || x[i] < y[i]);
            assert(i > 0);
            assert(x1.take(i - 1) =~= x.take(i).drop_first());
            assert(y1.take(i - 1) =~= y.take(i).drop_first());
            assert(x1.take(i - 1) == y1.take(i - 1));
        }
    }
}

/// The pairing fingerprint is the fingerprint of the SHA-256 digest of the
/// two decoded keys joined with the one that comes first in byte order
/// first, so both machines, and any peer that sorts the keys the same way,
/// show the same text.
pub proof fn lemma_pairing_fingerprint_smaller_key_first(local: Seq<char>, peer: Seq<char>)
    requires
        hex_decodes(trimmed(local)),
        hex_decodes(trimmed(peer)),
    ensures
        ({
            let a = hex_value(trimmed(local));
            let b = hex_value(trimmed(peer));
            &&& !lexicographically_before(b, a) ==> pairing_check(local, peer) == Ok::<
                Seq<char>,
                SecurityError,
            >(fingerprint_text(sha256_digest(a + b).take(16)))
            &&& lexicographically_before(b, a) ==> pairing_check(local, peer) == Ok::<
                Seq<char>,
                SecurityError,
            >(fingerprint_text(sha256_digest(b + a).take(16)))
        }),
{
    let a = hex_value(trimmed(local));
    let b = hex_value(trimmed(peer));
    lemma_bytes_lt_is_lexicographic(b, a);
}

/// The session key is HKDF-SHA256 of the X25519 shared secret with the
/// ASCII bytes of `velin-session-v1` as its `info`.
pub proof fn lemma_session_key_info(secret: Seq<u8>, peer_public: Seq<u8>)
    ensures
        ({
            let text = "velin-session-v1"@;
            session_key(secret, peer_public) == hkdf_sha256_okm(
                x25519_shared_secret(secret, peer_public),
                Seq::new(text.len(), |i: int| text[i] as u8),
            )
        }),
{
    reveal_strlit("velin-session-v1");
    let text = "velin-session-v1"@;
    assert(session_context() =~= Seq::new(text.len(), |i: int| text[i] as u8));
}

} // verus!

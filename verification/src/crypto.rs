//! Calls into the cryptography, encoding and randomness crates, each behind
//! a small contract.
use chacha20poly1305::aead::AeadInPlace;
use chacha20poly1305::KeyInit;
use sha2::Digest;
use vstd::prelude::*;

verus! {

/// The error of the AEAD crate (`aead::Error`).
#[verifier::external_type_specification]
#[verifier::external_body]
pub struct ExAeadError(chacha20poly1305::aead::Error);

/// The error of `hex::decode`.
#[verifier::external_type_specification]
#[verifier::external_body]
pub struct ExFromHexError(hex::FromHexError);

/// The error of `Hkdf::expand` (`hkdf::InvalidLength`).
#[verifier::external_type_specification]
#[verifier::external_body]
pub struct ExInvalidLength(hkdf::InvalidLength);

/// The error of `getrandom::fill`.
#[verifier::external_type_specification]
#[verifier::external_body]
pub struct ExRandomError(getrandom::Error);

// ---------------------------------------------------------------------------
// Hexadecimal text
// ---------------------------------------------------------------------------
/// The lower-case hexadecimal digit for `n` (0..16).
pub open spec fn hex_digit_lower(n: int) -> char {
    if n < 10 {
        (48 + n) as char
    } else {
        (87 + n) as char
    }
}

/// Two lower-case hexadecimal digits per byte, high nibble first.
pub open spec fn hex_lower(data: Seq<u8>) -> Seq<char> {
    Seq::new(
        2 * data.len(),
        |i: int|
            if i % 2 == 0 {
                hex_digit_lower((data[i / 2] / 16) as int)
            } else {
                hex_digit_lower((data[i / 2] % 16) as int)
            },
    )
}

/// `c` is one of `0-9`, `a-f`, `A-F`.
pub open spec fn is_hex_digit(c: char) -> bool {
    ('0' <= c && c <= '9') || ('a' <= c && c <= 'f') || ('A' <= c && c <= 'F')
}

/// The value of a hexadecimal digit.
pub open spec fn hex_digit_value(c: char) -> int {
    if '0' <= c && c <= '9' {
        c as int - 48
    } else if 'a' <= c && c <= 'f' {
        c as int - 87
    } else {
        c as int - 55
    }
}

/// `s` is an even number of hexadecimal digits.
pub open spec fn hex_decodes(s: Seq<char>) -> bool {
    s.len() % 2 == 0 && forall|i: int| 0 <= i < s.len() ==> is_hex_digit(#[trigger] s[i])
}

/// The bytes written by the digit pairs of `s`.
pub open spec fn hex_value(s: Seq<char>) -> Seq<u8> {
    Seq::new(
        s.len() / 2,
        |i: int| (hex_digit_value(s[2 * i]) * 16 + hex_digit_value(s[2 * i + 1])) as u8,
    )
}

/// `hex::encode`: the lower-case hexadecimal text of `data`.
#[verifier::external_body]
pub(crate) fn hex_encode(data: &[u8]) -> (text: String)
    ensures
        text@ == hex_lower(data@),
{
    hex::encode(data)
}

/// `hex::decode` on the UTF-8 bytes of `text`: succeeds exactly when `text`
/// is an even number of hexadecimal digits (either case), with the bytes the
/// digit pairs write; any other text fails.
#[verifier::external_body]
pub(crate) fn hex_decode(text: &str) -> (bytes: Result<Vec<u8>, hex::FromHexError>)
    ensures
        match bytes {
            Ok(v) => hex_decodes(text@) && v@ == hex_value(text@),
            Err(_) => !hex_decodes(text@),
        },
{
    hex::decode(text)
}

// ---------------------------------------------------------------------------
// Hashing and key agreement
// ---------------------------------------------------------------------------
/// The SHA-256 digest of `data`.
pub uninterp spec fn sha256_digest(data: Seq<u8>) -> Seq<u8>;

/// `Sha256::digest` (sha2): the 32-byte SHA-256 digest of `data`, named by
/// `sha256_digest`.
#[verifier::external_body]
pub(crate) fn sha256(data: &[u8]) -> (digest: [u8; 32])
    ensures
        digest@ == sha256_digest(data@),
{
    sha2::Sha256::digest(data).into()
}

/// The X25519 public key of a 32-byte secret.
pub uninterp spec fn x25519_public_key_of(secret: Seq<u8>) -> Seq<u8>;

/// The X25519 shared secret of `secret` with a peer's public key.
pub uninterp spec fn x25519_shared_secret(secret: Seq<u8>, peer_public: Seq<u8>) -> Seq<u8>;

/// `PublicKey::from(&StaticSecret::from(secret))` (x25519-dalek): the public
/// key of `secret`, named by `x25519_public_key_of`.  It also states the
/// Diffie-Hellman agreement the crate exists for: any other secret combined
/// with this public key gives the same shared secret as `secret` combined
/// with the other secret's public key.
#[verifier::external_body]
pub(crate) fn x25519_public_key(secret: &[u8; 32]) -> (public: [u8; 32])
    ensures
        public@ == x25519_public_key_of(secret@),
        forall|other: Seq<u8>|
            other.len() == 32 ==> #[trigger] x25519_shared_secret(other, public@)
                == x25519_shared_secret(secret@, x25519_public_key_of(other)),
{
    x25519_dalek::PublicKey::from(&x25519_dalek::StaticSecret::from(*secret)).to_bytes()
}

/// `StaticSecret::diffie_hellman` (x25519-dalek): the shared secret of
/// `secret` with `peer_public`, named by `x25519_shared_secret`.
#[verifier::external_body]
pub(crate) fn x25519_diffie_hellman(secret: &[u8; 32], peer_public: &[u8; 32]) -> (shared: [u8; 32])
    ensures
        shared@ == x25519_shared_secret(secret@, peer_public@),
{
    x25519_dalek::StaticSecret::from(*secret).diffie_hellman(
        &x25519_dalek::PublicKey::from(*peer_public),
    ).to_bytes()
}

/// The first 32 bytes of HKDF-SHA256 output for `ikm` (no salt) and `info`.
pub uninterp spec fn hkdf_sha256_okm(ikm: Seq<u8>, info: Seq<u8>) -> Seq<u8>;

/// `Hkdf::<Sha256>::new(None, ikm).expand(info, &mut [0; 32])` (hkdf): the
/// expansion only fails for outputs longer than 255 hash lengths, so a
/// 32-byte output always succeeds, named by `hkdf_sha256_okm`.
#[verifier::external_body]
pub(crate) fn hkdf_sha256_expand(ikm: &[u8; 32], info: &[u8]) -> (okm: Result<[u8; 32], hkdf::InvalidLength>)
    ensures
        match okm {
            Ok(key) => key@ == hkdf_sha256_okm(ikm@, info@),
            Err(_) => false,
        },
{
    let mut key = [0u8; 32];
    hkdf::Hkdf::<sha2::Sha256>::new(None, ikm).expand(info, &mut key).map(|_| key)
}

// ---------------------------------------------------------------------------
// Authenticated encryption
// ---------------------------------------------------------------------------
/// The ChaCha20-Poly1305 ciphertext (with its 16-byte tag appended).
pub uninterp spec fn chacha20poly1305_seal(
    key: Seq<u8>,
    nonce: Seq<u8>,
    aad: Seq<u8>,
    plaintext: Seq<u8>,
) -> Seq<u8>;

/// The ChaCha20-Poly1305 plaintext of a ciphertext with its tag, or `None`
/// when the tag does not authenticate it.
pub uninterp spec fn chacha20poly1305_open(
    key: Seq<u8>,
    nonce: Seq<u8>,
    aad: Seq<u8>,
    ciphertext: Seq<u8>,
) -> Option<Seq<u8>>;

/// Largest plaintext ChaCha20 can encrypt before its block counter overflows.
pub open spec fn chacha20_max_len() -> int {
    64 * 0xffff_ffffint
}

/// `ChaCha20Poly1305::new(key).encrypt_in_place(nonce, aad, buffer)`: the
/// encryption fails only when the message exceeds the cipher's block
/// counter, so below that it always succeeds; the ciphertext is the
/// plaintext's length plus the 16-byte tag, and decrypting it with the same
/// key, nonce and associated data gives the plaintext back.
#[verifier::external_body]
pub(crate) fn chacha20poly1305_encrypt(
    key: &[u8; 32],
    nonce: &[u8; 12],
    aad: &[u8],
    plaintext: &[u8],
) -> (ciphertext: Result<Vec<u8>, chacha20poly1305::aead::Error>)
    requires
        plaintext@.len() < chacha20_max_len(),
    ensures
        match ciphertext {
            Ok(c) => {
                &&& c@ == chacha20poly1305_seal(key@, nonce@, aad@, plaintext@)
                &&& c@.len() == plaintext@.len() + 16
                &&& chacha20poly1305_open(key@, nonce@, aad@, c@) == Some(plaintext@)
            },
            Err(_) => false,
        },
{
    let cipher = chacha20poly1305::ChaCha20Poly1305::new(key.into());
    let mut buffer = plaintext.to_vec();
    cipher.encrypt_in_place(nonce.into(), aad, &mut buffer).map(|_| buffer)
}

/// `ChaCha20Poly1305::new(key).decrypt_in_place(nonce, aad, buffer)`: the
/// plaintext when the tag authenticates the ciphertext (always 16 bytes
/// shorter than it), an error otherwise, and always an error for a
/// ciphertext shorter than the tag.
#[verifier::external_body]
pub(crate) fn chacha20poly1305_decrypt(
    key: &[u8; 32],
    nonce: &[u8; 12],
    aad: &[u8],
    ciphertext: &[u8],
) -> (plaintext: Result<Vec<u8>, chacha20poly1305::aead::Error>)
    ensures
        match plaintext {
            Ok(p) => chacha20poly1305_open(key@, nonce@, aad@, ciphertext@) == Some(p@) && p@.len()
                + 16 == ciphertext@.len(),
            Err(_) => chacha20poly1305_open(key@, nonce@, aad@, ciphertext@) is None,
        },
        ciphertext@.len() < 16 ==> plaintext is Err,
{
    let cipher = chacha20poly1305::ChaCha20Poly1305::new(key.into());
    let mut buffer = ciphertext.to_vec();
    cipher.decrypt_in_place(nonce.into(), aad, &mut buffer).map(|_| buffer)
}

// ---------------------------------------------------------------------------
// Randomness
// ---------------------------------------------------------------------------
/// `getrandom::fill`: overwrites `dest` with random bytes from the operating
/// system, or fails; nothing is promised about the bytes.
#[verifier::external_body]
pub(crate) fn fill_random(dest: &mut [u8]) -> (res: Result<(), getrandom::Error>)
    ensures
        final(dest)@.len() == old(dest)@.len(),
{
    getrandom::fill(dest)
}

} // verus!

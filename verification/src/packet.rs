//! Encrypted audio packets: a cleartext header (stream id and sequence, both
//! authenticated as associated data) followed by the ChaCha20-Poly1305
//! ciphertext of the sample count and samples.
use crate::crypto::{
    chacha20_max_len, chacha20poly1305_decrypt, chacha20poly1305_encrypt, chacha20poly1305_open,
    chacha20poly1305_seal,
};
use crate::proto::AudioFrame;
use crate::wire::{
    append_bytes, lemma_samples_le_len, lemma_samples_roundtrip, push_samples_le, push_u16_le, push_u64_le,
    read_samples_le, read_u16_le, read_u64_le, samples_from_le, samples_le,
};
use vstd::bytes::*;
use vstd::prelude::*;

verus! {

/// Length of the cleartext packet header: stream id and sequence.
pub const AUDIO_PACKET_HEADER_LEN: usize = 16;

/// The cipher of one session, keyed by the session key both peers derive.
#[derive(Clone)]
pub struct SessionCipher {
    pub key: [u8; 32],
}

impl SessionCipher {
    pub fn new(key: [u8; 32]) -> (cipher: Self)
        ensures
            cipher.key == key,
    {
        SessionCipher { key }
    }

    /// The 96-bit nonce of a frame: four zero bytes, then the sequence
    /// number in little-endian order.
    pub fn nonce_for(sequence: u64) -> (nonce: [u8; 12])
        ensures
            nonce@ == nonce_bytes(sequence),
    {
        let b = vstd::bytes::u64_to_le_bytes(sequence);
        let nonce = [0u8, 0, 0, 0, b[0], b[1], b[2], b[3], b[4], b[5], b[6], b[7]];
        assert(nonce@ =~= nonce_bytes(sequence));
        nonce
    }
}

/// The nonce bytes of a sequence number.
pub open spec fn nonce_bytes(sequence: u64) -> Seq<u8> {
    seq![0u8, 0u8, 0u8, 0u8] + spec_u64_to_le_bytes(sequence)
}

/// The cleartext header (and associated data) of a packet.
pub open spec fn header_bytes(stream_id: u64, sequence: u64) -> Seq<u8> {
    spec_u64_to_le_bytes(stream_id) + spec_u64_to_le_bytes(sequence)
}

/// The plaintext sealed in a packet: the sample count truncated to 16 bits,
/// then the samples.
pub open spec fn packet_plaintext(samples: Seq<i16>) -> Seq<u8> {
    spec_u16_to_le_bytes(samples.len() as u16) + samples_le(samples)
}

/// A whole packet for a frame of `stream_id` under `key`.
pub open spec fn packet_bytes(key: Seq<u8>, stream_id: u64, sequence: u64, samples: Seq<i16>) -> Seq<
    u8,
> {
    header_bytes(stream_id, sequence) + chacha20poly1305_seal(
        key,
        nonce_bytes(sequence),
        header_bytes(stream_id, sequence),
        packet_plaintext(samples),
    )
}

/// The samples of an opened plaintext, or `None` when it is shorter than the
/// count or its length differs from twice the count.
pub open spec fn plaintext_samples(plaintext: Seq<u8>) -> Option<Seq<i16>> {
    if plaintext.len() < 2 {
        None
    } else {
        let count = spec_u16_from_le_bytes(plaintext.subrange(0, 2));
        let payload = plaintext.subrange(2, plaintext.len() as int);
        if payload.len() != 2 * count {
            None
        } else {
            Some(samples_from_le(payload))
        }
    }
}

/// What a packet decodes to under `key` when it is taken as frame `sequence`:
/// `None` for a packet shorter than the header, one whose tag does not
/// authenticate it, or one whose plaintext is malformed.
pub open spec fn packet_samples(key: Seq<u8>, bytes: Seq<u8>, sequence: u64) -> Option<Seq<i16>> {
    if bytes.len() < 16 {
        None
    } else {
        match chacha20poly1305_open(
            key,
            nonce_bytes(sequence),
            bytes.subrange(0, 16),
            bytes.subrange(16, bytes.len() as int),
        ) {
            Some(plaintext) => plaintext_samples(plaintext),
            None => None,
        }
    }
}

/// The stream id and sequence of a packet's header.
pub open spec fn packet_header(bytes: Seq<u8>) -> Option<(u64, u64)> {
    if bytes.len() < 16 {
        None
    } else {
        Some((spec_u64_from_le_bytes(bytes.subrange(0, 8)), spec_u64_from_le_bytes(bytes.subrange(8, 16))))
    }
}

/// Largest number of samples a packet can carry without overflowing the
/// cipher's block counter.
pub open spec fn packet_fits(samples: Seq<i16>) -> bool {
    2 + 2 * samples.len() < chacha20_max_len()
}

/// Encrypts a frame into a packet.
pub fn encode_audio_packet(stream_id: u64, frame: &AudioFrame, session_cipher: &SessionCipher) -> (bytes:
    Vec<u8>)
    requires
        packet_fits(frame.samples@),
    ensures
        bytes@ == packet_bytes(session_cipher.key@, stream_id, frame.sequence, frame.samples@),
        packet_header(bytes@) == Some((stream_id, frame.sequence)),
        bytes@.len() == 16 + 2 + 2 * frame.samples@.len() + 16,
        frame.samples@.len() <= u16::MAX ==> packet_samples(
            session_cipher.key@,
            bytes@,
            frame.sequence,
        ) == Some(frame.samples@),
{
    proof {
        lemma_samples_roundtrip(frame.samples@);
        lemma_samples_le_len(frame.samples@);
    }
    let mut plaintext: Vec<u8> = Vec::new();
    let sample_count = frame.samples.len() as u16;
    push_u16_le(&mut plaintext, sample_count);
    push_samples_le(&mut plaintext, frame.samples.as_slice());
    assert(plaintext@ =~= packet_plaintext(frame.samples@));
    proof {
        lemma_auto_spec_u16_to_from_le_bytes();
        assert(spec_u16_to_le_bytes(sample_count).len() == 2);
    }

    let nonce = SessionCipher::nonce_for(frame.sequence);
    let mut aad: Vec<u8> = Vec::new();
    push_u64_le(&mut aad, stream_id);
    push_u64_le(&mut aad, frame.sequence);
    assert(aad@ =~= header_bytes(stream_id, frame.sequence));

    let ciphertext = match chacha20poly1305_encrypt(
        &session_cipher.key,
        &nonce,
        aad.as_slice(),
        plaintext.as_slice(),
    ) {
        Ok(c) => c,
        Err(_) => Vec::new(),  // unreachable: the plaintext fits the cipher
    };

    let mut bytes: Vec<u8> = Vec::new();
    append_bytes(&mut bytes, aad.as_slice());
    append_bytes(&mut bytes, ciphertext.as_slice());
    proof {
        lemma_packet_header(session_cipher.key@, stream_id, frame.sequence, frame.samples@);
        if frame.samples@.len() <= u16::MAX {
            lemma_plaintext_roundtrip(frame.samples@);
        }
    }
    bytes
}

/// Reads the stream id and sequence from a packet's cleartext header.
pub fn audio_packet_header(bytes: &[u8]) -> (header: Option<(u64, u64)>)
    ensures
        header == packet_header(bytes@),
{
    if bytes.len() < AUDIO_PACKET_HEADER_LEN {
        return None;
    }
    let stream_id = read_u64_le(bytes, 0);
    let sequence = read_u64_le(bytes, 8);
    Some((stream_id, sequence))
}

/// Authenticates and decrypts a packet as frame `sequence` of a stream.
pub fn decode_audio_packet_for_stream(bytes: &[u8], sequence: u64, session_cipher: &SessionCipher) -> (frame:
    Option<AudioFrame>)
    ensures
        match (frame, packet_samples(session_cipher.key@, bytes@, sequence)) {
            (Some(f), Some(samples)) => f.sequence == sequence && f.samples@ == samples,
            (None, None) => true,
            _ => false,
        },
{
    if bytes.len() < AUDIO_PACKET_HEADER_LEN {
        return None;
    }
    let nonce = SessionCipher::nonce_for(sequence);
    let mut aad: Vec<u8> = Vec::new();
    let mut ciphertext: Vec<u8> = Vec::new();
    let mut i: usize = 0;
    while i < bytes.len()
        invariant
            16 <= bytes@.len(),
            i <= bytes@.len(),
            i <= 16 ==> aad@ == bytes@.subrange(0, i as int) && ciphertext@ == Seq::<u8>::empty(),
            i > 16 ==> aad@ == bytes@.subrange(0, 16) && ciphertext@ == bytes@.subrange(
                16,
                i as int,
            ),
        decreases bytes@.len() - i,
    {
        if i < AUDIO_PACKET_HEADER_LEN {
            aad.push(bytes[i]);
        } else {
            ciphertext.push(bytes[i]);
        }
        i += 1;
        assert(i <= 16 ==> aad@ =~= bytes@.subrange(0, i as int));
        assert(i > 16 ==> ciphertext@ =~= bytes@.subrange(16, i as int));
    }
    assert(ciphertext@ =~= bytes@.subrange(16, bytes@.len() as int));
    let plaintext = match chacha20poly1305_decrypt(
        &session_cipher.key,
        &nonce,
        aad.as_slice(),
        ciphertext.as_slice(),
    ) {
        Ok(p) => p,
        Err(_) => return None,
    };
    if plaintext.len() < 2 {
        return None;
    }
    let sample_count = read_u16_le(plaintext.as_slice(), 0) as usize;
    if plaintext.len() - 2 != sample_count * 2 {
        return None;
    }
    let samples = read_samples_le(plaintext.as_slice(), 2);
    Some(AudioFrame { sequence, samples })
}

/// The header of a packet gives back its stream id and sequence.
pub proof fn lemma_packet_header(key: Seq<u8>, stream_id: u64, sequence: u64, samples: Seq<i16>)
    ensures
        packet_header(packet_bytes(key, stream_id, sequence, samples)) == Some((stream_id, sequence)),
        packet_bytes(key, stream_id, sequence, samples).subrange(0, 16) == header_bytes(
            stream_id,
            sequence,
        ),
        packet_bytes(key, stream_id, sequence, samples).subrange(
            16,
            packet_bytes(key, stream_id, sequence, samples).len() as int,
        ) == chacha20poly1305_seal(
            key,
            nonce_bytes(sequence),
            header_bytes(stream_id, sequence),
            packet_plaintext(samples),
        ),
{
    lemma_auto_spec_u64_to_from_le_bytes();
    let b = packet_bytes(key, stream_id, sequence, samples);
    let h = header_bytes(stream_id, sequence);
    assert(spec_u64_to_le_bytes(stream_id).len() == 8);
    assert(spec_u64_to_le_bytes(sequence).len() == 8);
    assert(b.subrange(0, 8) =~= spec_u64_to_le_bytes(stream_id));
    assert(b.subrange(8, 16) =~= spec_u64_to_le_bytes(sequence));
    assert(b.subrange(0, 16) =~= h);
    let c = chacha20poly1305_seal(key, nonce_bytes(sequence), h, packet_plaintext(samples));
    assert(b.subrange(16, b.len() as int) =~= c);
}

/// The plaintext of a frame reads back as its samples whenever the sample
/// count fits the 16-bit count field.
pub proof fn lemma_plaintext_roundtrip(samples: Seq<i16>)
    requires
        samples.len() <= u16::MAX,
    ensures
        plaintext_samples(packet_plaintext(samples)) == Some(samples),
{
    lemma_auto_spec_u16_to_from_le_bytes();
    lemma_samples_roundtrip(samples);
    let n = samples.len() as u16;
    assert(spec_u16_to_le_bytes(n).len() == 2);
    let p = packet_plaintext(samples);
    assert(p.subrange(0, 2) =~= spec_u16_to_le_bytes(n));
    assert(p.subrange(2, p.len() as int) =~= samples_le(samples));
}

} // verus!

//! Wire protocol shared by sender and receiver: control messages, discovery
//! packets and the binary audio frame.
use crate::wire::{
    lemma_bytes_roundtrip, lemma_samples_roundtrip, push_samples_le, push_u16_le, push_u64_le,
    read_samples_le, read_u16_le, read_u64_le, samples_from_le, samples_le,
};
use vstd::bytes::*;
use vstd::prelude::*;

verus! {

pub const DEFAULT_CONTROL_PORT: u16 = 49000;

pub const DEFAULT_AUDIO_PORT: u16 = 49001;

pub const DEFAULT_DISCOVERY_PORT: u16 = 49002;

pub const FRAME_SAMPLES: usize = 480;

pub const SAMPLE_RATE_HZ: u32 = 48000;

pub const CHANNELS: u16 = 2;

/// Length of the binary audio frame header: sequence (8 bytes) and sample count (2 bytes).
pub const AUDIO_FRAME_HEADER_LEN: usize = 10;

/// Samples per channel in one 10 ms frame at `sample_rate_hz`.
pub open spec fn spec_frame_samples_per_channel(sample_rate_hz: u32) -> nat {
    (sample_rate_hz / 100) as nat
}

/// Samples per channel in one 10 ms frame at `sample_rate_hz`.
pub fn frame_samples_per_channel(sample_rate_hz: u32) -> (n: usize)
    ensures
        n == spec_frame_samples_per_channel(sample_rate_hz),
{
    (sample_rate_hz / 100) as usize
}

/// First control message, sent by the sender.
#[derive(Debug, Clone)]
pub struct Hello {
    pub source_name: String,
    pub stream_id: u64,
    pub sample_rate_hz: u32,
    pub channels: u16,
    pub identity_public_key: String,
}

/// The receiver's acceptance of a sender.
#[derive(Debug, Clone)]
pub struct Accept {
    pub target_name: String,
    pub audio_port: u16,
    pub identity_public_key: String,
}

/// The receiver asks the sender to confirm a fingerprint before streaming.
#[derive(Debug, Clone)]
pub struct PairingRequired {
    pub target_name: String,
    pub identity_public_key: String,
}

/// The sender's answer to `PairingRequired`.
#[derive(Debug, Clone)]
pub struct PairingDecision {
    pub approved: bool,
}

/// A receiver's announcement on the local network.
#[derive(Debug, Clone)]
pub struct DiscoveryAnnouncement {
    pub machine_name: String,
    pub control_port: u16,
    pub addresses: Vec<String>,
}

/// A packet on the discovery port.
#[derive(Debug, Clone)]
pub enum DiscoveryPacket {
    Announcement(DiscoveryAnnouncement),
    Request { requester_name: String },
}

/// One frame of interleaved PCM samples.
#[derive(Debug, Clone)]
pub struct AudioFrame {
    pub sequence: u64,
    pub samples: Vec<i16>,
}

/// The bytes of a frame: sequence (little-endian `u64`), the sample count
/// truncated to 16 bits (little-endian `u16`), then every sample as
/// little-endian `i16`.
pub open spec fn frame_bytes(sequence: u64, samples: Seq<i16>) -> Seq<u8> {
    spec_u64_to_le_bytes(sequence) + spec_u16_to_le_bytes(samples.len() as u16) + samples_le(
        samples,
    )
}

/// What a byte string decodes to: `None` when it is shorter than the header
/// or when the payload length differs from twice the announced sample count.
pub open spec fn frame_from_bytes(b: Seq<u8>) -> Option<(u64, Seq<i16>)> {
    if b.len() < 10 {
        None
    } else {
        let count = spec_u16_from_le_bytes(b.subrange(8, 10));
        let payload = b.subrange(10, b.len() as int);
        if payload.len() != 2 * count {
            None
        } else {
            Some((spec_u64_from_le_bytes(b.subrange(0, 8)), samples_from_le(payload)))
        }
    }
}

impl AudioFrame {
    pub fn encode(&self) -> (bytes: Vec<u8>)
        ensures
            bytes@ == frame_bytes(self.sequence, self.samples@),
    {
        let sample_count = self.samples.len() as u16;
        let mut bytes: Vec<u8> = Vec::new();
        push_u64_le(&mut bytes, self.sequence);
        push_u16_le(&mut bytes, sample_count);
        push_samples_le(&mut bytes, self.samples.as_slice());
        assert(bytes@ =~= frame_bytes(self.sequence, self.samples@));
        bytes
    }

    pub fn decode(bytes: &[u8]) -> (frame: Option<Self>)
        ensures
            match (frame, frame_from_bytes(bytes@)) {
                (Some(f), Some((sequence, samples))) => f.sequence == sequence && f.samples@
                    == samples,
                (None, None) => true,
                _ => false,
            },
    {
        if bytes.len() < AUDIO_FRAME_HEADER_LEN {
            return None;
        }
        let sequence = read_u64_le(bytes, 0);
        let sample_count = read_u16_le(bytes, 8) as usize;
        let payload_len = bytes.len() - AUDIO_FRAME_HEADER_LEN;
        if payload_len != sample_count * 2 {
            return None;
        }
        let samples = read_samples_le(bytes, AUDIO_FRAME_HEADER_LEN);
        Some(AudioFrame { sequence, samples })
    }
}

/// Decoding an encoded frame gives the frame back, whenever its sample count
/// fits in the 16-bit count field.
pub proof fn lemma_frame_decode_encode(sequence: u64, samples: Seq<i16>)
    requires
        samples.len() <= u16::MAX,
    ensures
        frame_from_bytes(frame_bytes(sequence, samples)) == Some((sequence, samples)),
{
    lemma_auto_spec_u64_to_from_le_bytes();
    lemma_auto_spec_u16_to_from_le_bytes();
    lemma_samples_roundtrip(samples);
    let b = frame_bytes(sequence, samples);
    let n = samples.len() as u16;
    assert(spec_u64_to_le_bytes(sequence).len() == 8);
    assert(spec_u16_to_le_bytes(n).len() == 2);
    assert(b.subrange(0, 8) =~= spec_u64_to_le_bytes(sequence));
    assert(b.subrange(8, 10) =~= spec_u16_to_le_bytes(n));
    assert(b.subrange(10, b.len() as int) =~= samples_le(samples));
    assert(n == samples.len());
}

/// A byte string that decodes is exactly the encoding of what it decodes to.
pub proof fn lemma_frame_encode_decode(b: Seq<u8>)
    ensures
        match frame_from_bytes(b) {
            Some((sequence, samples)) => frame_bytes(sequence, samples) == b,
            None => true,
        },
{
    lemma_auto_spec_u64_to_from_le_bytes();
    lemma_auto_spec_u16_to_from_le_bytes();
    let payload = b.subrange(10, b.len() as int);
    let count = spec_u16_from_le_bytes(b.subrange(8, 10));
    let sequence = spec_u64_from_le_bytes(b.subrange(0, 8));
    let samples = samples_from_le(payload);
    if frame_from_bytes(b) is Some {
        lemma_bytes_roundtrip(payload);
        assert(samples.len() == count);
        assert((samples.len() as u16) == count);
        assert(b.subrange(8, 10).len() == 2);
        assert(spec_u16_to_le_bytes(count) == b.subrange(8, 10));
        assert(b.subrange(0, 8).len() == 8);
        assert(spec_u64_to_le_bytes(sequence) == b.subrange(0, 8));
        assert(frame_bytes(sequence, samples) =~= b);
    }
}

} // verus!

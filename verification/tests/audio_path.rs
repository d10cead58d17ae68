use velin::jitter::{JitterConfig, ReceiverStreamState, StreamNotice};
use velin::packet::{audio_packet_header, decode_audio_packet_for_stream, encode_audio_packet, SessionCipher};
use velin::proto::{frame_samples_per_channel, AudioFrame, CHANNELS, FRAME_SAMPLES, SAMPLE_RATE_HZ};
use velin::receiver::{PacketOutcome, ReceiverStreams};

fn frame(sequence: u64, samples: Vec<i16>) -> AudioFrame {
    AudioFrame { sequence, samples }
}

#[test]
fn frame_encoding_round_trips() {
    let sent = frame(0x0102030405060708, vec![1, -1, i16::MAX, i16::MIN, 0]);
    let bytes = sent.encode();
    assert_eq!(bytes.len(), 10 + 2 * 5);
    assert_eq!(&bytes[..8], &[8, 7, 6, 5, 4, 3, 2, 1]);
    assert_eq!(&bytes[8..10], &[5, 0]);
    assert_eq!(&bytes[10..12], &[1, 0]);
    assert_eq!(&bytes[12..14], &[0xff, 0xff]);
    let decoded = AudioFrame::decode(&bytes).expect("frame decodes");
    assert_eq!(decoded.sequence, sent.sequence);
    assert_eq!(decoded.samples, sent.samples);
}

#[test]
fn frame_decoding_refuses_short_or_inconsistent_input() {
    assert!(AudioFrame::decode(&[0u8; 9]).is_none());
    let mut bytes = frame(3, vec![7, 8]).encode();
    bytes.push(0);
    assert!(AudioFrame::decode(&bytes).is_none());
    bytes.truncate(bytes.len() - 2);
    assert!(AudioFrame::decode(&bytes).is_none());
    let empty = AudioFrame::decode(&frame(9, vec![]).encode()).expect("empty frame decodes");
    assert_eq!(empty.sequence, 9);
    assert!(empty.samples.is_empty());
}

#[test]
fn protocol_constants_and_frame_size() {
    assert_eq!(frame_samples_per_channel(SAMPLE_RATE_HZ), FRAME_SAMPLES);
    assert_eq!(frame_samples_per_channel(44_100), 441);
    assert_eq!(frame_samples_per_channel(99), 0);
    assert_eq!(CHANNELS, 2);
}

#[test]
fn nonce_is_four_zero_bytes_then_the_sequence() {
    let nonce = SessionCipher::nonce_for(0x1122334455667788);
    assert_eq!(nonce, [0, 0, 0, 0, 0x88, 0x77, 0x66, 0x55, 0x44, 0x33, 0x22, 0x11]);
}

#[test]
fn audio_packets_round_trip_through_the_cipher() {
    let cipher = SessionCipher::new([7u8; 32]);
    let samples: Vec<i16> = (0..960).map(|i| (i as i16).wrapping_mul(31)).collect();
    let packet = encode_audio_packet(42, &frame(17, samples.clone()), &cipher);
    assert_eq!(packet.len(), 16 + 2 + 2 * 960 + 16);
    assert_eq!(audio_packet_header(&packet), Some((42, 17)));
    assert_ne!(&packet[18..40], &[0u8; 22][..], "samples travel encrypted");
    let decoded = decode_audio_packet_for_stream(&packet, 17, &cipher).expect("packet decodes");
    assert_eq!(decoded.sequence, 17);
    assert_eq!(decoded.samples, samples);
}

#[test]
fn audio_packets_refuse_tampering_and_wrong_keys() {
    let cipher = SessionCipher::new([1u8; 32]);
    let packet = encode_audio_packet(5, &frame(2, vec![10, 20, 30]), &cipher);
    let other = SessionCipher::new([2u8; 32]);
    assert!(decode_audio_packet_for_stream(&packet, 2, &other).is_none());
    assert!(decode_audio_packet_for_stream(&packet, 3, &cipher).is_none());
    let mut tampered = packet.clone();
    let last = tampered.len() - 1;
    tampered[last] ^= 1;
    assert!(decode_audio_packet_for_stream(&tampered, 2, &cipher).is_none());
    let mut wrong_header = packet.clone();
    wrong_header[0] ^= 1;
    assert!(decode_audio_packet_for_stream(&wrong_header, 2, &cipher).is_none());
    assert!(audio_packet_header(&packet[..15]).is_none());
    assert!(decode_audio_packet_for_stream(&packet[..15], 2, &cipher).is_none());
}

fn stream(id: u64, name: &str, now_ms: u64) -> ReceiverStreamState {
    ReceiverStreamState::new(id, name.to_string(), 48_000, SessionCipher::new([3u8; 32]), 4, JitterConfig::standard(), now_ms)
}

#[test]
fn jitter_configurations_by_platform() {
    let linux = JitterConfig::linux();
    assert_eq!(
        (linux.default_target_frames, linux.max_target_frames, linux.playback_queue_target_frames, linux.playback_queue_low_water_frames),
        (6, 16, 6, 3)
    );
    let other = JitterConfig::standard();
    assert_eq!(
        (other.default_target_frames, other.max_target_frames, other.playback_queue_target_frames, other.playback_queue_low_water_frames),
        (4, 12, 3, 1)
    );
}

#[test]
fn stream_plays_in_order_once_primed() {
    let mut s = stream(1, "alpha", 0);
    let (out, notice) = s.next_samples(4);
    assert!(out.is_none() && notice.is_none(), "nothing plays before priming");
    for seq in [10u64, 12, 11, 13] {
        s.receive_frame(seq, vec![seq as i16; 4], 4, 5);
    }
    assert_eq!(s.reordered_packets, 1);
    let (out, notice) = s.next_samples(4);
    assert_eq!(out, Some(vec![10; 4]));
    assert!(notice.is_none(), "the stream primed when the fourth frame arrived");
    assert_eq!(s.next_samples(4).0, Some(vec![11; 4]));
    assert_eq!(s.next_samples(4).0, Some(vec![12; 4]));
    assert_eq!(s.next_samples(4).0, Some(vec![13; 4]));
    assert_eq!(s.played_frames, 4);
}

#[test]
fn frames_before_the_first_received_are_late() {
    let mut s = stream(1, "alpha", 0);
    s.receive_frame(12, vec![1; 4], 4, 1);
    s.receive_frame(10, vec![1; 4], 4, 1);
    assert_eq!(s.late_packets, 1);
    assert_eq!(s.received_frames, 2);
}

#[test]
fn late_frames_are_counted_and_dropped() {
    let mut s = stream(1, "alpha", 0);
    for seq in 20u64..24 {
        s.receive_frame(seq, vec![1; 4], 4, 1);
    }
    assert_eq!(s.next_samples(4).0, Some(vec![1; 4]));
    s.receive_frame(5, vec![9; 4], 4, 2);
    assert_eq!(s.late_packets, 1);
    assert_eq!(s.received_frames, 5);
}

#[test]
fn missing_frame_repeats_the_last_good_one_then_rebuffers() {
    let mut s = stream(1, "alpha", 0);
    for seq in [0u64, 1, 2, 3] {
        s.receive_frame(seq, vec![seq as i16 + 1; 4], 4, 1);
    }
    for expected in 1..=4i16 {
        assert_eq!(s.next_samples(4).0, Some(vec![expected; 4]));
    }
    s.receive_frame(9, vec![99; 4], 4, 2);
    // frames 4..8 are missing: the last good frame is repeated twice, then silence
    assert_eq!(s.next_samples(4).0, Some(vec![4; 4]));
    assert_eq!(s.next_samples(4).0, Some(vec![4; 4]));
    assert_eq!(s.next_samples(4).0, Some(vec![0; 4]));
    let (out, notice) = s.next_samples(4);
    assert!(out.is_none());
    assert!(matches!(notice, Some(StreamNotice::Rebuffering { .. })));
    assert_eq!(s.missing_packets, 4);
    assert!(!s.jitter_primed);
}

#[test]
fn reset_for_output_forgets_the_last_good_frame() {
    let mut s = stream(1, "alpha", 0);
    for seq in 0u64..4 {
        s.receive_frame(seq, vec![5; 4], 4, 1);
    }
    assert!(s.next_samples(4).0.is_some());
    s.reset_for_output(6);
    assert_eq!(s.last_good_output, vec![0; 6]);
    assert!(!s.jitter_primed);
}

#[test]
fn receiver_mixes_streams_by_averaging() {
    let mut streams = ReceiverStreams::new();
    streams.insert(stream(1, "alpha", 0));
    streams.insert(stream(2, "beta", 0));
    assert_eq!(streams.len(), 2);
    for seq in 0u64..4 {
        streams.receive(1, seq, vec![100, -100, 30001, -30001], 4, 1);
        streams.receive(2, seq, vec![300, 101, 30000, -30000], 4, 1);
    }
    let (mixed, _events) = streams.mix(4);
    assert_eq!(mixed, Some(vec![200, 0, 30000, -30000]));
}

#[test]
fn receiver_mix_of_one_stream_is_its_frame() {
    let mut streams = ReceiverStreams::new();
    streams.insert(stream(7, "solo", 0));
    for seq in 0u64..4 {
        streams.receive(7, seq, vec![seq as i16, -3, 4, 5], 4, 1);
    }
    let (mixed, _) = streams.mix(4);
    assert_eq!(mixed, Some(vec![0, -3, 4, 5]));
    let empty_mix = ReceiverStreams::new().mix(4).0;
    assert!(empty_mix.is_none());
}

#[test]
fn receiver_classifies_packets() {
    let mut streams = ReceiverStreams::new();
    streams.insert(stream(1, "alpha", 0));
    let cipher = SessionCipher::new([3u8; 32]);
    let good = encode_audio_packet(1, &frame(4, vec![1, 2]), &cipher);
    match streams.decode_packet(&good) {
        PacketOutcome::Frame { stream_id, sample_rate_hz, frame } => {
            assert_eq!((stream_id, sample_rate_hz, frame.sequence), (1, 48_000, 4));
            assert_eq!(frame.samples, vec![1, 2]);
        }
        other => panic!("unexpected {other:?}"),
    }
    let unknown = encode_audio_packet(9, &frame(4, vec![1, 2]), &cipher);
    assert!(matches!(streams.decode_packet(&unknown), PacketOutcome::UnknownStream { stream_id: 9 }));
    let bad = encode_audio_packet(1, &frame(4, vec![1, 2]), &SessionCipher::new([4u8; 32]));
    assert!(matches!(streams.decode_packet(&bad), PacketOutcome::MalformedFrame { stream_id: 1 }));
    assert!(matches!(streams.decode_packet(&[1, 2, 3]), PacketOutcome::MalformedHeader));
}

#[test]
fn receiver_forgets_idle_and_drained_streams() {
    let mut streams = ReceiverStreams::new();
    streams.insert(stream(1, "alpha", 0));
    streams.insert(stream(2, "beta", 0));
    streams.receive(2, 0, vec![1; 4], 4, 9_000);
    assert_eq!(streams.mark_disconnected(1), Some("alpha".to_string()));
    assert_eq!(streams.mark_disconnected(3), None);
    streams.retain_live(9_500);
    assert_eq!(streams.len(), 1);
    assert!(streams.position(2).is_some());
    streams.retain_live(19_000);
    assert_eq!(streams.len(), 0);
}

#[test]
fn receiver_totals_sum_the_streams() {
    let mut streams = ReceiverStreams::new();
    streams.insert(stream(1, "alpha", 0));
    streams.insert(stream(2, "beta", 0));
    streams.receive(1, 0, vec![1; 4], 4, 1);
    streams.receive(2, 0, vec![1; 4], 4, 1);
    streams.receive(2, 1, vec![1; 4], 4, 1);
    let totals = streams.totals();
    assert_eq!(totals.streams, 2);
    assert_eq!(totals.sender_names, vec!["alpha".to_string(), "beta".to_string()]);
    assert_eq!(totals.network_frames, 3);
    assert_eq!(totals.received, 3);
}

use velin::jitter::JitterConfig;
use velin::metrics::{
    audio_queue_frames, playback_low_water_samples, playback_target_samples, receiver_metrics_summary, restart_due,
    should_emit_metrics,
};
use velin::receiver::ReceiverTotals;

#[test]
fn playback_queue_limits_follow_the_platform_tuning() {
    assert_eq!(playback_low_water_samples(JitterConfig::linux(), 960), 3 * 960);
    assert_eq!(playback_target_samples(JitterConfig::linux(), 960), 6 * 960);
    assert_eq!(playback_low_water_samples(JitterConfig::standard(), 882), 882);
    assert_eq!(playback_target_samples(JitterConfig::standard(), 882), 3 * 882);
}

#[test]
fn metrics_are_reported_first_and_every_hundredth_refill() {
    assert!(should_emit_metrics(0));
    assert!(should_emit_metrics(1));
    assert!(!should_emit_metrics(2));
    assert!(!should_emit_metrics(99));
    assert!(should_emit_metrics(100));
    assert!(!should_emit_metrics(101));
    assert!(should_emit_metrics(300));
}

#[test]
fn output_restarts_at_most_once_a_second() {
    assert!(!restart_due(1_500, 1_000));
    assert!(restart_due(2_000, 1_000));
    assert!(restart_due(5_000, 0));
    assert!(!restart_due(1_000, 4_000));
}

#[test]
fn queued_samples_count_in_whole_frames() {
    assert_eq!(audio_queue_frames(2_000, 960), 2);
    assert_eq!(audio_queue_frames(959, 960), 0);
    assert_eq!(audio_queue_frames(7, 0), 7);
}

#[test]
fn receiver_metrics_text() {
    let totals = ReceiverTotals {
        streams: 2,
        sender_names: vec!["alpha".to_string(), "beta".to_string()],
        network_frames: 5,
        received: 120,
        played: 110,
        missing: 3,
        late: 2,
        reordered: 1,
        dropped: 4,
        underruns: 6,
    };
    assert_eq!(
        receiver_metrics_summary(&totals, "Speakers", 2),
        "Mode: Receiver\nState: Streaming\nActive streams: 2\nSenders: alpha, beta\nPlayback device: Speakers\nFrames: received 120, played 110\nLatency estimate: 70 ms total (50 ms network + 20 ms audio)\nNetwork buffer: 5 frames\nAudio queue: 2 frames\nLoss: missing 3, late 2, reordered 1, dropped 4, underruns 6"
    );
    let idle = ReceiverTotals {
        streams: 0,
        sender_names: Vec::new(),
        network_frames: 0,
        received: 0,
        played: 0,
        missing: 0,
        late: 0,
        reordered: 0,
        dropped: 0,
        underruns: 0,
    };
    assert!(receiver_metrics_summary(&idle, "Default", 0).contains("Senders: none\n"));
}

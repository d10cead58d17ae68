//! The receiver's playback pacing and the metrics it reports.
use crate::jitter::JitterConfig;
use crate::receiver::ReceiverTotals;
use crate::text::{decimal, decimal_string, join_strings, joined, push_str, string_of, views};
use vstd::prelude::*;

verus! {

/// The playback queue is refilled once it holds no more than this many
/// samples.
pub fn playback_low_water_samples(config: JitterConfig, output_frame_samples: usize) -> (n: usize)
    requires
        config.playback_queue_low_water_frames * output_frame_samples <= usize::MAX,
    ensures
        n == config.playback_queue_low_water_frames * output_frame_samples,
{
    config.playback_queue_low_water_frames * output_frame_samples
}

/// The playback queue is refilled up to this many samples.
pub fn playback_target_samples(config: JitterConfig, output_frame_samples: usize) -> (n: usize)
    requires
        config.playback_queue_target_frames * output_frame_samples <= usize::MAX,
    ensures
        n == config.playback_queue_target_frames * output_frame_samples,
{
    config.playback_queue_target_frames * output_frame_samples
}

/// Whether the metrics are reported after the `count`-th refill: the first
/// and every hundredth.
pub fn should_emit_metrics(count: u64) -> (emit: bool)
    ensures
        emit == (count == 1 || count % 100 == 0),
{
    count == 1 || count % 100 == 0
}

/// Whether the output may be reopened at `now_ms` after a backend fault,
/// the last attempt having been at `last_attempt_ms`: at most once a second.
pub fn restart_due(now_ms: u64, last_attempt_ms: u64) -> (due: bool)
    ensures
        due == ((if now_ms >= last_attempt_ms {
            now_ms - last_attempt_ms
        } else {
            0
        }) >= 1000),
{
    now_ms.saturating_sub(last_attempt_ms) >= 1000
}

/// Whole frames in the playback queue.
pub fn audio_queue_frames(buffered_samples: usize, output_frame_samples: usize) -> (frames: usize)
    ensures
        frames as nat == buffered_samples as nat / (if output_frame_samples < 1 {
            1nat
        } else {
            output_frame_samples as nat
        }),
{
    let per_frame = if output_frame_samples < 1 {
        1
    } else {
        output_frame_samples
    };
    buffered_samples / per_frame
}

/// The metrics of a streaming receiver.  Each frame stands for 10 ms of
/// latency.
pub open spec fn receiver_metrics(
    streams: nat,
    senders: Seq<Seq<char>>,
    device_name: Seq<char>,
    network_frames: nat,
    audio_frames: nat,
    received: u64,
    played: u64,
    missing: u64,
    late: u64,
    reordered: u64,
    dropped: u64,
    underruns: u64,
) -> Seq<char> {
    let sender_text = if senders.len() == 0 {
        "none"@
    } else {
        joined(senders, ", "@)
    };
    "Mode: Receiver\nState: Streaming\nActive streams: "@ + decimal(streams) + "\nSenders: "@ + sender_text
        + "\nPlayback device: "@ + device_name + "\nFrames: received "@ + decimal(received as nat)
        + ", played "@ + decimal(played as nat) + "\nLatency estimate: "@ + decimal(
        network_frames * 10 + audio_frames * 10,
    ) + " ms total ("@ + decimal(network_frames * 10) + " ms network + "@ + decimal(audio_frames * 10)
        + " ms audio)\nNetwork buffer: "@ + decimal(network_frames) + " frames\nAudio queue: "@ + decimal(
        audio_frames,
    ) + " frames\nLoss: missing "@ + decimal(missing as nat) + ", late "@ + decimal(late as nat)
        + ", reordered "@ + decimal(reordered as nat) + ", dropped "@ + decimal(dropped as nat)
        + ", underruns "@ + decimal(underruns as nat)
}

fn push_decimal(text: &mut String, n: u64)
    ensures
        final(text)@ == old(text)@ + decimal(n as nat),
{
    let d = decimal_string(n);
    push_str(text, d.as_str());
}

/// The metrics of a streaming receiver with these totals, playing on
/// `device_name` with `audio_queue_frames` frames queued.
pub fn receiver_metrics_summary(totals: &ReceiverTotals, device_name: &str, audio_queue_frames: usize) -> (text:
    String)
    requires
        totals.network_frames * 10 + audio_queue_frames * 10 <= u64::MAX,
    ensures
        text@ == receiver_metrics(
            totals.streams as nat,
            views(totals.sender_names@),
            device_name@,
            totals.network_frames as nat,
            audio_queue_frames as nat,
            totals.received,
            totals.played,
            totals.missing,
            totals.late,
            totals.reordered,
            totals.dropped,
            totals.underruns,
        ),
{
    let network = totals.network_frames as u64;
    let audio = audio_queue_frames as u64;
    let mut text = string_of("Mode: Receiver\nState: Streaming\nActive streams: ");
    push_decimal(&mut text, totals.streams as u64);
    push_str(&mut text, "\nSenders: ");
    if totals.sender_names.len() == 0 {
        push_str(&mut text, "none");
    } else {
        let names = join_strings(&totals.sender_names, ", ");
        push_str(&mut text, names.as_str());
    }
    push_str(&mut text, "\nPlayback device: ");
    push_str(&mut text, device_name);
    push_str(&mut text, "\nFrames: received ");
    push_decimal(&mut text, totals.received);
    push_str(&mut text, ", played ");
    push_decimal(&mut text, totals.played);
    push_str(&mut text, "\nLatency estimate: ");
    push_decimal(&mut text, network * 10 + audio * 10);
    push_str(&mut text, " ms total (");
    push_decimal(&mut text, network * 10);
    push_str(&mut text, " ms network + ");
    push_decimal(&mut text, audio * 10);
    push_str(&mut text, " ms audio)\nNetwork buffer: ");
    push_decimal(&mut text, network);
    push_str(&mut text, " frames\nAudio queue: ");
    push_decimal(&mut text, audio);
    push_str(&mut text, " frames\nLoss: missing ");
    push_decimal(&mut text, totals.missing);
    push_str(&mut text, ", late ");
    push_decimal(&mut text, totals.late);
    push_str(&mut text, ", reordered ");
    push_decimal(&mut text, totals.reordered);
    push_str(&mut text, ", dropped ");
    push_decimal(&mut text, totals.dropped);
    push_str(&mut text, ", underruns ");
    push_decimal(&mut text, totals.underruns);
    assert(views(totals.sender_names@).len() == totals.sender_names@.len());
    text
}

} // verus!

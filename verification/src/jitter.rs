//! The receiver's per-stream jitter buffer: frames arrive out of order and
//! are played back in sequence once enough of them are buffered, with
//! concealment of missing frames and rebuffering after sustained loss.
use crate::packet::SessionCipher;
use std::collections::BTreeMap;
use vstd::prelude::*;
use vstd::wrapping::u64_specs::wrapping_add;

verus! {

broadcast use {vstd::std_specs::btree::group_btree_axioms, vstd::laws_cmp::group_laws_cmp};

/// The smallest jitter target the buffer shrinks to.
pub const JITTER_BUFFER_MIN_TARGET_FRAMES: usize = 2;

/// The most frames a stream keeps buffered.
pub const JITTER_BUFFER_MAX_FRAMES: usize = 160;

/// Missing frames in a row after which the stream rebuffers.
pub const CONSECUTIVE_MISSING_REBUFFER_THRESHOLD: u64 = 4;

/// Played frames without loss after which the jitter target may shrink.
pub const STABLE_FRAMES_BEFORE_SHRINK: u64 = 250;

/// Tuning of the jitter buffer and playback queue, which differs by platform.
#[derive(Clone, Copy, Debug)]
pub struct JitterConfig {
    pub default_target_frames: usize,
    pub max_target_frames: usize,
    pub playback_queue_target_frames: usize,
    pub playback_queue_low_water_frames: usize,
}

impl JitterConfig {
    /// The tuning used on Linux, whose audio stack needs deeper buffers.
    pub fn linux() -> (config: Self)
        ensures
            config.default_target_frames == 6,
            config.max_target_frames == 16,
            config.playback_queue_target_frames == 6,
            config.playback_queue_low_water_frames == 3,
    {
        JitterConfig {
            default_target_frames: 6,
            max_target_frames: 16,
            playback_queue_target_frames: 6,
            playback_queue_low_water_frames: 3,
        }
    }

    /// The tuning used on every other platform.
    pub fn standard() -> (config: Self)
        ensures
            config.default_target_frames == 4,
            config.max_target_frames == 12,
            config.playback_queue_target_frames == 3,
            config.playback_queue_low_water_frames == 1,
    {
        JitterConfig {
            default_target_frames: 4,
            max_target_frames: 12,
            playback_queue_target_frames: 3,
            playback_queue_low_water_frames: 1,
        }
    }

    /// The jitter targets are ordered: minimum, default, maximum.
    pub open spec fn wf(self) -> bool {
        &&& JITTER_BUFFER_MIN_TARGET_FRAMES <= self.default_target_frames
        &&& self.default_target_frames <= self.max_target_frames
        &&& self.max_target_frames <= JITTER_BUFFER_MAX_FRAMES
    }
}

/// A one-line event of a stream that the receiver reports.
#[derive(Clone, Copy, Debug, PartialEq, Eq)]
pub enum StreamNotice {
    /// The jitter buffer filled up to its target and playback starts.
    JitterPrimed { frames: usize },
    /// Sustained loss: playback pauses until the buffer refills to the new target.
    Rebuffering { target_frames: usize },
}

/// The state of one sender's stream at the receiver.
pub struct ReceiverStreamState {
    pub stream_id: u64,
    pub sender_name: String,
    pub sample_rate_hz: u32,
    pub session_cipher: SessionCipher,
    pub config: JitterConfig,
    pub buffered_frames: BTreeMap<u64, Vec<i16>>,
    pub next_play_sequence: Option<u64>,
    pub jitter_primed: bool,
    pub jitter_target_frames: usize,
    pub stable_played_frames: u64,
    pub depth_samples: u64,
    pub depth_sum: u64,
    pub last_good_output: Vec<i16>,
    pub consecutive_missing_frames: u64,
    pub received_frames: u64,
    pub played_frames: u64,
    pub dropped_frames: u64,
    pub underrun_frames: u64,
    pub late_packets: u64,
    pub reordered_packets: u64,
    pub missing_packets: u64,
    pub highest_received_sequence: Option<u64>,
    pub disconnect_requested: bool,
    /// When the last packet arrived, in milliseconds of the receiver's clock.
    pub last_packet_at_ms: u64,
}

/// The part of a stream's state that playback changes.
pub struct StreamView {
    pub buffered: Map<u64, Vec<i16>>,
    pub next_play: Option<u64>,
    pub primed: bool,
    pub target: usize,
    pub stable: u64,
    pub depth_samples: u64,
    pub depth_sum: u64,
    pub last_good: Seq<i16>,
    pub consecutive_missing: u64,
    pub received: u64,
    pub played: u64,
    pub dropped: u64,
    pub underrun: u64,
    pub late: u64,
    pub reordered: u64,
    pub missing: u64,
    pub highest: Option<u64>,
    pub disconnect_requested: bool,
    pub last_packet_at_ms: u64,
}

impl View for ReceiverStreamState {
    type V = StreamView;

    open spec fn view(&self) -> StreamView {
        StreamView {
            buffered: self.buffered_frames@,
            next_play: self.next_play_sequence,
            primed: self.jitter_primed,
            target: self.jitter_target_frames,
            stable: self.stable_played_frames,
            depth_samples: self.depth_samples,
            depth_sum: self.depth_sum,
            last_good: self.last_good_output@,
            consecutive_missing: self.consecutive_missing_frames,
            received: self.received_frames,
            played: self.played_frames,
            dropped: self.dropped_frames,
            underrun: self.underrun_frames,
            late: self.late_packets,
            reordered: self.reordered_packets,
            missing: self.missing_packets,
            highest: self.highest_received_sequence,
            disconnect_requested: self.disconnect_requested,
            last_packet_at_ms: self.last_packet_at_ms,
        }
    }
}

/// `x + 1`, wrapping at `u64::MAX`.
pub open spec fn inc(x: u64) -> u64 {
    wrapping_add(x, 1)
}

/// `k` is the smallest key of `m`.
pub open spec fn is_min_key(m: Map<u64, Vec<i16>>, k: u64) -> bool {
    m.contains_key(k) && forall|j: u64| m.contains_key(j) ==> k <= j
}

/// The smallest key of a non-empty map.
pub open spec fn min_key(m: Map<u64, Vec<i16>>) -> u64 {
    choose|k: u64| is_min_key(m, k)
}

/// A key that is the least of the map is the one `min_key` names.
pub proof fn lemma_min_key_unique(m: Map<u64, Vec<i16>>, k: u64)
    requires
        is_min_key(m, k),
    ensures
        min_key(m) == k,
{
    let c = min_key(m);
    assert(is_min_key(m, c));
}

/// `v` extended with zeros or cut to `len` samples.
pub open spec fn resized(v: Seq<i16>, len: nat) -> Seq<i16> {
    Seq::new(len, |i: int| if i < v.len() { v[i] } else { 0i16 })
}

/// `len` zero samples.
pub open spec fn silence(len: nat) -> Seq<i16> {
    Seq::new(len, |i: int| 0i16)
}

impl StreamView {
    /// What every operation keeps: a bounded buffer, a jitter target within
    /// its limits, and fewer consecutive misses than the rebuffer threshold.
    pub open spec fn wf(self, config: JitterConfig) -> bool {
        &&& config.wf()
        &&& self.buffered.dom().finite()
        &&& self.buffered.len() <= JITTER_BUFFER_MAX_FRAMES
        &&& JITTER_BUFFER_MIN_TARGET_FRAMES <= self.target <= config.max_target_frames
        &&& self.consecutive_missing < CONSECUTIVE_MISSING_REBUFFER_THRESHOLD
    }
}

/// The stream after a frame arrives: `sequence` is the frame's sequence,
/// `resampled` its samples at the output rate, `out_len` the samples of one
/// output frame and `now` the arrival time.
pub open spec fn receive_view(
    v: StreamView,
    sequence: u64,
    resampled: Vec<i16>,
    out_len: nat,
    now: u64,
) -> StreamView {
    let next_play = if v.next_play is None {
        Some(sequence)
    } else {
        v.next_play
    };
    let v1 = StreamView { received: inc(v.received), last_packet_at_ms: now, next_play, ..v };
    let play = next_play->0;
    if sequence < play {
        StreamView { late: inc(v1.late), ..v1 }
    } else {
        let reordered = match v1.highest {
            Some(h) => if sequence < h {
                inc(v1.reordered)
            } else {
                v1.reordered
            },
            None => v1.reordered,
        };
        let highest = match v1.highest {
            Some(h) => if h < sequence {
                sequence
            } else {
                h
            },
            None => sequence,
        };
        let v2 = StreamView { reordered, highest: Some(highest), ..v1 };
        if wrapping_add(sequence, JITTER_BUFFER_MAX_FRAMES as u64) <= play {
            StreamView { dropped: inc(v2.dropped), ..v2 }
        } else {
            let inserted = if v2.buffered.contains_key(sequence) {
                v2.buffered
            } else {
                v2.buffered.insert(sequence, resampled)
            };
            let buffered = if inserted.len() > JITTER_BUFFER_MAX_FRAMES {
                inserted.remove(min_key(inserted))
            } else {
                inserted
            };
            let dropped = if inserted.len() > JITTER_BUFFER_MAX_FRAMES {
                inc(v2.dropped)
            } else {
                v2.dropped
            };
            let primes = !v2.primed && buffered.len() >= v2.target;
            StreamView {
                buffered,
                dropped,
                next_play: if primes {
                    Some(min_key(buffered))
                } else {
                    v2.next_play
                },
                primed: v2.primed || primes,
                last_good: if v2.last_good.len() != out_len {
                    resized(v2.last_good, out_len)
                } else {
                    v2.last_good
                },
                depth_sum: wrapping_add(v2.depth_sum, buffered.len() as u64),
                depth_samples: inc(v2.depth_samples),
                ..v2
            }
        }
    }
}

/// The stream after its next output frame is asked for, with that frame
/// (`None` while it waits for the buffer to fill) and the event to report.
pub open spec fn next_view(v: StreamView, out_len: nat, config: JitterConfig) -> (
    StreamView,
    Option<Seq<i16>>,
    Option<StreamNotice>,
) {
    if !v.primed && v.buffered.len() < v.target {
        (v, None, None)
    } else {
        let priming = !v.primed;
        let notice = if priming {
            Some(StreamNotice::JitterPrimed { frames: v.buffered.len() as usize })
        } else {
            None
        };
        let va = if priming {
            StreamView { next_play: Some(min_key(v.buffered)), primed: true, ..v }
        } else {
            v
        };
        let play = match va.next_play {
            Some(p) => p,
            None => 0,
        };
        let vb = StreamView { next_play: Some(play), ..va };
        if vb.buffered.contains_key(play) {
            let samples = vb.buffered[play]@;
            let vc = StreamView {
                buffered: vb.buffered.remove(play),
                last_good: samples,
                consecutive_missing: 0,
                ..vb
            };
            advance(vc, samples, notice)
        } else if vb.buffered.len() > 0 {
            let first = min_key(vb.buffered);
            if first > play {
                let consecutive = (vb.consecutive_missing + 1) as u64;
                let target = if vb.target < config.max_target_frames {
                    (vb.target + 1) as usize
                } else {
                    vb.target
                };
                let vc = StreamView {
                    missing: inc(vb.missing),
                    underrun: inc(vb.underrun),
                    consecutive_missing: consecutive,
                    target,
                    stable: 0,
                    ..vb
                };
                if consecutive >= CONSECUTIVE_MISSING_REBUFFER_THRESHOLD {
                    (
                        StreamView {
                            primed: false,
                            consecutive_missing: 0,
                            next_play: Some(first),
                            ..vc
                        },
                        None,
                        Some(StreamNotice::Rebuffering { target_frames: target }),
                    )
                } else {
                    let out = if consecutive <= 2 {
                        vc.last_good
                    } else {
                        silence(out_len)
                    };
                    advance(vc, out, notice)
                }
            } else {
                (vb, None, notice)
            }
        } else {
            let consecutive = (vb.consecutive_missing + 1) as u64;
            let vc = StreamView {
                underrun: inc(vb.underrun),
                consecutive_missing: consecutive,
                ..vb
            };
            if consecutive >= CONSECUTIVE_MISSING_REBUFFER_THRESHOLD {
                (StreamView { primed: false, consecutive_missing: 0, ..vc }, None, notice)
            } else {
                let out = if consecutive <= 2 && vc.last_good.len() > 0 {
                    vc.last_good
                } else {
                    silence(out_len)
                };
                advance(vc, out, notice)
            }
        }
    }
}

/// Moves playback on by one frame after `out` was produced, shrinking the
/// jitter target after a long stretch without loss.
pub open spec fn advance(v: StreamView, out: Seq<i16>, notice: Option<StreamNotice>) -> (
    StreamView,
    Option<Seq<i16>>,
    Option<StreamNotice>,
) {
    let stable = inc(v.stable);
    let shrink = stable >= STABLE_FRAMES_BEFORE_SHRINK && v.target
        > JITTER_BUFFER_MIN_TARGET_FRAMES && v.buffered.len() >= v.target;
    (
        StreamView {
            next_play: Some(inc(v.next_play->0)),
            played: inc(v.played),
            stable: if shrink {
                0
            } else {
                stable
            },
            target: if shrink {
                (v.target - 1) as usize
            } else {
                v.target
            },
            ..v
        },
        Some(out),
        notice,
    )
}

/// Primed playback moves forward one frame at a time in sequence order: when
/// a primed stream whose next frame is `p` produces output, it goes on with
/// `p + 1`; and when frame `p` is buffered, that frame is what plays, and it
/// leaves the buffer.
pub proof fn lemma_playback_in_order(v: StreamView, out_len: nat, config: JitterConfig, p: u64)
    requires
        v.primed,
        v.next_play == Some(p),
    ensures
        ({
            let (w, out, _) = next_view(v, out_len, config);
            &&& out is Some ==> w.next_play == Some(inc(p))
            &&& v.buffered.contains_key(p) ==> out == Some(v.buffered[p]@) && !w.buffered.contains_key(p)
        }),
{
}

/// Concealing an underrun: when a primed stream has nothing buffered, fewer
/// than three frames in a row have gone missing, and a frame was played
/// before, the next output frame repeats the last frame played; the miss is
/// counted and the stream goes on with the next sequence number.
pub proof fn lemma_underrun_repeats_last_frame(v: StreamView, out_len: nat, config: JitterConfig, p: u64)
    requires
        v.primed,
        v.next_play == Some(p),
        v.buffered.dom().finite(),
        v.buffered.len() == 0,
        v.consecutive_missing + 1 <= 2,
        v.last_good.len() > 0,
    ensures
        ({
            let (w, out, notice) = next_view(v, out_len, config);
            &&& out == Some(v.last_good)
            &&& notice is None
            &&& w.last_good == v.last_good
            &&& w.consecutive_missing == v.consecutive_missing + 1
            &&& w.underrun == inc(v.underrun)
            &&& w.next_play == Some(inc(p))
            &&& w.primed
        }),
{
    assert(!v.buffered.contains_key(p)) by {
        if v.buffered.contains_key(p) {
            assert(v.buffered.dom().contains(p));
            vstd::set::axiom_set_contains_len(v.buffered.dom(), p);
        }
    }
}

/// A longer underrun goes quiet, then rebuffers: with nothing buffered, the
/// third frame missing in a row is silence, and the fourth pauses playback
/// (no output, the stream unprimed) until the buffer refills.
pub proof fn lemma_long_underrun_silences_then_rebuffers(v: StreamView, out_len: nat, config: JitterConfig, p: u64)
    requires
        v.primed,
        v.next_play == Some(p),
        v.buffered.dom().finite(),
        v.buffered.len() == 0,
        v.consecutive_missing == 2 || v.consecutive_missing == 3,
    ensures
        ({
            let (w, out, _) = next_view(v, out_len, config);
            &&& v.consecutive_missing == 2 ==> out is Some && out->0.len() == out_len && (forall|i: int|
                0 <= i < out_len ==> #[trigger] out->0[i] == 0i16)
            &&& v.consecutive_missing == 3 ==> out is None && !w.primed && w.consecutive_missing == 0
        }),
{
    assert(!v.buffered.contains_key(p)) by {
        if v.buffered.contains_key(p) {
            vstd::set::axiom_set_contains_len(v.buffered.dom(), p);
        }
    }
}

/// Until a stream has buffered its target number of frames it plays nothing
/// and is left as it is.
pub proof fn lemma_waits_until_primed(v: StreamView, out_len: nat, config: JitterConfig)
    requires
        !v.primed,
        v.buffered.len() < v.target,
    ensures
        next_view(v, out_len, config) == (v, None::<Seq<i16>>, None::<StreamNotice>),
{
}

/// A frame that arrives again while its first copy is still buffered does
/// not replace it.
pub proof fn lemma_duplicate_frame_keeps_first_copy(
    v: StreamView,
    sequence: u64,
    resampled: Vec<i16>,
    out_len: nat,
    now: u64,
)
    requires
        v.buffered.contains_key(sequence),
        v.buffered.dom().finite(),
        v.buffered.len() <= JITTER_BUFFER_MAX_FRAMES,
        v.next_play matches Some(p) && p <= sequence,
    ensures
        ({
            let w = receive_view(v, sequence, resampled, out_len, now);
            w.buffered.contains_key(sequence) && w.buffered[sequence] == v.buffered[sequence]
        }),
{
}

/// Playing a buffered frame makes it the frame that an underrun repeats.
pub proof fn lemma_played_frame_is_remembered(v: StreamView, out_len: nat, config: JitterConfig, p: u64)
    requires
        v.primed,
        v.next_play == Some(p),
        v.buffered.contains_key(p),
    ensures
        next_view(v, out_len, config).0.last_good == v.buffered[p]@,
        next_view(v, out_len, config).0.consecutive_missing == 0,
{
}

/// A frame older than the next one to play is counted late and never enters
/// the buffer.
pub proof fn lemma_late_frame_not_buffered(
    v: StreamView,
    sequence: u64,
    resampled: Vec<i16>,
    out_len: nat,
    now: u64,
    p: u64,
)
    requires
        v.next_play == Some(p),
        sequence < p,
    ensures
        receive_view(v, sequence, resampled, out_len, now).buffered == v.buffered,
        receive_view(v, sequence, resampled, out_len, now).late == inc(v.late),
        receive_view(v, sequence, resampled, out_len, now).received == inc(v.received),
{
}

/// `std::collections::BTreeMap::first_key_value`: the smallest key of the
/// map, or `None` when it is empty.
#[verifier::external_body]
fn first_buffered_key(frames: &BTreeMap<u64, Vec<i16>>) -> (key: Option<u64>)
    ensures
        match key {
            Some(k) => is_min_key(frames@, k),
            None => frames@.len() == 0,
        },
{
    frames.first_key_value().map(|(k, _)| *k)
}

/// Copies a sample buffer.
fn copy_samples(samples: &Vec<i16>) -> (copy: Vec<i16>)
    ensures
        copy@ == samples@,
{
    let mut copy: Vec<i16> = Vec::with_capacity(samples.len());
    let mut i: usize = 0;
    while i < samples.len()
        invariant
            i <= samples@.len(),
            copy@ == samples@.take(i as int),
        decreases samples@.len() - i,
    {
        copy.push(samples[i]);
        i += 1;
        assert(copy@ =~= samples@.take(i as int));
    }
    assert(samples@.take(samples@.len() as int) =~= samples@);
    copy
}

/// `len` zero samples.
pub fn silent_frame(len: usize) -> (frame: Vec<i16>)
    ensures
        frame@ == silence(len as nat),
{
    let mut frame: Vec<i16> = Vec::with_capacity(len);
    let mut i: usize = 0;
    while i < len
        invariant
            i <= len,
            frame@ == silence(i as nat),
        decreases len - i,
    {
        frame.push(0);
        i += 1;
        assert(frame@ =~= silence(i as nat));
    }
    frame
}

impl ReceiverStreamState {
    /// A stream that has just connected: nothing buffered, the default
    /// jitter target, and a silent last good frame of the output length.
    pub fn new(
        stream_id: u64,
        sender_name: String,
        sample_rate_hz: u32,
        session_cipher: SessionCipher,
        output_frame_samples: usize,
        config: JitterConfig,
        now_ms: u64,
    ) -> (state: Self)
        requires
            config.wf(),
        ensures
            state.stream_id == stream_id,
            state.sender_name == sender_name,
            state.sample_rate_hz == sample_rate_hz,
            state.session_cipher == session_cipher,
            state.config == config,
            state@.wf(config),
            state@ == (StreamView {
                buffered: Map::empty(),
                next_play: None,
                primed: false,
                target: config.default_target_frames,
                stable: 0,
                depth_samples: 0,
                depth_sum: 0,
                last_good: silence(output_frame_samples as nat),
                consecutive_missing: 0,
                received: 0,
                played: 0,
                dropped: 0,
                underrun: 0,
                late: 0,
                reordered: 0,
                missing: 0,
                highest: None,
                disconnect_requested: false,
                last_packet_at_ms: now_ms,
            }),
    {
        ReceiverStreamState {
            stream_id,
            sender_name,
            sample_rate_hz,
            session_cipher,
            config,
            buffered_frames: BTreeMap::new(),
            next_play_sequence: None,
            jitter_primed: false,
            jitter_target_frames: config.default_target_frames,
            stable_played_frames: 0,
            depth_samples: 0,
            depth_sum: 0,
            last_good_output: silent_frame(output_frame_samples),
            consecutive_missing_frames: 0,
            received_frames: 0,
            played_frames: 0,
            dropped_frames: 0,
            underrun_frames: 0,
            late_packets: 0,
            reordered_packets: 0,
            missing_packets: 0,
            highest_received_sequence: None,
            disconnect_requested: false,
            last_packet_at_ms: now_ms,
        }
    }

    /// The fields no playback operation changes.
    pub open spec fn same_identity(&self, other: &Self) -> bool {
        &&& self.stream_id == other.stream_id
        &&& self.sender_name == other.sender_name
        &&& self.sample_rate_hz == other.sample_rate_hz
        &&& self.session_cipher == other.session_cipher
        &&& self.config == other.config
    }

    /// After the output device changes: a silent last good frame of the new
    /// length, and the buffer has to prime again.
    pub fn reset_for_output(&mut self, output_frame_samples: usize)
        requires
            old(self)@.wf(old(self).config),
        ensures
            final(self).same_identity(old(self)),
            final(self)@ == (StreamView {
                last_good: silence(output_frame_samples as nat),
                primed: false,
                consecutive_missing: 0,
                ..old(self)@
            }),
            final(self)@.wf(final(self).config),
    {
        self.last_good_output = silent_frame(output_frame_samples);
        self.jitter_primed = false;
        self.consecutive_missing_frames = 0;
    }

    /// Takes in a frame: `sequence` is its sequence, `resampled` its samples
    /// converted to the output rate, `output_frame_samples` the samples of one
    /// output frame and `now_ms` the arrival time.
    pub fn receive_frame(
        &mut self,
        sequence: u64,
        resampled: Vec<i16>,
        output_frame_samples: usize,
        now_ms: u64,
    )
        requires
            old(self)@.wf(old(self).config),
        ensures
            final(self).same_identity(old(self)),
            final(self)@ == receive_view(
                old(self)@,
                sequence,
                resampled,
                output_frame_samples as nat,
                now_ms,
            ),
            final(self)@.wf(final(self).config),
    {
        self.received_frames = self.received_frames.wrapping_add(1);
        self.last_packet_at_ms = now_ms;
        if self.next_play_sequence.is_none() {
            self.next_play_sequence = Some(sequence);
        }
        let play_sequence = match self.next_play_sequence {
            Some(p) => p,
            None => sequence,
        };
        if sequence < play_sequence {
            self.late_packets = self.late_packets.wrapping_add(1);
            return;
        }
        match self.highest_received_sequence {
            Some(highest) => {
                if sequence < highest {
                    self.reordered_packets = self.reordered_packets.wrapping_add(1);
                }
                if highest < sequence {
                    self.highest_received_sequence = Some(sequence);
                }
            },
            None => {
                self.highest_received_sequence = Some(sequence);
            },
        }
        if sequence.wrapping_add(JITTER_BUFFER_MAX_FRAMES as u64) <= play_sequence {
            self.dropped_frames = self.dropped_frames.wrapping_add(1);
            return;
        }
        let ghost before = self.buffered_frames@;
        if self.buffered_frames.get(&sequence).is_none() {
            self.buffered_frames.insert(sequence, resampled);
        }
        let ghost inserted = self.buffered_frames@;
        assert(inserted.len() <= before.len() + 1) by {
            if !before.contains_key(sequence) {
                assert(inserted == before.insert(sequence, resampled));
            } else {
                assert(inserted == before);
            }
        }
        if self.buffered_frames.len() > JITTER_BUFFER_MAX_FRAMES {
            match first_buffered_key(&self.buffered_frames) {
                Some(oldest) => {
                    proof {
                        lemma_min_key_unique(inserted, oldest);
                    }
                    self.buffered_frames.remove(&oldest);
                    self.dropped_frames = self.dropped_frames.wrapping_add(1);
                },
                None => {},
            }
        }
        if !self.jitter_primed && self.buffered_frames.len() >= self.jitter_target_frames {
            match first_buffered_key(&self.buffered_frames) {
                Some(first) => {
                    proof {
                        lemma_min_key_unique(self.buffered_frames@, first);
                    }
                    self.next_play_sequence = Some(first);
                },
                None => {},
            }
            self.jitter_primed = true;
        }
        if self.last_good_output.len() != output_frame_samples {
            let ghost prev = self.last_good_output@;
            self.last_good_output.resize(output_frame_samples, 0);
            assert(self.last_good_output@ =~= resized(prev, output_frame_samples as nat));
        }
        self.depth_sum = self.depth_sum.wrapping_add(self.buffered_frames.len() as u64);
        self.depth_samples = self.depth_samples.wrapping_add(1);
    }

    /// The stream's next output frame, if it has one, and the event to report.
    pub fn next_samples(&mut self, output_frame_samples: usize) -> (result: (
        Option<Vec<i16>>,
        Option<StreamNotice>,
    ))
        requires
            old(self)@.wf(old(self).config),
        ensures
            final(self).same_identity(old(self)),
            final(self)@ == next_view(old(self)@, output_frame_samples as nat, old(self).config).0,
            match result.0 {
                Some(out) => next_view(old(self)@, output_frame_samples as nat, old(self).config).1
                    == Some(out@),
                None => next_view(old(self)@, output_frame_samples as nat, old(self).config).1 is None,
            },
            result.1 == next_view(old(self)@, output_frame_samples as nat, old(self).config).2,
            final(self)@.wf(final(self).config),
    {
        let ghost v = self@;
        let mut notice: Option<StreamNotice> = None;
        if !self.jitter_primed {
            if self.buffered_frames.len() >= self.jitter_target_frames {
                match first_buffered_key(&self.buffered_frames) {
                    Some(first) => {
                        proof {
                            lemma_min_key_unique(self.buffered_frames@, first);
                        }
                        self.next_play_sequence = Some(first);
                        self.jitter_primed = true;
                        notice = Some(
                            StreamNotice::JitterPrimed { frames: self.buffered_frames.len() },
                        );
                    },
                    None => {},
                }
            } else {
                return (None, None);
            }
        }
        let play = match self.next_play_sequence {
            Some(p) => p,
            None => 0,
        };
        self.next_play_sequence = Some(play);
        let ghost before_remove = self.buffered_frames@;
        let output = match self.buffered_frames.remove(&play) {
            Some(samples) => {
                self.last_good_output = copy_samples(&samples);
                self.consecutive_missing_frames = 0;
                samples
            },
            None => {
                assert(self.buffered_frames@ =~= before_remove);
                match first_buffered_key(&self.buffered_frames) {
                    Some(first) => {
                        proof {
                            lemma_min_key_unique(self.buffered_frames@, first);
                        }
                        if first > play {
                            self.missing_packets = self.missing_packets.wrapping_add(1);
                            self.underrun_frames = self.underrun_frames.wrapping_add(1);
                            self.consecutive_missing_frames = self.consecutive_missing_frames + 1;
                            if self.jitter_target_frames < self.config.max_target_frames {
                                self.jitter_target_frames = self.jitter_target_frames + 1;
                            }
                            self.stable_played_frames = 0;
                            if self.consecutive_missing_frames
                                >= CONSECUTIVE_MISSING_REBUFFER_THRESHOLD {
                                self.jitter_primed = false;
                                self.consecutive_missing_frames = 0;
                                self.next_play_sequence = Some(first);
                                return (
                                    None,
                                    Some(
                                        StreamNotice::Rebuffering {
                                            target_frames: self.jitter_target_frames,
                                        },
                                    ),
                                );
                            }
                            if self.consecutive_missing_frames <= 2 {
                                copy_samples(&self.last_good_output)
                            } else {
                                silent_frame(output_frame_samples)
                            }
                        } else {
                            return (None, notice);
                        }
                    },
                    None => {
                        self.underrun_frames = self.underrun_frames.wrapping_add(1);
                        self.consecutive_missing_frames = self.consecutive_missing_frames + 1;
                        if self.consecutive_missing_frames
                            >= CONSECUTIVE_MISSING_REBUFFER_THRESHOLD {
                            self.jitter_primed = false;
                            self.consecutive_missing_frames = 0;
                            return (None, notice);
                        }
                        if self.consecutive_missing_frames <= 2
                            && self.last_good_output.len() > 0 {
                            copy_samples(&self.last_good_output)
                        } else {
                            silent_frame(output_frame_samples)
                        }
                    },
                }
            },
        };
        self.next_play_sequence = Some(play.wrapping_add(1));
        self.played_frames = self.played_frames.wrapping_add(1);
        self.stable_played_frames = self.stable_played_frames.wrapping_add(1);
        if self.stable_played_frames >= STABLE_FRAMES_BEFORE_SHRINK && self.jitter_target_frames
            > JITTER_BUFFER_MIN_TARGET_FRAMES && self.buffered_frames.len()
            >= self.jitter_target_frames {
            self.jitter_target_frames = self.jitter_target_frames - 1;
            self.stable_played_frames = 0;
        }
        (Some(output), notice)
    }
}

} // verus!

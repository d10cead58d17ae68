//! The receiver's table of connected streams: it routes packets to their
//! stream, mixes all streams into one output frame, and forgets streams
//! that disconnected or went silent.
use crate::jitter::{next_view, receive_view, JitterConfig, ReceiverStreamState, StreamNotice};
use crate::packet::{
    audio_packet_header, decode_audio_packet_for_stream, packet_header, packet_samples,
};
use crate::proto::AudioFrame;
use vstd::prelude::*;

verus! {

broadcast use {vstd::std_specs::btree::group_btree_axioms, vstd::laws_cmp::group_laws_cmp};

/// Milliseconds without a packet after which a stream is dropped.
pub const STREAM_IDLE_TIMEOUT_MS: u64 = 10_000;

/// A stream's event, with the sender it concerns.
#[derive(Clone, Debug)]
pub struct StreamEvent {
    pub sender_name: String,
    pub notice: StreamNotice,
}

/// What an incoming packet is.
#[derive(Debug)]
pub enum PacketOutcome {
    /// Shorter than the packet header.
    MalformedHeader,
    /// For a stream that is not connected.
    UnknownStream { stream_id: u64 },
    /// For a connected stream, but it does not authenticate or its frame is malformed.
    MalformedFrame { stream_id: u64 },
    /// A frame for a connected stream, with that stream's sample rate.
    Frame { stream_id: u64, sample_rate_hz: u32, frame: AudioFrame },
}

/// Sums over all streams, for the receiver's metrics.
#[derive(Clone, Debug)]
pub struct ReceiverTotals {
    pub streams: usize,
    pub sender_names: Vec<String>,
    pub network_frames: usize,
    pub received: u64,
    pub played: u64,
    pub missing: u64,
    pub late: u64,
    pub reordered: u64,
    pub dropped: u64,
    pub underruns: u64,
}

/// Every stream is well formed and no two share a stream id.
pub open spec fn streams_wf(s: Seq<ReceiverStreamState>) -> bool {
    &&& forall|i: int| 0 <= i < s.len() ==> (#[trigger] s[i])@.wf(s[i].config)
    &&& forall|i: int, j: int|
        0 <= i < j < s.len() ==> (#[trigger] s[i]).stream_id != (#[trigger] s[j]).stream_id
}

/// The frame a stream contributes to the next mix.
pub open spec fn stream_output(s: ReceiverStreamState, out_len: nat) -> Option<Seq<i16>> {
    next_view(s@, out_len, s.config).1
}

/// The outputs of all streams, in table order.
pub open spec fn stream_outputs(s: Seq<ReceiverStreamState>, out_len: nat) -> Seq<
    Option<Seq<i16>>,
> {
    Seq::new(s.len(), |k: int| stream_output(s[k], out_len))
}

/// Sample `i` summed over the streams that produce a frame (a frame shorter
/// than `i` contributes nothing).
pub open spec fn mix_sum(outs: Seq<Option<Seq<i16>>>, i: int) -> int
    decreases outs.len(),
{
    if outs.len() == 0 {
        0
    } else {
        mix_sum(outs.drop_last(), i) + match outs.last() {
            Some(o) => if 0 <= i < o.len() {
                o[i] as int
            } else {
                0
            },
            None => 0,
        }
    }
}

/// How many streams produce a frame.
pub open spec fn active_count(outs: Seq<Option<Seq<i16>>>) -> nat
    decreases outs.len(),
{
    if outs.len() == 0 {
        0
    } else {
        active_count(outs.drop_last()) + if outs.last() is Some {
            1nat
        } else {
            0nat
        }
    }
}

/// Integer division rounding toward zero.
pub open spec fn trunc_div(a: int, n: int) -> int {
    if a >= 0 {
        a / n
    } else {
        -((-a) / n)
    }
}

/// `x` limited to the range of `i16`.
pub open spec fn clamp_i16(x: int) -> i16 {
    if x < i16::MIN {
        i16::MIN
    } else if x > i16::MAX {
        i16::MAX
    } else {
        x as i16
    }
}

/// The mixed frame: each sample is the average of the active streams'
/// samples, rounded toward zero.
pub open spec fn mixed_frame(outs: Seq<Option<Seq<i16>>>, out_len: nat) -> Seq<i16> {
    Seq::new(out_len, |i: int| clamp_i16(trunc_div(mix_sum(outs, i), active_count(outs) as int)))
}

/// With one stream producing a frame, each sample sums to that stream's.
pub proof fn lemma_mix_sum_one(outs: Seq<Option<Seq<i16>>>, k: int, i: int)
    requires
        0 <= k < outs.len(),
        outs[k] is Some,
        forall|j: int| 0 <= j < outs.len() && j != k ==> outs[j] is None,
    ensures
        mix_sum(outs, i) == (if 0 <= i < outs[k]->0.len() {
            outs[k]->0[i] as int
        } else {
            0
        }),
        active_count(outs) == 1,
    decreases outs.len(),
{
    let init = outs.drop_last();
    if k == outs.len() - 1 {
        lemma_mix_sum_none(init, i);
    } else {
        assert forall|j: int| 0 <= j < init.len() && j != k implies init[j] is None by {
            assert(init[j] == outs[j]);
        }
        lemma_mix_sum_one(init, k, i);
    }
}

/// Streams that produce no frame add nothing to the mix.
pub proof fn lemma_mix_sum_none(outs: Seq<Option<Seq<i16>>>, i: int)
    requires
        forall|j: int| 0 <= j < outs.len() ==> outs[j] is None,
    ensures
        mix_sum(outs, i) == 0,
        active_count(outs) == 0,
    decreases outs.len(),
{
    if outs.len() > 0 {
        let init = outs.drop_last();
        assert forall|j: int| 0 <= j < init.len() implies init[j] is None by {
            assert(init[j] == outs[j]);
        }
        lemma_mix_sum_none(init, i);
    }
}

/// A single sender plays through the mix unchanged: when only one stream
/// produces a frame of the output length, the mixed frame is that frame.
pub proof fn lemma_mix_of_one_stream(outs: Seq<Option<Seq<i16>>>, k: int, out_len: nat)
    requires
        0 <= k < outs.len(),
        outs[k] is Some,
        outs[k]->0.len() == out_len,
        forall|j: int| 0 <= j < outs.len() && j != k ==> outs[j] is None,
    ensures
        mixed_frame(outs, out_len) == outs[k]->0,
{
    assert forall|i: int| 0 <= i < out_len implies #[trigger] mixed_frame(outs, out_len)[i] == outs[k]->0[i] by {
        lemma_mix_sum_one(outs, k, i);
    }
    assert(mixed_frame(outs, out_len) =~= outs[k]->0);
}

/// When every stream that produces a frame produces the same frame `f`,
/// each sample sums to `f`'s sample once per such stream.
proof fn lemma_mix_sum_uniform(outs: Seq<Option<Seq<i16>>>, f: Seq<i16>, i: int)
    requires
        0 <= i < f.len(),
        forall|j: int| 0 <= j < outs.len() && (#[trigger] outs[j]) is Some ==> outs[j]->0 == f,
    ensures
        mix_sum(outs, i) == active_count(outs) * (f[i] as int),
    decreases outs.len(),
{
    if outs.len() > 0 {
        let init = outs.drop_last();
        assert forall|j: int| 0 <= j < init.len() && (#[trigger] init[j]) is Some implies init[j]->0 == f by {
            assert(init[j] == outs[j]);
        }
        lemma_mix_sum_uniform(init, f, i);
        let c = active_count(init) as int;
        let x = f[i] as int;
        assert((c + 1) * x == c * x + x) by (nonlinear_arith);
        let last = outs[outs.len() - 1];
        assert(outs.last() == last);
        if last is Some {
            assert(last->0 == f);
            assert(mix_sum(outs, i) == mix_sum(init, i) + x);
            assert(active_count(outs) == c + 1);
        } else {
            assert(mix_sum(outs, i) == mix_sum(init, i));
            assert(active_count(outs) == c);
        }
    } else {
        assert(0 * (f[i] as int) == 0);
    }
}

/// Mixing averages over the active streams: when `k >= 1` streams produce a
/// frame and all produce the same frame `f` of the output length, the mix
/// is `f`, whatever `k` is.
pub proof fn lemma_mix_of_equal_streams(outs: Seq<Option<Seq<i16>>>, f: Seq<i16>, out_len: nat)
    requires
        f.len() == out_len,
        exists|k: int| 0 <= k < outs.len() && (#[trigger] outs[k]) is Some,
        forall|j: int| 0 <= j < outs.len() && (#[trigger] outs[j]) is Some ==> outs[j]->0 == f,
    ensures
        mixed_frame(outs, out_len) == f,
{
    let k = choose|k: int| 0 <= k < outs.len() && (#[trigger] outs[k]) is Some;
    lemma_active_count_positive(outs, k);
    let c = active_count(outs) as int;
    assert forall|i: int| 0 <= i < out_len implies #[trigger] mixed_frame(outs, out_len)[i] == f[i] by {
        lemma_mix_sum_uniform(outs, f, i);
        let x = f[i] as int;
        if x >= 0 {
            vstd::arithmetic::div_mod::lemma_div_multiples_vanish(x, c);
            assert(c * x >= 0) by (nonlinear_arith)
                requires
                    c >= 1,
                    x >= 0,
            ;
        } else {
            vstd::arithmetic::div_mod::lemma_div_multiples_vanish(-x, c);
            assert(c * x < 0 && -(c * x) == c * (-x)) by (nonlinear_arith)
                requires
                    c >= 1,
                    x < 0,
            ;
        }
    }
    assert(mixed_frame(outs, out_len) =~= f);
}

/// A stream that produces a frame counts as active.
proof fn lemma_active_count_positive(outs: Seq<Option<Seq<i16>>>, k: int)
    requires
        0 <= k < outs.len(),
        outs[k] is Some,
    ensures
        active_count(outs) >= 1,
    decreases outs.len(),
{
    if k < outs.len() - 1 {
        assert(outs.drop_last()[k] == outs[k]);
        lemma_active_count_positive(outs.drop_last(), k);
    }
}

/// The events of the streams, in table order.
pub open spec fn stream_events(s: Seq<ReceiverStreamState>, out_len: nat) -> Seq<
    (Seq<char>, StreamNotice),
>
    decreases s.len(),
{
    if s.len() == 0 {
        Seq::empty()
    } else {
        let last = s.last();
        stream_events(s.drop_last(), out_len) + match next_view(last@, out_len, last.config).2 {
            Some(n) => seq![(last.sender_name@, n)],
            None => Seq::empty(),
        }
    }
}

/// The stream must be kept: it has not finished draining after a disconnect
/// and its last packet is recent.
pub open spec fn stream_is_live(s: ReceiverStreamState, now_ms: u64) -> bool {
    !(s.disconnect_requested && s.buffered_frames@.len() == 0 && !s.jitter_primed) && (if now_ms
        >= s.last_packet_at_ms {
        now_ms - s.last_packet_at_ms
    } else {
        0
    }) < STREAM_IDLE_TIMEOUT_MS
}

/// A stream whose sender disconnected is still kept while it has frames to
/// play out (frames buffered, or playback primed) and its last packet is
/// less than ten seconds old; one that has drained, or that has been silent
/// for ten seconds, is forgotten.
pub proof fn lemma_retain_keeps_draining_streams(streams: Seq<ReceiverStreamState>, k: int, now_ms: u64)
    requires
        0 <= k < streams.len(),
    ensures
        ({
            let s = streams[k];
            let idle = if now_ms >= s.last_packet_at_ms {
                now_ms - s.last_packet_at_ms
            } else {
                0
            };
            let kept = streams.filter(|t: ReceiverStreamState| stream_is_live(t, now_ms));
            &&& (s.buffered_frames@.len() > 0 || s.jitter_primed) && idle < 10_000 ==> kept.contains(s)
            &&& (!s.disconnect_requested && idle < 10_000 ==> kept.contains(s))
            &&& (s.disconnect_requested && s.buffered_frames@.len() == 0 && !s.jitter_primed) || idle
                >= 10_000 ==> !stream_is_live(s, now_ms)
        }),
{
    let pred = |t: ReceiverStreamState| stream_is_live(t, now_ms);
    if pred(streams[k]) {
        streams.lemma_filter_contains(pred, k);
    }
}

/// Frames buffered over all streams, wrapping at `usize::MAX`.
pub open spec fn buffered_total(s: Seq<ReceiverStreamState>) -> usize
    decreases s.len(),
{
    if s.len() == 0 {
        0
    } else {
        vstd::wrapping::usize_specs::wrapping_add(
            buffered_total(s.drop_last()),
            s.last().buffered_frames@.len() as usize,
        )
    }
}

/// A counter summed over all streams, wrapping at `u64::MAX`.
pub open spec fn counter_total(
    s: Seq<ReceiverStreamState>,
    counter: spec_fn(ReceiverStreamState) -> u64,
) -> u64
    decreases s.len(),
{
    if s.len() == 0 {
        0
    } else {
        vstd::wrapping::u64_specs::wrapping_add(
            counter_total(s.drop_last(), counter),
            counter(s.last()),
        )
    }
}

/// Filtering keeps elements in their order: two positions of the filtered
/// sequence come from two distinct increasing positions of the unfiltered one.
pub proof fn lemma_filter_ordered(
    s: Seq<ReceiverStreamState>,
    pred: spec_fn(ReceiverStreamState) -> bool,
    a: int,
    b: int,
)
    requires
        streams_wf(s),
        0 <= a < b < s.filter(pred).len(),
    ensures
        s.filter(pred)[a].stream_id != s.filter(pred)[b].stream_id,
    decreases s.len(),
{
    reveal_with_fuel(Seq::<_>::filter, 1);
    let init = s.drop_last();
    assert(streams_wf(init)) by {
        assert forall|i: int, j: int|
            0 <= i < j < init.len() implies (#[trigger] init[i]).stream_id
            != (#[trigger] init[j]).stream_id by {
            assert(init[i] == s[i] && init[j] == s[j]);
        }
        assert forall|i: int| 0 <= i < init.len() implies (#[trigger] init[i])@.wf(init[i].config) by {
            assert(init[i] == s[i]);
        }
    }
    let f = s.filter(pred);
    let fi = init.filter(pred);
    if pred(s.last()) {
        assert(f == fi.push(s.last()));
        if b < fi.len() {
            lemma_filter_ordered(init, pred, a, b);
            assert(f[a] == fi[a] && f[b] == fi[b]);
        } else {
            let x = fi[a];
            assert(fi.contains(x));
            init.lemma_filter_contains_rev(pred, x);
            assert(init.contains(x));
            let p = choose|p: int| 0 <= p < init.len() && init[p] == x;
            assert(s[p] == x);
            assert(s[p].stream_id != s[s.len() - 1].stream_id);
        }
    } else {
        assert(f == fi);
        lemma_filter_ordered(init, pred, a, b);
    }
}

/// The sum of the streams' samples at a position lies within the sample
/// range times the number of streams that produced a frame.
pub proof fn lemma_mix_sum_bound(outs: Seq<Option<Seq<i16>>>, i: int)
    ensures
        -32768 * active_count(outs) <= mix_sum(outs, i) <= 32767 * active_count(outs),
    decreases outs.len(),
{
    if outs.len() > 0 {
        lemma_mix_sum_bound(outs.drop_last(), i);
    }
}

/// The connected streams of a receiver.
pub struct ReceiverStreams {
    pub streams: Vec<ReceiverStreamState>,
}

impl ReceiverStreams {
    pub fn new() -> (table: Self)
        ensures
            table.streams@ == Seq::<ReceiverStreamState>::empty(),
            streams_wf(table.streams@),
    {
        ReceiverStreams { streams: Vec::new() }
    }

    pub fn len(&self) -> (n: usize)
        ensures
            n == self.streams@.len(),
    {
        self.streams.len()
    }

    /// The position of the stream with `stream_id`.
    pub fn position(&self, stream_id: u64) -> (index: Option<usize>)
        ensures
            match index {
                Some(i) => i < self.streams@.len() && self.streams@[i as int].stream_id == stream_id,
                None => forall|i: int|
                    0 <= i < self.streams@.len() ==> self.streams@[i].stream_id != stream_id,
            },
    {
        let mut i: usize = 0;
        while i < self.streams.len()
            invariant
                i <= self.streams@.len(),
                forall|j: int| 0 <= j < i ==> self.streams@[j].stream_id != stream_id,
            decreases self.streams@.len() - i,
        {
            if self.streams[i].stream_id == stream_id {
                return Some(i);
            }
            i += 1;
        }
        None
    }

    /// Adds a newly connected stream, replacing one with the same stream id.
    pub fn insert(&mut self, state: ReceiverStreamState)
        requires
            streams_wf(old(self).streams@),
            state@.wf(state.config),
        ensures
            streams_wf(final(self).streams@),
            match old(self).position_spec(state.stream_id) {
                Some(i) => final(self).streams@ == old(self).streams@.update(i, state),
                None => final(self).streams@ == old(self).streams@.push(state),
            },
    {
        match self.position(state.stream_id) {
            Some(i) => {
                proof {
                    old(self).lemma_position_spec(i as int);
                }
                self.streams.set(i, state);
            },
            None => {
                proof {
                    old(self).lemma_position_spec_none();
                }
                self.streams.push(state);
            },
        }
    }

    /// The position of the stream with `stream_id`, if connected.
    pub open spec fn position_spec(&self, stream_id: u64) -> Option<int> {
        if exists|i: int| 0 <= i < self.streams@.len() && self.streams@[i].stream_id == stream_id {
            Some(
                choose|i: int| 0 <= i < self.streams@.len() && self.streams@[i].stream_id == stream_id,
            )
        } else {
            None
        }
    }

    proof fn lemma_position_spec(&self, i: int)
        requires
            streams_wf(self.streams@),
            0 <= i < self.streams@.len(),
        ensures
            self.position_spec(self.streams@[i].stream_id) == Some(i),
    {
        let id = self.streams@[i].stream_id;
        let c = choose|j: int| 0 <= j < self.streams@.len() && self.streams@[j].stream_id == id;
        assert(0 <= c < self.streams@.len() && self.streams@[c].stream_id == id);
        if c < i {
            assert(self.streams@[c].stream_id != self.streams@[i].stream_id);
        } else if c > i {
            assert(self.streams@[i].stream_id != self.streams@[c].stream_id);
        }
    }

    proof fn lemma_position_spec_none(&self)
        ensures
            forall|id: u64|
                (forall|i: int| 0 <= i < self.streams@.len() ==> self.streams@[i].stream_id != id)
                    ==> self.position_spec(id) is None,
    {
    }

    /// Marks a stream as disconnected; it is removed once it has drained.
    /// Gives back its sender's name when the stream is connected.
    pub fn mark_disconnected(&mut self, stream_id: u64) -> (sender: Option<String>)
        requires
            streams_wf(old(self).streams@),
        ensures
            streams_wf(final(self).streams@),
            final(self).streams@.len() == old(self).streams@.len(),
            match old(self).position_spec(stream_id) {
                Some(i) => {
                    &&& sender matches Some(name) && name@ == old(self).streams@[i].sender_name@
                    &&& final(self).streams@[i].same_identity(&old(self).streams@[i])
                    &&& final(self).streams@[i]@ == (crate::jitter::StreamView {
                        disconnect_requested: true,
                        ..old(self).streams@[i]@
                    })
                    &&& forall|j: int|
                        0 <= j < old(self).streams@.len() && j != i ==> final(self).streams@[j]
                            == old(self).streams@[j]
                },
                None => sender is None && final(self).streams@ == old(self).streams@,
            },
    {
        match self.position(stream_id) {
            Some(i) => {
                proof {
                    old(self).lemma_position_spec(i as int);
                }
                let mut stream = self.streams.remove(i);
                stream.disconnect_requested = true;
                let name = stream.sender_name.clone();
                self.streams.insert(i, stream);
                proof {
                    assert forall|a: int, b: int|
                        0 <= a < b < self.streams@.len() implies (#[trigger] self.streams@[a]).stream_id
                        != (#[trigger] self.streams@[b]).stream_id by {
                        assert(self.streams@[a].stream_id == old(self).streams@[a].stream_id);
                        assert(self.streams@[b].stream_id == old(self).streams@[b].stream_id);
                    }
                    assert forall|a: int| 0 <= a < self.streams@.len() implies (#[trigger] self.streams@[a])@.wf(
                        self.streams@[a].config,
                    ) by {
                        if a != i {
                            assert(self.streams@[a] == old(self).streams@[a]);
                        }
                    }
                }
                Some(name)
            },
            None => {
                proof {
                    old(self).lemma_position_spec_none();
                }
                None
            },
        }
    }

    /// Reads a packet's header, finds its stream and decrypts it with that
    /// stream's cipher.
    pub fn decode_packet(&self, bytes: &[u8]) -> (outcome: PacketOutcome)
        requires
            streams_wf(self.streams@),
        ensures
            match packet_header(bytes@) {
                None => outcome is MalformedHeader,
                Some((stream_id, sequence)) => match self.position_spec(stream_id) {
                    None => outcome == (PacketOutcome::UnknownStream { stream_id }),
                    Some(i) => {
                        let s = self.streams@[i];
                        match packet_samples(s.session_cipher.key@, bytes@, sequence) {
                            None => outcome == (PacketOutcome::MalformedFrame { stream_id }),
                            Some(samples) => outcome matches PacketOutcome::Frame {
                                stream_id: id,
                                sample_rate_hz: rate,
                                frame,
                            } && id == stream_id && rate == s.sample_rate_hz && frame.sequence
                                == sequence && frame.samples@ == samples,
                        }
                    },
                },
            },
    {
        let (stream_id, sequence) = match audio_packet_header(bytes) {
            Some(h) => h,
            None => return PacketOutcome::MalformedHeader,
        };
        let i = match self.position(stream_id) {
            Some(i) => {
                proof {
                    self.lemma_position_spec(i as int);
                }
                i
            },
            None => {
                proof {
                    self.lemma_position_spec_none();
                }
                return PacketOutcome::UnknownStream { stream_id };
            },
        };
        let stream = &self.streams[i];
        match decode_audio_packet_for_stream(bytes, sequence, &stream.session_cipher) {
            Some(frame) => PacketOutcome::Frame {
                stream_id,
                sample_rate_hz: stream.sample_rate_hz,
                frame,
            },
            None => PacketOutcome::MalformedFrame { stream_id },
        }
    }

    /// Hands a frame to the stream with `stream_id`: `resampled` are its
    /// samples at the output rate.  A stream that is not connected ignores it.
    pub fn receive(
        &mut self,
        stream_id: u64,
        sequence: u64,
        resampled: Vec<i16>,
        output_frame_samples: usize,
        now_ms: u64,
    )
        requires
            streams_wf(old(self).streams@),
        ensures
            streams_wf(final(self).streams@),
            final(self).streams@.len() == old(self).streams@.len(),
            match old(self).position_spec(stream_id) {
                Some(i) => {
                    &&& final(self).streams@[i].same_identity(&old(self).streams@[i])
                    &&& final(self).streams@[i]@ == receive_view(
                        old(self).streams@[i]@,
                        sequence,
                        resampled,
                        output_frame_samples as nat,
                        now_ms,
                    )
                    &&& forall|j: int|
                        0 <= j < old(self).streams@.len() && j != i ==> final(self).streams@[j]
                            == old(self).streams@[j]
                },
                None => final(self).streams@ == old(self).streams@,
            },
    {
        match self.position(stream_id) {
            Some(i) => {
                proof {
                    old(self).lemma_position_spec(i as int);
                }
                let mut stream = self.streams.remove(i);
                stream.receive_frame(sequence, resampled, output_frame_samples, now_ms);
                self.streams.insert(i, stream);
                proof {
                    assert forall|a: int, b: int|
                        0 <= a < b < self.streams@.len() implies (#[trigger] self.streams@[a]).stream_id
                        != (#[trigger] self.streams@[b]).stream_id by {
                        assert(self.streams@[a].stream_id == old(self).streams@[a].stream_id);
                        assert(self.streams@[b].stream_id == old(self).streams@[b].stream_id);
                    }
                    assert forall|a: int| 0 <= a < self.streams@.len() implies (#[trigger] self.streams@[a])@.wf(
                        self.streams@[a].config,
                    ) by {
                        if a != i {
                            assert(self.streams@[a] == old(self).streams@[a]);
                        }
                    }
                }
            },
            None => {
                proof {
                    old(self).lemma_position_spec_none();
                }
            },
        }
    }

    /// Resets every stream for a new output device.
    pub fn reset_for_output(&mut self, output_frame_samples: usize)
        requires
            streams_wf(old(self).streams@),
        ensures
            streams_wf(final(self).streams@),
            final(self).streams@.len() == old(self).streams@.len(),
            forall|i: int|
                0 <= i < old(self).streams@.len() ==> {
                    &&& (#[trigger] final(self).streams@[i]).same_identity(&old(self).streams@[i])
                    &&& final(self).streams@[i]@ == (crate::jitter::StreamView {
                        last_good: crate::jitter::silence(output_frame_samples as nat),
                        primed: false,
                        consecutive_missing: 0,
                        ..old(self).streams@[i]@
                    })
                },
    {
        let mut old_streams: Vec<ReceiverStreamState> = Vec::new();
        std::mem::swap(&mut old_streams, &mut self.streams);
        let ghost olds = old_streams@;
        let mut updated: Vec<ReceiverStreamState> = Vec::new();
        for stream in it: old_streams
            invariant
                olds == it.seq(),
                streams_wf(olds),
                updated@.len() == it.index(),
                forall|i: int|
                    0 <= i < it.index() ==> {
                        &&& (#[trigger] updated@[i]).same_identity(&olds[i])
                        &&& updated@[i]@ == (crate::jitter::StreamView {
                            last_good: crate::jitter::silence(output_frame_samples as nat),
                            primed: false,
                            consecutive_missing: 0,
                            ..olds[i]@
                        })
                        &&& updated@[i]@.wf(updated@[i].config)
                    },
        {
            let mut s = stream;
            s.reset_for_output(output_frame_samples);
            updated.push(s);
        }
        self.streams = updated;
        assert(streams_wf(self.streams@)) by {
            assert forall|a: int, b: int|
                0 <= a < b < self.streams@.len() implies (#[trigger] self.streams@[a]).stream_id
                != (#[trigger] self.streams@[b]).stream_id by {
                assert(self.streams@[a].stream_id == olds[a].stream_id);
                assert(self.streams@[b].stream_id == olds[b].stream_id);
            }
        }
    }

    /// Mixes the next frame of every stream into one output frame: each
    /// sample is the average over the streams that produced a frame, and
    /// `None` when no stream did.  Also gives the streams' events.
    pub fn mix(&mut self, output_frame_samples: usize) -> (result: (Option<Vec<i16>>, Vec<StreamEvent>))
        requires
            streams_wf(old(self).streams@),
            old(self).streams@.len() < 65536,
        ensures
            streams_wf(final(self).streams@),
            final(self).streams@.len() == old(self).streams@.len(),
            forall|i: int|
                0 <= i < old(self).streams@.len() ==> {
                    &&& (#[trigger] final(self).streams@[i]).same_identity(&old(self).streams@[i])
                    &&& final(self).streams@[i]@ == next_view(
                        old(self).streams@[i]@,
                        output_frame_samples as nat,
                        old(self).streams@[i].config,
                    ).0
                },
            match result.0 {
                Some(frame) => active_count(
                    stream_outputs(old(self).streams@, output_frame_samples as nat),
                ) > 0 && frame@ == mixed_frame(
                    stream_outputs(old(self).streams@, output_frame_samples as nat),
                    output_frame_samples as nat,
                ),
                None => active_count(
                    stream_outputs(old(self).streams@, output_frame_samples as nat),
                ) == 0,
            },
            result.1@.map_values(|e: StreamEvent| (e.sender_name@, e.notice)) == stream_events(
                old(self).streams@,
                output_frame_samples as nat,
            ),
    {
        let ghost out_len = output_frame_samples as nat;
        let mut old_streams: Vec<ReceiverStreamState> = Vec::new();
        std::mem::swap(&mut old_streams, &mut self.streams);
        let ghost olds = old_streams@;
        let ghost outs = stream_outputs(olds, out_len);
        let mut accum: Vec<i32> = Vec::new();
        let mut z: usize = 0;
        while z < output_frame_samples
            invariant
                z <= output_frame_samples,
                accum@.len() == z,
                forall|i: int| 0 <= i < z ==> accum@[i] == 0,
            decreases output_frame_samples - z,
        {
            accum.push(0);
            z += 1;
        }
        let mut active: i32 = 0;
        let mut updated: Vec<ReceiverStreamState> = Vec::new();
        let mut events: Vec<StreamEvent> = Vec::new();
        for stream in it: old_streams
            invariant
                olds == it.seq(),
                streams_wf(olds),
                olds.len() < 65536,
                outs == stream_outputs(olds, out_len),
                out_len == output_frame_samples,
                accum@.len() == output_frame_samples,
                updated@.len() == it.index(),
                forall|i: int|
                    0 <= i < it.index() ==> {
                        &&& (#[trigger] updated@[i]).same_identity(&olds[i])
                        &&& updated@[i]@ == next_view(olds[i]@, out_len, olds[i].config).0
                        &&& updated@[i]@.wf(updated@[i].config)
                    },
                active as int == active_count(outs.take(it.index() as int)),
                active <= it.index(),
                forall|i: int|
                    0 <= i < output_frame_samples ==> #[trigger] accum@[i] as int == mix_sum(
                        outs.take(it.index() as int),
                        i,
                    ),
                events@.map_values(|e: StreamEvent| (e.sender_name@, e.notice)) == stream_events(
                    olds.take(it.index() as int),
                    out_len,
                ),
        {
            let ghost k = it.index();
            let ghost prefix = outs.take(k as int);
            proof {
                assert(outs.take(k + 1).drop_last() =~= prefix);
                assert(olds.take(k + 1).drop_last() =~= olds.take(k as int));
                assert(olds[k as int] == stream);
                lemma_mix_sum_bound(prefix, 0);
            }
            let mut s = stream;
            let (samples, notice) = s.next_samples(output_frame_samples);
            let ghost before_events = events@;
            match notice {
                Some(n) => {
                    events.push(StreamEvent { sender_name: s.sender_name.clone(), notice: n });
                },
                None => {},
            }
            proof {
                assert(events@.map_values(|e: StreamEvent| (e.sender_name@, e.notice))
                    =~= stream_events(olds.take(k + 1), out_len));
            }
            match samples {
                Some(out) => {
                    let ghost before = accum@;
                    let mut j: usize = 0;
                    while j < output_frame_samples
                        invariant
                            j <= output_frame_samples,
                            accum@.len() == output_frame_samples,
                            before.len() == output_frame_samples,
                            active as int == active_count(prefix),
                            active < 65535,
                            forall|i: int|
                                0 <= i < output_frame_samples ==> #[trigger] before[i] as int
                                    == mix_sum(prefix, i),
                            forall|i: int|
                                0 <= i < output_frame_samples ==> #[trigger] accum@[i] as int
                                    == before[i] as int + if i < j && i < out@.len() {
                                    out@[i] as int
                                } else {
                                    0
                                },
                        decreases output_frame_samples - j,
                    {
                        if j < out.len() {
                            proof {
                                lemma_mix_sum_bound(prefix, j as int);
                            }
                            let v = accum[j] + out[j] as i32;
                            accum.set(j, v);
                        }
                        j += 1;
                    }
                    active = active + 1;
                    proof {
                        assert(outs[k as int] == Some(out@));
                        assert forall|i: int|
                            0 <= i < output_frame_samples implies #[trigger] accum@[i] as int
                            == mix_sum(outs.take(k + 1), i) by {
                            assert(outs.take(k + 1).last() == Some(out@));
                        }
                        assert(outs.take(k + 1).last() == Some(out@));
                    }
                },
                None => {
                    proof {
                        assert(outs[k as int] is None);
                        assert(outs.take(k + 1).last() is None);
                        assert forall|i: int|
                            0 <= i < output_frame_samples implies #[trigger] accum@[i] as int
                            == mix_sum(outs.take(k + 1), i) by {
                            assert(outs.take(k + 1).last() is None);
                        }
                    }
                },
            }
            updated.push(s);
        }
        proof {
            assert(outs.take(olds.len() as int) =~= outs);
            assert(olds.take(olds.len() as int) =~= olds);
        }
        self.streams = updated;
        assert(streams_wf(self.streams@)) by {
            assert forall|a: int, b: int|
                0 <= a < b < self.streams@.len() implies (#[trigger] self.streams@[a]).stream_id
                != (#[trigger] self.streams@[b]).stream_id by {
                assert(self.streams@[a].stream_id == olds[a].stream_id);
                assert(self.streams@[b].stream_id == olds[b].stream_id);
            }
        }
        if active == 0 {
            return (None, events);
        }
        let mut frame: Vec<i16> = Vec::new();
        let mut i: usize = 0;
        while i < output_frame_samples
            invariant
                i <= output_frame_samples,
                active > 0,
                active as int == active_count(outs),
                accum@.len() == output_frame_samples,
                forall|x: int|
                    0 <= x < output_frame_samples ==> #[trigger] accum@[x] as int == mix_sum(outs, x),
                frame@ =~= mixed_frame(outs, out_len).take(i as int),
                out_len == output_frame_samples,
            decreases output_frame_samples - i,
        {
            let value = accum[i] / active;
            let clamped: i16 = if value < -32768 {
                -32768
            } else if value > 32767 {
                32767
            } else {
                value as i16
            };
            frame.push(clamped);
            i += 1;
        }
        proof {
            assert(mixed_frame(outs, out_len).take(output_frame_samples as int) =~= mixed_frame(
                outs,
                out_len,
            ));
        }
        (Some(frame), events)
    }

    /// Forgets the streams that finished draining after a disconnect or sent
    /// nothing for `STREAM_IDLE_TIMEOUT_MS`; the others keep their order.
    pub fn retain_live(&mut self, now_ms: u64)
        requires
            streams_wf(old(self).streams@),
        ensures
            streams_wf(final(self).streams@),
            final(self).streams@ == old(self).streams@.filter(
                |s: ReceiverStreamState| stream_is_live(s, now_ms),
            ),
    {
        let ghost pred = |s: ReceiverStreamState| stream_is_live(s, now_ms);
        let mut old_streams: Vec<ReceiverStreamState> = Vec::new();
        std::mem::swap(&mut old_streams, &mut self.streams);
        let ghost olds = old_streams@;
        let mut kept: Vec<ReceiverStreamState> = Vec::new();
        for stream in it: old_streams
            invariant
                olds == it.seq(),
                streams_wf(olds),
                pred == (|s: ReceiverStreamState| stream_is_live(s, now_ms)),
                kept@ == olds.take(it.index() as int).filter(pred),
        {
            let ghost k = it.index();
            proof {
                reveal_with_fuel(Seq::<_>::filter, 1);
                assert(olds.take(k + 1).drop_last() =~= olds.take(k as int));
                assert(olds[k as int] == stream);
            }
            let idle = if now_ms >= stream.last_packet_at_ms {
                now_ms - stream.last_packet_at_ms
            } else {
                0
            };
            let drained = stream.disconnect_requested && stream.buffered_frames.len() == 0
                && !stream.jitter_primed;
            let ghost before = kept@;
            let keep = !drained && idle < STREAM_IDLE_TIMEOUT_MS;
            assert(stream.buffered_frames.len() == stream.buffered_frames@.len());
            assert(keep == stream_is_live(stream, now_ms));
            assert(keep == pred(stream));
            if keep {
                kept.push(stream);
            }
            proof {
                reveal_with_fuel(Seq::<_>::filter, 1);
                let t = olds.take(k + 1);
                assert(t.drop_last() =~= olds.take(k as int));
                assert(t.last() == stream);
                assert(t.filter(pred) == if pred(t.last()) {
                    t.drop_last().filter(pred).push(t.last())
                } else {
                    t.drop_last().filter(pred)
                });
                assert(kept@ =~= t.filter(pred));
            }
        }
        proof {
            assert(olds.take(olds.len() as int) =~= olds);
        }
        self.streams = kept;
        proof {
            assert forall|a: int| 0 <= a < self.streams@.len() implies (#[trigger] self.streams@[a])@.wf(
                self.streams@[a].config,
            ) by {
                let x = self.streams@[a];
                assert(olds.filter(pred).contains(x));
                olds.lemma_filter_contains_rev(pred, x);
            }
            assert forall|a: int, b: int|
                0 <= a < b < self.streams@.len() implies (#[trigger] self.streams@[a]).stream_id
                != (#[trigger] self.streams@[b]).stream_id by {
                lemma_filter_ordered(olds, pred, a, b);
            }
        }
    }

    /// Sums over all streams for the receiver's metrics.  Counters add up
    /// wrapping at `u64::MAX`, buffered frames at `usize::MAX`.
    pub fn totals(&self) -> (totals: ReceiverTotals)
        requires
            streams_wf(self.streams@),
        ensures
            totals.streams == self.streams@.len(),
            totals.sender_names@.len() == self.streams@.len(),
            forall|i: int|
                0 <= i < self.streams@.len() ==> (#[trigger] totals.sender_names@[i])@
                    == self.streams@[i].sender_name@,
            totals.network_frames == buffered_total(self.streams@),
            totals.received == counter_total(self.streams@, |s: ReceiverStreamState| s.received_frames),
            totals.played == counter_total(self.streams@, |s: ReceiverStreamState| s.played_frames),
            totals.missing == counter_total(self.streams@, |s: ReceiverStreamState| s.missing_packets),
            totals.late == counter_total(self.streams@, |s: ReceiverStreamState| s.late_packets),
            totals.reordered == counter_total(
                self.streams@,
                |s: ReceiverStreamState| s.reordered_packets,
            ),
            totals.dropped == counter_total(self.streams@, |s: ReceiverStreamState| s.dropped_frames),
            totals.underruns == counter_total(
                self.streams@,
                |s: ReceiverStreamState| s.underrun_frames,
            ),
    {
        let mut names: Vec<String> = Vec::new();
        let mut network_frames: usize = 0;
        let mut received: u64 = 0;
        let mut played: u64 = 0;
        let mut missing: u64 = 0;
        let mut late: u64 = 0;
        let mut reordered: u64 = 0;
        let mut dropped: u64 = 0;
        let mut underruns: u64 = 0;
        let mut i: usize = 0;
        while i < self.streams.len()
            invariant
                i <= self.streams@.len(),
                streams_wf(self.streams@),
                names@.len() == i,
                forall|x: int| 0 <= x < i ==> (#[trigger] names@[x])@ == self.streams@[x].sender_name@,
                network_frames == buffered_total(self.streams@.take(i as int)),
                received == counter_total(
                    self.streams@.take(i as int),
                    |s: ReceiverStreamState| s.received_frames,
                ),
                played == counter_total(
                    self.streams@.take(i as int),
                    |s: ReceiverStreamState| s.played_frames,
                ),
                missing == counter_total(
                    self.streams@.take(i as int),
                    |s: ReceiverStreamState| s.missing_packets,
                ),
                late == counter_total(
                    self.streams@.take(i as int),
                    |s: ReceiverStreamState| s.late_packets,
                ),
                reordered == counter_total(
                    self.streams@.take(i as int),
                    |s: ReceiverStreamState| s.reordered_packets,
                ),
                dropped == counter_total(
                    self.streams@.take(i as int),
                    |s: ReceiverStreamState| s.dropped_frames,
                ),
                underruns == counter_total(
                    self.streams@.take(i as int),
                    |s: ReceiverStreamState| s.underrun_frames,
                ),
            decreases self.streams@.len() - i,
        {
            let s = &self.streams[i];
            proof {
                assert(self.streams@.take(i + 1).drop_last() =~= self.streams@.take(i as int));
                assert(self.streams@[i as int]@.wf(self.streams@[i as int].config));
            }
            let ghost before_names = names@;
            let name = s.sender_name.clone();
            assert(name@ == s.sender_name@);
            names.push(name);
            network_frames = network_frames.wrapping_add(s.buffered_frames.len());
            received = received.wrapping_add(s.received_frames);
            played = played.wrapping_add(s.played_frames);
            missing = missing.wrapping_add(s.missing_packets);
            late = late.wrapping_add(s.late_packets);
            reordered = reordered.wrapping_add(s.reordered_packets);
            dropped = dropped.wrapping_add(s.dropped_frames);
            underruns = underruns.wrapping_add(s.underrun_frames);
            i += 1;
        }
        proof {
            assert(self.streams@.take(self.streams@.len() as int) =~= self.streams@);
        }
        ReceiverTotals {
            streams: self.streams.len(),
            sender_names: names,
            network_frames,
            received,
            played,
            missing,
            late,
            reordered,
            dropped,
            underruns,
        }
    }
}

} // verus!

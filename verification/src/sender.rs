//! The sending side of a session: cutting captured audio into frames,
//! reporting progress, and reconnecting after a session ends.
use crate::crypto::fill_random;
use crate::proto::{AudioFrame, CHANNELS, frame_samples_per_channel, spec_frame_samples_per_channel};
use crate::settings::CaptureMode;
use crate::text::{decimal, decimal_string, lines_of, push_str, string_of, text_lines};
use vstd::bytes::*;
use vstd::prelude::*;
use std::collections::VecDeque;

verus! {

/// Samples (all channels) in the frame of a capture rate: 10 ms of stereo.
pub open spec fn spec_frame_sample_count(sample_rate_hz: u32) -> nat {
    spec_frame_samples_per_channel(sample_rate_hz) * 2
}

/// Samples (all channels) in one frame at `sample_rate_hz`.
pub fn frame_sample_count(sample_rate_hz: u32) -> (n: usize)
    ensures
        n == spec_frame_sample_count(sample_rate_hz),
{
    let per_channel = frame_samples_per_channel(sample_rate_hz);
    let channels = CHANNELS as usize;
    assert(per_channel <= 42949672 && channels == 2);
    per_channel * channels
}

/// How a capture mode is named to the user.
pub open spec fn capture_mode_name(mode: CaptureMode) -> Seq<char> {
    match mode {
        CaptureMode::System => "system audio"@,
        CaptureMode::Microphone => "microphone"@,
        CaptureMode::SystemPlusMicrophone => "system + microphone"@,
    }
}

/// How a capture mode is named to the user.
pub fn describe_capture_mode(mode: CaptureMode) -> (name: String)
    ensures
        name@ == capture_mode_name(mode),
{
    match mode {
        CaptureMode::System => string_of("system audio"),
        CaptureMode::Microphone => string_of("microphone"),
        CaptureMode::SystemPlusMicrophone => string_of("system + microphone"),
    }
}

/// The first line of an error's text (with its causes), or `unknown error`
/// when it has none.
pub fn describe_short_error(text: &str) -> (line: String)
    ensures
        line@ == (if text_lines(text@).len() > 0 {
            text_lines(text@)[0]
        } else {
            "unknown error"@
        }),
{
    let lines = lines_of(text);
    if lines.len() > 0 {
        string_of(lines[0].as_str())
    } else {
        string_of("unknown error")
    }
}

/// Whether frame `sequence` is reported: the first and every hundredth.
pub fn should_report(sequence: u64) -> (report: bool)
    ensures
        report == (sequence == 0 || sequence % 100 == 0),
{
    sequence == 0 || sequence % 100 == 0
}

/// A random stream identifier, or the failure of the system random source.
pub fn random_stream_id() -> (id: Result<u64, getrandom::Error>) {
    let mut bytes = [0u8; 8];
    match fill_random(&mut bytes) {
        Ok(()) => Ok(u64_from_le_bytes(bytes.as_slice())),
        Err(e) => Err(e),
    }
}

// ---------------------------------------------------------------------------
// Framing captured audio
// ---------------------------------------------------------------------------
/// Captured samples as sent: silence of the same length when muted.
pub open spec fn as_sent(samples: Seq<i16>, muted: bool) -> Seq<i16> {
    if muted {
        Seq::new(samples.len(), |i: int| 0i16)
    } else {
        samples
    }
}

/// Cuts captured samples into frames of a fixed size, numbering them from
/// zero; what does not fill a frame waits for the next capture.
pub struct SenderFramer {
    pending: VecDeque<i16>,
    frame_len: usize,
    next_sequence: u64,
}

impl SenderFramer {
    /// The samples waiting for the next frame.
    pub closed spec fn pending(&self) -> Seq<i16> {
        self.pending@
    }

    /// Samples per frame.
    pub closed spec fn frame_len(&self) -> nat {
        self.frame_len as nat
    }

    /// The sequence number of the next frame.
    pub closed spec fn next_sequence(&self) -> u64 {
        self.next_sequence
    }

    /// A framer for frames of `frame_len` samples.
    pub fn new(frame_len: usize) -> (framer: Self)
        requires
            frame_len > 0,
        ensures
            framer.pending().len() == 0,
            framer.frame_len() == frame_len,
            framer.next_sequence() == 0,
    {
        SenderFramer { pending: VecDeque::new(), frame_len, next_sequence: 0 }
    }

    /// Samples waiting for the next frame.
    pub fn pending_len(&self) -> (n: usize)
        ensures
            n == self.pending().len(),
    {
        self.pending.len()
    }

    /// Adds a capture (sent as silence when `muted`) and cuts every whole
    /// frame that is now waiting.  Frame `i` carries the next `frame_len`
    /// samples and the next sequence number.
    pub fn push_capture(&mut self, samples: &Vec<i16>, muted: bool) -> (frames: Vec<AudioFrame>)
        requires
            old(self).frame_len() > 0,
            old(self).next_sequence() + (old(self).pending().len() + samples@.len()) / old(self).frame_len()
                <= u64::MAX,
            old(self).pending().len() + samples@.len() <= usize::MAX,
        ensures
            ({
                let all = old(self).pending() + as_sent(samples@, muted);
                let n = old(self).frame_len() as int;
                let k = all.len() as int / n;
                &&& frames@.len() == k
                &&& forall|i: int|
                    0 <= i < k ==> (#[trigger] frames@[i]).sequence == old(self).next_sequence() + i
                        && frames@[i].samples@ == all.subrange(i * n, (i + 1) * n)
                &&& final(self).pending() == all.skip(k * n)
                &&& final(self).next_sequence() == old(self).next_sequence() + k
                &&& final(self).frame_len() == old(self).frame_len()
            }),
    {
        let ghost all = self.pending@ + as_sent(samples@, muted);
        let mut i: usize = 0;
        while i < samples.len()
            invariant
                i <= samples@.len(),
                self.pending@ == old(self).pending@ + as_sent(samples@, muted).take(i as int),
                self.frame_len == old(self).frame_len,
                self.next_sequence == old(self).next_sequence,
            decreases samples@.len() - i,
        {
            let s = if muted {
                0i16
            } else {
                samples[i]
            };
            self.pending.push_back(s);
            i += 1;
            assert(self.pending@ =~= old(self).pending@ + as_sent(samples@, muted).take(i as int));
        }
        assert(as_sent(samples@, muted).take(samples@.len() as int) =~= as_sent(samples@, muted));
        assert(self.pending@ == all);
        assert(all.skip(0) =~= all);
        let n = self.frame_len;
        let total = self.pending.len();
        let mut frames: Vec<AudioFrame> = Vec::new();
        let mut start: usize = 0;
        assert(frames@.len() * n == 0);
        let ghost k = all.len() as int / (n as int);
        proof {
            vstd::arithmetic::div_mod::lemma_fundamental_div_mod(all.len() as int, n as int);
        }
        while self.pending.len() >= n
            invariant
                n > 0,
                n == old(self).frame_len,
                total == all.len(),
                self.pending@ == all.skip(start as int),
                self.frame_len == old(self).frame_len,
                self.next_sequence == old(self).next_sequence,
                old(self).next_sequence + k <= u64::MAX,
                k == all.len() as int / (n as int),
                start == frames@.len() * n,
                start <= total,
                frames@.len() <= k,
                forall|q: int|
                    0 <= q < frames@.len() ==> (#[trigger] frames@[q]).sequence == old(self).next_sequence + q
                        && frames@[q].samples@ == all.subrange(q * n, (q + 1) * n),
            decreases total - start,
        {
            let ghost f = frames@.len() as int;
            proof {
                vstd::arithmetic::div_mod::lemma_fundamental_div_mod(all.len() as int, n as int);
                assert(f * n + n <= all.len());
                assert((f + 1) * n == f * n + n) by (nonlinear_arith);
                vstd::arithmetic::div_mod::lemma_div_is_ordered((f + 1) * n, all.len() as int, n as int);
                vstd::arithmetic::div_mod::lemma_div_multiples_vanish(f + 1, n as int);
                assert(f + 1 <= k);
            }
            let mut frame_samples: Vec<i16> = Vec::new();
            let mut j: usize = 0;
            while j < n
                invariant
                    j <= n,
                    start + n <= total,
                    total == all.len(),
                    self.pending@ == all.skip(start + j),
                    self.frame_len == old(self).frame_len,
                    self.next_sequence == old(self).next_sequence,
                    frame_samples@ == all.subrange(start as int, start + j),
                decreases n - j,
            {
                match self.pending.pop_front() {
                    Some(x) => {
                        assert(x == all[start + j]);
                        frame_samples.push(x);
                    },
                    None => {
                        assert(false);
                    },
                }
                j += 1;
                assert(self.pending@ =~= all.skip(start + j));
                assert(frame_samples@ =~= all.subrange(start as int, start + j));
            }
            let sequence = self.next_sequence + frames.len() as u64;
            frames.push(AudioFrame { sequence, samples: frame_samples });
            start += n;
            assert(start == frames@.len() * n) by (nonlinear_arith)
                requires
                    start == f * n + n,
                    frames@.len() == f + 1,
            ;
        }
        proof {
            vstd::arithmetic::div_mod::lemma_fundamental_div_mod(all.len() as int, n as int);
            let f = frames@.len() as int;
            assert(total - start < n);
            assert(f == k) by {
                vstd::arithmetic::div_mod::lemma_div_is_ordered(f * n, all.len() as int, n as int);
                vstd::arithmetic::div_mod::lemma_div_multiples_vanish(f, n as int);
                vstd::arithmetic::div_mod::lemma_remainder_lower(all.len() as int, n as int);
                if f < k {
                    assert(k * n <= all.len());
                    assert(f * n + n <= k * n) by (nonlinear_arith)
                        requires
                            f < k,
                            n > 0,
                    ;
                }
            }
        }
        self.next_sequence = self.next_sequence + frames.len() as u64;
        frames
    }
}

/// What the frames cut from a capture carry, in order, followed by what
/// still waits, is exactly what waited before followed by the capture (as
/// sent): framing neither loses, duplicates nor reorders a sample.
pub proof fn lemma_framing_keeps_samples(all: Seq<i16>, n: int, frames: Seq<Seq<i16>>)
    requires
        n > 0,
        frames.len() == all.len() as int / n,
        forall|i: int| 0 <= i < frames.len() ==> #[trigger] frames[i] == all.subrange(i * n, (i + 1) * n),
    ensures
        frames.fold_left(Seq::<i16>::empty(), |acc: Seq<i16>, f: Seq<i16>| acc + f) + all.skip(
            frames.len() * n,
        ) == all,
    decreases frames.len(),
{
    let k = frames.len();
    let f = |acc: Seq<i16>, x: Seq<i16>| acc + x;
    if k == 0 {
        assert(all.skip(0) =~= all);
    } else {
        vstd::arithmetic::div_mod::lemma_fundamental_div_mod(all.len() as int, n);
        assert(k * n <= all.len()) by {
            vstd::arithmetic::div_mod::lemma_remainder_lower(all.len() as int, n);
        }
        let prefix = all.take((k - 1) * n + n);
        assert((k - 1) * n + n == k * n) by (nonlinear_arith);
        let shorter = all.take((k - 1) * n);
        assert(shorter.len() as int / n == k - 1) by {
            vstd::arithmetic::div_mod::lemma_div_multiples_vanish(k - 1, n);
        }
        assert forall|i: int| 0 <= i < frames.drop_last().len() implies #[trigger] frames.drop_last()[i]
            == shorter.subrange(i * n, (i + 1) * n) by {
            vstd::arithmetic::mul::lemma_mul_inequality(i + 1, k - 1, n);
            vstd::arithmetic::mul::lemma_mul_nonnegative(i, n);
            assert((i + 1) * n == i * n + n) by (nonlinear_arith);
            assert(shorter.subrange(i * n, (i + 1) * n) =~= all.subrange(i * n, (i + 1) * n));
        }
        lemma_framing_keeps_samples(shorter, n, frames.drop_last());
        assert(shorter.skip((k - 1) * n) =~= Seq::<i16>::empty());
        assert(frames.drop_last().fold_left(Seq::<i16>::empty(), f) =~= shorter);
        assert(frames.fold_left(Seq::<i16>::empty(), f) == frames.drop_last().fold_left(Seq::<i16>::empty(), f)
            + frames.last());
        assert(frames.last() == all.subrange((k - 1) * n, k * n));
        assert(shorter + all.subrange((k - 1) * n, k * n) + all.skip(k * n) =~= all);
    }
}

// ---------------------------------------------------------------------------
// Reconnecting
// ---------------------------------------------------------------------------
/// Reconnection attempts and the delay before the next: two seconds at
/// first, one more after each attempt, at most five.
pub struct ReconnectBackoff {
    pub attempt: u32,
    pub delay_seconds: u64,
}

/// The plan after a session ended: which attempt comes next, after how many
/// seconds.
#[derive(Debug, Clone, Copy)]
pub struct ReconnectPlan {
    pub attempt: u32,
    pub delay_seconds: u64,
}

impl ReconnectBackoff {
    /// Before the first session.
    pub fn new() -> (backoff: Self)
        ensures
            backoff.attempt == 0,
            backoff.delay_seconds == 2,
    {
        ReconnectBackoff { attempt: 0, delay_seconds: 2 }
    }

    /// A session ended: the next attempt and its delay, and the delay grows
    /// by a second, up to five.
    pub fn session_ended(&mut self) -> (plan: ReconnectPlan)
        requires
            old(self).attempt < u32::MAX,
            old(self).delay_seconds <= 5,
        ensures
            plan.attempt == old(self).attempt + 1,
            plan.delay_seconds == old(self).delay_seconds,
            final(self).attempt == plan.attempt,
            final(self).delay_seconds == if old(self).delay_seconds + 1 < 5 {
                old(self).delay_seconds + 1
            } else {
                5
            },
    {
        self.attempt = self.attempt + 1;
        let plan = ReconnectPlan { attempt: self.attempt, delay_seconds: self.delay_seconds };
        self.delay_seconds = if self.delay_seconds + 1 < 5 {
            self.delay_seconds + 1
        } else {
            5
        };
        plan
    }
}

/// The status line after a session ended, cleanly or with the error
/// `error` (its first line).
pub open spec fn reconnect_text(plan: ReconnectPlan, error: Option<Seq<char>>) -> Seq<char> {
    let tail = decimal(plan.delay_seconds as nat) + "s (attempt "@ + decimal(plan.attempt as nat) + ")."@;
    match error {
        None => "Receiver disconnected. Reconnecting in "@ + tail,
        Some(e) => "Sender session interrupted. Reconnecting in "@ + tail + " "@ + e,
    }
}

/// The status line after a session ended.
pub fn reconnect_message(plan: ReconnectPlan, error: Option<&str>) -> (text: String)
    ensures
        text@ == reconnect_text(
            plan,
            match error {
                Some(e) => Some(e@),
                None => None,
            },
        ),
{
    let mut text = match error {
        None => string_of("Receiver disconnected. Reconnecting in "),
        Some(_) => string_of("Sender session interrupted. Reconnecting in "),
    };
    let d = decimal_string(plan.delay_seconds);
    push_str(&mut text, d.as_str());
    push_str(&mut text, "s (attempt ");
    let a = decimal_string(plan.attempt as u64);
    push_str(&mut text, a.as_str());
    push_str(&mut text, ").");
    if let Some(e) = error {
        push_str(&mut text, " ");
        push_str(&mut text, e);
    }
    text
}

/// The metrics shown while waiting to reconnect.
pub open spec fn reconnect_metrics_text(target_ip: Seq<char>, control_port: u16, plan: ReconnectPlan) -> Seq<char> {
    "Mode: Sender\nState: Reconnecting\nTarget: "@ + target_ip + ":"@ + decimal(control_port as nat)
        + "\nNext attempt: "@ + decimal(plan.attempt as nat) + " in "@ + decimal(plan.delay_seconds as nat)
        + "s"@
}

/// The metrics shown while waiting to reconnect.
pub fn reconnect_metrics(target_ip: &str, control_port: u16, plan: ReconnectPlan) -> (text: String)
    ensures
        text@ == reconnect_metrics_text(target_ip@, control_port, plan),
{
    let mut text = string_of("Mode: Sender\nState: Reconnecting\nTarget: ");
    push_str(&mut text, target_ip);
    push_str(&mut text, ":");
    let p = decimal_string(control_port as u64);
    push_str(&mut text, p.as_str());
    push_str(&mut text, "\nNext attempt: ");
    let a = decimal_string(plan.attempt as u64);
    push_str(&mut text, a.as_str());
    push_str(&mut text, " in ");
    let d = decimal_string(plan.delay_seconds);
    push_str(&mut text, d.as_str());
    push_str(&mut text, "s");
    text
}

} // verus!

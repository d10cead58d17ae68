//! System audio capture: which monitor source to record, at which rate,
//! which recorder commands to try, and how captured samples become stereo.
use crate::proto::SAMPLE_RATE_HZ;
use crate::text::{
    decimal, decimal_string, drop_chars, drop_last_chars, ends_with, lines_of, nonblank,
    nonblank_string, parse_unsigned, parsed_unsigned, push_str, split_whitespace, starts_with, str_eq,
    string_of, text_lines, trim, trimmed, views, words,
};
use vstd::prelude::*;

verus! {

/// The source that always names the default sink's monitor.
pub open spec fn default_monitor() -> Seq<char> {
    "@DEFAULT_MONITOR@"@
}

/// A recorder command to try.
#[derive(Debug)]
pub struct CaptureCommand {
    pub program: String,
    pub args: Vec<String>,
    pub description: String,
}

/// The arguments that record `source` as raw 16-bit little-endian stereo
/// at `rate` Hz.
pub open spec fn parec_args(source: Seq<char>, rate: u32) -> Seq<Seq<char>> {
    seq![
        "--device="@ + source,
        "--raw"@,
        "--format=s16le"@,
        "--rate="@ + decimal(rate as nat),
        "--channels=2"@,
    ]
}

/// The sources to try: the detected monitor first, then the default
/// monitor unless it was the one detected.
pub open spec fn sources_to_try(monitor_source: Option<Seq<char>>) -> Seq<Seq<char>> {
    match monitor_source {
        Some(m) => if m == default_monitor() {
            seq![m]
        } else {
            seq![m, default_monitor()]
        },
        None => seq![default_monitor()],
    }
}

/// `commands` records each of `sources` with `parec`, in order.
pub open spec fn commands_for(commands: Seq<CaptureCommand>, sources: Seq<Seq<char>>, rate: u32) -> bool {
    &&& commands.len() == sources.len()
    &&& forall|i: int|
        0 <= i < sources.len() ==> {
            &&& (#[trigger] commands[i]).program@ == "parec"@
            &&& views(commands[i].args@) == parec_args(sources[i], rate)
            &&& commands[i].description@ == "parec monitor source "@ + sources[i]
        }
}

fn parec_command(source: &str, sample_rate_hz: u32) -> (command: CaptureCommand)
    ensures
        command.program@ == "parec"@,
        views(command.args@) == parec_args(source@, sample_rate_hz),
        command.description@ == "parec monitor source "@ + source@,
{
    let mut device = string_of("--device=");
    push_str(&mut device, source);
    let mut rate = string_of("--rate=");
    let r = decimal_string(sample_rate_hz as u64);
    push_str(&mut rate, r.as_str());
    let mut args: Vec<String> = Vec::new();
    args.push(device);
    args.push(string_of("--raw"));
    args.push(string_of("--format=s16le"));
    args.push(rate);
    args.push(string_of("--channels=2"));
    assert(views(args@) =~= parec_args(source@, sample_rate_hz));
    let mut description = string_of("parec monitor source ");
    push_str(&mut description, source);
    CaptureCommand { program: string_of("parec"), args, description }
}

/// The recorder commands to try, in order, for the detected monitor source
/// and rate.
pub fn launch_candidates(monitor_source: &Option<String>, sample_rate_hz: u32) -> (commands: Vec<CaptureCommand>)
    ensures
        commands_for(
            commands@,
            sources_to_try(
                match *monitor_source {
                    Some(m) => Some(m@),
                    None => None,
                },
            ),
            sample_rate_hz,
        ),
{
    let mut commands: Vec<CaptureCommand> = Vec::new();
    match monitor_source {
        Some(m) => {
            commands.push(parec_command(m.as_str(), sample_rate_hz));
            if !str_eq(m.as_str(), "@DEFAULT_MONITOR@") {
                commands.push(parec_command("@DEFAULT_MONITOR@", sample_rate_hz));
            }
        },
        None => {
            commands.push(parec_command("@DEFAULT_MONITOR@", sample_rate_hz));
        },
    }
    commands
}

/// The rate a word of a sample specification gives: digits followed by
/// `Hz`.
pub open spec fn word_rate(word: Seq<char>) -> Option<nat> {
    if word.len() >= 2 && word.skip(word.len() - 2) == "Hz"@ {
        parsed_unsigned(word.take(word.len() - 2), u32::MAX as nat)
    } else {
        None
    }
}

/// The rate of the first word that gives one.
pub open spec fn first_rate(words: Seq<Seq<char>>) -> Option<nat>
    decreases words.len(),
{
    if words.len() == 0 {
        None
    } else {
        match word_rate(words[0]) {
            Some(r) => Some(r),
            None => first_rate(words.drop_first()),
        }
    }
}

/// The sample rate named in a sample specification such as
/// `s16le 2ch 48000Hz`.
pub fn parse_sample_rate_from_spec(spec: &str) -> (rate: Option<u32>)
    ensures
        match (rate, first_rate(words(spec@))) {
            (Some(r), Some(expected)) => r == expected,
            (None, None) => true,
            _ => false,
        },
{
    let parts = split_whitespace(spec);
    let ghost w = words(spec@);
    let mut i: usize = 0;
    assert(w.skip(0) =~= w);
    while i < parts.len()
        invariant
            i <= parts@.len(),
            views(parts@) == w,
            w == words(spec@),
            first_rate(w) == first_rate(w.skip(i as int)),
        decreases parts@.len() - i,
    {
        let word = &parts[i];
        assert(w[i as int] == word@);
        assert(w.skip(i as int)[0] == word@);
        if ends_with(word.as_str(), "Hz") {
            proof {
                reveal_strlit("Hz");
            }
            let digits = drop_last_chars(word.as_str(), 2);
            match parse_unsigned(digits.as_str(), u32::MAX as u64) {
                Some(v) => {
                    assert(word_rate(word@) == Some(v as nat));
                    assert(first_rate(w.skip(i as int)) == Some(v as nat));
                    return Some(v as u32);
                },
                None => {},
            }
        } else {
            proof {
                reveal_strlit("Hz");
            }
        }
        assert(w.skip(i as int).drop_first() =~= w.skip(i + 1));
        i += 1;
    }
    None
}

/// Samples per channel in 10 ms at `sample_rate_hz`.
pub fn samples_per_10ms(sample_rate_hz: u32) -> (n: usize)
    ensures
        n == sample_rate_hz as nat * 10 / 1000,
{
    ((sample_rate_hz as u64 * 10) / 1000) as usize
}

/// The rate recorded when none can be detected.
pub fn default_capture_rate(detected: Option<u32>) -> (rate: u32)
    ensures
        rate == match detected {
            Some(r) => r,
            None => SAMPLE_RATE_HZ,
        },
{
    match detected {
        Some(r) => r,
        None => SAMPLE_RATE_HZ,
    }
}

/// The monitor of a sink.
pub open spec fn monitor_of(sink: Seq<char>) -> Seq<char> {
    sink + ".monitor"@
}

/// The sink named by the first `Default Sink:` line of `pactl info` whose
/// value is not blank.
pub open spec fn info_default_sink(lines: Seq<Seq<char>>) -> Option<Seq<char>>
    decreases lines.len(),
{
    if lines.len() == 0 {
        None
    } else {
        let l = lines[0];
        let prefix = "Default Sink:"@;
        if l.len() >= prefix.len() && l.take(prefix.len() as int) == prefix && nonblank(
            l.skip(prefix.len() as int),
        ) is Some {
            nonblank(l.skip(prefix.len() as int))
        } else {
            info_default_sink(lines.drop_first())
        }
    }
}

/// The monitor source to record: the `VELIN_LINUX_MONITOR` setting when not
/// blank, else the monitor of the default sink as `pactl get-default-sink`
/// prints it, else as `pactl info` prints it.
pub open spec fn monitor_source_of(
    configured: Option<Seq<char>>,
    default_sink_output: Option<Seq<char>>,
    info_output: Option<Seq<char>>,
) -> Option<Seq<char>> {
    let from_setting = match configured {
        Some(c) => nonblank(c),
        None => None,
    };
    let from_sink = match default_sink_output {
        Some(o) => match nonblank(o) {
            Some(sink) => Some(monitor_of(sink)),
            None => None,
        },
        None => None,
    };
    let from_info = match info_output {
        Some(o) => match info_default_sink(text_lines(o)) {
            Some(sink) => Some(monitor_of(sink)),
            None => None,
        },
        None => None,
    };
    if from_setting is Some {
        from_setting
    } else if from_sink is Some {
        from_sink
    } else {
        from_info
    }
}

/// The view of an optional string.
pub open spec fn opt_chars(s: Option<String>) -> Option<Seq<char>> {
    match s {
        Some(x) => Some(x@),
        None => None,
    }
}

/// The default sink a `pactl info` listing names.
fn default_sink_from_info(output: &str) -> (sink: Option<String>)
    ensures
        opt_chars(sink) == info_default_sink(text_lines(output@)),
{
    let lines = lines_of(output);
    let ghost ls = text_lines(output@);
    let mut i: usize = 0;
    assert(ls.skip(0) =~= ls);
    while i < lines.len()
        invariant
            i <= lines@.len(),
            ls == text_lines(output@),
            lines@.len() == ls.len(),
            forall|q: int| 0 <= q < lines@.len() ==> (#[trigger] lines@[q])@ == ls[q],
            info_default_sink(ls) == info_default_sink(ls.skip(i as int)),
        decreases lines@.len() - i,
    {
        let line = lines[i].as_str();
        assert(ls.skip(i as int)[0] == line@);
        assert(ls.skip(i as int).drop_first() =~= ls.skip(i + 1));
        proof {
            reveal_strlit("Default Sink:");
        }
        if starts_with(line, "Default Sink:") {
            let value = drop_chars(line, 13);
            if let Some(sink) = nonblank_string(value.as_str()) {
                assert(info_default_sink(ls.skip(i as int)) == Some(sink@));
                return Some(sink);
            }
        }
        i += 1;
    }
    None
}

/// Appends `.monitor` to a sink's name.
fn monitor_name(sink: &str) -> (name: String)
    ensures
        name@ == monitor_of(sink@),
{
    let mut name = string_of(sink);
    push_str(&mut name, ".monitor");
    name
}

/// The monitor source to record, from the setting and what `pactl` printed
/// (each `None` when it was not set or did not succeed).
pub fn detect_monitor_source(
    configured: &Option<String>,
    default_sink_output: &Option<String>,
    info_output: &Option<String>,
) -> (source: Option<String>)
    ensures
        opt_chars(source) == monitor_source_of(
            opt_chars(*configured),
            opt_chars(*default_sink_output),
            opt_chars(*info_output),
        ),
{
    if let Some(c) = configured {
        if let Some(v) = nonblank_string(c.as_str()) {
            return Some(v);
        }
    }
    if let Some(o) = default_sink_output {
        if let Some(sink) = nonblank_string(o.as_str()) {
            return Some(monitor_name(sink.as_str()));
        }
    }
    if let Some(o) = info_output {
        if let Some(sink) = default_sink_from_info(o.as_str()) {
            return Some(monitor_name(sink.as_str()));
        }
    }
    None
}

/// `s` starts with `prefix`.
pub open spec fn has_prefix(s: Seq<char>, prefix: Seq<char>) -> bool {
    s.len() >= prefix.len() && s.take(prefix.len() as int) == prefix
}

/// `s` ends with `suffix`.
pub open spec fn has_suffix(s: Seq<char>, suffix: Seq<char>) -> bool {
    s.len() >= suffix.len() && s.skip(s.len() - suffix.len()) == suffix
}

/// Whether a source listed as `current` is the one whose rate is wanted:
/// the selected one, or any monitor when none is selected.
pub open spec fn wanted_source(selected: Option<Seq<char>>, current: Option<Seq<char>>) -> bool {
    match selected {
        Some(s) => current == Some(s),
        None => match current {
            Some(c) => has_suffix(c, ".monitor"@),
            None => false,
        },
    }
}

/// The rate of the wanted source in a `pactl list sources` listing, read
/// line by line with `current` the source named last.
pub open spec fn listed_rate(lines: Seq<Seq<char>>, selected: Option<Seq<char>>, current: Option<Seq<char>>) -> Option<nat>
    decreases lines.len(),
{
    if lines.len() == 0 {
        None
    } else {
        let l = trimmed(lines[0]);
        if has_prefix(l, "Name:"@) {
            listed_rate(lines.drop_first(), selected, Some(trimmed(l.skip(5))))
        } else if has_prefix(l, "Sample Specification:"@) && wanted_source(selected, current) {
            first_rate(words(l.skip(21)))
        } else {
            listed_rate(lines.drop_first(), selected, current)
        }
    }
}

/// The source whose rate is wanted: the selected one (trimmed) unless it is
/// the default monitor, in which case any monitor.
pub open spec fn selected_for_rate(selected: Option<Seq<char>>) -> Option<Seq<char>> {
    match selected {
        Some(s) => if s == default_monitor() {
            None
        } else {
            Some(trimmed(s))
        },
        None => None,
    }
}

/// The sample rate of the monitor source that will be recorded, read from
/// a `pactl list sources` listing.
pub fn detect_monitor_sample_rate(selected_source: &Option<String>, listing: &str) -> (rate: Option<u32>)
    ensures
        match (rate, listed_rate(text_lines(listing@), selected_for_rate(opt_chars(*selected_source)), None)) {
            (Some(r), Some(expected)) => r == expected,
            (None, None) => true,
            _ => false,
        },
{
    let selected: Option<String> = match selected_source {
        Some(s) => if str_eq(s.as_str(), "@DEFAULT_MONITOR@") {
            None
        } else {
            Some(trim(s.as_str()))
        },
        None => None,
    };
    let ghost sel = selected_for_rate(opt_chars(*selected_source));
    assert(opt_chars(selected) == sel);
    let lines = lines_of(listing);
    let ghost ls = text_lines(listing@);
    let mut current: Option<String> = None;
    let mut i: usize = 0;
    assert(ls.skip(0) =~= ls);
    proof {
        reveal_strlit("Name:");
        reveal_strlit("Sample Specification:");
    }
    while i < lines.len()
        invariant
            i <= lines@.len(),
            ls == text_lines(listing@),
            sel == selected_for_rate(opt_chars(*selected_source)),
            opt_chars(selected) == sel,
            lines@.len() == ls.len(),
            forall|q: int| 0 <= q < lines@.len() ==> (#[trigger] lines@[q])@ == ls[q],
            listed_rate(ls, sel, None) == listed_rate(ls.skip(i as int), sel, opt_chars(current)),
            "Name:"@.len() == 5,
            "Sample Specification:"@.len() == 21,
        decreases lines@.len() - i,
    {
        let line = trim(lines[i].as_str());
        assert(ls.skip(i as int)[0] == lines@[i as int]@);
        assert(ls.skip(i as int).drop_first() =~= ls.skip(i + 1));
        if starts_with(line.as_str(), "Name:") {
            let name = drop_chars(line.as_str(), 5);
            current = Some(trim(name.as_str()));
        } else if starts_with(line.as_str(), "Sample Specification:") {
            let wanted = match &selected {
                Some(s) => match &current {
                    Some(c) => str_eq(c.as_str(), s.as_str()),
                    None => false,
                },
                None => match &current {
                    Some(c) => ends_with(c.as_str(), ".monitor"),
                    None => false,
                },
            };
            if wanted {
                let spec = drop_chars(line.as_str(), 21);
                return parse_sample_rate_from_spec(spec.as_str());
            }
        }
        i += 1;
    }
    None
}

// ---------------------------------------------------------------------------
// Samples
// ---------------------------------------------------------------------------
/// Frames of `channels` samples in `len` samples, a last partial one
/// included.
pub open spec fn frame_count(len: nat, channels: nat) -> nat {
    len / channels + if len % channels > 0 {
        1nat
    } else {
        0nat
    }
}

/// The stereo samples of interleaved `input` with `channels` channels (at
/// least one is assumed): per frame its first channel as left and its
/// second as right, or the first again when the frame has one.
pub open spec fn stereo_of(input: Seq<i16>, channels: nat) -> Seq<i16> {
    let c = if channels < 1 {
        1
    } else {
        channels
    };
    Seq::new(
        2 * frame_count(input.len(), c),
        |k: int|
            {
                let start = (k / 2) * c;
                if k % 2 == 0 || !(c >= 2 && start + 1 < input.len()) {
                    input[start]
                } else {
                    input[start + 1]
                }
            },
    )
}

/// Interleaved 16-bit samples with `channels` channels as stereo.
pub fn convert_to_stereo_i16_from_i16(input: &[i16], channels: usize) -> (output: Vec<i16>)
    ensures
        output@ == stereo_of(input@, channels as nat),
{
    let c: usize = if channels < 1 {
        1
    } else {
        channels
    };
    let n = input.len();
    let full = n / c;
    proof {
        vstd::arithmetic::div_mod::lemma_fundamental_div_mod(n as int, c as int);
        if n % c > 0 {
            assert(full < n) by (nonlinear_arith)
                requires
                    n == c * full + n % c,
                    n % c > 0,
                    c >= 1,
                    full >= 0,
            ;
        }
    }
    let frames: usize = if n % c > 0 {
        full + 1
    } else {
        full
    };
    let mut output: Vec<i16> = Vec::new();
    let mut f: usize = 0;
    while f < frames
        invariant
            c >= 1,
            c == (if channels < 1 {
                1
            } else {
                channels
            }),
            n == input@.len(),
            frames == frame_count(n as nat, c as nat),
            n == c * (n / c) + n % c,
            n % c < c,
            f <= frames,
            output@.len() == 2 * f,
            forall|k: int|
                0 <= k < 2 * f ==> #[trigger] output@[k] == stereo_of(input@, channels as nat)[k],
        decreases frames - f,
    {
        proof {
            if f < n / c {
                vstd::arithmetic::mul::lemma_mul_inequality(f as int + 1, (n / c) as int, c as int);
                assert((f + 1) * c == f * c + c) by (nonlinear_arith);
                assert(c * (n / c) == (n / c) * c) by (nonlinear_arith);
            } else {
                assert(f == n / c);
                assert(c * (n / c) == f * c) by (nonlinear_arith)
                    requires
                        f == n / c,
                ;
            }
            assert(f * c < n);
        }
        let start = f * c;
        let left = input[start];
        let right = if c >= 2 && start + 1 < n {
            input[start + 1]
        } else {
            left
        };
        output.push(left);
        output.push(right);
        proof {
            assert forall|k: int| 0 <= k < 2 * (f + 1) implies #[trigger] output@[k] == stereo_of(
                input@,
                channels as nat,
            )[k] by {
                if k >= 2 * f {
                    assert(k / 2 == f);
                }
            }
        }
        f += 1;
    }
    assert(output@ =~= stereo_of(input@, channels as nat));
    output
}

/// `x` limited to the range of `i16`.
pub open spec fn saturate(x: int) -> i16 {
    if x < i16::MIN {
        i16::MIN
    } else if x > i16::MAX {
        i16::MAX
    } else {
        x as i16
    }
}

/// Two captures played together: sample by sample their sum, limited to
/// the range of `i16`; the longer one's extra samples as they are.
pub open spec fn mixed_capture(a: Seq<i16>, b: Seq<i16>) -> Seq<i16> {
    Seq::new(
        if a.len() >= b.len() {
            a.len()
        } else {
            b.len()
        },
        |i: int|
            saturate(
                (if i < a.len() {
                    a[i] as int
                } else {
                    0
                }) + (if i < b.len() {
                    b[i] as int
                } else {
                    0
                }),
            ),
    )
}

/// Plays two captures (system audio and microphone) together.
pub fn mix_captures(a: &[i16], b: &[i16]) -> (mixed: Vec<i16>)
    ensures
        mixed@ == mixed_capture(a@, b@),
{
    let n = if a.len() >= b.len() {
        a.len()
    } else {
        b.len()
    };
    let mut mixed: Vec<i16> = Vec::new();
    let mut i: usize = 0;
    while i < n
        invariant
            i <= n,
            n == (if a@.len() >= b@.len() {
                a@.len()
            } else {
                b@.len()
            }),
            mixed@.len() == i,
            forall|q: int| 0 <= q < i ==> #[trigger] mixed@[q] == mixed_capture(a@, b@)[q],
        decreases n - i,
    {
        let x: i32 = if i < a.len() {
            a[i] as i32
        } else {
            0
        };
        let y: i32 = if i < b.len() {
            b[i] as i32
        } else {
            0
        };
        let sum = x + y;
        let sample: i16 = if sum < -32768 {
            -32768
        } else if sum > 32767 {
            32767
        } else {
            sum as i16
        };
        mixed.push(sample);
        i += 1;
    }
    assert(mixed@ =~= mixed_capture(a@, b@));
    mixed
}

/// The samples of a packet the capture marks silent: `frames` stereo
/// frames of zeros.
pub fn silent_capture(frames: u32) -> (samples: Vec<i16>)
    requires
        2 * frames <= usize::MAX,
    ensures
        samples@ == Seq::new(2 * frames as nat, |i: int| 0i16),
{
    let n: usize = frames as usize * 2;
    let mut samples: Vec<i16> = Vec::new();
    let mut i: usize = 0;
    while i < n
        invariant
            i <= n,
            n == 2 * frames,
            samples@ == Seq::new(i as nat, |q: int| 0i16),
        decreases n - i,
    {
        samples.push(0);
        i += 1;
        assert(samples@ =~= Seq::new(i as nat, |q: int| 0i16));
    }
    samples
}

/// The sample format a capture device reports, as far as it matters here.
#[derive(Debug, Clone, Copy, PartialEq, Eq, Structural)]
pub enum CaptureSampleFormat {
    F32,
    I16,
}

/// The sub-format of an extensible wave format.
#[derive(Debug, Clone, Copy, PartialEq, Eq, Structural)]
pub enum SubFormat {
    IeeeFloat,
    Pcm,
    Other,
}

/// Why a mix format cannot be captured.
#[derive(Debug, Clone, Copy, PartialEq, Eq, Structural)]
pub enum FormatError {
    /// PCM with another sample width than 16 bits.
    PcmWidth,
    /// An extensible format that is neither float nor 16-bit PCM.
    UnsupportedExtensible,
    /// Another format tag.
    UnsupportedTag(u16),
}

/// The wave format tag of 16-bit integer PCM.
pub const WAVE_FORMAT_PCM: u16 = 0x0001;

/// The wave format tag of 32-bit float samples.
pub const WAVE_FORMAT_IEEE_FLOAT: u16 = 0x0003;

/// The wave format tag of an extensible format.
pub const WAVE_FORMAT_EXTENSIBLE: u16 = 0xfffe;

/// How samples of a mix format are read: float formats as floats, 16-bit
/// PCM as integers, anything else refused.
pub fn sample_format_for(format_tag: u16, bits_per_sample: u16, sub_format: SubFormat) -> (format:
    Result<CaptureSampleFormat, FormatError>)
    ensures
        format_tag == WAVE_FORMAT_IEEE_FLOAT ==> format == Ok::<CaptureSampleFormat, FormatError>(
            CaptureSampleFormat::F32,
        ),
        format_tag == WAVE_FORMAT_PCM ==> format == if bits_per_sample == 16 {
            Ok::<CaptureSampleFormat, FormatError>(CaptureSampleFormat::I16)
        } else {
            Err(FormatError::PcmWidth)
        },
        format_tag == WAVE_FORMAT_EXTENSIBLE ==> format == if sub_format == SubFormat::IeeeFloat {
            Ok::<CaptureSampleFormat, FormatError>(CaptureSampleFormat::F32)
        } else if sub_format == SubFormat::Pcm && bits_per_sample == 16 {
            Ok(CaptureSampleFormat::I16)
        } else {
            Err(FormatError::UnsupportedExtensible)
        },
        format_tag != WAVE_FORMAT_IEEE_FLOAT && format_tag != WAVE_FORMAT_PCM && format_tag
            != WAVE_FORMAT_EXTENSIBLE ==> format == Err::<CaptureSampleFormat, FormatError>(
            FormatError::UnsupportedTag(format_tag),
        ),
{
    if format_tag == WAVE_FORMAT_IEEE_FLOAT {
        Ok(CaptureSampleFormat::F32)
    } else if format_tag == WAVE_FORMAT_PCM {
        if bits_per_sample == 16 {
            Ok(CaptureSampleFormat::I16)
        } else {
            Err(FormatError::PcmWidth)
        }
    } else if format_tag == WAVE_FORMAT_EXTENSIBLE {
        if sub_format == SubFormat::IeeeFloat {
            Ok(CaptureSampleFormat::F32)
        } else if sub_format == SubFormat::Pcm && bits_per_sample == 16 {
            Ok(CaptureSampleFormat::I16)
        } else {
            Err(FormatError::UnsupportedExtensible)
        }
    } else {
        Err(FormatError::UnsupportedTag(format_tag))
    }
}

/// What a sender holds on a platform without system audio capture: there
/// is nothing to stop.
pub struct UnsupportedCapture;

} // verus!

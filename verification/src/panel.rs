//! The decisions of the control panel: the receivers offered, the settings
//! entered, the log shown, the session's start and stop, and the trusted
//! fingerprints listed.
use crate::discovery::DiscoveredPeer;
use crate::security::{TrustedPeerView, lemma_key_case_insensitive, normalized_key};
use crate::settings::{AppSettings, CaptureDefaults, PreferredPeer, ThemeMode, peer_views};
use crate::text::{
    decimal, decimal_string, join_strings, joined, is_ascii_text, lines_of, text_lowercase, text_uppercase, parse_unsigned,
    parsed_unsigned, push_str, str_contains, contains_chars, str_eq, string_of, text_lines,
    to_lowercase, trim, trimmed, views,
};
use vstd::prelude::*;

verus! {

/// Most preferred receivers remembered.
pub const MAX_PREFERRED_PEERS: usize = 8;

/// Most lines the log keeps.
pub const MAX_LOG_LINES: usize = 14;

/// How to run the program from a terminal.
pub open spec fn usage_text() -> Seq<char> {
    "usage:\n  cargo run -p velin-app\n  cargo run -p velin-app -- listen\n  cargo run -p velin-app -- connect <target-ip>\n\nlegacy aliases:\n  target -> listen\n  source <ip> -> connect <ip>"@
}

/// How to run the program from a terminal.
pub fn usage() -> (text: String)
    ensures
        text@ == usage_text(),
{
    string_of(
        "usage:\n  cargo run -p velin-app\n  cargo run -p velin-app -- listen\n  cargo run -p velin-app -- connect <target-ip>\n\nlegacy aliases:\n  target -> listen\n  source <ip> -> connect <ip>",
    )
}

// ---------------------------------------------------------------------------
// Receivers offered
// ---------------------------------------------------------------------------
/// A receiver the user can pick.
#[derive(Debug)]
pub struct PeerChoice {
    pub label: String,
    pub ip: String,
}

/// The views of choices: label and address.
pub open spec fn choice_views(choices: Seq<PeerChoice>) -> Seq<(Seq<char>, Seq<char>)> {
    choices.map_values(|c: PeerChoice| (c.label@, c.ip@))
}

/// The addresses of labelled entries.
pub open spec fn ips_of(entries: Seq<(Seq<char>, Seq<char>)>) -> Seq<Seq<char>> {
    entries.map_values(|e: (Seq<char>, Seq<char>)| e.1)
}

/// The entries with an address not seen before, in order.
pub open spec fn first_per_ip(entries: Seq<(Seq<char>, Seq<char>)>) -> Seq<(Seq<char>, Seq<char>)>
    decreases entries.len(),
{
    if entries.len() == 0 {
        Seq::empty()
    } else {
        let earlier = first_per_ip(entries.drop_last());
        if ips_of(earlier).contains(entries.last().1) {
            earlier
        } else {
            earlier.push(entries.last())
        }
    }
}

/// Each address is offered at most once.
pub proof fn lemma_first_per_ip_unique(entries: Seq<(Seq<char>, Seq<char>)>)
    ensures
        forall|i: int, j: int|
            0 <= i < j < first_per_ip(entries).len() ==> (#[trigger] first_per_ip(entries)[i]).1
                != (#[trigger] first_per_ip(entries)[j]).1,
    decreases entries.len(),
{
    if entries.len() > 0 {
        let earlier = first_per_ip(entries.drop_last());
        lemma_first_per_ip_unique(entries.drop_last());
        if !ips_of(earlier).contains(entries.last().1) {
            let r = earlier.push(entries.last());
            assert forall|i: int, j: int| 0 <= i < j < r.len() implies (#[trigger] r[i]).1 != (#[trigger] r[j]).1 by {
                if j == r.len() - 1 {
                    assert(ips_of(earlier)[i] == earlier[i].1);
                }
            }
        }
    }
}

/// The entries offered: discovered receivers, then remembered ones labelled
/// `Saved: `.
pub open spec fn offered_entries(
    preferred: Seq<(Seq<char>, Seq<char>)>,
    discovered: Seq<(Seq<char>, Seq<char>)>,
) -> Seq<(Seq<char>, Seq<char>)> {
    discovered + preferred.map_values(|p: (Seq<char>, Seq<char>)| ("Saved: "@ + p.0, p.1))
}

/// The views of discovered receivers: label and address.
pub open spec fn discovered_views(peers: Seq<DiscoveredPeer>) -> Seq<(Seq<char>, Seq<char>)> {
    peers.map_values(|p: DiscoveredPeer| (p.label@, p.ip@))
}

/// Appends `(label, ip)` unless a choice already has that address.
fn offer(choices: &mut Vec<PeerChoice>, label: String, ip: &str)
    ensures
        choice_views(final(choices)@) == if ips_of(choice_views(old(choices)@)).contains(ip@) {
            choice_views(old(choices)@)
        } else {
            choice_views(old(choices)@).push((label@, ip@))
        },
{
    let ghost cv = choice_views(choices@);
    let mut i: usize = 0;
    while i < choices.len()
        invariant
            i <= choices@.len(),
            cv == choice_views(choices@),
            forall|q: int| 0 <= q < i ==> ips_of(cv)[q] != ip@,
        decreases choices@.len() - i,
    {
        assert(ips_of(cv)[i as int] == choices@[i as int].ip@);
        if str_eq(choices[i].ip.as_str(), ip) {
            assert(ips_of(cv).contains(ip@));
            return;
        }
        i += 1;
    }
    assert(!ips_of(cv).contains(ip@));
    choices.push(PeerChoice { label, ip: string_of(ip) });
    assert(choice_views(choices@) =~= cv.push((label@, ip@)));
}

/// The receivers offered: the discovered ones, then the remembered ones
/// labelled `Saved: `, each address once (its first entry kept).
pub fn merged_peer_choices(preferred: &Vec<PreferredPeer>, discovered: &Vec<DiscoveredPeer>) -> (choices:
    Vec<PeerChoice>)
    ensures
        choice_views(choices@) == first_per_ip(
            offered_entries(peer_views(preferred@), discovered_views(discovered@)),
        ),
{
    let ghost all = offered_entries(peer_views(preferred@), discovered_views(discovered@));
    let mut choices: Vec<PeerChoice> = Vec::new();
    let mut i: usize = 0;
    while i < discovered.len()
        invariant
            i <= discovered@.len(),
            all == offered_entries(peer_views(preferred@), discovered_views(discovered@)),
            choice_views(choices@) == first_per_ip(all.take(i as int)),
        decreases discovered@.len() - i,
    {
        let peer = &discovered[i];
        proof {
            assert(all.take(i + 1).drop_last() =~= all.take(i as int));
            assert(all.take(i + 1).last() == (peer.label@, peer.ip@));
        }
        offer(&mut choices, string_of(peer.label.as_str()), peer.ip.as_str());
        i += 1;
    }
    let n = discovered.len();
    let mut j: usize = 0;
    while j < preferred.len()
        invariant
            j <= preferred@.len(),
            n == discovered@.len(),
            all == offered_entries(peer_views(preferred@), discovered_views(discovered@)),
            choice_views(choices@) == first_per_ip(all.take(n + j)),
        decreases preferred@.len() - j,
    {
        let peer = &preferred[j];
        let mut label = string_of("Saved: ");
        push_str(&mut label, peer.label.as_str());
        proof {
            assert(all.take(n + j + 1).drop_last() =~= all.take(n + j));
            assert(all.take(n + j + 1).last() == ("Saved: "@ + peer.label@, peer.ip@));
        }
        offer(&mut choices, label, peer.ip.as_str());
        j += 1;
    }
    assert(all.take(n + preferred@.len()) =~= all);
    choices
}

/// Remembers `(label, ip)` as the most recent receiver: it becomes the
/// target and moves to the front of the remembered ones, which keep at most
/// eight.
pub fn remember_preferred_peer(settings: &mut AppSettings, label: &str, ip: &str)
    ensures
        final(settings).target_ip@ == ip@,
        final(settings).bind_ip == old(settings).bind_ip,
        final(settings).output_device_name == old(settings).output_device_name,
        final(settings).control_port == old(settings).control_port,
        final(settings).audio_port == old(settings).audio_port,
        final(settings).theme_mode == old(settings).theme_mode,
        final(settings).capture_mode == old(settings).capture_mode,
        final(settings).capture_source_name == old(settings).capture_source_name,
        final(settings).microphone_device_name == old(settings).microphone_device_name,
        ({
            let remembered = seq![(label@, ip@)] + peer_views(old(settings).preferred_peers@).filter(
                |p: (Seq<char>, Seq<char>)| p.1 != ip@,
            );
            peer_views(final(settings).preferred_peers@) == if remembered.len() > 8 {
                remembered.take(8)
            } else {
                remembered
            }
        }),
{
    settings.target_ip = string_of(ip);
    let ghost pred = |p: (Seq<char>, Seq<char>)| p.1 != ip@;
    let mut old_peers: Vec<PreferredPeer> = Vec::new();
    std::mem::swap(&mut old_peers, &mut settings.preferred_peers);
    let ghost olds = old_peers@;
    let mut kept: Vec<PreferredPeer> = Vec::new();
    kept.push(PreferredPeer { label: string_of(label), ip: string_of(ip) });
    for peer in it: old_peers
        invariant
            olds == it.seq(),
            pred == (|p: (Seq<char>, Seq<char>)| p.1 != ip@),
            peer_views(kept@) == seq![(label@, ip@)] + peer_views(olds.take(it.index() as int)).filter(pred),
    {
        let ghost k = it.index();
        assert(olds[k as int] == peer);
        let ghost before = kept@;
        let ghost pv = (peer.label@, peer.ip@);
        if !str_eq(peer.ip.as_str(), ip) {
            kept.push(peer);
        }
        proof {
            reveal_with_fuel(Seq::<_>::filter, 1);
            let t = peer_views(olds.take(k + 1));
            assert(t.drop_last() =~= peer_views(olds.take(k as int)));
            assert(t.last() == pv);
            if pred(pv) {
                assert(peer_views(kept@) =~= peer_views(before).push(pv));
            }
            assert(peer_views(kept@) =~= seq![(label@, ip@)] + t.filter(pred));
        }
    }
    assert(olds.take(olds.len() as int) =~= olds);
    if kept.len() > MAX_PREFERRED_PEERS {
        kept.truncate(MAX_PREFERRED_PEERS);
        assert(peer_views(kept@) =~= (seq![(label@, ip@)] + peer_views(olds).filter(pred)).take(8));
    }
    settings.preferred_peers = kept;
}

/// The labels of the receivers offered, or a note that none were found.
pub fn peer_option_labels(choices: &Vec<PeerChoice>) -> (labels: Vec<String>)
    ensures
        choices@.len() == 0 ==> views(labels@) == seq!["No receivers found"@],
        choices@.len() > 0 ==> views(labels@) == choice_views(choices@).map_values(
            |c: (Seq<char>, Seq<char>)| c.0,
        ),
{
    let mut labels: Vec<String> = Vec::new();
    if choices.len() == 0 {
        labels.push(string_of("No receivers found"));
        assert(views(labels@) =~= seq!["No receivers found"@]);
        return labels;
    }
    let mut i: usize = 0;
    while i < choices.len()
        invariant
            i <= choices@.len(),
            labels@.len() == i,
            forall|q: int| 0 <= q < i ==> (#[trigger] labels@[q])@ == choices@[q].label@,
        decreases choices@.len() - i,
    {
        labels.push(string_of(choices[i].label.as_str()));
        i += 1;
    }
    assert(views(labels@) =~= choice_views(choices@).map_values(|c: (Seq<char>, Seq<char>)| c.0));
    labels
}

/// The label of the receiver to select: the first one at the current
/// target address, else the first one, else a note that none were found.
pub open spec fn peer_selection_of(choices: Seq<(Seq<char>, Seq<char>)>, target_ip: Seq<char>) -> Seq<char> {
    if exists|i: int| 0 <= i < choices.len() && choices[i].1 == target_ip {
        choices[choose|i: int|
            0 <= i < choices.len() && choices[i].1 == target_ip && forall|j: int|
                0 <= j < i ==> choices[j].1 != target_ip].0
    } else if choices.len() > 0 {
        choices[0].0
    } else {
        "No receivers found"@
    }
}

/// The receiver to select among `choices` for the current target address.
pub fn peer_selection(choices: &Vec<PeerChoice>, target_ip: &str) -> (label: String)
    ensures
        label@ == peer_selection_of(choice_views(choices@), target_ip@),
{
    let ghost cv = choice_views(choices@);
    let mut i: usize = 0;
    while i < choices.len()
        invariant
            i <= choices@.len(),
            cv == choice_views(choices@),
            forall|q: int| 0 <= q < i ==> cv[q].1 != target_ip@,
        decreases choices@.len() - i,
    {
        assert(cv[i as int] == (choices@[i as int].label@, choices@[i as int].ip@));
        if str_eq(choices[i].ip.as_str(), target_ip) {
            proof {
                let c = choose|c: int|
                    0 <= c < cv.len() && cv[c].1 == target_ip@ && forall|j: int|
                        0 <= j < c ==> cv[j].1 != target_ip@;
                assert(0 <= i < cv.len() && cv[i as int].1 == target_ip@ && forall|j: int|
                    0 <= j < i ==> cv[j].1 != target_ip@);
                if c < i {
                } else if c > i {
                    assert(cv[i as int].1 != target_ip@);
                }
            }
            return string_of(choices[i].label.as_str());
        }
        i += 1;
    }
    if choices.len() > 0 {
        assert(cv[0] == (choices@[0].label@, choices@[0].ip@));
        string_of(choices[0].label.as_str())
    } else {
        string_of("No receivers found")
    }
}

// ---------------------------------------------------------------------------
// Settings entered
// ---------------------------------------------------------------------------
/// The address to bind for a selection: every interface for `Automatic` or
/// a blank selection, else the selection trimmed.
pub fn selected_bind_ip(selection: &str) -> (ip: String)
    ensures
        ip@ == (if trimmed(selection@).len() == 0 || selection@ == "Automatic"@ {
            "0.0.0.0"@
        } else {
            trimmed(selection@)
        }),
{
    let t = trim(selection);
    if t.as_str().is_empty() || str_eq(selection, "Automatic") {
        string_of("0.0.0.0")
    } else {
        t
    }
}

/// The output device for a selection: the default (empty) for
/// `System Default` or a blank selection, else the selection trimmed.
pub fn selected_output_device(selection: &str) -> (name: String)
    ensures
        name@ == (if trimmed(selection@).len() == 0 || selection@ == "System Default"@ {
            Seq::<char>::empty()
        } else {
            trimmed(selection@)
        }),
{
    let t = trim(selection);
    if t.as_str().is_empty() || str_eq(selection, "System Default") {
        String::new()
    } else {
        t
    }
}

/// Whether `options` holds `value`.
fn holds(options: &Vec<String>, value: &str) -> (found: bool)
    ensures
        found == views(options@).contains(value@),
{
    let mut i: usize = 0;
    while i < options.len()
        invariant
            i <= options@.len(),
            forall|q: int| 0 <= q < i ==> views(options@)[q] != value@,
        decreases options@.len() - i,
    {
        assert(views(options@)[i as int] == options@[i as int]@);
        if str_eq(options[i].as_str(), value) {
            return true;
        }
        i += 1;
    }
    false
}

/// The bind option shown for a configured address: `Automatic` for every
/// interface or an address that is not offered.
pub fn bind_ip_selection_label(bind_ip: &str, options: &Vec<String>) -> (label: String)
    ensures
        label@ == ({
            let n = trimmed(bind_ip@);
            if n.len() == 0 || n == "0.0.0.0"@ || !views(options@).contains(n) {
                "Automatic"@
            } else {
                n
            }
        }),
{
    let n = trim(bind_ip);
    if n.as_str().is_empty() || str_eq(n.as_str(), "0.0.0.0") || !holds(options, n.as_str()) {
        string_of("Automatic")
    } else {
        n
    }
}

/// The output option shown for a configured device: the default device's
/// name when none is configured and that name is offered, the configured
/// name when it is offered, `System Default` otherwise.
pub fn output_device_selection_label(
    output_device_name: &str,
    options: &Vec<String>,
    default_device_name: &Option<String>,
) -> (label: String)
    ensures
        label@ == ({
            let n = trimmed(output_device_name@);
            if n.len() == 0 {
                match *default_device_name {
                    Some(d) => if views(options@).contains(d@) {
                        d@
                    } else {
                        "System Default"@
                    },
                    None => "System Default"@,
                }
            } else if views(options@).contains(n) {
                n
            } else {
                "System Default"@
            }
        }),
{
    let n = trim(output_device_name);
    if n.as_str().is_empty() {
        return match default_device_name {
            Some(d) => if holds(options, d.as_str()) {
                string_of(d.as_str())
            } else {
                string_of("System Default")
            },
            None => string_of("System Default"),
        };
    }
    if holds(options, n.as_str()) {
        n
    } else {
        string_of("System Default")
    }
}

/// Why entered settings are refused.
#[derive(Debug, Clone, Copy, PartialEq, Eq, Structural)]
pub enum SettingsInputError {
    /// The control port is not a number from 0 to 65535.
    InvalidControlPort,
    /// The audio port is not a number from 0 to 65535.
    InvalidAudioPort,
}

/// Settings from what the user entered: addresses and device trimmed,
/// ports parsed, the theme chosen, the remembered receivers and capture
/// defaults kept.
pub fn parse_settings_input(
    target_ip: &str,
    bind_ip: &str,
    output_device_name: &str,
    control_port: &str,
    audio_port: &str,
    dark_mode: bool,
    preferred_peers: Vec<PreferredPeer>,
    capture: CaptureDefaults,
) -> (settings: Result<AppSettings, SettingsInputError>)
    ensures
        match settings {
            Ok(s) => {
                &&& parsed_unsigned(trimmed(control_port@), 65535) == Some(s.control_port as nat)
                &&& parsed_unsigned(trimmed(audio_port@), 65535) == Some(s.audio_port as nat)
                &&& s.target_ip@ == trimmed(target_ip@)
                &&& s.bind_ip@ == trimmed(bind_ip@)
                &&& s.output_device_name@ == trimmed(output_device_name@)
                &&& s.theme_mode == (if dark_mode {
                    ThemeMode::Dark
                } else {
                    ThemeMode::Light
                })
                &&& s.preferred_peers@ == preferred_peers@
                &&& s.capture_mode == capture.capture_mode
                &&& s.capture_source_name == capture.capture_source_name
                &&& s.microphone_device_name == capture.microphone_device_name
            },
            Err(SettingsInputError::InvalidControlPort) => parsed_unsigned(trimmed(control_port@), 65535)
                is None,
            Err(SettingsInputError::InvalidAudioPort) => {
                &&& parsed_unsigned(trimmed(control_port@), 65535) is Some
                &&& parsed_unsigned(trimmed(audio_port@), 65535) is None
            },
        },
{
    let c = trim(control_port);
    let control = match parse_unsigned(c.as_str(), 65535) {
        Some(v) => v as u16,
        None => {
            return Err(SettingsInputError::InvalidControlPort);
        },
    };
    let a = trim(audio_port);
    let audio = match parse_unsigned(a.as_str(), 65535) {
        Some(v) => v as u16,
        None => {
            return Err(SettingsInputError::InvalidAudioPort);
        },
    };
    Ok(
        AppSettings {
            target_ip: trim(target_ip),
            bind_ip: trim(bind_ip),
            output_device_name: trim(output_device_name),
            control_port: control,
            audio_port: audio,
            theme_mode: if dark_mode {
                ThemeMode::Dark
            } else {
                ThemeMode::Light
            },
            capture_mode: capture.capture_mode,
            capture_source_name: capture.capture_source_name,
            microphone_device_name: capture.microphone_device_name,
            preferred_peers,
        },
    )
}

/// The number of days entered for how long trust lasts: a whole number
/// from 1 up to `u32::MAX`, surrounding whitespace ignored.
pub fn parse_validity_days(input: &str) -> (days: Option<u32>)
    ensures
        match (days, parsed_unsigned(trimmed(input@), u32::MAX as nat)) {
            (Some(d), Some(v)) => d == v && d > 0,
            (None, Some(v)) => v == 0,
            (None, None) => true,
            _ => false,
        },
{
    let t = trim(input);
    match parse_unsigned(t.as_str(), u32::MAX as u64) {
        Some(v) => if v > 0 {
            Some(v as u32)
        } else {
            None
        },
        None => None,
    }
}

// ---------------------------------------------------------------------------
// The log
// ---------------------------------------------------------------------------
/// The log after `line`: its non-blank lines and the new one, the last
/// fourteen kept, each ended by a newline.
pub open spec fn log_after(existing: Seq<char>, line: Seq<char>) -> Seq<char> {
    let kept = text_lines(existing).filter(|l: Seq<char>| trimmed(l).len() > 0).push(line);
    let last = if kept.len() > 14 {
        kept.skip(kept.len() - 14)
    } else {
        kept
    };
    joined(last, "\n"@) + "\n"@
}

/// Adds `line` to the log text `existing`.
pub fn push_log_line(existing: &str, line: &str) -> (log: String)
    ensures
        log@ == log_after(existing@, line@),
{
    let all = lines_of(existing);
    let ghost pred = |l: Seq<char>| trimmed(l).len() > 0;
    let ghost src = text_lines(existing@);
    let mut kept: Vec<String> = Vec::new();
    let mut i: usize = 0;
    while i < all.len()
        invariant
            i <= all@.len(),
            all@.len() == src.len(),
            forall|q: int| 0 <= q < all@.len() ==> (#[trigger] all@[q])@ == src[q],
            pred == (|l: Seq<char>| trimmed(l).len() > 0),
            views(kept@) == src.take(i as int).filter(pred),
        decreases all@.len() - i,
    {
        let t = trim(all[i].as_str());
        let ghost before = kept@;
        if !t.as_str().is_empty() {
            kept.push(string_of(all[i].as_str()));
        }
        proof {
            reveal_with_fuel(Seq::<_>::filter, 1);
            let s = src.take(i + 1);
            assert(s.drop_last() =~= src.take(i as int));
            assert(s.last() == all@[i as int]@);
            if pred(s.last()) {
                assert(views(kept@) =~= views(before).push(all@[i as int]@));
            }
            assert(views(kept@) =~= s.filter(pred));
        }
        i += 1;
    }
    assert(src.take(src.len() as int) =~= src);
    kept.push(string_of(line));
    let ghost full = views(kept@);
    assert(full =~= src.filter(pred).push(line@));
    let mut last: Vec<String> = Vec::new();
    let start: usize = if kept.len() > MAX_LOG_LINES {
        kept.len() - MAX_LOG_LINES
    } else {
        0
    };
    let mut j: usize = start;
    while j < kept.len()
        invariant
            start <= j <= kept@.len(),
            views(kept@) == full,
            last@.len() == j - start,
            forall|q: int| 0 <= q < j - start ==> (#[trigger] last@[q])@ == full[start + q],
        decreases kept@.len() - j,
    {
        assert(full[j as int] == kept@[j as int]@);
        last.push(string_of(kept[j].as_str()));
        j += 1;
    }
    assert(views(last@) =~= full.subrange(start as int, full.len() as int));
    proof {
        if full.len() > 14 {
            assert(full.subrange(start as int, full.len() as int) =~= full.skip(full.len() - 14));
        } else {
            assert(full.subrange(0, full.len() as int) =~= full);
        }
    }
    let mut log = join_strings(&last, "\n");
    log.push('\n');
    proof {
        reveal_strlit("\n");
    }
    log
}

// ---------------------------------------------------------------------------
// Errors shown to the user
// ---------------------------------------------------------------------------
/// The message shown when a session ends with the error `text`.
pub open spec fn session_error_message(text: Seq<char>) -> Seq<char> {
    let lower = text_lowercase(text);
    if contains_chars(lower, "actively refused"@) || contains_chars(lower, "os error 10061"@) {
        "Connection failed. No receiver is listening at that IP and port."@
    } else if contains_chars(lower, "failed to bind control listener"@) || contains_chars(
        lower,
        "failed to bind audio socket"@,
    ) || contains_chars(lower, "address already in use"@) {
        "Start failed. One of the configured ports is already in use."@
    } else if contains_chars(lower, "failed to bind local udp socket"@) {
        "Start failed. Could not create the local audio socket."@
    } else {
        "Session failed. "@ + text
    }
}

/// A message for the user about a session that ended with the error
/// `text` (the error with its causes).
pub fn describe_session_error(text: &str) -> (message: String)
    ensures
        message@ == session_error_message(text@),
{
    let lower = to_lowercase(text);
    let l = lower.as_str();
    if str_contains(l, "actively refused") || str_contains(l, "os error 10061") {
        return string_of("Connection failed. No receiver is listening at that IP and port.");
    }
    if str_contains(l, "failed to bind control listener") || str_contains(l, "failed to bind audio socket")
        || str_contains(l, "address already in use") {
        return string_of("Start failed. One of the configured ports is already in use.");
    }
    if str_contains(l, "failed to bind local udp socket") {
        return string_of("Start failed. Could not create the local audio socket.");
    }
    let mut message = string_of("Session failed. ");
    push_str(&mut message, text);
    message
}

// ---------------------------------------------------------------------------
// Trusted fingerprints listed
// ---------------------------------------------------------------------------
/// A trusted peer as listed for removal.
#[derive(Debug)]
pub struct TrustedFingerprintChoice {
    pub label: String,
    pub fingerprint: String,
}

/// How long trust lasts, as listed.
pub open spec fn expiry_text(days: Option<u32>) -> Seq<char> {
    match days {
        Some(d) => decimal(d as nat) + "d left"@,
        None => "expired"@,
    }
}

/// The label of a trusted peer: name, fingerprint and remaining days.
pub open spec fn fingerprint_label(name: Seq<char>, fingerprint: Seq<char>, days: Option<u32>) -> Seq<char> {
    name + " | "@ + fingerprint + " | "@ + expiry_text(days)
}

/// `choices` lists `views`, one choice per view in the same order.
pub open spec fn choices_of(choices: Seq<TrustedFingerprintChoice>, views: Seq<TrustedPeerView>) -> bool {
    &&& choices.len() == views.len()
    &&& forall|i: int|
        0 <= i < views.len() ==> (#[trigger] choices[i]).label@ == fingerprint_label(
            views[i].machine_name@,
            views[i].fingerprint@,
            views[i].expires_in_days,
        ) && choices[i].fingerprint@ == views[i].fingerprint@
}

/// The trusted peers as listed for removal.
pub fn fingerprint_choices(peers: &Vec<TrustedPeerView>) -> (choices: Vec<TrustedFingerprintChoice>)
    ensures
        choices_of(choices@, peers@),
{
    let mut choices: Vec<TrustedFingerprintChoice> = Vec::new();
    let mut i: usize = 0;
    while i < peers.len()
        invariant
            i <= peers@.len(),
            choices@.len() == i,
            forall|q: int|
                0 <= q < i ==> (#[trigger] choices@[q]).label@ == fingerprint_label(
                    peers@[q].machine_name@,
                    peers@[q].fingerprint@,
                    peers@[q].expires_in_days,
                ) && choices@[q].fingerprint@ == peers@[q].fingerprint@,
        decreases peers@.len() - i,
    {
        let p = &peers[i];
        let mut label = string_of(p.machine_name.as_str());
        push_str(&mut label, " | ");
        push_str(&mut label, p.fingerprint.as_str());
        push_str(&mut label, " | ");
        match p.expires_in_days {
            Some(d) => {
                let n = decimal_string(d as u64);
                push_str(&mut label, n.as_str());
                push_str(&mut label, "d left");
            },
            None => push_str(&mut label, "expired"),
        }
        proof {
            reveal_strlit(" | ");
            reveal_strlit("d left");
            reveal_strlit("expired");
            assert(label@ =~= fingerprint_label(p.machine_name@, p.fingerprint@, p.expires_in_days));
        }
        choices.push(TrustedFingerprintChoice { label, fingerprint: string_of(p.fingerprint.as_str()) });
        i += 1;
    }
    choices
}

/// The options listed: the choices' labels, or a note that there are none.
pub fn fingerprint_options(choices: &Vec<TrustedFingerprintChoice>) -> (options: Vec<String>)
    ensures
        choices@.len() == 0 ==> views(options@) == seq!["No trusted fingerprints"@],
        choices@.len() > 0 ==> views(options@) == choices@.map_values(|c: TrustedFingerprintChoice| c.label@),
{
    let mut options: Vec<String> = Vec::new();
    if choices.len() == 0 {
        options.push(string_of("No trusted fingerprints"));
        assert(views(options@) =~= seq!["No trusted fingerprints"@]);
        return options;
    }
    let mut i: usize = 0;
    while i < choices.len()
        invariant
            i <= choices@.len(),
            options@.len() == i,
            forall|q: int| 0 <= q < i ==> (#[trigger] options@[q])@ == choices@[q].label@,
        decreases choices@.len() - i,
    {
        options.push(string_of(choices[i].label.as_str()));
        i += 1;
    }
    assert(views(options@) =~= choices@.map_values(|c: TrustedFingerprintChoice| c.label@));
    options
}

/// Whether the list's selection `current` has to move to the first option:
/// when it is empty, the note that there are none, or no longer listed.
pub open spec fn selection_stale(current: Seq<char>, labels: Seq<Seq<char>>) -> bool {
    current.len() == 0 || current == "No trusted fingerprints"@ || !labels.contains(current)
}

/// The selection to show after the list changed: `None` keeps `current`,
/// else the first option.
pub fn fingerprint_selection(current: &str, choices: &Vec<TrustedFingerprintChoice>) -> (selection: Option<
    String,
>)
    ensures
        match selection {
            Some(s) => {
                &&& selection_stale(current@, choices@.map_values(|c: TrustedFingerprintChoice| c.label@))
                &&& s@ == (if choices@.len() == 0 {
                    "No trusted fingerprints"@
                } else {
                    choices@[0].label@
                })
            },
            None => !selection_stale(current@, choices@.map_values(|c: TrustedFingerprintChoice| c.label@)),
        },
{
    let ghost labels = choices@.map_values(|c: TrustedFingerprintChoice| c.label@);
    let mut listed = false;
    let mut i: usize = 0;
    while i < choices.len()
        invariant
            i <= choices@.len(),
            labels == choices@.map_values(|c: TrustedFingerprintChoice| c.label@),
            listed == exists|q: int| 0 <= q < i && #[trigger] labels[q] == current@,
        decreases choices@.len() - i,
    {
        assert(labels[i as int] == choices@[i as int].label@);
        if str_eq(choices[i].label.as_str(), current) {
            listed = true;
        }
        i += 1;
    }
    proof {
        if listed {
            let q = choose|q: int| 0 <= q < choices@.len() && #[trigger] labels[q] == current@;
            assert(labels.contains(current@));
        } else {
            assert(!labels.contains(current@));
        }
    }
    if current.is_empty() || str_eq(current, "No trusted fingerprints") || !listed {
        if choices.len() == 0 {
            Some(string_of("No trusted fingerprints"))
        } else {
            Some(string_of(choices[0].label.as_str()))
        }
    } else {
        None
    }
}

// ---------------------------------------------------------------------------
// Starting and stopping a session
// ---------------------------------------------------------------------------
/// Whether a session runs, is muted, and whether the window closes when it
/// stops.
#[derive(Debug)]
pub struct SessionPanel {
    pub running: bool,
    pub muted: bool,
    pub exit_when_stopped: bool,
}

/// What a stop request does.
#[derive(Debug)]
pub enum StopAction {
    /// Signal the running session to stop and show `message`.
    SignalStop { message: String },
    /// No session runs and the window is closing: quit now.
    Quit,
    /// No session runs: nothing to do.
    Nothing,
}

/// How a finished session is reported.
#[derive(Debug)]
pub struct FinishReport {
    /// The status line.
    pub status: String,
    /// Whether the window was waiting for the session to close.
    pub exit: bool,
}

impl SessionPanel {
    /// No session running.
    pub fn new() -> (panel: Self)
        ensures
            !panel.running,
            !panel.muted,
            !panel.exit_when_stopped,
    {
        SessionPanel { running: false, muted: false, exit_when_stopped: false }
    }

    /// Starts a session unless one runs; says whether it started.
    pub fn begin(&mut self) -> (started: bool)
        ensures
            started == !old(self).running,
            started ==> final(self).running && !final(self).muted && !final(self).exit_when_stopped,
            !started ==> *final(self) == *old(self),
    {
        if self.running {
            return false;
        }
        self.running = true;
        self.muted = false;
        self.exit_when_stopped = false;
        true
    }

    /// A session ended, with the error `error` (with its causes) or without.
    pub fn finish(&mut self, error: Option<&str>) -> (report: FinishReport)
        ensures
            !final(self).running,
            !final(self).muted,
            !final(self).exit_when_stopped,
            report.exit == old(self).exit_when_stopped,
            report.status@ == match error {
                Some(text) => session_error_message(text@),
                None => "Stopped."@,
            },
    {
        let exit = self.exit_when_stopped;
        self.running = false;
        self.muted = false;
        self.exit_when_stopped = false;
        let status = match error {
            Some(text) => describe_session_error(text),
            None => string_of("Stopped."),
        };
        FinishReport { status, exit }
    }

    /// The user asks to stop; `exit_when_stopped` when the window is
    /// closing.
    pub fn request_stop(&mut self, exit_when_stopped: bool) -> (action: StopAction)
        ensures
            final(self).exit_when_stopped == exit_when_stopped,
            final(self).running == old(self).running,
            final(self).muted == old(self).muted,
            match action {
                StopAction::SignalStop { message } => old(self).running && message@ == if exit_when_stopped {
                    "Stopping session and closing..."@
                } else {
                    "Stopping session..."@
                },
                StopAction::Quit => !old(self).running && exit_when_stopped,
                StopAction::Nothing => !old(self).running && !exit_when_stopped,
            },
    {
        self.exit_when_stopped = exit_when_stopped;
        if self.running {
            let message = if exit_when_stopped {
                string_of("Stopping session and closing...")
            } else {
                string_of("Stopping session...")
            };
            StopAction::SignalStop { message }
        } else if exit_when_stopped {
            StopAction::Quit
        } else {
            StopAction::Nothing
        }
    }

    /// Mutes or unmutes the running session; the status line to show, or
    /// `None` when no session runs.
    pub fn toggle_mute(&mut self) -> (message: Option<String>)
        ensures
            final(self).running == old(self).running,
            final(self).exit_when_stopped == old(self).exit_when_stopped,
            old(self).running ==> final(self).muted == !old(self).muted,
            !old(self).running ==> final(self).muted == old(self).muted && message is None,
            match message {
                Some(m) => old(self).running && m@ == if final(self).muted {
                    "Session muted."@
                } else {
                    "Session unmuted."@
                },
                None => !old(self).running,
            },
    {
        if !self.running {
            return None;
        }
        self.muted = !self.muted;
        if self.muted {
            Some(string_of("Session muted."))
        } else {
            Some(string_of("Session unmuted."))
        }
    }
}

// ---------------------------------------------------------------------------
// The command line
// ---------------------------------------------------------------------------
/// How a session without the window confirms a new peer's fingerprint.
#[derive(Debug, Clone, Copy, PartialEq, Eq, Structural)]
pub enum PairingMode {
    /// Only already-trusted peers are accepted.
    TrustedOnly,
    /// The terminal asks the user.
    Terminal,
}

/// What the command line asks for.
#[derive(Debug)]
pub enum CliCommand {
    /// Open the window.
    Gui,
    /// Receive streams.
    Receiver { pairing: PairingMode },
    /// Send to `target_ip`, or to the saved target when it is `None`.
    Sender { target_ip: Option<String>, pairing: PairingMode },
}

/// The command line is not understood; the usage text applies.
#[derive(Debug, Clone, Copy, PartialEq, Eq, Structural)]
pub enum CliError {
    Usage,
}

/// The argument at `i`, if there is one.
pub open spec fn arg(args: Seq<Seq<char>>, i: int) -> Option<Seq<char>> {
    if 0 <= i < args.len() {
        Some(args[i])
    } else {
        None
    }
}

/// The role a command line starts.
#[derive(Debug, Clone, Copy, PartialEq, Eq, Structural)]
pub enum CliRole {
    Window,
    Receive,
    Send,
}

/// What the command line `args` (program name first) asks for: the role,
/// the target address given, and how new peers are confirmed.
pub open spec fn cli_command_of(args: Seq<Seq<char>>) -> Option<(CliRole, Option<Seq<char>>, PairingMode)> {
    let mode = arg(args, 1);
    if mode is None || mode == Some("gui"@) {
        Some((CliRole::Window, None, PairingMode::TrustedOnly))
    } else if mode == Some("target"@) || mode == Some("listen"@) {
        Some((CliRole::Receive, None, PairingMode::TrustedOnly))
    } else if mode == Some("source"@) || mode == Some("connect"@) {
        match arg(args, 2) {
            Some(ip) => Some((CliRole::Send, Some(ip), PairingMode::TrustedOnly)),
            None => None,
        }
    } else if mode == Some("headless"@) || mode == Some("service"@) {
        let pairing = if mode == Some("headless"@) {
            PairingMode::Terminal
        } else {
            PairingMode::TrustedOnly
        };
        if arg(args, 2) == Some("receiver"@) {
            Some((CliRole::Receive, None, pairing))
        } else if arg(args, 2) == Some("sender"@) {
            Some((CliRole::Send, arg(args, 3), pairing))
        } else {
            None
        }
    } else {
        None
    }
}

/// Whether argument `i` is `word`.
fn arg_is(args: &Vec<String>, i: usize, word: &str) -> (b: bool)
    ensures
        b == (arg(views(args@), i as int) == Some(word@)),
{
    if i < args.len() {
        assert(views(args@)[i as int] == args@[i as int]@);
        str_eq(args[i].as_str(), word)
    } else {
        false
    }
}

/// The argument at `i`, copied.
fn arg_at(args: &Vec<String>, i: usize) -> (a: Option<String>)
    ensures
        match (a, arg(views(args@), i as int)) {
            (Some(x), Some(y)) => x@ == y,
            (None, None) => true,
            _ => false,
        },
{
    if i < args.len() {
        assert(views(args@)[i as int] == args@[i as int]@);
        Some(string_of(args[i].as_str()))
    } else {
        None
    }
}

/// Reads the command line (program name first): nothing or `gui` opens the
/// window; `listen`/`target` receives and `connect`/`source <ip>` sends,
/// both accepting trusted peers only; `headless` and `service` followed by
/// `receiver` or `sender [ip]` run without the window, `headless` asking in
/// the terminal to confirm new peers, `service` accepting trusted peers
/// only.
pub fn parse_cli(args: &Vec<String>) -> (command: Result<CliCommand, CliError>)
    ensures
        match (command, cli_command_of(views(args@))) {
            (Ok(CliCommand::Gui), Some((CliRole::Window, _, _))) => true,
            (Ok(CliCommand::Receiver { pairing }), Some((CliRole::Receive, _, p))) => pairing == p,
            (Ok(CliCommand::Sender { target_ip, pairing }), Some((CliRole::Send, t, p))) => pairing == p && match (
                target_ip,
                t,
            ) {
                (Some(x), Some(y)) => x@ == y,
                (None, None) => true,
                _ => false,
            },
            (Err(CliError::Usage), None) => true,
            _ => false,
        },
{
    if args.len() < 2 || arg_is(args, 1, "gui") {
        return Ok(CliCommand::Gui);
    }
    if arg_is(args, 1, "target") || arg_is(args, 1, "listen") {
        return Ok(CliCommand::Receiver { pairing: PairingMode::TrustedOnly });
    }
    if arg_is(args, 1, "source") || arg_is(args, 1, "connect") {
        return match arg_at(args, 2) {
            Some(ip) => Ok(CliCommand::Sender { target_ip: Some(ip), pairing: PairingMode::TrustedOnly }),
            None => Err(CliError::Usage),
        };
    }
    let headless = arg_is(args, 1, "headless");
    if headless || arg_is(args, 1, "service") {
        let pairing = if headless {
            PairingMode::Terminal
        } else {
            PairingMode::TrustedOnly
        };
        if arg_is(args, 2, "receiver") {
            return Ok(CliCommand::Receiver { pairing });
        }
        if arg_is(args, 2, "sender") {
            return Ok(CliCommand::Sender { target_ip: arg_at(args, 3), pairing });
        }
    }
    Err(CliError::Usage)
}

/// Whether an answer typed at the terminal approves a fingerprint: `y` or
/// `yes` in any case, surrounding whitespace ignored.
pub open spec fn approves(answer: Seq<char>) -> bool {
    let a = text_lowercase(trimmed(answer));
    a == "y"@ || a == "yes"@
}

/// An answer approves or not whatever its letter case: on ASCII text,
/// upper- or lower-casing the answer does not change the decision.
pub proof fn lemma_approval_ignores_case(answer: Seq<char>)
    requires
        is_ascii_text(answer),
    ensures
        approves(text_uppercase(answer)) == approves(answer),
        approves(text_lowercase(answer)) == approves(answer),
{
    lemma_key_case_insensitive(answer);
    assert(normalized_key(answer) == text_lowercase(trimmed(answer)));
    assert(normalized_key(text_uppercase(answer)) == text_lowercase(trimmed(text_uppercase(answer))));
    assert(normalized_key(text_lowercase(answer)) == text_lowercase(trimmed(text_lowercase(answer))));
}

/// Whether an answer typed at the terminal approves a fingerprint.
pub fn answer_approves(answer: &str) -> (approved: bool)
    ensures
        approved == approves(answer@),
{
    let t = trim(answer);
    let a = to_lowercase(t.as_str());
    str_eq(a.as_str(), "y") || str_eq(a.as_str(), "yes")
}

} // verus!

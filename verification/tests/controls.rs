use velin::discovery::DiscoveredPeer;
use velin::panel::{
    bind_ip_selection_label, describe_session_error, fingerprint_choices, fingerprint_options, fingerprint_selection,
    merged_peer_choices, output_device_selection_label, parse_settings_input, parse_validity_days, peer_option_labels,
    peer_selection, push_log_line, remember_preferred_peer, selected_bind_ip, selected_output_device, usage,
    answer_approves, parse_cli, CliCommand, CliError, PairingMode, SessionPanel, SettingsInputError, StopAction,
};
use velin::proto::{DEFAULT_AUDIO_PORT, DEFAULT_CONTROL_PORT, DEFAULT_DISCOVERY_PORT};
use velin::security::TrustedPeerView;
use velin::settings::{
    config_file_path, AppSettings, CaptureDefaults, CaptureMode, ConfigEnvironment, ConfigPathError, PreferredPeer, SettingsStore,
    ThemeMode,
};
use velin::text::{decimal_string, join_strings, lines_of, parse_unsigned, split_whitespace, str_lt, trim};

fn strings(items: &[&str]) -> Vec<String> {
    items.iter().map(|s| s.to_string()).collect()
}

fn preferred(label: &str, ip: &str) -> PreferredPeer {
    PreferredPeer { label: label.to_string(), ip: ip.to_string() }
}

#[test]
fn default_settings() {
    let settings = AppSettings::default();
    assert_eq!(settings.target_ip, "127.0.0.1");
    assert_eq!(settings.bind_ip, "0.0.0.0");
    assert_eq!(settings.output_device_name, "");
    assert_eq!((settings.control_port, settings.audio_port), (49000, 49001));
    assert_eq!((DEFAULT_CONTROL_PORT, DEFAULT_AUDIO_PORT, DEFAULT_DISCOVERY_PORT), (49000, 49001, 49002));
    assert_eq!(settings.theme_mode, ThemeMode::Dark);
    assert_eq!(settings.capture_mode, CaptureMode::System);
    assert!(settings.capture_source_name.is_empty() && settings.microphone_device_name.is_empty());
    assert!(settings.preferred_peers.is_empty());
}

#[test]
fn session_config_copies_the_settings() {
    let mut settings = AppSettings::default();
    settings.target_ip = "10.0.0.4".to_string();
    settings.output_device_name = "Speakers".to_string();
    settings.control_port = 1234;
    settings.capture_mode = CaptureMode::SystemPlusMicrophone;
    settings.microphone_device_name = "USB mic".to_string();
    let config = settings.session_config();
    assert_eq!(config.microphone_device_name, "USB mic");
    assert_eq!(config.capture_source_name, "");
    assert_eq!(config.target_ip, "10.0.0.4");
    assert_eq!(config.bind_ip, "0.0.0.0");
    assert_eq!(config.output_device_name, "Speakers");
    assert_eq!(config.capture_mode, CaptureMode::SystemPlusMicrophone);
    assert_eq!((config.control_port, config.audio_port), (1234, 49001));
}

fn env(is_windows: bool, appdata: Option<&str>, xdg: Option<&str>, home: Option<&str>, profile: Option<&str>) -> ConfigEnvironment {
    ConfigEnvironment {
        is_windows,
        appdata: appdata.map(String::from),
        xdg_config_home: xdg.map(String::from),
        home: home.map(String::from),
        userprofile: profile.map(String::from),
    }
}

#[test]
fn configuration_paths() {
    let path = config_file_path(&env(true, Some("C:\\AppData"), Some("/x"), None, None), "settings.json").unwrap();
    assert_eq!(path, strings(&["C:\\AppData", "velin", "settings.json"]));
    let path = config_file_path(&env(false, Some("ignored"), Some("/xdg"), Some("/home/u"), None), "security.json").unwrap();
    assert_eq!(path, strings(&["/xdg", "velin", "security.json"]));
    let path = config_file_path(&env(false, None, None, Some("/home/u"), Some("/p")), "a.json").unwrap();
    assert_eq!(path, strings(&["/home/u", ".config", "velin", "a.json"]));
    let path = config_file_path(&env(true, None, None, None, Some("C:\\Users\\u")), "a.json").unwrap();
    assert_eq!(path, strings(&["C:\\Users\\u", ".config", "velin", "a.json"]));
    assert_eq!(config_file_path(&env(false, None, None, None, None), "a.json"), Err(ConfigPathError::NoHomeDirectory));
    let store = SettingsStore::new(&env(false, None, Some("/c"), None, None)).unwrap();
    assert_eq!(store.path, strings(&["/c", "velin", "settings.json"]));
}

#[test]
fn usage_text() {
    let text = usage();
    assert!(text.starts_with("usage:\n  cargo run -p velin-app\n"));
    assert!(text.ends_with("source <ip> -> connect <ip>"));
    assert_eq!(text.lines().count(), 8);
}

#[test]
fn offered_receivers_discovered_first_each_address_once() {
    let discovered = vec![
        DiscoveredPeer { label: "desk (10.0.0.2)".into(), ip: "10.0.0.2".into() },
        DiscoveredPeer { label: "desk (10.0.0.2) again".into(), ip: "10.0.0.2".into() },
        DiscoveredPeer { label: "tv (10.0.0.3)".into(), ip: "10.0.0.3".into() },
    ];
    let remembered = vec![preferred("10.0.0.3", "10.0.0.3"), preferred("office", "10.0.0.8")];
    let choices = merged_peer_choices(&remembered, &discovered);
    let pairs: Vec<(&str, &str)> = choices.iter().map(|c| (c.label.as_str(), c.ip.as_str())).collect();
    assert_eq!(pairs, vec![("desk (10.0.0.2)", "10.0.0.2"), ("tv (10.0.0.3)", "10.0.0.3"), ("Saved: office", "10.0.0.8")]);
    assert_eq!(peer_option_labels(&choices), strings(&["desk (10.0.0.2)", "tv (10.0.0.3)", "Saved: office"]));
    assert_eq!(peer_selection(&choices, "10.0.0.8"), "Saved: office");
    assert_eq!(peer_selection(&choices, "1.1.1.1"), "desk (10.0.0.2)");
    assert_eq!(peer_option_labels(&Vec::new()), strings(&["No receivers found"]));
    assert_eq!(peer_selection(&Vec::new(), "1.1.1.1"), "No receivers found");
}

#[test]
fn remembered_receivers_move_to_front_and_keep_eight() {
    let mut settings = AppSettings::default();
    for i in 0..9 {
        settings.preferred_peers.push(preferred(&format!("p{i}"), &format!("10.0.0.{i}")));
    }
    remember_preferred_peer(&mut settings, "new", "10.0.0.4");
    assert_eq!(settings.target_ip, "10.0.0.4");
    let ips: Vec<&str> = settings.preferred_peers.iter().map(|p| p.ip.as_str()).collect();
    assert_eq!(ips, vec!["10.0.0.4", "10.0.0.0", "10.0.0.1", "10.0.0.2", "10.0.0.3", "10.0.0.5", "10.0.0.6", "10.0.0.7"]);
    assert_eq!(settings.preferred_peers[0].label, "new");
}

#[test]
fn selections_map_to_settings() {
    assert_eq!(selected_bind_ip("Automatic"), "0.0.0.0");
    assert_eq!(selected_bind_ip("  "), "0.0.0.0");
    assert_eq!(selected_bind_ip(" 10.0.0.2 "), "10.0.0.2");
    assert_eq!(selected_output_device("System Default"), "");
    assert_eq!(selected_output_device(" Speakers "), "Speakers");
    let options = strings(&["Automatic", "10.0.0.2"]);
    assert_eq!(bind_ip_selection_label(" 10.0.0.2 ", &options), "10.0.0.2");
    assert_eq!(bind_ip_selection_label("0.0.0.0", &options), "Automatic");
    assert_eq!(bind_ip_selection_label("10.9.9.9", &options), "Automatic");
    let outputs = strings(&["System Default", "Speakers", "Headset"]);
    assert_eq!(output_device_selection_label("Headset", &outputs, &None), "Headset");
    assert_eq!(output_device_selection_label("Gone", &outputs, &None), "System Default");
    assert_eq!(output_device_selection_label("", &outputs, &Some("Speakers".into())), "Speakers");
    assert_eq!(output_device_selection_label("", &outputs, &Some("Other".into())), "System Default");
    assert_eq!(output_device_selection_label(" ", &outputs, &None), "System Default");
}

#[test]
fn settings_input_is_parsed_or_refused() {
    let capture = CaptureDefaults {
        capture_mode: CaptureMode::Microphone,
        capture_source_name: "mon".to_string(),
        microphone_device_name: "mic".to_string(),
    };
    let settings =
        parse_settings_input(" 10.0.0.2 ", " 0.0.0.0", " Speakers ", " 5000 ", "+6000", false, vec![preferred("a", "b")], capture)
            .unwrap();
    assert_eq!(settings.capture_mode, CaptureMode::Microphone);
    assert_eq!((settings.capture_source_name.as_str(), settings.microphone_device_name.as_str()), ("mon", "mic"));
    assert_eq!(settings.target_ip, "10.0.0.2");
    assert_eq!(settings.bind_ip, "0.0.0.0");
    assert_eq!(settings.output_device_name, "Speakers");
    assert_eq!((settings.control_port, settings.audio_port), (5000, 6000));
    assert_eq!(settings.theme_mode, ThemeMode::Light);
    assert_eq!(settings.preferred_peers.len(), 1);
    let defaults = || CaptureDefaults {
        capture_mode: CaptureMode::System,
        capture_source_name: String::new(),
        microphone_device_name: String::new(),
    };
    let err = |c: &str, a: &str| parse_settings_input("", "", "", c, a, true, Vec::new(), defaults()).err();
    assert_eq!(err("65536", "1"), Some(SettingsInputError::InvalidControlPort));
    assert_eq!(err("-1", "1"), Some(SettingsInputError::InvalidControlPort));
    assert_eq!(err("", "1"), Some(SettingsInputError::InvalidControlPort));
    assert_eq!(err("1", "x"), Some(SettingsInputError::InvalidAudioPort));
    assert_eq!(err("65535", "0"), None);
}

#[test]
fn validity_days_input() {
    assert_eq!(parse_validity_days(" 14 "), Some(14));
    assert_eq!(parse_validity_days("0"), None);
    assert_eq!(parse_validity_days("-3"), None);
    assert_eq!(parse_validity_days("4294967295"), Some(u32::MAX));
    assert_eq!(parse_validity_days("4294967296"), None);
}

#[test]
fn log_keeps_the_last_fourteen_lines() {
    assert_eq!(push_log_line("", "first"), "first\n");
    assert_eq!(push_log_line("a\n\n  \nb\n", "c"), "a\nb\nc\n");
    let mut log = String::new();
    for i in 0..20 {
        log = push_log_line(&log, &format!("line {i}"));
    }
    let lines: Vec<&str> = log.lines().collect();
    assert_eq!(lines.len(), 14);
    assert_eq!(lines[0], "line 6");
    assert_eq!(lines[13], "line 19");
    assert!(log.ends_with('\n'));
}

#[test]
fn session_errors_for_the_user() {
    assert_eq!(
        describe_session_error("failed to connect: Connection refused (os error 10061)"),
        "Connection failed. No receiver is listening at that IP and port."
    );
    assert_eq!(
        describe_session_error("No connection could be made because the target machine ACTIVELY REFUSED it"),
        "Connection failed. No receiver is listening at that IP and port."
    );
    assert_eq!(
        describe_session_error("Failed to bind control listener on 0.0.0.0:49000: Address already in use"),
        "Start failed. One of the configured ports is already in use."
    );
    assert_eq!(
        describe_session_error("failed to bind local UDP socket: denied"),
        "Start failed. Could not create the local audio socket."
    );
    assert_eq!(describe_session_error("boom"), "Session failed. boom");
}

fn view(name: &str, fingerprint: &str, days: Option<u32>) -> TrustedPeerView {
    TrustedPeerView { machine_name: name.to_string(), fingerprint: fingerprint.to_string(), expires_in_days: days }
}

#[test]
fn trusted_fingerprints_listed() {
    let choices = fingerprint_choices(&vec![view("desk", "AB:CD", Some(12)), view("tv", "EF", None)]);
    assert_eq!(choices[0].label, "desk | AB:CD | 12d left");
    assert_eq!(choices[0].fingerprint, "AB:CD");
    assert_eq!(choices[1].label, "tv | EF | expired");
    assert_eq!(fingerprint_options(&choices), strings(&["desk | AB:CD | 12d left", "tv | EF | expired"]));
    assert_eq!(fingerprint_options(&Vec::new()), strings(&["No trusted fingerprints"]));
    assert_eq!(fingerprint_selection("", &choices), Some("desk | AB:CD | 12d left".to_string()));
    assert_eq!(fingerprint_selection("No trusted fingerprints", &choices), Some("desk | AB:CD | 12d left".to_string()));
    assert_eq!(fingerprint_selection("stale", &choices), Some("desk | AB:CD | 12d left".to_string()));
    assert_eq!(fingerprint_selection("tv | EF | expired", &choices), None);
    assert_eq!(fingerprint_selection("x", &Vec::new()), Some("No trusted fingerprints".to_string()));
}

#[test]
fn session_panel_transitions() {
    let mut panel = SessionPanel::new();
    assert!(matches!(panel.request_stop(false), StopAction::Nothing));
    assert!(matches!(panel.request_stop(true), StopAction::Quit));
    assert!(panel.toggle_mute().is_none());
    assert!(panel.begin());
    assert!(!panel.begin(), "a second start is ignored");
    assert_eq!(panel.toggle_mute().as_deref(), Some("Session muted."));
    assert_eq!(panel.toggle_mute().as_deref(), Some("Session unmuted."));
    match panel.request_stop(true) {
        StopAction::SignalStop { message } => assert_eq!(message, "Stopping session and closing..."),
        other => panic!("unexpected {other:?}"),
    }
    let report = panel.finish(None);
    assert_eq!(report.status, "Stopped.");
    assert!(report.exit);
    assert!(!panel.running);
    assert!(panel.begin());
    let report = panel.finish(Some("boom"));
    assert_eq!(report.status, "Session failed. boom");
    assert!(!report.exit);
}

#[test]
fn text_helpers() {
    assert_eq!(trim("\t a b \n"), "a b");
    assert_eq!(trim("\u{3000}x\u{a0}"), "x");
    assert_eq!(decimal_string(0), "0");
    assert_eq!(decimal_string(u64::MAX), "18446744073709551615");
    assert_eq!(join_strings(&strings(&["a", "b", "c"]), ", "), "a, b, c");
    assert_eq!(join_strings(&Vec::new(), ", "), "");
    assert_eq!(lines_of("a\r\nb\n\nc\r"), strings(&["a", "b", "", "c\r"]));
    assert!(lines_of("").is_empty());
    assert_eq!(lines_of("x\n"), strings(&["x"]));
    assert_eq!(split_whitespace("  s16le 2ch\t44100Hz \n"), strings(&["s16le", "2ch", "44100Hz"]));
    assert_eq!(parse_unsigned("+42", 100), Some(42));
    assert_eq!(parse_unsigned("101", 100), None);
    assert_eq!(parse_unsigned("4x", 100), None);
    assert_eq!(parse_unsigned("+", 100), None);
    assert_eq!(parse_unsigned("007", 100), Some(7));
    assert!(str_lt("Zeta", "alpha"));
    assert!(str_lt("ab", "abc"));
    assert!(!str_lt("abc", "abc"));
    assert!(str_lt("é", "😀"));
}

#[test]
fn decimal_text_parses_back() {
    for value in [0u64, 7, 65_535, 4_294_967_295] {
        assert_eq!(parse_unsigned(&decimal_string(value), u32::MAX as u64), Some(value));
    }
}

#[test]
fn command_lines() {
    let args = |items: &[&str]| strings(items);
    assert!(matches!(parse_cli(&args(&["velin"])), Ok(CliCommand::Gui)));
    assert!(matches!(parse_cli(&args(&["velin", "gui"])), Ok(CliCommand::Gui)));
    assert!(matches!(parse_cli(&args(&["velin", "listen"])), Ok(CliCommand::Receiver { pairing: PairingMode::TrustedOnly })));
    assert!(matches!(parse_cli(&args(&["velin", "target"])), Ok(CliCommand::Receiver { .. })));
    match parse_cli(&args(&["velin", "connect", "10.0.0.2"])) {
        Ok(CliCommand::Sender { target_ip, pairing }) => {
            assert_eq!(target_ip.as_deref(), Some("10.0.0.2"));
            assert_eq!(pairing, PairingMode::TrustedOnly);
        }
        other => panic!("unexpected {other:?}"),
    }
    assert_eq!(parse_cli(&args(&["velin", "source"])).err(), Some(CliError::Usage));
    assert!(matches!(parse_cli(&args(&["velin", "headless", "receiver"])), Ok(CliCommand::Receiver { pairing: PairingMode::Terminal })));
    match parse_cli(&args(&["velin", "service", "sender", "192.168.0.62"])) {
        Ok(CliCommand::Sender { target_ip, pairing }) => {
            assert_eq!(target_ip.as_deref(), Some("192.168.0.62"));
            assert_eq!(pairing, PairingMode::TrustedOnly);
        }
        other => panic!("unexpected {other:?}"),
    }
    match parse_cli(&args(&["velin", "headless", "sender"])) {
        Ok(CliCommand::Sender { target_ip, pairing }) => {
            assert!(target_ip.is_none());
            assert_eq!(pairing, PairingMode::Terminal);
        }
        other => panic!("unexpected {other:?}"),
    }
    assert_eq!(parse_cli(&args(&["velin", "headless", "other"])).err(), Some(CliError::Usage));
    assert_eq!(parse_cli(&args(&["velin", "dance"])).err(), Some(CliError::Usage));
}

#[test]
fn terminal_answers() {
    assert!(answer_approves("y\n"));
    assert!(answer_approves(" YES "));
    assert!(answer_approves("Y"));
    assert!(answer_approves("Yes\r\n"));
    assert!(!answer_approves("n"));
    assert!(!answer_approves(""));
    assert!(!answer_approves("yep"));
}

use velin::capture::{
    convert_to_stereo_i16_from_i16, default_capture_rate, detect_monitor_sample_rate, detect_monitor_source,
    launch_candidates, parse_sample_rate_from_spec, sample_format_for, samples_per_10ms, silent_capture,
    CaptureSampleFormat, FormatError, SubFormat, WAVE_FORMAT_EXTENSIBLE, WAVE_FORMAT_IEEE_FLOAT, WAVE_FORMAT_PCM,
};
use velin::devices::{
    base_device_label, choose_linux_buffer_size, default_output_device_label, device_labels, output_device_names,
    short_device_suffix, DeviceDescription,
};
use velin::sender::{
    describe_capture_mode, describe_short_error, frame_sample_count, random_stream_id, reconnect_message,
    reconnect_metrics, should_report, ReconnectBackoff, ReconnectPlan, SenderFramer,
};
use velin::settings::CaptureMode;

fn strings(items: &[&str]) -> Vec<String> {
    items.iter().map(|s| s.to_string()).collect()
}

#[test]
fn frame_sizes_and_reporting() {
    assert_eq!(frame_sample_count(48_000), 960);
    assert_eq!(frame_sample_count(44_100), 882);
    assert!(should_report(0));
    assert!(should_report(300));
    assert!(!should_report(301));
    assert_eq!(describe_capture_mode(CaptureMode::System), "system audio");
    assert_eq!(describe_capture_mode(CaptureMode::Microphone), "microphone");
    assert_eq!(describe_capture_mode(CaptureMode::SystemPlusMicrophone), "system + microphone");
    assert_eq!(describe_short_error("first\ncause"), "first");
    assert_eq!(describe_short_error(""), "unknown error");
}

#[test]
fn framer_cuts_whole_frames_in_order() {
    let mut framer = SenderFramer::new(4);
    let frames = framer.push_capture(&vec![1, 2, 3], false);
    assert!(frames.is_empty());
    assert_eq!(framer.pending_len(), 3);
    let frames = framer.push_capture(&vec![4, 5, 6, 7, 8, 9, 10], false);
    assert_eq!(frames.len(), 2);
    assert_eq!((frames[0].sequence, frames[0].samples.clone()), (0, vec![1, 2, 3, 4]));
    assert_eq!((frames[1].sequence, frames[1].samples.clone()), (1, vec![5, 6, 7, 8]));
    assert_eq!(framer.pending_len(), 2);
    let frames = framer.push_capture(&vec![11, 12], true);
    assert_eq!(frames.len(), 1);
    assert_eq!((frames[0].sequence, frames[0].samples.clone()), (2, vec![9, 10, 0, 0]));
    assert_eq!(framer.pending_len(), 0);
}

#[test]
fn framing_keeps_every_sample() {
    let mut framer = SenderFramer::new(3);
    let input: Vec<i16> = (0..20).collect();
    let mut sent = Vec::new();
    for chunk in input.chunks(7) {
        for frame in framer.push_capture(&chunk.to_vec(), false) {
            sent.extend(frame.samples);
        }
    }
    assert_eq!(sent.len() + framer.pending_len(), input.len());
    assert_eq!(&sent[..], &input[..sent.len()]);
}

#[test]
fn reconnect_delays_grow_to_five_seconds() {
    let mut backoff = ReconnectBackoff::new();
    let plans: Vec<(u32, u64)> = (0..6).map(|_| {
        let plan = backoff.session_ended();
        (plan.attempt, plan.delay_seconds)
    }).collect();
    assert_eq!(plans, vec![(1, 2), (2, 3), (3, 4), (4, 5), (5, 5), (6, 5)]);
}

#[test]
fn reconnect_texts() {
    let plan = ReconnectPlan { attempt: 3, delay_seconds: 4 };
    assert_eq!(reconnect_message(plan, None), "Receiver disconnected. Reconnecting in 4s (attempt 3).");
    assert_eq!(
        reconnect_message(plan, Some("timed out")),
        "Sender session interrupted. Reconnecting in 4s (attempt 3). timed out"
    );
    assert_eq!(
        reconnect_metrics("10.0.0.2", 49000, plan),
        "Mode: Sender\nState: Reconnecting\nTarget: 10.0.0.2:49000\nNext attempt: 3 in 4s"
    );
}

#[test]
fn stream_ids_come_from_the_random_source() {
    let a = random_stream_id().expect("random source works");
    let b = random_stream_id().expect("random source works");
    assert_ne!(a, b);
}

#[test]
fn recorder_commands_to_try() {
    let commands = launch_candidates(&Some("sink.monitor".to_string()), 44_100);
    assert_eq!(commands.len(), 2);
    assert_eq!(commands[0].program, "parec");
    assert_eq!(
        commands[0].args,
        strings(&["--device=sink.monitor", "--raw", "--format=s16le", "--rate=44100", "--channels=2"])
    );
    assert_eq!(commands[0].description, "parec monitor source sink.monitor");
    assert_eq!(commands[1].args[0], "--device=@DEFAULT_MONITOR@");
    assert_eq!(launch_candidates(&Some("@DEFAULT_MONITOR@".to_string()), 48_000).len(), 1);
    let fallback = launch_candidates(&None, 48_000);
    assert_eq!(fallback.len(), 1);
    assert_eq!(fallback[0].description, "parec monitor source @DEFAULT_MONITOR@");
}

#[test]
fn sample_rates_from_specifications() {
    assert_eq!(parse_sample_rate_from_spec(" s16le 2ch 48000Hz"), Some(48_000));
    assert_eq!(parse_sample_rate_from_spec("float32le 2ch 44100Hz 96000Hz"), Some(44_100));
    assert_eq!(parse_sample_rate_from_spec("xHz 22050Hz"), Some(22_050));
    assert_eq!(parse_sample_rate_from_spec("s16le 2ch"), None);
    assert_eq!(samples_per_10ms(48_000), 480);
    assert_eq!(samples_per_10ms(44_100), 441);
    assert_eq!(default_capture_rate(None), 48_000);
    assert_eq!(default_capture_rate(Some(44_100)), 44_100);
}

#[test]
fn monitor_source_detection_order() {
    let s = |v: &str| Some(v.to_string());
    assert_eq!(detect_monitor_source(&s(" mine "), &s("sink"), &None), s("mine"));
    assert_eq!(detect_monitor_source(&s("  "), &s(" alsa_output \n"), &None), s("alsa_output.monitor"));
    assert_eq!(
        detect_monitor_source(&None, &s(""), &s("Server Name: x\nDefault Sink:   \nDefault Sink: hdmi\n")),
        s("hdmi.monitor")
    );
    assert_eq!(detect_monitor_source(&None, &None, &s("nothing")), None);
}

#[test]
fn monitor_rate_from_source_listing() {
    let listing = "Source #1\n\tName: alsa_input.mic\n\tSample Specification: s16le 1ch 16000Hz\nSource #2\n\tName: out.monitor\n\tSample Specification: s16le 2ch 44100Hz\n";
    assert_eq!(detect_monitor_sample_rate(&None, listing), Some(44_100));
    assert_eq!(detect_monitor_sample_rate(&Some("@DEFAULT_MONITOR@".to_string()), listing), Some(44_100));
    assert_eq!(detect_monitor_sample_rate(&Some(" alsa_input.mic ".to_string()), listing), Some(16_000));
    assert_eq!(detect_monitor_sample_rate(&Some("missing".to_string()), listing), None);
}

#[test]
fn captured_channels_become_stereo() {
    assert_eq!(convert_to_stereo_i16_from_i16(&[1, 2, 3, 4, 5, 6], 3), vec![1, 2, 4, 5]);
    assert_eq!(convert_to_stereo_i16_from_i16(&[1, 2, 3], 1), vec![1, 1, 2, 2, 3, 3]);
    assert_eq!(convert_to_stereo_i16_from_i16(&[1, 2, 3], 0), vec![1, 1, 2, 2, 3, 3]);
    assert_eq!(convert_to_stereo_i16_from_i16(&[1, 2, 3, 4, 5], 2), vec![1, 2, 3, 4, 5, 5]);
    assert!(convert_to_stereo_i16_from_i16(&[], 2).is_empty());
    assert_eq!(silent_capture(3), vec![0; 6]);
}

#[test]
fn capture_formats() {
    assert_eq!(sample_format_for(WAVE_FORMAT_IEEE_FLOAT, 32, SubFormat::Other), Ok(CaptureSampleFormat::F32));
    assert_eq!(sample_format_for(WAVE_FORMAT_PCM, 16, SubFormat::Other), Ok(CaptureSampleFormat::I16));
    assert_eq!(sample_format_for(WAVE_FORMAT_PCM, 24, SubFormat::Other), Err(FormatError::PcmWidth));
    assert_eq!(sample_format_for(WAVE_FORMAT_EXTENSIBLE, 32, SubFormat::IeeeFloat), Ok(CaptureSampleFormat::F32));
    assert_eq!(sample_format_for(WAVE_FORMAT_EXTENSIBLE, 16, SubFormat::Pcm), Ok(CaptureSampleFormat::I16));
    assert_eq!(sample_format_for(WAVE_FORMAT_EXTENSIBLE, 24, SubFormat::Pcm), Err(FormatError::UnsupportedExtensible));
    assert_eq!(sample_format_for(7, 16, SubFormat::Pcm), Err(FormatError::UnsupportedTag(7)));
}

#[test]
fn device_labels_and_names() {
    let described = |name: &str, driver: Option<&str>, extended: Option<&str>| {
        Some(DeviceDescription {
            name: name.to_string(),
            driver: driver.map(String::from),
            extended_first: extended.map(String::from),
        })
    };
    assert_eq!(base_device_label(&described("HDA", Some("snd"), Some("  Speakers  ")), &None), "Speakers");
    assert_eq!(base_device_label(&described("HDA", Some("snd"), Some("  ")), &None), "HDA (snd)");
    assert_eq!(base_device_label(&described("HDA", Some("HDA"), None), &None), "HDA");
    assert_eq!(base_device_label(&described("HDA", Some(""), None), &None), "HDA");
    assert_eq!(base_device_label(&None, &Some("legacy".to_string())), "legacy");
    assert_eq!(base_device_label(&None, &None), "Unknown output device");
    assert_eq!(short_device_suffix(&Some("alsa:hw:0,3".to_string())), " [hw:0,3]");
    assert_eq!(short_device_suffix(&Some("ab".to_string())), " [ab]");
    assert_eq!(short_device_suffix(&None), "");
    let labels = device_labels(&strings(&["Out", "Out", "USB"]), &strings(&[" [a]", " [b]", " [c]"]));
    assert_eq!(labels, strings(&["Out [a]", "Out [b]", "USB"]));
    assert_eq!(output_device_names(strings(&["b", "USB", "a"])), strings(&["USB", "a", "b"]));
    let ids = vec![Some("x".to_string()), None, Some("y".to_string())];
    let names = strings(&["X", "N", "Y"]);
    assert_eq!(default_output_device_label(&ids, &names, &Some("y".into()), "fb".into()), "Y");
    assert_eq!(default_output_device_label(&ids, &names, &None, "fb".into()), "N");
    assert_eq!(default_output_device_label(&ids, &names, &Some("z".into()), "fb".into()), "fb");
    assert_eq!(choose_linux_buffer_size(Some((256, 8192))), Some(4096));
    assert_eq!(choose_linux_buffer_size(Some((8192, 16384))), Some(8192));
    assert_eq!(choose_linux_buffer_size(Some((64, 1024))), Some(1024));
    assert_eq!(choose_linux_buffer_size(None), None);
}

use whisper_vox::audio::FrameBuffer;
use whisper_vox::config::{AudioConfig, Backend, InjectorConfig, Mode};
use whisper_vox::daemon::{
    pass_every_frames, segment_step, service_unit, Command, Control, Effect, Pipeline, SegmentStep,
};
use whisper_vox::injector::{decimal_string, TextInjector};
use whisper_vox::ipc::{
    classify, parse_request, relay_status, reply_lines, status_lines_from, status_report, JsonScalar,
    Reply, Request,
};
use whisper_vox::agreement::LocalAgreement;
use whisper_vox::transcript::{join_segments, model_file_name, model_url};
use whisper_vox::vad::{VadEvent, VadState};

#[test]
fn frame_samples_of_default_config() {
    let c = AudioConfig { sample_rate: 16000, channels: 1, frame_duration_ms: 30, device: None };
    assert_eq!(c.frame_samples(), 480);
    let c = AudioConfig { sample_rate: 44100, channels: 2, frame_duration_ms: 25, device: None };
    assert_eq!(c.frame_samples(), 1102);
}

#[test]
fn names_of_backends_and_modes() {
    assert_eq!(Backend::Xdotool.to_string(), "xdotool");
    assert_eq!(Backend::Ydotool.to_string(), "ydotool");
    assert_eq!(Mode::Vox.to_string(), "vox");
    assert_eq!(Mode::Ptt.to_string(), "ptt");
}

#[test]
fn decimal_notation() {
    assert_eq!(decimal_string(0), "0");
    assert_eq!(decimal_string(7), "7");
    assert_eq!(decimal_string(12), "12");
    assert_eq!(decimal_string(1000), "1000");
    assert_eq!(decimal_string(u32::MAX as u64), "4294967295");
    assert_eq!(decimal_string(u64::MAX), "18446744073709551615");
}

#[test]
fn injector_commands() {
    let inj = TextInjector::new(&InjectorConfig { backend: Backend::Xdotool, inter_key_delay_ms: 12 });
    assert!(inj.command("").is_none());
    let c = inj.command("Hi there ").unwrap();
    assert_eq!(c.program, "xdotool");
    assert_eq!(c.args, vec!["type", "--delay", "12", "--", "Hi there "]);
    let inj = TextInjector::new(&InjectorConfig { backend: Backend::Ydotool, inter_key_delay_ms: 0 });
    let c = inj.command("x").unwrap();
    assert_eq!(c.program, "ydotool");
    assert_eq!(c.args, vec!["type", "--key-delay", "0", "--", "x"]);
    assert_eq!(inj.backend(), Backend::Ydotool);
}

#[test]
fn vad_segment_lifecycle() {
    let mut v = VadState::new();
    assert_eq!(v.step(false, 3, 2), VadEvent::Silence);
    assert_eq!(v.step(true, 3, 2), VadEvent::SpeechStart);
    assert_eq!(v.step(true, 3, 2), VadEvent::SpeechContinue);
    assert_eq!(v.step(false, 3, 2), VadEvent::SpeechContinue);
    assert_eq!(v.step(false, 3, 2), VadEvent::SpeechContinue);
    assert_eq!(v.silence_frames(), 2);
    assert_eq!(v.step(false, 3, 2), VadEvent::SpeechEnd);
    assert!(!v.is_speaking());
    assert_eq!(v.speech_frames(), 0);
}

#[test]
fn vad_short_speech_is_discarded() {
    let mut v = VadState::new();
    assert_eq!(v.step(true, 1, 5), VadEvent::SpeechStart);
    assert_eq!(v.step(false, 1, 5), VadEvent::Silence);
    assert!(!v.is_speaking());
    assert_eq!(v.step(true, 1, 5), VadEvent::SpeechStart);
    v.reset();
    assert!(!v.is_speaking());
    assert_eq!(v.speech_frames(), 0);
}

#[test]
fn control_toggles_and_stops() {
    let mut c = Control::new(Mode::Vox);
    assert!(c.listens());
    assert_eq!(c.on_command(Command::Toggle, false), Effect::PauseAndReset);
    assert_eq!(c.current_mode(), Mode::Ptt);
    assert!(!c.listens());
    assert_eq!(c.on_command(Command::Toggle, true), Effect::ResumeCapture);
    assert_eq!(c.current_mode(), Mode::Vox);
    let mut p = Control::new(Mode::Ptt);
    assert_eq!(p.on_command(Command::Toggle, false), Effect::StartCapture);
    assert_eq!(p.on_command(Command::Status, false), Effect::ReportStatus);
    assert!(p.is_running());
    assert_eq!(p.on_command(Command::Stop, false), Effect::Stop);
    assert!(!p.is_running());
}

#[test]
fn segment_steps() {
    assert_eq!(segment_step(VadEvent::SpeechStart, 0, 3, false), SegmentStep::Restart);
    assert_eq!(segment_step(VadEvent::SpeechContinue, 1, 3, true), SegmentStep::Extend);
    assert_eq!(segment_step(VadEvent::SpeechContinue, 2, 3, true), SegmentStep::ExtendAndPass);
    assert_eq!(segment_step(VadEvent::SpeechContinue, 5, 3, true), SegmentStep::ExtendAndPass);
    // no pass while the segment may still be discarded as too short
    assert_eq!(segment_step(VadEvent::SpeechContinue, 2, 3, false), SegmentStep::Extend);
    assert_eq!(segment_step(VadEvent::SpeechEnd, 4, 3, true), SegmentStep::Finish);
    assert_eq!(segment_step(VadEvent::SpeechEnd, 0, 3, false), SegmentStep::Ignore);
    assert_eq!(segment_step(VadEvent::Silence, 4, 3, false), SegmentStep::Ignore);
    assert_eq!(pass_every_frames(30), 33);
    assert_eq!(pass_every_frames(5000), 1);
}

#[test]
fn pipeline_single_pass_types_sentences() {
    let mut p = Pipeline::new(1);
    let out = p.finish_segment(Some("Hello world. How"));
    assert_eq!(out, vec!["hello world. ", "how "]);
    assert!(p.finish_segment(None).is_empty());
}

#[test]
fn pipeline_two_agreeing_passes_type_the_sentence() {
    let mut p = Pipeline::new(2);
    assert!(p.pass("Hello world.").is_empty());
    let out = p.finish_segment(Some("Hello world."));
    assert_eq!(out, vec!["hello world. "]);
    // the state is dropped with the segment: one pass alone types nothing
    assert!(p.finish_segment(Some("Hello world.")).is_empty());
}

#[test]
fn pipeline_streams_confirmed_words() {
    let mut p = Pipeline::new(2);
    assert!(p.pass("Hello").is_empty());
    // "hello" is agreed, but no sentence is complete yet
    assert!(p.pass("Hello world. How").is_empty());
    // "hello world." is agreed now and completes a sentence
    assert_eq!(p.pass("Hello world. How are"), vec!["hello world. "]);
    assert_eq!(p.pass(""), Vec::<String>::new());
    let out = p.finish_segment(Some("Hello world. How are you?"));
    assert_eq!(out, vec!["how are "]);
}

#[test]
fn ipc_requests() {
    assert_eq!(parse_request("{\"cmd\":\"toggle\"}"), Some(Request::Toggle));
    assert_eq!(parse_request("  {\"cmd\": \"stop\"}\n"), Some(Request::Stop));
    assert_eq!(parse_request("{\"cmd\":\"status\"}\n"), Some(Request::Status));
    assert_eq!(parse_request("{\"cmd\":\"dance\"}"), Some(Request::Unknown));
    assert_eq!(parse_request("{}"), Some(Request::Unknown));
    assert_eq!(parse_request("{\"cmd\":5}"), Some(Request::Unknown));
    assert_eq!(parse_request("[1, 2]"), Some(Request::Unknown));
    assert_eq!(parse_request("toggle"), None);
    assert_eq!(parse_request(""), None);
    assert_eq!(classify("stop"), Request::Stop);
    assert_eq!(Request::Unknown.command(), None);
    assert_eq!(Request::Toggle.command(), Some(Command::Toggle));
}

#[test]
fn client_reply_lines() {
    let status = "{\"ok\":true,\"mode\":\"vox\",\"uptime_secs\":42,\"running\":true}\n";
    assert_eq!(
        status_report(status),
        Some(vec!["Mode: vox".to_string(), "Uptime: 42s".to_string(), "Running: true".to_string()])
    );
    assert_eq!(reply_lines("status", status), status_report(status));
    assert_eq!(
        status_report("{}"),
        Some(vec!["Mode: unknown".to_string(), "Uptime: 0s".to_string(), "Running: false".to_string()])
    );
    assert_eq!(
        status_report("{\"mode\": 3, \"uptime_secs\": -1, \"running\": \"yes\"}"),
        Some(vec!["Mode: unknown".to_string(), "Uptime: 0s".to_string(), "Running: false".to_string()])
    );
    assert_eq!(status_report("not json"), None);
    assert_eq!(
        reply_lines("toggle", " {\"action\": \"toggled\", \"ok\": true}\n"),
        Some(vec!["Toggled. {\"action\":\"toggled\",\"ok\":true}".to_string()])
    );
    assert_eq!(reply_lines("stop", "{\"ok\":true}"), Some(vec!["Stopping daemon...".to_string()]));
    assert_eq!(reply_lines("stop", "{oops"), None);
    assert_eq!(reply_lines("other", " [1, 2] "), Some(vec!["[1,2]".to_string()]));
}

#[test]
fn status_lines_from_members() {
    assert_eq!(
        status_lines_from(
            Some(JsonScalar::Str("ptt".to_string())),
            Some(JsonScalar::U64(7)),
            Some(JsonScalar::Bool(false)),
        ),
        vec!["Mode: ptt", "Uptime: 7s", "Running: false"]
    );
    assert_eq!(
        status_lines_from(Some(JsonScalar::U64(1)), Some(JsonScalar::Bool(true)), None),
        vec!["Mode: unknown", "Uptime: 0s", "Running: false"]
    );
}

#[test]
fn server_replies() {
    assert_eq!(Request::Toggle.reply(), Reply::Toggled);
    assert_eq!(Request::Stop.reply(), Reply::Stopping);
    assert_eq!(Request::Status.reply(), Reply::RelayStatus);
    assert_eq!(Request::Unknown.reply(), Reply::UnknownCommand);
    assert_eq!(Request::Stop.command(), Some(Command::Stop));
    assert_eq!(Request::Status.command(), Some(Command::Status));
    assert_eq!(
        relay_status("{\"ok\": true, \"running\": true}"),
        Some("{\"ok\":true,\"running\":true}".to_string())
    );
    assert_eq!(relay_status("garbled"), None);
}

#[test]
fn agreement_on_word_lists() {
    let mut ag = LocalAgreement::new(2);
    let w = |s: &[&str]| s.iter().map(|x| x.to_string()).collect::<Vec<String>>();
    assert_eq!(ag.process_words(w(&["Keep", "Case"])), None);
    assert_eq!(ag.process_words(w(&["Keep", "Case", "x"])), Some("Keep Case".to_string()));
    assert_eq!(ag.process_words(w(&["Keep", "Case", "x"])), Some("x".to_string()));
}

#[test]
fn transcript_assembly() {
    let segs = vec![" Hello ".to_string(), "world  ".to_string()];
    assert_eq!(join_segments(&segs), "Hello world");
    assert_eq!(join_segments(&vec![]), "");
    assert_eq!(join_segments(&vec!["  ".to_string(), "ok".to_string()]), "ok");
}

#[test]
fn model_names() {
    assert_eq!(model_file_name("small.en"), "ggml-small.en.bin");
    assert_eq!(
        model_url("base.en"),
        "https://huggingface.co/ggerganov/whisper.cpp/resolve/main/ggml-base.en.bin"
    );
}

#[test]
fn service_unit_text() {
    let unit = service_unit("/usr/bin/whisper-vox");
    assert!(unit.starts_with("[Unit]\nDescription=whisper-vox always-listening voice daemon\n"));
    assert!(unit.contains("\nExecStart=/usr/bin/whisper-vox\nRestart=on-failure\n"));
    assert!(unit.ends_with("WantedBy=default.target\n"));
}

#[test]
fn frames_keep_every_sample_in_order() {
    let mut fb: FrameBuffer<f32> = FrameBuffer::new(2);
    assert_eq!(fb.push(&[0.1, 0.2, 0.3]), vec![vec![0.1, 0.2]]);
    assert!(fb.push(&[]).is_empty());
    assert_eq!(fb.push(&[0.4, 0.5, 0.6]), vec![vec![0.3, 0.4], vec![0.5, 0.6]]);
    let mut single: FrameBuffer<i16> = FrameBuffer::new(1);
    assert_eq!(single.push(&[7, 8]), vec![vec![7], vec![8]]);
}

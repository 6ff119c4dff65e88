use bellanote::db::{Artifact, Db};
use bellanote::recording::finish_recording;
use bellanote::import_transcript::TranscriptSegment;
use bellanote::platform::{host_triple, HostArch, HostOs};
use bellanote::recording::{
    capabilities, capture_error_for_lowercase, chunk_is_enough, chunk_plan, human_capture_error,
    input_label, now_unix_ms, parse_mode, recording_artifact, source_type, start_check, status,
    unix_ms_from, CaptureMode, LiveTranscript, SessionInfo,
};

fn err<T>(r: Result<T, bellanote::error::AppError>) -> String {
    match r {
        Ok(_) => panic!("expected an error"),
        Err(e) => e.message(),
    }
}

fn seg(text: &str, start_ms: i64, end_ms: i64) -> TranscriptSegment {
    TranscriptSegment { text: text.to_string(), start_ms, end_ms }
}

#[test]
fn modes_are_named_two_ways() {
    assert!(parse_mode("voice").unwrap() == CaptureMode::Voice);
    assert!(parse_mode("microphone").unwrap() == CaptureMode::Voice);
    assert!(parse_mode("system").unwrap() == CaptureMode::SystemAudio);
    assert!(parse_mode("system_audio").unwrap() == CaptureMode::SystemAudio);
    assert_eq!(err(parse_mode("camera")), "Choose Microphone or System audio.");
    assert_eq!(source_type(CaptureMode::Voice), "voice");
    assert_eq!(source_type(CaptureMode::SystemAudio), "system");
}

#[test]
fn system_audio_is_offered_on_mac_and_windows() {
    assert!(capabilities(HostOs::MacOs).system_audio);
    assert!(capabilities(HostOs::Windows).system_audio);
    assert!(!capabilities(HostOs::Other).system_audio);
    assert!(capabilities(HostOs::Other).microphone);
}

#[test]
fn starting_checks_the_session_and_platform() {
    assert_eq!(err(start_check(true, "voice", HostOs::MacOs)), "A recording is already in progress.");
    assert_eq!(
        err(start_check(false, "system", HostOs::Other)),
        "System audio capture is not available on this platform."
    );
    assert!(start_check(false, "system", HostOs::Windows).unwrap() == CaptureMode::SystemAudio);
    assert!(start_check(false, "voice", HostOs::Other).unwrap() == CaptureMode::Voice);
    assert_eq!(err(start_check(false, "x", HostOs::Other)), "Choose Microphone or System audio.");
}

#[test]
fn a_recording_starts_with_its_artifact() {
    let a = recording_artifact("r1".into(), "g1", CaptureMode::SystemAudio, "now".into());
    assert_eq!(a.title, "System audio recording");
    assert_eq!(a.source_type, "system");
    assert_eq!(a.status, "recording");
    assert_eq!(a.original_filename, "recording.wav");
    let a = recording_artifact("r2".into(), "g1", CaptureMode::Voice, "now".into());
    assert_eq!(a.title, "Microphone recording");
    assert_eq!(input_label(CaptureMode::Voice, None), "Microphone");
    assert_eq!(input_label(CaptureMode::Voice, Some("USB Mic".into())), "USB Mic");
    assert_eq!(
        input_label(CaptureMode::SystemAudio, Some("USB Mic".into())),
        "System + mic (what you hear and what you say)"
    );
}

#[test]
fn capture_errors_are_explained() {
    assert_eq!(
        human_capture_error("No default input device", HostOs::Windows),
        "BellaNote couldn’t use the microphone. Check Settings → Privacy & security → Microphone."
    );
    assert_eq!(
        human_capture_error("Microphone denied", HostOs::MacOs),
        "BellaNote couldn’t use the microphone. Check System Settings → Privacy & Security."
    );
    assert_eq!(
        human_capture_error("WASAPI loopback failed", HostOs::Windows),
        "BellaNote couldn’t capture system audio. Check that a playback device is available, then try again."
    );
    assert_eq!(
        human_capture_error("No shareable content", HostOs::MacOs),
        "BellaNote needs Screen Recording permission to capture system audio. Check System Settings → Privacy & Security."
    );
    assert_eq!(human_capture_error("boom", HostOs::MacOs), "BellaNote couldn’t start recording.");
    assert_eq!(capture_error_for_lowercase("render", HostOs::Other), human_capture_error("RENDER", HostOs::Other));
}

#[test]
fn chunks_follow_the_mode() {
    let v = chunk_plan(CaptureMode::Voice);
    assert_eq!((v.tick_secs, v.chunk_samples, v.min_chunk_samples), (3, 48_000, 8_000));
    let s = chunk_plan(CaptureMode::SystemAudio);
    assert_eq!((s.tick_secs, s.chunk_samples, s.min_chunk_samples), (10, 160_000, 4_000));
    assert!(chunk_is_enough(8_000, false, 8_000));
    assert!(!chunk_is_enough(7_999, false, 8_000));
    assert!(chunk_is_enough(1_601, true, 8_000));
    assert!(!chunk_is_enough(1_600, true, 8_000));
}

#[test]
fn live_transcript_places_chunks_in_the_recording() {
    let mut live = LiveTranscript::new();
    assert_eq!(live.take_chunk(48_000, true), Some(0));
    live.add_segments(vec![seg("Hello", 0, 1_000)], 0);
    assert_eq!(live.take_chunk(1_000, false), None);
    assert_eq!(live.take_chunk(16_000, true), Some(3_062));
    live.add_segments(vec![seg("again", 100, 900)], 3_062);
    assert_eq!(live.segments()[1].start_ms, 3_162);
    assert_eq!(live.segments()[1].end_ms, 3_962);
    assert_eq!(live.text(), "Hello again");
    assert_eq!(live.live_duration_ms(), 3_962);
    assert_eq!(live.final_duration_ms(), 4_062);
    let empty = LiveTranscript::new();
    assert_eq!(empty.live_duration_ms(), 0);
    assert_eq!(empty.text(), "");
}

#[test]
fn status_reports_the_running_session() {
    let s = status(None);
    assert!(!s.active && s.artifact_id.is_none() && s.input_label.is_none());
    let info = SessionInfo {
        artifact_id: "a".into(),
        meeting_group_id: "g".into(),
        source: "voice".into(),
        started_at_unix_ms: 42,
    };
    let s = status(Some(&info));
    assert!(s.active);
    assert_eq!(s.artifact_id.as_deref(), Some("a"));
    assert_eq!(s.started_at_unix_ms, Some(42));
}

#[test]
fn clock_reads_milliseconds() {
    assert_eq!(unix_ms_from(None), 0);
    assert_eq!(unix_ms_from(Some(1_700_000_000_000)), 1_700_000_000_000);
    assert!(now_unix_ms() > 1_600_000_000_000);
}

#[test]
fn worker_triples() {
    assert_eq!(host_triple(HostOs::MacOs, HostArch::Aarch64), "aarch64-apple-darwin");
    assert_eq!(host_triple(HostOs::MacOs, HostArch::X86_64), "x86_64-apple-darwin");
    assert_eq!(host_triple(HostOs::Windows, HostArch::X86_64), "unknown");
}

#[test]
fn a_recording_with_a_blank_transcript_ends_failed() {
    let mut db = Db::new();
    db.create_organization_with("Duke", "o1".into(), "1".into()).unwrap();
    db.create_topic_with("o1", "T", "t1".into(), "1".into()).unwrap();
    db.create_meeting_group_with("t1", "G", None, "g1".into(), "1".into()).unwrap();
    let mk = |id: &str| Artifact {
        id: id.to_string(),
        meeting_group_id: "g1".to_string(),
        title: "Recording".to_string(),
        source_type: "voice".to_string(),
        status: "transcribing".to_string(),
        has_audio: true,
        original_filename: "recording.wav".to_string(),
        error_message: String::new(),
        transcript: String::new(),
        segments_json: "[]".to_string(),
        duration_ms: 0,
        created_at: "1".to_string(),
        whisper_model: String::new(),
        original_path: String::new(),
    };
    db.insert_artifact(&mk("silent")).unwrap();
    db.insert_artifact(&mk("spoken")).unwrap();
    finish_recording(&mut db, "silent", "   ", "[]", 4000, "small.en");
    finish_recording(&mut db, "spoken", "hello there", "[]", 4000, "small.en");
    let s = db.get_artifact("silent").unwrap();
    assert_eq!(s.status, "failed");
    assert_eq!(s.error_message, "Transcription didn’t finish. The recording is saved — you can try again.");
    assert_eq!(s.transcript, "");
    let p = db.get_artifact("spoken").unwrap();
    assert_eq!(p.status, "ready");
    assert_eq!(p.transcript, "hello there");
    assert_eq!(p.duration_ms, 4000);
    assert_eq!(p.whisper_model, "small.en");
}

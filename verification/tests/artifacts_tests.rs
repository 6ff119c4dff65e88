use bellanote::platform::HostOs;
use bellanote::artifacts::{
    audio_artifact, audio_import_check, fail_message_for_lowercase, finish_transcribe,
    format_export_timestamp, human_fail_message, is_library_audio_name, is_library_video_name,
    max_end_ms, removes_library_files, retry_check, title_from_path, transcript_artifact, transcript_export_body,
    transcript_import_check, video_artifact, video_import_check, with_trailing_newline,
};
use bellanote::db::{Artifact, Db};
use bellanote::import_transcript::TranscriptSegment;

fn seg(text: &str, start_ms: i64, end_ms: i64) -> TranscriptSegment {
    TranscriptSegment { text: text.to_string(), start_ms, end_ms }
}

fn err<T>(r: Result<T, bellanote::error::AppError>) -> String {
    match r {
        Ok(_) => panic!("expected an error"),
        Err(e) => e.message(),
    }
}

#[test]
fn titles_come_from_the_file_name() {
    assert_eq!(title_from_path(HostOs::MacOs, "/Users/me/Lecture 1.m4a"), "Lecture 1");
    assert_eq!(title_from_path(HostOs::MacOs, "notes.tar.gz"), "notes.tar");
    assert_eq!(title_from_path(HostOs::MacOs, ".hidden"), ".hidden");
    assert_eq!(title_from_path(HostOs::MacOs, "/"), "Untitled");
    let long = format!("/tmp/{}.wav", "a".repeat(100));
    assert_eq!(title_from_path(HostOs::MacOs, &long), "a".repeat(80));
}

#[test]
fn audio_imports_are_checked_by_extension() {
    assert!(audio_import_check(HostOs::MacOs, "/x/Talk.WAV").is_ok());
    assert!(audio_import_check(HostOs::MacOs, "/x/a.webm").is_ok());
    assert_eq!(
        err(audio_import_check(HostOs::MacOs, "/x/a.MP4")),
        "That looks like video. Use Import Meeting → Video files for MP4."
    );
    assert_eq!(
        err(audio_import_check(HostOs::MacOs, "/x/a.doc")),
        "BellaNote needs an audio file (wav, mp3, m4a, aac, ogg, or flac)."
    );
}

#[test]
fn video_imports_take_mp4_only() {
    assert!(video_import_check(HostOs::MacOs, "a.mp4").is_ok());
    assert_eq!(
        err(video_import_check(HostOs::MacOs, "a.mov")),
        "BellaNote can import MP4 video. Convert this file to MP4, or export audio instead."
    );
    assert_eq!(err(video_import_check(HostOs::MacOs, "a.txt")), "BellaNote needs an MP4 video file.");
}

#[test]
fn transcript_imports_are_checked_by_extension() {
    assert!(transcript_import_check(HostOs::MacOs, "a.vtt").is_ok());
    assert!(transcript_import_check(HostOs::MacOs, "a.SRT").is_ok());
    assert_eq!(err(transcript_import_check(HostOs::MacOs, "a.mp3")), "That looks like audio. Use Add audio instead.");
    assert_eq!(err(transcript_import_check(HostOs::MacOs, "a.pdf")), "Import a .vtt, .srt, or .txt transcript.");
}

#[test]
fn imported_files_become_queued_artifacts() {
    let a = audio_artifact(HostOs::MacOs, "id1".into(), "g1", "/x/Talk.mp3", "now".into());
    assert_eq!(a.title, "Talk");
    assert_eq!(a.source_type, "audio_upload");
    assert_eq!(a.status, "queued");
    assert!(a.has_audio);
    assert_eq!(a.original_filename, "Talk.mp3");
    assert_eq!(a.original_path, "/x/Talk.mp3");
    assert_eq!(a.segments_json, "[]");
    let v = video_artifact(HostOs::MacOs, "id2".into(), "g1", "/", "now".into());
    assert_eq!(v.source_type, "video_upload");
    assert_eq!(v.original_filename, "video");
    assert_eq!(v.title, "Untitled");
    let t = transcript_artifact(HostOs::MacOs, "id3".into(), "g1", "/x/notes.vtt", "hi".into(), "[]".into(), 5, "now".into());
    assert_eq!((t.status.as_str(), t.has_audio, t.whisper_model.as_str()), ("ready", false, "imported"));
    assert_eq!(t.duration_ms, 5);
}

#[test]
fn durations_are_the_latest_end() {
    assert_eq!(max_end_ms(&vec![]), 0);
    assert_eq!(max_end_ms(&vec![seg("a", 0, 900), seg("b", 1_000, 800)]), 900);
}

fn with_status(status: &str, has_audio: bool, transcript: &str) -> Artifact {
    let mut a = audio_artifact(HostOs::MacOs, "id".into(), "g", "a.wav", "now".into());
    a.status = status.into();
    a.has_audio = has_audio;
    a.transcript = transcript.into();
    a
}

#[test]
fn only_failed_imports_are_retried() {
    assert_eq!(err(retry_check(&with_status("queued", true, ""))), "This file is already importing.");
    assert_eq!(err(retry_check(&with_status("recording", true, ""))), "This file is already importing.");
    assert_eq!(err(retry_check(&with_status("ready", true, "text"))), "Only failed imports can be retried.");
    assert!(retry_check(&with_status("ready", true, "   ")).is_ok());
    assert!(retry_check(&with_status("failed", true, "")).is_ok());
    assert_eq!(err(retry_check(&with_status("failed", false, ""))), "This file has no audio to transcribe.");
}

#[test]
fn library_files_are_recognised_by_name() {
    assert!(is_library_audio_name("source.m4a"));
    assert!(!is_library_audio_name("source.txt"));
    assert!(!is_library_audio_name("in_progress.wav"));
    assert!(is_library_video_name("video.mp4"));
    assert!(!is_library_video_name("source.mp4"));
}

#[test]
fn export_timestamps() {
    assert_eq!(format_export_timestamp(0), "0:00");
    assert_eq!(format_export_timestamp(65_999), "1:05");
    assert_eq!(format_export_timestamp(600_000), "10:00");
    assert_eq!(format_export_timestamp(3_723_000), "1:02:03");
    assert_eq!(format_export_timestamp(-5_000), "0:00");
    assert_eq!(format_export_timestamp(36_000_000), "10:00:00");
}

#[test]
fn export_body_prefers_timed_lines() {
    let segs = vec![seg(" Hello ", 0, 1), seg("   ", 1, 2), seg("World", 65_000, 66_000)];
    assert_eq!(
        transcript_export_body("Hello World", Some(segs)).unwrap(),
        "[0:00] Hello\n[1:05] World"
    );
    assert_eq!(transcript_export_body("  plain  ", None).unwrap(), "plain");
    assert_eq!(transcript_export_body("plain", Some(vec![seg(" ", 0, 0)])).unwrap(), "plain");
    assert_eq!(
        err(transcript_export_body("  ", Some(vec![seg("x", 0, 0)]))),
        "This file has no transcript to export."
    );
}

#[test]
fn exported_text_ends_in_a_newline() {
    assert_eq!(with_trailing_newline("a".into()), "a\n");
    assert_eq!(with_trailing_newline("a\n".into()), "a\n");
    assert_eq!(with_trailing_newline(String::new()), "\n");
}

#[test]
fn failure_messages_read_the_error() {
    assert_eq!(
        human_fail_message("Failed to SPAWN the worker"),
        "Transcription isn’t available on this Mac. You can try again."
    );
    assert_eq!(human_fail_message("No such file or directory"), "BellaNote couldn’t read this audio file.");
    assert_eq!(
        human_fail_message("EXTRACT AUDIO FAILED"),
        "BellaNote couldn’t pull audio from this video. You can try again."
    );
    assert_eq!(human_fail_message("ÉCHEC"), "This file couldn’t be processed. You can try again.");
    assert_eq!(fail_message_for_lowercase("could not decode"), "BellaNote couldn’t read this audio file.");
}

fn group_with(status: &str) -> Db {
    let mut db = Db::new();
    db.create_organization_with("O", "o".into(), "1".into()).unwrap();
    db.create_topic_with("o", "T", "t".into(), "1".into()).unwrap();
    db.create_meeting_group_with("t", "G", None, "g".into(), "1".into()).unwrap();
    let mut a = audio_artifact(HostOs::MacOs, "a".into(), "g", "x.wav", "1".into());
    a.status = status.into();
    db.insert_artifact(&a).unwrap();
    db
}

#[test]
fn finished_transcriptions_are_stored() {
    let mut db = group_with("transcribing");
    finish_transcribe(&mut db, "a", Ok(vec![seg("Hello", 0, 1_000), seg("world", 1_000, 2_500)]), "[..]", "small.en");
    let a = db.get_artifact("a").unwrap();
    assert_eq!(a.status, "ready");
    assert_eq!(a.transcript, "Hello world");
    assert_eq!(a.duration_ms, 2_500);
    assert_eq!(a.segments_json, "[..]");
    assert_eq!(a.whisper_model, "small.en");
}

#[test]
fn empty_transcriptions_fail() {
    let mut db = group_with("transcribing");
    finish_transcribe(&mut db, "a", Ok(vec![]), "[]", "small.en");
    let a = db.get_artifact("a").unwrap();
    assert_eq!(a.status, "failed");
    assert_eq!(a.error_message, "Transcription didn’t finish. The recording is saved — you can try again.");
    let mut db = group_with("transcribing");
    finish_transcribe(&mut db, "a", Ok(vec![seg("  ", 0, 1)]), "[]", "small.en");
    assert_eq!(db.get_artifact("a").unwrap().status, "failed");
    let mut db = group_with("transcribing");
    finish_transcribe(&mut db, "a", Err("Could not open".into()), "[]", "small.en");
    assert_eq!(db.get_artifact("a").unwrap().error_message, "BellaNote couldn’t read this audio file.");
}

#[test]
fn deleting_keeps_recordings_unless_asked() {
    assert!(removes_library_files("audio_upload", false));
    assert!(!removes_library_files("voice", false));
    assert!(!removes_library_files("system", false));
    assert!(removes_library_files("system", true));
}

#[test]
fn windows_titles_and_names() {
    assert_eq!(title_from_path(HostOs::Windows, r"C:\Users\me\Lecture 1.m4a"), "Lecture 1");
    assert_eq!(title_from_path(HostOs::Windows, "//server/share/x.vtt"), "x");
    assert_eq!(title_from_path(HostOs::Windows, r"\\server\share"), "Untitled");
    assert_eq!(title_from_path(HostOs::Windows, r"\\?\C:\dir/a.wav"), "dir/a");
    assert_eq!(title_from_path(HostOs::MacOs, r"C:\x\a.m4a"), r"C:\x\a");
    let a = audio_artifact(HostOs::Windows, "id".into(), "g", r"D:\rec\talk.mp3", "now".into());
    assert_eq!(a.original_filename, "talk.mp3");
    assert_eq!(a.title, "talk");
    assert!(audio_import_check(HostOs::Windows, r"D:\rec\talk.WAV").is_ok());
}

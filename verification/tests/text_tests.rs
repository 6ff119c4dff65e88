use bellanote::db::{trim_comment_body, trim_name};
use bellanote::files::ext_of;
use bellanote::platform::HostOs;
use bellanote::ids::{new_id, now_rfc3339};
use bellanote::import_transcript::{parse_timestamp_to_ms, parse_transcript_file, strip_tags};
use bellanote::llm::{answer_from_choices, completion_messages, key_to_store, openai_error, ChatTurn};

fn chars(s: &str) -> Vec<char> {
    s.chars().collect()
}

#[test]
fn extensions_are_lowercase() {
    assert_eq!(ext_of(HostOs::MacOs, "/a/B.WAV"), "wav");
    assert_eq!(ext_of(HostOs::MacOs, "/a/noext"), "");
    assert_eq!(ext_of(HostOs::MacOs, "/a/.profile"), "");
}

#[test]
fn names_are_trimmed_and_bounded() {
    assert_eq!(trim_name("  Duke ").ok().unwrap(), "Duke");
    assert_eq!(trim_name(" ").err().unwrap().message(), "A name is required.");
    assert_eq!(trim_comment_body(" ok ").ok().unwrap(), "ok");
}

#[test]
fn timestamps_read_hours_minutes_and_fractions() {
    assert_eq!(parse_timestamp_to_ms(&chars("00:00:01,500")), Some(1_500));
    assert_eq!(parse_timestamp_to_ms(&chars("01:02:03.004")), Some(3_723_004));
    assert_eq!(parse_timestamp_to_ms(&chars("02:05")), Some(125_000));
    assert_eq!(parse_timestamp_to_ms(&chars("x")), None);
}

#[test]
fn tags_are_stripped() {
    assert_eq!(strip_tags(&chars("<i>General</i> Kenobi")), chars("General Kenobi"));
}

#[test]
fn srt_files_become_segments() {
    let raw = "1\n00:00:01,000 --> 00:00:02,500\nHello there\n\n2\n00:00:03,000 --> 00:00:04,000\n<i>General</i>\nKenobi\n";
    let (segs, full) = parse_transcript_file(HostOs::MacOs, "/x/talk.srt", raw).unwrap();
    assert_eq!(segs.len(), 2);
    assert_eq!((segs[0].text.as_str(), segs[0].start_ms, segs[0].end_ms), ("Hello there", 1_000, 2_500));
    assert_eq!((segs[1].text.as_str(), segs[1].start_ms, segs[1].end_ms), ("General Kenobi", 3_000, 4_000));
    assert_eq!(full, "Hello there General Kenobi");
}

#[test]
fn plain_text_is_one_segment() {
    let (segs, full) = parse_transcript_file(HostOs::MacOs, "notes.txt", "  just words \n").unwrap();
    assert_eq!(segs.len(), 1);
    assert_eq!(full, "just words");
    assert_eq!(parse_transcript_file(HostOs::MacOs, "a.txt", "   ").err().unwrap(), "The file has no text.");
    assert_eq!(
        parse_transcript_file(HostOs::MacOs, "a.vtt", "WEBVTT\n\n").err().unwrap(),
        "Could not find any transcript text in that file."
    );
}

#[test]
fn openai_errors_name_the_cause() {
    assert_eq!(openai_error(401, "401 Unauthorized", "x").message(), "OpenAI rejected the API token. Check Settings.");
    assert_eq!(
        openai_error(429, "429 Too Many Requests", "x").message(),
        "OpenAI rate-limited the request. Wait a moment and try again."
    );
    assert_eq!(
        openai_error(500, "500 Internal Server Error", "oops").message(),
        "OpenAI error (500 Internal Server Error): oops"
    );
}

#[test]
fn answers_come_from_the_first_choice() {
    assert_eq!(answer_from_choices(vec![Some("Hi".into()), None]).ok().unwrap(), "Hi");
    assert_eq!(answer_from_choices(vec![Some("  ".into())]).err().unwrap().message(), "OpenAI returned an empty answer.");
    assert_eq!(answer_from_choices(vec![]).err().unwrap().message(), "OpenAI returned an empty answer.");
}

#[test]
fn requests_start_with_the_system_prompt() {
    let turns = vec![ChatTurn::new("user", "q")];
    let out = completion_messages("sys", &turns);
    assert_eq!(out.len(), 2);
    assert_eq!((out[0].role.as_str(), out[0].content.as_str()), ("system", "sys"));
    assert_eq!((out[1].role.as_str(), out[1].content.as_str()), ("user", "q"));
}

#[test]
fn ids_are_hyphenated_uuids() {
    let a = new_id();
    let b = new_id();
    assert_eq!(a.len(), 36);
    assert_ne!(a, b);
    assert!(a.chars().enumerate().all(|(i, c)| if [8, 13, 18, 23].contains(&i) { c == '-' } else { c.is_ascii_hexdigit() && !c.is_ascii_uppercase() }));
    assert!(now_rfc3339().contains('T'));
}

#[test]
fn stored_key_is_trimmed_and_blank_is_none() {
    assert_eq!(key_to_store("  sk-abc \n"), Some("sk-abc".to_string()));
    assert_eq!(key_to_store("sk-x"), Some("sk-x".to_string()));
    assert_eq!(key_to_store("   \t"), None);
    assert_eq!(key_to_store(""), None);
}

#[test]
fn windows_paths_split_at_both_separators_after_their_prefix() {
    assert_eq!(ext_of(HostOs::Windows, r"C:\Users\me\Talk.M4A"), "m4a");
    assert_eq!(ext_of(HostOs::Windows, "C:/Users/me/talk.vtt"), "vtt");
    assert_eq!(ext_of(HostOs::Windows, "C:notes.txt"), "txt");
    assert_eq!(ext_of(HostOs::Windows, r"\\server\share\a.wav"), "wav");
    assert_eq!(ext_of(HostOs::Windows, r"\\server\share.wav"), "");
    assert_eq!(ext_of(HostOs::Windows, r"\\?\C:\dir/a.wav"), "wav");
    assert_eq!(ext_of(HostOs::Windows, r"\\?\UNC\server\share.wav"), "");
    assert_eq!(ext_of(HostOs::MacOs, r"dir\a.wav"), "wav");
    assert_eq!(ext_of(HostOs::MacOs, r"a.wav\b"), "wav\\b");
    assert_eq!(ext_of(HostOs::Windows, r"a.wav\b"), "");
}

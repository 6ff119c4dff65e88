use bellanote::chat::{
    context_block, finish_ask, get_thread, new_thread, pack_files, prepare_ask, preview,
    to_scope_file, CHAR_BUDGET, SYSTEM_PROMPT,
};
use bellanote::db::{Artifact, Db, Duplicate};

fn ready(id: &str, group: &str, created_at: &str, transcript: &str) -> Artifact {
    Artifact {
        id: id.to_string(),
        meeting_group_id: group.to_string(),
        title: "T".to_string(),
        source_type: "audio_upload".to_string(),
        status: "ready".to_string(),
        has_audio: true,
        original_filename: "a.wav".to_string(),
        error_message: String::new(),
        transcript: transcript.to_string(),
        segments_json: "[]".to_string(),
        duration_ms: 0,
        created_at: created_at.to_string(),
        whisper_model: "small.en".to_string(),
        original_path: String::new(),
    }
}

fn library() -> Db {
    let mut db = Db::new();
    db.create_organization_with("Duke", "o1".into(), "1".into()).unwrap();
    db.create_topic_with("o1", "Strategy", "t1".into(), "1".into()).unwrap();
    db.create_meeting_group_with("t1", "Lecture", None, "g1".into(), "1".into()).unwrap();
    db
}

fn err<T>(r: Result<T, bellanote::error::AppError>) -> String {
    match r {
        Ok(_) => panic!("expected an error"),
        Err(e) => e.message(),
    }
}

#[test]
fn pack_takes_files_while_they_fit() {
    let files = vec![
        ready("a", "g", "1", &"x".repeat(100_000)),
        ready("b", "g", "1", &"y".repeat(20_000)),
        ready("c", "g", "1", "short"),
    ];
    let (used, omitted) = pack_files(&files);
    assert_eq!(used.len(), 1);
    assert_eq!(omitted.len(), 2);
    assert_eq!(omitted[0].id, "b");
    assert_eq!(omitted[1].id, "c");
}

#[test]
fn pack_always_takes_the_first_file() {
    let files = vec![ready("big", "g", "1", &"x".repeat(CHAR_BUDGET * 2))];
    let (used, omitted) = pack_files(&files);
    assert_eq!(used.len(), 1);
    assert!(omitted.is_empty());
    let (used, omitted) = pack_files(&[]);
    assert!(used.is_empty() && omitted.is_empty());
}

#[test]
fn pack_counts_bytes_of_titles_and_transcripts() {
    // Each file costs its transcript, its title (1 byte) and 40.
    let first = ready("a", "g", "1", &"x".repeat(54_959));
    let second = ready("b", "g", "1", &"é".repeat(27_480));
    // 54_959 + 1 + 40 = 55_000; 54_960 + 1 + 40 = 55_001: together 110_001.
    let (used, _) = pack_files(&[first.duplicate(), second]);
    assert_eq!(used.len(), 1);
    let third = ready("c", "g", "1", &"é".repeat(27_479));
    // 54_958 + 41 = 54_999: together exactly 109_999.
    let (used, omitted) = pack_files(&[first, third]);
    assert_eq!(used.len(), 2);
    assert!(omitted.is_empty());
}

#[test]
fn context_block_lists_each_transcript_under_its_title() {
    let files = vec![ready("a1", "g", "1", "hello"), ready("a2", "g", "1", "bye")];
    assert_eq!(
        context_block(&files),
        "## Transcripts in scope\n\n### T (id: a1)\nhello\n\n### T (id: a2)\nbye\n"
    );
    assert_eq!(context_block(&[]), "## Transcripts in scope\n");
}

#[test]
fn scope_files_keep_id_title_and_group() {
    let f = to_scope_file(&ready("a1", "g9", "1", "t"), false);
    assert_eq!((f.id.as_str(), f.title.as_str(), f.meeting_group_id.as_str(), f.included), ("a1", "T", "g9", false));
}

#[test]
fn preview_counts_and_marks_files() {
    let mut db = library();
    db.insert_artifact(&ready("a1", "g1", "2026-01-01", &"x".repeat(100_000))).unwrap();
    db.insert_artifact(&ready("a2", "g1", "2026-01-02", &"y".repeat(20_000))).unwrap();
    let mut q = ready("a3", "g1", "2026-01-03", "");
    q.status = "queued".into();
    db.insert_artifact(&q).unwrap();
    let p = preview(&db, "meeting_group", "g1").unwrap();
    assert_eq!((p.ready_count, p.total_count, p.used_count, p.omitted_count), (2, 3, 1, 1));
    assert_eq!(p.files.len(), 2);
    assert_eq!((p.files[0].id.as_str(), p.files[0].included), ("a2", true));
    assert_eq!((p.files[1].id.as_str(), p.files[1].included), ("a1", false));
    assert_eq!(err(preview(&db, "nowhere", "g1")), "Unknown chat scope.");
}

#[test]
fn asking_needs_a_question_and_a_ready_transcript() {
    let db = library();
    assert_eq!(err(prepare_ask(&db, "meeting_group", "g1", "   ")), "Ask a question first.");
    assert_eq!(
        err(prepare_ask(&db, "meeting_group", "g1", "What?")),
        "There is no ready transcript in this scope yet."
    );
    assert_eq!(err(prepare_ask(&db, "planet", "g1", "What?")), "Unknown chat scope.");
}

#[test]
fn asking_sends_context_then_question() {
    let mut db = library();
    db.insert_artifact(&ready("a1", "g1", "1", "We agreed on Friday.")).unwrap();
    let plan = prepare_ask(&db, "meeting_group", "g1", "  When?  ").unwrap();
    assert_eq!(plan.history.len(), 1);
    assert_eq!(plan.history[0].role, "user");
    assert_eq!(plan.history[0].content, "When?");
    assert_eq!(plan.model_messages.len(), 1);
    assert_eq!(
        plan.model_messages[0].content,
        "## Transcripts in scope\n\n### T (id: a1)\nWe agreed on Friday.\n\n\nWhen?"
    );
    let thread = finish_ask(&mut db, "meeting_group", "g1", plan.history, "Friday.").unwrap();
    assert_eq!(thread.messages.len(), 2);
    assert_eq!(thread.messages[1].role, "assistant");
    let saved = get_thread(&db, "meeting_group", "g1").unwrap();
    assert_eq!(saved.messages.len(), 2);
    let plan = prepare_ask(&db, "meeting_group", "g1", "And?").unwrap();
    assert_eq!(plan.history.len(), 3);
    assert_eq!(plan.model_messages.len(), 3);
    assert_eq!(plan.model_messages[0].content, "When?");
    assert!(new_thread(&mut db, "meeting_group", "g1").unwrap().messages.is_empty());
    assert!(get_thread(&db, "meeting_group", "g1").unwrap().messages.is_empty());
}

#[test]
fn asking_notes_transcripts_left_out() {
    let mut db = library();
    db.insert_artifact(&ready("a1", "g1", "1", &"x".repeat(100_000))).unwrap();
    db.insert_artifact(&ready("a2", "g1", "2", &"y".repeat(100_000))).unwrap();
    let plan = prepare_ask(&db, "meeting_group", "g1", "Q").unwrap();
    let content = &plan.model_messages[0].content;
    assert!(content.ends_with(
        "\n\nQ\n\n(Note: 1 older ready transcripts were omitted to fit the context window.)"
    ));
    assert!(content.contains("(id: a2)"));
    assert!(!content.contains("(id: a1)"));
}

#[test]
fn system_prompt_names_bella() {
    assert!(SYSTEM_PROMPT.starts_with("You are Bella, a meeting analysis assistant."));
    assert!(SYSTEM_PROMPT.contains("Never output time ranges."));
}

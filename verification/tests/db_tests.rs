use bellanote::db::{Artifact, Db};
use bellanote::llm::ChatTurn;

fn artifact(id: &str, group: &str, status: &str, source: &str, created_at: &str) -> Artifact {
    Artifact {
        id: id.to_string(),
        meeting_group_id: group.to_string(),
        title: format!("Title {id}"),
        source_type: source.to_string(),
        status: status.to_string(),
        has_audio: true,
        original_filename: "a.wav".to_string(),
        error_message: String::new(),
        transcript: format!("words of {id}"),
        segments_json: "[]".to_string(),
        duration_ms: 0,
        created_at: created_at.to_string(),
        whisper_model: String::new(),
        original_path: String::new(),
    }
}

/// A library with Duke → Competitive Strategies → Lecture Class 1.
fn sample() -> Db {
    let mut db = Db::new();
    db.create_organization_with("Duke", "o1".into(), "2026-01-01".into()).unwrap();
    db.create_topic_with("o1", "Competitive Strategies", "t1".into(), "2026-01-01".into())
        .unwrap();
    db.create_meeting_group_with(
        "t1",
        "Lecture Class 1",
        Some("2026-09-05".into()),
        "g1".into(),
        "2026-09-05T10:00:00Z".into(),
    )
    .unwrap();
    db
}

fn err<T>(r: Result<T, bellanote::error::AppError>) -> String {
    match r {
        Ok(_) => panic!("expected an error"),
        Err(e) => e.message(),
    }
}

#[test]
fn create_organization_trims_the_name() {
    let mut db = Db::new();
    let org = db.create_organization("  Duke  ").unwrap();
    assert_eq!(org.name, "Duke");
    assert_eq!(org.id.len(), 36);
    assert_eq!(org.id.chars().filter(|c| *c == '-').count(), 4);
    let lib = db.get_library().unwrap();
    assert_eq!(lib.len(), 1);
    assert_eq!(lib[0].organization.name, "Duke");
}

#[test]
fn blank_and_long_names_are_refused() {
    let mut db = Db::new();
    assert_eq!(err(db.create_organization("   ")), "A name is required.");
    let long: String = "x".repeat(81);
    assert_eq!(
        err(db.create_organization(&long)),
        "Keep names to 80 characters or fewer."
    );
    let ok: String = "y".repeat(80);
    assert_eq!(db.create_organization(&ok).unwrap().name, ok);
}

#[test]
fn duplicate_organization_names_are_refused_ignoring_case() {
    let mut db = sample();
    assert_eq!(
        err(db.create_organization("duke")),
        "An organization with that name already exists."
    );
    db.create_organization_with("Coursera", "o2".into(), "now".into()).unwrap();
    assert_eq!(
        err(db.rename_organization("o2", "DUKE")),
        "An organization with that name already exists."
    );
    assert_eq!(db.rename_organization("o1", "DUKE").unwrap().name, "DUKE");
    assert_eq!(err(db.rename_organization("nope", "Other")), "Organization not found.");
}

#[test]
fn an_id_that_is_taken_is_refused() {
    let mut db = sample();
    assert_eq!(
        err(db.create_organization_with("Other", "o1".into(), "now".into())),
        "UNIQUE constraint failed: organizations.id"
    );
}

#[test]
fn topics_are_unique_within_their_organization() {
    let mut db = sample();
    assert_eq!(
        err(db.create_topic("o1", "competitive strategies")),
        "That topic already exists in this organization."
    );
    db.create_organization_with("Coursera", "o2".into(), "now".into()).unwrap();
    let t = db.create_topic("o2", "Competitive Strategies").unwrap();
    assert_eq!(t.organization_id, "o2");
    assert_eq!(err(db.create_topic("missing", "X")), "Organization not found.");
    db.create_topic_with("o1", "Corporate Finance", "t2".into(), "now".into()).unwrap();
    assert_eq!(
        err(db.rename_topic("t2", "Competitive Strategies")),
        "That topic already exists in this organization."
    );
    assert_eq!(db.rename_topic("t2", " Finance ").unwrap().name, "Finance");
    assert_eq!(err(db.rename_topic("zz", "A")), "Topic not found.");
}

#[test]
fn meeting_groups_may_share_names_and_are_dated() {
    let mut db = sample();
    let g = db
        .create_meeting_group_with("t1", "Lecture Class 1", None, "g2".into(), "2026-09-06".into())
        .unwrap();
    assert_eq!(g.occurred_at, "2026-09-06");
    assert_eq!(g.created_at, "2026-09-06");
    let g = db
        .create_meeting_group_with("t1", "Review", Some("  ".into()), "g3".into(), "NOW".into())
        .unwrap();
    assert_eq!(g.occurred_at, "NOW");
    let g = db
        .create_meeting_group_with("t1", "Exam", Some(" 2026-12-01 ".into()), "g4".into(), "NOW".into())
        .unwrap();
    assert_eq!(g.occurred_at, "2026-12-01");
    assert_eq!(err(db.create_meeting_group("nope", "X", None)), "Topic not found.");
    assert_eq!(db.rename_meeting_group("g2", "Lecture 2").unwrap().name, "Lecture 2");
    assert_eq!(err(db.rename_meeting_group("zz", "A")), "Meeting group not found.");
    assert_eq!(err(db.delete_meeting_group("zz")), "Meeting group not found.");
}

#[test]
fn library_lists_by_name_and_newest_meeting_first() {
    let mut db = Db::new();
    db.create_organization_with("beta", "b".into(), "1".into()).unwrap();
    db.create_organization_with("Alpha", "a".into(), "1".into()).unwrap();
    db.create_organization_with("gamma", "c".into(), "1".into()).unwrap();
    db.create_topic_with("a", "zoo", "tz".into(), "1".into()).unwrap();
    db.create_topic_with("a", "Ant", "ta".into(), "1".into()).unwrap();
    db.create_meeting_group_with("ta", "old", Some("2026-01-01".into()), "g1".into(), "1".into())
        .unwrap();
    db.create_meeting_group_with("ta", "new", Some("2026-02-01".into()), "g2".into(), "1".into())
        .unwrap();
    let lib = db.get_library().unwrap();
    let names: Vec<&str> = lib.iter().map(|o| o.organization.name.as_str()).collect();
    assert_eq!(names, vec!["Alpha", "beta", "gamma"]);
    let topics: Vec<&str> = lib[0].topics.iter().map(|t| t.topic.name.as_str()).collect();
    assert_eq!(topics, vec!["Ant", "zoo"]);
    let groups: Vec<&str> = lib[0].topics[0].groups.iter().map(|g| g.name.as_str()).collect();
    assert_eq!(groups, vec!["new", "old"]);
}

#[test]
fn deleting_an_organization_removes_everything_below_it() {
    let mut db = sample();
    db.insert_artifact(&artifact("a1", "g1", "ready", "audio_upload", "1")).unwrap();
    db.create_artifact_comment_with("a1", 0, "note", "c1".into(), "1".into()).unwrap();
    db.delete_organization("o1").unwrap();
    assert!(db.get_library().unwrap().is_empty());
    assert_eq!(err(db.get_artifact("a1")), "Artifact not found.");
    assert_eq!(err(db.get_artifact_comment("c1")), "Comment not found.");
    assert!(db.list_artifacts("g1").unwrap().is_empty());
    assert_eq!(err(db.delete_organization("o1")), "Organization not found.");
}

#[test]
fn deleting_a_topic_keeps_other_topics() {
    let mut db = sample();
    db.create_topic_with("o1", "Other", "t2".into(), "1".into()).unwrap();
    db.create_meeting_group_with("t2", "G", None, "g2".into(), "1".into()).unwrap();
    db.insert_artifact(&artifact("a2", "g2", "ready", "audio_upload", "1")).unwrap();
    db.delete_topic("t1").unwrap();
    assert_eq!(db.get_artifact("a2").unwrap().id, "a2");
    assert_eq!(db.get_library().unwrap()[0].topics.len(), 1);
    assert_eq!(err(db.delete_topic("t1")), "Topic not found.");
}

#[test]
fn artifacts_are_listed_oldest_first() {
    let mut db = sample();
    db.insert_artifact(&artifact("late", "g1", "ready", "audio_upload", "2026-01-02")).unwrap();
    db.insert_artifact(&artifact("early", "g1", "ready", "audio_upload", "2026-01-01")).unwrap();
    db.insert_artifact(&artifact("same", "g1", "ready", "audio_upload", "2026-01-02")).unwrap();
    let ids: Vec<String> = db.list_artifacts("g1").unwrap().into_iter().map(|a| a.id).collect();
    assert_eq!(ids, vec!["early", "late", "same"]);
}

#[test]
fn inserting_an_artifact_checks_its_group_and_id() {
    let mut db = sample();
    assert_eq!(
        err(db.insert_artifact(&artifact("a1", "nope", "ready", "audio_upload", "1"))),
        "Meeting group not found."
    );
    db.insert_artifact(&artifact("a1", "g1", "ready", "audio_upload", "1")).unwrap();
    assert_eq!(
        err(db.insert_artifact(&artifact("a1", "g1", "ready", "audio_upload", "1"))),
        "UNIQUE constraint failed: artifacts.id"
    );
    let got = db.get_artifact("a1").unwrap();
    assert_eq!(got.title, "Title a1");
}

#[test]
fn artifacts_are_renamed_and_deleted() {
    let mut db = sample();
    db.insert_artifact(&artifact("a1", "g1", "ready", "audio_upload", "1")).unwrap();
    let a = db.rename_artifact("a1", " Lecture 1 — professor recording ").unwrap();
    assert_eq!(a.title, "Lecture 1 — professor recording");
    assert_eq!(err(db.rename_artifact("a1", "")), "A name is required.");
    assert_eq!(err(db.rename_artifact("zz", "T")), "Artifact not found.");
    db.delete_artifact("a1").unwrap();
    assert_eq!(err(db.delete_artifact("a1")), "Artifact not found.");
}

#[test]
fn comments_are_pinned_inside_the_recording() {
    let mut db = sample();
    let mut a = artifact("a1", "g1", "ready", "audio_upload", "1");
    a.duration_ms = 60_000;
    db.insert_artifact(&a).unwrap();
    let c = db.create_artifact_comment_with("a1", 90_000, " late ", "c1".into(), "2".into()).unwrap();
    assert_eq!(c.time_ms, 60_000);
    assert_eq!(c.body, "late");
    let c = db.create_artifact_comment_with("a1", -5, "early", "c2".into(), "3".into()).unwrap();
    assert_eq!(c.time_ms, 0);
    let c = db.create_artifact_comment_with("a1", 30_000, "mid", "c3".into(), "1".into()).unwrap();
    assert_eq!(c.time_ms, 30_000);
    let bodies: Vec<String> =
        db.list_artifact_comments("a1").unwrap().into_iter().map(|c| c.body).collect();
    assert_eq!(bodies, vec!["early", "mid", "late"]);
}

#[test]
fn comment_errors() {
    let mut db = sample();
    let mut t = artifact("t1", "g1", "ready", "transcript_import", "1");
    t.has_audio = false;
    db.insert_artifact(&t).unwrap();
    assert_eq!(
        err(db.create_artifact_comment("t1", 0, "hi")),
        "Comments can only be added on audio files."
    );
    assert_eq!(err(db.create_artifact_comment("zz", 0, "hi")), "Artifact not found.");
    assert_eq!(err(db.create_artifact_comment("t1", 0, "  ")), "A comment is required.");
    let long = "c".repeat(501);
    assert_eq!(
        err(db.create_artifact_comment("t1", 0, &long)),
        "Keep comments to 500 characters or fewer."
    );
    assert_eq!(err(db.update_artifact_comment("zz", "x")), "Comment not found.");
    assert_eq!(err(db.delete_artifact_comment("zz")), "Comment not found.");
}

#[test]
fn comments_are_edited_and_deleted() {
    let mut db = sample();
    db.insert_artifact(&artifact("a1", "g1", "ready", "audio_upload", "1")).unwrap();
    let c = db.create_artifact_comment("a1", 1_000, "first").unwrap();
    assert_eq!(db.update_artifact_comment(&c.id, " second ").unwrap().body, "second");
    assert_eq!(db.get_artifact_comment(&c.id).unwrap().body, "second");
    db.delete_artifact_comment(&c.id).unwrap();
    assert!(db.list_artifact_comments("a1").unwrap().is_empty());
}

#[test]
fn chat_messages_are_read_back() {
    let mut db = sample();
    assert!(db.get_chat_messages("topic", "t1").unwrap().is_empty());
    let turns = vec![ChatTurn::new("user", "hi"), ChatTurn::new("assistant", "hello")];
    db.set_chat_messages("topic", "t1", &turns).unwrap();
    let back = db.get_chat_messages("topic", "t1").unwrap();
    assert_eq!(back.len(), 2);
    assert_eq!(back[1].content, "hello");
    db.set_chat_messages("topic", "t1", &turns[..1]).unwrap();
    assert_eq!(db.get_chat_messages("topic", "t1").unwrap().len(), 1);
    assert_eq!(db.chat_threads().len(), 1);
    assert!(db.get_chat_messages("topic", "other").unwrap().is_empty());
}

#[test]
fn start_up_sweep_fails_unfinished_work() {
    let mut db = sample();
    db.insert_artifact(&artifact("q", "g1", "queued", "audio_upload", "1")).unwrap();
    db.insert_artifact(&artifact("t", "g1", "transcribing", "video_upload", "1")).unwrap();
    db.insert_artifact(&artifact("r", "g1", "recording", "voice", "1")).unwrap();
    db.insert_artifact(&artifact("s", "g1", "queued", "system", "1")).unwrap();
    db.insert_artifact(&artifact("ok", "g1", "ready", "voice", "1")).unwrap();
    db.insert_artifact(&artifact("rec_upload", "g1", "recording", "audio_upload", "1")).unwrap();
    assert_eq!(db.fail_interrupted_imports().unwrap(), 4);
    let q = db.get_artifact("q").unwrap();
    assert_eq!(q.status, "failed");
    assert_eq!(
        q.error_message,
        "Import didn’t finish because BellaNote closed. You can try again."
    );
    let r = db.get_artifact("r").unwrap();
    assert_eq!(r.error_message, "Recording didn’t finish because BellaNote closed.");
    assert_eq!(db.get_artifact("ok").unwrap().status, "ready");
    assert_eq!(db.get_artifact("rec_upload").unwrap().status, "recording");
    assert_eq!(db.fail_interrupted_imports().unwrap(), 0);
}

#[test]
fn migration_fills_in_the_model() {
    let mut db = sample();
    db.insert_artifact(&artifact("a", "g1", "ready", "audio_upload", "1")).unwrap();
    db.insert_artifact(&artifact("b", "g1", "failed", "audio_upload", "1")).unwrap();
    db.insert_artifact(&artifact("c", "g1", "ready", "transcript_import", "1")).unwrap();
    let mut d = artifact("d", "g1", "ready", "audio_upload", "1");
    d.whisper_model = "base.en".into();
    db.insert_artifact(&d).unwrap();
    db.migrate_artifacts();
    assert_eq!(db.get_artifact("a").unwrap().whisper_model, "small.en");
    assert_eq!(db.get_artifact("b").unwrap().whisper_model, "");
    assert_eq!(db.get_artifact("c").unwrap().whisper_model, "imported");
    assert_eq!(db.get_artifact("d").unwrap().whisper_model, "base.en");
}

#[test]
fn status_and_transcripts_are_stored() {
    let mut db = sample();
    db.insert_artifact(&artifact("a", "g1", "queued", "audio_upload", "1")).unwrap();
    db.set_artifact_status("a", "transcribing", "").unwrap();
    assert_eq!(db.get_artifact("a").unwrap().status, "transcribing");
    db.set_artifact_live_transcript("a", "so far", "[]", 1_500).unwrap();
    let a = db.get_artifact("a").unwrap();
    assert_eq!((a.transcript.as_str(), a.duration_ms, a.status.as_str()), ("so far", 1_500, "transcribing"));
    db.set_artifact_status("a", "failed", "boom").unwrap();
    db.set_artifact_transcript("a", "all of it", "[1]", 2_000, "small.en").unwrap();
    let a = db.get_artifact("a").unwrap();
    assert_eq!(a.status, "ready");
    assert_eq!(a.error_message, "");
    assert_eq!(a.segments_json, "[1]");
    assert_eq!(a.whisper_model, "small.en");
    db.set_artifact_status("missing", "failed", "x").unwrap();
}

#[test]
fn scopes_gather_ready_artifacts_newest_first() {
    let mut db = sample();
    db.create_meeting_group_with("t1", "Later", Some("2026-10-01".into()), "g2".into(), "1".into())
        .unwrap();
    db.insert_artifact(&artifact("a1", "g1", "ready", "audio_upload", "2026-09-05T01")).unwrap();
    db.insert_artifact(&artifact("a2", "g1", "ready", "audio_upload", "2026-09-05T02")).unwrap();
    db.insert_artifact(&artifact("a3", "g1", "queued", "audio_upload", "2026-09-05T03")).unwrap();
    db.insert_artifact(&artifact("b1", "g2", "ready", "audio_upload", "2026-01-01")).unwrap();
    let ids = |v: Vec<Artifact>| v.into_iter().map(|a| a.id).collect::<Vec<_>>();
    assert_eq!(ids(db.ready_artifacts_for_scope("meeting_group", "g1").unwrap()), vec!["a2", "a1"]);
    assert_eq!(ids(db.ready_artifacts_for_scope("topic", "t1").unwrap()), vec!["b1", "a2", "a1"]);
    assert_eq!(ids(db.ready_artifacts_for_scope("organization", "o1").unwrap()), vec!["b1", "a2", "a1"]);
    assert_eq!(ids(db.ready_artifacts_for_scope("artifact", "a3").unwrap()), Vec::<String>::new());
    assert_eq!(ids(db.ready_artifacts_for_scope("artifact", "a1").unwrap()), vec!["a1"]);
    assert_eq!(err(db.ready_artifacts_for_scope("galaxy", "x")), "Unknown chat scope.");
    assert_eq!(db.count_artifacts_in_scope("meeting_group", "g1").unwrap(), (2, 3));
    assert_eq!(db.count_artifacts_in_scope("organization", "o1").unwrap(), (3, 4));
    assert_eq!(err(db.count_artifacts_in_scope("galaxy", "x")), "Unknown chat scope.");
}

#[test]
fn deleting_a_group_removes_its_artifacts_and_keeps_the_rest() {
    let mut db = sample();
    db.create_meeting_group_with("t1", "Lecture Class 2", None, "g2".into(), "2".into()).unwrap();
    db.insert_artifact(&artifact("a1", "g1", "ready", "audio_upload", "1")).unwrap();
    db.insert_artifact(&artifact("a2", "g2", "ready", "audio_upload", "1")).unwrap();
    db.create_artifact_comment_with("a1", 0, "gone", "c1".into(), "1".into()).unwrap();
    db.create_artifact_comment_with("a2", 0, "kept", "c2".into(), "1".into()).unwrap();
    db.delete_meeting_group("g1").unwrap();
    assert_eq!(err(db.get_artifact("a1")), "Artifact not found.");
    assert_eq!(err(db.get_artifact_comment("c1")), "Comment not found.");
    assert_eq!(db.get_artifact("a2").unwrap().id, "a2");
    assert_eq!(db.get_artifact_comment("c2").unwrap().body, "kept");
    let lib = db.get_library().unwrap();
    assert_eq!(lib.len(), 1);
    assert_eq!(lib[0].topics.len(), 1);
    assert_eq!(lib[0].topics[0].groups.len(), 1);
    assert_eq!(lib[0].topics[0].groups[0].id, "g2");
}

#[test]
fn deleting_an_artifact_removes_only_its_comments() {
    let mut db = sample();
    db.insert_artifact(&artifact("a1", "g1", "ready", "audio_upload", "1")).unwrap();
    db.insert_artifact(&artifact("a2", "g1", "ready", "audio_upload", "2")).unwrap();
    db.create_artifact_comment_with("a1", 0, "gone", "c1".into(), "1".into()).unwrap();
    db.create_artifact_comment_with("a2", 0, "kept", "c2".into(), "1".into()).unwrap();
    db.delete_artifact("a1").unwrap();
    assert_eq!(err(db.get_artifact_comment("c1")), "Comment not found.");
    assert_eq!(db.get_artifact_comment("c2").unwrap().body, "kept");
    let ids: Vec<String> = db.list_artifacts("g1").unwrap().into_iter().map(|a| a.id).collect();
    assert_eq!(ids, vec!["a2"]);
}

#[test]
fn a_refused_change_leaves_the_library_as_it_was() {
    let mut db = sample();
    db.insert_artifact(&artifact("a1", "g1", "ready", "audio_upload", "1")).unwrap();
    let shape = |db: &Db| {
        let lib = db.get_library().unwrap();
        let names: Vec<String> = lib
            .iter()
            .flat_map(|o| {
                o.topics.iter().flat_map(move |t| {
                    t.groups.iter().map(move |g| {
                        format!("{}/{}/{}", o.organization.name, t.topic.name, g.name)
                    })
                })
            })
            .collect();
        let arts: Vec<String> =
            db.list_artifacts("g1").unwrap().into_iter().map(|a| format!("{}:{}", a.id, a.title)).collect();
        (names, arts)
    };
    let before = shape(&db);
    assert!(db.create_organization_with("duke", "o2".into(), "1".into()).is_err());
    assert!(db.create_topic_with("o1", "  ", "t2".into(), "1".into()).is_err());
    assert!(db.rename_meeting_group("zz", "X").is_err());
    assert!(db.rename_artifact("a1", "").is_err());
    assert!(db.delete_topic("zz").is_err());
    assert!(db.create_artifact_comment_with("zz", 0, "x", "c9".into(), "1".into()).is_err());
    assert_eq!(shape(&db), before);
}

#[test]
fn start_up_fails_ready_audio_with_a_blank_transcript() {
    let mut db = sample();
    let mut blank = artifact("blank", "g1", "ready", "voice", "1");
    blank.transcript = "  \n ".to_string();
    db.insert_artifact(&blank).unwrap();
    let mut text = artifact("text", "g1", "ready", "audio_upload", "1");
    text.transcript = "words".to_string();
    db.insert_artifact(&text).unwrap();
    let mut imported = artifact("imp", "g1", "ready", "transcript_import", "1");
    imported.has_audio = false;
    imported.transcript = String::new();
    db.insert_artifact(&imported).unwrap();
    assert_eq!(db.fail_empty_ready_audio().unwrap(), 1);
    let b = db.get_artifact("blank").unwrap();
    assert_eq!(b.status, "failed");
    assert_eq!(
        b.error_message,
        "Transcription didn’t finish. The recording is saved — you can try again."
    );
    assert_eq!(db.get_artifact("text").unwrap().status, "ready");
    assert_eq!(db.get_artifact("imp").unwrap().status, "ready");
    assert_eq!(db.fail_empty_ready_audio().unwrap(), 0);
}

#[test]
fn saving_one_scope_leaves_other_scopes_alone() {
    let mut db = sample();
    let a = vec![ChatTurn::new("user", "about the topic")];
    let b = vec![ChatTurn::new("user", "about the group"), ChatTurn::new("assistant", "ok")];
    db.set_chat_messages("topic", "t1", &a).unwrap();
    db.set_chat_messages("meeting_group", "g1", &b).unwrap();
    db.set_chat_messages("topic", "t1", &b[..1]).unwrap();
    let g = db.get_chat_messages("meeting_group", "g1").unwrap();
    assert_eq!(g.len(), 2);
    assert_eq!(g[0].content, "about the group");
    assert_eq!(db.get_chat_messages("topic", "t1").unwrap()[0].content, "about the group");
    assert!(db.get_chat_messages("organization", "o1").unwrap().is_empty());
}

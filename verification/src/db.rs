//! The library's records and the store that holds them: organizations, topics,
//! meeting groups, artifacts, waveform comments and chat threads.
use vstd::prelude::*;

use crate::error::{app_error, AppError, AppResult};
use crate::order::{
    idx_view, keys_view, lemma_sort_order, sort_indices, sorted_by, KeyView, SortKey,
};
use crate::llm::{duplicate_turns, turns_view, ChatTurn, ChatTurnView};
use crate::ids::{is_hyphenated_uuid, new_id, now_rfc3339};
use crate::text::{
    ascii_lower_chars, ascii_lower_seq, chars_eq, from_chars, is_blank, text_is, to_chars, trim,
    trim_chars,
};

verus! {

broadcast use vstd::string::group_string_axioms;

// ---------------------------------------------------------------------------
// Records
// ---------------------------------------------------------------------------

/// A record that can be copied field by field.
pub trait Duplicate: View + Sized {
    fn duplicate(&self) -> (r: Self)
        ensures
            r@ == self@,
    ;
}

/// The views of a sequence of records.
pub open spec fn views_of<T: View>(s: Seq<T>) -> Seq<T::V> {
    s.map_values(|x: T| x@)
}

/// Copies of the records at the given indices, in that order.
pub fn pick<T: Duplicate>(items: &Vec<T>, order: &Vec<usize>) -> (out: Vec<T>)
    requires
        forall|i: int| 0 <= i < order@.len() ==> #[trigger] order@[i] < items@.len(),
    ensures
        views_of(out@) == idx_view(order@).map_values(|i: int| views_of(items@)[i]),
{
    let mut out: Vec<T> = Vec::new();
    let mut j: usize = 0;
    while j < order.len()
        invariant
            0 <= j <= order@.len(),
            forall|i: int| 0 <= i < order@.len() ==> #[trigger] order@[i] < items@.len(),
            views_of(out@) == idx_view(order@).take(j as int).map_values(
                |i: int| views_of(items@)[i],
            ),
        decreases order.len() - j,
    {
        let x = items[order[j]].duplicate();
        let ghost before = out@;
        out.push(x);
        assert(views_of(out@) == views_of(before).push(x@));
        assert(idx_view(order@).take(j + 1) == idx_view(order@).take(j as int).push(
            order@[j as int] as int,
        ));
        j = j + 1;
    }
    assert(idx_view(order@).take(order@.len() as int) == idx_view(order@));
    out
}

pub struct Organization {
    pub id: String,
    pub name: String,
    pub created_at: String,
}

pub struct OrganizationView {
    pub id: Seq<char>,
    pub name: Seq<char>,
    pub created_at: Seq<char>,
}

impl View for Organization {
    type V = OrganizationView;

    open spec fn view(&self) -> OrganizationView {
        OrganizationView { id: self.id@, name: self.name@, created_at: self.created_at@ }
    }
}

impl Duplicate for Organization {
    fn duplicate(&self) -> (r: Self) {
        Organization { id: self.id.clone(), name: self.name.clone(), created_at: self.created_at.clone() }
    }
}

pub struct Topic {
    pub id: String,
    pub organization_id: String,
    pub name: String,
    pub created_at: String,
}

pub struct TopicView {
    pub id: Seq<char>,
    pub organization_id: Seq<char>,
    pub name: Seq<char>,
    pub created_at: Seq<char>,
}

impl View for Topic {
    type V = TopicView;

    open spec fn view(&self) -> TopicView {
        TopicView {
            id: self.id@,
            organization_id: self.organization_id@,
            name: self.name@,
            created_at: self.created_at@,
        }
    }
}

impl Duplicate for Topic {
    fn duplicate(&self) -> (r: Self) {
        Topic {
            id: self.id.clone(),
            organization_id: self.organization_id.clone(),
            name: self.name.clone(),
            created_at: self.created_at.clone(),
        }
    }
}

pub struct MeetingGroup {
    pub id: String,
    pub topic_id: String,
    pub name: String,
    pub occurred_at: String,
    pub created_at: String,
}

pub struct MeetingGroupView {
    pub id: Seq<char>,
    pub topic_id: Seq<char>,
    pub name: Seq<char>,
    pub occurred_at: Seq<char>,
    pub created_at: Seq<char>,
}

impl View for MeetingGroup {
    type V = MeetingGroupView;

    open spec fn view(&self) -> MeetingGroupView {
        MeetingGroupView {
            id: self.id@,
            topic_id: self.topic_id@,
            name: self.name@,
            occurred_at: self.occurred_at@,
            created_at: self.created_at@,
        }
    }
}

impl Duplicate for MeetingGroup {
    fn duplicate(&self) -> (r: Self) {
        MeetingGroup {
            id: self.id.clone(),
            topic_id: self.topic_id.clone(),
            name: self.name.clone(),
            occurred_at: self.occurred_at.clone(),
            created_at: self.created_at.clone(),
        }
    }
}

/// A topic with its meeting groups, as the library tree shows it.
pub struct LibraryTopic {
    pub topic: Topic,
    pub groups: Vec<MeetingGroup>,
}

pub struct LibraryTopicView {
    pub topic: TopicView,
    pub groups: Seq<MeetingGroupView>,
}

impl View for LibraryTopic {
    type V = LibraryTopicView;

    open spec fn view(&self) -> LibraryTopicView {
        LibraryTopicView { topic: self.topic@, groups: views_of(self.groups@) }
    }
}

/// An organization with its topics, as the library tree shows it.
pub struct LibraryOrganization {
    pub organization: Organization,
    pub topics: Vec<LibraryTopic>,
}

pub struct LibraryOrganizationView {
    pub organization: OrganizationView,
    pub topics: Seq<LibraryTopicView>,
}

impl View for LibraryOrganization {
    type V = LibraryOrganizationView;

    open spec fn view(&self) -> LibraryOrganizationView {
        LibraryOrganizationView { organization: self.organization@, topics: views_of(self.topics@) }
    }
}

/// One imported or recorded file and what was read from it.
pub struct Artifact {
    pub id: String,
    pub meeting_group_id: String,
    pub title: String,
    pub source_type: String,
    pub status: String,
    pub has_audio: bool,
    pub original_filename: String,
    pub error_message: String,
    pub transcript: String,
    pub segments_json: String,
    pub duration_ms: i64,
    pub created_at: String,
    pub whisper_model: String,
    pub original_path: String,
}

pub struct ArtifactView {
    pub id: Seq<char>,
    pub meeting_group_id: Seq<char>,
    pub title: Seq<char>,
    pub source_type: Seq<char>,
    pub status: Seq<char>,
    pub has_audio: bool,
    pub original_filename: Seq<char>,
    pub error_message: Seq<char>,
    pub transcript: Seq<char>,
    pub segments_json: Seq<char>,
    pub duration_ms: i64,
    pub created_at: Seq<char>,
    pub whisper_model: Seq<char>,
    pub original_path: Seq<char>,
}

impl View for Artifact {
    type V = ArtifactView;

    open spec fn view(&self) -> ArtifactView {
        ArtifactView {
            id: self.id@,
            meeting_group_id: self.meeting_group_id@,
            title: self.title@,
            source_type: self.source_type@,
            status: self.status@,
            has_audio: self.has_audio,
            original_filename: self.original_filename@,
            error_message: self.error_message@,
            transcript: self.transcript@,
            segments_json: self.segments_json@,
            duration_ms: self.duration_ms,
            created_at: self.created_at@,
            whisper_model: self.whisper_model@,
            original_path: self.original_path@,
        }
    }
}

impl Duplicate for Artifact {
    fn duplicate(&self) -> (r: Self) {
        Artifact {
            id: self.id.clone(),
            meeting_group_id: self.meeting_group_id.clone(),
            title: self.title.clone(),
            source_type: self.source_type.clone(),
            status: self.status.clone(),
            has_audio: self.has_audio,
            original_filename: self.original_filename.clone(),
            error_message: self.error_message.clone(),
            transcript: self.transcript.clone(),
            segments_json: self.segments_json.clone(),
            duration_ms: self.duration_ms,
            created_at: self.created_at.clone(),
            whisper_model: self.whisper_model.clone(),
            original_path: self.original_path.clone(),
        }
    }
}

/// A comment pinned to a moment of an audio artifact.
pub struct ArtifactComment {
    pub id: String,
    pub artifact_id: String,
    pub time_ms: i64,
    pub body: String,
    pub created_at: String,
}

pub struct ArtifactCommentView {
    pub id: Seq<char>,
    pub artifact_id: Seq<char>,
    pub time_ms: i64,
    pub body: Seq<char>,
    pub created_at: Seq<char>,
}

impl View for ArtifactComment {
    type V = ArtifactCommentView;

    open spec fn view(&self) -> ArtifactCommentView {
        ArtifactCommentView {
            id: self.id@,
            artifact_id: self.artifact_id@,
            time_ms: self.time_ms,
            body: self.body@,
            created_at: self.created_at@,
        }
    }
}

impl Duplicate for ArtifactComment {
    fn duplicate(&self) -> (r: Self) {
        ArtifactComment {
            id: self.id.clone(),
            artifact_id: self.artifact_id.clone(),
            time_ms: self.time_ms,
            body: self.body.clone(),
            created_at: self.created_at.clone(),
        }
    }
}

/// The one chat thread of a scope.
pub struct ChatThread {
    pub id: String,
    pub scope_type: String,
    pub scope_id: String,
    pub messages: Vec<ChatTurn>,
    pub updated_at: String,
}

pub struct ChatThreadRecordView {
    pub id: Seq<char>,
    pub scope_type: Seq<char>,
    pub scope_id: Seq<char>,
    pub messages: Seq<ChatTurnView>,
    pub updated_at: Seq<char>,
}

impl View for ChatThread {
    type V = ChatThreadRecordView;

    open spec fn view(&self) -> ChatThreadRecordView {
        ChatThreadRecordView {
            id: self.id@,
            scope_type: self.scope_type@,
            scope_id: self.scope_id@,
            messages: turns_view(self.messages@),
            updated_at: self.updated_at@,
        }
    }
}

// ---------------------------------------------------------------------------
// Names
// ---------------------------------------------------------------------------

/// The most characters a name may hold.
pub const MAX_NAME_CHARS: usize = 80;

/// The most characters a comment may hold.
pub const MAX_COMMENT_CHARS: usize = 500;

/// A trimmed name, or why it is refused: empty, or longer than 80 characters.
pub open spec fn name_check(name: Seq<char>) -> Result<Seq<char>, Seq<char>> {
    let t = trim(name);
    if t.len() == 0 {
        Err("A name is required."@)
    } else if t.len() > MAX_NAME_CHARS {
        Err("Keep names to 80 characters or fewer."@)
    } else {
        Ok(t)
    }
}

/// A trimmed comment body, or why it is refused: empty, or longer than 500
/// characters.
pub open spec fn comment_check(body: Seq<char>) -> Result<Seq<char>, Seq<char>> {
    let t = trim(body);
    if t.len() == 0 {
        Err("A comment is required."@)
    } else if t.len() > MAX_COMMENT_CHARS {
        Err("Keep comments to 500 characters or fewer."@)
    } else {
        Ok(t)
    }
}

/// Whether a checked text matches what `check` gives for it.
pub open spec fn checked_as(r: AppResult<String>, want: Result<Seq<char>, Seq<char>>) -> bool {
    match (r, want) {
        (Ok(s), Ok(w)) => s@ == w,
        (Err(e), Err(w)) => e.msg() == w,
        _ => false,
    }
}

/// The trimmed name, refused when empty or over 80 characters.
pub fn trim_name(name: &str) -> (r: AppResult<String>)
    ensures
        checked_as(r, name_check(name@)),
{
    let t = trim_chars(&to_chars(name));
    if t.len() == 0 {
        return Err(app_error("A name is required."));
    }
    if t.len() > MAX_NAME_CHARS {
        return Err(app_error("Keep names to 80 characters or fewer."));
    }
    Ok(from_chars(t.as_slice()))
}

/// The trimmed comment body, refused when empty or over 500 characters.
pub fn trim_comment_body(body: &str) -> (r: AppResult<String>)
    ensures
        checked_as(r, comment_check(body@)),
{
    let t = trim_chars(&to_chars(body));
    if t.len() == 0 {
        return Err(app_error("A comment is required."));
    }
    if t.len() > MAX_COMMENT_CHARS {
        return Err(app_error("Keep comments to 500 characters or fewer."));
    }
    Ok(from_chars(t.as_slice()))
}


// ---------------------------------------------------------------------------
// Sequences of records
// ---------------------------------------------------------------------------

pub open spec fn org_views(v: Seq<Organization>) -> Seq<OrganizationView> {
    v.map_values(|x: Organization| x@)
}

pub open spec fn topic_views(v: Seq<Topic>) -> Seq<TopicView> {
    v.map_values(|x: Topic| x@)
}

pub open spec fn group_views(v: Seq<MeetingGroup>) -> Seq<MeetingGroupView> {
    v.map_values(|x: MeetingGroup| x@)
}

pub open spec fn artifact_views(v: Seq<Artifact>) -> Seq<ArtifactView> {
    v.map_values(|x: Artifact| x@)
}

pub open spec fn comment_views(v: Seq<ArtifactComment>) -> Seq<ArtifactCommentView> {
    v.map_values(|x: ArtifactComment| x@)
}

pub open spec fn thread_views(v: Seq<ChatThread>) -> Seq<ChatThreadRecordView> {
    v.map_values(|x: ChatThread| x@)
}

/// No two elements of `s` have the same key.
pub open spec fn unique_by<T, K>(s: Seq<T>, key: spec_fn(T) -> K) -> bool {
    forall|i: int, j: int| 0 <= i < j < s.len() ==> key(s[i]) != key(s[j])
}

/// Some element of `s` has key `k`.
pub open spec fn has_key<T, K>(s: Seq<T>, key: spec_fn(T) -> K, k: K) -> bool {
    exists|i: int| 0 <= i < s.len() && key(s[i]) == k
}

pub proof fn lemma_filter_push<T>(s: Seq<T>, x: T, p: spec_fn(T) -> bool)
    ensures
        s.push(x).filter(p) == if p(x) {
            s.filter(p).push(x)
        } else {
            s.filter(p)
        },
{
    reveal(Seq::filter);
    assert(s.push(x).drop_last() == s);
}

/// Filtering keeps a sequence free of duplicate keys.
pub proof fn lemma_filter_unique<T, K>(s: Seq<T>, key: spec_fn(T) -> K, p: spec_fn(T) -> bool)
    requires
        unique_by(s, key),
    ensures
        unique_by(s.filter(p), key),
    decreases s.len(),
{
    broadcast use vstd::seq_lib::group_filter_ensures;

    if s.len() > 0 {
        let t = s.drop_last();
        assert(unique_by(t, key));
        lemma_filter_unique(t, key, p);
        lemma_filter_push(t, s.last(), p);
        assert(s == t.push(s.last()));
        if p(s.last()) {
            let f = t.filter(p);
            assert forall|i: int, j: int| 0 <= i < j < f.push(s.last()).len() implies key(
                f.push(s.last())[i],
            ) != key(f.push(s.last())[j]) by {
                if j == f.len() {
                    assert(f.contains(f[i]));
                    t.lemma_filter_contains_rev(p, f[i]);
                    let k = choose|k: int| 0 <= k < t.len() && t[k] == f[i];
                    assert(s[k] == t[k]);
                    assert(s[s.len() - 1] == s.last());
                }
            }
        }
    }
}

pub proof fn lemma_push_unique<T, K>(s: Seq<T>, key: spec_fn(T) -> K, x: T)
    requires
        unique_by(s, key),
        !has_key(s, key, key(x)),
    ensures
        unique_by(s.push(x), key),
{
    assert forall|i: int, j: int| 0 <= i < j < s.push(x).len() implies key(s.push(x)[i]) != key(
        s.push(x)[j],
    ) by {
        if j == s.len() {
            assert(s.push(x)[i] == s[i]);
        }
    }
}

pub proof fn lemma_push_has_key<T, K>(s: Seq<T>, key: spec_fn(T) -> K, x: T, k: K)
    ensures
        has_key(s.push(x), key, k) == (has_key(s, key, k) || key(x) == k),
{
    if has_key(s, key, k) {
        let i = choose|i: int| 0 <= i < s.len() && key(s[i]) == k;
        assert(s.push(x)[i] == s[i]);
    }
    if has_key(s.push(x), key, k) {
        let i = choose|i: int| 0 <= i < s.push(x).len() && key(s.push(x)[i]) == k;
        if i < s.len() {
            assert(s.push(x)[i] == s[i]);
        }
    }
    if key(x) == k {
        assert(s.push(x)[s.len() as int] == x);
    }
}

pub proof fn lemma_update_unique<T, K>(s: Seq<T>, key: spec_fn(T) -> K, i: int, x: T)
    requires
        unique_by(s, key),
        0 <= i < s.len(),
        forall|j: int| 0 <= j < s.len() && j != i ==> key(s[j]) != key(x),
    ensures
        unique_by(s.update(i, x), key),
{
}

pub proof fn lemma_update_has_key<T, K>(s: Seq<T>, key: spec_fn(T) -> K, i: int, x: T, k: K)
    requires
        0 <= i < s.len(),
        key(x) == key(s[i]),
    ensures
        has_key(s.update(i, x), key, k) == has_key(s, key, k),
{
    if has_key(s, key, k) {
        let j = choose|j: int| 0 <= j < s.len() && key(s[j]) == k;
        assert(key(s.update(i, x)[j]) == k);
    }
    if has_key(s.update(i, x), key, k) {
        let j = choose|j: int| 0 <= j < s.update(i, x).len() && key(s.update(i, x)[j]) == k;
        assert(key(s[j]) == k);
    }
}

pub proof fn lemma_remove_unique<T, K>(s: Seq<T>, key: spec_fn(T) -> K, i: int)
    requires
        unique_by(s, key),
        0 <= i < s.len(),
    ensures
        unique_by(s.remove(i), key),
{
    assert forall|a: int, b: int| 0 <= a < b < s.remove(i).len() implies key(s.remove(i)[a]) != key(
        s.remove(i)[b],
    ) by {
        let a2 = if a < i {
            a
        } else {
            a + 1
        };
        let b2 = if b < i {
            b
        } else {
            b + 1
        };
        assert(s.remove(i)[a] == s[a2]);
        assert(s.remove(i)[b] == s[b2]);
    }
}

/// The index of the element with key `k`, when keys are unique and it exists.
pub open spec fn index_of<T, K>(s: Seq<T>, key: spec_fn(T) -> K, k: K) -> int {
    choose|i: int| 0 <= i < s.len() && key(s[i]) == k
}

pub proof fn lemma_index_of<T, K>(s: Seq<T>, key: spec_fn(T) -> K, i: int)
    requires
        unique_by(s, key),
        0 <= i < s.len(),
    ensures
        index_of(s, key, key(s[i])) == i,
        has_key(s, key, key(s[i])),
{
    let j = index_of(s, key, key(s[i]));
    assert(0 <= i < s.len() && key(s[i]) == key(s[i]));
    if j != i {
        if j < i {
        } else {
        }
    }
}

/// `r` is what `want` describes: the value's view, or the error's message.
pub open spec fn outcome<T: View>(r: AppResult<T>, want: Result<T::V, Seq<char>>) -> bool {
    match (r, want) {
        (Ok(x), Ok(w)) => x@ == w,
        (Err(e), Err(m)) => e.msg() == m,
        _ => false,
    }
}

/// `r` is what `want` describes, for operations that return nothing.
pub open spec fn unit_outcome(r: AppResult<()>, want: Result<(), Seq<char>>) -> bool {
    match (r, want) {
        (Ok(()), Ok(())) => true,
        (Err(e), Err(m)) => e.msg() == m,
        _ => false,
    }
}

// ---------------------------------------------------------------------------
// The store
// ---------------------------------------------------------------------------

/// All tables of the library.
pub struct Db {
    organizations: Vec<Organization>,
    topics: Vec<Topic>,
    groups: Vec<MeetingGroup>,
    artifacts: Vec<Artifact>,
    comments: Vec<ArtifactComment>,
    threads: Vec<ChatThread>,
}

pub struct DbView {
    pub orgs: Seq<OrganizationView>,
    pub topics: Seq<TopicView>,
    pub groups: Seq<MeetingGroupView>,
    pub artifacts: Seq<ArtifactView>,
    pub comments: Seq<ArtifactCommentView>,
    pub threads: Seq<ChatThreadRecordView>,
}

impl View for Db {
    type V = DbView;

    closed spec fn view(&self) -> DbView {
        DbView {
            orgs: org_views(self.organizations@),
            topics: topic_views(self.topics@),
            groups: group_views(self.groups@),
            artifacts: artifact_views(self.artifacts@),
            comments: comment_views(self.comments@),
            threads: thread_views(self.threads@),
        }
    }
}

pub open spec fn org_id() -> spec_fn(OrganizationView) -> Seq<char> {
    |o: OrganizationView| o.id
}

pub open spec fn org_key() -> spec_fn(OrganizationView) -> Seq<char> {
    |o: OrganizationView| ascii_lower_seq(o.name)
}

pub open spec fn topic_id() -> spec_fn(TopicView) -> Seq<char> {
    |t: TopicView| t.id
}

pub open spec fn topic_key() -> spec_fn(TopicView) -> (Seq<char>, Seq<char>) {
    |t: TopicView| (t.organization_id, ascii_lower_seq(t.name))
}

pub open spec fn group_id() -> spec_fn(MeetingGroupView) -> Seq<char> {
    |g: MeetingGroupView| g.id
}

pub open spec fn artifact_id() -> spec_fn(ArtifactView) -> Seq<char> {
    |a: ArtifactView| a.id
}

pub open spec fn comment_id() -> spec_fn(ArtifactCommentView) -> Seq<char> {
    |c: ArtifactCommentView| c.id
}

pub open spec fn thread_id() -> spec_fn(ChatThreadRecordView) -> Seq<char> {
    |t: ChatThreadRecordView| t.id
}

pub open spec fn thread_scope() -> spec_fn(ChatThreadRecordView) -> (Seq<char>, Seq<char>) {
    |t: ChatThreadRecordView| (t.scope_type, t.scope_id)
}

pub open spec fn has_org(v: DbView, id: Seq<char>) -> bool {
    has_key(v.orgs, org_id(), id)
}

pub open spec fn has_topic(v: DbView, id: Seq<char>) -> bool {
    has_key(v.topics, topic_id(), id)
}

pub open spec fn has_group(v: DbView, id: Seq<char>) -> bool {
    has_key(v.groups, group_id(), id)
}

pub open spec fn has_artifact(v: DbView, id: Seq<char>) -> bool {
    has_key(v.artifacts, artifact_id(), id)
}

pub open spec fn has_comment(v: DbView, id: Seq<char>) -> bool {
    has_key(v.comments, comment_id(), id)
}

/// Ids are unique in every table; organization names are unique ignoring
/// ASCII case, and so are topic names within an organization; a scope has at
/// most one chat thread.
pub open spec fn db_unique(v: DbView) -> bool {
    &&& unique_by(v.orgs, org_id())
    &&& unique_by(v.orgs, org_key())
    &&& unique_by(v.topics, topic_id())
    &&& unique_by(v.topics, topic_key())
    &&& unique_by(v.groups, group_id())
    &&& unique_by(v.artifacts, artifact_id())
    &&& unique_by(v.comments, comment_id())
    &&& unique_by(v.threads, thread_id())
    &&& unique_by(v.threads, thread_scope())
}

/// Every topic belongs to an organization that exists.
pub open spec fn fk_topics(v: DbView) -> bool {
    forall|i: int| 0 <= i < v.topics.len() ==> has_org(v, #[trigger] v.topics[i].organization_id)
}

/// Every meeting group belongs to a topic that exists.
pub open spec fn fk_groups(v: DbView) -> bool {
    forall|i: int| 0 <= i < v.groups.len() ==> has_topic(v, #[trigger] v.groups[i].topic_id)
}

/// Every artifact belongs to a meeting group that exists.
pub open spec fn fk_artifacts(v: DbView) -> bool {
    forall|i: int|
        0 <= i < v.artifacts.len() ==> has_group(v, #[trigger] v.artifacts[i].meeting_group_id)
}

/// Every comment belongs to an artifact that exists.
pub open spec fn fk_comments(v: DbView) -> bool {
    forall|i: int| 0 <= i < v.comments.len() ==> has_artifact(v, #[trigger] v.comments[i].artifact_id)
}

/// The library's invariant: unique keys, and every record's parent exists.
pub open spec fn db_wf(v: DbView) -> bool {
    &&& db_unique(v)
    &&& fk_topics(v)
    &&& fk_groups(v)
    &&& fk_artifacts(v)
    &&& fk_comments(v)
}

/// `v` without the comments whose artifact is gone.
pub open spec fn prune_comments(v: DbView) -> DbView {
    DbView { comments: v.comments.filter(|c: ArtifactCommentView| has_artifact(v, c.artifact_id)), ..v }
}

/// `v` without the artifacts whose meeting group is gone, and what hangs on them.
pub open spec fn prune_artifacts(v: DbView) -> DbView {
    prune_comments(
        DbView { artifacts: v.artifacts.filter(|a: ArtifactView| has_group(v, a.meeting_group_id)), ..v },
    )
}

/// `v` without the meeting groups whose topic is gone, and what hangs on them.
pub open spec fn prune_groups(v: DbView) -> DbView {
    prune_artifacts(DbView { groups: v.groups.filter(|g: MeetingGroupView| has_topic(v, g.topic_id)), ..v })
}

/// `v` without the topics whose organization is gone, and what hangs on them.
pub open spec fn prune_topics(v: DbView) -> DbView {
    prune_groups(DbView { topics: v.topics.filter(|t: TopicView| has_org(v, t.organization_id)), ..v })
}

impl Db {
    pub closed spec fn wf(&self) -> bool {
        db_wf(self@)
    }

    /// An empty library.
    pub fn new() -> (db: Db)
        ensures
            db.wf(),
            db@.orgs.len() == 0 && db@.topics.len() == 0 && db@.groups.len() == 0
                && db@.artifacts.len() == 0 && db@.comments.len() == 0 && db@.threads.len() == 0,
    {
        let db = Db {
            organizations: Vec::new(),
            topics: Vec::new(),
            groups: Vec::new(),
            artifacts: Vec::new(),
            comments: Vec::new(),
            threads: Vec::new(),
        };
        assert(db@.orgs =~= Seq::<OrganizationView>::empty());
        assert(db@.topics =~= Seq::<TopicView>::empty());
        assert(db@.groups =~= Seq::<MeetingGroupView>::empty());
        assert(db@.artifacts =~= Seq::<ArtifactView>::empty());
        assert(db@.comments =~= Seq::<ArtifactCommentView>::empty());
        assert(db@.threads =~= Seq::<ChatThreadRecordView>::empty());
        db
    }
}


impl Db {
    // -----------------------------------------------------------------------
    // Lookups
    // -----------------------------------------------------------------------

    fn find_org(&self, id: &String) -> (r: Option<usize>)
        ensures
            match r {
                Some(i) => i < self.organizations@.len() && self@.orgs[i as int].id == id@,
                None => !has_org(self@, id@),
            },
    {
        let mut i: usize = 0;
        while i < self.organizations.len()
            invariant
                0 <= i <= self.organizations@.len(),
                forall|j: int| 0 <= j < i ==> self@.orgs[j].id != id@,
            decreases self.organizations.len() - i,
        {
            if self.organizations[i].id == *id {
                return Some(i);
            }
            i = i + 1;
        }
        None
    }

    fn find_topic(&self, id: &String) -> (r: Option<usize>)
        ensures
            match r {
                Some(i) => i < self.topics@.len() && self@.topics[i as int].id == id@,
                None => !has_topic(self@, id@),
            },
    {
        let mut i: usize = 0;
        while i < self.topics.len()
            invariant
                0 <= i <= self.topics@.len(),
                forall|j: int| 0 <= j < i ==> self@.topics[j].id != id@,
            decreases self.topics.len() - i,
        {
            if self.topics[i].id == *id {
                return Some(i);
            }
            i = i + 1;
        }
        None
    }

    fn find_group(&self, id: &String) -> (r: Option<usize>)
        ensures
            match r {
                Some(i) => i < self.groups@.len() && self@.groups[i as int].id == id@,
                None => !has_group(self@, id@),
            },
    {
        let mut i: usize = 0;
        while i < self.groups.len()
            invariant
                0 <= i <= self.groups@.len(),
                forall|j: int| 0 <= j < i ==> self@.groups[j].id != id@,
            decreases self.groups.len() - i,
        {
            if self.groups[i].id == *id {
                return Some(i);
            }
            i = i + 1;
        }
        None
    }

    fn find_artifact(&self, id: &String) -> (r: Option<usize>)
        ensures
            match r {
                Some(i) => i < self.artifacts@.len() && self@.artifacts[i as int].id == id@,
                None => !has_artifact(self@, id@),
            },
    {
        let mut i: usize = 0;
        while i < self.artifacts.len()
            invariant
                0 <= i <= self.artifacts@.len(),
                forall|j: int| 0 <= j < i ==> self@.artifacts[j].id != id@,
            decreases self.artifacts.len() - i,
        {
            if self.artifacts[i].id == *id {
                return Some(i);
            }
            i = i + 1;
        }
        None
    }

    fn find_comment(&self, id: &String) -> (r: Option<usize>)
        ensures
            match r {
                Some(i) => i < self.comments@.len() && self@.comments[i as int].id == id@,
                None => !has_comment(self@, id@),
            },
    {
        let mut i: usize = 0;
        while i < self.comments.len()
            invariant
                0 <= i <= self.comments@.len(),
                forall|j: int| 0 <= j < i ==> self@.comments[j].id != id@,
            decreases self.comments.len() - i,
        {
            if self.comments[i].id == *id {
                return Some(i);
            }
            i = i + 1;
        }
        None
    }

    // -----------------------------------------------------------------------
    // Cascades
    // -----------------------------------------------------------------------

    fn prune_comments_exec(&mut self)
        requires
            db_unique(old(self)@),
            fk_topics(old(self)@),
            fk_groups(old(self)@),
            fk_artifacts(old(self)@),
        ensures
            final(self)@ == prune_comments(old(self)@),
            db_wf(final(self)@),
    {
        broadcast use vstd::seq_lib::group_filter_ensures;

        let ghost v = self@;
        let ghost pred = |c: ArtifactCommentView| has_artifact(v, c.artifact_id);
        let mut kept: Vec<ArtifactComment> = Vec::new();
        let mut i: usize = 0;
        while i < self.comments.len()
            invariant
                0 <= i <= self.comments@.len(),
                self@ == v,
                pred == (|c: ArtifactCommentView| has_artifact(v, c.artifact_id)),
                comment_views(kept@) == v.comments.take(i as int).filter(pred),
            decreases self.comments.len() - i,
        {
            let ghost before = kept@;
            proof {
                lemma_filter_push(v.comments.take(i as int), v.comments[i as int], pred);
                assert(v.comments.take(i + 1) == v.comments.take(i as int).push(v.comments[i as int]));
            }
            if self.find_artifact(&self.comments[i].artifact_id).is_some() {
                let c = self.comments[i].duplicate();
                kept.push(c);
                assert(comment_views(kept@) == comment_views(before).push(c@));
            }
            i = i + 1;
        }
        assert(v.comments.take(self.comments@.len() as int) == v.comments);
        self.comments = kept;
        proof {
            let w = self@;
            assert(w == prune_comments(v));
            lemma_filter_unique(v.comments, comment_id(), pred);
            assert forall|k: int| 0 <= k < w.comments.len() implies has_artifact(
                w,
                #[trigger] w.comments[k].artifact_id,
            ) by {
                assert(pred(w.comments[k]));
            }
        }
    }

    fn prune_artifacts_exec(&mut self)
        requires
            db_unique(old(self)@),
            fk_topics(old(self)@),
            fk_groups(old(self)@),
        ensures
            final(self)@ == prune_artifacts(old(self)@),
            db_wf(final(self)@),
    {
        broadcast use vstd::seq_lib::group_filter_ensures;

        let ghost v = self@;
        let ghost pred = |a: ArtifactView| has_group(v, a.meeting_group_id);
        let mut kept: Vec<Artifact> = Vec::new();
        let mut i: usize = 0;
        while i < self.artifacts.len()
            invariant
                0 <= i <= self.artifacts@.len(),
                self@ == v,
                pred == (|a: ArtifactView| has_group(v, a.meeting_group_id)),
                artifact_views(kept@) == v.artifacts.take(i as int).filter(pred),
            decreases self.artifacts.len() - i,
        {
            let ghost before = kept@;
            proof {
                lemma_filter_push(v.artifacts.take(i as int), v.artifacts[i as int], pred);
                assert(v.artifacts.take(i + 1) == v.artifacts.take(i as int).push(
                    v.artifacts[i as int],
                ));
            }
            if self.find_group(&self.artifacts[i].meeting_group_id).is_some() {
                let a = self.artifacts[i].duplicate();
                kept.push(a);
                assert(artifact_views(kept@) == artifact_views(before).push(a@));
            }
            i = i + 1;
        }
        assert(v.artifacts.take(self.artifacts@.len() as int) == v.artifacts);
        self.artifacts = kept;
        proof {
            let w = self@;
            assert(w == DbView { artifacts: v.artifacts.filter(pred), ..v });
            lemma_filter_unique(v.artifacts, artifact_id(), pred);
            assert forall|k: int| 0 <= k < w.artifacts.len() implies has_group(
                w,
                #[trigger] w.artifacts[k].meeting_group_id,
            ) by {
                assert(pred(w.artifacts[k]));
            }
        }
        self.prune_comments_exec();
    }

    fn prune_groups_exec(&mut self)
        requires
            db_unique(old(self)@),
            fk_topics(old(self)@),
        ensures
            final(self)@ == prune_groups(old(self)@),
            db_wf(final(self)@),
    {
        broadcast use vstd::seq_lib::group_filter_ensures;

        let ghost v = self@;
        let ghost pred = |g: MeetingGroupView| has_topic(v, g.topic_id);
        let mut kept: Vec<MeetingGroup> = Vec::new();
        let mut i: usize = 0;
        while i < self.groups.len()
            invariant
                0 <= i <= self.groups@.len(),
                self@ == v,
                pred == (|g: MeetingGroupView| has_topic(v, g.topic_id)),
                group_views(kept@) == v.groups.take(i as int).filter(pred),
            decreases self.groups.len() - i,
        {
            let ghost before = kept@;
            proof {
                lemma_filter_push(v.groups.take(i as int), v.groups[i as int], pred);
                assert(v.groups.take(i + 1) == v.groups.take(i as int).push(v.groups[i as int]));
            }
            if self.find_topic(&self.groups[i].topic_id).is_some() {
                let g = self.groups[i].duplicate();
                kept.push(g);
                assert(group_views(kept@) == group_views(before).push(g@));
            }
            i = i + 1;
        }
        assert(v.groups.take(self.groups@.len() as int) == v.groups);
        self.groups = kept;
        proof {
            let w = self@;
            assert(w == DbView { groups: v.groups.filter(pred), ..v });
            lemma_filter_unique(v.groups, group_id(), pred);
            assert forall|k: int| 0 <= k < w.groups.len() implies has_topic(
                w,
                #[trigger] w.groups[k].topic_id,
            ) by {
                assert(pred(w.groups[k]));
            }
        }
        self.prune_artifacts_exec();
    }

    fn prune_topics_exec(&mut self)
        requires
            db_unique(old(self)@),
        ensures
            final(self)@ == prune_topics(old(self)@),
            db_wf(final(self)@),
    {
        broadcast use vstd::seq_lib::group_filter_ensures;

        let ghost v = self@;
        let ghost pred = |t: TopicView| has_org(v, t.organization_id);
        let mut kept: Vec<Topic> = Vec::new();
        let mut i: usize = 0;
        while i < self.topics.len()
            invariant
                0 <= i <= self.topics@.len(),
                self@ == v,
                pred == (|t: TopicView| has_org(v, t.organization_id)),
                topic_views(kept@) == v.topics.take(i as int).filter(pred),
            decreases self.topics.len() - i,
        {
            let ghost before = kept@;
            proof {
                lemma_filter_push(v.topics.take(i as int), v.topics[i as int], pred);
                assert(v.topics.take(i + 1) == v.topics.take(i as int).push(v.topics[i as int]));
            }
            if self.find_org(&self.topics[i].organization_id).is_some() {
                let t = self.topics[i].duplicate();
                kept.push(t);
                assert(topic_views(kept@) == topic_views(before).push(t@));
            }
            i = i + 1;
        }
        assert(v.topics.take(self.topics@.len() as int) == v.topics);
        self.topics = kept;
        proof {
            let w = self@;
            assert(w == DbView { topics: v.topics.filter(pred), ..v });
            lemma_filter_unique(v.topics, topic_id(), pred);
            lemma_filter_unique(v.topics, topic_key(), pred);
            assert forall|k: int| 0 <= k < w.topics.len() implies has_org(
                w,
                #[trigger] w.topics[k].organization_id,
            ) by {
                assert(pred(w.topics[k]));
            }
        }
        self.prune_groups_exec();
    }
}


// ---------------------------------------------------------------------------
// Organizations
// ---------------------------------------------------------------------------

/// Some organization, other than the one with id `except`, is called `name`
/// ignoring ASCII case.
pub open spec fn org_name_clash(v: DbView, name: Seq<char>, except: Option<Seq<char>>) -> bool {
    exists|i: int|
        0 <= i < v.orgs.len() && ascii_lower_seq(#[trigger] v.orgs[i].name) == ascii_lower_seq(name)
            && except != Some(v.orgs[i].id)
}

/// Creating an organization: the new organization and the store after it, or
/// why it is refused and the store unchanged.
pub open spec fn create_org_spec(v: DbView, name: Seq<char>, id: Seq<char>, now: Seq<char>) -> (
    Result<OrganizationView, Seq<char>>,
    DbView,
) {
    match name_check(name) {
        Err(m) => (Err(m), v),
        Ok(n) => if org_name_clash(v, n, None) {
            (Err("An organization with that name already exists."@), v)
        } else if has_org(v, id) {
            (Err("UNIQUE constraint failed: organizations.id"@), v)
        } else {
            let o = OrganizationView { id, name: n, created_at: now };
            (Ok(o), DbView { orgs: v.orgs.push(o), ..v })
        },
    }
}

/// Renaming an organization; the same name rules as creating one.
pub open spec fn rename_org_spec(v: DbView, id: Seq<char>, name: Seq<char>) -> (
    Result<OrganizationView, Seq<char>>,
    DbView,
) {
    match name_check(name) {
        Err(m) => (Err(m), v),
        Ok(n) => if org_name_clash(v, n, Some(id)) {
            (Err("An organization with that name already exists."@), v)
        } else if !has_org(v, id) {
            (Err("Organization not found."@), v)
        } else {
            let i = index_of(v.orgs, org_id(), id);
            let o = OrganizationView { name: n, ..v.orgs[i] };
            (Ok(o), DbView { orgs: v.orgs.update(i, o), ..v })
        },
    }
}

/// Deleting an organization, with its topics and all below them.
pub open spec fn delete_org_spec(v: DbView, id: Seq<char>) -> (Result<(), Seq<char>>, DbView) {
    if !has_org(v, id) {
        (Err("Organization not found."@), v)
    } else {
        (Ok(()), prune_topics(DbView { orgs: v.orgs.remove(index_of(v.orgs, org_id(), id)), ..v }))
    }
}

impl Db {
    /// The index of an organization whose name lowercased is `lname`, passing
    /// over the one at `skip` when there is one.
    fn org_named(&self, lname: &Vec<char>, skip: Option<usize>) -> (r: Option<usize>)
        ensures
            match r {
                Some(i) => i < self@.orgs.len() && skip != Some(i) && ascii_lower_seq(
                    self@.orgs[i as int].name,
                ) == lname@,
                None => forall|j: int|
                    0 <= j < self@.orgs.len() && !(skip is Some && j == skip->0) ==> ascii_lower_seq(
                        #[trigger] self@.orgs[j].name,
                    ) != lname@,
            },
    {
        let mut i: usize = 0;
        while i < self.organizations.len()
            invariant
                0 <= i <= self.organizations@.len(),
                forall|j: int|
                    0 <= j < i && !(skip is Some && j == skip->0) ==> ascii_lower_seq(
                        #[trigger] self@.orgs[j].name,
                    ) != lname@,
            decreases self.organizations.len() - i,
        {
            if skip != Some(i) {
                let l = ascii_lower_chars(&to_chars(self.organizations[i].name.as_str()));
                if chars_eq(&l, lname) {
                    return Some(i);
                }
            }
            i = i + 1;
        }
        None
    }

    /// Creates an organization with the given id and creation time.
    pub fn create_organization_with(&mut self, name: &str, id: String, now: String) -> (r:
        AppResult<Organization>)
        requires
            old(self).wf(),
        ensures
            final(self).wf(),
            outcome(r, create_org_spec(old(self)@, name@, id@, now@).0),
            final(self)@ == create_org_spec(old(self)@, name@, id@, now@).1,
    {
        let n = match trim_name(name) {
            Ok(n) => n,
            Err(e) => return Err(e),
        };
        let ln = ascii_lower_chars(&to_chars(n.as_str()));
        if self.org_named(&ln, None).is_some() {
            return Err(app_error("An organization with that name already exists."));
        }
        let ghost v = self@;
        proof {
            assert(!org_name_clash(v, n@, None)) by {
                if org_name_clash(v, n@, None) {
                    let j = choose|j: int|
                        0 <= j < v.orgs.len() && ascii_lower_seq(#[trigger] v.orgs[j].name)
                            == ascii_lower_seq(n@) && None::<Seq<char>> != Some(v.orgs[j].id);
                    assert(ascii_lower_seq(v.orgs[j].name) == ln@);
                }
            }
        }
        if self.find_org(&id).is_some() {
            return Err(app_error("UNIQUE constraint failed: organizations.id"));
        }
        let o = Organization { id, name: n, created_at: now };
        let r = o.duplicate();
        proof {
            assert(!has_key(v.orgs, org_key(), org_key()(o@))) by {
                if has_key(v.orgs, org_key(), org_key()(o@)) {
                    let j = choose|j: int| 0 <= j < v.orgs.len() && org_key()(v.orgs[j]) == org_key()(o@);
                    assert(ascii_lower_seq(v.orgs[j].name) == ln@);
                }
            }
            lemma_push_unique(v.orgs, org_id(), o@);
            lemma_push_unique(v.orgs, org_key(), o@);
            assert forall|k: Seq<char>| has_org(v, k) implies #[trigger] has_key(v.orgs.push(o@), org_id(), k) by {
                lemma_push_has_key(v.orgs, org_id(), o@, k);
            }
        }
        self.organizations.push(o);
        assert(self@.orgs == v.orgs.push(r@));
        Ok(r)
    }

    /// Creates an organization with a fresh id, dated now.
    pub fn create_organization(&mut self, name: &str) -> (r: AppResult<Organization>)
        requires
            old(self).wf(),
        ensures
            final(self).wf(),
            exists|id: Seq<char>, now: Seq<char>|
                #![trigger create_org_spec(old(self)@, name@, id, now)]
                is_hyphenated_uuid(id) && outcome(r, create_org_spec(old(self)@, name@, id, now).0)
                    && final(self)@ == create_org_spec(old(self)@, name@, id, now).1,
    {
        let id = new_id();
        let now = now_rfc3339();
        let ghost (gi, gn) = (id@, now@);
        let r = self.create_organization_with(name, id, now);
        assert(is_hyphenated_uuid(gi));
        r
    }

    /// Renames an organization.
    pub fn rename_organization(&mut self, id: &str, name: &str) -> (r: AppResult<Organization>)
        requires
            old(self).wf(),
        ensures
            final(self).wf(),
            outcome(r, rename_org_spec(old(self)@, id@, name@).0),
            final(self)@ == rename_org_spec(old(self)@, id@, name@).1,
    {
        let n = match trim_name(name) {
            Ok(n) => n,
            Err(e) => return Err(e),
        };
        let ln = ascii_lower_chars(&to_chars(n.as_str()));
        let key = id.to_owned();
        let found = self.find_org(&key);
        let ghost v = self@;
        if let Some(j) = self.org_named(&ln, found) {
            proof {
                if found is Some {
                    assert(v.orgs[j as int].id != id@) by {
                        assert(unique_by(v.orgs, org_id()));
                        assert(org_id()(v.orgs[j as int]) != org_id()(v.orgs[found->0 as int]));
                    }
                }
                assert(org_name_clash(v, n@, Some(id@)));
            }
            return Err(app_error("An organization with that name already exists."));
        }
        proof {
            assert(!org_name_clash(v, n@, Some(id@))) by {
                if org_name_clash(v, n@, Some(id@)) {
                    let j = choose|j: int|
                        0 <= j < v.orgs.len() && ascii_lower_seq(#[trigger] v.orgs[j].name)
                            == ascii_lower_seq(n@) && Some(id@) != Some(v.orgs[j].id);
                    assert(ascii_lower_seq(v.orgs[j].name) == ln@);
                }
            }
        }
        let k = match found {
            Some(k) => k,
            None => return Err(app_error("Organization not found.")),
        };
        proof {
            lemma_index_of(v.orgs, org_id(), k as int);
        }
        let o = Organization {
            id: self.organizations[k].id.clone(),
            name: n,
            created_at: self.organizations[k].created_at.clone(),
        };
        let r = o.duplicate();
        proof {
            lemma_update_unique(v.orgs, org_id(), k as int, o@);
            lemma_update_unique(v.orgs, org_key(), k as int, o@);
            assert forall|x: Seq<char>| has_org(v, x) implies #[trigger] has_key(
                v.orgs.update(k as int, o@),
                org_id(),
                x,
            ) by {
                lemma_update_has_key(v.orgs, org_id(), k as int, o@, x);
            }
        }
        self.organizations.set(k, o);
        assert(self@.orgs == v.orgs.update(k as int, r@));
        Ok(r)
    }

    /// Deletes an organization with its topics, meeting groups, artifacts and
    /// comments.
    pub fn delete_organization(&mut self, id: &str) -> (r: AppResult<()>)
        requires
            old(self).wf(),
        ensures
            final(self).wf(),
            unit_outcome(r, delete_org_spec(old(self)@, id@).0),
            final(self)@ == delete_org_spec(old(self)@, id@).1,
    {
        let key = id.to_owned();
        let k = match self.find_org(&key) {
            Some(k) => k,
            None => return Err(app_error("Organization not found.")),
        };
        let ghost v = self@;
        proof {
            lemma_index_of(v.orgs, org_id(), k as int);
            lemma_remove_unique(v.orgs, org_id(), k as int);
            lemma_remove_unique(v.orgs, org_key(), k as int);
        }
        self.organizations.remove(k);
        assert(self@.orgs =~= v.orgs.remove(k as int));
        assert(self@ == DbView { orgs: v.orgs.remove(k as int), ..v });
        self.prune_topics_exec();
        Ok(())
    }
}


// ---------------------------------------------------------------------------
// Topics
// ---------------------------------------------------------------------------

/// Some topic of organization `org`, other than the one with id `except`, is
/// called `name` ignoring ASCII case.
pub open spec fn topic_name_clash(
    v: DbView,
    org: Seq<char>,
    name: Seq<char>,
    except: Option<Seq<char>>,
) -> bool {
    exists|i: int|
        0 <= i < v.topics.len() && v.topics[i].organization_id == org && ascii_lower_seq(
            #[trigger] v.topics[i].name,
        ) == ascii_lower_seq(name) && except != Some(v.topics[i].id)
}

/// Creating a topic under an organization.
pub open spec fn create_topic_spec(
    v: DbView,
    org: Seq<char>,
    name: Seq<char>,
    id: Seq<char>,
    now: Seq<char>,
) -> (Result<TopicView, Seq<char>>, DbView) {
    match name_check(name) {
        Err(m) => (Err(m), v),
        Ok(n) => if !has_org(v, org) {
            (Err("Organization not found."@), v)
        } else if topic_name_clash(v, org, n, None) {
            (Err("That topic already exists in this organization."@), v)
        } else if has_topic(v, id) {
            (Err("UNIQUE constraint failed: topic_categories.id"@), v)
        } else {
            let t = TopicView { id, organization_id: org, name: n, created_at: now };
            (Ok(t), DbView { topics: v.topics.push(t), ..v })
        },
    }
}

/// Renaming a topic; names stay unique within its organization.
pub open spec fn rename_topic_spec(v: DbView, id: Seq<char>, name: Seq<char>) -> (
    Result<TopicView, Seq<char>>,
    DbView,
) {
    match name_check(name) {
        Err(m) => (Err(m), v),
        Ok(n) => if !has_topic(v, id) {
            (Err("Topic not found."@), v)
        } else {
            let i = index_of(v.topics, topic_id(), id);
            if topic_name_clash(v, v.topics[i].organization_id, n, Some(id)) {
                (Err("That topic already exists in this organization."@), v)
            } else {
                let t = TopicView { name: n, ..v.topics[i] };
                (Ok(t), DbView { topics: v.topics.update(i, t), ..v })
            }
        },
    }
}

/// Deleting a topic, with its meeting groups and all below them.
pub open spec fn delete_topic_spec(v: DbView, id: Seq<char>) -> (Result<(), Seq<char>>, DbView) {
    if !has_topic(v, id) {
        (Err("Topic not found."@), v)
    } else {
        (
            Ok(()),
            prune_groups(DbView { topics: v.topics.remove(index_of(v.topics, topic_id(), id)), ..v }),
        )
    }
}

// ---------------------------------------------------------------------------
// Meeting groups
// ---------------------------------------------------------------------------

/// The date of a new meeting group: the given one trimmed, or `now` when none
/// is given or it is blank.
pub open spec fn occurred_or(occurred_at: Option<Seq<char>>, now: Seq<char>) -> Seq<char> {
    match occurred_at {
        Some(s) => if trim(s).len() > 0 {
            trim(s)
        } else {
            now
        },
        None => now,
    }
}

/// The characters of an optional string.
pub open spec fn opt_text(o: Option<String>) -> Option<Seq<char>> {
    match o {
        Some(s) => Some(s@),
        None => None,
    }
}

/// Creating a meeting group under a topic. Names may repeat.
pub open spec fn create_group_spec(
    v: DbView,
    topic: Seq<char>,
    name: Seq<char>,
    occurred_at: Option<Seq<char>>,
    id: Seq<char>,
    now: Seq<char>,
) -> (Result<MeetingGroupView, Seq<char>>, DbView) {
    match name_check(name) {
        Err(m) => (Err(m), v),
        Ok(n) => if !has_topic(v, topic) {
            (Err("Topic not found."@), v)
        } else if has_group(v, id) {
            (Err("UNIQUE constraint failed: meeting_groups.id"@), v)
        } else {
            let g = MeetingGroupView {
                id,
                topic_id: topic,
                name: n,
                occurred_at: occurred_or(occurred_at, now),
                created_at: now,
            };
            (Ok(g), DbView { groups: v.groups.push(g), ..v })
        },
    }
}

/// Renaming a meeting group.
pub open spec fn rename_group_spec(v: DbView, id: Seq<char>, name: Seq<char>) -> (
    Result<MeetingGroupView, Seq<char>>,
    DbView,
) {
    match name_check(name) {
        Err(m) => (Err(m), v),
        Ok(n) => if !has_group(v, id) {
            (Err("Meeting group not found."@), v)
        } else {
            let i = index_of(v.groups, group_id(), id);
            let g = MeetingGroupView { name: n, ..v.groups[i] };
            (Ok(g), DbView { groups: v.groups.update(i, g), ..v })
        },
    }
}

/// Deleting a meeting group, with its artifacts and their comments.
pub open spec fn delete_group_spec(v: DbView, id: Seq<char>) -> (Result<(), Seq<char>>, DbView) {
    if !has_group(v, id) {
        (Err("Meeting group not found."@), v)
    } else {
        (
            Ok(()),
            prune_artifacts(DbView { groups: v.groups.remove(index_of(v.groups, group_id(), id)), ..v }),
        )
    }
}

impl Db {
    /// The index of a topic of organization `org` whose name lowercased is
    /// `lname`, passing over the one at `skip` when there is one.
    fn topic_named(&self, org: &String, lname: &Vec<char>, skip: Option<usize>) -> (r: Option<usize>)
        ensures
            match r {
                Some(i) => i < self@.topics.len() && skip != Some(i)
                    && self@.topics[i as int].organization_id == org@ && ascii_lower_seq(
                    self@.topics[i as int].name,
                ) == lname@,
                None => forall|j: int|
                    0 <= j < self@.topics.len() && !(skip is Some && j == skip->0)
                        && self@.topics[j].organization_id == org@ ==> ascii_lower_seq(
                        #[trigger] self@.topics[j].name,
                    ) != lname@,
            },
    {
        let mut i: usize = 0;
        while i < self.topics.len()
            invariant
                0 <= i <= self.topics@.len(),
                forall|j: int|
                    0 <= j < i && !(skip is Some && j == skip->0) && self@.topics[j].organization_id
                        == org@ ==> ascii_lower_seq(#[trigger] self@.topics[j].name) != lname@,
            decreases self.topics.len() - i,
        {
            if skip != Some(i) && self.topics[i].organization_id == *org {
                let l = ascii_lower_chars(&to_chars(self.topics[i].name.as_str()));
                if chars_eq(&l, lname) {
                    return Some(i);
                }
            }
            i = i + 1;
        }
        None
    }

    /// Creates a topic with the given id and creation time.
    pub fn create_topic_with(
        &mut self,
        organization_id: &str,
        name: &str,
        id: String,
        now: String,
    ) -> (r: AppResult<Topic>)
        requires
            old(self).wf(),
        ensures
            final(self).wf(),
            outcome(r, create_topic_spec(old(self)@, organization_id@, name@, id@, now@).0),
            final(self)@ == create_topic_spec(old(self)@, organization_id@, name@, id@, now@).1,
    {
        let n = match trim_name(name) {
            Ok(n) => n,
            Err(e) => return Err(e),
        };
        let org = organization_id.to_owned();
        if self.find_org(&org).is_none() {
            return Err(app_error("Organization not found."));
        }
        let ln = ascii_lower_chars(&to_chars(n.as_str()));
        if self.topic_named(&org, &ln, None).is_some() {
            return Err(app_error("That topic already exists in this organization."));
        }
        let ghost v = self@;
        proof {
            assert(!topic_name_clash(v, org@, n@, None)) by {
                if topic_name_clash(v, org@, n@, None) {
                    let j = choose|j: int|
                        0 <= j < v.topics.len() && v.topics[j].organization_id == org@
                            && ascii_lower_seq(#[trigger] v.topics[j].name) == ascii_lower_seq(n@)
                            && None::<Seq<char>> != Some(v.topics[j].id);
                    assert(ascii_lower_seq(v.topics[j].name) == ln@);
                }
            }
        }
        if self.find_topic(&id).is_some() {
            return Err(app_error("UNIQUE constraint failed: topic_categories.id"));
        }
        let t = Topic { id, organization_id: org, name: n, created_at: now };
        let r = t.duplicate();
        proof {
            assert(!has_key(v.topics, topic_key(), topic_key()(t@))) by {
                if has_key(v.topics, topic_key(), topic_key()(t@)) {
                    let j = choose|j: int|
                        0 <= j < v.topics.len() && topic_key()(v.topics[j]) == topic_key()(t@);
                    assert(ascii_lower_seq(v.topics[j].name) == ln@);
                }
            }
            lemma_push_unique(v.topics, topic_id(), t@);
            lemma_push_unique(v.topics, topic_key(), t@);
            assert forall|k: Seq<char>| has_topic(v, k) implies #[trigger] has_key(
                v.topics.push(t@),
                topic_id(),
                k,
            ) by {
                lemma_push_has_key(v.topics, topic_id(), t@, k);
            }
        }
        self.topics.push(t);
        assert(self@.topics == v.topics.push(r@));
        Ok(r)
    }

    /// Creates a topic with a fresh id, dated now.
    pub fn create_topic(&mut self, organization_id: &str, name: &str) -> (r: AppResult<Topic>)
        requires
            old(self).wf(),
        ensures
            final(self).wf(),
            exists|id: Seq<char>, now: Seq<char>|
                #![trigger create_topic_spec(old(self)@, organization_id@, name@, id, now)]
                is_hyphenated_uuid(id) && outcome(
                    r,
                    create_topic_spec(old(self)@, organization_id@, name@, id, now).0,
                ) && final(self)@ == create_topic_spec(old(self)@, organization_id@, name@, id, now).1,
    {
        let id = new_id();
        let now = now_rfc3339();
        self.create_topic_with(organization_id, name, id, now)
    }

    /// Renames a topic.
    pub fn rename_topic(&mut self, id: &str, name: &str) -> (r: AppResult<Topic>)
        requires
            old(self).wf(),
        ensures
            final(self).wf(),
            outcome(r, rename_topic_spec(old(self)@, id@, name@).0),
            final(self)@ == rename_topic_spec(old(self)@, id@, name@).1,
    {
        let n = match trim_name(name) {
            Ok(n) => n,
            Err(e) => return Err(e),
        };
        let key = id.to_owned();
        let k = match self.find_topic(&key) {
            Some(k) => k,
            None => return Err(app_error("Topic not found.")),
        };
        let ghost v = self@;
        proof {
            lemma_index_of(v.topics, topic_id(), k as int);
        }
        let org = self.topics[k].organization_id.clone();
        let ln = ascii_lower_chars(&to_chars(n.as_str()));
        if let Some(j) = self.topic_named(&org, &ln, Some(k)) {
            proof {
                assert(v.topics[j as int].id != id@) by {
                    assert(topic_id()(v.topics[j as int]) != topic_id()(v.topics[k as int]));
                }
                assert(topic_name_clash(v, org@, n@, Some(id@)));
            }
            return Err(app_error("That topic already exists in this organization."));
        }
        proof {
            assert(!topic_name_clash(v, org@, n@, Some(id@))) by {
                if topic_name_clash(v, org@, n@, Some(id@)) {
                    let j = choose|j: int|
                        0 <= j < v.topics.len() && v.topics[j].organization_id == org@
                            && ascii_lower_seq(#[trigger] v.topics[j].name) == ascii_lower_seq(n@)
                            && Some(id@) != Some(v.topics[j].id);
                    assert(ascii_lower_seq(v.topics[j].name) == ln@);
                }
            }
        }
        let t = Topic {
            id: self.topics[k].id.clone(),
            organization_id: org,
            name: n,
            created_at: self.topics[k].created_at.clone(),
        };
        let r = t.duplicate();
        proof {
            lemma_update_unique(v.topics, topic_id(), k as int, t@);
            lemma_update_unique(v.topics, topic_key(), k as int, t@);
            assert forall|x: Seq<char>| has_topic(v, x) implies #[trigger] has_key(
                v.topics.update(k as int, t@),
                topic_id(),
                x,
            ) by {
                lemma_update_has_key(v.topics, topic_id(), k as int, t@, x);
            }
        }
        self.topics.set(k, t);
        assert(self@.topics == v.topics.update(k as int, r@));
        Ok(r)
    }

    /// Deletes a topic with its meeting groups, artifacts and comments.
    pub fn delete_topic(&mut self, id: &str) -> (r: AppResult<()>)
        requires
            old(self).wf(),
        ensures
            final(self).wf(),
            unit_outcome(r, delete_topic_spec(old(self)@, id@).0),
            final(self)@ == delete_topic_spec(old(self)@, id@).1,
    {
        let key = id.to_owned();
        let k = match self.find_topic(&key) {
            Some(k) => k,
            None => return Err(app_error("Topic not found.")),
        };
        let ghost v = self@;
        proof {
            lemma_index_of(v.topics, topic_id(), k as int);
            lemma_remove_unique(v.topics, topic_id(), k as int);
            lemma_remove_unique(v.topics, topic_key(), k as int);
        }
        self.topics.remove(k);
        assert(self@.topics =~= v.topics.remove(k as int));
        assert(self@ == DbView { topics: v.topics.remove(k as int), ..v });
        self.prune_groups_exec();
        Ok(())
    }

    /// Creates a meeting group with the given id and creation time; it is
    /// dated `occurred_at` when that is given and not blank, else `now`.
    pub fn create_meeting_group_with(
        &mut self,
        topic_id: &str,
        name: &str,
        occurred_at: Option<String>,
        id: String,
        now: String,
    ) -> (r: AppResult<MeetingGroup>)
        requires
            old(self).wf(),
        ensures
            final(self).wf(),
            outcome(r, create_group_spec(old(self)@, topic_id@, name@, opt_text(occurred_at), id@, now@).0),
            final(self)@ == create_group_spec(
                old(self)@,
                topic_id@,
                name@,
                opt_text(occurred_at),
                id@,
                now@,
            ).1,
    {
        let n = match trim_name(name) {
            Ok(n) => n,
            Err(e) => return Err(e),
        };
        let occurred = match &occurred_at {
            Some(s) => {
                let t = trim_chars(&to_chars(s.as_str()));
                if t.len() > 0 {
                    from_chars(t.as_slice())
                } else {
                    now.clone()
                }
            },
            None => now.clone(),
        };
        let topic = topic_id.to_owned();
        if self.find_topic(&topic).is_none() {
            return Err(app_error("Topic not found."));
        }
        if self.find_group(&id).is_some() {
            return Err(app_error("UNIQUE constraint failed: meeting_groups.id"));
        }
        let ghost v = self@;
        let g = MeetingGroup { id, topic_id: topic, name: n, occurred_at: occurred, created_at: now };
        let r = g.duplicate();
        proof {
            lemma_push_unique(v.groups, group_id(), g@);
            assert forall|k: Seq<char>| has_group(v, k) implies #[trigger] has_key(
                v.groups.push(g@),
                group_id(),
                k,
            ) by {
                lemma_push_has_key(v.groups, group_id(), g@, k);
            }
        }
        self.groups.push(g);
        assert(self@.groups == v.groups.push(r@));
        Ok(r)
    }

    /// Creates a meeting group with a fresh id, dated `occurred_at` or now.
    pub fn create_meeting_group(
        &mut self,
        topic_id: &str,
        name: &str,
        occurred_at: Option<String>,
    ) -> (r: AppResult<MeetingGroup>)
        requires
            old(self).wf(),
        ensures
            final(self).wf(),
            exists|id: Seq<char>, now: Seq<char>|
                #![trigger create_group_spec(old(self)@, topic_id@, name@, opt_text(occurred_at), id, now)]
                is_hyphenated_uuid(id) && outcome(
                    r,
                    create_group_spec(old(self)@, topic_id@, name@, opt_text(occurred_at), id, now).0,
                ) && final(self)@ == create_group_spec(
                    old(self)@,
                    topic_id@,
                    name@,
                    opt_text(occurred_at),
                    id,
                    now,
                ).1,
    {
        let id = new_id();
        let now = now_rfc3339();
        self.create_meeting_group_with(topic_id, name, occurred_at, id, now)
    }

    /// Puts `g` in place of the meeting group at `k`, which has its id and topic.
    fn replace_group(&mut self, k: usize, g: MeetingGroup)
        requires
            db_wf(old(self)@),
            k < old(self)@.groups.len(),
            g@.id == old(self)@.groups[k as int].id,
            g@.topic_id == old(self)@.groups[k as int].topic_id,
        ensures
            db_wf(final(self)@),
            final(self)@ == (DbView { groups: old(self)@.groups.update(k as int, g@), ..old(self)@ }),
    {
        let ghost v = self@;
        let ghost gv = g@;
        proof {
            lemma_update_unique(v.groups, group_id(), k as int, gv);
            assert forall|x: Seq<char>| has_group(v, x) implies #[trigger] has_key(
                v.groups.update(k as int, gv),
                group_id(),
                x,
            ) by {
                lemma_update_has_key(v.groups, group_id(), k as int, gv, x);
            }
        }
        self.groups.set(k, g);
        assert(self@.groups =~= v.groups.update(k as int, gv));
    }

    /// Renames a meeting group.
    pub fn rename_meeting_group(&mut self, id: &str, name: &str) -> (r: AppResult<MeetingGroup>)
        requires
            old(self).wf(),
        ensures
            final(self).wf(),
            outcome(r, rename_group_spec(old(self)@, id@, name@).0),
            final(self)@ == rename_group_spec(old(self)@, id@, name@).1,
    {
        let n = match trim_name(name) {
            Ok(n) => n,
            Err(e) => return Err(e),
        };
        let key = id.to_owned();
        let k = match self.find_group(&key) {
            Some(k) => k,
            None => return Err(app_error("Meeting group not found.")),
        };
        proof {
            lemma_index_of(self@.groups, group_id(), k as int);
        }
        let g = MeetingGroup {
            id: self.groups[k].id.clone(),
            topic_id: self.groups[k].topic_id.clone(),
            name: n,
            occurred_at: self.groups[k].occurred_at.clone(),
            created_at: self.groups[k].created_at.clone(),
        };
        let r = g.duplicate();
        self.replace_group(k, g);
        Ok(r)
    }

    /// Deletes a meeting group with its artifacts and their comments.
    pub fn delete_meeting_group(&mut self, id: &str) -> (r: AppResult<()>)
        requires
            old(self).wf(),
        ensures
            final(self).wf(),
            unit_outcome(r, delete_group_spec(old(self)@, id@).0),
            final(self)@ == delete_group_spec(old(self)@, id@).1,
    {
        let key = id.to_owned();
        let k = match self.find_group(&key) {
            Some(k) => k,
            None => return Err(app_error("Meeting group not found.")),
        };
        let ghost v = self@;
        proof {
            lemma_index_of(v.groups, group_id(), k as int);
            lemma_remove_unique(v.groups, group_id(), k as int);
        }
        self.groups.remove(k);
        assert(self@.groups =~= v.groups.remove(k as int));
        assert(self@ == DbView { groups: v.groups.remove(k as int), ..v });
        self.prune_artifacts_exec();
        Ok(())
    }
}


// ---------------------------------------------------------------------------
// Artifacts
// ---------------------------------------------------------------------------

/// The artifact with id `id`, when there is one.
pub open spec fn artifact_of(v: DbView, id: Seq<char>) -> ArtifactView {
    v.artifacts[index_of(v.artifacts, artifact_id(), id)]
}

/// `v` with the artifact `id` replaced by `a`.
pub open spec fn with_artifact(v: DbView, id: Seq<char>, a: ArtifactView) -> DbView {
    DbView { artifacts: v.artifacts.update(index_of(v.artifacts, artifact_id(), id), a), ..v }
}

/// Adding an artifact to its meeting group.
pub open spec fn insert_artifact_spec(v: DbView, a: ArtifactView) -> (Result<(), Seq<char>>, DbView) {
    if !has_group(v, a.meeting_group_id) {
        (Err("Meeting group not found."@), v)
    } else if has_artifact(v, a.id) {
        (Err("UNIQUE constraint failed: artifacts.id"@), v)
    } else {
        (Ok(()), DbView { artifacts: v.artifacts.push(a), ..v })
    }
}

/// Looking an artifact up by id.
pub open spec fn get_artifact_spec(v: DbView, id: Seq<char>) -> Result<ArtifactView, Seq<char>> {
    if has_artifact(v, id) {
        Ok(artifact_of(v, id))
    } else {
        Err("Artifact not found."@)
    }
}

/// Retitling an artifact; titles follow the name rules.
pub open spec fn rename_artifact_spec(v: DbView, id: Seq<char>, title: Seq<char>) -> (
    Result<ArtifactView, Seq<char>>,
    DbView,
) {
    match name_check(title) {
        Err(m) => (Err(m), v),
        Ok(n) => if !has_artifact(v, id) {
            (Err("Artifact not found."@), v)
        } else {
            let a = ArtifactView { title: n, ..artifact_of(v, id) };
            (Ok(a), with_artifact(v, id, a))
        },
    }
}

/// Deleting an artifact with its comments.
pub open spec fn delete_artifact_spec(v: DbView, id: Seq<char>) -> (Result<(), Seq<char>>, DbView) {
    if !has_artifact(v, id) {
        (Err("Artifact not found."@), v)
    } else {
        (
            Ok(()),
            prune_comments(
                DbView { artifacts: v.artifacts.remove(index_of(v.artifacts, artifact_id(), id)), ..v },
            ),
        )
    }
}

/// Setting an artifact's status and error message; an unknown id changes
/// nothing.
pub open spec fn set_status_spec(v: DbView, id: Seq<char>, status: Seq<char>, msg: Seq<char>) -> DbView {
    if has_artifact(v, id) {
        with_artifact(v, id, ArtifactView { status, error_message: msg, ..artifact_of(v, id) })
    } else {
        v
    }
}

/// Setting the transcript that a recording has so far.
pub open spec fn set_live_spec(
    v: DbView,
    id: Seq<char>,
    transcript: Seq<char>,
    segments_json: Seq<char>,
    duration_ms: i64,
) -> DbView {
    if has_artifact(v, id) {
        with_artifact(
            v,
            id,
            ArtifactView { transcript, segments_json, duration_ms, ..artifact_of(v, id) },
        )
    } else {
        v
    }
}

/// Setting the finished transcript: the artifact becomes ready and its error
/// is cleared.
pub open spec fn set_transcript_spec(
    v: DbView,
    id: Seq<char>,
    transcript: Seq<char>,
    segments_json: Seq<char>,
    duration_ms: i64,
    whisper_model: Seq<char>,
) -> DbView {
    if has_artifact(v, id) {
        with_artifact(
            v,
            id,
            ArtifactView {
                transcript,
                segments_json,
                duration_ms,
                status: "ready"@,
                error_message: Seq::empty(),
                whisper_model,
                ..artifact_of(v, id)
            },
        )
    } else {
        v
    }
}

/// A recording made in the app, from the microphone or the system.
pub open spec fn is_recorded(a: ArtifactView) -> bool {
    a.source_type == "voice"@ || a.source_type == "system"@
}

/// An import that was queued or transcribing when the app stopped.
pub open spec fn import_interrupted(a: ArtifactView) -> bool {
    (a.status == "queued"@ || a.status == "transcribing"@) && !is_recorded(a)
}

/// A recording that was still running or transcribing when the app stopped.
pub open spec fn recording_interrupted(a: ArtifactView) -> bool {
    (a.status == "recording"@ || a.status == "queued"@ || a.status == "transcribing"@) && is_recorded(
        a,
    )
}

pub open spec fn interrupted(a: ArtifactView) -> bool {
    import_interrupted(a) || recording_interrupted(a)
}

/// An artifact after the start-up sweep: interrupted work is marked failed
/// with a message that says why.
pub open spec fn after_interrupt(a: ArtifactView) -> ArtifactView {
    if import_interrupted(a) {
        ArtifactView {
            status: "failed"@,
            error_message: "Import didn’t finish because BellaNote closed. You can try again."@,
            ..a
        }
    } else if recording_interrupted(a) {
        ArtifactView {
            status: "failed"@,
            error_message: "Recording didn’t finish because BellaNote closed."@,
            ..a
        }
    } else {
        a
    }
}

/// Audio marked ready whose transcript is blank: it has nothing to read or
/// chat with, so it counts as failed.
pub open spec fn empty_ready_audio(a: ArtifactView) -> bool {
    a.status == "ready"@ && a.has_audio && trim(a.transcript).len() == 0
}

/// An artifact after the start-up check for empty transcripts: ready audio
/// with a blank transcript is marked failed, so that it can be retried.
pub open spec fn after_empty_check(a: ArtifactView) -> ArtifactView {
    if empty_ready_audio(a) {
        ArtifactView { status: "failed"@, error_message: crate::artifacts::no_text_message(), ..a }
    } else {
        a
    }
}

/// An artifact after the schema upgrade: an empty model is filled in for
/// ready audio uploads and for imported transcripts.
pub open spec fn after_migrate(a: ArtifactView) -> ArtifactView {
    if a.whisper_model.len() == 0 && a.source_type == "audio_upload"@ && a.status == "ready"@ {
        ArtifactView { whisper_model: "small.en"@, ..a }
    } else if a.whisper_model.len() == 0 && a.source_type == "transcript_import"@ {
        ArtifactView { whisper_model: "imported"@, ..a }
    } else {
        a
    }
}

// ---------------------------------------------------------------------------
// Comments
// ---------------------------------------------------------------------------

/// A comment's time: not below zero, and not past the end when the length is
/// known.
pub open spec fn clamp_time(t: i64, duration: i64) -> i64 {
    let t0: i64 = if t < 0 {
        0
    } else {
        t
    };
    if duration > 0 && t0 > duration {
        duration
    } else {
        t0
    }
}

pub open spec fn comment_of(v: DbView, id: Seq<char>) -> ArtifactCommentView {
    v.comments[index_of(v.comments, comment_id(), id)]
}

/// Adding a comment at a moment of an audio artifact.
pub open spec fn create_comment_spec(
    v: DbView,
    artifact: Seq<char>,
    time_ms: i64,
    body: Seq<char>,
    id: Seq<char>,
    now: Seq<char>,
) -> (Result<ArtifactCommentView, Seq<char>>, DbView) {
    match comment_check(body) {
        Err(m) => (Err(m), v),
        Ok(b) => if !has_artifact(v, artifact) {
            (Err("Artifact not found."@), v)
        } else if !artifact_of(v, artifact).has_audio {
            (Err("Comments can only be added on audio files."@), v)
        } else if has_comment(v, id) {
            (Err("UNIQUE constraint failed: artifact_comments.id"@), v)
        } else {
            let c = ArtifactCommentView {
                id,
                artifact_id: artifact,
                time_ms: clamp_time(time_ms, artifact_of(v, artifact).duration_ms),
                body: b,
                created_at: now,
            };
            (Ok(c), DbView { comments: v.comments.push(c), ..v })
        },
    }
}

/// Looking a comment up by id.
pub open spec fn get_comment_spec(v: DbView, id: Seq<char>) -> Result<ArtifactCommentView, Seq<char>> {
    if has_comment(v, id) {
        Ok(comment_of(v, id))
    } else {
        Err("Comment not found."@)
    }
}

/// Editing a comment's text.
pub open spec fn update_comment_spec(v: DbView, id: Seq<char>, body: Seq<char>) -> (
    Result<ArtifactCommentView, Seq<char>>,
    DbView,
) {
    match comment_check(body) {
        Err(m) => (Err(m), v),
        Ok(b) => if !has_comment(v, id) {
            (Err("Comment not found."@), v)
        } else {
            let c = ArtifactCommentView { body: b, ..comment_of(v, id) };
            (
                Ok(c),
                DbView { comments: v.comments.update(index_of(v.comments, comment_id(), id), c), ..v },
            )
        },
    }
}

/// Deleting a comment.
pub open spec fn delete_comment_spec(v: DbView, id: Seq<char>) -> (Result<(), Seq<char>>, DbView) {
    if !has_comment(v, id) {
        (Err("Comment not found."@), v)
    } else {
        (Ok(()), DbView { comments: v.comments.remove(index_of(v.comments, comment_id(), id)), ..v })
    }
}

// ---------------------------------------------------------------------------
// Chat threads
// ---------------------------------------------------------------------------

/// The turns saved for a scope; none when it has no thread.
pub open spec fn chat_spec(v: DbView, scope_type: Seq<char>, scope_id: Seq<char>) -> Seq<ChatTurnView> {
    if has_key(v.threads, thread_scope(), (scope_type, scope_id)) {
        v.threads[index_of(v.threads, thread_scope(), (scope_type, scope_id))].messages
    } else {
        Seq::empty()
    }
}

/// Saving the turns of a scope: its thread is updated, or one is created.
pub open spec fn set_chat_spec(
    v: DbView,
    scope_type: Seq<char>,
    scope_id: Seq<char>,
    messages: Seq<ChatTurnView>,
    id: Seq<char>,
    now: Seq<char>,
) -> (Result<(), Seq<char>>, DbView) {
    if has_key(v.threads, thread_scope(), (scope_type, scope_id)) {
        let i = index_of(v.threads, thread_scope(), (scope_type, scope_id));
        let t = ChatThreadRecordView { messages, updated_at: now, ..v.threads[i] };
        (Ok(()), DbView { threads: v.threads.update(i, t), ..v })
    } else if has_key(v.threads, thread_id(), id) {
        (Err("UNIQUE constraint failed: chat_threads.id"@), v)
    } else {
        let t = ChatThreadRecordView { id, scope_type, scope_id, messages, updated_at: now };
        (Ok(()), DbView { threads: v.threads.push(t), ..v })
    }
}


impl Db {
    /// Puts `a` in place of the artifact at `k`, which has its id and group.
    fn replace_artifact(&mut self, k: usize, a: Artifact)
        requires
            db_wf(old(self)@),
            k < old(self)@.artifacts.len(),
            a@.id == old(self)@.artifacts[k as int].id,
            a@.meeting_group_id == old(self)@.artifacts[k as int].meeting_group_id,
        ensures
            db_wf(final(self)@),
            final(self)@ == (DbView {
                artifacts: old(self)@.artifacts.update(k as int, a@),
                ..old(self)@
            }),
    {
        let ghost v = self@;
        let ghost av = a@;
        proof {
            lemma_update_unique(v.artifacts, artifact_id(), k as int, av);
            assert forall|x: Seq<char>| has_artifact(v, x) implies #[trigger] has_key(
                v.artifacts.update(k as int, av),
                artifact_id(),
                x,
            ) by {
                lemma_update_has_key(v.artifacts, artifact_id(), k as int, av, x);
            }
        }
        self.artifacts.set(k, a);
        assert(self@.artifacts =~= v.artifacts.update(k as int, av));
    }

    /// Adds an artifact to its meeting group.
    pub fn insert_artifact(&mut self, artifact: &Artifact) -> (r: AppResult<()>)
        requires
            old(self).wf(),
        ensures
            final(self).wf(),
            unit_outcome(r, insert_artifact_spec(old(self)@, artifact@).0),
            final(self)@ == insert_artifact_spec(old(self)@, artifact@).1,
    {
        if self.find_group(&artifact.meeting_group_id).is_none() {
            return Err(app_error("Meeting group not found."));
        }
        if self.find_artifact(&artifact.id).is_some() {
            return Err(app_error("UNIQUE constraint failed: artifacts.id"));
        }
        let ghost v = self@;
        let a = artifact.duplicate();
        proof {
            lemma_push_unique(v.artifacts, artifact_id(), a@);
            assert forall|k: Seq<char>| has_artifact(v, k) implies #[trigger] has_key(
                v.artifacts.push(a@),
                artifact_id(),
                k,
            ) by {
                lemma_push_has_key(v.artifacts, artifact_id(), a@, k);
            }
        }
        self.artifacts.push(a);
        assert(self@.artifacts == v.artifacts.push(artifact@));
        Ok(())
    }

    /// The artifact with the given id.
    pub fn get_artifact(&self, id: &str) -> (r: AppResult<Artifact>)
        requires
            self.wf(),
        ensures
            outcome(r, get_artifact_spec(self@, id@)),
    {
        let key = id.to_owned();
        match self.find_artifact(&key) {
            Some(k) => {
                proof {
                    lemma_index_of(self@.artifacts, artifact_id(), k as int);
                }
                Ok(self.artifacts[k].duplicate())
            },
            None => Err(app_error("Artifact not found.")),
        }
    }

    /// Retitles an artifact.
    pub fn rename_artifact(&mut self, id: &str, title: &str) -> (r: AppResult<Artifact>)
        requires
            old(self).wf(),
        ensures
            final(self).wf(),
            outcome(r, rename_artifact_spec(old(self)@, id@, title@).0),
            final(self)@ == rename_artifact_spec(old(self)@, id@, title@).1,
    {
        let n = match trim_name(title) {
            Ok(n) => n,
            Err(e) => return Err(e),
        };
        let key = id.to_owned();
        let k = match self.find_artifact(&key) {
            Some(k) => k,
            None => return Err(app_error("Artifact not found.")),
        };
        proof {
            lemma_index_of(self@.artifacts, artifact_id(), k as int);
        }
        let mut a = self.artifacts[k].duplicate();
        a.title = n;
        let r = a.duplicate();
        self.replace_artifact(k, a);
        Ok(r)
    }

    /// Deletes an artifact with its comments.
    pub fn delete_artifact(&mut self, id: &str) -> (r: AppResult<()>)
        requires
            old(self).wf(),
        ensures
            final(self).wf(),
            unit_outcome(r, delete_artifact_spec(old(self)@, id@).0),
            final(self)@ == delete_artifact_spec(old(self)@, id@).1,
    {
        let key = id.to_owned();
        let k = match self.find_artifact(&key) {
            Some(k) => k,
            None => return Err(app_error("Artifact not found.")),
        };
        let ghost v = self@;
        proof {
            lemma_index_of(v.artifacts, artifact_id(), k as int);
            lemma_remove_unique(v.artifacts, artifact_id(), k as int);
        }
        self.artifacts.remove(k);
        assert(self@.artifacts =~= v.artifacts.remove(k as int));
        assert(self@ == DbView { artifacts: v.artifacts.remove(k as int), ..v });
        proof {
            let w = self@;
            assert forall|i: int| 0 <= i < w.artifacts.len() implies has_group(
                w,
                #[trigger] w.artifacts[i].meeting_group_id,
            ) by {
                if i < k {
                    assert(w.artifacts[i] == v.artifacts[i]);
                } else {
                    assert(w.artifacts[i] == v.artifacts[i + 1]);
                }
            }
        }
        self.prune_comments_exec();
        Ok(())
    }

    /// Sets an artifact's status and error message; nothing changes when no
    /// artifact has the id.
    pub fn set_artifact_status(&mut self, id: &str, status: &str, error_message: &str) -> (r:
        AppResult<()>)
        requires
            old(self).wf(),
        ensures
            final(self).wf(),
            r is Ok,
            final(self)@ == set_status_spec(old(self)@, id@, status@, error_message@),
    {
        let key = id.to_owned();
        if let Some(k) = self.find_artifact(&key) {
            proof {
                lemma_index_of(self@.artifacts, artifact_id(), k as int);
            }
            let mut a = self.artifacts[k].duplicate();
            a.status = status.to_owned();
            a.error_message = error_message.to_owned();
            self.replace_artifact(k, a);
        }
        Ok(())
    }

    /// Sets the transcript that a running recording has so far.
    pub fn set_artifact_live_transcript(
        &mut self,
        id: &str,
        transcript: &str,
        segments_json: &str,
        duration_ms: i64,
    ) -> (r: AppResult<()>)
        requires
            old(self).wf(),
        ensures
            final(self).wf(),
            r is Ok,
            final(self)@ == set_live_spec(old(self)@, id@, transcript@, segments_json@, duration_ms),
    {
        let key = id.to_owned();
        if let Some(k) = self.find_artifact(&key) {
            proof {
                lemma_index_of(self@.artifacts, artifact_id(), k as int);
            }
            let mut a = self.artifacts[k].duplicate();
            a.transcript = transcript.to_owned();
            a.segments_json = segments_json.to_owned();
            a.duration_ms = duration_ms;
            self.replace_artifact(k, a);
        }
        Ok(())
    }

    /// Stores a finished transcript; the artifact becomes ready.
    pub fn set_artifact_transcript(
        &mut self,
        id: &str,
        transcript: &str,
        segments_json: &str,
        duration_ms: i64,
        whisper_model: &str,
    ) -> (r: AppResult<()>)
        requires
            old(self).wf(),
        ensures
            final(self).wf(),
            r is Ok,
            final(self)@ == set_transcript_spec(
                old(self)@,
                id@,
                transcript@,
                segments_json@,
                duration_ms,
                whisper_model@,
            ),
    {
        let key = id.to_owned();
        if let Some(k) = self.find_artifact(&key) {
            proof {
                lemma_index_of(self@.artifacts, artifact_id(), k as int);
            }
            let mut a = self.artifacts[k].duplicate();
            a.transcript = transcript.to_owned();
            a.segments_json = segments_json.to_owned();
            a.duration_ms = duration_ms;
            a.status = "ready".to_owned();
            a.error_message = String::new();
            a.whisper_model = whisper_model.to_owned();
            self.replace_artifact(k, a);
        }
        Ok(())
    }

    /// Marks the imports and recordings that the last run left unfinished as
    /// failed, and says how many there were.
    pub fn fail_interrupted_imports(&mut self) -> (r: AppResult<usize>)
        requires
            old(self).wf(),
        ensures
            final(self).wf(),
            r == Ok::<usize, AppError>(
                old(self)@.artifacts.filter(|a: ArtifactView| interrupted(a)).len() as usize,
            ),
            final(self)@ == (DbView {
                artifacts: old(self)@.artifacts.map_values(|a: ArtifactView| after_interrupt(a)),
                ..old(self)@
            }),
    {
        let ghost v = self@;
        let ghost pred = |a: ArtifactView| interrupted(a);
        let mut count: usize = 0;
        let mut i: usize = 0;
        while i < self.artifacts.len()
            invariant
                0 <= i <= self.artifacts@.len(),
                self@.artifacts.len() == v.artifacts.len(),
                db_wf(self@),
                self@ == (DbView { artifacts: self@.artifacts, ..v }),
                forall|j: int| 0 <= j < i ==> self@.artifacts[j] == after_interrupt(v.artifacts[j]),
                forall|j: int| i <= j < v.artifacts.len() ==> self@.artifacts[j] == v.artifacts[j],
                pred == (|a: ArtifactView| interrupted(a)),
                count == v.artifacts.take(i as int).filter(pred).len(),
                count <= i,
            decreases self.artifacts.len() - i,
        {
            proof {
                lemma_filter_push(v.artifacts.take(i as int), v.artifacts[i as int], pred);
                assert(v.artifacts.take(i + 1) == v.artifacts.take(i as int).push(
                    v.artifacts[i as int],
                ));
            }
            let mut b = self.artifacts[i].duplicate();
            let recorded = text_is(&b.source_type, "voice") || text_is(&b.source_type, "system");
            let queued = text_is(&b.status, "queued");
            let transcribing = text_is(&b.status, "transcribing");
            let recording = text_is(&b.status, "recording");
            if (queued || transcribing) && !recorded {
                b.status = "failed".to_owned();
                b.error_message =
                    "Import didn’t finish because BellaNote closed. You can try again.".to_owned();
                self.replace_artifact(i, b);
                count = count + 1;
            } else if (recording || queued || transcribing) && recorded {
                b.status = "failed".to_owned();
                b.error_message = "Recording didn’t finish because BellaNote closed.".to_owned();
                self.replace_artifact(i, b);
                count = count + 1;
            }
            i = i + 1;
        }
        assert(v.artifacts.take(v.artifacts.len() as int) == v.artifacts);
        assert(self@.artifacts =~= v.artifacts.map_values(|a: ArtifactView| after_interrupt(a)));
        Ok(count)
    }

    /// Marks ready audio whose transcript is blank as failed, and says how
    /// many there were.
    pub fn fail_empty_ready_audio(&mut self) -> (r: AppResult<usize>)
        requires
            old(self).wf(),
        ensures
            final(self).wf(),
            r == Ok::<usize, AppError>(
                old(self)@.artifacts.filter(|a: ArtifactView| empty_ready_audio(a)).len() as usize,
            ),
            final(self)@ == (DbView {
                artifacts: old(self)@.artifacts.map_values(|a: ArtifactView| after_empty_check(a)),
                ..old(self)@
            }),
    {
        let ghost v = self@;
        let ghost pred = |a: ArtifactView| empty_ready_audio(a);
        let mut count: usize = 0;
        let mut i: usize = 0;
        while i < self.artifacts.len()
            invariant
                0 <= i <= self.artifacts@.len(),
                self@.artifacts.len() == v.artifacts.len(),
                db_wf(self@),
                self@ == (DbView { artifacts: self@.artifacts, ..v }),
                forall|j: int| 0 <= j < i ==> self@.artifacts[j] == after_empty_check(v.artifacts[j]),
                forall|j: int| i <= j < v.artifacts.len() ==> self@.artifacts[j] == v.artifacts[j],
                pred == (|a: ArtifactView| empty_ready_audio(a)),
                count == v.artifacts.take(i as int).filter(pred).len(),
                count <= i,
            decreases self.artifacts.len() - i,
        {
            proof {
                lemma_filter_push(v.artifacts.take(i as int), v.artifacts[i as int], pred);
                assert(v.artifacts.take(i + 1) == v.artifacts.take(i as int).push(
                    v.artifacts[i as int],
                ));
            }
            let mut b = self.artifacts[i].duplicate();
            if text_is(&b.status, "ready") && b.has_audio && is_blank(&to_chars(b.transcript.as_str())) {
                b.status = "failed".to_owned();
                b.error_message =
                    "Transcription didn’t finish. The recording is saved — you can try again.".to_owned();
                self.replace_artifact(i, b);
                count = count + 1;
            }
            i = i + 1;
        }
        assert(v.artifacts.take(v.artifacts.len() as int) == v.artifacts);
        assert(self@.artifacts =~= v.artifacts.map_values(|a: ArtifactView| after_empty_check(a)));
        Ok(count)
    }

    /// Fills in the transcription model of artifacts stored before it was
    /// recorded: `small.en` for ready audio uploads, `imported` for imported
    /// transcripts.
    pub fn migrate_artifacts(&mut self)
        requires
            old(self).wf(),
        ensures
            final(self).wf(),
            final(self)@ == (DbView {
                artifacts: old(self)@.artifacts.map_values(|a: ArtifactView| after_migrate(a)),
                ..old(self)@
            }),
    {
        let ghost v = self@;
        let mut i: usize = 0;
        while i < self.artifacts.len()
            invariant
                0 <= i <= self.artifacts@.len(),
                self@.artifacts.len() == v.artifacts.len(),
                db_wf(self@),
                self@ == (DbView { artifacts: self@.artifacts, ..v }),
                forall|j: int| 0 <= j < i ==> self@.artifacts[j] == after_migrate(v.artifacts[j]),
                forall|j: int| i <= j < v.artifacts.len() ==> self@.artifacts[j] == v.artifacts[j],
            decreases self.artifacts.len() - i,
        {
            let mut b = self.artifacts[i].duplicate();
            if to_chars(b.whisper_model.as_str()).len() == 0 {
                if text_is(&b.source_type, "audio_upload") && text_is(&b.status, "ready") {
                    b.whisper_model = "small.en".to_owned();
                    self.replace_artifact(i, b);
                } else if text_is(&b.source_type, "transcript_import") {
                    b.whisper_model = "imported".to_owned();
                    self.replace_artifact(i, b);
                }
            }
            i = i + 1;
        }
        assert(self@.artifacts =~= v.artifacts.map_values(|a: ArtifactView| after_migrate(a)));
    }
}


impl Db {
    /// Puts `c` in place of the comment at `k`, which has its id and artifact.
    fn replace_comment(&mut self, k: usize, c: ArtifactComment)
        requires
            db_wf(old(self)@),
            k < old(self)@.comments.len(),
            c@.id == old(self)@.comments[k as int].id,
            c@.artifact_id == old(self)@.comments[k as int].artifact_id,
        ensures
            db_wf(final(self)@),
            final(self)@ == (DbView {
                comments: old(self)@.comments.update(k as int, c@),
                ..old(self)@
            }),
    {
        let ghost v = self@;
        let ghost cv = c@;
        proof {
            lemma_update_unique(v.comments, comment_id(), k as int, cv);
        }
        self.comments.set(k, c);
        assert(self@.comments =~= v.comments.update(k as int, cv));
    }

    /// Adds a comment at `time_ms` of an audio artifact, with the given id
    /// and creation time. The time is moved into the recording.
    pub fn create_artifact_comment_with(
        &mut self,
        artifact_id: &str,
        time_ms: i64,
        body: &str,
        id: String,
        now: String,
    ) -> (r: AppResult<ArtifactComment>)
        requires
            old(self).wf(),
        ensures
            final(self).wf(),
            outcome(r, create_comment_spec(old(self)@, artifact_id@, time_ms, body@, id@, now@).0),
            final(self)@ == create_comment_spec(
                old(self)@,
                artifact_id@,
                time_ms,
                body@,
                id@,
                now@,
            ).1,
    {
        let b = match trim_comment_body(body) {
            Ok(b) => b,
            Err(e) => return Err(e),
        };
        let key = artifact_id.to_owned();
        let k = match self.find_artifact(&key) {
            Some(k) => k,
            None => return Err(app_error("Artifact not found.")),
        };
        proof {
            lemma_index_of(self@.artifacts, crate::db::artifact_id(), k as int);
        }
        if !self.artifacts[k].has_audio {
            return Err(app_error("Comments can only be added on audio files."));
        }
        let duration = self.artifacts[k].duration_ms;
        let t0: i64 = if time_ms < 0 {
            0
        } else {
            time_ms
        };
        let t: i64 = if duration > 0 && t0 > duration {
            duration
        } else {
            t0
        };
        if self.find_comment(&id).is_some() {
            return Err(app_error("UNIQUE constraint failed: artifact_comments.id"));
        }
        let ghost v = self@;
        let c = ArtifactComment { id, artifact_id: key, time_ms: t, body: b, created_at: now };
        let r = c.duplicate();
        proof {
            lemma_push_unique(v.comments, comment_id(), c@);
        }
        self.comments.push(c);
        assert(self@.comments == v.comments.push(r@));
        Ok(r)
    }

    /// Adds a comment with a fresh id, dated now.
    pub fn create_artifact_comment(&mut self, artifact_id: &str, time_ms: i64, body: &str) -> (r:
        AppResult<ArtifactComment>)
        requires
            old(self).wf(),
        ensures
            final(self).wf(),
            exists|id: Seq<char>, now: Seq<char>|
                #![trigger create_comment_spec(old(self)@, artifact_id@, time_ms, body@, id, now)]
                is_hyphenated_uuid(id) && outcome(
                    r,
                    create_comment_spec(old(self)@, artifact_id@, time_ms, body@, id, now).0,
                ) && final(self)@ == create_comment_spec(
                    old(self)@,
                    artifact_id@,
                    time_ms,
                    body@,
                    id,
                    now,
                ).1,
    {
        let id = new_id();
        let now = now_rfc3339();
        self.create_artifact_comment_with(artifact_id, time_ms, body, id, now)
    }

    /// The comment with the given id.
    pub fn get_artifact_comment(&self, id: &str) -> (r: AppResult<ArtifactComment>)
        requires
            self.wf(),
        ensures
            outcome(r, get_comment_spec(self@, id@)),
    {
        let key = id.to_owned();
        match self.find_comment(&key) {
            Some(k) => {
                proof {
                    lemma_index_of(self@.comments, comment_id(), k as int);
                }
                Ok(self.comments[k].duplicate())
            },
            None => Err(app_error("Comment not found.")),
        }
    }

    /// Replaces a comment's text.
    pub fn update_artifact_comment(&mut self, id: &str, body: &str) -> (r: AppResult<
        ArtifactComment,
    >)
        requires
            old(self).wf(),
        ensures
            final(self).wf(),
            outcome(r, update_comment_spec(old(self)@, id@, body@).0),
            final(self)@ == update_comment_spec(old(self)@, id@, body@).1,
    {
        let b = match trim_comment_body(body) {
            Ok(b) => b,
            Err(e) => return Err(e),
        };
        let key = id.to_owned();
        let k = match self.find_comment(&key) {
            Some(k) => k,
            None => return Err(app_error("Comment not found.")),
        };
        proof {
            lemma_index_of(self@.comments, comment_id(), k as int);
        }
        let mut c = self.comments[k].duplicate();
        c.body = b;
        let r = c.duplicate();
        self.replace_comment(k, c);
        Ok(r)
    }

    /// Deletes a comment.
    pub fn delete_artifact_comment(&mut self, id: &str) -> (r: AppResult<()>)
        requires
            old(self).wf(),
        ensures
            final(self).wf(),
            unit_outcome(r, delete_comment_spec(old(self)@, id@).0),
            final(self)@ == delete_comment_spec(old(self)@, id@).1,
    {
        let key = id.to_owned();
        let k = match self.find_comment(&key) {
            Some(k) => k,
            None => return Err(app_error("Comment not found.")),
        };
        let ghost v = self@;
        proof {
            lemma_index_of(v.comments, comment_id(), k as int);
            lemma_remove_unique(v.comments, comment_id(), k as int);
        }
        self.comments.remove(k);
        assert(self@.comments =~= v.comments.remove(k as int));
        proof {
            let w = self@;
            assert forall|i: int| 0 <= i < w.comments.len() implies has_artifact(
                w,
                #[trigger] w.comments[i].artifact_id,
            ) by {
                if i < k {
                    assert(w.comments[i] == v.comments[i]);
                } else {
                    assert(w.comments[i] == v.comments[i + 1]);
                }
            }
        }
        Ok(())
    }

    /// The index of the chat thread of a scope.
    fn thread_for(&self, scope_type: &String, scope_id: &String) -> (r: Option<usize>)
        ensures
            match r {
                Some(i) => i < self@.threads.len() && self@.threads[i as int].scope_type
                    == scope_type@ && self@.threads[i as int].scope_id == scope_id@,
                None => !has_key(self@.threads, thread_scope(), (scope_type@, scope_id@)),
            },
    {
        let mut i: usize = 0;
        while i < self.threads.len()
            invariant
                0 <= i <= self.threads@.len(),
                forall|j: int|
                    0 <= j < i ==> !(#[trigger] self@.threads[j].scope_type == scope_type@
                        && self@.threads[j].scope_id == scope_id@),
            decreases self.threads.len() - i,
        {
            if self.threads[i].scope_type == *scope_type && self.threads[i].scope_id == *scope_id {
                return Some(i);
            }
            i = i + 1;
        }
        None
    }

    /// Whether some chat thread has the id.
    fn thread_with_id(&self, id: &String) -> (b: bool)
        ensures
            b == has_key(self@.threads, thread_id(), id@),
    {
        let mut i: usize = 0;
        while i < self.threads.len()
            invariant
                0 <= i <= self.threads@.len(),
                forall|j: int| 0 <= j < i ==> #[trigger] self@.threads[j].id != id@,
            decreases self.threads.len() - i,
        {
            if self.threads[i].id == *id {
                assert(thread_id()(self@.threads[i as int]) == id@);
                return true;
            }
            i = i + 1;
        }
        proof {
            if has_key(self@.threads, thread_id(), id@) {
                let j = choose|j: int| 0 <= j < self@.threads.len() && thread_id()(self@.threads[j]) == id@;
                assert(self@.threads[j].id != id@);
            }
        }
        false
    }

    /// The saved turns of a scope's chat; none when it has no thread.
    pub fn get_chat_messages(&self, scope_type: &str, scope_id: &str) -> (r: AppResult<
        Vec<ChatTurn>,
    >)
        requires
            self.wf(),
        ensures
            match r {
                Ok(turns) => turns_view(turns@) == chat_spec(self@, scope_type@, scope_id@),
                Err(_) => false,
            },
    {
        let st = scope_type.to_owned();
        let si = scope_id.to_owned();
        match self.thread_for(&st, &si) {
            Some(k) => {
                proof {
                    lemma_index_of(self@.threads, thread_scope(), k as int);
                }
                Ok(duplicate_turns(self.threads[k].messages.as_slice()))
            },
            None => {
                let out: Vec<ChatTurn> = Vec::new();
                assert(turns_view(out@) =~= Seq::<ChatTurnView>::empty());
                Ok(out)
            },
        }
    }

    /// Saves the turns of a scope's chat, creating its thread with the given
    /// id when it has none.
    pub fn set_chat_messages_with(
        &mut self,
        scope_type: &str,
        scope_id: &str,
        messages: &[ChatTurn],
        id: String,
        now: String,
    ) -> (r: AppResult<()>)
        requires
            old(self).wf(),
        ensures
            final(self).wf(),
            unit_outcome(
                r,
                set_chat_spec(old(self)@, scope_type@, scope_id@, turns_view(messages@), id@, now@).0,
            ),
            final(self)@ == set_chat_spec(
                old(self)@,
                scope_type@,
                scope_id@,
                turns_view(messages@),
                id@,
                now@,
            ).1,
    {
        let st = scope_type.to_owned();
        let si = scope_id.to_owned();
        let msgs = duplicate_turns(messages);
        let ghost v = self@;
        match self.thread_for(&st, &si) {
            Some(k) => {
                proof {
                    lemma_index_of(v.threads, thread_scope(), k as int);
                }
                let t = ChatThread {
                    id: self.threads[k].id.clone(),
                    scope_type: st,
                    scope_id: si,
                    messages: msgs,
                    updated_at: now,
                };
                let ghost tv = t@;
                proof {
                    lemma_update_unique(v.threads, thread_id(), k as int, tv);
                    lemma_update_unique(v.threads, thread_scope(), k as int, tv);
                }
                self.threads.set(k, t);
                assert(self@.threads =~= v.threads.update(k as int, tv));
                Ok(())
            },
            None => {
                if self.thread_with_id(&id) {
                    return Err(app_error("UNIQUE constraint failed: chat_threads.id"));
                }
                let t = ChatThread {
                    id,
                    scope_type: st,
                    scope_id: si,
                    messages: msgs,
                    updated_at: now,
                };
                let ghost tv = t@;
                proof {
                    lemma_push_unique(v.threads, thread_id(), tv);
                    lemma_push_unique(v.threads, thread_scope(), tv);
                }
                self.threads.push(t);
                assert(self@.threads == v.threads.push(tv));
                Ok(())
            },
        }
    }

    /// Saves the turns of a scope's chat.
    pub fn set_chat_messages(&mut self, scope_type: &str, scope_id: &str, messages: &[ChatTurn]) -> (r:
        AppResult<()>)
        requires
            old(self).wf(),
        ensures
            final(self).wf(),
            exists|id: Seq<char>, now: Seq<char>|
                #![trigger set_chat_spec(old(self)@, scope_type@, scope_id@, turns_view(messages@), id, now)]
                is_hyphenated_uuid(id) && unit_outcome(
                    r,
                    set_chat_spec(old(self)@, scope_type@, scope_id@, turns_view(messages@), id, now).0,
                ) && final(self)@ == set_chat_spec(
                    old(self)@,
                    scope_type@,
                    scope_id@,
                    turns_view(messages@),
                    id,
                    now,
                ).1,
    {
        let now = now_rfc3339();
        let id = new_id();
        self.set_chat_messages_with(scope_type, scope_id, messages, id, now)
    }
}


// ---------------------------------------------------------------------------
// Listings
// ---------------------------------------------------------------------------

/// Artifacts ordered by when they were added.
pub open spec fn created_key(a: ArtifactView) -> KeyView {
    (a.created_at, 0i64, Seq::empty())
}

/// The artifacts of a meeting group, oldest first.
pub open spec fn list_artifacts_spec(v: DbView, group: Seq<char>) -> Seq<ArtifactView> {
    let items = v.artifacts.filter(|a: ArtifactView| a.meeting_group_id == group);
    sorted_by(items, items.map_values(|a: ArtifactView| created_key(a)), false)
}

/// Comments ordered by their moment, then by when they were written.
pub open spec fn comment_key(c: ArtifactCommentView) -> KeyView {
    (Seq::empty(), c.time_ms, c.created_at)
}

/// The comments of an artifact, in playback order.
pub open spec fn list_comments_spec(v: DbView, artifact: Seq<char>) -> Seq<ArtifactCommentView> {
    let items = v.comments.filter(|c: ArtifactCommentView| c.artifact_id == artifact);
    sorted_by(items, items.map_values(|c: ArtifactCommentView| comment_key(c)), false)
}

/// The meeting group an artifact belongs to.
pub open spec fn group_of(v: DbView, a: ArtifactView) -> MeetingGroupView {
    v.groups[index_of(v.groups, group_id(), a.meeting_group_id)]
}

/// The topic a meeting group belongs to.
pub open spec fn topic_of(v: DbView, g: MeetingGroupView) -> TopicView {
    v.topics[index_of(v.topics, topic_id(), g.topic_id)]
}

/// The kinds of chat scope.
pub open spec fn known_scope(scope_type: Seq<char>) -> bool {
    scope_type == "artifact"@ || scope_type == "meeting_group"@ || scope_type == "topic"@
        || scope_type == "organization"@
}

/// Whether an artifact lies in a scope: it is the artifact, or it lies in the
/// meeting group, topic or organization.
pub open spec fn in_scope(v: DbView, scope_type: Seq<char>, scope_id: Seq<char>, a: ArtifactView) -> bool {
    if scope_type == "artifact"@ {
        a.id == scope_id
    } else if scope_type == "meeting_group"@ {
        a.meeting_group_id == scope_id
    } else if scope_type == "topic"@ {
        group_of(v, a).topic_id == scope_id
    } else {
        topic_of(v, group_of(v, a)).organization_id == scope_id
    }
}

/// The order of a scope's artifacts, newest first: by creation within a
/// meeting group, by meeting date and then creation above it.
pub open spec fn scope_key(v: DbView, scope_type: Seq<char>, a: ArtifactView) -> KeyView {
    if scope_type == "artifact"@ {
        (Seq::empty(), 0i64, Seq::empty())
    } else if scope_type == "meeting_group"@ {
        (a.created_at, 0i64, Seq::empty())
    } else {
        (group_of(v, a).occurred_at, 0i64, a.created_at)
    }
}

pub open spec fn is_ready(a: ArtifactView) -> bool {
    a.status == "ready"@
}

/// The ready artifacts of a chat scope, newest first.
pub open spec fn ready_in_scope_spec(v: DbView, scope_type: Seq<char>, scope_id: Seq<char>) -> Result<
    Seq<ArtifactView>,
    Seq<char>,
> {
    if !known_scope(scope_type) {
        Err("Unknown chat scope."@)
    } else {
        let items = v.artifacts.filter(
            |a: ArtifactView| is_ready(a) && in_scope(v, scope_type, scope_id, a),
        );
        Ok(sorted_by(items, items.map_values(|a: ArtifactView| scope_key(v, scope_type, a)), true))
    }
}

/// How many artifacts of a scope are ready, and how many there are.
pub open spec fn count_in_scope_spec(v: DbView, scope_type: Seq<char>, scope_id: Seq<char>) -> Result<
    (i64, i64),
    Seq<char>,
> {
    if !known_scope(scope_type) {
        Err("Unknown chat scope."@)
    } else {
        Ok(
            (
                v.artifacts.filter(
                    |a: ArtifactView| is_ready(a) && in_scope(v, scope_type, scope_id, a),
                ).len() as i64,
                v.artifacts.filter(|a: ArtifactView| in_scope(v, scope_type, scope_id, a)).len() as i64,
            ),
        )
    }
}

/// Organizations and topics are listed by name, ignoring ASCII case.
pub open spec fn name_key(name: Seq<char>) -> KeyView {
    (ascii_lower_seq(name), 0i64, Seq::empty())
}

/// Meeting groups are listed newest first.
pub open spec fn group_order_key(g: MeetingGroupView) -> KeyView {
    (g.occurred_at, 0i64, g.created_at)
}

/// The meeting groups of a topic, as the library lists them.
pub open spec fn topic_groups_spec(v: DbView, topic: Seq<char>) -> Seq<MeetingGroupView> {
    let items = v.groups.filter(|g: MeetingGroupView| g.topic_id == topic);
    sorted_by(items, items.map_values(|g: MeetingGroupView| group_order_key(g)), true)
}

/// The topics of an organization with their meeting groups, as the library
/// lists them.
pub open spec fn org_topics_spec(v: DbView, org: Seq<char>) -> Seq<LibraryTopicView> {
    let items = v.topics.filter(|t: TopicView| t.organization_id == org);
    sorted_by(items, items.map_values(|t: TopicView| name_key(t.name)), false).map_values(
        |t: TopicView| LibraryTopicView { topic: t, groups: topic_groups_spec(v, t.id) },
    )
}

/// The whole library tree.
pub open spec fn library_spec(v: DbView) -> Seq<LibraryOrganizationView> {
    sorted_by(v.orgs, v.orgs.map_values(|o: OrganizationView| name_key(o.name)), false).map_values(
        |o: OrganizationView| LibraryOrganizationView {
            organization: o,
            topics: org_topics_spec(v, o.id),
        },
    )
}


impl Db {
    /// The artifacts of a meeting group, oldest first.
    pub fn list_artifacts(&self, meeting_group_id: &str) -> (r: AppResult<Vec<Artifact>>)
        requires
            self.wf(),
        ensures
            match r {
                Ok(list) => views_of(list@) == list_artifacts_spec(self@, meeting_group_id@),
                Err(_) => false,
            },
    {
        let gid = meeting_group_id.to_owned();
        let ghost v = self@;
        let ghost pred = |a: ArtifactView| a.meeting_group_id == gid@;
        let ghost kf = |a: ArtifactView| created_key(a);
        let mut items: Vec<Artifact> = Vec::new();
        let mut keys: Vec<SortKey> = Vec::new();
        let mut i: usize = 0;
        while i < self.artifacts.len()
            invariant
                0 <= i <= self.artifacts@.len(),
                v == self@,
                pred == (|a: ArtifactView| a.meeting_group_id == gid@),
                kf == (|a: ArtifactView| created_key(a)),
                views_of(items@) == v.artifacts.take(i as int).filter(pred),
                keys_view(keys@) == views_of(items@).map_values(kf),
            decreases self.artifacts.len() - i,
        {
            proof {
                lemma_filter_push(v.artifacts.take(i as int), v.artifacts[i as int], pred);
                assert(v.artifacts.take(i + 1) == v.artifacts.take(i as int).push(
                    v.artifacts[i as int],
                ));
            }
            if self.artifacts[i].meeting_group_id == gid {
                let a = self.artifacts[i].duplicate();
                let k = SortKey { text: to_chars(a.created_at.as_str()), num: 0, text2: Vec::new() };
                let ghost (bi, bk) = (items@, keys@);
                items.push(a);
                keys.push(k);
                assert(views_of(items@) == views_of(bi).push(a@));
                assert(keys_view(keys@) == keys_view(bk).push(k@));
            }
            i = i + 1;
        }
        assert(v.artifacts.take(self.artifacts@.len() as int) == v.artifacts);
        let order = sort_indices(&keys, false);
        Ok(pick(&items, &order))
    }

    /// The comments of an artifact, in playback order.
    pub fn list_artifact_comments(&self, artifact_id: &str) -> (r: AppResult<Vec<ArtifactComment>>)
        requires
            self.wf(),
        ensures
            match r {
                Ok(list) => views_of(list@) == list_comments_spec(self@, artifact_id@),
                Err(_) => false,
            },
    {
        let aid = artifact_id.to_owned();
        let ghost v = self@;
        let ghost pred = |c: ArtifactCommentView| c.artifact_id == aid@;
        let ghost kf = |c: ArtifactCommentView| comment_key(c);
        let mut items: Vec<ArtifactComment> = Vec::new();
        let mut keys: Vec<SortKey> = Vec::new();
        let mut i: usize = 0;
        while i < self.comments.len()
            invariant
                0 <= i <= self.comments@.len(),
                v == self@,
                pred == (|c: ArtifactCommentView| c.artifact_id == aid@),
                kf == (|c: ArtifactCommentView| comment_key(c)),
                views_of(items@) == v.comments.take(i as int).filter(pred),
                keys_view(keys@) == views_of(items@).map_values(kf),
            decreases self.comments.len() - i,
        {
            proof {
                lemma_filter_push(v.comments.take(i as int), v.comments[i as int], pred);
                assert(v.comments.take(i + 1) == v.comments.take(i as int).push(v.comments[i as int]));
            }
            if self.comments[i].artifact_id == aid {
                let c = self.comments[i].duplicate();
                let k = SortKey {
                    text: Vec::new(),
                    num: c.time_ms,
                    text2: to_chars(c.created_at.as_str()),
                };
                let ghost (bi, bk) = (items@, keys@);
                items.push(c);
                keys.push(k);
                assert(views_of(items@) == views_of(bi).push(c@));
                assert(keys_view(keys@) == keys_view(bk).push(k@));
            }
            i = i + 1;
        }
        assert(v.comments.take(self.comments@.len() as int) == v.comments);
        let order = sort_indices(&keys, false);
        Ok(pick(&items, &order))
    }

    /// The index of the meeting group of the artifact at `k`.
    fn group_index_of(&self, k: usize) -> (g: usize)
        requires
            self.wf(),
            k < self@.artifacts.len(),
        ensures
            g < self@.groups.len(),
            self@.groups[g as int] == group_of(self@, self@.artifacts[k as int]),
    {
        proof {
            assert(has_group(self@, self@.artifacts[k as int].meeting_group_id));
        }
        match self.find_group(&self.artifacts[k].meeting_group_id) {
            Some(g) => {
                proof {
                    lemma_index_of(self@.groups, group_id(), g as int);
                }
                g
            },
            None => 0,
        }
    }

    /// The index of the topic of the meeting group at `g`.
    fn topic_index_of(&self, g: usize) -> (t: usize)
        requires
            self.wf(),
            g < self@.groups.len(),
        ensures
            t < self@.topics.len(),
            self@.topics[t as int] == topic_of(self@, self@.groups[g as int]),
    {
        proof {
            assert(has_topic(self@, self@.groups[g as int].topic_id));
        }
        match self.find_topic(&self.groups[g].topic_id) {
            Some(t) => {
                proof {
                    lemma_index_of(self@.topics, topic_id(), t as int);
                }
                t
            },
            None => 0,
        }
    }

    /// Whether the artifact at `k` lies in the scope.
    fn artifact_in_scope(&self, k: usize, scope_type: &String, scope_id: &String) -> (b: bool)
        requires
            self.wf(),
            k < self@.artifacts.len(),
            known_scope(scope_type@),
        ensures
            b == in_scope(self@, scope_type@, scope_id@, self@.artifacts[k as int]),
    {
        if text_is(scope_type, "artifact") {
            self.artifacts[k].id == *scope_id
        } else if text_is(scope_type, "meeting_group") {
            self.artifacts[k].meeting_group_id == *scope_id
        } else if text_is(scope_type, "topic") {
            let g = self.group_index_of(k);
            self.groups[g].topic_id == *scope_id
        } else {
            let g = self.group_index_of(k);
            let t = self.topic_index_of(g);
            self.topics[t].organization_id == *scope_id
        }
    }

    /// The order key, within its scope, of the artifact at `k`.
    fn scope_key_of(&self, k: usize, scope_type: &String) -> (key: SortKey)
        requires
            self.wf(),
            k < self@.artifacts.len(),
        ensures
            key@ == scope_key(self@, scope_type@, self@.artifacts[k as int]),
    {
        if text_is(scope_type, "artifact") {
            SortKey { text: Vec::new(), num: 0, text2: Vec::new() }
        } else if text_is(scope_type, "meeting_group") {
            SortKey {
                text: to_chars(self.artifacts[k].created_at.as_str()),
                num: 0,
                text2: Vec::new(),
            }
        } else {
            let g = self.group_index_of(k);
            SortKey {
                text: to_chars(self.groups[g].occurred_at.as_str()),
                num: 0,
                text2: to_chars(self.artifacts[k].created_at.as_str()),
            }
        }
    }

    /// The ready artifacts of a chat scope, newest first.
    pub fn ready_artifacts_for_scope(&self, scope_type: &str, scope_id: &str) -> (r: AppResult<
        Vec<Artifact>,
    >)
        requires
            self.wf(),
        ensures
            match (r, ready_in_scope_spec(self@, scope_type@, scope_id@)) {
                (Ok(list), Ok(want)) => views_of(list@) == want,
                (Err(e), Err(m)) => e.msg() == m,
                _ => false,
            },
    {
        let st = scope_type.to_owned();
        let sid = scope_id.to_owned();
        if !(text_is(&st, "artifact") || text_is(&st, "meeting_group") || text_is(&st, "topic")
            || text_is(&st, "organization")) {
            return Err(app_error("Unknown chat scope."));
        }
        let ghost v = self@;
        let ghost pred = |a: ArtifactView| is_ready(a) && in_scope(v, st@, sid@, a);
        let ghost kf = |a: ArtifactView| scope_key(v, st@, a);
        let mut items: Vec<Artifact> = Vec::new();
        let mut keys: Vec<SortKey> = Vec::new();
        let mut i: usize = 0;
        while i < self.artifacts.len()
            invariant
                0 <= i <= self.artifacts@.len(),
                v == self@,
                self.wf(),
                known_scope(st@),
                pred == (|a: ArtifactView| is_ready(a) && in_scope(v, st@, sid@, a)),
                kf == (|a: ArtifactView| scope_key(v, st@, a)),
                views_of(items@) == v.artifacts.take(i as int).filter(pred),
                keys_view(keys@) == views_of(items@).map_values(kf),
            decreases self.artifacts.len() - i,
        {
            proof {
                lemma_filter_push(v.artifacts.take(i as int), v.artifacts[i as int], pred);
                assert(v.artifacts.take(i + 1) == v.artifacts.take(i as int).push(
                    v.artifacts[i as int],
                ));
            }
            if text_is(&self.artifacts[i].status, "ready") && self.artifact_in_scope(i, &st, &sid) {
                let a = self.artifacts[i].duplicate();
                let k = self.scope_key_of(i, &st);
                let ghost (bi, bk) = (items@, keys@);
                items.push(a);
                keys.push(k);
                assert(views_of(items@) == views_of(bi).push(a@));
                assert(keys_view(keys@) == keys_view(bk).push(k@));
            }
            i = i + 1;
        }
        assert(v.artifacts.take(self.artifacts@.len() as int) == v.artifacts);
        let order = sort_indices(&keys, true);
        Ok(pick(&items, &order))
    }

    /// How many artifacts of a chat scope are ready, and how many it has.
    pub fn count_artifacts_in_scope(&self, scope_type: &str, scope_id: &str) -> (r: AppResult<
        (i64, i64),
    >)
        requires
            self.wf(),
        ensures
            match (r, count_in_scope_spec(self@, scope_type@, scope_id@)) {
                (Ok(got), Ok(want)) => got == want,
                (Err(e), Err(m)) => e.msg() == m,
                _ => false,
            },
    {
        let st = scope_type.to_owned();
        let sid = scope_id.to_owned();
        if !(text_is(&st, "artifact") || text_is(&st, "meeting_group") || text_is(&st, "topic")
            || text_is(&st, "organization")) {
            return Err(app_error("Unknown chat scope."));
        }
        let ghost v = self@;
        let ghost ready = |a: ArtifactView| is_ready(a) && in_scope(v, st@, sid@, a);
        let ghost all = |a: ArtifactView| in_scope(v, st@, sid@, a);
        let mut n_ready: usize = 0;
        let mut n_all: usize = 0;
        let mut i: usize = 0;
        while i < self.artifacts.len()
            invariant
                0 <= i <= self.artifacts@.len(),
                v == self@,
                self.wf(),
                known_scope(st@),
                ready == (|a: ArtifactView| is_ready(a) && in_scope(v, st@, sid@, a)),
                all == (|a: ArtifactView| in_scope(v, st@, sid@, a)),
                n_ready == v.artifacts.take(i as int).filter(ready).len(),
                n_all == v.artifacts.take(i as int).filter(all).len(),
                n_ready <= i,
                n_all <= i,
            decreases self.artifacts.len() - i,
        {
            proof {
                lemma_filter_push(v.artifacts.take(i as int), v.artifacts[i as int], ready);
                lemma_filter_push(v.artifacts.take(i as int), v.artifacts[i as int], all);
                assert(v.artifacts.take(i + 1) == v.artifacts.take(i as int).push(
                    v.artifacts[i as int],
                ));
            }
            if self.artifact_in_scope(i, &st, &sid) {
                n_all = n_all + 1;
                if text_is(&self.artifacts[i].status, "ready") {
                    n_ready = n_ready + 1;
                }
            }
            i = i + 1;
        }
        assert(v.artifacts.take(self.artifacts@.len() as int) == v.artifacts);
        Ok((n_ready as i64, n_all as i64))
    }

    /// The meeting groups of a topic, newest first.
    fn topic_groups(&self, topic_id: &String) -> (out: Vec<MeetingGroup>)
        ensures
            views_of(out@) == topic_groups_spec(self@, topic_id@),
    {
        let ghost v = self@;
        let ghost pred = |g: MeetingGroupView| g.topic_id == topic_id@;
        let ghost kf = |g: MeetingGroupView| group_order_key(g);
        let mut items: Vec<MeetingGroup> = Vec::new();
        let mut keys: Vec<SortKey> = Vec::new();
        let mut i: usize = 0;
        while i < self.groups.len()
            invariant
                0 <= i <= self.groups@.len(),
                v == self@,
                pred == (|g: MeetingGroupView| g.topic_id == topic_id@),
                kf == (|g: MeetingGroupView| group_order_key(g)),
                views_of(items@) == v.groups.take(i as int).filter(pred),
                keys_view(keys@) == views_of(items@).map_values(kf),
            decreases self.groups.len() - i,
        {
            proof {
                lemma_filter_push(v.groups.take(i as int), v.groups[i as int], pred);
                assert(v.groups.take(i + 1) == v.groups.take(i as int).push(v.groups[i as int]));
            }
            if self.groups[i].topic_id == *topic_id {
                let g = self.groups[i].duplicate();
                let k = SortKey {
                    text: to_chars(g.occurred_at.as_str()),
                    num: 0,
                    text2: to_chars(g.created_at.as_str()),
                };
                let ghost (bi, bk) = (items@, keys@);
                items.push(g);
                keys.push(k);
                assert(views_of(items@) == views_of(bi).push(g@));
                assert(keys_view(keys@) == keys_view(bk).push(k@));
            }
            i = i + 1;
        }
        assert(v.groups.take(self.groups@.len() as int) == v.groups);
        let order = sort_indices(&keys, true);
        pick(&items, &order)
    }

    /// The topics of an organization with their meeting groups, by name.
    fn org_topics(&self, org_id: &String) -> (out: Vec<LibraryTopic>)
        ensures
            views_of(out@) == org_topics_spec(self@, org_id@),
    {
        let ghost v = self@;
        let ghost pred = |t: TopicView| t.organization_id == org_id@;
        let ghost kf = |t: TopicView| name_key(t.name);
        let mut items: Vec<Topic> = Vec::new();
        let mut keys: Vec<SortKey> = Vec::new();
        let mut i: usize = 0;
        while i < self.topics.len()
            invariant
                0 <= i <= self.topics@.len(),
                v == self@,
                pred == (|t: TopicView| t.organization_id == org_id@),
                kf == (|t: TopicView| name_key(t.name)),
                views_of(items@) == v.topics.take(i as int).filter(pred),
                keys_view(keys@) == views_of(items@).map_values(kf),
            decreases self.topics.len() - i,
        {
            proof {
                lemma_filter_push(v.topics.take(i as int), v.topics[i as int], pred);
                assert(v.topics.take(i + 1) == v.topics.take(i as int).push(v.topics[i as int]));
            }
            if self.topics[i].organization_id == *org_id {
                let t = self.topics[i].duplicate();
                let k = SortKey {
                    text: ascii_lower_chars(&to_chars(t.name.as_str())),
                    num: 0,
                    text2: Vec::new(),
                };
                let ghost (bi, bk) = (items@, keys@);
                items.push(t);
                keys.push(k);
                assert(views_of(items@) == views_of(bi).push(t@));
                assert(keys_view(keys@) == keys_view(bk).push(k@));
            }
            i = i + 1;
        }
        assert(v.topics.take(self.topics@.len() as int) == v.topics);
        let order = sort_indices(&keys, false);
        let sorted = pick(&items, &order);
        let ghost sv = views_of(sorted@);
        let mut out: Vec<LibraryTopic> = Vec::new();
        let mut j: usize = 0;
        while j < sorted.len()
            invariant
                0 <= j <= sorted@.len(),
                v == self@,
                sv == views_of(sorted@),
                views_of(out@) == sv.take(j as int).map_values(
                    |t: TopicView| LibraryTopicView { topic: t, groups: topic_groups_spec(v, t.id) },
                ),
            decreases sorted.len() - j,
        {
            let t = sorted[j].duplicate();
            let groups = self.topic_groups(&t.id);
            let lt = LibraryTopic { topic: t, groups };
            let ghost before = out@;
            out.push(lt);
            assert(views_of(out@) == views_of(before).push(lt@));
            assert(sv.take(j + 1) == sv.take(j as int).push(sv[j as int]));
            j = j + 1;
        }
        assert(sv.take(sorted@.len() as int) == sv);
        out
    }

    /// The library tree: organizations by name, their topics by name, and
    /// each topic's meeting groups newest first.
    pub fn get_library(&self) -> (r: AppResult<Vec<LibraryOrganization>>)
        ensures
            match r {
                Ok(tree) => views_of(tree@) == library_spec(self@),
                Err(_) => false,
            },
    {
        let ghost v = self@;
        let ghost kf = |o: OrganizationView| name_key(o.name);
        let mut keys: Vec<SortKey> = Vec::new();
        let mut i: usize = 0;
        while i < self.organizations.len()
            invariant
                0 <= i <= self.organizations@.len(),
                v == self@,
                kf == (|o: OrganizationView| name_key(o.name)),
                keys_view(keys@) == v.orgs.take(i as int).map_values(kf),
            decreases self.organizations.len() - i,
        {
            let k = SortKey {
                text: ascii_lower_chars(&to_chars(self.organizations[i].name.as_str())),
                num: 0,
                text2: Vec::new(),
            };
            let ghost bk = keys@;
            keys.push(k);
            assert(keys_view(keys@) == keys_view(bk).push(k@));
            assert(v.orgs.take(i + 1) == v.orgs.take(i as int).push(v.orgs[i as int]));
            i = i + 1;
        }
        assert(v.orgs.take(self.organizations@.len() as int) == v.orgs);
        let order = sort_indices(&keys, false);
        assert(views_of(self.organizations@) == v.orgs);
        let sorted = pick(&self.organizations, &order);
        let ghost sv = views_of(sorted@);
        let mut out: Vec<LibraryOrganization> = Vec::new();
        let mut j: usize = 0;
        while j < sorted.len()
            invariant
                0 <= j <= sorted@.len(),
                v == self@,
                sv == views_of(sorted@),
                views_of(out@) == sv.take(j as int).map_values(
                    |o: OrganizationView| LibraryOrganizationView {
                        organization: o,
                        topics: org_topics_spec(v, o.id),
                    },
                ),
            decreases sorted.len() - j,
        {
            let o = sorted[j].duplicate();
            let topics = self.org_topics(&o.id);
            let lo = LibraryOrganization { organization: o, topics };
            let ghost before = out@;
            out.push(lo);
            assert(views_of(out@) == views_of(before).push(lo@));
            assert(sv.take(j + 1) == sv.take(j as int).push(sv[j as int]));
            j = j + 1;
        }
        assert(sv.take(sorted@.len() as int) == sv);
        Ok(out)
    }
}


impl Db {
    /// The organizations, in the order they were added.
    pub fn organizations(&self) -> (r: &Vec<Organization>)
        ensures
            views_of(r@) == self@.orgs,
    {
        &self.organizations
    }

    /// The topics, in the order they were added.
    pub fn topics(&self) -> (r: &Vec<Topic>)
        ensures
            views_of(r@) == self@.topics,
    {
        &self.topics
    }

    /// The meeting groups, in the order they were added.
    pub fn meeting_groups(&self) -> (r: &Vec<MeetingGroup>)
        ensures
            views_of(r@) == self@.groups,
    {
        &self.groups
    }

    /// The artifacts, in the order they were added.
    pub fn artifacts(&self) -> (r: &Vec<Artifact>)
        ensures
            views_of(r@) == self@.artifacts,
    {
        &self.artifacts
    }

    /// The comments, in the order they were added.
    pub fn comments(&self) -> (r: &Vec<ArtifactComment>)
        ensures
            views_of(r@) == self@.comments,
    {
        &self.comments
    }

    /// The chat threads, in the order they were added.
    pub fn chat_threads(&self) -> (r: &Vec<ChatThread>)
        ensures
            views_of(r@) == self@.threads,
    {
        &self.threads
    }
}

} // verus!

//! Properties of the store that span its operations.
use vstd::prelude::*;

use crate::db::{
    after_interrupt, artifact_id, artifact_of, chat_spec, comment_id, create_comment_spec,
    create_group_spec, create_org_spec, create_topic_spec, created_key, db_wf,
    delete_artifact_spec, delete_comment_spec, delete_group_spec, delete_org_spec,
    delete_topic_spec, fk_artifacts, fk_comments, fk_groups, fk_topics, get_artifact_spec,
    group_id, has_artifact, has_group, has_key, has_org, has_topic, index_of, insert_artifact_spec,
    comment_key, group_of, group_order_key, in_scope, interrupted, is_ready, list_comments_spec,
    ready_in_scope_spec, scope_key, lemma_filter_unique, library_spec, name_key, org_topics_spec,
    topic_groups_spec, lemma_index_of, lemma_push_has_key, lemma_push_unique,
    lemma_remove_unique, lemma_update_has_key, lemma_update_unique, list_artifacts_spec, org_id,
    org_key, prune_artifacts, prune_comments, prune_groups, prune_topics, rename_artifact_spec,
    rename_group_spec, rename_org_spec, rename_topic_spec, set_chat_spec, thread_id, thread_scope,
    topic_id, topic_key, unique_by, update_comment_spec, ArtifactCommentView, ArtifactView,
    ChatThreadRecordView, DbView, MeetingGroupView, OrganizationView, TopicView,
};
use crate::order::{
    lemma_key_lt_irrefl, lemma_sort_order, lemma_sorted_by, precedes, sort_order, sorted_by,
    text_lt, KeyView,
};
use crate::text::ascii_lower_seq;
use crate::llm::ChatTurnView;

verus! {

/// What is saved for a scope's chat is what is read back for it.
pub proof fn law_chat_round_trip(
    v: DbView,
    scope_type: Seq<char>,
    scope_id: Seq<char>,
    messages: Seq<ChatTurnView>,
    id: Seq<char>,
    now: Seq<char>,
)
    requires
        db_wf(v),
        set_chat_spec(v, scope_type, scope_id, messages, id, now).0 is Ok,
    ensures
        chat_spec(set_chat_spec(v, scope_type, scope_id, messages, id, now).1, scope_type, scope_id)
            == messages,
{
    let k = (scope_type, scope_id);
    let w = set_chat_spec(v, scope_type, scope_id, messages, id, now).1;
    if has_key(v.threads, thread_scope(), k) {
        let i = index_of(v.threads, thread_scope(), k);
        let t = ChatThreadRecordView { messages, updated_at: now, ..v.threads[i] };
        lemma_update_unique(v.threads, thread_scope(), i, t);
        assert(w.threads == v.threads.update(i, t));
        assert(thread_scope()(w.threads[i]) == k);
        lemma_index_of(w.threads, thread_scope(), i);
    } else {
        let t = ChatThreadRecordView { id, scope_type, scope_id, messages, updated_at: now };
        lemma_push_unique(v.threads, thread_scope(), t);
        assert(w.threads == v.threads.push(t));
        assert(w.threads[v.threads.len() as int] == t);
        lemma_index_of(w.threads, thread_scope(), v.threads.len() as int);
    }
}

/// Scopes keep separate conversations: saving one scope's chat leaves what
/// every other scope reads back as it was, and a scope whose chat was never
/// saved reads back no turns.
pub proof fn law_chat_scopes_are_separate(
    v: DbView,
    scope_type: Seq<char>,
    scope_id: Seq<char>,
    messages: Seq<ChatTurnView>,
    id: Seq<char>,
    now: Seq<char>,
    other_type: Seq<char>,
    other_id: Seq<char>,
)
    requires
        db_wf(v),
        (scope_type, scope_id) != (other_type, other_id),
    ensures
        chat_spec(set_chat_spec(v, scope_type, scope_id, messages, id, now).1, other_type, other_id)
            == chat_spec(v, other_type, other_id),
        !has_key(v.threads, thread_scope(), (other_type, other_id)) ==> chat_spec(
            v,
            other_type,
            other_id,
        ) == Seq::<ChatTurnView>::empty(),
{
    let k = (scope_type, scope_id);
    let k2 = (other_type, other_id);
    let w = set_chat_spec(v, scope_type, scope_id, messages, id, now).1;
    if has_key(v.threads, thread_scope(), k) {
        let i = index_of(v.threads, thread_scope(), k);
        let t = ChatThreadRecordView { messages, updated_at: now, ..v.threads[i] };
        assert(w.threads == v.threads.update(i, t));
        lemma_update_unique(v.threads, thread_scope(), i, t);
        lemma_update_has_key(v.threads, thread_scope(), i, t, k2);
        if has_key(v.threads, thread_scope(), k2) {
            let j = index_of(v.threads, thread_scope(), k2);
            lemma_index_of(v.threads, thread_scope(), j);
            assert(j != i);
            assert(w.threads[j] == v.threads[j]);
            lemma_index_of(w.threads, thread_scope(), j);
        }
    } else if has_key(v.threads, thread_id(), id) {
    } else {
        let t = ChatThreadRecordView { id, scope_type, scope_id, messages, updated_at: now };
        assert(w.threads == v.threads.push(t));
        lemma_push_unique(v.threads, thread_scope(), t);
        lemma_push_has_key(v.threads, thread_scope(), t, k2);
        if has_key(v.threads, thread_scope(), k2) {
            let j = index_of(v.threads, thread_scope(), k2);
            assert(w.threads[j] == v.threads[j]);
            lemma_index_of(w.threads, thread_scope(), j);
        }
    }
}

/// An artifact that was added is found again by its id, as it was added.
pub proof fn law_get_after_insert(v: DbView, a: ArtifactView)
    requires
        db_wf(v),
        insert_artifact_spec(v, a).0 is Ok,
    ensures
        get_artifact_spec(insert_artifact_spec(v, a).1, a.id) == Ok::<ArtifactView, Seq<char>>(a),
{
    let w = insert_artifact_spec(v, a).1;
    lemma_push_unique(v.artifacts, artifact_id(), a);
    assert(w.artifacts == v.artifacts.push(a));
    assert(w.artifacts[v.artifacts.len() as int] == a);
    lemma_index_of(w.artifacts, artifact_id(), v.artifacts.len() as int);
}

/// A filtered sequence holds exactly what the sequence holds and passes.
proof fn lemma_filter_contains_iff<T>(s: Seq<T>, p: spec_fn(T) -> bool, x: T)
    ensures
        s.filter(p).contains(x) <==> s.contains(x) && p(x),
{
    broadcast use vstd::seq_lib::group_filter_ensures;

    if s.filter(p).contains(x) {
        s.lemma_filter_contains_rev(p, x);
        let i = choose|i: int| 0 <= i < s.filter(p).len() && s.filter(p)[i] == x;
        s.lemma_filter_pred(p, i);
    }
    if s.contains(x) && p(x) {
        let i = choose|i: int| 0 <= i < s.len() && s[i] == x;
        s.lemma_filter_contains(p, i);
    }
}

/// Removing the element with key `k` from a sequence with unique keys keeps
/// exactly the elements with another key.
proof fn lemma_remove_key<T, K>(s: Seq<T>, key: spec_fn(T) -> K, k: K)
    requires
        unique_by(s, key),
        has_key(s, key, k),
    ensures
        unique_by(s.remove(index_of(s, key, k)), key),
        !has_key(s.remove(index_of(s, key, k)), key, k),
        forall|x: T|
            #[trigger] s.remove(index_of(s, key, k)).contains(x) <==> s.contains(x) && key(x) != k,
{
    let n = index_of(s, key, k);
    let r = s.remove(n);
    lemma_remove_unique(s, key, n);
    assert forall|j: int| 0 <= j < r.len() implies key(#[trigger] r[j]) != k by {
        if j < n {
            assert(r[j] == s[j]);
        } else {
            assert(r[j] == s[j + 1]);
        }
    }
    assert forall|x: T| #[trigger] r.contains(x) <==> s.contains(x) && key(x) != k by {
        if r.contains(x) {
            let j = choose|j: int| 0 <= j < r.len() && r[j] == x;
            if j < n {
                assert(s[j] == x);
            } else {
                assert(s[j + 1] == x);
            }
        }
        if s.contains(x) && key(x) != k {
            let j = choose|j: int| 0 <= j < s.len() && s[j] == x;
            assert(j != n);
            if j < n {
                assert(r[j] == x);
            } else {
                assert(r[j - 1] == x);
            }
        }
    }
}

/// Dropping the comments whose artifact is gone keeps a comment exactly when
/// its artifact exists.
proof fn lemma_prune_comments(v: DbView)
    requires
        unique_by(v.comments, comment_id()),
    ensures
        ({
            let w = prune_comments(v);
            &&& w == DbView { comments: w.comments, ..v }
            &&& unique_by(w.comments, comment_id())
            &&& fk_comments(w)
            &&& forall|c: ArtifactCommentView|
                #[trigger] w.comments.contains(c) <==> v.comments.contains(c) && has_artifact(
                    w,
                    c.artifact_id,
                )
        }),
{
    broadcast use vstd::seq_lib::group_filter_ensures;

    let p = |c: ArtifactCommentView| has_artifact(v, c.artifact_id);
    let w = prune_comments(v);
    lemma_filter_unique(v.comments, comment_id(), p);
    assert forall|c: ArtifactCommentView| #[trigger] w.comments.contains(c) <==> v.comments.contains(
        c,
    ) && has_artifact(w, c.artifact_id) by {
        lemma_filter_contains_iff(v.comments, p, c);
    }
    assert forall|i: int| 0 <= i < w.comments.len() implies has_artifact(
        w,
        #[trigger] w.comments[i].artifact_id,
    ) by {
        v.comments.lemma_filter_pred(p, i);
    }
}

/// Dropping the artifacts whose meeting group is gone, and then the comments
/// on them, keeps a record exactly when its parent is kept.
proof fn lemma_prune_artifacts(v: DbView)
    requires
        unique_by(v.artifacts, artifact_id()),
        unique_by(v.comments, comment_id()),
    ensures
        ({
            let w = prune_artifacts(v);
            &&& w == DbView { artifacts: w.artifacts, comments: w.comments, ..v }
            &&& unique_by(w.artifacts, artifact_id())
            &&& unique_by(w.comments, comment_id())
            &&& fk_artifacts(w)
            &&& fk_comments(w)
            &&& forall|a: ArtifactView|
                #[trigger] w.artifacts.contains(a) <==> v.artifacts.contains(a) && has_group(
                    w,
                    a.meeting_group_id,
                )
            &&& forall|c: ArtifactCommentView|
                #[trigger] w.comments.contains(c) <==> v.comments.contains(c) && has_artifact(
                    w,
                    c.artifact_id,
                )
        }),
{
    broadcast use vstd::seq_lib::group_filter_ensures;

    let p = |a: ArtifactView| has_group(v, a.meeting_group_id);
    let u = DbView { artifacts: v.artifacts.filter(p), ..v };
    let w = prune_artifacts(v);
    assert(w == prune_comments(u));
    lemma_filter_unique(v.artifacts, artifact_id(), p);
    lemma_prune_comments(u);
    assert forall|a: ArtifactView| #[trigger] w.artifacts.contains(a) <==> v.artifacts.contains(a)
        && has_group(w, a.meeting_group_id) by {
        lemma_filter_contains_iff(v.artifacts, p, a);
    }
    assert forall|i: int| 0 <= i < w.artifacts.len() implies has_group(
        w,
        #[trigger] w.artifacts[i].meeting_group_id,
    ) by {
        v.artifacts.lemma_filter_pred(p, i);
    }
}

/// Dropping the meeting groups whose topic is gone, and what hangs on them,
/// keeps a record exactly when its parent is kept.
proof fn lemma_prune_groups(v: DbView)
    requires
        unique_by(v.groups, group_id()),
        unique_by(v.artifacts, artifact_id()),
        unique_by(v.comments, comment_id()),
    ensures
        ({
            let w = prune_groups(v);
            &&& w == DbView { groups: w.groups, artifacts: w.artifacts, comments: w.comments, ..v }
            &&& unique_by(w.groups, group_id())
            &&& unique_by(w.artifacts, artifact_id())
            &&& unique_by(w.comments, comment_id())
            &&& fk_groups(w)
            &&& fk_artifacts(w)
            &&& fk_comments(w)
            &&& forall|g: MeetingGroupView|
                #[trigger] w.groups.contains(g) <==> v.groups.contains(g) && has_topic(w, g.topic_id)
            &&& forall|a: ArtifactView|
                #[trigger] w.artifacts.contains(a) <==> v.artifacts.contains(a) && has_group(
                    w,
                    a.meeting_group_id,
                )
            &&& forall|c: ArtifactCommentView|
                #[trigger] w.comments.contains(c) <==> v.comments.contains(c) && has_artifact(
                    w,
                    c.artifact_id,
                )
        }),
{
    broadcast use vstd::seq_lib::group_filter_ensures;

    let p = |g: MeetingGroupView| has_topic(v, g.topic_id);
    let u = DbView { groups: v.groups.filter(p), ..v };
    let w = prune_groups(v);
    assert(w == prune_artifacts(u));
    lemma_filter_unique(v.groups, group_id(), p);
    lemma_prune_artifacts(u);
    assert forall|g: MeetingGroupView| #[trigger] w.groups.contains(g) <==> v.groups.contains(g)
        && has_topic(w, g.topic_id) by {
        lemma_filter_contains_iff(v.groups, p, g);
    }
    assert forall|i: int| 0 <= i < w.groups.len() implies has_topic(
        w,
        #[trigger] w.groups[i].topic_id,
    ) by {
        v.groups.lemma_filter_pred(p, i);
    }
}

/// Dropping the topics whose organization is gone, and what hangs on them,
/// keeps a record exactly when its parent is kept.
proof fn lemma_prune_topics(v: DbView)
    requires
        unique_by(v.topics, topic_id()),
        unique_by(v.topics, topic_key()),
        unique_by(v.groups, group_id()),
        unique_by(v.artifacts, artifact_id()),
        unique_by(v.comments, comment_id()),
    ensures
        ({
            let w = prune_topics(v);
            &&& w == DbView {
                topics: w.topics,
                groups: w.groups,
                artifacts: w.artifacts,
                comments: w.comments,
                ..v
            }
            &&& unique_by(w.topics, topic_id())
            &&& unique_by(w.topics, topic_key())
            &&& unique_by(w.groups, group_id())
            &&& unique_by(w.artifacts, artifact_id())
            &&& unique_by(w.comments, comment_id())
            &&& fk_topics(w)
            &&& fk_groups(w)
            &&& fk_artifacts(w)
            &&& fk_comments(w)
            &&& forall|t: TopicView|
                #[trigger] w.topics.contains(t) <==> v.topics.contains(t) && has_org(
                    w,
                    t.organization_id,
                )
            &&& forall|g: MeetingGroupView|
                #[trigger] w.groups.contains(g) <==> v.groups.contains(g) && has_topic(w, g.topic_id)
            &&& forall|a: ArtifactView|
                #[trigger] w.artifacts.contains(a) <==> v.artifacts.contains(a) && has_group(
                    w,
                    a.meeting_group_id,
                )
            &&& forall|c: ArtifactCommentView|
                #[trigger] w.comments.contains(c) <==> v.comments.contains(c) && has_artifact(
                    w,
                    c.artifact_id,
                )
        }),
{
    broadcast use vstd::seq_lib::group_filter_ensures;

    let p = |t: TopicView| has_org(v, t.organization_id);
    let u = DbView { topics: v.topics.filter(p), ..v };
    let w = prune_topics(v);
    assert(w == prune_groups(u));
    lemma_filter_unique(v.topics, topic_id(), p);
    lemma_filter_unique(v.topics, topic_key(), p);
    lemma_prune_groups(u);
    assert forall|t: TopicView| #[trigger] w.topics.contains(t) <==> v.topics.contains(t)
        && has_org(w, t.organization_id) by {
        lemma_filter_contains_iff(v.topics, p, t);
    }
    assert forall|i: int| 0 <= i < w.topics.len() implies has_org(
        w,
        #[trigger] w.topics[i].organization_id,
    ) by {
        v.topics.lemma_filter_pred(p, i);
    }
}

/// Deleting an organization removes it and everything beneath it, and keeps
/// everything else: afterwards the library is well formed, the organization
/// is gone, every other organization and every chat stays, and a topic,
/// meeting group, artifact or comment stays exactly when what it belongs to
/// stays.
pub proof fn law_delete_org_cascades(v: DbView, id: Seq<char>)
    requires
        db_wf(v),
        has_org(v, id),
    ensures
        ({
            let w = delete_org_spec(v, id).1;
            &&& db_wf(w)
            &&& !has_org(w, id)
            &&& w.threads == v.threads
            &&& forall|o: OrganizationView|
                #[trigger] w.orgs.contains(o) <==> v.orgs.contains(o) && o.id != id
            &&& forall|t: TopicView|
                #[trigger] w.topics.contains(t) <==> v.topics.contains(t) && has_org(
                    w,
                    t.organization_id,
                )
            &&& forall|g: MeetingGroupView|
                #[trigger] w.groups.contains(g) <==> v.groups.contains(g) && has_topic(w, g.topic_id)
            &&& forall|a: ArtifactView|
                #[trigger] w.artifacts.contains(a) <==> v.artifacts.contains(a) && has_group(
                    w,
                    a.meeting_group_id,
                )
            &&& forall|c: ArtifactCommentView|
                #[trigger] w.comments.contains(c) <==> v.comments.contains(c) && has_artifact(
                    w,
                    c.artifact_id,
                )
        }),
{
    let k = index_of(v.orgs, org_id(), id);
    lemma_remove_key(v.orgs, org_id(), id);
    lemma_remove_unique(v.orgs, org_key(), k);
    let v1 = DbView { orgs: v.orgs.remove(k), ..v };
    lemma_prune_topics(v1);
    let w = delete_org_spec(v, id).1;
    assert(w == prune_topics(v1));
    assert(forall|o: OrganizationView| #[trigger] w.orgs.contains(o) <==> v.orgs.contains(o)
        && org_id()(o) != id);
}

/// Deleting a topic removes it and everything beneath it, and keeps
/// everything else: afterwards the library is well formed, the topic is gone,
/// every organization, every other topic and every chat stays, and a meeting
/// group, artifact or comment stays exactly when what it belongs to stays.
pub proof fn law_delete_topic_cascades(v: DbView, id: Seq<char>)
    requires
        db_wf(v),
        has_topic(v, id),
    ensures
        ({
            let w = delete_topic_spec(v, id).1;
            &&& db_wf(w)
            &&& !has_topic(w, id)
            &&& w.orgs == v.orgs
            &&& w.threads == v.threads
            &&& forall|t: TopicView| #[trigger] w.topics.contains(t) <==> v.topics.contains(t) && t.id != id
            &&& forall|g: MeetingGroupView|
                #[trigger] w.groups.contains(g) <==> v.groups.contains(g) && has_topic(w, g.topic_id)
            &&& forall|a: ArtifactView|
                #[trigger] w.artifacts.contains(a) <==> v.artifacts.contains(a) && has_group(
                    w,
                    a.meeting_group_id,
                )
            &&& forall|c: ArtifactCommentView|
                #[trigger] w.comments.contains(c) <==> v.comments.contains(c) && has_artifact(
                    w,
                    c.artifact_id,
                )
        }),
{
    let k = index_of(v.topics, topic_id(), id);
    lemma_remove_key(v.topics, topic_id(), id);
    lemma_remove_unique(v.topics, topic_key(), k);
    let v1 = DbView { topics: v.topics.remove(k), ..v };
    lemma_prune_groups(v1);
    let w = delete_topic_spec(v, id).1;
    assert(w == prune_groups(v1));
    assert(forall|t: TopicView| #[trigger] w.topics.contains(t) <==> v.topics.contains(t)
        && topic_id()(t) != id);
    assert forall|i: int| 0 <= i < w.topics.len() implies has_org(
        w,
        #[trigger] w.topics[i].organization_id,
    ) by {
        assert(w.topics.contains(w.topics[i]));
        let j = choose|j: int| 0 <= j < v.topics.len() && v.topics[j] == w.topics[i];
        assert(has_org(v, v.topics[j].organization_id));
    }
}

/// Deleting a meeting group removes it, its artifacts and their comments,
/// and keeps everything else: afterwards the library is well formed, the
/// group is gone, every organization, topic, other group and chat stays, and
/// an artifact or comment stays exactly when what it belongs to stays.
pub proof fn law_delete_group_cascades(v: DbView, id: Seq<char>)
    requires
        db_wf(v),
        has_group(v, id),
    ensures
        ({
            let w = delete_group_spec(v, id).1;
            &&& db_wf(w)
            &&& !has_group(w, id)
            &&& w.orgs == v.orgs
            &&& w.topics == v.topics
            &&& w.threads == v.threads
            &&& forall|g: MeetingGroupView| #[trigger] w.groups.contains(g) <==> v.groups.contains(g) && g.id != id
            &&& forall|a: ArtifactView|
                #[trigger] w.artifacts.contains(a) <==> v.artifacts.contains(a) && a.meeting_group_id != id
            &&& forall|c: ArtifactCommentView|
                #[trigger] w.comments.contains(c) <==> v.comments.contains(c) && has_artifact(
                    w,
                    c.artifact_id,
                )
        }),
{
    let k = index_of(v.groups, group_id(), id);
    lemma_remove_key(v.groups, group_id(), id);
    let v1 = DbView { groups: v.groups.remove(k), ..v };
    lemma_prune_artifacts(v1);
    let w = delete_group_spec(v, id).1;
    assert(w == prune_artifacts(v1));
    assert(forall|g: MeetingGroupView| #[trigger] w.groups.contains(g) <==> v.groups.contains(g)
        && group_id()(g) != id);
    assert forall|i: int| 0 <= i < w.groups.len() implies has_topic(
        w,
        #[trigger] w.groups[i].topic_id,
    ) by {
        assert(w.groups.contains(w.groups[i]));
        let j = choose|j: int| 0 <= j < v.groups.len() && v.groups[j] == w.groups[i];
        assert(has_topic(v, v.groups[j].topic_id));
    }
    assert forall|a: ArtifactView| #[trigger] w.artifacts.contains(a) <==> v.artifacts.contains(a)
        && a.meeting_group_id != id by {
        if v.artifacts.contains(a) {
            let j = choose|j: int| 0 <= j < v.artifacts.len() && v.artifacts[j] == a;
            assert(has_group(v, v.artifacts[j].meeting_group_id));
            let g = choose|g: int| 0 <= g < v.groups.len() && group_id()(v.groups[g]) == a.meeting_group_id;
            if a.meeting_group_id != id {
                assert(v.groups.contains(v.groups[g]));
                assert(w.groups.contains(v.groups[g]));
                let m = choose|m: int| 0 <= m < w.groups.len() && w.groups[m] == v.groups[g];
                assert(group_id()(w.groups[m]) == a.meeting_group_id);
            }
        }
    }
}

/// Deleting an artifact removes it and its comments, and keeps everything
/// else: afterwards the library is well formed, the artifact is gone, every
/// organization, topic, meeting group, other artifact and chat stays, and a
/// comment stays exactly when it is not on that artifact.
pub proof fn law_delete_artifact_cascades(v: DbView, id: Seq<char>)
    requires
        db_wf(v),
        has_artifact(v, id),
    ensures
        ({
            let w = delete_artifact_spec(v, id).1;
            &&& db_wf(w)
            &&& !has_artifact(w, id)
            &&& w.orgs == v.orgs
            &&& w.topics == v.topics
            &&& w.groups == v.groups
            &&& w.threads == v.threads
            &&& forall|a: ArtifactView| #[trigger] w.artifacts.contains(a) <==> v.artifacts.contains(a) && a.id != id
            &&& forall|c: ArtifactCommentView|
                #[trigger] w.comments.contains(c) <==> v.comments.contains(c) && c.artifact_id != id
        }),
{
    let k = index_of(v.artifacts, artifact_id(), id);
    lemma_remove_key(v.artifacts, artifact_id(), id);
    let v1 = DbView { artifacts: v.artifacts.remove(k), ..v };
    lemma_prune_comments(v1);
    let w = delete_artifact_spec(v, id).1;
    assert(w == prune_comments(v1));
    assert(forall|a: ArtifactView| #[trigger] w.artifacts.contains(a) <==> v.artifacts.contains(a)
        && artifact_id()(a) != id);
    assert forall|i: int| 0 <= i < w.artifacts.len() implies has_group(
        w,
        #[trigger] w.artifacts[i].meeting_group_id,
    ) by {
        assert(w.artifacts.contains(w.artifacts[i]));
        let j = choose|j: int| 0 <= j < v.artifacts.len() && v.artifacts[j] == w.artifacts[i];
        assert(has_group(v, v.artifacts[j].meeting_group_id));
    }
    assert forall|c: ArtifactCommentView| #[trigger] w.comments.contains(c) <==> v.comments.contains(c)
        && c.artifact_id != id by {
        if v.comments.contains(c) {
            let j = choose|j: int| 0 <= j < v.comments.len() && v.comments[j] == c;
            assert(has_artifact(v, v.comments[j].artifact_id));
            let g = choose|g: int| 0 <= g < v.artifacts.len() && artifact_id()(v.artifacts[g]) == c.artifact_id;
            if c.artifact_id != id {
                assert(v.artifacts.contains(v.artifacts[g]));
                assert(w.artifacts.contains(v.artifacts[g]));
                let m = choose|m: int| 0 <= m < w.artifacts.len() && w.artifacts[m] == v.artifacts[g];
                assert(artifact_id()(w.artifacts[m]) == c.artifact_id);
            }
        }
    }
}

/// A refused change leaves the library as it was: whenever creating,
/// renaming or deleting an organization, topic, meeting group, artifact or
/// comment, or saving a chat, answers with an error, the library after it is
/// the library before it.
pub proof fn law_refusals_keep_the_library(v: DbView)
    ensures
        forall|name: Seq<char>, id: Seq<char>, now: Seq<char>|
            (#[trigger] create_org_spec(v, name, id, now)).0 is Err ==> create_org_spec(
                v,
                name,
                id,
                now,
            ).1 == v,
        forall|id: Seq<char>, name: Seq<char>|
            (#[trigger] rename_org_spec(v, id, name)).0 is Err ==> rename_org_spec(v, id, name).1
                == v,
        forall|id: Seq<char>|
            (#[trigger] delete_org_spec(v, id)).0 is Err ==> delete_org_spec(v, id).1 == v,
        forall|org: Seq<char>, name: Seq<char>, id: Seq<char>, now: Seq<char>|
            (#[trigger] create_topic_spec(v, org, name, id, now)).0 is Err ==> create_topic_spec(
                v,
                org,
                name,
                id,
                now,
            ).1 == v,
        forall|id: Seq<char>, name: Seq<char>|
            (#[trigger] rename_topic_spec(v, id, name)).0 is Err ==> rename_topic_spec(
                v,
                id,
                name,
            ).1 == v,
        forall|id: Seq<char>|
            (#[trigger] delete_topic_spec(v, id)).0 is Err ==> delete_topic_spec(v, id).1 == v,
        forall|
            topic: Seq<char>,
            name: Seq<char>,
            occurred_at: Option<Seq<char>>,
            id: Seq<char>,
            now: Seq<char>,
        |
            (#[trigger] create_group_spec(v, topic, name, occurred_at, id, now)).0 is Err
                ==> create_group_spec(v, topic, name, occurred_at, id, now).1 == v,
        forall|id: Seq<char>, name: Seq<char>|
            (#[trigger] rename_group_spec(v, id, name)).0 is Err ==> rename_group_spec(
                v,
                id,
                name,
            ).1 == v,
        forall|id: Seq<char>|
            (#[trigger] delete_group_spec(v, id)).0 is Err ==> delete_group_spec(v, id).1 == v,
        forall|a: ArtifactView|
            (#[trigger] insert_artifact_spec(v, a)).0 is Err ==> insert_artifact_spec(v, a).1 == v,
        forall|id: Seq<char>, title: Seq<char>|
            (#[trigger] rename_artifact_spec(v, id, title)).0 is Err ==> rename_artifact_spec(
                v,
                id,
                title,
            ).1 == v,
        forall|id: Seq<char>|
            (#[trigger] delete_artifact_spec(v, id)).0 is Err ==> delete_artifact_spec(v, id).1
                == v,
        forall|
            artifact: Seq<char>,
            time_ms: i64,
            body: Seq<char>,
            id: Seq<char>,
            now: Seq<char>,
        |
            (#[trigger] create_comment_spec(v, artifact, time_ms, body, id, now)).0 is Err
                ==> create_comment_spec(v, artifact, time_ms, body, id, now).1 == v,
        forall|id: Seq<char>, body: Seq<char>|
            (#[trigger] update_comment_spec(v, id, body)).0 is Err ==> update_comment_spec(
                v,
                id,
                body,
            ).1 == v,
        forall|id: Seq<char>|
            (#[trigger] delete_comment_spec(v, id)).0 is Err ==> delete_comment_spec(v, id).1
                == v,
        forall|
            scope_type: Seq<char>,
            scope_id: Seq<char>,
            messages: Seq<ChatTurnView>,
            id: Seq<char>,
            now: Seq<char>,
        |
            (#[trigger] set_chat_spec(v, scope_type, scope_id, messages, id, now)).0 is Err
                ==> set_chat_spec(v, scope_type, scope_id, messages, id, now).1 == v,
{
}

/// The ordering key of a listed artifact.
pub open spec fn created_keys(s: Seq<ArtifactView>) -> Seq<KeyView> {
    s.map_values(|a: ArtifactView| created_key(a))
}

/// A meeting group's artifacts are listed oldest first: the list holds the
/// group's artifacts, all of them and only them, and no artifact is listed
/// after a newer one.
pub proof fn law_list_artifacts_sorted(v: DbView, group: Seq<char>)
    ensures
        list_artifacts_spec(v, group).len() == v.artifacts.filter(
            |a: ArtifactView| a.meeting_group_id == group,
        ).len(),
        forall|i: int|
            0 <= i < list_artifacts_spec(v, group).len() ==> (#[trigger] list_artifacts_spec(
                v,
                group,
            )[i]).meeting_group_id == group,
        forall|i: int, j: int|
            0 <= i < j < list_artifacts_spec(v, group).len() ==> !text_lt(
                (#[trigger] list_artifacts_spec(v, group)[j]).created_at,
                (#[trigger] list_artifacts_spec(v, group)[i]).created_at,
            ),
        forall|i: int|
            0 <= i < list_artifacts_spec(v, group).len() ==> v.artifacts.contains(
                #[trigger] list_artifacts_spec(v, group)[i],
            ),
        forall|a: ArtifactView|
            #![trigger v.artifacts.contains(a)]
            v.artifacts.contains(a) && a.meeting_group_id == group ==> list_artifacts_spec(
                v,
                group,
            ).contains(a),
{
    broadcast use vstd::seq_lib::group_filter_ensures;

    let items = v.artifacts.filter(|a: ArtifactView| a.meeting_group_id == group);
    let keys = created_keys(items);
    let n = keys.len() as int;
    lemma_sort_order(keys, false, n);
    let o = sort_order(keys, false, n);
    let l = list_artifacts_spec(v, group);
    assert(l == o.map_values(|i: int| items[i]));
    assert forall|i: int| 0 <= i < l.len() implies (#[trigger] l[i]).meeting_group_id == group by {
        assert(0 <= o[i] < n);
        assert(items.contains(items[o[i]]));
    }
    assert forall|i: int, j: int| 0 <= i < j < l.len() implies !text_lt(
        (#[trigger] l[j]).created_at,
        (#[trigger] l[i]).created_at,
    ) by {
        assert(!crate::order::precedes(keys[o[j]], keys[o[i]], false));
    }
    let p = |a: ArtifactView| a.meeting_group_id == group;
    let f = |a: ArtifactView| created_key(a);
    assert(keys =~= items.map_values(f));
    lemma_sorted_by(items, f, false);
    assert forall|i: int| 0 <= i < l.len() implies v.artifacts.contains(#[trigger] l[i]) by {
        lemma_filter_contains_iff(v.artifacts, p, l[i]);
    }
    assert forall|a: ArtifactView| #![trigger v.artifacts.contains(a)]
        v.artifacts.contains(a) && a.meeting_group_id == group implies l.contains(a) by {
        lemma_filter_contains_iff(v.artifacts, p, a);
        let k = choose|k: int| 0 <= k < items.len() && items[k] == a;
        assert(l.contains(items[k]));
    }
}

/// The library tree lists every organization, as many as there are, by name
/// ignoring ASCII case: no organization comes before one whose lowercased
/// name comes earlier.
pub proof fn law_library_orgs_by_name(v: DbView)
    ensures
        library_spec(v).len() == v.orgs.len(),
        forall|i: int|
            0 <= i < library_spec(v).len() ==> v.orgs.contains(
                (#[trigger] library_spec(v)[i]).organization,
            ),
        forall|i: int, j: int|
            0 <= i < j < library_spec(v).len() ==> !text_lt(
                ascii_lower_seq((#[trigger] library_spec(v)[j]).organization.name),
                ascii_lower_seq((#[trigger] library_spec(v)[i]).organization.name),
            ),
        forall|k: int|
            0 <= k < v.orgs.len() ==> exists|i: int|
                0 <= i < library_spec(v).len() && (#[trigger] library_spec(v)[i]).organization
                    == #[trigger] v.orgs[k],
{
    let f = |o: OrganizationView| name_key(o.name);
    let os = sorted_by(v.orgs, v.orgs.map_values(f), false);
    lemma_sorted_by(v.orgs, f, false);
    let l = library_spec(v);
    assert(l.len() == os.len());
    assert forall|i: int| 0 <= i < l.len() implies v.orgs.contains((#[trigger] l[i]).organization) by {
        assert(l[i].organization == os[i]);
    }
    assert forall|i: int, j: int| 0 <= i < j < l.len() implies !text_lt(
        ascii_lower_seq((#[trigger] l[j]).organization.name),
        ascii_lower_seq((#[trigger] l[i]).organization.name),
    ) by {
        assert(l[i].organization == os[i] && l[j].organization == os[j]);
        assert(!precedes(f(os[j]), f(os[i]), false));
    }
    assert forall|k: int| 0 <= k < v.orgs.len() implies exists|i: int|
        0 <= i < l.len() && (#[trigger] l[i]).organization == #[trigger] v.orgs[k] by {
        assert(os.contains(v.orgs[k]));
        let i = choose|i: int| 0 <= i < os.len() && os[i] == v.orgs[k];
        assert(l[i].organization == os[i]);
    }
}

/// Under each organization of the library tree come its topics, all of them
/// and as many as it has, by name ignoring ASCII case.
pub proof fn law_library_topics_by_name(v: DbView, a: int)
    requires
        0 <= a < library_spec(v).len(),
    ensures
        ({
            let o = library_spec(v)[a];
            let l = o.topics;
            &&& l.len() == v.topics.filter(
                |t: TopicView| t.organization_id == o.organization.id,
            ).len()
            &&& forall|i: int|
                0 <= i < l.len() ==> v.topics.contains((#[trigger] l[i]).topic)
                    && l[i].topic.organization_id == o.organization.id
            &&& forall|i: int, j: int|
                0 <= i < j < l.len() ==> !text_lt(
                    ascii_lower_seq((#[trigger] l[j]).topic.name),
                    ascii_lower_seq((#[trigger] l[i]).topic.name),
                )
            &&& forall|t: TopicView|
                #![trigger v.topics.contains(t)]
                v.topics.contains(t) && t.organization_id == o.organization.id ==> exists|i: int|
                    0 <= i < l.len() && (#[trigger] l[i]).topic == t
        }),
{
    let fo = |o: OrganizationView| name_key(o.name);
    let os = sorted_by(v.orgs, v.orgs.map_values(fo), false);
    let org = os[a];
    let o = library_spec(v)[a];
    assert(o.organization == org);
    assert(o.topics == org_topics_spec(v, org.id));
    let items = v.topics.filter(|t: TopicView| t.organization_id == org.id);
    let f = |t: TopicView| name_key(t.name);
    assert(items.map_values(|t: TopicView| name_key(t.name)) =~= items.map_values(f));
    let ts = sorted_by(items, items.map_values(f), false);
    lemma_sorted_by(items, f, false);
    let l = o.topics;
    assert(l.len() == ts.len());
    assert forall|i: int| 0 <= i < l.len() implies v.topics.contains((#[trigger] l[i]).topic)
        && l[i].topic.organization_id == org.id by {
        assert(l[i].topic == ts[i]);
        lemma_filter_contains_iff(v.topics, |t: TopicView| t.organization_id == org.id, ts[i]);
    }
    assert forall|i: int, j: int| 0 <= i < j < l.len() implies !text_lt(
        ascii_lower_seq((#[trigger] l[j]).topic.name),
        ascii_lower_seq((#[trigger] l[i]).topic.name),
    ) by {
        assert(l[i].topic == ts[i] && l[j].topic == ts[j]);
        assert(!precedes(f(ts[j]), f(ts[i]), false));
    }
    assert forall|tp: TopicView| #![trigger v.topics.contains(tp)]
        v.topics.contains(tp) && tp.organization_id == org.id implies exists|i: int|
        0 <= i < l.len() && (#[trigger] l[i]).topic == tp by {
        lemma_filter_contains_iff(v.topics, |t: TopicView| t.organization_id == org.id, tp);
        let k = choose|k: int| 0 <= k < items.len() && items[k] == tp;
        assert(ts.contains(items[k]));
        let i = choose|i: int| 0 <= i < ts.len() && ts[i] == tp;
        assert(l[i].topic == ts[i]);
    }
}

/// Under each topic of the library tree come its meeting groups, all of them
/// and as many as it has, newest meeting first: no group comes
/// before one that took place later, and of two that took place at the same
/// time, the one created later comes first.
pub proof fn law_library_meetings_newest_first(v: DbView, a: int, b: int)
    requires
        0 <= a < library_spec(v).len(),
        0 <= b < library_spec(v)[a].topics.len(),
    ensures
        ({
            let t = library_spec(v)[a].topics[b];
            let l = t.groups;
            &&& l.len() == v.groups.filter(|g: MeetingGroupView| g.topic_id == t.topic.id).len()
            &&& forall|i: int|
                0 <= i < l.len() ==> v.groups.contains(#[trigger] l[i]) && l[i].topic_id
                    == t.topic.id
            &&& forall|i: int, j: int|
                0 <= i < j < l.len() ==> !text_lt(
                    (#[trigger] l[i]).occurred_at,
                    (#[trigger] l[j]).occurred_at,
                )
            &&& forall|i: int, j: int|
                0 <= i < j < l.len() && (#[trigger] l[i]).occurred_at == (#[trigger] l[j]).occurred_at
                    ==> !text_lt(l[i].created_at, l[j].created_at)
            &&& forall|g: MeetingGroupView|
                #![trigger v.groups.contains(g)]
                v.groups.contains(g) && g.topic_id == t.topic.id ==> l.contains(g)
        }),
{
    let fo = |o: OrganizationView| name_key(o.name);
    let os = sorted_by(v.orgs, v.orgs.map_values(fo), false);
    let org = os[a];
    let o = library_spec(v)[a];
    assert(o.topics == org_topics_spec(v, org.id));
    let titems = v.topics.filter(|t: TopicView| t.organization_id == org.id);
    let tss = sorted_by(titems, titems.map_values(|t: TopicView| name_key(t.name)), false);
    let topic = tss[b];
    let t = o.topics[b];
    assert(t.topic == topic);
    assert(t.groups == topic_groups_spec(v, topic.id));
    let items = v.groups.filter(|g: MeetingGroupView| g.topic_id == topic.id);
    let f = |g: MeetingGroupView| group_order_key(g);
    assert(items.map_values(|g: MeetingGroupView| group_order_key(g)) =~= items.map_values(f));
    let gs = sorted_by(items, items.map_values(f), true);
    lemma_sorted_by(items, f, true);
    let l = t.groups;
    assert(l == gs);
    assert forall|i: int| 0 <= i < l.len() implies v.groups.contains(#[trigger] l[i])
        && l[i].topic_id == topic.id by {
        lemma_filter_contains_iff(v.groups, |g: MeetingGroupView| g.topic_id == topic.id, l[i]);
    }
    assert forall|i: int, j: int| 0 <= i < j < l.len() implies !text_lt(
        (#[trigger] l[i]).occurred_at,
        (#[trigger] l[j]).occurred_at,
    ) && (l[i].occurred_at == l[j].occurred_at ==> !text_lt(l[i].created_at, l[j].created_at)) by {
        assert(!precedes(f(l[j]), f(l[i]), true));
    }
    assert forall|g: MeetingGroupView| #![trigger v.groups.contains(g)]
        v.groups.contains(g) && g.topic_id == topic.id implies l.contains(g) by {
        lemma_filter_contains_iff(v.groups, |g: MeetingGroupView| g.topic_id == topic.id, g);
        let k = choose|k: int| 0 <= k < items.len() && items[k] == g;
        assert(gs.contains(items[k]));
    }
}

/// An artifact's comments are listed in playback order: all of them and only
/// them, no comment before one at an earlier moment, and of two at the same
/// moment the one written first comes first.
pub proof fn law_comments_in_playback_order(v: DbView, artifact: Seq<char>)
    ensures
        ({
            let l = list_comments_spec(v, artifact);
            &&& l.len() == v.comments.filter(
                |c: ArtifactCommentView| c.artifact_id == artifact,
            ).len()
            &&& forall|i: int|
                0 <= i < l.len() ==> v.comments.contains(#[trigger] l[i]) && l[i].artifact_id
                    == artifact
            &&& forall|c: ArtifactCommentView|
                #![trigger v.comments.contains(c)]
                v.comments.contains(c) && c.artifact_id == artifact ==> l.contains(c)
            &&& forall|i: int, j: int|
                0 <= i < j < l.len() ==> (#[trigger] l[i]).time_ms <= (#[trigger] l[j]).time_ms
            &&& forall|i: int, j: int|
                0 <= i < j < l.len() && (#[trigger] l[i]).time_ms == (#[trigger] l[j]).time_ms
                    ==> !text_lt(l[j].created_at, l[i].created_at)
        }),
{
    let p = |c: ArtifactCommentView| c.artifact_id == artifact;
    let items = v.comments.filter(p);
    let f = |c: ArtifactCommentView| comment_key(c);
    assert(items.map_values(|c: ArtifactCommentView| comment_key(c)) =~= items.map_values(f));
    let l = list_comments_spec(v, artifact);
    lemma_sorted_by(items, f, false);
    assert forall|i: int| 0 <= i < l.len() implies v.comments.contains(#[trigger] l[i])
        && l[i].artifact_id == artifact by {
        lemma_filter_contains_iff(v.comments, p, l[i]);
    }
    assert forall|c: ArtifactCommentView| #![trigger v.comments.contains(c)]
        v.comments.contains(c) && c.artifact_id == artifact implies l.contains(c) by {
        lemma_filter_contains_iff(v.comments, p, c);
        let k = choose|k: int| 0 <= k < items.len() && items[k] == c;
        assert(l.contains(items[k]));
    }
    assert forall|i: int, j: int| 0 <= i < j < l.len() implies (#[trigger] l[i]).time_ms <= (
    #[trigger] l[j]).time_ms && (l[i].time_ms == l[j].time_ms ==> !text_lt(
        l[j].created_at,
        l[i].created_at,
    )) by {
        assert(!precedes(f(l[j]), f(l[i]), false));
        lemma_text_lt_irrefl_empty();
    }
}

/// The empty text does not come before itself.
proof fn lemma_text_lt_irrefl_empty()
    ensures
        !text_lt(Seq::<char>::empty(), Seq::<char>::empty()),
{
    lemma_key_lt_irrefl((Seq::<char>::empty(), 0i64, Seq::<char>::empty()));
}

/// The ready artifacts of a chat scope are all and only the ready artifacts
/// in it, newest first: in a meeting group by when they were added; in a
/// topic or an organization by the date of their meeting, and within one
/// date by when they were added.
pub proof fn law_scope_newest_first(v: DbView, scope_type: Seq<char>, scope_id: Seq<char>)
    requires
        ready_in_scope_spec(v, scope_type, scope_id) is Ok,
    ensures
        ({
            let l = ready_in_scope_spec(v, scope_type, scope_id)->Ok_0;
            &&& forall|i: int|
                0 <= i < l.len() ==> v.artifacts.contains(#[trigger] l[i]) && l[i].status
                    == "ready"@ && in_scope(v, scope_type, scope_id, l[i])
            &&& forall|a: ArtifactView|
                #![trigger v.artifacts.contains(a)]
                v.artifacts.contains(a) && a.status == "ready"@ && in_scope(
                    v,
                    scope_type,
                    scope_id,
                    a,
                ) ==> l.contains(a)
            &&& scope_type == "meeting_group"@ ==> forall|i: int, j: int|
                0 <= i < j < l.len() ==> !text_lt(
                    (#[trigger] l[i]).created_at,
                    (#[trigger] l[j]).created_at,
                )
            &&& (scope_type == "topic"@ || scope_type == "organization"@) ==> forall|i: int, j: int|
                0 <= i < j < l.len() ==> !text_lt(
                    group_of(v, #[trigger] l[i]).occurred_at,
                    group_of(v, #[trigger] l[j]).occurred_at,
                ) && (group_of(v, l[i]).occurred_at == group_of(v, l[j]).occurred_at ==> !text_lt(
                    l[i].created_at,
                    l[j].created_at,
                ))
        }),
{
    reveal_strlit("artifact");
    reveal_strlit("meeting_group");
    reveal_strlit("topic");
    reveal_strlit("organization");
    assert("meeting_group"@[0] != "artifact"@[0]);
    assert("topic"@[0] != "artifact"@[0] && "topic"@[0] != "meeting_group"@[0]);
    assert("organization"@[0] != "artifact"@[0] && "organization"@[0] != "meeting_group"@[0]);
    let p = |a: ArtifactView| is_ready(a) && in_scope(v, scope_type, scope_id, a);
    let items = v.artifacts.filter(p);
    let f = |a: ArtifactView| scope_key(v, scope_type, a);
    assert(items.map_values(|a: ArtifactView| scope_key(v, scope_type, a)) =~= items.map_values(f));
    let l = ready_in_scope_spec(v, scope_type, scope_id)->Ok_0;
    assert(l == sorted_by(items, items.map_values(f), true));
    lemma_sorted_by(items, f, true);
    assert forall|i: int| 0 <= i < l.len() implies v.artifacts.contains(#[trigger] l[i])
        && l[i].status == "ready"@ && in_scope(v, scope_type, scope_id, l[i]) by {
        lemma_filter_contains_iff(v.artifacts, p, l[i]);
    }
    assert forall|a: ArtifactView| #![trigger v.artifacts.contains(a)]
        v.artifacts.contains(a) && a.status == "ready"@ && in_scope(v, scope_type, scope_id, a)
        implies l.contains(a) by {
        lemma_filter_contains_iff(v.artifacts, p, a);
        let k = choose|k: int| 0 <= k < items.len() && items[k] == a;
        assert(l.contains(items[k]));
    }
    if scope_type == "meeting_group"@ {
        assert forall|i: int, j: int| 0 <= i < j < l.len() implies !text_lt(
            (#[trigger] l[i]).created_at,
            (#[trigger] l[j]).created_at,
        ) by {
            assert(!precedes(f(l[j]), f(l[i]), true));
            lemma_text_lt_irrefl_empty();
        }
    }
    if scope_type == "topic"@ || scope_type == "organization"@ {
        assert forall|i: int, j: int| 0 <= i < j < l.len() implies !text_lt(
            group_of(v, #[trigger] l[i]).occurred_at,
            group_of(v, #[trigger] l[j]).occurred_at,
        ) && (group_of(v, l[i]).occurred_at == group_of(v, l[j]).occurred_at ==> !text_lt(
            l[i].created_at,
            l[j].created_at,
        )) by {
            assert(!precedes(f(l[j]), f(l[i]), true));
        }
    }
}

/// A comment's moment lies in its recording: never below zero, and never past
/// the end when the length is known.
pub proof fn law_comment_time_in_recording(
    v: DbView,
    artifact: Seq<char>,
    time_ms: i64,
    body: Seq<char>,
    id: Seq<char>,
    now: Seq<char>,
)
    requires
        create_comment_spec(v, artifact, time_ms, body, id, now).0 is Ok,
    ensures
        ({
            let c = create_comment_spec(v, artifact, time_ms, body, id, now).0->Ok_0;
            let d = artifact_of(v, artifact).duration_ms;
            &&& 0 <= c.time_ms
            &&& d > 0 ==> c.time_ms <= d
            &&& (0 <= time_ms && (d <= 0 || time_ms <= d)) ==> c.time_ms == time_ms
        }),
{
}

/// The artifacts after the start-up sweep.
pub open spec fn swept(s: Seq<ArtifactView>) -> Seq<ArtifactView> {
    s.map_values(|a: ArtifactView| after_interrupt(a))
}

/// After the start-up sweep no artifact is left queued, transcribing or
/// recording, and the others are unchanged.
pub proof fn law_sweep_leaves_nothing_running(s: Seq<ArtifactView>)
    ensures
        forall|i: int| 0 <= i < s.len() ==> !interrupted(#[trigger] swept(s)[i]),
        forall|i: int| 0 <= i < s.len() && !interrupted(s[i]) ==> #[trigger] swept(s)[i] == s[i],
{
    reveal_strlit("failed");
    reveal_strlit("queued");
    reveal_strlit("transcribing");
    reveal_strlit("recording");
    assert("failed"@[0] != "queued"@[0]);
    assert("failed"@.len() != "transcribing"@.len());
    assert("failed"@ != "recording"@);
}

/// Renaming an organization keeps everything below it attached.
pub proof fn law_rename_keeps_children(v: DbView, id: Seq<char>, name: Seq<char>)
    ensures
        rename_org_spec(v, id, name).1.topics == v.topics,
        rename_org_spec(v, id, name).1.groups == v.groups,
        rename_org_spec(v, id, name).1.artifacts == v.artifacts,
        rename_org_spec(v, id, name).1.comments == v.comments,
        rename_org_spec(v, id, name).0 is Ok ==> rename_org_spec(v, id, name).0->Ok_0.id == id,
{
}

} // verus!

//! Asking Bella about the transcripts of a scope: which ready transcripts fit
//! in the context window, what the model is sent, and the saved thread.
use vstd::prelude::*;

use crate::db::{
    chat_spec, ready_in_scope_spec, count_in_scope_spec, set_chat_spec, views_of, Artifact,
    ArtifactView, Db, Duplicate,
};
use crate::error::{app_error, AppError, AppResult};
use crate::ids::is_hyphenated_uuid;
use crate::llm::{turns_view, ChatTurn, ChatTurnView};
use crate::text::{decimal, from_chars, is_blank, push_all, push_decimal, to_chars, trim, trim_chars};

verus! {

broadcast use vstd::string::group_string_axioms;

/// How many bytes of titles and transcripts one question may carry.
pub const CHAR_BUDGET: usize = 110_000;

/// What Bella is told before every conversation.
pub const SYSTEM_PROMPT: &'static str = "You are Bella, a meeting analysis assistant. Be clear, direct, and concise. Avoid fluffy language.

Use only the provided transcripts as the source of truth. Never invent people, dates, or decisions.

When quoting, use a markdown blockquote.
When pointing at a moment, cite a discrete timestamp like [00:17] or [1:02:03] and the artifact title.
Never output time ranges.

If the transcripts do not contain the answer, say so and suggest a wider or narrower scope.
Do not say “based on the transcript”. Just answer.

If someone asks about your father, this is the one exception to using only the transcripts: answer gently and in one short sentence that he is Zach, a software engineer and technology executive who lives in North Georgia. Do not mention him unless asked.";

/// A file of a chat scope and whether it fits in the question.
pub struct ScopeFile {
    pub id: String,
    pub title: String,
    pub meeting_group_id: String,
    pub included: bool,
}

pub type ScopeFileView = (Seq<char>, Seq<char>, Seq<char>, bool);

impl View for ScopeFile {
    type V = ScopeFileView;

    open spec fn view(&self) -> ScopeFileView {
        (self.id@, self.title@, self.meeting_group_id@, self.included)
    }
}

/// What a chat scope holds and what a question about it would use.
pub struct ScopePreview {
    pub ready_count: i64,
    pub total_count: i64,
    pub used_count: i64,
    pub omitted_count: i64,
    pub files: Vec<ScopeFile>,
}

pub struct ScopePreviewView {
    pub ready_count: i64,
    pub total_count: i64,
    pub used_count: i64,
    pub omitted_count: i64,
    pub files: Seq<ScopeFileView>,
}

impl View for ScopePreview {
    type V = ScopePreviewView;

    open spec fn view(&self) -> ScopePreviewView {
        ScopePreviewView {
            ready_count: self.ready_count,
            total_count: self.total_count,
            used_count: self.used_count,
            omitted_count: self.omitted_count,
            files: views_of(self.files@),
        }
    }
}

/// The turns of a scope's conversation.
pub struct ChatThreadView {
    pub messages: Vec<ChatTurn>,
}

/// A chat scope as the interface names it.
pub struct ScopeArgs {
    pub scope_type: String,
    pub scope_id: String,
}

// ---------------------------------------------------------------------------
// Packing transcripts into the budget
// ---------------------------------------------------------------------------

/// The bytes of a `String`'s UTF-8 form, as `str::len` reports them.
pub open spec fn byte_len(s: Seq<char>) -> nat {
    (vstd::utf8::encode_utf8(s).len() as usize) as nat
}

/// What a file costs in the question: its transcript, its title and a heading.
pub open spec fn pack_cost(a: ArtifactView) -> nat {
    byte_len(a.transcript) + byte_len(a.title) + 40
}

/// The cost of the files `a..b`.
pub open spec fn cost_sum(files: Seq<ArtifactView>, a: int, b: int) -> nat
    decreases b - a,
{
    if b <= a {
        0
    } else {
        cost_sum(files, a, b - 1) + pack_cost(files[b - 1])
    }
}

/// How many files, from `i` on, are taken when `used` is spent already: each
/// is taken while it fits, and the first is always taken.
pub open spec fn pack_count_from(files: Seq<ArtifactView>, i: int, used: nat) -> int
    decreases files.len() - i,
{
    if i >= files.len() {
        i
    } else if i > 0 && used + pack_cost(files[i]) > CHAR_BUDGET {
        i
    } else {
        pack_count_from(files, i + 1, used + pack_cost(files[i]))
    }
}

/// How many of the files, from the first, are put in the question.
pub open spec fn pack_count(files: Seq<ArtifactView>) -> int {
    pack_count_from(files, 0, 0)
}

/// Splits ready files, newest first, into those that fit in the budget and
/// those left out: files are taken in order while they fit; the first is
/// always taken.
pub fn pack_files(files: &[Artifact]) -> (r: (Vec<Artifact>, Vec<Artifact>))
    ensures
        views_of(r.0@) == views_of(files@).take(pack_count(views_of(files@))),
        views_of(r.1@) == views_of(files@).skip(pack_count(views_of(files@))),
{
    let ghost fv = views_of(files@);
    let mut chars: u128 = 0;
    let mut n: usize = 0;
    while n < files.len()
        invariant_except_break
            0 <= n <= files@.len(),
            fv == views_of(files@),
            pack_count(fv) == pack_count_from(fv, n as int, chars as nat),
            n == 0 ==> chars == 0,
            chars <= 2 * (usize::MAX as u128) + 40 + (CHAR_BUDGET as u128),
        ensures
            0 <= n <= files@.len(),
            pack_count(fv) == n,
        decreases files.len() - n,
    {
        let next: u128 = files[n].transcript.as_str().len() as u128
            + files[n].title.as_str().len() as u128 + 40;
        assert(next == pack_cost(fv[n as int]));
        if n > 0 && chars + next > CHAR_BUDGET as u128 {
            break;
        }
        chars = chars + next;
        n = n + 1;
    }
    let mut used: Vec<Artifact> = Vec::new();
    let mut omitted: Vec<Artifact> = Vec::new();
    let mut i: usize = 0;
    while i < files.len()
        invariant
            0 <= n <= files@.len(),
            0 <= i <= files@.len(),
            fv == views_of(files@),
            i <= n ==> views_of(used@) == fv.take(i as int) && omitted@.len() == 0,
            i > n ==> views_of(used@) == fv.take(n as int) && views_of(omitted@) == fv.subrange(
                n as int,
                i as int,
            ),
        decreases files.len() - i,
    {
        let a = files[i].duplicate();
        if i < n {
            let ghost before = used@;
            used.push(a);
            assert(views_of(used@) == views_of(before).push(a@));
            assert(fv.take(i + 1) == fv.take(i as int).push(fv[i as int]));
        } else {
            let ghost before = omitted@;
            omitted.push(a);
            assert(views_of(omitted@) == views_of(before).push(a@));
            assert(fv.subrange(n as int, i + 1) == fv.subrange(n as int, i as int).push(
                fv[i as int],
            ));
        }
        i = i + 1;
    }
    proof {
        if files@.len() <= n {
            assert(fv.skip(n as int) =~= Seq::<ArtifactView>::empty());
            assert(views_of(omitted@) =~= Seq::<ArtifactView>::empty());
        } else {
            assert(fv.skip(n as int) == fv.subrange(n as int, files@.len() as int));
        }
    }
    (used, omitted)
}

proof fn lemma_pack_from(files: Seq<ArtifactView>, i: int, used: nat)
    requires
        0 <= i <= files.len(),
        used == cost_sum(files, 0, i),
        i >= 1 ==> used <= CHAR_BUDGET || i == 1,
    ensures
        i <= pack_count_from(files, i, used) <= files.len(),
        cost_sum(files, 0, pack_count_from(files, i, used)) <= CHAR_BUDGET || pack_count_from(
            files,
            i,
            used,
        ) <= 1,
        pack_count_from(files, i, used) < files.len() ==> pack_count_from(files, i, used) >= 1
            && cost_sum(files, 0, pack_count_from(files, i, used)) + pack_cost(
            files[pack_count_from(files, i, used)],
        ) > CHAR_BUDGET,
    decreases files.len() - i,
{
    if i < files.len() && !(i > 0 && used + pack_cost(files[i]) > CHAR_BUDGET) {
        lemma_pack_from(files, i + 1, used + pack_cost(files[i]));
    }
}

/// The files put in a question are a prefix of the scope's ready files; at
/// least one is put in when there is any; together they fit in the budget
/// unless a single file alone exceeds it; and a file is left out only when it
/// would not have fit.
pub proof fn law_pack_fits_budget(files: Seq<ArtifactView>)
    ensures
        0 <= pack_count(files) <= files.len(),
        files.len() > 0 ==> pack_count(files) >= 1,
        cost_sum(files, 0, pack_count(files)) <= CHAR_BUDGET || pack_count(files) == 1,
        pack_count(files) < files.len() ==> cost_sum(files, 0, pack_count(files)) + pack_cost(
            files[pack_count(files)],
        ) > CHAR_BUDGET,
{
    lemma_pack_from(files, 0, 0);
    if files.len() > 0 {
        assert(pack_count(files) == pack_count_from(files, 1, pack_cost(files[0])));
        assert(cost_sum(files, 0, 0) == 0);
        assert(cost_sum(files, 0, 1) == pack_cost(files[0]));
        lemma_pack_from(files, 1, pack_cost(files[0]));
    }
}

// ---------------------------------------------------------------------------
// Scope preview
// ---------------------------------------------------------------------------

/// How a file of the scope is shown.
pub open spec fn scope_file_view(a: ArtifactView, included: bool) -> ScopeFileView {
    (a.id, a.title, a.meeting_group_id, included)
}

pub fn to_scope_file(file: &Artifact, included: bool) -> (f: ScopeFile)
    ensures
        f@ == scope_file_view(file@, included),
{
    ScopeFile {
        id: file.id.clone(),
        title: file.title.clone(),
        meeting_group_id: file.meeting_group_id.clone(),
        included,
    }
}

/// The preview of a scope: its counts, and its ready files, those that fit
/// first, each marked with whether it is used.
pub open spec fn preview_spec(
    ready: Seq<ArtifactView>,
    ready_count: i64,
    total_count: i64,
) -> ScopePreviewView {
    let n = pack_count(ready);
    ScopePreviewView {
        ready_count,
        total_count,
        used_count: n as i64,
        omitted_count: (ready.len() - n) as i64,
        files: ready.take(n).map_values(|a: ArtifactView| scope_file_view(a, true)) + ready.skip(
            n,
        ).map_values(|a: ArtifactView| scope_file_view(a, false)),
    }
}

fn scope_files(files: &Vec<Artifact>, included: bool) -> (out: Vec<ScopeFile>)
    ensures
        views_of(out@) == views_of(files@).map_values(
            |a: ArtifactView| scope_file_view(a, included),
        ),
{
    let mut out: Vec<ScopeFile> = Vec::new();
    let mut i: usize = 0;
    while i < files.len()
        invariant
            0 <= i <= files@.len(),
            views_of(out@) == views_of(files@).take(i as int).map_values(
                |a: ArtifactView| scope_file_view(a, included),
            ),
        decreases files.len() - i,
    {
        let f = to_scope_file(&files[i], included);
        let ghost before = out@;
        out.push(f);
        assert(views_of(out@) == views_of(before).push(f@));
        assert(views_of(files@).take(i + 1) == views_of(files@).take(i as int).push(
            files@[i as int]@,
        ));
        i = i + 1;
    }
    assert(views_of(files@).take(files@.len() as int) == views_of(files@));
    out
}

/// What the chat pane shows for a scope before a question is asked.
pub fn preview(db: &Db, scope_type: &str, scope_id: &str) -> (r: AppResult<ScopePreview>)
    requires
        db.wf(),
    ensures
        match (r, ready_in_scope_spec(db@, scope_type@, scope_id@), count_in_scope_spec(
            db@,
            scope_type@,
            scope_id@,
        )) {
            (Ok(p), Ok(ready), Ok(counts)) => p@ == preview_spec(ready, counts.0, counts.1),
            (Err(e), Err(m), _) => e.msg() == m,
            _ => false,
        },
{
    let ready = match db.ready_artifacts_for_scope(scope_type, scope_id) {
        Ok(r) => r,
        Err(e) => return Err(e),
    };
    let (total_ready, total) = match db.count_artifacts_in_scope(scope_type, scope_id) {
        Ok(c) => c,
        Err(e) => return Err(e),
    };
    let (used, omitted) = pack_files(ready.as_slice());
    proof {
        law_pack_fits_budget(views_of(ready@));
        assert(used@.len() == views_of(used@).len());
        assert(omitted@.len() == views_of(omitted@).len());
    }
    let mut files = scope_files(&used, true);
    let rest = scope_files(&omitted, false);
    let ghost (fa, fb) = (views_of(files@), views_of(rest@));
    let mut i: usize = 0;
    while i < rest.len()
        invariant
            0 <= i <= rest@.len(),
            fb == views_of(rest@),
            views_of(files@) == fa + fb.take(i as int),
        decreases rest.len() - i,
    {
        let f = ScopeFile {
            id: rest[i].id.clone(),
            title: rest[i].title.clone(),
            meeting_group_id: rest[i].meeting_group_id.clone(),
            included: rest[i].included,
        };
        let ghost before = files@;
        files.push(f);
        assert(views_of(files@) == views_of(before).push(f@));
        assert(fb.take(i + 1) == fb.take(i as int).push(fb[i as int]));
        i = i + 1;
    }
    assert(fb.take(rest@.len() as int) == fb);
    Ok(
        ScopePreview {
            ready_count: total_ready,
            total_count: total,
            used_count: used.len() as i64,
            omitted_count: omitted.len() as i64,
            files,
        },
    )
}

// ---------------------------------------------------------------------------
// Asking
// ---------------------------------------------------------------------------

/// One file's part of the context: a heading with its title and id, then its
/// transcript.
pub open spec fn file_block(a: ArtifactView) -> Seq<char> {
    "\n### "@ + a.title + " (id: "@ + a.id + ")\n"@ + a.transcript + "\n"@
}

/// The blocks of files `0..n`.
pub open spec fn file_blocks(files: Seq<ArtifactView>, n: int) -> Seq<char>
    decreases n,
{
    if n <= 0 {
        Seq::empty()
    } else {
        file_blocks(files, n - 1) + file_block(files[n - 1])
    }
}

/// The transcripts sent with a question.
pub open spec fn context_spec(files: Seq<ArtifactView>) -> Seq<char> {
    "## Transcripts in scope\n"@ + file_blocks(files, files.len() as int)
}

/// The transcripts sent with a question, each under a heading.
pub fn context_block(files: &[Artifact]) -> (out: String)
    ensures
        out@ == context_spec(views_of(files@)),
{
    let ghost fv = views_of(files@);
    let mut out = to_chars("## Transcripts in scope\n");
    let ghost head = out@;
    let mut i: usize = 0;
    while i < files.len()
        invariant
            0 <= i <= files@.len(),
            fv == views_of(files@),
            head == "## Transcripts in scope\n"@,
            out@ == head + file_blocks(fv, i as int),
        decreases files.len() - i,
    {
        let ghost before = out@;
        push_all(&mut out, &to_chars("\n### "));
        push_all(&mut out, &to_chars(files[i].title.as_str()));
        push_all(&mut out, &to_chars(" (id: "));
        push_all(&mut out, &to_chars(files[i].id.as_str()));
        push_all(&mut out, &to_chars(")\n"));
        push_all(&mut out, &to_chars(files[i].transcript.as_str()));
        push_all(&mut out, &to_chars("\n"));
        assert(out@ == before + file_block(fv[i as int]));
        assert(file_blocks(fv, i + 1) == file_blocks(fv, i as int) + file_block(fv[i as int]));
        i = i + 1;
    }
    from_chars(out.as_slice())
}

/// The note added when files were left out.
pub open spec fn omitted_note(n: nat) -> Seq<char> {
    "\n\n(Note: "@ + decimal(n) + " older ready transcripts were omitted to fit the context window.)"@
}

/// The user message the model is sent: the context, then the question, then
/// the note on files left out when there were any.
pub open spec fn user_content_spec(used: Seq<ArtifactView>, omitted: nat, question: Seq<char>) -> Seq<
    char,
> {
    context_spec(used) + "\n\n"@ + question + if omitted > 0 {
        omitted_note(omitted)
    } else {
        Seq::empty()
    }
}

/// What a question about a scope prepares: the thread with the question added,
/// and the turns the model is sent, where the last is the question with its
/// context.
pub struct AskPlan {
    pub history: Vec<ChatTurn>,
    pub model_messages: Vec<ChatTurn>,
}

/// The turns the model is sent: the saved turns, then the question with its
/// context.
pub open spec fn ask_plan_spec(
    saved: Seq<ChatTurnView>,
    ready: Seq<ArtifactView>,
    question: Seq<char>,
) -> (Seq<ChatTurnView>, Seq<ChatTurnView>) {
    let q = trim(question);
    let n = pack_count(ready);
    let history = saved.push(("user"@, q));
    let content = user_content_spec(ready.take(n), (ready.len() - n) as nat, q);
    (history, saved.push(("user"@, content)))
}

/// Prepares a question about a scope: refuses an empty question and a scope
/// without ready transcripts; otherwise gives the thread with the question
/// added and the turns for the model.
pub fn prepare_ask(db: &Db, scope_type: &str, scope_id: &str, question: &str) -> (r: AppResult<
    AskPlan,
>)
    requires
        db.wf(),
    ensures
        match r {
            Ok(plan) => ready_in_scope_spec(db@, scope_type@, scope_id@) is Ok && {
                let ready = ready_in_scope_spec(db@, scope_type@, scope_id@)->Ok_0;
                let want = ask_plan_spec(chat_spec(db@, scope_type@, scope_id@), ready, question@);
                &&& trim(question@).len() > 0
                &&& ready.len() > 0
                &&& turns_view(plan.history@) == want.0
                &&& turns_view(plan.model_messages@) == want.1
            },
            Err(e) => if trim(question@).len() == 0 {
                e.msg() == "Ask a question first."@
            } else {
                match ready_in_scope_spec(db@, scope_type@, scope_id@) {
                    Err(m) => e.msg() == m,
                    Ok(ready) => ready.len() == 0 && e.msg()
                        == "There is no ready transcript in this scope yet."@,
                }
            },
        },
{
    let q = trim_chars(&to_chars(question));
    if q.len() == 0 {
        return Err(app_error("Ask a question first."));
    }
    let ready = match db.ready_artifacts_for_scope(scope_type, scope_id) {
        Ok(r) => r,
        Err(e) => return Err(e),
    };
    if ready.len() == 0 {
        return Err(app_error("There is no ready transcript in this scope yet."));
    }
    let (used, omitted) = pack_files(ready.as_slice());
    let ghost rv = views_of(ready@);
    proof {
        law_pack_fits_budget(rv);
        assert(omitted@.len() == views_of(omitted@).len());
        assert(omitted@.len() == rv.len() - pack_count(rv));
    }
    let saved = match db.get_chat_messages(scope_type, scope_id) {
        Ok(h) => h,
        Err(e) => return Err(e),
    };
    let mut content = to_chars(context_block(used.as_slice()).as_str());
    push_all(&mut content, &to_chars("\n\n"));
    push_all(&mut content, &q);
    if omitted.len() > 0 {
        push_all(&mut content, &to_chars("\n\n(Note: "));
        push_decimal(&mut content, omitted.len() as u128);
        push_all(
            &mut content,
            &to_chars(" older ready transcripts were omitted to fit the context window.)"),
        );
    }
    assert(content@ == user_content_spec(
        rv.take(pack_count(rv)),
        (rv.len() - pack_count(rv)) as nat,
        q@,
    ));
    let mut model_messages = crate::llm::duplicate_turns(saved.as_slice());
    let mut history = saved;
    let question_text = from_chars(q.as_slice());
    let user_turn = ChatTurn::new("user", question_text.as_str());
    let ghost (hb, mb) = (history@, model_messages@);
    history.push(user_turn);
    assert(turns_view(history@) == turns_view(hb).push(("user"@, q@)));
    let content_text = from_chars(content.as_slice());
    model_messages.push(ChatTurn::new("user", content_text.as_str()));
    assert(turns_view(model_messages@) == turns_view(mb).push(("user"@, content@)));
    Ok(AskPlan { history, model_messages })
}

/// Completes a question: the answer is added to the thread, which is saved
/// for the scope.
pub fn finish_ask(
    db: &mut Db,
    scope_type: &str,
    scope_id: &str,
    history: Vec<ChatTurn>,
    answer: &str,
) -> (r: AppResult<ChatThreadView>)
    requires
        old(db).wf(),
    ensures
        final(db).wf(),
        exists|id: Seq<char>, now: Seq<char>|
            #![trigger set_chat_spec(old(db)@, scope_type@, scope_id@, turns_view(history@).push(("assistant"@, answer@)), id, now)]
            {
                let turns = turns_view(history@).push(("assistant"@, answer@));
                let saved = set_chat_spec(old(db)@, scope_type@, scope_id@, turns, id, now);
                &&& is_hyphenated_uuid(id)
                &&& final(db)@ == saved.1
                &&& match (r, saved.0) {
                    (Ok(t), Ok(())) => turns_view(t.messages@) == turns,
                    (Err(e), Err(m)) => e.msg() == m,
                    _ => false,
                }
            },
{
    let mut history = history;
    let ghost before = history@;
    history.push(ChatTurn::new("assistant", answer));
    assert(turns_view(history@) == turns_view(before).push(("assistant"@, answer@)));
    match db.set_chat_messages(scope_type, scope_id, history.as_slice()) {
        Ok(()) => Ok(ChatThreadView { messages: history }),
        Err(e) => Err(e),
    }
}

/// The saved conversation of a scope.
pub fn get_thread(db: &Db, scope_type: &str, scope_id: &str) -> (r: AppResult<ChatThreadView>)
    requires
        db.wf(),
    ensures
        match r {
            Ok(t) => turns_view(t.messages@) == chat_spec(db@, scope_type@, scope_id@),
            Err(_) => false,
        },
{
    match db.get_chat_messages(scope_type, scope_id) {
        Ok(messages) => Ok(ChatThreadView { messages }),
        Err(e) => Err(e),
    }
}

/// Starts the scope's conversation over: its saved turns are cleared.
pub fn new_thread(db: &mut Db, scope_type: &str, scope_id: &str) -> (r: AppResult<ChatThreadView>)
    requires
        old(db).wf(),
    ensures
        final(db).wf(),
        exists|id: Seq<char>, now: Seq<char>|
            #![trigger set_chat_spec(old(db)@, scope_type@, scope_id@, Seq::empty(), id, now)]
            {
                let saved = set_chat_spec(old(db)@, scope_type@, scope_id@, Seq::empty(), id, now);
                &&& is_hyphenated_uuid(id)
                &&& final(db)@ == saved.1
                &&& match (r, saved.0) {
                    (Ok(t), Ok(())) => t.messages@.len() == 0,
                    (Err(e), Err(m)) => e.msg() == m,
                    _ => false,
                }
            },
{
    let none: Vec<ChatTurn> = Vec::new();
    assert(turns_view(none@) =~= Seq::<ChatTurnView>::empty());
    match db.set_chat_messages(scope_type, scope_id, none.as_slice()) {
        Ok(()) => Ok(ChatThreadView { messages: Vec::new() }),
        Err(e) => Err(e),
    }
}

} // verus!

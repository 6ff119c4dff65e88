//! The OpenAI token kept in the system keychain, chat turns, and what the
//! library makes of an OpenAI reply.
use vstd::prelude::*;

use crate::error::{app_error, AppError, AppResult};
use crate::text::{is_blank, to_chars, trim};

verus! {

broadcast use vstd::string::group_string_axioms;

pub const KEYRING_SERVICE: &'static str = "com.bellanote.app";

pub const KEYRING_USER: &'static str = "openai_api_key";

pub const OPENAI_MODEL: &'static str = "gpt-4o";

pub const OPENAI_URL: &'static str = "https://api.openai.com/v1/chat/completions";

// ---------------------------------------------------------------------------
// Chat turns
// ---------------------------------------------------------------------------

/// One message of a chat: who spoke (`user` or `assistant`) and what.
pub struct ChatTurn {
    pub role: String,
    pub content: String,
}

pub type ChatTurnView = (Seq<char>, Seq<char>);

impl View for ChatTurn {
    type V = ChatTurnView;

    open spec fn view(&self) -> ChatTurnView {
        (self.role@, self.content@)
    }
}

pub open spec fn turns_view(v: Seq<ChatTurn>) -> Seq<ChatTurnView> {
    v.map_values(|t: ChatTurn| t@)
}

impl ChatTurn {
    pub fn new(role: &str, content: &str) -> (t: ChatTurn)
        ensures
            t@ == (role@, content@),
    {
        ChatTurn { role: role.to_owned(), content: content.to_owned() }
    }

    pub fn duplicate(&self) -> (r: ChatTurn)
        ensures
            r@ == self@,
    {
        ChatTurn { role: self.role.clone(), content: self.content.clone() }
    }
}

/// A copy of a list of turns.
pub fn duplicate_turns(v: &[ChatTurn]) -> (out: Vec<ChatTurn>)
    ensures
        turns_view(out@) == turns_view(v@),
{
    let mut out: Vec<ChatTurn> = Vec::new();
    let mut i: usize = 0;
    while i < v.len()
        invariant
            0 <= i <= v.len(),
            turns_view(out@) == turns_view(v@).take(i as int),
        decreases v.len() - i,
    {
        let t = v[i].duplicate();
        let ghost old_out = out@;
        out.push(t);
        assert(turns_view(out@) == turns_view(old_out).push(t@));
        assert(turns_view(v@).take(i + 1) == turns_view(v@).take(i as int).push(v@[i as int]@));
        i = i + 1;
    }
    assert(turns_view(v@).take(v.len() as int) == turns_view(v@));
    out
}

// ---------------------------------------------------------------------------
// Keychain
// ---------------------------------------------------------------------------

/// A keychain entry (`keyring::Entry`).
#[verifier::external_type_specification]
#[verifier::external_body]
pub struct ExKeyringEntry(keyring::Entry);

/// A keychain error (`keyring::Error`).
#[verifier::external_type_specification]
#[verifier::external_body]
pub struct ExKeyringError(keyring::Error);

/// Why a keychain call failed: whether it found no entry, and the error.
pub struct KeyringFailure {
    pub no_entry: bool,
    pub error: keyring::Error,
}

/// `keyring::Entry::new` for BellaNote's service and user. Whether it succeeds
/// depends on the platform's credential store; nothing is claimed of it.
#[verifier::external_body]
fn keyring_entry() -> (r: Result<keyring::Entry, KeyringFailure>) {
    keyring::Entry::new(KEYRING_SERVICE, KEYRING_USER).map_err(
        |e| KeyringFailure { no_entry: matches!(e, keyring::Error::NoEntry), error: e },
    )
}

/// `keyring::Entry::set_password`: stores the password in the credential
/// store. Its outcome depends on the store; nothing is claimed of it.
#[verifier::external_body]
fn keyring_set_password(entry: &keyring::Entry, password: &str) -> (r: Result<
    (),
    KeyringFailure,
>) {
    entry.set_password(password).map_err(
        |e| KeyringFailure { no_entry: matches!(e, keyring::Error::NoEntry), error: e },
    )
}

/// `keyring::Entry::get_password`: reads the stored password. What it returns
/// depends on the store; nothing is claimed of it.
#[verifier::external_body]
fn keyring_get_password(entry: &keyring::Entry) -> (r: Result<String, KeyringFailure>) {
    entry.get_password().map_err(
        |e| KeyringFailure { no_entry: matches!(e, keyring::Error::NoEntry), error: e },
    )
}

/// `keyring::Entry::delete_credential`: removes the stored password. Its
/// outcome depends on the store; nothing is claimed of it.
#[verifier::external_body]
fn keyring_delete_credential(entry: &keyring::Entry) -> (r: Result<(), KeyringFailure>) {
    entry.delete_credential().map_err(
        |e| KeyringFailure { no_entry: matches!(e, keyring::Error::NoEntry), error: e },
    )
}

/// The text of a keychain error (`Display` of `keyring::Error`). Nothing is
/// claimed of the text.
#[verifier::external_body]
fn keyring_error_message(e: &keyring::Error) -> (r: String) {
    e.to_string()
}

/// The error shown for a failed keychain call: the keychain error's own text,
/// of which nothing is claimed.
fn failure_to_error(f: &KeyringFailure) -> (e: AppError) {
    AppError::Message(keyring_error_message(&f.error))
}

/// The result of storing or deleting a key: a deletion that found no entry
/// counts as done when `missing_is_ok`.
pub fn store_outcome(r: Result<(), KeyringFailure>, missing_is_ok: bool) -> (out: AppResult<()>)
    ensures
        out is Ok <==> (r is Ok || (missing_is_ok && (r matches Err(f) && f.no_entry))),
{
    match r {
        Ok(()) => Ok(()),
        Err(f) => if missing_is_ok && f.no_entry {
            Ok(())
        } else {
            Err(failure_to_error(&f))
        },
    }
}

/// The key a keychain read gives: a stored key that is not blank.
pub fn password_outcome(r: Result<String, KeyringFailure>) -> (out: Option<String>)
    ensures
        match r {
            Ok(s) => if trim(s@).len() > 0 {
                out == Some(s)
            } else {
                out is None
            },
            Err(_) => out is None,
        },
{
    match r {
        Ok(s) => {
            if is_blank(&to_chars(s.as_str())) {
                None
            } else {
                Some(s)
            }
        },
        Err(_) => None,
    }
}

/// Removes the stored token; a missing one counts as removed.
pub fn clear_api_key() -> (r: AppResult<()>) {
    let entry = match keyring_entry() {
        Ok(e) => e,
        Err(f) => return Err(failure_to_error(&f)),
    };
    store_outcome(keyring_delete_credential(&entry), true)
}

/// The token that `set_api_key` stores: the given one trimmed, or none when
/// that leaves nothing.
pub fn key_to_store(key: &str) -> (r: Option<String>)
    ensures
        match r {
            Some(s) => s@ == trim(key@) && s@.len() > 0,
            None => trim(key@).len() == 0,
        },
{
    let k = to_chars(key);
    let (a, b) = crate::text::trim_bounds(&k);
    if a == b {
        None
    } else {
        Some(crate::text::from_chars(crate::text::slice_chars(&k, a, b).as_slice()))
    }
}

/// Stores the trimmed token; a blank token clears the stored one instead.
pub fn set_api_key(key: &str) -> (r: AppResult<()>) {
    let trimmed = match key_to_store(key) {
        Some(t) => t,
        None => return clear_api_key(),
    };
    let entry = match keyring_entry() {
        Ok(e) => e,
        Err(f) => return Err(failure_to_error(&f)),
    };
    store_outcome(keyring_set_password(&entry, trimmed.as_str()), false)
}

/// The stored token, when there is one that is not blank.
pub fn get_api_key() -> (r: Option<String>)
    ensures
        r matches Some(s) ==> trim(s@).len() > 0,
{
    match keyring_entry() {
        Ok(e) => password_outcome(keyring_get_password(&e)),
        Err(_) => None,
    }
}

/// Whether a token that is not blank is stored.
pub fn api_key_configured() -> (b: bool) {
    get_api_key().is_some()
}

/// The stored token, or the error that asks for one.
pub fn require_api_key() -> (r: AppResult<String>)
    ensures
        r matches Ok(s) ==> trim(s@).len() > 0,
        r matches Err(e) ==> e.msg() == "Add an OpenAI API token in Settings before chatting."@,
{
    match get_api_key() {
        Some(k) => Ok(k),
        None => Err(app_error("Add an OpenAI API token in Settings before chatting.")),
    }
}

// ---------------------------------------------------------------------------
// OpenAI replies
// ---------------------------------------------------------------------------

/// The error for a reply whose HTTP status is not a success.
pub open spec fn openai_error_spec(status: u16, status_text: Seq<char>, body: Seq<char>) -> Seq<
    char,
> {
    if status == 401 {
        "OpenAI rejected the API token. Check Settings."@
    } else if status == 429 {
        "OpenAI rate-limited the request. Wait a moment and try again."@
    } else {
        "OpenAI error ("@ + status_text + "): "@ + body
    }
}

/// The error for a reply with a failing HTTP status; `status_text` is the
/// status as displayed (code and reason).
pub fn openai_error(status: u16, status_text: &str, body: &str) -> (e: AppError)
    ensures
        e.msg() == openai_error_spec(status, status_text@, body@),
{
    if status == 401 {
        return app_error("OpenAI rejected the API token. Check Settings.");
    }
    if status == 429 {
        return app_error("OpenAI rate-limited the request. Wait a moment and try again.");
    }
    let mut m = "OpenAI error (".to_owned();
    m.append(status_text);
    m.append("): ");
    m.append(body);
    AppError::Message(m)
}

/// The answer of a reply: the first choice's content, when it is not blank.
pub fn answer_from_choices(contents: Vec<Option<String>>) -> (r: AppResult<String>)
    ensures
        match r {
            Ok(s) => contents@.len() > 0 && contents@[0] == Some(s) && trim(s@).len() > 0,
            Err(e) => e.msg() == "OpenAI returned an empty answer."@ && (contents@.len() == 0
                || contents@[0] is None || trim(contents@[0]->0@).len() == 0),
        },
{
    if contents.len() == 0 {
        return Err(app_error("OpenAI returned an empty answer."));
    }
    let mut contents = contents;
    let ghost first = contents@[0];
    let c = contents.swap_remove(0);
    assert(c == first);
    match c {
        Some(s) => {
            if is_blank(&to_chars(s.as_str())) {
                Err(app_error("OpenAI returned an empty answer."))
            } else {
                Ok(s)
            }
        },
        None => Err(app_error("OpenAI returned an empty answer.")),
    }
}


/// The turns of a chat request: the system prompt first, then the turns.
pub fn completion_messages(system: &str, messages: &[ChatTurn]) -> (out: Vec<ChatTurn>)
    ensures
        turns_view(out@) == seq![("system"@, system@)] + turns_view(messages@),
{
    let mut out: Vec<ChatTurn> = Vec::new();
    out.push(ChatTurn::new("system", system));
    let mut i: usize = 0;
    while i < messages.len()
        invariant
            0 <= i <= messages@.len(),
            turns_view(out@) == seq![("system"@, system@)] + turns_view(messages@).take(i as int),
        decreases messages.len() - i,
    {
        let t = messages[i].duplicate();
        let ghost before = out@;
        out.push(t);
        assert(turns_view(out@) == turns_view(before).push(t@));
        assert(turns_view(messages@).take(i + 1) == turns_view(messages@).take(i as int).push(
            messages@[i as int]@,
        ));
        i = i + 1;
    }
    assert(turns_view(messages@).take(messages@.len() as int) == turns_view(messages@));
    out
}

} // verus!

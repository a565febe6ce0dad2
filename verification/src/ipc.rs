//! Replies and watch lines from the compositor's IPC socket, which speaks
//! JSON.

use vstd::prelude::*;
use crate::text::{str_eq, trim, trimmed};

verus! {

broadcast use vstd::string::group_string_axioms;

/// One member of a JSON object, as far as mplug reads it.
#[derive(Debug, PartialEq, Eq)]
pub enum JsonMember {
    /// The text is not JSON.
    NotJson,
    /// The text is JSON, but not an object with the member.
    Absent,
    /// The member is a string.
    Text(String),
    /// The member is a boolean.
    Flag(bool),
    /// The member is some other value.
    Other,
}

/// A member of a JSON object, with its text as a sequence.
pub enum JsonMemberView {
    NotJson,
    Absent,
    Text(Seq<char>),
    Flag(bool),
    Other,
}

impl View for JsonMember {
    type V = JsonMemberView;

    open spec fn view(&self) -> JsonMemberView {
        match self {
            JsonMember::NotJson => JsonMemberView::NotJson,
            JsonMember::Absent => JsonMemberView::Absent,
            JsonMember::Text(s) => JsonMemberView::Text(s@),
            JsonMember::Flag(b) => JsonMemberView::Flag(*b),
            JsonMember::Other => JsonMemberView::Other,
        }
    }
}

/// What `serde_json` reads as member `key` of the JSON text `text`.
pub uninterp spec fn json_member_of(text: Seq<char>, key: Seq<char>) -> JsonMemberView;

/// `serde_json::from_str::<Value>(text)`, then `Value::get(key)`. Trusted:
/// the result is `json_member_of(text, key)`, a function of the two texts;
/// which texts are JSON, and what a member holds, is left to `serde_json`.
#[verifier::external_body]
fn json_member(text: &str, key: &str) -> (r: JsonMember)
    ensures
        r@ == json_member_of(text@, key@),
{
    match serde_json::from_str::<serde_json::Value>(text) {
        Err(_) => JsonMember::NotJson,
        Ok(v) => match v.get(key) {
            None => JsonMember::Absent,
            Some(serde_json::Value::String(s)) => JsonMember::Text(s.clone()),
            Some(serde_json::Value::Bool(b)) => JsonMember::Flag(*b),
            Some(serde_json::Value::Null) => JsonMember::Other,
            Some(serde_json::Value::Number(_)) => JsonMember::Other,
            Some(serde_json::Value::Array(_)) => JsonMember::Other,
            Some(serde_json::Value::Object(_)) => JsonMember::Other,
        },
    }
}

/// Whether `text` is JSON: the lookup of any member tells it.
pub open spec fn is_json(text: Seq<char>) -> bool {
    !(json_member_of(text, Seq::empty()) is NotJson)
}

/// The compositor's answer to a dispatch.
#[derive(Debug, PartialEq, Eq)]
pub enum DispatchOutcome {
    /// It reported an error.
    Error(String),
    /// It reported success or failure.
    Success(bool),
}

/// The answer read off the reply's `error` and `success` members: an
/// `error` string is an error; else a `success` boolean is passed on; any
/// other reply counts as success.
pub open spec fn outcome_of(error: JsonMemberView, success: JsonMemberView) -> (bool, Seq<char>, bool) {
    match error {
        JsonMemberView::Text(m) => (true, m, false),
        _ => match success {
            JsonMemberView::Flag(b) => (false, Seq::empty(), b),
            _ => (false, Seq::empty(), true),
        },
    }
}

impl DispatchOutcome {
    /// Whether it is an error, the error's text, and the success flag.
    pub open spec fn parts(self) -> (bool, Seq<char>, bool) {
        match self {
            DispatchOutcome::Error(m) => (true, m@, false),
            DispatchOutcome::Success(b) => (false, Seq::empty(), b),
        }
    }
}

/// The answer, from the reply's `error` and `success` members.
pub fn dispatch_outcome(error: JsonMember, success: JsonMember) -> (r: DispatchOutcome)
    ensures
        r.parts() == outcome_of(error@, success@),
{
    match error {
        JsonMember::Text(m) => DispatchOutcome::Error(m),
        _ => match success {
            JsonMember::Flag(b) => DispatchOutcome::Success(b),
            _ => DispatchOutcome::Success(true),
        },
    }
}

/// The compositor's answer to a dispatch, from its reply.
pub fn parse_dispatch_response(response: &str) -> (r: DispatchOutcome)
    ensures
        r.parts() == outcome_of(
            json_member_of(response@, "error"@),
            json_member_of(response@, "success"@),
        ),
{
    let error = json_member(response, "error");
    let success = json_member(response, "success");
    dispatch_outcome(error, success)
}

/// A watch line worth reading: the trimmed line, when it is not blank and
/// is JSON.
pub open spec fn watch_line_spec(line: Seq<char>) -> Option<Seq<char>> {
    if trim(line).len() > 0 && is_json(trim(line)) {
        Some(trim(line))
    } else {
        None
    }
}

/// The JSON text of a watch line; `None` for a blank line or one that is
/// not JSON.
pub fn parse_watch_line(line: &str) -> (r: Option<String>)
    ensures
        match r {
            Some(t) => watch_line_spec(line@) == Some(t@),
            None => watch_line_spec(line@) is None,
        },
{
    proof {
        reveal_strlit("");
        assert(""@ =~= Seq::<char>::empty());
    }
    let t = trimmed(line);
    if t.as_str().is_empty() {
        return None;
    }
    match json_member(t.as_str(), "") {
        JsonMember::NotJson => None,
        _ => Some(t),
    }
}

/// What a compositor watch topic reports.
#[derive(Debug, PartialEq, Eq)]
pub enum IpcEvent {
    /// The key mode.
    KeyMode(String),
    /// The keyboard layout.
    KeyboardLayout(String),
    /// All monitors, as JSON text.
    Monitors(String),
    /// All clients, as JSON text.
    Clients(String),
    /// All tags, as JSON text.
    Tags(String),
}

/// An IPC event, with its text as a sequence.
pub enum IpcEventView {
    KeyMode(Seq<char>),
    KeyboardLayout(Seq<char>),
    Monitors(Seq<char>),
    Clients(Seq<char>),
    Tags(Seq<char>),
}

impl View for IpcEvent {
    type V = IpcEventView;

    open spec fn view(&self) -> IpcEventView {
        match self {
            IpcEvent::KeyMode(s) => IpcEventView::KeyMode(s@),
            IpcEvent::KeyboardLayout(s) => IpcEventView::KeyboardLayout(s@),
            IpcEvent::Monitors(s) => IpcEventView::Monitors(s@),
            IpcEvent::Clients(s) => IpcEventView::Clients(s@),
            IpcEvent::Tags(s) => IpcEventView::Tags(s@),
        }
    }
}

/// The event a value from a watch topic makes: the `keymode` string of a
/// `keymode` update, the `layout` string of a `keyboardlayout` update, the
/// whole value of an `all-monitors`, `all-clients` or `all-tags` update;
/// nothing for another topic or a missing string.
pub open spec fn topic_event_spec(topic: Seq<char>, json: Seq<char>) -> Option<IpcEventView> {
    if topic == "keymode"@ {
        match json_member_of(json, "keymode"@) {
            JsonMemberView::Text(m) => Some(IpcEventView::KeyMode(m)),
            _ => None,
        }
    } else if topic == "keyboardlayout"@ {
        match json_member_of(json, "layout"@) {
            JsonMemberView::Text(l) => Some(IpcEventView::KeyboardLayout(l)),
            _ => None,
        }
    } else if topic == "all-monitors"@ {
        Some(IpcEventView::Monitors(json))
    } else if topic == "all-clients"@ {
        Some(IpcEventView::Clients(json))
    } else if topic == "all-tags"@ {
        Some(IpcEventView::Tags(json))
    } else {
        None
    }
}

/// The event an update on a watch topic makes, from the update's JSON text.
pub fn topic_event(topic: &str, json: &str) -> (r: Option<IpcEvent>)
    ensures
        match r {
            Some(e) => topic_event_spec(topic@, json@) == Some(e@),
            None => topic_event_spec(topic@, json@) is None,
        },
{
    if str_eq(topic, "keymode") {
        match json_member(json, "keymode") {
            JsonMember::Text(m) => Some(IpcEvent::KeyMode(m)),
            _ => None,
        }
    } else if str_eq(topic, "keyboardlayout") {
        match json_member(json, "layout") {
            JsonMember::Text(l) => Some(IpcEvent::KeyboardLayout(l)),
            _ => None,
        }
    } else if str_eq(topic, "all-monitors") {
        Some(IpcEvent::Monitors(String::from_str(json)))
    } else if str_eq(topic, "all-clients") {
        Some(IpcEvent::Clients(String::from_str(json)))
    } else if str_eq(topic, "all-tags") {
        Some(IpcEvent::Tags(String::from_str(json)))
    } else {
        None
    }
}

} // verus!

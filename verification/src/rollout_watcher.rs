//! What the local Codex session files say about running tasks.
use vstd::prelude::*;
use crate::domain::{max_i64, max_of, or_opt, sat_sub, sat_sub_exec, TaskStatus, TaskSummary};
use crate::json::{
    array_of, deref_opt, either, either_ref, get, get_member, i64_of, json_array, json_i64, json_str, json_u64,
    owned_str_of, parse_json, parsed_json, str_of, u64_of, JsonValue,
};
use crate::poller::{after_request_marker, request_marker};
use crate::text::{
    ascii_lower, ascii_lower_str, begins_text, chars_of, find_last, first_nonblank, first_nonblank_line,
    first_sentence, first_sentence_of, has_infix, has_prefix, has_text, is_text, lines, skip_chars,
    split_lines, string_of, take_chars, take_chars_exec, trim, trim_chars,
};

verus! {

/// What has been read so far from one session file.
#[derive(Debug)]
pub struct FileState {
    pub offset: u64,
    pub session_id: Option<String>,
    pub activity: Option<String>,
    pub status: TaskStatus,
    pub turn_id: Option<String>,
    pub waiting_reason: Option<String>,
    pub approval_request_id: Option<String>,
    pub token_count: Option<u64>,
    pub updated_at: i64,
    pub activity_at: i64,
    pub modified_at: i64,
}

/// A `FileState` with its strings taken as characters.
pub struct FileView {
    pub offset: u64,
    pub session_id: Option<Seq<char>>,
    pub activity: Option<Seq<char>>,
    pub status: TaskStatus,
    pub turn_id: Option<Seq<char>>,
    pub waiting_reason: Option<Seq<char>>,
    pub approval_request_id: Option<Seq<char>>,
    pub token_count: Option<u64>,
    pub updated_at: i64,
    pub activity_at: i64,
    pub modified_at: i64,
}

/// The characters of an optional string.
pub open spec fn chars_opt(o: Option<String>) -> Option<Seq<char>> {
    match o {
        Some(s) => Some(s@),
        None => None,
    }
}

impl View for FileState {
    type V = FileView;

    open spec fn view(&self) -> FileView {
        FileView {
            offset: self.offset,
            session_id: chars_opt(self.session_id),
            activity: chars_opt(self.activity),
            status: self.status,
            turn_id: chars_opt(self.turn_id),
            waiting_reason: chars_opt(self.waiting_reason),
            approval_request_id: chars_opt(self.approval_request_id),
            token_count: self.token_count,
            updated_at: self.updated_at,
            activity_at: self.activity_at,
            modified_at: self.modified_at,
        }
    }
}

/// The state of a file nothing has been read from.
pub open spec fn unread() -> FileView {
    FileView {
        offset: 0,
        session_id: None,
        activity: None,
        status: TaskStatus::Inactive,
        turn_id: None,
        waiting_reason: None,
        approval_request_id: None,
        token_count: None,
        updated_at: 0,
        activity_at: 0,
        modified_at: 0,
    }
}

impl FileState {
    /// A file nothing has been read from.
    pub fn fresh() -> (r: Self)
        ensures
            r@ == unread(),
    {
        FileState {
            offset: 0,
            session_id: None,
            activity: None,
            status: TaskStatus::Inactive,
            turn_id: None,
            waiting_reason: None,
            approval_request_id: None,
            token_count: None,
            updated_at: 0,
            activity_at: 0,
            modified_at: 0,
        }
    }
}

/// The Unix time that `time::OffsetDateTime::parse` with the RFC 3339 format reads
/// from `text`; `None` when it is not an RFC 3339 date-time.
pub uninterp spec fn rfc3339_seconds(text: Seq<char>) -> Option<i64>;

/// Parses an RFC 3339 date-time with `time::OffsetDateTime::parse` and gives its Unix time.
#[verifier::external_body]
fn parse_rfc3339(text: &str) -> (r: Option<i64>)
    ensures
        r == rfc3339_seconds(text@),
{
    time::OffsetDateTime::parse(text, &time::format_description::well_known::Rfc3339).ok().map(
        |v| v.unix_timestamp(),
    )
}

/// `value.get(key).and_then(as_str)`.
pub open spec fn sf(v: Option<JsonValue>, key: Seq<char>) -> Option<Seq<char>> {
    json_str(get(v, key))
}

/// The record's payload, or the record itself.
pub open spec fn record_payload(doc: JsonValue) -> Option<JsonValue> {
    either(get(Some(doc), "payload"@), Some(doc))
}

/// The record's own type.
pub open spec fn record_type(doc: JsonValue) -> Seq<char> {
    match sf(Some(doc), "type"@) {
        Some(t) => t,
        None => Seq::empty(),
    }
}

/// The payload's type, in lower case.
pub open spec fn payload_type(doc: JsonValue) -> Seq<char> {
    match sf(record_payload(doc), "type"@) {
        Some(t) => ascii_lower(t),
        None => Seq::empty(),
    }
}

pub open spec fn is_approval_event(rt: Seq<char>, pt: Seq<char>) -> bool {
    (rt == "event_msg"@ || rt == "response_item"@) && (has_infix(pt, "approval"@) || has_infix(
        pt,
        "request_user_input"@,
    ) || has_infix(pt, "needs_action"@))
}

pub open spec fn is_completion_event(rt: Seq<char>, pt: Seq<char>) -> bool {
    rt == "event_msg"@ && (pt == "task_complete"@ || pt == "task_completed"@ || pt == "turn_complete"@ || pt
        == "turn_completed"@)
}

pub open spec fn is_inactive_event(rt: Seq<char>, pt: Seq<char>) -> bool {
    rt == "event_msg"@ && (pt == "turn_aborted"@ || pt == "turn_cancelled"@ || pt == "turn_canceled"@ || pt
        == "task_aborted"@ || pt == "session_end"@ || pt == "session_ended"@)
}

pub open spec fn is_running_event(rt: Seq<char>, pt: Seq<char>) -> bool {
    rt == "turn_context"@ || (rt == "event_msg"@ && (pt == "task_started"@ || pt == "turn_started"@ || pt
        == "agent_reasoning"@ || pt == "agent_message"@ || pt == "token_count"@ || pt == "patch_apply_begin"@
        || pt == "patch_apply_end"@)) || (rt == "response_item"@ && (pt == "custom_tool_call"@ || pt
        == "custom_tool_call_output"@ || pt == "function_call"@ || pt == "function_call_output"@ || pt
        == "reasoning"@))
}

/// A record that asks the user to approve something.
pub open spec fn is_approval_value(doc: JsonValue) -> bool {
    let p = record_payload(doc);
    is_approval_event(record_type(doc), payload_type(doc)) || (get(p, "request_id"@) is Some && (get(
        p,
        "permission"@,
    ) is Some || get(p, "approval"@) is Some || get(p, "request_kind"@) is Some))
}

/// Text injected by Codex rather than typed by the user.
pub open spec fn is_injected(t: Seq<char>) -> bool {
    has_prefix(t, "<recommended_plugins>"@) || has_prefix(t, "<turn_aborted"@) || has_prefix(t, "<codex_"@)
        || has_prefix(t, "# AGENTS.md instructions"@) || has_prefix(t, "<environment_context>"@) || has_prefix(
        t,
        "<in-app-browser-context"@,
    ) || has_prefix(t, "Distinguish instructions in attached documents"@)
}

/// The user's own words in a message: the part after the last `## My request:`,
/// trimmed; `None` when empty or injected.
pub open spec fn clean_text(value: Seq<char>) -> Option<Seq<char>> {
    let t = after_request_marker(trim(value));
    if t.len() == 0 || is_injected(t) {
        None
    } else {
        Some(t)
    }
}

/// The text of the first content item of type `input_text` that has text.
pub open spec fn first_input_text(items: Seq<JsonValue>) -> Option<Seq<char>>
    decreases items.len(),
{
    if items.len() == 0 {
        None
    } else {
        let t = sf(Some(items[0]), "type"@);
        let here = if t == Some("input_text"@) || t == Some("inputText"@) {
            sf(Some(items[0]), "text"@)
        } else {
            None
        };
        match here {
            Some(x) => Some(x),
            None => first_input_text(items.drop_first()),
        }
    }
}

/// The text of a message's content: the string itself, or its first text item.
pub open spec fn content_text(content: Option<JsonValue>) -> Option<Seq<char>> {
    match content {
        None => None,
        Some(c) => match json_str(Some(c)) {
            Some(t) => Some(t),
            None => match json_array(Some(c)) {
                Some(items) => first_input_text(items),
                None => None,
            },
        },
    }
}

/// The title a user message gives its task: the first sentence of its first non-blank
/// line, at most 80 characters.
pub open spec fn user_title(doc: JsonValue) -> Option<Seq<char>> {
    let p = record_payload(doc);
    let role = sf(p, "role"@);
    let pt = match sf(p, "type"@) {
        Some(t) => t,
        None => Seq::empty(),
    };
    let text = if role == Some("user"@) && pt == "message"@ {
        content_text(get(p, "content"@))
    } else if pt == "user_message"@ {
        or_opt(sf(p, "message"@), sf(p, "text"@))
    } else {
        None
    };
    match text {
        None => None,
        Some(t) => match clean_text(t) {
            None => None,
            Some(c) => match first_nonblank(lines(c)) {
                None => None,
                Some(l) => {
                    let f = first_sentence(l);
                    if f.len() == 0 {
                        None
                    } else {
                        Some(take_chars(f, 80))
                    }
                },
            },
        },
    }
}

/// Why the record waits for the user.
pub open spec fn waiting_reason_of(doc: JsonValue) -> Option<Seq<char>> {
    let p = record_payload(doc);
    or_opt(sf(p, "reason"@), or_opt(sf(p, "message"@), or_opt(sf(p, "command"@), sf(p, "tool_name"@))))
}

/// The token count a record states.
pub open spec fn token_count_of(doc: JsonValue) -> Option<u64> {
    let p = record_payload(doc);
    let c = either(get(p, "token_count"@), either(get(p, "tokenCount"@), either(get(p, "tokens"@), get(p, "tokenUsage"@))));
    match c {
        None => None,
        Some(_) => match json_u64(c) {
            Some(n) => Some(n),
            None => match get(c, "total"@) {
                None => None,
                Some(_) => json_u64(either(get(get(c, "total"@), "totalTokens"@), get(c, "total_tokens"@))),
            },
        },
    }
}

/// The record's time: a number of seconds, or an RFC 3339 date-time.
pub open spec fn record_time(doc: JsonValue) -> Option<i64> {
    let raw = get(Some(doc), "timestamp"@);
    match raw {
        None => None,
        Some(_) => or_opt(
            json_i64(raw),
            match json_str(raw) {
                Some(s) => rfc3339_seconds(s),
                None => None,
            },
        ),
    }
}

/// The state after the status part of a record.
pub open spec fn after_status(doc: JsonValue, v: FileView) -> FileView {
    let rt = record_type(doc);
    let pt = payload_type(doc);
    let p = record_payload(doc);
    let turn = or_opt(sf(p, "turn_id"@), or_opt(sf(p, "turnId"@), sf(p, "turn"@)));
    let v1 = match turn {
        Some(t) => FileView { turn_id: Some(t), ..v },
        None => v,
    };
    let ts = match record_time(doc) {
        Some(t) => t,
        None => v1.updated_at,
    };
    if is_inactive_event(rt, pt) {
        let u = max_i64(v1.updated_at, ts);
        FileView {
            status: TaskStatus::Inactive,
            activity: None,
            waiting_reason: None,
            approval_request_id: None,
            updated_at: u,
            activity_at: u,
            ..v1
        }
    } else if is_approval_event(rt, pt) {
        FileView {
            status: TaskStatus::NeedsAction,
            approval_request_id: or_opt(
                sf(p, "request_id"@),
                or_opt(sf(p, "requestId"@), or_opt(sf(p, "approval_request_id"@), sf(p, "approvalRequestId"@))),
            ),
            ..v1
        }
    } else if is_completion_event(rt, pt) {
        FileView { status: TaskStatus::Completed, updated_at: max_i64(v1.updated_at, ts), ..v1 }
    } else if is_running_event(rt, pt) {
        FileView { status: TaskStatus::Running, ..v1 }
    } else {
        v1
    }
}

/// The session id a record names, when the file has none yet.
pub open spec fn named_session(doc: JsonValue) -> Option<Seq<char>> {
    let p = record_payload(doc);
    let meta = sf(p, "type"@) == Some("session_meta"@);
    let own = if meta {
        or_opt(sf(p, "session_id"@), or_opt(sf(p, "sessionId"@), sf(p, "id"@)))
    } else {
        or_opt(sf(p, "session_id"@), sf(p, "sessionId"@))
    };
    or_opt(own, or_opt(sf(Some(doc), "session_id"@), sf(Some(doc), "sessionId"@)))
}

/// The state after one record of a session file, read at `now`.
pub open spec fn after_record(doc: JsonValue, v: FileView, now: i64) -> FileView {
    let v1 = if v.session_id is None {
        FileView { session_id: named_session(doc), ..v }
    } else {
        v
    };
    let v2 = match user_title(doc) {
        Some(t) => FileView { activity: Some(t), status: TaskStatus::Running, ..v1 },
        None => v1,
    };
    let v3 = after_status(doc, v2);
    let v4 = if is_approval_value(doc) && waiting_reason_of(doc) is Some {
        FileView { waiting_reason: waiting_reason_of(doc), ..v3 }
    } else {
        v3
    };
    let v5 = match token_count_of(doc) {
        Some(n) => FileView { token_count: Some(n), ..v4 },
        None => v4,
    };
    if v5.activity is Some || v5.waiting_reason is Some || v5.token_count is Some {
        let u = match record_time(doc) {
            Some(t) => t,
            None => now,
        };
        FileView { updated_at: u, activity_at: u, ..v5 }
    } else {
        v5
    }
}

/// The state after one line; lines that are not JSON change nothing.
pub open spec fn after_line(line: Seq<char>, v: FileView, now: i64) -> FileView {
    match parsed_json(line) {
        Some(doc) => after_record(doc, v, now),
        None => v,
    }
}

/// The state after the lines `ls`, in order.
pub open spec fn after_lines(ls: Seq<Seq<char>>, v: FileView, now: i64) -> FileView
    decreases ls.len(),
{
    if ls.len() == 0 {
        v
    } else {
        after_line(ls.last(), after_lines(ls.drop_last(), v, now), now)
    }
}


fn sf_in(v: Option<&JsonValue>, key: &str) -> (r: Option<String>)
    ensures
        chars_opt(r) == sf(deref_opt(v), key@),
{
    owned_str_of(get_member(v, key))
}

fn or_string(a: Option<String>, b: Option<String>) -> (r: Option<String>)
    ensures
        chars_opt(r) == or_opt(chars_opt(a), chars_opt(b)),
{
    match a {
        Some(x) => Some(x),
        None => b,
    }
}

fn payload_in(doc: &JsonValue) -> (r: Option<&JsonValue>)
    ensures
        deref_opt(r) == record_payload(*doc),
{
    either_ref(get_member(Some(doc), "payload"), Some(doc))
}

fn record_type_in(doc: &JsonValue) -> (r: Vec<char>)
    ensures
        r@ == record_type(*doc),
{
    match str_of(get_member(Some(doc), "type")) {
        Some(t) => chars_of(t.as_str()),
        None => Vec::new(),
    }
}

fn payload_type_in(doc: &JsonValue) -> (r: Vec<char>)
    ensures
        r@ == payload_type(*doc),
{
    match str_of(get_member(payload_in(doc), "type")) {
        Some(t) => ascii_lower_str(t.as_str()),
        None => Vec::new(),
    }
}

fn approval_event_chars(rt: &Vec<char>, pt: &Vec<char>) -> (r: bool)
    ensures
        r == is_approval_event(rt@, pt@),
{
    (is_text(rt, "event_msg") || is_text(rt, "response_item")) && (has_text(pt, "approval") || has_text(
        pt,
        "request_user_input",
    ) || has_text(pt, "needs_action"))
}

fn completion_event_chars(rt: &Vec<char>, pt: &Vec<char>) -> (r: bool)
    ensures
        r == is_completion_event(rt@, pt@),
{
    is_text(rt, "event_msg") && (is_text(pt, "task_complete") || is_text(pt, "task_completed") || is_text(
        pt,
        "turn_complete",
    ) || is_text(pt, "turn_completed"))
}

fn inactive_event_chars(rt: &Vec<char>, pt: &Vec<char>) -> (r: bool)
    ensures
        r == is_inactive_event(rt@, pt@),
{
    is_text(rt, "event_msg") && (is_text(pt, "turn_aborted") || is_text(pt, "turn_cancelled") || is_text(
        pt,
        "turn_canceled",
    ) || is_text(pt, "task_aborted") || is_text(pt, "session_end") || is_text(pt, "session_ended"))
}

fn running_event_chars(rt: &Vec<char>, pt: &Vec<char>) -> (r: bool)
    ensures
        r == is_running_event(rt@, pt@),
{
    is_text(rt, "turn_context") || (is_text(rt, "event_msg") && (is_text(pt, "task_started") || is_text(
        pt,
        "turn_started",
    ) || is_text(pt, "agent_reasoning") || is_text(pt, "agent_message") || is_text(pt, "token_count")
        || is_text(pt, "patch_apply_begin") || is_text(pt, "patch_apply_end"))) || (is_text(rt, "response_item")
        && (is_text(pt, "custom_tool_call") || is_text(pt, "custom_tool_call_output") || is_text(
        pt,
        "function_call",
    ) || is_text(pt, "function_call_output") || is_text(pt, "reasoning")))
}

/// A record of this type and payload type asks the user to approve something.
pub fn is_approval_event_exec(record_type: &str, payload_type: &str) -> (r: bool)
    ensures
        r == is_approval_event(record_type@, payload_type@),
{
    approval_event_chars(&chars_of(record_type), &chars_of(payload_type))
}

/// A record of this type and payload type ends a turn.
pub fn is_completion_event_exec(record_type: &str, payload_type: &str) -> (r: bool)
    ensures
        r == is_completion_event(record_type@, payload_type@),
{
    completion_event_chars(&chars_of(record_type), &chars_of(payload_type))
}

/// A record of this type and payload type aborts a turn or ends the session.
pub fn is_inactive_event_exec(record_type: &str, payload_type: &str) -> (r: bool)
    ensures
        r == is_inactive_event(record_type@, payload_type@),
{
    inactive_event_chars(&chars_of(record_type), &chars_of(payload_type))
}

/// A record of this type and payload type shows the agent at work.
pub fn is_running_event_exec(record_type: &str, payload_type: &str) -> (r: bool)
    ensures
        r == is_running_event(record_type@, payload_type@),
{
    running_event_chars(&chars_of(record_type), &chars_of(payload_type))
}

fn approval_value_in(doc: &JsonValue) -> (r: bool)
    ensures
        r == is_approval_value(*doc),
{
    let p = payload_in(doc);
    let rt = record_type_in(doc);
    let pt = payload_type_in(doc);
    approval_event_chars(&rt, &pt) || (get_member(p, "request_id").is_some() && (get_member(p, "permission").is_some()
        || get_member(p, "approval").is_some() || get_member(p, "request_kind").is_some()))
}

fn injected_chars(t: &Vec<char>) -> (r: bool)
    ensures
        r == is_injected(t@),
{
    begins_text(t, "<recommended_plugins>") || begins_text(t, "<turn_aborted") || begins_text(t, "<codex_")
        || begins_text(t, "# AGENTS.md instructions") || begins_text(t, "<environment_context>") || begins_text(
        t,
        "<in-app-browser-context",
    ) || begins_text(t, "Distinguish instructions in attached documents")
}

fn clean_text_chars(value: &[char]) -> (r: Option<Vec<char>>)
    ensures
        match r {
            Some(v) => clean_text(value@) == Some(v@),
            None => clean_text(value@) is None,
        },
{
    let trimmed = trim_chars(value);
    let marker = chars_of("## My request:");
    let t = match find_last(trimmed.as_slice(), marker.as_slice()) {
        Some(i) => {
            assert(crate::text::occurs_at(trimmed@, marker@, i as int));
            assert(i + marker.len() <= trimmed.len());
            let rest = skip_chars(trimmed.as_slice(), i + marker.len());
            trim_chars(rest.as_slice())
        },
        None => trimmed,
    };
    assert(t@ == after_request_marker(trim(value@)));
    if t.len() == 0 || injected_chars(&t) {
        None
    } else {
        Some(t)
    }
}

/// The user's own words in a message, if it holds any.
pub fn clean_user_text(value: &str) -> (r: Option<String>)
    ensures
        chars_opt(r) == clean_text(value@),
{
    let c = chars_of(value);
    match clean_text_chars(c.as_slice()) {
        Some(v) => Some(string_of(v.as_slice())),
        None => None,
    }
}

fn first_input_text_in(items: &Vec<JsonValue>) -> (r: Option<String>)
    ensures
        chars_opt(r) == first_input_text(items@),
{
    let mut i: usize = 0;
    assert(items@.skip(0) =~= items@);
    while i < items.len()
        invariant
            i <= items.len(),
            first_input_text(items@) == first_input_text(items@.skip(i as int)),
        decreases items.len() - i,
    {
        assert(items@.skip(i as int)[0] == items@[i as int]);
        assert(items@.skip(i as int).drop_first() =~= items@.skip(i + 1));
        let item = Some(&items[i]);
        let t = str_of(get_member(item, "type"));
        let ok = match t {
            Some(x) => crate::text::str_eq(x.as_str(), "input_text") || crate::text::str_eq(x.as_str(), "inputText"),
            None => false,
        };
        if ok {
            match sf_in(item, "text") {
                Some(x) => return Some(x),
                None => {},
            }
        }
        i = i + 1;
    }
    None
}

fn content_text_in(content: Option<&JsonValue>) -> (r: Option<String>)
    ensures
        chars_opt(r) == content_text(deref_opt(content)),
{
    match content {
        None => None,
        Some(_) => match owned_str_of(content) {
            Some(t) => Some(t),
            None => match array_of(content) {
                Some(items) => first_input_text_in(items),
                None => None,
            },
        },
    }
}

fn user_title_in(doc: &JsonValue) -> (r: Option<String>)
    ensures
        chars_opt(r) == user_title(*doc),
{
    let p = payload_in(doc);
    let is_user = match str_of(get_member(p, "role")) {
        Some(x) => crate::text::str_eq(x.as_str(), "user"),
        None => false,
    };
    let pt = match str_of(get_member(p, "type")) {
        Some(t) => chars_of(t.as_str()),
        None => Vec::new(),
    };
    proof {
        reveal_strlit("user");
    }
    let text = if is_user && is_text(&pt, "message") {
        content_text_in(get_member(p, "content"))
    } else if is_text(&pt, "user_message") {
        or_string(sf_in(p, "message"), sf_in(p, "text"))
    } else {
        None
    };
    let t = match text {
        Some(t) => t,
        None => return None,
    };
    let tc = chars_of(t.as_str());
    let c = match clean_text_chars(tc.as_slice()) {
        Some(c) => c,
        None => return None,
    };
    let l = match first_nonblank_line(c.as_slice()) {
        Some(l) => l,
        None => return None,
    };
    let f = first_sentence_of(l.as_slice());
    if f.len() == 0 {
        None
    } else {
        Some(string_of(take_chars_exec(f.as_slice(), 80).as_slice()))
    }
}

fn waiting_reason_in(doc: &JsonValue) -> (r: Option<String>)
    ensures
        chars_opt(r) == waiting_reason_of(*doc),
{
    let p = payload_in(doc);
    or_string(sf_in(p, "reason"), or_string(sf_in(p, "message"), or_string(sf_in(p, "command"), sf_in(p, "tool_name"))))
}

fn token_count_in(doc: &JsonValue) -> (r: Option<u64>)
    ensures
        r == token_count_of(*doc),
{
    let p = payload_in(doc);
    let c = either_ref(
        get_member(p, "token_count"),
        either_ref(get_member(p, "tokenCount"), either_ref(get_member(p, "tokens"), get_member(p, "tokenUsage"))),
    );
    match c {
        None => None,
        Some(_) => match u64_of(c) {
            Some(n) => Some(n),
            None => {
                let total = get_member(c, "total");
                match total {
                    None => None,
                    Some(_) => u64_of(either_ref(get_member(total, "totalTokens"), get_member(c, "total_tokens"))),
                }
            },
        },
    }
}

fn record_time_in(doc: &JsonValue) -> (r: Option<i64>)
    ensures
        r == record_time(*doc),
{
    let raw = get_member(Some(doc), "timestamp");
    match raw {
        None => None,
        Some(_) => match i64_of(raw) {
            Some(t) => Some(t),
            None => match str_of(raw) {
                Some(s) => parse_rfc3339(s.as_str()),
                None => None,
            },
        },
    }
}

fn update_status(doc: &JsonValue, state: &mut FileState)
    ensures
        final(state)@ == after_status(*doc, old(state)@),
        final(state).offset == old(state).offset,
{
    let rt = record_type_in(doc);
    let pt = payload_type_in(doc);
    let p = payload_in(doc);
    let turn = or_string(sf_in(p, "turn_id"), or_string(sf_in(p, "turnId"), sf_in(p, "turn")));
    if turn.is_some() {
        state.turn_id = turn;
    }
    let ts = match record_time_in(doc) {
        Some(t) => t,
        None => state.updated_at,
    };
    if inactive_event_chars(&rt, &pt) {
        let u = max_of(state.updated_at, ts);
        state.status = TaskStatus::Inactive;
        state.activity = None;
        state.waiting_reason = None;
        state.approval_request_id = None;
        state.updated_at = u;
        state.activity_at = u;
    } else if approval_event_chars(&rt, &pt) {
        state.status = TaskStatus::NeedsAction;
        state.approval_request_id = or_string(
            sf_in(p, "request_id"),
            or_string(sf_in(p, "requestId"), or_string(sf_in(p, "approval_request_id"), sf_in(p, "approvalRequestId"))),
        );
    } else if completion_event_chars(&rt, &pt) {
        state.status = TaskStatus::Completed;
        state.updated_at = max_of(state.updated_at, ts);
    } else if running_event_chars(&rt, &pt) {
        state.status = TaskStatus::Running;
    }
}

fn named_session_in(doc: &JsonValue) -> (r: Option<String>)
    ensures
        chars_opt(r) == named_session(*doc),
{
    let p = payload_in(doc);
    let meta = match str_of(get_member(p, "type")) {
        Some(t) => crate::text::str_eq(t.as_str(), "session_meta"),
        None => false,
    };
    let own = if meta {
        or_string(sf_in(p, "session_id"), or_string(sf_in(p, "sessionId"), sf_in(p, "id")))
    } else {
        or_string(sf_in(p, "session_id"), sf_in(p, "sessionId"))
    };
    or_string(own, or_string(sf_in(Some(doc), "session_id"), sf_in(Some(doc), "sessionId")))
}

/// Takes in one record of a session file, read at `now`.
pub fn apply_record(doc: &JsonValue, state: &mut FileState, now: i64)
    ensures
        final(state)@ == after_record(*doc, old(state)@, now),
{
    if state.session_id.is_none() {
        state.session_id = named_session_in(doc);
    }
    match user_title_in(doc) {
        Some(t) => {
            state.activity = Some(t);
            state.status = TaskStatus::Running;
        },
        None => {},
    }
    update_status(doc, state);
    if approval_value_in(doc) {
        let w = waiting_reason_in(doc);
        if w.is_some() {
            state.waiting_reason = w;
        }
    }
    match token_count_in(doc) {
        Some(n) => {
            state.token_count = Some(n);
        },
        None => {},
    }
    if state.activity.is_some() || state.waiting_reason.is_some() || state.token_count.is_some() {
        let u = match record_time_in(doc) {
            Some(t) => t,
            None => now,
        };
        state.updated_at = u;
        state.activity_at = u;
    }
}

/// Takes in the lines of `text`, read at `now`; lines that are not JSON are skipped.
pub fn parse_lines(text: &str, state: &mut FileState, now: i64)
    ensures
        final(state)@ == after_lines(lines(text@), old(state)@, now),
{
    let tc = chars_of(text);
    let ls = split_lines(tc.as_slice());
    let ghost views = ls@.map_values(|l: Vec<char>| l@);
    assert(views == lines(text@));
    let ghost start = state@;
    let mut i: usize = 0;
    assert(views.take(0) =~= Seq::<Seq<char>>::empty());
    while i < ls.len()
        invariant
            i <= ls.len(),
            views == ls@.map_values(|l: Vec<char>| l@),
            state@ == after_lines(views.take(i as int), start, now),
        decreases ls.len() - i,
    {
        assert(views.take(i + 1).drop_last() =~= views.take(i as int));
        assert(views.take(i + 1).last() == ls@[i as int]@);
        let line = string_of(ls[i].as_slice());
        match parse_json(line.as_str()) {
            Ok(doc) => apply_record(&doc, state, now),
            Err(_) => {},
        }
        i = i + 1;
    }
    assert(views.take(ls.len() as int) =~= views);
}


/// The parts of `s` between dashes, as `str::split('-')` gives them.
pub open spec fn dash_parts(s: Seq<char>) -> Seq<Seq<char>>
    decreases s.len(),
{
    if s.len() == 0 {
        seq![Seq::empty()]
    } else {
        let p = dash_parts(s.drop_last());
        if s.last() == '-' {
            p.push(Seq::empty())
        } else {
            p.update(p.len() - 1, p.last().push(s.last()))
        }
    }
}

/// Five parts from `start`, joined with dashes.
pub open spec fn five_joined(parts: Seq<Seq<char>>, start: int) -> Seq<char> {
    parts[start] + seq!['-'] + parts[start + 1] + seq!['-'] + parts[start + 2] + seq!['-'] + parts[start + 3]
        + seq!['-'] + parts[start + 4]
}

/// A hexadecimal digit, in either case.
pub open spec fn is_hex_digit(c: char) -> bool {
    ||| '0' <= c <= '9'
    ||| 'a' <= c <= 'f'
    ||| 'A' <= c <= 'F'
}

/// A UUID in its hyphenated form: 8-4-4-4-12 hexadecimal digits.
pub open spec fn is_hyphenated_uuid(s: Seq<char>) -> bool {
    &&& s.len() == 36
    &&& forall|k: int|
        0 <= k < 36 ==> if k == 8 || k == 13 || k == 18 || k == 23 {
            s[k] == '-'
        } else {
            is_hex_digit(#[trigger] s[k])
        }
}

/// The texts that `uuid::Uuid::parse_str` accepts: 32 hexadecimal digits; the
/// hyphenated form; the hyphenated form in braces; or the hyphenated form after
/// `urn:uuid:` in any letter case.
pub open spec fn is_uuid(s: Seq<char>) -> bool {
    ||| s.len() == 32 && forall|k: int| 0 <= k < 32 ==> is_hex_digit(#[trigger] s[k])
    ||| is_hyphenated_uuid(s)
    ||| s.len() == 38 && s[0] == '{' && s[37] == '}' && is_hyphenated_uuid(s.subrange(1, 37))
    ||| s.len() == 45 && ascii_lower(s.subrange(0, 9)) == "urn:uuid:"@ && is_hyphenated_uuid(s.subrange(9, 45))
}

/// Whether `uuid::Uuid::parse_str` accepts `text`: exactly the texts `is_uuid` lists
/// (its parser looks at bytes, and every text it accepts is ASCII).
#[verifier::external_body]
fn parses_as_uuid(text: &str) -> (r: bool)
    ensures
        r == is_uuid(text@),
{
    uuid::Uuid::parse_str(text).is_ok()
}

/// The first five dash-separated parts, from `start` on, that form a UUID.
pub open spec fn first_uuid(parts: Seq<Seq<char>>, start: int) -> Option<Seq<char>>
    decreases parts.len() - start,
{
    if start < 0 || start + 5 > parts.len() {
        None
    } else if is_uuid(five_joined(parts, start)) {
        Some(five_joined(parts, start))
    } else {
        first_uuid(parts, start + 1)
    }
}

/// The session id embedded in a rollout file name.
pub open spec fn session_of_stem(stem: Seq<char>) -> Option<Seq<char>> {
    first_uuid(dash_parts(stem), 0)
}

fn dash_parts_of(s: &[char]) -> (r: Vec<Vec<char>>)
    ensures
        r@.map_values(|p: Vec<char>| p@) == dash_parts(s@),
{
    let mut r: Vec<Vec<char>> = Vec::new();
    r.push(Vec::new());
    let mut i: usize = 0;
    assert(s@.take(0) =~= Seq::<char>::empty());
    assert(r@.map_values(|p: Vec<char>| p@) =~= dash_parts(Seq::<char>::empty()));
    while i < s.len()
        invariant
            i <= s.len(),
            r@.len() >= 1,
            r@.map_values(|p: Vec<char>| p@) == dash_parts(s@.take(i as int)),
        decreases s.len() - i,
    {
        let ghost before = r@.map_values(|p: Vec<char>| p@);
        assert(s@.take(i + 1).drop_last() =~= s@.take(i as int));
        assert(s@.take(i + 1).last() == s@[i as int]);
        if s[i] == '-' {
            r.push(Vec::new());
            assert(r@.map_values(|p: Vec<char>| p@) =~= before.push(Seq::empty()));
        } else {
            let k = r.len() - 1;
            let mut last = r.pop().unwrap();
            last.push(s[i]);
            r.push(last);
            assert(r@.map_values(|p: Vec<char>| p@) =~= before.update(k as int, before[k as int].push(s@[i as int])));
        }
        i = i + 1;
    }
    assert(s@.take(s.len() as int) =~= s@);
    r
}

fn five_joined_of(parts: &Vec<Vec<char>>, start: usize) -> (r: String)
    requires
        start + 5 <= parts.len(),
    ensures
        r@ == five_joined(parts@.map_values(|p: Vec<char>| p@), start as int),
{
    let mut v: Vec<char> = Vec::new();
    let mut k: usize = 0;
    let ghost ps = parts@.map_values(|p: Vec<char>| p@);
    while k < 5
        invariant
            k <= 5,
            start + 5 <= parts.len(),
            ps == parts@.map_values(|p: Vec<char>| p@),
            k == 0 ==> v@ == Seq::<char>::empty(),
            k >= 1 ==> v@ == five_prefix(ps, start as int, k as int),
        decreases 5 - k,
    {
        if k > 0 {
            v.push('-');
        }
        let part = &parts[start + k];
        let mut j: usize = 0;
        let ghost base = v@;
        while j < part.len()
            invariant
                j <= part.len(),
                v@ == base + part@.take(j as int),
            decreases part.len() - j,
        {
            v.push(part[j]);
            assert(part@.take(j + 1) =~= part@.take(j as int).push(part@[j as int]));
            assert(v@ =~= base + part@.take(j + 1));
            j = j + 1;
        }
        assert(part@.take(part.len() as int) =~= part@);
        assert(ps[start + k] == part@);
        proof {
            if k == 0 {
                assert(v@ =~= five_prefix(ps, start as int, 1));
            } else {
                assert(v@ =~= five_prefix(ps, start as int, k + 1));
            }
        }
        k = k + 1;
    }
    assert(five_prefix(ps, start as int, 5) =~= five_joined(ps, start as int)) by {
        reveal_with_fuel(five_prefix, 5);
    }
    string_of(v.as_slice())
}

/// The first `k` of five parts from `start`, joined with dashes.
pub open spec fn five_prefix(parts: Seq<Seq<char>>, start: int, k: int) -> Seq<char>
    decreases k,
{
    if k <= 1 {
        parts[start]
    } else {
        five_prefix(parts, start, k - 1) + seq!['-'] + parts[start + k - 1]
    }
}

/// The session id embedded in a rollout file name (without its extension): the first
/// five dash-separated parts that form a UUID.
pub fn session_id_from_filename(stem: &str) -> (r: Option<String>)
    ensures
        chars_opt(r) == session_of_stem(stem@),
{
    let sc = chars_of(stem);
    let parts = dash_parts_of(sc.as_slice());
    let ghost ps = parts@.map_values(|p: Vec<char>| p@);
    let n = if parts.len() >= 4 {
        parts.len() - 4
    } else {
        0
    };
    let mut start: usize = 0;
    while start < n
        invariant
            ps == parts@.map_values(|p: Vec<char>| p@),
            ps == dash_parts(stem@),
            n == if parts.len() >= 4 {
                parts.len() - 4
            } else {
                0
            },
            start <= n || n == 0,
            first_uuid(ps, 0) == first_uuid(ps, start as int),
        decreases n - start,
    {
        let candidate = five_joined_of(&parts, start);
        if parses_as_uuid(candidate.as_str()) {
            return Some(candidate);
        }
        start = start + 1;
    }
    None
}


/// The title index entry a line of `session_index.jsonl` gives: the session id and its
/// cleaned title, at most 80 characters.
pub open spec fn index_entry(line: Seq<char>) -> Option<(Seq<char>, Seq<char>)> {
    match parsed_json(line) {
        None => None,
        Some(doc) => {
            let d = Some(doc);
            let id = or_opt(sf(d, "id"@), or_opt(sf(d, "session_id"@), sf(d, "sessionId"@)));
            let title = or_opt(sf(d, "thread_name"@), or_opt(sf(d, "title"@), sf(d, "name"@)));
            match (id, title) {
                (Some(i), Some(t)) => match clean_text(t) {
                    Some(c) => Some((i, take_chars(c, 80))),
                    None => None,
                },
                _ => None,
            }
        },
    }
}

/// The entries of a session index, in order.
pub open spec fn index_entries(ls: Seq<Seq<char>>) -> Seq<(Seq<char>, Seq<char>)>
    decreases ls.len(),
{
    if ls.len() == 0 {
        Seq::empty()
    } else {
        let rest = index_entries(ls.drop_last());
        match index_entry(ls.last()) {
            Some(e) => rest.push(e),
            None => rest,
        }
    }
}

/// The title the index gives a session: its last entry wins.
pub open spec fn title_of(entries: Seq<(Seq<char>, Seq<char>)>, id: Seq<char>) -> Option<Seq<char>>
    decreases entries.len(),
{
    if entries.len() == 0 {
        None
    } else if entries.last().0 == id {
        Some(entries.last().1)
    } else {
        title_of(entries.drop_last(), id)
    }
}

/// The characters of a list of string pairs.
pub open spec fn pair_views(v: Seq<(String, String)>) -> Seq<(Seq<char>, Seq<char>)> {
    v.map_values(|p: (String, String)| (p.0@, p.1@))
}

fn index_entry_in(line: &str) -> (r: Option<(String, String)>)
    ensures
        match r {
            Some(p) => index_entry(line@) == Some((p.0@, p.1@)),
            None => index_entry(line@) is None,
        },
{
    let doc = match parse_json(line) {
        Ok(d) => d,
        Err(_) => return None,
    };
    let d = Some(&doc);
    let id = or_string(sf_in(d, "id"), or_string(sf_in(d, "session_id"), sf_in(d, "sessionId")));
    let title = or_string(sf_in(d, "thread_name"), or_string(sf_in(d, "title"), sf_in(d, "name")));
    match (id, title) {
        (Some(i), Some(t)) => {
            let tc = chars_of(t.as_str());
            match clean_text_chars(tc.as_slice()) {
                Some(c) => Some((i, string_of(take_chars_exec(c.as_slice(), 80).as_slice()))),
                None => None,
            }
        },
        _ => None,
    }
}

/// The session titles listed in the text of `session_index.jsonl`.
pub fn load_session_titles(text: &str) -> (r: Vec<(String, String)>)
    ensures
        pair_views(r@) == index_entries(lines(text@)),
{
    let tc = chars_of(text);
    let ls = split_lines(tc.as_slice());
    let ghost views = ls@.map_values(|l: Vec<char>| l@);
    let mut r: Vec<(String, String)> = Vec::new();
    let mut i: usize = 0;
    while i < ls.len()
        invariant
            i <= ls.len(),
            views == ls@.map_values(|l: Vec<char>| l@),
            pair_views(r@) == index_entries(views.take(i as int)),
        decreases ls.len() - i,
    {
        assert(views.take(i + 1).drop_last() =~= views.take(i as int));
        assert(views.take(i + 1).last() == ls@[i as int]@);
        let line = string_of(ls[i].as_slice());
        match index_entry_in(line.as_str()) {
            Some(e) => {
                let ghost before = pair_views(r@);
                r.push(e);
                assert(pair_views(r@) =~= before.push((e.0@, e.1@)));
            },
            None => {},
        }
        i = i + 1;
    }
    assert(views.take(ls.len() as int) =~= views);
    r
}

fn title_in(titles: &Vec<(String, String)>, id: &str) -> (r: Option<String>)
    ensures
        chars_opt(r) == title_of(pair_views(titles@), id@),
{
    let mut i: usize = titles.len();
    let ghost pv = pair_views(titles@);
    assert(pv.take(i as int) =~= pv);
    while i > 0
        invariant
            i <= titles.len(),
            pv == pair_views(titles@),
            title_of(pv, id@) == title_of(pv.take(i as int), id@),
        decreases i,
    {
        let ghost t = pv.take(i as int);
        assert(t.drop_last() =~= pv.take(i - 1));
        assert(t.last() == (titles@[i - 1].0@, titles@[i - 1].1@));
        if crate::text::str_eq(titles[i - 1].0.as_str(), id) {
            return Some(titles[i - 1].1.clone());
        }
        i = i - 1;
    }
    None
}

/// Seconds after its last change a session file is still scanned.
pub open spec fn active_file_window() -> int {
    1800
}

/// Most session files scanned at once.
pub open spec fn max_active_files() -> int {
    64
}

/// Where a file changed at `key` goes among files sorted newest first: after those
/// changed at the same time or later.
pub open spec fn recency_pos(sorted: Seq<(String, i64)>, key: i64) -> nat
    decreases sorted.len(),
{
    if sorted.len() == 0 || sorted[0].1 < key {
        0
    } else {
        1 + recency_pos(sorted.drop_first(), key)
    }
}

/// Stable sort of files, most recently changed first.
pub open spec fn by_recency(s: Seq<(String, i64)>) -> Seq<(String, i64)>
    decreases s.len(),
{
    if s.len() == 0 {
        s
    } else {
        let t = by_recency(s.drop_last());
        t.insert(recency_pos(t, s.last().1) as int, s.last())
    }
}

/// The recently changed files among `sorted`, in order, at most `max_active_files()`.
pub open spec fn recent_files(sorted: Seq<(String, i64)>, now: i64) -> Seq<Seq<char>>
    decreases sorted.len(),
{
    if sorted.len() == 0 {
        Seq::empty()
    } else {
        let rest = recent_files(sorted.drop_last(), now);
        if sat_sub(now, sorted.last().1) <= active_file_window() && rest.len() < max_active_files() {
            rest.push(sorted.last().0@)
        } else {
            rest
        }
    }
}

/// The files a scan reads: the recently changed ones, newest first, at most 64; when
/// none changed recently, the newest file alone.
pub open spec fn files_to_scan(candidates: Seq<(String, i64)>, now: i64) -> Seq<Seq<char>> {
    let sorted = by_recency(candidates);
    let recent = recent_files(sorted, now);
    if recent.len() == 0 && sorted.len() > 0 {
        seq![sorted[0].0@]
    } else {
        recent
    }
}

fn recency_position(sorted: &Vec<(String, i64)>, key: i64) -> (p: usize)
    ensures
        p == recency_pos(sorted@, key),
        p <= sorted.len(),
{
    let mut p: usize = 0;
    assert(sorted@.skip(0) =~= sorted@);
    while p < sorted.len() && sorted[p].1 >= key
        invariant
            p <= sorted.len(),
            recency_pos(sorted@, key) == p + recency_pos(sorted@.skip(p as int), key),
        decreases sorted.len() - p,
    {
        proof {
            let t = sorted@.skip(p as int);
            assert(t[0] == sorted@[p as int]);
            assert(t.drop_first() =~= sorted@.skip(p + 1));
        }
        p = p + 1;
    }
    proof {
        let t = sorted@.skip(p as int);
        if p < sorted.len() {
            assert(t[0] == sorted@[p as int]);
        }
    }
    p
}

proof fn lemma_recent_files_len(sorted: Seq<(String, i64)>, now: i64)
    ensures
        recent_files(sorted, now).len() <= max_active_files(),
        recent_files(sorted, now).len() <= sorted.len(),
    decreases sorted.len(),
{
    if sorted.len() > 0 {
        lemma_recent_files_len(sorted.drop_last(), now);
    }
}

/// Chooses the session files a scan reads, from their paths and change times.
pub fn select_files(candidates: Vec<(String, i64)>, now: i64) -> (r: Vec<String>)
    ensures
        r@.map_values(|s: String| s@) == files_to_scan(candidates@, now),
{
    let mut sorted: Vec<(String, i64)> = Vec::new();
    let mut i: usize = 0;
    while i < candidates.len()
        invariant
            i <= candidates.len(),
            sorted@ == by_recency(candidates@.take(i as int)),
        decreases candidates.len() - i,
    {
        assert(candidates@.take(i + 1).drop_last() =~= candidates@.take(i as int));
        let x = (candidates[i].0.clone(), candidates[i].1);
        assert(x == candidates@[i as int]);
        let p = recency_position(&sorted, x.1);
        sorted.insert(p, x);
        i = i + 1;
    }
    assert(candidates@.take(candidates.len() as int) =~= candidates@);
    let mut r: Vec<String> = Vec::new();
    let mut j: usize = 0;
    while j < sorted.len()
        invariant
            j <= sorted.len(),
            r@.map_values(|s: String| s@) == recent_files(sorted@.take(j as int), now),
        decreases sorted.len() - j,
    {
        let ghost before = r@.map_values(|s: String| s@);
        assert(sorted@.take(j + 1).drop_last() =~= sorted@.take(j as int));
        assert(sorted@.take(j + 1).last() == sorted@[j as int]);
        proof {
            lemma_recent_files_len(sorted@.take(j as int), now);
        }
        if sat_sub_exec(now, sorted[j].1) <= 1800 && r.len() < 64 {
            r.push(sorted[j].0.clone());
            assert(r@.map_values(|s: String| s@) =~= before.push(sorted@[j as int].0@));
        }
        j = j + 1;
    }
    assert(sorted@.take(sorted.len() as int) =~= sorted@);
    if r.len() == 0 && sorted.len() > 0 {
        let mut only: Vec<String> = Vec::new();
        only.push(sorted[0].0.clone());
        assert(only@.map_values(|s: String| s@) =~= seq![sorted@[0].0@]);
        only
    } else {
        r
    }
}


/// Bytes read from the start of a long file the first time it is seen.
pub open spec fn head_bytes() -> int {
    131072
}

/// Bytes read from the end of a long file the first time it is seen.
pub open spec fn tail_bytes() -> int {
    786432
}

/// What to read next from a session file: the first `head` bytes, then everything
/// from byte `from` to the end.
#[derive(Debug, Clone, Copy, PartialEq, Eq)]
pub struct ReadPlan {
    pub head: Option<u64>,
    pub from: Option<u64>,
}

/// A file state forgotten, as when the file has been truncated.
pub open spec fn cleared(v: FileView) -> FileView {
    FileView {
        offset: 0,
        session_id: None,
        activity: None,
        status: TaskStatus::Inactive,
        turn_id: None,
        waiting_reason: None,
        approval_request_id: None,
        token_count: None,
        updated_at: 0,
        activity_at: 0,
        ..v
    }
}

/// The state after planning a read of a file now `len` bytes long, and the plan. A file
/// seen for the first time is read from its head and its last part only; a file that
/// shrank is forgotten and read again from the start. Planning does not move the
/// offset: it moves when the text read is taken in.
pub open spec fn planned(v: FileView, len: u64) -> (FileView, ReadPlan) {
    let first = v.offset == 0 && len > tail_bytes();
    let v1 = if v.offset != 0 && len < v.offset {
        cleared(v)
    } else {
        v
    };
    let start: u64 = if first {
        (len - tail_bytes()) as u64
    } else {
        v1.offset
    };
    let head = if first {
        Some(
            if len < head_bytes() {
                len
            } else {
                head_bytes() as u64
            },
        )
    } else {
        None
    };
    (v1, ReadPlan {
        head,
        from: if start < len {
            Some(start)
        } else {
            None
        },
    })
}

impl FileState {
    /// A field-by-field copy.
    pub fn duplicate(&self) -> (r: Self)
        ensures
            r@ == self@,
    {
        FileState {
            offset: self.offset,
            session_id: crate::text::copy_opt_string(&self.session_id),
            activity: crate::text::copy_opt_string(&self.activity),
            status: self.status,
            turn_id: crate::text::copy_opt_string(&self.turn_id),
            waiting_reason: crate::text::copy_opt_string(&self.waiting_reason),
            approval_request_id: crate::text::copy_opt_string(&self.approval_request_id),
            token_count: self.token_count,
            updated_at: self.updated_at,
            activity_at: self.activity_at,
            modified_at: self.modified_at,
        }
    }

    /// Plans the next read of the file, now `len` bytes long; a file that shrank is
    /// forgotten first.
    pub fn plan_read(&mut self, len: u64) -> (r: ReadPlan)
        ensures
            (final(self)@, r) == planned(old(self)@, len),
    {
        let mut head: Option<u64> = None;
        let mut start: u64 = self.offset;
        if self.offset == 0 {
            if len > 786432 {
                head = Some(if len < 131072 {
                    len
                } else {
                    131072
                });
                start = len - 786432;
            }
        } else if len < self.offset {
            self.offset = 0;
            self.session_id = None;
            self.activity = None;
            self.status = TaskStatus::Inactive;
            self.turn_id = None;
            self.waiting_reason = None;
            self.approval_request_id = None;
            self.token_count = None;
            self.updated_at = 0;
            self.activity_at = 0;
            start = 0;
        }
        ReadPlan {
            head,
            from: if start < len {
                Some(start)
            } else {
                None
            },
        }
    }
}

/// Seconds a running or waiting session stays visible after its file last changed.
pub open spec fn active_visible_seconds() -> int {
    900
}

/// Title of a session with neither an indexed title nor a request.
pub open spec fn default_session_title() -> Seq<char> {
    "Codex 对话"@
}

/// `r` is the task row a session file stands for: `None` when it has no id or shows
/// nothing worth a row.
pub open spec fn file_task(
    v: FileView,
    titles: Seq<(Seq<char>, Seq<char>)>,
    stem: Option<Seq<char>>,
    now: i64,
    r: Option<TaskSummary>,
) -> bool {
    let file_id = match stem {
        Some(st) => session_of_stem(st),
        None => None,
    };
    let titled = match file_id {
        Some(f) => if title_of(titles, f) is Some {
            Some(f)
        } else {
            None
        },
        None => None,
    };
    let id = or_opt(titled, or_opt(v.session_id, or_opt(file_id, stem)));
    let age = sat_sub(now, v.modified_at);
    let status = if (v.status == TaskStatus::Running || v.status == TaskStatus::NeedsAction) && age
        <= active_visible_seconds() {
        v.status
    } else if v.status == TaskStatus::Completed && age <= crate::poller::completed_visible_seconds() {
        TaskStatus::Completed
    } else {
        TaskStatus::Inactive
    };
    if id is None || (v.activity is None && v.token_count is None && v.waiting_reason is None && status
        == TaskStatus::Inactive) {
        r is None
    } else {
        r matches Some(t) && {
            &&& t.id@ == id->0
            &&& t.title@ == match or_opt(title_of(titles, id->0), v.activity) {
                Some(x) => x,
                None => default_session_title(),
            }
            &&& chars_opt(t.activity) == v.activity
            &&& chars_opt(t.waiting_reason) == v.waiting_reason
            &&& chars_opt(t.approval_request_id) == v.approval_request_id
            &&& t.status == status
            &&& t.token_count == v.token_count
            &&& t.updated_at == max_i64(v.updated_at, v.modified_at)
            &&& !t.acknowledged
            &&& chars_opt(t.source) == Some("local-session"@)
            &&& chars_opt(t.turn_id) == v.turn_id
            &&& t.received_at == now
        }
    }
}

/// The session index names a session: whenever the index has a title for the row's
/// session, the row shows that title, whatever the file's own request says.
pub proof fn law_index_title_wins(
    v: FileView,
    titles: Seq<(Seq<char>, Seq<char>)>,
    stem: Option<Seq<char>>,
    now: i64,
    t: TaskSummary,
    x: Seq<char>,
)
    requires
        file_task(v, titles, stem, now, Some(t)),
        title_of(titles, t.id@) == Some(x),
    ensures
        t.title@ == x,
{
}

/// Builds the task row of a session file.
pub fn task_of_file(state: &FileState, titles: &Vec<(String, String)>, stem: Option<&str>, now: i64) -> (r:
    Option<TaskSummary>)
    ensures
        file_task(
            state@,
            pair_views(titles@),
            match stem {
                Some(s) => Some(s@),
                None => None,
            },
            now,
            r,
        ),
{
    let file_id = match stem {
        Some(st) => session_id_from_filename(st),
        None => None,
    };
    let titled = match &file_id {
        Some(f) => if title_in(titles, f.as_str()).is_some() {
            Some(f.clone())
        } else {
            None
        },
        None => None,
    };
    let stem_owned = match stem {
        Some(st) => Some(st.to_owned()),
        None => None,
    };
    let id = match or_string(
        titled,
        or_string(crate::text::copy_opt_string(&state.session_id), or_string(file_id, stem_owned)),
    ) {
        Some(id) => id,
        None => return None,
    };
    let age = sat_sub_exec(now, state.modified_at);
    let status = if (state.status == TaskStatus::Running || state.status == TaskStatus::NeedsAction) && age <= 900 {
        state.status
    } else if state.status == TaskStatus::Completed && age <= 21600 {
        TaskStatus::Completed
    } else {
        TaskStatus::Inactive
    };
    if state.activity.is_none() && state.token_count.is_none() && state.waiting_reason.is_none() && status
        == TaskStatus::Inactive {
        return None;
    }
    let title = match or_string(title_in(titles, id.as_str()), crate::text::copy_opt_string(&state.activity)) {
        Some(t) => t,
        None => "Codex 对话".to_owned(),
    };
    Some(
        TaskSummary {
            id,
            title,
            activity: crate::text::copy_opt_string(&state.activity),
            waiting_reason: crate::text::copy_opt_string(&state.waiting_reason),
            approval_request_id: crate::text::copy_opt_string(&state.approval_request_id),
            status,
            token_count: state.token_count,
            updated_at: max_of(state.updated_at, state.modified_at),
            acknowledged: false,
            source: Some("local-session".to_owned()),
            turn_id: crate::text::copy_opt_string(&state.turn_id),
            received_at: now,
        },
    )
}

/// Index of the first file entry with the given path.
pub open spec fn file_index(files: Seq<(Seq<char>, FileView)>, path: Seq<char>) -> Option<int>
    decreases files.len(),
{
    if files.len() == 0 {
        None
    } else {
        match file_index(files.drop_last(), path) {
            Some(i) => Some(i),
            None => if files.last().0 == path {
                Some(files.len() - 1)
            } else {
                None
            },
        }
    }
}

/// No path has two entries.
pub open spec fn paths_once(files: Seq<(Seq<char>, FileView)>) -> bool {
    forall|a: int, b: int| 0 <= a < b < files.len() ==> files[a].0 != files[b].0
}

proof fn lemma_file_index(files: Seq<(Seq<char>, FileView)>, path: Seq<char>)
    ensures
        match file_index(files, path) {
            Some(i) => 0 <= i < files.len() && files[i].0 == path,
            None => forall|k: int| 0 <= k < files.len() ==> (#[trigger] files[k]).0 != path,
        },
    decreases files.len(),
{
    if files.len() > 0 {
        let d = files.drop_last();
        lemma_file_index(d, path);
        match file_index(d, path) {
            Some(i) => {
                assert(d[i] == files[i]);
            },
            None => {
                assert(files[files.len() - 1] == files.last());
                if files.last().0 != path {
                    assert forall|k: int| 0 <= k < files.len() implies (#[trigger] files[k]).0 != path by {
                        if k < d.len() {
                            assert(d[k] == files[k]);
                        } else {
                            assert(files[k] == files.last());
                        }
                    }
                }
            },
        }
    }
}

/// Session files under a root directory, what has been read of each, and the titles
/// of the session index.
pub struct RolloutWatcher {
    root: String,
    files: Vec<(String, FileState)>,
    titles: Vec<(String, String)>,
}

impl RolloutWatcher {
    /// The directory the session files are under.
    pub closed spec fn root_dir(&self) -> Seq<char> {
        self.root@
    }

    /// Each file's path and what has been read of it.
    pub closed spec fn file_states(&self) -> Seq<(Seq<char>, FileView)> {
        self.files@.map_values(|e: (String, FileState)| (e.0@, e.1@))
    }

    /// The titles of the session index.
    pub closed spec fn session_titles(&self) -> Seq<(Seq<char>, Seq<char>)> {
        pair_views(self.titles@)
    }

    /// A watcher of the session files under `root`, with nothing read yet.
    pub fn new(root: String) -> (r: Self)
        ensures
            r.root_dir() == root@,
            r.file_states().len() == 0,
            paths_once(r.file_states()),
            r.session_titles().len() == 0,
    {
        let r = RolloutWatcher { root, files: Vec::new(), titles: Vec::new() };
        assert(r.file_states() =~= Seq::empty());
        assert(r.session_titles() =~= Seq::empty());
        r
    }

    /// The directory the session files are under.
    pub fn root(&self) -> (r: &String)
        ensures
            r@ == self.root_dir(),
    {
        &self.root
    }

    /// Replaces the session titles by those of the index text; no text, no titles.
    pub fn set_titles(&mut self, index_text: Option<&str>)
        ensures
            final(self).session_titles() == match index_text {
                Some(t) => index_entries(lines(t@)),
                None => Seq::empty(),
            },
            final(self).file_states() == old(self).file_states(),
            final(self).root_dir() == old(self).root_dir(),
    {
        self.titles = match index_text {
            Some(t) => load_session_titles(t),
            None => Vec::new(),
        };
        assert(index_text is None ==> pair_views(self.titles@) =~= Seq::empty());
    }

    fn find_file(&self, path: &str) -> (r: Option<usize>)
        ensures
            match r {
                Some(i) => file_index(self.file_states(), path@) == Some(i as int) && i < self.files.len(),
                None => file_index(self.file_states(), path@) is None,
            },
    {
        let ghost fs = self.file_states();
        let mut i: usize = 0;
        while i < self.files.len()
            invariant
                i <= self.files.len(),
                fs == self.file_states(),
                fs.len() == self.files.len(),
                file_index(fs.take(i as int), path@) is None,
            decreases self.files.len() - i,
        {
            assert(fs.take(i + 1).drop_last() =~= fs.take(i as int));
            assert(fs.take(i + 1).last() == fs[i as int]);
            if crate::text::str_eq(self.files[i].0.as_str(), path) {
                proof {
                    lemma_file_index_prefix(fs, i as int, path@);
                }
                return Some(i);
            }
            i = i + 1;
        }
        assert(fs.take(fs.len() as int) =~= fs);
        None
    }

    /// Plans the next read of the file at `path`, now `len` bytes long and changed at
    /// `modified_at`; a file not seen before starts unread.
    pub fn begin_read(&mut self, path: &str, len: u64, modified_at: i64) -> (r: ReadPlan)
        ensures
            ({
                let before = match file_index(old(self).file_states(), path@) {
                    Some(i) => old(self).file_states()[i].1,
                    None => unread(),
                };
                let p = planned(FileView { modified_at, ..before }, len);
                &&& r == p.1
                &&& match file_index(old(self).file_states(), path@) {
                    Some(i) => final(self).file_states() == old(self).file_states().update(i, (path@, p.0)),
                    None => final(self).file_states() == old(self).file_states().push((path@, p.0)),
                }
            }),
            paths_once(old(self).file_states()) ==> paths_once(final(self).file_states()),
            final(self).session_titles() == old(self).session_titles(),
            final(self).root_dir() == old(self).root_dir(),
    {
        let found = self.find_file(path);
        let (i, mut st) = match found {
            Some(i) => (i, self.files[i].1.duplicate()),
            None => (self.files.len(), FileState::fresh()),
        };
        st.modified_at = modified_at;
        let plan = st.plan_read(len);
        let ghost fs = self.file_states();
        proof {
            lemma_file_index(fs, path@);
        }
        if i < self.files.len() {
            self.files.set(i, (path.to_owned(), st));
            assert(self.file_states() =~= fs.update(i as int, (path@, st@)));
        } else {
            self.files.push((path.to_owned(), st));
            assert(self.file_states() =~= fs.push((path@, st@)));
        }
        plan
    }

    /// Takes in text read from the file at `path`, at `now`, whose reading reached byte
    /// `end`: the offset moves to `end`, then the lines are taken in. A file never
    /// planned is left alone.
    pub fn absorb(&mut self, path: &str, text: &str, end: u64, now: i64)
        ensures
            match file_index(old(self).file_states(), path@) {
                Some(i) => final(self).file_states() == old(self).file_states().update(
                    i,
                    (path@, after_lines(lines(text@), FileView { offset: end, ..old(self).file_states()[i].1 }, now)),
                ),
                None => final(self).file_states() == old(self).file_states(),
            },
            paths_once(old(self).file_states()) ==> paths_once(final(self).file_states()),
            final(self).session_titles() == old(self).session_titles(),
            final(self).root_dir() == old(self).root_dir(),
    {
        proof {
            lemma_file_index(self.file_states(), path@);
        }
        match self.find_file(path) {
            Some(i) => {
                let mut st = self.files[i].1.duplicate();
                st.offset = end;
                parse_lines(text, &mut st, now);
                let ghost fs = self.file_states();
                self.files.set(i, (path.to_owned(), st));
                assert(self.file_states() =~= fs.update(i as int, (path@, st@)));
            },
            None => {},
        }
    }

    /// The task row of the file at `path`, whose name without extension is `stem`.
    pub fn task_for(&self, path: &str, stem: Option<&str>, now: i64) -> (r: Option<TaskSummary>)
        ensures
            match file_index(self.file_states(), path@) {
                Some(i) => file_task(
                    self.file_states()[i].1,
                    self.session_titles(),
                    match stem {
                        Some(s) => Some(s@),
                        None => None,
                    },
                    now,
                    r,
                ),
                None => r is None,
            },
    {
        match self.find_file(path) {
            Some(i) => task_of_file(&self.files[i].1, &self.titles, stem, now),
            None => None,
        }
    }
}

proof fn lemma_file_index_prefix(files: Seq<(Seq<char>, FileView)>, i: int, path: Seq<char>)
    requires
        0 <= i < files.len(),
        file_index(files.take(i), path) is None,
        files[i].0 == path,
    ensures
        file_index(files, path) == Some(i),
    decreases files.len(),
{
    if i + 1 < files.len() {
        let d = files.drop_last();
        assert(d.take(i) =~= files.take(i));
        lemma_file_index_prefix(d, i, path);
    } else {
        assert(files.drop_last() =~= files.take(i));
    }
}


/// A user's message never turns a task red by itself, whatever words it holds: only an
/// approval record does.
pub proof fn law_user_message_never_asks_for_approval(doc: JsonValue, v: FileView, now: i64)
    requires
        record_type(doc) == "response_item"@,
        payload_type(doc) == "message"@,
        v.status != TaskStatus::NeedsAction,
    ensures
        after_record(doc, v, now).status != TaskStatus::NeedsAction,
{
    reveal_strlit("message");
    reveal_strlit("approval");
    reveal_strlit("request_user_input");
    reveal_strlit("needs_action");
    let pt = payload_type(doc);
    assert(!has_infix(pt, "approval"@)) by {
        assert forall|i: int| !crate::text::occurs_at(pt, "approval"@, i) by {}
    }
    assert(!has_infix(pt, "request_user_input"@)) by {
        assert forall|i: int| !crate::text::occurs_at(pt, "request_user_input"@, i) by {}
    }
    assert(!has_infix(pt, "needs_action"@)) by {
        assert forall|i: int| !crate::text::occurs_at(pt, "needs_action"@, i) by {}
    }
}

} // verus!

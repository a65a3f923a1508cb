//! Short, redacted explanations of why Codex data could not be read.
use vstd::prelude::*;
use crate::codex_client::CodexError;
use crate::text::{ascii_lower, ascii_lower_str, contains_chars, chars_of, has_infix, lower_char, occurs_at};

verus! {

#[derive(Debug, Clone, Copy, PartialEq, Eq, Structural)]
pub enum DiagnosticCategory {
    NotLoggedIn,
    AppServerUnavailable,
    ProtocolMismatch,
    NetworkUnavailable,
    Timeout,
    MalformedResponse,
}

/// A diagnostic record: when, what, and for which snapshot schema.
#[derive(Debug, Clone, PartialEq, Eq)]
pub struct Diagnostic {
    pub timestamp: i64,
    pub category: DiagnosticCategory,
    pub schema_version: String,
}

pub open spec fn message_of(c: DiagnosticCategory) -> Seq<char> {
    match c {
        DiagnosticCategory::NotLoggedIn => "Codex 未登录，请先在 Codex 中登录"@,
        DiagnosticCategory::AppServerUnavailable => "Codex app-server 暂时不可用"@,
        DiagnosticCategory::ProtocolMismatch => "Codex 协议版本不兼容"@,
        DiagnosticCategory::NetworkUnavailable => "局域网连接不可用"@,
        DiagnosticCategory::Timeout => "读取 Codex 数据超时"@,
        DiagnosticCategory::MalformedResponse => "Codex 返回的数据格式异常"@,
    }
}

/// No character of `s` is a `k` in either case.
pub open spec fn free_of_k(s: Seq<char>) -> bool {
    forall|j: int| 0 <= j < s.len() ==> #[trigger] s[j] != 'k' && s[j] != 'K'
}

proof fn lemma_no_token_without_k(s: Seq<char>)
    requires
        free_of_k(s),
    ensures
        !has_infix(ascii_lower(s), "token"@),
{
    reveal_strlit("token");
    let l = ascii_lower(s);
    assert forall|i: int| !occurs_at(l, "token"@, i) by {
        if occurs_at(l, "token"@, i) {
            assert(l.subrange(i, i + 5)[2] == 'k');
            assert(l[i + 2] == lower_char(s[i + 2]));
            assert(s[i + 2] != 'k' && s[i + 2] != 'K');
        }
    }
}

proof fn lemma_message_free_of_k(c: DiagnosticCategory)
    ensures
        free_of_k(message_of(c)),
        message_of(c).len() > 0,
{
    reveal_strlit("Codex 未登录，请先在 Codex 中登录");
    reveal_strlit("Codex app-server 暂时不可用");
    reveal_strlit("Codex 协议版本不兼容");
    reveal_strlit("局域网连接不可用");
    reveal_strlit("读取 Codex 数据超时");
    reveal_strlit("Codex 返回的数据格式异常");
}

/// Each category has its own non-empty message, and no message mentions a token, in
/// any letter case.
pub proof fn law_messages_are_distinct_and_redacted(a: DiagnosticCategory, b: DiagnosticCategory)
    ensures
        a != b ==> message_of(a) != message_of(b),
        message_of(a).len() > 0,
        !has_infix(ascii_lower(message_of(a)), "token"@),
{
    reveal_strlit("Codex 未登录，请先在 Codex 中登录");
    reveal_strlit("Codex app-server 暂时不可用");
    reveal_strlit("Codex 协议版本不兼容");
    reveal_strlit("局域网连接不可用");
    reveal_strlit("读取 Codex 数据超时");
    reveal_strlit("Codex 返回的数据格式异常");
    lemma_message_free_of_k(a);
    lemma_no_token_without_k(message_of(a));
    if a != b && message_of(a) == message_of(b) {
        assert(message_of(a)[0] == message_of(b)[0]);
        assert(message_of(a).len() == message_of(b).len());
        assert(message_of(a)[6] == message_of(b)[6]);
    }
}

impl DiagnosticCategory {
    /// The text shown to the user for this category.
    pub fn message(self) -> (r: &'static str)
        ensures
            r@ == message_of(self),
    {
        match self {
            DiagnosticCategory::NotLoggedIn => "Codex 未登录，请先在 Codex 中登录",
            DiagnosticCategory::AppServerUnavailable => "Codex app-server 暂时不可用",
            DiagnosticCategory::ProtocolMismatch => "Codex 协议版本不兼容",
            DiagnosticCategory::NetworkUnavailable => "局域网连接不可用",
            DiagnosticCategory::Timeout => "读取 Codex 数据超时",
            DiagnosticCategory::MalformedResponse => "Codex 返回的数据格式异常",
        }
    }
}

/// The category of an app-server error text, read case-insensitively: a timeout is
/// named before a bare connection failure, and any other connection failure counts as
/// the network's.
pub open spec fn response_category(text: Seq<char>) -> DiagnosticCategory {
    let t = ascii_lower(text);
    if has_infix(t, "unauthenticated"@) || has_infix(t, "login"@) {
        DiagnosticCategory::NotLoggedIn
    } else if has_infix(t, "network"@) || has_infix(t, "connection reset"@) || has_infix(
        t,
        "connection refused"@,
    ) {
        DiagnosticCategory::NetworkUnavailable
    } else if has_infix(t, "timed out"@) || has_infix(t, "timeout"@) {
        DiagnosticCategory::Timeout
    } else if has_infix(t, "connection"@) {
        DiagnosticCategory::NetworkUnavailable
    } else {
        DiagnosticCategory::ProtocolMismatch
    }
}

pub open spec fn error_category(e: CodexError) -> DiagnosticCategory {
    match e {
        CodexError::Timeout => DiagnosticCategory::Timeout,
        CodexError::Spawn(_) | CodexError::ProcessExited => DiagnosticCategory::AppServerUnavailable,
        CodexError::Protocol(_) => DiagnosticCategory::MalformedResponse,
        CodexError::Json(_) => DiagnosticCategory::ProtocolMismatch,
        CodexError::Response(text) => response_category(text@),
    }
}

fn has(t: &Vec<char>, p: &str) -> (r: bool)
    ensures
        r == has_infix(t@, p@),
{
    let pc = chars_of(p);
    contains_chars(t.as_slice(), pc.as_slice())
}

pub fn classify_response(text: &str) -> (r: DiagnosticCategory)
    ensures
        r == response_category(text@),
{
    let t = ascii_lower_str(text);
    if has(&t, "unauthenticated") || has(&t, "login") {
        return DiagnosticCategory::NotLoggedIn;
    }
    if has(&t, "network") || has(&t, "connection reset") || has(&t, "connection refused") {
        return DiagnosticCategory::NetworkUnavailable;
    }
    if has(&t, "timed out") || has(&t, "timeout") {
        return DiagnosticCategory::Timeout;
    }
    if has(&t, "connection") {
        return DiagnosticCategory::NetworkUnavailable;
    }
    DiagnosticCategory::ProtocolMismatch
}

pub fn classify(error: &CodexError) -> (r: DiagnosticCategory)
    ensures
        r == error_category(*error),
{
    match error {
        CodexError::Timeout => DiagnosticCategory::Timeout,
        CodexError::Spawn(_) | CodexError::ProcessExited => DiagnosticCategory::AppServerUnavailable,
        CodexError::Protocol(_) => DiagnosticCategory::MalformedResponse,
        CodexError::Json(_) => DiagnosticCategory::ProtocolMismatch,
        CodexError::Response(text) => classify_response(text.as_str()),
    }
}

/// Whole seconds from the Unix epoch to `SystemTime::now()`, from
/// `SystemTime::duration_since` and `Duration::as_secs`; `None` when the clock reads
/// before the epoch. What the clock reads is left unsaid.
#[verifier::external_body]
pub(crate) fn seconds_since_epoch() -> (r: Option<u64>)
{
    std::time::SystemTime::now().duration_since(std::time::UNIX_EPOCH).ok().map(|d| d.as_secs())
}

/// The time stamp of a clock reading: its seconds taken as an `i64`, and 0 before the
/// epoch.
pub open spec fn stamp_of(reading: Option<u64>) -> i64 {
    match reading {
        Some(s) => s as i64,
        None => 0,
    }
}

/// The time stamp of a clock reading, as `stamp_of` states it.
pub fn stamp(reading: Option<u64>) -> (r: i64)
    ensures
        r == stamp_of(reading),
{
    match reading {
        Some(s) => s as i64,
        None => 0,
    }
}

/// Seconds since the Unix epoch on the system clock, or 0 before the epoch.
pub(crate) fn unix_now() -> (r: i64)
    ensures
        exists|reading: Option<u64>| r == stamp_of(reading),
{
    let reading = seconds_since_epoch();
    stamp(reading)
}

/// A diagnostic stamped with the given time.
pub fn diagnostic_at(category: DiagnosticCategory, schema_version: &str, timestamp: i64) -> (r: Diagnostic)
    ensures
        r.timestamp == timestamp,
        r.category == category,
        r.schema_version@ == schema_version@,
{
    Diagnostic { timestamp, category, schema_version: schema_version.to_owned() }
}

/// A diagnostic stamped with the current time: the clock's seconds since the Unix
/// epoch, or 0 when the clock reads before the epoch.
pub fn diagnostic(category: DiagnosticCategory, schema_version: &str) -> (r: Diagnostic)
    ensures
        r.category == category,
        r.schema_version@ == schema_version@,
        exists|reading: Option<u64>| r.timestamp == stamp_of(reading),
{
    let reading = seconds_since_epoch();
    diagnostic_at(category, schema_version, stamp(reading))
}

} // verus!

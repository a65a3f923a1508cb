//! Decisions of the app-server client that do not need the process itself.
use vstd::prelude::*;
use crate::codex_protocol::ProtocolError;
use crate::json::{get, get_member, id_text, id_text_of, json_pos_u64, json_str, pos_u64_of, str_of, JsonValue};
use crate::text::{ascii_lower, ascii_lower_str, has_infix, has_text, str_eq};

verus! {

#[verifier::external_type_specification]
#[verifier::external_body]
pub struct ExIoError(std::io::Error);

/// Why a request to the Codex app-server failed.
#[derive(Debug)]
pub enum CodexError {
    /// The process could not be started, or writing to it failed.
    Spawn(std::io::Error),
    Timeout,
    ProcessExited,
    Protocol(ProtocolError),
    Json(serde_json::Error),
    /// The app-server answered with an error.
    Response(String),
}


/// Seconds a request to the app-server may take.
pub const REQUEST_TIMEOUT_SECONDS: u64 = 10;

/// What a line the app-server wrote is.
#[derive(Debug)]
pub enum Incoming {
    /// A notification or a request of the app-server; a request for the user's
    /// decision carries the key its answer is filed under.
    Message { approval_key: Option<String> },
    /// The answer to the request with this id.
    Response(u64),
    /// Anything else.
    Other,
}

/// Requests of the app-server that wait for the user's decision.
pub open spec fn asks_user(method: Seq<char>) -> bool {
    let m = ascii_lower(method);
    has_infix(m, "requestapproval"@) || has_infix(m, "requestuserinput"@) || has_infix(m, "elicitation/request"@)
}

/// How a line from the app-server is routed: anything with a method goes to the
/// notification stream (a decision request also files its id), else a numeric id
/// answers a pending request.
pub open spec fn routed(doc: JsonValue, r: Incoming) -> bool {
    if get(Some(doc), "method"@) is Some {
        let method = match json_str(get(Some(doc), "method"@)) {
            Some(m) => m,
            None => Seq::empty(),
        };
        r matches Incoming::Message { approval_key } && match approval_key {
            Some(k) => asks_user(method) && get(Some(doc), "id"@) is Some && k@ == id_text(get(Some(doc), "id"@)->0),
            None => !(asks_user(method) && get(Some(doc), "id"@) is Some),
        }
    } else {
        match json_pos_u64(get(Some(doc), "id"@)) {
            Some(id) => r == Incoming::Response(id),
            None => r is Other,
        }
    }
}

/// Routes a line the app-server wrote.
pub fn classify_incoming(doc: &JsonValue) -> (r: Incoming)
    ensures
        routed(*doc, r),
{
    let d = Some(doc);
    let method = get_member(d, "method");
    if method.is_some() {
        let lower = match str_of(method) {
            Some(m) => ascii_lower_str(m.as_str()),
            None => Vec::new(),
        };
        assert(lower@ == ascii_lower(match json_str(get(Some(*doc), "method"@)) {
            Some(m) => m,
            None => Seq::<char>::empty(),
        })) by {
            if json_str(get(Some(*doc), "method"@)) is None {
                assert(ascii_lower(Seq::<char>::empty()) =~= Seq::<char>::empty());
            }
        }
        let asks = has_text(&lower, "requestapproval") || has_text(&lower, "requestuserinput") || has_text(
            &lower,
            "elicitation/request",
        );
        let approval_key = if asks {
            match get_member(d, "id") {
                Some(id) => Some(id_text_of(id)),
                None => None,
            }
        } else {
            None
        };
        Incoming::Message { approval_key }
    } else {
        match pos_u64_of(get_member(d, "id")) {
            Some(id) => Incoming::Response(id),
            None => Incoming::Other,
        }
    }
}

/// The decisions a user can give an approval request.
pub open spec fn is_decision(decision: Seq<char>) -> bool {
    decision == "accept"@ || decision == "decline"@
}

/// Whether `decision` is one the app-server takes.
pub fn is_valid_decision(decision: &str) -> (r: bool)
    ensures
        r == is_decision(decision@),
{
    str_eq(decision, "accept") || str_eq(decision, "decline")
}

} // verus!

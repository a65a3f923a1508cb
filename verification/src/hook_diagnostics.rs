//! What the window records of each hook delivery.
use vstd::prelude::*;
use crate::domain::{HookDiagnostic, HookDiagnostics};
use crate::text::{chars_of, string_of, take_chars, take_chars_exec};

verus! {

/// Largest size of the hook log, in bytes.
pub const MAX_LOG_BYTES: u64 = 1048576;

/// The record of one hook delivery: the error cut to 160 characters, counted once.
pub fn record(
    event: &str,
    session_id: Option<&str>,
    turn_id: Option<&str>,
    at: i64,
    http_status: u16,
    delivered: bool,
    error: Option<&str>,
) -> (r: HookDiagnostics)
    ensures
        r.received_count == 1,
        r.last matches Some(d) && {
            &&& d.event@ == event@
            &&& crate::rollout_watcher::chars_opt(d.session_id) == match session_id {
                Some(s) => Some(s@),
                None => None,
            }
            &&& crate::rollout_watcher::chars_opt(d.turn_id) == match turn_id {
                Some(s) => Some(s@),
                None => None,
            }
            &&& d.received_at == at
            &&& d.http_status == Some(http_status)
            &&& d.delivered == delivered
            &&& crate::rollout_watcher::chars_opt(d.error) == match error {
                Some(e) => Some(take_chars(e@, 160)),
                None => None,
            }
        },
{
    let diagnostic = HookDiagnostic {
        event: event.to_owned(),
        session_id: match session_id {
            Some(s) => Some(s.to_owned()),
            None => None,
        },
        turn_id: match turn_id {
            Some(s) => Some(s.to_owned()),
            None => None,
        },
        received_at: at,
        http_status: Some(http_status),
        delivered,
        error: match error {
            Some(e) => {
                let c = chars_of(e);
                Some(string_of(take_chars_exec(c.as_slice(), 160).as_slice()))
            },
            None => None,
        },
    };
    HookDiagnostics { last: Some(diagnostic), received_count: 1 }
}

/// Where the kept part of an oversized log starts: at most `max` bytes are kept,
/// starting after the first line break among them (or at their start when there is none).
pub open spec fn kept_from(bytes: Seq<u8>, max: nat) -> int {
    let cut = if bytes.len() > max {
        bytes.len() - max
    } else {
        0
    };
    match first_break(bytes, cut) {
        Some(i) => i + 1,
        None => cut,
    }
}

/// Index of the first line break at or after `from`.
pub open spec fn first_break(bytes: Seq<u8>, from: int) -> Option<int>
    decreases bytes.len() - from,
{
    if from < 0 || from >= bytes.len() {
        None
    } else if bytes[from] == 10 {
        Some(from)
    } else {
        first_break(bytes, from + 1)
    }
}

/// Where the kept part of an oversized log starts.
pub fn log_tail_start(bytes: &[u8], max: u64) -> (r: usize)
    ensures
        r == kept_from(bytes@, max as nat),
{
    let cut: usize = if bytes.len() as u64 > max {
        bytes.len() - max as usize
    } else {
        0
    };
    assert(cut == if bytes@.len() > max as nat {
        bytes@.len() - max as nat
    } else {
        0
    });
    let mut i: usize = cut;
    while i < bytes.len()
        invariant
            cut <= i <= bytes.len(),
            cut == if bytes@.len() > max as nat {
                bytes@.len() - max as nat
            } else {
                0
            },
            first_break(bytes@, cut as int) == first_break(bytes@, i as int),
        decreases bytes.len() - i,
    {
        if bytes[i] == 10 {
            assert(first_break(bytes@, i as int) == Some(i as int));
            return i + 1;
        }
        assert(first_break(bytes@, i as int) == first_break(bytes@, i + 1));
        i = i + 1;
    }
    cut
}

} // verus!

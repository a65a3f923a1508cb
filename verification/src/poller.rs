//! What each synchronisation round makes of the data it read.
use vstd::prelude::*;
use std::time::Duration;
use crate::codex_protocol::{NormalizedTaskEvent, ThreadSummary};
use crate::json::{
    array_of, deref_opt, either, either_ref, get, get_member, json_array, json_str, parse_json, parsed_json,
    str_of, JsonValue,
};
use crate::codex_client::CodexError;
use crate::codex_protocol::{RateLimitResponse, UsageResponse};
use crate::diagnostics::{classify, error_category, message_of};
use crate::domain::{
    active_count, count_active, count_of, counts_of, lemma_count_of_bound, max_i64, max_of, or_opt,
    same_snapshot, sat_sub, sat_sub_exec, spec_snapshot_status, snapshot_status, status_of_flags,
    DataStatus, HookDiagnostics, Snapshot, TaskCounts, TaskStatus, TaskSummary, UsagePoint,
};
use crate::task_registry::{
    event_status, event_time, find_index, find_task, keeps_approval, lemma_find_index,
    lemma_merged_sources_len, lemma_surviving_len, law_newest_first_is_sorted_permutation,
    merged_sources, newest_first, surviving, TaskRegistry,
};
use crate::text::{
    begins_text, has_text, is_text,
    ascii_lower, ascii_lower_str, chars_of, contains_chars, find_last, first_nonblank,
    first_nonblank_line, first_sentence, first_sentence_of, has_infix, has_prefix, last_occurrence, occurs_at,
    lines, seq_eq, skip_chars, starts_with_chars, string_of, take_chars, take_chars_exec, trim,
    trim_chars, trim_start, trim_start_chars, split_lines, copy_opt_string,
};

verus! {

/// Seconds after which a successful read is stale.
pub const STALE_AFTER_SECONDS: i64 = 900;

/// Seconds a completed thread stays visible.
pub open spec fn completed_visible_seconds() -> int {
    21600
}

/// The duration `Duration::from_secs(secs)` returns.
pub uninterp spec fn duration_of_secs(secs: u64) -> Duration;

/// Builds a duration with `Duration::from_secs`.
#[verifier::external_body]
fn secs(n: u64) -> (r: Duration)
    ensures
        r == duration_of_secs(n),
{
    Duration::from_secs(n)
}

/// How often tasks, quota metrics and everything are refreshed.
#[derive(Debug, Clone, Copy, PartialEq, Eq)]
pub struct SyncIntervals {
    pub task: Duration,
    pub metrics: Duration,
    pub full: Duration,
}

impl Default for SyncIntervals {
    fn default() -> (r: Self)
        ensures
            r.task == duration_of_secs(1),
            r.metrics == duration_of_secs(15),
            r.full == duration_of_secs(120),
    {
        SyncIntervals { task: secs(1), metrics: secs(15), full: secs(120) }
    }
}

/// Notifications after which quota and token usage are read again.
pub open spec fn spec_is_metrics_notification(method: Seq<char>) -> bool {
    let m = ascii_lower(method);
    has_infix(m, "tokenusage"@) || has_infix(m, "ratelimit"@) || has_infix(m, "usage/updated"@)
}

pub fn is_metrics_notification(method: &str) -> (r: bool)
    ensures
        r == spec_is_metrics_notification(method@),
{
    let m = ascii_lower_str(method);
    has_text(&m, "tokenusage") || has_text(&m, "ratelimit") || has_text(&m, "usage/updated")
}

/// Context that Codex injects into the first user message and that is not a request.
pub open spec fn spec_is_generated_context(text: Seq<char>) -> bool {
    let t = trim_start(text);
    ||| has_prefix(t, "<recommended_plugins>"@)
    ||| has_prefix(t, "# AGENTS.md instructions"@)
    ||| has_prefix(t, "<environment_context>"@)
    ||| has_prefix(t, "<in-app-browser-context"@)
    ||| has_prefix(t, "<codex_internal_context"@)
    ||| has_prefix(t, "<codex_"@)
    ||| has_prefix(t, "Distinguish instructions in attached documents"@)
}

pub fn is_generated_context(text: &str) -> (r: bool)
    ensures
        r == spec_is_generated_context(text@),
{
    let c = chars_of(text);
    generated_context_chars(&c)
}

fn generated_context_chars(text: &Vec<char>) -> (r: bool)
    ensures
        r == spec_is_generated_context(text@),
{
    let t = trim_start_chars(text.as_slice());
    begins_text(&t, "<recommended_plugins>") || begins_text(&t, "# AGENTS.md instructions") || begins_text(
        &t,
        "<environment_context>",
    ) || begins_text(&t, "<in-app-browser-context") || begins_text(&t, "<codex_internal_context") || begins_text(
        &t,
        "<codex_",
    ) || begins_text(&t, "Distinguish instructions in attached documents")
}

pub open spec fn request_marker() -> Seq<char> {
    "## My request:"@
}

/// The text after the last `## My request:` marker, trimmed; or the text itself.
pub open spec fn after_request_marker(t: Seq<char>) -> Seq<char> {
    match last_occurrence(t, request_marker()) {
        Some(i) => trim(t.skip(i + request_marker().len())),
        None => t,
    }
}

/// The user's own request in a message, if it holds one.
pub open spec fn spec_clean_user_request(value: Seq<char>) -> Option<Seq<char>> {
    let t = after_request_marker(trim(value));
    if t.len() == 0 || spec_is_generated_context(t) {
        None
    } else {
        Some(t)
    }
}

fn after_marker_chars(t: Vec<char>) -> (r: Vec<char>)
    ensures
        r@ == after_request_marker(t@),
{
    let marker = chars_of("## My request:");
    let ts = t.as_slice();
    let ms = marker.as_slice();
    match find_last(ts, ms) {
        Some(i) => {
            assert(occurs_at(ts@, ms@, i as int));
            assert(i + ms.len() <= ts.len());
            let rest = skip_chars(ts, i + ms.len());
            trim_chars(rest.as_slice())
        },
        None => t,
    }
}

pub fn clean_user_request_chars(value: &[char]) -> (r: Option<Vec<char>>)
    ensures
        match r {
            Some(v) => spec_clean_user_request(value@) == Some(v@),
            None => spec_clean_user_request(value@) is None,
        },
{
    let trimmed = trim_chars(value);
    let text = after_marker_chars(trimmed);
    if text.len() == 0 || generated_context_chars(&text) {
        None
    } else {
        Some(text)
    }
}

pub fn clean_user_request(value: &str) -> (r: Option<String>)
    ensures
        match r {
            Some(v) => spec_clean_user_request(value@) == Some(v@),
            None => spec_clean_user_request(value@) is None,
        },
{
    let c = chars_of(value);
    match clean_user_request_chars(c.as_slice()) {
        Some(v) => Some(string_of(v.as_slice())),
        None => None,
    }
}

/// A short title from a thread name: the first sentence of the first
/// non-blank line of the user's request, at most 80 characters.
pub open spec fn spec_clean_thread_title(value: Seq<char>) -> Option<Seq<char>> {
    match spec_clean_user_request(value) {
        None => None,
        Some(text) => match first_nonblank(lines(text)) {
            None => None,
            Some(line) => {
                let title = first_sentence(line);
                if title.len() == 0 {
                    None
                } else {
                    Some(take_chars(title, 80))
                }
            },
        },
    }
}

pub fn clean_thread_title(value: &str) -> (r: Option<String>)
    ensures
        match r {
            Some(v) => spec_clean_thread_title(value@) == Some(v@),
            None => spec_clean_thread_title(value@) is None,
        },
{
    let c = chars_of(value);
    let text = match clean_user_request_chars(c.as_slice()) {
        Some(t) => t,
        None => return None,
    };
    let line = match first_nonblank_line(text.as_slice()) {
        Some(l) => l,
        None => return None,
    };
    let title = first_sentence_of(line.as_slice());
    if title.len() == 0 {
        None
    } else {
        let short = take_chars_exec(title.as_slice(), 80);
        Some(string_of(short.as_slice()))
    }
}

/// What the tail of a thread's rollout file says: its status (already
/// checked for freshness) and the latest user request.
#[derive(Debug, Clone, PartialEq, Eq)]
pub struct ThreadRollout {
    pub status: Option<TaskStatus>,
    pub activity: Option<String>,
}

pub open spec fn rollout_at(rollouts: Seq<ThreadRollout>, k: int) -> ThreadRollout {
    if 0 <= k < rollouts.len() {
        rollouts[k]
    } else {
        ThreadRollout { status: None, activity: None }
    }
}

pub open spec fn is_terminal_thread_status(name: Seq<char>) -> bool {
    name == "completed"@ || name == "complete"@ || name == "done"@ || name == "idle"@ || name
        == "notloaded"@ || name == "not_loaded"@
}

/// The status of a listed thread, from its lower-cased `thread/list` status,
/// its rollout status and its age; `None` when it should not be shown.
pub open spec fn thread_status(name: Seq<char>, rollout: Option<TaskStatus>, age: int) -> Option<
    TaskStatus,
> {
    if !is_terminal_thread_status(name) && rollout == Some(TaskStatus::NeedsAction) {
        Some(TaskStatus::NeedsAction)
    } else if has_infix(name, "approval"@) || has_infix(name, "input"@) || has_infix(
        name,
        "question"@,
    ) || has_infix(name, "waiting"@) {
        Some(TaskStatus::NeedsAction)
    } else if name == "active"@ || name == "running"@ {
        Some(TaskStatus::Running)
    } else {
        match rollout {
            Some(s) => Some(s),
            None => if age <= completed_visible_seconds() && has_infix(name, "completed"@) {
                Some(TaskStatus::Completed)
            } else {
                None
            },
        }
    }
}

fn thread_status_exec(name: &Vec<char>, rollout: Option<TaskStatus>, age: i64) -> (r: Option<
    TaskStatus,
>)
    ensures
        r == thread_status(name@, rollout, age as int),
{
    let terminal = is_text(name, "completed") || is_text(name, "complete") || is_text(name, "done") || is_text(
        name,
        "idle",
    ) || is_text(name, "notloaded") || is_text(name, "not_loaded");
    if !terminal && rollout == Some(TaskStatus::NeedsAction) {
        Some(TaskStatus::NeedsAction)
    } else if has_text(name, "approval") || has_text(name, "input") || has_text(name, "question") || has_text(
        name,
        "waiting",
    ) {
        Some(TaskStatus::NeedsAction)
    } else if is_text(name, "active") || is_text(name, "running") {
        Some(TaskStatus::Running)
    } else {
        match rollout {
            Some(s) => Some(s),
            None => if age <= 21600 && has_text(name, "completed") {
                Some(TaskStatus::Completed)
            } else {
                None
            },
        }
    }
}

/// `r` is the row shown for thread `th` with status `status`.
pub open spec fn task_from_thread(
    th: ThreadSummary,
    info: ThreadRollout,
    status: TaskStatus,
    now: i64,
    r: TaskSummary,
) -> bool {
    &&& r.id == th.id
    &&& match spec_clean_thread_title(th.title@) {
        Some(t) => r.title@ == t,
        None => r.title@ == "Codex 对话"@,
    }
    &&& r.activity == info.activity
    &&& r.waiting_reason is None
    &&& r.approval_request_id is None
    &&& r.status == status
    &&& r.token_count is None
    &&& r.updated_at == th.updated_at
    &&& !r.acknowledged
    &&& r.source is Some
    &&& r.source->0@ == "poll"@
    &&& r.turn_id is None
    &&& r.received_at == now
}

/// `out` lists, in order, the rows shown for the threads of `threads`.
pub open spec fn threads_mapped(
    threads: Seq<ThreadSummary>,
    rollouts: Seq<ThreadRollout>,
    now: i64,
    out: Seq<TaskSummary>,
) -> bool
    decreases threads.len(),
{
    if threads.len() == 0 {
        out.len() == 0
    } else {
        let k = threads.len() - 1;
        let th = threads.last();
        let info = rollout_at(rollouts, k);
        match thread_status(ascii_lower(th.status@), info.status, sat_sub(now, th.updated_at)) {
            Some(s) => {
                &&& out.len() > 0
                &&& threads_mapped(threads.drop_last(), rollouts, now, out.drop_last())
                &&& task_from_thread(th, info, s, now, out.last())
            },
            None => threads_mapped(threads.drop_last(), rollouts, now, out),
        }
    }
}

/// The rows that a `thread/list` answer shows; `rollouts[k]` describes the
/// rollout file of `threads[k]` (missing entries: no file).
pub fn map_threads(threads: Vec<ThreadSummary>, now: i64, rollouts: Vec<ThreadRollout>) -> (r: Vec<
    TaskSummary,
>)
    ensures
        threads_mapped(threads@, rollouts@, now, r@),
{
    let mut out: Vec<TaskSummary> = Vec::new();
    let mut k: usize = 0;
    while k < threads.len()
        invariant
            k <= threads.len(),
            threads_mapped(threads@.take(k as int), rollouts@, now, out@),
        decreases threads.len() - k,
    {
        let ghost prev = threads@.take(k as int);
        assert(threads@.take(k + 1).drop_last() =~= prev);
        let thread = &threads[k];
        let (rollout_status, activity) = if k < rollouts.len() {
            (rollouts[k].status, crate::text::copy_opt_string(&rollouts[k].activity))
        } else {
            (None, None)
        };
        let age = sat_sub_exec(now, thread.updated_at);
        let name = ascii_lower_str(thread.status.as_str());
        match thread_status_exec(&name, rollout_status, age) {
            Some(status) => {
                let title = match clean_thread_title(thread.title.as_str()) {
                    Some(t) => t,
                    None => "Codex 对话".to_owned(),
                };
                let ghost before = out@;
                out.push(
                    TaskSummary {
                        id: thread.id.clone(),
                        title,
                        activity,
                        waiting_reason: None,
                        approval_request_id: None,
                        status,
                        token_count: None,
                        updated_at: thread.updated_at,
                        acknowledged: false,
                        source: Some("poll".to_owned()),
                        turn_id: None,
                        received_at: now,
                    },
                );
                assert(out@.drop_last() =~= before);
            },
            None => {},
        }
        k = k + 1;
    }
    assert(threads@.take(threads.len() as int) =~= threads@);
    out
}


/// A thread that the list reports neither as waiting nor as active or running takes
/// the status its rollout file gives: when the file gives a status, the thread is
/// listed, with that status.
pub proof fn law_rollout_status_decides_quiet_threads(
    threads: Seq<ThreadSummary>,
    rollouts: Seq<ThreadRollout>,
    now: i64,
    out: Seq<TaskSummary>,
    k: int,
    s: TaskStatus,
)
    requires
        threads_mapped(threads, rollouts, now, out),
        0 <= k < threads.len(),
        rollout_at(rollouts, k).status == Some(s),
        !has_infix(ascii_lower(threads[k].status@), "approval"@),
        !has_infix(ascii_lower(threads[k].status@), "input"@),
        !has_infix(ascii_lower(threads[k].status@), "question"@),
        !has_infix(ascii_lower(threads[k].status@), "waiting"@),
        ascii_lower(threads[k].status@) != "active"@,
        ascii_lower(threads[k].status@) != "running"@,
    ensures
        exists|a: int| 0 <= a < out.len() && (#[trigger] out[a]).id == threads[k].id && out[a].status == s,
    decreases threads.len(),
{
    let n = threads.len() - 1;
    let th = threads.last();
    let info = rollout_at(rollouts, n);
    let d = threads.drop_last();
    if k == n {
        assert(th == threads[k]);
        let st = thread_status(ascii_lower(th.status@), info.status, sat_sub(now, th.updated_at));
        assert(st == Some(s));
        assert(out[out.len() - 1] == out.last());
    } else {
        assert(d[k] == threads[k]);
        match thread_status(ascii_lower(th.status@), info.status, sat_sub(now, th.updated_at)) {
            Some(_) => {
                let o = out.drop_last();
                law_rollout_status_decides_quiet_threads(d, rollouts, now, o, k, s);
                let a = choose|a: int| 0 <= a < o.len() && (#[trigger] o[a]).id == threads[k].id && o[a].status == s;
                assert(out[a] == o[a]);
            },
            None => {
                law_rollout_status_decides_quiet_threads(d, rollouts, now, out, k, s);
            },
        }
    }
}

/// A previous row that is red (waiting for the user) stays red when the
/// thread list reports the same thread as idle, running or waiting.
pub open spec fn kept_red(prev: TaskSummary, p: TaskSummary) -> TaskSummary {
    if !prev.acknowledged && prev.status == TaskStatus::NeedsAction && p.status
        != TaskStatus::Completed {
        TaskSummary {
            status: TaskStatus::NeedsAction,
            updated_at: max_i64(p.updated_at, prev.updated_at),
            waiting_reason: or_opt(prev.waiting_reason, p.waiting_reason),
            approval_request_id: or_opt(prev.approval_request_id, p.approval_request_id),
            ..p
        }
    } else {
        p
    }
}

pub open spec fn with_previous(previous: Seq<TaskSummary>, p: TaskSummary) -> TaskSummary {
    match find_index(previous, p.id@) {
        Some(i) => kept_red(previous[i], p),
        None => p,
    }
}

/// A previous row that the thread list omits stays while it is recent.
pub open spec fn keeps_missing(x: TaskSummary, now: i64) -> bool {
    let age = sat_sub(now, x.updated_at);
    match x.status {
        TaskStatus::NeedsAction | TaskStatus::Running => age <= 900,
        TaskStatus::Completed => age <= completed_visible_seconds(),
        TaskStatus::Inactive => false,
    }
}

/// `acc` with the rows of `prevs` appended that it lacks and that are still recent.
pub open spec fn carry_missing(acc: Seq<TaskSummary>, prevs: Seq<TaskSummary>, now: i64) -> Seq<
    TaskSummary,
>
    decreases prevs.len(),
{
    if prevs.len() == 0 {
        acc
    } else {
        let a = carry_missing(acc, prevs.drop_last(), now);
        let x = prevs.last();
        if find_index(a, x.id@) is None && keeps_missing(x, now) {
            a.push(x)
        } else {
            a
        }
    }
}

pub open spec fn spec_merge_polled(previous: Seq<TaskSummary>, polled: Seq<TaskSummary>, now: i64) -> Seq<
    TaskSummary,
> {
    carry_missing(polled.map_values(|p: TaskSummary| with_previous(previous, p)), previous, now)
}

fn kept_red_exec(prev: &TaskSummary, p: TaskSummary) -> (r: TaskSummary)
    ensures
        r == kept_red(*prev, p),
{
    let mut p = p;
    if !prev.acknowledged && prev.status == TaskStatus::NeedsAction && p.status
        != TaskStatus::Completed {
        p.status = TaskStatus::NeedsAction;
        p.updated_at = max_of(p.updated_at, prev.updated_at);
        p.waiting_reason = match &prev.waiting_reason {
            Some(w) => Some(w.clone()),
            None => p.waiting_reason,
        };
        p.approval_request_id = match &prev.approval_request_id {
            Some(a) => Some(a.clone()),
            None => p.approval_request_id,
        };
    }
    p
}

/// Joins a `thread/list` answer with the previous rows: red rows stay red,
/// and recent rows missing from the answer are kept.
pub fn merge_polled_tasks(previous: &[TaskSummary], polled: Vec<TaskSummary>, now: i64) -> (r: Vec<
    TaskSummary,
>)
    ensures
        r@ == spec_merge_polled(previous@, polled@, now),
{
    let prev_vec = crate::domain::copy_tasks(previous);
    let mut out: Vec<TaskSummary> = Vec::new();
    let mut k: usize = 0;
    while k < polled.len()
        invariant
            k <= polled.len(),
            prev_vec@ == previous@,
            out@ == polled@.take(k as int).map_values(|p: TaskSummary| with_previous(previous@, p)),
        decreases polled.len() - k,
    {
        let p = polled[k].duplicate();
        let next = match find_task(&prev_vec, p.id.as_str()) {
            Some(i) => kept_red_exec(&prev_vec[i], p),
            None => p,
        };
        out.push(next);
        assert(polled@.take(k + 1).map_values(|p: TaskSummary| with_previous(previous@, p))
            =~= polled@.take(k as int).map_values(|p: TaskSummary| with_previous(previous@, p)).push(
            with_previous(previous@, polled@[k as int]),
        ));
        k = k + 1;
    }
    assert(polled@.take(polled.len() as int) =~= polled@);
    let ghost base = out@;
    let mut j: usize = 0;
    while j < previous.len()
        invariant
            j <= previous.len(),
            out@ == carry_missing(base, previous@.take(j as int), now),
        decreases previous.len() - j,
    {
        assert(previous@.take(j + 1).drop_last() =~= previous@.take(j as int));
        let x = &previous[j];
        if find_task(&out, x.id.as_str()).is_none() {
            let age = sat_sub_exec(now, x.updated_at);
            let keep = match x.status {
                TaskStatus::NeedsAction | TaskStatus::Running => age <= 900,
                TaskStatus::Completed => age <= 21600,
                TaskStatus::Inactive => false,
            };
            if keep {
                out.push(x.duplicate());
            }
        }
        j = j + 1;
    }
    assert(previous@.take(previous.len() as int) =~= previous@);
    out
}

/// `polled` with the activity, tokens and time of one rollout row folded into
/// the row with the same id.
pub open spec fn with_rollout(polled: Seq<TaskSummary>, r: TaskSummary) -> Seq<TaskSummary> {
    match find_index(polled, r.id@) {
        Some(i) => polled.update(
            i,
            TaskSummary {
                activity: or_opt(r.activity, polled[i].activity),
                token_count: or_opt(r.token_count, polled[i].token_count),
                updated_at: max_i64(polled[i].updated_at, r.updated_at),
                ..polled[i]
            },
        ),
        None => polled,
    }
}

pub open spec fn with_rollouts(polled: Seq<TaskSummary>, rollout: Seq<TaskSummary>) -> Seq<TaskSummary>
    decreases rollout.len(),
{
    if rollout.len() == 0 {
        polled
    } else {
        with_rollout(with_rollouts(polled, rollout.drop_last()), rollout.last())
    }
}

/// Adds what rollout files say to the polled rows; rows only in the rollout are not added.
pub fn merge_rollout_tasks(polled: Vec<TaskSummary>, rollout: Vec<TaskSummary>) -> (r: Vec<TaskSummary>)
    ensures
        r@ == with_rollouts(polled@, rollout@),
{
    let mut polled = polled;
    let ghost start = polled@;
    let mut k: usize = 0;
    while k < rollout.len()
        invariant
            k <= rollout.len(),
            polled@ == with_rollouts(start, rollout@.take(k as int)),
        decreases rollout.len() - k,
    {
        assert(rollout@.take(k + 1).drop_last() =~= rollout@.take(k as int));
        let r = &rollout[k];
        match find_task(&polled, r.id.as_str()) {
            Some(i) => {
                let mut task = polled[i].duplicate();
                task.activity = match &r.activity {
                    Some(a) => Some(a.clone()),
                    None => task.activity,
                };
                task.token_count = match r.token_count {
                    Some(n) => Some(n),
                    None => task.token_count,
                };
                task.updated_at = max_of(task.updated_at, r.updated_at);
                polled.set(i, task);
            },
            None => {},
        }
        k = k + 1;
    }
    assert(rollout@.take(rollout.len() as int) =~= rollout@);
    polled
}

/// Task `t` after the event, as the snapshot-level event path updates it.
pub open spec fn snapshot_task_after_event(t: TaskSummary, e: NormalizedTaskEvent, now: i64) -> TaskSummary {
    let s = event_status(e);
    let keep = keeps_approval(t, e);
    TaskSummary {
        title: if e.title@ != "Codex 任务"@ {
            e.title
        } else {
            t.title
        },
        status: if !keep {
            s
        } else {
            t.status
        },
        waiting_reason: if s == TaskStatus::NeedsAction {
            or_opt(e.waiting_reason, t.waiting_reason)
        } else if !keep {
            None
        } else {
            t.waiting_reason
        },
        approval_request_id: if s == TaskStatus::NeedsAction {
            or_opt(e.approval_request_id, t.approval_request_id)
        } else if !keep {
            None
        } else {
            t.approval_request_id
        },
        token_count: or_opt(e.token_count, t.token_count),
        updated_at: max_i64(event_time(e, now), t.updated_at),
        ..t
    }
}

/// Everything but the task list and the active count is unchanged.
pub open spec fn same_but_tasks(a: Snapshot, b: Snapshot) -> bool {
    &&& a.status == b.status
    &&& a.changed_at == b.changed_at
    &&& a.source == b.source
    &&& a.fetched_at == b.fetched_at
    &&& a.quota_remaining_percent == b.quota_remaining_percent
    &&& a.quota_resets_at == b.quota_resets_at
    &&& a.five_hour_remaining_percent == b.five_hour_remaining_percent
    &&& a.five_hour_resets_at == b.five_hour_resets_at
    &&& a.plan == b.plan
    &&& a.reset_credits == b.reset_credits
    &&& a.today_tokens == b.today_tokens
    &&& a.usage_date == b.usage_date
    &&& a.task_counts == b.task_counts
    &&& a.error == b.error
    &&& a.history@ == b.history@
    &&& a.history_cycle_key == b.history_cycle_key
    &&& a.previous_history@ == b.previous_history@
    &&& a.previous_history_cycle_key == b.previous_history_cycle_key
    &&& a.hook_diagnostics == b.hook_diagnostics
    &&& a.schema_version == b.schema_version
}

/// Applies an app-server task event directly to a snapshot's task list.
pub fn apply_task_event(snapshot: &mut Snapshot, event: NormalizedTaskEvent, now: i64)
    ensures
        same_but_tasks(*old(snapshot), *final(snapshot)),
        final(snapshot).active_task_count == active_count(final(snapshot).tasks@) as u32,
        match find_index(old(snapshot).tasks@, event.id@) {
            Some(i) => final(snapshot).tasks@ == old(snapshot).tasks@.update(
                i,
                snapshot_task_after_event(old(snapshot).tasks@[i], event, now),
            ),
            None => {
                let r = final(snapshot).tasks@.last();
                &&& final(snapshot).tasks@.len() == old(snapshot).tasks@.len() + 1
                &&& final(snapshot).tasks@.drop_last() == old(snapshot).tasks@
                &&& r.id == event.id
                &&& r.title == event.title
                &&& r.activity is None
                &&& r.waiting_reason == event.waiting_reason
                &&& r.approval_request_id == event.approval_request_id
                &&& r.status == event_status(event)
                &&& r.token_count == event.token_count
                &&& r.updated_at == event_time(event, now)
                &&& !r.acknowledged
                &&& r.source is Some
                &&& r.source->0@ == "app-server-event"@
                &&& r.turn_id == event.turn_id
                &&& r.received_at == now
            },
        },
{
    let updated_at = if event.updated_at == 0 {
        now
    } else {
        event.updated_at
    };
    let status = if event.waiting_for_user {
        TaskStatus::NeedsAction
    } else if event.running {
        TaskStatus::Running
    } else if event.completed {
        TaskStatus::Completed
    } else {
        TaskStatus::Inactive
    };
    proof {
        lemma_find_index(snapshot.tasks@, event.id@);
    }
    match find_task(&snapshot.tasks, event.id.as_str()) {
        Some(i) => {
            let mut task = snapshot.tasks[i].duplicate();
            let keep_approval = task.status == TaskStatus::NeedsAction && (status
                == TaskStatus::Inactive || status == TaskStatus::Running)
                && event.approval_request_id.is_none() && !event.waiting_for_user
                && !event.completed;
            if !crate::text::str_eq(event.title.as_str(), "Codex 任务") {
                task.title = event.title;
            }
            if !keep_approval {
                task.status = status;
            }
            if status == TaskStatus::NeedsAction {
                task.waiting_reason = match event.waiting_reason {
                    Some(w) => Some(w),
                    None => task.waiting_reason,
                };
                task.approval_request_id = match event.approval_request_id {
                    Some(a) => Some(a),
                    None => task.approval_request_id,
                };
            } else if !keep_approval {
                task.waiting_reason = None;
                task.approval_request_id = None;
            }
            task.token_count = match event.token_count {
                Some(n) => Some(n),
                None => task.token_count,
            };
            task.updated_at = max_of(updated_at, task.updated_at);
            snapshot.tasks.set(i, task);
        },
        None => {
            let ghost before = snapshot.tasks@;
            snapshot.tasks.push(
                TaskSummary {
                    id: event.id,
                    title: event.title,
                    activity: None,
                    waiting_reason: event.waiting_reason,
                    approval_request_id: event.approval_request_id,
                    status,
                    token_count: event.token_count,
                    updated_at,
                    acknowledged: false,
                    source: Some("app-server-event".to_owned()),
                    turn_id: event.turn_id,
                    received_at: now,
                },
            );
            assert(snapshot.tasks@.drop_last() =~= before);
        },
    }
    snapshot.active_task_count = count_active(snapshot.tasks.as_slice());
}

/// The snapshot of a successful full poll at `now`: the new quota and usage,
/// and the previous rows merged with the rows read from local rollout files.
pub fn fresh_poll_snapshot(
    previous: &Snapshot,
    rate: RateLimitResponse,
    usage: UsageResponse,
    rollout_tasks: Vec<TaskSummary>,
    now: i64,
) -> (r: Snapshot)
    requires
        previous.tasks@.len() + rollout_tasks@.len() <= u32::MAX,
    ensures
        r.status == DataStatus::Fresh,
        r.changed_at == Some(now),
        r.source is Some && r.source->0@ == "full-poll"@,
        r.fetched_at == Some(now),
        r.quota_remaining_percent == rate.remaining_percent,
        r.quota_resets_at == rate.resets_at,
        r.five_hour_remaining_percent == rate.five_hour_remaining_percent,
        r.five_hour_resets_at == rate.five_hour_resets_at,
        r.plan == rate.plan,
        r.reset_credits == rate.reset_credits,
        r.today_tokens == usage.today_tokens,
        r.usage_date == usage.usage_date,
        r.tasks@ == newest_first(merged_sources(previous.tasks@, rollout_tasks@, now)),
        r.active_task_count == active_count(r.tasks@) as u32,
        r.task_counts == counts_of(merged_sources(previous.tasks@, rollout_tasks@, now)),
        r.error is None,
        r.history@ == previous.history@,
        r.history_cycle_key is None,
        r.previous_history@.len() == 0,
        r.previous_history_cycle_key is None,
        r.hook_diagnostics == previous.hook_diagnostics,
        r.schema_version@ == crate::domain::SNAPSHOT_SCHEMA_VERSION@,
{
    let mut registry = TaskRegistry::from_tasks(previous.tasks.as_slice());
    proof {
        lemma_merged_sources_len(previous.tasks@, rollout_tasks@, now);
    }
    registry.merge_sources(rollout_tasks, now);
    let tasks = registry.tasks();
    let active_task_count = count_active(tasks.as_slice());
    let task_counts = registry.counts();
    Snapshot {
        status: snapshot_status(Some(now), now, false, true),
        changed_at: Some(now),
        source: Some("full-poll".to_owned()),
        fetched_at: Some(now),
        quota_remaining_percent: rate.remaining_percent,
        quota_resets_at: rate.resets_at,
        five_hour_remaining_percent: rate.five_hour_remaining_percent,
        five_hour_resets_at: rate.five_hour_resets_at,
        plan: rate.plan,
        reset_credits: rate.reset_credits,
        today_tokens: usage.today_tokens,
        usage_date: usage.usage_date,
        active_task_count,
        task_counts,
        tasks,
        error: None,
        history: crate::domain::copy_points(previous.history.as_slice()),
        history_cycle_key: None,
        previous_history: Vec::new(),
        previous_history_cycle_key: None,
        hook_diagnostics: previous.hook_diagnostics.duplicate(),
        schema_version: crate::domain::SNAPSHOT_SCHEMA_VERSION.to_owned(),
    }
}

/// The message shown after a failed poll.
pub open spec fn poll_failure_message(error: Option<CodexError>) -> Seq<char> {
    match error {
        Some(e) => message_of(error_category(e)),
        None => "读取 Codex 数据失败"@,
    }
}

/// The snapshot after a failed full poll: the previous data, marked by age and error.
pub fn failed_poll_snapshot(previous: &Snapshot, error: Option<&CodexError>, now: i64) -> (r: Snapshot)
    requires
        previous.fetched_at is Some ==> i64::MIN <= now - previous.fetched_at->0 <= i64::MAX,
    ensures
        r.status == spec_snapshot_status(previous.fetched_at, now, true, true),
        r.changed_at == Some(now),
        r.source is Some && r.source->0@ == "full-poll"@,
        r.error is Some && r.error->0@ == poll_failure_message(
            match error {
                Some(e) => Some(*e),
                None => None,
            },
        ),
        r.fetched_at == previous.fetched_at,
        r.quota_remaining_percent == previous.quota_remaining_percent,
        r.quota_resets_at == previous.quota_resets_at,
        r.five_hour_remaining_percent == previous.five_hour_remaining_percent,
        r.five_hour_resets_at == previous.five_hour_resets_at,
        r.plan == previous.plan,
        r.reset_credits == previous.reset_credits,
        r.today_tokens == previous.today_tokens,
        r.usage_date == previous.usage_date,
        r.active_task_count == previous.active_task_count,
        r.task_counts == previous.task_counts,
        r.tasks@ == previous.tasks@,
        r.history@ == previous.history@,
        r.history_cycle_key == previous.history_cycle_key,
        r.previous_history@ == previous.previous_history@,
        r.previous_history_cycle_key == previous.previous_history_cycle_key,
        r.hook_diagnostics == previous.hook_diagnostics,
        r.schema_version == previous.schema_version,
{
    let mut stale = previous.duplicate();
    stale.changed_at = Some(now);
    stale.source = Some("full-poll".to_owned());
    stale.status = snapshot_status(previous.fetched_at, now, true, true);
    stale.error = match error {
        Some(e) => Some(classify(e).message().to_owned()),
        None => Some("读取 Codex 数据失败".to_owned()),
    };
    stale
}

/// The snapshot after quota and usage were read again outside a full poll.
pub fn metrics_snapshot(
    previous: &Snapshot,
    rate: RateLimitResponse,
    usage: UsageResponse,
    now: i64,
    connected: bool,
    source: &str,
) -> (r: Snapshot)
    ensures
        r.status == (if connected {
            DataStatus::Fresh
        } else {
            DataStatus::Unauthenticated
        }),
        r.changed_at == Some(now),
        r.source is Some && r.source->0@ == source@,
        r.fetched_at == Some(now),
        r.quota_remaining_percent == rate.remaining_percent,
        r.quota_resets_at == rate.resets_at,
        r.five_hour_remaining_percent == rate.five_hour_remaining_percent,
        r.five_hour_resets_at == rate.five_hour_resets_at,
        r.plan == rate.plan,
        r.reset_credits == rate.reset_credits,
        r.today_tokens == usage.today_tokens,
        r.usage_date == usage.usage_date,
        r.error is None,
        r.active_task_count == previous.active_task_count,
        r.task_counts == previous.task_counts,
        r.tasks@ == previous.tasks@,
        r.history@ == previous.history@,
        r.history_cycle_key == previous.history_cycle_key,
        r.previous_history@ == previous.previous_history@,
        r.previous_history_cycle_key == previous.previous_history_cycle_key,
        r.hook_diagnostics == previous.hook_diagnostics,
        r.schema_version == previous.schema_version,
{
    let mut next = previous.duplicate();
    next.changed_at = Some(now);
    next.source = Some(source.to_owned());
    next.status = snapshot_status(Some(now), now, false, connected);
    next.fetched_at = Some(now);
    next.quota_remaining_percent = rate.remaining_percent;
    next.quota_resets_at = rate.resets_at;
    next.five_hour_remaining_percent = rate.five_hour_remaining_percent;
    next.five_hour_resets_at = rate.five_hour_resets_at;
    next.plan = rate.plan;
    next.reset_credits = rate.reset_credits;
    next.today_tokens = usage.today_tokens;
    next.usage_date = usage.usage_date;
    next.error = None;
    next
}

/// The hint shown when the quota was read and the day's token usage will be read
/// again on the next round.
pub open spec fn usage_retry_message() -> Seq<char> {
    "额度可用、用量稍后重试"@
}

/// `r` is the snapshot of a full poll at `now` that read the quota `rate`: the new
/// quota, the token figures `tokens` and `date`, and the previous rows merged with
/// `rollout`.
pub open spec fn polled(
    previous: Snapshot,
    rate: RateLimitResponse,
    tokens: Option<u64>,
    date: Option<String>,
    rollout: Seq<TaskSummary>,
    now: i64,
    r: Snapshot,
) -> bool {
    &&& r.status == DataStatus::Fresh
    &&& r.changed_at == Some(now)
    &&& r.source is Some && r.source->0@ == "full-poll"@
    &&& r.fetched_at == Some(now)
    &&& r.quota_remaining_percent == rate.remaining_percent
    &&& r.quota_resets_at == rate.resets_at
    &&& r.five_hour_remaining_percent == rate.five_hour_remaining_percent
    &&& r.five_hour_resets_at == rate.five_hour_resets_at
    &&& r.plan == rate.plan
    &&& r.reset_credits == rate.reset_credits
    &&& r.today_tokens == tokens
    &&& r.usage_date == date
    &&& r.tasks@ == newest_first(merged_sources(previous.tasks@, rollout, now))
    &&& r.active_task_count == active_count(r.tasks@) as u32
    &&& r.task_counts == counts_of(merged_sources(previous.tasks@, rollout, now))
    &&& r.history@ == previous.history@
    &&& r.history_cycle_key is None
    &&& r.previous_history@.len() == 0
    &&& r.previous_history_cycle_key is None
    &&& r.hook_diagnostics == previous.hook_diagnostics
    &&& r.schema_version@ == crate::domain::SNAPSHOT_SCHEMA_VERSION@
}

/// `r` is the snapshot of a full poll at `now` whose quota read failed with `error`:
/// the previous data, marked by age and error.
pub open spec fn poll_failed(previous: Snapshot, error: CodexError, now: i64, r: Snapshot) -> bool {
    &&& r.status == spec_snapshot_status(previous.fetched_at, now, true, true)
    &&& r.changed_at == Some(now)
    &&& r.source is Some && r.source->0@ == "full-poll"@
    &&& r.error is Some && r.error->0@ == poll_failure_message(Some(error))
    &&& r.fetched_at == previous.fetched_at
    &&& r.quota_remaining_percent == previous.quota_remaining_percent
    &&& r.quota_resets_at == previous.quota_resets_at
    &&& r.five_hour_remaining_percent == previous.five_hour_remaining_percent
    &&& r.five_hour_resets_at == previous.five_hour_resets_at
    &&& r.plan == previous.plan
    &&& r.reset_credits == previous.reset_credits
    &&& r.today_tokens == previous.today_tokens
    &&& r.usage_date == previous.usage_date
    &&& r.active_task_count == previous.active_task_count
    &&& r.task_counts == previous.task_counts
    &&& r.tasks@ == previous.tasks@
    &&& r.history@ == previous.history@
    &&& r.history_cycle_key == previous.history_cycle_key
    &&& r.previous_history@ == previous.previous_history@
    &&& r.previous_history_cycle_key == previous.previous_history_cycle_key
    &&& r.hook_diagnostics == previous.hook_diagnostics
    &&& r.schema_version == previous.schema_version
}

/// The snapshot of a full poll at `now`, from what the quota read and the usage read
/// gave. Both read: the fresh snapshot. The quota read but not the usage: the new
/// quota is published, the last token figures stay, and the hint says the usage will
/// be read again. The quota read failed: the previous data, marked stale with that
/// error. `rollout_tasks` are the rows read from local session files; they are merged
/// whenever the quota was read.
pub fn poll_outcome(
    previous: &Snapshot,
    rate: Result<RateLimitResponse, CodexError>,
    usage: Result<UsageResponse, CodexError>,
    rollout_tasks: Vec<TaskSummary>,
    now: i64,
) -> (r: Snapshot)
    requires
        previous.tasks@.len() + rollout_tasks@.len() <= u32::MAX,
        rate is Err && previous.fetched_at is Some ==> i64::MIN <= now - previous.fetched_at->0 <= i64::MAX,
    ensures
        match (rate, usage) {
            (Ok(q), Ok(u)) => polled(*previous, q, u.today_tokens, u.usage_date, rollout_tasks@, now, r)
                && r.error is None,
            (Ok(q), Err(_)) => polled(
                *previous,
                q,
                previous.today_tokens,
                previous.usage_date,
                rollout_tasks@,
                now,
                r,
            ) && r.error is Some && r.error->0@ == usage_retry_message(),
            (Err(e), _) => poll_failed(*previous, e, now, r),
        },
{
    match rate {
        Ok(q) => match usage {
            Ok(u) => fresh_poll_snapshot(previous, q, u, rollout_tasks, now),
            Err(_) => {
                let kept = UsageResponse {
                    today_tokens: previous.today_tokens,
                    usage_date: copy_opt_string(&previous.usage_date),
                };
                let mut s = fresh_poll_snapshot(previous, q, kept, rollout_tasks, now);
                s.error = Some("额度可用、用量稍后重试".to_owned());
                s
            },
        },
        Err(e) => failed_poll_snapshot(previous, Some(&e), now),
    }
}

/// The snapshot after quota and usage were read again outside a full poll, or `None`
/// when the quota read failed and the reading is dropped. When the usage read failed,
/// the new quota is published with the last token figures and the retry hint.
pub fn metrics_outcome(
    previous: &Snapshot,
    rate: Result<RateLimitResponse, CodexError>,
    usage: Result<UsageResponse, CodexError>,
    now: i64,
    connected: bool,
    source: &str,
) -> (r: Option<Snapshot>)
    ensures
        match (rate, usage) {
            (Ok(q), Ok(u)) => r matches Some(s) && metered(*previous, q, u.today_tokens, u.usage_date, now, connected, source@, s)
                && s.error is None,
            (Ok(q), Err(_)) => r matches Some(s) && metered(
                *previous,
                q,
                previous.today_tokens,
                previous.usage_date,
                now,
                connected,
                source@,
                s,
            ) && s.error is Some && s.error->0@ == usage_retry_message(),
            (Err(_), _) => r is None,
        },
{
    match rate {
        Ok(q) => match usage {
            Ok(u) => Some(metrics_snapshot(previous, q, u, now, connected, source)),
            Err(_) => {
                let kept = UsageResponse {
                    today_tokens: previous.today_tokens,
                    usage_date: copy_opt_string(&previous.usage_date),
                };
                let mut s = metrics_snapshot(previous, q, kept, now, connected, source);
                s.error = Some("额度可用、用量稍后重试".to_owned());
                Some(s)
            },
        },
        Err(_) => None,
    }
}

/// `r` is the snapshot after the quota `rate` was read again outside a full poll at
/// `now`, with the token figures `tokens` and `date`.
pub open spec fn metered(
    previous: Snapshot,
    rate: RateLimitResponse,
    tokens: Option<u64>,
    date: Option<String>,
    now: i64,
    connected: bool,
    source: Seq<char>,
    r: Snapshot,
) -> bool {
    &&& r.status == (if connected {
        DataStatus::Fresh
    } else {
        DataStatus::Unauthenticated
    })
    &&& r.changed_at == Some(now)
    &&& r.source is Some && r.source->0@ == source
    &&& r.fetched_at == Some(now)
    &&& r.quota_remaining_percent == rate.remaining_percent
    &&& r.quota_resets_at == rate.resets_at
    &&& r.five_hour_remaining_percent == rate.five_hour_remaining_percent
    &&& r.five_hour_resets_at == rate.five_hour_resets_at
    &&& r.plan == rate.plan
    &&& r.reset_credits == rate.reset_credits
    &&& r.today_tokens == tokens
    &&& r.usage_date == date
    &&& r.active_task_count == previous.active_task_count
    &&& r.task_counts == previous.task_counts
    &&& r.tasks@ == previous.tasks@
    &&& r.history@ == previous.history@
    &&& r.history_cycle_key == previous.history_cycle_key
    &&& r.previous_history@ == previous.previous_history@
    &&& r.previous_history_cycle_key == previous.previous_history_cycle_key
    &&& r.hook_diagnostics == previous.hook_diagnostics
    &&& r.schema_version == previous.schema_version
}

/// The snapshot after a scan of local session files replaced the
/// `local-session` rows.
pub fn local_tasks_snapshot(previous: &Snapshot, scanned: Vec<TaskSummary>, now: i64, source: &str) -> (r:
    Snapshot)
    requires
        previous.tasks@.len() + scanned@.len() <= u32::MAX,
    ensures
        r.tasks@ == newest_first(
            merged_sources(surviving(previous.tasks@, "local-session"@, scanned@), scanned@, now),
        ),
        r.task_counts == counts_of(
            merged_sources(surviving(previous.tasks@, "local-session"@, scanned@), scanned@, now),
        ),
        r.active_task_count == r.task_counts.needs_action + r.task_counts.running,
        r.changed_at == Some(now),
        r.source is Some && r.source->0@ == source@,
        r.status == previous.status,
        r.fetched_at == previous.fetched_at,
        r.quota_remaining_percent == previous.quota_remaining_percent,
        r.quota_resets_at == previous.quota_resets_at,
        r.five_hour_remaining_percent == previous.five_hour_remaining_percent,
        r.five_hour_resets_at == previous.five_hour_resets_at,
        r.plan == previous.plan,
        r.reset_credits == previous.reset_credits,
        r.today_tokens == previous.today_tokens,
        r.usage_date == previous.usage_date,
        r.error == previous.error,
        r.history@ == previous.history@,
        r.history_cycle_key == previous.history_cycle_key,
        r.previous_history@ == previous.previous_history@,
        r.previous_history_cycle_key == previous.previous_history_cycle_key,
        r.hook_diagnostics == previous.hook_diagnostics,
        r.schema_version == previous.schema_version,
{
    let mut registry = TaskRegistry::from_tasks(previous.tasks.as_slice());
    proof {
        lemma_surviving_len(previous.tasks@, "local-session"@, scanned@);
        lemma_merged_sources_len(
            surviving(previous.tasks@, "local-session"@, scanned@),
            scanned@,
            now,
        );
    }
    registry.replace_source_tasks("local-session", scanned, now);
    let mut next = previous.duplicate();
    next.tasks = registry.tasks();
    let counts = registry.counts();
    proof {
        let m = registry@;
        lemma_count_pair_bound(m);
    }
    next.task_counts = counts;
    next.active_task_count = counts.needs_action + counts.running;
    next.changed_at = Some(now);
    next.source = Some(source.to_owned());
    next
}

proof fn lemma_count_pair_bound(s: Seq<TaskSummary>)
    ensures
        count_of(s, TaskStatus::NeedsAction) + count_of(s, TaskStatus::Running) <= s.len(),
    decreases s.len(),
{
    if s.len() > 0 {
        lemma_count_pair_bound(s.drop_last());
    }
}

/// The user's request in a content item of type `input_text`.
pub open spec fn item_request(item: JsonValue) -> Option<Seq<char>> {
    let t = json_str(get(Some(item), "type"@));
    if t == Some("input_text"@) || t == Some("inputText"@) {
        match json_str(get(Some(item), "text"@)) {
            Some(x) => spec_clean_user_request(x),
            None => None,
        }
    } else {
        None
    }
}

/// The first content item that holds a user request.
pub open spec fn first_item_request(items: Seq<JsonValue>) -> Option<Seq<char>>
    decreases items.len(),
{
    if items.len() == 0 {
        None
    } else {
        match item_request(items[0]) {
            Some(x) => Some(x),
            None => first_item_request(items.drop_first()),
        }
    }
}

/// The user's request in a message's content: a string, or its first request item.
pub open spec fn content_request(content: Option<JsonValue>) -> Option<Seq<char>> {
    match content {
        Some(c) => or_opt(
            match json_str(Some(c)) {
                Some(x) => spec_clean_user_request(x),
                None => None,
            },
            match json_array(Some(c)) {
                Some(items) => first_item_request(items),
                None => None,
            },
        ),
        None => None,
    }
}

/// The short activity a rollout line names: the first sentence of the user's request,
/// at most 80 characters; `None` for anything but a user message with a request.
pub open spec fn line_activity(line: Seq<char>) -> Option<Seq<char>> {
    match parsed_json(line) {
        None => None,
        Some(doc) => {
            let payload = either(get(Some(doc), "payload"@), Some(doc));
            if json_str(get(payload, "type"@)) != Some("message"@) || json_str(get(payload, "role"@)) != Some(
                "user"@,
            ) {
                None
            } else {
                match or_opt(
                    content_request(get(payload, "content"@)),
                    match json_str(get(payload, "text"@)) {
                        Some(x) => spec_clean_user_request(x),
                        None => None,
                    },
                ) {
                    None => None,
                    Some(text) => {
                        let line = match first_nonblank(lines(text)) {
                            Some(l) => l,
                            None => Seq::empty(),
                        };
                        let a = first_sentence(line);
                        if a.len() == 0 {
                            None
                        } else {
                            Some(take_chars(a, 80))
                        }
                    },
                }
            }
        },
    }
}

/// The activity of the last line of `ls` that names one.
pub open spec fn latest_activity(ls: Seq<Seq<char>>) -> Option<Seq<char>>
    decreases ls.len(),
{
    if ls.len() == 0 {
        None
    } else {
        match line_activity(ls.last()) {
            Some(a) => Some(a),
            None => latest_activity(ls.drop_last()),
        }
    }
}

fn item_request_in(item: &JsonValue) -> (r: Option<Vec<char>>)
    ensures
        match r {
            Some(v) => item_request(*item) == Some(v@),
            None => item_request(*item) is None,
        },
{
    let t = str_of(get_member(Some(item), "type"));
    let ok = match t {
        Some(x) => crate::text::str_eq(x.as_str(), "input_text") || crate::text::str_eq(x.as_str(), "inputText"),
        None => false,
    };
    if !ok {
        return None;
    }
    match str_of(get_member(Some(item), "text")) {
        Some(x) => {
            let c = chars_of(x.as_str());
            clean_user_request_chars(c.as_slice())
        },
        None => None,
    }
}

fn first_item_request_in(items: &Vec<JsonValue>) -> (r: Option<Vec<char>>)
    ensures
        match r {
            Some(v) => first_item_request(items@) == Some(v@),
            None => first_item_request(items@) is None,
        },
{
    let mut i: usize = 0;
    assert(items@.skip(0) =~= items@);
    while i < items.len()
        invariant
            i <= items.len(),
            first_item_request(items@) == first_item_request(items@.skip(i as int)),
        decreases items.len() - i,
    {
        assert(items@.skip(i as int)[0] == items@[i as int]);
        assert(items@.skip(i as int).drop_first() =~= items@.skip(i + 1));
        match item_request_in(&items[i]) {
            Some(v) => return Some(v),
            None => {},
        }
        i = i + 1;
    }
    None
}

fn clean_str_in(v: Option<&JsonValue>) -> (r: Option<Vec<char>>)
    ensures
        match r {
            Some(x) => (match json_str(deref_opt(v)) {
                Some(t) => spec_clean_user_request(t),
                None => None,
            }) == Some(x@),
            None => (match json_str(deref_opt(v)) {
                Some(t) => spec_clean_user_request(t),
                None => None,
            }) is None,
        },
{
    match str_of(v) {
        Some(x) => {
            let c = chars_of(x.as_str());
            clean_user_request_chars(c.as_slice())
        },
        None => None,
    }
}

fn line_activity_in(line: &str) -> (r: Option<Vec<char>>)
    ensures
        match r {
            Some(v) => line_activity(line@) == Some(v@),
            None => line_activity(line@) is None,
        },
{
    let doc = match parse_json(line) {
        Ok(d) => d,
        Err(_) => return None,
    };
    let payload = either_ref(get_member(Some(&doc), "payload"), Some(&doc));
    let is_message = match str_of(get_member(payload, "type")) {
        Some(x) => crate::text::str_eq(x.as_str(), "message"),
        None => false,
    };
    let is_user = match str_of(get_member(payload, "role")) {
        Some(x) => crate::text::str_eq(x.as_str(), "user"),
        None => false,
    };
    proof {
        reveal_strlit("message");
        reveal_strlit("user");
    }
    if !is_message || !is_user {
        return None;
    }
    let content = get_member(payload, "content");
    let from_content = match content {
        Some(_) => match clean_str_in(content) {
            Some(x) => Some(x),
            None => match array_of(content) {
                Some(items) => first_item_request_in(items),
                None => None,
            },
        },
        None => None,
    };
    let text = match from_content {
        Some(x) => x,
        None => match clean_str_in(get_member(payload, "text")) {
            Some(x) => x,
            None => return None,
        },
    };
    let first = match first_nonblank_line(text.as_slice()) {
        Some(l) => l,
        None => Vec::new(),
    };
    let a = first_sentence_of(first.as_slice());
    if a.len() == 0 {
        None
    } else {
        Some(take_chars_exec(a.as_slice(), 80))
    }
}

/// The latest user request named in the head of a rollout file, shortened to a title.
pub fn extract_rollout_user_activity(text: &str) -> (r: Option<String>)
    ensures
        match r {
            Some(v) => latest_activity(lines(text@)) == Some(v@),
            None => latest_activity(lines(text@)) is None,
        },
{
    let tc = chars_of(text);
    let ls = split_lines(tc.as_slice());
    let ghost views = ls@.map_values(|l: Vec<char>| l@);
    assert(views == lines(text@));
    let mut latest: Option<Vec<char>> = None;
    let mut i: usize = 0;
    while i < ls.len()
        invariant
            i <= ls.len(),
            views == ls@.map_values(|l: Vec<char>| l@),
            match latest {
                Some(v) => latest_activity(views.take(i as int)) == Some(v@),
                None => latest_activity(views.take(i as int)) is None,
            },
        decreases ls.len() - i,
    {
        assert(views.take(i + 1).drop_last() =~= views.take(i as int));
        assert(views.take(i + 1).last() == ls@[i as int]@);
        let line = string_of(ls[i].as_slice());
        match line_activity_in(line.as_str()) {
            Some(a) => {
                latest = Some(a);
            },
            None => {},
        }
        i = i + 1;
    }
    assert(views.take(ls.len() as int) =~= views);
    match latest {
        Some(v) => Some(string_of(v.as_slice())),
        None => None,
    }
}


/// Seconds a running or waiting rollout counts as live.
pub open spec fn running_freshness_seconds() -> int {
    180
}

/// The status one rollout record stands for, if any.
pub open spec fn record_status(doc: JsonValue) -> Option<TaskStatus> {
    match json_str(get(Some(doc), "type"@)) {
        None => None,
        Some(rt) => {
            let payload = either(get(Some(doc), "payload"@), Some(doc));
            let pt = match json_str(get(payload, "type"@)) {
                Some(t) => ascii_lower(t),
                None => Seq::empty(),
            };
            if rt == "event_msg"@ && pt == "task_complete"@ {
                Some(TaskStatus::Completed)
            } else if rt == "event_msg"@ && (has_infix(pt, "approval"@) || has_infix(pt, "request_user_input"@)
                || has_infix(pt, "needs_action"@)) {
                Some(TaskStatus::NeedsAction)
            } else if rt == "turn_context"@ {
                Some(TaskStatus::Running)
            } else if rt == "response_item"@ && pt == "message"@ && json_str(get(payload, "role"@)) == Some(
                "user"@,
            ) {
                Some(TaskStatus::Running)
            } else if rt == "response_item"@ && pt == "custom_tool_call"@ && (match json_str(
                get(payload, "name"@),
            ) {
                Some(n) => has_infix(n, "request_user_input"@),
                None => false,
            }) {
                Some(TaskStatus::NeedsAction)
            } else if rt == "response_item"@ && (pt == "custom_tool_call"@ || pt == "custom_tool_call_output"@
                || pt == "function_call"@ || pt == "function_call_output"@ || pt == "reasoning"@) {
                Some(TaskStatus::Running)
            } else if rt == "event_msg"@ && (pt == "agent_message"@ || pt == "agent_reasoning"@ || pt
                == "token_count"@ || pt == "patch_apply_begin"@ || pt == "patch_apply_end"@) {
                Some(TaskStatus::Running)
            } else {
                None
            }
        },
    }
}

fn lower_type_in(v: Option<&JsonValue>) -> (r: Vec<char>)
    ensures
        r@ == match json_str(get(deref_opt(v), "type"@)) {
            Some(t) => ascii_lower(t),
            None => Seq::<char>::empty(),
        },
{
    match str_of(get_member(v, "type")) {
        Some(t) => ascii_lower_str(t.as_str()),
        None => Vec::new(),
    }
}

/// The status one rollout record stands for, if any.
pub fn rollout_line_status(doc: &JsonValue) -> (r: Option<TaskStatus>)
    ensures
        r == record_status(*doc),
{
    let rtv = match str_of(get_member(Some(doc), "type")) {
        Some(t) => chars_of(t.as_str()),
        None => return None,
    };
    let rt = &rtv;
    let payload = either_ref(get_member(Some(doc), "payload"), Some(doc));
    let pt = lower_type_in(payload);
    let event = is_text(rt, "event_msg");
    let item = is_text(rt, "response_item");
    if event && is_text(&pt, "task_complete") {
        return Some(TaskStatus::Completed);
    }
    if event && (has_text(&pt, "approval") || has_text(&pt, "request_user_input") || has_text(&pt, "needs_action")) {
        return Some(TaskStatus::NeedsAction);
    }
    if is_text(rt, "turn_context") {
        return Some(TaskStatus::Running);
    }
    let user = match str_of(get_member(payload, "role")) {
        Some(x) => crate::text::str_eq(x.as_str(), "user"),
        None => false,
    };
    proof {
        reveal_strlit("user");
    }
    if item && is_text(&pt, "message") && user {
        return Some(TaskStatus::Running);
    }
    let asks = match str_of(get_member(payload, "name")) {
        Some(n) => {
            let nc = chars_of(n.as_str());
            has_text(&nc, "request_user_input")
        },
        None => false,
    };
    if item && is_text(&pt, "custom_tool_call") && asks {
        return Some(TaskStatus::NeedsAction);
    }
    if item && (is_text(&pt, "custom_tool_call") || is_text(&pt, "custom_tool_call_output") || is_text(
        &pt,
        "function_call",
    ) || is_text(&pt, "function_call_output") || is_text(&pt, "reasoning")) {
        return Some(TaskStatus::Running);
    }
    if event && (is_text(&pt, "agent_message") || is_text(&pt, "agent_reasoning") || is_text(&pt, "token_count")
        || is_text(&pt, "patch_apply_begin") || is_text(&pt, "patch_apply_end")) {
        return Some(TaskStatus::Running);
    }
    None
}

/// The status of the last line of `ls` that names one.
pub open spec fn last_status(ls: Seq<Seq<char>>) -> Option<TaskStatus>
    decreases ls.len(),
{
    if ls.len() == 0 {
        None
    } else {
        match parsed_json(ls.last()) {
            Some(doc) => match record_status(doc) {
                Some(st) => Some(st),
                None => last_status(ls.drop_last()),
            },
            None => last_status(ls.drop_last()),
        }
    }
}

/// The text after its first line break, or nothing when it has none.
pub open spec fn after_first_break(t: Seq<char>) -> Seq<char> {
    match crate::text::first_index_of(t, '\n') {
        Some(i) => t.skip(i + 1),
        None => Seq::empty(),
    }
}

/// The status the tail of a rollout file shows, once checked for freshness: a
/// completion stays six hours, a running or waiting state three minutes. When the
/// tail starts mid-file (`partial`), its first, cut, line is skipped.
pub open spec fn tail_status(text: Seq<char>, partial: bool, modified_at: i64, now: i64) -> Option<TaskStatus> {
    let t = if partial {
        after_first_break(text)
    } else {
        text
    };
    let age = sat_sub(now, modified_at);
    match last_status(lines(t)) {
        Some(TaskStatus::Completed) => if age <= completed_visible_seconds() {
            Some(TaskStatus::Completed)
        } else {
            None
        },
        Some(TaskStatus::Running) => if age <= running_freshness_seconds() {
            Some(TaskStatus::Running)
        } else {
            None
        },
        Some(TaskStatus::NeedsAction) => if age <= running_freshness_seconds() {
            Some(TaskStatus::NeedsAction)
        } else {
            None
        },
        _ => None,
    }
}

/// The status the tail of a rollout file shows, once checked for freshness.
pub fn rollout_status_from_tail(text: &str, partial: bool, modified_at: i64, now: i64) -> (r: Option<TaskStatus>)
    ensures
        r == tail_status(text@, partial, modified_at, now),
{
    let tc = chars_of(text);
    let t = if partial {
        match crate::text::index_of_char(tc.as_slice(), '\n') {
            Some(i) => skip_chars(tc.as_slice(), i + 1),
            None => Vec::new(),
        }
    } else {
        tc
    };
    let ls = split_lines(t.as_slice());
    let ghost views = ls@.map_values(|l: Vec<char>| l@);
    let mut status: Option<TaskStatus> = None;
    let mut i: usize = 0;
    while i < ls.len()
        invariant
            i <= ls.len(),
            views == ls@.map_values(|l: Vec<char>| l@),
            status == last_status(views.take(i as int)),
        decreases ls.len() - i,
    {
        assert(views.take(i + 1).drop_last() =~= views.take(i as int));
        assert(views.take(i + 1).last() == ls@[i as int]@);
        let line = string_of(ls[i].as_slice());
        match parse_json(line.as_str()) {
            Ok(doc) => {
                match rollout_line_status(&doc) {
                    Some(st) => {
                        status = Some(st);
                    },
                    None => {},
                }
            },
            Err(_) => {},
        }
        i = i + 1;
    }
    assert(views.take(ls.len() as int) =~= views);
    let age = sat_sub_exec(now, modified_at);
    match status {
        Some(TaskStatus::Completed) => if age <= 21600 {
            Some(TaskStatus::Completed)
        } else {
            None
        },
        Some(TaskStatus::Running) => if age <= 180 {
            Some(TaskStatus::Running)
        } else {
            None
        },
        Some(TaskStatus::NeedsAction) => if age <= 180 {
            Some(TaskStatus::NeedsAction)
        } else {
            None
        },
        _ => None,
    }
}


proof fn lemma_find_index_push(a: Seq<TaskSummary>, x: TaskSummary, id: Seq<char>)
    requires
        find_index(a, id) is Some,
    ensures
        find_index(a.push(x), id) == find_index(a, id),
{
    assert(a.push(x).drop_last() =~= a);
}

proof fn lemma_carry_missing_prefix(acc: Seq<TaskSummary>, prevs: Seq<TaskSummary>, now: i64)
    ensures
        carry_missing(acc, prevs, now).len() >= acc.len(),
        forall|k: int| 0 <= k < acc.len() ==> carry_missing(acc, prevs, now)[k] == acc[k],
        forall|id: Seq<char>| #[trigger] find_index(acc, id) is Some ==> find_index(carry_missing(acc, prevs, now), id) is Some,
    decreases prevs.len(),
{
    if prevs.len() > 0 {
        lemma_carry_missing_prefix(acc, prevs.drop_last(), now);
        let a = carry_missing(acc, prevs.drop_last(), now);
        let x = prevs.last();
        if find_index(a, x.id@) is None && keeps_missing(x, now) {
            assert forall|id: Seq<char>| #[trigger] find_index(acc, id) is Some implies find_index(a.push(x), id) is Some by {
                lemma_find_index_push(a, x, id);
            }
        }
    }
}

proof fn lemma_carry_missing_keeps(acc: Seq<TaskSummary>, prevs: Seq<TaskSummary>, now: i64, j: int)
    requires
        0 <= j < prevs.len(),
        keeps_missing(prevs[j], now),
    ensures
        find_index(carry_missing(acc, prevs, now), prevs[j].id@) is Some,
    decreases prevs.len(),
{
    let a = carry_missing(acc, prevs.drop_last(), now);
    let x = prevs.last();
    if j < prevs.len() - 1 {
        assert(prevs.drop_last()[j] == prevs[j]);
        lemma_carry_missing_keeps(acc, prevs.drop_last(), now, j);
        if find_index(a, x.id@) is None && keeps_missing(x, now) {
            lemma_find_index_push(a, x, prevs[j].id@);
        }
    } else {
        if find_index(a, x.id@) is None {
            lemma_find_index(a.push(x), x.id@);
            assert(a.push(x)[a.len() as int].id@ == x.id@);
        }
    }
}

/// A red row stays red when the thread list reports its thread as anything but
/// completed, and keeps its approval request.
pub proof fn law_polled_rows_stay_red(previous: Seq<TaskSummary>, polled: Seq<TaskSummary>, now: i64, k: int, i: int)
    requires
        0 <= k < polled.len(),
        find_index(previous, polled[k].id@) == Some(i),
        !previous[i].acknowledged,
        previous[i].status == TaskStatus::NeedsAction,
        polled[k].status != TaskStatus::Completed,
    ensures
        spec_merge_polled(previous, polled, now)[k].status == TaskStatus::NeedsAction,
        spec_merge_polled(previous, polled, now)[k].approval_request_id == or_opt(
            previous[i].approval_request_id,
            polled[k].approval_request_id,
        ),
{
    let acc = polled.map_values(|p: TaskSummary| with_previous(previous, p));
    lemma_carry_missing_prefix(acc, previous, now);
    assert(acc[k] == with_previous(previous, polled[k]));
}

/// A recent row that the thread list no longer names stays listed: running and waiting
/// rows for fifteen minutes, completed ones for six hours.
pub proof fn law_recent_rows_missing_from_the_list_stay(
    previous: Seq<TaskSummary>,
    polled: Seq<TaskSummary>,
    now: i64,
    j: int,
)
    requires
        0 <= j < previous.len(),
        keeps_missing(previous[j], now),
    ensures
        find_index(spec_merge_polled(previous, polled, now), previous[j].id@) is Some,
{
    let acc = polled.map_values(|p: TaskSummary| with_previous(previous, p));
    lemma_carry_missing_keeps(acc, previous, now, j);
}

/// A running or idle event that neither asks nor completes leaves a waiting row waiting,
/// with its request.
pub proof fn law_running_event_keeps_pending_approval(t: TaskSummary, e: NormalizedTaskEvent, now: i64)
    requires
        t.status == TaskStatus::NeedsAction,
        !e.waiting_for_user,
        !e.completed,
        e.approval_request_id is None,
    ensures
        snapshot_task_after_event(t, e, now).status == TaskStatus::NeedsAction,
        snapshot_task_after_event(t, e, now).approval_request_id == t.approval_request_id,
        snapshot_task_after_event(t, e, now).waiting_reason == t.waiting_reason,
{
}

/// Rollout rows only add detail to the polled rows: no row is added or removed, and each
/// keeps its id, title and status.
pub proof fn law_rollout_rows_add_no_tasks(polled: Seq<TaskSummary>, rollout: Seq<TaskSummary>)
    ensures
        with_rollouts(polled, rollout).len() == polled.len(),
        forall|i: int|
            0 <= i < polled.len() ==> {
                let r = #[trigger] with_rollouts(polled, rollout)[i];
                r.id == polled[i].id && r.title == polled[i].title && r.status == polled[i].status
            },
    decreases rollout.len(),
{
    if rollout.len() > 0 {
        law_rollout_rows_add_no_tasks(polled, rollout.drop_last());
        let p = with_rollouts(polled, rollout.drop_last());
        lemma_find_index(p, rollout.last().id@);
    }
}

} // verus!

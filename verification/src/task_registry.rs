//! The live task list, merged from app-server events, polls and local session scans.
use vstd::prelude::*;
use crate::codex_protocol::NormalizedTaskEvent;
use crate::domain::{
    count_of, counts_of, is_counted, map_task_status, max_i64, max_of, or_opt, sat_sub,
    sat_sub_exec, status_of_flags, TaskCounts, TaskEvent, TaskStatus, TaskSummary,
};
use crate::text::{copy_opt_string, opt_eq, opt_is, str_eq};

verus! {

/// Seconds a running or waiting task stays listed without news.
pub open spec fn running_keep_seconds() -> int {
    900
}

/// Seconds a completed task stays listed.
pub open spec fn completed_keep_seconds() -> int {
    21600
}

/// Title that app-server events carry when the thread has no name.
pub open spec fn placeholder_task_title() -> Seq<char> {
    "Codex 任务"@
}

/// Title given to a thread without a name.
pub open spec fn placeholder_conversation_title() -> Seq<char> {
    "Codex 对话"@
}

/// How much a source is trusted about a task's status; higher wins.
pub open spec fn source_rank(source: Option<String>) -> u8 {
    let s = match source {
        Some(v) => v@,
        None => Seq::empty(),
    };
    if s == "hook"@ {
        5
    } else if s == "desktop-accessibility"@ {
        4
    } else if s == "desktop-state"@ {
        3
    } else if s == "local-session"@ {
        4
    } else if s == "app-server-event"@ {
        2
    } else if s == "poll"@ || s == "history"@ {
        1
    } else {
        0
    }
}

fn source_rank_exec(source: &Option<String>) -> (r: u8)
    ensures
        r == source_rank(*source),
{
    let s: &str = match source {
        Some(v) => v.as_str(),
        None => "",
    };
    proof {
        reveal_strlit("");
        assert(""@ =~= Seq::<char>::empty());
    }
    if str_eq(s, "hook") {
        5
    } else if str_eq(s, "desktop-accessibility") {
        4
    } else if str_eq(s, "desktop-state") {
        3
    } else if str_eq(s, "local-session") {
        4
    } else if str_eq(s, "app-server-event") {
        2
    } else if str_eq(s, "poll") || str_eq(s, "history") {
        1
    } else {
        0
    }
}

/// Two optional strings are equal by their characters.
pub open spec fn same_opt(a: Option<String>, b: Option<String>) -> bool {
    a is Some == b is Some && (a is Some ==> a->0@ == b->0@)
}

/// Index of the first task with the given id.
pub open spec fn find_index(tasks: Seq<TaskSummary>, id: Seq<char>) -> Option<int>
    decreases tasks.len(),
{
    if tasks.len() == 0 {
        None
    } else {
        match find_index(tasks.drop_last(), id) {
            Some(i) => Some(i),
            None => if tasks.last().id@ == id {
                Some(tasks.len() - 1)
            } else {
                None
            },
        }
    }
}

/// `find_index` gives the first match, or `None` when nothing matches.
pub proof fn lemma_find_index(tasks: Seq<TaskSummary>, id: Seq<char>)
    ensures
        match find_index(tasks, id) {
            Some(i) => 0 <= i < tasks.len() && tasks[i].id@ == id && forall|j: int|
                0 <= j < i ==> tasks[j].id@ != id,
            None => forall|j: int| 0 <= j < tasks.len() ==> tasks[j].id@ != id,
        },
    decreases tasks.len(),
{
    if tasks.len() > 0 {
        let p = tasks.drop_last();
        lemma_find_index(p, id);
        assert forall|j: int| 0 <= j < p.len() implies p[j] == tasks[j] by {}
    }
}

/// Finds the first task with the given id.
pub fn find_task(tasks: &Vec<TaskSummary>, id: &str) -> (r: Option<usize>)
    ensures
        match r {
            Some(i) => find_index(tasks@, id@) == Some(i as int) && i < tasks@.len(),
            None => find_index(tasks@, id@) is None,
        },
{
    proof {
        lemma_find_index(tasks@, id@);
    }
    let mut i: usize = 0;
    while i < tasks.len()
        invariant
            i <= tasks.len(),
            forall|j: int| 0 <= j < i ==> tasks@[j].id@ != id@,
            match find_index(tasks@, id@) {
                Some(k) => 0 <= k < tasks@.len() && tasks@[k].id@ == id@ && forall|j: int|
                    0 <= j < k ==> tasks@[j].id@ != id@,
                None => forall|j: int| 0 <= j < tasks@.len() ==> tasks@[j].id@ != id@,
            },
        decreases tasks.len() - i,
    {
        if str_eq(tasks[i].id.as_str(), id) {
            return Some(i);
        }
        i = i + 1;
    }
    None
}

/// The time an event counts as: its own, or `now` when it carries none.
pub open spec fn event_time(e: NormalizedTaskEvent, now: i64) -> i64 {
    if e.updated_at == 0 {
        now
    } else {
        e.updated_at
    }
}

pub open spec fn event_status(e: NormalizedTaskEvent) -> TaskStatus {
    status_of_flags(e.waiting_for_user, e.running, e.completed)
}

/// A completion that belongs to another turn than the one the task is in.
pub open spec fn is_stale_turn(t: TaskSummary, e: NormalizedTaskEvent) -> bool {
    e.completed && t.turn_id is Some && e.turn_id is Some && !same_opt(t.turn_id, e.turn_id)
}

pub open spec fn is_hook_task(t: TaskSummary) -> bool {
    t.source is Some && t.source->0@ == "hook"@
}

/// The event answers the approval request that the task is waiting for.
pub open spec fn resolves_pending(t: TaskSummary, e: NormalizedTaskEvent) -> bool {
    e.resolved_request_id is Some && t.approval_request_id is Some && t.approval_request_id->0@
        == e.resolved_request_id->0@
}

/// A plain running or idle event does not clear a waiting approval.
pub open spec fn keeps_approval(t: TaskSummary, e: NormalizedTaskEvent) -> bool {
    t.status == TaskStatus::NeedsAction && (event_status(e) == TaskStatus::Inactive || event_status(e)
        == TaskStatus::Running) && e.approval_request_id is None && !e.waiting_for_user
        && !e.completed
}

/// `r` is task `t` after the event `e` arrived at `now`.
pub open spec fn task_after_event(t: TaskSummary, e: NormalizedTaskEvent, now: i64, r: TaskSummary) -> bool {
    let u = event_time(e, now);
    let s = event_status(e);
    let hook = is_hook_task(t);
    let stale = is_stale_turn(t, e);
    let keep = keeps_approval(t, e);
    if resolves_pending(t, e) {
        r == TaskSummary {
            approval_request_id: None,
            waiting_reason: None,
            status: if e.completed {
                TaskStatus::Completed
            } else {
                TaskStatus::Running
            },
            updated_at: max_i64(t.updated_at, u),
            ..t
        }
    } else {
        &&& r.id == t.id
        &&& r.activity == t.activity
        &&& r.acknowledged == t.acknowledged
        &&& r.status == (if !keep && !stale && !hook {
            s
        } else {
            t.status
        })
        &&& r.waiting_reason == (if s == TaskStatus::NeedsAction && !hook {
            or_opt(e.waiting_reason, t.waiting_reason)
        } else if !keep && !hook {
            None
        } else {
            t.waiting_reason
        })
        &&& r.approval_request_id == (if s == TaskStatus::NeedsAction && !hook {
            or_opt(e.approval_request_id, t.approval_request_id)
        } else if !keep && !hook {
            None
        } else {
            t.approval_request_id
        })
        &&& r.title == (if e.title@.len() != 0 && e.title@ != placeholder_task_title() {
            e.title
        } else {
            t.title
        })
        &&& r.token_count == or_opt(e.token_count, t.token_count)
        &&& r.updated_at == max_i64(t.updated_at, u)
        &&& if !hook && !stale {
            &&& r.source is Some
            &&& r.source->0@ == "app-server-event"@
            &&& r.turn_id == or_opt(e.turn_id, t.turn_id)
        } else {
            r.source == t.source && r.turn_id == t.turn_id
        }
        &&& r.received_at == max_i64(t.received_at, u)
    }
}

/// `r` is the row that an event about an unknown task creates.
pub open spec fn task_from_event(e: NormalizedTaskEvent, now: i64, r: TaskSummary) -> bool {
    &&& r.id == e.id
    &&& if e.title@.len() == 0 {
        r.title@ == placeholder_conversation_title()
    } else {
        r.title == e.title
    }
    &&& r.activity is None
    &&& r.waiting_reason == e.waiting_reason
    &&& r.approval_request_id == e.approval_request_id
    &&& r.status == event_status(e)
    &&& r.token_count == e.token_count
    &&& r.updated_at == event_time(e, now)
    &&& !r.acknowledged
    &&& r.source is Some
    &&& r.source->0@ == "app-server-event"@
    &&& r.turn_id == e.turn_id
    &&& r.received_at == now
}

/// `new` is the task list `old` after the event `e` arrived at `now`.
pub open spec fn event_applied(old: Seq<TaskSummary>, e: NormalizedTaskEvent, now: i64, new: Seq<TaskSummary>) -> bool {
    match find_index(old, e.id@) {
        Some(i) => {
            &&& new.len() == old.len()
            &&& forall|j: int| 0 <= j < old.len() && j != i ==> new[j] == old[j]
            &&& task_after_event(old[i], e, now, new[i])
        },
        None => {
            &&& new.len() == old.len() + 1
            &&& new.take(old.len() as int) == old
            &&& task_from_event(e, now, new.last())
        },
    }
}

/// `t` after the incoming row `c` about the same task was merged into it.
pub open spec fn merged_task(t: TaskSummary, c: TaskSummary) -> TaskSummary {
    let keep_approval = t.status == TaskStatus::NeedsAction && c.status != TaskStatus::NeedsAction
        && t.approval_request_id is Some;
    let newer = c.updated_at >= t.updated_at;
    let new_turn = c.turn_id is Some && t.turn_id is Some && !same_opt(c.turn_id, t.turn_id)
        && c.updated_at > t.updated_at;
    let cr = source_rank(c.source);
    let tr = source_rank(t.source);
    let authoritative = cr > tr || (cr == tr && newer) || new_turn;
    TaskSummary {
        id: t.id,
        title: if c.title@ != placeholder_conversation_title() && c.title@
            != placeholder_task_title() {
            c.title
        } else {
            t.title
        },
        activity: or_opt(c.activity, t.activity),
        waiting_reason: or_opt(c.waiting_reason, t.waiting_reason),
        approval_request_id: or_opt(c.approval_request_id, t.approval_request_id),
        status: if !keep_approval && c.status != TaskStatus::Inactive && authoritative {
            c.status
        } else {
            t.status
        },
        token_count: or_opt(c.token_count, t.token_count),
        updated_at: max_i64(t.updated_at, c.updated_at),
        acknowledged: t.acknowledged,
        source: if authoritative {
            or_opt(c.source, t.source)
        } else {
            t.source
        },
        turn_id: if authoritative {
            or_opt(c.turn_id, t.turn_id)
        } else {
            t.turn_id
        },
        received_at: max_i64(t.received_at, c.received_at),
    }
}

/// The list after one incoming row was merged in.
pub open spec fn merge_one(tasks: Seq<TaskSummary>, c: TaskSummary) -> Seq<TaskSummary> {
    match find_index(tasks, c.id@) {
        Some(i) => tasks.update(i, merged_task(tasks[i], c)),
        None => tasks.push(c),
    }
}

/// The list after all incoming rows were merged in, in order.
pub open spec fn merge_all(tasks: Seq<TaskSummary>, incoming: Seq<TaskSummary>) -> Seq<TaskSummary>
    decreases incoming.len(),
{
    if incoming.len() == 0 {
        tasks
    } else {
        merge_one(merge_all(tasks, incoming.drop_last()), incoming.last())
    }
}

pub open spec fn is_desktop_source(t: TaskSummary) -> bool {
    t.source is Some && (t.source->0@ == "desktop-state"@ || t.source->0@
        == "desktop-accessibility"@)
}

/// Whether a task stays listed at `now`.
pub open spec fn still_listed(t: TaskSummary, now: i64) -> bool {
    let age = sat_sub(now, t.updated_at);
    match t.status {
        TaskStatus::NeedsAction | TaskStatus::Running => is_desktop_source(t) || age
            <= running_keep_seconds() || t.approval_request_id is Some,
        TaskStatus::Completed => age <= completed_keep_seconds(),
        TaskStatus::Inactive => t.approval_request_id is Some,
    }
}

/// The tasks of `s` that stay listed at `now`, in order.
pub open spec fn listed(s: Seq<TaskSummary>, now: i64) -> Seq<TaskSummary>
    decreases s.len(),
{
    if s.len() == 0 {
        s
    } else if still_listed(s.last(), now) {
        listed(s.drop_last(), now).push(s.last())
    } else {
        listed(s.drop_last(), now)
    }
}

pub open spec fn merged_sources(tasks: Seq<TaskSummary>, incoming: Seq<TaskSummary>, now: i64) -> Seq<
    TaskSummary,
> {
    listed(merge_all(tasks, incoming), now)
}

/// Some incoming row has the id of `t`.
pub open spec fn mentioned(incoming: Seq<TaskSummary>, t: TaskSummary) -> bool {
    exists|k: int| 0 <= k < incoming.len() && incoming[k].id@ == t.id@
}

/// A row survives the replacement of `source`'s view unless that source owned it
/// and no longer reports it (completed rows stay).
pub open spec fn survives_replacement(t: TaskSummary, source: Seq<char>, incoming: Seq<TaskSummary>) -> bool {
    !(t.source is Some && t.source->0@ == source) || mentioned(incoming, t) || t.status
        == TaskStatus::Completed
}

pub open spec fn surviving(s: Seq<TaskSummary>, source: Seq<char>, incoming: Seq<TaskSummary>) -> Seq<
    TaskSummary,
>
    decreases s.len(),
{
    if s.len() == 0 {
        s
    } else if survives_replacement(s.last(), source, incoming) {
        surviving(s.drop_last(), source, incoming).push(s.last())
    } else {
        surviving(s.drop_last(), source, incoming)
    }
}

/// Where a row with time `key` goes: after the leading rows whose time is at least `key`.
pub open spec fn insert_pos(sorted: Seq<TaskSummary>, key: i64) -> nat
    decreases sorted.len(),
{
    if sorted.len() == 0 || sorted[0].updated_at < key {
        0
    } else {
        1 + insert_pos(sorted.drop_first(), key)
    }
}

pub open spec fn insert_newest_first(sorted: Seq<TaskSummary>, x: TaskSummary) -> Seq<TaskSummary> {
    sorted.insert(insert_pos(sorted, x.updated_at) as int, x)
}

/// Stable sort, newest `updated_at` first.
pub open spec fn newest_first(s: Seq<TaskSummary>) -> Seq<TaskSummary>
    decreases s.len(),
{
    if s.len() == 0 {
        s
    } else {
        insert_newest_first(newest_first(s.drop_last()), s.last())
    }
}

pub open spec fn sorted_newest_first(s: Seq<TaskSummary>) -> bool {
    forall|i: int, j: int| 0 <= i < j < s.len() ==> s[i].updated_at >= s[j].updated_at
}

pub open spec fn ids_distinct(s: Seq<TaskSummary>) -> bool {
    forall|i: int, j: int| 0 <= i < j < s.len() ==> s[i].id@ != s[j].id@
}

/// Task `task` after `event`, with the event's time and status already worked out.
fn event_on_task(
    task: TaskSummary,
    event: NormalizedTaskEvent,
    updated_at: i64,
    status: TaskStatus,
    now: i64,
) -> (r: TaskSummary)
    requires
        updated_at == event_time(event, now),
        status == event_status(event),
    ensures
        task_after_event(task, event, now, r),
{
    let mut task = task;
    let ghost t = task;
    let stale_turn = event.completed && task.turn_id.is_some() && event.turn_id.is_some()
        && !opt_eq(&task.turn_id, &event.turn_id);
    let hook_authority = opt_is(&task.source, "hook");
    if let Some(resolved_id) = &event.resolved_request_id {
        let matches = match &task.approval_request_id {
            Some(a) => str_eq(a.as_str(), resolved_id.as_str()),
            None => false,
        };
        if matches {
            task.approval_request_id = None;
            task.waiting_reason = None;
            task.status = if event.completed {
                TaskStatus::Completed
            } else {
                TaskStatus::Running
            };
            task.updated_at = max_of(task.updated_at, updated_at);
            return task;
        }
    }
    let keep_approval = task.status == TaskStatus::NeedsAction && (status
        == TaskStatus::Inactive || status == TaskStatus::Running)
        && event.approval_request_id.is_none() && !event.waiting_for_user
        && !event.completed;
    if !keep_approval && !stale_turn && !hook_authority {
        task.status = status;
    }
    if status == TaskStatus::NeedsAction && !hook_authority {
        task.waiting_reason = match &event.waiting_reason {
            Some(w) => Some(w.clone()),
            None => copy_opt_string(&task.waiting_reason),
        };
        task.approval_request_id = match &event.approval_request_id {
            Some(a) => Some(a.clone()),
            None => copy_opt_string(&task.approval_request_id),
        };
    } else if !keep_approval && !hook_authority {
        task.waiting_reason = None;
        task.approval_request_id = None;
    }
    let title_chars = crate::text::chars_of(event.title.as_str());
    if title_chars.len() != 0 && !str_eq(event.title.as_str(), "Codex 任务") {
        task.title = event.title;
    }
    task.token_count = match event.token_count {
        Some(n) => Some(n),
        None => task.token_count,
    };
    task.updated_at = max_of(task.updated_at, updated_at);
    if !hook_authority && !stale_turn {
        task.source = Some("app-server-event".to_owned());
        task.turn_id = match event.turn_id {
            Some(turn) => Some(turn),
            None => copy_opt_string(&task.turn_id),
        };
    }
    task.received_at = max_of(task.received_at, updated_at);
    task
}

/// Merges the incoming row `c` into `t`.
fn merge_task(t: TaskSummary, c: TaskSummary) -> (r: TaskSummary)
    ensures
        r == merged_task(t, c),
{
    let keep_approval = t.status == TaskStatus::NeedsAction && c.status != TaskStatus::NeedsAction
        && t.approval_request_id.is_some();
    let newer = c.updated_at >= t.updated_at;
    let new_turn = c.turn_id.is_some() && t.turn_id.is_some() && !opt_eq(&c.turn_id, &t.turn_id)
        && c.updated_at > t.updated_at;
    let cr = source_rank_exec(&c.source);
    let tr = source_rank_exec(&t.source);
    let authoritative = cr > tr || (cr == tr && newer) || new_turn;
    let status = if !keep_approval && c.status != TaskStatus::Inactive && authoritative {
        c.status
    } else {
        t.status
    };
    let use_title = !str_eq(c.title.as_str(), "Codex 对话") && !str_eq(c.title.as_str(), "Codex 任务");
    let updated_at = max_of(t.updated_at, c.updated_at);
    let received_at = max_of(t.received_at, c.received_at);
    let token_count = match c.token_count {
        Some(n) => Some(n),
        None => t.token_count,
    };
    let (source, turn_id) = if authoritative {
        (
            match c.source {
                Some(v) => Some(v),
                None => t.source,
            },
            match c.turn_id {
                Some(v) => Some(v),
                None => t.turn_id,
            },
        )
    } else {
        (t.source, t.turn_id)
    };
    TaskSummary {
        id: t.id,
        title: if use_title {
            c.title
        } else {
            t.title
        },
        activity: match c.activity {
            Some(v) => Some(v),
            None => t.activity,
        },
        waiting_reason: match c.waiting_reason {
            Some(v) => Some(v),
            None => t.waiting_reason,
        },
        approval_request_id: match c.approval_request_id {
            Some(v) => Some(v),
            None => t.approval_request_id,
        },
        status,
        token_count,
        updated_at,
        acknowledged: t.acknowledged,
        source,
        turn_id,
        received_at,
    }
}

fn still_listed_exec(t: &TaskSummary, now: i64) -> (r: bool)
    ensures
        r == still_listed(*t, now),
{
    let age = sat_sub_exec(now, t.updated_at);
    match t.status {
        TaskStatus::NeedsAction | TaskStatus::Running => opt_is(&t.source, "desktop-state")
            || opt_is(&t.source, "desktop-accessibility") || age <= 900
            || t.approval_request_id.is_some(),
        TaskStatus::Completed => age <= 21600,
        TaskStatus::Inactive => t.approval_request_id.is_some(),
    }
}

/// The rows of `tasks` that stay listed at `now`.
fn keep_listed(tasks: &Vec<TaskSummary>, now: i64) -> (r: Vec<TaskSummary>)
    ensures
        r@ == listed(tasks@, now),
{
    let mut r: Vec<TaskSummary> = Vec::new();
    let mut i: usize = 0;
    while i < tasks.len()
        invariant
            i <= tasks.len(),
            r@ == listed(tasks@.take(i as int), now),
        decreases tasks.len() - i,
    {
        assert(tasks@.take(i + 1).drop_last() =~= tasks@.take(i as int));
        if still_listed_exec(&tasks[i], now) {
            r.push(tasks[i].duplicate());
        }
        i = i + 1;
    }
    assert(tasks@.take(tasks.len() as int) =~= tasks@);
    r
}

fn mentioned_exec(incoming: &Vec<TaskSummary>, t: &TaskSummary) -> (r: bool)
    ensures
        r == mentioned(incoming@, *t),
{
    let mut k: usize = 0;
    while k < incoming.len()
        invariant
            k <= incoming.len(),
            forall|j: int| 0 <= j < k ==> incoming@[j].id@ != t.id@,
        decreases incoming.len() - k,
    {
        if str_eq(incoming[k].id.as_str(), t.id.as_str()) {
            return true;
        }
        k = k + 1;
    }
    false
}

/// The rows that survive replacing the view of `source` with `incoming`.
fn keep_surviving(tasks: &Vec<TaskSummary>, source: &str, incoming: &Vec<TaskSummary>) -> (r: Vec<
    TaskSummary,
>)
    ensures
        r@ == surviving(tasks@, source@, incoming@),
{
    let mut r: Vec<TaskSummary> = Vec::new();
    let mut i: usize = 0;
    while i < tasks.len()
        invariant
            i <= tasks.len(),
            r@ == surviving(tasks@.take(i as int), source@, incoming@),
        decreases tasks.len() - i,
    {
        assert(tasks@.take(i + 1).drop_last() =~= tasks@.take(i as int));
        let t = &tasks[i];
        if !opt_is(&t.source, source) || mentioned_exec(incoming, t) || t.status
            == TaskStatus::Completed {
            r.push(t.duplicate());
        }
        i = i + 1;
    }
    assert(tasks@.take(tasks.len() as int) =~= tasks@);
    r
}

/// Position at which a row with time `key` goes into `sorted`.
fn insert_position(sorted: &Vec<TaskSummary>, key: i64) -> (p: usize)
    ensures
        p == insert_pos(sorted@, key),
{
    let mut p: usize = 0;
    assert(sorted@.skip(0) =~= sorted@);
    while p < sorted.len() && sorted[p].updated_at >= key
        invariant
            p <= sorted.len(),
            insert_pos(sorted@, key) == p + insert_pos(sorted@.skip(p as int), key),
        decreases sorted.len() - p,
    {
        proof {
            let t = sorted@.skip(p as int);
            assert(t[0] == sorted@[p as int]);
            assert(t.drop_first() =~= sorted@.skip(p + 1));
        }
        p = p + 1;
    }
    proof {
        let t = sorted@.skip(p as int);
        if p < sorted.len() {
            assert(t[0] == sorted@[p as int]);
        }
    }
    p
}

/// Stable sort of the rows, newest first.
pub fn sort_newest_first(tasks: &Vec<TaskSummary>) -> (r: Vec<TaskSummary>)
    ensures
        r@ == newest_first(tasks@),
{
    let mut r: Vec<TaskSummary> = Vec::new();
    let mut i: usize = 0;
    while i < tasks.len()
        invariant
            i <= tasks.len(),
            r@ == newest_first(tasks@.take(i as int)),
        decreases tasks.len() - i,
    {
        assert(tasks@.take(i + 1).drop_last() =~= tasks@.take(i as int));
        let x = tasks[i].duplicate();
        let p = insert_position(&r, x.updated_at);
        proof {
            lemma_insert_pos_bound(r@, x.updated_at);
        }
        r.insert(p, x);
        i = i + 1;
    }
    assert(tasks@.take(tasks.len() as int) =~= tasks@);
    r
}

proof fn lemma_insert_pos_bound(sorted: Seq<TaskSummary>, key: i64)
    ensures
        insert_pos(sorted, key) <= sorted.len(),
    decreases sorted.len(),
{
    if sorted.len() > 0 && sorted[0].updated_at >= key {
        lemma_insert_pos_bound(sorted.drop_first(), key);
    }
}

/// The live task list.
#[derive(Debug, Clone)]
pub struct TaskRegistry {
    tasks: Vec<TaskSummary>,
}

impl View for TaskRegistry {
    type V = Seq<TaskSummary>;

    closed spec fn view(&self) -> Seq<TaskSummary> {
        self.tasks@
    }
}

impl Default for TaskRegistry {
    fn default() -> (r: Self)
        ensures
            r@ == Seq::<TaskSummary>::empty(),
    {
        TaskRegistry { tasks: Vec::new() }
    }
}

impl TaskRegistry {
    pub fn new() -> (r: Self)
        ensures
            r@ == Seq::<TaskSummary>::empty(),
    {
        TaskRegistry { tasks: Vec::new() }
    }

    pub fn from_tasks(tasks: &[TaskSummary]) -> (r: Self)
        ensures
            r@ == tasks@,
    {
        TaskRegistry { tasks: crate::domain::copy_tasks(tasks) }
    }

    /// Applies an app-server task event received at `now`.
    pub fn apply_event(&mut self, event: NormalizedTaskEvent, now: i64)
        ensures
            event_applied(old(self)@, event, now, final(self)@),
    {
        let ghost e = event;
        let updated_at = if event.updated_at == 0 {
            now
        } else {
            event.updated_at
        };
        let task_event = TaskEvent {
            id: event.id.clone(),
            title: event.title.clone(),
            waiting_reason: copy_opt_string(&event.waiting_reason),
            approval_request_id: copy_opt_string(&event.approval_request_id),
            waiting_for_user: event.waiting_for_user,
            running: event.running,
            completed: event.completed,
            token_count: event.token_count,
            updated_at,
        };
        let status = map_task_status(&task_event);
        match find_task(&self.tasks, event.id.as_str()) {
            Some(i) => {
                let task = self.tasks[i].duplicate();
                let next = event_on_task(task, event, updated_at, status, now);
                self.tasks.set(i, next);
            },
            None => {
                let title = if crate::text::chars_of(event.title.as_str()).len() == 0 {
                    "Codex 对话".to_owned()
                } else {
                    event.title
                };
                let ghost old_tasks = self.tasks@;
                self.tasks.push(
                    TaskSummary {
                        id: event.id,
                        title,
                        activity: None,
                        waiting_reason: event.waiting_reason,
                        approval_request_id: event.approval_request_id,
                        status,
                        token_count: event.token_count,
                        updated_at,
                        acknowledged: false,
                        source: Some("app-server-event".to_owned()),
                        turn_id: event.turn_id,
                        received_at: now,
                    },
                );
                assert(self.tasks@.take(old_tasks.len() as int) =~= old_tasks);
            },
        }
    }

    /// Merges rows reported by polls and scans, then drops rows that are no longer listed at `now`.
    pub fn merge_sources(&mut self, incoming: Vec<TaskSummary>, now: i64)
        ensures
            final(self)@ == merged_sources(old(self)@, incoming@, now),
    {
        let ghost start = self.tasks@;
        let mut k: usize = 0;
        while k < incoming.len()
            invariant
                k <= incoming.len(),
                self.tasks@ == merge_all(start, incoming@.take(k as int)),
            decreases incoming.len() - k,
        {
            assert(incoming@.take(k + 1).drop_last() =~= incoming@.take(k as int));
            let candidate = incoming[k].duplicate();
            self.merge_candidate(candidate);
            k = k + 1;
        }
        assert(incoming@.take(incoming.len() as int) =~= incoming@);
        self.tasks = keep_listed(&self.tasks, now);
    }

    fn merge_candidate(&mut self, candidate: TaskSummary)
        ensures
            final(self)@ == merge_one(old(self)@, candidate),
    {
        match find_task(&self.tasks, candidate.id.as_str()) {
            Some(i) => {
                let current = self.tasks[i].duplicate();
                let merged = merge_task(current, candidate);
                self.tasks.set(i, merged);
            },
            None => {
                self.tasks.push(candidate);
            },
        }
    }

    /// Replaces the live view of `source`: its rows that `incoming` no longer
    /// reports disappear (completed rows stay), then `incoming` is merged in.
    pub fn replace_source_tasks(&mut self, source: &str, incoming: Vec<TaskSummary>, now: i64)
        ensures
            final(self)@ == merged_sources(surviving(old(self)@, source@, incoming@), incoming@, now),
    {
        self.tasks = keep_surviving(&self.tasks, source, &incoming);
        self.merge_sources(incoming, now);
    }

    /// The rows, newest first.
    pub fn tasks(&self) -> (r: Vec<TaskSummary>)
        ensures
            r@ == newest_first(self@),
    {
        sort_newest_first(&self.tasks)
    }

    pub fn counts(&self) -> (r: TaskCounts)
        requires
            self@.len() <= u32::MAX,
        ensures
            r == counts_of(self@),
    {
        TaskCounts::from_tasks(self.tasks.as_slice())
    }

}

} // verus!

verus! {

// ---------------------------------------------------------------------------
// Laws of the task list
// ---------------------------------------------------------------------------

/// An app-server event never creates a second row for a task: if the ids of
/// the list were distinct before the event, they are distinct after it.
pub proof fn law_event_keeps_ids_distinct(
    old: Seq<TaskSummary>,
    e: NormalizedTaskEvent,
    now: i64,
    new: Seq<TaskSummary>,
)
    requires
        ids_distinct(old),
        event_applied(old, e, now, new),
    ensures
        ids_distinct(new),
        find_index(old, e.id@) is Some ==> new.len() == old.len(),
{
    lemma_find_index(old, e.id@);
    match find_index(old, e.id@) {
        Some(i) => {
            assert(new[i].id == old[i].id);
            assert forall|a: int, b: int| 0 <= a < b < new.len() implies new[a].id@ != new[b].id@ by {
                assert(new[a].id == old[a].id);
                assert(new[b].id == old[b].id);
            }
        },
        None => {
            assert forall|a: int, b: int| 0 <= a < b < new.len() implies new[a].id@ != new[b].id@ by {
                assert(new[a] == old[a]);
                if b < old.len() {
                    assert(new[b] == old[b]);
                }
            }
        },
    }
}

/// An app-server event touches one row: with distinct ids before, the ids stay
/// distinct, every other row stays as it was and in its place, the list's ids are the
/// old ones plus the event's, and the row about the event's task keeps its
/// acknowledgement and never goes back in time. Unless the event resolves a pending
/// approval, it takes the event's token count when there is one, and the event's
/// title unless that is empty or the placeholder.
pub proof fn law_event_touches_one_row(
    old: Seq<TaskSummary>,
    e: NormalizedTaskEvent,
    now: i64,
    new: Seq<TaskSummary>,
)
    requires
        ids_distinct(old),
        event_applied(old, e, now, new),
    ensures
        ids_distinct(new),
        new.len() >= old.len(),
        forall|j: int| 0 <= j < old.len() ==> #[trigger] new[j].id == old[j].id,
        forall|j: int| old.len() <= j < new.len() ==> #[trigger] new[j].id == e.id,
        match find_index(old, e.id@) {
            Some(i) => {
                &&& new.len() == old.len()
                &&& old[i].id@ == e.id@
                &&& forall|j: int| 0 <= j < old.len() && j != i ==> #[trigger] new[j] == old[j]
                &&& new[i].acknowledged == old[i].acknowledged
                &&& new[i].updated_at >= old[i].updated_at
                &&& !resolves_pending(old[i], e) ==> {
                    &&& new[i].token_count == or_opt(e.token_count, old[i].token_count)
                    &&& new[i].title == (if e.title@.len() != 0 && e.title@ != placeholder_task_title() {
                        e.title
                    } else {
                        old[i].title
                    })
                }
            },
            None => {
                &&& new.len() == old.len() + 1
                &&& forall|j: int| 0 <= j < old.len() ==> #[trigger] new[j] == old[j]
                &&& !new[old.len() as int].acknowledged
            },
        },
{
    law_event_keeps_ids_distinct(old, e, now, new);
    lemma_find_index(old, e.id@);
    match find_index(old, e.id@) {
        Some(i) => {
            assert(new[i].id == old[i].id);
            assert forall|j: int| 0 <= j < old.len() implies #[trigger] new[j].id == old[j].id by {
                if j != i {
                    assert(new[j] == old[j]);
                }
            }
        },
        None => {
            assert forall|j: int| 0 <= j < old.len() implies #[trigger] new[j] == old[j] by {
                assert(new.take(old.len() as int)[j] == new[j]);
            }
            assert(new.last() == new[old.len() as int]);
        },
    }
}

/// Whether a row's time is `at`.
pub open spec fn at_time(at: i64) -> spec_fn(TaskSummary) -> bool {
    |t: TaskSummary| t.updated_at == at
}

proof fn lemma_no_rows_at(s: Seq<TaskSummary>, at: i64)
    requires
        forall|k: int| 0 <= k < s.len() ==> (#[trigger] s[k]).updated_at < at,
    ensures
        s.filter(at_time(at)) == Seq::<TaskSummary>::empty(),
    decreases s.len(),
{
    reveal(Seq::filter);
    if s.len() > 0 {
        let d = s.drop_last();
        assert forall|k: int| 0 <= k < d.len() implies (#[trigger] d[k]).updated_at < at by {
            assert(d[k] == s[k]);
        }
        lemma_no_rows_at(d, at);
        assert(s[s.len() - 1] == s.last());
    }
}

/// `tasks()` sorts stably: the rows that share a time come out in the order they
/// went in.
pub proof fn law_newest_first_is_stable(s: Seq<TaskSummary>, at: i64)
    ensures
        newest_first(s).filter(at_time(at)) == s.filter(at_time(at)),
    decreases s.len(),
{
    reveal(Seq::filter);
    if s.len() > 0 {
        let p = s.drop_last();
        let x = s.last();
        let f = at_time(at);
        law_newest_first_is_stable(p, at);
        law_newest_first_is_sorted_permutation(p);
        let t = newest_first(p);
        let k = insert_pos(t, x.updated_at) as int;
        lemma_insert_pos(t, x.updated_at);
        let t0 = t.subrange(0, k);
        let t1 = t.subrange(k, t.len() as int);
        assert(t =~= t0 + t1);
        assert(newest_first(s) == t.insert(k, x));
        assert(t.insert(k, x) =~= t0.push(x) + t1);
        Seq::filter_distributes_over_add(t0, t1, f);
        Seq::filter_distributes_over_add(t0.push(x), t1, f);
        assert(t0.push(x).drop_last() =~= t0);
        assert(s =~= p.push(x));
        assert(p.push(x).drop_last() =~= p);
        if x.updated_at == at {
            assert forall|j: int| 0 <= j < t1.len() implies (#[trigger] t1[j]).updated_at < at by {
                assert(t1[j] == t[k + j]);
            }
            lemma_no_rows_at(t1, at);
            assert(t0.filter(f) + t1.filter(f) =~= t0.filter(f));
        }
    }
}

/// A registry's counts agree with the list `tasks()` gives: counting the rows newest
/// first gives the counts of the registry's rows, whatever their number. (`counts()`
/// itself counts in `u32`, so it asks for at most `u32::MAX` rows.)
pub proof fn law_counts_agree_with_tasks(reg: TaskRegistry)
    ensures
        counts_of(newest_first(reg@)) == counts_of(reg@),
        newest_first(reg@).to_multiset() == reg@.to_multiset(),
{
    law_newest_first_is_sorted_permutation(reg@);
}

/// A registry made from a list holds that list; it lists the same rows newest first,
/// each exactly once and those with the same time in their order in the list, and its
/// counts are those of the list.
pub proof fn law_registry_round_trip(ts: Seq<TaskSummary>)
    ensures
        sorted_newest_first(newest_first(ts)),
        newest_first(ts).to_multiset() == ts.to_multiset(),
        forall|at: i64| #[trigger] newest_first(ts).filter(at_time(at)) == ts.filter(at_time(at)),
        counts_of(newest_first(ts)) == counts_of(ts),
{
    law_newest_first_is_sorted_permutation(ts);
    assert forall|at: i64| #[trigger] newest_first(ts).filter(at_time(at)) == ts.filter(at_time(at)) by {
        law_newest_first_is_stable(ts, at);
    }
}

proof fn lemma_merge_one_distinct(tasks: Seq<TaskSummary>, c: TaskSummary)
    requires
        ids_distinct(tasks),
    ensures
        ids_distinct(merge_one(tasks, c)),
        forall|j: int| 0 <= j < merge_one(tasks, c).len() ==> (j < tasks.len() ==> #[trigger] merge_one(tasks, c)[j].id == tasks[j].id),
{
    lemma_find_index(tasks, c.id@);
    let m = merge_one(tasks, c);
    match find_index(tasks, c.id@) {
        Some(i) => {
            assert forall|a: int, b: int| 0 <= a < b < m.len() implies m[a].id@ != m[b].id@ by {
                assert(m[a].id == tasks[a].id);
                assert(m[b].id == tasks[b].id);
            }
        },
        None => {
            assert forall|a: int, b: int| 0 <= a < b < m.len() implies m[a].id@ != m[b].id@ by {
                assert(m[a] == tasks[a]);
                if b < tasks.len() {
                    assert(m[b] == tasks[b]);
                }
            }
        },
    }
}

proof fn lemma_merge_all_distinct(tasks: Seq<TaskSummary>, incoming: Seq<TaskSummary>)
    requires
        ids_distinct(tasks),
    ensures
        ids_distinct(merge_all(tasks, incoming)),
    decreases incoming.len(),
{
    if incoming.len() > 0 {
        lemma_merge_all_distinct(tasks, incoming.drop_last());
        lemma_merge_one_distinct(merge_all(tasks, incoming.drop_last()), incoming.last());
    }
}

/// Every row of `listed(s, now)` is a row of `s`, in the same relative order.
proof fn lemma_listed_sub(s: Seq<TaskSummary>, now: i64)
    ensures
        listed(s, now).len() <= s.len(),
        forall|a: int| 0 <= a < listed(s, now).len() ==> exists|k: int| 0 <= k < s.len() && #[trigger] listed(s, now)[a] == s[k],
        ids_distinct(s) ==> ids_distinct(listed(s, now)),
        forall|k: int| 0 <= k < s.len() && still_listed(#[trigger] s[k], now) ==> listed(s, now).contains(s[k]),
    decreases s.len(),
{
    if s.len() > 0 {
        let p = s.drop_last();
        lemma_listed_sub(p, now);
        let lp = listed(p, now);
        let l = listed(s, now);
        assert forall|a: int| 0 <= a < l.len() implies exists|k: int| 0 <= k < s.len() && #[trigger] l[a] == s[k] by {
            if a < lp.len() {
                assert(l[a] == lp[a]);
                let k = choose|k: int| 0 <= k < p.len() && lp[a] == p[k];
                assert(s[k] == p[k]);
            } else {
                assert(l[a] == s.last());
                assert(s[s.len() - 1] == s.last());
            }
        }
        if ids_distinct(s) {
            assert(ids_distinct(p));
            assert forall|a: int, b: int| 0 <= a < b < l.len() implies l[a].id@ != l[b].id@ by {
                if b < lp.len() {
                    assert(l[a] == lp[a] && l[b] == lp[b]);
                } else {
                    assert(l[b] == s.last());
                    assert(l[a] == lp[a]);
                    let k = choose|k: int| 0 <= k < p.len() && lp[a] == p[k];
                    assert(p[k] == s[k]);
                }
            }
        }
        assert forall|k: int| 0 <= k < s.len() && still_listed(#[trigger] s[k], now) implies l.contains(s[k]) by {
            if k < p.len() {
                assert(p[k] == s[k]);
                let a = choose|a: int| 0 <= a < lp.len() && lp[a] == p[k];
                assert(l[a] == lp[a]);
            } else {
                assert(l[l.len() - 1] == s.last());
            }
        }
    }
}

/// Merging polled or scanned rows never creates a second row for a task.
pub proof fn law_merge_keeps_ids_distinct(tasks: Seq<TaskSummary>, incoming: Seq<TaskSummary>, now: i64)
    requires
        ids_distinct(tasks),
    ensures
        ids_distinct(merged_sources(tasks, incoming, now)),
{
    lemma_merge_all_distinct(tasks, incoming);
    lemma_listed_sub(merge_all(tasks, incoming), now);
}

/// `x` keeps what row `t` had: its acknowledgement, a time no earlier, and every detail
/// it held.
pub open spec fn keeps_row(t: TaskSummary, x: TaskSummary) -> bool {
    &&& x.acknowledged == t.acknowledged
    &&& x.updated_at >= t.updated_at
    &&& t.activity is Some ==> x.activity is Some
    &&& t.waiting_reason is Some ==> x.waiting_reason is Some
    &&& t.approval_request_id is Some ==> x.approval_request_id is Some
    &&& t.token_count is Some ==> x.token_count is Some
}

/// Some row of `s` is about task `id`.
pub open spec fn has_id(s: Seq<TaskSummary>, id: Seq<char>) -> bool {
    exists|k: int| 0 <= k < s.len() && (#[trigger] s[k]).id@ == id
}

/// `x` is a row of a merge of `incoming` into `tasks`: its task comes from one of the
/// two lists, it keeps what the row of `tasks` about its task had, and its time is the
/// latest time that the two lists give its task.
pub open spec fn merged_row(tasks: Seq<TaskSummary>, incoming: Seq<TaskSummary>, x: TaskSummary) -> bool {
    &&& has_id(tasks, x.id@) || has_id(incoming, x.id@)
    &&& forall|k: int| 0 <= k < tasks.len() && (#[trigger] tasks[k]).id@ == x.id@ ==> keeps_row(tasks[k], x)
    &&& forall|j: int|
        0 <= j < incoming.len() && (#[trigger] incoming[j]).id@ == x.id@ ==> x.updated_at >= incoming[j].updated_at
    &&& (exists|k: int| 0 <= k < tasks.len() && (#[trigger] tasks[k]).id@ == x.id@ && x.updated_at == tasks[k].updated_at)
        || (exists|j: int|
        0 <= j < incoming.len() && (#[trigger] incoming[j]).id@ == x.id@ && x.updated_at == incoming[j].updated_at)
}

/// What holds of `m`, the list after the rows `inc` were merged into `tasks`.
spec fn merge_inv(tasks: Seq<TaskSummary>, inc: Seq<TaskSummary>, m: Seq<TaskSummary>) -> bool {
    &&& m.len() >= tasks.len()
    &&& forall|k: int| 0 <= k < tasks.len() ==> (#[trigger] m[k]).id == tasks[k].id
    &&& ids_distinct(m)
    &&& forall|j: int| 0 <= j < inc.len() ==> has_id(m, (#[trigger] inc[j]).id@)
    &&& forall|a: int| 0 <= a < m.len() ==> merged_row(tasks, inc, #[trigger] m[a])
}

/// A row about another task than `c`'s stays a merged row when `c` joins the incoming rows.
proof fn lemma_other_row(tasks: Seq<TaskSummary>, inc: Seq<TaskSummary>, c: TaskSummary, x: TaskSummary)
    requires
        merged_row(tasks, inc, x),
        x.id@ != c.id@,
    ensures
        merged_row(tasks, inc.push(c), x),
{
    let incoming = inc.push(c);
    if has_id(inc, x.id@) {
        let j = choose|j: int| 0 <= j < inc.len() && (#[trigger] inc[j]).id@ == x.id@;
        assert(incoming[j] == inc[j]);
    }
    assert forall|j: int| 0 <= j < incoming.len() && (#[trigger] incoming[j]).id@ == x.id@
        implies x.updated_at >= incoming[j].updated_at by {
        if j < inc.len() {
            assert(inc[j] == incoming[j]);
        }
    }
    if exists|j: int| 0 <= j < inc.len() && (#[trigger] inc[j]).id@ == x.id@ && x.updated_at == inc[j].updated_at {
        let j = choose|j: int| 0 <= j < inc.len() && (#[trigger] inc[j]).id@ == x.id@ && x.updated_at == inc[j].updated_at;
        assert(incoming[j] == inc[j]);
    }
}

proof fn lemma_merge_into_row(tasks: Seq<TaskSummary>, inc: Seq<TaskSummary>, m: Seq<TaskSummary>, c: TaskSummary, i: int)
    requires
        merge_inv(tasks, inc, m),
        find_index(m, c.id@) == Some(i),
    ensures
        merge_inv(tasks, inc.push(c), merge_one(m, c)),
{
    lemma_find_index(m, c.id@);
    lemma_merge_one_distinct(m, c);
    let incoming = inc.push(c);
    let m1 = merge_one(m, c);
    assert forall|k: int| 0 <= k < tasks.len() implies (#[trigger] m1[k]).id == tasks[k].id by {
        assert(m[k].id == tasks[k].id);
    }
    assert forall|j: int| 0 <= j < incoming.len() implies has_id(m1, (#[trigger] incoming[j]).id@) by {
        if j < inc.len() {
            assert(incoming[j] == inc[j]);
            assert(has_id(m, inc[j].id@));
            let a = choose|a: int| 0 <= a < m.len() && (#[trigger] m[a]).id@ == inc[j].id@;
            assert(m1[a].id == m[a].id);
        } else {
            assert(m1[i].id == m[i].id);
        }
    }
    assert forall|a: int| 0 <= a < m1.len() implies merged_row(tasks, incoming, #[trigger] m1[a]) by {
        assert(merged_row(tasks, inc, m[a]));
        if a != i {
            assert(m1[a] == m[a]);
            assert(m[a].id@ != m[i].id@);
            lemma_other_row(tasks, inc, c, m[a]);
        } else {
            lemma_merged_task_row(tasks, inc, m[i], c);
        }
    }
}

proof fn lemma_merged_task_row(tasks: Seq<TaskSummary>, inc: Seq<TaskSummary>, y: TaskSummary, c: TaskSummary)
    requires
        merged_row(tasks, inc, y),
        y.id@ == c.id@,
    ensures
        merged_row(tasks, inc.push(c), merged_task(y, c)),
{
    let incoming = inc.push(c);
    let x = merged_task(y, c);
    if has_id(inc, x.id@) {
        let j = choose|j: int| 0 <= j < inc.len() && (#[trigger] inc[j]).id@ == x.id@;
        assert(incoming[j] == inc[j]);
    }
    assert forall|k: int| 0 <= k < tasks.len() && (#[trigger] tasks[k]).id@ == x.id@ implies keeps_row(tasks[k], x) by {
        assert(keeps_row(tasks[k], y));
    }
    assert forall|j: int| 0 <= j < incoming.len() && (#[trigger] incoming[j]).id@ == x.id@
        implies x.updated_at >= incoming[j].updated_at by {
        if j < inc.len() {
            assert(inc[j] == incoming[j]);
        }
    }
    if x.updated_at == c.updated_at {
        assert(incoming[incoming.len() - 1] == c);
    } else {
        assert(x.updated_at == y.updated_at);
        if exists|j: int| 0 <= j < inc.len() && (#[trigger] inc[j]).id@ == y.id@ && y.updated_at == inc[j].updated_at {
            let j = choose|j: int| 0 <= j < inc.len() && (#[trigger] inc[j]).id@ == y.id@ && y.updated_at == inc[j].updated_at;
            assert(incoming[j] == inc[j]);
        }
    }
}

proof fn lemma_merge_new_row(tasks: Seq<TaskSummary>, inc: Seq<TaskSummary>, m: Seq<TaskSummary>, c: TaskSummary)
    requires
        merge_inv(tasks, inc, m),
        find_index(m, c.id@) is None,
    ensures
        merge_inv(tasks, inc.push(c), merge_one(m, c)),
{
    lemma_find_index(m, c.id@);
    lemma_merge_one_distinct(m, c);
    let incoming = inc.push(c);
    let m1 = merge_one(m, c);
    assert(m1 == m.push(c));
    assert forall|k: int| 0 <= k < tasks.len() implies (#[trigger] m1[k]).id == tasks[k].id by {
        assert(m1[k] == m[k]);
    }
    assert forall|j: int| 0 <= j < incoming.len() implies has_id(m1, (#[trigger] incoming[j]).id@) by {
        if j < inc.len() {
            assert(incoming[j] == inc[j]);
            assert(has_id(m, inc[j].id@));
            let a = choose|a: int| 0 <= a < m.len() && (#[trigger] m[a]).id@ == inc[j].id@;
            assert(m1[a] == m[a]);
        } else {
            assert(m1[m.len() as int] == c);
        }
    }
    assert forall|a: int| 0 <= a < m1.len() implies merged_row(tasks, incoming, #[trigger] m1[a]) by {
        if a < m.len() {
            assert(m1[a] == m[a]);
            assert(merged_row(tasks, inc, m[a]));
            assert(m[a].id@ != c.id@);
            lemma_other_row(tasks, inc, c, m[a]);
        } else {
            let x = m1[a];
            assert(x == c);
            assert(incoming[incoming.len() - 1] == c);
            assert forall|k: int| 0 <= k < tasks.len() && (#[trigger] tasks[k]).id@ == x.id@ implies keeps_row(tasks[k], x) by {
                assert(m[k].id == tasks[k].id);
            }
            assert forall|j: int| 0 <= j < incoming.len() && (#[trigger] incoming[j]).id@ == x.id@
                implies x.updated_at >= incoming[j].updated_at by {
                if j < inc.len() {
                    assert(inc[j] == incoming[j]);
                    assert(has_id(m, inc[j].id@));
                    let b = choose|b: int| 0 <= b < m.len() && (#[trigger] m[b]).id@ == inc[j].id@;
                }
            }
        }
    }
}

proof fn lemma_merge_all_rows(tasks: Seq<TaskSummary>, incoming: Seq<TaskSummary>)
    requires
        ids_distinct(tasks),
    ensures
        merge_inv(tasks, incoming, merge_all(tasks, incoming)),
    decreases incoming.len(),
{
    let m1 = merge_all(tasks, incoming);
    if incoming.len() == 0 {
        assert forall|a: int| 0 <= a < m1.len() implies merged_row(tasks, incoming, #[trigger] m1[a]) by {
            assert(has_id(tasks, m1[a].id@));
            assert forall|k: int| 0 <= k < tasks.len() && (#[trigger] tasks[k]).id@ == m1[a].id@ implies keeps_row(tasks[k], m1[a]) by {
                if k != a {
                    assert(tasks[k].id@ != tasks[a].id@);
                }
            }
        }
    } else {
        let inc = incoming.drop_last();
        let c = incoming.last();
        lemma_merge_all_rows(tasks, inc);
        let m = merge_all(tasks, inc);
        assert(incoming == inc.push(c));
        match find_index(m, c.id@) {
            Some(i) => lemma_merge_into_row(tasks, inc, m, c, i),
            None => lemma_merge_new_row(tasks, inc, m, c),
        }
    }
}

/// Merging polled or scanned rows keeps what each task's row had: every row that comes
/// out is about a task of one of the two lists, keeps the acknowledgement and the
/// details of the task's earlier row, and carries the latest time the two lists give
/// its task; and no task gets a second row.
pub proof fn law_merge_keeps_what_rows_had(tasks: Seq<TaskSummary>, incoming: Seq<TaskSummary>, now: i64)
    requires
        ids_distinct(tasks),
    ensures
        ids_distinct(merged_sources(tasks, incoming, now)),
        forall|a: int|
            0 <= a < merged_sources(tasks, incoming, now).len() ==> merged_row(
                tasks,
                incoming,
                #[trigger] merged_sources(tasks, incoming, now)[a],
            ),
{
    law_merge_keeps_ids_distinct(tasks, incoming, now);
    lemma_merge_all_rows(tasks, incoming);
    let m = merge_all(tasks, incoming);
    lemma_listed_sub(m, now);
    let l = merged_sources(tasks, incoming, now);
    assert(l == listed(m, now));
    assert forall|a: int| 0 <= a < l.len() implies merged_row(tasks, incoming, #[trigger] l[a]) by {
        let k = choose|k: int| 0 <= k < m.len() && #[trigger] listed(m, now)[a] == m[k];
        assert(merged_row(tasks, incoming, m[k]));
    }
}

/// A row merged in with a real title names its task by that title: after merging the
/// row `c` into a list whose ids are distinct, every listed row about `c`'s task has
/// `c`'s title, unless that title is one of the placeholders.
pub proof fn law_merge_takes_the_incoming_title(tasks: Seq<TaskSummary>, c: TaskSummary, now: i64)
    requires
        ids_distinct(tasks),
        c.title@ != placeholder_conversation_title(),
        c.title@ != placeholder_task_title(),
    ensures
        forall|a: int|
            0 <= a < merged_sources(tasks, seq![c], now).len() && (#[trigger] merged_sources(tasks, seq![c], now)[a]).id@
                == c.id@ ==> merged_sources(tasks, seq![c], now)[a].title == c.title,
{
    let inc = seq![c];
    assert(inc.drop_last() =~= Seq::<TaskSummary>::empty());
    assert(inc.last() == c);
    assert(merge_all(tasks, inc.drop_last()) == tasks);
    let m = merge_all(tasks, inc);
    assert(m == merge_one(tasks, c));
    lemma_find_index(tasks, c.id@);
    assert forall|b: int| 0 <= b < m.len() && (#[trigger] m[b]).id@ == c.id@ implies m[b].title == c.title by {
        match find_index(tasks, c.id@) {
            Some(i) => {
                if b != i {
                    assert(m[b] == tasks[b]);
                    assert(tasks[i].id@ == c.id@);
                }
            },
            None => {
                if b < tasks.len() {
                    assert(m[b] == tasks[b]);
                }
            },
        }
    }
    lemma_listed_sub(m, now);
    let l = merged_sources(tasks, inc, now);
    assert(l == listed(m, now));
    assert forall|a: int| 0 <= a < l.len() && (#[trigger] l[a]).id@ == c.id@ implies l[a].title == c.title by {
        let b = choose|b: int| 0 <= b < m.len() && #[trigger] listed(m, now)[a] == m[b];
        assert(m[b].id@ == c.id@);
    }
}

/// A task waiting for an approval stays red when a poll reports it as running
/// or finished, and it stays listed.
pub proof fn law_waiting_approval_survives_poll(t: TaskSummary, c: TaskSummary, now: i64)
    requires
        t.status == TaskStatus::NeedsAction,
        t.approval_request_id is Some,
        c.status != TaskStatus::NeedsAction,
    ensures
        merged_task(t, c).status == TaskStatus::NeedsAction,
        merged_task(t, c).approval_request_id is Some,
        still_listed(merged_task(t, c), now),
{
}

/// A row reported by the hook keeps its status, source, turn and pending
/// approval against app-server events, unless the event resolves that approval.
pub proof fn law_hook_rows_keep_authority(t: TaskSummary, e: NormalizedTaskEvent, now: i64, r: TaskSummary)
    requires
        is_hook_task(t),
        !resolves_pending(t, e),
        task_after_event(t, e, now, r),
    ensures
        r.status == t.status,
        r.source == t.source,
        r.turn_id == t.turn_id,
        r.approval_request_id == t.approval_request_id,
        r.waiting_reason == t.waiting_reason,
{
}

/// A completion from another turn than the task's current one does not change
/// the task's status.
pub proof fn law_stale_completion_is_ignored(t: TaskSummary, e: NormalizedTaskEvent, now: i64, r: TaskSummary)
    requires
        is_stale_turn(t, e),
        !resolves_pending(t, e),
        task_after_event(t, e, now, r),
    ensures
        r.status == t.status,
{
}

/// A poll that omits a row does not drop it while the row is still listed.
pub proof fn law_unmentioned_rows_stay(tasks: Seq<TaskSummary>, incoming: Seq<TaskSummary>, now: i64, k: int)
    requires
        0 <= k < tasks.len(),
        !mentioned(incoming, tasks[k]),
        still_listed(tasks[k], now),
    ensures
        merged_sources(tasks, incoming, now).contains(tasks[k]),
{
    lemma_merge_all_keeps_unmentioned(tasks, incoming, k);
    let m = merge_all(tasks, incoming);
    lemma_listed_sub(m, now);
}

proof fn lemma_merge_all_keeps_unmentioned(tasks: Seq<TaskSummary>, incoming: Seq<TaskSummary>, k: int)
    requires
        0 <= k < tasks.len(),
        !mentioned(incoming, tasks[k]),
    ensures
        k < merge_all(tasks, incoming).len(),
        merge_all(tasks, incoming)[k] == tasks[k],
    decreases incoming.len(),
{
    if incoming.len() > 0 {
        let p = incoming.drop_last();
        assert(!mentioned(p, tasks[k])) by {
            if mentioned(p, tasks[k]) {
                let j = choose|j: int| 0 <= j < p.len() && p[j].id@ == tasks[k].id@;
                assert(incoming[j] == p[j]);
            }
        }
        lemma_merge_all_keeps_unmentioned(tasks, p, k);
        let m = merge_all(tasks, p);
        let c = incoming.last();
        assert(c == incoming[incoming.len() - 1]);
        assert(c.id@ != tasks[k].id@);
        lemma_find_index(m, c.id@);
    }
}

/// Replacing a source's view removes a row of that source which the new view
/// does not report, unless the row is completed.
pub proof fn law_replacement_drops_missing_rows(
    tasks: Seq<TaskSummary>,
    source: Seq<char>,
    incoming: Seq<TaskSummary>,
    now: i64,
    k: int,
)
    requires
        ids_distinct(tasks),
        0 <= k < tasks.len(),
        tasks[k].source is Some,
        tasks[k].source->0@ == source,
        !mentioned(incoming, tasks[k]),
        tasks[k].status != TaskStatus::Completed,
    ensures
        forall|j: int|
            0 <= j < merged_sources(surviving(tasks, source, incoming), incoming, now).len()
                ==> #[trigger] merged_sources(surviving(tasks, source, incoming), incoming, now)[j].id@
                != tasks[k].id@,
{
    let id = tasks[k].id@;
    lemma_surviving_lacks(tasks, source, incoming, k);
    let s = surviving(tasks, source, incoming);
    lemma_merge_all_lacks(s, incoming, id);
    let m = merge_all(s, incoming);
    lemma_listed_sub(m, now);
    let l = listed(m, now);
    assert forall|j: int| 0 <= j < l.len() implies #[trigger] l[j].id@ != id by {
        let q = choose|q: int| 0 <= q < m.len() && l[j] == m[q];
    }
}

proof fn lemma_surviving_lacks(tasks: Seq<TaskSummary>, source: Seq<char>, incoming: Seq<TaskSummary>, k: int)
    requires
        ids_distinct(tasks),
        0 <= k < tasks.len(),
        !survives_replacement(tasks[k], source, incoming),
    ensures
        forall|j: int|
            0 <= j < surviving(tasks, source, incoming).len() ==> #[trigger] surviving(
                tasks,
                source,
                incoming,
            )[j].id@ != tasks[k].id@,
    decreases tasks.len(),
{
    let p = tasks.drop_last();
    let s = surviving(tasks, source, incoming);
    if k < p.len() {
        assert(p[k] == tasks[k]);
        assert(ids_distinct(p));
        lemma_surviving_lacks(p, source, incoming, k);
        let sp = surviving(p, source, incoming);
        assert forall|j: int| 0 <= j < s.len() implies #[trigger] s[j].id@ != tasks[k].id@ by {
            if j < sp.len() {
                assert(s[j] == sp[j]);
            } else {
                assert(s[j] == tasks.last());
                assert(tasks[tasks.len() - 1] == tasks.last());
            }
        }
    } else {
        lemma_surviving_sub(p, source, incoming);
        let sp = surviving(p, source, incoming);
        assert(tasks[k] == tasks.last());
        assert(s == sp);
        assert forall|j: int| 0 <= j < s.len() implies #[trigger] s[j].id@ != tasks[k].id@ by {
            let q = choose|q: int| 0 <= q < p.len() && sp[j] == p[q];
            assert(p[q] == tasks[q]);
        }
    }
}

proof fn lemma_surviving_sub(s: Seq<TaskSummary>, source: Seq<char>, incoming: Seq<TaskSummary>)
    ensures
        forall|a: int|
            0 <= a < surviving(s, source, incoming).len() ==> exists|k: int|
                0 <= k < s.len() && #[trigger] surviving(s, source, incoming)[a] == s[k],
    decreases s.len(),
{
    if s.len() > 0 {
        let p = s.drop_last();
        lemma_surviving_sub(p, source, incoming);
        let sp = surviving(p, source, incoming);
        let v = surviving(s, source, incoming);
        assert forall|a: int| 0 <= a < v.len() implies exists|k: int| 0 <= k < s.len() && #[trigger] v[a] == s[k] by {
            if a < sp.len() {
                assert(v[a] == sp[a]);
                let k = choose|k: int| 0 <= k < p.len() && sp[a] == p[k];
                assert(s[k] == p[k]);
            } else {
                assert(v[a] == s.last());
                assert(s[s.len() - 1] == s.last());
            }
        }
    }
}

proof fn lemma_merge_all_lacks(tasks: Seq<TaskSummary>, incoming: Seq<TaskSummary>, id: Seq<char>)
    requires
        forall|j: int| 0 <= j < tasks.len() ==> #[trigger] tasks[j].id@ != id,
        forall|j: int| 0 <= j < incoming.len() ==> #[trigger] incoming[j].id@ != id,
    ensures
        forall|j: int| 0 <= j < merge_all(tasks, incoming).len() ==> #[trigger] merge_all(tasks, incoming)[j].id@ != id,
    decreases incoming.len(),
{
    if incoming.len() > 0 {
        let p = incoming.drop_last();
        assert forall|j: int| 0 <= j < p.len() implies #[trigger] p[j].id@ != id by {
            assert(p[j] == incoming[j]);
        }
        lemma_merge_all_lacks(tasks, p, id);
        let m = merge_all(tasks, p);
        let c = incoming.last();
        assert(c == incoming[incoming.len() - 1]);
        lemma_find_index(m, c.id@);
        let r = merge_one(m, c);
        assert forall|j: int| 0 <= j < r.len() implies #[trigger] r[j].id@ != id by {
            match find_index(m, c.id@) {
                Some(i) => {
                    if j == i {
                        assert(r[j].id == m[i].id);
                    } else {
                        assert(r[j] == m[j]);
                    }
                },
                None => {
                    if j < m.len() {
                        assert(r[j] == m[j]);
                    } else {
                        assert(r[j] == c);
                    }
                },
            }
        }
    }
}


proof fn lemma_insert_pos(t: Seq<TaskSummary>, key: i64)
    ensures
        insert_pos(t, key) <= t.len(),
        forall|j: int| 0 <= j < insert_pos(t, key) ==> #[trigger] t[j].updated_at >= key,
        sorted_newest_first(t) ==> forall|j: int|
            insert_pos(t, key) <= j < t.len() ==> #[trigger] t[j].updated_at < key,
    decreases t.len(),
{
    if t.len() > 0 && t[0].updated_at >= key {
        let d = t.drop_first();
        lemma_insert_pos(d, key);
        assert forall|j: int| 0 <= j < insert_pos(t, key) implies #[trigger] t[j].updated_at >= key by {
            if j > 0 {
                assert(t[j] == d[j - 1]);
            }
        }
        if sorted_newest_first(t) {
            assert(sorted_newest_first(d)) by {
                assert forall|a: int, b: int| 0 <= a < b < d.len() implies d[a].updated_at >= d[b].updated_at by {
                    assert(d[a] == t[a + 1] && d[b] == t[b + 1]);
                }
            }
            assert forall|j: int| insert_pos(t, key) <= j < t.len() implies #[trigger] t[j].updated_at < key by {
                assert(t[j] == d[j - 1]);
            }
        }
    } else if t.len() > 0 {
        if sorted_newest_first(t) {
            assert forall|j: int| insert_pos(t, key) <= j < t.len() implies #[trigger] t[j].updated_at < key by {
                assert(t[0].updated_at >= t[j].updated_at || j == 0);
            }
        }
    }
}

proof fn lemma_count_of_add(a: Seq<TaskSummary>, b: Seq<TaskSummary>, st: TaskStatus)
    ensures
        count_of(a + b, st) == count_of(a, st) + count_of(b, st),
    decreases b.len(),
{
    if b.len() == 0 {
        assert(a + b =~= a);
    } else {
        lemma_count_of_add(a, b.drop_last(), st);
        assert((a + b).drop_last() =~= a + b.drop_last());
        assert((a + b).last() == b.last());
    }
}

/// `tasks()` lists every row exactly once, newest first, and counting its
/// result gives the registry's counts.
pub proof fn law_newest_first_is_sorted_permutation(s: Seq<TaskSummary>)
    ensures
        sorted_newest_first(newest_first(s)),
        newest_first(s).to_multiset() == s.to_multiset(),
        newest_first(s).len() == s.len(),
        forall|st: TaskStatus| #[trigger] count_of(newest_first(s), st) == count_of(s, st),
        counts_of(newest_first(s)) == counts_of(s),
    decreases s.len(),
{
    if s.len() > 0 {
        let p = s.drop_last();
        let x = s.last();
        law_newest_first_is_sorted_permutation(p);
        let t = newest_first(p);
        let k = insert_pos(t, x.updated_at) as int;
        lemma_insert_pos(t, x.updated_at);
        let r = t.insert(k, x);
        assert(r == newest_first(s));
        t.insert_ensures(k, x);
        assert forall|a: int, b: int| 0 <= a < b < r.len() implies r[a].updated_at >= r[b].updated_at by {
            if b < k {
                assert(r[a] == t[a] && r[b] == t[b]);
            } else if b == k {
                assert(r[a] == t[a]);
            } else if a < k {
                assert(r[a] == t[a] && r[b] == t[b - 1]);
            } else if a == k {
                assert(r[b] == t[b - 1]);
            } else {
                assert(r[a] == t[a - 1] && r[b] == t[b - 1]);
            }
        }
        vstd::seq_lib::to_multiset_insert(t, k, x);
        assert(s =~= p.push(x));
        vstd::seq_lib::to_multiset_build(p, x);
        assert forall|st: TaskStatus| #[trigger] count_of(r, st) == count_of(s, st) by {
            assert(count_of(t, st) == count_of(p, st));
            let t0 = t.subrange(0, k);
            let t1 = t.subrange(k, t.len() as int);
            assert(t =~= t0 + t1);
            assert(r =~= t0.push(x) + t1);
            lemma_count_of_add(t0, t1, st);
            lemma_count_of_add(t0.push(x), t1, st);
            assert(t0.push(x).drop_last() =~= t0);
            assert(s.drop_last() == p);
        }
        assert(counts_of(r) == counts_of(s)) by {
            assert(count_of(r, TaskStatus::Inactive) == count_of(s, TaskStatus::Inactive));
            assert(count_of(r, TaskStatus::NeedsAction) == count_of(s, TaskStatus::NeedsAction));
            assert(count_of(r, TaskStatus::Running) == count_of(s, TaskStatus::Running));
            assert(count_of(r, TaskStatus::Completed) == count_of(s, TaskStatus::Completed));
        }
    }
}


/// Merging never produces more rows than the two lists hold together.
pub proof fn lemma_merged_sources_len(tasks: Seq<TaskSummary>, incoming: Seq<TaskSummary>, now: i64)
    ensures
        merged_sources(tasks, incoming, now).len() <= tasks.len() + incoming.len(),
{
    lemma_merge_all_len(tasks, incoming);
    lemma_listed_sub(merge_all(tasks, incoming), now);
}

proof fn lemma_merge_all_len(tasks: Seq<TaskSummary>, incoming: Seq<TaskSummary>)
    ensures
        merge_all(tasks, incoming).len() <= tasks.len() + incoming.len(),
    decreases incoming.len(),
{
    if incoming.len() > 0 {
        lemma_merge_all_len(tasks, incoming.drop_last());
        let m = merge_all(tasks, incoming.drop_last());
        lemma_find_index(m, incoming.last().id@);
    }
}

pub proof fn lemma_surviving_len(s: Seq<TaskSummary>, source: Seq<char>, incoming: Seq<TaskSummary>)
    ensures
        surviving(s, source, incoming).len() <= s.len(),
    decreases s.len(),
{
    if s.len() > 0 {
        lemma_surviving_len(s.drop_last(), source, incoming);
    }
}
} // verus!

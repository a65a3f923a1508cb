//! The current snapshot, its hourly quota history, and the user's acknowledgements.
use vstd::prelude::*;
use crate::domain::{
    active_count, count_active, count_of, counts_of, lemma_count_of_bound, max_i64, max_of, or_opt,
    same_snapshot, DataStatus, HookDiagnostic, HookDiagnostics, Snapshot, TaskCounts, TaskStatus,
    TaskSummary, UsagePoint,
};
use crate::task_registry::{find_index, find_task, lemma_find_index, same_opt};
use crate::text::{copy_opt_string, opt_eq, opt_is, str_eq};

verus! {

/// Smallest Unix time that `time::OffsetDateTime::from_unix_timestamp` accepts.
pub open spec fn min_timestamp() -> int {
    -377705116800
}

/// Largest Unix time that `time::OffsetDateTime::from_unix_timestamp` accepts.
pub open spec fn max_timestamp() -> int {
    253402300799
}

/// Offsets that `time::UtcOffset` can hold, in seconds.
pub open spec fn offset_in_range(offset: Option<i32>) -> bool {
    offset matches Some(o) ==> -93599 <= o <= 93599
}

/// The machine's current offset from UTC in seconds, read with
/// `time::UtcOffset::current_local_offset`; `None` when it cannot be determined.
#[verifier::external_body]
fn local_offset_seconds() -> (r: Option<i32>)
    ensures
        offset_in_range(r),
{
    time::UtcOffset::current_local_offset().ok().map(|offset| offset.whole_seconds())
}

/// Start of the local hour containing `at`, as a Unix time, for the given UTC offset.
/// It is `None` without an offset, or when `at` or its local time lies outside the
/// years -9999..=9999.
pub open spec fn hour_bucket(at: i64, offset: Option<i32>) -> Option<i64> {
    match offset {
        None => None,
        Some(o) => if min_timestamp() <= at <= max_timestamp() && min_timestamp() <= at + o
            <= max_timestamp() {
            Some((at - (at + o) % 3600) as i64)
        } else {
            None
        },
    }
}

/// `t.rem_euclid(3600)`.
fn rem_hour(t: i64) -> (r: i64)
    ensures
        r == t % 3600,
        0 <= r < 3600,
{
    let r = t % 3600;
    if r < 0 {
        r + 3600
    } else {
        r
    }
}

pub fn hour_bucket_with(at: i64, offset: Option<i32>) -> (r: Option<i64>)
    requires
        offset_in_range(offset),
    ensures
        r == hour_bucket(at, offset),
        r matches Some(b) ==> b <= at && at - b < 3600,
{
    match offset {
        None => None,
        Some(o) => {
            if -377705116800 <= at && at <= 253402300799 && -377705116800 <= at + o as i64 && at
                + o as i64 <= 253402300799 {
                let local = at + o as i64;
                Some(at - rem_hour(local))
            } else {
                None
            }
        },
    }
}

/// Start of the local hour containing `at`, on the machine's clock.
pub fn local_hour_bucket(at: i64) -> (r: Option<i64>)
    ensures
        exists|o: Option<i32>| offset_in_range(o) && r == hour_bucket(at, o),
        r matches Some(b) ==> b <= at && at - b < 3600,
{
    let offset = local_offset_seconds();
    hour_bucket_with(at, offset)
}


/// Most hourly samples kept: seven days.
pub open spec fn history_limit() -> int {
    168
}

/// Where a sample with time `key` goes in `sorted`: after the leading samples
/// whose time is at most `key`.
pub open spec fn point_pos(sorted: Seq<UsagePoint>, key: i64) -> nat
    decreases sorted.len(),
{
    if sorted.len() == 0 || sorted[0].at > key {
        0
    } else {
        1 + point_pos(sorted.drop_first(), key)
    }
}

/// Stable sort of samples, oldest first.
pub open spec fn by_time(s: Seq<UsagePoint>) -> Seq<UsagePoint>
    decreases s.len(),
{
    if s.len() == 0 {
        s
    } else {
        let t = by_time(s.drop_last());
        t.insert(point_pos(t, s.last().at) as int, s.last())
    }
}

/// Sorted oldest first, with only the newest `history_limit()` samples.
pub open spec fn trimmed(s: Seq<UsagePoint>) -> Seq<UsagePoint> {
    let t = by_time(s);
    if t.len() > history_limit() {
        t.skip(t.len() - history_limit())
    } else {
        t
    }
}

pub proof fn lemma_point_pos_bound(t: Seq<UsagePoint>, key: i64)
    ensures
        point_pos(t, key) <= t.len(),
    decreases t.len(),
{
    if t.len() > 0 && t[0].at <= key {
        lemma_point_pos_bound(t.drop_first(), key);
    }
}

pub proof fn lemma_by_time_len(s: Seq<UsagePoint>)
    ensures
        by_time(s).len() == s.len(),
    decreases s.len(),
{
    if s.len() > 0 {
        lemma_by_time_len(s.drop_last());
        lemma_point_pos_bound(by_time(s.drop_last()), s.last().at);
    }
}

fn point_position(sorted: &Vec<UsagePoint>, key: i64) -> (p: usize)
    ensures
        p == point_pos(sorted@, key),
        p <= sorted.len(),
{
    let mut p: usize = 0;
    assert(sorted@.skip(0) =~= sorted@);
    while p < sorted.len() && sorted[p].at <= key
        invariant
            p <= sorted.len(),
            point_pos(sorted@, key) == p + point_pos(sorted@.skip(p as int), key),
        decreases sorted.len() - p,
    {
        proof {
            let t = sorted@.skip(p as int);
            assert(t[0] == sorted@[p as int]);
            assert(t.drop_first() =~= sorted@.skip(p + 1));
        }
        p = p + 1;
    }
    proof {
        let t = sorted@.skip(p as int);
        if p < sorted.len() {
            assert(t[0] == sorted@[p as int]);
        }
    }
    p
}

/// Samples sorted oldest first (stable), keeping the newest seven days.
pub fn trim_history(history: Vec<UsagePoint>) -> (r: Vec<UsagePoint>)
    ensures
        r@ == trimmed(history@),
{
    let mut sorted: Vec<UsagePoint> = Vec::new();
    let mut i: usize = 0;
    while i < history.len()
        invariant
            i <= history.len(),
            sorted@ == by_time(history@.take(i as int)),
        decreases history.len() - i,
    {
        assert(history@.take(i + 1).drop_last() =~= history@.take(i as int));
        let x = history[i];
        let p = point_position(&sorted, x.at);
        sorted.insert(p, x);
        i = i + 1;
    }
    assert(history@.take(history.len() as int) =~= history@);
    proof {
        lemma_by_time_len(history@);
    }
    if sorted.len() > 168 {
        let from = sorted.len() - 168;
        skip_points(&sorted, from)
    } else {
        sorted
    }
}

/// The samples of `points` from index `from` on.
fn skip_points(points: &Vec<UsagePoint>, from: usize) -> (r: Vec<UsagePoint>)
    requires
        from <= points.len(),
    ensures
        r@ == points@.skip(from as int),
{
    let mut r: Vec<UsagePoint> = Vec::new();
    let mut i: usize = from;
    while i < points.len()
        invariant
            from <= i <= points.len(),
            r@ == points@.subrange(from as int, i as int),
        decreases points.len() - i,
    {
        r.push(points[i]);
        assert(points@.subrange(from as int, i + 1) =~= points@.subrange(from as int, i as int).push(points@[i as int]));
        i = i + 1;
    }
    assert(points@.subrange(from as int, points.len() as int) =~= points@.skip(from as int));
    r
}


/// A reset time rounded down to its hour: the key of the weekly cycle it ends.
pub open spec fn cycle_key_of(reset_at: Option<i64>) -> Option<i64> {
    match reset_at {
        Some(t) => Some((t - t % 3600) as i64),
        None => None,
    }
}

/// Reset times whose hour fits in an `i64`.
pub open spec fn reset_ok(reset_at: Option<i64>) -> bool {
    reset_at matches Some(t) ==> t - t % 3600 >= i64::MIN
}

/// The weekly cycle a reset time belongs to: the reset time rounded down to the hour.
pub fn history_cycle_key(reset_at: Option<i64>) -> (r: Option<i64>)
    requires
        reset_ok(reset_at),
    ensures
        r == cycle_key_of(reset_at),
{
    match reset_at {
        Some(t) => Some(t - rem_hour(t)),
        None => None,
    }
}

/// Index of the first sample taken at `at`.
pub open spec fn index_at(s: Seq<UsagePoint>, at: i64) -> Option<int>
    decreases s.len(),
{
    if s.len() == 0 {
        None
    } else {
        match index_at(s.drop_last(), at) {
            Some(i) => Some(i),
            None => if s.last().at == at {
                Some(s.len() - 1)
            } else {
                None
            },
        }
    }
}

/// Index of the first sample that falls in the local hour starting at `start`.
pub open spec fn index_in_hour(s: Seq<UsagePoint>, start: i64, offset: Option<i32>) -> Option<int>
    decreases s.len(),
{
    if s.len() == 0 {
        None
    } else {
        match index_in_hour(s.drop_last(), start, offset) {
            Some(i) => Some(i),
            None => if hour_bucket(s.last().at, offset) == Some(start) {
                Some(s.len() - 1)
            } else {
                None
            },
        }
    }
}

/// `s` with the sample at index `i` (or, for `None`, a new sample at `at`) set to `quota`.
pub open spec fn set_quota(s: Seq<UsagePoint>, i: Option<int>, at: i64, quota: u8) -> Seq<UsagePoint> {
    match i {
        Some(k) => s.update(k, UsagePoint { at: s[k].at, quota_remaining_percent: Some(quota) }),
        None => s.push(UsagePoint { at, quota_remaining_percent: Some(quota) }),
    }
}

/// The hourly history after recording `quota` read at `at`: the sample of that local
/// hour takes the latest value, and the week is kept sorted and trimmed. Without a
/// time, a quota or a local hour, the history is left as it was.
pub open spec fn hourly_merged(
    previous: Seq<UsagePoint>,
    at: Option<i64>,
    quota: Option<u8>,
    offset: Option<i32>,
) -> Seq<UsagePoint> {
    if at is Some && quota is Some && hour_bucket(at->0, offset) is Some {
        let b = hour_bucket(at->0, offset)->0;
        trimmed(set_quota(previous, index_at(previous, b), b, quota->0))
    } else {
        previous
    }
}

/// Local hour in which the weekly cycle ending at `cycle_key` began.
pub open spec fn cycle_start(cycle_key: Option<i64>, offset: Option<i32>) -> Option<i64> {
    match cycle_key {
        Some(k) => if k - 168 * 3600 >= i64::MIN {
            hour_bucket((k - 168 * 3600) as i64, offset)
        } else {
            None
        },
        None => None,
    }
}

/// The history with the start of the weekly cycle pinned at 100%.
pub open spec fn seeded(history: Seq<UsagePoint>, cycle_key: Option<i64>, offset: Option<i32>) -> Seq<
    UsagePoint,
> {
    match cycle_start(cycle_key, offset) {
        None => history,
        Some(start) => trimmed(set_quota(history, index_in_hour(history, start, offset), start, 100)),
    }
}

proof fn lemma_index_at(s: Seq<UsagePoint>, at: i64)
    ensures
        match index_at(s, at) {
            Some(i) => 0 <= i < s.len() && s[i].at == at && forall|j: int| 0 <= j < i ==> s[j].at != at,
            None => forall|j: int| 0 <= j < s.len() ==> s[j].at != at,
        },
    decreases s.len(),
{
    if s.len() > 0 {
        let p = s.drop_last();
        lemma_index_at(p, at);
        assert forall|j: int| 0 <= j < p.len() implies p[j] == s[j] by {}
    }
}

proof fn lemma_index_in_hour(s: Seq<UsagePoint>, start: i64, offset: Option<i32>)
    ensures
        match index_in_hour(s, start, offset) {
            Some(i) => 0 <= i < s.len() && hour_bucket(s[i].at, offset) == Some(start) && forall|j: int|
                0 <= j < i ==> hour_bucket(s[j].at, offset) != Some(start),
            None => forall|j: int| 0 <= j < s.len() ==> hour_bucket(s[j].at, offset) != Some(start),
        },
    decreases s.len(),
{
    if s.len() > 0 {
        let p = s.drop_last();
        lemma_index_in_hour(p, start, offset);
        assert forall|j: int| 0 <= j < p.len() implies p[j] == s[j] by {}
    }
}

/// Finds the first sample taken at `at`.
fn find_point_at(s: &Vec<UsagePoint>, at: i64) -> (r: Option<usize>)
    ensures
        r matches Some(i) ==> i < s.len(),
        match r {
            Some(i) => index_at(s@, at) == Some(i as int),
            None => index_at(s@, at) is None,
        },
{
    proof {
        lemma_index_at(s@, at);
    }
    let mut i: usize = 0;
    while i < s.len()
        invariant
            i <= s.len(),
            forall|j: int| 0 <= j < i ==> s@[j].at != at,
            match index_at(s@, at) {
                Some(k) => 0 <= k < s.len() && s@[k].at == at && forall|j: int| 0 <= j < k ==> s@[j].at != at,
                None => forall|j: int| 0 <= j < s.len() ==> s@[j].at != at,
            },
        decreases s.len() - i,
    {
        if s[i].at == at {
            return Some(i);
        }
        i = i + 1;
    }
    None
}

/// Finds the first sample in the local hour starting at `start`.
fn find_point_in_hour(s: &Vec<UsagePoint>, start: i64, offset: Option<i32>) -> (r: Option<usize>)
    requires
        offset_in_range(offset),
    ensures
        r matches Some(i) ==> i < s.len(),
        match r {
            Some(i) => index_in_hour(s@, start, offset) == Some(i as int),
            None => index_in_hour(s@, start, offset) is None,
        },
{
    proof {
        lemma_index_in_hour(s@, start, offset);
    }
    let mut i: usize = 0;
    while i < s.len()
        invariant
            i <= s.len(),
            offset_in_range(offset),
            forall|j: int| 0 <= j < i ==> hour_bucket(s@[j].at, offset) != Some(start),
            match index_in_hour(s@, start, offset) {
                Some(k) => 0 <= k < s.len() && hour_bucket(s@[k].at, offset) == Some(start) && forall|j: int|
                    0 <= j < k ==> hour_bucket(s@[j].at, offset) != Some(start),
                None => forall|j: int| 0 <= j < s.len() ==> hour_bucket(s@[j].at, offset) != Some(start),
            },
        decreases s.len() - i,
    {
        let b = hour_bucket_with(s[i].at, offset);
        if let Some(v) = b {
            if v == start {
                return Some(i);
            }
        }
        i = i + 1;
    }
    None
}

/// Sets the quota of sample `i`, or appends a new sample at `at`.
fn set_quota_exec(s: Vec<UsagePoint>, i: Option<usize>, at: i64, quota: u8) -> (r: Vec<UsagePoint>)
    requires
        i matches Some(k) ==> k < s.len(),
    ensures
        r@ == set_quota(s@, match i {
            Some(k) => Some(k as int),
            None => None,
        }, at, quota),
{
    let mut s = s;
    match i {
        Some(k) => {
            let p = UsagePoint { at: s[k].at, quota_remaining_percent: Some(quota) };
            s.set(k, p);
        },
        None => {
            s.push(UsagePoint { at, quota_remaining_percent: Some(quota) });
        },
    }
    s
}

/// Records `quota`, read at `at`, in the hourly history for the given UTC offset.
pub fn merge_hourly_history_with(
    previous: &[UsagePoint],
    at: Option<i64>,
    quota: Option<u8>,
    offset: Option<i32>,
) -> (r: Vec<UsagePoint>)
    requires
        offset_in_range(offset),
    ensures
        r@ == hourly_merged(previous@, at, quota, offset),
{
    let history = crate::domain::copy_points(previous);
    let t = match at {
        Some(t) => t,
        None => return history,
    };
    let q = match quota {
        Some(q) => q,
        None => return history,
    };
    let b = match hour_bucket_with(t, offset) {
        Some(b) => b,
        None => return history,
    };
    let i = find_point_at(&history, b);
    let updated = set_quota_exec(history, i, b, q);
    trim_history(updated)
}

/// Records `quota`, read at `at`, in the hourly history, in the machine's time zone.
pub fn merge_hourly_history(previous: &[UsagePoint], at: Option<i64>, quota: Option<u8>) -> (r: Vec<
    UsagePoint,
>)
    ensures
        exists|o: Option<i32>| offset_in_range(o) && r@ == hourly_merged(previous@, at, quota, o),
{
    let offset = local_offset_seconds();
    merge_hourly_history_with(previous, at, quota, offset)
}

/// Local hour in which the cycle ending at `cycle_key` began, for the given UTC offset.
pub fn cycle_start_bucket_with(cycle_key: Option<i64>, offset: Option<i32>) -> (r: Option<i64>)
    requires
        offset_in_range(offset),
    ensures
        r == cycle_start(cycle_key, offset),
{
    match cycle_key {
        Some(k) => if k >= i64::MIN + 168 * 3600 {
            hour_bucket_with(k - 168 * 3600, offset)
        } else {
            None
        },
        None => None,
    }
}

/// Local hour in which the cycle ending at `cycle_key` began, in the machine's time zone.
pub fn cycle_start_bucket(cycle_key: Option<i64>) -> (r: Option<i64>)
    ensures
        exists|o: Option<i32>| offset_in_range(o) && r == cycle_start(cycle_key, o),
{
    let offset = local_offset_seconds();
    cycle_start_bucket_with(cycle_key, offset)
}

/// Pins the first hour of the weekly cycle at 100%, for the given UTC offset.
pub fn seed_cycle_baseline_with(history: Vec<UsagePoint>, cycle_key: Option<i64>, offset: Option<i32>) -> (r:
    Vec<UsagePoint>)
    requires
        offset_in_range(offset),
    ensures
        r@ == seeded(history@, cycle_key, offset),
{
    let start = match cycle_start_bucket_with(cycle_key, offset) {
        Some(s) => s,
        None => return history,
    };
    let i = find_point_in_hour(&history, start, offset);
    let updated = set_quota_exec(history, i, start, 100);
    trim_history(updated)
}

/// Pins the first hour of the weekly cycle at 100%, in the machine's time zone.
pub fn seed_cycle_baseline(history: Vec<UsagePoint>, cycle_key: Option<i64>) -> (r: Vec<UsagePoint>)
    ensures
        exists|o: Option<i32>| offset_in_range(o) && r@ == seeded(history@, cycle_key, o),
{
    let offset = local_offset_seconds();
    seed_cycle_baseline_with(history, cycle_key, offset)
}


/// Sources of snapshots that carry a fresh read of the whole task list.
pub open spec fn is_poll_source(source: Option<String>) -> bool {
    source is Some && {
        let s = source->0@;
        s == "full-poll"@ || s == "task-watch"@ || s == "metrics-poll"@ || s == "manual-refresh"@
            || s == "desktop-task-watch"@
    }
}

/// Sources whose task states are live observations that a poll must not overwrite.
pub open spec fn is_live_source(source: Option<String>) -> bool {
    source is Some && {
        let s = source->0@;
        s == "hook"@ || s == "desktop-accessibility"@ || s == "desktop-state"@ || s
            == "app-server-event"@ || s == "local-session"@
    }
}

/// The two rows describe the same turn, as far as either of them knows.
pub open spec fn same_turn(prev: TaskSummary, t: TaskSummary) -> bool {
    prev.turn_id is None || t.turn_id is None || prev.turn_id->0@ == t.turn_id->0@
}

/// A polled row keeps the state of the stored row it replaces.
pub open spec fn keeps_live_status(prev: TaskSummary, t: TaskSummary) -> bool {
    is_live_source(prev.source) && same_turn(prev, t) && prev.status != TaskStatus::Inactive
}

/// `t` with the live state of `prev`.
pub open spec fn with_live_status(t: TaskSummary, prev: TaskSummary) -> TaskSummary {
    TaskSummary {
        status: prev.status,
        waiting_reason: prev.waiting_reason,
        approval_request_id: prev.approval_request_id,
        source: prev.source,
        turn_id: prev.turn_id,
        received_at: prev.received_at,
        updated_at: max_i64(t.updated_at, prev.updated_at),
        ..t
    }
}

/// A polled row, after the stored row with its id has had its say.
pub open spec fn guarded_task(t: TaskSummary, previous: Seq<TaskSummary>) -> TaskSummary {
    match find_index(previous, t.id@) {
        Some(i) => if keeps_live_status(previous[i], t) {
            with_live_status(t, previous[i])
        } else {
            t
        },
        None => t,
    }
}

/// The user has acknowledged the task with this id.
pub open spec fn acked(acks: Seq<String>, id: Seq<char>) -> bool {
    exists|i: int| 0 <= i < acks.len() && acks[i]@ == id
}

/// One incoming row as the store keeps it.
pub open spec fn normalized_task(
    t: TaskSummary,
    previous: Seq<TaskSummary>,
    poll: bool,
    acks: Seq<String>,
) -> TaskSummary {
    let g = if poll {
        guarded_task(t, previous)
    } else {
        t
    };
    TaskSummary { acknowledged: acked(acks, g.id@), ..g }
}

/// The incoming rows as the store keeps them.
pub open spec fn normalized_tasks(
    incoming: Seq<TaskSummary>,
    previous: Seq<TaskSummary>,
    poll: bool,
    acks: Seq<String>,
) -> Seq<TaskSummary> {
    incoming.map_values(|t: TaskSummary| normalized_task(t, previous, poll, acks))
}

/// A snapshot written before weekly history existed.
pub open spec fn is_legacy(s: Snapshot) -> bool {
    s.schema_version@ == "1.0"@
}

/// A snapshot restored from the disk cache rather than read from Codex.
pub open spec fn is_from_cache(s: Snapshot) -> bool {
    s.source is Some && s.source->0@ == "cache-unconfirmed"@
}

/// Current history, its cycle key, the previous cycle's history and its key, after the
/// store has taken in `s` on top of `prev`.
pub open spec fn normalized_histories(prev: Snapshot, s: Snapshot, offset: Option<i32>) -> (
    Seq<UsagePoint>,
    Option<i64>,
    Seq<UsagePoint>,
    Option<i64>,
) {
    let legacy = is_legacy(s);
    let in_hist = if legacy {
        Seq::<UsagePoint>::empty()
    } else {
        s.history@
    };
    let in_key = if legacy {
        None
    } else {
        s.history_cycle_key
    };
    let in_prev = if legacy {
        Seq::<UsagePoint>::empty()
    } else {
        s.previous_history@
    };
    let in_prev_key = if legacy {
        None
    } else {
        s.previous_history_cycle_key
    };
    let cache = is_from_cache(s);
    let prev_key = or_opt(prev.history_cycle_key, cycle_key_of(prev.quota_resets_at));
    let detected = or_opt(in_key, cycle_key_of(s.quota_resets_at));
    let cur = if cache && prev.history@.len() == 0 {
        in_hist
    } else {
        prev.history@
    };
    let cur_key = if cache && prev_key is None {
        detected
    } else {
        prev_key
    };
    let old = if cache && prev.previous_history@.len() == 0 {
        in_prev
    } else {
        prev.previous_history@
    };
    let old_key = if cache && prev.previous_history_cycle_key is None {
        in_prev_key
    } else {
        prev.previous_history_cycle_key
    };
    if s.status == DataStatus::Fresh {
        let rollover = cur_key is Some && detected is Some && cur_key != detected;
        let old2 = if rollover {
            trimmed(cur)
        } else {
            old
        };
        let old_key2 = if rollover {
            cur_key
        } else {
            old_key
        };
        let cur2 = if rollover {
            Seq::<UsagePoint>::empty()
        } else {
            cur
        };
        let key2 = or_opt(detected, cur_key);
        (
            seeded(
                hourly_merged(cur2, or_opt(s.fetched_at, s.changed_at), s.quota_remaining_percent, offset),
                key2,
                offset,
            ),
            key2,
            trimmed(old2),
            old_key2,
        )
    } else {
        (cur, cur_key, trimmed(old), old_key)
    }
}

/// The fields that the store passes through untouched are equal.
pub open spec fn same_plain_fields(a: Snapshot, b: Snapshot) -> bool {
    &&& a.status == b.status
    &&& a.changed_at == b.changed_at
    &&& a.source == b.source
    &&& a.fetched_at == b.fetched_at
    &&& a.quota_remaining_percent == b.quota_remaining_percent
    &&& a.quota_resets_at == b.quota_resets_at
    &&& a.five_hour_remaining_percent == b.five_hour_remaining_percent
    &&& a.five_hour_resets_at == b.five_hour_resets_at
    &&& a.plan == b.plan
    &&& a.reset_credits == b.reset_credits
    &&& a.today_tokens == b.today_tokens
    &&& a.usage_date == b.usage_date
    &&& a.error == b.error
    &&& a.hook_diagnostics == b.hook_diagnostics
}

/// `r` is what the store publishes when `s` arrives on top of `prev`, with the
/// acknowledged ids `acks`, in the time zone with UTC offset `offset`.
pub open spec fn normalized(prev: Snapshot, acks: Seq<String>, s: Snapshot, offset: Option<i32>, r: Snapshot) -> bool {
    let h = normalized_histories(prev, s, offset);
    &&& same_plain_fields(r, s)
    &&& r.tasks@ == normalized_tasks(s.tasks@, prev.tasks@, is_poll_source(s.source), acks)
    &&& r.active_task_count == active_count(r.tasks@)
    &&& r.task_counts == counts_of(r.tasks@)
    &&& r.history@ == h.0
    &&& r.history_cycle_key == h.1
    &&& r.previous_history@ == h.2
    &&& r.previous_history_cycle_key == h.3
    &&& r.schema_version@ == "1.1"@
}

/// Snapshots the store can take: the task counts fit in a `u32` and the reset
/// time's hour fits in an `i64`.
pub open spec fn storable(s: Snapshot) -> bool {
    s.tasks@.len() <= u32::MAX && reset_ok(s.quota_resets_at)
}

fn is_poll_source_exec(source: &Option<String>) -> (r: bool)
    ensures
        r == is_poll_source(*source),
{
    opt_is(source, "full-poll") || opt_is(source, "task-watch") || opt_is(source, "metrics-poll")
        || opt_is(source, "manual-refresh") || opt_is(source, "desktop-task-watch")
}

fn is_live_source_exec(source: &Option<String>) -> (r: bool)
    ensures
        r == is_live_source(*source),
{
    opt_is(source, "hook") || opt_is(source, "desktop-accessibility") || opt_is(source, "desktop-state")
        || opt_is(source, "app-server-event") || opt_is(source, "local-session")
}

fn keeps_live_status_exec(prev: &TaskSummary, t: &TaskSummary) -> (r: bool)
    ensures
        r == keeps_live_status(*prev, *t),
{
    let same = prev.turn_id.is_none() || t.turn_id.is_none() || opt_eq(&prev.turn_id, &t.turn_id);
    is_live_source_exec(&prev.source) && same && prev.status != TaskStatus::Inactive
}

/// Whether `id` is among the acknowledged ids.
fn acked_exec(acks: &Vec<String>, id: &str) -> (r: bool)
    ensures
        r == acked(acks@, id@),
{
    let mut i: usize = 0;
    while i < acks.len()
        invariant
            i <= acks.len(),
            forall|j: int| 0 <= j < i ==> acks@[j]@ != id@,
        decreases acks.len() - i,
    {
        if str_eq(acks[i].as_str(), id) {
            return true;
        }
        i = i + 1;
    }
    false
}

fn normalize_tasks(
    incoming: &Vec<TaskSummary>,
    previous: &Vec<TaskSummary>,
    poll: bool,
    acks: &Vec<String>,
) -> (r: Vec<TaskSummary>)
    ensures
        r@ == normalized_tasks(incoming@, previous@, poll, acks@),
{
    let mut r: Vec<TaskSummary> = Vec::new();
    let mut i: usize = 0;
    while i < incoming.len()
        invariant
            i <= incoming.len(),
            r@.len() == i,
            forall|j: int| 0 <= j < i ==> r@[j] == normalized_task(incoming@[j], previous@, poll, acks@),
        decreases incoming.len() - i,
    {
        let mut t = incoming[i].duplicate();
        if poll {
            match find_task(previous, t.id.as_str()) {
                Some(j) => {
                    let p = &previous[j];
                    if keeps_live_status_exec(p, &t) {
                        t = TaskSummary {
                            status: p.status,
                            waiting_reason: copy_opt_string(&p.waiting_reason),
                            approval_request_id: copy_opt_string(&p.approval_request_id),
                            source: copy_opt_string(&p.source),
                            turn_id: copy_opt_string(&p.turn_id),
                            received_at: p.received_at,
                            updated_at: max_of(t.updated_at, p.updated_at),
                            ..t
                        };
                    }
                },
                None => {},
            }
        }
        let a = acked_exec(acks, t.id.as_str());
        t.acknowledged = a;
        r.push(t);
        i = i + 1;
    }
    assert(r@ =~= normalized_tasks(incoming@, previous@, poll, acks@));
    r
}


fn or_key(a: Option<i64>, b: Option<i64>) -> (r: Option<i64>)
    ensures
        r == or_opt(a, b),
{
    match a {
        Some(k) => Some(k),
        None => b,
    }
}

fn normalize_histories(prev: &Snapshot, s: &Snapshot, offset: Option<i32>) -> (r: (
    Vec<UsagePoint>,
    Option<i64>,
    Vec<UsagePoint>,
    Option<i64>,
))
    requires
        offset_in_range(offset),
        reset_ok(prev.quota_resets_at),
        reset_ok(s.quota_resets_at),
    ensures
        r.0@ == normalized_histories(*prev, *s, offset).0,
        r.1 == normalized_histories(*prev, *s, offset).1,
        r.2@ == normalized_histories(*prev, *s, offset).2,
        r.3 == normalized_histories(*prev, *s, offset).3,
{
    let legacy = str_eq(s.schema_version.as_str(), "1.0");
    let in_hist = if legacy {
        Vec::new()
    } else {
        crate::domain::copy_points(s.history.as_slice())
    };
    let in_key = if legacy {
        None
    } else {
        s.history_cycle_key
    };
    let in_prev = if legacy {
        Vec::new()
    } else {
        crate::domain::copy_points(s.previous_history.as_slice())
    };
    let in_prev_key = if legacy {
        None
    } else {
        s.previous_history_cycle_key
    };
    let cache = opt_is(&s.source, "cache-unconfirmed");
    let prev_key = match prev.history_cycle_key {
        Some(k) => Some(k),
        None => history_cycle_key(prev.quota_resets_at),
    };
    let detected = match in_key {
        Some(k) => Some(k),
        None => history_cycle_key(s.quota_resets_at),
    };
    let cur = if cache && prev.history.len() == 0 {
        in_hist
    } else {
        crate::domain::copy_points(prev.history.as_slice())
    };
    let cur_key = if cache && prev_key.is_none() {
        detected
    } else {
        prev_key
    };
    let old = if cache && prev.previous_history.len() == 0 {
        in_prev
    } else {
        crate::domain::copy_points(prev.previous_history.as_slice())
    };
    let old_key = if cache && prev.previous_history_cycle_key.is_none() {
        in_prev_key
    } else {
        prev.previous_history_cycle_key
    };
    if s.status == DataStatus::Fresh {
        let rollover = match (cur_key, detected) {
            (Some(a), Some(b)) => a != b,
            _ => false,
        };
        let (cur2, old2, old_key2) = if rollover {
            (Vec::new(), trim_history(cur), cur_key)
        } else {
            (cur, old, old_key)
        };
        let key2 = or_key(detected, cur_key);
        let at = or_key(s.fetched_at, s.changed_at);
        let merged = merge_hourly_history_with(cur2.as_slice(), at, s.quota_remaining_percent, offset);
        let history = seed_cycle_baseline_with(merged, key2, offset);
        (history, key2, trim_history(old2), old_key2)
    } else {
        (cur, cur_key, trim_history(old), old_key)
    }
}

/// The snapshot on display, the history of quota readings, and the ids of the tasks
/// the user has acknowledged.
pub struct SnapshotStore {
    state: Snapshot,
    acknowledged: Vec<String>,
}

/// `r` is the snapshot a store starts from when given `initial`: a legacy history is
/// dropped, the cycle key is derived from the reset time when missing, the previous
/// cycle is trimmed, the counts are recomputed and, for fresh data, the current reading
/// is recorded and the cycle start seeded.
pub open spec fn initialized(initial: Snapshot, offset: Option<i32>, r: Snapshot) -> bool {
    let key = or_opt(initial.history_cycle_key, cycle_key_of(initial.quota_resets_at));
    let h = if is_legacy(initial) {
        Seq::<UsagePoint>::empty()
    } else {
        initial.history@
    };
    &&& same_plain_fields(r, initial)
    &&& r.tasks@ == initial.tasks@
    &&& r.task_counts == counts_of(initial.tasks@)
    &&& r.active_task_count == r.task_counts.needs_action + r.task_counts.running
    &&& r.history_cycle_key == key
    &&& r.previous_history@ == trimmed(initial.previous_history@)
    &&& r.previous_history_cycle_key == initial.previous_history_cycle_key
    &&& r.schema_version@ == "1.1"@
    &&& r.history@ == if initial.status == DataStatus::Fresh {
        seeded(
            hourly_merged(h, or_opt(initial.fetched_at, initial.changed_at), initial.quota_remaining_percent, offset),
            key,
            offset,
        )
    } else {
        h
    }
}

/// Some row of `tasks` about task `id` is marked acknowledged.
pub open spec fn marked_acknowledged(tasks: Seq<TaskSummary>, id: Seq<char>) -> bool {
    exists|k: int| 0 <= k < tasks.len() && (#[trigger] tasks[k]).acknowledged && tasks[k].id@ == id
}

/// No id occurs twice in the list.
pub open spec fn ids_once(acks: Seq<String>) -> bool {
    forall|a: int, b: int| 0 <= a < b < acks.len() ==> acks[a]@ != acks[b]@
}

proof fn lemma_count_sum(tasks: Seq<TaskSummary>)
    ensures
        count_of(tasks, TaskStatus::NeedsAction) + count_of(tasks, TaskStatus::Running) <= tasks.len(),
    decreases tasks.len(),
{
    if tasks.len() > 0 {
        lemma_count_sum(tasks.drop_last());
    }
}

proof fn lemma_active_count_bound(tasks: Seq<TaskSummary>)
    ensures
        active_count(tasks) <= tasks.len(),
    decreases tasks.len(),
{
    if tasks.len() > 0 {
        lemma_active_count_bound(tasks.drop_last());
    }
}

fn acked_ids_of(tasks: &Vec<TaskSummary>) -> (r: Vec<String>)
    ensures
        ids_once(r@),
        forall|id: Seq<char>| #[trigger] acked(r@, id) <==> marked_acknowledged(tasks@, id),
{
    let mut r: Vec<String> = Vec::new();
    let mut i: usize = 0;
    while i < tasks.len()
        invariant
            i <= tasks.len(),
            ids_once(r@),
            forall|id: Seq<char>| #[trigger] acked(r@, id) <==> marked_acknowledged(tasks@.take(i as int), id),
        decreases tasks.len() - i,
    {
        let ghost before = r@;
        let ghost pre = tasks@.take(i as int);
        let ghost post = tasks@.take(i + 1);
        assert forall|k: int| 0 <= k < pre.len() implies #[trigger] post[k] == pre[k] by {}
        if tasks[i].acknowledged && !acked_exec(&r, tasks[i].id.as_str()) {
            let id = tasks[i].id.clone();
            r.push(id);
            proof {
                assert forall|a: int, b: int| 0 <= a < b < r@.len() implies r@[a]@ != r@[b]@ by {
                    if b == r@.len() - 1 {
                        assert(r@[a] == before[a]);
                        if r@[a]@ == r@[b]@ {
                            assert(acked(before, tasks@[i as int].id@));
                        }
                    } else {
                        assert(r@[a] == before[a] && r@[b] == before[b]);
                    }
                }
            }
        }
        proof {
            assert forall|id: Seq<char>| #[trigger] acked(r@, id) <==> marked_acknowledged(post, id) by {
                if acked(r@, id) {
                    let j = choose|j: int| 0 <= j < r@.len() && r@[j]@ == id;
                    if j < before.len() {
                        assert(r@[j] == before[j]);
                        assert(acked(before, id));
                        let k = choose|k: int| 0 <= k < pre.len() && (#[trigger] pre[k]).acknowledged && pre[k].id@ == id;
                        assert(post[k] == pre[k]);
                    } else {
                        assert(post[i as int] == tasks@[i as int]);
                        assert(r@[j]@ == tasks@[i as int].id@);
                        assert((post[i as int]).acknowledged && post[i as int].id@ == id);
                    }
                }
                if marked_acknowledged(post, id) {
                    let k = choose|k: int| 0 <= k < post.len() && (#[trigger] post[k]).acknowledged && post[k].id@ == id;
                    if k < pre.len() {
                        assert(post[k] == pre[k]);
                        assert(marked_acknowledged(pre, id));
                        assert(acked(before, id));
                        let j = choose|j: int| 0 <= j < before.len() && before[j]@ == id;
                        assert(r@[j] == before[j]);
                    } else {
                        assert(post[k] == tasks@[i as int]);
                        if acked(before, id) {
                            let j = choose|j: int| 0 <= j < before.len() && before[j]@ == id;
                            assert(r@[j] == before[j]);
                        } else {
                            assert(r@[r@.len() - 1]@ == id);
                        }
                    }
                }
            }
        }
        i = i + 1;
    }
    assert(tasks@.take(tasks.len() as int) =~= tasks@);
    r
}

impl SnapshotStore {
    /// The snapshot on display.
    pub closed spec fn snapshot(&self) -> Snapshot {
        self.state
    }

    /// The acknowledged task ids.
    pub closed spec fn acks(&self) -> Seq<String> {
        self.acknowledged@
    }

    /// The stored snapshot can be counted and its cycle derived, and no acknowledged id
    /// is listed twice.
    pub closed spec fn wf(&self) -> bool {
        storable(self.state) && ids_once(self.acknowledged@)
    }

    /// A store starting from `initial`, with the given UTC offset for the hourly history.
    pub fn new_with_offset(initial: Snapshot, offset: Option<i32>) -> (r: Self)
        requires
            offset_in_range(offset),
            storable(initial),
        ensures
            r.wf(),
            initialized(initial, offset, r.snapshot()),
            forall|id: Seq<char>| #[trigger] acked(r.acks(), id) <==> marked_acknowledged(initial.tasks@, id),
    {
        let legacy = str_eq(initial.schema_version.as_str(), "1.0");
        let h = if legacy {
            Vec::new()
        } else {
            crate::domain::copy_points(initial.history.as_slice())
        };
        let key = match initial.history_cycle_key {
            Some(k) => Some(k),
            None => history_cycle_key(initial.quota_resets_at),
        };
        let previous_history = trim_history(crate::domain::copy_points(initial.previous_history.as_slice()));
        let counts = TaskCounts::from_tasks(initial.tasks.as_slice());
        proof {
            lemma_count_sum(initial.tasks@);
        }
        let active = counts.needs_action + counts.running;
        let history = if initial.status == DataStatus::Fresh {
            let at = or_key(initial.fetched_at, initial.changed_at);
            let merged = merge_hourly_history_with(h.as_slice(), at, initial.quota_remaining_percent, offset);
            seed_cycle_baseline_with(merged, key, offset)
        } else {
            h
        };
        let acknowledged = acked_ids_of(&initial.tasks);
        let state = Snapshot {
            history,
            history_cycle_key: key,
            previous_history,
            task_counts: counts,
            active_task_count: active,
            schema_version: crate::domain::SNAPSHOT_SCHEMA_VERSION.to_owned(),
            ..initial
        };
        proof {
            reveal_strlit("1.1");
        }
        SnapshotStore { state, acknowledged }
    }

    /// A store starting from `initial`, in the machine's time zone.
    pub fn new(initial: Snapshot) -> (r: Self)
        requires
            storable(initial),
        ensures
            r.wf(),
            exists|o: Option<i32>| offset_in_range(o) && initialized(initial, o, r.snapshot()),
            forall|id: Seq<char>| #[trigger] acked(r.acks(), id) <==> marked_acknowledged(initial.tasks@, id),
    {
        let offset = local_offset_seconds();
        Self::new_with_offset(initial, offset)
    }

    /// A copy of the snapshot on display.
    pub fn current(&self) -> (r: Snapshot)
        ensures
            same_snapshot(r, self.snapshot()),
    {
        self.state.duplicate()
    }

    /// What the store would publish for `snapshot`, in the time zone with the given offset.
    pub fn normalize_with(&self, snapshot: Snapshot, offset: Option<i32>) -> (r: Snapshot)
        requires
            self.wf(),
            offset_in_range(offset),
            storable(snapshot),
        ensures
            normalized(self.snapshot(), self.acks(), snapshot, offset, r),
            storable(r),
    {
        let poll = is_poll_source_exec(&snapshot.source);
        let tasks = normalize_tasks(&snapshot.tasks, &self.state.tasks, poll, &self.acknowledged);
        assert(tasks@.len() == snapshot.tasks@.len());
        let h = normalize_histories(&self.state, &snapshot, offset);
        let (history, key, previous_history, previous_key) = h;
        let active = count_active(tasks.as_slice());
        proof {
            lemma_active_count_bound(tasks@);
        }
        let counts = TaskCounts::from_tasks(tasks.as_slice());
        proof {
            reveal_strlit("1.1");
        }
        Snapshot {
            tasks,
            active_task_count: active,
            task_counts: counts,
            history,
            history_cycle_key: key,
            previous_history,
            previous_history_cycle_key: previous_key,
            schema_version: crate::domain::SNAPSHOT_SCHEMA_VERSION.to_owned(),
            ..snapshot
        }
    }
}


/// Two rows agree field by field, strings compared by their characters.
pub open spec fn same_task(a: TaskSummary, b: TaskSummary) -> bool {
    &&& a.id@ == b.id@
    &&& a.title@ == b.title@
    &&& same_opt(a.activity, b.activity)
    &&& same_opt(a.waiting_reason, b.waiting_reason)
    &&& same_opt(a.approval_request_id, b.approval_request_id)
    &&& a.status == b.status
    &&& a.token_count == b.token_count
    &&& a.updated_at == b.updated_at
    &&& a.acknowledged == b.acknowledged
    &&& same_opt(a.source, b.source)
    &&& same_opt(a.turn_id, b.turn_id)
    &&& a.received_at == b.received_at
}

pub open spec fn same_tasks(a: Seq<TaskSummary>, b: Seq<TaskSummary>) -> bool {
    a.len() == b.len() && forall|i: int| 0 <= i < a.len() ==> same_task(#[trigger] a[i], b[i])
}

pub open spec fn same_hook(a: HookDiagnostics, b: HookDiagnostics) -> bool {
    &&& a.received_count == b.received_count
    &&& a.last is Some == b.last is Some
    &&& a.last is Some ==> {
        let x = a.last->0;
        let y = b.last->0;
        &&& x.event@ == y.event@
        &&& same_opt(x.session_id, y.session_id)
        &&& same_opt(x.turn_id, y.turn_id)
        &&& x.received_at == y.received_at
        &&& x.http_status == y.http_status
        &&& x.delivered == y.delivered
        &&& same_opt(x.error, y.error)
    }
}

/// The two snapshots show the same thing: they differ at most in when they changed and
/// where they came from.
pub open spec fn same_content(a: Snapshot, b: Snapshot) -> bool {
    &&& a.status == b.status
    &&& a.fetched_at == b.fetched_at
    &&& a.quota_remaining_percent == b.quota_remaining_percent
    &&& a.quota_resets_at == b.quota_resets_at
    &&& a.five_hour_remaining_percent == b.five_hour_remaining_percent
    &&& a.five_hour_resets_at == b.five_hour_resets_at
    &&& same_opt(a.plan, b.plan)
    &&& a.reset_credits == b.reset_credits
    &&& a.today_tokens == b.today_tokens
    &&& same_opt(a.usage_date, b.usage_date)
    &&& a.active_task_count == b.active_task_count
    &&& a.task_counts == b.task_counts
    &&& same_tasks(a.tasks@, b.tasks@)
    &&& same_opt(a.error, b.error)
    &&& a.history@ == b.history@
    &&& a.history_cycle_key == b.history_cycle_key
    &&& a.previous_history@ == b.previous_history@
    &&& a.previous_history_cycle_key == b.previous_history_cycle_key
    &&& same_hook(a.hook_diagnostics, b.hook_diagnostics)
    &&& a.schema_version@ == b.schema_version@
}

fn same_task_exec(a: &TaskSummary, b: &TaskSummary) -> (r: bool)
    ensures
        r == same_task(*a, *b),
{
    str_eq(a.id.as_str(), b.id.as_str()) && str_eq(a.title.as_str(), b.title.as_str()) && opt_eq(
        &a.activity,
        &b.activity,
    ) && opt_eq(&a.waiting_reason, &b.waiting_reason) && opt_eq(&a.approval_request_id, &b.approval_request_id)
        && a.status == b.status && a.token_count == b.token_count && a.updated_at == b.updated_at
        && a.acknowledged == b.acknowledged && opt_eq(&a.source, &b.source) && opt_eq(&a.turn_id, &b.turn_id)
        && a.received_at == b.received_at
}

fn same_tasks_exec(a: &Vec<TaskSummary>, b: &Vec<TaskSummary>) -> (r: bool)
    ensures
        r == same_tasks(a@, b@),
{
    if a.len() != b.len() {
        return false;
    }
    let mut i: usize = 0;
    while i < a.len()
        invariant
            i <= a.len() == b.len(),
            forall|j: int| 0 <= j < i ==> same_task(#[trigger] a@[j], b@[j]),
        decreases a.len() - i,
    {
        if !same_task_exec(&a[i], &b[i]) {
            return false;
        }
        i = i + 1;
    }
    true
}

fn same_points_exec(a: &Vec<UsagePoint>, b: &Vec<UsagePoint>) -> (r: bool)
    ensures
        r == (a@ == b@),
{
    if a.len() != b.len() {
        return false;
    }
    let mut i: usize = 0;
    while i < a.len()
        invariant
            i <= a.len() == b.len(),
            forall|j: int| 0 <= j < i ==> a@[j] == b@[j],
        decreases a.len() - i,
    {
        if a[i].at != b[i].at || a[i].quota_remaining_percent != b[i].quota_remaining_percent {
            return false;
        }
        i = i + 1;
    }
    assert(a@ =~= b@);
    true
}

fn same_hook_exec(a: &HookDiagnostics, b: &HookDiagnostics) -> (r: bool)
    ensures
        r == same_hook(*a, *b),
{
    if a.received_count != b.received_count {
        return false;
    }
    match (&a.last, &b.last) {
        (Some(x), Some(y)) => str_eq(x.event.as_str(), y.event.as_str()) && opt_eq(&x.session_id, &y.session_id)
            && opt_eq(&x.turn_id, &y.turn_id) && x.received_at == y.received_at && x.http_status
            == y.http_status && x.delivered == y.delivered && opt_eq(&x.error, &y.error),
        (None, None) => true,
        _ => false,
    }
}

fn same_content_exec(a: &Snapshot, b: &Snapshot) -> (r: bool)
    ensures
        r == same_content(*a, *b),
{
    a.status == b.status && a.fetched_at == b.fetched_at && a.quota_remaining_percent == b.quota_remaining_percent
        && a.quota_resets_at == b.quota_resets_at && a.five_hour_remaining_percent
        == b.five_hour_remaining_percent && a.five_hour_resets_at == b.five_hour_resets_at && opt_eq(
        &a.plan,
        &b.plan,
    ) && a.reset_credits == b.reset_credits && a.today_tokens == b.today_tokens && opt_eq(
        &a.usage_date,
        &b.usage_date,
    ) && a.active_task_count == b.active_task_count && a.task_counts == b.task_counts && same_tasks_exec(
        &a.tasks,
        &b.tasks,
    ) && opt_eq(&a.error, &b.error) && same_points_exec(&a.history, &b.history) && a.history_cycle_key
        == b.history_cycle_key && same_points_exec(&a.previous_history, &b.previous_history)
        && a.previous_history_cycle_key == b.previous_history_cycle_key && same_hook_exec(
        &a.hook_diagnostics,
        &b.hook_diagnostics,
    ) && str_eq(a.schema_version.as_str(), b.schema_version.as_str())
}

/// `tasks` with row `i` marked acknowledged.
pub open spec fn with_acknowledged(tasks: Seq<TaskSummary>, i: int) -> Seq<TaskSummary> {
    tasks.update(i, TaskSummary { acknowledged: true, ..tasks[i] })
}

/// Row `b` is row `a` with its approval answered at `now` by the hook: `accept` lets the work
/// run on, any other decision leaves the row inactive.
pub open spec fn decided_row(a: TaskSummary, b: TaskSummary, decision: Seq<char>, now: i64) -> bool {
    &&& b.status == if decision == "accept"@ {
        TaskStatus::Running
    } else {
        TaskStatus::Inactive
    }
    &&& b.source is Some && b.source->0@ == "hook"@
    &&& b.received_at == now
    &&& b.waiting_reason is None
    &&& b.approval_request_id is None
    &&& b.id == a.id
    &&& b.title == a.title
    &&& b.activity == a.activity
    &&& b.token_count == a.token_count
    &&& b.updated_at == a.updated_at
    &&& b.acknowledged == a.acknowledged
    &&& b.turn_id == a.turn_id
}

/// `b` is `a` with new tasks `tasks` and the counts recomputed from them.
pub open spec fn recounted(a: Snapshot, tasks: Seq<TaskSummary>, b: Snapshot) -> bool {
    &&& same_plain_fields(a, b)
    &&& b.tasks@ == tasks
    &&& b.task_counts == counts_of(tasks)
    &&& b.active_task_count == b.task_counts.needs_action + b.task_counts.running
    &&& b.history@ == a.history@
    &&& b.history_cycle_key == a.history_cycle_key
    &&& b.previous_history@ == a.previous_history@
    &&& b.previous_history_cycle_key == a.previous_history_cycle_key
    &&& b.schema_version == a.schema_version
}

impl SnapshotStore {
    /// Replaces the snapshot on display by `snapshot`, normalized, in the time zone with
    /// the given offset.
    pub fn publish_with(&mut self, snapshot: Snapshot, offset: Option<i32>)
        requires
            old(self).wf(),
            offset_in_range(offset),
            storable(snapshot),
        ensures
            final(self).wf(),
            normalized(old(self).snapshot(), old(self).acks(), snapshot, offset, final(self).snapshot()),
            final(self).acks() == old(self).acks(),
    {
        let next = self.normalize_with(snapshot, offset);
        self.state = next;
    }

    /// Replaces the snapshot on display by `snapshot`, normalized, in the machine's time zone.
    pub fn publish(&mut self, snapshot: Snapshot)
        requires
            old(self).wf(),
            storable(snapshot),
        ensures
            final(self).wf(),
            exists|o: Option<i32>|
                offset_in_range(o) && normalized(old(self).snapshot(), old(self).acks(), snapshot, o, final(self).snapshot()),
            final(self).acks() == old(self).acks(),
    {
        let offset = local_offset_seconds();
        self.publish_with(snapshot, offset);
    }

    /// Publishes `snapshot` only when it shows something new; says whether it did.
    pub fn publish_if_changed_with(&mut self, snapshot: Snapshot, offset: Option<i32>) -> (r: bool)
        requires
            old(self).wf(),
            offset_in_range(offset),
            storable(snapshot),
        ensures
            final(self).wf(),
            final(self).acks() == old(self).acks(),
            exists|n: Snapshot|
                normalized(old(self).snapshot(), old(self).acks(), snapshot, offset, n) && r == !same_content(
                    old(self).snapshot(),
                    n,
                ) && if r {
                    final(self).snapshot() == n
                } else {
                    final(self).snapshot() == old(self).snapshot()
                },
    {
        let next = self.normalize_with(snapshot, offset);
        if same_content_exec(&self.state, &next) {
            false
        } else {
            self.state = next;
            true
        }
    }

    /// Publishes `snapshot` only when it shows something new, in the machine's time zone.
    pub fn publish_if_changed(&mut self, snapshot: Snapshot) -> (r: bool)
        requires
            old(self).wf(),
            storable(snapshot),
        ensures
            final(self).wf(),
            final(self).acks() == old(self).acks(),
            exists|o: Option<i32>, n: Snapshot|
                offset_in_range(o) && normalized(old(self).snapshot(), old(self).acks(), snapshot, o, n) && r
                    == !same_content(old(self).snapshot(), n) && if r {
                    final(self).snapshot() == n
                } else {
                    final(self).snapshot() == old(self).snapshot()
                },
    {
        let offset = local_offset_seconds();
        self.publish_if_changed_with(snapshot, offset)
    }

    /// Marks a completed task as seen by the user; false when there is no such task or
    /// it has not completed.
    pub fn acknowledge(&mut self, task_id: &str) -> (r: bool)
        requires
            old(self).wf(),
        ensures
            final(self).wf(),
            r == (find_index(old(self).snapshot().tasks@, task_id@) matches Some(i) && old(
                self,
            ).snapshot().tasks@[i].status == TaskStatus::Completed),
            r ==> recounted(
                old(self).snapshot(),
                with_acknowledged(
                    old(self).snapshot().tasks@,
                    find_index(old(self).snapshot().tasks@, task_id@)->0,
                ),
                final(self).snapshot(),
            ),
            r ==> forall|id: Seq<char>|
                #![trigger acked(final(self).acks(), id)]
                acked(final(self).acks(), id) <==> (acked(old(self).acks(), id) || id == task_id@),
            !r ==> final(self).snapshot() == old(self).snapshot() && final(self).acks() == old(self).acks(),
            ack_step(
                old(self).acks(),
                final(self).acks(),
                if r {
                    Some(task_id@)
                } else {
                    None
                },
            ),
    {
        proof {
            lemma_find_index(self.state.tasks@, task_id@);
        }
        let i = match find_task(&self.state.tasks, task_id) {
            Some(i) => i,
            None => return false,
        };
        if self.state.tasks[i].status != TaskStatus::Completed {
            return false;
        }
        let mut tasks = crate::domain::copy_tasks(self.state.tasks.as_slice());
        let t = TaskSummary { acknowledged: true, ..tasks[i].duplicate() };
        tasks.set(i, t);
        assert(tasks@ =~= with_acknowledged(self.state.tasks@, i as int));
        if !acked_exec(&self.acknowledged, task_id) {
            self.acknowledged.push(task_id.to_owned());
            proof {
                let n = self.acknowledged@.len() - 1;
                assert(self.acknowledged@[n]@ == task_id@);
            }
        }
        proof {
            assert forall|id: Seq<char>|
                acked(self.acknowledged@, id) <==> (acked(old(self).acks(), id) || id == task_id@) by {
                if acked(old(self).acks(), id) {
                    let j = choose|j: int| 0 <= j < old(self).acks().len() && old(self).acks()[j]@ == id;
                    assert(self.acknowledged@[j] == old(self).acks()[j]);
                }
                if acked(self.acknowledged@, id) {
                    let j = choose|j: int| 0 <= j < self.acknowledged@.len() && self.acknowledged@[j]@ == id;
                    if j < old(self).acks().len() {
                        assert(self.acknowledged@[j] == old(self).acks()[j]);
                    }
                }
            }
        }
        let counts = TaskCounts::from_tasks(tasks.as_slice());
        proof {
            lemma_count_sum(tasks@);
        }
        self.state.tasks = tasks;
        self.state.task_counts = counts;
        self.state.active_task_count = counts.needs_action + counts.running;
        true
    }

    /// Answers the approval a waiting task asks for, at time `now`; false when there is
    /// no such task or it is not waiting.
    pub fn resolve_approval_at(&mut self, task_id: &str, decision: &str, now: i64) -> (r: bool)
        requires
            old(self).wf(),
        ensures
            final(self).wf(),
            final(self).acks() == old(self).acks(),
            r == (find_index(old(self).snapshot().tasks@, task_id@) matches Some(i) && old(
                self,
            ).snapshot().tasks@[i].status == TaskStatus::NeedsAction),
            r ==> {
                let i = find_index(old(self).snapshot().tasks@, task_id@)->0;
                let new_tasks = final(self).snapshot().tasks@;
                &&& new_tasks == old(self).snapshot().tasks@.update(i, new_tasks[i])
                &&& decided_row(old(self).snapshot().tasks@[i], new_tasks[i], decision@, now)
                &&& recounted(old(self).snapshot(), new_tasks, final(self).snapshot())
            },
            !r ==> final(self).snapshot() == old(self).snapshot(),
    {
        proof {
            lemma_find_index(self.state.tasks@, task_id@);
        }
        let i = match find_task(&self.state.tasks, task_id) {
            Some(i) => i,
            None => return false,
        };
        if self.state.tasks[i].status != TaskStatus::NeedsAction {
            return false;
        }
        let accept = str_eq(decision, "accept");
        let mut tasks = crate::domain::copy_tasks(self.state.tasks.as_slice());
        let hook = "hook".to_owned();
        let t = TaskSummary {
            status: if accept {
                TaskStatus::Running
            } else {
                TaskStatus::Inactive
            },
            source: Some(hook),
            received_at: now,
            waiting_reason: None,
            approval_request_id: None,
            ..tasks[i].duplicate()
        };
        proof {
            reveal_strlit("hook");
        }
        tasks.set(i, t);
        assert(tasks@ =~= self.state.tasks@.update(i as int, tasks@[i as int]));
        let counts = TaskCounts::from_tasks(tasks.as_slice());
        proof {
            lemma_count_sum(tasks@);
        }
        self.state.tasks = tasks;
        self.state.task_counts = counts;
        self.state.active_task_count = counts.needs_action + counts.running;
        true
    }
}


/// `hook_diagnostics` after one more delivery, `diagnostic` being the latest.
pub open spec fn recorded_hook(old: Snapshot, diagnostic: HookDiagnostics, r: Snapshot) -> bool {
    &&& r.hook_diagnostics.last == diagnostic.last
    &&& r.hook_diagnostics.received_count == if old.hook_diagnostics.received_count == u64::MAX {
        u64::MAX as int
    } else {
        old.hook_diagnostics.received_count + 1
    }
    &&& r.changed_at == match diagnostic.last {
        Some(d) => Some(d.received_at),
        None => old.changed_at,
    }
    &&& r.source is Some && r.source->0@ == "hook-diagnostic"@
    &&& r.status == old.status
    &&& r.fetched_at == old.fetched_at
    &&& r.quota_remaining_percent == old.quota_remaining_percent
    &&& r.quota_resets_at == old.quota_resets_at
    &&& r.five_hour_remaining_percent == old.five_hour_remaining_percent
    &&& r.five_hour_resets_at == old.five_hour_resets_at
    &&& r.plan == old.plan
    &&& r.reset_credits == old.reset_credits
    &&& r.today_tokens == old.today_tokens
    &&& r.usage_date == old.usage_date
    &&& r.active_task_count == old.active_task_count
    &&& r.task_counts == old.task_counts
    &&& r.tasks == old.tasks
    &&& r.error == old.error
    &&& r.history == old.history
    &&& r.history_cycle_key == old.history_cycle_key
    &&& r.previous_history == old.previous_history
    &&& r.previous_history_cycle_key == old.previous_history_cycle_key
    &&& r.schema_version == old.schema_version
}

impl SnapshotStore {
    /// Answers the approval a waiting task asks for, stamped with the current time.
    pub fn resolve_approval(&mut self, task_id: &str, decision: &str) -> (r: bool)
        requires
            old(self).wf(),
        ensures
            final(self).wf(),
            final(self).acks() == old(self).acks(),
            r == (find_index(old(self).snapshot().tasks@, task_id@) matches Some(i) && old(
                self,
            ).snapshot().tasks@[i].status == TaskStatus::NeedsAction),
            r ==> {
                let i = find_index(old(self).snapshot().tasks@, task_id@)->0;
                let new_tasks = final(self).snapshot().tasks@;
                &&& new_tasks == old(self).snapshot().tasks@.update(i, new_tasks[i])
                &&& exists|now: i64|
                    #[trigger] decided_row(old(self).snapshot().tasks@[i], new_tasks[i], decision@, now)
                &&& recounted(old(self).snapshot(), new_tasks, final(self).snapshot())
            },
            !r ==> final(self).snapshot() == old(self).snapshot(),
    {
        let now = crate::diagnostics::unix_now();
        self.resolve_approval_at(task_id, decision, now)
    }

    /// Records the latest hook delivery and counts it.
    pub fn record_hook_diagnostic(&mut self, diagnostic: HookDiagnostics)
        requires
            old(self).wf(),
        ensures
            final(self).wf(),
            final(self).acks() == old(self).acks(),
            recorded_hook(old(self).snapshot(), diagnostic, final(self).snapshot()),
    {
        let count = self.state.hook_diagnostics.received_count;
        let received_count = if count == u64::MAX {
            u64::MAX
        } else {
            count + 1
        };
        let changed_at = match &diagnostic.last {
            Some(d) => Some(d.received_at),
            None => self.state.changed_at,
        };
        self.state.hook_diagnostics = HookDiagnostics { last: diagnostic.last, received_count };
        self.state.changed_at = changed_at;
        self.state.source = Some("hook-diagnostic".to_owned());
    }
}

/// The snapshot shown before the first successful read.
pub fn empty_snapshot() -> (r: Snapshot)
    ensures
        r.status == DataStatus::Stale,
        r.changed_at is None,
        r.source is None,
        r.fetched_at is None,
        r.quota_remaining_percent is None,
        r.quota_resets_at is None,
        r.five_hour_remaining_percent is None,
        r.five_hour_resets_at is None,
        r.plan is None,
        r.reset_credits is None,
        r.today_tokens is None,
        r.usage_date is None,
        r.active_task_count == 0,
        r.task_counts == (TaskCounts { none: 0, needs_action: 0, running: 0, completed: 0 }),
        r.tasks@.len() == 0,
        r.error is Some && r.error->0@ == "等待首次连接"@,
        r.history@.len() == 0,
        r.history_cycle_key is None,
        r.previous_history@.len() == 0,
        r.previous_history_cycle_key is None,
        r.hook_diagnostics.last is None,
        r.hook_diagnostics.received_count == 0,
        r.schema_version@ == "1.1"@,
        storable(r),
{
    proof {
        reveal_strlit("1.1");
    }
    Snapshot {
        status: DataStatus::Stale,
        changed_at: None,
        source: None,
        fetched_at: None,
        quota_remaining_percent: None,
        quota_resets_at: None,
        five_hour_remaining_percent: None,
        five_hour_resets_at: None,
        plan: None,
        reset_credits: None,
        today_tokens: None,
        usage_date: None,
        active_task_count: 0,
        task_counts: TaskCounts::zero(),
        tasks: Vec::new(),
        error: Some("等待首次连接".to_owned()),
        history: Vec::new(),
        history_cycle_key: None,
        previous_history: Vec::new(),
        previous_history_cycle_key: None,
        hook_diagnostics: HookDiagnostics::new(),
        schema_version: crate::domain::SNAPSHOT_SCHEMA_VERSION.to_owned(),
    }
}

/// Samples in order of time, oldest first.
pub open spec fn oldest_first(s: Seq<UsagePoint>) -> bool {
    forall|a: int, b: int| 0 <= a < b < s.len() ==> s[a].at <= s[b].at
}

proof fn lemma_point_pos(t: Seq<UsagePoint>, key: i64)
    ensures
        point_pos(t, key) <= t.len(),
        forall|j: int| 0 <= j < point_pos(t, key) ==> #[trigger] t[j].at <= key,
        oldest_first(t) ==> forall|j: int| point_pos(t, key) <= j < t.len() ==> #[trigger] t[j].at > key,
    decreases t.len(),
{
    if t.len() > 0 && t[0].at <= key {
        let d = t.drop_first();
        lemma_point_pos(d, key);
        assert forall|j: int| 0 <= j < point_pos(t, key) implies #[trigger] t[j].at <= key by {
            if j > 0 {
                assert(t[j] == d[j - 1]);
            }
        }
        if oldest_first(t) {
            assert(oldest_first(d)) by {
                assert forall|a: int, b: int| 0 <= a < b < d.len() implies d[a].at <= d[b].at by {
                    assert(d[a] == t[a + 1] && d[b] == t[b + 1]);
                }
            }
            assert forall|j: int| point_pos(t, key) <= j < t.len() implies #[trigger] t[j].at > key by {
                assert(t[j] == d[j - 1]);
            }
        }
    } else if t.len() > 0 {
        if oldest_first(t) {
            assert forall|j: int| point_pos(t, key) <= j < t.len() implies #[trigger] t[j].at > key by {
                assert(t[0].at <= t[j].at || j == 0);
            }
        }
    }
}

/// Sorting the samples keeps every one of them and puts them oldest first.
pub proof fn law_history_sort_is_ordered_permutation(s: Seq<UsagePoint>)
    ensures
        oldest_first(by_time(s)),
        by_time(s).to_multiset() == s.to_multiset(),
        by_time(s).len() == s.len(),
    decreases s.len(),
{
    if s.len() > 0 {
        let p = s.drop_last();
        let x = s.last();
        law_history_sort_is_ordered_permutation(p);
        let t = by_time(p);
        let k = point_pos(t, x.at) as int;
        lemma_point_pos(t, x.at);
        let r = t.insert(k, x);
        assert(r == by_time(s));
        t.insert_ensures(k, x);
        assert forall|a: int, b: int| 0 <= a < b < r.len() implies r[a].at <= r[b].at by {
            if b < k {
                assert(r[a] == t[a] && r[b] == t[b]);
            } else if b == k {
                assert(r[a] == t[a]);
            } else if a < k {
                assert(r[a] == t[a] && r[b] == t[b - 1]);
            } else if a == k {
                assert(r[b] == t[b - 1]);
            } else {
                assert(r[a] == t[a - 1] && r[b] == t[b - 1]);
            }
        }
        vstd::seq_lib::to_multiset_insert(t, k, x);
        assert(s =~= p.push(x));
        vstd::seq_lib::to_multiset_build(p, x);
    }
}

/// A trimmed history is ordered oldest first and holds at most a week of hourly
/// samples: the newest ones.
pub proof fn law_trimmed_history_is_an_ordered_week(s: Seq<UsagePoint>)
    ensures
        oldest_first(trimmed(s)),
        trimmed(s).len() <= history_limit(),
        trimmed(s).len() == if s.len() > history_limit() {
            history_limit()
        } else {
            s.len() as int
        },
        trimmed(s) == by_time(s).skip(by_time(s).len() - trimmed(s).len()),
{
    law_history_sort_is_ordered_permutation(s);
    let t = by_time(s);
    if t.len() > history_limit() {
        let u = t.skip(t.len() - history_limit());
        assert forall|a: int, b: int| 0 <= a < b < u.len() implies u[a].at <= u[b].at by {
            assert(u[a] == t[a + t.len() - history_limit()]);
            assert(u[b] == t[b + t.len() - history_limit()]);
        }
    } else {
        assert(t.skip(0) =~= t);
    }
}

/// Recording a reading keeps the history ordered oldest first and within a week; when
/// the week is not full yet, the hour of the reading then holds the reading.
pub proof fn law_recorded_reading_is_kept(previous: Seq<UsagePoint>, at: i64, quota: u8, offset: Option<i32>)
    requires
        hour_bucket(at, offset) is Some,
    ensures
        oldest_first(hourly_merged(previous, Some(at), Some(quota), offset)),
        hourly_merged(previous, Some(at), Some(quota), offset).len() <= history_limit(),
        previous.len() < history_limit() ==> hourly_merged(previous, Some(at), Some(quota), offset).contains(
            UsagePoint { at: hour_bucket(at, offset)->0, quota_remaining_percent: Some(quota) },
        ),
{
    let b = hour_bucket(at, offset)->0;
    let x = UsagePoint { at: b, quota_remaining_percent: Some(quota) };
    let u = set_quota(previous, index_at(previous, b), b, quota);
    lemma_index_at(previous, b);
    law_trimmed_history_is_an_ordered_week(u);
    law_history_sort_is_ordered_permutation(u);
    if previous.len() < history_limit() {
        assert(u.contains(x)) by {
            match index_at(previous, b) {
                Some(k) => {
                    assert(u[k] == x);
                },
                None => {
                    assert(u[u.len() - 1] == x);
                },
            }
        }
        assert(u.len() <= history_limit());
        assert(trimmed(u) == by_time(u));
        vstd::seq_lib::to_multiset_contains(u, x);
        vstd::seq_lib::to_multiset_contains(by_time(u), x);
    }
}

/// In every published snapshot a row is acknowledged exactly when its task has been
/// acknowledged on the store: once acknowledged, it stays so across refreshes, and no
/// other row is marked.
pub proof fn law_acknowledgement_survives_refresh(
    prev: Snapshot,
    acks: Seq<String>,
    s: Snapshot,
    offset: Option<i32>,
    r: Snapshot,
    k: int,
)
    requires
        normalized(prev, acks, s, offset, r),
        0 <= k < s.tasks@.len(),
    ensures
        r.tasks@[k].id@ == s.tasks@[k].id@,
        r.tasks@[k].acknowledged <==> acked(acks, s.tasks@[k].id@),
{
    let t = s.tasks@[k];
    let poll = is_poll_source(s.source);
    if poll {
        match find_index(prev.tasks@, t.id@) {
            Some(i) => {},
            None => {},
        }
    }
    assert(r.tasks@[k] == normalized_task(t, prev.tasks@, poll, acks));
}

/// One call's effect on the acknowledgements: `after` holds those of `before` and, when
/// the call accepted one, `accepted`.
pub open spec fn ack_step(before: Seq<String>, after: Seq<String>, accepted: Option<Seq<char>>) -> bool {
    forall|id: Seq<char>| #[trigger] acked(after, id) <==> (acked(before, id) || accepted == Some(id))
}

proof fn lemma_active_is_waiting_and_running(tasks: Seq<TaskSummary>)
    ensures
        active_count(tasks) == count_of(tasks, TaskStatus::NeedsAction) + count_of(tasks, TaskStatus::Running),
    decreases tasks.len(),
{
    if tasks.len() > 0 {
        lemma_active_is_waiting_and_running(tasks.drop_last());
    }
}

/// What a store has acknowledged is what the snapshot it started from marked, plus
/// every task for which `acknowledge` returned true since, and every later publish
/// marks exactly those rows and counts the rows it shows. `states` are the store's
/// acknowledgements from its start on, one after each call; `accepted[k]` is the task
/// that call `k` accepted: the argument of an `acknowledge` that returned true, and
/// `None` for every other call, which leaves the acknowledgements as they are.
pub proof fn law_acknowledgements_accumulate(
    initial: Seq<TaskSummary>,
    states: Seq<Seq<String>>,
    accepted: Seq<Option<Seq<char>>>,
    id: Seq<char>,
)
    requires
        states.len() == accepted.len() + 1,
        forall|x: Seq<char>| #[trigger] acked(states[0], x) <==> marked_acknowledged(initial, x),
        forall|k: int| 0 <= k < accepted.len() ==> ack_step(#[trigger] states[k], states[k + 1], accepted[k]),
    ensures
        acked(states.last(), id) <==> (marked_acknowledged(initial, id) || accepted.contains(Some(id))),
    decreases accepted.len(),
{
    if accepted.len() > 0 {
        let s2 = states.drop_last();
        let a2 = accepted.drop_last();
        let n = accepted.len() - 1;
        assert forall|k: int| 0 <= k < a2.len() implies ack_step(#[trigger] s2[k], s2[k + 1], a2[k]) by {
            assert(s2[k] == states[k] && s2[k + 1] == states[k + 1] && a2[k] == accepted[k]);
            assert(ack_step(states[k], states[k + 1], accepted[k]));
        }
        assert(s2[0] == states[0]);
        law_acknowledgements_accumulate(initial, s2, a2, id);
        assert(ack_step(states[n], states[n + 1], accepted[n]));
        assert(s2.last() == states[n]);
        assert(states.last() == states[n + 1]);
        if accepted.contains(Some(id)) {
            let j = choose|j: int| 0 <= j < accepted.len() && accepted[j] == Some(id);
            if j < n {
                assert(a2[j] == accepted[j]);
            }
        }
        if a2.contains(Some(id)) {
            let j = choose|j: int| 0 <= j < a2.len() && a2[j] == Some(id);
            assert(accepted[j] == a2[j]);
        }
        assert(acked(states[n + 1], id) <==> (acked(states[n], id) || accepted[n] == Some(id)));
    }
}

/// Every snapshot the store publishes after a run of calls marks a row acknowledged
/// exactly when its task was marked in the snapshot the store started from or was
/// accepted by an `acknowledge` since, and its counts are those of the rows it shows.
pub proof fn law_published_marks_follow_acknowledgements(
    initial: Seq<TaskSummary>,
    states: Seq<Seq<String>>,
    accepted: Seq<Option<Seq<char>>>,
    prev: Snapshot,
    s: Snapshot,
    offset: Option<i32>,
    r: Snapshot,
    k: int,
)
    requires
        states.len() == accepted.len() + 1,
        forall|x: Seq<char>| #[trigger] acked(states[0], x) <==> marked_acknowledged(initial, x),
        forall|j: int| 0 <= j < accepted.len() ==> ack_step(#[trigger] states[j], states[j + 1], accepted[j]),
        normalized(prev, states.last(), s, offset, r),
        storable(s),
        0 <= k < s.tasks@.len(),
    ensures
        r.tasks@[k].id@ == s.tasks@[k].id@,
        r.tasks@[k].acknowledged <==> (marked_acknowledged(initial, s.tasks@[k].id@) || accepted.contains(
            Some(s.tasks@[k].id@),
        )),
        r.task_counts == counts_of(r.tasks@),
        r.active_task_count == r.task_counts.needs_action + r.task_counts.running,
{
    law_acknowledgement_survives_refresh(prev, states.last(), s, offset, r, k);
    law_acknowledgements_accumulate(initial, states, accepted, s.tasks@[k].id@);
    lemma_active_is_waiting_and_running(r.tasks@);
    lemma_count_sum(r.tasks@);
    crate::domain::lemma_count_of_bound(r.tasks@, TaskStatus::NeedsAction);
    crate::domain::lemma_count_of_bound(r.tasks@, TaskStatus::Running);
}

/// A call that leaves the acknowledgements as they are takes one step that accepts none.
pub proof fn lemma_unchanged_acks_step(acks: Seq<String>)
    ensures
        ack_step(acks, acks, None),
{
}

/// After `SnapshotStore::new` from `initial` and any run of calls on the store, each
/// snapshot the store publishes marks a task acknowledged exactly when `initial` marked
/// it or an `acknowledge` of it returned true since, and counts the rows it shows.
/// `stores[0]` is the store `new` gave, `stores[j + 1]` the store after call `j`, and
/// `accepted[j]` the task that call accepted (an `acknowledge` that returned true), or
/// `None` for every other call, each of which keeps `acks()`; `published` is what a
/// publish of `incoming` on the last store shows.
pub proof fn law_store_acknowledgements(
    initial: Snapshot,
    stores: Seq<SnapshotStore>,
    accepted: Seq<Option<Seq<char>>>,
    incoming: Snapshot,
    offset: Option<i32>,
    published: Snapshot,
    k: int,
)
    requires
        stores.len() == accepted.len() + 1,
        forall|x: Seq<char>| #[trigger] acked(stores[0].acks(), x) <==> marked_acknowledged(initial.tasks@, x),
        forall|j: int|
            0 <= j < accepted.len() ==> ack_step(#[trigger] stores[j].acks(), stores[j + 1].acks(), accepted[j]),
        normalized(stores.last().snapshot(), stores.last().acks(), incoming, offset, published),
        storable(incoming),
        0 <= k < incoming.tasks@.len(),
    ensures
        published.tasks@[k].id@ == incoming.tasks@[k].id@,
        published.tasks@[k].acknowledged <==> (marked_acknowledged(initial.tasks@, incoming.tasks@[k].id@)
            || accepted.contains(Some(incoming.tasks@[k].id@))),
        published.task_counts == counts_of(published.tasks@),
        published.active_task_count == published.task_counts.needs_action + published.task_counts.running,
{
    let states = stores.map_values(|s: SnapshotStore| s.acks());
    assert forall|x: Seq<char>| #[trigger] acked(states[0], x) <==> marked_acknowledged(initial.tasks@, x) by {
        assert(states[0] == stores[0].acks());
    }
    assert forall|j: int| 0 <= j < accepted.len() implies ack_step(#[trigger] states[j], states[j + 1], accepted[j]) by {
        assert(states[j] == stores[j].acks());
        assert(states[j + 1] == stores[j + 1].acks());
        assert(ack_step(stores[j].acks(), stores[j + 1].acks(), accepted[j]));
    }
    assert(states.last() == stores.last().acks());
    law_published_marks_follow_acknowledgements(initial.tasks@, states, accepted, stores.last().snapshot(), incoming, offset, published, k);
}

/// A poll cannot overwrite the state of a row that a live source reported for the
/// same turn.
pub proof fn law_poll_cannot_replace_live_status(
    prev: Snapshot,
    acks: Seq<String>,
    s: Snapshot,
    offset: Option<i32>,
    r: Snapshot,
    k: int,
    i: int,
)
    requires
        normalized(prev, acks, s, offset, r),
        is_poll_source(s.source),
        0 <= k < s.tasks@.len(),
        find_index(prev.tasks@, s.tasks@[k].id@) == Some(i),
        keeps_live_status(prev.tasks@[i], s.tasks@[k]),
    ensures
        r.tasks@[k].status == prev.tasks@[i].status,
        r.tasks@[k].source == prev.tasks@[i].source,
        r.tasks@[k].turn_id == prev.tasks@[i].turn_id,
        r.tasks@[k].approval_request_id == prev.tasks@[i].approval_request_id,
{
    assert(r.tasks@[k] == normalized_task(s.tasks@[k], prev.tasks@, true, acks));
}


/// No two samples share a time.
pub open spec fn distinct_times(s: Seq<UsagePoint>) -> bool {
    forall|a: int, b: int| 0 <= a < s.len() && 0 <= b < s.len() && a != b ==> s[a].at != s[b].at
}

/// Samples in strictly increasing time: one per instant, oldest first.
pub open spec fn strictly_oldest_first(s: Seq<UsagePoint>) -> bool {
    forall|a: int, b: int| 0 <= a < b < s.len() ==> s[a].at < s[b].at
}

/// Some sample is taken at `t`.
pub open spec fn has_time(s: Seq<UsagePoint>, t: i64) -> bool {
    exists|k: int| 0 <= k < s.len() && s[k].at == t
}

proof fn lemma_by_time_times(s: Seq<UsagePoint>)
    ensures
        forall|t: i64| has_time(by_time(s), t) <==> has_time(s, t),
        distinct_times(s) ==> distinct_times(by_time(s)),
        by_time(s).len() == s.len(),
    decreases s.len(),
{
    if s.len() > 0 {
        let p = s.drop_last();
        let x = s.last();
        lemma_by_time_times(p);
        let t = by_time(p);
        let k = point_pos(t, x.at) as int;
        lemma_point_pos(t, x.at);
        let r = t.insert(k, x);
        assert(r == by_time(s));
        t.insert_ensures(k, x);
        assert forall|u: i64| has_time(r, u) <==> has_time(s, u) by {
            if has_time(r, u) {
                let j = choose|j: int| 0 <= j < r.len() && r[j].at == u;
                if j == k {
                    assert(s[s.len() - 1].at == u);
                } else {
                    let jj = if j < k {
                        j
                    } else {
                        j - 1
                    };
                    assert(r[j] == t[jj]);
                    assert(t[jj].at == u);
                    assert(has_time(by_time(p), u));
                    assert(has_time(p, u));
                    let m = choose|m: int| 0 <= m < p.len() && p[m].at == u;
                    assert(s[m] == p[m]);
                }
            }
            if has_time(s, u) {
                let j = choose|j: int| 0 <= j < s.len() && s[j].at == u;
                if j == s.len() - 1 {
                    assert(r[k].at == u);
                } else {
                    assert(p[j] == s[j]);
                    assert(p[j].at == u);
                    assert(has_time(p, u));
                    assert(has_time(by_time(p), u));
                    let m = choose|m: int| 0 <= m < t.len() && t[m].at == u;
                    if m < k {
                        assert(r[m] == t[m]);
                    } else {
                        assert(r[m + 1] == t[m]);
                    }
                }
            }
        }
        if distinct_times(s) {
            assert(distinct_times(p)) by {
                assert forall|a: int, b: int| 0 <= a < p.len() && 0 <= b < p.len() && a != b implies p[a].at
                    != p[b].at by {
                    assert(p[a] == s[a] && p[b] == s[b]);
                }
            }
            assert(!has_time(p, x.at)) by {
                if has_time(p, x.at) {
                    let m = choose|m: int| 0 <= m < p.len() && p[m].at == x.at;
                    assert(s[m] == p[m]);
                    assert(s[m].at == s[s.len() - 1].at);
                }
            }
            assert forall|a: int, b: int| 0 <= a < r.len() && 0 <= b < r.len() && a != b implies r[a].at
                != r[b].at by {
                if a == k {
                    let bb = if b < k {
                        b
                    } else {
                        b - 1
                    };
                    assert(r[b] == t[bb]);
                    if r[b].at == x.at {
                        assert(has_time(t, x.at));
                    }
                } else if b == k {
                    let aa = if a < k {
                        a
                    } else {
                        a - 1
                    };
                    assert(r[a] == t[aa]);
                    if r[a].at == x.at {
                        assert(has_time(t, x.at));
                    }
                } else {
                    let aa = if a < k {
                        a
                    } else {
                        a - 1
                    };
                    let bb = if b < k {
                        b
                    } else {
                        b - 1
                    };
                    assert(r[a] == t[aa] && r[b] == t[bb]);
                }
            }
        }
    }
}

/// Sorting and trimming a history whose samples have distinct times gives one sample
/// per instant, oldest first.
pub proof fn law_trimmed_distinct_history_is_strictly_ordered(s: Seq<UsagePoint>)
    requires
        distinct_times(s),
    ensures
        strictly_oldest_first(trimmed(s)),
{
    lemma_by_time_times(s);
    law_trimmed_history_is_an_ordered_week(s);
    let t = by_time(s);
    let u = trimmed(s);
    let off = t.len() - u.len();
    assert forall|a: int, b: int| 0 <= a < b < u.len() implies u[a].at < u[b].at by {
        assert(u[a] == t[a + off] && u[b] == t[b + off]);
    }
}

proof fn lemma_set_quota_distinct(s: Seq<UsagePoint>, at: i64, quota: u8)
    requires
        distinct_times(s),
    ensures
        distinct_times(set_quota(s, index_at(s, at), at, quota)),
{
    lemma_index_at(s, at);
    let u = set_quota(s, index_at(s, at), at, quota);
    match index_at(s, at) {
        Some(k) => {
            assert forall|a: int, b: int| 0 <= a < u.len() && 0 <= b < u.len() && a != b implies u[a].at
                != u[b].at by {
                assert(u[a].at == s[a].at && u[b].at == s[b].at);
            }
        },
        None => {
            assert forall|a: int, b: int| 0 <= a < u.len() && 0 <= b < u.len() && a != b implies u[a].at
                != u[b].at by {
                if a < s.len() && b < s.len() {
                    assert(u[a] == s[a] && u[b] == s[b]);
                } else if a < s.len() {
                    assert(u[a] == s[a]);
                } else {
                    assert(u[b] == s[b]);
                }
            }
        },
    }
}

/// Recording a reading keeps one sample per instant, oldest first.
pub proof fn law_recording_keeps_one_sample_per_instant(
    previous: Seq<UsagePoint>,
    at: Option<i64>,
    quota: Option<u8>,
    offset: Option<i32>,
)
    requires
        strictly_oldest_first(previous),
    ensures
        strictly_oldest_first(hourly_merged(previous, at, quota, offset)),
{
    if at is Some && quota is Some && hour_bucket(at->0, offset) is Some {
        let b = hour_bucket(at->0, offset)->0;
        assert(distinct_times(previous)) by {
            assert forall|a: int, c: int| 0 <= a < previous.len() && 0 <= c < previous.len() && a != c implies previous[a].at
                != previous[c].at by {
                if a < c {
                    assert(previous[a].at < previous[c].at);
                } else {
                    assert(previous[c].at < previous[a].at);
                }
            }
        }
        lemma_set_quota_distinct(previous, b, quota->0);
        law_trimmed_distinct_history_is_strictly_ordered(set_quota(previous, index_at(previous, b), b, quota->0));
    }
}


/// Pinning the start of the weekly cycle keeps one sample per instant, oldest first,
/// when the cycle starts at the beginning of a local hour the calendar can hold.
pub proof fn law_seeding_keeps_one_sample_per_instant(
    history: Seq<UsagePoint>,
    cycle_key: Option<i64>,
    offset: Option<i32>,
)
    requires
        strictly_oldest_first(history),
        cycle_start(cycle_key, offset) matches Some(st) ==> hour_bucket(st, offset) == Some(st),
    ensures
        strictly_oldest_first(seeded(history, cycle_key, offset)),
{
    if cycle_start(cycle_key, offset) is Some {
        let st = cycle_start(cycle_key, offset)->0;
        assert(distinct_times(history)) by {
            assert forall|a: int, c: int| 0 <= a < history.len() && 0 <= c < history.len() && a != c implies history[a].at
                != history[c].at by {
                if a < c {
                    assert(history[a].at < history[c].at);
                } else {
                    assert(history[c].at < history[a].at);
                }
            }
        }
        lemma_index_in_hour(history, st, offset);
        let u = set_quota(history, index_in_hour(history, st, offset), st, 100);
        assert(distinct_times(u)) by {
            match index_in_hour(history, st, offset) {
                Some(k) => {
                    assert forall|a: int, b: int| 0 <= a < u.len() && 0 <= b < u.len() && a != b implies u[a].at
                        != u[b].at by {
                        assert(u[a].at == history[a].at && u[b].at == history[b].at);
                    }
                },
                None => {
                    assert forall|a: int, b: int| 0 <= a < u.len() && 0 <= b < u.len() && a != b implies u[a].at
                        != u[b].at by {
                        if a < history.len() && b < history.len() {
                            assert(u[a] == history[a] && u[b] == history[b]);
                        } else if a < history.len() {
                            assert(u[a] == history[a]);
                            if history[a].at == st {
                                assert(hour_bucket(history[a].at, offset) == Some(st));
                            }
                        } else {
                            assert(u[b] == history[b]);
                            if history[b].at == st {
                                assert(hour_bucket(history[b].at, offset) == Some(st));
                            }
                        }
                    }
                },
            }
        }
        law_trimmed_distinct_history_is_strictly_ordered(u);
    }
}


/// What one row adds to the count of status `st`.
pub open spec fn counted_as(t: TaskSummary, st: TaskStatus) -> int {
    if crate::domain::is_counted(t) && t.status == st {
        1
    } else {
        0
    }
}

proof fn lemma_count_of_update(s: Seq<TaskSummary>, i: int, x: TaskSummary, st: TaskStatus)
    requires
        0 <= i < s.len(),
    ensures
        count_of(s.update(i, x), st) == count_of(s, st) - counted_as(s[i], st) + counted_as(x, st),
    decreases s.len(),
{
    let u = s.update(i, x);
    if i == s.len() - 1 {
        assert(u.drop_last() =~= s.drop_last());
    } else {
        assert(u.drop_last() =~= s.drop_last().update(i, x));
        lemma_count_of_update(s.drop_last(), i, x, st);
        assert(s.drop_last()[i] == s[i]);
    }
}

/// An acknowledged task leaves the counts: the completed count drops by one and the
/// others stay.
pub proof fn law_acknowledged_row_leaves_the_counts(tasks: Seq<TaskSummary>, i: int)
    requires
        0 <= i < tasks.len(),
        tasks[i].status == TaskStatus::Completed,
        !tasks[i].acknowledged,
    ensures
        count_of(with_acknowledged(tasks, i), TaskStatus::Completed) + 1 == count_of(tasks, TaskStatus::Completed),
        count_of(with_acknowledged(tasks, i), TaskStatus::Running) == count_of(tasks, TaskStatus::Running),
        count_of(with_acknowledged(tasks, i), TaskStatus::NeedsAction) == count_of(tasks, TaskStatus::NeedsAction),
        count_of(with_acknowledged(tasks, i), TaskStatus::Inactive) == count_of(tasks, TaskStatus::Inactive),
{
    let x = TaskSummary { acknowledged: true, ..tasks[i] };
    lemma_count_of_update(tasks, i, x, TaskStatus::Completed);
    lemma_count_of_update(tasks, i, x, TaskStatus::Running);
    lemma_count_of_update(tasks, i, x, TaskStatus::NeedsAction);
    lemma_count_of_update(tasks, i, x, TaskStatus::Inactive);
}


proof fn lemma_by_time_of_sorted(s: Seq<UsagePoint>)
    requires
        oldest_first(s),
    ensures
        by_time(s) == s,
    decreases s.len(),
{
    if s.len() > 0 {
        let p = s.drop_last();
        let x = s.last();
        assert(oldest_first(p)) by {
            assert forall|a: int, b: int| 0 <= a < b < p.len() implies p[a].at <= p[b].at by {
                assert(p[a] == s[a] && p[b] == s[b]);
            }
        }
        lemma_by_time_of_sorted(p);
        lemma_point_pos(p, x.at);
        let k = point_pos(p, x.at) as int;
        if k < p.len() {
            assert(p[k] == s[k]);
            assert(s[k].at <= s[s.len() - 1].at);
        }
        assert(k == p.len());
        assert(p.insert(k, x) =~= s);
    }
}

/// Trimming twice is trimming once.
pub proof fn law_trimming_is_idempotent(s: Seq<UsagePoint>)
    ensures
        trimmed(trimmed(s)) == trimmed(s),
{
    law_trimmed_history_is_an_ordered_week(s);
    lemma_by_time_of_sorted(trimmed(s));
    assert(trimmed(s).skip(0) =~= trimmed(s));
}

/// When fresh data names a new weekly cycle, the current history moves to the previous
/// cycle, under the old cycle's key, and the new cycle's history starts from the new
/// reading alone.
pub proof fn law_new_cycle_archives_history(prev: Snapshot, s: Snapshot, offset: Option<i32>)
    requires
        s.status == DataStatus::Fresh,
        !is_from_cache(s),
        !is_legacy(s),
        prev.history_cycle_key is Some,
        or_opt(s.history_cycle_key, cycle_key_of(s.quota_resets_at)) is Some,
        or_opt(s.history_cycle_key, cycle_key_of(s.quota_resets_at)) != prev.history_cycle_key,
    ensures
        normalized_histories(prev, s, offset).2 == trimmed(prev.history@),
        normalized_histories(prev, s, offset).3 == prev.history_cycle_key,
        normalized_histories(prev, s, offset).1 == or_opt(s.history_cycle_key, cycle_key_of(s.quota_resets_at)),
        normalized_histories(prev, s, offset).0 == seeded(
            hourly_merged(Seq::empty(), or_opt(s.fetched_at, s.changed_at), s.quota_remaining_percent, offset),
            or_opt(s.history_cycle_key, cycle_key_of(s.quota_resets_at)),
            offset,
        ),
{
    law_trimming_is_idempotent(prev.history@);
}

} // verus!

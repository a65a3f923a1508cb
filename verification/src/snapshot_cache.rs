//! Which snapshots the disk cache keeps, and how a cached one is shown again.
use vstd::prelude::*;
use crate::domain::{DataStatus, Snapshot};
use crate::text::str_eq;

verus! {

/// Schema versions the cache can read back.
pub open spec fn readable_schema(version: Seq<char>) -> bool {
    version == "1.0"@ || version == "1.1"@
}

/// `r` is the cached snapshot `s` as it is shown again: stale, unchanged since, from the
/// cache, with a note that it is the last successful read.
pub open spec fn restored_as(s: Snapshot, r: Snapshot) -> bool {
    &&& r.status == DataStatus::Stale
    &&& r.changed_at is None
    &&& r.source is Some && r.source->0@ == "local-cache"@
    &&& r.error is Some && r.error->0@ == "正在连接 Codex，当前显示上次成功数据"@
    &&& r.fetched_at == s.fetched_at
    &&& r.quota_remaining_percent == s.quota_remaining_percent
    &&& r.quota_resets_at == s.quota_resets_at
    &&& r.five_hour_remaining_percent == s.five_hour_remaining_percent
    &&& r.five_hour_resets_at == s.five_hour_resets_at
    &&& r.plan == s.plan
    &&& r.reset_credits == s.reset_credits
    &&& r.today_tokens == s.today_tokens
    &&& r.usage_date == s.usage_date
    &&& r.active_task_count == s.active_task_count
    &&& r.task_counts == s.task_counts
    &&& r.tasks == s.tasks
    &&& r.history == s.history
    &&& r.history_cycle_key == s.history_cycle_key
    &&& r.previous_history == s.previous_history
    &&& r.previous_history_cycle_key == s.previous_history_cycle_key
    &&& r.hook_diagnostics == s.hook_diagnostics
    &&& r.schema_version == s.schema_version
}

/// A snapshot read back from the cache, to be shown until Codex answers; `None` when
/// it comes from an unknown schema or never had a successful read.
pub fn restore(snapshot: Snapshot) -> (r: Option<Snapshot>)
    ensures
        match r {
            Some(x) => readable_schema(snapshot.schema_version@) && snapshot.fetched_at is Some && restored_as(
                snapshot,
                x,
            ),
            None => !readable_schema(snapshot.schema_version@) || snapshot.fetched_at is None,
        },
{
    let v = snapshot.schema_version.as_str();
    if !(str_eq(v, "1.0") || str_eq(v, "1.1")) || snapshot.fetched_at.is_none() {
        return None;
    }
    Some(
        Snapshot {
            status: DataStatus::Stale,
            changed_at: None,
            source: Some("local-cache".to_owned()),
            error: Some("正在连接 Codex，当前显示上次成功数据".to_owned()),
            ..snapshot
        },
    )
}

/// Only fresh snapshots with a successful read are written to the cache.
pub fn should_cache(snapshot: &Snapshot) -> (r: bool)
    ensures
        r == (snapshot.status == DataStatus::Fresh && snapshot.fetched_at is Some),
{
    snapshot.status == DataStatus::Fresh && snapshot.fetched_at.is_some()
}

} // verus!

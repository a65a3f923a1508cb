use codex_quota::domain::{
    DataStatus, HookDiagnostic, HookDiagnostics, Snapshot, TaskCounts, TaskStatus, TaskSummary, UsagePoint,
    SNAPSHOT_SCHEMA_VERSION,
};
use codex_quota::snapshot_store::{
    empty_snapshot, history_cycle_key, local_hour_bucket, merge_hourly_history, merge_hourly_history_with,
    seed_cycle_baseline_with, trim_history, SnapshotStore,
};

fn now() -> i64 {
    std::time::SystemTime::now().duration_since(std::time::UNIX_EPOCH).unwrap().as_secs() as i64
}

fn snapshot() -> Snapshot {
    Snapshot {
        status: DataStatus::Fresh,
        changed_at: Some(1),
        source: Some("test".into()),
        fetched_at: Some(1),
        quota_remaining_percent: Some(72),
        quota_resets_at: None,
        five_hour_remaining_percent: None,
        five_hour_resets_at: None,
        plan: Some("Plus".into()),
        reset_credits: Some(1),
        today_tokens: Some(128400),
        usage_date: None,
        active_task_count: 0,
        task_counts: TaskCounts::zero(),
        tasks: vec![TaskSummary {
            id: "t".into(),
            title: "任务".into(),
            activity: None,
            waiting_reason: None,
            approval_request_id: None,
            status: TaskStatus::Completed,
            token_count: None,
            updated_at: 1,
            acknowledged: false,
            source: None,
            turn_id: None,
            received_at: 1,
        }],
        error: None,
        history: Vec::new(),
        history_cycle_key: None,
        previous_history: Vec::new(),
        previous_history_cycle_key: None,
        hook_diagnostics: HookDiagnostics::new(),
        schema_version: SNAPSHOT_SCHEMA_VERSION.into(),
    }
}

#[test]
fn acknowledgement_survives_refresh() {
    let mut store = SnapshotStore::new(snapshot());
    assert!(store.acknowledge("t"));
    let mut next = snapshot();
    next.status = DataStatus::Stale;
    store.publish(next);
    assert!(store.current().tasks[0].acknowledged);
}

#[test]
fn clears_legacy_history_when_upgrading_to_weekly_history() {
    let mut initial = snapshot();
    initial.schema_version = "1.0".into();
    initial.status = DataStatus::Stale;
    initial.quota_remaining_percent = None;
    initial.history = vec![UsagePoint { at: 1, quota_remaining_percent: Some(5) }];
    let store = SnapshotStore::new(initial);
    assert!(store.current().history.is_empty());
    assert_eq!(store.current().schema_version, SNAPSHOT_SCHEMA_VERSION);
}

#[test]
fn unknown_ack_is_false() {
    let mut store = SnapshotStore::new(snapshot());
    assert!(!store.acknowledge("missing"));
}

#[test]
fn running_task_cannot_be_acknowledged() {
    let mut store = SnapshotStore::new(snapshot());
    let mut next = snapshot();
    next.tasks[0].status = TaskStatus::Running;
    store.publish(next);
    assert!(!store.acknowledge("t"));
}

#[test]
fn resolving_approval_moves_task_out_of_red_state() {
    let mut current = snapshot();
    current.tasks[0].status = TaskStatus::NeedsAction;
    current.tasks[0].approval_request_id = Some("req-1".into());
    let mut store = SnapshotStore::new(current);
    assert!(store.resolve_approval("t", "accept"));
    assert_eq!(store.current().tasks[0].status, TaskStatus::Running);
    assert!(store.current().tasks[0].approval_request_id.is_none());
}

#[test]
fn duplicate_snapshot_is_not_published() {
    let mut store = SnapshotStore::new(snapshot());
    assert!(!store.publish_if_changed(snapshot()));
    let mut metadata_only = snapshot();
    metadata_only.changed_at = Some(99);
    metadata_only.source = Some("metrics-poll".into());
    assert!(!store.publish_if_changed(metadata_only));
    let mut changed = snapshot();
    changed.today_tokens = Some(128401);
    assert!(store.publish_if_changed(changed));
    assert_eq!(store.current().today_tokens, Some(128401));
}

#[test]
fn poll_snapshot_cannot_replace_live_hook_status() {
    let mut initial = snapshot();
    initial.tasks[0].status = TaskStatus::Running;
    initial.tasks[0].source = Some("hook".into());
    initial.tasks[0].turn_id = Some("turn-1".into());
    let mut store = SnapshotStore::new(initial.clone());
    let mut polled = initial;
    polled.source = Some("task-watch".into());
    polled.tasks[0].status = TaskStatus::Completed;
    polled.tasks[0].source = Some("poll".into());
    store.publish(polled);
    assert_eq!(store.current().tasks[0].status, TaskStatus::Running);
    assert_eq!(store.current().tasks[0].source.as_deref(), Some("hook"));
}

#[test]
fn hourly_history_replaces_the_same_hour_with_latest_quota() {
    let now = now();
    let hour = now - now.rem_euclid(3600);
    let first = merge_hourly_history(&[], Some(hour + 10), Some(80));
    let second = merge_hourly_history(&first, Some(hour + 3500), Some(72));
    assert_eq!(second.len(), 1);
    assert_eq!(second[0].quota_remaining_percent, Some(72));
    assert_eq!(second[0].at, local_hour_bucket(hour + 10).unwrap());
}

#[test]
fn hourly_history_keeps_a_rolling_seven_day_window() {
    let now = now();
    let hour = now - now.rem_euclid(3600);
    let mut history = Vec::new();
    for index in 0..200 {
        history = merge_hourly_history(&history, Some(hour - (199 - index) * 3600), Some(index as u8));
    }
    assert_eq!(history.len(), 168);
    assert!(history.windows(2).all(|points| points[0].at < points[1].at));
    assert_eq!(history.last().map(|point| point.at), Some(local_hour_bucket(hour).unwrap()));
    assert_eq!(history.first().map(|point| point.at), Some(local_hour_bucket(hour - 167 * 3600).unwrap()));
    let replaced = merge_hourly_history(&history, Some(hour - 10), Some(99));
    assert_eq!(replaced.len(), 168);
    assert_eq!(
        replaced
            .iter()
            .find(|point| point.at == local_hour_bucket(hour - 10).unwrap())
            .and_then(|point| point.quota_remaining_percent),
        Some(99)
    );
}

#[test]
fn cache_snapshot_restores_history_across_restart() {
    let mut store = SnapshotStore::new(empty_snapshot());
    let mut cached = snapshot();
    cached.status = DataStatus::Stale;
    cached.source = Some("cache-unconfirmed".into());
    cached.history = vec![UsagePoint { at: 10, quota_remaining_percent: Some(64) }];
    cached.history_cycle_key = Some(0);
    store.publish(cached);
    assert_eq!(store.current().history.len(), 1);
    assert_eq!(store.current().history[0].quota_remaining_percent, Some(64));
    assert_eq!(store.current().history_cycle_key, Some(0));
}

#[test]
fn weekly_history_always_starts_at_one_hundred_percent() {
    let now = now();
    let mut initial = snapshot();
    initial.fetched_at = Some(now);
    initial.changed_at = Some(now);
    initial.quota_remaining_percent = Some(94);
    initial.quota_resets_at = Some(now + 168 * 3600);
    let store = SnapshotStore::new(initial);
    let current = store.current();
    assert_eq!(current.history.first().and_then(|point| point.quota_remaining_percent), Some(100));
    assert_eq!(current.history.last().and_then(|point| point.quota_remaining_percent), Some(100));
}

#[test]
fn new_weekly_cycle_archives_previous_history() {
    let now = now();
    let old_cycle = now - now.rem_euclid(3600) - 168 * 3600;
    let new_cycle = old_cycle + 168 * 3600;
    let mut initial = snapshot();
    initial.status = DataStatus::Stale;
    initial.fetched_at = Some(now - 3600);
    initial.quota_resets_at = Some(old_cycle);
    initial.history_cycle_key = Some(old_cycle);
    initial.history = vec![UsagePoint { at: now - 3600, quota_remaining_percent: Some(72) }];
    let mut store = SnapshotStore::new(initial);

    let mut next = snapshot();
    next.fetched_at = Some(now);
    next.quota_remaining_percent = Some(100);
    next.quota_resets_at = Some(new_cycle);
    store.publish(next);

    let current = store.current();
    assert_eq!(current.history_cycle_key, Some(new_cycle));
    assert_eq!(current.previous_history_cycle_key, Some(old_cycle));
    assert_eq!(current.previous_history.len(), 1);
    assert_eq!(current.previous_history[0].quota_remaining_percent, Some(72));
    assert!(current.history.iter().any(|point| point.quota_remaining_percent == Some(100)));
}

#[test]
fn fixed_offset_history_uses_local_hours() {
    let history = merge_hourly_history_with(&[], Some(7300), Some(50), Some(1800));
    assert_eq!(history, vec![UsagePoint { at: 5400, quota_remaining_percent: Some(50) }]);
    let none = merge_hourly_history_with(&history, Some(7300), Some(50), None);
    assert_eq!(none, history);
    let seeded = seed_cycle_baseline_with(history.clone(), Some(7200 + 168 * 3600), Some(0));
    assert_eq!(
        seeded,
        vec![UsagePoint { at: 5400, quota_remaining_percent: Some(50) }, UsagePoint { at: 7200, quota_remaining_percent: Some(100) }]
    );
}

#[test]
fn history_is_sorted_and_trimmed_to_a_week() {
    let points: Vec<UsagePoint> =
        (0..170).rev().map(|i| UsagePoint { at: i * 3600, quota_remaining_percent: Some(1) }).collect();
    let trimmed = trim_history(points);
    assert_eq!(trimmed.len(), 168);
    assert_eq!(trimmed[0].at, 2 * 3600);
    assert_eq!(trimmed[167].at, 169 * 3600);
    assert_eq!(history_cycle_key(Some(7201)), Some(7200));
    assert_eq!(history_cycle_key(Some(-1)), Some(-3600));
    assert_eq!(history_cycle_key(None), None);
}

#[test]
fn hook_deliveries_are_counted() {
    let mut store = SnapshotStore::new(empty_snapshot());
    let diagnostic = HookDiagnostics {
        last: Some(HookDiagnostic {
            event: "Stop".into(),
            session_id: None,
            turn_id: None,
            received_at: 77,
            http_status: Some(200),
            delivered: true,
            error: None,
        }),
        received_count: 1,
    };
    store.record_hook_diagnostic(diagnostic.clone());
    store.record_hook_diagnostic(diagnostic);
    let current = store.current();
    assert_eq!(current.hook_diagnostics.received_count, 2);
    assert_eq!(current.changed_at, Some(77));
    assert_eq!(current.source.as_deref(), Some("hook-diagnostic"));
}

#[test]
fn declined_approval_leaves_the_task_inactive() {
    let mut current = snapshot();
    current.tasks[0].status = TaskStatus::NeedsAction;
    let mut store = SnapshotStore::new(current);
    assert!(store.resolve_approval_at("t", "decline", 55));
    let task = &store.current().tasks[0];
    assert_eq!(task.status, TaskStatus::Inactive);
    assert_eq!(task.source.as_deref(), Some("hook"));
    assert_eq!(task.received_at, 55);
    assert!(!store.resolve_approval_at("t", "accept", 56));
}

#[test]
fn empty_snapshot_waits_for_the_first_read() {
    let s = empty_snapshot();
    assert_eq!(s.status, DataStatus::Stale);
    assert_eq!(s.error.as_deref(), Some("等待首次连接"));
    assert_eq!(s.schema_version, "1.1");
}

#[test]
fn resolving_stamps_the_current_time() {
    let mut current = snapshot();
    current.tasks[0].status = TaskStatus::NeedsAction;
    let mut store = SnapshotStore::new(current);
    let before = now();
    assert!(store.resolve_approval("t", "accept"));
    assert!(store.current().tasks[0].received_at >= before);
}

#[test]
fn acknowledged_task_leaves_the_counts() {
    let mut store = SnapshotStore::new(snapshot());
    assert_eq!(store.current().task_counts.completed, 1);
    assert!(store.acknowledge("t"));
    assert_eq!(store.current().task_counts.completed, 0);
    assert_eq!(store.current().active_task_count, 0);
}

#[test]
fn only_acknowledged_tasks_are_marked_after_a_refresh() {
    let mut initial = snapshot();
    let mut other = initial.tasks[0].clone();
    other.id = "u".into();
    initial.tasks.push(other);
    let mut store = SnapshotStore::new(initial.clone());
    assert!(store.acknowledge("t"));
    assert!(store.acknowledge("t"));
    let mut next = initial;
    next.status = DataStatus::Stale;
    store.publish(next);
    let current = store.current();
    assert!(current.tasks.iter().any(|task| task.id == "t" && task.acknowledged));
    assert!(current.tasks.iter().any(|task| task.id == "u" && !task.acknowledged));
}

use codex_quota::codex_protocol::NormalizedTaskEvent;
use codex_quota::domain::{TaskStatus, TaskSummary};
use codex_quota::task_registry::TaskRegistry;

fn event(id: &str, waiting: bool, running: bool, completed: bool, updated_at: i64) -> NormalizedTaskEvent {
    NormalizedTaskEvent {
        id: id.into(),
        turn_id: Some(format!("turn-{id}")),
        item_id: Some(format!("item-{id}")),
        request_id: if waiting { Some(format!("request-{id}")) } else { None },
        resolved_request_id: None,
        title: format!("任务 {id}"),
        waiting_reason: if waiting { Some("需要确认".into()) } else { None },
        approval_request_id: if waiting { Some(format!("request-{id}")) } else { None },
        waiting_for_user: waiting,
        running,
        completed,
        token_count: None,
        updated_at,
    }
}

fn task(id: &str, status: TaskStatus, updated_at: i64) -> TaskSummary {
    TaskSummary {
        id: id.into(),
        title: format!("任务 {id}"),
        activity: None,
        waiting_reason: None,
        approval_request_id: None,
        status,
        token_count: None,
        updated_at,
        acknowledged: false,
        source: None,
        turn_id: None,
        received_at: updated_at,
    }
}

/// The registry with the first row's source and turn set, as a hook would report them.
fn with_first_row(registry: &TaskRegistry, source: &str, turn: &str) -> TaskRegistry {
    let mut rows = registry.tasks();
    rows[0].source = Some(source.into());
    rows[0].turn_id = Some(turn.into());
    TaskRegistry::from_tasks(&rows)
}

#[test]
fn partial_thread_poll_does_not_drop_event_tasks() {
    let mut registry = TaskRegistry::default();
    registry.apply_event(event("a", false, true, false, 100), 100);
    registry.apply_event(event("b", false, true, false, 100), 100);
    registry.apply_event(event("c", false, true, false, 100), 100);
    registry.merge_sources(vec![task("a", TaskStatus::Running, 101)], 101);
    assert_eq!(registry.counts().running, 3);
}

#[test]
fn approval_state_survives_active_poll() {
    let mut registry = TaskRegistry::default();
    registry.apply_event(event("a", true, false, false, 100), 100);
    registry.merge_sources(vec![task("a", TaskStatus::Running, 101)], 101);
    let current = registry.tasks();
    assert_eq!(current[0].status, TaskStatus::NeedsAction);
    assert_eq!(registry.counts().needs_action, 1);
}

#[test]
fn unknown_thread_poll_does_not_erase_event_status() {
    let mut registry = TaskRegistry::default();
    registry.apply_event(event("a", false, true, false, 100), 100);
    registry.merge_sources(vec![task("a", TaskStatus::Inactive, 101)], 101);
    assert_eq!(registry.tasks()[0].status, TaskStatus::Running);
}

#[test]
fn local_scan_removes_a_missing_phantom_task() {
    let mut registry = TaskRegistry::default();
    let mut current = task("a", TaskStatus::Running, 100);
    current.source = Some("local-session".into());
    registry.merge_sources(vec![current], 100);
    registry.replace_source_tasks("local-session", Vec::new(), 101);
    assert!(registry.tasks().is_empty());
}

#[test]
fn same_id_updates_in_place() {
    let mut registry = TaskRegistry::default();
    registry.apply_event(event("a", false, true, false, 100), 100);
    registry.apply_event(event("a", false, false, true, 101), 101);
    assert_eq!(registry.tasks().len(), 1);
    assert_eq!(registry.tasks()[0].status, TaskStatus::Completed);
}

#[test]
fn polling_completed_cannot_overwrite_hook_running_state() {
    let mut registry = TaskRegistry::default();
    registry.apply_event(event("a", false, true, false, 100), 100);
    let mut registry = with_first_row(&registry, "hook", "turn-a");
    registry.merge_sources(vec![task("a", TaskStatus::Completed, 200)], 200);
    assert_eq!(registry.tasks()[0].status, TaskStatus::Running);
    assert_eq!(registry.tasks()[0].source.as_deref(), Some("hook"));
}

#[test]
fn stale_stop_from_an_older_turn_is_ignored() {
    let mut registry = TaskRegistry::default();
    registry.apply_event(event("a", false, true, false, 100), 100);
    let mut registry = with_first_row(&registry, "hook", "turn-new");
    let mut stale = event("a", false, false, true, 200);
    stale.turn_id = Some("turn-old".into());
    registry.apply_event(stale, 200);
    assert_eq!(registry.tasks()[0].status, TaskStatus::Running);
}

#[test]
fn newer_desktop_turn_replaces_an_older_hook_turn() {
    let mut registry = TaskRegistry::default();
    let mut old = task("a", TaskStatus::Completed, 100);
    old.source = Some("hook".into());
    old.turn_id = Some("turn-old".into());
    registry.merge_sources(vec![old], 100);
    let mut current = task("a", TaskStatus::Running, 200);
    current.source = Some("desktop-state".into());
    current.turn_id = Some("turn-new".into());
    registry.merge_sources(vec![current], 200);
    assert_eq!(registry.tasks()[0].status, TaskStatus::Running);
    assert_eq!(registry.tasks()[0].turn_id.as_deref(), Some("turn-new"));
    assert_eq!(registry.tasks()[0].source.as_deref(), Some("desktop-state"));
}

#[test]
fn desktop_state_overrides_a_newer_metadata_timestamp() {
    let mut registry = TaskRegistry::default();
    let mut metadata = task("a", TaskStatus::Inactive, 500);
    metadata.source = Some("poll".into());
    registry.merge_sources(vec![metadata], 500);
    let mut desktop = task("a", TaskStatus::Running, 100);
    desktop.source = Some("desktop-state".into());
    desktop.turn_id = Some("turn-live".into());
    registry.merge_sources(vec![desktop], 500);
    assert_eq!(registry.tasks()[0].status, TaskStatus::Running);
    assert_eq!(registry.tasks()[0].source.as_deref(), Some("desktop-state"));
}

#[test]
fn rows_come_newest_first() {
    let registry = TaskRegistry::from_tasks(&[
        task("old", TaskStatus::Running, 100),
        task("new", TaskStatus::Running, 300),
        task("mid", TaskStatus::Running, 200),
    ]);
    let ids: Vec<String> = registry.tasks().into_iter().map(|t| t.id).collect();
    assert_eq!(ids, vec!["new", "mid", "old"]);
}

#[test]
fn events_never_duplicate_an_id() {
    let mut registry = TaskRegistry::new();
    registry.apply_event(event("a", false, true, false, 100), 100);
    registry.apply_event(event("a", true, false, false, 101), 101);
    registry.merge_sources(vec![task("a", TaskStatus::Running, 102), task("b", TaskStatus::Running, 102)], 102);
    let rows = registry.tasks();
    assert_eq!(rows.iter().filter(|t| t.id == "a").count(), 1);
}

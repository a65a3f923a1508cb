use codex_quota::domain::{
    map_task_status, snapshot_status, DataStatus, TaskCounts, TaskEvent, TaskStatus, TaskSummary,
};

fn event(waiting_for_user: bool, running: bool, completed: bool) -> TaskEvent {
    TaskEvent {
        id: "t".into(),
        title: "任务".into(),
        waiting_reason: None,
        approval_request_id: None,
        waiting_for_user,
        running,
        completed,
        token_count: None,
        updated_at: 0,
    }
}

fn row(id: &str, title: &str, status: TaskStatus, acknowledged: bool, approval: Option<&str>) -> TaskSummary {
    TaskSummary {
        id: id.into(),
        title: title.into(),
        activity: None,
        waiting_reason: None,
        approval_request_id: approval.map(str::to_owned),
        status,
        token_count: None,
        updated_at: 0,
        acknowledged,
        source: None,
        turn_id: None,
        received_at: 0,
    }
}

#[test]
fn needs_action_has_red_priority() {
    assert_eq!(map_task_status(&event(true, true, false)), TaskStatus::NeedsAction);
}

#[test]
fn running_and_completed_are_mapped() {
    assert_eq!(map_task_status(&event(false, true, false)), TaskStatus::Running);
    assert_eq!(map_task_status(&event(false, false, true)), TaskStatus::Completed);
    assert_eq!(map_task_status(&event(false, false, false)), TaskStatus::Inactive);
}

#[test]
fn task_counts_ignore_acknowledged_rows() {
    let tasks = vec![
        row("none", "无", TaskStatus::Inactive, false, None),
        row("red", "红", TaskStatus::NeedsAction, false, Some("r")),
        row("yellow", "黄", TaskStatus::Running, false, None),
        row("green", "绿", TaskStatus::Completed, false, None),
        row("acked", "已验收", TaskStatus::Completed, true, None),
    ];
    assert_eq!(
        TaskCounts::from_tasks(&tasks),
        TaskCounts { none: 1, needs_action: 1, running: 1, completed: 1 }
    );
}

#[test]
fn task_counts_include_acknowledged_running_rows() {
    let tasks = vec![row("run", "重新运行", TaskStatus::Running, true, None)];
    assert_eq!(TaskCounts::from_tasks(&tasks).running, 1);
}

#[test]
fn snapshot_is_stale_after_fifteen_minutes() {
    assert_eq!(snapshot_status(Some(0), 901, false, true), DataStatus::Stale);
}

#[test]
fn snapshot_status_edges() {
    assert_eq!(snapshot_status(Some(0), 900, false, true), DataStatus::Fresh);
    assert_eq!(snapshot_status(Some(0), 900, true, true), DataStatus::Error);
    assert_eq!(snapshot_status(None, 5, true, true), DataStatus::Error);
    assert_eq!(snapshot_status(None, 5, false, true), DataStatus::Stale);
    assert_eq!(snapshot_status(Some(0), 5, false, false), DataStatus::Unauthenticated);
}

#[test]
fn empty_list_counts_nothing() {
    assert_eq!(TaskCounts::from_tasks(&[]), TaskCounts { none: 0, needs_action: 0, running: 0, completed: 0 });
}

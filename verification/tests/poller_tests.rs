use codex_quota::codex_protocol::{NormalizedTaskEvent, ThreadSummary};
use codex_quota::domain::{TaskStatus, TaskSummary};
use codex_quota::poller::{
    apply_task_event, clean_thread_title, extract_rollout_user_activity, is_generated_context,
    is_metrics_notification, map_threads, merge_polled_tasks, merge_rollout_tasks, rollout_status_from_tail,
    metrics_outcome, poll_outcome, SyncIntervals, ThreadRollout,
};
use codex_quota::snapshot_store::empty_snapshot;
use std::time::Duration;

fn chrono_like_now() -> i64 {
    std::time::SystemTime::now().duration_since(std::time::UNIX_EPOCH).unwrap().as_secs() as i64
}

fn thread(id: &str, title: &str, status: &str, updated_at: i64) -> ThreadSummary {
    ThreadSummary { id: id.into(), title: title.into(), status: status.into(), updated_at, path: None }
}

fn row(id: &str, title: &str, status: TaskStatus, updated_at: i64) -> TaskSummary {
    TaskSummary {
        id: id.into(),
        title: title.into(),
        activity: None,
        waiting_reason: None,
        approval_request_id: None,
        status,
        token_count: None,
        updated_at,
        acknowledged: false,
        source: None,
        turn_id: None,
        received_at: updated_at,
    }
}

fn approval_event(title: &str) -> NormalizedTaskEvent {
    NormalizedTaskEvent {
        id: "thread-approval".into(),
        turn_id: Some("turn-approval".into()),
        item_id: Some("item-approval".into()),
        request_id: Some("41".into()),
        resolved_request_id: None,
        title: title.into(),
        waiting_reason: Some("需要批准命令".into()),
        approval_request_id: Some("41".into()),
        waiting_for_user: true,
        running: false,
        completed: false,
        token_count: None,
        updated_at: 100,
    }
}

#[test]
fn sync_intervals_match_product_contract() {
    let intervals = SyncIntervals::default();
    assert_eq!(intervals.task, Duration::from_secs(1));
    assert_eq!(intervals.metrics, Duration::from_secs(15));
    assert_eq!(intervals.full, Duration::from_secs(120));
}

#[test]
fn token_and_rate_limit_notifications_trigger_metrics_refresh() {
    assert!(is_metrics_notification("thread/tokenUsage/updated"));
    assert!(is_metrics_notification("account/rateLimits/updated"));
    assert!(!is_metrics_notification("turn/started"));
}

#[test]
fn rollout_text_recovers_approval_for_an_active_thread() {
    let now = chrono_like_now();
    let text = r#"{"type":"event_msg","payload":{"type":"approval_required","reason":"需要确认"}}"#;
    let rollout = ThreadRollout {
        status: rollout_status_from_tail(text, false, now, now),
        activity: extract_rollout_user_activity(text),
    };
    let mut summary = thread("thread-approval", "任务", "active", now);
    summary.path = Some("rollout.jsonl".into());
    let task = map_threads(vec![summary], now, vec![rollout]);
    assert_eq!(task[0].status, TaskStatus::NeedsAction);
}

#[test]
fn rollout_activity_skips_injected_context_and_uses_actual_request() {
    let input = r###"
{"type":"response_item","payload":{"type":"message","role":"user","content":[{"type":"input_text","text":"<recommended_plugins>\n- Cloudflare\n</recommended_plugins>"},{"type":"input_text","text":"# AGENTS.md instructions\n<INSTRUCTIONS>...</INSTRUCTIONS>"},{"type":"input_text","text":"<environment_context>...</environment_context>"},{"type":"input_text","text":"\n# Files mentioned by the user:\n\n## My request:\n请修复任务标题识别问题，并重新打包。"}]}}
"###;
    assert_eq!(extract_rollout_user_activity(input).as_deref(), Some("请修复任务标题识别问题，并重新打包"));
}

#[test]
fn rollout_activity_uses_the_latest_user_request() {
    let input = r#"
{"type":"response_item","payload":{"type":"message","role":"user","content":"先检查项目"}}
{"type":"response_item","payload":{"type":"message","role":"user","content":"现在修复任务显示"}}
"#;
    assert_eq!(extract_rollout_user_activity(input).as_deref(), Some("现在修复任务显示"));
}

#[test]
fn thread_title_does_not_expose_injected_plugin_context() {
    let threads = map_threads(
        vec![thread(
            "thread-plugin-context",
            "<recommended_plugins>\n- Cloudflare\n</recommended_plugins>",
            "active",
            chrono_like_now(),
        )],
        chrono_like_now(),
        Vec::new(),
    );
    assert_eq!(threads[0].title, "Codex 对话");

    let threads = map_threads(
        vec![thread(
            "thread-delegation-context",
            "<codex_delegation>\n任务上下文\n</codex_delegation>",
            "active",
            chrono_like_now(),
        )],
        chrono_like_now(),
        Vec::new(),
    );
    assert_eq!(threads[0].title, "Codex 对话");
}

#[test]
fn recent_idle_thread_is_metadata_only_until_a_stop_event() {
    let now = chrono_like_now();
    let tasks = map_threads(vec![thread("thread-completed", "已完成任务", "idle", now)], now, Vec::new());
    assert!(tasks.is_empty());
}

#[test]
fn not_loaded_thread_is_not_falsely_marked_completed() {
    let now = chrono_like_now();
    let tasks = map_threads(vec![thread("thread-not-loaded", "未加载任务", "notLoaded", now)], now, Vec::new());
    assert!(tasks.is_empty());
}

#[test]
fn approval_event_marks_the_thread_red_with_reason_and_request_id() {
    let mut snapshot = empty_snapshot();
    apply_task_event(&mut snapshot, approval_event("Codex 任务"), 100);
    assert_eq!(snapshot.tasks[0].status, TaskStatus::NeedsAction);
    assert_eq!(snapshot.tasks[0].waiting_reason.as_deref(), Some("需要批准命令"));
    assert_eq!(snapshot.tasks[0].approval_request_id.as_deref(), Some("41"));
}

#[test]
fn keeps_approval_state_when_thread_list_still_says_active() {
    let mut waiting = row("thread-1", "需要确认", TaskStatus::NeedsAction, 100);
    waiting.waiting_reason = Some("需要批准".into());
    waiting.approval_request_id = Some("req-1".into());
    let previous = vec![waiting];
    let polled = vec![row("thread-1", "需要确认", TaskStatus::Running, 101)];
    let merged = merge_polled_tasks(&previous, polled, 101);
    assert_eq!(merged[0].status, TaskStatus::NeedsAction);
}

#[test]
fn retains_recent_event_tasks_missing_from_thread_list() {
    let previous = vec![
        row("thread-1", "任务一", TaskStatus::Running, 100),
        row("thread-2", "任务二", TaskStatus::Running, 100),
    ];
    let polled = vec![row("thread-1", "任务一", TaskStatus::Running, 101)];
    let merged = merge_polled_tasks(&previous, polled, 101);
    assert_eq!(merged.len(), 2);
    assert!(merged.iter().any(|task| task.id == "thread-2"));
}

#[test]
fn rollout_tasks_are_merged_into_the_same_compact_source() {
    let polled = vec![row("thread-1", "旧标题", TaskStatus::Running, 100)];
    let mut first = row("thread-1", "Codex 对话", TaskStatus::NeedsAction, 101);
    first.activity = Some("用户第一句话".into());
    first.waiting_reason = Some("等待确认".into());
    first.token_count = Some(42);
    first.source = Some("history".into());
    let mut second = row("thread-2", "并行任务", TaskStatus::Running, 102);
    second.activity = Some("并行任务内容".into());
    second.token_count = Some(7);
    second.source = Some("history".into());
    let merged = merge_rollout_tasks(polled, vec![first, second]);
    assert_eq!(merged.len(), 1);
    assert_eq!(merged[0].status, TaskStatus::Running);
    assert_eq!(merged[0].title, "旧标题");
    assert_eq!(merged[0].activity.as_deref(), Some("用户第一句话"));
}

#[test]
fn keeps_approval_state_when_a_running_event_arrives_before_decision() {
    let mut snapshot = empty_snapshot();
    apply_task_event(&mut snapshot, approval_event("需要确认"), 100);
    apply_task_event(
        &mut snapshot,
        NormalizedTaskEvent {
            id: "thread-approval".into(),
            turn_id: Some("turn-approval".into()),
            item_id: Some("item-approval".into()),
            request_id: None,
            resolved_request_id: None,
            title: "需要确认".into(),
            waiting_reason: None,
            approval_request_id: None,
            waiting_for_user: false,
            running: true,
            completed: false,
            token_count: None,
            updated_at: 101,
        },
        101,
    );
    assert_eq!(snapshot.tasks[0].status, TaskStatus::NeedsAction);
    assert_eq!(snapshot.tasks[0].approval_request_id.as_deref(), Some("41"));
}

#[test]
fn thread_titles_keep_the_first_sentence() {
    assert_eq!(clean_thread_title("  修复任务同步问题。补充测试").as_deref(), Some("修复任务同步问题"));
    assert_eq!(clean_thread_title("<environment_context>x</environment_context>"), None);
    assert!(is_generated_context("  # AGENTS.md instructions"));
    assert!(!is_generated_context("plain request"));
}

#[test]
fn stale_rollout_states_expire() {
    let text = r#"{"type":"event_msg","payload":{"type":"task_complete"}}"#;
    assert_eq!(rollout_status_from_tail(text, false, 0, 21600), Some(TaskStatus::Completed));
    assert_eq!(rollout_status_from_tail(text, false, 0, 21601), None);
    let running = r#"{"type":"turn_context"}"#;
    assert_eq!(rollout_status_from_tail(running, false, 0, 180), Some(TaskStatus::Running));
    assert_eq!(rollout_status_from_tail(running, false, 0, 181), None);
    let cut = "ext\":1}\n{\"type\":\"turn_context\"}";
    assert_eq!(rollout_status_from_tail(cut, true, 0, 0), Some(TaskStatus::Running));
    assert_eq!(rollout_status_from_tail("{\"type\":\"turn_context\"}", true, 0, 0), None);
}

fn quota(percent: u8) -> codex_quota::codex_protocol::RateLimitResponse {
    codex_quota::codex_protocol::RateLimitResponse {
        remaining_percent: Some(percent),
        resets_at: Some(1_800_000_000),
        five_hour_remaining_percent: Some(90),
        five_hour_resets_at: Some(1_790_000_000),
        plan: Some("plus".to_string()),
        reset_credits: Some(1),
    }
}

fn tokens(n: u64, date: &str) -> codex_quota::codex_protocol::UsageResponse {
    codex_quota::codex_protocol::UsageResponse { today_tokens: Some(n), usage_date: Some(date.to_string()) }
}

#[test]
fn usage_failure_still_publishes_the_new_quota() {
    let mut previous = empty_snapshot();
    previous.today_tokens = Some(1234);
    previous.usage_date = Some("2026-09-13".to_string());
    previous.quota_remaining_percent = Some(40);
    let r = poll_outcome(
        &previous,
        Ok(quota(35)),
        Err(codex_quota::codex_client::CodexError::Timeout),
        Vec::new(),
        1_000,
    );
    assert_eq!(r.quota_remaining_percent, Some(35));
    assert_eq!(r.five_hour_remaining_percent, Some(90));
    assert_eq!(r.today_tokens, Some(1234));
    assert_eq!(r.usage_date.as_deref(), Some("2026-09-13"));
    assert_eq!(r.error.as_deref(), Some("额度可用、用量稍后重试"));
    assert_eq!(r.fetched_at, Some(1_000));
    assert_eq!(r.status, codex_quota::domain::DataStatus::Fresh);
}

#[test]
fn both_reads_give_a_fresh_poll_and_a_quota_failure_keeps_the_old_data() {
    let mut previous = empty_snapshot();
    previous.quota_remaining_percent = Some(40);
    let ok = poll_outcome(&previous, Ok(quota(35)), Ok(tokens(99, "2026-09-14")), Vec::new(), 1_000);
    assert_eq!(ok.today_tokens, Some(99));
    assert_eq!(ok.error, None);
    let failed = poll_outcome(
        &previous,
        Err(codex_quota::codex_client::CodexError::Response("login required".to_string())),
        Ok(tokens(99, "2026-09-14")),
        Vec::new(),
        1_000,
    );
    assert_eq!(failed.quota_remaining_percent, Some(40));
    assert_eq!(failed.today_tokens, previous.today_tokens);
    assert_eq!(failed.error.as_deref(), Some("Codex 未登录，请先在 Codex 中登录"));
}

#[test]
fn metrics_rounds_keep_the_quota_when_usage_fails_and_drop_a_failed_quota() {
    let mut previous = empty_snapshot();
    previous.today_tokens = Some(7);
    let partial = metrics_outcome(
        &previous,
        Ok(quota(12)),
        Err(codex_quota::codex_client::CodexError::Timeout),
        2_000,
        true,
        "metrics-poll",
    )
    .unwrap();
    assert_eq!(partial.quota_remaining_percent, Some(12));
    assert_eq!(partial.today_tokens, Some(7));
    assert_eq!(partial.error.as_deref(), Some("额度可用、用量稍后重试"));
    let full = metrics_outcome(&previous, Ok(quota(12)), Ok(tokens(8, "d")), 2_000, true, "metrics-poll").unwrap();
    assert_eq!(full.today_tokens, Some(8));
    assert_eq!(full.error, None);
    assert!(metrics_outcome(
        &previous,
        Err(codex_quota::codex_client::CodexError::Timeout),
        Ok(tokens(8, "d")),
        2_000,
        true,
        "metrics-poll"
    )
    .is_none());
}

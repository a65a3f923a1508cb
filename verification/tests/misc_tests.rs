use codex_quota::codex_client::CodexError;
use codex_quota::commands::{
    codex_binary_candidates, first_existing, BinaryCandidate,
    connect_failed_snapshot, disconnected_snapshot, manual_refresh_stamp, next_retry_secs, route_approval,
    unconfirmed_cache, ApprovalRoute,
};
use codex_quota::diagnostics::{classify, diagnostic, stamp, DiagnosticCategory};
use codex_quota::domain::{DataStatus, TaskStatus, TaskSummary};
use codex_quota::hook_diagnostics::{log_tail_start, record};
use codex_quota::snapshot_cache::{restore, should_cache};
use codex_quota::snapshot_store::empty_snapshot;

fn waiting(id: &str, request: Option<&str>) -> TaskSummary {
    TaskSummary {
        id: id.into(),
        title: "任务".into(),
        activity: None,
        waiting_reason: Some("需要确认".into()),
        approval_request_id: request.map(str::to_owned),
        status: TaskStatus::NeedsAction,
        token_count: None,
        updated_at: 1,
        acknowledged: false,
        source: Some("hook".into()),
        turn_id: Some("turn".into()),
        received_at: 1,
    }
}

#[test]
fn messages_are_short_and_redacted() {
    let diagnostic = diagnostic(DiagnosticCategory::ProtocolMismatch, "1.0");
    let text = format!("{:?}", diagnostic);
    assert!(!text.contains("token"));
    assert_eq!(DiagnosticCategory::Timeout.message(), "读取 Codex 数据超时");
}

#[test]
fn backend_usage_timeout_is_not_reported_as_protocol_mismatch() {
    assert_eq!(
        classify(&CodexError::Response("{\"message\":\"token usage profile fetch timed out\"}".into())),
        DiagnosticCategory::Timeout
    );
    assert_eq!(
        classify(&CodexError::Response("connection reset by peer".into())),
        DiagnosticCategory::NetworkUnavailable
    );
    assert_eq!(classify(&CodexError::Response("method not found".into())), DiagnosticCategory::ProtocolMismatch);
}

#[test]
fn any_connection_error_is_a_network_error() {
    assert_eq!(classify(&CodexError::Response("connection".into())), DiagnosticCategory::NetworkUnavailable);
    assert_eq!(
        classify(&CodexError::Response("Connection closed before message completed".into())),
        DiagnosticCategory::NetworkUnavailable
    );
    assert_eq!(classify(&CodexError::Response("request TIMEOUT".into())), DiagnosticCategory::Timeout);
    assert_eq!(classify(&CodexError::Response("connection timed out".into())), DiagnosticCategory::Timeout);
    assert_eq!(classify(&CodexError::Response("Connection refused".into())), DiagnosticCategory::NetworkUnavailable);
    assert_eq!(classify(&CodexError::Response("login required; connection".into())), DiagnosticCategory::NotLoggedIn);
}

#[test]
fn clock_readings_become_time_stamps() {
    assert_eq!(stamp(Some(1_700_000_000)), 1_700_000_000);
    assert_eq!(stamp(None), 0);
}

#[test]
fn approvals_go_to_the_hook_or_the_app_server() {
    let tasks = vec![waiting("a", Some("hook:1")), waiting("b", Some("7")), waiting("c", None)];
    assert_eq!(route_approval(&tasks, "a", "accept"), Ok(ApprovalRoute::Hook("hook:1".into())));
    assert_eq!(route_approval(&tasks, "b", "decline"), Ok(ApprovalRoute::AppServer("7".into())));
    assert_eq!(route_approval(&tasks, "c", "accept"), Err("任务当前没有待处理的批准请求".into()));
    assert_eq!(route_approval(&tasks, "a", "later"), Err("批准决定无效".into()));
}

#[test]
fn cached_tasks_are_not_shown_as_live() {
    let mut cached = empty_snapshot();
    cached.tasks = vec![waiting("a", Some("hook:1"))];
    cached.active_task_count = 1;
    let shown = unconfirmed_cache(cached);
    assert_eq!(shown.tasks[0].status, TaskStatus::Inactive);
    assert!(shown.tasks[0].approval_request_id.is_none());
    assert_eq!(shown.active_task_count, 0);
    assert_eq!(shown.task_counts.none, 1);
    assert_eq!(shown.source.as_deref(), Some("cache-unconfirmed"));
}

#[test]
fn reconnect_waits_double_up_to_thirty_seconds() {
    assert_eq!(next_retry_secs(2), 4);
    assert_eq!(next_retry_secs(8), 16);
    assert_eq!(next_retry_secs(16), 30);
    assert_eq!(next_retry_secs(30), 30);
}

#[test]
fn connection_snapshots_say_what_happened() {
    let s = disconnected_snapshot(empty_snapshot());
    assert_eq!(s.status, DataStatus::Stale);
    assert_eq!(s.error.as_deref(), Some("Codex app-server 已断开，正在重连…"));
    let f = connect_failed_snapshot(empty_snapshot(), "boom");
    assert_eq!(f.status, DataStatus::Error);
    assert_eq!(f.error.as_deref(), Some("无法连接 Codex app-server，正在重试… (boom)"));
    let m = manual_refresh_stamp(empty_snapshot(), 9);
    assert_eq!(m.changed_at, Some(9));
    assert_eq!(m.source.as_deref(), Some("manual-refresh"));
}

#[test]
fn hook_records_cut_long_errors() {
    let long = "错".repeat(200);
    let r = record("Stop", Some("s"), None, 5, 500, false, Some(&long));
    assert_eq!(r.received_count, 1);
    let last = r.last.unwrap();
    assert_eq!(last.error.unwrap().chars().count(), 160);
    assert_eq!(last.http_status, Some(500));
    assert_eq!(last.session_id.as_deref(), Some("s"));
}

#[test]
fn hook_log_keeps_whole_lines() {
    let bytes = b"aaaa\nbbbb\ncccc\n";
    assert_eq!(log_tail_start(bytes, 100), 5);
    assert_eq!(log_tail_start(bytes, 8), 10);
    assert_eq!(log_tail_start(b"abcdef", 3), 3);
}

#[test]
fn cache_keeps_only_fresh_reads() {
    let mut s = empty_snapshot();
    assert!(!should_cache(&s));
    s.status = DataStatus::Fresh;
    assert!(!should_cache(&s));
    s.fetched_at = Some(100);
    assert!(should_cache(&s));
    s.quota_remaining_percent = Some(72);
    let restored = restore(s.clone()).unwrap();
    assert_eq!(restored.status, DataStatus::Stale);
    assert_eq!(restored.quota_remaining_percent, Some(72));
    assert!(restored.error.as_deref().unwrap().contains("上次成功数据"));
    s.schema_version = "0.9".into();
    assert!(restore(s).is_none());
}

fn shown(c: &BinaryCandidate) -> (String, Option<String>) {
    (c.base.clone(), c.join.clone())
}

#[test]
fn windows_prefers_the_override_then_the_npm_binary_then_path() {
    let candidates = codex_binary_candidates(
        Some("D:\\tools\\codex.exe".to_string()),
        vec!["C:\\bin".to_string()],
        Some("C:\\Users\\me\\AppData\\Roaming".to_string()),
        Some("C:\\Users\\me".to_string()),
        true,
        false,
    );
    let listed: Vec<(String, Option<String>)> = candidates.iter().map(shown).collect();
    assert_eq!(
        listed,
        vec![
            ("D:\\tools\\codex.exe".to_string(), None),
            (
                "C:\\Users\\me\\AppData\\Roaming".to_string(),
                Some("npm/node_modules/@openai/codex/node_modules/@openai/codex-win32-x64/vendor/x86_64-pc-windows-msvc/bin/codex.exe".to_string())
            ),
            ("C:\\bin".to_string(), Some("codex.exe".to_string())),
            ("codex.exe".to_string(), None),
        ]
    );
    let npm_only = first_existing(&candidates, &vec![false, true, true, false]);
    assert_eq!(npm_only.base, "C:\\Users\\me\\AppData\\Roaming");
    let nothing = first_existing(&candidates, &vec![false, false, false, false]);
    assert_eq!(shown(&nothing), ("codex.exe".to_string(), None));
}

#[test]
fn other_systems_look_in_path_then_their_own_places() {
    let linux = codex_binary_candidates(None, vec!["/usr/bin".into()], Some("x".into()), Some("/home/me".into()), false, false);
    let listed: Vec<(String, Option<String>)> = linux.iter().map(shown).collect();
    assert_eq!(listed, vec![("/usr/bin".to_string(), Some("codex".to_string())), ("codex".to_string(), None)]);
    let mac = codex_binary_candidates(None, vec![], None, Some("/Users/me".into()), false, true);
    assert_eq!(mac.len(), 11);
    assert_eq!(shown(&mac[6]), ("/Users/me".to_string(), Some(".local/bin/codex".to_string())));
    assert_eq!(shown(&mac[8]), ("/opt/homebrew/bin/codex".to_string(), None));
}

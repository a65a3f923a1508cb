use codex_quota::domain::TaskStatus;
use codex_quota::json::read_json;
use codex_quota::rollout_watcher::{
    clean_user_text, is_approval_event_exec, is_completion_event_exec, is_inactive_event_exec,
    is_running_event_exec, load_session_titles, parse_lines, select_files, session_id_from_filename,
    task_of_file, FileState, RolloutWatcher,
};

#[test]
fn extracts_title_without_assigning_status() {
    let input = r#"{"type":"session_meta","payload":{"session_id":"thread-1"}}
{"type":"response_item","payload":{"type":"message","role":"user","content":[{"type":"input_text","text":"修复任务同步问题。补充测试"}]}}
{"type":"event_msg","payload":{"type":"agent_reasoning","text":"working"}}"#;
    let watcher = RolloutWatcher::new(String::new());
    let mut state = FileState::fresh();
    parse_lines(input, &mut state, 100);
    assert_eq!(state.session_id.as_deref(), Some("thread-1"));
    assert_eq!(state.activity.as_deref(), Some("修复任务同步问题"));
    assert!(watcher.task_for("anything", None, 100).is_none());
}

#[test]
fn approval_text_is_metadata_only() {
    let input = r#"{"type":"event_msg","payload":{"type":"approval_required","reason":"需要确认命令"}}"#;
    let mut state = FileState::fresh();
    parse_lines(input, &mut state, 100);
    assert_eq!(state.waiting_reason.as_deref(), Some("需要确认命令"));
}

#[test]
fn generated_context_does_not_become_title() {
    let input = r#"{"type":"response_item","payload":{"type":"message","role":"user","content":"<recommended_plugins>ignored</recommended_plugins>"}}"#;
    let mut state = FileState::fresh();
    parse_lines(input, &mut state, 100);
    assert!(state.activity.is_none());
    assert!(read_json(input).is_some());
}

#[test]
fn aborted_turn_is_not_a_task_title_or_running_state() {
    let input = r#"{"type":"response_item","payload":{"type":"message","role":"user","content":[{"type":"input_text","text":"<turn_aborted>\nThe user interrupted the previous turn on purpose.\n</turn_aborted>"}]}}
{"type":"event_msg","payload":{"type":"turn_aborted","turn_id":"turn-1","reason":"interrupted"}}"#;
    let mut state = FileState::fresh();
    parse_lines(input, &mut state, 100);
    assert!(state.activity.is_none());
    assert_eq!(state.status, TaskStatus::Inactive);
}

#[test]
fn filename_uuid_can_restore_the_session_title_key() {
    assert_eq!(
        session_id_from_filename("rollout-2026-08-24T02-00-00-019fa48f-133b-74e3-9d12-21ff503fa1f9").as_deref(),
        Some("019fa48f-133b-74e3-9d12-21ff503fa1f9")
    );
    assert_eq!(session_id_from_filename("rollout-a"), None);
}

#[test]
fn scan_discovers_multiple_sessions_and_reads_appended_lines() {
    let now = std::time::SystemTime::now().duration_since(std::time::UNIX_EPOCH).unwrap().as_secs() as i64;
    let first = format!(
        "{{\"timestamp\":{now},\"type\":\"session_meta\",\"payload\":{{\"session_id\":\"a\"}}}}\n{{\"timestamp\":{now},\"type\":\"response_item\",\"payload\":{{\"type\":\"message\",\"role\":\"user\",\"content\":\"任务 A\"}}}}\n{{\"timestamp\":{now},\"type\":\"event_msg\",\"payload\":{{\"type\":\"agent_reasoning\"}}}}\n"
    );
    let second = format!(
        "{{\"timestamp\":{now},\"type\":\"session_meta\",\"payload\":{{\"session_id\":\"b\"}}}}\n{{\"timestamp\":{now},\"type\":\"event_msg\",\"payload\":{{\"type\":\"approval_required\",\"reason\":\"等待确认\"}}}}\n"
    );
    let mut watcher = RolloutWatcher::new("sessions".into());
    watcher.set_titles(None);
    let paths = select_files(vec![("a.jsonl".into(), now), ("b.jsonl".into(), now)], now);
    assert_eq!(paths.len(), 2);
    let mut tasks = Vec::new();
    for (path, text) in [("a.jsonl", &first), ("b.jsonl", &second)] {
        let plan = watcher.begin_read(path, text.len() as u64, now);
        assert_eq!(plan.head, None);
        assert_eq!(plan.from, Some(0));
        watcher.absorb(path, text, text.len() as u64, now);
        tasks.extend(watcher.task_for(path, Some(path.trim_end_matches(".jsonl")), now));
    }
    assert_eq!(tasks.len(), 2);
    assert!(tasks.iter().any(|task| task.id == "a" && task.status == TaskStatus::Running));
    assert!(tasks.iter().any(|task| task.id == "b" && task.status == TaskStatus::NeedsAction));
    let appended = format!("{{\"timestamp\":{now},\"type\":\"event_msg\",\"payload\":{{\"type\":\"task_complete\"}}}}\n");
    let plan = watcher.begin_read("a.jsonl", (first.len() + appended.len()) as u64, now);
    assert_eq!(plan.from, Some(first.len() as u64));
    watcher.absorb("a.jsonl", &appended, (first.len() + appended.len()) as u64, now);
    assert_eq!(watcher.task_for("a.jsonl", Some("a"), now).map(|task| task.status), Some(TaskStatus::Completed));
}

#[test]
fn record_kinds_are_recognised() {
    assert!(is_approval_event_exec("event_msg", "exec_approval_request"));
    assert!(!is_approval_event_exec("turn_context", "approval"));
    assert!(is_completion_event_exec("event_msg", "task_complete"));
    assert!(is_inactive_event_exec("event_msg", "turn_aborted"));
    assert!(is_running_event_exec("turn_context", ""));
    assert!(is_running_event_exec("response_item", "function_call"));
    assert!(!is_running_event_exec("response_item", "message"));
}

#[test]
fn user_text_drops_injected_context() {
    assert_eq!(clean_user_text("  ctx\n## My request:\n  做这件事  ").as_deref(), Some("做这件事"));
    assert_eq!(clean_user_text("<turn_aborted>x"), None);
    assert_eq!(clean_user_text("   "), None);
}

#[test]
fn titles_come_from_the_session_index() {
    let titles = load_session_titles(
        "{\"id\":\"s1\",\"thread_name\":\"第一\"}\nnot json\n{\"session_id\":\"s2\",\"title\":\"<codex_x>\"}\n{\"id\":\"s1\",\"name\":\"第二\"}",
    );
    assert_eq!(titles, vec![("s1".to_owned(), "第一".to_owned()), ("s1".to_owned(), "第二".to_owned())]);
    let mut state = FileState::fresh();
    parse_lines("{\"type\":\"event_msg\",\"payload\":{\"type\":\"token_count\",\"token_count\":5}}", &mut state, 10);
    state.session_id = Some("s1".into());
    let task = task_of_file(&state, &titles, None, 10).unwrap();
    assert_eq!(task.title, "第二");
    assert_eq!(task.token_count, Some(5));
    assert_eq!(task.source.as_deref(), Some("local-session"));
}

#[test]
fn long_new_files_are_read_from_head_and_tail() {
    let mut state = FileState::fresh();
    let plan = state.plan_read(1_000_000);
    assert_eq!(plan.head, Some(131072));
    assert_eq!(plan.from, Some(1_000_000 - 786432));
    assert_eq!(state.offset, 0);
    state.offset = 1_000_000;
    state.token_count = Some(3);
    let shrunk = state.plan_read(10);
    assert_eq!(shrunk.head, None);
    assert_eq!(shrunk.from, Some(0));
    assert_eq!(state.offset, 0);
    assert_eq!(state.token_count, None);
}

#[test]
fn a_failed_read_is_tried_again() {
    let now = 1_000;
    let text = "{\"type\":\"event_msg\",\"payload\":{\"type\":\"token_count\",\"token_count\":4}}\n";
    let mut watcher = RolloutWatcher::new("sessions".into());
    let plan = watcher.begin_read("a.jsonl", text.len() as u64, now);
    assert_eq!(plan.from, Some(0));
    // The read failed: nothing was taken in, so the next round plans the same read.
    let again = watcher.begin_read("a.jsonl", text.len() as u64, now);
    assert_eq!(again.from, Some(0));
    watcher.absorb("a.jsonl", text, text.len() as u64, now);
    assert_eq!(watcher.begin_read("a.jsonl", text.len() as u64, now).from, None);
}

#[test]
fn quiet_files_keep_only_the_newest() {
    let picked = select_files(vec![("old".into(), 0), ("newer".into(), 50)], 100_000);
    assert_eq!(picked, vec!["newer".to_owned()]);
    assert!(select_files(Vec::new(), 0).is_empty());
}

#[test]
fn a_user_message_about_approval_does_not_turn_red() {
    let input = r#"{"type":"response_item","payload":{"type":"message","role":"user","content":"请批准这个 approval 请求"}}"#;
    let mut state = FileState::fresh();
    parse_lines(input, &mut state, 100);
    assert_eq!(state.status, TaskStatus::Running);
    assert!(state.waiting_reason.is_none());
}

#[test]
fn record_times_may_be_rfc3339() {
    let input = r#"{"timestamp":"2026-08-24T02:00:00Z","type":"event_msg","payload":{"type":"token_count","token_count":3}}"#;
    let mut state = FileState::fresh();
    parse_lines(input, &mut state, 5);
    assert_eq!(state.token_count, Some(3));
    assert_eq!(state.updated_at, 1787536800);
    let mut other = FileState::fresh();
    parse_lines(r#"{"timestamp":"yesterday","type":"event_msg","payload":{"type":"token_count","token_count":3}}"#, &mut other, 5);
    assert_eq!(other.updated_at, 5);
}

#[test]
fn session_ids_are_the_uuids_the_parser_accepts() {
    assert_eq!(
        session_id_from_filename("rollout-x-019FA48F-133B-74E3-9D12-21FF503FA1F9").as_deref(),
        Some("019FA48F-133B-74E3-9D12-21FF503FA1F9")
    );
    assert_eq!(session_id_from_filename("rollout-x-019fa48g-133b-74e3-9d12-21ff503fa1f9"), None);
    assert_eq!(session_id_from_filename("rollout-x-019fa48f-133b-74e3-9d12-21ff503fa1f"), None);
}

use codex_quota::codex_client::{classify_incoming, is_valid_decision, Incoming};
use codex_quota::codex_protocol::{
    parse_event_line, parse_rate_limits, parse_threads, parse_usage, usage_from_json, ProtocolError,
};
use codex_quota::json::{read_json, JsonValue};

#[test]
fn labels_the_actual_usage_bucket_date() {
    let usage = parse_usage(
        r#"{"dailyUsageBuckets":[{"startDate":"2026-08-10","tokens":10},{"startDate":"2026-08-11","tokens":42}]}"#,
    )
    .unwrap();
    assert_eq!(usage.today_tokens, Some(42));
    assert_eq!(usage.usage_date.as_deref(), Some("2026-08-11"));
}

#[test]
fn parses_thread_list_for_task_status() {
    let threads = parse_threads(
        r#"{"data":[{"id":"t1","name":"当前任务","status":{"type":"active"},"updatedAt":1786478441,"path":"C:\\codex\\task.jsonl"}]}"#,
    )
    .unwrap();
    assert_eq!(threads[0].id, "t1");
    assert_eq!(threads[0].status, "active");
}

#[test]
fn parses_string_thread_status_without_downgrading_to_not_loaded() {
    let threads =
        parse_threads(r#"{"data":[{"id":"t2","name":"外部任务","status":"active","updatedAt":1786478441}]}"#)
            .unwrap();
    assert_eq!(threads[0].status, "active");
}

#[test]
fn parses_event_and_prioritises_waiting_state() {
    let event = parse_event_line(r#"{"id":"x","event":"approval_required","title":"授权","updated_at":12}"#).unwrap();
    assert!(event.waiting_for_user);
    assert_eq!(event.approval_request_id.as_deref(), Some("x"));
    assert!(!event.running);
}

#[test]
fn parses_current_app_server_thread_notification_shape() {
    let event =
        parse_event_line(r#"{"method":"turn/started","params":{"threadId":"thread-1","turn":{"id":"turn-1"}}}"#)
            .unwrap();
    assert_eq!(event.id, "thread-1");
    assert!(event.running);
}

#[test]
fn parses_thread_status_notification_shape() {
    let event = parse_event_line(
        r#"{"method":"thread/status/changed","params":{"threadId":"thread-1","status":{"type":"active"}}}"#,
    )
    .unwrap();
    assert_eq!(event.id, "thread-1");
    assert!(event.running);
    assert!(!event.completed);
}

#[test]
fn parses_command_approval_request_shape_as_needs_action() {
    let event = parse_event_line(
        r#"{"jsonrpc":"2.0","id":7,"method":"item/commandExecution/requestApproval","params":{"threadId":"thread-1","turnId":"turn-1","itemId":"item-1","command":"git push","cwd":"C:\\work","reason":"需要确认"}}"#,
    )
    .unwrap();
    assert_eq!(event.id, "thread-1");
    assert_eq!(event.turn_id.as_deref(), Some("turn-1"));
    assert_eq!(event.item_id.as_deref(), Some("item-1"));
    assert_eq!(event.request_id.as_deref(), Some("7"));
    assert_eq!(event.approval_request_id.as_deref(), Some("7"));
    assert_eq!(event.waiting_reason.as_deref(), Some("需要确认"));
    assert!(event.waiting_for_user);
    assert!(!event.running);
    assert!(!event.completed);
}

#[test]
fn parses_user_input_and_resolution_requests() {
    let request = parse_event_line(
        r#"{"jsonrpc":"2.0","id":8,"method":"item/tool/requestUserInput","params":{"threadId":"thread-2","turnId":"turn-2","itemId":"item-2","questions":[]}}"#,
    )
    .unwrap();
    assert_eq!(request.id, "thread-2");
    assert_eq!(request.approval_request_id.as_deref(), Some("8"));
    assert!(request.waiting_for_user);
    let resolved =
        parse_event_line(r#"{"method":"serverRequest/resolved","params":{"threadId":"thread-2","requestId":8}}"#)
            .unwrap();
    assert_eq!(resolved.id, "thread-2");
    assert_eq!(resolved.resolved_request_id.as_deref(), Some("8"));
}

#[test]
fn rejects_malformed_and_missing_payloads() {
    assert!(parse_rate_limits("not-json").is_err());
    assert!(parse_usage("{}").is_err());
}

#[test]
fn rate_limits_read_percentages_plans_and_credits() {
    let r = parse_rate_limits(
        r#"{"result":{"rateLimits":{"primary":{"usedPercent":28,"resetsAt":1786478441},"secondary":{"remainingPercent":62,"resetsAt":200},"planType":"Plus"},"rateLimitResetCredits":{"availableCount":1}}}"#,
    )
    .unwrap();
    assert_eq!(r.remaining_percent, Some(72));
    assert_eq!(r.resets_at, Some(1786478441));
    assert_eq!(r.five_hour_remaining_percent, Some(62));
    assert_eq!(r.five_hour_resets_at, Some(200));
    assert_eq!(r.plan.as_deref(), Some("Plus"));
    assert_eq!(r.reset_credits, Some(1));
}

#[test]
fn rate_limits_from_limit_and_use() {
    let r = parse_rate_limits(r#"{"rate_limit":{"limit":200,"used":50}}"#).unwrap();
    assert_eq!(r.remaining_percent, Some(75));
    assert_eq!(r.five_hour_remaining_percent, None);
    let over = parse_rate_limits(r#"{"primary":{"remaining_percent":250}}"#).unwrap();
    assert_eq!(over.remaining_percent, Some(100));
}

#[test]
fn rate_limits_without_anything_useful_are_missing_primary() {
    match parse_rate_limits(r#"{"credits":3}"#) {
        Err(ProtocolError::Missing(field)) => assert_eq!(field, "primary"),
        other => panic!("unexpected {other:?}"),
    }
    match parse_rate_limits(r#"{"primary":{"limit":18446744073709551615,"used":0}}"#) {
        Err(ProtocolError::Invalid(field)) => assert_eq!(field, "limit"),
        other => panic!("unexpected {other:?}"),
    }
    assert!(matches!(parse_rate_limits("[1"), Err(ProtocolError::Json(_))));
}

#[test]
fn usage_prefers_explicit_tokens_then_today() {
    let explicit = parse_usage(r#"{"result":{"todayTokens":128400}}"#).unwrap();
    assert_eq!(explicit.today_tokens, Some(128400));
    assert_eq!(explicit.usage_date, None);
    let doc = JsonValue::Object(
        vec![(
            "dailyUsageBuckets".to_owned(),
            JsonValue::Array(
                vec![
                    bucket("2026-08-12", 5),
                    bucket("2026-08-11", 42),
                ],
                String::new(),
            ),
        )],
        String::new(),
    );
    let today = usage_from_json(&doc, "2026-08-11").unwrap();
    assert_eq!(today.today_tokens, Some(42));
    let latest = usage_from_json(&doc, "2030-01-01").unwrap();
    assert_eq!(latest.today_tokens, Some(5));
    assert_eq!(latest.usage_date.as_deref(), Some("2026-08-12"));
    match parse_usage(r#"{"dailyUsageBuckets":[]}"#) {
        Err(ProtocolError::Missing(field)) => assert_eq!(field, "today_tokens"),
        other => panic!("unexpected {other:?}"),
    }
    match parse_usage("{}") {
        Err(ProtocolError::Missing(field)) => assert_eq!(field, "dailyUsageBuckets"),
        other => panic!("unexpected {other:?}"),
    }
}

fn bucket(date: &str, tokens: i128) -> JsonValue {
    JsonValue::Object(
        vec![
            ("startDate".to_owned(), JsonValue::Str(date.to_owned())),
            ("tokens".to_owned(), JsonValue::Number(Some(tokens), tokens.to_string())),
        ],
        String::new(),
    )
}

#[test]
fn thread_titles_fall_back_to_the_preview() {
    let threads = parse_threads(
        r#"{"data":[{"id":"a","preview":"\n  第一行  \n第二行","updated_at":-3},{"name":"no id"},{"id":"b"}]}"#,
    )
    .unwrap();
    assert_eq!(threads.len(), 2);
    assert_eq!(threads[0].title, "第一行");
    assert_eq!(threads[0].updated_at, -3);
    assert_eq!(threads[1].title, "Codex 任务");
    assert_eq!(threads[1].status, "notLoaded");
    match parse_threads(r#"{"items":[]}"#) {
        Err(ProtocolError::Missing(field)) => assert_eq!(field, "data"),
        other => panic!("unexpected {other:?}"),
    }
}

#[test]
fn events_without_a_thread_are_refused() {
    match parse_event_line(r#"{"method":"turn/started","params":{}}"#) {
        Err(ProtocolError::Missing(field)) => assert_eq!(field, "id"),
        other => panic!("unexpected {other:?}"),
    }
    let e = parse_event_line(r#"{"params":{"thread":{"id":"t","name":"名"},"tokenUsage":{"total":{"totalTokens":9}},"completed":true}}"#).unwrap();
    assert_eq!(e.id, "t");
    assert_eq!(e.title, "名");
    assert_eq!(e.token_count, Some(9));
    assert!(e.completed);
}

#[test]
fn incoming_lines_are_routed() {
    let request = parse(r#"{"id":5,"method":"item/fileChange/requestApproval","params":{}}"#);
    match classify_incoming(&request) {
        Incoming::Message { approval_key } => assert_eq!(approval_key.as_deref(), Some("5")),
        other => panic!("unexpected {other:?}"),
    }
    let note = parse(r#"{"method":"turn/started","params":{}}"#);
    assert!(matches!(classify_incoming(&note), Incoming::Message { approval_key: None }));
    let answer = parse(r#"{"id":3,"result":{}}"#);
    assert!(matches!(classify_incoming(&answer), Incoming::Response(3)));
    let other = parse(r#"{"id":"x"}"#);
    assert!(matches!(classify_incoming(&other), Incoming::Other));
    assert!(is_valid_decision("accept"));
    assert!(is_valid_decision("decline"));
    assert!(!is_valid_decision("maybe"));
}

fn parse(text: &str) -> JsonValue {
    read_json(text).unwrap()
}

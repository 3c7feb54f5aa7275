use proxyclawd::json::Json;
use proxyclawd::mcp::{
    apply_event, apply_ws_message, conversation_entry, conversation_groups, get_request,
    requests_url, resource_kind, resources, select_recent, select_requests, send_outcome, send_url,
    status_counts, summarize, truncate, ws_url, InterceptedRequest, ProxyEvent, ReconnectPolicy,
    RequestStatus, ResourceKind, WsMessage,
};
use proxyclawd::state::{self, AppState, Timestamp};

fn req(id: usize, conversation: &str, status: RequestStatus) -> InterceptedRequest {
    InterceptedRequest {
        id,
        timestamp: Timestamp { secs: 10, nanos: 0 },
        method: "POST".to_string(),
        path: "/v1/messages".to_string(),
        model: "m".to_string(),
        system_prompt: None,
        prompt_text: format!("prompt {id}"),
        response_text: String::new(),
        status,
        conversation_id: conversation.to_string(),
        message_count: id,
        is_tool_loop: false,
        is_user_initiated: id % 2 == 0,
        raw_messages: None,
    }
}

fn new_event(id: usize) -> ProxyEvent {
    ProxyEvent::NewRequest {
        id,
        timestamp: Timestamp { secs: 1, nanos: 2 },
        method: "POST".to_string(),
        path: "/v1/messages".to_string(),
        model: "m".to_string(),
        system_prompt: Some("sys".to_string()),
        prompt_text: "hi".to_string(),
        conversation_id: "c".to_string(),
        message_count: 3,
        is_tool_loop: true,
        is_user_initiated: false,
        raw_messages: Some(Json::Array(vec![])),
    }
}

#[test]
fn mirror_applies_events() {
    let mut rs = Vec::new();
    apply_event(&mut rs, new_event(1));
    apply_event(&mut rs, ProxyEvent::ResponseDelta { id: 1, text: "a".to_string() });
    apply_event(&mut rs, ProxyEvent::ResponseDelta { id: 1, text: "b".to_string() });
    assert_eq!(rs.len(), 1);
    assert_eq!(rs[0].response_text, "ab");
    assert!(rs[0].status == RequestStatus::Streaming);
    assert_eq!(rs[0].message_count, 3);
    assert!(rs[0].is_tool_loop);
    apply_event(&mut rs, ProxyEvent::ResponseComplete { id: 1 });
    assert!(rs[0].status == RequestStatus::Complete);
    apply_event(&mut rs, ProxyEvent::ResponseError { id: 1, error: "e".to_string() });
    assert!(rs[0].status == RequestStatus::Error("e".to_string()));
    apply_event(&mut rs, ProxyEvent::ResponseDelta { id: 42, text: "x".to_string() });
    assert_eq!(rs.len(), 1);
    assert_eq!(rs[0].response_text, "ab");
}

#[test]
fn snapshot_replaces_list() {
    let mut rs = vec![req(1, "a", RequestStatus::Pending)];
    apply_ws_message(&mut rs, WsMessage::Snapshot { requests: vec![req(5, "b", RequestStatus::Complete), req(6, "b", RequestStatus::Pending)] });
    assert_eq!(rs.iter().map(|r| r.id).collect::<Vec<_>>(), vec![5, 6]);
    apply_ws_message(&mut rs, WsMessage::Event { event: new_event(7) });
    assert_eq!(rs.len(), 3);
}

#[test]
fn get_request_finds_first() {
    let rs = vec![req(1, "a", RequestStatus::Pending), req(2, "a", RequestStatus::Pending)];
    assert_eq!(get_request(&rs, 2).unwrap().id, 2);
    assert!(get_request(&rs, 3).is_none());
}

fn sample() -> Vec<InterceptedRequest> {
    vec![
        req(1, "a", RequestStatus::Pending),
        req(2, "b", RequestStatus::Complete),
        req(3, "a", RequestStatus::Streaming),
        req(4, "c", RequestStatus::Error("x".to_string())),
        req(5, "b", RequestStatus::Complete),
    ]
}

#[test]
fn listing_is_newest_first_and_limited() {
    let rs = sample();
    assert_eq!(select_requests(&rs, None, None), vec![4, 3, 2, 1, 0]);
    assert_eq!(select_requests(&rs, None, Some(2)), vec![4, 3]);
    assert_eq!(select_requests(&rs, None, Some(0)), Vec::<usize>::new());
    assert_eq!(select_requests(&rs, Some("complete"), None), vec![4, 1]);
    assert_eq!(select_requests(&rs, Some("PENDING"), None), vec![0]);
    assert_eq!(select_requests(&rs, Some("Error"), None), vec![3]);
    assert_eq!(select_requests(&rs, Some("streaming"), Some(5)), vec![2]);
    assert_eq!(select_requests(&rs, Some("whatever"), Some(3)), vec![4, 3, 2]);
}

#[test]
fn listing_default_limit_is_fifty() {
    let rs: Vec<_> = (0..60).map(|i| req(i, "a", RequestStatus::Pending)).collect();
    let sel = select_requests(&rs, None, None);
    assert_eq!(sel.len(), 50);
    assert_eq!(sel[0], 59);
    assert_eq!(sel[49], 10);
}

#[test]
fn recent_events_since_and_count() {
    let rs = sample();
    assert_eq!(select_recent(&rs, Some(3), None), vec![4, 3]);
    assert_eq!(select_recent(&rs, None, Some(1)), vec![4]);
    let many: Vec<_> = (0..20).map(|i| req(i, "a", RequestStatus::Pending)).collect();
    assert_eq!(select_recent(&many, None, None).len(), 10);
}

#[test]
fn counts_by_status() {
    let c = status_counts(&sample());
    assert_eq!((c.total, c.pending, c.streaming, c.complete, c.errors), (5, 1, 1, 2, 1));
    assert_eq!(c.pending + c.streaming + c.complete + c.errors, c.total);
    let c = status_counts(&Vec::new());
    assert_eq!((c.total, c.pending, c.streaming, c.complete, c.errors), (0, 0, 0, 0, 0));
}

#[test]
fn groups_in_first_appearance_order() {
    let groups = conversation_groups(&sample());
    let got: Vec<(String, Vec<usize>)> = groups;
    assert_eq!(
        got,
        vec![
            ("a".to_string(), vec![0, 2]),
            ("b".to_string(), vec![1, 4]),
            ("c".to_string(), vec![3]),
        ]
    );
    assert!(conversation_groups(&Vec::new()).is_empty());
}

#[test]
fn truncate_adds_ellipsis() {
    assert_eq!(truncate("hello", 10), "hello");
    assert_eq!(truncate("hello", 5), "hello");
    assert_eq!(truncate("hello world", 5), "hello...");
    assert_eq!(truncate("h\u{e9}llo", 3), "h\u{e9}...");
    assert_eq!(truncate("", 0), "");
}

#[test]
fn summaries_and_entries() {
    let mut r = req(8, "conv", RequestStatus::Streaming);
    r.prompt_text = "p".repeat(120);
    r.response_text = "r".repeat(5);
    let s = summarize(&r, 100).unwrap();
    assert_eq!(s.id, 8);
    assert_eq!(s.prompt_preview, format!("{}...", "p".repeat(100)));
    assert_eq!(s.response_preview, "rrrrr");
    assert_eq!(s.conversation_id, "conv");
    assert!(s.status == RequestStatus::Streaming);
    assert!(s.is_user_initiated);
    let e = conversation_entry(&r, 80).unwrap();
    assert_eq!(e.prompt_preview, format!("{}...", "p".repeat(80)));
    assert_eq!(e.message_count, 8);
    // A cut inside a two-byte character is refused.
    r.prompt_text = format!("{}\u{e9}", "p".repeat(99));
    assert!(summarize(&r, 100).is_none());
    assert!(conversation_entry(&r, 100).is_none());
    assert!(conversation_entry(&r, 99).is_some());
}

#[test]
fn addresses() {
    assert_eq!(ws_url("http://127.0.0.1:3000"), "ws://127.0.0.1:3000/ws");
    assert_eq!(ws_url("https://example.com"), "wss://example.com/ws");
    assert_eq!(ws_url("http://a/http://b"), "ws://a/ws://b/ws");
    assert_eq!(requests_url("http://h:1"), "http://h:1/api/requests");
    assert_eq!(send_url("http://h:1"), "http://h:1/api/send");
}

#[test]
fn backoff_doubles_up_to_thirty() {
    let mut p = ReconnectPolicy::new();
    let delays: Vec<u64> = (0..7).map(|_| p.next_delay()).collect();
    assert_eq!(delays, vec![1, 2, 4, 8, 16, 30, 30]);
    p.on_connected();
    assert!(p.connected);
    assert_eq!(p.next_delay(), 1);
    p.on_closed();
    assert!(!p.connected);
    assert_eq!(p.backoff_secs, 2);
}

#[test]
fn send_outcomes() {
    assert_eq!(send_outcome(true, "200 OK", "done".to_string()), Ok("done".to_string()));
    assert_eq!(
        send_outcome(false, "404 Not Found", "nope".to_string()),
        Err("HTTP 404 Not Found: nope".to_string())
    );
}

#[test]
fn resource_names() {
    assert!(matches!(resource_kind("proxy://requests"), Some(ResourceKind::Requests)));
    assert!(matches!(resource_kind("proxy://status"), Some(ResourceKind::Status)));
    assert!(resource_kind("proxy://other").is_none());
    let rs = resources();
    assert_eq!(rs.len(), 2);
    assert_eq!(rs[0].uri, "proxy://requests");
    assert_eq!(rs[1].name, "Proxy Status");
}

#[test]
fn mirror_follows_view_state() {
    let mut view = AppState::new();
    let mut mirror = Vec::new();
    let steps: Vec<(state::ProxyEvent, ProxyEvent)> = vec![
        (
            state::ProxyEvent::NewRequest {
                id: 1,
                timestamp: Timestamp { secs: 1, nanos: 2 },
                method: "POST".to_string(),
                path: "/v1/messages".to_string(),
                model: "m".to_string(),
                system_prompt: Some("sys".to_string()),
                prompt_text: "hi".to_string(),
                is_user_initiated: false,
                raw_messages: None,
            },
            new_event(1),
        ),
        (
            state::ProxyEvent::ResponseDelta { id: 1, text: "a".to_string() },
            ProxyEvent::ResponseDelta { id: 1, text: "a".to_string() },
        ),
        (state::ProxyEvent::ResponseComplete { id: 1 }, ProxyEvent::ResponseComplete { id: 1 }),
        (
            state::ProxyEvent::ResponseError { id: 2, error: "e".to_string() },
            ProxyEvent::ResponseError { id: 2, error: "e".to_string() },
        ),
    ];
    for (e, m) in steps {
        view.apply_event(e);
        apply_event(&mut mirror, m);
        assert_eq!(view.requests.len(), mirror.len());
        for (a, b) in view.requests.iter().zip(mirror.iter()) {
            assert_eq!(a.id, b.id);
            assert_eq!(a.response_text, b.response_text);
            assert_eq!(a.prompt_text, b.prompt_text);
            assert_eq!(a.system_prompt, b.system_prompt);
            assert!(a.status == b.status);
        }
    }
}

#[test]
fn backoff_caps_any_delay() {
    let mut p = ReconnectPolicy::new();
    p.backoff_secs = u64::MAX;
    assert_eq!(p.next_delay(), u64::MAX);
    assert_eq!(p.backoff_secs, 30);
    p.backoff_secs = 15;
    p.next_delay();
    assert_eq!(p.backoff_secs, 30);
}

use proxyclawd::json::Json;
use proxyclawd::state::{
    extract_model, extract_prompt, extract_system, AppState, ProxyEvent, RequestStatus, Timestamp,
};

fn new_request(id: usize) -> ProxyEvent {
    ProxyEvent::NewRequest {
        id,
        timestamp: Timestamp { secs: 1_700_000_000, nanos: 5 },
        method: "POST".to_string(),
        path: "/v1/messages".to_string(),
        model: "sonnet".to_string(),
        system_prompt: None,
        prompt_text: format!("prompt {id}"),
        is_user_initiated: false,
        raw_messages: None,
    }
}

fn delta(id: usize, text: &str) -> ProxyEvent {
    ProxyEvent::ResponseDelta { id, text: text.to_string() }
}

#[test]
fn new_state_is_empty_and_follows_latest() {
    let st = AppState::new();
    assert!(st.requests.is_empty());
    assert_eq!(st.selected_index, 0);
    assert!(st.auto_select_latest);
    assert_eq!((st.response_scroll, st.prompt_scroll), (0, 0));
    assert!(st.selected_request().is_none());
}

#[test]
fn new_request_is_pending_and_selected() {
    let mut st = AppState::new();
    st.response_scroll = 7;
    st.apply_event(new_request(1));
    st.apply_event(new_request(2));
    assert_eq!(st.requests.len(), 2);
    assert_eq!(st.selected_index, 1);
    assert_eq!(st.response_scroll, 0);
    let r = &st.requests[1];
    assert_eq!(r.id, 2);
    assert_eq!(r.response_text, "");
    assert!(r.status == RequestStatus::Pending);
    assert_eq!(r.timestamp, Timestamp { secs: 1_700_000_000, nanos: 5 });
}

#[test]
fn new_request_without_follow_keeps_selection() {
    let mut st = AppState::new();
    st.apply_event(new_request(1));
    st.select_previous();
    st.apply_event(new_request(2));
    assert_eq!(st.selected_index, 0);
    assert!(!st.auto_select_latest);
}

#[test]
fn deltas_accumulate_in_order() {
    let mut st = AppState::new();
    st.apply_event(new_request(1));
    st.apply_event(new_request(2));
    st.apply_event(delta(1, "Hel"));
    st.apply_event(delta(1, "lo"));
    assert_eq!(st.requests[0].response_text, "Hello");
    assert!(st.requests[0].status == RequestStatus::Streaming);
    assert_eq!(st.requests[1].response_text, "");
    // Following activity selects the request that streams.
    assert_eq!(st.selected_index, 0);
}

#[test]
fn complete_and_error_set_status() {
    let mut st = AppState::new();
    st.apply_event(new_request(1));
    st.apply_event(new_request(2));
    st.apply_event(ProxyEvent::ResponseComplete { id: 1 });
    st.apply_event(ProxyEvent::ResponseError { id: 2, error: "boom".to_string() });
    assert!(st.requests[0].status == RequestStatus::Complete);
    assert!(st.requests[1].status == RequestStatus::Error("boom".to_string()));
}

#[test]
fn unknown_id_changes_nothing() {
    let mut st = AppState::new();
    st.apply_event(new_request(1));
    st.apply_event(delta(9, "x"));
    st.apply_event(ProxyEvent::ResponseComplete { id: 9 });
    assert_eq!(st.requests.len(), 1);
    assert_eq!(st.requests[0].response_text, "");
    assert!(st.requests[0].status == RequestStatus::Pending);
}

#[test]
fn duplicate_ids_update_the_first() {
    let mut st = AppState::new();
    st.apply_event(new_request(3));
    st.apply_event(new_request(3));
    st.apply_event(delta(3, "a"));
    assert_eq!(st.requests[0].response_text, "a");
    assert_eq!(st.requests[1].response_text, "");
}

#[test]
fn navigation_clamps_and_follows() {
    let mut st = AppState::new();
    st.select_next();
    assert_eq!(st.selected_index, 0);
    for id in 0..3 {
        st.apply_event(new_request(id));
    }
    st.select_previous();
    st.select_previous();
    st.select_previous();
    assert_eq!(st.selected_index, 0);
    assert!(!st.auto_select_latest);
    st.select_next();
    assert_eq!(st.selected_index, 1);
    assert!(!st.auto_select_latest);
    st.select_next();
    st.select_next();
    assert_eq!(st.selected_index, 2);
    assert!(st.auto_select_latest);
    assert_eq!(st.selected_request().unwrap().id, 2);
}

#[test]
fn scrolling_saturates() {
    let mut st = AppState::new();
    st.scroll_response_up(3);
    assert_eq!(st.response_scroll, 0);
    st.scroll_response_down(10);
    assert_eq!(st.response_scroll, 10);
    st.scroll_response_up(4);
    assert_eq!(st.response_scroll, 6);
    st.scroll_response_down(u16::MAX);
    assert_eq!(st.response_scroll, u16::MAX);
}

fn obj(members: Vec<(&str, Json)>) -> Json {
    Json::Object(members.into_iter().map(|(k, v)| (k.to_string(), v)).collect())
}

fn s(text: &str) -> Json {
    Json::Str(text.to_string())
}

fn text_block(t: &str) -> Json {
    obj(vec![("type", s("text")), ("text", s(t))])
}

#[test]
fn prompt_is_last_user_message() {
    let body = obj(vec![
        ("model", s("sonnet-x")),
        (
            "messages",
            Json::Array(vec![
                obj(vec![("role", s("user")), ("content", s("first"))]),
                obj(vec![("role", s("assistant")), ("content", s("reply"))]),
                obj(vec![
                    ("role", s("user")),
                    (
                        "content",
                        Json::Array(vec![
                            text_block("a"),
                            obj(vec![("type", s("image"))]),
                            text_block("b"),
                        ]),
                    ),
                ]),
                obj(vec![("role", s("assistant")), ("content", s("later"))]),
            ]),
        ),
    ]);
    assert_eq!(extract_prompt(&body), "a\nb");
    assert_eq!(extract_model(&body), "sonnet-x");
}

#[test]
fn prompt_empty_without_user_or_messages() {
    let no_user = obj(vec![(
        "messages",
        Json::Array(vec![obj(vec![("role", s("assistant")), ("content", s("x"))])]),
    )]);
    assert_eq!(extract_prompt(&no_user), "");
    assert_eq!(extract_prompt(&obj(vec![])), "");
    assert_eq!(extract_prompt(&obj(vec![("messages", s("not an array"))])), "");
    let odd_content = obj(vec![(
        "messages",
        Json::Array(vec![obj(vec![("role", s("user")), ("content", Json::Null)])]),
    )]);
    assert_eq!(extract_prompt(&odd_content), "");
}

#[test]
fn system_prompt_forms() {
    assert_eq!(extract_system(&obj(vec![("system", s("be brief"))])), Some("be brief".to_string()));
    assert_eq!(
        extract_system(&obj(vec![("system", Json::Array(vec![text_block("x"), text_block("y")]))])),
        Some("x\ny".to_string())
    );
    assert_eq!(extract_system(&obj(vec![("system", Json::Array(vec![obj(vec![("type", s("image"))])]))])), None);
    assert_eq!(extract_system(&obj(vec![("system", Json::Bool(true))])), None);
    assert_eq!(extract_system(&obj(vec![])), None);
}

#[test]
fn model_defaults_to_unknown() {
    assert_eq!(extract_model(&obj(vec![])), "unknown");
    assert_eq!(extract_model(&obj(vec![("model", Json::Number("3".to_string()))])), "unknown");
}

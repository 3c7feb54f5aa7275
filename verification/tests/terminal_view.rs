use proxyclawd::state::{AppState, Panel, ProxyEvent, RequestStatus, Timestamp};
use proxyclawd::tui::{
    clock_label, handle_key, model_label, prompt_panel_text, response_panel, row_style, status_icon, status_note,
    truncate, Key, RowStyle,
};

#[test]
fn truncate_at_char_boundary() {
    assert_eq!(truncate("hello", 10), "hello");
    assert_eq!(truncate("hello", 3), "hel");
    assert_eq!(truncate("h\u{e9}llo", 2), "h");
    assert_eq!(truncate("h\u{e9}llo", 3), "h\u{e9}");
    assert_eq!(truncate("\u{1f600}", 3), "");
    assert_eq!(truncate("", 0), "");
}

#[test]
fn row_parts() {
    assert_eq!(status_icon(&RequestStatus::Pending), ".");
    assert_eq!(status_icon(&RequestStatus::Streaming), "\u{25cf}");
    assert_eq!(status_icon(&RequestStatus::Complete), "\u{2713}");
    assert_eq!(status_icon(&RequestStatus::Error("e".into())), "!");
    assert!(matches!(row_style(&RequestStatus::Streaming), RowStyle::Live));
    assert!(matches!(row_style(&RequestStatus::Error("e".into())), RowStyle::Failed));
    assert_eq!(status_note(&RequestStatus::Streaming), "  streaming...");
    assert_eq!(status_note(&RequestStatus::Complete), "");
    assert_eq!(status_note(&RequestStatus::Error("x".repeat(40))), format!("  err: {}", "x".repeat(30)));
    assert_eq!(model_label("sonnet-4-5-20250929-extended"), "sonnet-4-5-20250929-");
    assert_eq!(model_label("short"), "short");
}

fn state_with_one(system: Option<&str>) -> AppState {
    let mut st = AppState::new();
    st.apply_event(ProxyEvent::NewRequest {
        id: 1,
        timestamp: Timestamp { secs: 0, nanos: 0 },
        method: "POST".into(),
        path: "/v1/messages".into(),
        model: "m".into(),
        system_prompt: system.map(|s| s.to_string()),
        prompt_text: "hi".into(),
        is_user_initiated: false,
        raw_messages: None,
    });
    st
}

#[test]
fn panels() {
    let empty = AppState::new();
    assert_eq!(prompt_panel_text(&empty), "No request selected");
    let p = response_panel(&empty);
    assert_eq!((p.content.as_str(), p.title, p.live), ("No request selected", " Response ", false));

    let st = state_with_one(None);
    assert_eq!(prompt_panel_text(&st), "\u{2500}\u{2500} user \u{2500}\u{2500}\nhi");
    let p = response_panel(&st);
    assert_eq!((p.content.as_str(), p.title, p.live), ("", " Response (waiting...) ", false));

    let mut st = state_with_one(Some("sys"));
    assert_eq!(
        prompt_panel_text(&st),
        "\u{2500}\u{2500} user \u{2500}\u{2500}\nhi\n\n\u{2500}\u{2500} system \u{2500}\u{2500}\nsys"
    );
    st.apply_event(ProxyEvent::ResponseDelta { id: 1, text: "yo".into() });
    let p = response_panel(&st);
    assert_eq!((p.content.as_str(), p.title, p.live), ("yo", " Response (live) \u{25cf} ", true));
    st.apply_event(ProxyEvent::ResponseComplete { id: 1 });
    assert_eq!(response_panel(&st).title, " Response (complete) ");
    st.apply_event(ProxyEvent::ResponseError { id: 1, error: "e".into() });
    assert_eq!(response_panel(&st).title, " Response (error) ");
}

#[test]
fn keys() {
    let mut st = state_with_one(None);
    assert!(handle_key(&mut st, Key::Char('q')));
    assert!(handle_key(&mut st, Key::Esc));
    assert!(!handle_key(&mut st, Key::Char('k')));
    assert!(!st.auto_select_latest);
    assert!(!handle_key(&mut st, Key::Down));
    assert!(st.auto_select_latest);
    assert!(!handle_key(&mut st, Key::PageDown));
    assert_eq!(st.response_scroll, 10);
    assert!(!handle_key(&mut st, Key::PageUp));
    assert_eq!(st.response_scroll, 0);
    assert!(!handle_key(&mut st, Key::Other));
}

#[test]
fn tab_switches_between_panels() {
    let mut st = AppState::new();
    assert_eq!(st.focused, Panel::Requests);
    assert!(!handle_key(&mut st, Key::Tab));
    assert_eq!(st.focused, Panel::Prompt);
    handle_key(&mut st, Key::Tab);
    assert_eq!(st.focused, Panel::Response);
    handle_key(&mut st, Key::Tab);
    assert_eq!(st.focused, Panel::Requests);
}

#[test]
fn clock_labels_in_utc() {
    assert_eq!(clock_label(Timestamp { secs: 0, nanos: 0 }), "00:00:00");
    assert_eq!(clock_label(Timestamp { secs: 3723, nanos: 5 }), "01:02:03");
    assert_eq!(clock_label(Timestamp { secs: 86399, nanos: 0 }), "23:59:59");
    assert_eq!(clock_label(Timestamp { secs: -1, nanos: 0 }), "23:59:59");
    assert_eq!(clock_label(Timestamp { secs: 59, nanos: 1_000_000_000 }), "00:00:60");
}

use proxyclawd::proxy::{
    capture_headers, connect_domain, forwards_header, intercept_request, is_event_stream, is_messages_api,
    report_event, should_read_body, should_tee, stream_events, upstream_address,
};
use proxyclawd::json::Json;
use proxyclawd::sse::{SseEvent, SseParser};
use proxyclawd::state::{ProxyEvent, Timestamp};
use proxyclawd::subprocess::assistant_command;
use proxyclawd::tls::{ca_profile, leaf_profile, server_chain, CertAuthority, ConfigCache, KeyUsage, TlsError};

fn h(name: &str, value: Option<&str>) -> (String, Option<String>) {
    (name.to_string(), value.map(|v| v.to_string()))
}

#[test]
fn capture_takes_x_api_key_and_skips_headers() {
    let headers = vec![
        h("host", Some("api.anthropic.com")),
        h("x-api-key", Some("sk-1")),
        h("Anthropic-Version", Some("2023-06-01")),
        h("content-type", Some("application/json")),
        h("x-binary", None),
    ];
    let c = capture_headers(&headers, None);
    assert_eq!(c.api_key, Some("sk-1".to_string()));
    assert!(c.found_api_key);
    assert_eq!(
        c.headers,
        Some(vec![
            ("x-api-key".to_string(), "sk-1".to_string()),
            ("anthropic-version".to_string(), "2023-06-01".to_string()),
        ])
    );
}

#[test]
fn capture_bearer_only_when_no_key_known() {
    let headers = vec![h("authorization", Some("Bearer tok"))];
    let c = capture_headers(&headers, None);
    assert_eq!(c.api_key, Some("tok".to_string()));
    assert!(c.found_api_key);
    let c = capture_headers(&headers, Some("old".to_string()));
    assert_eq!(c.api_key, Some("old".to_string()));
    assert!(!c.found_api_key);
    assert_eq!(c.headers, Some(vec![("authorization".to_string(), "Bearer tok".to_string())]));
    let c = capture_headers(&vec![h("authorization", Some("Basic x"))], None);
    assert_eq!(c.api_key, None);
    assert!(!c.found_api_key);
}

#[test]
fn capture_x_api_key_overrides() {
    let c = capture_headers(&vec![h("x-api-key", Some("new"))], Some("old".to_string()));
    assert_eq!(c.api_key, Some("new".to_string()));
}

#[test]
fn capture_nothing_keeps_previous_headers() {
    let c = capture_headers(&vec![h("host", Some("x")), h("connection", Some("close"))], Some("k".to_string()));
    assert_eq!(c.headers, None);
    assert_eq!(c.api_key, Some("k".to_string()));
    assert!(!c.found_api_key);
}

#[test]
fn request_and_response_decisions() {
    assert!(is_messages_api("/v1/messages"));
    assert!(is_messages_api("/v1/messages?beta=true"));
    assert!(!is_messages_api("/v1/models"));
    assert!(should_read_body("/v1/messages", false));
    assert!(!should_read_body("/v1/messages", true));
    assert!(is_event_stream("text/event-stream; charset=utf-8"));
    assert!(!is_event_stream("application/json"));
    assert!(!is_event_stream("none"));
    assert!(should_tee("text/event-stream", "/v1/messages"));
    assert!(!should_tee("text/event-stream", "/v1/complete"));
}

#[test]
fn connect_targets() {
    assert_eq!(connect_domain("api.anthropic.com:443"), "api.anthropic.com");
    assert_eq!(connect_domain("example.com"), "example.com");
    assert_eq!(connect_domain(":1"), "");
    assert_eq!(connect_domain(""), "");
    assert_eq!(upstream_address("api.anthropic.com"), "api.anthropic.com:443");
}

#[test]
fn accept_encoding_is_not_forwarded() {
    assert!(!forwards_header("accept-encoding"));
    assert!(!forwards_header("Accept-Encoding"));
    assert!(forwards_header("accept"));
    assert!(forwards_header("x-api-key"));
}

#[test]
fn stream_events_become_reports() {
    match report_event(SseEvent::ContentBlockDelta { text: "t".to_string() }, 4) {
        Some(ProxyEvent::ResponseDelta { id, text }) => assert_eq!((id, text.as_str()), (4, "t")),
        _ => panic!("expected a delta"),
    }
    assert!(matches!(report_event(SseEvent::MessageStop, 4), Some(ProxyEvent::ResponseComplete { id: 4 })));
    assert!(report_event(SseEvent::Other, 4).is_none());
}

#[test]
fn assistant_command_plan() {
    let c = assistant_command("assistant", false, "/tmp/ca.crt");
    assert_eq!(c.program, "assistant");
    assert_eq!(c.args, vec!["-p".to_string(), "--dangerously-skip-permissions".to_string()]);
    assert_eq!(
        c.env,
        vec![
            ("HTTPS_PROXY".to_string(), "http://127.0.0.1:8080".to_string()),
            ("NODE_EXTRA_CA_CERTS".to_string(), "/tmp/ca.crt".to_string()),
        ]
    );
    let c = assistant_command("assistant", true, "x");
    assert_eq!(c.args.last().unwrap(), "--continue");
}

#[test]
fn known_key_is_never_forgotten() {
    let headers = vec![h("authorization", Some("Bearer other")), h("x-other", Some("1"))];
    let c = capture_headers(&headers, Some("kept".to_string()));
    assert_eq!(c.api_key, Some("kept".to_string()));
    let c = capture_headers(&vec![h("X-Api-Key", Some("a")), h("x-api-key", Some("b"))], None);
    assert_eq!(c.api_key, Some("b".to_string()));
}

#[test]
fn certificate_profiles() {
    let ca = ca_profile();
    assert_eq!(ca.common_name, "ProxyClawd MITM CA");
    assert_eq!(ca.organization.as_deref(), Some("ProxyClawd"));
    assert!(ca.is_ca);
    assert!(ca.dns_names.is_empty());
    assert_eq!(ca.key_usages, vec![KeyUsage::KeyCertSign, KeyUsage::CrlSign, KeyUsage::DigitalSignature]);
    let leaf = leaf_profile("api.example.com");
    assert_eq!(leaf.common_name, "api.example.com");
    assert_eq!(leaf.dns_names, vec!["api.example.com".to_string()]);
    assert_eq!(leaf.key_usages, vec![KeyUsage::DigitalSignature]);
    assert!(leaf.server_auth && !leaf.is_ca);
}

#[test]
fn authority_issues_server_configs() {
    let ca = CertAuthority::generate().ok().expect("authority");
    assert!(ca.certificate_pem().starts_with("-----BEGIN CERTIFICATE-----"));
    assert!(ca.key_pem().contains("PRIVATE KEY"));
    assert!(ca.generate_server_config("api.example.com").is_ok());
    match ca.generate_server_config("b\u{fc}cher.example") {
        Err(e) => {
            assert!(matches!(e, TlsError::InvalidDomain(_)));
            assert_eq!(e.context(), "Invalid domain for SAN");
        }
        Ok(_) => panic!("a non-ASCII domain must be refused"),
    }
}

#[test]
fn intercepts_messages_requests_with_json_bodies() {
    let t = Timestamp { secs: 5, nanos: 0 };
    let body = br#"{"model":"m1","system":"be brief","messages":[{"role":"user","content":"hi"}]}"#;
    match intercept_request(3, t, "POST", "/v1/messages", body) {
        Some(ProxyEvent::NewRequest {
            id,
            timestamp,
            method,
            path,
            model,
            system_prompt,
            prompt_text,
            is_user_initiated,
            raw_messages,
        }) => {
            assert!(!is_user_initiated);
            match raw_messages {
                Some(Json::Array(items)) => assert_eq!(items.len(), 1),
                _ => panic!("the messages must be kept"),
            }
            assert_eq!(id, 3);
            assert_eq!(timestamp, t);
            assert_eq!(method, "POST");
            assert_eq!(path, "/v1/messages");
            assert_eq!(model, "m1");
            assert_eq!(system_prompt.as_deref(), Some("be brief"));
            assert_eq!(prompt_text, "hi");
        }
        _ => panic!("the request must be reported"),
    }
    assert!(intercept_request(3, t, "POST", "/v1/models", body).is_none());
    assert!(intercept_request(3, t, "POST", "/v1/messages", b"").is_none());
    assert!(intercept_request(3, t, "POST", "/v1/messages", b"{not json").is_none());
}

#[test]
fn streams_report_deltas_and_completion() {
    let mut parser = SseParser::new();
    let first = stream_events(
        &mut parser,
        b"event: content_block_delta\ndata: {\"delta\":{\"type\":\"text_delta\",\"text\":\"Hi\"}}\n\nevent: ping\ndata: {}\n\nevent: message_st",
        9,
    );
    assert_eq!(first.len(), 1);
    assert!(matches!(&first[0], ProxyEvent::ResponseDelta { id: 9, text } if text == "Hi"));
    let second = stream_events(&mut parser, b"op\ndata: {}\n\n", 9);
    assert_eq!(second.len(), 1);
    assert!(matches!(second[0], ProxyEvent::ResponseComplete { id: 9 }));
}

#[test]
fn server_chain_puts_the_leaf_first() {
    assert_eq!(server_chain(vec![1, 2], vec![3]), vec![vec![1, 2], vec![3]]);
}

#[test]
fn config_cache_reuses_configs() {
    let ca = CertAuthority::generate().ok().expect("authority");
    let mut cache = ConfigCache::new();
    let first = cache.server_config_for_domain(&ca, "a.example").ok().expect("config");
    let again = cache.server_config_for_domain(&ca, "a.example").ok().expect("config");
    assert!(std::sync::Arc::ptr_eq(&first, &again));
    let other = cache.server_config_for_domain(&ca, "b.example").ok().expect("config");
    assert!(!std::sync::Arc::ptr_eq(&first, &other));
    assert!(matches!(cache.server_config_for_domain(&ca, "b\u{fc}.example"), Err(TlsError::InvalidDomain(_))));
}

//! The decisions the intercepting proxy takes on each request and response:
//! which requests it reads, which headers it remembers, where it connects,
//! and what it reports.

use vstd::prelude::*;
use vstd::utf8::{decode_utf8, valid_utf8};
use crate::json::{json_get, json_of_bytes, parse_json_bytes, Json};
use crate::sse::{
    event_views, feed_text, frame_events, one_stray_byte, utf8_lossy, SseEvent, SseEventModel, SseParser,
};
use crate::state::{
    extract_model, extract_prompt, extract_system, model_of, opt_view, prompt_of, system_of,
    EventModel, ProxyEvent, Timestamp,
};
use crate::text::{
    chars_of, contains, contains_seq, eq_ignore_ascii_case, eq_ignore_ascii_case_spec, lowercase,
    str_eq, strip_prefix, to_lowercase,
};

verus! {

/// Headers that are not remembered from proxied requests (they are
/// rebuilt for each request).
pub open spec fn skipped_header(name: Seq<char>) -> bool {
    ||| name == "host"@
    ||| name == "content-length"@
    ||| name == "content-type"@
    ||| name == "accept-encoding"@
    ||| name == "connection"@
    ||| name == "user-agent"@
}

fn is_skipped_header(name: &str) -> (r: bool)
    ensures
        r == skipped_header(name@),
{
    str_eq(name, "host") || str_eq(name, "content-length") || str_eq(name, "content-type") || str_eq(
        name,
        "accept-encoding",
    ) || str_eq(name, "connection") || str_eq(name, "user-agent")
}

/// What reading the headers of a request leaves: the API key, whether the
/// request carried one that was taken, and the headers remembered (names
/// in lower case, values as text).
pub struct CaptureModel {
    pub api_key: Option<Seq<char>>,
    pub found_api_key: bool,
    pub headers: Seq<(Seq<char>, Seq<char>)>,
}

/// What one header does. Headers to skip, and headers whose value is not
/// visible ASCII text (`value` is `None`), are ignored. `x-api-key` always
/// gives the key; `authorization: Bearer T` gives `T` when no key is known
/// yet. Every header not ignored is remembered.
pub open spec fn capture_step(c: CaptureModel, name: Seq<char>, value: Option<Seq<char>>) -> CaptureModel {
    let n = lowercase(name);
    if skipped_header(n) {
        c
    } else {
        match value {
            None => c,
            Some(v) => {
                let keyed = if n == "x-api-key"@ {
                    CaptureModel { api_key: Some(v), found_api_key: true, ..c }
                } else if n == "authorization"@ && "Bearer "@.is_prefix_of(v) && c.api_key is None {
                    CaptureModel {
                        api_key: Some(v.skip("Bearer "@.len() as int)),
                        found_api_key: true,
                        ..c
                    }
                } else {
                    c
                };
                CaptureModel { headers: keyed.headers.push((n, v)), ..keyed }
            },
        }
    }
}

/// The header list of a request, as names and (when visible ASCII) values.
pub open spec fn header_views(hs: Seq<(String, Option<String>)>) -> Seq<(Seq<char>, Option<Seq<char>>)> {
    hs.map_values(
        |h: (String, Option<String>)|
            (
                h.0@,
                match h.1 {
                    Some(v) => Some(v@),
                    None => None,
                },
            ),
    )
}

/// Reads all headers, in order, starting from a known key.
pub open spec fn capture_all(key: Option<Seq<char>>, hs: Seq<(Seq<char>, Option<Seq<char>>)>) -> CaptureModel
    decreases hs.len(),
{
    if hs.len() == 0 {
        CaptureModel { api_key: key, found_api_key: false, headers: Seq::empty() }
    } else {
        capture_step(capture_all(key, hs.drop_last()), hs.last().0, hs.last().1)
    }
}

/// A known API key is never forgotten: reading headers keeps a key known.
pub proof fn lemma_capture_keeps_key(key: Option<Seq<char>>, hs: Seq<(Seq<char>, Option<Seq<char>>)>)
    requires
        key is Some,
    ensures
        capture_all(key, hs).api_key is Some,
    decreases hs.len(),
{
    if hs.len() > 0 {
        lemma_capture_keeps_key(key, hs.drop_last());
    }
}

/// An `x-api-key` header that is not skipped always gives the key: the
/// last such header of a request decides the key it leaves.
pub proof fn lemma_x_api_key_wins(
    key: Option<Seq<char>>,
    hs: Seq<(Seq<char>, Option<Seq<char>>)>,
    v: Seq<char>,
    name: Seq<char>,
)
    requires
        lowercase(name) == "x-api-key"@,
    ensures
        capture_all(key, hs.push((name, Some(v)))).api_key == Some(v),
        capture_all(key, hs.push((name, Some(v)))).found_api_key,
{
    reveal_strlit("x-api-key");
    reveal_strlit("host");
    reveal_strlit("content-length");
    reveal_strlit("content-type");
    reveal_strlit("accept-encoding");
    reveal_strlit("connection");
    reveal_strlit("user-agent");
    assert(hs.push((name, Some(v))).drop_last() =~= hs);
    assert("x-api-key"@.len() == 9);
    assert("host"@.len() == 4);
    assert("content-length"@.len() == 14);
    assert("content-type"@.len() == 12);
    assert("accept-encoding"@.len() == 15);
    assert("connection"@.len() == 10);
    assert("user-agent"@.len() == 10);
    assert(!skipped_header(lowercase(name)));
}

/// What the proxy takes from the headers of an intercepted API request.
pub struct HeaderCapture {
    /// The API key known after this request.
    pub api_key: Option<String>,
    /// This request carried a key that was taken.
    pub found_api_key: bool,
    /// The headers to remember, or `None` when none was (the headers
    /// remembered before stay).
    pub headers: Option<Vec<(String, String)>>,
}

/// The values of a list of remembered headers.
pub open spec fn pair_views(hs: Seq<(String, String)>) -> Seq<(Seq<char>, Seq<char>)> {
    hs.map_values(|h: (String, String)| (h.0@, h.1@))
}

/// Reads the headers of an intercepted API request (see [`capture_step`]),
/// given the API key known so far.
pub fn capture_headers(headers: &Vec<(String, Option<String>)>, api_key: Option<String>) -> (r:
    HeaderCapture)
    ensures
        ({
            let m = capture_all(opt_view(api_key), header_views(headers@));
            &&& match r.api_key {
                Some(k) => m.api_key == Some(k@),
                None => m.api_key is None,
            }
            &&& r.found_api_key == m.found_api_key
            &&& match r.headers {
                Some(hs) => m.headers.len() > 0 && pair_views(hs@) == m.headers,
                None => m.headers.len() == 0,
            }
        }),
{
    let ghost key0 = opt_view(api_key);
    let ghost hv = header_views(headers@);
    let mut key = api_key;
    let mut found = false;
    let mut kept: Vec<(String, String)> = Vec::new();
    let mut i: usize = 0;
    while i < headers.len()
        invariant
            0 <= i <= headers.len(),
            hv == header_views(headers@),
            ({
                let m = capture_all(key0, hv.take(i as int));
                &&& match key {
                    Some(k) => m.api_key == Some(k@),
                    None => m.api_key is None,
                }
                &&& found == m.found_api_key
                &&& pair_views(kept@) == m.headers
            }),
        decreases headers.len() - i,
    {
        proof {
            assert(hv.take(i + 1).drop_last() =~= hv.take(i as int));
            assert(hv.take(i + 1).last() == hv[i as int]);
        }
        let name = to_lowercase(headers[i].0.as_str());
        if !is_skipped_header(name.as_str()) {
            match &headers[i].1 {
                Some(v) => {
                    if str_eq(name.as_str(), "x-api-key") {
                        key = Some(v.clone());
                        found = true;
                    } else if str_eq(name.as_str(), "authorization") {
                        let vc = chars_of(v.as_str());
                        match strip_prefix(&vc, "Bearer ") {
                            Some(token) => {
                                if key.is_none() {
                                    key = Some(token);
                                    found = true;
                                }
                            },
                            None => {},
                        }
                    }
                    let ghost before = pair_views(kept@);
                    kept.push((name, v.clone()));
                    assert(pair_views(kept@) =~= before.push((lowercase(headers@[i as int].0@), v@)));
                },
                None => {},
            }
        }
        i = i + 1;
    }
    assert(hv.take(headers.len() as int) =~= hv);
    let remembered = if kept.len() == 0 {
        None
    } else {
        Some(kept)
    };
    HeaderCapture { api_key: key, found_api_key: found, headers: remembered }
}

/// The request goes to the messages API: its path contains `/v1/messages`.
pub fn is_messages_api(path: &str) -> (r: bool)
    ensures
        r == contains_seq(path@, "/v1/messages"@),
{
    contains(path, "/v1/messages")
}

/// The proxy reads a request's body only when it goes to the messages API
/// and is not empty.
pub fn should_read_body(path: &str, body_is_empty: bool) -> (r: bool)
    ensures
        r == (contains_seq(path@, "/v1/messages"@) && !body_is_empty),
{
    is_messages_api(path) && !body_is_empty
}

/// The response is a server-sent event stream: its content type contains
/// `text/event-stream`.
pub fn is_event_stream(content_type: &str) -> (r: bool)
    ensures
        r == contains_seq(content_type@, "text/event-stream"@),
{
    contains(content_type, "text/event-stream")
}

/// The proxy watches a response as it streams exactly when it is an event
/// stream answering the messages API.
pub fn should_tee(content_type: &str, path: &str) -> (r: bool)
    ensures
        r == (contains_seq(content_type@, "text/event-stream"@) && contains_seq(path@, "/v1/messages"@)),
{
    is_event_stream(content_type) && is_messages_api(path)
}

/// The host part of a `CONNECT` target: what precedes the first `:`, or
/// the whole target when it has none.
pub open spec fn host_of(authority: Seq<char>) -> Seq<char> {
    if exists|i: int| 0 <= i < authority.len() && authority[i] == ':' {
        let i = choose|i: int|
            0 <= i < authority.len() && authority[i] == ':' && forall|k: int|
                0 <= k < i ==> authority[k] != ':';
        authority.take(i)
    } else {
        authority
    }
}

/// The domain to impersonate for a `CONNECT` target (see [`host_of`]).
pub fn connect_domain(authority: &str) -> (r: String)
    ensures
        r@ == host_of(authority@),
{
    let cs = chars_of(authority);
    let mut i: usize = 0;
    while i < cs.len() && cs[i] != ':'
        invariant
            cs@ == authority@,
            0 <= i <= cs.len(),
            forall|k: int| 0 <= k < i ==> cs@[k] != ':',
        decreases cs.len() - i,
    {
        i = i + 1;
    }
    if i < cs.len() {
        proof {
            let j = choose|j: int|
                0 <= j < authority@.len() && authority@[j] == ':' && forall|k: int|
                    0 <= k < j ==> authority@[k] != ':';
            assert(authority@[i as int] == ':');
            if j < i {
                assert(cs@[j] != ':');
            }
            if i < j {
                assert(authority@[i as int] != ':');
            }
        }
        let r = crate::text::string_from(&cs, 0, i);
        assert(r@ =~= authority@.take(i as int));
        r
    } else {
        assert(forall|j: int| 0 <= j < authority@.len() ==> authority@[j] != ':');
        authority.to_owned()
    }
}

/// The address of the real server for `domain`: port 443.
pub fn upstream_address(domain: &str) -> (r: String)
    ensures
        r@ == domain@ + ":443"@,
{
    let mut r = domain.to_owned();
    r.append(":443");
    r
}

/// Request headers pass on to the real server, except `accept-encoding`
/// (in any case), so that event streams come back uncompressed.
pub fn forwards_header(name: &str) -> (r: bool)
    ensures
        r == !eq_ignore_ascii_case_spec(name@, "accept-encoding"@),
{
    !eq_ignore_ascii_case(name, "accept-encoding")
}

/// What the proxy reports for an event of the answer to request `id`: a
/// piece of text, the end of the answer, or nothing.
pub fn report_event(event: SseEvent, id: usize) -> (r: Option<ProxyEvent>)
    ensures
        match event@ {
            SseEventModel::ContentBlockDelta(t) => r matches Some(e) && e@ == (EventModel::ResponseDelta {
                id,
                text: t,
            }),
            SseEventModel::MessageStop => r matches Some(e) && e@ == (EventModel::ResponseComplete { id }),
            SseEventModel::Other => r is None,
        },
{
    match event {
        SseEvent::ContentBlockDelta { text } => Some(ProxyEvent::ResponseDelta { id, text }),
        SseEvent::MessageStop => Some(ProxyEvent::ResponseComplete { id }),
        SseEvent::Other => None,
    }
}

/// What the proxy reports for an event of the answer to request `id`.
pub open spec fn report_model(event: SseEventModel, id: usize) -> Option<EventModel> {
    match event {
        SseEventModel::ContentBlockDelta(t) => Some(EventModel::ResponseDelta { id, text: t }),
        SseEventModel::MessageStop => Some(EventModel::ResponseComplete { id }),
        SseEventModel::Other => None,
    }
}

/// What the proxy reports for the events of the answer to request `id`,
/// in order.
pub open spec fn reports_of(events: Seq<SseEventModel>, id: usize) -> Seq<EventModel>
    decreases events.len(),
{
    if events.len() == 0 {
        Seq::empty()
    } else {
        reports_of(events.drop_last(), id) + match report_model(events.last(), id) {
            Some(m) => seq![m],
            None => Seq::empty(),
        }
    }
}

/// What the proxy reports for one event of the answer to request `id`: a
/// piece of text as a delta, the end of the message as its completion,
/// and nothing for any other event.
pub proof fn lemma_report_of_one(e: SseEventModel, id: usize)
    ensures
        reports_of(seq![e], id) == match e {
            SseEventModel::ContentBlockDelta(t) => seq![EventModel::ResponseDelta { id, text: t }],
            SseEventModel::MessageStop => seq![EventModel::ResponseComplete { id }],
            SseEventModel::Other => Seq::<EventModel>::empty(),
        },
{
    assert(seq![e].drop_last() =~= Seq::<SseEventModel>::empty());
    assert(reports_of(Seq::<SseEventModel>::empty(), id) =~= Seq::<EventModel>::empty());
    assert(Seq::<EventModel>::empty() + seq![EventModel::ResponseComplete { id }] =~= seq![
        EventModel::ResponseComplete { id },
    ]);
    match e {
        SseEventModel::ContentBlockDelta(t) => {
            assert(Seq::<EventModel>::empty() + seq![EventModel::ResponseDelta { id, text: t }] =~= seq![
                EventModel::ResponseDelta { id, text: t },
            ]);
        },
        _ => {
            assert(Seq::<EventModel>::empty() + Seq::<EventModel>::empty() =~= Seq::<EventModel>::empty());
        },
    }
}

/// Reports keep the order of the events: those of events `s` followed by
/// events `t` are the reports of `s` followed by the reports of `t`.
pub proof fn lemma_reports_in_order(s: Seq<SseEventModel>, t: Seq<SseEventModel>, id: usize)
    ensures
        reports_of(s + t, id) == reports_of(s, id) + reports_of(t, id),
    decreases t.len(),
{
    if t.len() == 0 {
        assert(s + t =~= s);
        assert(reports_of(t, id) =~= Seq::<EventModel>::empty());
        assert(reports_of(s, id) + Seq::<EventModel>::empty() =~= reports_of(s, id));
    } else {
        lemma_reports_in_order(s, t.drop_last(), id);
        assert((s + t).drop_last() =~= s + t.drop_last());
        assert((s + t).last() == t.last());
        let tail: Seq<EventModel> = match report_model(t.last(), id) {
            Some(m) => seq![m],
            None => Seq::empty(),
        };
        assert(reports_of(s, id) + reports_of(t.drop_last(), id) + tail =~= reports_of(s, id) + (
        reports_of(t.drop_last(), id) + tail));
    }
}

/// The views of a sequence of proxy events.
pub open spec fn proxy_event_views(events: Seq<ProxyEvent>) -> Seq<EventModel> {
    events.map_values(|e: ProxyEvent| e@)
}

/// Feeds a chunk of the answer to request `request_id` to its parser, and
/// returns what the proxy reports of the events it completes, in order.
pub fn stream_events(parser: &mut SseParser, chunk: &[u8], request_id: usize) -> (r: Vec<ProxyEvent>)
    ensures
        valid_utf8(chunk@) ==> utf8_lossy(chunk@) == decode_utf8(chunk@),
        !valid_utf8(chunk@) ==> utf8_lossy(chunk@).contains('\u{FFFD}'),
        forall|k: int| #[trigger] one_stray_byte(chunk@, k) ==> utf8_lossy(chunk@) == decode_utf8(
            chunk@.take(k),
        ) + seq!['\u{FFFD}'] + decode_utf8(chunk@.skip(k + 1)),
        final(parser)@ == feed_text(old(parser)@, utf8_lossy(chunk@)).0,
        proxy_event_views(r@) == reports_of(
            frame_events(feed_text(old(parser)@, utf8_lossy(chunk@)).1),
            request_id,
        ),
{
    let mut events = parser.feed(chunk);
    let ghost all = event_views(events@);
    assert(all.len() == events.len());
    let mut reports: Vec<ProxyEvent> = Vec::new();
    let mut k: usize = 0;
    proof {
        assert(all.take(0) =~= Seq::empty());
        assert(proxy_event_views(reports@) =~= Seq::empty());
        assert(event_views(events@) =~= all.skip(0));
    }
    while events.len() > 0
        invariant
            all.len() == k + events@.len(),
            all.len() <= usize::MAX,
            event_views(events@) == all.skip(k as int),
            proxy_event_views(reports@) == reports_of(all.take(k as int), request_id),
        decreases events.len(),
    {
        let ghost before = events@;
        let ghost prev = reports@;
        let e = events.remove(0);
        proof {
            assert(e@ == all[k as int]) by {
                assert(event_views(before)[0] == all.skip(k as int)[0]);
            }
            assert(event_views(events@) =~= all.skip(k + 1)) by {
                assert forall|m: int| 0 <= m < events@.len() implies event_views(events@)[m] == all.skip(
                    k + 1,
                )[m] by {
                    assert(events@[m] == before[m + 1]);
                    assert(event_views(before)[m + 1] == all.skip(k as int)[m + 1]);
                }
            }
            assert(all.take(k + 1).drop_last() =~= all.take(k as int));
            assert(all.take(k + 1).last() == all[k as int]);
        }
        match report_event(e, request_id) {
            Some(p) => {
                reports.push(p);
                proof {
                    assert(proxy_event_views(reports@) =~= proxy_event_views(prev).push(p@));
                }
            },
            None => {},
        }
        proof {
            assert(proxy_event_views(reports@) =~= reports_of(all.take(k + 1), request_id));
        }
        k = k + 1;
    }
    proof {
        assert(all.take(k as int) =~= all);
    }
    reports
}

/// The event that announces request `id`, seen passing: its method and
/// path, and the model, system prompt, prompt and messages of its body.
pub open spec fn new_request_event(
    id: usize,
    timestamp: Timestamp,
    method: Seq<char>,
    path: Seq<char>,
    body: Json,
) -> EventModel {
    EventModel::NewRequest {
        id,
        timestamp,
        method,
        path,
        model: model_of(body),
        system_prompt: system_of(body),
        prompt_text: prompt_of(body),
        is_user_initiated: false,
        raw_messages: json_get(body, "messages"@),
    }
}

/// The event the proxy reports for request `id` when it is sent: none
/// unless it goes to the messages API with a body that is one JSON
/// document, and then the one that announces it.
pub fn intercept_request(id: usize, timestamp: Timestamp, method: &str, path: &str, body: &[u8]) -> (r: Option<
    ProxyEvent,
>)
    ensures
        r is Some <==> (contains_seq(path@, "/v1/messages"@) && body@.len() > 0 && json_of_bytes(
            body@,
        ) is Some),
        r matches Some(e) ==> e@ == new_request_event(
            id,
            timestamp,
            method@,
            path@,
            json_of_bytes(body@)->Some_0,
        ),
{
    if !should_read_body(path, body.len() == 0) {
        return None;
    }
    match parse_json_bytes(body) {
        Some(doc) => {
            let model = extract_model(&doc);
            let system_prompt = extract_system(&doc);
            let prompt_text = extract_prompt(&doc);
            let raw_messages = doc.into_member("messages");
            Some(
                ProxyEvent::NewRequest {
                    id,
                    timestamp,
                    method: method.to_owned(),
                    path: path.to_owned(),
                    model,
                    system_prompt,
                    prompt_text,
                    is_user_initiated: false,
                    raw_messages,
                },
            )
        },
        None => None,
    }
}

} // verus!

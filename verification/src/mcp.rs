//! The logic of the companion server that exposes the proxy's traffic to
//! model-context-protocol clients: its mirror of the request list, and the
//! selections and summaries its tools answer with.

use vstd::prelude::*;
use crate::json::Json;
use crate::state::{apply_event_spec, find_request, opt_view, AppModel, EventModel, RequestModel, StatusModel, Timestamp};
use crate::text::{byte_len, count_fitting, lowercase, to_lowercase, fitting_chars, is_char_boundary_at, str_eq, utf8_len};
use vstd::string::StrSliceExecFns;

pub use crate::state::RequestStatus;

verus! {

broadcast use vstd::string::group_string_axioms;

/// One request as the companion server knows it.
#[derive(Debug, Clone)]
pub struct InterceptedRequest {
    pub id: usize,
    pub timestamp: Timestamp,
    pub method: String,
    pub path: String,
    pub model: String,
    pub system_prompt: Option<String>,
    pub prompt_text: String,
    pub response_text: String,
    pub status: RequestStatus,
    pub conversation_id: String,
    pub message_count: usize,
    pub is_tool_loop: bool,
    pub is_user_initiated: bool,
    pub raw_messages: Option<Json>,
}

/// The mathematical value of an [`InterceptedRequest`].
pub struct McpRequestModel {
    pub id: usize,
    pub timestamp: Timestamp,
    pub method: Seq<char>,
    pub path: Seq<char>,
    pub model: Seq<char>,
    pub system_prompt: Option<Seq<char>>,
    pub prompt_text: Seq<char>,
    pub response_text: Seq<char>,
    pub status: StatusModel,
    pub conversation_id: Seq<char>,
    pub message_count: usize,
    pub is_tool_loop: bool,
    pub is_user_initiated: bool,
    pub raw_messages: Option<Json>,
}

impl View for InterceptedRequest {
    type V = McpRequestModel;

    open spec fn view(&self) -> McpRequestModel {
        McpRequestModel {
            id: self.id,
            timestamp: self.timestamp,
            method: self.method@,
            path: self.path@,
            model: self.model@,
            system_prompt: opt_view(self.system_prompt),
            prompt_text: self.prompt_text@,
            response_text: self.response_text@,
            status: self.status@,
            conversation_id: self.conversation_id@,
            message_count: self.message_count,
            is_tool_loop: self.is_tool_loop,
            is_user_initiated: self.is_user_initiated,
            raw_messages: self.raw_messages,
        }
    }
}

/// What the proxy reports, as the companion server receives it.
#[derive(Debug, Clone)]
pub enum ProxyEvent {
    NewRequest {
        id: usize,
        timestamp: Timestamp,
        method: String,
        path: String,
        model: String,
        system_prompt: Option<String>,
        prompt_text: String,
        conversation_id: String,
        message_count: usize,
        is_tool_loop: bool,
        is_user_initiated: bool,
        raw_messages: Option<Json>,
    },
    ResponseDelta { id: usize, text: String },
    ResponseComplete { id: usize },
    ResponseError { id: usize, error: String },
}

/// A message of the proxy's web socket: the whole list, or one event.
#[derive(Debug, Clone)]
pub enum WsMessage {
    Snapshot { requests: Vec<InterceptedRequest> },
    Event { event: ProxyEvent },
}

/// The values of a list of requests.
pub open spec fn models(rs: Seq<InterceptedRequest>) -> Seq<McpRequestModel> {
    rs.map_values(|r: InterceptedRequest| r@)
}

/// The position of the first request with the given id.
pub open spec fn position_of(rs: Seq<McpRequestModel>, id: usize) -> Option<int>
    decreases rs.len(),
{
    if rs.len() == 0 {
        None
    } else if rs[0].id == id {
        Some(0)
    } else {
        match position_of(rs.drop_first(), id) {
            Some(i) => Some(i + 1),
            None => None,
        }
    }
}

/// The request a new-request event describes: no answer yet, pending.
pub open spec fn new_request(ev: ProxyEvent) -> McpRequestModel
    recommends
        ev is NewRequest,
{
    match ev {
        ProxyEvent::NewRequest {
            id,
            timestamp,
            method,
            path,
            model,
            system_prompt,
            prompt_text,
            conversation_id,
            message_count,
            is_tool_loop,
            is_user_initiated,
            raw_messages,
        } => McpRequestModel {
            id,
            timestamp,
            method: method@,
            path: path@,
            model: model@,
            system_prompt: opt_view(system_prompt),
            prompt_text: prompt_text@,
            response_text: Seq::empty(),
            status: StatusModel::Pending,
            conversation_id: conversation_id@,
            message_count,
            is_tool_loop,
            is_user_initiated,
            raw_messages,
        },
        _ => arbitrary(),
    }
}

/// What one event does to the mirrored list: a new request is appended;
/// a piece of answer is appended to the first request of its id, which
/// becomes streaming; the end of an answer or an error marks it complete
/// or failed. Events for an unknown id change nothing.
pub open spec fn mirror_event(rs: Seq<McpRequestModel>, ev: ProxyEvent) -> Seq<McpRequestModel> {
    match ev {
        ProxyEvent::NewRequest { .. } => rs.push(new_request(ev)),
        ProxyEvent::ResponseDelta { id, text } => match position_of(rs, id) {
            Some(i) => rs.update(
                i,
                McpRequestModel {
                    status: StatusModel::Streaming,
                    response_text: rs[i].response_text + text@,
                    ..rs[i]
                },
            ),
            None => rs,
        },
        ProxyEvent::ResponseComplete { id } => match position_of(rs, id) {
            Some(i) => rs.update(i, McpRequestModel { status: StatusModel::Complete, ..rs[i] }),
            None => rs,
        },
        ProxyEvent::ResponseError { id, error } => match position_of(rs, id) {
            Some(i) => rs.update(i, McpRequestModel { status: StatusModel::Error(error@), ..rs[i] }),
            None => rs,
        },
    }
}

proof fn lemma_position_of(rs: Seq<McpRequestModel>, id: usize)
    ensures
        position_of(rs, id) matches Some(i) ==> 0 <= i < rs.len() && rs[i].id == id && forall|
            k: int,
        |
            0 <= k < i ==> rs[k].id != id,
        position_of(rs, id) is None ==> forall|k: int| 0 <= k < rs.len() ==> rs[k].id != id,
    decreases rs.len(),
{
    if rs.len() > 0 {
        lemma_position_of(rs.drop_first(), id);
        assert forall|k: int| 1 <= k < rs.len() implies rs[k] == rs.drop_first()[k - 1] by {}
    }
}

proof fn lemma_position_of_first(rs: Seq<McpRequestModel>, id: usize, i: int)
    requires
        0 <= i < rs.len(),
        rs[i].id == id,
        forall|k: int| 0 <= k < i ==> rs[k].id != id,
    ensures
        position_of(rs, id) == Some(i),
    decreases i,
{
    if i > 0 {
        lemma_position_of_first(rs.drop_first(), id, i - 1);
    }
}

proof fn lemma_position_of_none(rs: Seq<McpRequestModel>, id: usize)
    requires
        forall|k: int| 0 <= k < rs.len() ==> rs[k].id != id,
    ensures
        position_of(rs, id) is None,
    decreases rs.len(),
{
    if rs.len() > 0 {
        lemma_position_of_none(rs.drop_first(), id);
    }
}

/// The fields that the proxy's own view state keeps of a request.
pub open spec fn view_fields(r: McpRequestModel) -> RequestModel {
    RequestModel {
        id: r.id,
        timestamp: r.timestamp,
        method: r.method,
        path: r.path,
        model: r.model,
        system_prompt: r.system_prompt,
        prompt_text: r.prompt_text,
        response_text: r.response_text,
        status: r.status,
    }
}

/// The fields of a list of requests that the proxy's view state keeps.
pub open spec fn view_fields_of(rs: Seq<McpRequestModel>) -> Seq<RequestModel> {
    rs.map_values(|r: McpRequestModel| view_fields(r))
}

/// An event of the proxy and the event the companion server receives for
/// it: same kind and same common fields.
pub open spec fn same_event(e: EventModel, m: ProxyEvent) -> bool {
    match (e, m) {
        (
            EventModel::NewRequest { id, timestamp, method, path, model, system_prompt, prompt_text, .. },
            ProxyEvent::NewRequest {
                id: id2,
                timestamp: t2,
                method: m2,
                path: p2,
                model: mo2,
                system_prompt: s2,
                prompt_text: pt2,
                ..
            },
        ) => id == id2 && timestamp == t2 && method == m2@ && path == p2@ && model == mo2@ && system_prompt
            == opt_view(s2) && prompt_text == pt2@,
        (EventModel::ResponseDelta { id, text }, ProxyEvent::ResponseDelta { id: id2, text: t2 }) => id
            == id2 && text == t2@,
        (EventModel::ResponseComplete { id }, ProxyEvent::ResponseComplete { id: id2 }) => id == id2,
        (EventModel::ResponseError { id, error }, ProxyEvent::ResponseError { id: id2, error: e2 }) => id
            == id2 && error == e2@,
        _ => false,
    }
}

proof fn lemma_position_matches(rs: Seq<McpRequestModel>, id: usize)
    ensures
        position_of(rs, id) == find_request(view_fields_of(rs), id),
    decreases rs.len(),
{
    if rs.len() > 0 {
        assert(view_fields_of(rs).drop_first() =~= view_fields_of(rs.drop_first()));
        lemma_position_matches(rs.drop_first(), id);
    }
}

/// The companion server's mirror follows the proxy's own view state: for
/// the same events, the two request lists agree on every field they share.
pub proof fn lemma_mirror_follows_view_state(st: AppModel, rs: Seq<McpRequestModel>, e: EventModel, m: ProxyEvent)
    requires
        st.requests == view_fields_of(rs),
        same_event(e, m),
    ensures
        apply_event_spec(st, e).requests == view_fields_of(mirror_event(rs, m)),
{
    let id = crate::state::event_id(e);
    lemma_position_matches(rs, id);
    lemma_position_of(rs, id);
    match m {
        ProxyEvent::NewRequest { .. } => {
            assert(view_fields_of(rs.push(new_request(m))) =~= view_fields_of(rs).push(
                crate::state::new_request_model(e),
            ));
        },
        _ => {
            assert(apply_event_spec(st, e).requests =~= view_fields_of(mirror_event(rs, m)));
        },
    }
}

/// The position of the first request with the given id.
pub fn position(requests: &Vec<InterceptedRequest>, id: usize) -> (r: Option<usize>)
    ensures
        match r {
            Some(i) => position_of(models(requests@), id) == Some(i as int),
            None => position_of(models(requests@), id) is None,
        },
{
    let mut i: usize = 0;
    while i < requests.len()
        invariant
            0 <= i <= requests.len(),
            forall|k: int| 0 <= k < i ==> models(requests@)[k].id != id,
        decreases requests.len() - i,
    {
        if requests[i].id == id {
            proof {
                lemma_position_of_first(models(requests@), id, i as int);
            }
            return Some(i);
        }
        i = i + 1;
    }
    proof {
        lemma_position_of_none(models(requests@), id);
    }
    None
}

/// The first request with the given id, if any.
pub fn get_request(requests: &Vec<InterceptedRequest>, id: usize) -> (r: Option<&InterceptedRequest>)
    ensures
        match r {
            Some(req) => position_of(models(requests@), id) matches Some(i) && req@ == models(
                requests@,
            )[i],
            None => position_of(models(requests@), id) is None,
        },
{
    proof {
        lemma_position_of(models(requests@), id);
    }
    match position(requests, id) {
        Some(i) => Some(&requests[i]),
        None => None,
    }
}

/// Applies one event of the proxy to the mirrored request list (see
/// [`mirror_event`]).
pub fn apply_event(requests: &mut Vec<InterceptedRequest>, event: ProxyEvent)
    ensures
        models(final(requests)@) == mirror_event(models(old(requests)@), event),
{
    let ghost rs0 = models(requests@);
    let ghost ev = event;
    match event {
        ProxyEvent::NewRequest {
            id,
            timestamp,
            method,
            path,
            model,
            system_prompt,
            prompt_text,
            conversation_id,
            message_count,
            is_tool_loop,
            is_user_initiated,
            raw_messages,
        } => {
            requests.push(
                InterceptedRequest {
                    id,
                    timestamp,
                    method,
                    path,
                    model,
                    system_prompt,
                    prompt_text,
                    response_text: String::new(),
                    status: RequestStatus::Pending,
                    conversation_id,
                    message_count,
                    is_tool_loop,
                    is_user_initiated,
                    raw_messages,
                },
            );
            assert(models(requests@) =~= rs0.push(new_request(ev)));
        },
        ProxyEvent::ResponseDelta { id, text } => {
            let found = position(requests, id);
            proof {
                lemma_position_of(rs0, id);
            }
            if let Some(i) = found {
                let req = &mut requests[i];
                req.status = RequestStatus::Streaming;
                req.response_text.append(text.as_str());
                assert(models(requests@) =~= mirror_event(rs0, ev));
            }
        },
        ProxyEvent::ResponseComplete { id } => {
            let found = position(requests, id);
            proof {
                lemma_position_of(rs0, id);
            }
            if let Some(i) = found {
                let req = &mut requests[i];
                req.status = RequestStatus::Complete;
                assert(models(requests@) =~= mirror_event(rs0, ev));
            }
        },
        ProxyEvent::ResponseError { id, error } => {
            let found = position(requests, id);
            proof {
                lemma_position_of(rs0, id);
            }
            if let Some(i) = found {
                let req = &mut requests[i];
                req.status = RequestStatus::Error(error);
                assert(models(requests@) =~= mirror_event(rs0, ev));
            }
        },
    }
}

/// Applies one web-socket message: a snapshot replaces the whole list, an
/// event updates it.
pub fn apply_ws_message(requests: &mut Vec<InterceptedRequest>, message: WsMessage)
    ensures
        models(final(requests)@) == match message {
            WsMessage::Snapshot { requests: snapshot } => models(snapshot@),
            WsMessage::Event { event } => mirror_event(models(old(requests)@), event),
        },
{
    match message {
        WsMessage::Snapshot { requests: snapshot } => {
            *requests = snapshot;
        },
        WsMessage::Event { event } => {
            apply_event(requests, event);
        },
    }
}

// ----- previews -----

/// `s` can be cut after `max` bytes without splitting a character, or
/// needs no cut.
pub open spec fn previewable(s: Seq<char>, max: nat) -> bool {
    utf8_len(s) <= max || is_char_boundary_at(s, max as int)
}

/// `s` when its encoding fits in `max` bytes; else its first `max` bytes
/// followed by `...`.
pub open spec fn preview(s: Seq<char>, max: nat) -> Seq<char> {
    if utf8_len(s) <= max {
        s
    } else {
        s.take(fitting_chars(s, max as int) as int) + "..."@
    }
}

/// Shortens `s` to a preview of at most `max_len` bytes (see [`preview`]).
/// Cutting inside a character is refused by `requires`, where slicing the
/// string would panic.
pub fn truncate(s: &str, max_len: usize) -> (r: String)
    requires
        previewable(s@, max_len as nat),
    ensures
        r@ == preview(s@, max_len as nat),
{
    if byte_len(s) <= max_len {
        s.to_owned()
    } else {
        let k = count_fitting(s, max_len);
        proof {
            crate::text::lemma_fitting_chars(s@, max_len as int);
        }
        let mut r = s.substring_char(0, k).to_owned();
        r.append("...");
        r
    }
}

/// A preview cut keeps exactly the first `max` bytes.
pub proof fn lemma_preview_keeps_bytes(s: Seq<char>, max: nat)
    requires
        previewable(s, max),
        utf8_len(s) > max,
    ensures
        utf8_len(preview(s, max).take(fitting_chars(s, max as int) as int)) == max,
        preview(s, max) == s.take(fitting_chars(s, max as int) as int) + "..."@,
{
    crate::text::lemma_boundary_fitting(s, max as int);
    crate::text::lemma_fitting_chars(s, max as int);
    let k = fitting_chars(s, max as int) as int;
    assert(preview(s, max).take(k) =~= s.take(k));
}

/// What the listing tools report of one request.
pub struct RequestSummary {
    pub id: usize,
    pub timestamp: Timestamp,
    pub model: String,
    pub status: RequestStatus,
    pub conversation_id: String,
    pub is_tool_loop: bool,
    pub is_user_initiated: bool,
    pub message_count: usize,
    pub prompt_preview: String,
    pub response_preview: String,
}

/// The summary of `r` with previews of `preview_len` bytes; `None` where a
/// preview would have to cut a character.
pub fn summarize(r: &InterceptedRequest, preview_len: usize) -> (s: Option<RequestSummary>)
    ensures
        s is Some <==> previewable(r.prompt_text@, preview_len as nat) && previewable(
            r.response_text@,
            preview_len as nat,
        ),
        s matches Some(s) ==> {
            &&& s.id == r.id
            &&& s.timestamp == r.timestamp
            &&& s.model@ == r.model@
            &&& s.status@ == r.status@
            &&& s.conversation_id@ == r.conversation_id@
            &&& s.is_tool_loop == r.is_tool_loop
            &&& s.is_user_initiated == r.is_user_initiated
            &&& s.message_count == r.message_count
            &&& s.prompt_preview@ == preview(r.prompt_text@, preview_len as nat)
            &&& s.response_preview@ == preview(r.response_text@, preview_len as nat)
        },
{
    if !can_preview(r.prompt_text.as_str(), preview_len) || !can_preview(
        r.response_text.as_str(),
        preview_len,
    ) {
        return None;
    }
    Some(
        RequestSummary {
            id: r.id,
            timestamp: r.timestamp,
            model: r.model.clone(),
            status: r.status.clone(),
            conversation_id: r.conversation_id.clone(),
            is_tool_loop: r.is_tool_loop,
            is_user_initiated: r.is_user_initiated,
            message_count: r.message_count,
            prompt_preview: truncate(r.prompt_text.as_str(), preview_len),
            response_preview: truncate(r.response_text.as_str(), preview_len),
        },
    )
}

/// Whether `s` can be previewed in `max` bytes (see [`previewable`]).
pub fn can_preview(s: &str, max: usize) -> (r: bool)
    ensures
        r == previewable(s@, max as nat),
{
    if byte_len(s) <= max {
        return true;
    }
    let k = count_fitting(s, max);
    proof {
        crate::text::lemma_fitting_chars(s@, max as int);
    }
    let used = prefix_bytes(s, k);
    proof {
        if is_char_boundary_at(s@, max as int) {
            crate::text::lemma_boundary_fitting(s@, max as int);
        }
    }
    used == max
}

/// The number of bytes of the first `k` characters of `s`.
fn prefix_bytes(s: &str, k: usize) -> (n: usize)
    requires
        k <= s@.len(),
    ensures
        n == utf8_len(s@.take(k as int)),
{
    let sub = s.substring_char(0, k);
    byte_len(sub)
}

// ----- selections -----

/// The positions of the newest requests that `keep` accepts, newest first,
/// at most `limit` of them.
pub open spec fn newest_positions(
    rs: Seq<McpRequestModel>,
    keep: spec_fn(McpRequestModel) -> bool,
    limit: nat,
) -> Seq<int>
    decreases rs.len(),
{
    if rs.len() == 0 || limit == 0 {
        Seq::empty()
    } else if keep(rs.last()) {
        seq![rs.len() - 1] + newest_positions(rs.drop_last(), keep, (limit - 1) as nat)
    } else {
        newest_positions(rs.drop_last(), keep, limit)
    }
}

/// A list of positions, as integers.
pub open spec fn as_ints(ps: Seq<usize>) -> Seq<int> {
    ps.map_values(|p: usize| p as int)
}

/// A lower-cased status filter accepts a status: `pending`, `streaming`,
/// `complete` and `error` accept their own kind; any other word accepts
/// all.
pub open spec fn filter_accepts(lower: Seq<char>, st: StatusModel) -> bool {
    if lower == "pending"@ {
        st is Pending
    } else if lower == "streaming"@ {
        st is Streaming
    } else if lower == "complete"@ {
        st is Complete
    } else if lower == "error"@ {
        st is Error
    } else {
        true
    }
}

/// The requests that the status filter of the listing tool keeps.
pub open spec fn status_keep(filter: Option<Seq<char>>) -> spec_fn(McpRequestModel) -> bool {
    |r: McpRequestModel|
        match filter {
            Some(f) => filter_accepts(lowercase(f), r.status),
            None => true,
        }
}

/// The requests that the recent-events tool keeps: those with an id above
/// `since`, when given.
pub open spec fn since_keep(since: Option<usize>) -> spec_fn(McpRequestModel) -> bool {
    |r: McpRequestModel|
        match since {
            Some(s) => r.id > s,
            None => true,
        }
}

fn accepts(lower: &Option<String>, st: &RequestStatus) -> (r: bool)
    ensures
        r == match *lower {
            Some(l) => filter_accepts(l@, st@),
            None => true,
        },
{
    match lower {
        None => true,
        Some(l) => {
            if str_eq(l.as_str(), "pending") {
                matches!(st, RequestStatus::Pending)
            } else if str_eq(l.as_str(), "streaming") {
                matches!(st, RequestStatus::Streaming)
            } else if str_eq(l.as_str(), "complete") {
                matches!(st, RequestStatus::Complete)
            } else if str_eq(l.as_str(), "error") {
                matches!(st, RequestStatus::Error(_))
            } else {
                true
            }
        },
    }
}

/// The opt view of an optional string slice.
pub open spec fn opt_str(s: Option<&str>) -> Option<Seq<char>> {
    match s {
        Some(x) => Some(x@),
        None => None,
    }
}

/// What the listing tool selects: the newest requests whose status passes
/// the filter, newest first, at most `limit` (50 by default).
pub fn select_requests(
    requests: &Vec<InterceptedRequest>,
    status: Option<&str>,
    limit: Option<usize>,
) -> (r: Vec<usize>)
    ensures
        as_ints(r@) == newest_positions(
            models(requests@),
            status_keep(opt_str(status)),
            match limit {
                Some(l) => l as nat,
                None => 50,
            },
        ),
{
    let lower = match status {
        Some(f) => Some(to_lowercase(f)),
        None => None,
    };
    let n = match limit {
        Some(l) => l,
        None => 50,
    };
    let ghost keep = status_keep(opt_str(status));
    let ghost rs = models(requests@);
    let mut out: Vec<usize> = Vec::new();
    let mut i = requests.len();
    assert(rs.take(i as int) =~= rs);
    assert(as_ints(out@) + newest_positions(rs, keep, n as nat) =~= newest_positions(rs, keep, n as nat));
    while i > 0 && out.len() < n
        invariant
            0 <= i <= requests.len(),
            rs == models(requests@),
            keep == status_keep(opt_str(status)),
            out.len() <= n,
            match lower {
                Some(l) => status matches Some(f) && l@ == lowercase(f@),
                None => status is None,
            },
            as_ints(out@) + newest_positions(rs.take(i as int), keep, (n - out.len()) as nat)
                == newest_positions(rs, keep, n as nat),
        decreases i,
    {
        let ghost before = as_ints(out@);
        let ghost t = rs.take(i as int);
        assert(t.drop_last() =~= rs.take(i - 1));
        assert(t.last() == rs[i - 1]);
        assert(keep(t.last()) == match lower {
            Some(l) => filter_accepts(l@, requests@[i - 1].status@),
            None => true,
        });
        if accepts(&lower, &requests[i - 1].status) {
            out.push(i - 1);
            assert(as_ints(out@) =~= before + seq![(i - 1) as int]);
        }
        i = i - 1;
    }
    proof {
        let t = rs.take(i as int);
        if i == 0 {
            assert(t.len() == 0);
        }
        assert(newest_positions(t, keep, (n - out.len()) as nat) =~= Seq::<int>::empty());
        assert(as_ints(out@) + Seq::<int>::empty() =~= as_ints(out@));
    }
    out
}

/// What the recent-events tool selects: the newest requests with an id
/// above `since_id` (all, when absent), newest first, at most `count` (10
/// by default).
pub fn select_recent(
    requests: &Vec<InterceptedRequest>,
    since_id: Option<usize>,
    count: Option<usize>,
) -> (r: Vec<usize>)
    ensures
        as_ints(r@) == newest_positions(
            models(requests@),
            since_keep(since_id),
            match count {
                Some(c) => c as nat,
                None => 10,
            },
        ),
{
    let n = match count {
        Some(c) => c,
        None => 10,
    };
    let ghost keep = since_keep(since_id);
    let ghost rs = models(requests@);
    let mut out: Vec<usize> = Vec::new();
    let mut i = requests.len();
    assert(rs.take(i as int) =~= rs);
    assert(as_ints(out@) + newest_positions(rs, keep, n as nat) =~= newest_positions(rs, keep, n as nat));
    while i > 0 && out.len() < n
        invariant
            0 <= i <= requests.len(),
            rs == models(requests@),
            keep == since_keep(since_id),
            out.len() <= n,
            as_ints(out@) + newest_positions(rs.take(i as int), keep, (n - out.len()) as nat)
                == newest_positions(rs, keep, n as nat),
        decreases i,
    {
        let ghost before = as_ints(out@);
        let ghost t = rs.take(i as int);
        assert(t.drop_last() =~= rs.take(i - 1));
        assert(t.last() == rs[i - 1]);
        let keep_it = match since_id {
            Some(since) => requests[i - 1].id > since,
            None => true,
        };
        if keep_it {
            out.push(i - 1);
            assert(as_ints(out@) =~= before + seq![(i - 1) as int]);
        }
        i = i - 1;
    }
    proof {
        let t = rs.take(i as int);
        assert(newest_positions(t, keep, (n - out.len()) as nat) =~= Seq::<int>::empty());
        assert(as_ints(out@) + Seq::<int>::empty() =~= as_ints(out@));
    }
    out
}

/// Every selected position points at a request that the filter keeps, and
/// positions come newest first, at most `limit` of them.
pub proof fn lemma_newest_positions(
    rs: Seq<McpRequestModel>,
    keep: spec_fn(McpRequestModel) -> bool,
    limit: nat,
)
    ensures
        newest_positions(rs, keep, limit).len() <= limit,
        forall|j: int|
            0 <= j < newest_positions(rs, keep, limit).len() ==> {
                let p = #[trigger] newest_positions(rs, keep, limit)[j];
                &&& 0 <= p < rs.len()
                &&& keep(rs[p])
            },
        forall|j1: int, j2: int|
            0 <= j1 < j2 < newest_positions(rs, keep, limit).len() ==> #[trigger] newest_positions(
                rs,
                keep,
                limit,
            )[j1] > #[trigger] newest_positions(rs, keep, limit)[j2],
    decreases rs.len(),
{
    if rs.len() == 0 || limit == 0 {
    } else {
        let rest_limit = if keep(rs.last()) { (limit - 1) as nat } else { limit };
        lemma_newest_positions(rs.drop_last(), keep, rest_limit);
        let rest = newest_positions(rs.drop_last(), keep, rest_limit);
        assert forall|j: int| 0 <= j < rest.len() implies 0 <= #[trigger] rest[j] < rs.len() - 1 && keep(
            rs[rest[j]],
        ) by {
            assert(rs.drop_last()[rest[j]] == rs[rest[j]]);
        }
    }
}

/// The listing is as full as the limit allows: it holds `limit` of the
/// requests that `keep` accepts, or all of them where there are fewer, and
/// no accepted request newer than one it holds is left out.
pub proof fn lemma_newest_positions_complete(
    rs: Seq<McpRequestModel>,
    keep: spec_fn(McpRequestModel) -> bool,
    limit: nat,
)
    ensures
        newest_positions(rs, keep, limit).len() == if limit <= rs.filter(keep).len() {
            limit
        } else {
            rs.filter(keep).len()
        },
        forall|p: int|
            0 <= p < rs.len() && keep(rs[p]) && (newest_positions(rs, keep, limit).len() < limit || (
            newest_positions(rs, keep, limit).len() > 0 && p >= newest_positions(rs, keep, limit).last()))
                ==> newest_positions(rs, keep, limit).contains(p),
    decreases rs.len(),
{
    let sel = newest_positions(rs, keep, limit);
    if rs.len() == 0 || limit == 0 {
    } else {
        let d = rs.drop_last();
        let n = rs.len() - 1;
        reveal(Seq::filter);
        assert(rs.filter(keep) == if keep(rs.last()) {
            d.filter(keep).push(rs.last())
        } else {
            d.filter(keep)
        });
        if keep(rs.last()) {
            let rest = newest_positions(d, keep, (limit - 1) as nat);
            lemma_newest_positions_complete(d, keep, (limit - 1) as nat);
            assert(sel == seq![n] + rest);
            assert forall|p: int|
                0 <= p < rs.len() && keep(rs[p]) && (sel.len() < limit || (sel.len() > 0 && p >= sel.last()))
                    implies sel.contains(p) by {
                if p == n {
                    assert(sel[0] == p);
                } else {
                    assert(d[p] == rs[p]);
                    if sel.len() < limit {
                        assert(rest.contains(p));
                    } else {
                        assert(rest.len() > 0);
                        assert(sel.last() == rest.last());
                        assert(rest.contains(p));
                    }
                    let j = choose|j: int| 0 <= j < rest.len() && rest[j] == p;
                    assert(sel[j + 1] == p);
                }
            }
        } else {
            lemma_newest_positions_complete(d, keep, limit);
            assert forall|p: int|
                0 <= p < rs.len() && keep(rs[p]) && (sel.len() < limit || (sel.len() > 0 && p >= sel.last()))
                    implies sel.contains(p) by {
                assert(p != n);
                assert(d[p] == rs[p]);
            }
        }
    }
}

/// A new request enters the mirror last, carrying every field of its
/// event, with no answer yet and pending; the requests before it stay as
/// they were.
pub proof fn lemma_new_request_enters_whole(rs: Seq<McpRequestModel>, ev: ProxyEvent)
    requires
        ev is NewRequest,
    ensures
        ({
            let out = mirror_event(rs, ev);
            &&& out.len() == rs.len() + 1
            &&& out.take(rs.len() as int) == rs
            &&& match ev {
                ProxyEvent::NewRequest {
                    id,
                    timestamp,
                    method,
                    path,
                    model,
                    system_prompt,
                    prompt_text,
                    conversation_id,
                    message_count,
                    is_tool_loop,
                    is_user_initiated,
                    raw_messages,
                } => {
                    let r = out.last();
                    &&& r.id == id
                    &&& r.timestamp == timestamp
                    &&& r.method == method@
                    &&& r.path == path@
                    &&& r.model == model@
                    &&& r.system_prompt == opt_view(system_prompt)
                    &&& r.prompt_text == prompt_text@
                    &&& r.response_text.len() == 0
                    &&& r.status is Pending
                    &&& r.conversation_id == conversation_id@
                    &&& r.message_count == message_count
                    &&& r.is_tool_loop == is_tool_loop
                    &&& r.is_user_initiated == is_user_initiated
                    &&& r.raw_messages == raw_messages
                },
                _ => true,
            }
        }),
{
    assert(mirror_event(rs, ev).take(rs.len() as int) =~= rs);
}

// ----- conversations -----

/// What the conversations tool reports of one request.
pub struct ConversationEntry {
    pub id: usize,
    pub timestamp: Timestamp,
    pub model: String,
    pub status: RequestStatus,
    pub is_tool_loop: bool,
    pub is_user_initiated: bool,
    pub message_count: usize,
    pub prompt_preview: String,
}

/// The entry of `r` with a prompt preview of `preview_len` bytes; `None`
/// where the preview would have to cut a character.
pub fn conversation_entry(r: &InterceptedRequest, preview_len: usize) -> (e: Option<ConversationEntry>)
    ensures
        e is Some <==> previewable(r.prompt_text@, preview_len as nat),
        e matches Some(e) ==> {
            &&& e.id == r.id
            &&& e.timestamp == r.timestamp
            &&& e.model@ == r.model@
            &&& e.status@ == r.status@
            &&& e.is_tool_loop == r.is_tool_loop
            &&& e.is_user_initiated == r.is_user_initiated
            &&& e.message_count == r.message_count
            &&& e.prompt_preview@ == preview(r.prompt_text@, preview_len as nat)
        },
{
    if !can_preview(r.prompt_text.as_str(), preview_len) {
        return None;
    }
    Some(
        ConversationEntry {
            id: r.id,
            timestamp: r.timestamp,
            model: r.model.clone(),
            status: r.status.clone(),
            is_tool_loop: r.is_tool_loop,
            is_user_initiated: r.is_user_initiated,
            message_count: r.message_count,
            prompt_preview: truncate(r.prompt_text.as_str(), preview_len),
        },
    )
}

/// The values of a list of groups.
pub open spec fn group_views(gs: Seq<(String, Vec<usize>)>) -> Seq<(Seq<char>, Seq<int>)> {
    gs.map_values(|g: (String, Vec<usize>)| (g.0@, as_ints(g.1@)))
}

/// Group `g` holds position `k`.
pub open spec fn group_has(gs: Seq<(Seq<char>, Seq<int>)>, g: int, k: int) -> bool {
    exists|j: int| 0 <= j < gs[g].1.len() && gs[g].1[j] == k
}

/// Position `k` is in the group of its conversation.
pub open spec fn covered_at(rs: Seq<McpRequestModel>, gs: Seq<(Seq<char>, Seq<int>)>, k: int) -> bool {
    exists|g: int| 0 <= g < gs.len() && gs[g].0 == rs[k].conversation_id && #[trigger] group_has(gs, g, k)
}

/// `gs` groups the first `n` requests of `rs` by conversation: one group
/// per conversation id, in order of first appearance, each holding the
/// positions of that conversation's requests in order.
pub open spec fn grouped(rs: Seq<McpRequestModel>, n: int, gs: Seq<(Seq<char>, Seq<int>)>) -> bool {
    &&& forall|g1: int, g2: int|
        0 <= g1 < g2 < gs.len() ==> #[trigger] gs[g1].0 != #[trigger] gs[g2].0
    &&& forall|g: int| 0 <= g < gs.len() ==> #[trigger] gs[g].1.len() > 0
    &&& forall|g: int, j: int|
        0 <= g < gs.len() && 0 <= j < gs[g].1.len() ==> {
            let k = #[trigger] gs[g].1[j];
            &&& 0 <= k < n
            &&& rs[k].conversation_id == gs[g].0
        }
    &&& forall|g: int, j1: int, j2: int|
        0 <= g < gs.len() && 0 <= j1 < j2 < gs[g].1.len() ==> #[trigger] gs[g].1[j1]
            < #[trigger] gs[g].1[j2]
    &&& forall|k: int| 0 <= k < n ==> #[trigger] covered_at(rs, gs, k)
    &&& forall|g1: int, g2: int|
        0 <= g1 < g2 < gs.len() ==> #[trigger] gs[g1].1[0] < #[trigger] gs[g2].1[0]
}

/// The requests grouped by conversation id (see [`grouped`]).
#[verifier::rlimit(40)]
pub fn conversation_groups(requests: &Vec<InterceptedRequest>) -> (r: Vec<(String, Vec<usize>)>)
    ensures
        grouped(models(requests@), requests@.len() as int, group_views(r@)),
{
    let ghost rs = models(requests@);
    let mut gs: Vec<(String, Vec<usize>)> = Vec::new();
    let mut i: usize = 0;
    while i < requests.len()
        invariant
            0 <= i <= requests.len(),
            rs == models(requests@),
            grouped(rs, i as int, group_views(gs@)),
        decreases requests.len() - i,
    {
        let key = &requests[i].conversation_id;
        let mut g: usize = 0;
        let mut found = false;
        while g < gs.len() && !found
            invariant
                0 <= g <= gs.len(),
                found ==> g < gs.len() && gs@[g as int].0@ == key@,
                forall|h: int| 0 <= h < g ==> gs@[h].0@ != key@,
            decreases gs.len() - g, if found { 0int } else { 1int },
        {
            if str_eq(gs[g].0.as_str(), key.as_str()) {
                found = true;
            } else {
                g = g + 1;
            }
        }
        assert(key@ == rs[i as int].conversation_id);
        let ghost old_gs = group_views(gs@);
        assert(!found ==> g == gs.len());
        assert(!found ==> forall|h: int| 0 <= h < old_gs.len() ==> old_gs[h].0 != key@);
        if found {
            gs[g].1.push(i);
            proof {
                let new_gs = group_views(gs@);
                assert(new_gs.len() == old_gs.len());
                assert(new_gs[g as int].1 =~= old_gs[g as int].1.push(i as int));
                assert forall|h: int| 0 <= h < new_gs.len() && h != g implies new_gs[h] == old_gs[h] by {}
                assert forall|h: int| 0 <= h < new_gs.len() implies new_gs[h].0 == old_gs[h].0 by {}
                assert forall|g1: int, g2: int| 0 <= g1 < g2 < new_gs.len() implies #[trigger] new_gs[g1].0
                    != #[trigger] new_gs[g2].0 by {
                    assert(new_gs[g1].0 == old_gs[g1].0);
                    assert(new_gs[g2].0 == old_gs[g2].0);
                    assert(old_gs[g1].0 != old_gs[g2].0);
                }
                assert forall|h: int| 0 <= h < new_gs.len() implies #[trigger] new_gs[h].1.len() > 0 by {
                    assert(old_gs[h].1.len() > 0);
                    if h != g {
                        assert(new_gs[h] == old_gs[h]);
                    }
                }
                assert forall|h: int, j: int|
                    0 <= h < new_gs.len() && 0 <= j < new_gs[h].1.len() implies {
                        let k = #[trigger] new_gs[h].1[j];
                        &&& 0 <= k < i + 1
                        &&& rs[k].conversation_id == new_gs[h].0
                    } by {
                    if h != g || j < old_gs[g as int].1.len() {
                        assert(new_gs[h].1[j] == old_gs[h].1[j]);
                    }
                }
                assert forall|h: int, j1: int, j2: int|
                    0 <= h < new_gs.len() && 0 <= j1 < j2 < new_gs[h].1.len() implies #[trigger] new_gs[h].1[j1]
                        < #[trigger] new_gs[h].1[j2] by {
                    assert(new_gs[h].1[j1] == old_gs[h].1[j1]);
                    if h != g || j2 < old_gs[g as int].1.len() {
                        assert(new_gs[h].1[j2] == old_gs[h].1[j2]);
                    }
                }
                assert forall|k: int| 0 <= k < i + 1 implies #[trigger] covered_at(rs, new_gs, k) by {
                    if k == i {
                        assert(new_gs[g as int].1[old_gs[g as int].1.len() as int] == k);
                        assert(group_has(new_gs, g as int, k));
                    } else {
                        assert(covered_at(rs, old_gs, k));
                        let h = choose|h: int|
                            0 <= h < old_gs.len() && old_gs[h].0 == rs[k].conversation_id && #[trigger] group_has(
                                old_gs,
                                h,
                                k,
                            );
                        let j = choose|j: int| 0 <= j < old_gs[h].1.len() && old_gs[h].1[j] == k;
                        assert(new_gs[h].1[j] == k);
                        assert(group_has(new_gs, h, k));
                    }
                }
                assert forall|g1: int, g2: int| 0 <= g1 < g2 < new_gs.len() implies #[trigger] new_gs[g1].1[0]
                    < #[trigger] new_gs[g2].1[0] by {
                    assert(old_gs[g1].1.len() > 0);
                    assert(old_gs[g2].1.len() > 0);
                    assert(new_gs[g1].1[0] == old_gs[g1].1[0]);
                    assert(new_gs[g2].1[0] == old_gs[g2].1[0]);
                    assert(old_gs[g1].1[0] < old_gs[g2].1[0]);
                }
                assert(grouped(rs, i + 1, new_gs));
            }
        } else {
            let mut v: Vec<usize> = Vec::new();
            v.push(i);
            gs.push((key.clone(), v));
            proof {
                let new_gs = group_views(gs@);
                assert(new_gs.len() == old_gs.len() + 1);
                assert forall|h: int| 0 <= h < old_gs.len() implies new_gs[h] == old_gs[h] by {}
                assert(new_gs[old_gs.len() as int].1 =~= seq![i as int]);
                assert(new_gs[old_gs.len() as int].0 == rs[i as int].conversation_id);
                assert forall|h: int, j: int|
                    0 <= h < new_gs.len() && 0 <= j < new_gs[h].1.len() implies {
                        let k = #[trigger] new_gs[h].1[j];
                        &&& 0 <= k < i + 1
                        &&& rs[k].conversation_id == new_gs[h].0
                    } by {
                    if h < old_gs.len() {
                        assert(new_gs[h].1[j] == old_gs[h].1[j]);
                    }
                }
                assert forall|h: int, j1: int, j2: int|
                    0 <= h < new_gs.len() && 0 <= j1 < j2 < new_gs[h].1.len() implies #[trigger] new_gs[h].1[j1]
                        < #[trigger] new_gs[h].1[j2] by {
                    if h < old_gs.len() {
                        assert(new_gs[h].1[j1] == old_gs[h].1[j1]);
                        assert(new_gs[h].1[j2] == old_gs[h].1[j2]);
                    }
                }
                assert forall|h: int| 0 <= h < new_gs.len() implies #[trigger] new_gs[h].1.len() > 0 by {
                    if h < old_gs.len() {
                        assert(new_gs[h].1.len() == old_gs[h].1.len());
                    }
                }
                assert forall|g1: int, g2: int| 0 <= g1 < g2 < new_gs.len() implies #[trigger] new_gs[g1].0
                    != #[trigger] new_gs[g2].0 by {
                    if g2 == old_gs.len() {
                        assert(new_gs[g1].0 == old_gs[g1].0);
                    } else {
                        assert(new_gs[g1].0 == old_gs[g1].0);
                        assert(new_gs[g2].0 == old_gs[g2].0);
                    }
                }
                assert forall|g1: int, g2: int| 0 <= g1 < g2 < new_gs.len() implies #[trigger] new_gs[g1].1[0]
                    < #[trigger] new_gs[g2].1[0] by {
                    assert(old_gs[g1].1.len() > 0);
                    assert(new_gs[g1].1[0] == old_gs[g1].1[0]);
                    let k = old_gs[g1].1[0];
                    assert(0 <= k < i);
                    if g2 < old_gs.len() {
                        assert(old_gs[g2].1.len() > 0);
                        assert(new_gs[g2].1[0] == old_gs[g2].1[0]);
                        assert(old_gs[g1].1[0] < old_gs[g2].1[0]);
                    } else {
                        assert(new_gs[g2].1[0] == i);
                    }
                }
                assert forall|k: int| 0 <= k < i + 1 implies #[trigger] covered_at(rs, new_gs, k) by {
                    if k == i {
                        assert(new_gs[old_gs.len() as int].1[0] == k);
                        assert(group_has(new_gs, old_gs.len() as int, k));
                    } else {
                        assert(covered_at(rs, old_gs, k));
                        let h = choose|h: int|
                            0 <= h < old_gs.len() && old_gs[h].0 == rs[k].conversation_id && #[trigger] group_has(
                                old_gs,
                                h,
                                k,
                            );
                        let j = choose|j: int| 0 <= j < old_gs[h].1.len() && old_gs[h].1[j] == k;
                        assert(new_gs[h] == old_gs[h]);
                        assert(new_gs[h].1[j] == k);
                        assert(group_has(new_gs, h, k));
                        assert(0 <= h < new_gs.len() && new_gs[h].0 == rs[k].conversation_id);
                    }
                }
                assert(grouped(rs, i + 1, new_gs));
            }
        }
        i = i + 1;
    }
    gs
}

// ----- counts -----

/// How many requests the status resource reports in each state.
pub struct StatusCounts {
    pub total: usize,
    pub pending: usize,
    pub streaming: usize,
    pub complete: usize,
    pub errors: usize,
}

/// The number of requests of `rs` whose status `kind` accepts.
pub open spec fn count_status(rs: Seq<McpRequestModel>, kind: spec_fn(StatusModel) -> bool) -> nat
    decreases rs.len(),
{
    if rs.len() == 0 {
        0
    } else {
        count_status(rs.drop_last(), kind) + if kind(rs.last().status) {
            1nat
        } else {
            0nat
        }
    }
}

pub open spec fn is_pending() -> spec_fn(StatusModel) -> bool {
    |s: StatusModel| s is Pending
}

pub open spec fn is_streaming() -> spec_fn(StatusModel) -> bool {
    |s: StatusModel| s is Streaming
}

pub open spec fn is_complete() -> spec_fn(StatusModel) -> bool {
    |s: StatusModel| s is Complete
}

pub open spec fn is_error() -> spec_fn(StatusModel) -> bool {
    |s: StatusModel| s is Error
}

proof fn lemma_count_bound(rs: Seq<McpRequestModel>, kind: spec_fn(StatusModel) -> bool)
    ensures
        count_status(rs, kind) <= rs.len(),
    decreases rs.len(),
{
    if rs.len() > 0 {
        lemma_count_bound(rs.drop_last(), kind);
    }
}

/// The counts that the status resource reports: all requests, and those
/// pending, streaming, complete and failed.
pub fn status_counts(requests: &Vec<InterceptedRequest>) -> (c: StatusCounts)
    ensures
        c.total == requests@.len(),
        c.pending == count_status(models(requests@), is_pending()),
        c.streaming == count_status(models(requests@), is_streaming()),
        c.complete == count_status(models(requests@), is_complete()),
        c.errors == count_status(models(requests@), is_error()),
{
    let ghost rs = models(requests@);
    let mut c = StatusCounts { total: requests.len(), pending: 0, streaming: 0, complete: 0, errors: 0 };
    let mut i: usize = 0;
    while i < requests.len()
        invariant
            0 <= i <= requests.len(),
            rs == models(requests@),
            c.total == requests@.len(),
            c.pending == count_status(rs.take(i as int), is_pending()),
            c.streaming == count_status(rs.take(i as int), is_streaming()),
            c.complete == count_status(rs.take(i as int), is_complete()),
            c.errors == count_status(rs.take(i as int), is_error()),
        decreases requests.len() - i,
    {
        let ghost t = rs.take(i + 1);
        assert(t.drop_last() =~= rs.take(i as int));
        assert(t.last() == rs[i as int]);
        proof {
            lemma_count_bound(t, is_pending());
            lemma_count_bound(t, is_streaming());
            lemma_count_bound(t, is_complete());
            lemma_count_bound(t, is_error());
        }
        match &requests[i].status {
            RequestStatus::Pending => {
                c.pending = c.pending + 1;
            },
            RequestStatus::Streaming => {
                c.streaming = c.streaming + 1;
            },
            RequestStatus::Complete => {
                c.complete = c.complete + 1;
            },
            RequestStatus::Error(_) => {
                c.errors = c.errors + 1;
            },
        }
        i = i + 1;
    }
    assert(rs.take(requests.len() as int) =~= rs);
    c
}

/// The four status counts add up to the total.
pub proof fn lemma_counts_add_up(rs: Seq<McpRequestModel>)
    ensures
        count_status(rs, is_pending()) + count_status(rs, is_streaming()) + count_status(
            rs,
            is_complete(),
        ) + count_status(rs, is_error()) == rs.len(),
    decreases rs.len(),
{
    if rs.len() > 0 {
        lemma_counts_add_up(rs.drop_last());
    }
}

// ----- addresses -----

/// `s` with every occurrence of `from` replaced by `to`, scanning from the
/// left (as `str::replace` does for a non-empty pattern).
pub open spec fn replace_all(s: Seq<char>, from: Seq<char>, to: Seq<char>) -> Seq<char>
    decreases s.len(),
{
    if s.len() == 0 || from.len() == 0 {
        s
    } else if from.is_prefix_of(s) {
        to + replace_all(s.skip(from.len() as int), from, to)
    } else {
        seq![s[0]] + replace_all(s.drop_first(), from, to)
    }
}

/// `s.replace(from, to)` for a non-empty `from`.
pub fn replace(s: &str, from: &str, to: &str) -> (r: String)
    requires
        from@.len() > 0,
    ensures
        r@ == replace_all(s@, from@, to@),
{
    let cs = crate::text::chars_of(s);
    let fs = crate::text::chars_of(from);
    let mut r = String::new();
    let mut i: usize = 0;
    assert(s@.skip(0) =~= s@);
    while i < cs.len()
        invariant
            cs@ == s@,
            fs@ == from@,
            fs.len() > 0,
            0 <= i <= cs.len(),
            r@ + replace_all(s@.skip(i as int), from@, to@) == replace_all(s@, from@, to@),
        decreases cs.len() - i,
    {
        let ghost rest = s@.skip(i as int);
        let mut matched = fs.len() <= cs.len() - i;
        let mut j: usize = 0;
        while matched && j < fs.len()
            invariant
                cs@ == s@,
                fs@ == from@,
                0 <= j <= fs.len(),
                matched ==> i + fs.len() <= cs.len(),
                matched ==> forall|m: int| 0 <= m < j ==> fs@[m] == cs@[i + m],
                !matched ==> !from@.is_prefix_of(s@.skip(i as int)),
            decreases fs.len() - j,
        {
            if fs[j] != cs[i + j] {
                matched = false;
                assert(s@.skip(i as int)[j as int] == cs@[i + j]);
            }
            j = j + 1;
        }
        if matched {
            assert(from@.is_prefix_of(rest)) by {
                assert forall|m: int| 0 <= m < from@.len() implies from@[m] == rest[m] by {}
            }
            assert(rest.skip(from@.len() as int) =~= s@.skip(i + fs.len()));
            let ghost before = r@;
            r.append(to);
            assert(before + (to@ + replace_all(rest.skip(from@.len() as int), from@, to@)) =~= r@
                + replace_all(s@.skip(i + fs.len()), from@, to@));
            i = i + fs.len();
        } else {
            assert(rest.drop_first() =~= s@.skip(i + 1));
            assert(rest[0] == cs@[i as int]);
            let ghost before = r@;
            crate::text::push_char(&mut r, cs[i]);
            assert(before + (seq![cs@[i as int]] + replace_all(rest.drop_first(), from@, to@)) =~= r@
                + replace_all(s@.skip(i + 1), from@, to@));
            i = i + 1;
        }
    }
    assert(s@.skip(i as int) =~= Seq::<char>::empty());
    assert(r@ + Seq::<char>::empty() =~= r@);
    r
}

/// The web-socket address of the proxy's web server at `base_url`: its
/// `http://` made `ws://`, its `https://` made `wss://`, then `/ws`.
pub fn ws_url(base_url: &str) -> (r: String)
    ensures
        r@ == replace_all(replace_all(base_url@, "http://"@, "ws://"@), "https://"@, "wss://"@)
            + "/ws"@,
{
    proof {
        reveal_strlit("http://");
        reveal_strlit("https://");
    }
    let a = replace(base_url, "http://", "ws://");
    let mut b = replace(a.as_str(), "https://", "wss://");
    b.append("/ws");
    b
}

/// The address of the request list of the proxy's web server.
pub fn requests_url(base_url: &str) -> (r: String)
    ensures
        r@ == base_url@ + "/api/requests"@,
{
    let mut r = base_url.to_owned();
    r.append("/api/requests");
    r
}

/// The address to which messages are posted.
pub fn send_url(base_url: &str) -> (r: String)
    ensures
        r@ == base_url@ + "/api/send"@,
{
    let mut r = base_url.to_owned();
    r.append("/api/send");
    r
}

/// When the companion server tries again to reach the proxy's web socket.
pub struct ReconnectPolicy {
    /// The delay before the next attempt, in seconds.
    pub backoff_secs: u64,
    /// The web socket is connected.
    pub connected: bool,
}

impl ReconnectPolicy {
    /// Not connected; the first retry waits one second.
    pub fn new() -> (r: ReconnectPolicy)
        ensures
            r.backoff_secs == 1,
            !r.connected,
    {
        ReconnectPolicy { backoff_secs: 1, connected: false }
    }

    /// A connection was made: the delay starts again from one second.
    pub fn on_connected(&mut self)
        ensures
            final(self).backoff_secs == 1,
            final(self).connected,
    {
        self.connected = true;
        self.backoff_secs = 1;
    }

    /// The connection ended.
    pub fn on_closed(&mut self)
        ensures
            final(self).backoff_secs == old(self).backoff_secs,
            !final(self).connected,
    {
        self.connected = false;
    }

    /// The delay to wait now, in seconds; the next one is twice as long,
    /// but never more than 30 seconds (see [`next_backoff`]).
    pub fn next_delay(&mut self) -> (d: u64)
        ensures
            d == old(self).backoff_secs,
            final(self).backoff_secs == next_backoff(d as int),
            final(self).connected == old(self).connected,
    {
        let d = self.backoff_secs;
        self.backoff_secs = if d <= 15 { d * 2 } else { 30 };
        d
    }
}

/// The delay that follows a delay of `d` seconds: twice as long, but never
/// more than 30 seconds.
pub open spec fn next_backoff(d: int) -> int {
    if 2 * d <= 30 {
        2 * d
    } else {
        30
    }
}

/// The delay that follows a delay of `d` seconds, `n` attempts later.
pub open spec fn backoff_after(d: int, n: nat) -> int
    decreases n,
{
    if n == 0 {
        d
    } else {
        next_backoff(backoff_after(d, (n - 1) as nat))
    }
}

/// The delay never grows past 30 seconds, and after a connection the
/// delays run 1, 2, 4, 8, 16, 30, 30, ... seconds.
pub proof fn lemma_delay_bounded(d: int, n: nat)
    requires
        1 <= d <= 30,
    ensures
        1 <= backoff_after(d, n) <= 30,
        backoff_after(1, 1) == 2,
        backoff_after(1, 2) == 4,
        backoff_after(1, 3) == 8,
        backoff_after(1, 4) == 16,
        n >= 5 ==> backoff_after(1, n) == 30,
    decreases n,
{
    reveal_with_fuel(backoff_after, 6);
    if n > 0 {
        lemma_delay_bounded(d, (n - 1) as nat);
        if n >= 6 {
            lemma_delay_bounded(1, (n - 1) as nat);
        }
    }
}

/// The outcome of posting a message: the body of a successful answer, or
/// `HTTP <status>: <body>`.
pub fn send_outcome(success: bool, status: &str, body: String) -> (r: Result<String, String>)
    ensures
        success ==> (r matches Ok(b) && b@ == body@),
        !success ==> (r matches Err(e) && e@ == "HTTP "@ + status@ + ": "@ + body@),
{
    if success {
        Ok(body)
    } else {
        let mut e = "HTTP ".to_owned();
        e.append(status);
        e.append(": ");
        e.append(body.as_str());
        Err(e)
    }
}

// ----- resources -----

/// The resources that the companion server offers.
pub enum ResourceKind {
    /// `proxy://requests`: the whole request list.
    Requests,
    /// `proxy://status`: the connection state and the status counts.
    Status,
}

/// The resource a URI names, if any.
pub fn resource_kind(uri: &str) -> (r: Option<ResourceKind>)
    ensures
        match r {
            Some(ResourceKind::Requests) => uri@ == "proxy://requests"@,
            Some(ResourceKind::Status) => uri@ == "proxy://status"@,
            None => uri@ != "proxy://requests"@ && uri@ != "proxy://status"@,
        },
{
    if str_eq(uri, "proxy://requests") {
        Some(ResourceKind::Requests)
    } else if str_eq(uri, "proxy://status") {
        Some(ResourceKind::Status)
    } else {
        None
    }
}

/// The listing of one resource.
pub struct ResourceInfo {
    pub uri: &'static str,
    pub name: &'static str,
    pub description: &'static str,
    pub mime_type: &'static str,
}

/// The resources, as listed to clients.
pub fn resources() -> (r: Vec<ResourceInfo>)
    ensures
        r.len() == 2,
        r[0].uri@ == "proxy://requests"@,
        r[0].name@ == "Intercepted Requests"@,
        r[0].description@ == "Current list of all intercepted API requests"@,
        r[0].mime_type@ == "application/json"@,
        r[1].uri@ == "proxy://status"@,
        r[1].name@ == "Proxy Status"@,
        r[1].description@ == "Connection status and request counters"@,
        r[1].mime_type@ == "application/json"@,
{
    let mut r: Vec<ResourceInfo> = Vec::new();
    r.push(
        ResourceInfo {
            uri: "proxy://requests",
            name: "Intercepted Requests",
            description: "Current list of all intercepted API requests",
            mime_type: "application/json",
        },
    );
    r.push(
        ResourceInfo {
            uri: "proxy://status",
            name: "Proxy Status",
            description: "Connection status and request counters",
            mime_type: "application/json",
        },
    );
    r
}

} // verus!

//! The proxy's record of intercepted requests, the selection state of its
//! terminal view, and the reading of request bodies of the messages API.

use vstd::prelude::*;
use crate::json::{json_get, json_str_field, Json};
use crate::text::{join, join_with, str_eq, views};

verus! {

/// An instant, as whole seconds since the Unix epoch and the nanoseconds
/// within that second.
#[derive(Clone, Copy, Debug, PartialEq, Eq, Structural)]
pub struct Timestamp {
    pub secs: i64,
    pub nanos: u32,
}

/// Where an intercepted request stands.
#[derive(Debug)]
pub enum RequestStatus {
    Pending,
    Streaming,
    Complete,
    Error(String),
}

impl Clone for RequestStatus {
    fn clone(&self) -> (r: RequestStatus)
        ensures
            r == *self,
    {
        match self {
            RequestStatus::Pending => RequestStatus::Pending,
            RequestStatus::Streaming => RequestStatus::Streaming,
            RequestStatus::Complete => RequestStatus::Complete,
            RequestStatus::Error(e) => RequestStatus::Error(e.clone()),
        }
    }
}

impl PartialEq for RequestStatus {
    fn eq(&self, other: &RequestStatus) -> (r: bool) {
        match (self, other) {
            (RequestStatus::Pending, RequestStatus::Pending) => true,
            (RequestStatus::Streaming, RequestStatus::Streaming) => true,
            (RequestStatus::Complete, RequestStatus::Complete) => true,
            (RequestStatus::Error(a), RequestStatus::Error(b)) => str_eq(a.as_str(), b.as_str()),
            _ => false,
        }
    }
}

impl vstd::std_specs::cmp::PartialEqSpecImpl for RequestStatus {
    open spec fn obeys_eq_spec() -> bool {
        true
    }

    open spec fn eq_spec(&self, other: &RequestStatus) -> bool {
        self@ == other@
    }
}

/// The mathematical value of a [`RequestStatus`].
pub enum StatusModel {
    Pending,
    Streaming,
    Complete,
    Error(Seq<char>),
}

impl View for RequestStatus {
    type V = StatusModel;

    open spec fn view(&self) -> StatusModel {
        match self {
            RequestStatus::Pending => StatusModel::Pending,
            RequestStatus::Streaming => StatusModel::Streaming,
            RequestStatus::Complete => StatusModel::Complete,
            RequestStatus::Error(e) => StatusModel::Error(e@),
        }
    }
}

/// One request to the API seen by the proxy, with what has arrived of its
/// answer.
#[derive(Debug, Clone)]
pub struct InterceptedRequest {
    pub id: usize,
    pub timestamp: Timestamp,
    pub method: String,
    pub path: String,
    pub model: String,
    pub system_prompt: Option<String>,
    pub prompt_text: String,
    pub response_text: String,
    pub status: RequestStatus,
}

/// The mathematical value of an [`InterceptedRequest`].
pub struct RequestModel {
    pub id: usize,
    pub timestamp: Timestamp,
    pub method: Seq<char>,
    pub path: Seq<char>,
    pub model: Seq<char>,
    pub system_prompt: Option<Seq<char>>,
    pub prompt_text: Seq<char>,
    pub response_text: Seq<char>,
    pub status: StatusModel,
}

pub open spec fn opt_view(s: Option<String>) -> Option<Seq<char>> {
    match s {
        Some(x) => Some(x@),
        None => None,
    }
}

impl View for InterceptedRequest {
    type V = RequestModel;

    open spec fn view(&self) -> RequestModel {
        RequestModel {
            id: self.id,
            timestamp: self.timestamp,
            method: self.method@,
            path: self.path@,
            model: self.model@,
            system_prompt: opt_view(self.system_prompt),
            prompt_text: self.prompt_text@,
            response_text: self.response_text@,
            status: self.status@,
        }
    }
}

/// What the proxy reports as traffic passes through it.
#[derive(Debug, Clone)]
pub enum ProxyEvent {
    NewRequest {
        id: usize,
        timestamp: Timestamp,
        method: String,
        path: String,
        model: String,
        system_prompt: Option<String>,
        prompt_text: String,
        /// Sent on behalf of a user of this proxy rather than seen passing.
        is_user_initiated: bool,
        /// The `messages` of the request body.
        raw_messages: Option<Json>,
    },
    ResponseDelta { id: usize, text: String },
    ResponseComplete { id: usize },
    ResponseError { id: usize, error: String },
}

/// The mathematical value of a [`ProxyEvent`].
pub enum EventModel {
    NewRequest {
        id: usize,
        timestamp: Timestamp,
        method: Seq<char>,
        path: Seq<char>,
        model: Seq<char>,
        system_prompt: Option<Seq<char>>,
        prompt_text: Seq<char>,
        is_user_initiated: bool,
        raw_messages: Option<Json>,
    },
    ResponseDelta { id: usize, text: Seq<char> },
    ResponseComplete { id: usize },
    ResponseError { id: usize, error: Seq<char> },
}

impl View for ProxyEvent {
    type V = EventModel;

    open spec fn view(&self) -> EventModel {
        match self {
            ProxyEvent::NewRequest {
                id,
                timestamp,
                method,
                path,
                model,
                system_prompt,
                prompt_text,
                is_user_initiated,
                raw_messages,
            } => EventModel::NewRequest {
                id: *id,
                timestamp: *timestamp,
                method: method@,
                path: path@,
                model: model@,
                system_prompt: opt_view(*system_prompt),
                prompt_text: prompt_text@,
                is_user_initiated: *is_user_initiated,
                raw_messages: *raw_messages,
            },
            ProxyEvent::ResponseDelta { id, text } => EventModel::ResponseDelta { id: *id, text: text@ },
            ProxyEvent::ResponseComplete { id } => EventModel::ResponseComplete { id: *id },
            ProxyEvent::ResponseError { id, error } => EventModel::ResponseError { id: *id, error: error@ },
        }
    }
}

/// The state of the terminal view: the requests seen so far, in arrival
/// order, which one is selected, whether the selection follows the newest
/// activity, and how far the two text panels are scrolled.
pub struct AppState {
    pub requests: Vec<InterceptedRequest>,
    pub selected_index: usize,
    pub auto_select_latest: bool,
    pub response_scroll: u16,
    pub prompt_scroll: u16,
    pub focused: Panel,
}

/// A panel of the terminal view.
#[derive(Clone, Copy, Debug, PartialEq, Eq, Structural)]
pub enum Panel {
    Requests,
    Prompt,
    Response,
}

/// The panel that follows `p` when the focus moves on, in the order the
/// panels stand on screen, the last one followed by the first.
pub open spec fn next_panel(p: Panel) -> Panel {
    match p {
        Panel::Requests => Panel::Prompt,
        Panel::Prompt => Panel::Response,
        Panel::Response => Panel::Requests,
    }
}

/// The mathematical value of an [`AppState`].
pub struct AppModel {
    pub requests: Seq<RequestModel>,
    pub selected_index: usize,
    pub auto_select_latest: bool,
    pub response_scroll: u16,
    pub prompt_scroll: u16,
    pub focused: Panel,
}

/// The values of a list of requests.
pub open spec fn request_views(rs: Seq<InterceptedRequest>) -> Seq<RequestModel> {
    rs.map_values(|r: InterceptedRequest| r@)
}

impl View for AppState {
    type V = AppModel;

    open spec fn view(&self) -> AppModel {
        AppModel {
            requests: request_views(self.requests@),
            selected_index: self.selected_index,
            auto_select_latest: self.auto_select_latest,
            response_scroll: self.response_scroll,
            prompt_scroll: self.prompt_scroll,
            focused: self.focused,
        }
    }
}

// ----- the specification of the view state -----

/// The position of the first request with the given id.
pub open spec fn find_request(rs: Seq<RequestModel>, id: usize) -> Option<int>
    decreases rs.len(),
{
    if rs.len() == 0 {
        None
    } else if rs[0].id == id {
        Some(0)
    } else {
        match find_request(rs.drop_first(), id) {
            Some(i) => Some(i + 1),
            None => None,
        }
    }
}

/// `rs` with the first request of the given id changed by `f`; unchanged
/// when there is none.
pub open spec fn update_request(
    rs: Seq<RequestModel>,
    id: usize,
    f: spec_fn(RequestModel) -> RequestModel,
) -> Seq<RequestModel> {
    match find_request(rs, id) {
        Some(i) => rs.update(i, f(rs[i])),
        None => rs,
    }
}

/// A new request as it enters the list: no answer yet, pending.
pub open spec fn new_request_model(ev: EventModel) -> RequestModel
    recommends
        ev is NewRequest,
{
    match ev {
        EventModel::NewRequest { id, timestamp, method, path, model, system_prompt, prompt_text, .. } =>
            RequestModel {
            id,
            timestamp,
            method,
            path,
            model,
            system_prompt,
            prompt_text,
            response_text: Seq::empty(),
            status: StatusModel::Pending,
        },
        _ => arbitrary(),
    }
}

/// What one event does to the view state. A new request is appended and,
/// while the selection follows activity, selected with both panels
/// scrolled back to the top. A piece of answer is appended to the first
/// request of its id, which becomes streaming and, while the selection
/// follows activity, selected. The end of an answer or an error marks that
/// request complete or failed. Events for an unknown id change no request.
pub open spec fn apply_event_spec(st: AppModel, ev: EventModel) -> AppModel {
    match ev {
        EventModel::NewRequest { .. } => {
            let rs = st.requests.push(new_request_model(ev));
            if st.auto_select_latest {
                AppModel {
                    requests: rs,
                    selected_index: (rs.len() - 1) as usize,
                    response_scroll: 0,
                    prompt_scroll: 0,
                    ..st
                }
            } else {
                AppModel { requests: rs, ..st }
            }
        },
        EventModel::ResponseDelta { id, text } => {
            let rs = update_request(
                st.requests,
                id,
                |r: RequestModel|
                    RequestModel {
                        status: StatusModel::Streaming,
                        response_text: r.response_text + text,
                        ..r
                    },
            );
            match find_request(st.requests, id) {
                Some(i) => if st.auto_select_latest {
                    AppModel { requests: rs, selected_index: i as usize, ..st }
                } else {
                    AppModel { requests: rs, ..st }
                },
                None => AppModel { requests: rs, ..st },
            }
        },
        EventModel::ResponseComplete { id } => AppModel {
            requests: update_request(
                st.requests,
                id,
                |r: RequestModel| RequestModel { status: StatusModel::Complete, ..r },
            ),
            ..st
        },
        EventModel::ResponseError { id, error } => AppModel {
            requests: update_request(
                st.requests,
                id,
                |r: RequestModel| RequestModel { status: StatusModel::Error(error), ..r },
            ),
            ..st
        },
    }
}

/// The selection points at a request, or at position 0 of an empty list.
pub open spec fn selection_valid(st: AppModel) -> bool {
    st.selected_index == 0 || st.selected_index < st.requests.len()
}

proof fn lemma_find_request(rs: Seq<RequestModel>, id: usize)
    ensures
        find_request(rs, id) matches Some(i) ==> 0 <= i < rs.len() && rs[i].id == id && forall|
            k: int,
        |
            0 <= k < i ==> rs[k].id != id,
        find_request(rs, id) is None ==> forall|k: int| 0 <= k < rs.len() ==> rs[k].id != id,
    decreases rs.len(),
{
    if rs.len() > 0 {
        lemma_find_request(rs.drop_first(), id);
        assert forall|k: int| 1 <= k < rs.len() implies rs[k] == rs.drop_first()[k - 1] by {}
    }
}

proof fn lemma_find_request_first(rs: Seq<RequestModel>, id: usize, i: int)
    requires
        0 <= i < rs.len(),
        rs[i].id == id,
        forall|k: int| 0 <= k < i ==> rs[k].id != id,
    ensures
        find_request(rs, id) == Some(i),
    decreases i,
{
    if i > 0 {
        lemma_find_request_first(rs.drop_first(), id, i - 1);
    }
}

proof fn lemma_find_request_none(rs: Seq<RequestModel>, id: usize)
    requires
        forall|k: int| 0 <= k < rs.len() ==> rs[k].id != id,
    ensures
        find_request(rs, id) is None,
    decreases rs.len(),
{
    if rs.len() > 0 {
        lemma_find_request_none(rs.drop_first(), id);
    }
}

/// Moving the selection down: by one, but not past the last request; the
/// selection follows activity again exactly when it lands on the last one.
/// Both panels scroll back to the top. Nothing changes on an empty list.
pub open spec fn select_next_spec(st: AppModel) -> AppModel {
    if st.requests.len() != 0 {
        let last = st.requests.len() - 1;
        let next = if st.selected_index + 1 <= last { st.selected_index + 1 } else { last };
        AppModel {
            selected_index: next as usize,
            auto_select_latest: next == last,
            response_scroll: 0,
            prompt_scroll: 0,
            ..st
        }
    } else {
        st
    }
}

/// Moving the selection up: by one, but not above the first request. The
/// selection stops following activity; both panels scroll back to the top.
pub open spec fn select_previous_spec(st: AppModel) -> AppModel {
    AppModel {
        selected_index: if st.selected_index > 0 { (st.selected_index - 1) as usize } else { 0 },
        auto_select_latest: false,
        response_scroll: 0,
        prompt_scroll: 0,
        ..st
    }
}

/// The id of the request that an event concerns.
pub open spec fn event_id(ev: EventModel) -> usize {
    match ev {
        EventModel::NewRequest { id, .. } => id,
        EventModel::ResponseDelta { id, .. } => id,
        EventModel::ResponseComplete { id } => id,
        EventModel::ResponseError { id, .. } => id,
    }
}

/// While the selection does not follow activity, no event moves it, and
/// it goes on not following activity.
pub proof fn lemma_selection_stays_when_not_following(st: AppModel, ev: EventModel)
    requires
        !st.auto_select_latest,
    ensures
        apply_event_spec(st, ev).selected_index == st.selected_index,
        !apply_event_spec(st, ev).auto_select_latest,
{
}

/// Up moves the selection to the request just above, and stays on the
/// first; Down moves it to the request just below, and stays on the last.
pub proof fn lemma_navigation_steps(st: AppModel)
    ensures
        select_previous_spec(st).selected_index == if st.selected_index > 0 {
            st.selected_index - 1
        } else {
            0
        },
        st.selected_index + 1 < st.requests.len() && st.selected_index < usize::MAX ==> select_next_spec(
            st,
        ).selected_index == st.selected_index + 1,
        st.requests.len() > 0 && st.selected_index + 1 >= st.requests.len() ==> select_next_spec(
            st,
        ).selected_index == st.requests.len() - 1,
{
}

/// Every event keeps the selection pointing at a request (or at position 0
/// of an empty list).
pub proof fn lemma_apply_event_keeps_selection_valid(st: AppModel, ev: EventModel)
    requires
        selection_valid(st),
    ensures
        selection_valid(apply_event_spec(st, ev)),
{
    lemma_find_request(st.requests, event_id(ev));
}

/// Moving the selection up or down keeps it pointing at a request (or at
/// position 0 of an empty list).
pub proof fn lemma_navigation_keeps_selection_valid(st: AppModel)
    requires
        selection_valid(st),
    ensures
        selection_valid(select_next_spec(st)),
        selection_valid(select_previous_spec(st)),
{
}

/// Requests are never removed or reordered: a new request is appended
/// after all the others, and any other event leaves the number of requests
/// and every id in place, and changes no request but the first one with
/// its id.
pub proof fn lemma_apply_event_keeps_requests(st: AppModel, ev: EventModel)
    ensures
        ev is NewRequest ==> apply_event_spec(st, ev).requests == st.requests.push(new_request_model(ev)),
        !(ev is NewRequest) ==> {
            let rs = apply_event_spec(st, ev).requests;
            &&& rs.len() == st.requests.len()
            &&& forall|k: int| 0 <= k < rs.len() ==> #[trigger] rs[k].id == st.requests[k].id
            &&& forall|k: int|
                0 <= k < rs.len() && Some(k) != find_request(st.requests, event_id(ev)) ==> #[trigger] rs[k]
                    == st.requests[k]
        },
{
    lemma_find_request(st.requests, event_id(ev));
}

/// An event for an id that no request has changes no request.
pub proof fn lemma_unknown_id_changes_no_request(st: AppModel, ev: EventModel)
    requires
        !(ev is NewRequest),
        forall|k: int| 0 <= k < st.requests.len() ==> st.requests[k].id != event_id(ev),
    ensures
        apply_event_spec(st, ev).requests == st.requests,
{
    lemma_find_request_none(st.requests, event_id(ev));
}

/// Pieces of an answer accumulate in arrival order: after the pieces `a`
/// and then `b` for a known id, that request's answer is what it was,
/// followed by `a`, followed by `b`, and it is streaming.
pub proof fn lemma_deltas_accumulate(st: AppModel, id: usize, a: Seq<char>, b: Seq<char>)
    requires
        find_request(st.requests, id) is Some,
    ensures
        ({
            let i = find_request(st.requests, id).unwrap();
            let s1 = apply_event_spec(st, EventModel::ResponseDelta { id, text: a });
            let s2 = apply_event_spec(s1, EventModel::ResponseDelta { id, text: b });
            &&& s2.requests[i].response_text == st.requests[i].response_text + a + b
            &&& s2.requests[i].status == StatusModel::Streaming
            &&& s2.requests.len() == st.requests.len()
        }),
{
    let i = find_request(st.requests, id).unwrap();
    lemma_find_request(st.requests, id);
    let s1 = apply_event_spec(st, EventModel::ResponseDelta { id, text: a });
    assert(s1.requests[i].id == id);
    assert forall|k: int| 0 <= k < i implies s1.requests[k].id != id by {}
    lemma_find_request_first(s1.requests, id, i);
}

// ----- the view state -----

impl AppState {
    /// An empty list whose selection follows the newest activity, with the
    /// focus on the list.
    pub fn new() -> (r: AppState)
        ensures
            r@ == (AppModel {
                requests: Seq::empty(),
                selected_index: 0,
                auto_select_latest: true,
                response_scroll: 0,
                prompt_scroll: 0,
                focused: Panel::Requests,
            }),
    {
        let r = AppState {
            requests: Vec::new(),
            selected_index: 0,
            auto_select_latest: true,
            response_scroll: 0,
            prompt_scroll: 0,
            focused: Panel::Requests,
        };
        assert(request_views(r.requests@) =~= Seq::empty());
        r
    }

    /// The position of the first request with the given id.
    fn position(&self, id: usize) -> (r: Option<usize>)
        ensures
            match r {
                Some(i) => find_request(self@.requests, id) == Some(i as int),
                None => find_request(self@.requests, id) is None,
            },
    {
        let mut i: usize = 0;
        while i < self.requests.len()
            invariant
                0 <= i <= self.requests.len(),
                forall|k: int| 0 <= k < i ==> self@.requests[k].id != id,
            decreases self.requests.len() - i,
        {
            if self.requests[i].id == id {
                proof {
                    lemma_find_request_first(self@.requests, id, i as int);
                }
                return Some(i);
            }
            i = i + 1;
        }
        proof {
            lemma_find_request_none(self@.requests, id);
        }
        None
    }

    /// Moves the focus to the next panel (see [`next_panel`]).
    pub fn focus_next_panel(&mut self)
        ensures
            final(self)@ == (AppModel { focused: next_panel(old(self)@.focused), ..old(self)@ }),
    {
        self.focused = match self.focused {
            Panel::Requests => Panel::Prompt,
            Panel::Prompt => Panel::Response,
            Panel::Response => Panel::Requests,
        };
    }

    /// Selects the next request (see [`select_next_spec`]).
    pub fn select_next(&mut self)
        requires
            old(self).requests.len() == 0 || old(self).selected_index < usize::MAX,
        ensures
            final(self)@ == select_next_spec(old(self)@),
    {
        if !(self.requests.len() == 0) {
            let last = self.requests.len() - 1;
            let next = self.selected_index + 1;
            self.selected_index = if next <= last { next } else { last };
            self.auto_select_latest = self.selected_index == self.requests.len() - 1;
            self.response_scroll = 0;
            self.prompt_scroll = 0;
        }
    }

    /// Selects the previous request (see [`select_previous_spec`]).
    pub fn select_previous(&mut self)
        ensures
            final(self)@ == select_previous_spec(old(self)@),
    {
        self.selected_index = self.selected_index.saturating_sub(1);
        self.auto_select_latest = false;
        self.response_scroll = 0;
        self.prompt_scroll = 0;
    }

    /// The selected request, if the selection points at one.
    pub fn selected_request(&self) -> (r: Option<&InterceptedRequest>)
        ensures
            match r {
                Some(req) => self.selected_index < self.requests.len() && req@
                    == self@.requests[self.selected_index as int],
                None => self.selected_index >= self.requests.len(),
            },
    {
        if self.selected_index < self.requests.len() {
            Some(&self.requests[self.selected_index])
        } else {
            None
        }
    }

    /// Scrolls the answer panel down by `amount` lines, stopping at the
    /// largest offset.
    pub fn scroll_response_down(&mut self, amount: u16)
        ensures
            final(self)@ == (AppModel {
                response_scroll: if old(self).response_scroll + amount > u16::MAX {
                    u16::MAX
                } else {
                    (old(self).response_scroll + amount) as u16
                },
                ..old(self)@
            }),
    {
        self.response_scroll = self.response_scroll.saturating_add(amount);
    }

    /// Scrolls the answer panel up by `amount` lines, stopping at the top.
    pub fn scroll_response_up(&mut self, amount: u16)
        ensures
            final(self)@ == (AppModel {
                response_scroll: if old(self).response_scroll >= amount {
                    (old(self).response_scroll - amount) as u16
                } else {
                    0
                },
                ..old(self)@
            }),
    {
        self.response_scroll = self.response_scroll.saturating_sub(amount);
    }

    /// Updates the view state with one event from the proxy.
    pub fn apply_event(&mut self, event: ProxyEvent)
        ensures
            final(self)@ == apply_event_spec(old(self)@, event@),
    {
        let ghost ev = event@;
        let ghost st0 = self@;
        match event {
            ProxyEvent::NewRequest { id, timestamp, method, path, model, system_prompt, prompt_text, .. } => {
                self.requests.push(
                    InterceptedRequest {
                        id,
                        timestamp,
                        method,
                        path,
                        model,
                        system_prompt,
                        prompt_text,
                        response_text: String::new(),
                        status: RequestStatus::Pending,
                    },
                );
                if self.auto_select_latest {
                    self.selected_index = self.requests.len().saturating_sub(1);
                    self.response_scroll = 0;
                    self.prompt_scroll = 0;
                }
                assert(self@.requests =~= st0.requests.push(new_request_model(ev)));
            },
            ProxyEvent::ResponseDelta { id, text } => {
                let found = self.position(id);
                proof {
                    lemma_find_request(self@.requests, id);
                }
                if let Some(i) = found {
                    let req = &mut self.requests[i];
                    req.status = RequestStatus::Streaming;
                    req.response_text.append(text.as_str());
                }
                if self.auto_select_latest {
                    if let Some(idx) = self.position(id) {
                        self.selected_index = idx;
                    }
                }
                proof {
                    let f = |r: RequestModel|
                        RequestModel {
                            status: StatusModel::Streaming,
                            response_text: r.response_text + text@,
                            ..r
                        };
                    lemma_find_request(st0.requests, id);
                    if let Some(i) = found {
                        assert(self@.requests =~= st0.requests.update(i as int, f(st0.requests[i as int])));
                        lemma_find_request_first(self@.requests, id, i as int);
                    } else {
                        assert(self@.requests =~= st0.requests);
                    }
                    assert(self@.requests =~= update_request(st0.requests, id, f));
                }
            },
            ProxyEvent::ResponseComplete { id } => {
                let found = self.position(id);
                proof {
                    lemma_find_request(self@.requests, id);
                }
                if let Some(i) = found {
                    let req = &mut self.requests[i];
                    req.status = RequestStatus::Complete;
                }
                proof {
                    let f = |r: RequestModel| RequestModel { status: StatusModel::Complete, ..r };
                    lemma_find_request(st0.requests, id);
                    if let Some(i) = found {
                        assert(self@.requests =~= st0.requests.update(i as int, f(st0.requests[i as int])));
                    } else {
                        assert(self@.requests =~= st0.requests);
                    }
                    assert(self@.requests =~= update_request(st0.requests, id, f));
                }
            },
            ProxyEvent::ResponseError { id, error } => {
                let found = self.position(id);
                proof {
                    lemma_find_request(self@.requests, id);
                }
                let ghost e = error@;
                if let Some(i) = found {
                    let req = &mut self.requests[i];
                    req.status = RequestStatus::Error(error);
                }
                proof {
                    let f = |r: RequestModel| RequestModel { status: StatusModel::Error(e), ..r };
                    lemma_find_request(st0.requests, id);
                    if let Some(i) = found {
                        assert(self@.requests =~= st0.requests.update(i as int, f(st0.requests[i as int])));
                    } else {
                        assert(self@.requests =~= st0.requests);
                    }
                    assert(self@.requests =~= update_request(st0.requests, id, f));
                }
            },
        }
    }
}

// ----- reading request bodies -----

/// The text of a content block: its `text`, when its `type` is `text`.
pub open spec fn block_text(block: Json) -> Option<Seq<char>> {
    if json_str_field(block, "type"@) == Some("text"@) {
        json_str_field(block, "text"@)
    } else {
        None
    }
}

/// The texts of the text blocks among `blocks`, in order.
pub open spec fn text_parts(blocks: Seq<Json>) -> Seq<Seq<char>>
    decreases blocks.len(),
{
    if blocks.len() == 0 {
        Seq::empty()
    } else {
        let rest = text_parts(blocks.drop_last());
        match block_text(blocks.last()) {
            Some(t) => rest.push(t),
            None => rest,
        }
    }
}

/// The text of a message: its `content` when that is a string; the texts
/// of its text blocks joined by newlines when it is an array; else empty.
pub open spec fn content_text(msg: Json) -> Seq<char> {
    match json_get(msg, "content"@) {
        Some(Json::Str(s)) => s@,
        Some(Json::Array(blocks)) => join_with(text_parts(blocks@), "\n"@),
        _ => Seq::empty(),
    }
}

/// The message was written by the user.
pub open spec fn is_user_message(msg: Json) -> bool {
    json_str_field(msg, "role"@) == Some("user"@)
}

/// The position of the last message of the user.
pub open spec fn last_user_message(msgs: Seq<Json>) -> Option<int>
    decreases msgs.len(),
{
    if msgs.len() == 0 {
        None
    } else if is_user_message(msgs.last()) {
        Some(msgs.len() - 1)
    } else {
        last_user_message(msgs.drop_last())
    }
}

/// The prompt of a request body: the text of its last user message; empty
/// when `messages` is not an array or holds no user message.
pub open spec fn prompt_of(body: Json) -> Seq<char> {
    match json_get(body, "messages"@) {
        Some(Json::Array(msgs)) => match last_user_message(msgs@) {
            Some(i) => content_text(msgs@[i]),
            None => Seq::empty(),
        },
        _ => Seq::empty(),
    }
}

/// The system prompt of a request body: `system` when it is a string; the
/// texts of its text blocks joined by newlines when it is an array holding
/// at least one; else none.
pub open spec fn system_of(body: Json) -> Option<Seq<char>> {
    match json_get(body, "system"@) {
        Some(Json::Str(s)) => Some(s@),
        Some(Json::Array(blocks)) => {
            let parts = text_parts(blocks@);
            if parts.len() == 0 {
                None
            } else {
                Some(join_with(parts, "\n"@))
            }
        },
        _ => None,
    }
}

/// The model of a request body: `model` when it is a string, else
/// `unknown`.
pub open spec fn model_of(body: Json) -> Seq<char> {
    match json_str_field(body, "model"@) {
        Some(m) => m,
        None => "unknown"@,
    }
}

/// The texts of the text blocks of `blocks`.
fn collect_text_parts(blocks: &Vec<Json>) -> (r: Vec<String>)
    ensures
        views(r@) == text_parts(blocks@),
{
    let mut parts: Vec<String> = Vec::new();
    let mut i: usize = 0;
    while i < blocks.len()
        invariant
            0 <= i <= blocks.len(),
            views(parts@) == text_parts(blocks@.take(i as int)),
        decreases blocks.len() - i,
    {
        let block = &blocks[i];
        let ghost before = views(parts@);
        proof {
            assert(blocks@.take(i + 1).drop_last() =~= blocks@.take(i as int));
            assert(blocks@.take(i + 1).last() == blocks@[i as int]);
        }
        let is_text = match block.str_field("type") {
            Some(t) => str_eq(t.as_str(), "text"),
            None => false,
        };
        if is_text {
            match block.str_field("text") {
                Some(t) => {
                    parts.push(t.clone());
                    assert(views(parts@) =~= before.push(t@));
                },
                None => {},
            }
        }
        i = i + 1;
    }
    assert(blocks@.take(blocks.len() as int) =~= blocks@);
    parts
}

fn extract_content(msg: &Json) -> (r: String)
    ensures
        r@ == content_text(*msg),
{
    match msg.get("content") {
        Some(Json::Str(s)) => s.clone(),
        Some(Json::Array(blocks)) => {
            let parts = collect_text_parts(blocks);
            join(&parts, "\n")
        },
        _ => String::new(),
    }
}

/// The prompt of a parsed request body of the messages API (see
/// [`prompt_of`]).
pub fn extract_prompt(body: &Json) -> (r: String)
    ensures
        r@ == prompt_of(*body),
{
    match body.get("messages") {
        Some(Json::Array(msgs)) => {
            let mut i = msgs.len();
            assert(msgs@.take(i as int) =~= msgs@);
            while i > 0
                invariant
                    json_get(*body, "messages"@) == Some(Json::Array(*msgs)),
                    0 <= i <= msgs.len(),
                    last_user_message(msgs@) == last_user_message(msgs@.take(i as int)),
                decreases i,
            {
                let msg = &msgs[i - 1];
                proof {
                    assert(msgs@.take(i as int).drop_last() =~= msgs@.take(i - 1));
                    assert(msgs@.take(i as int).last() == msgs@[i - 1]);
                }
                let is_user = match msg.str_field("role") {
                    Some(role) => str_eq(role.as_str(), "user"),
                    None => false,
                };
                if is_user {
                    return extract_content(msg);
                }
                i = i - 1;
            }
            String::new()
        },
        _ => String::new(),
    }
}

/// The system prompt of a parsed request body (see [`system_of`]).
pub fn extract_system(body: &Json) -> (r: Option<String>)
    ensures
        opt_view(r) == system_of(*body),
{
    match body.get("system") {
        Some(Json::Str(s)) => Some(s.clone()),
        Some(Json::Array(blocks)) => {
            let parts = collect_text_parts(blocks);
            if parts.len() == 0 {
                None
            } else {
                Some(join(&parts, "\n"))
            }
        },
        _ => None,
    }
}

/// The model named by a parsed request body (see [`model_of`]).
pub fn extract_model(body: &Json) -> (r: String)
    ensures
        r@ == model_of(*body),
{
    match body.str_field("model") {
        Some(m) => m.clone(),
        None => "unknown".to_owned(),
    }
}

} // verus!

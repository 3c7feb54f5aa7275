//! What the terminal view shows: the text of its three panels, and how
//! keys move the selection.

use vstd::prelude::*;
use crate::state::{
    next_panel, select_next_spec, select_previous_spec, selection_valid, AppModel, AppState, RequestModel, RequestStatus, StatusModel,
};
use crate::state::Timestamp;
use crate::text::{push_char, byte_len, count_fitting, fitting_chars, is_char_boundary_at, utf8_len};
use vstd::string::StrSliceExecFns;

verus! {

broadcast use vstd::string::group_string_axioms;

/// The longest prefix of `s` whose encoding fits in `max` bytes.
pub open spec fn clip(s: Seq<char>, max: nat) -> Seq<char> {
    if utf8_len(s) <= max {
        s
    } else {
        s.take(fitting_chars(s, max as int) as int)
    }
}

/// `s` cut to at most `max_len` bytes, at the last character boundary that
/// fits.
pub fn truncate(s: &str, max_len: usize) -> (r: &str)
    ensures
        r@ == clip(s@, max_len as nat),
{
    if byte_len(s) <= max_len {
        s
    } else {
        let k = count_fitting(s, max_len);
        proof {
            crate::text::lemma_fitting_chars(s@, max_len as int);
        }
        s.substring_char(0, k)
    }
}

/// A clipped string fits in the limit, and is the longest prefix that
/// does: one more character would not fit.
pub proof fn lemma_clip_longest(s: Seq<char>, max: nat)
    ensures
        utf8_len(clip(s, max)) <= max,
        s.take(clip(s, max).len() as int) == clip(s, max),
        clip(s, max).len() < s.len() ==> utf8_len(s.take(clip(s, max).len() + 1 as int)) > max,
{
    crate::text::lemma_fitting_chars(s, max as int);
    if utf8_len(s) <= max {
        assert(s.take(s.len() as int) =~= s);
    } else {
        let k = fitting_chars(s, max as int) as int;
        assert(s.take(k).len() == k);
        assert(s.take(k) =~= s.take(k));
        if k == s.len() {
            assert(s.take(k) =~= s);
        }
    }
}

/// The mark shown before a request in the list.
pub open spec fn icon_of(st: StatusModel) -> Seq<char> {
    match st {
        StatusModel::Pending => "."@,
        StatusModel::Streaming => "\u{25cf}"@,
        StatusModel::Complete => "\u{2713}"@,
        StatusModel::Error(_) => "!"@,
    }
}

/// The mark shown before a request in the list (see [`icon_of`]).
pub fn status_icon(st: &RequestStatus) -> (r: &'static str)
    ensures
        r@ == icon_of(st@),
{
    match st {
        RequestStatus::Pending => ".",
        RequestStatus::Streaming => "\u{25cf}",
        RequestStatus::Complete => "\u{2713}",
        RequestStatus::Error(_) => "!",
    }
}

/// How a row of the list is coloured.
pub enum RowStyle {
    /// Dark grey.
    Waiting,
    /// Bold yellow.
    Live,
    /// Green.
    Done,
    /// Red.
    Failed,
}

/// How the row of a request is coloured, by its status.
pub fn row_style(st: &RequestStatus) -> (r: RowStyle)
    ensures
        match st@ {
            StatusModel::Pending => r is Waiting,
            StatusModel::Streaming => r is Live,
            StatusModel::Complete => r is Done,
            StatusModel::Error(_) => r is Failed,
        },
{
    match st {
        RequestStatus::Pending => RowStyle::Waiting,
        RequestStatus::Streaming => RowStyle::Live,
        RequestStatus::Complete => RowStyle::Done,
        RequestStatus::Error(_) => RowStyle::Failed,
    }
}

/// The note after a request in the list: `  streaming...` while it
/// streams, `  err: ` and the error cut to 30 bytes when it failed, else
/// nothing.
pub open spec fn note_of(st: StatusModel) -> Seq<char> {
    match st {
        StatusModel::Streaming => "  streaming..."@,
        StatusModel::Error(e) => "  err: "@ + clip(e, 30),
        _ => Seq::empty(),
    }
}

/// The note after a request in the list (see [`note_of`]).
pub fn status_note(st: &RequestStatus) -> (r: String)
    ensures
        r@ == note_of(st@),
{
    match st {
        RequestStatus::Streaming => "  streaming...".to_owned(),
        RequestStatus::Error(e) => {
            let mut r = "  err: ".to_owned();
            r.append(truncate(e.as_str(), 30));
            r
        },
        _ => String::new(),
    }
}

/// The model as the list shows it: its first 20 bytes when it is longer.
/// A cut inside a character is refused by `requires`, where slicing the
/// string would panic.
pub fn model_label(model: &str) -> (r: &str)
    requires
        utf8_len(model@) <= 20 || is_char_boundary_at(model@, 20),
    ensures
        r@ == clip(model@, 20),
        utf8_len(model@) > 20 ==> utf8_len(r@) == 20,
{
    if byte_len(model) > 20 {
        let k = count_fitting(model, 20);
        proof {
            crate::text::lemma_fitting_chars(model@, 20);
            crate::text::lemma_boundary_fitting(model@, 20);
        }
        model.substring_char(0, k)
    } else {
        model
    }
}

/// The text of the prompt panel for the selected request, if any.
pub open spec fn prompt_panel_of(r: Option<RequestModel>) -> Seq<char> {
    match r {
        Some(req) => {
            let head = "\u{2500}\u{2500} user \u{2500}\u{2500}\n"@ + req.prompt_text;
            match req.system_prompt {
                Some(s) => head + "\n\n\u{2500}\u{2500} system \u{2500}\u{2500}\n"@ + s,
                None => head,
            }
        },
        None => "No request selected"@,
    }
}

/// The selected request of a view state, if the selection points at one.
pub open spec fn selected_of(st: AppModel) -> Option<RequestModel> {
    if st.selected_index < st.requests.len() {
        Some(st.requests[st.selected_index as int])
    } else {
        None
    }
}

/// The text of the prompt panel: the user prompt of the selected request,
/// then its system prompt when it has one.
pub fn prompt_panel_text(state: &AppState) -> (r: String)
    ensures
        r@ == prompt_panel_of(selected_of(state@)),
{
    match state.selected_request() {
        Some(req) => {
            let mut text = String::new();
            text.append("\u{2500}\u{2500} user \u{2500}\u{2500}\n");
            text.append(req.prompt_text.as_str());
            match &req.system_prompt {
                Some(system) => {
                    text.append("\n\n\u{2500}\u{2500} system \u{2500}\u{2500}\n");
                    text.append(system.as_str());
                },
                None => {},
            }
            text
        },
        None => "No request selected".to_owned(),
    }
}

/// The title of the answer panel, by the status of the selected request.
pub open spec fn response_title_of(r: Option<RequestModel>) -> Seq<char> {
    match r {
        Some(req) => match req.status {
            StatusModel::Streaming => " Response (live) \u{25cf} "@,
            StatusModel::Complete => " Response (complete) "@,
            StatusModel::Error(_) => " Response (error) "@,
            StatusModel::Pending => " Response (waiting...) "@,
        },
        None => " Response "@,
    }
}

/// The content, title and highlighting of the answer panel.
pub struct ResponsePanel {
    pub content: String,
    pub title: &'static str,
    /// The title is highlighted: the selected request is streaming.
    pub live: bool,
}

/// The answer panel: the answer of the selected request under a title
/// that tells its status, highlighted while it streams.
pub fn response_panel(state: &AppState) -> (r: ResponsePanel)
    ensures
        r.content@ == match selected_of(state@) {
            Some(req) => req.response_text,
            None => "No request selected"@,
        },
        r.title@ == response_title_of(selected_of(state@)),
        r.live == (selected_of(state@) matches Some(req) && req.status is Streaming),
{
    match state.selected_request() {
        Some(req) => {
            let (title, live) = match &req.status {
                RequestStatus::Streaming => (" Response (live) \u{25cf} ", true),
                RequestStatus::Complete => (" Response (complete) ", false),
                RequestStatus::Error(_) => (" Response (error) ", false),
                RequestStatus::Pending => (" Response (waiting...) ", false),
            };
            ResponsePanel { content: req.response_text.clone(), title, live }
        },
        None => ResponsePanel {
            content: "No request selected".to_owned(),
            title: " Response ",
            live: false,
        },
    }
}

/// A key pressed in the terminal view.
pub enum Key {
    Char(char),
    Esc,
    Up,
    Down,
    PageUp,
    PageDown,
    Tab,
    Other,
}

/// Handles one key press: `q` or Esc quit (the result is true); Up or `k`
/// select the previous request, Down or `j` the next; PageDown and PageUp
/// scroll the answer by 10 lines; Tab moves the focus to the next panel;
/// other keys do nothing.
pub fn handle_key(state: &mut AppState, key: Key) -> (quit: bool)
    requires
        (key == Key::Down || key == Key::Char('j')) ==> (old(state).requests.len() == 0
            || old(state).selected_index < usize::MAX),
    ensures
        selection_valid(old(state)@) ==> selection_valid(final(state)@),
        quit == (key == Key::Char('q') || key == Key::Esc),
        final(state)@ == match key {
            Key::Char('q') | Key::Esc => old(state)@,
            Key::Up | Key::Char('k') => select_previous_spec(old(state)@),
            Key::Down | Key::Char('j') => select_next_spec(old(state)@),
            Key::PageDown => AppModel {
                response_scroll: if old(state)@.response_scroll + 10 > u16::MAX {
                    u16::MAX
                } else {
                    (old(state)@.response_scroll + 10) as u16
                },
                ..old(state)@
            },
            Key::PageUp => AppModel {
                response_scroll: if old(state)@.response_scroll >= 10 {
                    (old(state)@.response_scroll - 10) as u16
                } else {
                    0
                },
                ..old(state)@
            },
            Key::Tab => AppModel { focused: next_panel(old(state)@.focused), ..old(state)@ },
            _ => old(state)@,
        },
{
    match key {
        Key::Char('q') | Key::Esc => true,
        Key::Up | Key::Char('k') => {
            state.select_previous();
            false
        },
        Key::Down | Key::Char('j') => {
            state.select_next();
            false
        },
        Key::PageDown => {
            state.scroll_response_down(10);
            false
        },
        Key::PageUp => {
            state.scroll_response_up(10);
            false
        },
        Key::Tab => {
            state.focus_next_panel();
            false
        },
        _ => false,
    }
}

/// The decimal digit `d` (0 to 9).
pub open spec fn digit(d: int) -> char {
    (('0' as int) + d) as char
}

/// `n` (0 to 99) in two decimal digits.
pub open spec fn two_digits(n: int) -> Seq<char> {
    seq![digit(n / 10), digit(n % 10)]
}

/// The time of day in UTC of an instant, as `HH:MM:SS`; a leap second
/// (nanoseconds of a billion or more) shows as second 60.
pub open spec fn clock_text(t: Timestamp) -> Seq<char> {
    let day = t.secs as int % 86400;
    let second = day % 60 + if t.nanos >= 1_000_000_000 { 1int } else { 0int };
    two_digits(day / 3600) + seq![':'] + two_digits(day % 3600 / 60) + seq![':'] + two_digits(second)
}

fn push_two_digits(s: &mut String, n: u32)
    requires
        n < 100,
    ensures
        final(s)@ == old(s)@ + two_digits(n as int),
{
    let tens = char_of_digit(n / 10);
    let ones = char_of_digit(n % 10);
    push_char(s, tens);
    push_char(s, ones);
    assert(final(s)@ =~= old(s)@ + two_digits(n as int));
}

fn char_of_digit(d: u32) -> (c: char)
    requires
        d < 10,
    ensures
        c == digit(d as int),
{
    match d {
        0 => '0',
        1 => '1',
        2 => '2',
        3 => '3',
        4 => '4',
        5 => '5',
        6 => '6',
        7 => '7',
        8 => '8',
        _ => '9',
    }
}

/// The time of day in UTC at which a request was seen, as the request
/// list shows it (see [`clock_text`]).
pub fn clock_label(t: Timestamp) -> (r: String)
    ensures
        r@ == clock_text(t),
{
    let rem: i64 = t.secs % 86400;
    let day: i64 = if rem < 0 { rem + 86400 } else { rem };
    assert(day as int == t.secs as int % 86400);
    let d: u32 = day as u32;
    let leap: u32 = if t.nanos >= 1_000_000_000 { 1 } else { 0 };
    let mut s = String::new();
    push_two_digits(&mut s, d / 3600);
    push_char(&mut s, ':');
    push_two_digits(&mut s, d % 3600 / 60);
    push_char(&mut s, ':');
    push_two_digits(&mut s, d % 60 + leap);
    assert(s@ =~= clock_text(t));
    s
}

} // verus!

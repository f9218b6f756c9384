//! In-editor find widget (Cmd+F): its state, the case-insensitive match
//! ranges of the query, what one frame of input does to the widget (Escape,
//! an edited query, next and previous match), its "N of M" match counter,
//! and the decoration handed to the editor.

use vstd::prelude::*;

use super::highlight::FindHighlight;
use crate::pattern;

verus! {

/// State of the find widget.
pub struct FindState {
    pub open: bool,
    pub query: String,
    /// Index of the current match within the computed match list.
    pub current: usize,
    /// Ask the input box for keyboard focus on the next frame.
    pub request_focus: bool,
}

impl FindState {
    /// A closed widget with an empty query.
    pub fn new() -> (s: FindState)
        ensures
            !s.open,
            s.query@ == Seq::<char>::empty(),
            s.current == 0,
            !s.focus_requested(),
    {
        FindState { open: false, query: String::new(), current: 0, request_focus: false }
    }

    pub open spec fn focus_requested(&self) -> bool {
        self.request_focus
    }

    /// Open the widget and ask for keyboard focus on its input.
    pub fn open(&mut self)
        ensures
            final(self).open,
            final(self).focus_requested(),
            final(self).query == old(self).query,
            final(self).current == old(self).current,
    {
        self.open = true;
        self.request_focus = true;
    }

    /// Close the widget.
    pub fn close(&mut self)
        ensures
            !final(self).open,
            final(self).focus_requested() == old(self).focus_requested(),
            final(self).query == old(self).query,
            final(self).current == old(self).current,
    {
        self.open = false;
    }

    /// Hand out the pending focus request once.
    pub fn take_focus_request(&mut self) -> (r: bool)
        ensures
            r == old(self).focus_requested(),
            !final(self).focus_requested(),
            final(self).open == old(self).open,
            final(self).query == old(self).query,
            final(self).current == old(self).current,
    {
        let r = self.request_focus;
        self.request_focus = false;
        r
    }
}

impl Default for FindState {
    fn default() -> (s: FindState)
        ensures
            !s.open,
            s.query@ == Seq::<char>::empty(),
            s.current == 0,
    {
        FindState::new()
    }
}

/// What the widget asks of the editor.
pub struct FindResponse {
    /// Navigate the editor to this byte offset (start of the current match).
    pub goto: Option<usize>,
}

/// The matches of a query in a text: none for an empty query, otherwise
/// those of the escaped query as a case-insensitive regex (none if that
/// regex cannot be built).
pub open spec fn spec_matches(text: Seq<char>, query: Seq<char>) -> Seq<(usize, usize)> {
    if query.len() == 0 {
        Seq::empty()
    } else {
        let pat = pattern::regex_escape(query);
        if pattern::regex_error(pat, true) is None {
            pattern::regex_find(pat, true, text)
        } else {
            Seq::empty()
        }
    }
}

/// Case-insensitive byte ranges of `query` inside `text`.
pub fn compute_matches(text: &str, query: &str) -> (r: Vec<(usize, usize)>)
    ensures
        r@ == spec_matches(text@, query@),
{
    if query.is_empty() {
        return Vec::new();
    }
    let pat = pattern::escape(query);
    match pattern::compile(pat.as_str(), true) {
        Ok(c) => pattern::find_iter(&c, text),
        Err(_) => Vec::new(),
    }
}

/// Build the editor highlight decoration from the current widget state:
/// nothing when the widget is closed or there is no match; otherwise every
/// match, with the current index clamped to the last match.
pub fn highlight_for(state: &FindState, matches: &[(usize, usize)]) -> (r: Option<FindHighlight>)
    ensures
        match r {
            None => !state.open || matches@.len() == 0,
            Some(h) => state.open && matches@.len() > 0 && h.ranges@ == matches@ && h.current == (
            if state.current < matches@.len() {
                state.current as int
            } else {
                matches@.len() - 1
            }),
        },
{
    if !state.open || matches.len() == 0 {
        return None;
    }
    let last = matches.len() - 1;
    let current = if state.current < last {
        state.current
    } else {
        last
    };
    Some(FindHighlight { ranges: vstd::slice::slice_to_vec(matches), current })
}

/// What happened to the open find widget in one frame.
pub enum FindEvent {
    /// Nothing.
    Idle,
    /// Escape was pressed, or the close button clicked.
    Escape,
    /// The query was edited to this text.
    QueryChanged(String),
    /// Enter in the input, or the next-match button.
    Next,
    /// Shift+Enter in the input, or the previous-match button.
    Prev,
}

/// The current match kept below the number of matches `n` (0 when there
/// are none).
pub open spec fn clamped(current: usize, n: nat) -> int {
    if current < n {
        current as int
    } else if n > 0 {
        n - 1
    } else {
        0
    }
}

/// One frame of the find widget over the matches of its query. A closed
/// widget ignores the frame. Otherwise the current match is first kept
/// below the number of matches; then Escape closes the widget; an edited
/// query resets the current match to the first (without moving the
/// editor); next and previous cycle the current match around the matches
/// and move the editor to its start.
pub fn find_step(state: &mut FindState, matches: &[(usize, usize)], ev: FindEvent) -> (r: FindResponse)
    ensures
        !old(state).open ==> *final(state) == *old(state) && r.goto is None,
        old(state).open ==> ({
            let n = matches@.len();
            let c = clamped(old(state).current, n);
            &&& final(state).request_focus == old(state).request_focus
            &&& match ev {
                FindEvent::Idle => final(state).open && final(state).query == old(state).query
                    && final(state).current == c && r.goto is None,
                FindEvent::Escape => !final(state).open && final(state).query == old(state).query
                    && final(state).current == c && r.goto is None,
                FindEvent::QueryChanged(q) => final(state).open && final(state).query == q
                    && final(state).current == 0 && r.goto is None,
                FindEvent::Next => final(state).open && final(state).query == old(state).query && (
                if n > 0 {
                    final(state).current == (c + 1) % (n as int) && r.goto == Some(
                        matches@[final(state).current as int].0,
                    )
                } else {
                    final(state).current == 0 && r.goto is None
                }),
                FindEvent::Prev => final(state).open && final(state).query == old(state).query && (
                if n > 0 {
                    final(state).current == (c + n - 1) % (n as int) && r.goto == Some(
                        matches@[final(state).current as int].0,
                    )
                } else {
                    final(state).current == 0 && r.goto is None
                }),
            }
        }),
        final(state).open ==> (matches@.len() > 0 ==> final(state).current < matches@.len()),
{
    if !state.open {
        return FindResponse { goto: None };
    }
    let n = matches.len();
    if state.current >= n {
        state.current = if n > 0 {
            n - 1
        } else {
            0
        };
    }
    match ev {
        FindEvent::Idle => FindResponse { goto: None },
        FindEvent::Escape => {
            state.open = false;
            FindResponse { goto: None }
        },
        FindEvent::QueryChanged(q) => {
            state.query = q;
            state.current = 0;
            FindResponse { goto: None }
        },
        FindEvent::Next => {
            if n == 0 {
                return FindResponse { goto: None };
            }
            let c = state.current;
            state.current = if c + 1 == n {
                0
            } else {
                c + 1
            };
            assert((c + 1) % (n as int) == state.current) by {
                if c + 1 == n {
                    assert((n as int) % (n as int) == 0) by (nonlinear_arith)
                        requires
                            n > 0,
                    ;
                } else {
                    assert((c + 1) % (n as int) == c + 1) by (nonlinear_arith)
                        requires
                            0 <= c + 1 < n,
                    ;
                }
            }
            FindResponse { goto: Some(matches[state.current].0) }
        },
        FindEvent::Prev => {
            if n == 0 {
                return FindResponse { goto: None };
            }
            let c = state.current;
            state.current = if c == 0 {
                n - 1
            } else {
                c - 1
            };
            assert((c + n - 1) % (n as int) == state.current) by {
                if c == 0 {
                    assert((n - 1) % (n as int) == n - 1) by (nonlinear_arith)
                        requires
                            n > 0,
                    ;
                } else {
                    assert((c + n - 1) % (n as int) == c - 1) by (nonlinear_arith)
                        requires
                            0 < c < n,
                    ;
                }
            }
            FindResponse { goto: Some(matches[state.current].0) }
        },
    }
}

/// The widget's match counter: nothing for an empty query, "No results"
/// without matches, otherwise "N of M" (the current match counted from 1).
pub open spec fn match_counter_text(query_empty: bool, current: usize, count: usize) -> Seq<char> {
    if query_empty {
        Seq::empty()
    } else if count == 0 {
        "No results"@
    } else {
        crate::text::decimal((current + 1) as nat) + " of "@ + crate::text::decimal(count as nat)
    }
}

pub fn match_counter(query_empty: bool, current: usize, count: usize) -> (r: String)
    requires
        !query_empty && count > 0 ==> current < usize::MAX,
    ensures
        r@ == match_counter_text(query_empty, current, count),
{
    if query_empty {
        return String::new();
    }
    if count == 0 {
        return crate::text::owned("No results");
    }
    let mut r = String::new();
    crate::text::push_decimal(&mut r, current + 1);
    crate::text::push_str(&mut r, " of ");
    crate::text::push_decimal(&mut r, count);
    r
}

} // verus!

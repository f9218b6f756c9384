//! The search view's state and the decisions behind it: which query runs,
//! which result files are collapsed, and the summary line of an outcome.

use vstd::prelude::*;

use super::engine::{SearchOutcome, SearchQuery};
use crate::git::status;
use crate::text;

verus! {

/// The search view's state.
pub struct SearchState {
    pub query: String,
    pub match_case: bool,
    pub whole_word: bool,
    pub regex: bool,
    pub outcome: Option<SearchOutcome>,
    pub focus_input: bool,
    /// Paths of the result files whose matches are folded away.
    pub collapsed: Vec<String>,
}

impl SearchState {
    /// An empty query with every option off and no outcome.
    pub fn new() -> (s: SearchState)
        ensures
            s.query@.len() == 0,
            !s.match_case && !s.whole_word && !s.regex,
            s.outcome is None,
            !s.focus_input,
            s.collapsed@.len() == 0,
    {
        SearchState {
            query: String::new(),
            match_case: false,
            whole_word: false,
            regex: false,
            outcome: None,
            focus_input: false,
            collapsed: Vec::new(),
        }
    }

    /// The query to run for the current input: none when the input is blank
    /// (the outcome is then cleared), otherwise the input with the options.
    pub fn query_to_run(&self) -> (r: Option<SearchQuery>)
        ensures
            match r {
                None => text::trim(self.query@).len() == 0,
                Some(q) => text::trim(self.query@).len() > 0 && q.text@ == self.query@ && q.match_case
                    == self.match_case && q.whole_word == self.whole_word && q.regex == self.regex,
            },
    {
        let t = text::trim_string(self.query.as_str());
        if t.as_str().is_empty() {
            None
        } else {
            Some(
                SearchQuery {
                    text: text::owned(self.query.as_str()),
                    match_case: self.match_case,
                    whole_word: self.whole_word,
                    regex: self.regex,
                },
            )
        }
    }

    /// Whether the matches of the file at `path` are folded away.
    pub fn is_collapsed(&self, path: &str) -> (r: bool)
        ensures
            r == status::strs(self.collapsed@).contains(path@),
    {
        let p = text::chars_of(path);
        let mut i: usize = 0;
        while i < self.collapsed.len()
            invariant
                p@ == path@,
                0 <= i <= self.collapsed@.len(),
                forall|k: int| 0 <= k < i ==> #[trigger] status::strs(self.collapsed@)[k] != path@,
            decreases self.collapsed@.len() - i,
        {
            let c = text::chars_of(self.collapsed[i].as_str());
            if text::chars_eq(&c, &p) {
                assert(status::strs(self.collapsed@)[i as int] == path@);
                return true;
            }
            i += 1;
        }
        false
    }

    /// Folds the matches of the file at `path` away, or unfolds them when
    /// they were folded.
    pub fn toggle_collapsed(&mut self, path: &str)
        ensures
            forall|x: Seq<char>|
                #![trigger status::strs(final(self).collapsed@).contains(x)]
                status::strs(final(self).collapsed@).contains(x) <==> if status::strs(
                    old(self).collapsed@,
                ).contains(path@) {
                    status::strs(old(self).collapsed@).contains(x) && x != path@
                } else {
                    status::strs(old(self).collapsed@).contains(x) || x == path@
                },
    {
        let ghost before = status::strs(self.collapsed@);
        if self.is_collapsed(path) {
            let p = text::chars_of(path);
            let mut kept: Vec<String> = Vec::new();
            let mut i: usize = 0;
            while i < self.collapsed.len()
                invariant
                    p@ == path@,
                    before == status::strs(self.collapsed@),
                    0 <= i <= self.collapsed@.len(),
                    forall|x: Seq<char>|
                        #![trigger status::strs(kept@).contains(x)]
                        status::strs(kept@).contains(x) <==> (before.take(i as int).contains(x)
                            && x != path@),
                decreases self.collapsed@.len() - i,
            {
                let c = text::chars_of(self.collapsed[i].as_str());
                let ghost old_k = status::strs(kept@);
                assert(before.take(i + 1 as int) =~= before.take(i as int).push(before[i as int]));
                if !text::chars_eq(&c, &p) {
                    kept.push(text::owned(self.collapsed[i].as_str()));
                    assert(status::strs(kept@) =~= old_k.push(c@));
                    assert forall|x: Seq<char>|
                        #![trigger status::strs(kept@).contains(x)]
                        status::strs(kept@).contains(x) <==> (before.take(i + 1 as int).contains(x)
                            && x != path@) by {
                        let q = old_k.push(c@);
                        if q.contains(x) && x != c@ {
                            let j = choose|j: int| 0 <= j < q.len() && #[trigger] q[j] == x;
                            assert(old_k[j] == x);
                        }
                        if before.take(i + 1 as int).contains(x) && x != before[i as int] {
                            let j = choose|j: int| 0 <= j < i + 1 && #[trigger] before.take(i + 1 as int)[j] == x;
                            assert(before.take(i as int)[j] == x);
                        }
                        if x == c@ {
                            assert(old_k.push(c@)[old_k.len() as int] == x);
                            assert(before.take(i + 1 as int)[i as int] == x);
                        }
                        if before.take(i as int).contains(x) {
                            let j = choose|j: int| 0 <= j < i && #[trigger] before.take(i as int)[j] == x;
                            assert(before.take(i + 1 as int)[j] == x);
                        }
                        if old_k.contains(x) {
                            let j = choose|j: int| 0 <= j < old_k.len() && #[trigger] old_k[j] == x;
                            assert(old_k.push(c@)[j] == x);
                        }
                    }
                } else {
                    assert forall|x: Seq<char>|
                        #![trigger status::strs(kept@).contains(x)]
                        status::strs(kept@).contains(x) <==> (before.take(i + 1 as int).contains(x)
                            && x != path@) by {
                        if before.take(i + 1 as int).contains(x) && x != path@ {
                            let j = choose|j: int| 0 <= j < i + 1 && #[trigger] before.take(i + 1 as int)[j] == x;
                            assert(before.take(i as int)[j] == x);
                        }
                        if before.take(i as int).contains(x) {
                            let j = choose|j: int| 0 <= j < i && #[trigger] before.take(i as int)[j] == x;
                            assert(before.take(i + 1 as int)[j] == x);
                        }
                    }
                }
                i += 1;
            }
            assert(before.take(i as int) =~= before);
            self.collapsed = kept;
        } else {
            self.collapsed.push(text::owned(path));
            assert(status::strs(self.collapsed@) =~= before.push(path@));
            assert forall|x: Seq<char>|
                #![trigger status::strs(self.collapsed@).contains(x)]
                status::strs(self.collapsed@).contains(x) <==> (before.contains(x) || x == path@) by {
                let q = before.push(path@);
                if q.contains(x) && x != path@ {
                    let j = choose|j: int| 0 <= j < q.len() && #[trigger] q[j] == x;
                    assert(before[j] == x);
                }
                if before.contains(x) {
                    let j = choose|j: int| 0 <= j < before.len() && #[trigger] before[j] == x;
                    assert(before.push(path@)[j] == x);
                }
                if x == path@ {
                    assert(before.push(path@)[before.len() as int] == x);
                }
            }
        }
    }
}

/// What the view asks of the workbench.
pub struct SearchOutput {
    /// Open this file at this 1-based line and byte offset.
    pub navigate_to: Option<(String, usize, usize)>,
}

/// The plural ending for a count.
pub open spec fn plural_of(n: usize) -> Seq<char> {
    if n == 1 {
        ""@
    } else {
        "s"@
    }
}

pub fn plural(n: usize) -> (r: &'static str)
    ensures
        r@ == plural_of(n),
{
    if n == 1 {
        ""
    } else {
        "s"
    }
}

/// The summary line of an outcome: `"No results found."` without hits,
/// otherwise `"N result(s) in M file(s)"`, followed by `" (truncated)"` when
/// a limit cut the search short.
pub open spec fn summary(total: usize, files: usize, truncated: bool) -> Seq<char> {
    if total == 0 {
        "No results found."@
    } else {
        text::decimal(total as nat) + " result"@ + plural_of(total) + " in "@ + text::decimal(
            files as nat,
        ) + " file"@ + plural_of(files) + if truncated {
            " (truncated)"@
        } else {
            ""@
        }
    }
}

/// The summary line of `o`.
pub fn stats_text(o: &SearchOutcome) -> (r: String)
    ensures
        r@ == summary(o.total_hits, o.results@.len() as usize, o.truncated),
{
    if o.total_hits == 0 {
        return text::owned("No results found.");
    }
    let mut s = String::new();
    text::push_decimal(&mut s, o.total_hits);
    text::push_str(&mut s, " result");
    text::push_str(&mut s, plural(o.total_hits));
    text::push_str(&mut s, " in ");
    text::push_decimal(&mut s, o.results.len());
    text::push_str(&mut s, " file");
    text::push_str(&mut s, plural(o.results.len()));
    if o.truncated {
        text::push_str(&mut s, " (truncated)");
    } else {
        text::push_str(&mut s, "");
    }
    assert(s@ =~= summary(o.total_hits, o.results@.len() as usize, o.truncated));
    s
}

/// What happened to the search box in one frame: the query was edited,
/// Enter was pressed as the box lost focus, and which of the option toggles
/// (regex, whole word, match case) were clicked.
#[derive(Clone, Copy, Debug)]
pub struct SearchBoxInput {
    pub edited: bool,
    pub submitted: bool,
    pub regex_clicked: bool,
    pub whole_word_clicked: bool,
    pub match_case_clicked: bool,
}

impl SearchState {
    /// Applies one frame of the search box: an edit that empties the query
    /// clears the outcome; a clicked toggle flips its option. Returns
    /// whether the search must run again: on Enter, or when an option
    /// changed. A pending focus request is consumed.
    pub fn search_box(&mut self, input: SearchBoxInput) -> (needs_search: bool)
        ensures
            needs_search == (input.submitted || input.regex_clicked || input.whole_word_clicked
                || input.match_case_clicked),
            final(self).query == old(self).query,
            final(self).regex == (old(self).regex != input.regex_clicked),
            final(self).whole_word == (old(self).whole_word != input.whole_word_clicked),
            final(self).match_case == (old(self).match_case != input.match_case_clicked),
            input.edited && old(self).query@.len() == 0 ==> final(self).outcome is None,
            !(input.edited && old(self).query@.len() == 0) ==> final(self).outcome == old(self).outcome,
            !final(self).focus_input,
            final(self).collapsed == old(self).collapsed,
    {
        self.focus_input = false;
        if input.edited && self.query.as_str().is_empty() {
            self.outcome = None;
        }
        if input.regex_clicked {
            self.regex = !self.regex;
        }
        if input.whole_word_clicked {
            self.whole_word = !self.whole_word;
        }
        if input.match_case_clicked {
            self.match_case = !self.match_case;
        }
        input.submitted || input.regex_clicked || input.whole_word_clicked || input.match_case_clicked
    }
}

} // verus!

//! Regular-expression matching through the `regex` crate.
//!
//! The matching itself is the crate's: this module names what its calls
//! return (`regex_escape`, `regex_error`, `regex_find`) so that the callers'
//! contracts can be stated exactly over those names.

use vstd::prelude::*;

use crate::text;

verus! {

/// The characters `regex::escape` escapes (`regex_syntax::is_meta_character`).
pub open spec fn regex_meta(c: char) -> bool {
    c == '\\' || c == '.' || c == '+' || c == '*' || c == '?' || c == '(' || c == ')' || c == '|'
        || c == '[' || c == ']' || c == '{' || c == '}' || c == '^' || c == '$' || c == '#' || c
        == '&' || c == '-' || c == '~'
}

/// What `regex::escape` returns: the text with a backslash before each meta
/// character.
pub open spec fn regex_escape(s: Seq<char>) -> Seq<char>
    decreases s.len(),
{
    if s.len() == 0 {
        Seq::empty()
    } else if regex_meta(s.last()) {
        regex_escape(s.drop_last()) + seq!['\\', s.last()]
    } else {
        regex_escape(s.drop_last()).push(s.last())
    }
}

/// `None` when `RegexBuilder::new(pattern).case_insensitive(ci).build()`
/// succeeds, otherwise the text of the error it returns.
pub uninterp spec fn regex_error(pattern: Seq<char>, ci: bool) -> Option<Seq<char>>;

/// The byte ranges `(start, end)` of the matches that `Regex::find_iter`
/// yields on `text`, for the regex built from `pattern` and `ci`.
pub uninterp spec fn regex_find(pattern: Seq<char>, ci: bool, text: Seq<char>) -> Seq<(usize, usize)>;

/// Byte ranges of matches in `t` as `Regex::find_iter` yields them: each
/// starts no later than it ends, lies within the text and falls between
/// characters, and each ends no later than the next one starts.
pub open spec fn matches_in_order(t: Seq<char>, r: Seq<(usize, usize)>) -> bool {
    &&& forall|k: int|
        0 <= k < r.len() ==> #[trigger] r[k].0 <= r[k].1 <= text::byte_len(t) && text::char_boundary(
            t,
            r[k].0 as int,
        ) && text::char_boundary(t, r[k].1 as int)
    &&& forall|j: int, k: int| 0 <= j < k < r.len() ==> #[trigger] r[j].1 <= #[trigger] r[k].0
}

#[verifier::external_type_specification]
#[verifier::external_body]
pub struct ExRegex(regex::Regex);

/// A regex built by `compile`, with the pattern and the case setting it was
/// built from.
pub struct CompiledRegex {
    re: regex::Regex,
    pattern: Ghost<Seq<char>>,
    ci: Ghost<bool>,
}

impl CompiledRegex {
    /// The pattern the regex was built from.
    pub closed spec fn pattern(&self) -> Seq<char> {
        self.pattern@
    }

    /// Whether it was built case-insensitive.
    pub closed spec fn ci(&self) -> bool {
        self.ci@
    }
}

/// Calls `regex::escape`, which puts a backslash before every meta
/// character of `s` (`regex_escape`).
#[verifier::external_body]
pub(crate) fn escape(s: &str) -> (r: String)
    ensures
        r@ == regex_escape(s@),
{
    regex::escape(s)
}

/// Calls `RegexBuilder::new(pattern).case_insensitive(ci).build()`. On
/// success the regex keeps the pattern and the setting it was built from;
/// on failure the error's text is returned. Which patterns build is left to
/// the name `regex_error`.
#[verifier::external_body]
pub(crate) fn compile(pattern: &str, ci: bool) -> (r: Result<CompiledRegex, String>)
    ensures
        match r {
            Ok(c) => regex_error(pattern@, ci) is None && c.pattern() == pattern@ && c.ci() == ci,
            Err(e) => regex_error(pattern@, ci) == Some(e@),
        },
{
    match regex::RegexBuilder::new(pattern).case_insensitive(ci).build() {
        Ok(re) => Ok(CompiledRegex { re, pattern: Ghost(pattern@), ci: Ghost(ci) }),
        Err(e) => Err(e.to_string()),
    }
}

/// Calls `Regex::find_iter` on `text` and keeps each match's byte range
/// (`Match::start`, `Match::end`). Which matches are found is left to the
/// name `regex_find` of the regex's pattern and setting; the regex
/// documentation gives that they are successive and do not overlap, that
/// `start <= end`, and that both fall on character boundaries of the text.
#[verifier::external_body]
pub(crate) fn find_iter(c: &CompiledRegex, text: &str) -> (r: Vec<(usize, usize)>)
    ensures
        r@ == regex_find(c.pattern(), c.ci(), text@),
        matches_in_order(text@, r@),
{
    c.re.find_iter(text).map(|m| (m.start(), m.end())).collect()
}

/// Builds the regex of `pattern` (case-insensitive when `ci`) and collects
/// its matches on each of `lines`; on a build error, the error's text.
pub(crate) fn find_in_lines(pattern: &str, ci: bool, lines: &Vec<String>) -> (r: Result<
    Vec<Vec<(usize, usize)>>,
    String,
>)
    ensures
        match r {
            Ok(hits) => {
                &&& regex_error(pattern@, ci) is None
                &&& hits@.len() == lines@.len()
                &&& forall|i: int|
                    0 <= i < lines@.len() ==> #[trigger] hits@[i]@ == regex_find(
                        pattern@,
                        ci,
                        lines@[i]@,
                    )
            },
            Err(e) => regex_error(pattern@, ci) == Some(e@),
        },
{
    let c = match compile(pattern, ci) {
        Ok(c) => c,
        Err(e) => {
            return Err(e);
        },
    };
    let mut hits: Vec<Vec<(usize, usize)>> = Vec::new();
    let mut i: usize = 0;
    while i < lines.len()
        invariant
            0 <= i <= lines@.len(),
            c.pattern() == pattern@,
            c.ci() == ci,
            hits@.len() == i,
            forall|k: int| 0 <= k < i ==> #[trigger] hits@[k]@ == regex_find(pattern@, ci, lines@[k]@),
        decreases lines@.len() - i,
    {
        hits.push(find_iter(&c, lines[i].as_str()));
        i += 1;
    }
    Ok(hits)
}

} // verus!

//! The search engine: plain (optionally case-insensitive, optionally
//! whole-word) or regular-expression matching of a query against the lines
//! of every file of a folder walk, with limits on files and hits.

use vstd::prelude::*;

use crate::pattern;
use crate::text;

verus! {

/// What to search for.
pub struct SearchQuery {
    pub text: String,
    pub match_case: bool,
    pub whole_word: bool,
    pub regex: bool,
}

/// One match: the 1-based line, the byte offset of the match in the line
/// (in the lowercased line for a case-insensitive plain search), and the
/// line's preview.
pub struct SearchHit {
    pub line: usize,
    pub byte_start: usize,
    pub preview: String,
}

/// The matches in one file.
pub struct FileResult {
    pub path: String,
    pub hits: Vec<SearchHit>,
}

/// The result of a search.
pub struct SearchOutcome {
    pub results: Vec<FileResult>,
    pub files_scanned: usize,
    pub total_hits: usize,
    pub truncated: bool,
    pub error: Option<String>,
}

/// Files larger than this many bytes are not searched.
pub const MAX_FILE_SIZE: u64 = 1048576;

/// The search stops at this many hits.
pub const MAX_TOTAL_HITS: usize = 1000;

/// The search stops at this many files with hits.
pub const MAX_FILES_MATCHED: usize = 200;

/// Previews keep at most this many characters of the trimmed line.
pub const MAX_LINE_PREVIEW: usize = 200;

/// A hit as `(line, byte start, preview)`.
pub type HitModel = (usize, usize, Seq<char>);

pub open spec fn hit_views(v: Seq<SearchHit>) -> Seq<HitModel> {
    v.map_values(|h: SearchHit| (h.line, h.byte_start, h.preview@))
}

/// The mathematical value of a `SearchOutcome`.
#[verifier::ext_equal]
pub struct OutcomeModel {
    pub results: Seq<(Seq<char>, Seq<HitModel>)>,
    pub files_scanned: usize,
    pub total_hits: usize,
    pub truncated: bool,
    pub error: Option<Seq<char>>,
}

pub open spec fn result_views(v: Seq<FileResult>) -> Seq<(Seq<char>, Seq<HitModel>)> {
    v.map_values(|f: FileResult| (f.path@, hit_views(f.hits@)))
}

impl View for SearchOutcome {
    type V = OutcomeModel;

    open spec fn view(&self) -> OutcomeModel {
        OutcomeModel {
            results: result_views(self.results@),
            files_scanned: self.files_scanned,
            total_hits: self.total_hits,
            truncated: self.truncated,
            error: match self.error {
                Some(e) => Some(e@),
                None => None,
            },
        }
    }
}

/// An outcome with nothing found yet.
pub open spec fn empty_outcome() -> OutcomeModel {
    OutcomeModel {
        results: Seq::empty(),
        files_scanned: 0,
        total_hits: 0,
        truncated: false,
        error: None,
    }
}

impl SearchOutcome {
    /// An outcome with nothing found yet.
    pub fn new() -> (o: SearchOutcome)
        ensures
            o@ == empty_outcome(),
    {
        let o = SearchOutcome {
            results: Vec::new(),
            files_scanned: 0,
            total_hits: 0,
            truncated: false,
            error: None,
        };
        assert(o@ =~= empty_outcome());
        o
    }
}

/// How lines are matched.
pub enum Matcher {
    /// A literal needle, compared case-insensitively (through lowercased
    /// text) unless `match_case`; with `whole_word` only matches that stand
    /// between non-word characters count.
    Plain { needle_lower: String, needle_orig: String, match_case: bool, whole_word: bool },
    /// A regular expression that builds.
    Regex { pattern: String },
}

/// The mathematical value of a `Matcher`.
pub enum MatcherModel {
    Plain { needle_lower: Seq<char>, needle_orig: Seq<char>, match_case: bool, whole_word: bool },
    Regex { pattern: Seq<char> },
}

impl View for Matcher {
    type V = MatcherModel;

    open spec fn view(&self) -> MatcherModel {
        match self {
            Matcher::Plain { needle_lower, needle_orig, match_case, whole_word } => MatcherModel::Plain {
                needle_lower: needle_lower@,
                needle_orig: needle_orig@,
                match_case: *match_case,
                whole_word: *whole_word,
            },
            Matcher::Regex { pattern } => MatcherModel::Regex { pattern: pattern@ },
        }
    }
}

/// A matcher as `build_matcher` makes it: a plain needle is the lowercase
/// of a non-empty text, a pattern builds.
pub open spec fn matcher_wf(m: MatcherModel) -> bool {
    match m {
        MatcherModel::Plain { needle_lower, needle_orig, .. } => needle_orig.len() > 0
            && needle_lower == text::lowercase(needle_orig),
        MatcherModel::Regex { pattern } => pattern::regex_error(pattern, false) is None,
    }
}

/// The pattern a regex query is built from: case-insensitive (`(?i)`)
/// unless the query matches case.
pub open spec fn query_pattern(text: Seq<char>, match_case: bool) -> Seq<char> {
    if match_case {
        text
    } else {
        "(?i)"@ + text
    }
}

/// Builds the matcher of a query: a regex query whose pattern does not
/// build gives `"Invalid regex: "` followed by the regex error.
pub fn build_matcher(q: &SearchQuery) -> (r: Result<Matcher, String>)
    requires
        q.text@.len() > 0,
    ensures
        q.regex ==> match pattern::regex_error(query_pattern(q.text@, q.match_case), false) {
            None => (r matches Ok(m) && m@ == (MatcherModel::Regex {
                pattern: query_pattern(q.text@, q.match_case),
            })),
            Some(e) => (r matches Err(msg) && msg@ == "Invalid regex: "@ + e),
        },
        !q.regex ==> (r matches Ok(m) && m@ == (MatcherModel::Plain {
            needle_lower: text::lowercase(q.text@),
            needle_orig: q.text@,
            match_case: q.match_case,
            whole_word: q.whole_word,
        })),
        r matches Ok(m) ==> matcher_wf(m@),
{
    if q.regex {
        let pattern = if q.match_case {
            text::owned(q.text.as_str())
        } else {
            let mut p = text::owned("(?i)");
            text::push_str(&mut p, q.text.as_str());
            p
        };
        match pattern::compile(pattern.as_str(), false) {
            Ok(_) => Ok(Matcher::Regex { pattern }),
            Err(e) => {
                let mut msg = text::owned("Invalid regex: ");
                text::push_str(&mut msg, e.as_str());
                Err(msg)
            },
        }
    } else {
        Ok(
            Matcher::Plain {
                needle_lower: text::to_lowercase(q.text.as_str()),
                needle_orig: text::owned(q.text.as_str()),
                match_case: q.match_case,
                whole_word: q.whole_word,
            },
        )
    }
}

/// Letters, digits (as `char::is_alphanumeric` has them) and `'_'`.
pub open spec fn word_char(c: char) -> bool {
    text::alphanumeric(c) || c == '_'
}

pub fn is_word_char(c: char) -> (r: bool)
    ensures
        r == word_char(c),
{
    text::is_alphanumeric(c) || c == '_'
}

/// No word character touches `h[i..e]` on either side.
pub open spec fn word_boundary(h: Seq<char>, i: int, e: int) -> bool {
    (i == 0 || !word_char(h[i - 1])) && (e >= h.len() || !word_char(h[e]))
}

/// The non-overlapping occurrences of `n` in `h` from index `i` on, as
/// character ranges, found left to right (the search resumes after each
/// occurrence, kept or not); with `whole` only those on word boundaries
/// are kept.
pub open spec fn plain_scan(h: Seq<char>, n: Seq<char>, whole: bool, i: int) -> Seq<(int, int)>
    decreases h.len() - i,
{
    if n.len() == 0 || i < 0 || i + n.len() > h.len() {
        Seq::empty()
    } else if text::occurs_at(h, n, i) {
        let e = i + n.len();
        let rest = plain_scan(h, n, whole, e);
        if !whole || word_boundary(h, i, e) {
            seq![(i, e)] + rest
        } else {
            rest
        }
    } else {
        plain_scan(h, n, whole, i + 1)
    }
}

/// Character ranges of `h` as byte ranges of its UTF-8 encoding.
pub open spec fn byte_ranges(h: Seq<char>, r: Seq<(int, int)>) -> Seq<(usize, usize)> {
    r.map_values(
        |p: (int, int)| (text::byte_len(h.take(p.0)) as usize, text::byte_len(h.take(p.1)) as usize),
    )
}

/// The byte ranges of the matches of `m` in `line`.
pub open spec fn line_matches(m: MatcherModel, line: Seq<char>) -> Seq<(usize, usize)> {
    match m {
        MatcherModel::Plain { needle_lower, needle_orig, match_case, whole_word } => {
            let h = if match_case {
                line
            } else {
                text::lowercase(line)
            };
            let n = if match_case {
                needle_orig
            } else {
                needle_lower
            };
            byte_ranges(h, plain_scan(h, n, whole_word, 0))
        },
        MatcherModel::Regex { pattern } => pattern::regex_find(pattern, false, line),
    }
}

/// The byte ranges of the plain occurrences of `n` in `h`.
fn plain_find_all(h: &str, n: &str, whole: bool) -> (r: Vec<(usize, usize)>)
    ensures
        r@ == byte_ranges(h@, plain_scan(h@, n@, whole, 0)),
{
    let hv = text::chars_of(h);
    let nv = text::chars_of(n);
    let total = text::str_byte_len(h);
    let mut r: Vec<(usize, usize)> = Vec::new();
    if nv.len() == 0 {
        return r;
    }
    let ghost hs = hv@;
    let ghost ns = nv@;
    let mut i: usize = 0;
    let mut bi: usize = 0;
    assert(hs.take(0) =~= Seq::<char>::empty());
    assert(r@ + byte_ranges(hs, plain_scan(hs, ns, whole, 0)).skip(0) =~= byte_ranges(
        hs,
        plain_scan(hs, ns, whole, 0),
    ));
    while i < hv.len() && nv.len() <= hv.len() - i
        invariant
            hs == hv@,
            hs == h@,
            ns == nv@,
            ns == n@,
            ns.len() > 0,
            total == text::byte_len(hs),
            0 <= i <= hs.len(),
            bi == text::byte_len(hs.take(i as int)),
            r@ + byte_ranges(hs, plain_scan(hs, ns, whole, i as int)) == byte_ranges(
                hs,
                plain_scan(hs, ns, whole, 0),
            ),
        decreases hs.len() - i,
    {
        proof {
            assert(hs.subrange(0, i as int) =~= hs.take(i as int));
            text::lemma_byte_len_sub_mono(hs, 0, i as int, hs.len() as int);
            assert(hs.subrange(0, hs.len() as int) =~= hs);
        }
        if text::occurs_at_exec(&hv, &nv, i) {
            let e = i + nv.len();
            // The byte offset of `e`: the widths of the needle's characters.
            let mut be: usize = bi;
            let mut k: usize = i;
            while k < e
                invariant
                    hs == hv@,
                    total == text::byte_len(hs),
                    i <= k <= e <= hs.len(),
                    be == text::byte_len(hs.take(k as int)),
                decreases e - k,
            {
                proof {
                    assert(hs.subrange(0, k + 1 as int) =~= hs.take(k + 1 as int));
                    text::lemma_byte_len_sub_mono(hs, 0, k + 1 as int, hs.len() as int);
                    assert(hs.subrange(0, hs.len() as int) =~= hs);
                    assert(hs.take(k + 1 as int).drop_last() =~= hs.take(k as int));
                }
                be = be + text::char_width(hv[k]);
                k += 1;
            }
            let keep = if whole {
                let prev_ok = i == 0 || !is_word_char(hv[i - 1]);
                let next_ok = e >= hv.len() || !is_word_char(hv[e]);
                prev_ok && next_ok
            } else {
                true
            };
            let ghost old_r = r@;
            if keep {
                r.push((bi, be));
                assert(byte_ranges(hs, plain_scan(hs, ns, whole, i as int)) =~= seq![
                    (bi, be),
                ] + byte_ranges(hs, plain_scan(hs, ns, whole, e as int)));
                assert(r@ =~= old_r + seq![(bi, be)]);
                assert(old_r + (seq![(bi, be)] + byte_ranges(hs, plain_scan(hs, ns, whole, e as int)))
                    =~= r@ + byte_ranges(hs, plain_scan(hs, ns, whole, e as int)));
            } else {
                assert(plain_scan(hs, ns, whole, i as int) == plain_scan(hs, ns, whole, e as int));
            }
            i = e;
            bi = be;
        } else {
            proof {
                assert(hs.subrange(0, i + 1 as int) =~= hs.take(i + 1 as int));
                text::lemma_byte_len_sub_mono(hs, 0, i + 1 as int, hs.len() as int);
                assert(hs.take(i + 1 as int).drop_last() =~= hs.take(i as int));
            }
            assert(plain_scan(hs, ns, whole, i as int) == plain_scan(hs, ns, whole, i + 1));
            bi = bi + text::char_width(hv[i]);
            i += 1;
        }
    }
    assert(plain_scan(hs, ns, whole, i as int) == Seq::<(int, int)>::empty());
    assert(r@ + Seq::<(usize, usize)>::empty() =~= r@);
    r
}

/// The byte ranges of the matches of `m` in `line`.
pub fn find_all(m: &Matcher, line: &str) -> (r: Vec<(usize, usize)>)
    requires
        matcher_wf(m@),
    ensures
        r@ == line_matches(m@, line@),
        m@ is Regex ==> pattern::matches_in_order(line@, r@),
{
    match m {
        Matcher::Plain { needle_lower, needle_orig, match_case, whole_word } => {
            if *match_case {
                plain_find_all(line, needle_orig.as_str(), *whole_word)
            } else {
                let h = text::to_lowercase(line);
                plain_find_all(h.as_str(), needle_lower.as_str(), *whole_word)
            }
        },
        Matcher::Regex { pattern } => {
            match pattern::compile(pattern.as_str(), false) {
                Ok(c) => pattern::find_iter(&c, line),
                Err(_) => Vec::new(),
            }
        },
    }
}

/// The preview of a line: the line without leading whitespace, cut to
/// `MAX_LINE_PREVIEW` characters followed by `'…'` when longer.
pub open spec fn preview(line: Seq<char>) -> Seq<char> {
    let t = text::trim_start(line);
    if t.len() > MAX_LINE_PREVIEW {
        t.take(MAX_LINE_PREVIEW as int).push('…')
    } else {
        t
    }
}

/// A preview holds at most `MAX_LINE_PREVIEW` characters of the line and
/// the ellipsis.
pub proof fn law_preview_is_short(line: Seq<char>)
    ensures
        preview(line).len() <= MAX_LINE_PREVIEW + 1,
{
}

pub fn trim_preview(line: &str) -> (r: String)
    ensures
        r@ == preview(line@),
{
    let v = text::chars_of(line);
    let a = text::trim_start_range(&v, 0, v.len());
    assert(v@.subrange(0, v@.len() as int) =~= v@);
    if v.len() - a > MAX_LINE_PREVIEW {
        let mut r = text::string_of(&v, a, a + MAX_LINE_PREVIEW);
        text::push_char(&mut r, '…');
        assert(v@.subrange(a as int, a + MAX_LINE_PREVIEW) =~= v@.subrange(
            a as int,
            v@.len() as int,
        ).take(MAX_LINE_PREVIEW as int));
        r
    } else {
        text::string_of(&v, a, v.len())
    }
}

/// Folders the walk never enters.
pub open spec fn ignored_dir(name: Seq<char>) -> bool {
    name == "node_modules"@ || name == "target"@ || name == "dist"@ || name == "build"@ || name
        == "out"@ || name == ".git"@ || name == ".svn"@ || name == ".hg"@ || name == ".idea"@
        || name == ".vscode"@ || name == ".next"@ || name == ".turbo"@ || name == "__pycache__"@
        || name == ".pytest_cache"@ || name == ".mypy_cache"@ || name == ".tox"@ || name
        == ".venv"@ || name == "venv"@ || name == ".cargo"@
}

fn is_ignored_dir(name: &Vec<char>) -> (r: bool)
    ensures
        r == ignored_dir(name@),
{
    text::str_eq(name, "node_modules") || text::str_eq(name, "target") || text::str_eq(name, "dist")
        || text::str_eq(name, "build") || text::str_eq(name, "out") || text::str_eq(name, ".git")
        || text::str_eq(name, ".svn") || text::str_eq(name, ".hg") || text::str_eq(name, ".idea")
        || text::str_eq(name, ".vscode") || text::str_eq(name, ".next") || text::str_eq(
        name,
        ".turbo",
    ) || text::str_eq(name, "__pycache__") || text::str_eq(name, ".pytest_cache")
        || text::str_eq(name, ".mypy_cache") || text::str_eq(name, ".tox") || text::str_eq(
        name,
        ".venv",
    ) || text::str_eq(name, "venv") || text::str_eq(name, ".cargo")
}

/// Whether the walk enters (or yields) an entry named `name` found at
/// `depth` below the root: ignored folders never, hidden entries (other
/// than `.env`) only at the root itself.
pub open spec fn entry_accepted(name: Seq<char>, depth: usize) -> bool {
    !ignored_dir(name) && !(depth > 0 && name.len() > 0 && name[0] == '.' && name != ".env"@)
}

pub fn accept_entry(name: &str, depth: usize) -> (r: bool)
    ensures
        r == entry_accepted(name@, depth),
{
    let v = text::chars_of(name);
    if is_ignored_dir(&v) {
        return false;
    }
    if depth > 0 && v.len() > 0 && v[0] == '.' && !text::str_eq(&v, ".env") {
        return false;
    }
    true
}

/// Lock files and similar that are never searched.
pub open spec fn skipped_name(name: Seq<char>) -> bool {
    name == "Cargo.lock"@ || name == "package-lock.json"@ || name == "yarn.lock"@ || name
        == "pnpm-lock.yaml"@ || name == "Pipfile.lock"@ || name == "poetry.lock"@ || name
        == ".DS_Store"@
}

pub fn skip_file_name(name: &str) -> (r: bool)
    ensures
        r == skipped_name(name@),
{
    let v = text::chars_of(name);
    text::str_eq(&v, "Cargo.lock") || text::str_eq(&v, "package-lock.json") || text::str_eq(
        &v,
        "yarn.lock",
    ) || text::str_eq(&v, "pnpm-lock.yaml") || text::str_eq(&v, "Pipfile.lock") || text::str_eq(
        &v,
        "poetry.lock",
    ) || text::str_eq(&v, ".DS_Store")
}

/// A file is treated as binary when the first bytes read from it hold a
/// zero byte.
pub open spec fn binary_head(head: Seq<u8>) -> bool {
    head.contains(0u8)
}

pub fn is_binary(head: &[u8]) -> (r: bool)
    ensures
        r == binary_head(head@),
{
    let mut i: usize = 0;
    while i < head.len()
        invariant
            0 <= i <= head@.len(),
            forall|k: int| 0 <= k < i ==> head@[k] != 0u8,
        decreases head@.len() - i,
    {
        if head[i] == 0u8 {
            assert(head@[i as int] == 0u8);
            return true;
        }
        i += 1;
    }
    false
}

/// The hits of one line (line number `ln`), in match order.
pub open spec fn line_hits(m: MatcherModel, line: Seq<char>, ln: int) -> Seq<HitModel> {
    line_matches(m, line).map_values(|p: (usize, usize)| (ln as usize, p.0, preview(line)))
}

/// The hits of all lines, in order.
pub open spec fn content_hits(m: MatcherModel, ls: Seq<Seq<char>>) -> Seq<HitModel>
    decreases ls.len(),
{
    if ls.len() == 0 {
        Seq::empty()
    } else {
        content_hits(m, ls.drop_last()) + line_hits(m, ls.last(), ls.len() as int)
    }
}

proof fn lemma_content_hits_prefix(m: MatcherModel, ls: Seq<Seq<char>>, k: int)
    requires
        0 <= k <= ls.len(),
    ensures
        content_hits(m, ls.take(k)).len() <= content_hits(m, ls).len(),
        content_hits(m, ls).take(content_hits(m, ls.take(k)).len() as int) == content_hits(
            m,
            ls.take(k),
        ),
    decreases ls.len(),
{
    if k == ls.len() {
        assert(ls.take(k) =~= ls);
        assert(content_hits(m, ls).take(content_hits(m, ls).len() as int) =~= content_hits(m, ls));
    } else {
        let d = ls.drop_last();
        assert(d.take(k) =~= ls.take(k));
        lemma_content_hits_prefix(m, d, k);
        let a = content_hits(m, d);
        let p = content_hits(m, ls.take(k));
        assert(content_hits(m, ls).take(p.len() as int) =~= a.take(p.len() as int));
    }
}

/// The matches of `m` on each of `lines`.
fn matches_per_line(m: &Matcher, lines: &Vec<String>) -> (r: Vec<Vec<(usize, usize)>>)
    requires
        matcher_wf(m@),
    ensures
        r@.len() == lines@.len(),
        forall|i: int| 0 <= i < lines@.len() ==> #[trigger] r@[i]@ == line_matches(m@, lines@[i]@),
{
    match m {
        Matcher::Regex { pattern } => {
            match pattern::find_in_lines(pattern.as_str(), false, lines) {
                Ok(hits) => hits,
                Err(_) => Vec::new(),
            }
        },
        Matcher::Plain { .. } => {
            let mut r: Vec<Vec<(usize, usize)>> = Vec::new();
            let mut i: usize = 0;
            while i < lines.len()
                invariant
                    matcher_wf(m@),
                    0 <= i <= lines@.len(),
                    r@.len() == i,
                    forall|k: int| 0 <= k < i ==> #[trigger] r@[k]@ == line_matches(m@, lines@[k]@),
                decreases lines@.len() - i,
            {
                r.push(find_all(m, lines[i].as_str()));
                i += 1;
            }
            r
        },
    }
}

/// The hits of a file's text: all of them while fewer than `remaining`,
/// otherwise the first `remaining`; the flag tells whether the limit was
/// reached.
pub fn scan_content(m: &Matcher, content: &str, remaining: usize) -> (r: (Vec<SearchHit>, bool))
    requires
        matcher_wf(m@),
        remaining > 0,
    ensures
        ({
            let all = content_hits(m@, text::lines(content@));
            &&& r.1 == (all.len() >= remaining)
            &&& hit_views(r.0@) == if r.1 {
                all.take(remaining as int)
            } else {
                all
            }
        }),
{
    let v = text::chars_of(content);
    let ranges = text::line_ranges(&v);
    let ghost ls = text::lines(content@);
    let mut lines: Vec<String> = Vec::new();
    let mut j: usize = 0;
    while j < ranges.len()
        invariant
            v@ == content@,
            ls == text::lines(content@),
            text::ranges_cut(v@, ranges@, ls),
            0 <= j <= ranges@.len(),
            lines@.len() == j,
            forall|k: int| 0 <= k < j ==> #[trigger] lines@[k]@ == ls[k],
        decreases ranges@.len() - j,
    {
        let (a, b) = ranges[j];
        assert(ls[j as int] == v@.subrange(a as int, b as int));
        lines.push(text::string_of(&v, a, b));
        j += 1;
    }
    let per_line = matches_per_line(m, &lines);
    let mut hits: Vec<SearchHit> = Vec::new();
    let mut i: usize = 0;
    assert(ls.take(0) =~= Seq::<Seq<char>>::empty());
    while i < lines.len()
        invariant
            ls == text::lines(content@),
            lines@.len() == ls.len(),
            forall|k: int| 0 <= k < ls.len() ==> #[trigger] lines@[k]@ == ls[k],
            per_line@.len() == ls.len(),
            forall|k: int|
                0 <= k < ls.len() ==> #[trigger] per_line@[k]@ == line_matches(m@, lines@[k]@),
            0 <= i <= ls.len(),
            hit_views(hits@) == content_hits(m@, ls.take(i as int)),
            hits@.len() < remaining,
        decreases ls.len() - i,
    {
        let line = &lines[i];
        let found = &per_line[i];
        let pv = trim_preview(line.as_str());
        let ghost lh = line_hits(m@, ls[i as int], i + 1);
        let ghost base = hit_views(hits@);
        assert(ls.take(i + 1 as int).drop_last() =~= ls.take(i as int));
        assert(ls.take(i + 1 as int).last() == ls[i as int]);
        assert(content_hits(m@, ls.take(i + 1 as int)) == base + lh);
        let mut k: usize = 0;
        while k < found.len()
            invariant
                found@ == line_matches(m@, ls[i as int]),
                lh == line_hits(m@, ls[i as int], i + 1),
                pv@ == preview(ls[i as int]),
                i < ls.len(),
                i + 1 <= usize::MAX,
                content_hits(m@, ls.take(i + 1 as int)) == base + lh,
                ls == text::lines(content@),
                0 <= k <= found@.len(),
                hit_views(hits@) == base + lh.take(k as int),
                hits@.len() < remaining,
            decreases found@.len() - k,
        {
            let ghost before = hit_views(hits@);
            hits.push(SearchHit { line: i + 1, byte_start: found[k].0, preview: text::owned(pv.as_str()) });
            k += 1;
            assert(hit_views(hits@) =~= before.push(lh[k - 1]));
            assert(base + lh.take(k as int) =~= (base + lh.take(k - 1 as int)).push(lh[k - 1]));
            if hits.len() >= remaining {
                proof {
                    lemma_content_hits_prefix(m@, ls, i + 1);
                    let all = content_hits(m@, ls);
                    let pre = content_hits(m@, ls.take(i + 1 as int));
                    assert(hit_views(hits@).len() == hits@.len());
                    assert(hits@.len() == remaining);
                    assert(base.len() + k == remaining);
                    assert(pre.take(remaining as int) =~= base + lh.take(k as int));
                    assert(remaining <= pre.len());
                    assert(all.take(pre.len() as int) == pre);
                    assert(all.take(remaining as int) =~= all.take(pre.len() as int).take(
                        remaining as int,
                    ));
                }
                return (hits, true);
            }
        }
        assert(lh.take(k as int) =~= lh);
        i += 1;
    }
    assert(ls.take(i as int) =~= ls);
    (hits, false)
}

/// One entry of the folder walk, as the caller read it: whether it is a
/// file, its file name (when it has a UTF-8 one), its size (when its
/// metadata could be read), the first bytes read from it (when it could be
/// opened and read) and its text (when it could be read as UTF-8). An entry
/// the walk failed on counts as one that is not a file.
pub struct WalkEntry {
    pub path: String,
    pub is_file: bool,
    pub name: Option<String>,
    pub size: Option<u64>,
    pub head: Option<Vec<u8>>,
    pub content: Option<String>,
}

/// The mathematical value of a `WalkEntry`.
pub struct EntryModel {
    pub path: Seq<char>,
    pub is_file: bool,
    pub name: Option<Seq<char>>,
    pub size: Option<u64>,
    pub head: Option<Seq<u8>>,
    pub content: Option<Seq<char>>,
}

impl View for WalkEntry {
    type V = EntryModel;

    open spec fn view(&self) -> EntryModel {
        EntryModel {
            path: self.path@,
            is_file: self.is_file,
            name: match self.name {
                Some(n) => Some(n@),
                None => None,
            },
            size: self.size,
            head: match self.head {
                Some(h) => Some(h@),
                None => None,
            },
            content: match self.content {
                Some(c) => Some(c@),
                None => None,
            },
        }
    }
}

/// The limits hold: no more hits and no more matched files than allowed.
pub open spec fn within_limits(o: OutcomeModel) -> bool {
    o.total_hits <= MAX_TOTAL_HITS && o.results.len() <= MAX_FILES_MATCHED
}

/// `o` marked as truncated.
pub open spec fn truncate(o: OutcomeModel) -> OutcomeModel {
    OutcomeModel { truncated: true, ..o }
}

/// The outcome after a file's text was scanned: its hits (up to the hit
/// limit) are added, with the file, when there are any; the flag tells
/// whether the hit limit was reached, which also marks the outcome
/// truncated.
pub open spec fn record_file(o: OutcomeModel, m: MatcherModel, path: Seq<char>, content: Seq<char>) -> (
    OutcomeModel,
    bool,
) {
    let all = content_hits(m, text::lines(content));
    let remaining = MAX_TOTAL_HITS - o.total_hits;
    let stop = all.len() >= remaining;
    let hits = if stop {
        all.take(remaining)
    } else {
        all
    };
    let o1 = if hits.len() > 0 {
        OutcomeModel {
            results: o.results.push((path, hits)),
            total_hits: (o.total_hits + hits.len()) as usize,
            ..o
        }
    } else {
        o
    };
    (
        if stop {
            truncate(o1)
        } else {
            o1
        },
        stop,
    )
}

/// The outcome after one more walk entry, and whether the search stops:
/// it stops (truncated) when a limit was already reached; entries that are
/// not searchable files change nothing; a searchable file counts as
/// scanned, and its text, when it could be read, is recorded.
pub open spec fn step_outcome(o: OutcomeModel, m: MatcherModel, e: EntryModel) -> (OutcomeModel, bool) {
    if o.results.len() >= MAX_FILES_MATCHED || o.total_hits >= MAX_TOTAL_HITS {
        (truncate(o), true)
    } else if !e.is_file || e.name is None || skipped_name(e.name->0) || e.size is None
        || e.size->0 > MAX_FILE_SIZE || (e.head is Some && binary_head(e.head->0)) {
        (o, false)
    } else {
        let o1 = OutcomeModel { files_scanned: (o.files_scanned + 1) as usize, ..o };
        match e.content {
            None => (o1, false),
            Some(c) => record_file(o1, m, e.path, c),
        }
    }
}

/// Whether the search reads the text of the walk entry `e`: a file with a
/// name that is not skipped, of known size within the limit, whose first
/// bytes (where they were read) are not binary.
pub open spec fn reads_content(e: EntryModel) -> bool {
    !(!e.is_file || e.name is None || skipped_name(e.name->0) || e.size is None || e.size->0
        > MAX_FILE_SIZE || (e.head is Some && binary_head(e.head->0)))
}

/// Whether the search reads the text of `e`, so that a walker reads only
/// the files whose text is needed.
pub fn needs_content(e: &WalkEntry) -> (r: bool)
    ensures
        r == reads_content(e@),
{
    if !e.is_file {
        return false;
    }
    let name = match &e.name {
        None => return false,
        Some(n) => n,
    };
    if skip_file_name(name.as_str()) {
        return false;
    }
    let size = match e.size {
        None => return false,
        Some(s) => s,
    };
    if size > MAX_FILE_SIZE {
        return false;
    }
    match &e.head {
        Some(h) => !is_binary(h.as_slice()),
        None => true,
    }
}

/// The text of an entry whose text the search does not read makes no
/// difference to the step.
pub proof fn law_unread_text_is_ignored(o: OutcomeModel, m: MatcherModel, e: EntryModel, c: Option<Seq<char>>)
    requires
        !reads_content(e),
    ensures
        step_outcome(o, m, EntryModel { content: c, ..e }) == step_outcome(o, m, e),
{
}

/// The outcome after the walk entries `es`, stopping at the first step
/// that stops the search.
pub open spec fn walk_outcome(o: OutcomeModel, m: MatcherModel, es: Seq<EntryModel>) -> OutcomeModel
    decreases es.len(),
{
    if es.len() == 0 {
        o
    } else {
        let (o1, stop) = step_outcome(o, m, es[0]);
        if stop {
            o1
        } else {
            walk_outcome(o1, m, es.drop_first())
        }
    }
}

impl SearchOutcome {
    /// Records one more walk entry; returns whether the search stops here.
    pub fn step(&mut self, m: &Matcher, e: WalkEntry) -> (stop: bool)
        requires
            matcher_wf(m@),
            within_limits(old(self)@),
            old(self).files_scanned < usize::MAX,
        ensures
            (final(self)@, stop) == step_outcome(old(self)@, m@, e@),
            within_limits(final(self)@),
            final(self).files_scanned <= old(self).files_scanned + 1,
    {
        let ghost o = self@;
        if self.results.len() >= MAX_FILES_MATCHED || self.total_hits >= MAX_TOTAL_HITS {
            self.truncated = true;
            assert(self@ =~= truncate(o));
            return true;
        }
        if !e.is_file {
            return false;
        }
        let name = match &e.name {
            None => return false,
            Some(n) => n,
        };
        if skip_file_name(name.as_str()) {
            return false;
        }
        match e.size {
            None => return false,
            Some(sz) => {
                if sz > MAX_FILE_SIZE {
                    return false;
                }
            },
        }
        match &e.head {
            Some(h) => {
                if is_binary(h.as_slice()) {
                    return false;
                }
            },
            None => {},
        }
        self.files_scanned = self.files_scanned + 1;
        let ghost o1 = self@;
        assert(o1 =~= OutcomeModel { files_scanned: (o.files_scanned + 1) as usize, ..o });
        let content = match e.content {
            None => return false,
            Some(c) => c,
        };
        let remaining = MAX_TOTAL_HITS - self.total_hits;
        let (hits, stop) = scan_content(m, content.as_str(), remaining);
        assert(hit_views(hits@).len() == hits@.len());
        assert(hits@.len() <= remaining);
        if hits.len() > 0 {
            self.total_hits = self.total_hits + hits.len();
            let ghost before = result_views(self.results@);
            let ghost hv = hit_views(hits@);
            self.results.push(FileResult { path: e.path, hits });
            assert(result_views(self.results@) =~= before.push((e@.path, hv)));
        }
        if stop {
            self.truncated = true;
        }
        assert(self@ =~= record_file(o1, m@, e@.path, content@).0);
        stop
    }
}

/// The outcome of a search for `q` over the walk entries `es`: nothing for
/// an empty query, the error of a regex that does not build, and otherwise
/// the walk's outcome from an empty one.
pub open spec fn search_outcome(q: (Seq<char>, bool, bool, bool), es: Seq<EntryModel>) -> OutcomeModel {
    let (t, match_case, whole_word, regex) = q;
    if t.len() == 0 {
        empty_outcome()
    } else if regex {
        let p = query_pattern(t, match_case);
        match pattern::regex_error(p, false) {
            Some(e) => OutcomeModel { error: Some("Invalid regex: "@ + e), ..empty_outcome() },
            None => walk_outcome(empty_outcome(), MatcherModel::Regex { pattern: p }, es),
        }
    } else {
        walk_outcome(
            empty_outcome(),
            MatcherModel::Plain {
                needle_lower: text::lowercase(t),
                needle_orig: t,
                match_case,
                whole_word,
            },
            es,
        )
    }
}

pub open spec fn entry_views(v: Seq<WalkEntry>) -> Seq<EntryModel> {
    v.map_values(|e: WalkEntry| e@)
}

/// Runs a search for `query` over the walk entries `entries`, in walk
/// order.
pub fn run(query: &SearchQuery, entries: Vec<WalkEntry>) -> (o: SearchOutcome)
    ensures
        o@ == search_outcome(
            (query.text@, query.match_case, query.whole_word, query.regex),
            entry_views(entries@),
        ),
        within_limits(o@),
{
    let mut outcome = SearchOutcome::new();
    if query.text.as_str().is_empty() {
        return outcome;
    }
    let m = match build_matcher(query) {
        Ok(m) => m,
        Err(e) => {
            outcome.error = Some(e);
            return outcome;
        },
    };
    let ghost es = entry_views(entries@);
    let n = entries.len();
    assert(search_outcome((query.text@, query.match_case, query.whole_word, query.regex), es)
        == walk_outcome(empty_outcome(), m@, es));
    let mut list = entries;
    let mut i: usize = 0;
    assert(es.skip(0) =~= es);
    while i < n
        invariant
            matcher_wf(m@),
            n == es.len(),
            list@.len() == n,
            forall|k: int| i <= k < n ==> #[trigger] list@[k]@ == es[k],
            0 <= i <= n,
            within_limits(outcome@),
            outcome.files_scanned <= i,
            es == entry_views(entries@),
            search_outcome((query.text@, query.match_case, query.whole_word, query.regex), es)
                == walk_outcome(empty_outcome(), m@, es),
            walk_outcome(outcome@, m@, es.skip(i as int)) == walk_outcome(empty_outcome(), m@, es),
        decreases n - i,
    {
        let mut e = WalkEntry {
            path: String::new(),
            is_file: false,
            name: None,
            size: None,
            head: None,
            content: None,
        };
        std::mem::swap(&mut e, &mut list[i]);
        assert(e@ == es[i as int]);
        assert(es.skip(i as int)[0] == es[i as int]);
        assert(es.skip(i as int).drop_first() =~= es.skip(i + 1 as int));
        let ghost before = outcome@;
        let ghost ev = e@;
        let stop = outcome.step(&m, e);
        assert(walk_outcome(before, m@, es.skip(i as int)) == if stop {
            outcome@
        } else {
            walk_outcome(outcome@, m@, es.skip(i + 1 as int))
        });
        i += 1;
        if stop {
            assert(outcome@ == walk_outcome(empty_outcome(), m@, es));
            return outcome;
        }
    }
    assert(es.skip(i as int) =~= Seq::<EntryModel>::empty());
    outcome
}

impl SearchOutcome {
    /// The start of a search for `query`: where the search ends before any
    /// file is read (an empty query, a regex that does not build), its
    /// outcome; otherwise an empty outcome and the matcher that each walk
    /// entry is stepped with.
    pub fn start(query: &SearchQuery) -> (r: Result<(SearchOutcome, Matcher), SearchOutcome>)
        ensures
            r is Err <==> (query.text@.len() == 0 || (query.regex && pattern::regex_error(
                query_pattern(query.text@, query.match_case),
                false,
            ) is Some)),
            match r {
                Ok((o, m)) => o@ == empty_outcome() && matcher_wf(m@) && forall|es: Seq<EntryModel>|
                    #[trigger] search_outcome(
                        (query.text@, query.match_case, query.whole_word, query.regex),
                        es,
                    ) == walk_outcome(empty_outcome(), m@, es),
                Err(o) => within_limits(o@) && forall|es: Seq<EntryModel>|
                    #[trigger] search_outcome(
                        (query.text@, query.match_case, query.whole_word, query.regex),
                        es,
                    ) == o@,
            },
    {
        let mut outcome = SearchOutcome::new();
        if query.text.as_str().is_empty() {
            return Err(outcome);
        }
        match build_matcher(query) {
            Ok(m) => Ok((outcome, m)),
            Err(e) => {
                outcome.error = Some(e);
                Err(outcome)
            },
        }
    }
}

/// Every occurrence found from index `j` on is an occurrence of the needle
/// at or after `j`, kept only on a word boundary when whole words are
/// asked for, and the occurrences come in order without overlapping.
proof fn lemma_plain_scan(h: Seq<char>, n: Seq<char>, whole: bool, j: int)
    ensures
        forall|k: int|
            0 <= k < plain_scan(h, n, whole, j).len() ==> {
                let (i, e) = #[trigger] plain_scan(h, n, whole, j)[k];
                &&& j <= i
                &&& text::occurs_at(h, n, i)
                &&& e == i + n.len()
                &&& whole ==> word_boundary(h, i, e)
            },
        forall|k1: int, k2: int|
            0 <= k1 < k2 < plain_scan(h, n, whole, j).len() ==> #[trigger] plain_scan(
                h,
                n,
                whole,
                j,
            )[k1].1 <= #[trigger] plain_scan(h, n, whole, j)[k2].0,
    decreases h.len() - j,
{
    if n.len() == 0 || j < 0 || j + n.len() > h.len() {
    } else if text::occurs_at(h, n, j) {
        let e = j + n.len();
        lemma_plain_scan(h, n, whole, e);
        let rest = plain_scan(h, n, whole, e);
        let all = plain_scan(h, n, whole, j);
        if !whole || word_boundary(h, j, e) {
            assert(all == seq![(j, e)] + rest);
            assert(all[0] == (j, e));
            assert forall|k: int| 0 <= k < all.len() implies {
                let (i, e2) = #[trigger] all[k];
                &&& j <= i
                &&& text::occurs_at(h, n, i)
                &&& e2 == i + n.len()
                &&& whole ==> word_boundary(h, i, e2)
            } by {
                if k > 0 {
                    assert(all[k] == rest[k - 1]);
                }
            }
            assert forall|k1: int, k2: int| 0 <= k1 < k2 < all.len() implies #[trigger] all[k1].1
                <= #[trigger] all[k2].0 by {
                assert(all[k2] == rest[k2 - 1]);
                if k1 > 0 {
                    assert(all[k1] == rest[k1 - 1]);
                }
            }
        } else {
            assert(all == rest);
        }
    } else {
        lemma_plain_scan(h, n, whole, j + 1);
        assert(plain_scan(h, n, whole, j) == plain_scan(h, n, whole, j + 1));
    }
}

/// A plain search finds only occurrences of the needle, in order and
/// without overlap, and with whole words only occurrences that no word
/// character touches.
pub proof fn law_plain_hits_are_occurrences(h: Seq<char>, n: Seq<char>, whole: bool)
    ensures
        forall|k: int|
            0 <= k < plain_scan(h, n, whole, 0).len() ==> {
                let (i, e) = #[trigger] plain_scan(h, n, whole, 0)[k];
                &&& h.subrange(i, e) == n
                &&& 0 <= i <= e <= h.len()
                &&& whole ==> word_boundary(h, i, e)
            },
        forall|k1: int, k2: int|
            0 <= k1 < k2 < plain_scan(h, n, whole, 0).len() ==> #[trigger] plain_scan(
                h,
                n,
                whole,
                0,
            )[k1].1 <= #[trigger] plain_scan(h, n, whole, 0)[k2].0,
{
    lemma_plain_scan(h, n, whole, 0);
}

/// The number of hits in a list of file results.
pub open spec fn hit_count(rs: Seq<(Seq<char>, Seq<HitModel>)>) -> nat
    decreases rs.len(),
{
    if rs.len() == 0 {
        0
    } else {
        hit_count(rs.drop_last()) + rs.last().1.len()
    }
}

/// The total is the number of hits listed, every listed file has a hit,
/// and the limits hold.
pub open spec fn consistent(o: OutcomeModel) -> bool {
    &&& o.total_hits == hit_count(o.results)
    &&& forall|k: int| 0 <= k < o.results.len() ==> (#[trigger] o.results[k]).1.len() > 0
    &&& within_limits(o)
}

proof fn lemma_step_consistent(o: OutcomeModel, m: MatcherModel, e: EntryModel)
    requires
        consistent(o),
    ensures
        consistent(step_outcome(o, m, e).0),
{
    let (o2, stop) = step_outcome(o, m, e);
    if o.results.len() >= MAX_FILES_MATCHED || o.total_hits >= MAX_TOTAL_HITS {
    } else if !e.is_file || e.name is None || skipped_name(e.name->0) || e.size is None
        || e.size->0 > MAX_FILE_SIZE || (e.head is Some && binary_head(e.head->0)) {
    } else {
        match e.content {
            None => {},
            Some(c) => {
                let all = content_hits(m, text::lines(c));
                let remaining = MAX_TOTAL_HITS - o.total_hits;
                let hits = if all.len() >= remaining {
                    all.take(remaining)
                } else {
                    all
                };
                if hits.len() > 0 {
                    let rs = o.results.push((e.path, hits));
                    assert(rs.drop_last() =~= o.results);
                    assert forall|k: int| 0 <= k < rs.len() implies (#[trigger] rs[k]).1.len() > 0 by {
                        if k < o.results.len() {
                            assert(rs[k] == o.results[k]);
                        }
                    }
                }
            },
        }
    }
}

proof fn lemma_walk_consistent(o: OutcomeModel, m: MatcherModel, es: Seq<EntryModel>)
    requires
        consistent(o),
    ensures
        consistent(walk_outcome(o, m, es)),
    decreases es.len(),
{
    if es.len() > 0 {
        lemma_step_consistent(o, m, es[0]);
        let (o1, stop) = step_outcome(o, m, es[0]);
        if !stop {
            lemma_walk_consistent(o1, m, es.drop_first());
        }
    }
}

/// A search reports as its total exactly the number of hits it lists,
/// lists only files with hits, and stays within the limits on hits and
/// on files.
pub proof fn law_search_outcome_consistent(q: (Seq<char>, bool, bool, bool), es: Seq<EntryModel>)
    ensures
        consistent(search_outcome(q, es)),
{
    assert(consistent(empty_outcome()));
    let (t, match_case, whole_word, regex) = q;
    if t.len() > 0 {
        if regex {
            let p = query_pattern(t, match_case);
            if pattern::regex_error(p, false) is None {
                lemma_walk_consistent(empty_outcome(), MatcherModel::Regex { pattern: p }, es);
            }
        } else {
            lemma_walk_consistent(
                empty_outcome(),
                MatcherModel::Plain {
                    needle_lower: text::lowercase(t),
                    needle_orig: t,
                    match_case,
                    whole_word,
                },
                es,
            );
        }
    }
}

} // verus!

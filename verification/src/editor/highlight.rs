//! Syntax highlighting of a document, with bracket-pair colourisation, and
//! the find-match decoration handed to the editor.
//!
//! The highlighter (syntect) colours the tokens of each line; then, across
//! the whole document, brackets take one of three rotating colours by
//! nesting depth, and a closing bracket that does not match the innermost
//! open one is painted as unmatched. Tokens in a string or comment colour
//! are left as they are, and their brackets are not counted.

use syntect::easy::HighlightLines;
use syntect::highlighting::ThemeSet;
use syntect::parsing::SyntaxSet;
use syntect::util::LinesWithEndings;
use vstd::prelude::*;

verus! {

/// The number of rotating bracket colours.
pub const BRACKET_COLOR_COUNT: usize = 3;

/// Find-widget decoration: every match range, and which one is current.
pub struct FindHighlight {
    pub ranges: Vec<(usize, usize)>,
    pub current: usize,
}

pub open spec fn spec_is_open_bracket(c: char) -> bool {
    c == '(' || c == '[' || c == '{'
}

pub open spec fn spec_is_close_bracket(c: char) -> bool {
    c == ')' || c == ']' || c == '}'
}

/// The opening bracket that `c` closes.
pub open spec fn opener_of(c: char) -> char {
    if c == ')' {
        '('
    } else if c == ']' {
        '['
    } else {
        '{'
    }
}

pub fn is_open_bracket(c: char) -> (r: bool)
    ensures
        r == spec_is_open_bracket(c),
{
    c == '(' || c == '[' || c == '{'
}

pub fn is_close_bracket(c: char) -> (r: bool)
    ensures
        r == spec_is_close_bracket(c),
{
    c == ')' || c == ']' || c == '}'
}

/// How one character of code is painted.
#[derive(Clone, Copy, Debug, PartialEq, Eq)]
pub enum BracketPaint {
    /// Ordinary text in the token's own colour.
    Text,
    /// A bracket at this nesting level (an index into the rotating colours).
    Level(usize),
    /// A closing bracket with no matching opener.
    Unmatched,
}

/// What `bracket_step` does to the stack of open brackets and how it paints `c`.
pub open spec fn bracket_effect(stack: Seq<char>, c: char) -> (Seq<char>, BracketPaint) {
    if spec_is_open_bracket(c) {
        (stack.push(c), BracketPaint::Level((stack.len() % 3) as usize))
    } else if spec_is_close_bracket(c) {
        if stack.len() > 0 && stack.last() == opener_of(c) {
            (stack.drop_last(), BracketPaint::Level(((stack.len() - 1) % 3) as usize))
        } else {
            (stack, BracketPaint::Unmatched)
        }
    } else {
        (stack, BracketPaint::Text)
    }
}

/// Paint one character, tracking nesting in `stack`: an opening bracket is
/// pushed and painted with the colour of its depth; a closing bracket that
/// matches the innermost opener pops it and takes the same colour; any
/// other closing bracket is unmatched and leaves the stack alone.
pub fn bracket_step(stack: &mut Vec<char>, c: char) -> (p: BracketPaint)
    ensures
        (final(stack)@, p) == bracket_effect(old(stack)@, c),
{
    if is_open_bracket(c) {
        let level = stack.len() % BRACKET_COLOR_COUNT;
        stack.push(c);
        BracketPaint::Level(level)
    } else if is_close_bracket(c) {
        let opener = if c == ')' {
            '('
        } else if c == ']' {
            '['
        } else {
            '{'
        };
        if stack.len() > 0 && stack[stack.len() - 1] == opener {
            let level = (stack.len() - 1) % BRACKET_COLOR_COUNT;
            stack.pop();
            BracketPaint::Level(level)
        } else {
            BracketPaint::Unmatched
        }
    } else {
        BracketPaint::Text
    }
}

/// Paint a run of characters (one token outside strings and comments).
pub open spec fn paint_run(stack: Seq<char>, s: Seq<char>) -> (Seq<char>, Seq<BracketPaint>)
    decreases s.len(),
{
    if s.len() == 0 {
        (stack, Seq::empty())
    } else {
        let (st, ps) = paint_run(stack, s.drop_last());
        let (st2, p) = bracket_effect(st, s.last());
        (st2, ps.push(p))
    }
}

/// Paints every character of `s` in order with `bracket_step`.
pub fn paint_brackets(stack: &mut Vec<char>, s: &str) -> (r: Vec<BracketPaint>)
    ensures
        (final(stack)@, r@) == paint_run(old(stack)@, s@),
{
    let v = crate::text::chars_of(s);
    let mut out: Vec<BracketPaint> = Vec::new();
    let mut i: usize = 0;
    let ghost st0 = stack@;
    while i < v.len()
        invariant
            0 <= i <= v@.len(),
            v@ == s@,
            (stack@, out@) == paint_run(st0, v@.subrange(0, i as int)),
        decreases v@.len() - i,
    {
        assert(v@.subrange(0, i + 1 as int).drop_last() =~= v@.subrange(0, i as int));
        let p = bracket_step(stack, v[i]);
        out.push(p);
        i += 1;
    }
    assert(v@.subrange(0, v@.len() as int) =~= v@);
    out
}

/// A bracket pair that is opened and then closed again gets the same
/// colour, and the stack of open brackets comes back to what it was.
pub proof fn law_pair_same_color(stack: Seq<char>, open: char, close: char)
    requires
        spec_is_open_bracket(open),
        spec_is_close_bracket(close),
        opener_of(close) == open,
    ensures
        ({
            let (s1, p1) = bracket_effect(stack, open);
            let (s2, p2) = bracket_effect(s1, close);
            s2 == stack && p1 == p2 && p1 != BracketPaint::Unmatched
        }),
{
    let (s1, p1) = bracket_effect(stack, open);
    assert(s1.drop_last() =~= stack);
}

/// The syntax token the highlighter looks a language up by: a few
/// languages share a grammar (TypeScript and TSX, JavaScript and JSX, the
/// shells), and any other language is looked up by its own name.
pub open spec fn syntax_token_of(language: Seq<char>) -> Seq<char> {
    if language == "ts"@ || language == "tsx"@ {
        "ts"@
    } else if language == "jsx"@ || language == "js"@ {
        "js"@
    } else if language == "cpp"@ || language == "cc"@ || language == "cxx"@ {
        "cpp"@
    } else if language == "h"@ || language == "hpp"@ {
        "h"@
    } else if language == "md"@ || language == "markdown"@ {
        "md"@
    } else if language == "yaml"@ || language == "yml"@ {
        "yaml"@
    } else if language == "sh"@ || language == "bash"@ || language == "zsh"@ {
        "sh"@
    } else {
        language
    }
}

pub fn syntax_token(language: &str) -> (r: String)
    ensures
        r@ == syntax_token_of(language@),
{
    let l = crate::text::chars_of(language);
    if crate::text::str_eq(&l, "ts") || crate::text::str_eq(&l, "tsx") {
        crate::text::owned("ts")
    } else if crate::text::str_eq(&l, "jsx") || crate::text::str_eq(&l, "js") {
        crate::text::owned("js")
    } else if crate::text::str_eq(&l, "cpp") || crate::text::str_eq(&l, "cc") || crate::text::str_eq(
        &l,
        "cxx",
    ) {
        crate::text::owned("cpp")
    } else if crate::text::str_eq(&l, "h") || crate::text::str_eq(&l, "hpp") {
        crate::text::owned("h")
    } else if crate::text::str_eq(&l, "md") || crate::text::str_eq(&l, "markdown") {
        crate::text::owned("md")
    } else if crate::text::str_eq(&l, "yaml") || crate::text::str_eq(&l, "yml") {
        crate::text::owned("yaml")
    } else if crate::text::str_eq(&l, "sh") || crate::text::str_eq(&l, "bash") || crate::text::str_eq(
        &l,
        "zsh",
    ) {
        crate::text::owned("sh")
    } else {
        crate::text::owned(language)
    }
}

/// A colour as one number `0xRRGGBB`.
pub open spec fn rgb_value(r: u8, g: u8, b: u8) -> int {
    r * 65536 + g * 256 + b
}

/// The theme's string colours: a token painted in one of them is inside a
/// string, where brackets are not coloured.
pub open spec fn string_color(r: u8, g: u8, b: u8) -> bool {
    let v = rgb_value(r, g, b);
    v == 0xa5d6ff || v == 0xffa657 || v == 0xce9178 || v == 0xd16969
}

/// The theme's comment colours.
pub open spec fn comment_color(r: u8, g: u8, b: u8) -> bool {
    let v = rgb_value(r, g, b);
    v == 0x8b949e || v == 0x6a9955
}

fn rgb(r: u8, g: u8, b: u8) -> (v: u32)
    ensures
        v == rgb_value(r, g, b),
{
    (r as u32) * 65536 + (g as u32) * 256 + (b as u32)
}

pub fn is_string_color(r: u8, g: u8, b: u8) -> (s: bool)
    ensures
        s == string_color(r, g, b),
{
    let v = rgb(r, g, b);
    v == 0xa5d6ff || v == 0xffa657 || v == 0xce9178 || v == 0xd16969
}

pub fn is_comment_color(r: u8, g: u8, b: u8) -> (c: bool)
    ensures
        c == comment_color(r, g, b),
{
    let v = rgb(r, g, b);
    v == 0x8b949e || v == 0x6a9955
}

/// How one highlighted token of `s` is painted, given its colour: a token
/// in a string or comment colour keeps that colour throughout and leaves the
/// nesting of brackets alone; any other token has its brackets painted.
pub open spec fn token_paint(stack: Seq<char>, s: Seq<char>, r: u8, g: u8, b: u8) -> (Seq<char>, Seq<BracketPaint>) {
    if string_color(r, g, b) || comment_color(r, g, b) {
        (stack, Seq::new(s.len(), |i: int| BracketPaint::Text))
    } else {
        paint_run(stack, s)
    }
}

pub fn paint_token(stack: &mut Vec<char>, s: &str, r: u8, g: u8, b: u8) -> (p: Vec<BracketPaint>)
    ensures
        (final(stack)@, p@) == token_paint(old(stack)@, s@, r, g, b),
{
    if is_string_color(r, g, b) || is_comment_color(r, g, b) {
        let v = crate::text::chars_of(s);
        let mut out: Vec<BracketPaint> = Vec::new();
        let mut i: usize = 0;
        while i < v.len()
            invariant
                0 <= i <= v@.len(),
                out@ == Seq::new(i as nat, |k: int| BracketPaint::Text),
            decreases v@.len() - i,
        {
            out.push(BracketPaint::Text);
            assert(out@ =~= Seq::new((i + 1) as nat, |k: int| BracketPaint::Text));
            i += 1;
        }
        assert(out@ =~= Seq::new(s@.len(), |k: int| BracketPaint::Text));
        out
    } else {
        paint_brackets(stack, s)
    }
}

/// A colour as red, green, blue.
pub type Rgb = (u8, u8, u8);

/// A highlighted line: its text, line ending included, and, where the
/// highlighter read it, its tokens with their colours.
pub type LineModel = (Seq<char>, Option<Seq<(Seq<char>, Rgb)>>);

/// A run of text painted in one colour: its characters, how they are
/// painted, and the colour.
pub type RunModel = (Seq<char>, BracketPaint, Rgb);

/// A run of text painted in one colour.
pub type Run = (String, BracketPaint, Rgb);

/// A highlighted line, as `highlight_lines` hands it over.
pub type Line = (String, Option<Vec<(String, Rgb)>>);

pub open spec fn tokens_view(v: Seq<(String, Rgb)>) -> Seq<(Seq<char>, Rgb)> {
    v.map_values(|t: (String, Rgb)| (t.0@, t.1))
}

pub open spec fn line_view(l: Line) -> LineModel {
    (
        l.0@,
        match l.1 {
            Some(t) => Some(tokens_view(t@)),
            None => None,
        },
    )
}

pub open spec fn lines_view(v: Seq<Line>) -> Seq<LineModel> {
    v.map_values(|l: Line| line_view(l))
}

pub open spec fn runs_view(v: Seq<Run>) -> Seq<RunModel> {
    v.map_values(|r: Run| (r.0@, r.1, r.2))
}

/// What syntect makes of `text` with the tmTheme `theme` and the syntax
/// found by `token`: its lines and their coloured tokens; `None` where the
/// theme does not load.
pub uninterp spec fn syntect_lines(theme: Seq<char>, text: Seq<char>, token: Seq<char>) -> Option<Seq<(Seq<char>, Option<Seq<(Seq<char>, (u8, u8, u8))>>)>>;

/// Loads the tmTheme text `theme` with `ThemeSet::load_from_reader` and
/// highlights `text` with `HighlightLines` over syntect's default syntaxes
/// (newline mode): the syntax is the one `find_syntax_by_token` finds for
/// `token`, else plain text. Each line, as `LinesWithEndings` cuts the
/// text, comes with the tokens and foreground colours `highlight_line`
/// gives it, or `None` where that call fails. The result depends on the
/// three texts alone and is left to the name `syntect_lines`; `None` where
/// the theme does not load.
#[verifier::external_body]
fn highlight_lines(theme: &str, text: &str, token: &str) -> (r: Option<Vec<Line>>)
    ensures
        match r {
            Some(v) => syntect_lines(theme@, text@, token@) == Some(lines_view(v@)),
            None => syntect_lines(theme@, text@, token@) is None,
        },
{
    let theme = ThemeSet::load_from_reader(&mut std::io::Cursor::new(theme.as_bytes())).ok()?;
    let ss = SyntaxSet::load_defaults_newlines();
    let syntax = ss.find_syntax_by_token(token).unwrap_or_else(|| ss.find_syntax_plain_text());
    let mut h = HighlightLines::new(syntax, &theme);
    let mut line = |l: &str| h.highlight_line(l, &ss).ok().map(|v| v.iter().map(|(s, t)| (t.to_string(), (s.foreground.r, s.foreground.g, s.foreground.b))).collect());
    Some(LinesWithEndings::from(text).map(|l| (l.to_string(), line(l))).collect())
}

/// The colour of text on a line the highlighter could not read.
pub open spec fn default_fg() -> Rgb {
    (0xBB, 0xBE, 0xBF)
}

/// The rotating bracket colours: gold, orchid, bright blue.
pub open spec fn level_color(k: usize) -> Rgb {
    if k == 0 {
        (0xFF, 0xD7, 0x00)
    } else if k == 1 {
        (0xDA, 0x70, 0xD6)
    } else {
        (0x17, 0x9F, 0xFF)
    }
}

/// The colour of a character painted `p` in a token of colour `base`.
pub open spec fn paint_color(p: BracketPaint, base: Rgb) -> Rgb {
    match p {
        BracketPaint::Text => base,
        BracketPaint::Level(k) => level_color(k),
        BracketPaint::Unmatched => (0xFF, 0x12, 0x12),
    }
}

fn paint_color_exec(p: BracketPaint, base: Rgb) -> (c: Rgb)
    ensures
        c == paint_color(p, base),
{
    match p {
        BracketPaint::Text => base,
        BracketPaint::Level(k) => if k == 0 {
            (0xFF, 0xD7, 0x00)
        } else if k == 1 {
            (0xDA, 0x70, 0xD6)
        } else {
            (0x17, 0x9F, 0xFF)
        },
        BracketPaint::Unmatched => (0xFF, 0x12, 0x12),
    }
}

/// `runs` with the pending text `buf` added as a run of colour `base`,
/// where there is any.
pub open spec fn flush_runs(runs: Seq<RunModel>, buf: Seq<char>, base: Rgb) -> Seq<RunModel> {
    if buf.len() > 0 {
        runs.push((buf, BracketPaint::Text, base))
    } else {
        runs
    }
}

/// The runs of a token of colour `base` whose characters are painted
/// `ps`, so far: the finished runs, and the text not yet flushed. Text
/// characters gather into one run; each bracket is a run of its own.
pub open spec fn token_runs_acc(s: Seq<char>, ps: Seq<BracketPaint>, base: Rgb) -> (Seq<RunModel>, Seq<char>)
    decreases s.len(),
{
    if s.len() == 0 || ps.len() == 0 {
        (Seq::empty(), Seq::empty())
    } else {
        let (runs, buf) = token_runs_acc(s.drop_last(), ps.drop_last(), base);
        let p = ps.last();
        if p is Text {
            (runs, buf.push(s.last()))
        } else {
            (flush_runs(runs, buf, base).push((seq![s.last()], p, paint_color(p, base))), Seq::empty())
        }
    }
}

/// The runs of a token of colour `base` whose characters are painted `ps`.
pub open spec fn token_runs(s: Seq<char>, ps: Seq<BracketPaint>, base: Rgb) -> Seq<RunModel> {
    flush_runs(token_runs_acc(s, ps, base).0, token_runs_acc(s, ps, base).1, base)
}

/// The tokens `ts` painted in order from the stack of open brackets
/// `stack`: the stack after them, and their runs.
pub open spec fn tokens_runs(stack: Seq<char>, ts: Seq<(Seq<char>, Rgb)>) -> (Seq<char>, Seq<RunModel>)
    decreases ts.len(),
{
    if ts.len() == 0 {
        (stack, Seq::empty())
    } else {
        let (st, runs) = tokens_runs(stack, ts.drop_last());
        let (s, c) = ts.last();
        let (st2, ps) = token_paint(st, s, c.0, c.1, c.2);
        (st2, runs + token_runs(s, ps, c))
    }
}

/// A line painted from `stack`: its tokens, or, where the highlighter could
/// not read it, the whole line in the default colour.
pub open spec fn line_runs(stack: Seq<char>, l: LineModel) -> (Seq<char>, Seq<RunModel>) {
    match l.1 {
        Some(ts) => tokens_runs(stack, ts),
        None => (stack, flush_runs(Seq::empty(), l.0, default_fg())),
    }
}

/// The lines `ls` painted in order from `stack`, so that brackets on
/// different lines are matched.
pub open spec fn document_runs(stack: Seq<char>, ls: Seq<LineModel>) -> (Seq<char>, Seq<RunModel>)
    decreases ls.len(),
{
    if ls.len() == 0 {
        (stack, Seq::empty())
    } else {
        let (st, runs) = document_runs(stack, ls.drop_last());
        let (st2, more) = line_runs(st, ls.last());
        (st2, runs + more)
    }
}

proof fn lemma_paint_run_len(stack: Seq<char>, s: Seq<char>)
    ensures
        paint_run(stack, s).1.len() == s.len(),
    decreases s.len(),
{
    if s.len() > 0 {
        lemma_paint_run_len(stack, s.drop_last());
    }
}

/// Paints the token `s` of colour `c` from the stack of open brackets and
/// adds its runs to `out`.
fn push_token_runs(stack: &mut Vec<char>, out: &mut Vec<Run>, s: &str, c: Rgb)
    ensures
        final(stack)@ == token_paint(old(stack)@, s@, c.0, c.1, c.2).0,
        runs_view(final(out)@) == runs_view(old(out)@) + token_runs(
            s@,
            token_paint(old(stack)@, s@, c.0, c.1, c.2).1,
            c,
        ),
{
    let ghost st0 = stack@;
    let ps = paint_token(stack, s, c.0, c.1, c.2);
    proof {
        lemma_paint_run_len(st0, s@);
    }
    let v = crate::text::chars_of(s);
    let ghost out0 = runs_view(out@);
    let mut buf = String::new();
    let mut nbuf: usize = 0;
    let mut i: usize = 0;
    assert(v@.take(0) =~= Seq::<char>::empty());
    while i < v.len()
        invariant
            v@ == s@,
            ps@.len() == v@.len(),
            0 <= i <= v@.len(),
            nbuf == buf@.len(),
            nbuf <= i,
            runs_view(out@) == out0 + token_runs_acc(v@.take(i as int), ps@.take(i as int), c).0,
            buf@ == token_runs_acc(v@.take(i as int), ps@.take(i as int), c).1,
        decreases v@.len() - i,
    {
        assert(v@.take(i + 1 as int).drop_last() =~= v@.take(i as int));
        assert(ps@.take(i + 1 as int).drop_last() =~= ps@.take(i as int));
        assert(v@.take(i + 1 as int).last() == v@[i as int]);
        assert(ps@.take(i + 1 as int).last() == ps@[i as int]);
        let p = ps[i];
        match p {
            BracketPaint::Text => {
                crate::text::push_char(&mut buf, v[i]);
                nbuf = nbuf + 1;
            },
            _ => {
                if nbuf > 0 {
                    let ghost before = runs_view(out@);
                    out.push((buf, BracketPaint::Text, c));
                    assert(runs_view(out@) =~= before.push((buf@, BracketPaint::Text, c)));
                    buf = String::new();
                    nbuf = 0;
                }
                let mut one = String::new();
                crate::text::push_char(&mut one, v[i]);
                assert(one@ =~= seq![v@[i as int]]);
                let ghost before = runs_view(out@);
                out.push((one, p, paint_color_exec(p, c)));
                assert(runs_view(out@) =~= before.push((one@, p, paint_color(p, c))));
                buf = String::new();
                nbuf = 0;
            },
        }
        i += 1;
    }
    assert(v@.take(v@.len() as int) =~= v@);
    assert(ps@.take(v@.len() as int) =~= ps@);
    if nbuf > 0 {
        let ghost before = runs_view(out@);
        out.push((buf, BracketPaint::Text, c));
        assert(runs_view(out@) =~= before.push((buf@, BracketPaint::Text, c)));
    }
}

/// The coloured runs of a highlighted document, brackets matched across its
/// lines from an empty stack: what an editor lays out.
pub fn runs_of_lines(lines: &Vec<Line>) -> (r: Vec<Run>)
    ensures
        runs_view(r@) == document_runs(Seq::empty(), lines_view(lines@)).1,
{
    let ghost lv = lines_view(lines@);
    let mut stack: Vec<char> = Vec::new();
    let mut out: Vec<Run> = Vec::new();
    let mut i: usize = 0;
    assert(lv.take(0) =~= Seq::<LineModel>::empty());
    assert(runs_view(out@) =~= Seq::<RunModel>::empty());
    while i < lines.len()
        invariant
            0 <= i <= lines@.len(),
            lv == lines_view(lines@),
            stack@ == document_runs(Seq::empty(), lv.take(i as int)).0,
            runs_view(out@) == document_runs(Seq::empty(), lv.take(i as int)).1,
        decreases lines@.len() - i,
    {
        assert(lv.take(i + 1 as int).drop_last() =~= lv.take(i as int));
        assert(lv.take(i + 1 as int).last() == lv[i as int]);
        let ghost st_i = stack@;
        let ghost out_i = runs_view(out@);
        match &lines[i].1 {
            None => {
                let v = crate::text::chars_of(lines[i].0.as_str());
                if v.len() > 0 {
                    let ghost before = runs_view(out@);
                    out.push((crate::text::owned(lines[i].0.as_str()), BracketPaint::Text, (0xBB, 0xBE, 0xBF)));
                    assert(runs_view(out@) =~= before.push((lv[i as int].0, BracketPaint::Text, default_fg())));
                }
                assert(runs_view(out@) =~= out_i + line_runs(st_i, lv[i as int]).1);
            },
            Some(ts) => {
                let ghost tv = tokens_view(ts@);
                assert(lv[i as int].1 == Some(tv));
                let mut j: usize = 0;
                assert(tv.take(0) =~= Seq::<(Seq<char>, Rgb)>::empty());
                assert(runs_view(out@) =~= out_i + Seq::<RunModel>::empty());
                while j < ts.len()
                    invariant
                        0 <= j <= ts@.len(),
                        tv == tokens_view(ts@),
                        stack@ == tokens_runs(st_i, tv.take(j as int)).0,
                        runs_view(out@) == out_i + tokens_runs(st_i, tv.take(j as int)).1,
                    decreases ts@.len() - j,
                {
                    assert(tv.take(j + 1 as int).drop_last() =~= tv.take(j as int));
                    assert(tv.take(j + 1 as int).last() == tv[j as int]);
                    let ghost before = runs_view(out@);
                    push_token_runs(&mut stack, &mut out, ts[j].0.as_str(), ts[j].1);
                    assert(runs_view(out@) =~= out_i + tokens_runs(st_i, tv.take(j + 1 as int)).1);
                    j += 1;
                }
                assert(tv.take(ts@.len() as int) =~= tv);
            },
        }
        i += 1;
    }
    assert(lv.take(lines@.len() as int) =~= lv);
    out
}

/// The coloured runs of `text` in `language`, highlighted with the tmTheme
/// `theme`; `None` where the theme does not load.
pub fn colour_runs(theme: &str, text: &str, language: &str) -> (r: Option<Vec<Run>>)
    ensures
        match syntect_lines(theme@, text@, syntax_token_of(language@)) {
            None => r is None,
            Some(ls) => r matches Some(v) && runs_view(v@) == document_runs(Seq::empty(), ls).1,
        },
{
    let token = syntax_token(language);
    let lines = highlight_lines(theme, text, token.as_str())?;
    Some(runs_of_lines(&lines))
}

} // verus!

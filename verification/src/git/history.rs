//! Commit history and the swimlane layout of the commit graph: the parsers
//! of `git log -z --decorate=full` and `git diff-tree -z --name-status`
//! output, and the per-commit lane computation.

use vstd::prelude::*;

use super::status::ChangeKind;
use super::status;
use crate::text;

verus! {

/// A file changed by a single commit.
#[derive(Debug)]
pub struct CommitFile {
    pub rel: String,
    pub kind: ChangeKind,
}

/// What a ref label decorates a commit with.
#[derive(Clone, Copy, Debug, PartialEq, Eq, Structural)]
pub enum RefKind {
    Head,
    Local,
    Remote,
    Tag,
}

#[derive(Debug)]
pub struct RefBadge {
    pub name: String,
    pub kind: RefKind,
}

#[derive(Debug)]
pub struct Commit {
    pub id: String,
    pub short_id: String,
    pub parents: Vec<String>,
    pub author: String,
    pub summary: String,
    pub refs: Vec<RefBadge>,
}

/// One graph lane: the commit id it carries downward and its colour index
/// into the lane palette.
#[derive(Debug)]
pub struct Lane {
    pub id: String,
    pub color: usize,
}

/// A history row: a commit, the lanes entering (above) and leaving (below)
/// it, and the lane the commit's circle sits on.
#[derive(Debug)]
pub struct GraphRow {
    pub commit: Commit,
    pub circle_lane: usize,
    pub circle_color: usize,
    pub input: Vec<Lane>,
    pub output: Vec<Lane>,
}

pub struct RefModel {
    pub name: Seq<char>,
    pub kind: RefKind,
}

#[verifier::ext_equal]
pub struct CommitModel {
    pub id: Seq<char>,
    pub short_id: Seq<char>,
    pub parents: Seq<Seq<char>>,
    pub author: Seq<char>,
    pub summary: Seq<char>,
    pub refs: Seq<RefModel>,
}

impl View for RefBadge {
    type V = RefModel;

    open spec fn view(&self) -> RefModel {
        RefModel { name: self.name@, kind: self.kind }
    }
}

pub open spec fn ref_views(v: Seq<RefBadge>) -> Seq<RefModel> {
    v.map_values(|r: RefBadge| r@)
}

impl View for Commit {
    type V = CommitModel;

    open spec fn view(&self) -> CommitModel {
        CommitModel {
            id: self.id@,
            short_id: self.short_id@,
            parents: status::strs(self.parents@),
            author: self.author@,
            summary: self.summary@,
            refs: ref_views(self.refs@),
        }
    }
}

/// A lane as `(id, colour)`.
pub open spec fn lane_views(v: Seq<Lane>) -> Seq<(Seq<char>, usize)> {
    v.map_values(|l: Lane| (l.id@, l.color))
}

/// An exact copy of a list of strings.
pub fn copy_strings(v: &Vec<String>) -> (r: Vec<String>)
    ensures
        status::strs(r@) == status::strs(v@),
{
    let mut r: Vec<String> = Vec::new();
    let mut i: usize = 0;
    while i < v.len()
        invariant
            0 <= i <= v@.len(),
            status::strs(r@) == status::strs(v@).take(i as int),
        decreases v@.len() - i,
    {
        let ghost old_r = r@;
        let s = v[i].clone();
        r.push(s);
        i += 1;
        assert(status::strs(r@) =~= status::strs(old_r).push(v@[i - 1]@));
        assert(status::strs(v@).take(i as int) =~= status::strs(v@).take(i - 1 as int).push(
            v@[i - 1]@,
        ));
    }
    assert(status::strs(v@).take(i as int) =~= status::strs(v@));
    r
}

impl RefBadge {
    pub fn copy(&self) -> (r: RefBadge)
        ensures
            r@ == self@,
    {
        RefBadge { name: self.name.clone(), kind: self.kind }
    }
}

impl Commit {
    /// An exact copy of the commit.
    pub fn copy(&self) -> (r: Commit)
        ensures
            r@ == self@,
    {
        let mut refs: Vec<RefBadge> = Vec::new();
        let mut i: usize = 0;
        while i < self.refs.len()
            invariant
                0 <= i <= self.refs@.len(),
                ref_views(refs@) == ref_views(self.refs@).take(i as int),
            decreases self.refs@.len() - i,
        {
            let ghost old_r = refs@;
            refs.push(self.refs[i].copy());
            i += 1;
            assert(ref_views(refs@) =~= ref_views(old_r).push(self.refs@[i - 1]@));
            assert(ref_views(self.refs@).take(i as int) =~= ref_views(self.refs@).take(
                i - 1 as int,
            ).push(self.refs@[i - 1]@));
        }
        assert(ref_views(self.refs@).take(i as int) =~= ref_views(self.refs@));
        Commit {
            id: self.id.clone(),
            short_id: self.short_id.clone(),
            parents: copy_strings(&self.parents),
            author: self.author.clone(),
            summary: self.summary.clone(),
            refs,
        }
    }
}

impl Lane {
    pub fn copy(&self) -> (r: Lane)
        ensures
            r.id@ == self.id@,
            r.color == self.color,
    {
        Lane { id: self.id.clone(), color: self.color }
    }
}

/// The badge of one trimmed part of `git log`'s `%D` ref list, if the part
/// names a ref that the graph shows.
pub open spec fn ref_of(p: Seq<char>) -> Option<RefModel> {
    if text::has_prefix(p, "HEAD -> "@) {
        Some(
            RefModel {
                name: text::trim_start_str(
                    p.subrange("HEAD -> "@.len() as int, p.len() as int),
                    "refs/heads/"@,
                ),
                kind: RefKind::Head,
            },
        )
    } else if p == "HEAD"@ {
        Some(RefModel { name: "HEAD"@, kind: RefKind::Head })
    } else if text::has_prefix(p, "tag: refs/tags/"@) {
        Some(
            RefModel {
                name: p.subrange("tag: refs/tags/"@.len() as int, p.len() as int),
                kind: RefKind::Tag,
            },
        )
    } else if text::has_prefix(p, "refs/remotes/"@) {
        Some(
            RefModel {
                name: p.subrange("refs/remotes/"@.len() as int, p.len() as int),
                kind: RefKind::Remote,
            },
        )
    } else if text::has_prefix(p, "refs/heads/"@) {
        Some(
            RefModel {
                name: p.subrange("refs/heads/"@.len() as int, p.len() as int),
                kind: RefKind::Local,
            },
        )
    } else {
        None
    }
}

/// The badges of the comma-separated parts, each trimmed, in order.
pub open spec fn refs_of(parts: Seq<Seq<char>>) -> Seq<RefModel>
    decreases parts.len(),
{
    if parts.len() == 0 {
        Seq::empty()
    } else {
        let r = refs_of(parts.drop_last());
        match ref_of(text::trim(parts.last())) {
            Some(b) => r.push(b),
            None => r,
        }
    }
}

/// The ref badges of a `%D` field of `git log --decorate=full`.
pub fn parse_refs(raw: &str) -> (r: Vec<RefBadge>)
    ensures
        ref_views(r@) == refs_of(text::split_char(raw@, ',')),
{
    let v = text::chars_of(raw);
    let parts = text::split_ranges(&v, 0, v.len(), ',');
    let ghost pieces = text::split_char(raw@, ',');
    assert(v@.subrange(0, v@.len() as int) =~= v@);
    let head_arrow = text::chars_of("HEAD -> ");
    let heads = text::chars_of("refs/heads/");
    let tags = text::chars_of("tag: refs/tags/");
    let remotes = text::chars_of("refs/remotes/");
    proof {
        reveal_strlit("refs/heads/");
    }
    let mut out: Vec<RefBadge> = Vec::new();
    let mut i: usize = 0;
    while i < parts.len()
        invariant
            v@ == raw@,
            pieces == text::split_char(raw@, ','),
            text::ranges_cut(v@, parts@, pieces),
            0 <= i <= parts@.len(),
            head_arrow@ == "HEAD -> "@,
            heads@ == "refs/heads/"@,
            tags@ == "tag: refs/tags/"@,
            remotes@ == "refs/remotes/"@,
            heads@.len() > 0,
            ref_views(out@) == refs_of(pieces.take(i as int)),
        decreases parts@.len() - i,
    {
        let (a0, b0) = parts[i];
        assert(pieces[i as int] == v@.subrange(a0 as int, b0 as int));
        assert(pieces.take(i + 1 as int).drop_last() =~= pieces.take(i as int));
        let (a, b) = text::trim_range(&v, a0, b0);
        let ghost p = v@.subrange(a as int, b as int);
        let ghost old_out = ref_views(out@);
        if text::starts_with_range(&v, a, b, &head_arrow) {
            let s = text::trim_start_str_range(&v, a + head_arrow.len(), b, &heads);
            assert(p.subrange(head_arrow@.len() as int, p.len() as int) =~= v@.subrange(
                a + head_arrow@.len(),
                b as int,
            ));
            out.push(RefBadge { name: text::string_of(&v, s, b), kind: RefKind::Head });
        } else if b - a == 4 && v[a] == 'H' && v[a + 1] == 'E' && v[a + 2] == 'A' && v[a + 3] == 'D' {
            proof {
                reveal_strlit("HEAD");
                assert(p =~= "HEAD"@);
            }
            out.push(RefBadge { name: text::owned("HEAD"), kind: RefKind::Head });
        } else if text::starts_with_range(&v, a, b, &tags) {
            proof {
                if p == "HEAD"@ {
                    reveal_strlit("HEAD");
                    assert(p[0] == 'H' && p[1] == 'E' && p[2] == 'A' && p[3] == 'D');
                }
            }
            assert(p.subrange(tags@.len() as int, p.len() as int) =~= v@.subrange(
                a + tags@.len(),
                b as int,
            ));
            out.push(
                RefBadge { name: text::string_of(&v, a + tags.len(), b), kind: RefKind::Tag },
            );
        } else if text::starts_with_range(&v, a, b, &remotes) {
            proof {
                if p == "HEAD"@ {
                    reveal_strlit("HEAD");
                    assert(p[0] == 'H' && p[1] == 'E' && p[2] == 'A' && p[3] == 'D');
                }
            }
            assert(p.subrange(remotes@.len() as int, p.len() as int) =~= v@.subrange(
                a + remotes@.len(),
                b as int,
            ));
            out.push(
                RefBadge {
                    name: text::string_of(&v, a + remotes.len(), b),
                    kind: RefKind::Remote,
                },
            );
        } else if text::starts_with_range(&v, a, b, &heads) {
            proof {
                if p == "HEAD"@ {
                    reveal_strlit("HEAD");
                    assert(p[0] == 'H' && p[1] == 'E' && p[2] == 'A' && p[3] == 'D');
                }
            }
            assert(p.subrange(heads@.len() as int, p.len() as int) =~= v@.subrange(
                a + heads@.len(),
                b as int,
            ));
            out.push(
                RefBadge { name: text::string_of(&v, a + heads.len(), b), kind: RefKind::Local },
            );
        } else {
            proof {
                if p == "HEAD"@ {
                    reveal_strlit("HEAD");
                    assert(p[0] == 'H' && p[1] == 'E' && p[2] == 'A' && p[3] == 'D');
                }
            }
        }
        assert(ref_views(out@) =~= refs_of(pieces.take(i + 1 as int)));
        i += 1;
    }
    assert(pieces.take(i as int) =~= pieces);
    out
}

/// The `--format` of `git log` whose output `parse_log` reads: six
/// NUL-separated fields per commit (id, short id, parents, author, summary,
/// refs).
pub const LOG_FORMAT: &'static str = "%H%x00%h%x00%P%x00%an%x00%s%x00%D";

/// The arguments of `git` that print at most `limit` commits of the
/// current history.
pub fn log_args(limit: usize) -> (r: Vec<String>)
    ensures
        r@.len() == 5,
        r@[0]@ == "log"@,
        r@[1]@ == "--decorate=full"@,
        r@[2]@ == "--format="@ + LOG_FORMAT@,
        r@[3]@ == "-z"@,
        r@[4]@ == "-n"@ + text::decimal(limit as nat),
{
    let mut r: Vec<String> = Vec::new();
    r.push(text::owned("log"));
    r.push(text::owned("--decorate=full"));
    let mut f = text::owned("--format=");
    let fv = text::chars_of(LOG_FORMAT);
    let ghost base = f@;
    let mut i: usize = 0;
    while i < fv.len()
        invariant
            0 <= i <= fv@.len(),
            fv@ == LOG_FORMAT@,
            f@ == base + fv@.take(i as int),
        decreases fv@.len() - i,
    {
        text::push_char(&mut f, fv[i]);
        i += 1;
        assert(f@ =~= base + fv@.take(i as int));
    }
    assert(fv@.take(i as int) =~= fv@);
    r.push(f);
    r.push(text::owned("-z"));
    let mut n = text::owned("-n");
    text::push_decimal(&mut n, limit);
    r.push(n);
    r
}

/// `tokens[j]`, or the empty text past the end.
pub open spec fn token(tokens: Seq<Seq<char>>, j: int) -> Seq<char> {
    if 0 <= j < tokens.len() {
        tokens[j]
    } else {
        Seq::empty()
    }
}

/// The commit whose six fields start at token `i`.
pub open spec fn log_commit(t: Seq<Seq<char>>, i: int) -> CommitModel {
    CommitModel {
        id: text::trim(t[i]),
        short_id: t[i + 1],
        parents: text::words(t[i + 2]),
        author: t[i + 3],
        summary: t[i + 4],
        refs: refs_of(text::split_char(t[i + 5], ',')),
    }
}

/// The commits read from token `i` on: while six tokens are left, a token
/// that is blank once trimmed is skipped, and otherwise the next six tokens
/// make a commit.
pub open spec fn log_scan(t: Seq<Seq<char>>, i: int) -> Seq<CommitModel>
    decreases t.len() - i,
{
    if i < 0 || i + 6 > t.len() {
        Seq::empty()
    } else if text::trim(t[i]).len() == 0 {
        log_scan(t, i + 1)
    } else {
        seq![log_commit(t, i)] + log_scan(t, i + 6)
    }
}

/// The commits in the output of `git log -z` with `LOG_FORMAT`.
pub open spec fn log_commits(out: Seq<char>) -> Seq<CommitModel> {
    log_scan(text::split_char(out, '\0'), 0)
}

/// The texts `v[a..b]` of the ranges `r`.
fn strings_of(v: &Vec<char>, r: &Vec<(usize, usize)>) -> (out: Vec<String>)
    requires
        forall|k: int| 0 <= k < r@.len() ==> #[trigger] r@[k].0 <= r@[k].1 <= v@.len(),
    ensures
        out@.len() == r@.len(),
        forall|k: int|
            0 <= k < r@.len() ==> #[trigger] status::strs(out@)[k] == v@.subrange(
                r@[k].0 as int,
                r@[k].1 as int,
            ),
{
    let mut out: Vec<String> = Vec::new();
    let mut i: usize = 0;
    while i < r.len()
        invariant
            0 <= i <= r@.len(),
            forall|k: int| 0 <= k < r@.len() ==> #[trigger] r@[k].0 <= r@[k].1 <= v@.len(),
            out@.len() == i,
            forall|k: int|
                0 <= k < i ==> #[trigger] status::strs(out@)[k] == v@.subrange(
                    r@[k].0 as int,
                    r@[k].1 as int,
                ),
        decreases r@.len() - i,
    {
        let (a, b) = r[i];
        let ghost old_out = out@;
        out.push(text::string_of(v, a, b));
        assert forall|k: int| 0 <= k < i + 1 implies #[trigger] status::strs(out@)[k] == v@.subrange(
            r@[k].0 as int,
            r@[k].1 as int,
        ) by {
            if k < i {
                assert(status::strs(old_out)[k] == v@.subrange(r@[k].0 as int, r@[k].1 as int));
                assert(out@[k] == old_out[k]);
            } else {
                assert(out@[k]@ == v@.subrange(a as int, b as int));
            }
        }
        i += 1;
    }
    out
}

/// The commits printed by `git log -z` with `LOG_FORMAT`.
pub fn parse_log(out: &str) -> (r: Vec<Commit>)
    ensures
        commit_views(r@) == log_commits(out@),
{
    let v = text::chars_of(out);
    let toks = text::split_ranges(&v, 0, v.len(), '\0');
    let ghost t = text::split_char(out@, '\0');
    assert(v@.subrange(0, v@.len() as int) =~= v@);
    let mut commits: Vec<Commit> = Vec::new();
    let mut i: usize = 0;
    assert(commit_views(commits@) =~= Seq::<CommitModel>::empty());
    assert(Seq::<CommitModel>::empty() + log_scan(t, 0) =~= log_scan(t, 0));
    while i <= toks.len() && toks.len() - i >= 6
        invariant
            v@ == out@,
            t == text::split_char(out@, '\0'),
            text::ranges_cut(v@, toks@, t),
            0 <= i <= toks@.len(),
            commit_views(commits@) + log_scan(t, i as int) == log_scan(t, 0),
        decreases toks@.len() - i,
    {
        let (a, b) = toks[i];
        assert(t[i as int] == v@.subrange(a as int, b as int));
        let (ia, ib) = text::trim_range(&v, a, b);
        if ia == ib {
            i += 1;
        } else {
            let ghost c = log_commit(t, i as int);
            let (sa, sb) = toks[i + 1];
            let (pa, pb) = toks[i + 2];
            let (aa, ab) = toks[i + 3];
            let (ma, mb) = toks[i + 4];
            let (ra, rb) = toks[i + 5];
            assert(t[i + 1] == v@.subrange(sa as int, sb as int));
            assert(t[i + 2] == v@.subrange(pa as int, pb as int));
            assert(t[i + 3] == v@.subrange(aa as int, ab as int));
            assert(t[i + 4] == v@.subrange(ma as int, mb as int));
            assert(t[i + 5] == v@.subrange(ra as int, rb as int));
            let pr = text::word_ranges(&v, pa, pb);
            let parents = strings_of(&v, &pr);
            assert(status::strs(parents@) =~= c.parents);
            let raw_refs = text::string_of(&v, ra, rb);
            let refs = parse_refs(raw_refs.as_str());
            let commit = Commit {
                id: text::string_of(&v, ia, ib),
                short_id: text::string_of(&v, sa, sb),
                parents,
                author: text::string_of(&v, aa, ab),
                summary: text::string_of(&v, ma, mb),
                refs,
            };
            assert(commit@ == c);
            let ghost old_c = commit_views(commits@);
            commits.push(commit);
            assert(commit_views(commits@) =~= old_c.push(c));
            assert(log_scan(t, i as int) == seq![c] + log_scan(t, i + 6));
            assert(old_c + log_scan(t, i as int) =~= old_c.push(c) + log_scan(t, i + 6));
            i += 6;
        }
    }
    assert(log_scan(t, i as int) == Seq::<CommitModel>::empty());
    assert(commit_views(commits@) + Seq::<CommitModel>::empty() =~= commit_views(commits@));
    commits
}

/// The commits of `git log` from its raw output, decoded as UTF-8 with
/// invalid sequences replaced; none when git failed.
pub fn log(out: Option<Vec<u8>>) -> (r: Vec<Commit>)
    ensures
        match out {
            None => r@.len() == 0,
            Some(b) => commit_views(r@) == log_commits(text::lossy_text(b@)),
        },
{
    match out {
        None => Vec::new(),
        Some(b) => {
            let s = text::from_utf8_lossy(b.as_slice());
            parse_log(s.as_str())
        },
    }
}

/// The non-empty pieces, in order.
pub open spec fn nonempty(pieces: Seq<Seq<char>>) -> Seq<Seq<char>>
    decreases pieces.len(),
{
    if pieces.len() == 0 {
        Seq::empty()
    } else {
        let r = nonempty(pieces.drop_last());
        if pieces.last().len() > 0 {
            r.push(pieces.last())
        } else {
            r
        }
    }
}

proof fn lemma_nonempty(pieces: Seq<Seq<char>>)
    ensures
        forall|k: int| 0 <= k < nonempty(pieces).len() ==> (#[trigger] nonempty(pieces)[k]).len() > 0,
    decreases pieces.len(),
{
    if pieces.len() > 0 {
        lemma_nonempty(pieces.drop_last());
        let r = nonempty(pieces.drop_last());
        assert forall|k: int| 0 <= k < nonempty(pieces).len() implies (#[trigger] nonempty(pieces)[k]).len() > 0 by {
            if k < r.len() {
                assert(nonempty(pieces)[k] == r[k]);
            }
        }
    }
}

/// The change kind of a `--name-status` letter; anything unknown counts as
/// a modification.
pub open spec fn letter_kind(c: char) -> ChangeKind {
    if c == 'A' {
        ChangeKind::Added
    } else if c == 'D' {
        ChangeKind::Deleted
    } else if c == 'R' {
        ChangeKind::Renamed
    } else if c == 'C' {
        ChangeKind::Copied
    } else if c == 'T' {
        ChangeKind::TypeChanged
    } else {
        ChangeKind::Modified
    }
}

fn kind_of_letter(c: char) -> (k: ChangeKind)
    ensures
        k == letter_kind(c),
{
    match c {
        'A' => ChangeKind::Added,
        'D' => ChangeKind::Deleted,
        'R' => ChangeKind::Renamed,
        'C' => ChangeKind::Copied,
        'T' => ChangeKind::TypeChanged,
        _ => ChangeKind::Modified,
    }
}

/// The files read from token `i` on: a status token, then one path (two,
/// old and new, for a rename or copy, of which the new one is kept); a
/// missing or empty path adds nothing.
pub open spec fn changes_scan(t: Seq<Seq<char>>, i: int) -> Seq<(Seq<char>, ChangeKind)>
    decreases t.len() - i,
{
    if i < 0 || i >= t.len() {
        Seq::empty()
    } else {
        let kind = letter_kind(t[i][0]);
        let two = kind == ChangeKind::Renamed || kind == ChangeKind::Copied;
        let rel = if two {
            token(t, i + 2)
        } else {
            token(t, i + 1)
        };
        let next = if two {
            i + 3
        } else {
            i + 2
        };
        let rest = if next <= t.len() {
            changes_scan(t, next)
        } else {
            Seq::empty()
        };
        if rel.len() > 0 {
            seq![(rel, kind)] + rest
        } else {
            rest
        }
    }
}

/// The files in the output of `git diff-tree -z --name-status`.
pub open spec fn commit_changes_of(out: Seq<char>) -> Seq<(Seq<char>, ChangeKind)> {
    changes_scan(nonempty(text::split_char(out, '\0')), 0)
}

pub open spec fn file_views(v: Seq<CommitFile>) -> Seq<(Seq<char>, ChangeKind)> {
    v.map_values(|f: CommitFile| (f.rel@, f.kind))
}

/// The arguments of `git` that list the files `commit` changed against its
/// first parent.
pub fn commit_changes_args(commit: &Commit) -> (r: Vec<String>)
    ensures
        r@.len() == 6,
        r@[0]@ == "diff-tree"@,
        r@[1]@ == "--no-commit-id"@,
        r@[2]@ == "-r"@,
        r@[3]@ == "-z"@,
        r@[4]@ == "--name-status"@,
        r@[5]@ == commit@.id,
{
    let mut r: Vec<String> = Vec::new();
    r.push(text::owned("diff-tree"));
    r.push(text::owned("--no-commit-id"));
    r.push(text::owned("-r"));
    r.push(text::owned("-z"));
    r.push(text::owned("--name-status"));
    r.push(commit.id.clone());
    r
}

/// The files changed by a commit, from what `git diff-tree -z
/// --name-status` printed.
pub fn parse_commit_changes(out: &str) -> (r: Vec<CommitFile>)
    ensures
        file_views(r@) == commit_changes_of(out@),
{
    let v = text::chars_of(out);
    let all = text::split_ranges(&v, 0, v.len(), '\0');
    let ghost pieces = text::split_char(out@, '\0');
    assert(v@.subrange(0, v@.len() as int) =~= v@);
    let mut toks: Vec<(usize, usize)> = Vec::new();
    let mut j: usize = 0;
    while j < all.len()
        invariant
            v@ == out@,
            text::ranges_cut(v@, all@, pieces),
            0 <= j <= all@.len(),
            text::ranges_cut(v@, toks@, nonempty(pieces.take(j as int))),
        decreases all@.len() - j,
    {
        let (a, b) = all[j];
        assert(pieces[j as int] == v@.subrange(a as int, b as int));
        assert(pieces.take(j + 1 as int).drop_last() =~= pieces.take(j as int));
        let ghost old_t = toks@;
        let ghost ne = nonempty(pieces.take(j as int));
        if a < b {
            toks.push((a, b));
            assert forall|k: int|
                #![trigger toks@[k]]
                0 <= k < toks@.len() implies {
                &&& toks@[k].0 <= toks@[k].1 <= v@.len()
                &&& nonempty(pieces.take(j + 1 as int))[k] == v@.subrange(
                    toks@[k].0 as int,
                    toks@[k].1 as int,
                )
            } by {
                if k < old_t.len() {
                    assert(toks@[k] == old_t[k]);
                    assert(ne[k] == v@.subrange(old_t[k].0 as int, old_t[k].1 as int));
                }
            }
        }
        j += 1;
    }
    assert(pieces.take(j as int) =~= pieces);
    let ghost t = nonempty(pieces);
    proof {
        lemma_nonempty(pieces);
    }
    let mut files: Vec<CommitFile> = Vec::new();
    let mut i: usize = 0;
    assert(file_views(files@) + changes_scan(t, 0) =~= changes_scan(t, 0));
    while i < toks.len()
        invariant
            v@ == out@,
            t == nonempty(text::split_char(out@, '\0')),
            text::ranges_cut(v@, toks@, t),
            forall|k: int| 0 <= k < t.len() ==> (#[trigger] t[k]).len() > 0,
            0 <= i <= toks@.len(),
            file_views(files@) + changes_scan(t, i as int) == changes_scan(t, 0),
        decreases toks@.len() - i,
    {
        let (a, b) = toks[i];
        assert(t[i as int] == v@.subrange(a as int, b as int));
        assert(t[i as int][0] == v@[a as int]);
        let kind = kind_of_letter(v[a]);
        let two = match kind {
            ChangeKind::Renamed => true,
            ChangeKind::Copied => true,
            _ => false,
        };
        let at: usize = if two {
            2
        } else {
            1
        };
        let ghost old_f = file_views(files@);
        let ghost rel = token(t, i + at);
        if at < toks.len() - i {
            let (ra, rb) = toks[i + at];
            assert(t[i + at] == v@.subrange(ra as int, rb as int));
            if ra < rb {
                files.push(CommitFile { rel: text::string_of(&v, ra, rb), kind });
                assert(file_views(files@) =~= old_f.push((rel, kind)));
                assert(old_f + changes_scan(t, i as int) =~= old_f.push((rel, kind))
                    + changes_scan(t, i + at + 1));
            }
        }
        if at + 1 >= toks.len() - i {
            i = toks.len();
        } else {
            i = i + at + 1;
        }
    }
    assert(changes_scan(t, i as int) == Seq::<(Seq<char>, ChangeKind)>::empty());
    assert(file_views(files@) + Seq::<(Seq<char>, ChangeKind)>::empty() =~= file_views(files@));
    files
}

/// The files changed by a commit, from the raw output of `git diff-tree`;
/// none when git failed.
pub fn commit_changes(out: Option<Vec<u8>>) -> (r: Vec<CommitFile>)
    ensures
        match out {
            None => r@.len() == 0,
            Some(b) => file_views(r@) == commit_changes_of(text::lossy_text(b@)),
        },
{
    match out {
        None => Vec::new(),
        Some(b) => {
            let s = text::from_utf8_lossy(b.as_slice());
            parse_commit_changes(s.as_str())
        },
    }
}

/// The arguments of `git` that print `rel` as it was at revision `rev`.
pub fn blob_at_args(rev: &str, rel: &str) -> (r: Vec<String>)
    ensures
        r@.len() == 2,
        r@[0]@ == "show"@,
        r@[1]@ == rev@ + ":"@ + rel@,
{
    let mut r: Vec<String> = Vec::new();
    r.push(text::owned("show"));
    let mut spec = text::owned(rev);
    text::push_char(&mut spec, ':');
    let v = text::chars_of(rel);
    let ghost base = spec@;
    let mut i: usize = 0;
    while i < v.len()
        invariant
            0 <= i <= v@.len(),
            v@ == rel@,
            spec@ == base + v@.take(i as int),
        decreases v@.len() - i,
    {
        text::push_char(&mut spec, v[i]);
        i += 1;
        assert(spec@ =~= base + v@.take(i as int));
    }
    assert(v@.take(i as int) =~= v@);
    proof {
        reveal_strlit(":");
        assert(base =~= rev@ + ":"@);
    }
    r.push(spec);
    r
}

/// The blob text from the raw output of `git show <rev>:<rel>`; `None` when
/// git failed (a file missing at that revision, or another error).
pub fn blob_at(out: Option<Vec<u8>>) -> (r: Option<String>)
    ensures
        match out {
            None => r is None,
            Some(b) => r is Some && r->0@ == text::lossy_text(b@),
        },
{
    match out {
        None => None,
        Some(b) => Some(text::from_utf8_lossy(b.as_slice())),
    }
}

/// The number of lane colours.
pub const LANE_COUNT: usize = 5;

/// The first lane of `input` that carries `id`, or `input.len()`.
pub open spec fn lane_of(input: Seq<(Seq<char>, usize)>, id: Seq<char>) -> int
    decreases input.len(),
{
    if input.len() == 0 {
        0
    } else if input[0].0 == id {
        0
    } else {
        1 + lane_of(input.drop_first(), id)
    }
}

/// The lanes that continue below a commit `id` whose first parent is `p0`:
/// the first lane that carried `id` now carries `p0` (in the circle's
/// colour), the other lanes that carried `id` end, and every other lane
/// passes through. The flag tells whether the first parent was placed.
pub open spec fn collapse(input: Seq<(Seq<char>, usize)>, id: Seq<char>, p0: Seq<char>, color: usize) -> (
    Seq<(Seq<char>, usize)>,
    bool,
)
    decreases input.len(),
{
    if input.len() == 0 {
        (Seq::empty(), false)
    } else {
        let (o, f) = collapse(input.drop_last(), id, p0, color);
        let n = input.last();
        if n.0 == id {
            if !f {
                (o.push((p0, color)), true)
            } else {
                (o, f)
            }
        } else {
            (o.push(n), f)
        }
    }
}

/// New lanes for `ps`, each in the next colour of the rotation after `ci`;
/// also the colour index afterwards.
pub open spec fn extra_lanes(ps: Seq<Seq<char>>, ci: usize) -> (Seq<(Seq<char>, usize)>, usize)
    decreases ps.len(),
{
    if ps.len() == 0 {
        (Seq::empty(), ci)
    } else {
        let (o, c) = extra_lanes(ps.drop_last(), ci);
        let c2 = ((c + 1) % 5) as usize;
        (o.push((ps.last(), c2)), c2)
    }
}

/// One row of the graph for the commit `id` with parents `parents`, below
/// the lanes `input`, with colour index `ci`:
/// `(circle lane, circle colour, output lanes, colour index after)`.
pub open spec fn graph_row(input: Seq<(Seq<char>, usize)>, id: Seq<char>, parents: Seq<Seq<char>>, ci: usize) -> (
    int,
    usize,
    Seq<(Seq<char>, usize)>,
    usize,
) {
    let lane = lane_of(input, id);
    let (color, ci1) = if lane < input.len() {
        (input[lane].1, ci)
    } else {
        (ci, ((ci + 1) % 5) as usize)
    };
    let (out1, placed) = if parents.len() > 0 {
        collapse(input, id, parents[0], color)
    } else {
        (Seq::empty(), false)
    };
    let rest = if placed {
        parents.drop_first()
    } else {
        parents
    };
    let (extra, ci2) = extra_lanes(rest, ci1);
    (lane, color, out1 + extra, ci2)
}

/// The rows of the graph for `commits` (newest first): each row starts from
/// the lanes the previous row left, the first from none.
pub open spec fn graph(commits: Seq<CommitModel>) -> (
    Seq<(int, usize, Seq<(Seq<char>, usize)>, Seq<(Seq<char>, usize)>)>,
    Seq<(Seq<char>, usize)>,
    usize,
)
    decreases commits.len(),
{
    if commits.len() == 0 {
        (Seq::empty(), Seq::empty(), 0)
    } else {
        let (rows, prev, ci) = graph(commits.drop_last());
        let c = commits.last();
        let (lane, color, out, ci2) = graph_row(prev, c.id, c.parents, ci);
        (rows.push((lane, color, prev, out)), out, ci2)
    }
}

pub open spec fn row_view(r: GraphRow) -> (int, usize, Seq<(Seq<char>, usize)>, Seq<(Seq<char>, usize)>) {
    (r.circle_lane as int, r.circle_color, lane_views(r.input@), lane_views(r.output@))
}

pub open spec fn commit_views(v: Seq<Commit>) -> Seq<CommitModel> {
    v.map_values(|c: Commit| c@)
}

/// Copies a list of lanes.
fn copy_lanes(v: &Vec<Lane>) -> (r: Vec<Lane>)
    ensures
        lane_views(r@) == lane_views(v@),
{
    let mut r: Vec<Lane> = Vec::new();
    let mut i: usize = 0;
    while i < v.len()
        invariant
            0 <= i <= v@.len(),
            lane_views(r@) == lane_views(v@).take(i as int),
        decreases v@.len() - i,
    {
        let ghost old_r = r@;
        let l = v[i].copy();
        r.push(l);
        i += 1;
        assert(lane_views(r@) =~= lane_views(old_r).push(lane_views(v@)[i - 1]));
        assert(lane_views(v@).take(i as int) =~= lane_views(v@).take(i - 1 as int).push(
            lane_views(v@)[i - 1],
        ));
    }
    assert(lane_views(v@).take(i as int) =~= lane_views(v@));
    r
}

proof fn lemma_lane_of_bound(input: Seq<(Seq<char>, usize)>, id: Seq<char>)
    ensures
        0 <= lane_of(input, id) <= input.len(),
        lane_of(input, id) < input.len() ==> input[lane_of(input, id)].0 == id,
        forall|k: int| 0 <= k < lane_of(input, id) ==> input[k].0 != id,
    decreases input.len(),
{
    if input.len() > 0 && input[0].0 != id {
        lemma_lane_of_bound(input.drop_first(), id);
        assert forall|k: int| 0 <= k < lane_of(input, id) implies input[k].0 != id by {
            if k > 0 {
                assert(input[k] == input.drop_first()[k - 1]);
            }
        }
    }
}

proof fn lemma_collapse_placed(input: Seq<(Seq<char>, usize)>, id: Seq<char>, p0: Seq<char>, color: usize)
    ensures
        collapse(input, id, p0, color).1 == (lane_of(input, id) < input.len()),
    decreases input.len(),
{
    lemma_lane_of_bound(input, id);
    if input.len() > 0 {
        lemma_collapse_placed(input.drop_last(), id, p0, color);
        lemma_lane_of_bound(input.drop_last(), id);
        let d = input.drop_last();
        if lane_of(d, id) < d.len() {
            assert(input[lane_of(d, id)].0 == id);
            assert(lane_of(input, id) <= lane_of(d, id));
        } else {
            assert forall|k: int| 0 <= k < d.len() implies input[k].0 != id by {
                assert(d[k] == input[k]);
            }
            lemma_lane_of_first(input, id);
        }
    }
}

proof fn lemma_lane_of_first(input: Seq<(Seq<char>, usize)>, id: Seq<char>)
    ensures
        forall|k: int| 0 <= k < input.len() && input[k].0 == id ==> lane_of(input, id) <= k,
        (forall|k: int| 0 <= k < input.len() - 1 ==> input[k].0 != id) && input.len() > 0 ==> lane_of(
            input,
            id,
        ) == if input.last().0 == id {
            input.len() - 1
        } else {
            input.len() as int
        },
    decreases input.len(),
{
    if input.len() > 0 && input[0].0 != id {
        let t = input.drop_first();
        lemma_lane_of_first(t, id);
        assert forall|k: int| 0 <= k < input.len() && input[k].0 == id implies lane_of(input, id)
            <= k by {
            assert(k > 0);
            assert(t[k - 1] == input[k]);
        }
        if (forall|k: int| 0 <= k < input.len() - 1 ==> input[k].0 != id) && t.len() > 0 {
            assert forall|k: int| 0 <= k < t.len() - 1 implies t[k].0 != id by {
                assert(t[k] == input[k + 1]);
            }
            assert(t.last() == input.last());
        }
        if t.len() == 0 {
            assert(lane_of(t, id) == 0);
        }
    } else if input.len() > 0 {
        if forall|k: int| 0 <= k < input.len() - 1 ==> input[k].0 != id {
            if input.len() > 1 {
                assert(input[0].0 != id);
            }
            assert(input.last() == input[0]);
        }
    }
}

/// How the first lane carrying `id` changes when one lane is added at the
/// right.
proof fn lemma_lane_of_drop_last(input: Seq<(Seq<char>, usize)>, id: Seq<char>)
    requires
        input.len() > 0,
    ensures
        lane_of(input.drop_last(), id) < input.len() - 1 ==> lane_of(input, id) == lane_of(
            input.drop_last(),
            id,
        ),
        lane_of(input.drop_last(), id) == input.len() - 1 ==> lane_of(input, id) == if input.last().0
            == id {
            input.len() - 1
        } else {
            input.len() as int
        },
{
    let d = input.drop_last();
    lemma_lane_of_bound(d, id);
    lemma_lane_of_bound(input, id);
    lemma_lane_of_first(input, id);
    lemma_lane_of_first(d, id);
    if lane_of(d, id) < d.len() {
        assert(input[lane_of(d, id)] == d[lane_of(d, id)]);
        assert(lane_of(input, id) <= lane_of(d, id));
        if lane_of(input, id) < lane_of(d, id) {
            assert(d[lane_of(input, id)] == input[lane_of(input, id)]);
        }
    } else {
        assert forall|k: int| 0 <= k < input.len() - 1 implies input[k].0 != id by {
            assert(d[k] == input[k]);
        }
    }
}

/// The shape of `collapse`: before the commit's lane the lanes pass
/// through, on it the first parent continues; when no lane carries the
/// commit, every lane passes through.
proof fn lemma_collapse_shape(input: Seq<(Seq<char>, usize)>, id: Seq<char>, p0: Seq<char>, color: usize)
    ensures
        ({
            let lane = lane_of(input, id);
            let out = collapse(input, id, p0, color).0;
            &&& lane < input.len() ==> lane < out.len() && out.take(lane) == input.take(lane) && out[lane]
                == (p0, color)
            &&& lane == input.len() ==> out == input
            &&& out.len() <= input.len()
            &&& forall|j: int| 0 <= j < out.len() ==> out[j] == (p0, color) || input.contains(#[trigger] out[j])
        }),
    decreases input.len(),
{
    lemma_lane_of_bound(input, id);
    if input.len() > 0 {
        let d = input.drop_last();
        lemma_collapse_shape(d, id, p0, color);
        lemma_lane_of_drop_last(input, id);
        lemma_lane_of_bound(d, id);
        lemma_collapse_placed(d, id, p0, color);
        let od = collapse(d, id, p0, color).0;
        let out = collapse(input, id, p0, color).0;
        let lane = lane_of(input, id);
        if lane_of(d, id) < d.len() {
            assert(out.take(lane) =~= od.take(lane));
            assert(input.take(lane) =~= d.take(lane));
        } else {
            if input.last().0 == id {
                assert(out.take(lane) =~= od);
                assert(input.take(lane) =~= d);
            } else {
                assert(out =~= input);
            }
        }
        assert forall|j: int| 0 <= j < out.len() implies out[j] == (p0, color) || input.contains(
            #[trigger] out[j],
        ) by {
            if j < od.len() {
                assert(out[j] == od[j]);
                if d.contains(od[j]) {
                    let k = choose|k: int| 0 <= k < d.len() && d[k] == od[j];
                    assert(input[k] == d[k]);
                }
            } else {
                assert(out[j] == (p0, color) || out[j] == input.last());
                assert(input[input.len() - 1] == input.last());
            }
        }
    }
}

/// The swimlane layout: computes the input and output lanes of every
/// commit. A commit sits on the first incoming lane that carries it
/// (taking that lane's colour), or on a new lane at the right with the next
/// colour; its first parent continues on that lane, other lanes carrying it
/// end there, and further parents open new lanes with rotating colours.
pub fn build_graph(commits: &[Commit]) -> (rows: Vec<GraphRow>)
    ensures
        rows@.len() == commits@.len(),
        forall|i: int| 0 <= i < rows@.len() ==> #[trigger] rows@[i].commit@ == commits@[i]@,
        rows@.map_values(|r: GraphRow| row_view(r)) == graph(commit_views(commits@)).0,
{
    let mut rows: Vec<GraphRow> = Vec::new();
    let mut color_index: usize = 0;
    let mut prev_output: Vec<Lane> = Vec::new();
    let mut ci: usize = 0;
    let ghost cs = commit_views(commits@);
    assert(cs.take(0) =~= Seq::<CommitModel>::empty());
    while ci < commits.len()
        invariant
            0 <= ci <= commits@.len(),
            cs == commit_views(commits@),
            rows@.len() == ci,
            forall|i: int| 0 <= i < rows@.len() ==> #[trigger] rows@[i].commit@ == commits@[i]@,
            graph(cs.take(ci as int)) == (
                rows@.map_values(|r: GraphRow| row_view(r)),
                lane_views(prev_output@),
                color_index,
            ),
            color_index < 5,
        decreases commits@.len() - ci,
    {
        let commit = &commits[ci];
        let ghost input_v = lane_views(prev_output@);
        let input = copy_lanes(&prev_output);
        let ghost g = graph_row(input_v, commit@.id, commit@.parents, color_index);
        proof {
            lemma_lane_of_bound(input_v, commit@.id);
        }
        // circle lane = first input lane carrying this commit, else append.
        let mut circle_lane: usize = 0;
        while circle_lane < input.len() && input[circle_lane].id != commit.id
            invariant
                0 <= circle_lane <= input@.len(),
                lane_views(input@) == input_v,
                forall|k: int| 0 <= k < circle_lane ==> input_v[k].0 != commit@.id,
            decreases input@.len() - circle_lane,
        {
            assert(input_v[circle_lane as int].0 == input@[circle_lane as int].id@);
            circle_lane += 1;
        }
        proof {
            lemma_lane_of_first(input_v, commit@.id);
            if circle_lane < input_v.len() {
                assert(input_v[circle_lane as int].0 == commit@.id);
            }
        }
        assert(circle_lane as int == lane_of(input_v, commit@.id));
        let circle_color = if circle_lane < input.len() {
            input[circle_lane].color
        } else {
            let c = color_index;
            color_index = (color_index + 1) % LANE_COUNT;
            c
        };
        assert(circle_color == g.1);
        // Build output swimlanes.
        let mut output: Vec<Lane> = Vec::new();
        let mut first_parent_added = false;
        if commit.parents.len() > 0 {
            let mut k: usize = 0;
            while k < input.len()
                invariant
                    0 <= k <= input@.len(),
                    lane_views(input@) == input_v,
                    commit@.parents.len() > 0,
                    collapse(input_v.take(k as int), commit@.id, commit@.parents[0], circle_color)
                        == (lane_views(output@), first_parent_added),
                decreases input@.len() - k,
            {
                let ghost old_out = lane_views(output@);
                assert(input_v.take(k + 1 as int).drop_last() =~= input_v.take(k as int));
                assert(input_v.take(k + 1 as int).last() == input_v[k as int]);
                if input[k].id == commit.id {
                    if !first_parent_added {
                        output.push(Lane { id: commit.parents[0].clone(), color: circle_color });
                        first_parent_added = true;
                        assert(lane_views(output@) =~= old_out.push(
                            (commit@.parents[0], circle_color),
                        ));
                    }
                } else {
                    output.push(input[k].copy());
                    assert(lane_views(output@) =~= old_out.push(input_v[k as int]));
                }
                k += 1;
            }
            assert(input_v.take(k as int) =~= input_v);
        }
        // Extra parents (merge) open new lanes with rotating colours.
        let start: usize = if first_parent_added {
            1
        } else {
            0
        };
        let ghost out1 = lane_views(output@);
        let ghost rest = commit@.parents.subrange(start as int, commit@.parents.len() as int);
        let ghost ci1 = color_index;
        proof {
            if first_parent_added {
                assert(rest =~= commit@.parents.drop_first());
            } else {
                assert(rest =~= commit@.parents);
            }
        }
        let mut p: usize = start;
        assert(rest.take(0) =~= Seq::<Seq<char>>::empty());
        while p < commit.parents.len()
            invariant
                start <= p <= commit@.parents.len(),
                rest == commit@.parents.subrange(start as int, commit@.parents.len() as int),
                color_index < 5,
                extra_lanes(rest.take(p - start), ci1) == (
                    lane_views(output@).subrange(out1.len() as int, lane_views(output@).len() as int),
                    color_index,
                ),
                lane_views(output@).subrange(0, out1.len() as int) == out1,
                out1.len() <= lane_views(output@).len(),
            decreases commit@.parents.len() - p,
        {
            let ghost old_out = lane_views(output@);
            color_index = (color_index + 1) % LANE_COUNT;
            output.push(Lane { id: commit.parents[p].clone(), color: color_index });
            p += 1;
            assert(rest.take(p - start).drop_last() =~= rest.take(p - start - 1));
            assert(rest.take(p - start).last() == commit@.parents[p - 1]);
            assert(lane_views(output@) =~= old_out.push((commit@.parents[p - 1], color_index)));
            assert(lane_views(output@).subrange(out1.len() as int, lane_views(output@).len() as int)
                =~= old_out.subrange(out1.len() as int, old_out.len() as int).push(
                (commit@.parents[p - 1], color_index),
            ));
            assert(lane_views(output@).subrange(0, out1.len() as int) =~= old_out.subrange(
                0,
                out1.len() as int,
            ));
        }
        assert(rest.take(p - start) =~= rest);
        assert(lane_views(output@) =~= out1 + lane_views(output@).subrange(
            out1.len() as int,
            lane_views(output@).len() as int,
        ));
        proof {
            if commit@.parents.len() > 0 {
                lemma_collapse_placed(input_v, commit@.id, commit@.parents[0], circle_color);
            }
        }
        assert(lane_views(output@) == g.2);
        assert(color_index == g.3);
        let out_copy = copy_lanes(&output);
        let ghost old_rows = rows@.map_values(|r: GraphRow| row_view(r));
        let row = GraphRow {
            commit: commit.copy(),
            circle_lane,
            circle_color,
            input,
            output: out_copy,
        };
        rows.push(row);
        prev_output = output;
        ci += 1;
        assert(cs.take(ci as int).drop_last() =~= cs.take(ci - 1 as int));
        assert(cs.take(ci as int).last() == commits@[ci - 1]@);
        assert(rows@.map_values(|r: GraphRow| row_view(r)) =~= old_rows.push(
            (circle_lane as int, circle_color, input_v, g.2),
        ));
    }
    assert(cs.take(ci as int) =~= cs);
    rows
}


/// Every colour in `lanes` is an index into the lane palette.
pub open spec fn in_palette(lanes: Seq<(Seq<char>, usize)>) -> bool {
    forall|j: int| 0 <= j < lanes.len() ==> #[trigger] lanes[j].1 < LANE_COUNT
}

proof fn lemma_extra_lanes(ps: Seq<Seq<char>>, ci: usize)
    requires
        ci < LANE_COUNT,
    ensures
        extra_lanes(ps, ci).1 < LANE_COUNT,
        in_palette(extra_lanes(ps, ci).0),
        extra_lanes(ps, ci).0.len() == ps.len(),
        forall|j: int| 0 <= j < ps.len() ==> #[trigger] extra_lanes(ps, ci).0[j].0 == ps[j],
    decreases ps.len(),
{
    if ps.len() > 0 {
        lemma_extra_lanes(ps.drop_last(), ci);
        let e = extra_lanes(ps, ci).0;
        let ed = extra_lanes(ps.drop_last(), ci).0;
        assert forall|j: int| 0 <= j < ps.len() implies #[trigger] e[j].0 == ps[j] by {
            if j < ps.len() - 1 {
                assert(e[j] == ed[j]);
                assert(ps.drop_last()[j] == ps[j]);
            }
        }
        assert forall|j: int| 0 <= j < e.len() implies #[trigger] e[j].1 < LANE_COUNT by {
            if j < e.len() - 1 {
                assert(e[j] == ed[j]);
            }
        }
    }
}

proof fn lemma_graph_row(input: Seq<(Seq<char>, usize)>, id: Seq<char>, parents: Seq<Seq<char>>, ci: usize)
    requires
        in_palette(input),
        ci < LANE_COUNT,
    ensures
        ({
            let (lane, color, out, ci2) = graph_row(input, id, parents, ci);
            &&& lane == lane_of(input, id)
            &&& color < LANE_COUNT
            &&& ci2 < LANE_COUNT
            &&& in_palette(out)
            &&& parents.len() > 0 ==> 0 <= lane < out.len() && out[lane].0 == parents[0]
            &&& parents.len() > 0 && lane < input.len() ==> out[lane].1 == color
        }),
{
    let lane = lane_of(input, id);
    lemma_lane_of_bound(input, id);
    let (lane2, color, out, ci2) = graph_row(input, id, parents, ci);
    let ci1 = if lane < input.len() {
        ci
    } else {
        ((ci + 1) % 5) as usize
    };
    if lane < input.len() {
        assert(input[lane].1 < LANE_COUNT);
    }
    let (out1, placed) = if parents.len() > 0 {
        collapse(input, id, parents[0], color)
    } else {
        (Seq::empty(), false)
    };
    let rest = if placed {
        parents.drop_first()
    } else {
        parents
    };
    lemma_extra_lanes(rest, ci1);
    let extra = extra_lanes(rest, ci1).0;
    assert(out == out1 + extra);
    if parents.len() > 0 {
        lemma_collapse_shape(input, id, parents[0], color);
        lemma_collapse_placed(input, id, parents[0], color);
        if lane < input.len() {
            assert(out[lane] == out1[lane]);
        } else {
            assert(out1 == input);
            assert(out[lane] == extra[0]);
        }
    }
    assert forall|j: int| 0 <= j < out.len() implies #[trigger] out[j].1 < LANE_COUNT by {
        if j < out1.len() {
            assert(out[j] == out1[j]);
            if parents.len() > 0 {
                lemma_collapse_shape(input, id, parents[0], color);
                if input.contains(out1[j]) {
                    let k = choose|k: int| 0 <= k < input.len() && input[k] == out1[j];
                    assert(input[k].1 < LANE_COUNT);
                }
            }
        } else {
            assert(out[j] == extra[j - out1.len()]);
        }
    }
}

/// What holds of every row of `graph(commits)`, and of the lanes and colour
/// index it ends with.
proof fn lemma_graph(commits: Seq<CommitModel>)
    ensures
        ({
            let (rows, last, ci) = graph(commits);
            &&& rows.len() == commits.len()
            &&& ci < LANE_COUNT
            &&& in_palette(last)
            &&& commits.len() == 0 ==> last.len() == 0
            &&& commits.len() > 0 ==> last == rows[commits.len() - 1].3 && rows[0].2.len() == 0
            &&& forall|i: int| 0 <= i < commits.len() ==> {
                let (lane, color, inp, out) = #[trigger] rows[i];
                &&& graph_row(inp, commits[i].id, commits[i].parents, 0).0 == lane
                &&& color < LANE_COUNT
                &&& in_palette(inp)
                &&& in_palette(out)
                &&& commits[i].parents.len() > 0 ==> 0 <= lane < out.len() && out[lane].0
                    == commits[i].parents[0]
                &&& commits[i].parents.len() > 0 && lane < inp.len() ==> out[lane].1 == color
                &&& i + 1 < commits.len() ==> rows[i + 1].2 == out
            }
        }),
    decreases commits.len(),
{
    if commits.len() > 0 {
        let d = commits.drop_last();
        lemma_graph(d);
        let (rows_d, prev, ci) = graph(d);
        let c = commits.last();
        lemma_graph_row(prev, c.id, c.parents, ci);
        let (rows, last, ci2) = graph(commits);
        assert forall|i: int| 0 <= i < commits.len() implies {
            let (lane, color, inp, out) = #[trigger] rows[i];
            &&& graph_row(inp, commits[i].id, commits[i].parents, 0).0 == lane
            &&& color < LANE_COUNT
            &&& in_palette(inp)
            &&& in_palette(out)
            &&& commits[i].parents.len() > 0 ==> 0 <= lane < out.len() && out[lane].0
                == commits[i].parents[0]
            &&& commits[i].parents.len() > 0 && lane < inp.len() ==> out[lane].1 == color
            &&& i + 1 < commits.len() ==> rows[i + 1].2 == out
        } by {
            if i < commits.len() - 1 {
                assert(rows[i] == rows_d[i]);
                assert(commits[i] == d[i]);
                if i + 1 < commits.len() - 1 {
                    assert(rows[i + 1] == rows_d[i + 1]);
                }
            }
        }
    }
}

/// The graph has one row per commit; the first row starts with no lanes,
/// and each further row starts from the lanes the row above it left.
pub proof fn law_graph_rows_chain(commits: Seq<CommitModel>)
    ensures
        graph(commits).0.len() == commits.len(),
        commits.len() > 0 ==> graph(commits).0[0].2.len() == 0,
        forall|i: int, j: int|
            0 <= i && j == i + 1 && j < commits.len() ==> #[trigger] graph(commits).0[j].2
                == #[trigger] graph(commits).0[i].3,
{
    lemma_graph(commits);
}

/// Every lane colour and every circle colour in the graph is an index into
/// the lane palette.
pub proof fn law_graph_colors_in_palette(commits: Seq<CommitModel>)
    ensures
        forall|i: int|
            0 <= i < commits.len() ==> {
                let row = #[trigger] graph(commits).0[i];
                &&& row.1 < LANE_COUNT
                &&& in_palette(row.2)
                &&& in_palette(row.3)
            },
{
    lemma_graph(commits);
}

/// A commit's circle sits on the first lane above it that carries the
/// commit (or on a new lane at the right), and its first parent continues
/// on that lane below it, keeping the lane's colour when the lane came from
/// above.
pub proof fn law_graph_first_parent_continues(commits: Seq<CommitModel>)
    ensures
        forall|i: int|
            0 <= i < commits.len() ==> {
                let (lane, color, inp, out) = #[trigger] graph(commits).0[i];
                &&& lane == lane_of(inp, commits[i].id)
                &&& commits[i].parents.len() > 0 ==> 0 <= lane < out.len() && out[lane].0
                    == commits[i].parents[0]
                &&& commits[i].parents.len() > 0 && lane < inp.len() ==> out[lane].1 == color
            },
{
    lemma_graph(commits);
}

} // verus!

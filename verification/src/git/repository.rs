//! One git repository: its working-tree status parsed into the Source
//! Control resource groups (merge conflicts, staged, changes), read from
//! `git status -z --branch -uall`.

use vstd::prelude::*;

use super::status::{ChangeKind, FileChange, Change};
use super::status;
use crate::paths;
use crate::text;

verus! {

/// The SCM resource groups, in display order.
#[derive(Clone, Copy, Debug, PartialEq, Eq, Structural)]
pub enum ResourceGroupKind {
    Merge,
    Index,
    WorkingTree,
    Untracked,
}

impl ResourceGroupKind {
    pub fn label(self) -> (r: &'static str)
        ensures
            r@ == spec_group_label(self),
    {
        match self {
            ResourceGroupKind::Merge => "Merge Changes",
            ResourceGroupKind::Index => "Staged Changes",
            ResourceGroupKind::WorkingTree => "Changes",
            ResourceGroupKind::Untracked => "Untracked Changes",
        }
    }
}

pub open spec fn spec_group_label(k: ResourceGroupKind) -> Seq<char> {
    match k {
        ResourceGroupKind::Merge => "Merge Changes"@,
        ResourceGroupKind::Index => "Staged Changes"@,
        ResourceGroupKind::WorkingTree => "Changes"@,
        ResourceGroupKind::Untracked => "Untracked Changes"@,
    }
}

/// A discovered repository with its current working-tree state.
#[derive(Clone, Debug)]
pub struct Repository {
    pub root: String,
    pub name: String,
    /// Current branch, or `None` when detached.
    pub branch: Option<String>,
    /// `true` when the branch has an upstream (drives Publish vs Sync).
    pub has_upstream: bool,
    pub ahead: usize,
    pub behind: usize,
    pub merge: Vec<FileChange>,
    pub index: Vec<FileChange>,
    /// Changes (working tree), untracked files included.
    pub working: Vec<FileChange>,
}

/// The mathematical value of a `Repository`.
#[verifier::ext_equal]
pub struct RepoModel {
    pub root: Seq<char>,
    pub name: Seq<char>,
    pub branch: Option<Seq<char>>,
    pub has_upstream: bool,
    pub ahead: usize,
    pub behind: usize,
    pub merge: Seq<Change>,
    pub index: Seq<Change>,
    pub working: Seq<Change>,
}

pub open spec fn opt_view(o: Option<String>) -> Option<Seq<char>> {
    match o {
        Some(s) => Some(s@),
        None => None,
    }
}

impl View for Repository {
    type V = RepoModel;

    open spec fn view(&self) -> RepoModel {
        RepoModel {
            root: self.root@,
            name: self.name@,
            branch: opt_view(self.branch),
            has_upstream: self.has_upstream,
            ahead: self.ahead,
            behind: self.behind,
            merge: status::changes(self.merge@),
            index: status::changes(self.index@),
            working: status::changes(self.working@),
        }
    }
}

impl Repository {
    /// The number of changes in all groups.
    pub fn total(&self) -> (r: usize)
        requires
            self.merge@.len() + self.index@.len() + self.working@.len() <= usize::MAX,
        ensures
            r == self.merge@.len() + self.index@.len() + self.working@.len(),
    {
        self.merge.len() + self.index.len() + self.working.len()
    }

    /// The non-empty groups in display order (merge, staged, changes), each
    /// with its file list.
    pub fn groups(&self) -> (r: Vec<(ResourceGroupKind, &[FileChange])>)
        ensures
            r@.map_values(|g: (ResourceGroupKind, &[FileChange])| (g.0, g.1@)) == spec_groups(
                self.merge@,
                self.index@,
                self.working@,
            ),
    {
        let mut out: Vec<(ResourceGroupKind, &[FileChange])> = Vec::new();
        if self.merge.len() > 0 {
            out.push((ResourceGroupKind::Merge, self.merge.as_slice()));
        }
        if self.index.len() > 0 {
            out.push((ResourceGroupKind::Index, self.index.as_slice()));
        }
        if self.working.len() > 0 {
            out.push((ResourceGroupKind::WorkingTree, self.working.as_slice()));
        }
        assert(out@.map_values(|g: (ResourceGroupKind, &[FileChange])| (g.0, g.1@)) =~= spec_groups(
            self.merge@,
            self.index@,
            self.working@,
        ));
        out
    }
}

/// The groups shown for the given lists: each non-empty list, in order.
pub open spec fn spec_groups(m: Seq<FileChange>, i: Seq<FileChange>, w: Seq<FileChange>) -> Seq<
    (ResourceGroupKind, Seq<FileChange>),
> {
    let a: Seq<(ResourceGroupKind, Seq<FileChange>)> = if m.len() > 0 {
        seq![(ResourceGroupKind::Merge, m)]
    } else {
        Seq::empty()
    };
    let b: Seq<(ResourceGroupKind, Seq<FileChange>)> = if i.len() > 0 {
        seq![(ResourceGroupKind::Index, i)]
    } else {
        Seq::empty()
    };
    let c: Seq<(ResourceGroupKind, Seq<FileChange>)> = if w.len() > 0 {
        seq![(ResourceGroupKind::WorkingTree, w)]
    } else {
        Seq::empty()
    };
    a + b + c
}

/// Is `XY` a merge-conflict status?
pub open spec fn spec_is_conflict(x: u8, y: u8) -> bool {
    (x == 68 && y == 68) || (x == 65 && y == 85) || (x == 85 && y == 68) || (x == 85 && y == 65)
        || (x == 68 && y == 85) || (x == 65 && y == 65) || (x == 85 && y == 85)
}

/// (Letters: 68 `D`, 65 `A`, 85 `U`.)
pub fn is_conflict(x: u8, y: u8) -> (r: bool)
    ensures
        r == spec_is_conflict(x, y),
{
    (x == 68u8 && y == 68u8) || (x == 65u8 && y == 85u8) || (x == 85u8 && y == 68u8) || (x == 85u8
        && y == 65u8) || (x == 68u8 && y == 85u8) || (x == 65u8 && y == 65u8) || (x == 85u8 && y
        == 85u8)
}

/// The staged change kind of an index status letter (77 `M`, 65 `A`, 68 `D`,
/// 82 `R`, 67 `C`, 84 `T`).
pub open spec fn spec_index_kind(x: u8) -> Option<ChangeKind> {
    if x == 77 {
        Some(ChangeKind::Modified)
    } else if x == 65 {
        Some(ChangeKind::Added)
    } else if x == 68 {
        Some(ChangeKind::Deleted)
    } else if x == 82 {
        Some(ChangeKind::Renamed)
    } else if x == 67 {
        Some(ChangeKind::Copied)
    } else if x == 84 {
        Some(ChangeKind::TypeChanged)
    } else {
        None
    }
}

pub fn index_kind(x: u8) -> (r: Option<ChangeKind>)
    ensures
        r == spec_index_kind(x),
{
    match x {
        77u8 => Some(ChangeKind::Modified),
        65u8 => Some(ChangeKind::Added),
        68u8 => Some(ChangeKind::Deleted),
        82u8 => Some(ChangeKind::Renamed),
        67u8 => Some(ChangeKind::Copied),
        84u8 => Some(ChangeKind::TypeChanged),
        _ => None,
    }
}

/// The working-tree change kind of a worktree status letter (the same
/// letters as in the index).
pub fn worktree_kind(y: u8) -> (r: Option<ChangeKind>)
    ensures
        r == spec_index_kind(y),
{
    match y {
        77u8 => Some(ChangeKind::Modified),
        68u8 => Some(ChangeKind::Deleted),
        65u8 => Some(ChangeKind::Added),
        82u8 => Some(ChangeKind::Renamed),
        67u8 => Some(ChangeKind::Copied),
        84u8 => Some(ChangeKind::TypeChanged),
        _ => None,
    }
}

/// A status letter of `git status --porcelain=v2` names the change it
/// stands for: exactly the letters `M`, `A`, `D`, `R`, `C` and `T` give a
/// change, and the change's badge is that very letter.
pub proof fn law_status_letter_is_badge(x: u8)
    ensures
        spec_index_kind(x) is Some <==> (x == 77 || x == 65 || x == 68 || x == 82 || x == 67 || x == 84),
        spec_index_kind(x) matches Some(k) ==> status::spec_badge(k) == seq![x as char],
{
    reveal_strlit("M");
    reveal_strlit("A");
    reveal_strlit("D");
    reveal_strlit("R");
    reveal_strlit("C");
    reveal_strlit("T");
    if x == 77 {
        assert(status::spec_badge(ChangeKind::Modified) =~= seq!['M']);
    } else if x == 65 {
        assert(status::spec_badge(ChangeKind::Added) =~= seq!['A']);
    } else if x == 68 {
        assert(status::spec_badge(ChangeKind::Deleted) =~= seq!['D']);
    } else if x == 82 {
        assert(status::spec_badge(ChangeKind::Renamed) =~= seq!['R']);
    } else if x == 67 {
        assert(status::spec_badge(ChangeKind::Copied) =~= seq!['C']);
    } else if x == 84 {
        assert(status::spec_badge(ChangeKind::TypeChanged) =~= seq!['T']);
    }
}

/// `(ahead, behind)` after reading more parts of `[ahead N, behind M]`.
pub open spec fn track_scan(parts: Seq<Seq<char>>, ahead: usize, behind: usize) -> (usize, usize)
    decreases parts.len(),
{
    if parts.len() == 0 {
        (ahead, behind)
    } else {
        let (a, b) = track_scan(parts.drop_last(), ahead, behind);
        let p = text::trim(parts.last());
        if text::has_prefix(p, "ahead "@) {
            (
                match text::parse_usize(text::trim(p.subrange(6, p.len() as int))) {
                    Some(n) => n,
                    None => 0,
                },
                b,
            )
        } else if text::has_prefix(p, "behind "@) {
            (
                a,
                match text::parse_usize(text::trim(p.subrange(7, p.len() as int))) {
                    Some(n) => n,
                    None => 0,
                },
            )
        } else {
            (a, b)
        }
    }
}

/// What the branch header `## main`, `## x...origin/x` or
/// `## x...origin/x [ahead N, behind M]` sets: a detached head clears the
/// branch; otherwise the local name, whether there is an upstream, and the
/// ahead/behind counts present in the brackets.
pub open spec fn header_effect(s: Seq<char>, r: RepoModel) -> RepoModel {
    let body = text::trim(text::trim_start_str(s, "## "@));
    if text::has_prefix(body, "HEAD"@) {
        RepoModel { branch: None, ..r }
    } else {
        let (names, track) = match text::split_once(body, " "@) {
            Some((n, t)) => (n, Some(t)),
            None => (body, None),
        };
        let (local, up) = match text::split_once(names, "..."@) {
            Some((l, u)) => (l, Some(u)),
            None => (names, None),
        };
        let r1 = RepoModel { branch: Some(local), has_upstream: up is Some, ..r };
        match track {
            None => r1,
            Some(t) => {
                let inner = text::trim_end_char(text::trim_start_char(t, '['), ']');
                let (a, b) = track_scan(text::split_char(inner, ','), r1.ahead, r1.behind);
                RepoModel { ahead: a, behind: b, ..r1 }
            },
        }
    }
}

/// Parse the `## ` branch header into `repo`.
fn parse_branch_header(s: &str, repo: &mut Repository)
    ensures
        final(repo)@ == header_effect(s@, old(repo)@),
{
    proof {
        reveal_strlit("## ");
        reveal_strlit(" ");
        reveal_strlit("...");
        reveal_strlit("ahead ");
        reveal_strlit("behind ");
    }
    let v = text::chars_of(s);
    let hashes = text::chars_of("## ");
    let a0 = text::trim_start_str_range(&v, 0, v.len(), &hashes);
    assert(v@.subrange(0, v@.len() as int) =~= v@);
    let (a, b) = text::trim_range(&v, a0, v.len());
    let ghost body = v@.subrange(a as int, b as int);
    let body_v = paths::slice_vec(&v, a, b);
    if text::starts_with(&body_v, "HEAD") {
        repo.branch = None;
        return;
    }
    let space = text::chars_of(" ");
    let (na, nb, track) = match text::find_in_range(&v, a, b, &space) {
        Some(i) => {
            assert(v@.subrange(a as int, i as int) =~= body.subrange(0, i - a));
            assert(v@.subrange(i + 1, b as int) =~= body.subrange(i - a + 1, body.len() as int));
            (a, i, Some((i + 1, b)))
        },
        None => (a, b, None),
    };
    let dots = text::chars_of("...");
    let (la, lb, has_up) = match text::find_in_range(&v, na, nb, &dots) {
        Some(i) => {
            assert(v@.subrange(na as int, i as int) =~= v@.subrange(na as int, nb as int).subrange(
                0,
                i - na,
            ));
            (na, i, true)
        },
        None => (na, nb, false),
    };
    repo.branch = Some(text::string_of(&v, la, lb));
    repo.has_upstream = has_up;
    if let Some((ta, tb)) = track {
        let ia = text::trim_start_char_range(&v, ta, tb, '[');
        let ib = text::trim_end_char_range(&v, ia, tb, ']');
        let parts = text::split_ranges(&v, ia, ib, ',');
        let ghost ps = text::split_char(v@.subrange(ia as int, ib as int), ',');
        let ghost a_init = repo.ahead;
        let ghost b_init = repo.behind;
        let ghost snap = repo@;
        let mut k: usize = 0;
        assert(ps.take(0) =~= Seq::<Seq<char>>::empty());
        while k < parts.len()
            invariant
                text::ranges_cut(v@, parts@, ps),
                0 <= k <= parts@.len(),
                (repo.ahead, repo.behind) == track_scan(ps.take(k as int), a_init, b_init),
                repo@ == (RepoModel { ahead: repo.ahead, behind: repo.behind, ..snap }),
            decreases parts@.len() - k,
        {
            proof {
                reveal_strlit("ahead ");
                reveal_strlit("behind ");
            }
            let (pa, pb) = parts[k];
            assert(ps[k as int] == v@.subrange(pa as int, pb as int));
            assert(ps.take(k + 1 as int).drop_last() =~= ps.take(k as int));
            let (qa, qb) = text::trim_range(&v, pa, pb);
            let p = paths::slice_vec(&v, qa, qb);
            if text::starts_with(&p, "ahead ") {
                let (xa, xb) = text::trim_range(&v, qa + 6, qb);
                assert(v@.subrange(qa + 6, qb as int) =~= p@.subrange(6, p@.len() as int));
                repo.ahead = match text::parse_usize_range(&v, xa, xb) {
                    Some(n) => n,
                    None => 0,
                };
            } else if text::starts_with(&p, "behind ") {
                let (xa, xb) = text::trim_range(&v, qa + 7, qb);
                assert(v@.subrange(qa + 7, qb as int) =~= p@.subrange(7, p@.len() as int));
                repo.behind = match text::parse_usize_range(&v, xa, xb) {
                    Some(n) => n,
                    None => 0,
                };
            }
            k += 1;
        }
        assert(ps.take(k as int) =~= ps);
    }
}


/// The repository after one `XY path` entry of `git status -z`: untracked
/// files go to the changes, ignored ones are dropped, conflicts go to the
/// merge group; otherwise the index letter gives a staged change and the
/// worktree letter an unstaged one (a file may appear in both).
pub open spec fn v2_entry(root: Seq<char>, x: u8, y: u8, path: Seq<char>, r: RepoModel) -> RepoModel {
    let abs = paths::join(root, path);
    if x == 63 && y == 63 {
        RepoModel {
            working: r.working.push(status::change(abs, path, ChangeKind::Untracked, false)),
            ..r
        }
    } else if x == 33 && y == 33 {
        r
    } else if spec_is_conflict(x, y) {
        RepoModel {
            merge: r.merge.push(status::change(abs, path, ChangeKind::Conflicted, false)),
            ..r
        }
    } else {
        let index = match spec_index_kind(x) {
            Some(k) => r.index.push(status::change(abs, path, k, true)),
            None => r.index,
        };
        let working = match spec_index_kind(y) {
            Some(k) => r.working.push(status::change(abs, path, k, false)),
            None => r.working,
        };
        RepoModel { index, working, ..r }
    }
}

/// The bytes `## `.
pub open spec fn header_mark() -> Seq<u8> {
    seq![35u8, 35u8, 32u8]
}

/// Reading the NUL-separated tokens of `git status -z --branch` from token
/// `i` on: empty tokens are skipped, the `## ` token is the branch header,
/// tokens shorter than three bytes are skipped, and an entry whose status
/// has a rename or copy (`R`/`C`) is followed by the old path, which
/// is skipped too.
pub open spec fn v2_scan(root: Seq<char>, toks: Seq<Seq<u8>>, i: int, r: RepoModel) -> RepoModel
    decreases toks.len() - i,
{
    if i < 0 || i >= toks.len() {
        r
    } else {
        let tok = toks[i];
        if tok.len() == 0 {
            v2_scan(root, toks, i + 1, r)
        } else if (tok.len() >= 3 && tok.subrange(0, 3) == header_mark()) || tok == seq![
            35u8,
            35u8,
        ] {
            v2_scan(root, toks, i + 1, header_effect(text::lossy_text(tok), r))
        } else if tok.len() < 3 {
            v2_scan(root, toks, i + 1, r)
        } else {
            let x = tok[0];
            let y = tok[1];
            let path = text::lossy_text(tok.subrange(3, tok.len() as int));
            let renamed = x == 82 || x == 67 || y == 82 || y == 67;
            let next = if renamed && i + 1 < toks.len() {
                i + 2
            } else {
                i + 1
            };
            v2_scan(root, toks, next, v2_entry(root, x, y, path, r))
        }
    }
}

/// The repository at `root` before reading any status: named after the
/// last component of `root` (or all of `root`), no branch, nothing changed.
pub open spec fn fresh_repo(root: Seq<char>) -> RepoModel {
    RepoModel {
        root,
        name: paths::name_or_path(root),
        branch: None,
        has_upstream: false,
        ahead: 0,
        behind: 0,
        merge: Seq::empty(),
        index: Seq::empty(),
        working: Seq::empty(),
    }
}

/// The state `status_v2` reads for `root` from the output `out` of git.
pub open spec fn status_of(root: Seq<char>, out: Option<Vec<u8>>) -> RepoModel {
    match out {
        None => fresh_repo(root),
        Some(b) => v2_scan(root, text::split_bytes(b@, 0), 0, fresh_repo(root)),
    }
}

proof fn lemma_v2_scan_keeps(root: Seq<char>, toks: Seq<Seq<u8>>, i: int, r: RepoModel)
    ensures
        v2_scan(root, toks, i, r).root == r.root,
        v2_scan(root, toks, i, r).name == r.name,
    decreases toks.len() - i,
{
    if 0 <= i < toks.len() {
        let tok = toks[i];
        if tok.len() == 0 {
            lemma_v2_scan_keeps(root, toks, i + 1, r);
        } else if (tok.len() >= 3 && tok.subrange(0, 3) == header_mark()) || tok == seq![35u8, 35u8] {
            lemma_v2_scan_keeps(root, toks, i + 1, header_effect(text::lossy_text(tok), r));
        } else if tok.len() < 3 {
            lemma_v2_scan_keeps(root, toks, i + 1, r);
        } else {
            let x = tok[0];
            let y = tok[1];
            let path = text::lossy_text(tok.subrange(3, tok.len() as int));
            let renamed = x == 82 || x == 67 || y == 82 || y == 67;
            let next = if renamed && i + 1 < toks.len() {
                i + 2
            } else {
                i + 1
            };
            lemma_v2_scan_keeps(root, toks, next, v2_entry(root, x, y, path, r));
        }
    }
}

/// Reading a status keeps the repository's root and the name taken from
/// it, whatever `git` printed.
pub proof fn lemma_status_keeps_root_and_name(root: Seq<char>, out: Option<Vec<u8>>)
    ensures
        status_of(root, out).root == root,
        status_of(root, out).name == paths::name_or_path(root),
{
    match out {
        None => {},
        Some(b) => lemma_v2_scan_keeps(root, text::split_bytes(b@, 0), 0, fresh_repo(root)),
    }
}

/// The arguments of `git` that print the status used by `status_v2`.
pub fn status_v2_args() -> (r: Vec<String>)
    ensures
        r@.len() == 4,
        r@[0]@ == "status"@,
        r@[1]@ == "-z"@,
        r@[2]@ == "--branch"@,
        r@[3]@ == "-uall"@,
{
    let mut r: Vec<String> = Vec::new();
    r.push(text::owned("status"));
    r.push(text::owned("-z"));
    r.push(text::owned("--branch"));
    r.push(text::owned("-uall"));
    r
}

/// A change record for `path` under `root`.
fn entry(root: &str, path: &String, kind: ChangeKind, staged: bool) -> (c: FileChange)
    ensures
        c@ == status::change(paths::join(root@, path@), path@, kind, staged),
{
    status::make_change(paths::join_path(root, path.as_str()), path.clone(), kind, staged)
}

/// Adds one `XY path` entry to `repo`.
fn add_entry(root: &str, x: u8, y: u8, path: String, repo: &mut Repository)
    ensures
        final(repo)@ == v2_entry(root@, x, y, path@, old(repo)@),
{
    if x == 63u8 && y == 63u8 {
        let c = entry(root, &path, ChangeKind::Untracked, false);
        repo.working.push(c);
        assert(status::changes(repo.working@) =~= status::changes(old(repo).working@).push(c@));
    } else if x == 33u8 && y == 33u8 {
    } else if is_conflict(x, y) {
        let c = entry(root, &path, ChangeKind::Conflicted, false);
        repo.merge.push(c);
        assert(status::changes(repo.merge@) =~= status::changes(old(repo).merge@).push(c@));
    } else {
        if let Some(kind) = index_kind(x) {
            let c = entry(root, &path, kind, true);
            repo.index.push(c);
            assert(status::changes(repo.index@) =~= status::changes(old(repo).index@).push(c@));
        }
        if let Some(kind) = worktree_kind(y) {
            let c = entry(root, &path, kind, false);
            let ghost before = repo.working@;
            repo.working.push(c);
            assert(status::changes(repo.working@) =~= status::changes(before).push(c@));
        }
    }
}

/// Working-tree status for `root` parsed into resource groups, from what
/// `git status -z --branch -uall` printed (nothing read when git failed).
pub fn status_v2(root: &str, out: Option<Vec<u8>>) -> (r: Repository)
    ensures
        match out {
            None => r@ == fresh_repo(root@),
            Some(b) => r@ == v2_scan(root@, text::split_bytes(b@, 0), 0, fresh_repo(root@)),
        },
{
    let mut repo = Repository {
        root: text::owned(root),
        name: paths::name_or_whole(root),
        branch: None,
        has_upstream: false,
        ahead: 0,
        behind: 0,
        merge: Vec::new(),
        index: Vec::new(),
        working: Vec::new(),
    };
    assert(repo@ =~= fresh_repo(root@));
    let bytes = match out {
        None => return repo,
        Some(b) => b,
    };
    let toks = text::split_byte_ranges(&bytes, 0);
    let ghost tv = text::split_bytes(bytes@, 0);
    let ghost r0 = repo@;
    let mut i: usize = 0;
    while i < toks.len()
        invariant
            text::byte_ranges_cut(bytes@, toks@, tv),
            0 <= i <= toks@.len(),
            v2_scan(root@, tv, 0, r0) == v2_scan(root@, tv, i as int, repo@),
        decreases toks@.len() - i,
    {
        let (a, b) = toks[i];
        let ghost tok = tv[i as int];
        assert(tok == bytes@.subrange(a as int, b as int));
        i += 1;
        if b == a {
            continue;
        }
        let is_header = (b - a >= 3 && bytes[a] == 35u8 && bytes[a + 1] == 35u8 && bytes[a + 2]
            == 32u8) || (b - a == 2 && bytes[a] == 35u8 && bytes[a + 1] == 35u8);
        assert(is_header == ((tok.len() >= 3 && tok.subrange(0, 3) == header_mark()) || tok
            == seq![35u8, 35u8])) by {
            if tok.len() >= 3 && tok.subrange(0, 3) == header_mark() {
                assert(tok.subrange(0, 3)[0] == tok[0]);
                assert(tok.subrange(0, 3)[1] == tok[1]);
                assert(tok.subrange(0, 3)[2] == tok[2]);
            }
            if b - a >= 3 && bytes@[a as int] == 35u8 && bytes@[a + 1] == 35u8 && bytes@[a + 2]
                == 32u8 {
                assert(tok.subrange(0, 3) =~= header_mark());
            }
            if b - a == 2 && bytes@[a as int] == 35u8 && bytes@[a + 1] == 35u8 {
                assert(tok =~= seq![35u8, 35u8]);
            }
            if tok == seq![35u8, 35u8] {
                assert(tok[0] == 35u8 && tok[1] == 35u8);
            }
        }
        if is_header {
            let tb = text::slice_bytes(&bytes, a, b);
            let hs = text::from_utf8_lossy(tb.as_slice());
            parse_branch_header(hs.as_str(), &mut repo);
            continue;
        }
        if b - a < 3 {
            continue;
        }
        let x = bytes[a];
        let y = bytes[a + 1];
        let pb = text::slice_bytes(&bytes, a + 3, b);
        assert(pb@ =~= tok.subrange(3, tok.len() as int));
        let path = text::from_utf8_lossy(pb.as_slice());
        if x == 82u8 || x == 67u8 || y == 82u8 || y == 67u8 {
            if i < toks.len() {
                i += 1;
            }
        }
        add_entry(root, x, y, path, &mut repo);
    }
    repo
}

} // verus!

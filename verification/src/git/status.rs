//! The `git` command lines behind the Source Control view, and the parsers
//! of their output: working-tree status, current branch, per-line diff
//! decorations, branch list, ahead/behind counts.
//!
//! Running `git` is left to the caller: the functions here build the
//! arguments and read back what `git` printed (`None` when it failed).

use std::collections::BTreeMap;

use vstd::prelude::*;

use crate::paths;
use crate::text;

verus! {

broadcast use vstd::laws_cmp::group_laws_cmp, vstd::std_specs::btree::group_btree_axioms;

/// What kind of change a file (or line) carries.
#[derive(Clone, Copy, Debug, PartialEq, Eq, Structural)]
pub enum ChangeKind {
    Modified,
    Added,
    Deleted,
    Renamed,
    Copied,
    Untracked,
    Ignored,
    TypeChanged,
    Conflicted,
}

impl ChangeKind {
    /// Single-letter badge shown after the file name (M/A/D/U/...).
    pub fn badge(self) -> (r: &'static str)
        ensures
            r@ == spec_badge(self),
    {
        match self {
            ChangeKind::Modified => "M",
            ChangeKind::Added => "A",
            ChangeKind::Deleted => "D",
            ChangeKind::Renamed => "R",
            ChangeKind::Copied => "C",
            ChangeKind::Untracked => "U",
            ChangeKind::Ignored => "I",
            ChangeKind::TypeChanged => "T",
            ChangeKind::Conflicted => "!",
        }
    }

    /// Deleted files are rendered with a strikethrough.
    pub fn strikethrough(self) -> (r: bool)
        ensures
            r == (self == ChangeKind::Deleted),
    {
        match self {
            ChangeKind::Deleted => true,
            _ => false,
        }
    }
}

pub open spec fn spec_badge(k: ChangeKind) -> Seq<char> {
    match k {
        ChangeKind::Modified => "M"@,
        ChangeKind::Added => "A"@,
        ChangeKind::Deleted => "D"@,
        ChangeKind::Renamed => "R"@,
        ChangeKind::Copied => "C"@,
        ChangeKind::Untracked => "U"@,
        ChangeKind::Ignored => "I"@,
        ChangeKind::TypeChanged => "T"@,
        ChangeKind::Conflicted => "!"@,
    }
}

/// One changed path in the working tree.
#[derive(Clone, Debug)]
pub struct FileChange {
    pub path: String,
    /// Path relative to the repo root, as reported by git (for display).
    pub rel: String,
    pub kind: ChangeKind,
    /// `true` when the change is in the index (staged), `false` for the
    /// working-tree (unstaged) copy.
    pub staged: bool,
}

/// The mathematical value of a `FileChange`.
pub struct Change {
    pub path: Seq<char>,
    pub rel: Seq<char>,
    pub kind: ChangeKind,
    pub staged: bool,
}

impl View for FileChange {
    type V = Change;

    open spec fn view(&self) -> Change {
        Change { path: self.path@, rel: self.rel@, kind: self.kind, staged: self.staged }
    }
}

pub open spec fn changes(v: Seq<FileChange>) -> Seq<Change> {
    v.map_values(|f: FileChange| f@)
}

pub open spec fn change(path: Seq<char>, rel: Seq<char>, kind: ChangeKind, staged: bool) -> Change {
    Change { path, rel, kind, staged }
}

/// A new change record.
pub fn make_change(path: String, rel: String, kind: ChangeKind, staged: bool) -> (c: FileChange)
    ensures
        c@ == change(path@, rel@, kind, staged),
{
    FileChange { path, rel, kind, staged }
}

/// Aggregate working-tree state for the Source Control view.
#[derive(Clone, Debug)]
pub struct RepoStatus {
    pub branch: Option<String>,
    pub staged: Vec<FileChange>,
    pub unstaged: Vec<FileChange>,
}

impl RepoStatus {
    /// The number of changes, staged and unstaged.
    pub fn total(&self) -> (r: usize)
        requires
            self.staged@.len() + self.unstaged@.len() <= usize::MAX,
        ensures
            r == self.staged@.len() + self.unstaged@.len(),
    {
        self.staged.len() + self.unstaged.len()
    }
}

/// The arguments of `git` that print the repository root of a directory.
pub fn repo_root_args() -> (r: Vec<String>)
    ensures
        r@.len() == 2,
        r@[0]@ == "rev-parse"@,
        r@[1]@ == "--show-toplevel"@,
{
    let mut r: Vec<String> = Vec::new();
    r.push(text::owned("rev-parse"));
    r.push(text::owned("--show-toplevel"));
    r
}

/// The repository root from what `git rev-parse --show-toplevel` printed:
/// the trimmed text, or `None` when git failed or printed only whitespace.
pub fn repo_root(out: Option<String>) -> (r: Option<String>)
    ensures
        match r {
            Some(p) => out is Some && p@ == text::trim(out->0@) && p@.len() > 0,
            None => out is None || text::trim(out->0@).len() == 0,
        },
{
    match out {
        None => None,
        Some(o) => {
            let t = text::trim_string(o.as_str());
            if t.as_str().is_empty() {
                None
            } else {
                Some(t)
            }
        },
    }
}

/// The arguments of `git` that print the current branch.
pub fn branch_args() -> (r: Vec<String>)
    ensures
        r@.len() == 3,
        r@[0]@ == "rev-parse"@,
        r@[1]@ == "--abbrev-ref"@,
        r@[2]@ == "HEAD"@,
{
    let mut r: Vec<String> = Vec::new();
    r.push(text::owned("rev-parse"));
    r.push(text::owned("--abbrev-ref"));
    r.push(text::owned("HEAD"));
    r
}

/// The current branch from what `git rev-parse --abbrev-ref HEAD` printed;
/// `None` when git failed, or the name is empty or `HEAD` (detached).
pub fn branch(out: Option<String>) -> (r: Option<String>)
    ensures
        match r {
            Some(n) => out is Some && n@ == text::trim(out->0@) && n@.len() > 0 && n@ != "HEAD"@,
            None => out is None || text::trim(out->0@).len() == 0 || text::trim(out->0@) == "HEAD"@,
        },
{
    match out {
        None => None,
        Some(o) => {
            let t = text::trim_string(o.as_str());
            let v = text::chars_of(t.as_str());
            if v.len() == 0 || text::str_eq(&v, "HEAD") {
                None
            } else {
                Some(t)
            }
        },
    }
}

/// The change kind of a one-letter status code of `git status --porcelain`.
pub open spec fn code_kind(c: char) -> Option<ChangeKind> {
    if c == 'M' {
        Some(ChangeKind::Modified)
    } else if c == 'A' {
        Some(ChangeKind::Added)
    } else if c == 'D' {
        Some(ChangeKind::Deleted)
    } else if c == 'R' || c == 'C' {
        Some(ChangeKind::Renamed)
    } else if c == 'U' {
        Some(ChangeKind::Conflicted)
    } else {
        None
    }
}

/// A one-letter code of `git status --porcelain` names its change: exactly
/// `M`, `A`, `D`, `R`, `C` and `U` give one; the badge of `M`, `A`, `D` and
/// `R` is the letter itself, a copy (`C`) is shown as a rename, and `U`
/// (unmerged) as a conflict.
pub proof fn law_status_code_is_badge(c: char)
    ensures
        code_kind(c) is Some <==> (c == 'M' || c == 'A' || c == 'D' || c == 'R' || c == 'C' || c == 'U'),
        c != 'C' && c != 'U' ==> (code_kind(c) matches Some(k) ==> spec_badge(k) == seq![c]),
        c == 'C' ==> code_kind(c) == Some(ChangeKind::Renamed),
        c == 'U' ==> code_kind(c) == Some(ChangeKind::Conflicted),
{
    reveal_strlit("M");
    reveal_strlit("A");
    reveal_strlit("D");
    reveal_strlit("R");
    if c == 'M' {
        assert(spec_badge(ChangeKind::Modified) =~= seq!['M']);
    } else if c == 'A' {
        assert(spec_badge(ChangeKind::Added) =~= seq!['A']);
    } else if c == 'D' {
        assert(spec_badge(ChangeKind::Deleted) =~= seq!['D']);
    } else if c == 'R' {
        assert(spec_badge(ChangeKind::Renamed) =~= seq!['R']);
    }
}

pub fn kind_from_code(code: char) -> (r: Option<ChangeKind>)
    ensures
        r == code_kind(code),
{
    match code {
        'M' => Some(ChangeKind::Modified),
        'A' => Some(ChangeKind::Added),
        'D' => Some(ChangeKind::Deleted),
        'R' | 'C' => Some(ChangeKind::Renamed),
        'U' => Some(ChangeKind::Conflicted),
        _ => None,
    }
}

/// The arguments of `git` that print the short working-tree status.
pub fn status_args() -> (r: Vec<String>)
    ensures
        r@.len() == 3,
        r@[0]@ == "status"@,
        r@[1]@ == "--porcelain=v1"@,
        r@[2]@ == "--untracked-files=all"@,
{
    let mut r: Vec<String> = Vec::new();
    r.push(text::owned("status"));
    r.push(text::owned("--porcelain=v1"));
    r.push(text::owned("--untracked-files=all"));
    r
}

/// The path named by a porcelain status line: after the two status letters
/// and a space; of a rename `orig -> new`, the new name; trimmed.
pub open spec fn v1_rel(line: Seq<char>) -> Seq<char> {
    text::trim(text::after_last(line.subrange(3, line.len() as int), " -> "@))
}

/// The staged and unstaged lists after reading one more status line.
pub open spec fn v1_step(root: Seq<char>, acc: (Seq<Change>, Seq<Change>), line: Seq<char>) -> (
    Seq<Change>,
    Seq<Change>,
) {
    if text::byte_len(line) < 3 {
        acc
    } else {
        let x = line[0];
        let y = line[1];
        let rel = v1_rel(line);
        let abs = paths::join(root, rel);
        if x == '?' && y == '?' {
            (acc.0, acc.1.push(change(abs, rel, ChangeKind::Untracked, false)))
        } else {
            let s = match code_kind(x) {
                Some(k) => acc.0.push(change(abs, rel, k, true)),
                None => acc.0,
            };
            let u = match code_kind(y) {
                Some(k) => acc.1.push(change(abs, rel, k, false)),
                None => acc.1,
            };
            (s, u)
        }
    }
}

/// The staged and unstaged lists of a sequence of porcelain status lines.
pub open spec fn v1_lists(root: Seq<char>, ls: Seq<Seq<char>>) -> (Seq<Change>, Seq<Change>)
    decreases ls.len(),
{
    if ls.len() == 0 {
        (Seq::empty(), Seq::empty())
    } else {
        v1_step(root, v1_lists(root, ls.drop_last()), ls.last())
    }
}

/// Every line long enough to be read is at least three characters long (a
/// shorter one would make the reader index past its end).
pub open spec fn v1_readable(out: Seq<char>) -> bool {
    forall|i: int|
        0 <= i < text::lines(out).len() ==> (text::byte_len(#[trigger] text::lines(out)[i]) >= 3
            ==> text::lines(out)[i].len() >= 3)
}

/// Parse `git status --porcelain=v1` (already run in `root`, with `branch`
/// its current branch) into staged and unstaged change lists. Untracked
/// files (`??`) are unstaged; otherwise the index letter gives a staged
/// change and the worktree letter an unstaged one.
pub fn status(root: &str, branch: Option<String>, out: Option<String>) -> (r: RepoStatus)
    requires
        out matches Some(o) ==> v1_readable(o@),
    ensures
        r.branch == branch,
        match out {
            None => r.staged@.len() == 0 && r.unstaged@.len() == 0,
            Some(o) => (changes(r.staged@), changes(r.unstaged@)) == v1_lists(
                root@,
                text::lines(o@),
            ),
        },
{
    let mut repo = RepoStatus { branch, staged: Vec::new(), unstaged: Vec::new() };
    let o = match out {
        None => return repo,
        Some(o) => o,
    };
    let v = text::chars_of(o.as_str());
    let ls = text::line_ranges(&v);
    let ghost lines = text::lines(v@);
    let arrow = text::chars_of(" -> ");
    let mut i: usize = 0;
    assert(lines.take(0) =~= Seq::<Seq<char>>::empty());
    while i < ls.len()
        invariant
            v@ == o@,
            lines == text::lines(v@),
            v1_readable(v@),
            text::ranges_cut(v@, ls@, lines),
            arrow@ == " -> "@,
            0 <= i <= ls@.len(),
            repo.branch == branch,
            (changes(repo.staged@), changes(repo.unstaged@)) == v1_lists(
                root@,
                lines.take(i as int),
            ),
        decreases ls@.len() - i,
    {
        let (a, b) = ls[i];
        let ghost line = lines[i as int];
        assert(line == v@.subrange(a as int, b as int));
        assert(lines.take(i + 1 as int).drop_last() =~= lines.take(i as int));
        let ghost before = (changes(repo.staged@), changes(repo.unstaged@));
        if text::byte_len_at_least(&v, a, b, 3) {
            assert(line.len() >= 3);
            let x = v[a];
            let y = v[a + 1];
            assert(x == line[0] && y == line[1]);
            let s = text::after_last_range(&v, a + 3, b, &arrow);
            assert(v@.subrange(a + 3, b as int) =~= line.subrange(3, line.len() as int));
            let (ta, tb) = text::trim_range(&v, s, b);
            let rel = text::string_of(&v, ta, tb);
            assert(rel@ == v1_rel(line));
            let abs = paths::join_path(root, rel.as_str());
            if x == '?' && y == '?' {
                repo.unstaged.push(make_change(abs, rel, ChangeKind::Untracked, false));
            } else {
                if let Some(kind) = kind_from_code(x) {
                    repo.staged.push(make_change(abs.clone(), rel.clone(), kind, true));
                }
                if let Some(kind) = kind_from_code(y) {
                    repo.unstaged.push(make_change(abs, rel, kind, false));
                }
            }
        }
        assert(changes(repo.staged@) =~= v1_step(root@, before, line).0);
        assert(changes(repo.unstaged@) =~= v1_step(root@, before, line).1);
        i += 1;
    }
    assert(lines.take(i as int) =~= lines);
    repo
}

/// How a single editor line differs from the indexed (HEAD) version.
#[derive(Clone, Copy, Debug, PartialEq, Eq, Structural)]
pub enum DiffKind {
    Added,
    Modified,
    /// A deletion occurred just above this line.
    DeletedAbove,
}


/// One operation of a line diff between a base text and a new text:
/// line indices and lengths into the old and the new list of lines.
#[derive(Clone, Copy, Debug, PartialEq, Eq, Structural)]
pub enum LineOp {
    Equal { old_index: usize, new_index: usize, len: usize },
    Delete { old_index: usize, old_len: usize, new_index: usize },
    Insert { old_index: usize, new_index: usize, new_len: usize },
    Replace { old_index: usize, old_len: usize, new_index: usize, new_len: usize },
}

/// The operations of `similar`'s line diff (Myers, no deadline) of `old`
/// against `new`.
pub uninterp spec fn line_diff_ops(old: Seq<char>, new: Seq<char>) -> Seq<LineOp>;

/// Calls `similar::TextDiff::from_lines(old, new).ops()` and converts each
/// `DiffOp` to the `LineOp` with the same fields. What the operations are is
/// left to the name `line_diff_ops`: the crate computes them from the two
/// texts alone (the default configuration sets no deadline). The operations
/// cover ranges of the lines of `new`, and `new` has no more lines than
/// characters (every line holds at least one), so no range ends past
/// `new@.len()`.
#[verifier::external_body]
fn diff_line_ops(old: &str, new: &str) -> (r: Vec<LineOp>)
    ensures
        r@ == line_diff_ops(old@, new@),
        ops_within(r@, new@.len()),
{
    let diff = similar::TextDiff::from_lines(old, new);
    let mut r = Vec::new();
    for op in diff.ops() {
        r.push(match *op {
            similar::DiffOp::Equal { old_index, new_index, len } => LineOp::Equal { old_index, new_index, len },
            similar::DiffOp::Delete { old_index, old_len, new_index } => LineOp::Delete { old_index, old_len, new_index },
            similar::DiffOp::Insert { old_index, new_index, new_len } => LineOp::Insert { old_index, new_index, new_len },
            similar::DiffOp::Replace { old_index, old_len, new_index, new_len } => LineOp::Replace { old_index, old_len, new_index, new_len },
        });
    }
    r
}

/// The gutter decorations after one more diff operation, keyed by 1-based
/// line of the new text: inserted lines are added, replacing lines are
/// modified, and a deletion marks the line it happened above.
pub open spec fn apply_op(m: Map<usize, DiffKind>, op: LineOp) -> Map<usize, DiffKind> {
    match op {
        LineOp::Equal { .. } => m,
        LineOp::Insert { new_index, new_len, .. } => m.union_prefer_right(
            Map::new(|k: usize| new_index < k <= new_index + new_len, |k: usize| DiffKind::Added),
        ),
        LineOp::Replace { new_index, new_len, .. } => m.union_prefer_right(
            Map::new(
                |k: usize| new_index < k <= new_index + new_len,
                |k: usize| DiffKind::Modified,
            ),
        ),
        LineOp::Delete { new_index, .. } => m.insert((new_index + 1) as usize, DiffKind::DeletedAbove),
    }
}

/// The gutter decorations of a list of diff operations, applied in order.
pub open spec fn gutter(ops: Seq<LineOp>) -> Map<usize, DiffKind>
    decreases ops.len(),
{
    if ops.len() == 0 {
        Map::empty()
    } else {
        apply_op(gutter(ops.drop_last()), ops.last())
    }
}

/// The gutter marks only lines of the new text (numbered from 1).
pub proof fn law_gutter_lines_from_one(ops: Seq<LineOp>)
    requires
        ops_fit(ops),
    ensures
        forall|k: usize| #[trigger] gutter(ops).dom().contains(k) ==> k >= 1,
    decreases ops.len(),
{
    if ops.len() > 0 {
        lemma_ops_fit_drop_last(ops);
        law_gutter_lines_from_one(ops.drop_last());
        assert(ops.last() == ops[ops.len() - 1]);
        let m = gutter(ops.drop_last());
        assert forall|k: usize| #[trigger] gutter(ops).dom().contains(k) implies k >= 1 by {
            if !m.dom().contains(k) {
                match ops.last() {
                    LineOp::Delete { new_index, .. } => {
                        assert(k == (new_index + 1) as usize);
                    },
                    _ => {},
                }
            }
        }
    }
}

/// The 1-based line `k` of the new text is one that the diff operation `op`
/// decorates: a line it inserts or replaces, or the line just below a
/// deletion.
pub open spec fn op_touches(op: LineOp, k: int) -> bool {
    match op {
        LineOp::Equal { .. } => false,
        LineOp::Insert { new_index, new_len, .. } => new_index < k <= new_index + new_len,
        LineOp::Replace { new_index, new_len, .. } => new_index < k <= new_index + new_len,
        LineOp::Delete { new_index, .. } => k == new_index + 1,
    }
}

proof fn lemma_ops_fit_drop_last(ops: Seq<LineOp>)
    requires
        ops.len() > 0,
        ops_fit(ops),
    ensures
        ops_fit(ops.drop_last()),
{
    assert forall|i: int| 0 <= i < ops.drop_last().len() implies match #[trigger] ops.drop_last()[i] {
        LineOp::Equal { .. } => true,
        LineOp::Insert { new_index, new_len, .. } => new_index + new_len < usize::MAX,
        LineOp::Replace { new_index, new_len, .. } => new_index + new_len < usize::MAX,
        LineOp::Delete { new_index, .. } => new_index < usize::MAX,
    } by {
        assert(ops.drop_last()[i] == ops[i]);
    }
}

/// Every line that an operation covers is decorated for it unless a later
/// operation decorates the same line: every inserted line is `Added`, every
/// line of a replacement `Modified`, and the line below a deletion
/// `DeletedAbove`.
pub proof fn law_gutter_marks_covered_lines(ops: Seq<LineOp>, i: int, k: usize)
    requires
        ops_fit(ops),
        0 <= i < ops.len(),
        op_touches(ops[i], k as int),
        forall|j: int| i < j < ops.len() ==> !op_touches(#[trigger] ops[j], k as int),
    ensures
        gutter(ops).dom().contains(k),
        gutter(ops)[k] == match ops[i] {
            LineOp::Insert { .. } => DiffKind::Added,
            LineOp::Replace { .. } => DiffKind::Modified,
            _ => DiffKind::DeletedAbove,
        },
    decreases ops.len(),
{
    let m = gutter(ops.drop_last());
    assert(ops.last() == ops[ops.len() - 1]);
    if i < ops.len() - 1 {
        assert forall|j: int| i < j < ops.drop_last().len() implies !op_touches(
            #[trigger] ops.drop_last()[j],
            k as int,
        ) by {
            assert(ops.drop_last()[j] == ops[j]);
        }
        assert(ops.drop_last()[i] == ops[i]);
        lemma_ops_fit_drop_last(ops);
        law_gutter_marks_covered_lines(ops.drop_last(), i, k);
        assert(!op_touches(ops.last(), k as int));
        match ops.last() {
            LineOp::Delete { new_index, .. } => {
                assert(k != (new_index + 1) as usize);
            },
            _ => {},
        }
    } else {
        match ops.last() {
            LineOp::Delete { new_index, .. } => {
                assert(k == (new_index + 1) as usize);
            },
            _ => {},
        }
    }
}

/// Only lines that some operation covers are decorated.
pub proof fn law_gutter_marks_only_covered_lines(ops: Seq<LineOp>, k: usize)
    requires
        ops_fit(ops),
        gutter(ops).dom().contains(k),
    ensures
        exists|i: int| 0 <= i < ops.len() && #[trigger] op_touches(ops[i], k as int),
    decreases ops.len(),
{
    let m = gutter(ops.drop_last());
    let n = ops.len() - 1;
    assert(ops.last() == ops[n]);
    if m.dom().contains(k) {
        assert(ops_fit(ops.drop_last())) by {
            assert forall|i: int| 0 <= i < ops.drop_last().len() implies match #[trigger] ops.drop_last()[i] {
                LineOp::Equal { .. } => true,
                LineOp::Insert { new_index, new_len, .. } => new_index + new_len < usize::MAX,
                LineOp::Replace { new_index, new_len, .. } => new_index + new_len < usize::MAX,
                LineOp::Delete { new_index, .. } => new_index < usize::MAX,
            } by {
                assert(ops.drop_last()[i] == ops[i]);
            }
        }
        law_gutter_marks_only_covered_lines(ops.drop_last(), k);
        let i = choose|i: int| 0 <= i < ops.drop_last().len() && #[trigger] op_touches(ops.drop_last()[i], k as int);
        assert(ops.drop_last()[i] == ops[i]);
    } else {
        match ops[n] {
            LineOp::Delete { new_index, .. } => {
                assert(k == (new_index + 1) as usize);
                assert(op_touches(ops[n], k as int));
            },
            _ => {
                assert(op_touches(ops[n], k as int));
            },
        }
    }
}

/// An operation whose ranges of the new text end by line `n`.
pub open spec fn op_within(op: LineOp, n: nat) -> bool {
    match op {
        LineOp::Equal { new_index, len, .. } => new_index + len <= n,
        LineOp::Insert { new_index, new_len, .. } => new_index + new_len <= n,
        LineOp::Replace { new_index, new_len, .. } => new_index + new_len <= n,
        LineOp::Delete { new_index, .. } => new_index <= n,
    }
}

/// Every operation's ranges of the new text end by line `n`.
pub open spec fn ops_within(ops: Seq<LineOp>, n: nat) -> bool {
    forall|i: int| 0 <= i < ops.len() ==> op_within(#[trigger] ops[i], n)
}

/// No operation reaches past line `usize::MAX` of the new text.
pub open spec fn ops_fit(ops: Seq<LineOp>) -> bool {
    forall|i: int|
        0 <= i < ops.len() ==> match #[trigger] ops[i] {
            LineOp::Equal { .. } => true,
            LineOp::Insert { new_index, new_len, .. } => new_index + new_len < usize::MAX,
            LineOp::Replace { new_index, new_len, .. } => new_index + new_len < usize::MAX,
            LineOp::Delete { new_index, .. } => new_index < usize::MAX,
        }
}

/// Whether no operation reaches past line `usize::MAX`.
pub fn ops_fit_exec(ops: &Vec<LineOp>) -> (r: bool)
    ensures
        r == ops_fit(ops@),
{
    let mut i: usize = 0;
    while i < ops.len()
        invariant
            0 <= i <= ops@.len(),
            forall|k: int| 0 <= k < i ==> match #[trigger] ops@[k] {
                LineOp::Equal { .. } => true,
                LineOp::Insert { new_index, new_len, .. } => new_index + new_len < usize::MAX,
                LineOp::Replace { new_index, new_len, .. } => new_index + new_len < usize::MAX,
                LineOp::Delete { new_index, .. } => new_index < usize::MAX,
            },
        decreases ops@.len() - i,
    {
        let ok = match ops[i] {
            LineOp::Equal { .. } => true,
            LineOp::Insert { new_index, new_len, .. } => new_len < usize::MAX - new_index,
            LineOp::Replace { new_index, new_len, .. } => new_len < usize::MAX - new_index,
            LineOp::Delete { new_index, .. } => new_index < usize::MAX,
        };
        if !ok {
            return false;
        }
        i += 1;
    }
    true
}

/// Marks the lines `from + 1 ..= from + len` with `kind`.
fn mark_lines(map: &mut BTreeMap<usize, DiffKind>, from: usize, len: usize, kind: DiffKind)
    requires
        from + len < usize::MAX,
    ensures
        final(map)@ == old(map)@.union_prefer_right(
            Map::new(|k: usize| from < k <= from + len, |k: usize| kind),
        ),
{
    let ghost m0 = map@;
    let mut i: usize = 0;
    while i < len
        invariant
            0 <= i <= len,
            from + len < usize::MAX,
            map@ == m0.union_prefer_right(Map::new(|k: usize| from < k <= from + i, |k: usize| kind)),
        decreases len - i,
    {
        map.insert(from + i + 1, kind);
        i += 1;
        assert(map@ =~= m0.union_prefer_right(
            Map::new(|k: usize| from < k <= from + i, |k: usize| kind),
        ));
    }
}

/// The gutter decorations of diff operations whose lines all fit.
pub fn gutter_from_ops(ops: &Vec<LineOp>) -> (r: BTreeMap<usize, DiffKind>)
    requires
        ops_fit(ops@),
    ensures
        r@ == gutter(ops@),
{
    let mut map: BTreeMap<usize, DiffKind> = BTreeMap::new();
    let mut i: usize = 0;
    assert(ops@.take(0) =~= Seq::<LineOp>::empty());
    while i < ops.len()
        invariant
            0 <= i <= ops@.len(),
            ops_fit(ops@),
            map@ == gutter(ops@.take(i as int)),
        decreases ops@.len() - i,
    {
        assert(ops@.take(i + 1 as int).drop_last() =~= ops@.take(i as int));
        assert(ops@.take(i + 1 as int).last() == ops@[i as int]);
        let op = ops[i];
        match op {
            LineOp::Equal { .. } => {},
            LineOp::Insert { new_index, new_len, .. } => {
                mark_lines(&mut map, new_index, new_len, DiffKind::Added);
            },
            LineOp::Replace { new_index, new_len, .. } => {
                mark_lines(&mut map, new_index, new_len, DiffKind::Modified);
            },
            LineOp::Delete { new_index, .. } => {
                map.insert(new_index + 1, DiffKind::DeletedAbove);
            },
        }
        i += 1;
    }
    assert(ops@.take(i as int) =~= ops@);
    map
}

/// Per-line gutter decorations computed in-process from the base (HEAD)
/// text and the current text, keyed by 1-based line of the current text;
/// empty in the (unreachable) case of a diff whose lines do not fit.
pub fn line_changes_diff(base: &str, working: &str) -> (r: BTreeMap<usize, DiffKind>)
    requires
        working@.len() < usize::MAX,
    ensures
        r@ == gutter(line_diff_ops(base@, working@)),
{
    let ops = diff_line_ops(base, working);
    assert(ops_fit(ops@)) by {
        assert forall|i: int| 0 <= i < ops@.len() implies match #[trigger] ops@[i] {
            LineOp::Equal { .. } => true,
            LineOp::Insert { new_index, new_len, .. } => new_index + new_len < usize::MAX,
            LineOp::Replace { new_index, new_len, .. } => new_index + new_len < usize::MAX,
            LineOp::Delete { new_index, .. } => new_index < usize::MAX,
        } by {
            assert(op_within(ops@[i], working@.len()));
        }
    }
    gutter_from_ops(&ops)
}

/// Piece `n` of `s` cut at `c`, as `str::split(c).nth(n)` gives it.
pub open spec fn nth_piece(s: Seq<char>, c: char, n: int) -> Option<Seq<char>> {
    let p = text::split_char(s, c);
    if 0 <= n < p.len() {
        Some(p[n])
    } else {
        None
    }
}

/// The numbers of a diff hunk header `@@ -old,len +new,len @@`:
/// `(new start, new length, old length)`, with the defaults the reader uses
/// (start 0, lengths 1) where a number is missing or malformed. `None` for
/// a line that is not a hunk header or has no `'+'`.
pub open spec fn hunk(line: Seq<char>) -> Option<(usize, usize, usize)> {
    if !text::has_prefix(line, "@@"@) {
        None
    } else {
        match nth_piece(line, '+', 1) {
            None => None,
            Some(plus) => {
                let spec = text::trim(text::split_char(plus, '@')[0]);
                let start = match text::parse_usize(text::split_char(spec, ',')[0]) {
                    Some(n) => n,
                    None => 0,
                };
                let new_len = match nth_piece(spec, ',', 1) {
                    Some(p) => match text::parse_usize(p) {
                        Some(n) => n,
                        None => 1,
                    },
                    None => 1,
                };
                let minus = match nth_piece(line, '-', 1) {
                    Some(m) => m,
                    None => Seq::empty(),
                };
                let mspec = text::trim(text::split_char(minus, '+')[0]);
                let old_len = match nth_piece(mspec, ',', 1) {
                    Some(p) => match text::parse_usize(p) {
                        Some(n) => n,
                        None => 1,
                    },
                    None => 1,
                };
                Some((start, new_len, old_len))
            },
        }
    }
}

/// The decorations after one more hunk: a pure deletion, which `git` places
/// after new line `start`, marks the line just below the gap (`start + 1`);
/// otherwise every line of the new range is
/// marked added (nothing was removed) or modified.
pub open spec fn apply_hunk(m: Map<usize, DiffKind>, h: (usize, usize, usize)) -> Map<usize, DiffKind> {
    let (start, new_len, old_len) = h;
    if new_len == 0 {
        m.insert((start + 1) as usize, DiffKind::DeletedAbove)
    } else {
        let kind = if old_len == 0 {
            DiffKind::Added
        } else {
            DiffKind::Modified
        };
        m.union_prefer_right(
            Map::new(|k: usize| start <= k < start + new_len, |k: usize| kind),
        )
    }
}

/// The decorations of the lines of a `git diff -U0` output.
pub open spec fn diff_decorations(ls: Seq<Seq<char>>) -> Map<usize, DiffKind>
    decreases ls.len(),
{
    if ls.len() == 0 {
        Map::empty()
    } else {
        let m = diff_decorations(ls.drop_last());
        match hunk(ls.last()) {
            Some(h) => apply_hunk(m, h),
            None => m,
        }
    }
}

/// No hunk of the output reaches `usize::MAX` (the reader would overflow).
pub open spec fn hunks_fit(out: Seq<char>) -> bool {
    forall|i: int|
        0 <= i < text::lines(out).len() ==> match hunk(#[trigger] text::lines(out)[i]) {
            Some(h) => h.0 + h.1 < usize::MAX,
            None => true,
        }
}

/// The arguments of `git` that print the zero-context diff of `rel`.
pub fn line_changes_args(rel: &str) -> (r: Vec<String>)
    ensures
        r@.len() == 5,
        r@[0]@ == "diff"@,
        r@[1]@ == "--no-color"@,
        r@[2]@ == "--unified=0"@,
        r@[3]@ == "--"@,
        r@[4]@ == rel@,
{
    let mut r: Vec<String> = Vec::new();
    r.push(text::owned("diff"));
    r.push(text::owned("--no-color"));
    r.push(text::owned("--unified=0"));
    r.push(text::owned("--"));
    r.push(text::owned(rel));
    r
}

/// Parse piece `n` of `v[a..b]` cut at `c` as a number, or give `default`.
fn nth_number(v: &Vec<char>, a: usize, b: usize, c: char, n: usize, default: usize) -> (r: usize)
    requires
        a <= b <= v@.len(),
    ensures
        r == match nth_piece(v@.subrange(a as int, b as int), c, n as int) {
            Some(p) => match text::parse_usize(p) {
                Some(x) => x,
                None => default,
            },
            None => default,
        },
{
    let ps = text::split_ranges(v, a, b, c);
    if n < ps.len() {
        let (x, y) = ps[n];
        match text::parse_usize_range(v, x, y) {
            Some(k) => k,
            None => default,
        }
    } else {
        default
    }
}

/// The hunk numbers of the line `v[a..b]`.
fn parse_hunk(v: &Vec<char>, a: usize, b: usize) -> (r: Option<(usize, usize, usize)>)
    requires
        a <= b <= v@.len(),
    ensures
        r == hunk(v@.subrange(a as int, b as int)),
{
    let ghost line = v@.subrange(a as int, b as int);
    let line_v = paths::slice_vec(v, a, b);
    if !text::starts_with(&line_v, "@@") {
        return None;
    }
    let plus_parts = text::split_ranges(v, a, b, '+');
    if plus_parts.len() < 2 {
        return None;
    }
    let (pa, pb) = plus_parts[1];
    assert(nth_piece(line, '+', 1) == Some(v@.subrange(pa as int, pb as int)));
    let at_parts = text::split_ranges(v, pa, pb, '@');
    proof {
        text::lemma_split_char_nonempty(v@.subrange(pa as int, pb as int), '@');
    }
    let (qa, qb) = at_parts[0];
    let (sa, sb) = text::trim_range(v, qa, qb);
    let comma = text::split_ranges(v, sa, sb, ',');
    proof {
        text::lemma_split_char_nonempty(v@.subrange(sa as int, sb as int), ',');
    }
    let (ca, cb) = comma[0];
    let start = match text::parse_usize_range(v, ca, cb) {
        Some(n) => n,
        None => 0,
    };
    let new_len = nth_number(v, sa, sb, ',', 1, 1);
    let minus_parts = text::split_ranges(v, a, b, '-');
    let (ma, mb) = if minus_parts.len() >= 2 {
        minus_parts[1]
    } else {
        (a, a)
    };
    assert(v@.subrange(ma as int, mb as int) == match nth_piece(line, '-', 1) {
        Some(m) => m,
        None => Seq::<char>::empty(),
    });
    let mplus = text::split_ranges(v, ma, mb, '+');
    proof {
        text::lemma_split_char_nonempty(v@.subrange(ma as int, mb as int), '+');
    }
    let (na, nb) = mplus[0];
    let (ta, tb) = text::trim_range(v, na, nb);
    let old_len = nth_number(v, ta, tb, ',', 1, 1);
    Some((start, new_len, old_len))
}

/// Per-line diff decorations of a file against the index, keyed by 1-based
/// line number in the working-tree file, from what `git diff -U0` printed
/// (nothing when git failed).
pub fn line_changes(out: Option<String>) -> (r: BTreeMap<usize, DiffKind>)
    requires
        out matches Some(o) ==> hunks_fit(o@),
    ensures
        match out {
            None => r@ == Map::<usize, DiffKind>::empty(),
            Some(o) => r@ == diff_decorations(text::lines(o@)),
        },
{
    let mut map: BTreeMap<usize, DiffKind> = BTreeMap::new();
    let o = match out {
        None => return map,
        Some(o) => o,
    };
    let v = text::chars_of(o.as_str());
    let ls = text::line_ranges(&v);
    let ghost lines = text::lines(v@);
    let mut i: usize = 0;
    assert(lines.take(0) =~= Seq::<Seq<char>>::empty());
    while i < ls.len()
        invariant
            v@ == o@,
            lines == text::lines(v@),
            hunks_fit(v@),
            text::ranges_cut(v@, ls@, lines),
            0 <= i <= ls@.len(),
            map@ == diff_decorations(lines.take(i as int)),
        decreases ls@.len() - i,
    {
        let (a, b) = ls[i];
        assert(lines[i as int] == v@.subrange(a as int, b as int));
        assert(lines.take(i + 1 as int).drop_last() =~= lines.take(i as int));
        assert(lines.take(i + 1 as int).last() == lines[i as int]);
        match parse_hunk(&v, a, b) {
            None => {},
            Some((start, new_len, old_len)) => {
                if new_len == 0 {
                    map.insert(start + 1, DiffKind::DeletedAbove);
                } else {
                    let kind = if old_len == 0 {
                        DiffKind::Added
                    } else {
                        DiffKind::Modified
                    };
                    let ghost m0 = map@;
                    let end = start + new_len;
                    let mut ln = start;
                    while ln < end
                        invariant
                            start <= ln <= end,
                            end == start + new_len,
                            map@ == m0.union_prefer_right(
                                Map::new(|k: usize| start <= k < ln, |k: usize| kind),
                            ),
                        decreases end - ln,
                    {
                        map.insert(ln, kind);
                        ln += 1;
                        assert(map@ =~= m0.union_prefer_right(
                            Map::new(|k: usize| start <= k < ln, |k: usize| kind),
                        ));
                    }
                    assert(map@ =~= m0.union_prefer_right(
                        Map::new(|k: usize| start <= k < start + new_len, |k: usize| kind),
                    ));
                }
            },
        }
        i += 1;
    }
    assert(lines.take(i as int) =~= lines);
    map
}


/// Strings of a `Vec<String>`, as character sequences.
pub open spec fn strs(v: Seq<String>) -> Seq<Seq<char>> {
    v.map_values(|s: String| s@)
}

/// `(current, others)` after reading more lines of `git branch`: blank
/// lines are skipped; a line starting with `'*'` names the current branch
/// (the last such line wins); the others are listed in order.
pub open spec fn branch_scan(ls: Seq<Seq<char>>) -> (Option<Seq<char>>, Seq<Seq<char>>)
    decreases ls.len(),
{
    if ls.len() == 0 {
        (None, Seq::empty())
    } else {
        let (cur, rest) = branch_scan(ls.drop_last());
        let l = text::trim(ls.last());
        if l.len() == 0 {
            (cur, rest)
        } else if l[0] == '*' {
            (Some(text::trim(l.drop_first())), rest)
        } else {
            (cur, rest.push(l))
        }
    }
}

/// The branch list: the current branch first, then the others.
pub open spec fn branch_list(out: Seq<char>) -> Seq<Seq<char>> {
    let (cur, rest) = branch_scan(text::lines(out));
    match cur {
        Some(c) => seq![c] + rest,
        None => rest,
    }
}

/// The arguments of `git` that list local branches, the current one marked.
pub fn branches_args() -> (r: Vec<String>)
    ensures
        r@.len() == 2,
        r@[0]@ == "branch"@,
        r@[1]@ == "--format=%(HEAD)%(refname:short)"@,
{
    let mut r: Vec<String> = Vec::new();
    r.push(text::owned("branch"));
    r.push(text::owned("--format=%(HEAD)%(refname:short)"));
    r
}

/// All local branch names (current branch first), from what `git branch`
/// printed; none when git failed.
pub fn branches(out: Option<String>) -> (r: Vec<String>)
    ensures
        match out {
            None => r@.len() == 0,
            Some(o) => strs(r@) == branch_list(o@),
        },
{
    let o = match out {
        None => return Vec::new(),
        Some(o) => o,
    };
    let v = text::chars_of(o.as_str());
    let ls = text::line_ranges(&v);
    let ghost lines = text::lines(v@);
    let mut current: Option<String> = None;
    let mut rest: Vec<String> = Vec::new();
    let mut i: usize = 0;
    assert(lines.take(0) =~= Seq::<Seq<char>>::empty());
    while i < ls.len()
        invariant
            v@ == o@,
            lines == text::lines(v@),
            text::ranges_cut(v@, ls@, lines),
            0 <= i <= ls@.len(),
            branch_scan(lines.take(i as int)) == (
                match current {
                    Some(c) => Some(c@),
                    None => None::<Seq<char>>,
                },
                strs(rest@),
            ),
        decreases ls@.len() - i,
    {
        let (a, b) = ls[i];
        assert(lines[i as int] == v@.subrange(a as int, b as int));
        assert(lines.take(i + 1 as int).drop_last() =~= lines.take(i as int));
        let (ta, tb) = text::trim_range(&v, a, b);
        if ta < tb {
            if v[ta] == '*' {
                let (na, nb) = text::trim_range(&v, ta + 1, tb);
                assert(v@.subrange(ta + 1, tb as int) =~= v@.subrange(ta as int, tb as int).drop_first());
                current = Some(text::string_of(&v, na, nb));
            } else {
                let ghost old_rest = rest@;
                rest.push(text::string_of(&v, ta, tb));
                assert(strs(rest@) =~= strs(old_rest).push(v@.subrange(ta as int, tb as int)));
            }
        }
        i += 1;
    }
    assert(lines.take(i as int) =~= lines);
    let mut all: Vec<String> = Vec::new();
    let ghost cur_view = match &current {
        Some(c) => Some(c@),
        None => None::<Seq<char>>,
    };
    match current {
        Some(c) => all.push(c),
        None => {},
    }
    let ghost head = strs(all@);
    let mut k: usize = 0;
    while k < rest.len()
        invariant
            0 <= k <= rest@.len(),
            strs(all@) == head + strs(rest@).take(k as int),
        decreases rest@.len() - k,
    {
        let ghost old_all = all@;
        let item = rest[k].clone();
        assert(item@ == rest@[k as int]@);
        all.push(item);
        k += 1;
        assert(strs(all@) =~= strs(old_all).push(rest@[k - 1]@));
        assert(strs(rest@).take(k as int) =~= strs(rest@).take(k - 1 as int).push(rest@[k - 1]@));
        assert(strs(all@) =~= head + strs(rest@).take(k as int));
    }
    assert(strs(rest@).take(k as int) =~= strs(rest@));
    proof {
        match cur_view {
            Some(c) => assert(head =~= seq![c]),
            None => assert(head =~= Seq::<Seq<char>>::empty()),
        }
    }
    all
}

/// The arguments of `git` that check out the branch `name`.
pub fn checkout(name: &str) -> (r: Vec<String>)
    ensures
        r@.len() == 2,
        r@[0]@ == "checkout"@,
        r@[1]@ == name@,
{
    let mut r: Vec<String> = Vec::new();
    r.push(text::owned("checkout"));
    r.push(text::owned(name));
    r
}

/// The arguments of `git` that count commits ahead of and behind upstream.
pub fn ahead_behind_args() -> (r: Vec<String>)
    ensures
        r@.len() == 4,
        r@[0]@ == "rev-list"@,
        r@[1]@ == "--count"@,
        r@[2]@ == "--left-right"@,
        r@[3]@ == "@{u}...HEAD"@,
{
    let mut r: Vec<String> = Vec::new();
    r.push(text::owned("rev-list"));
    r.push(text::owned("--count"));
    r.push(text::owned("--left-right"));
    r.push(text::owned("@{u}...HEAD"));
    r
}

/// Word `n` of `s` read as a number, or 0.
pub open spec fn word_number(s: Seq<char>, n: int) -> usize {
    let w = text::words(s);
    if 0 <= n < w.len() {
        match text::parse_usize(w[n]) {
            Some(x) => x,
            None => 0,
        }
    } else {
        0
    }
}

/// `(ahead, behind)` relative to the upstream tracking branch, from what
/// `git rev-list --count --left-right @{u}...HEAD` printed (behind first,
/// then ahead); `(0, 0)` when git failed.
pub fn ahead_behind(out: Option<String>) -> (r: (usize, usize))
    ensures
        match out {
            None => r == (0usize, 0usize),
            Some(o) => r == (word_number(o@, 1), word_number(o@, 0)),
        },
{
    let o = match out {
        None => return (0, 0),
        Some(o) => o,
    };
    let v = text::chars_of(o.as_str());
    let ws = text::word_ranges(&v, 0, v.len());
    assert(v@.subrange(0, v@.len() as int) =~= v@);
    let behind = if ws.len() > 0 {
        let (a, b) = ws[0];
        match text::parse_usize_range(&v, a, b) {
            Some(n) => n,
            None => 0,
        }
    } else {
        0
    };
    let ahead = if ws.len() > 1 {
        let (a, b) = ws[1];
        match text::parse_usize_range(&v, a, b) {
            Some(n) => n,
            None => 0,
        }
    } else {
        0
    };
    (ahead, behind)
}

/// The arguments of `git` that stage `rel`.
pub fn stage(rel: &str) -> (r: Vec<String>)
    ensures
        r@.len() == 3,
        r@[0]@ == "add"@,
        r@[1]@ == "--"@,
        r@[2]@ == rel@,
{
    let mut r: Vec<String> = Vec::new();
    r.push(text::owned("add"));
    r.push(text::owned("--"));
    r.push(text::owned(rel));
    r
}

/// The arguments of `git` that unstage `rel`.
pub fn unstage(rel: &str) -> (r: Vec<String>)
    ensures
        r@.len() == 4,
        r@[0]@ == "restore"@,
        r@[1]@ == "--staged"@,
        r@[2]@ == "--"@,
        r@[3]@ == rel@,
{
    let mut r: Vec<String> = Vec::new();
    r.push(text::owned("restore"));
    r.push(text::owned("--staged"));
    r.push(text::owned("--"));
    r.push(text::owned(rel));
    r
}

/// The arguments of `git` that stage every change.
pub fn stage_all() -> (r: Vec<String>)
    ensures
        r@.len() == 2,
        r@[0]@ == "add"@,
        r@[1]@ == "-A"@,
{
    let mut r: Vec<String> = Vec::new();
    r.push(text::owned("add"));
    r.push(text::owned("-A"));
    r
}

/// The arguments of `git` that unstage everything.
pub fn unstage_all() -> (r: Vec<String>)
    ensures
        r@.len() == 3,
        r@[0]@ == "restore"@,
        r@[1]@ == "--staged"@,
        r@[2]@ == "."@,
{
    let mut r: Vec<String> = Vec::new();
    r.push(text::owned("restore"));
    r.push(text::owned("--staged"));
    r.push(text::owned("."));
    r
}

/// The arguments of `git` that revert the working-tree copy of a tracked
/// file (untracked files are deleted from disk instead).
pub fn discard_tracked(rel: &str) -> (r: Vec<String>)
    ensures
        r@.len() == 3,
        r@[0]@ == "restore"@,
        r@[1]@ == "--"@,
        r@[2]@ == rel@,
{
    let mut r: Vec<String> = Vec::new();
    r.push(text::owned("restore"));
    r.push(text::owned("--"));
    r.push(text::owned(rel));
    r
}

/// How a change is discarded.
pub enum Discard {
    /// Delete the untracked file at this path.
    RemoveFile(String),
    /// Run `git` with these arguments.
    Git(Vec<String>),
}

/// Discarding the change of file `rel` in the repository at `root`: an
/// untracked file is deleted from disk, a tracked one restored by `git`.
pub fn discard(root: &str, rel: &str, untracked: bool) -> (r: Discard)
    ensures
        untracked ==> (r matches Discard::RemoveFile(p) && p@ == paths::join(root@, rel@)),
        !untracked ==> (r matches Discard::Git(a) && a@.len() == 3 && a@[0]@ == "restore"@ && a@[1]@
            == "--"@ && a@[2]@ == rel@),
{
    if untracked {
        Discard::RemoveFile(paths::join_path(root, rel))
    } else {
        Discard::Git(discard_tracked(rel))
    }
}

/// The text of a file at HEAD from the output of `git show HEAD:<rel>`:
/// none when `git` failed (a file not in HEAD) or when the output is not
/// valid UTF-8, otherwise the decoded output.
pub fn head_blob_text(out: Option<Vec<u8>>) -> (r: Option<String>)
    ensures
        match out {
            None => r is None,
            Some(b) => match r {
                Some(s) => vstd::utf8::valid_utf8(b@) && s@ == vstd::utf8::decode_utf8(b@),
                None => !vstd::utf8::valid_utf8(b@),
            },
        },
{
    match out {
        None => None,
        Some(b) => text::from_utf8(b),
    }
}

/// `"HEAD:" + rel`, the revision path of `rel` at HEAD.
pub fn head_spec(rel: &str) -> (r: String)
    ensures
        r@ == "HEAD:"@ + rel@,
{
    let mut r = text::owned("HEAD:");
    let v = text::chars_of(rel);
    let ghost base = r@;
    let mut i: usize = 0;
    while i < v.len()
        invariant
            0 <= i <= v@.len(),
            v@ == rel@,
            r@ == base + v@.take(i as int),
        decreases v@.len() - i,
    {
        text::push_char(&mut r, v[i]);
        i += 1;
        assert(r@ =~= base + v@.take(i as int));
    }
    assert(v@.take(i as int) =~= v@);
    r
}

/// The arguments of `git` that print the HEAD version of `rel`.
pub fn head_blob(rel: &str) -> (r: Vec<String>)
    ensures
        r@.len() == 2,
        r@[0]@ == "show"@,
        r@[1]@ == "HEAD:"@ + rel@,
{
    let mut r: Vec<String> = Vec::new();
    r.push(text::owned("show"));
    r.push(head_spec(rel));
    r
}

/// The arguments of `git` that commit the staged changes with `message`
/// (every tracked change with `all`).
pub fn commit(message: &str, all: bool) -> (r: Vec<String>)
    ensures
        all ==> r@.len() == 4 && r@[0]@ == "commit"@ && r@[1]@ == "-a"@ && r@[2]@ == "-m"@
            && r@[3]@ == message@,
        !all ==> r@.len() == 3 && r@[0]@ == "commit"@ && r@[1]@ == "-m"@ && r@[2]@ == message@,
{
    let mut r: Vec<String> = Vec::new();
    r.push(text::owned("commit"));
    if all {
        r.push(text::owned("-a"));
    }
    r.push(text::owned("-m"));
    r.push(text::owned(message));
    r
}

/// The error text of a failed commit: what git wrote to stderr, then to
/// stdout, trimmed.
pub fn commit_error(stderr: &str, stdout: &str) -> (r: String)
    ensures
        r@ == text::trim(stderr@ + stdout@),
{
    let mut v = text::chars_of(stderr);
    let w = text::chars_of(stdout);
    let ghost base = v@;
    let mut i: usize = 0;
    while i < w.len()
        invariant
            0 <= i <= w@.len(),
            v@ == base + w@.take(i as int),
        decreases w@.len() - i,
    {
        v.push(w[i]);
        i += 1;
        assert(v@ =~= base + w@.take(i as int));
    }
    assert(w@.take(i as int) =~= w@);
    let (a, b) = text::trim_range(&v, 0, v.len());
    assert(v@.subrange(0, v@.len() as int) =~= v@);
    text::string_of(&v, a, b)
}

/// The arguments of `git` that pull (fast-forward only).
pub fn pull() -> (r: Vec<String>)
    ensures
        r@.len() == 2,
        r@[0]@ == "pull"@,
        r@[1]@ == "--ff-only"@,
{
    let mut r: Vec<String> = Vec::new();
    r.push(text::owned("pull"));
    r.push(text::owned("--ff-only"));
    r
}

/// The arguments of `git` that push.
pub fn push() -> (r: Vec<String>)
    ensures
        r@.len() == 1,
        r@[0]@ == "push"@,
{
    let mut r: Vec<String> = Vec::new();
    r.push(text::owned("push"));
    r
}

/// What to do after a commit: the "Commit" button dropdown.
#[derive(Clone, Copy, Debug, PartialEq, Eq, Structural)]
pub enum CommitMode {
    Plain,
    AndPush,
    AndSync,
}

/// The commands that follow a successful commit in `mode`: none, a push,
/// or a pull then a push. Their outcomes do not change the result.
pub fn commit_with(mode: CommitMode) -> (r: Vec<Vec<String>>)
    ensures
        mode == CommitMode::Plain ==> r@.len() == 0,
        mode == CommitMode::AndPush ==> r@.len() == 1 && r@[0]@.len() == 1 && r@[0]@[0]@ == "push"@,
        mode == CommitMode::AndSync ==> r@.len() == 2 && r@[0]@.len() == 2 && r@[0]@[0]@ == "pull"@
            && r@[0]@[1]@ == "--ff-only"@ && r@[1]@.len() == 1 && r@[1]@[0]@ == "push"@,
{
    let mut r: Vec<Vec<String>> = Vec::new();
    match mode {
        CommitMode::Plain => {},
        CommitMode::AndPush => {
            r.push(push());
        },
        CommitMode::AndSync => {
            r.push(pull());
            r.push(push());
        },
    }
    r
}

/// A commit in `mode` given the commit's own outcome: when the commit
/// failed, its error is the result and nothing more runs; when it
/// succeeded, the result is `Ok` and the follow-up commands of
/// `commit_with` run (their outcomes do not change the result).
pub fn after_commit(commit: Result<(), String>, mode: CommitMode) -> (r: (Result<(), String>, Vec<Vec<String>>))
    ensures
        commit matches Err(e) ==> (r.0 matches Err(x) && x@ == e@) && r.1@.len() == 0,
        commit is Ok ==> r.0 is Ok,
        commit is Ok && mode == CommitMode::Plain ==> r.1@.len() == 0,
        commit is Ok && mode == CommitMode::AndPush ==> r.1@.len() == 1 && r.1@[0]@.len() == 1
            && r.1@[0]@[0]@ == "push"@,
        commit is Ok && mode == CommitMode::AndSync ==> r.1@.len() == 2 && r.1@[0]@.len() == 2
            && r.1@[0]@[0]@ == "pull"@ && r.1@[0]@[1]@ == "--ff-only"@ && r.1@[1]@.len() == 1
            && r.1@[1]@[0]@ == "push"@,
{
    match commit {
        Err(e) => (Err(e), Vec::new()),
        Ok(()) => (Ok(()), commit_with(mode)),
    }
}

/// The decoration map after adding `cs` in order (a later entry for the
/// same path replaces an earlier one).
pub open spec fn deco_insert(m: Map<Seq<char>, ChangeKind>, cs: Seq<Change>) -> Map<Seq<char>, ChangeKind>
    decreases cs.len(),
{
    if cs.len() == 0 {
        m
    } else {
        deco_insert(m, cs.drop_last()).insert(cs.last().path, cs.last().kind)
    }
}

/// The map a list of `(path, kind)` pairs stands for, inserted in order (a
/// later pair for the same path replaces an earlier one).
pub open spec fn pairs_map(p: Seq<(String, ChangeKind)>) -> Map<Seq<char>, ChangeKind>
    decreases p.len(),
{
    if p.len() == 0 {
        Map::empty()
    } else {
        pairs_map(p.drop_last()).insert(p.last().0@, p.last().1)
    }
}

/// Appends `(path, kind)` of every change of `cs`, in order.
pub fn deco_add_all(p: &mut Vec<(String, ChangeKind)>, cs: &Vec<FileChange>)
    ensures
        pairs_map(final(p)@) == deco_insert(pairs_map(old(p)@), changes(cs@)),
{
    let ghost m0 = pairs_map(p@);
    let mut i: usize = 0;
    while i < cs.len()
        invariant
            0 <= i <= cs@.len(),
            pairs_map(p@) == deco_insert(m0, changes(cs@).take(i as int)),
        decreases cs@.len() - i,
    {
        let ghost old_p = p@;
        p.push((cs[i].path.clone(), cs[i].kind));
        assert(p@.drop_last() =~= old_p);
        assert(changes(cs@).take(i + 1 as int).drop_last() =~= changes(cs@).take(i as int));
        i += 1;
    }
    assert(changes(cs@).take(i as int) =~= changes(cs@));
}

/// Decoration map for the Explorer: path -> change kind, as pairs to insert
/// in order. The working-tree state wins over the staged one for the same
/// file.
pub fn decorations(st: &RepoStatus) -> (r: Vec<(String, ChangeKind)>)
    ensures
        pairs_map(r@) == deco_insert(
            deco_insert(Map::empty(), changes(st.staged@)),
            changes(st.unstaged@),
        ),
{
    let mut r: Vec<(String, ChangeKind)> = Vec::new();
    deco_add_all(&mut r, &st.staged);
    deco_add_all(&mut r, &st.unstaged);
    r
}

} // verus!

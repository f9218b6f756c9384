//! Git integration through the `git` command line, over a workspace that
//! may hold several repositories (the root and nested folders), each with
//! its own status, branch and history.

pub mod status;
pub mod repository;
pub mod history;
pub mod watcher;

use vstd::prelude::*;

use self::repository::{RepoModel, Repository};
use self::status::{ChangeKind, FileChange};
use crate::paths;
use crate::text;

verus! {

/// How far below the workspace root repositories are looked for (1: the
/// root's immediate children).
pub const SCAN_MAX_DEPTH: usize = 1;

/// Whether the repository scan looks into the child folder named `name`
/// found at depth `depth` (the workspace itself at 0): only within
/// `SCAN_MAX_DEPTH`, and never into `node_modules`.
pub open spec fn scanned(name: Seq<char>, is_dir: bool, depth: usize) -> bool {
    is_dir && depth <= SCAN_MAX_DEPTH && name != "node_modules"@
}

pub fn scan_child(name: &str, is_dir: bool, depth: usize) -> (r: bool)
    ensures
        r == scanned(name@, is_dir, depth),
{
    let v = text::chars_of(name);
    is_dir && depth <= SCAN_MAX_DEPTH && !text::str_eq(&v, "node_modules")
}

/// The repositories of the current workspace.
#[derive(Debug)]
pub struct Model {
    pub repos: Vec<Repository>,
}

pub open spec fn repo_views(v: Seq<Repository>) -> Seq<RepoModel> {
    v.map_values(|r: Repository| r@)
}

/// How many repositories are named `n`.
pub open spec fn count_name(rs: Seq<RepoModel>, n: Seq<char>) -> nat
    decreases rs.len(),
{
    if rs.len() == 0 {
        0
    } else {
        count_name(rs.drop_last(), n) + if rs.last().name == n {
            1nat
        } else {
            0nat
        }
    }
}

/// `r` renamed to `name`.
pub open spec fn renamed(r: RepoModel, name: Seq<char>) -> RepoModel {
    RepoModel {
        root: r.root,
        name,
        branch: r.branch,
        has_upstream: r.has_upstream,
        ahead: r.ahead,
        behind: r.behind,
        merge: r.merge,
        index: r.index,
        working: r.working,
    }
}

/// The repositories with every name that two or more of them share
/// suffixed by `" • "` and the name of the folder that holds the root
/// (where the root has one).
pub open spec fn disambiguated(rs: Seq<RepoModel>) -> Seq<RepoModel> {
    Seq::new(
        rs.len(),
        |i: int|
            if count_name(rs, rs[i].name) > 1 && paths::parent_name(rs[i].root) is Some {
                renamed(rs[i], rs[i].name + " • "@ + paths::parent_name(rs[i].root)->0)
            } else {
                rs[i]
            },
    )
}

/// The byte length of a path, by which nested repositories are ordered.
pub open spec fn root_len(root: Seq<char>) -> usize {
    vstd::utf8::encode_utf8(root).len() as usize
}

/// The repository that owns `path`: among those whose root begins `path`
/// (by components), one with the longest root, the last of them on a tie.
pub open spec fn owner(rs: Seq<RepoModel>, path: Seq<char>) -> Option<int>
    decreases rs.len(),
{
    if rs.len() == 0 {
        None
    } else {
        let o = owner(rs.drop_last(), path);
        let last = rs.len() - 1;
        if paths::path_starts_with(path, rs.last().root) {
            match o {
                Some(i) => if root_len(rs[i].root) <= root_len(rs.last().root) {
                    Some(last)
                } else {
                    Some(i)
                },
                None => Some(last),
            }
        } else {
            o
        }
    }
}

/// The decorations of all repositories, each repository's staged changes
/// before its working-tree ones, so that the working-tree state wins.
pub open spec fn model_decorations(rs: Seq<RepoModel>) -> Map<Seq<char>, ChangeKind>
    decreases rs.len(),
{
    if rs.len() == 0 {
        Map::empty()
    } else {
        let r = rs.last();
        status::deco_insert(
            status::deco_insert(model_decorations(rs.drop_last()), r.index),
            r.working,
        )
    }
}

/// The number of changes in all repositories.
pub open spec fn change_count(rs: Seq<RepoModel>) -> nat
    decreases rs.len(),
{
    if rs.len() == 0 {
        0
    } else {
        change_count(rs.drop_last()) + rs.last().merge.len() + rs.last().index.len()
            + rs.last().working.len()
    }
}

/// The states `status_v2` reads for each root from the matching output.
pub open spec fn statuses(roots: Seq<Seq<char>>, outs: Seq<Option<Vec<u8>>>) -> Seq<RepoModel> {
    Seq::new(roots.len(), |i: int| repository::status_of(roots[i], outs[i]))
}

/// No two of `roots` name the same folder (paths compared by components),
/// as the repository scan leaves them.
pub open spec fn distinct_paths(roots: Seq<Seq<char>>) -> bool {
    forall|i: int, j: int|
        0 <= i < j < roots.len() ==> !paths::path_eq(#[trigger] roots[i], #[trigger] roots[j])
}

/// Whether no two of `roots` name the same folder.
pub fn roots_distinct(roots: &Vec<String>) -> (r: bool)
    ensures
        r == distinct_paths(status::strs(roots@)),
{
    let ghost rs = status::strs(roots@);
    let mut j: usize = 0;
    while j < roots.len()
        invariant
            rs == status::strs(roots@),
            0 <= j <= roots@.len(),
            forall|a: int, b: int| 0 <= a < b < j ==> !paths::path_eq(#[trigger] rs[a], #[trigger] rs[b]),
        decreases roots@.len() - j,
    {
        let mut i: usize = 0;
        while i < j
            invariant
                rs == status::strs(roots@),
                0 <= i <= j < roots@.len(),
                forall|a: int, b: int| 0 <= a < b < j ==> !paths::path_eq(#[trigger] rs[a], #[trigger] rs[b]),
                forall|a: int| 0 <= a < i ==> !paths::path_eq(#[trigger] rs[a], rs[j as int]),
            decreases j - i,
        {
            if paths::same_path(roots[i].as_str(), roots[j].as_str()) {
                assert(paths::path_eq(rs[i as int], rs[j as int]));
                return false;
            }
            i += 1;
        }
        j += 1;
    }
    true
}

impl Model {
    /// The model of the repositories at `roots` (distinct folders, as the
    /// scan finds them), each read from the output of `git status` at the
    /// same position (`None` where git failed).
    pub fn discover(roots: Vec<String>, outs: Vec<Option<Vec<u8>>>) -> (m: Model)
        requires
            roots@.len() == outs@.len(),
            distinct_paths(status::strs(roots@)),
        ensures
            repo_views(m.repos@) == disambiguated(statuses(status::strs(roots@), outs@)),
    {
        let mut outs = outs;
        let ghost outs0 = outs@;
        let mut repos: Vec<Repository> = Vec::new();
        let mut i: usize = 0;
        while i < roots.len()
            invariant
                roots@.len() == outs@.len() == outs0.len(),
                0 <= i <= roots@.len(),
                forall|k: int| i <= k < outs@.len() ==> #[trigger] outs@[k] == outs0[k],
                repo_views(repos@) == statuses(status::strs(roots@), outs0).take(i as int),
            decreases roots@.len() - i,
        {
            let mut o: Option<Vec<u8>> = None;
            std::mem::swap(&mut o, &mut outs[i]);
            let ghost old_r = repo_views(repos@);
            let r = repository::status_v2(roots[i].as_str(), o);
            repos.push(r);
            assert(repo_views(repos@) =~= old_r.push(r@));
            assert(statuses(status::strs(roots@), outs0).take(i + 1 as int) =~= statuses(
                status::strs(roots@),
                outs0,
            ).take(i as int).push(repository::status_of(roots@[i as int]@, outs0[i as int])));
            i += 1;
        }
        assert(statuses(status::strs(roots@), outs0).take(i as int) =~= statuses(
            status::strs(roots@),
            outs0,
        ));
        let mut m = Model { repos };
        m.disambiguate_names();
        m
    }

    /// Reads every known repository again from the output of `git status`
    /// at the same position; the roots are kept.
    pub fn refresh(&mut self, outs: Vec<Option<Vec<u8>>>)
        requires
            outs@.len() == old(self).repos@.len(),
        ensures
            repo_views(final(self).repos@) == disambiguated(
                statuses(repo_views(old(self).repos@).map_values(|r: RepoModel| r.root), outs@),
            ),
    {
        let mut outs = outs;
        let ghost outs0 = outs@;
        let ghost roots = repo_views(self.repos@).map_values(|r: RepoModel| r.root);
        let mut i: usize = 0;
        while i < self.repos.len()
            invariant
                self.repos@.len() == outs@.len() == outs0.len() == roots.len(),
                0 <= i <= self.repos@.len(),
                forall|k: int| i <= k < outs@.len() ==> #[trigger] outs@[k] == outs0[k],
                forall|k: int| i <= k < roots.len() ==> #[trigger] self.repos@[k].root@ == roots[k],
                repo_views(self.repos@).take(i as int) == statuses(roots, outs0).take(i as int),
            decreases self.repos@.len() - i,
        {
            let mut o: Option<Vec<u8>> = None;
            std::mem::swap(&mut o, &mut outs[i]);
            let r = repository::status_v2(self.repos[i].root.as_str(), o);
            let ghost before = repo_views(self.repos@);
            self.repos.set(i, r);
            assert(repo_views(self.repos@).take(i + 1 as int) =~= before.take(i as int).push(
                repository::status_of(roots[i as int], outs0[i as int]),
            ));
            assert(statuses(roots, outs0).take(i + 1 as int) =~= statuses(roots, outs0).take(
                i as int,
            ).push(repository::status_of(roots[i as int], outs0[i as int])));
            i += 1;
        }
        assert(repo_views(self.repos@).take(i as int) =~= repo_views(self.repos@));
        assert(statuses(roots, outs0).take(i as int) =~= statuses(roots, outs0));
        self.disambiguate_names();
    }

    pub fn is_empty(&self) -> (r: bool)
        ensures
            r == (self.repos@.len() == 0),
    {
        self.repos.len() == 0
    }

    /// Suffixes every name that two or more repositories share with the
    /// name of the folder that holds the repository's root.
    fn disambiguate_names(&mut self)
        ensures
            repo_views(final(self).repos@) == disambiguated(repo_views(old(self).repos@)),
    {
        let ghost rs = repo_views(self.repos@);
        let n = self.repos.len();
        let mut counts: Vec<usize> = Vec::new();
        let mut i: usize = 0;
        while i < n
            invariant
                n == self.repos@.len(),
                rs == repo_views(self.repos@),
                0 <= i <= n,
                counts@.len() == i,
                forall|k: int| 0 <= k < i ==> #[trigger] counts@[k] == count_name(rs, rs[k].name),
            decreases n - i,
        {
            let target = text::chars_of(self.repos[i].name.as_str());
            let mut c: usize = 0;
            let mut j: usize = 0;
            while j < n
                invariant
                    n == self.repos@.len(),
                    rs == repo_views(self.repos@),
                    0 <= j <= n,
                    target@ == rs[i as int].name,
                    c == count_name(rs.take(j as int), target@),
                    c <= j,
                decreases n - j,
            {
                let other = text::chars_of(self.repos[j].name.as_str());
                assert(rs.take(j + 1 as int).drop_last() =~= rs.take(j as int));
                if text::chars_eq(&other, &target) {
                    c += 1;
                }
                j += 1;
            }
            assert(rs.take(j as int) =~= rs);
            counts.push(c);
            i += 1;
        }
        let mut i: usize = 0;
        while i < n
            invariant
                n == self.repos@.len() == rs.len() == counts@.len(),
                0 <= i <= n,
                forall|k: int| 0 <= k < n ==> #[trigger] counts@[k] == count_name(rs, rs[k].name),
                forall|k: int| 0 <= k < i ==> #[trigger] repo_views(self.repos@)[k] == disambiguated(rs)[k],
                forall|k: int| i <= k < n ==> #[trigger] repo_views(self.repos@)[k] == rs[k],
            decreases n - i,
        {
            let ghost prev = self.repos@;
            assert(repo_views(prev)[i as int] == rs[i as int]);
            assert(prev[i as int]@ == rs[i as int]);
            if counts[i] > 1 {
                match paths::path_parent_name(self.repos[i].root.as_str()) {
                    Some(parent) => {
                        let mut name = text::owned(self.repos[i].name.as_str());
                        let suffix = text::chars_of(" • ");
                        let pv = text::chars_of(parent.as_str());
                        let ghost base = name@;
                        let mut k: usize = 0;
                        while k < suffix.len()
                            invariant
                                0 <= k <= suffix@.len(),
                                suffix@ == " • "@,
                                name@ == base + suffix@.take(k as int),
                            decreases suffix@.len() - k,
                        {
                            text::push_char(&mut name, suffix[k]);
                            k += 1;
                            assert(name@ =~= base + suffix@.take(k as int));
                        }
                        assert(suffix@.take(k as int) =~= suffix@);
                        let ghost mid = name@;
                        let mut k: usize = 0;
                        while k < pv.len()
                            invariant
                                0 <= k <= pv@.len(),
                                name@ == mid + pv@.take(k as int),
                            decreases pv@.len() - k,
                        {
                            text::push_char(&mut name, pv[k]);
                            k += 1;
                            assert(name@ =~= mid + pv@.take(k as int));
                        }
                        assert(pv@.take(k as int) =~= pv@);
                        proof {
                            reveal_strlit(" • ");
                        }
                        assert(base == rs[i as int].name);
                        assert(name@ =~= rs[i as int].name + " • "@ + paths::parent_name(
                            rs[i as int].root,
                        )->0);
                        self.repos[i].name = name;
                        assert(self.repos@ == prev.update(i as int, self.repos@[i as int]));
                        assert(self.repos@[i as int].root == prev[i as int].root);
                        assert(self.repos@[i as int].index == prev[i as int].index);
                        assert(repo_views(self.repos@)[i as int] =~= disambiguated(rs)[i as int]);
                    },
                    None => {},
                }
            }
            assert forall|k: int| 0 <= k < n && k != i implies #[trigger] repo_views(self.repos@)[k]
                == repo_views(prev)[k] by {
                assert(self.repos@[k] == prev[k]);
            }
            assert(repo_views(self.repos@)[i as int] == disambiguated(rs)[i as int]);
            i += 1;
        }
        assert(repo_views(self.repos@) =~= disambiguated(rs));
    }

    /// The repository that owns `path`: the one whose root is the longest
    /// that begins `path`, so that nested repositories win.
    pub fn repo_for(&self, path: &str) -> (r: Option<&Repository>)
        ensures
            match owner(repo_views(self.repos@), path@) {
                None => r is None,
                Some(i) => r is Some && r->0@ == self.repos@[i]@,
            },
    {
        let ghost rs = repo_views(self.repos@);
        let mut best: Option<usize> = None;
        let mut best_len: usize = 0;
        let mut i: usize = 0;
        while i < self.repos.len()
            invariant
                rs == repo_views(self.repos@),
                0 <= i <= self.repos@.len(),
                owner(rs.take(i as int), path@) == match best {
                    Some(b) => Some(b as int),
                    None => None::<int>,
                },
                best matches Some(b) ==> b < i && best_len == root_len(rs[b as int].root),
            decreases self.repos@.len() - i,
        {
            assert(rs.take(i + 1 as int).drop_last() =~= rs.take(i as int));
            let root = self.repos[i].root.as_str();
            if paths::starts_with_path(path, root) {
                let l = root.len();
                match best {
                    Some(b) => {
                        assert(rs.take(i + 1 as int)[b as int] == rs[b as int]);
                        if best_len <= l {
                            best = Some(i);
                            best_len = l;
                        }
                    },
                    None => {
                        best = Some(i);
                        best_len = l;
                    },
                }
            }
            i += 1;
        }
        assert(rs.take(i as int) =~= rs);
        match best {
            Some(b) => Some(&self.repos[b]),
            None => None,
        }
    }

    /// The decorations of all repositories as `(path, kind)` pairs to
    /// insert in order; for one path the working-tree state wins.
    pub fn decorations(&self) -> (r: Vec<(String, ChangeKind)>)
        ensures
            status::pairs_map(r@) == model_decorations(repo_views(self.repos@)),
    {
        let ghost rs = repo_views(self.repos@);
        let mut r: Vec<(String, ChangeKind)> = Vec::new();
        let mut i: usize = 0;
        while i < self.repos.len()
            invariant
                rs == repo_views(self.repos@),
                0 <= i <= self.repos@.len(),
                status::pairs_map(r@) == model_decorations(rs.take(i as int)),
            decreases self.repos@.len() - i,
        {
            assert(rs.take(i + 1 as int).drop_last() =~= rs.take(i as int));
            status::deco_add_all(&mut r, &self.repos[i].index);
            status::deco_add_all(&mut r, &self.repos[i].working);
            i += 1;
        }
        assert(rs.take(i as int) =~= rs);
        r
    }

    /// The number of changes in all repositories.
    pub fn total_changes(&self) -> (r: usize)
        requires
            change_count(repo_views(self.repos@)) <= usize::MAX,
        ensures
            r == change_count(repo_views(self.repos@)),
    {
        let ghost rs = repo_views(self.repos@);
        let mut total: usize = 0;
        let mut i: usize = 0;
        while i < self.repos.len()
            invariant
                rs == repo_views(self.repos@),
                change_count(rs) <= usize::MAX,
                0 <= i <= self.repos@.len(),
                total == change_count(rs.take(i as int)),
            decreases self.repos@.len() - i,
        {
            assert(rs.take(i + 1 as int).drop_last() =~= rs.take(i as int));
            proof {
                lemma_change_count_prefix(rs, i + 1);
            }
            total = total + self.repos[i].merge.len() + self.repos[i].index.len()
                + self.repos[i].working.len();
            i += 1;
        }
        assert(rs.take(i as int) =~= rs);
        total
    }
}

proof fn lemma_change_count_prefix(rs: Seq<RepoModel>, k: int)
    requires
        0 <= k <= rs.len(),
    ensures
        change_count(rs.take(k)) <= change_count(rs),
    decreases rs.len(),
{
    if k < rs.len() {
        assert(rs.drop_last().take(k) =~= rs.take(k));
        lemma_change_count_prefix(rs.drop_last(), k);
    } else {
        assert(rs.take(k) =~= rs);
    }
}

/// The owner of a path is a repository whose root begins the path, no
/// repository whose root begins the path has a longer root, and a path
/// that no root begins has no owner.
pub proof fn law_owner_is_longest_root(rs: Seq<RepoModel>, path: Seq<char>)
    ensures
        match owner(rs, path) {
            Some(i) => {
                &&& 0 <= i < rs.len()
                &&& paths::path_starts_with(path, rs[i].root)
                &&& forall|j: int|
                    0 <= j < rs.len() && paths::path_starts_with(path, #[trigger] rs[j].root)
                        ==> root_len(rs[j].root) <= root_len(rs[i].root)
            },
            None => forall|j: int|
                0 <= j < rs.len() ==> !paths::path_starts_with(path, #[trigger] rs[j].root),
        },
    decreases rs.len(),
{
    if rs.len() > 0 {
        let d = rs.drop_last();
        law_owner_is_longest_root(d, path);
        assert forall|j: int| 0 <= j < d.len() implies #[trigger] d[j] == rs[j] by {}
        let last = rs.len() - 1;
        assert(rs.last() == rs[last]);
        match owner(d, path) {
            Some(i) => {
                assert(d[i] == rs[i]);
                assert forall|j: int|
                    0 <= j < rs.len() && paths::path_starts_with(path, #[trigger] rs[j].root)
                        implies root_len(rs[j].root) <= root_len(rs[owner(rs, path)->0].root) by {
                    if j < last {
                        assert(d[j] == rs[j]);
                    }
                }
            },
            None => {
                assert forall|j: int|
                    0 <= j < rs.len() && paths::path_starts_with(path, #[trigger] rs[j].root)
                        implies j == last by {
                    if j < last {
                        assert(d[j] == rs[j]);
                    }
                }
            },
        }
    }
}

/// Two repositories that share a name get different names once the
/// names are told apart, when the folders holding their roots have
/// different names.
pub proof fn law_shared_names_told_apart(rs: Seq<RepoModel>, i: int, j: int)
    requires
        0 <= i < rs.len(),
        0 <= j < rs.len(),
        i != j,
        rs[i].name == rs[j].name,
        paths::parent_name(rs[i].root) is Some,
        paths::parent_name(rs[j].root) is Some,
        paths::parent_name(rs[i].root) != paths::parent_name(rs[j].root),
    ensures
        disambiguated(rs)[i].name != disambiguated(rs)[j].name,
{
    lemma_count_name_two(rs, i, j);
    let a = rs[i].name + " • "@;
    let p = paths::parent_name(rs[i].root)->0;
    let q = paths::parent_name(rs[j].root)->0;
    let x = disambiguated(rs)[i].name;
    let y = disambiguated(rs)[j].name;
    assert(x == a + p);
    assert(y == a + q);
    if x == y {
        assert((a + p).subrange(a.len() as int, (a + p).len() as int) =~= p);
        assert((a + q).subrange(a.len() as int, (a + q).len() as int) =~= q);
    }
}

/// A name that two different repositories carry is counted at least twice.
proof fn lemma_count_name_two(rs: Seq<RepoModel>, i: int, j: int)
    requires
        0 <= i < rs.len(),
        0 <= j < rs.len(),
        i != j,
        rs[i].name == rs[j].name,
    ensures
        count_name(rs, rs[i].name) > 1,
    decreases rs.len(),
{
    let n = rs[i].name;
    let d = rs.drop_last();
    let last = rs.len() - 1;
    if i < last && j < last {
        assert(d[i] == rs[i] && d[j] == rs[j]);
        lemma_count_name_two(d, i, j);
    } else {
        let k = if i == last {
            j
        } else {
            i
        };
        assert(d[k] == rs[k]);
        lemma_count_name_one(d, k, n);
    }
}

proof fn lemma_count_name_one(rs: Seq<RepoModel>, k: int, n: Seq<char>)
    requires
        0 <= k < rs.len(),
        rs[k].name == n,
    ensures
        count_name(rs, n) >= 1,
    decreases rs.len(),
{
    if k < rs.len() - 1 {
        assert(rs.drop_last()[k] == rs[k]);
        lemma_count_name_one(rs.drop_last(), k, n);
    }
}

/// Refreshing keeps the roots and gives every repository the name that
/// discovering the same roots gives it, whatever `git` printed; so a
/// second refresh gives the same names as the first (the told-apart names
/// do not pile up).
pub proof fn law_refresh_keeps_names(
    rs: Seq<RepoModel>,
    outs1: Seq<Option<Vec<u8>>>,
    outs2: Seq<Option<Vec<u8>>>,
)
    requires
        outs1.len() == rs.len(),
        outs2.len() == rs.len(),
    ensures
        ({
            let roots = rs.map_values(|r: RepoModel| r.root);
            let once = disambiguated(statuses(roots, outs1));
            let twice = disambiguated(statuses(once.map_values(|r: RepoModel| r.root), outs2));
            &&& once.len() == rs.len() && twice.len() == rs.len()
            &&& forall|i: int|
                0 <= i < rs.len() ==> #[trigger] twice[i].root == rs[i].root && once[i].root
                    == rs[i].root && twice[i].name == once[i].name
        }),
{
    let roots = rs.map_values(|r: RepoModel| r.root);
    let s1 = statuses(roots, outs1);
    let once = disambiguated(s1);
    let roots2 = once.map_values(|r: RepoModel| r.root);
    let s2 = statuses(roots2, outs2);
    let twice = disambiguated(s2);
    assert forall|i: int| 0 <= i < rs.len() implies s1[i].root == rs[i].root && s1[i].name
        == paths::name_or_path(rs[i].root) by {
        repository::lemma_status_keeps_root_and_name(roots[i], outs1[i]);
    }
    assert forall|i: int| 0 <= i < rs.len() implies once[i].root == rs[i].root by {}
    assert forall|i: int| 0 <= i < rs.len() implies s2[i].root == rs[i].root && s2[i].name
        == s1[i].name by {
        repository::lemma_status_keeps_root_and_name(roots2[i], outs2[i]);
    }
    assert forall|n: Seq<char>| #[trigger] count_name(s2, n) == count_name(s1, n) by {
        lemma_count_name_same(s1, s2, n);
    }
    assert forall|i: int| 0 <= i < rs.len() implies #[trigger] twice[i].root == rs[i].root && once[i].root
        == rs[i].root && twice[i].name == once[i].name by {
        assert(count_name(s2, s2[i].name) == count_name(s1, s1[i].name));
    }
}

/// Refreshing a model keeps its roots, in order, and gives each repository
/// the name that discovering the same roots gives it, whatever `git`
/// printed either time: `refresh` states its result over the roots of the
/// model it starts from, and `discover` over the roots it is given.
pub proof fn law_refresh_is_rediscovery(
    rs: Seq<RepoModel>,
    outs_refresh: Seq<Option<Vec<u8>>>,
    outs_discover: Seq<Option<Vec<u8>>>,
)
    requires
        outs_refresh.len() == rs.len(),
        outs_discover.len() == rs.len(),
    ensures
        ({
            let roots = rs.map_values(|r: RepoModel| r.root);
            let refreshed = disambiguated(statuses(roots, outs_refresh));
            let discovered = disambiguated(statuses(roots, outs_discover));
            &&& refreshed.len() == rs.len() && discovered.len() == rs.len()
            &&& forall|i: int|
                0 <= i < rs.len() ==> #[trigger] refreshed[i].root == rs[i].root
                    && discovered[i].root == rs[i].root && refreshed[i].name == discovered[i].name
        }),
{
    let roots = rs.map_values(|r: RepoModel| r.root);
    let s1 = statuses(roots, outs_refresh);
    let s2 = statuses(roots, outs_discover);
    let refreshed = disambiguated(s1);
    let discovered = disambiguated(s2);
    assert forall|i: int| 0 <= i < rs.len() implies s1[i].root == rs[i].root && s1[i].name
        == s2[i].name && s2[i].root == rs[i].root by {
        repository::lemma_status_keeps_root_and_name(roots[i], outs_refresh[i]);
        repository::lemma_status_keeps_root_and_name(roots[i], outs_discover[i]);
    }
    assert forall|n: Seq<char>| #[trigger] count_name(s2, n) == count_name(s1, n) by {
        lemma_count_name_same(s1, s2, n);
    }
    assert forall|i: int| 0 <= i < rs.len() implies #[trigger] refreshed[i].root == rs[i].root
        && discovered[i].root == rs[i].root && refreshed[i].name == discovered[i].name by {
        assert(count_name(s2, s2[i].name) == count_name(s1, s1[i].name));
    }
}

proof fn lemma_count_name_same(a: Seq<RepoModel>, b: Seq<RepoModel>, n: Seq<char>)
    requires
        a.len() == b.len(),
        forall|i: int| 0 <= i < a.len() ==> #[trigger] a[i].name == b[i].name,
    ensures
        count_name(b, n) == count_name(a, n),
    decreases a.len(),
{
    if a.len() > 0 {
        assert forall|i: int| 0 <= i < a.drop_last().len() implies #[trigger] a.drop_last()[i].name
            == b.drop_last()[i].name by {
            assert(a.drop_last()[i] == a[i] && b.drop_last()[i] == b[i]);
        }
        lemma_count_name_same(a.drop_last(), b.drop_last(), n);
    }
}

} // verus!

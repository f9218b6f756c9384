//! The Explorer's file tree: nodes that load their children lazily, the
//! entries that are never shown, and the order of a folder's children
//! (folders first, then by lowercased name). Reading folders is left to the
//! caller, which hands each listing to the tree.

use vstd::prelude::*;

use crate::paths;
use crate::text;

verus! {

/// One node of the tree.
pub struct FileNode {
    pub path: String,
    pub name: String,
    pub is_dir: bool,
    pub expanded: bool,
    /// `None` until the folder's listing was loaded.
    pub children: Option<Vec<FileNode>>,
}

/// One entry of a folder listing: its path, its file name when that is
/// valid UTF-8, and whether it is a folder.
pub struct ListEntry {
    pub path: String,
    pub name: Option<String>,
    pub is_dir: bool,
}

/// A node as `(path, name, is_dir, expanded, loaded)`, without its
/// children.
pub open spec fn node_fields(n: &FileNode) -> (Seq<char>, Seq<char>, bool, bool, bool) {
    (n.path@, n.name@, n.is_dir, n.expanded, n.children is Some)
}

/// A fresh node for `path`: named by its file name (by all of `path` when
/// it has none), collapsed, not loaded.
pub open spec fn fresh_node(path: Seq<char>, is_dir: bool) -> (Seq<char>, Seq<char>, bool, bool, bool) {
    (path, paths::name_or_path(path), is_dir, false, false)
}

/// Entries the Explorer never shows (version-control metadata and OS
/// files).
pub open spec fn always_hidden(name: Seq<char>) -> bool {
    name == ".git"@ || name == ".svn"@ || name == ".hg"@ || name == "CVS"@ || name == ".DS_Store"@
        || name == ".Trash"@ || name == "Thumbs.db"@
}

fn is_always_hidden(name: &str) -> (r: bool)
    ensures
        r == always_hidden(name@),
{
    let v = text::chars_of(name);
    text::str_eq(&v, ".git") || text::str_eq(&v, ".svn") || text::str_eq(&v, ".hg")
        || text::str_eq(&v, "CVS") || text::str_eq(&v, ".DS_Store") || text::str_eq(&v, ".Trash")
        || text::str_eq(&v, "Thumbs.db")
}

/// `a` before `b` in code-point order (the order of `str`'s `Ord`).
pub open spec fn text_lt(a: Seq<char>, b: Seq<char>) -> bool
    decreases a.len(),
{
    if a.len() == 0 {
        b.len() > 0
    } else if b.len() == 0 {
        false
    } else if a[0] != b[0] {
        a[0] < b[0]
    } else {
        text_lt(a.drop_first(), b.drop_first())
    }
}

/// The sort key of a node: folders first, then the lowercased name.
pub open spec fn sort_key(n: (Seq<char>, Seq<char>, bool, bool, bool)) -> (bool, Seq<char>) {
    (n.2, text::lowercase(n.1))
}

/// `a` may stay before `b`: `b` is not strictly before `a`.
pub open spec fn key_le(a: (bool, Seq<char>), b: (bool, Seq<char>)) -> bool {
    if a.0 != b.0 {
        a.0
    } else {
        !text_lt(b.1, a.1)
    }
}

/// The first index at or after `i` whose key sorts strictly after `k`.
pub open spec fn first_after(keys: Seq<(bool, Seq<char>)>, k: (bool, Seq<char>), i: int) -> int
    decreases keys.len() - i,
{
    if i < 0 || i >= keys.len() {
        keys.len() as int
    } else if !key_le(keys[i], k) {
        i
    } else {
        first_after(keys, k, i + 1)
    }
}

/// Stable insertion: `x` goes after every element that does not sort
/// after it.
pub open spec fn insert_sorted(
    s: Seq<(Seq<char>, Seq<char>, bool, bool, bool)>,
    x: (Seq<char>, Seq<char>, bool, bool, bool),
) -> Seq<(Seq<char>, Seq<char>, bool, bool, bool)> {
    s.insert(first_after(s.map_values(|n| sort_key(n)), sort_key(x), 0), x)
}

/// The stable sort of `s` by `sort_key`.
pub open spec fn sort_nodes(s: Seq<(Seq<char>, Seq<char>, bool, bool, bool)>) -> Seq<
    (Seq<char>, Seq<char>, bool, bool, bool),
>
    decreases s.len(),
{
    if s.len() == 0 {
        Seq::empty()
    } else {
        insert_sorted(sort_nodes(s.drop_last()), s.last())
    }
}

/// The fresh nodes of the shown entries of a listing, in listing order.
pub open spec fn shown(l: Seq<ListEntry>) -> Seq<(Seq<char>, Seq<char>, bool, bool, bool)>
    decreases l.len(),
{
    if l.len() == 0 {
        Seq::empty()
    } else {
        let r = shown(l.drop_last());
        let e = l.last();
        match e.name {
            Some(n) => if always_hidden(n@) {
                r
            } else {
                r.push(fresh_node(e.path@, e.is_dir))
            },
            None => r,
        }
    }
}

/// The children a listing gives a folder: its shown entries as fresh
/// nodes, folders first, then by lowercased name, ties in listing order.
pub open spec fn children_of(l: Seq<ListEntry>) -> Seq<(Seq<char>, Seq<char>, bool, bool, bool)> {
    sort_nodes(shown(l))
}

pub open spec fn nodes_fields(v: Seq<FileNode>) -> Seq<(Seq<char>, Seq<char>, bool, bool, bool)> {
    v.map_values(|n: FileNode| node_fields(&n))
}

/// Whether `a` sorts strictly before `b` in code-point order.
fn chars_lt(a: &Vec<char>, b: &Vec<char>) -> (r: bool)
    ensures
        r == text_lt(a@, b@),
{
    let mut i: usize = 0;
    assert(a@.skip(0) =~= a@);
    assert(b@.skip(0) =~= b@);
    while i < a.len() && i < b.len()
        invariant
            0 <= i <= a@.len(),
            i <= b@.len(),
            text_lt(a@, b@) == text_lt(a@.skip(i as int), b@.skip(i as int)),
        decreases a@.len() - i,
    {
        assert(a@.skip(i as int)[0] == a@[i as int]);
        assert(b@.skip(i as int)[0] == b@[i as int]);
        if a[i] != b[i] {
            return a[i] < b[i];
        }
        assert(a@.skip(i as int).drop_first() =~= a@.skip(i + 1 as int));
        assert(b@.skip(i as int).drop_first() =~= b@.skip(i + 1 as int));
        i += 1;
    }
    if i < b.len() {
        assert(a@.skip(i as int).len() == 0);
        true
    } else {
        assert(b@.skip(i as int).len() == 0);
        false
    }
}

fn key_le_exec(d: bool, k: &Vec<char>, xd: bool, xk: &Vec<char>) -> (r: bool)
    ensures
        r == key_le((d, k@), (xd, xk@)),
{
    if d != xd {
        d
    } else {
        !chars_lt(xk, k)
    }
}

/// Sorts `nodes` stably by `sort_key`.
fn sort_children(nodes: Vec<FileNode>) -> (r: Vec<FileNode>)
    requires
        forall|k: int| 0 <= k < nodes@.len() ==> (#[trigger] nodes@[k]).children is None,
    ensures
        nodes_fields(r@) == sort_nodes(nodes_fields(nodes@)),
        forall|k: int| 0 <= k < r@.len() ==> (#[trigger] r@[k]).children is None,
{
    let ghost input = nodes_fields(nodes@);
    let n = nodes.len();
    let mut nodes = nodes;
    let mut out: Vec<FileNode> = Vec::new();
    let mut keys: Vec<(bool, Vec<char>)> = Vec::new();
    let mut i: usize = 0;
    assert(input.take(0) =~= Seq::<(Seq<char>, Seq<char>, bool, bool, bool)>::empty());
    while i < n
        invariant
            n == nodes@.len() == input.len(),
            0 <= i <= n,
            forall|k: int| i <= k < n ==> #[trigger] node_fields(&nodes@[k]) == input[k],
            forall|k: int| i <= k < n ==> (#[trigger] nodes@[k]).children is None,
            forall|k: int| 0 <= k < out@.len() ==> (#[trigger] out@[k]).children is None,
            nodes_fields(out@) == sort_nodes(input.take(i as int)),
            keys@.len() == out@.len(),
            forall|k: int|
                0 <= k < keys@.len() ==> (#[trigger] keys@[k]).0 == out@[k].is_dir && keys@[k].1@
                    == text::lowercase(out@[k].name@),
        decreases n - i,
    {
        let mut x = FileNode {
            path: String::new(),
            name: String::new(),
            is_dir: false,
            expanded: false,
            children: None,
        };
        std::mem::swap(&mut x, &mut nodes[i]);
        let lower = text::to_lowercase(x.name.as_str());
        let lk = text::chars_of(lower.as_str());
        let ghost ks = nodes_fields(out@).map_values(|m| sort_key(m));
        let ghost kx = sort_key(node_fields(&x));
        let mut p: usize = 0;
        while p < keys.len() && key_le_exec(keys[p].0, &keys[p].1, x.is_dir, &lk)
            invariant
                0 <= p <= keys@.len(),
                keys@.len() == out@.len(),
                ks == nodes_fields(out@).map_values(|m| sort_key(m)),
                forall|k: int|
                    0 <= k < keys@.len() ==> (#[trigger] keys@[k]).0 == out@[k].is_dir
                        && keys@[k].1@ == text::lowercase(out@[k].name@),
                lk@ == kx.1,
                x.is_dir == kx.0,
                first_after(ks, kx, 0) == first_after(ks, kx, p as int),
            decreases keys@.len() - p,
        {
            assert(ks[p as int] == sort_key(node_fields(&out@[p as int])));
            p += 1;
        }
        proof {
            if p < keys@.len() {
                assert(ks[p as int] == sort_key(node_fields(&out@[p as int])));
            }
        }
        assert(first_after(ks, kx, 0) == p);
        let ghost before = nodes_fields(out@);
        let ghost xv = node_fields(&x);
        let xd = x.is_dir;
        out.insert(p, x);
        keys.insert(p, (xd, lk));
        assert(nodes_fields(out@) =~= before.insert(p as int, xv));
        assert(input.take(i + 1 as int).drop_last() =~= input.take(i as int));
        assert(input.take(i + 1 as int).last() == xv);
        i += 1;
    }
    assert(input.take(i as int) =~= input);
    out
}

/// The children a listing gives a folder.
pub fn children_from(listing: Vec<ListEntry>) -> (r: Vec<FileNode>)
    ensures
        nodes_fields(r@) == children_of(listing@),
        forall|k: int| 0 <= k < r@.len() ==> (#[trigger] r@[k]).children is None,
{
    let mut nodes: Vec<FileNode> = Vec::new();
    let mut i: usize = 0;
    assert(listing@.take(0) =~= Seq::<ListEntry>::empty());
    while i < listing.len()
        invariant
            0 <= i <= listing@.len(),
            nodes_fields(nodes@) == shown(listing@.take(i as int)),
            forall|k: int| 0 <= k < nodes@.len() ==> (#[trigger] nodes@[k]).children is None,
        decreases listing@.len() - i,
    {
        let e = &listing[i];
        assert(listing@.take(i + 1 as int).drop_last() =~= listing@.take(i as int));
        assert(listing@.take(i + 1 as int).last() == listing@[i as int]);
        match &e.name {
            Some(n) => {
                if !is_always_hidden(n.as_str()) {
                    let ghost before = nodes_fields(nodes@);
                    let node = FileNode::new(text::owned(e.path.as_str()), e.is_dir);
                    nodes.push(node);
                    assert(nodes_fields(nodes@) =~= before.push(fresh_node(e.path@, e.is_dir)));
                }
            },
            None => {},
        }
        i += 1;
    }
    assert(listing@.take(i as int) =~= listing@);
    sort_children(nodes)
}

impl FileNode {
    /// A fresh node for `path`.
    pub fn new(path: String, is_dir: bool) -> (n: FileNode)
        ensures
            node_fields(&n) == fresh_node(path@, is_dir),
    {
        let name = paths::name_or_whole(path.as_str());
        FileNode { path, name, is_dir, expanded: false, children: None }
    }

    /// Whether `ensure_loaded` would read the folder.
    pub fn needs_listing(&self) -> (r: bool)
        ensures
            r == (self.is_dir && self.children is None),
    {
        self.is_dir && self.children.is_none()
    }

    /// Loads a folder's children from its listing, once; files and loaded
    /// folders are left as they are.
    pub fn ensure_loaded(&mut self, listing: Vec<ListEntry>)
        ensures
            final(self).path == old(self).path,
            final(self).name == old(self).name,
            final(self).is_dir == old(self).is_dir,
            final(self).expanded == old(self).expanded,
            old(self).is_dir && old(self).children is None ==> (final(self).children matches Some(c)
                && nodes_fields(c@) == children_of(listing@)),
            !(old(self).is_dir && old(self).children is None) ==> final(self).children == old(self).children,
    {
        if !self.is_dir || self.children.is_some() {
            return;
        }
        self.children = Some(children_from(listing));
    }

    /// The root of the tree at `path`: expanded, its listing loaded.
    pub fn root(path: String, is_dir: bool, listing: Vec<ListEntry>) -> (n: FileNode)
        ensures
            n.path@ == path@,
            n.name@ == paths::name_or_path(path@),
            n.is_dir == is_dir,
            n.expanded,
            is_dir ==> (n.children matches Some(c) && nodes_fields(c@) == children_of(listing@)),
            !is_dir ==> n.children is None,
    {
        let mut root = FileNode::new(path, is_dir);
        root.expanded = true;
        root.ensure_loaded(listing);
        root
    }

    /// Whether `toggle` would read the folder.
    pub fn toggle_needs_listing(&self) -> (r: bool)
        ensures
            r == (self.is_dir && !self.expanded && self.children is None),
    {
        self.is_dir && !self.expanded && self.children.is_none()
    }

    /// Expands a collapsed folder (loading its children once) or collapses
    /// an expanded one; files are left as they are.
    pub fn toggle(&mut self, listing: Vec<ListEntry>)
        ensures
            final(self).path == old(self).path,
            final(self).name == old(self).name,
            final(self).is_dir == old(self).is_dir,
            final(self).expanded == (old(self).expanded != old(self).is_dir),
            old(self).is_dir && !old(self).expanded && old(self).children is None ==> (final(self).children matches Some(c) && nodes_fields(c@) == children_of(listing@)),
            !(old(self).is_dir && !old(self).expanded && old(self).children is None) ==> final(self).children == old(self).children,
    {
        if !self.is_dir {
            return;
        }
        self.expanded = !self.expanded;
        if self.expanded {
            self.ensure_loaded(listing);
        }
    }
}

/// What one pass of revealing a path asks for.
pub enum RevealStep {
    /// Revealing is over; whether the target lies in the tree.
    Done(bool),
    /// The folder at this path, on the way to the target, must be listed
    /// first (see `load_on_route`).
    Load(String),
}

/// `c` is a node through which the target `t` is reached: it is the
/// target, or a folder that holds it.
pub open spec fn on_route(c: FileNode, t: Seq<char>) -> bool {
    paths::path_starts_with(t, c.path@) && (paths::path_eq(t, c.path@) || c.is_dir)
}

/// The first child at or after `i` through which the target is reached.
pub open spec fn route_from(cs: Seq<FileNode>, t: Seq<char>, i: int) -> Option<int>
    decreases cs.len() - i,
{
    if i < 0 || i >= cs.len() {
        None
    } else if on_route(cs[i], t) {
        Some(i)
    } else {
        route_from(cs, t, i + 1)
    }
}

proof fn lemma_route_from(cs: Seq<FileNode>, t: Seq<char>, i: int)
    requires
        0 <= i,
    ensures
        match route_from(cs, t, i) {
            Some(j) => i <= j < cs.len() && on_route(cs[j], t) && forall|k: int|
                i <= k < j ==> !on_route(#[trigger] cs[k], t),
            None => forall|k: int| i <= k < cs.len() ==> !on_route(#[trigger] cs[k], t),
        },
    decreases cs.len() - i,
{
    if i < cs.len() && !on_route(cs[i], t) {
        lemma_route_from(cs, t, i + 1);
    }
}

/// `n` is `o` with only the children changed, and expanded.
pub open spec fn expanded_from(o: FileNode, n: FileNode) -> bool {
    n.path == o.path && n.name == o.name && n.is_dir == o.is_dir && n.expanded
}

/// One pass of revealing the target `t` in the tree `o`, which becomes
/// `n` and answers `r`: the target itself answers found; a file, or a
/// folder that does not hold the target, answers not found; any other
/// folder is expanded and, when it is not loaded yet, asks to be listed;
/// otherwise the pass goes on in its first child on the way to the target
/// (found when there is none).
pub open spec fn reveal_pass(o: FileNode, n: FileNode, t: Seq<char>, r: RevealStep) -> bool
    decreases o,
{
    if paths::path_eq(t, o.path@) {
        n == o && r == RevealStep::Done(true)
    } else if !o.is_dir || !paths::path_starts_with(t, o.path@) {
        n == o && r == RevealStep::Done(false)
    } else {
        expanded_from(o, n) && match o.children {
            None => n.children is None && (r matches RevealStep::Load(p) && p@ == o.path@),
            Some(cs) => n.children matches Some(ns) && ns@.len() == cs@.len() && match route_from(
                cs@,
                t,
                0,
            ) {
                None => ns@ == cs@ && r == RevealStep::Done(true),
                Some(j) => 0 <= j < cs@.len() && (forall|k: int|
                    0 <= k < cs@.len() && k != j ==> #[trigger] ns@[k] == cs@[k]) && reveal_pass(
                    cs@[j],
                    ns@[j],
                    t,
                    r,
                ),
            },
        }
    }
}

/// Loading the listing `l` into the first folder on the way to the target
/// `t` that is not loaded yet: `o` becomes `n`.
pub open spec fn route_load(o: FileNode, n: FileNode, t: Seq<char>, l: Seq<ListEntry>) -> bool
    decreases o,
{
    if paths::path_eq(t, o.path@) || !o.is_dir || !paths::path_starts_with(t, o.path@) {
        n == o
    } else {
        n.path == o.path && n.name == o.name && n.is_dir == o.is_dir && n.expanded == o.expanded
            && match o.children {
            None => n.children matches Some(c) && nodes_fields(c@) == children_of(l),
            Some(cs) => n.children matches Some(ns) && ns@.len() == cs@.len() && match route_from(
                cs@,
                t,
                0,
            ) {
                None => ns@ == cs@,
                Some(j) => 0 <= j < cs@.len() && (forall|k: int|
                    0 <= k < cs@.len() && k != j ==> #[trigger] ns@[k] == cs@[k]) && route_load(
                    cs@[j],
                    ns@[j],
                    t,
                    l,
                ),
            },
        }
    }
}

impl FileNode {
    /// One pass of revealing `target` (expanding every folder on the way
    /// to it, as the Explorer's "reveal active file" does). Repeat it,
    /// listing the folder it asks for with `load_on_route`, until it is
    /// done; the answer tells whether the target lies in this subtree.
    pub fn reveal_step(&mut self, target: &str) -> (r: RevealStep)
        ensures
            reveal_pass(*old(self), *final(self), target@, r),
        decreases *old(self),
    {
        if paths::same_path(target, self.path.as_str()) {
            return RevealStep::Done(true);
        }
        if !self.is_dir || !paths::starts_with_path(target, self.path.as_str()) {
            return RevealStep::Done(false);
        }
        self.expanded = true;
        let mut taken: Option<Vec<FileNode>> = None;
        std::mem::swap(&mut taken, &mut self.children);
        let mut children = match taken {
            None => {
                return RevealStep::Load(text::owned(self.path.as_str()));
            },
            Some(c) => c,
        };
        let ghost cs = children@;
        proof {
            lemma_route_from(cs, target@, 0);
        }
        let mut i: usize = 0;
        while i < children.len()
            invariant
                cs.len() == children@.len(),
                old(self).children matches Some(oc) && oc@ == cs,
                self.path == old(self).path,
                self.name == old(self).name,
                self.is_dir == old(self).is_dir,
                self.expanded,
                old(self).is_dir,
                !paths::path_eq(target@, old(self).path@),
                paths::path_starts_with(target@, old(self).path@),
                0 <= i <= cs.len(),
                forall|k: int| 0 <= k < cs.len() ==> #[trigger] children@[k] == cs[k],
                route_from(cs, target@, 0) == route_from(cs, target@, i as int),
            decreases cs.len() - i,
        {
            proof {
                lemma_route_from(cs, target@, i as int);
            }
            if paths::starts_with_path(target, children[i].path.as_str()) {
                assert(children@[i as int] == cs[i as int]);
                proof {
                    let oc = old(self).children->0;
                    assert(decreases_to!(*old(self) => old(self).children));
                    assert(decreases_to!(old(self).children => oc));
                    assert(decreases_to!(oc => oc@));
                    assert(decreases_to!(oc@ => cs[i as int]));
                }
                let ghost before = children@;
                let r = children[i].reveal_step(target);
                assert(children@ == before.update(i as int, children@[i as int]));
                proof {
                    lemma_pass_false(cs[i as int], children@[i as int], target@, r);
                }
                match r {
                    RevealStep::Done(false) => {},
                    _ => {
                        assert(route_from(cs, target@, 0) == Some(i as int));
                        self.children = Some(children);
                        return r;
                    },
                }
            }
            i += 1;
        }
        assert(children@ =~= cs);
        self.children = Some(children);
        RevealStep::Done(true)
    }

    /// Loads `listing` into the first folder on the way to `target` that
    /// is not loaded yet (the folder `reveal_step` asked for).
    pub fn load_on_route(&mut self, target: &str, listing: Vec<ListEntry>)
        ensures
            route_load(*old(self), *final(self), target@, listing@),
        decreases *old(self),
    {
        if paths::same_path(target, self.path.as_str()) || !self.is_dir || !paths::starts_with_path(
            target,
            self.path.as_str(),
        ) {
            return;
        }
        let mut taken: Option<Vec<FileNode>> = None;
        std::mem::swap(&mut taken, &mut self.children);
        let mut children = match taken {
            None => {
                self.children = Some(children_from(listing));
                return;
            },
            Some(c) => c,
        };
        let ghost cs = children@;
        let mut i: usize = 0;
        while i < children.len()
            invariant
                cs.len() == children@.len(),
                old(self).children matches Some(oc) && oc@ == cs,
                self.path == old(self).path,
                self.name == old(self).name,
                self.is_dir == old(self).is_dir,
                self.expanded == old(self).expanded,
                old(self).is_dir,
                !paths::path_eq(target@, old(self).path@),
                paths::path_starts_with(target@, old(self).path@),
                0 <= i <= cs.len(),
                forall|k: int| 0 <= k < cs.len() ==> #[trigger] children@[k] == cs[k],
                route_from(cs, target@, 0) == route_from(cs, target@, i as int),
            decreases cs.len() - i,
        {
            proof {
                lemma_route_from(cs, target@, i as int);
            }
            let hit = paths::starts_with_path(target, children[i].path.as_str()) && (
            paths::same_path(target, children[i].path.as_str()) || children[i].is_dir);
            assert(hit == on_route(children@[i as int], target@));
            if hit {
                assert(route_from(cs, target@, 0) == Some(i as int));
                proof {
                    let oc = old(self).children->0;
                    assert(decreases_to!(*old(self) => old(self).children));
                    assert(decreases_to!(old(self).children => oc));
                    assert(decreases_to!(oc => oc@));
                    assert(decreases_to!(oc@ => cs[i as int]));
                }
                let ghost before = children@;
                children[i].load_on_route(target, listing);
                assert(children@ == before.update(i as int, children@[i as int]));
                self.children = Some(children);
                return;
            }
            i += 1;
        }
        assert(children@ =~= cs);
        self.children = Some(children);
    }
}

/// A pass that answers "not found" leaves the node as it was and happens
/// only off the way to the target.
proof fn lemma_pass_false(o: FileNode, n: FileNode, t: Seq<char>, r: RevealStep)
    requires
        reveal_pass(o, n, t, r),
    ensures
        r == RevealStep::Done(false) ==> n == o && !on_route(o, t),
    decreases o,
{
    if !paths::path_eq(t, o.path@) && o.is_dir && paths::path_starts_with(t, o.path@) {
        match o.children {
            None => {},
            Some(cs) => {
                lemma_route_from(cs@, t, 0);
                match route_from(cs@, t, 0) {
                    None => {},
                    Some(j) => {
                        let ns = n.children->0;
                        assert(decreases_to!(o => o.children));
                        assert(decreases_to!(o.children => cs));
                        assert(decreases_to!(cs => cs@));
                        assert(decreases_to!(cs@ => cs@[j]));
                        lemma_pass_false(cs@[j], ns@[j], t, r);
                    },
                }
            },
        }
    }
}

/// The listings handed to `reveal`, as `(folder path, entries)`.
pub open spec fn listing_views(v: Seq<(String, Vec<ListEntry>)>) -> Seq<(Seq<char>, Seq<ListEntry>)> {
    v.map_values(|x: (String, Vec<ListEntry>)| (x.0@, x.1@))
}

/// The first listing for the folder `p`.
pub open spec fn listing_index(ls: Seq<(Seq<char>, Seq<ListEntry>)>, p: Seq<char>, i: int) -> Option<int>
    decreases ls.len() - i,
{
    if i < 0 || i >= ls.len() {
        None
    } else if paths::path_eq(ls[i].0, p) {
        Some(i)
    } else {
        listing_index(ls, p, i + 1)
    }
}

/// The listing handed over for `p` (empty when there is none, as for a
/// folder that cannot be read) and the listings left, that one used up.
pub open spec fn take_listing(ls: Seq<(Seq<char>, Seq<ListEntry>)>, p: Seq<char>) -> (
    Seq<ListEntry>,
    Seq<(Seq<char>, Seq<ListEntry>)>,
) {
    match listing_index(ls, p, 0) {
        Some(i) => (ls[i].1, ls.update(i, (ls[i].0, Seq::empty()))),
        None => (Seq::empty(), ls),
    }
}

/// Revealing the target `t` in `o` gives `n` and the answer `r`: passes
/// are repeated, each folder asked for loaded from its listing (empty when
/// none was handed over), at most `fuel` times; a run that needs more loads
/// stops there, still answering that the target lies in the subtree.
pub open spec fn reveal_run(
    o: FileNode,
    n: FileNode,
    t: Seq<char>,
    ls: Seq<(Seq<char>, Seq<ListEntry>)>,
    fuel: nat,
    r: bool,
) -> bool
    decreases fuel,
{
    exists|m: FileNode, s: RevealStep|
        #![trigger reveal_pass(o, m, t, s)]
        reveal_pass(o, m, t, s) && match s {
            RevealStep::Done(b) => n == m && r == b,
            RevealStep::Load(p) => if fuel == 0 {
                n == m && r
            } else {
                exists|m2: FileNode|
                    #![trigger route_load(m, m2, t, take_listing(ls, p@).0)]
                    route_load(m, m2, t, take_listing(ls, p@).0) && reveal_run(
                        m2,
                        n,
                        t,
                        take_listing(ls, p@).1,
                        (fuel - 1) as nat,
                        r,
                    )
            },
        }
}

/// Whether `t` lies in the subtree of `o`: it is `o` itself, or `o` is a
/// folder whose path begins `t`.
pub open spec fn within(o: FileNode, t: Seq<char>) -> bool {
    paths::path_eq(t, o.path@) || (o.is_dir && paths::path_starts_with(t, o.path@))
}

proof fn lemma_pass_answer(o: FileNode, n: FileNode, t: Seq<char>, r: RevealStep)
    requires
        reveal_pass(o, n, t, r),
    ensures
        r matches RevealStep::Done(b) ==> b == within(o, t),
        r is Load ==> within(o, t),
        n.path == o.path && n.is_dir == o.is_dir,
    decreases o,
{
    if !paths::path_eq(t, o.path@) && o.is_dir && paths::path_starts_with(t, o.path@) {
        match o.children {
            None => {},
            Some(cs) => {
                lemma_route_from(cs@, t, 0);
                match route_from(cs@, t, 0) {
                    None => {},
                    Some(j) => {
                        let ns = n.children->0;
                        assert(decreases_to!(o => o.children));
                        assert(decreases_to!(o.children => cs));
                        assert(decreases_to!(cs => cs@));
                        assert(decreases_to!(cs@ => cs@[j]));
                        lemma_pass_answer(cs@[j], ns@[j], t, r);
                    },
                }
            },
        }
    }
}

proof fn lemma_run_answer(
    o: FileNode,
    n: FileNode,
    t: Seq<char>,
    ls: Seq<(Seq<char>, Seq<ListEntry>)>,
    fuel: nat,
    r: bool,
)
    requires
        reveal_run(o, n, t, ls, fuel, r),
    ensures
        r == within(o, t),
    decreases fuel,
{
    let (m, s) = choose|m: FileNode, s: RevealStep|
        #![trigger reveal_pass(o, m, t, s)]
        reveal_pass(o, m, t, s) && match s {
            RevealStep::Done(b) => n == m && r == b,
            RevealStep::Load(p) => if fuel == 0 {
                n == m && r
            } else {
                exists|m2: FileNode|
                    #![trigger route_load(m, m2, t, take_listing(ls, p@).0)]
                    route_load(m, m2, t, take_listing(ls, p@).0) && reveal_run(
                        m2,
                        n,
                        t,
                        take_listing(ls, p@).1,
                        (fuel - 1) as nat,
                        r,
                    )
            },
        };
    lemma_pass_answer(o, m, t, s);
    match s {
        RevealStep::Done(b) => {},
        RevealStep::Load(p) => {
            if fuel > 0 {
                let m2 = choose|m2: FileNode|
                    #![trigger route_load(m, m2, t, take_listing(ls, p@).0)]
                    route_load(m, m2, t, take_listing(ls, p@).0) && reveal_run(
                        m2,
                        n,
                        t,
                        take_listing(ls, p@).1,
                        (fuel - 1) as nat,
                        r,
                    );
                lemma_run_answer(m2, n, t, take_listing(ls, p@).1, (fuel - 1) as nat, r);
            }
        },
    }
}

impl FileNode {
    /// Expands every folder on the way to `target`, loading each one not
    /// loaded yet from its listing in `listings` (the folders on the way to
    /// the target, as read from disk; a missing one counts as empty), with
    /// one load more than there are listings. Returns whether `target` lies
    /// in this subtree: it is this node, or this node is a folder that
    /// holds it.
    pub fn reveal_path(&mut self, target: &str, listings: Vec<(String, Vec<ListEntry>)>) -> (r: bool)
        ensures
            r == within(*old(self), target@),
            reveal_run(
                *old(self),
                *final(self),
                target@,
                listing_views(listings@),
                if listings@.len() < usize::MAX {
                    (listings@.len() + 1) as nat
                } else {
                    listings@.len() as nat
                },
                r,
            ),
    {
        let ghost lv0 = listing_views(listings@);
        let mut ls = listings;
        let fuel = if ls.len() < usize::MAX {
            ls.len() + 1
        } else {
            ls.len()
        };
        let r = self.reveal_with(target, &mut ls, fuel);
        proof {
            lemma_run_answer(*old(self), *self, target@, lv0, fuel as nat, r);
        }
        r
    }

    fn reveal_with(&mut self, target: &str, ls: &mut Vec<(String, Vec<ListEntry>)>, fuel: usize) -> (r: bool)
        ensures
            reveal_run(*old(self), *final(self), target@, listing_views(old(ls)@), fuel as nat, r),
        decreases fuel,
    {
        let ghost o = *self;
        let ghost lv = listing_views(ls@);
        let s = self.reveal_step(target);
        let ghost m = *self;
        match s {
            RevealStep::Done(b) => {
                assert(reveal_pass(o, m, target@, s));
                b
            },
            RevealStep::Load(p) => {
                if fuel == 0 {
                    assert(reveal_pass(o, m, target@, RevealStep::Load(p)));
                    assert(reveal_run(o, m, target@, lv, 0, true));
                    return true;
                }
                let listing = take_listing_exec(ls, p.as_str());
                let ghost lv2 = listing_views(ls@);
                assert(lv2 == take_listing(lv, p@).1);
                self.load_on_route(target, listing);
                let ghost m2 = *self;
                let r = self.reveal_with(target, ls, fuel - 1);
                assert(route_load(m, m2, target@, take_listing(lv, p@).0));
                assert(reveal_run(m2, *self, target@, take_listing(lv, p@).1, (fuel - 1) as nat, r));
                assert(reveal_pass(o, m, target@, RevealStep::Load(p)));
                assert(reveal_run(o, *self, target@, lv, fuel as nat, r));
                r
            },
        }
    }
}

/// Hands over the first listing for the folder `p` (empty when there is
/// none) and leaves an empty one in its place.
fn take_listing_exec(ls: &mut Vec<(String, Vec<ListEntry>)>, p: &str) -> (r: Vec<ListEntry>)
    ensures
        (r@, listing_views(final(ls)@)) == take_listing(listing_views(old(ls)@), p@),
{
    let ghost lv = listing_views(ls@);
    let mut i: usize = 0;
    while i < ls.len()
        invariant
            lv == listing_views(ls@),
            lv == listing_views(old(ls)@),
            0 <= i <= ls@.len(),
            listing_index(lv, p@, 0) == listing_index(lv, p@, i as int),
        decreases ls@.len() - i,
    {
        if paths::same_path(ls[i].0.as_str(), p) {
            assert(listing_index(lv, p@, i as int) == Some(i as int));
            let mut out: Vec<ListEntry> = Vec::new();
            assert(ls@[i as int].1@ == lv[i as int].1);
            std::mem::swap(&mut out, &mut ls[i].1);
            assert(out@ == lv[i as int].1);
            assert(listing_views(ls@) =~= lv.update(i as int, (lv[i as int].0, Seq::empty())));
            return out;
        }
        i += 1;
    }
    assert(listing_index(lv, p@, i as int) is None);
    Vec::new()
}

proof fn lemma_text_lt_irreflexive(a: Seq<char>)
    ensures
        !text_lt(a, a),
    decreases a.len(),
{
    if a.len() > 0 {
        lemma_text_lt_irreflexive(a.drop_first());
    }
}

proof fn lemma_text_lt_total(a: Seq<char>, b: Seq<char>)
    ensures
        a == b || text_lt(a, b) || text_lt(b, a),
    decreases a.len(),
{
    if a.len() > 0 && b.len() > 0 && a[0] == b[0] {
        lemma_text_lt_total(a.drop_first(), b.drop_first());
        if a.drop_first() == b.drop_first() {
            assert(a =~= seq![a[0]] + a.drop_first());
            assert(b =~= seq![b[0]] + b.drop_first());
        }
    } else if a.len() == 0 && b.len() == 0 {
        assert(a =~= b);
    } else if a.len() > 0 && b.len() > 0 {
    }
}

proof fn lemma_text_lt_transitive(a: Seq<char>, b: Seq<char>, c: Seq<char>)
    requires
        text_lt(a, b),
        text_lt(b, c),
    ensures
        text_lt(a, c),
    decreases a.len(),
{
    if a.len() > 0 && b.len() > 0 && c.len() > 0 && a[0] == b[0] && b[0] == c[0] {
        lemma_text_lt_transitive(a.drop_first(), b.drop_first(), c.drop_first());
    }
}

/// The order of children: total and transitive.
proof fn lemma_key_order(a: (bool, Seq<char>), b: (bool, Seq<char>), c: (bool, Seq<char>))
    ensures
        key_le(a, b) || key_le(b, a),
        key_le(a, b) && key_le(b, c) ==> key_le(a, c),
{
    lemma_text_lt_total(a.1, b.1);
    lemma_text_lt_irreflexive(a.1);
    if text_lt(a.1, b.1) && text_lt(b.1, a.1) {
        lemma_text_lt_transitive(a.1, b.1, a.1);
    }
    if a.0 == b.0 && b.0 == c.0 && key_le(a, b) && key_le(b, c) {
        lemma_text_lt_total(a.1, b.1);
        lemma_text_lt_total(b.1, c.1);
        lemma_text_lt_total(a.1, c.1);
        if text_lt(c.1, a.1) {
            if a.1 == b.1 {
            } else if b.1 == c.1 {
            } else {
                lemma_text_lt_transitive(c.1, a.1, b.1);
            }
        }
    }
}

/// Every key before `first_after(keys, k, i)` (from `i` on) may stay before
/// `k`, and the key there, if any, sorts strictly after `k`.
proof fn lemma_first_after(keys: Seq<(bool, Seq<char>)>, k: (bool, Seq<char>), i: int)
    requires
        0 <= i <= keys.len(),
    ensures
        i <= first_after(keys, k, i) <= keys.len(),
        forall|q: int| i <= q < first_after(keys, k, i) ==> key_le(#[trigger] keys[q], k),
        first_after(keys, k, i) < keys.len() ==> !key_le(keys[first_after(keys, k, i)], k),
    decreases keys.len() - i,
{
    if i < keys.len() && key_le(keys[i], k) {
        lemma_first_after(keys, k, i + 1);
    }
}

/// The children are in order: folders first, then by lowercased name.
pub open spec fn children_sorted(s: Seq<(Seq<char>, Seq<char>, bool, bool, bool)>) -> bool {
    forall|i: int, j: int|
        0 <= i < j < s.len() ==> key_le(sort_key(#[trigger] s[i]), sort_key(#[trigger] s[j]))
}

proof fn lemma_insert_sorted(
    s: Seq<(Seq<char>, Seq<char>, bool, bool, bool)>,
    x: (Seq<char>, Seq<char>, bool, bool, bool),
)
    requires
        children_sorted(s),
    ensures
        children_sorted(insert_sorted(s, x)),
        insert_sorted(s, x).len() == s.len() + 1,
{
    let keys = s.map_values(|n| sort_key(n));
    let kx = sort_key(x);
    let p = first_after(keys, kx, 0);
    lemma_first_after(keys, kx, 0);
    let r = insert_sorted(s, x);
    assert forall|i: int, j: int| 0 <= i < j < r.len() implies key_le(
        sort_key(#[trigger] r[i]),
        sort_key(#[trigger] r[j]),
    ) by {
        if j < p {
            assert(r[i] == s[i] && r[j] == s[j]);
        } else if j == p {
            assert(r[j] == x);
            assert(r[i] == s[i]);
            assert(keys[i] == sort_key(s[i]));
        } else if i > p {
            assert(r[i] == s[i - 1] && r[j] == s[j - 1]);
        } else if i == p {
            assert(r[i] == x);
            assert(r[j] == s[j - 1]);
            assert(keys[p] == sort_key(s[p]));
            lemma_key_order(kx, keys[p], sort_key(s[j - 1]));
            lemma_key_order(keys[p], kx, kx);
            if j - 1 > p {
                assert(key_le(sort_key(s[p]), sort_key(s[j - 1])));
            }
        } else {
            assert(r[i] == s[i] && r[j] == s[j - 1]);
        }
    }
}

proof fn lemma_sort_nodes(s: Seq<(Seq<char>, Seq<char>, bool, bool, bool)>)
    ensures
        children_sorted(sort_nodes(s)),
        sort_nodes(s).len() == s.len(),
        sort_nodes(s).to_multiset() == s.to_multiset(),
    decreases s.len(),
{
    if s.len() > 0 {
        lemma_sort_nodes(s.drop_last());
        lemma_insert_sorted(sort_nodes(s.drop_last()), s.last());
        let d = sort_nodes(s.drop_last());
        let keys = d.map_values(|n| sort_key(n));
        let p = first_after(keys, sort_key(s.last()), 0);
        lemma_first_after(keys, sort_key(s.last()), 0);
        vstd::seq_lib::to_multiset_insert(d, p, s.last());
        vstd::seq_lib::to_multiset_build(s.drop_last(), s.last());
        assert(s.drop_last().push(s.last()) =~= s);
        assert(sort_nodes(s) == d.insert(p, s.last()));
    } else {
        assert(s =~= Seq::<(Seq<char>, Seq<char>, bool, bool, bool)>::empty());
    }
}

/// A folder's children, as loaded from a listing, come folders first and
/// then by lowercased name, and are the shown entries of the listing, each
/// once.
pub proof fn law_children_sorted(l: Seq<ListEntry>)
    ensures
        children_sorted(children_of(l)),
        children_of(l).to_multiset() == shown(l).to_multiset(),
{
    lemma_sort_nodes(shown(l));
}

} // verus!

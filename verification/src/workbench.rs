//! The workbench's decisions: which documents are open in tabs and which
//! one is active, how closing tabs moves the active one, the tab context
//! menu, the keyboard shortcuts, what the editor area and the title bar
//! show, which repository is the active one, what the commit button does,
//! and the status messages of saving, committing and checking out.

use vstd::prelude::*;

use crate::editor::buffer::Document;
use crate::git;
use crate::git::repository::Repository;
use crate::git::status::CommitMode;
use crate::vscode_widgets::composite::ContextMenuItem;
use crate::paths;
use crate::text;

verus! {

/// The open documents, in tab order, and the active one.
pub struct Editors {
    pub documents: Vec<Document>,
    pub active: Option<usize>,
}

/// The active tab after closing tab `idx` of `len` (`len` counting the
/// closed one): none when no tab is left; the tab before the closed one
/// when it was active (the first when it was the first); the same tab,
/// one place to the left, when it was to the right; otherwise the same
/// index (the first when none was active), kept in range.
pub open spec fn active_after_close(active: Option<usize>, idx: usize, len: usize) -> Option<usize> {
    if len <= 1 {
        None
    } else {
        let last = (len - 2) as usize;
        match active {
            Some(a) => if a == idx {
                Some(
                    if idx == 0 {
                        0
                    } else if idx - 1 <= last {
                        (idx - 1) as usize
                    } else {
                        last
                    },
                )
            } else if a > idx {
                Some((a - 1) as usize)
            } else {
                Some(
                    if a <= last {
                        a
                    } else {
                        last
                    },
                )
            },
            None => Some(0),
        }
    }
}

/// Whether `close_others(keep)` keeps the document `d`: pinned tabs and the
/// tab at the kept path.
pub open spec fn kept_by(d: Document, keep_path: Seq<char>) -> bool {
    d.pinned || paths::path_eq(d.path@, keep_path)
}

/// The documents `close_others` keeps, in order.
pub open spec fn kept_docs(s: Seq<Document>, keep_path: Seq<char>) -> Seq<Document>
    decreases s.len(),
{
    if s.len() == 0 {
        Seq::empty()
    } else {
        let rest = kept_docs(s.drop_first(), keep_path);
        if kept_by(s[0], keep_path) {
            seq![s[0]] + rest
        } else {
            rest
        }
    }
}

/// The first document at or after `i` whose path is `p`.
pub open spec fn position_of(s: Seq<Document>, p: Seq<char>, i: int) -> Option<int>
    decreases s.len() - i,
{
    if i < 0 || i >= s.len() {
        None
    } else if paths::path_eq(s[i].path@, p) {
        Some(i)
    } else {
        position_of(s, p, i + 1)
    }
}

impl Editors {
    /// No document open.
    pub fn new() -> (e: Editors)
        ensures
            e.documents@.len() == 0,
            e.active is None,
    {
        Editors { documents: Vec::new(), active: None }
    }

    /// The tab of the document at `path`, if it is open.
    pub fn find(&self, path: &str) -> (r: Option<usize>)
        ensures
            match position_of(self.documents@, path@, 0) {
                Some(i) => r == Some(i as usize),
                None => r is None,
            },
    {
        let mut i: usize = 0;
        while i < self.documents.len()
            invariant
                0 <= i <= self.documents@.len(),
                position_of(self.documents@, path@, 0) == position_of(self.documents@, path@, i as int),
            decreases self.documents@.len() - i,
        {
            if paths::same_path(self.documents[i].path.as_str(), path) {
                return Some(i);
            }
            i += 1;
        }
        None
    }

    /// Opens `doc` in a new tab at the end and makes it active.
    pub fn open(&mut self, doc: Document)
        ensures
            final(self).documents@ == old(self).documents@.push(doc),
            final(self).active == Some(old(self).documents@.len() as usize),
    {
        self.documents.push(doc);
        self.active = Some(self.documents.len() - 1);
    }

    /// Closes tab `idx` (nothing happens past the last tab).
    pub fn close_doc(&mut self, idx: usize)
        ensures
            idx >= old(self).documents@.len() ==> final(self).documents@ == old(self).documents@
                && final(self).active == old(self).active,
            idx < old(self).documents@.len() ==> final(self).documents@ == old(self).documents@.remove(idx as int) && final(self).active == active_after_close(
                old(self).active,
                idx,
                old(self).documents@.len() as usize,
            ),
    {
        if idx >= self.documents.len() {
            return;
        }
        self.documents.remove(idx);
        if self.documents.len() == 0 {
            self.active = None;
        } else {
            let last = self.documents.len() - 1;
            let new_active = match self.active {
                Some(a) => if a == idx {
                    let before = if idx == 0 {
                        0
                    } else {
                        idx - 1
                    };
                    if before <= last {
                        before
                    } else {
                        last
                    }
                } else if a > idx {
                    a - 1
                } else {
                    if a <= last {
                        a
                    } else {
                        last
                    }
                },
                None => 0,
            };
            self.active = Some(new_active);
        }
    }

    /// Closes the active tab, if any.
    pub fn close_active(&mut self)
        ensures
            match old(self).active {
                Some(idx) => idx >= old(self).documents@.len() ==> final(self).documents@ == old(self).documents@ && final(self).active == old(self).active,
                None => final(self).documents@ == old(self).documents@ && final(self).active is None,
            },
            old(self).active matches Some(idx) ==> (idx < old(self).documents@.len() ==> final(self).documents@ == old(self).documents@.remove(idx as int) && final(self).active
                == active_after_close(old(self).active, idx, old(self).documents@.len() as usize)),
    {
        if let Some(idx) = self.active {
            self.close_doc(idx);
        }
    }

    /// Closes every tab.
    pub fn close_all(&mut self)
        ensures
            final(self).documents@.len() == 0,
            final(self).active is None,
    {
        self.documents = Vec::new();
        self.active = None;
    }

    /// Closes every tab but tab `keep` and the pinned ones; the kept tab
    /// becomes active. Nothing happens past the last tab.
    pub fn close_others(&mut self, keep: usize)
        ensures
            keep >= old(self).documents@.len() ==> final(self).documents@ == old(self).documents@
                && final(self).active == old(self).active,
            keep < old(self).documents@.len() ==> ({
                let kp = old(self).documents@[keep as int].path@;
                &&& final(self).documents@ == kept_docs(old(self).documents@, kp)
                &&& match position_of(final(self).documents@, kp, 0) {
                    Some(j) => final(self).active == Some(j as usize),
                    None => final(self).active == if final(self).documents@.len() == 0 {
                        None::<usize>
                    } else {
                        Some(0usize)
                    },
                }
            }),
    {
        if keep >= self.documents.len() {
            return;
        }
        let keep_path = text::owned(self.documents[keep].path.as_str());
        let ghost kp = keep_path@;
        let ghost old_docs = self.documents@;
        let mut i: usize = self.documents.len();
        assert(old_docs.subrange(old_docs.len() as int, old_docs.len() as int) =~= Seq::<
            Document,
        >::empty());
        while i > 0
            invariant
                0 <= i <= old_docs.len(),
                kp == keep_path@,
                self.documents@ == old_docs.take(i as int) + kept_docs(
                    old_docs.subrange(i as int, old_docs.len() as int),
                    kp,
                ),
            decreases i,
        {
            i -= 1;
            let ghost tail = old_docs.subrange(i + 1 as int, old_docs.len() as int);
            assert(old_docs.subrange(i as int, old_docs.len() as int).drop_first() =~= tail);
            assert(old_docs.subrange(i as int, old_docs.len() as int)[0] == old_docs[i as int]);
            assert(self.documents@[i as int] == old_docs[i as int]);
            let keep_it = self.documents[i].pinned || paths::same_path(
                self.documents[i].path.as_str(),
                keep_path.as_str(),
            );
            if !keep_it {
                self.documents.remove(i);
                assert(self.documents@ =~= old_docs.take(i as int) + kept_docs(
                    old_docs.subrange(i as int, old_docs.len() as int),
                    kp,
                ));
            } else {
                assert(self.documents@ =~= old_docs.take(i as int) + kept_docs(
                    old_docs.subrange(i as int, old_docs.len() as int),
                    kp,
                ));
            }
        }
        assert(old_docs.subrange(0, old_docs.len() as int) =~= old_docs);
        assert(self.documents@ =~= kept_docs(old_docs, kp));
        self.active = match self.find(keep_path.as_str()) {
            Some(j) => Some(j),
            None => if self.documents.len() == 0 {
                None
            } else {
                Some(0)
            },
        };
    }
}

/// What the welcome page asks for.
pub struct WelcomeAction {
    pub open_folder: bool,
    pub open_file: bool,
    pub open_palette: bool,
}

impl Default for WelcomeAction {
    fn default() -> (r: Self)
        ensures
            !r.open_folder && !r.open_file && !r.open_palette,
    {
        WelcomeAction { open_folder: false, open_file: false, open_palette: false }
    }
}

/// The status message after saving every modified document:
/// `"Saved N file(s)"`, followed by `", E errors"` when some failed.
pub open spec fn save_all_message(saved: usize, errors: usize) -> Seq<char> {
    if errors > 0 {
        "Saved "@ + text::decimal(saved as nat) + " file(s), "@ + text::decimal(errors as nat)
            + " errors"@
    } else {
        "Saved "@ + text::decimal(saved as nat) + " file(s)"@
    }
}

pub fn saved_message(saved: usize, errors: usize) -> (r: String)
    ensures
        r@ == save_all_message(saved, errors),
{
    let mut s = text::owned("Saved ");
    text::push_decimal(&mut s, saved);
    if errors > 0 {
        text::push_str(&mut s, " file(s), ");
        text::push_decimal(&mut s, errors);
        text::push_str(&mut s, " errors");
    } else {
        text::push_str(&mut s, " file(s)");
    }
    s
}

/// Closing a tab keeps the active tab a valid one: after closing tab `idx`
/// of `len` tabs, with a valid tab active (or none), the active tab is one
/// of the `len - 1` tabs left, and some tab is active while any is left.
pub proof fn law_active_stays_valid(active: Option<usize>, idx: usize, len: usize)
    requires
        idx < len,
        active matches Some(a) ==> a < len,
    ensures
        active_after_close(active, idx, len) matches Some(a) ==> a < len - 1,
        len > 1 <==> active_after_close(active, idx, len) is Some,
{
}

/// Closing a tab other than the active one keeps the same document active:
/// the active index after `close_doc(idx)` points, in the documents left,
/// at the document that was active before.
pub proof fn law_close_other_keeps_active_document<T>(docs: Seq<T>, a: usize, idx: usize)
    requires
        docs.len() <= usize::MAX,
        a < docs.len(),
        idx < docs.len(),
        a != idx,
    ensures
        active_after_close(Some(a), idx, docs.len() as usize) matches Some(b) && b < docs.remove(
            idx as int,
        ).len() && docs.remove(idx as int)[b as int] == docs[a as int],
{
    let r = docs.remove(idx as int);
    if a < idx {
        assert(r[a as int] == docs[a as int]);
    } else {
        assert(r[a - 1] == docs[a as int]);
    }
}

/// Closing the active tab activates the tab just left of it (the new first
/// tab when it was the first), while any tab is left.
pub proof fn law_close_active_moves_left<T>(docs: Seq<T>, idx: usize)
    requires
        docs.len() <= usize::MAX,
        idx < docs.len(),
        docs.len() > 1,
    ensures
        active_after_close(Some(idx), idx, docs.len() as usize) matches Some(b) && docs.remove(
            idx as int,
        )[b as int] == if idx == 0 {
            docs[1]
        } else {
            docs[idx - 1]
        },
{
    let r = docs.remove(idx as int);
    if idx == 0 {
        assert(r[0] == docs[1]);
    } else {
        assert(r[idx - 1] == docs[idx - 1]);
    }
}

/// The root of the repository the workbench works on: the one that owns
/// the active document, else the first one.
pub open spec fn active_root(docs: Seq<Document>, active: Option<usize>, repos: Seq<Repository>) -> Option<Seq<char>> {
    let first = if repos.len() > 0 {
        Some(repos[0].root@)
    } else {
        None
    };
    match active {
        Some(i) => if i < docs.len() {
            match git::owner(git::repo_views(repos), docs[i as int].path@) {
                Some(j) => Some(repos[j].root@),
                None => first,
            }
        } else {
            first
        },
        None => first,
    }
}

pub fn active_repo_root(editors: &Editors, model: &git::Model) -> (r: Option<String>)
    ensures
        match active_root(editors.documents@, editors.active, model.repos@) {
            Some(p) => r matches Some(x) && x@ == p,
            None => r is None,
        },
{
    if let Some(idx) = editors.active {
        if idx < editors.documents.len() {
            if let Some(repo) = model.repo_for(editors.documents[idx].path.as_str()) {
                proof {
                    let rs = git::repo_views(model.repos@);
                    git::law_owner_is_longest_root(rs, editors.documents@[idx as int].path@);
                }
                return Some(text::owned(repo.root.as_str()));
            }
        }
    }
    if model.repos.len() > 0 {
        Some(text::owned(model.repos[0].root.as_str()))
    } else {
        None
    }
}

/// What the commit button does for a repository and the message typed for
/// it.
pub enum CommitPlan {
    /// The message is blank.
    EmptyMessage,
    /// Nothing is staged and nothing changed.
    NothingToCommit,
    /// Commit with the trimmed message: the staged changes, or every
    /// tracked change (`all`) when nothing is staged.
    Commit { message: String, all: bool },
}

pub fn commit_plan(message: &str, repo: &Repository) -> (r: CommitPlan)
    ensures
        text::trim(message@).len() == 0 ==> r is EmptyMessage,
        text::trim(message@).len() > 0 && repo.index@.len() == 0 && repo.working@.len() == 0
            && repo.merge@.len() == 0 ==> r is NothingToCommit,
        text::trim(message@).len() > 0 && !(repo.index@.len() == 0 && repo.working@.len() == 0
            && repo.merge@.len() == 0) ==> (r matches CommitPlan::Commit { message: m, all }
            && m@ == text::trim(message@) && all == (repo.index@.len() == 0)),
{
    let m = text::trim_string(message);
    if m.as_str().is_empty() {
        return CommitPlan::EmptyMessage;
    }
    let all = repo.index.len() == 0;
    if all && repo.working.len() == 0 && repo.merge.len() == 0 {
        return CommitPlan::NothingToCommit;
    }
    CommitPlan::Commit { message: m, all }
}

/// The status message of a failed commit: its first line.
pub open spec fn commit_failed(err: Seq<char>) -> Seq<char> {
    "Commit failed: "@ + if text::lines(err).len() > 0 {
        text::lines(err)[0]
    } else {
        Seq::empty()
    }
}

pub fn commit_failed_message(err: &str) -> (r: String)
    ensures
        r@ == commit_failed(err@),
{
    let v = text::chars_of(err);
    let ls = text::line_ranges(&v);
    let mut r = text::owned("Commit failed: ");
    if ls.len() > 0 {
        let (a, b) = ls[0];
        assert(text::lines(v@)[0] == v@.subrange(a as int, b as int));
        let first = text::string_of(&v, a, b);
        text::push_str(&mut r, first.as_str());
    } else {
        assert(r@ + Seq::<char>::empty() =~= r@);
    }
    r
}

impl Editors {
    /// Makes the tab of the document at `path` the active one, when it is
    /// open; says whether it was.
    pub fn activate(&mut self, path: &str) -> (r: bool)
        ensures
            final(self).documents@ == old(self).documents@,
            r == position_of(old(self).documents@, path@, 0) is Some,
            match position_of(old(self).documents@, path@, 0) {
                Some(i) => final(self).active == Some(i as usize),
                None => final(self).active == old(self).active,
            },
    {
        match self.find(path) {
            Some(i) => {
                self.active = Some(i);
                true
            },
            None => false,
        }
    }

    /// The tab of the diff view of the document at `path`, if one is open.
    pub fn find_diff(&self, path: &str) -> (r: Option<usize>)
        ensures
            match r {
                Some(i) => i < self.documents@.len() && paths::path_eq(self.documents@[i as int].path@, path@)
                    && self.documents@[i as int].diff_base is Some && forall|j: int|
                    0 <= j < i ==> !(paths::path_eq(#[trigger] self.documents@[j].path@, path@)
                        && self.documents@[j].diff_base is Some),
                None => forall|j: int|
                    0 <= j < self.documents@.len() ==> !(paths::path_eq(
                        #[trigger] self.documents@[j].path@,
                        path@,
                    ) && self.documents@[j].diff_base is Some),
            },
    {
        let mut i: usize = 0;
        while i < self.documents.len()
            invariant
                0 <= i <= self.documents@.len(),
                forall|j: int|
                    0 <= j < i ==> !(paths::path_eq(#[trigger] self.documents@[j].path@, path@)
                        && self.documents@[j].diff_base is Some),
            decreases self.documents@.len() - i,
        {
            if self.documents[i].diff_base.is_some() && paths::same_path(
                self.documents[i].path.as_str(),
                path,
            ) {
                return Some(i);
            }
            i += 1;
        }
        None
    }

    /// Pins tab `idx`, or unpins it when it was pinned.
    pub fn toggle_pin(&mut self, idx: usize)
        ensures
            final(self).active == old(self).active,
            final(self).documents@.len() == old(self).documents@.len(),
            forall|j: int|
                0 <= j < old(self).documents@.len() && j != idx ==> #[trigger] final(self).documents@[j]
                    == old(self).documents@[j],
            idx < old(self).documents@.len() ==> {
                let a = final(self).documents@[idx as int];
                let b = old(self).documents@[idx as int];
                &&& a.pinned == !b.pinned
                &&& a.path == b.path && a.text == b.text && a.saved_text == b.saved_text
                &&& a.dirty == b.dirty && a.diff_base == b.diff_base
            },
    {
        if idx < self.documents.len() {
            let p = self.documents[idx].pinned;
            self.documents[idx].pinned = !p;
        }
    }
}

/// What a choice in a tab's context menu does.
#[derive(Clone, Copy, Debug, PartialEq, Eq, Structural)]
pub enum TabMenuAction {
    Close,
    CloseOthers,
    CloseAll,
    TogglePin,
}

/// The items of a tab's context menu: Close, Close Others, Close All, a
/// separator, and Pin (Unpin for a pinned tab).
pub fn tab_menu_items(pinned: bool) -> (r: Vec<ContextMenuItem<'static>>)
    ensures
        r@.len() == 5,
        r@[0].label@ == "Close"@,
        r@[0].shortcut matches Some(k) && k@ == "\u{2318}W"@,
        r@[1].label@ == "Close Others"@ && r@[1].shortcut is None,
        r@[2].label@ == "Close All"@ && r@[2].shortcut is None,
        r@[3].separator,
        r@[4].label@ == (if pinned {
            "Unpin"@
        } else {
            "Pin"@
        }),
        forall|i: int| 0 <= i < 5 && i != 3 ==> !(#[trigger] r@[i]).separator && !r@[i].disabled,
{
    let mut r: Vec<ContextMenuItem<'static>> = Vec::new();
    r.push(ContextMenuItem::new("Close").shortcut("\u{2318}W"));
    r.push(ContextMenuItem::new("Close Others"));
    r.push(ContextMenuItem::new("Close All"));
    r.push(ContextMenuItem::separator());
    r.push(ContextMenuItem::new(if pinned { "Unpin" } else { "Pin" }));
    r
}

/// What the item chosen in a tab's context menu does; the separator does
/// nothing.
pub fn tab_menu_action(choice: usize) -> (r: Option<TabMenuAction>)
    ensures
        r == (if choice == 0 {
            Some(TabMenuAction::Close)
        } else if choice == 1 {
            Some(TabMenuAction::CloseOthers)
        } else if choice == 2 {
            Some(TabMenuAction::CloseAll)
        } else if choice == 4 {
            Some(TabMenuAction::TogglePin)
        } else {
            None
        }),
{
    if choice == 0 {
        Some(TabMenuAction::Close)
    } else if choice == 1 {
        Some(TabMenuAction::CloseOthers)
    } else if choice == 2 {
        Some(TabMenuAction::CloseAll)
    } else if choice == 4 {
        Some(TabMenuAction::TogglePin)
    } else {
        None
    }
}

/// The mode of the item chosen in the commit button's dropdown: Commit,
/// Commit & Push, Commit & Sync.
pub fn commit_menu_mode(choice: usize) -> (r: CommitMode)
    ensures
        r == (if choice == 1 {
            CommitMode::AndPush
        } else if choice == 2 {
            CommitMode::AndSync
        } else {
            CommitMode::Plain
        }),
{
    if choice == 1 {
        CommitMode::AndPush
    } else if choice == 2 {
        CommitMode::AndSync
    } else {
        CommitMode::Plain
    }
}

/// The status message after trying to check out branch `name`.
pub open spec fn checkout_message_of(name: Seq<char>, switched: bool) -> Seq<char> {
    if switched {
        "Switched to branch '"@ + name + "'"@
    } else {
        "Could not switch to '"@ + name + "' (uncommitted changes?)"@
    }
}

pub fn checkout_message(name: &str, switched: bool) -> (r: String)
    ensures
        r@ == checkout_message_of(name@, switched),
{
    let mut r = if switched {
        text::owned("Switched to branch '")
    } else {
        text::owned("Could not switch to '")
    };
    text::push_str(&mut r, name);
    if switched {
        text::push_str(&mut r, "'");
    } else {
        text::push_str(&mut r, "' (uncommitted changes?)");
    }
    r
}

/// The first seven characters of a commit id, its short form.
pub open spec fn short_id(id: Seq<char>) -> Seq<char> {
    if id.len() <= 7 {
        id
    } else {
        id.take(7)
    }
}

/// The title of the diff of file `rel` between a commit's parent and the
/// commit: the file's name with each short id, `name (parent) ↔ name (commit)`.
pub open spec fn commit_diff_title_of(rel: Seq<char>, parent: Seq<char>, commit: Seq<char>) -> Seq<char> {
    let name = text::after_last(rel, "/"@);
    name + " ("@ + short_id(parent) + ") \u{2194} "@ + name + " ("@ + short_id(commit) + ")"@
}

fn push_short_id(s: &mut String, id: &str)
    ensures
        final(s)@ == old(s)@ + short_id(id@),
{
    let v = text::chars_of(id);
    let n: usize = if v.len() <= 7 { v.len() } else { 7 };
    let part = text::string_of(&v, 0, n);
    assert(v@.subrange(0, n as int) =~= short_id(id@));
    text::push_str(s, part.as_str());
}

pub fn commit_diff_title(rel: &str, parent: &str, commit: &str) -> (r: String)
    ensures
        r@ == commit_diff_title_of(rel@, parent@, commit@),
{
    let v = text::chars_of(rel);
    let slash = text::chars_of("/");
    let a = text::after_last_range(&v, 0, v.len(), &slash);
    assert(v@.subrange(0, v@.len() as int) =~= rel@);
    let name = text::string_of(&v, a, v.len());
    let mut r = text::owned(name.as_str());
    text::push_str(&mut r, " (");
    push_short_id(&mut r, parent);
    text::push_str(&mut r, ") \u{2194} ");
    text::push_str(&mut r, name.as_str());
    text::push_str(&mut r, " (");
    push_short_id(&mut r, commit);
    text::push_str(&mut r, ")");
    r
}

/// The keyboard shortcuts pressed in one frame: ⇧⌘P (palette), ⌘S (save),
/// ⌥⌘S (save all), ⌘B (sidebar), ⌘W (close editor), ⇧⌘F (search) and
/// ⇧⌘E (explorer).
#[derive(Clone, Copy, Debug)]
pub struct ShortcutKeys {
    pub palette: bool,
    pub save: bool,
    pub save_all: bool,
    pub toggle_sidebar: bool,
    pub close_editor: bool,
    pub show_search: bool,
    pub show_explorer: bool,
}

/// What a keyboard shortcut asks for.
#[derive(Clone, Copy, Debug, PartialEq, Eq, Structural)]
pub enum ShortcutAction {
    TogglePalette,
    Save,
    SaveAll,
    ToggleSidebar,
    CloseEditor,
    ShowSearch,
    ShowExplorer,
}

/// `a` when `pressed`, else nothing.
pub open spec fn when_pressed(pressed: bool, a: ShortcutAction) -> Seq<ShortcutAction> {
    if pressed {
        seq![a]
    } else {
        Seq::empty()
    }
}

/// The actions of a frame's shortcuts, in the order they are handled: the
/// palette shortcut alone when pressed (it toggles the palette even while
/// it is open); nothing else while the palette is open; otherwise save,
/// save all, sidebar, close editor, search and explorer, each when pressed.
pub open spec fn shortcut_actions_of(keys: ShortcutKeys, palette_visible: bool) -> Seq<ShortcutAction> {
    if keys.palette {
        seq![ShortcutAction::TogglePalette]
    } else if palette_visible {
        Seq::empty()
    } else {
        when_pressed(keys.save, ShortcutAction::Save) + when_pressed(keys.save_all, ShortcutAction::SaveAll)
            + when_pressed(keys.toggle_sidebar, ShortcutAction::ToggleSidebar) + when_pressed(
            keys.close_editor,
            ShortcutAction::CloseEditor,
        ) + when_pressed(keys.show_search, ShortcutAction::ShowSearch) + when_pressed(
            keys.show_explorer,
            ShortcutAction::ShowExplorer,
        )
    }
}

fn push_when(v: &mut Vec<ShortcutAction>, pressed: bool, a: ShortcutAction)
    ensures
        final(v)@ == old(v)@ + when_pressed(pressed, a),
{
    if pressed {
        v.push(a);
        assert(final(v)@ =~= old(v)@ + seq![a]);
    } else {
        assert(v@ =~= v@ + Seq::<ShortcutAction>::empty());
    }
}

pub fn shortcut_actions(keys: ShortcutKeys, palette_visible: bool) -> (r: Vec<ShortcutAction>)
    ensures
        r@ == shortcut_actions_of(keys, palette_visible),
{
    let mut v: Vec<ShortcutAction> = Vec::new();
    if keys.palette {
        v.push(ShortcutAction::TogglePalette);
        assert(v@ =~= seq![ShortcutAction::TogglePalette]);
        return v;
    }
    if palette_visible {
        assert(v@ =~= Seq::<ShortcutAction>::empty());
        return v;
    }
    assert(v@ =~= Seq::<ShortcutAction>::empty());
    push_when(&mut v, keys.save, ShortcutAction::Save);
    assert(v@ =~= when_pressed(keys.save, ShortcutAction::Save));
    push_when(&mut v, keys.save_all, ShortcutAction::SaveAll);
    push_when(&mut v, keys.toggle_sidebar, ShortcutAction::ToggleSidebar);
    push_when(&mut v, keys.close_editor, ShortcutAction::CloseEditor);
    push_when(&mut v, keys.show_search, ShortcutAction::ShowSearch);
    push_when(&mut v, keys.show_explorer, ShortcutAction::ShowExplorer);
    v
}

/// The name in the title bar's command center: the workspace folder's
/// name, or the application's when no folder is open (or it has none).
pub open spec fn workspace_title_of(root: Option<Seq<char>>) -> Seq<char> {
    match root {
        Some(r) => match paths::file_name(r) {
            Some(n) => n,
            None => "vscode-rust"@,
        },
        None => "vscode-rust"@,
    }
}

pub fn workspace_title(root: Option<&str>) -> (r: String)
    ensures
        r@ == workspace_title_of(match root {
            Some(p) => Some(p@),
            None => None,
        }),
{
    match root {
        Some(p) => match paths::path_file_name(p) {
            Some(n) => n,
            None => text::owned("vscode-rust"),
        },
        None => text::owned("vscode-rust"),
    }
}

/// What the editor area shows.
#[derive(Clone, Copy, Debug, PartialEq, Eq, Structural)]
pub enum EditorArea {
    /// The active document's editor.
    Document(usize),
    /// The welcome page.
    Welcome,
    /// The empty editor's watermark and shortcut hints.
    Hints,
}

/// The editor area: the active document when there is one, else the
/// welcome page when it was not closed, else the hints.
pub fn editor_area(active: Option<usize>, show_welcome: bool) -> (r: EditorArea)
    ensures
        r == (match active {
            Some(i) => EditorArea::Document(i),
            None => if show_welcome {
                EditorArea::Welcome
            } else {
                EditorArea::Hints
            },
        }),
{
    match active {
        Some(i) => EditorArea::Document(i),
        None => if show_welcome {
            EditorArea::Welcome
        } else {
            EditorArea::Hints
        },
    }
}

/// Whether the tab strip shows a Welcome tab: only while no document is
/// open and the welcome page was not closed.
pub fn shows_welcome_tab(show_welcome: bool, documents: usize) -> (r: bool)
    ensures
        r == (show_welcome && documents == 0),
{
    show_welcome && documents == 0
}

/// The `git` runs of the status bar's sync button: pull then push when
/// the branch has an upstream; push alone (publish) when it has none.
pub fn sync_runs(has_upstream: bool) -> (r: Vec<Vec<String>>)
    ensures
        has_upstream ==> r@.len() == 2 && r@[0]@.len() == 2 && r@[0]@[0]@ == "pull"@ && r@[0]@[1]@
            == "--ff-only"@ && r@[1]@.len() == 1 && r@[1]@[0]@ == "push"@,
        !has_upstream ==> r@.len() == 1 && r@[0]@.len() == 1 && r@[0]@[0]@ == "push"@,
{
    let mut r: Vec<Vec<String>> = Vec::new();
    if has_upstream {
        r.push(git::status::pull());
    }
    r.push(git::status::push());
    r
}

proof fn lemma_position_push(s: Seq<Document>, d: Document, p: Seq<char>, i: int)
    requires
        0 <= i <= s.len(),
        paths::path_eq(d.path@, p),
    ensures
        position_of(s.push(d), p, i) matches Some(j) && i <= j <= s.len() && paths::path_eq(
            s.push(d)[j].path@,
            p,
        ),
        position_of(s, p, i) is None ==> position_of(s.push(d), p, i) == Some(s.len() as int),
        position_of(s, p, i) matches Some(j) ==> position_of(s.push(d), p, i) == Some(j),
    decreases s.len() - i,
{
    if i < s.len() {
        assert(s.push(d)[i] == s[i]);
        if !paths::path_eq(s[i].path@, p) {
            lemma_position_push(s, d, p, i + 1);
        }
    } else {
        assert(s.push(d)[i] == d);
    }
}

/// A document that was opened is found again by its path: after
/// `open(d)`, `find` names a tab holding a document at `d`'s path, the new
/// tab unless an earlier tab already held one, and then that earlier tab.
pub proof fn law_open_then_find(docs: Seq<Document>, d: Document)
    ensures
        position_of(docs.push(d), d.path@, 0) matches Some(j) && paths::path_eq(
            docs.push(d)[j].path@,
            d.path@,
        ),
        position_of(docs, d.path@, 0) is None ==> position_of(docs.push(d), d.path@, 0) == Some(
            docs.len() as int,
        ),
        position_of(docs, d.path@, 0) is Some ==> position_of(docs.push(d), d.path@, 0)
            == position_of(docs, d.path@, 0),
{
    lemma_position_push(docs, d, d.path@, 0);
}

/// A welcome-page link's text split at its first double space into the
/// label and the shortcut shown after it (empty when there is none).
pub open spec fn welcome_link_parts_of(t: Seq<char>) -> (Seq<char>, Seq<char>) {
    match text::split_once(t, "  "@) {
        Some((a, b)) => (a, b),
        None => (t, Seq::empty()),
    }
}

pub fn welcome_link_parts(t: &str) -> (r: (String, String))
    ensures
        (r.0@, r.1@) == welcome_link_parts_of(t@),
{
    let v = text::chars_of(t);
    let sep = text::chars_of("  ");
    proof {
        reveal_strlit("  ");
    }
    match text::find_exec(&v, &sep, 0) {
        Some(k) => {
            proof {
                text::lemma_find_from_props(v@, sep@, 0);
            }
            let n = v.len();
            let a = text::string_of(&v, 0, k);
            let b = text::string_of(&v, k + sep.len(), n);
            (a, b)
        },
        None => (text::owned(t), String::new()),
    }
}

/// Which items of the File menu are enabled: Save while a document is
/// active, Save All while any is open.
pub fn file_menu_enabled(e: &Editors) -> (r: (bool, bool))
    ensures
        r == (e.active is Some, e.documents@.len() > 0),
{
    (e.active.is_some(), e.documents.len() > 0)
}

/// The tabs whose documents have unsaved changes, in tab order: the ones
/// Save All writes.
pub open spec fn dirty_tabs_of(docs: Seq<Document>) -> Seq<usize>
    decreases docs.len(),
{
    if docs.len() == 0 {
        Seq::empty()
    } else if docs.last().dirty {
        dirty_tabs_of(docs.drop_last()).push((docs.len() - 1) as usize)
    } else {
        dirty_tabs_of(docs.drop_last())
    }
}

impl Editors {
    /// The tabs that Save All writes.
    pub fn dirty_tabs(&self) -> (r: Vec<usize>)
        ensures
            r@ == dirty_tabs_of(self.documents@),
    {
        let mut r: Vec<usize> = Vec::new();
        let mut i: usize = 0;
        assert(self.documents@.take(0) =~= Seq::<Document>::empty());
        while i < self.documents.len()
            invariant
                0 <= i <= self.documents@.len(),
                r@ == dirty_tabs_of(self.documents@.take(i as int)),
            decreases self.documents@.len() - i,
        {
            assert(self.documents@.take(i + 1).drop_last() =~= self.documents@.take(i as int));
            if self.documents[i].dirty {
                r.push(i);
            }
            i += 1;
        }
        assert(self.documents@.take(i as int) =~= self.documents@);
        r
    }
}

} // verus!

//! Context menus, tab strips, trees, select boxes and tables: their settings,
//! their answers, and what one frame of pointer input does to them.

use vstd::prelude::*;
use vstd::relations::{sorted_by, total_ordering};
use vstd::seq_lib::{lemma_sorted_unique, to_multiset_build, to_multiset_insert};

use crate::text;

verus! {

/// One row of a context menu, or a separator.
#[derive(Clone, Copy, Debug)]
pub struct ContextMenuItem<'a> {
    pub label: &'a str,
    pub icon: Option<char>,
    pub shortcut: Option<&'a str>,
    pub disabled: bool,
    /// Render a separator instead of an item; the other fields are then
    /// ignored.
    pub separator: bool,
}

impl<'a> ContextMenuItem<'a> {
    /// An enabled item with a label only.
    pub fn new(label: &'a str) -> (r: Self)
        ensures
            r == (ContextMenuItem {
                label,
                icon: None,
                shortcut: None,
                disabled: false,
                separator: false,
            }),
    {
        ContextMenuItem { label, icon: None, shortcut: None, disabled: false, separator: false }
    }

    /// A separator line.
    pub fn separator() -> (r: Self)
        ensures
            r.label@ == ""@,
            r.icon is None,
            r.shortcut is None,
            !r.disabled,
            r.separator,
    {
        ContextMenuItem { label: "", icon: None, shortcut: None, disabled: false, separator: true }
    }

    pub fn icon(self, glyph: char) -> (r: Self)
        ensures
            r == (ContextMenuItem { icon: Some(glyph), ..self }),
    {
        ContextMenuItem { icon: Some(glyph), ..self }
    }

    pub fn shortcut(self, text: &'a str) -> (r: Self)
        ensures
            r == (ContextMenuItem { shortcut: Some(text), ..self }),
    {
        ContextMenuItem { shortcut: Some(text), ..self }
    }

    pub fn disabled(self) -> (r: Self)
        ensures
            r == (ContextMenuItem { disabled: true, ..self }),
    {
        ContextMenuItem { disabled: true, ..self }
    }
}

/// What a context menu answers.
#[derive(Debug)]
pub struct ContextMenuResponse {
    /// Index into all the items (separators included) of the item the
    /// user activated, if any.
    pub selected: Option<usize>,
}

impl Default for ContextMenuResponse {
    fn default() -> (r: Self)
        ensures
            r.selected is None,
    {
        ContextMenuResponse { selected: None }
    }
}

/// One tab of a tab strip.
#[derive(Clone, Copy, Debug)]
pub struct Tab<'a> {
    pub label: &'a str,
    pub icon: Option<char>,
    pub closable: bool,
    pub dirty: bool,
    pub disabled: bool,
    /// A preview tab (label in italics) for a file opened with one click.
    pub preview: bool,
    /// A pinned tab: on the left, with a pin instead of a close button.
    pub pinned: bool,
    /// Shown on hover.
    pub tooltip: Option<&'a str>,
}

impl<'a> Tab<'a> {
    /// A closable, clean, enabled tab with a label only.
    pub fn new(label: &'a str) -> (r: Self)
        ensures
            r == (Tab {
                label,
                icon: None,
                closable: true,
                dirty: false,
                disabled: false,
                preview: false,
                pinned: false,
                tooltip: None,
            }),
    {
        Tab {
            label,
            icon: None,
            closable: true,
            dirty: false,
            disabled: false,
            preview: false,
            pinned: false,
            tooltip: None,
        }
    }

    pub fn icon(self, glyph: char) -> (r: Self)
        ensures
            r == (Tab { icon: Some(glyph), ..self }),
    {
        Tab { icon: Some(glyph), ..self }
    }

    pub fn dirty(self) -> (r: Self)
        ensures
            r == (Tab { dirty: true, ..self }),
    {
        Tab { dirty: true, ..self }
    }

    pub fn closable(self, value: bool) -> (r: Self)
        ensures
            r == (Tab { closable: value, ..self }),
    {
        Tab { closable: value, ..self }
    }

    pub fn disabled(self) -> (r: Self)
        ensures
            r == (Tab { disabled: true, ..self }),
    {
        Tab { disabled: true, ..self }
    }

    pub fn preview(self) -> (r: Self)
        ensures
            r == (Tab { preview: true, ..self }),
    {
        Tab { preview: true, ..self }
    }

    pub fn pinned(self) -> (r: Self)
        ensures
            r == (Tab { pinned: true, ..self }),
    {
        Tab { pinned: true, ..self }
    }

    pub fn tooltip(self, text: &'a str) -> (r: Self)
        ensures
            r == (Tab { tooltip: Some(text), ..self }),
    {
        Tab { tooltip: Some(text), ..self }
    }
}

/// What a tab strip answers: the index of the tab clicked, asked to
/// close, right-clicked or double-clicked this frame.
#[derive(Debug)]
pub struct TabsResponse {
    pub clicked: Option<usize>,
    pub close_requested: Option<usize>,
    pub right_clicked: Option<usize>,
    pub double_clicked: Option<usize>,
}

impl Default for TabsResponse {
    fn default() -> (r: Self)
        ensures
            r.clicked is None && r.close_requested is None && r.right_clicked is None
                && r.double_clicked is None,
    {
        TabsResponse { clicked: None, close_requested: None, right_clicked: None, double_clicked: None }
    }
}

/// One item of a tree, with its children.
#[derive(Debug)]
pub struct TreeItem {
    pub label: String,
    pub icon: Option<char>,
    pub open: bool,
    pub disabled: bool,
    pub children: Vec<TreeItem>,
}

impl TreeItem {
    /// A closed, enabled item without children.
    pub fn leaf(label: String, icon: Option<char>) -> (r: Self)
        ensures
            r.label@ == label@,
            r.icon == icon,
            !r.open,
            !r.disabled,
            r.children@.len() == 0,
    {
        TreeItem { label, icon, open: false, disabled: false, children: Vec::new() }
    }

    /// A closed, enabled item with `children`.
    pub fn folder(label: String, icon: Option<char>, children: Vec<TreeItem>) -> (r: Self)
        ensures
            r.label@ == label@,
            r.icon == icon,
            !r.open,
            !r.disabled,
            r.children@ == children@,
    {
        TreeItem { label, icon, open: false, disabled: false, children }
    }

    /// The same item, opened.
    pub fn open(self) -> (r: Self)
        ensures
            r.label == self.label,
            r.icon == self.icon,
            r.open,
            r.disabled == self.disabled,
            r.children == self.children,
    {
        TreeItem { open: true, ..self }
    }
}

/// What a tree answers: the path of indices (root child first) of the
/// item clicked, right-clicked or double-clicked this frame.
#[derive(Debug)]
pub struct TreeResponse {
    pub clicked: Option<Vec<usize>>,
    pub right_clicked: Option<Vec<usize>>,
    pub double_clicked: Option<Vec<usize>>,
}

impl Default for TreeResponse {
    fn default() -> (r: Self)
        ensures
            r.clicked is None && r.right_clicked is None && r.double_clicked is None,
    {
        TreeResponse { clicked: None, right_clicked: None, double_clicked: None }
    }
}

/// What a multi-select answers.
#[derive(Debug)]
pub struct MultiSelectResponse {
    pub changed: Option<Vec<usize>>,
    pub opened: bool,
    pub dismissed: bool,
    pub count: usize,
}

impl Default for MultiSelectResponse {
    fn default() -> (r: Self)
        ensures
            r.changed is None && !r.opened && !r.dismissed && r.count == 0,
    {
        MultiSelectResponse { changed: None, opened: false, dismissed: false, count: 0 }
    }
}

/// What a single-select answers.
#[derive(Debug)]
pub struct SingleSelectResponse {
    pub changed: Option<usize>,
    pub opened: bool,
    pub dismissed: bool,
}

impl Default for SingleSelectResponse {
    fn default() -> (r: Self)
        ensures
            r.changed is None && !r.opened && !r.dismissed,
    {
        SingleSelectResponse { changed: None, opened: false, dismissed: false }
    }
}

/// What a table answers: the row clicked, right-clicked or double-clicked.
#[derive(Debug)]
pub struct TableResponse {
    pub clicked_row: Option<usize>,
    pub right_clicked_row: Option<usize>,
    pub double_clicked_row: Option<usize>,
}

impl Default for TableResponse {
    fn default() -> (r: Self)
        ensures
            r.clicked_row is None && r.right_clicked_row is None && r.double_clicked_row is None,
    {
        TableResponse { clicked_row: None, right_clicked_row: None, double_clicked_row: None }
    }
}

/// What the pointer did to a select box in one frame: whether its trigger
/// was clicked, and the row of its popup that was clicked, if any.
#[derive(Clone, Copy, Debug)]
pub struct SelectClicks {
    pub trigger: bool,
    pub row: Option<usize>,
}

/// Whether a select's popup is open after this frame's click on its
/// trigger: a click on an enabled trigger flips it.
pub open spec fn popup_open(open: bool, disabled: bool, trigger: bool) -> bool {
    if trigger && !disabled {
        !open
    } else {
        open
    }
}

/// The row picked this frame: a clicked row of the popup, when the popup is
/// shown and the row is one of the options.
pub open spec fn picked_row(open: bool, disabled: bool, clicks: SelectClicks, count: usize) -> Option<usize> {
    match clicks.row {
        Some(i) => if popup_open(open, disabled, clicks.trigger) && !disabled && i < count {
            Some(i)
        } else {
            None
        },
        None => None,
    }
}

/// Applies a click on an enabled trigger to the popup's state, and says
/// whether it opened or dismissed the popup.
fn toggle_popup(open: &mut bool, disabled: bool, trigger: bool) -> (r: (bool, bool))
    ensures
        *final(open) == popup_open(*old(open), disabled, trigger),
        r.0 == (trigger && !disabled && !*old(open)),
        r.1 == (trigger && !disabled && *old(open)),
{
    if trigger && !disabled {
        *open = !*open;
        if *open {
            (true, false)
        } else {
            (false, true)
        }
    } else {
        (false, false)
    }
}

/// One frame of a single-select over `option_count` options: a click on
/// the trigger opens or closes the popup; a click on a row of the shown
/// popup selects that option and closes the popup.
pub fn single_select(
    option_count: usize,
    disabled: bool,
    selected: &mut Option<usize>,
    open: &mut bool,
    clicks: SelectClicks,
) -> (r: SingleSelectResponse)
    ensures
        r.opened == (clicks.trigger && !disabled && !*old(open)),
        r.dismissed == ((clicks.trigger && !disabled && *old(open)) || picked_row(
            *old(open),
            disabled,
            clicks,
            option_count,
        ) is Some),
        r.changed == picked_row(*old(open), disabled, clicks, option_count),
        *final(selected) == (match picked_row(*old(open), disabled, clicks, option_count) {
            Some(i) => Some(i),
            None => *old(selected),
        }),
        *final(open) == (popup_open(*old(open), disabled, clicks.trigger) && picked_row(
            *old(open),
            disabled,
            clicks,
            option_count,
        ) is None),
{
    let (opened, dismissed) = toggle_popup(open, disabled, clicks.trigger);
    let mut out = SingleSelectResponse { changed: None, opened, dismissed };
    if *open && !disabled {
        if let Some(i) = clicks.row {
            if i < option_count {
                *selected = Some(i);
                *open = false;
                out.changed = Some(i);
                out.dismissed = true;
            }
        }
    }
    out
}

/// The text on a single-select's trigger, and whether it is the
/// placeholder: the selected option, or the placeholder when no option
/// (or one past the list) is selected.
pub fn single_select_label(options: &[&str], placeholder: &str, selected: Option<usize>) -> (r: (
    String,
    bool,
))
    ensures
        (selected matches Some(i) && i < options@.len()) ==> (selected matches Some(i) && r.0@
            == options@[i as int]@ && !r.1),
        !(selected matches Some(i) && i < options@.len()) ==> r.0@ == placeholder@ && r.1,
{
    match selected {
        Some(i) => if i < options.len() {
            (text::owned(options[i]), false)
        } else {
            (text::owned(placeholder), true)
        },
        None => (text::owned(placeholder), true),
    }
}

/// The order a multi-select keeps its selection in: ascending.
pub open spec fn index_le() -> spec_fn(usize, usize) -> bool {
    |a: usize, b: usize| a <= b
}

/// Whether an index is another one than `i`.
pub open spec fn other_than(i: usize) -> spec_fn(usize) -> bool {
    |j: usize| j != i
}

/// The selection after a click on row `i`: without `i` when it held it,
/// otherwise with `i` added and the whole selection in ascending order.
pub open spec fn selection_after_click(s: Seq<usize>, i: usize) -> Seq<usize> {
    if s.contains(i) {
        s.filter(other_than(i))
    } else {
        s.push(i).sort_by(index_le())
    }
}

proof fn lemma_index_le_total()
    ensures
        total_ordering(index_le()),
{
}

/// `src` in ascending order.
fn sorted_indices(src: &Vec<usize>) -> (r: Vec<usize>)
    ensures
        r@ == src@.sort_by(index_le()),
{
    let mut out: Vec<usize> = Vec::new();
    let mut n: usize = 0;
    assert(src@.take(0) =~= Seq::<usize>::empty());
    while n < src.len()
        invariant
            0 <= n <= src@.len(),
            sorted_by(out@, index_le()),
            out@.to_multiset() == src@.take(n as int).to_multiset(),
        decreases src@.len() - n,
    {
        let x = src[n];
        let mut k: usize = 0;
        while k < out.len() && out[k] <= x
            invariant
                0 <= k <= out@.len(),
                forall|j: int| 0 <= j < k ==> out@[j] <= x,
            decreases out@.len() - k,
        {
            k += 1;
        }
        let ghost before = out@;
        assert(forall|j: int| k <= j < before.len() ==> before[j] > x) by {
            if k < before.len() {
                assert forall|j: int| k <= j < before.len() implies before[j] > x by {
                    if j > k {
                        assert((index_le())(before[k as int], before[j]));
                    }
                }
            }
        }
        out.insert(k, x);
        proof {
            assert forall|a: int, b: int| 0 <= a < b < out@.len() implies #[trigger] (index_le())(
                out@[a],
                out@[b],
            ) by {
                if b < k {
                    assert((index_le())(before[a], before[b]));
                } else if b == k {
                } else if a < k {
                    assert(out@[b] == before[b - 1]);
                } else if a == k {
                    assert(out@[b] == before[b - 1]);
                } else {
                    assert((index_le())(before[a - 1], before[b - 1]));
                }
            }
            to_multiset_insert(before, k as int, x);
            assert(src@.take(n + 1) =~= src@.take(n as int).push(x));
            to_multiset_build(src@.take(n as int), x);
        }
        n += 1;
    }
    proof {
        assert(src@.take(n as int) =~= src@);
        lemma_index_le_total();
        src@.lemma_sort_by_ensures(index_le());
        lemma_sorted_unique(out@, src@.sort_by(index_le()), index_le());
    }
    out
}

/// The selection after a click on row `i`.
fn click_selection(sel: &Vec<usize>, i: usize) -> (r: Vec<usize>)
    ensures
        r@ == selection_after_click(sel@, i),
{
    let mut found = false;
    let mut k: usize = 0;
    while k < sel.len()
        invariant
            0 <= k <= sel@.len(),
            found == sel@.take(k as int).contains(i),
        decreases sel@.len() - k,
    {
        let ghost t = sel@.take(k as int);
        assert(sel@.take(k + 1) =~= t.push(sel@[k as int]));
        assert(t.push(sel@[k as int]).contains(i) <==> (t.contains(i) || sel@[k as int] == i)) by {
            if t.contains(i) {
                let w = choose|w: int| 0 <= w < t.len() && t[w] == i;
                assert(t.push(sel@[k as int])[w] == i);
            }
            if sel@[k as int] == i {
                assert(t.push(sel@[k as int])[t.len() as int] == i);
            }
            if t.push(sel@[k as int]).contains(i) {
                let w = choose|w: int| 0 <= w < t.len() + 1 && t.push(sel@[k as int])[w] == i;
                if w < t.len() {
                    assert(t[w] == i);
                }
            }
        }
        if sel[k] == i {
            found = true;
        }
        k += 1;
    }
    assert(sel@.take(k as int) =~= sel@);
    let ghost keep = other_than(i);
    let mut out: Vec<usize> = Vec::new();
    let mut n: usize = 0;
    if found {
        assert(sel@.take(0).filter(keep) =~= Seq::<usize>::empty());
        while n < sel.len()
            invariant
                0 <= n <= sel@.len(),
                keep == other_than(i),
                out@ == sel@.take(n as int).filter(keep),
            decreases sel@.len() - n,
        {
            let x = sel[n];
            assert(sel@.take(n + 1) =~= sel@.take(n as int).push(x));
            proof {
                sel@.take(n as int).lemma_filter_push(x, keep);
            }
            if x != i {
                out.push(x);
            }
            n += 1;
        }
        assert(sel@.take(n as int) =~= sel@);
        out
    } else {
        while n < sel.len()
            invariant
                0 <= n <= sel@.len(),
                out@ == sel@.take(n as int),
            decreases sel@.len() - n,
        {
            out.push(sel[n]);
            assert(sel@.take(n + 1) =~= out@);
            n += 1;
        }
        assert(sel@.take(n as int) =~= sel@);
        out.push(i);
        sorted_indices(&out)
    }
}

/// One frame of a multi-select over `option_count` options: a click on
/// the trigger opens or closes the popup; a click on a row of the shown
/// popup checks or unchecks that option, keeps the popup open, and hands
/// back the new selection. `count` is the number of options checked.
pub fn multi_select(
    option_count: usize,
    disabled: bool,
    selected: &mut Vec<usize>,
    open: &mut bool,
    clicks: SelectClicks,
) -> (r: MultiSelectResponse)
    ensures
        r.opened == (clicks.trigger && !disabled && !*old(open)),
        r.dismissed == (clicks.trigger && !disabled && *old(open)),
        *final(open) == popup_open(*old(open), disabled, clicks.trigger),
        match picked_row(*old(open), disabled, clicks, option_count) {
            Some(i) => {
                &&& final(selected)@ == selection_after_click(old(selected)@, i)
                &&& r.changed matches Some(c) && c@ == final(selected)@
                &&& r.count == final(selected)@.len()
            },
            None => {
                &&& final(selected)@ == old(selected)@
                &&& r.changed is None
                &&& r.count == old(selected)@.len()
            },
        },
{
    let (opened, dismissed) = toggle_popup(open, disabled, clicks.trigger);
    let mut out = MultiSelectResponse { changed: None, opened, dismissed, count: selected.len() };
    if *open && !disabled {
        if let Some(i) = clicks.row {
            if i < option_count {
                let next = click_selection(selected, i);
                let copy = next.clone();
                assert(copy@ =~= next@);
                *selected = next;
                out.count = selected.len();
                out.changed = Some(copy);
            }
        }
    }
    out
}

/// `parts` joined with `sep` between them.
pub open spec fn joined(parts: Seq<Seq<char>>, sep: Seq<char>) -> Seq<char>
    decreases parts.len(),
{
    if parts.len() == 0 {
        Seq::empty()
    } else if parts.len() == 1 {
        parts[0]
    } else {
        joined(parts.drop_last(), sep) + sep + parts.last()
    }
}

/// The labels of the selected options, in selection order; indices past
/// the options are skipped.
pub open spec fn chosen_labels(options: Seq<&str>, sel: Seq<usize>) -> Seq<Seq<char>>
    decreases sel.len(),
{
    if sel.len() == 0 {
        Seq::empty()
    } else if sel.last() < options.len() {
        chosen_labels(options, sel.drop_last()).push(options[sel.last() as int]@)
    } else {
        chosen_labels(options, sel.drop_last())
    }
}

/// The summary a multi-select's trigger shows beside its count badge: the
/// labels of the checked options, separated by commas.
pub fn multi_select_summary(options: &[&str], selected: &Vec<usize>) -> (r: String)
    ensures
        r@ == joined(chosen_labels(options@, selected@), ", "@),
{
    let mut out = String::new();
    let mut any = false;
    let mut n: usize = 0;
    assert(selected@.take(0) =~= Seq::<usize>::empty());
    while n < selected.len()
        invariant
            0 <= n <= selected@.len(),
            out@ == joined(chosen_labels(options@, selected@.take(n as int)), ", "@),
            any == (chosen_labels(options@, selected@.take(n as int)).len() > 0),
        decreases selected@.len() - n,
    {
        let i = selected[n];
        let ghost prev = chosen_labels(options@, selected@.take(n as int));
        assert(selected@.take(n + 1).drop_last() =~= selected@.take(n as int));
        if i < options.len() {
            if any {
                text::push_str(&mut out, ", ");
            } else {
                assert(out@ =~= Seq::<char>::empty());
            }
            text::push_str(&mut out, options[i]);
            assert(prev.push(options@[i as int]@).drop_last() =~= prev);
            if !any {
                assert(out@ =~= options@[i as int]@);
            }
            any = true;
        }
        n += 1;
    }
    assert(selected@.take(n as int) =~= selected@);
    out
}

/// A click on a row of a multi-select checks that row when it was
/// unchecked and unchecks it when it was checked; every other row keeps its
/// state.
pub proof fn law_click_toggles_row(s: Seq<usize>, i: usize, x: usize)
    ensures
        selection_after_click(s, i).contains(x) == (if x == i {
            !s.contains(i)
        } else {
            s.contains(x)
        }),
{
    broadcast use vstd::seq_lib::group_to_multiset_ensures;

    if s.contains(i) {
        let f = s.filter(other_than(i));
        if f.contains(x) {
            s.lemma_filter_contains_rev(other_than(i), x);
            let w = choose|w: int| 0 <= w < f.len() && f[w] == x;
            s.lemma_filter_pred(other_than(i), w);
        }
        if x != i && s.contains(x) {
            let w = choose|w: int| 0 <= w < s.len() && s[w] == x;
            s.lemma_filter_contains(other_than(i), w);
        }
    } else {
        lemma_index_le_total();
        s.push(i).lemma_sort_by_ensures(index_le());
        let t = s.push(i);
        assert(t.sort_by(index_le()).contains(x) <==> t.to_multiset().count(x) > 0);
        assert(t.contains(x) <==> (s.contains(x) || x == i)) by {
            if s.contains(x) {
                let w = choose|w: int| 0 <= w < s.len() && s[w] == x;
                assert(t[w] == x);
            }
            assert(t[s.len() as int] == i);
            if t.contains(x) {
                let w = choose|w: int| 0 <= w < t.len() && t[w] == x;
                if w < s.len() {
                    assert(s[w] == x);
                }
            }
        }
    }
}

/// What the pointer did to one row of a table in one frame.
#[derive(Clone, Copy, Debug)]
pub struct RowClicks {
    pub clicked: bool,
    pub right_clicked: bool,
    pub double_clicked: bool,
}

pub open spec fn row_clicked() -> spec_fn(RowClicks) -> bool {
    |c: RowClicks| c.clicked
}

pub open spec fn row_right_clicked() -> spec_fn(RowClicks) -> bool {
    |c: RowClicks| c.right_clicked
}

pub open spec fn row_double_clicked() -> spec_fn(RowClicks) -> bool {
    |c: RowClicks| c.double_clicked
}

/// The last row whose clicks satisfy `p`: rows are handled in order, so
/// the last one answers.
pub open spec fn last_row_where(rows: Seq<RowClicks>, p: spec_fn(RowClicks) -> bool) -> Option<usize>
    decreases rows.len(),
{
    if rows.len() == 0 {
        None
    } else if p(rows.last()) {
        Some((rows.len() - 1) as usize)
    } else {
        last_row_where(rows.drop_last(), p)
    }
}

/// One frame of a table whose rows got the clicks `rows`: a clicked row
/// becomes the selected one; the response names the rows clicked,
/// right-clicked and double-clicked.
pub fn table(selected_row: &mut Option<usize>, rows: &[RowClicks]) -> (r: TableResponse)
    ensures
        r.clicked_row == last_row_where(rows@, row_clicked()),
        r.right_clicked_row == last_row_where(rows@, row_right_clicked()),
        r.double_clicked_row == last_row_where(rows@, row_double_clicked()),
        *final(selected_row) == (match r.clicked_row {
            Some(i) => Some(i),
            None => *old(selected_row),
        }),
{
    let mut out = TableResponse { clicked_row: None, right_clicked_row: None, double_clicked_row: None };
    let mut i: usize = 0;
    assert(rows@.take(0) =~= Seq::<RowClicks>::empty());
    while i < rows.len()
        invariant
            0 <= i <= rows@.len(),
            out.clicked_row == last_row_where(rows@.take(i as int), row_clicked()),
            out.right_clicked_row == last_row_where(rows@.take(i as int), row_right_clicked()),
            out.double_clicked_row == last_row_where(rows@.take(i as int), row_double_clicked()),
            *selected_row == (match out.clicked_row {
                Some(k) => Some(k),
                None => *old(selected_row),
            }),
        decreases rows@.len() - i,
    {
        let c = rows[i];
        assert(rows@.take(i + 1).drop_last() =~= rows@.take(i as int));
        assert(rows@.take(i + 1).last() == c);
        if c.clicked {
            *selected_row = Some(i);
            out.clicked_row = Some(i);
        }
        if c.right_clicked {
            out.right_clicked_row = Some(i);
        }
        if c.double_clicked {
            out.double_clicked_row = Some(i);
        }
        i += 1;
    }
    assert(rows@.take(i as int) =~= rows@);
    out
}

/// The background of a table row.
#[derive(Clone, Copy, Debug, PartialEq, Eq, Structural)]
pub enum RowTone {
    Selected,
    Hovered,
    /// The odd rows of a striped table.
    Striped,
    Plain,
}

/// A row's background: selected rows first, then the hovered one, then the
/// odd rows of a striped table.
pub fn table_row_tone(row: usize, selected: bool, hovered: bool, striped: bool) -> (r: RowTone)
    ensures
        r == (if selected {
            RowTone::Selected
        } else if hovered {
            RowTone::Hovered
        } else if striped && row % 2 == 1 {
            RowTone::Striped
        } else {
            RowTone::Plain
        }),
{
    if selected {
        RowTone::Selected
    } else if hovered {
        RowTone::Hovered
    } else if striped && row % 2 == 1 {
        RowTone::Striped
    } else {
        RowTone::Plain
    }
}

/// What the pointer did to one tab in one frame: a click on its label, a
/// click on its trailing slot (close button or pin), a right click and a
/// double click.
#[derive(Clone, Copy, Debug)]
pub struct TabClicks {
    pub clicked: bool,
    pub slot_clicked: bool,
    pub right_clicked: bool,
    pub double_clicked: bool,
}

/// Whether a tab has a trailing slot: pinned tabs show their pin there,
/// closable or modified ones a close button or a dot.
pub open spec fn has_slot(t: Tab) -> bool {
    t.pinned || t.closable || t.dirty
}

/// A tab asks to be closed (or unpinned) when its slot is clicked.
pub open spec fn tab_close_clicked(t: Tab, c: TabClicks) -> bool {
    has_slot(t) && c.slot_clicked
}

/// A click on an enabled tab outside its slot activates it.
pub open spec fn tab_label_clicked(t: Tab, c: TabClicks) -> bool {
    c.clicked && !t.disabled && !tab_close_clicked(t, c)
}

/// The last tab of `items`, answered by `clicks`, for which `p` holds.
pub open spec fn last_tab_where(
    items: Seq<Tab>,
    clicks: Seq<TabClicks>,
    p: spec_fn(Tab, TabClicks) -> bool,
) -> Option<usize>
    decreases items.len(),
{
    if items.len() == 0 {
        None
    } else if p(items.last(), clicks[items.len() - 1]) {
        Some((items.len() - 1) as usize)
    } else {
        last_tab_where(items.drop_last(), clicks, p)
    }
}

pub open spec fn tab_activated<'a>() -> spec_fn(Tab<'a>, TabClicks) -> bool {
    |t: Tab<'a>, c: TabClicks| tab_label_clicked(t, c)
}

pub open spec fn tab_closing<'a>() -> spec_fn(Tab<'a>, TabClicks) -> bool {
    |t: Tab<'a>, c: TabClicks| tab_close_clicked(t, c)
}

pub open spec fn tab_right_clicked<'a>() -> spec_fn(Tab<'a>, TabClicks) -> bool {
    |t: Tab<'a>, c: TabClicks| c.right_clicked && !t.disabled
}

pub open spec fn tab_double_clicked<'a>() -> spec_fn(Tab<'a>, TabClicks) -> bool {
    |t: Tab<'a>, c: TabClicks| c.double_clicked && !t.disabled
}

/// One frame of a tab strip whose tabs got the clicks `clicks`: a click on
/// an enabled tab's label makes it the active one; the response names the
/// tabs clicked, asked to close, right-clicked and double-clicked.
/// Disabled tabs answer only clicks on their slot.
pub fn tabs<'a>(items: &[Tab<'a>], clicks: &[TabClicks], active: &mut usize) -> (r: TabsResponse)
    requires
        clicks@.len() == items@.len(),
    ensures
        r.clicked == last_tab_where(items@, clicks@, tab_activated()),
        r.close_requested == last_tab_where(items@, clicks@, tab_closing()),
        r.right_clicked == last_tab_where(items@, clicks@, tab_right_clicked()),
        r.double_clicked == last_tab_where(items@, clicks@, tab_double_clicked()),
        *final(active) == (match r.clicked {
            Some(i) => i,
            None => *old(active),
        }),
{
    let mut out = TabsResponse { clicked: None, close_requested: None, right_clicked: None, double_clicked: None };
    let mut i: usize = 0;
    assert(items@.take(0) =~= Seq::<Tab>::empty());
    while i < items.len()
        invariant
            0 <= i <= items@.len(),
            clicks@.len() == items@.len(),
            out.clicked == last_tab_where(items@.take(i as int), clicks@, tab_activated()),
            out.close_requested == last_tab_where(items@.take(i as int), clicks@, tab_closing()),
            out.right_clicked == last_tab_where(items@.take(i as int), clicks@, tab_right_clicked()),
            out.double_clicked == last_tab_where(items@.take(i as int), clicks@, tab_double_clicked()),
            *active == (match out.clicked {
                Some(k) => k,
                None => *old(active),
            }),
        decreases items@.len() - i,
    {
        let t = items[i];
        let c = clicks[i];
        assert(items@.take(i + 1).drop_last() =~= items@.take(i as int));
        assert(items@.take(i + 1).last() == t);
        let slot = t.pinned || t.closable || t.dirty;
        let close = slot && c.slot_clicked;
        if c.clicked && !t.disabled && !close {
            *active = i;
            out.clicked = Some(i);
        }
        if close {
            out.close_requested = Some(i);
        }
        if c.right_clicked && !t.disabled {
            out.right_clicked = Some(i);
        }
        if c.double_clicked && !t.disabled {
            out.double_clicked = Some(i);
        }
        i += 1;
    }
    assert(items@.take(i as int) =~= items@);
    out
}

/// The glyph in a tab's trailing slot.
#[derive(Clone, Copy, Debug, PartialEq, Eq, Structural)]
pub enum TabGlyph {
    Pin,
    Close,
    /// The dot of a modified document.
    Dirty,
    Empty,
}

/// What a tab's slot shows: a pinned tab its pin, another closable or
/// modified tab a close button; a modified tab shows a dot instead while
/// the pointer is not over the slot. A tab without a slot shows nothing.
pub fn tab_glyph(tab: &Tab, slot_hovered: bool) -> (r: TabGlyph)
    ensures
        r == (if !has_slot(*tab) {
            TabGlyph::Empty
        } else if tab.dirty && !slot_hovered {
            TabGlyph::Dirty
        } else if tab.pinned {
            TabGlyph::Pin
        } else {
            TabGlyph::Close
        }),
{
    if !(tab.pinned || tab.closable || tab.dirty) {
        TabGlyph::Empty
    } else if tab.dirty && !slot_hovered {
        TabGlyph::Dirty
    } else if tab.pinned {
        TabGlyph::Pin
    } else {
        TabGlyph::Close
    }
}

/// The item chosen in a context menu whose rows got the clicks `clicked`:
/// the last clicked row that is an enabled item (separators and disabled
/// items take no clicks).
pub open spec fn chosen_item(items: Seq<ContextMenuItem>, clicked: Seq<bool>) -> Option<usize>
    decreases items.len(),
{
    if items.len() == 0 {
        None
    } else if clicked[items.len() - 1] && !items.last().separator && !items.last().disabled {
        Some((items.len() - 1) as usize)
    } else {
        chosen_item(items.drop_last(), clicked)
    }
}

/// One frame of a context menu whose rows got the clicks `clicked`.
pub fn context_menu<'a>(items: &[ContextMenuItem<'a>], clicked: &[bool]) -> (r: ContextMenuResponse)
    requires
        clicked@.len() == items@.len(),
    ensures
        r.selected == chosen_item(items@, clicked@),
{
    let mut out = ContextMenuResponse { selected: None };
    let mut i: usize = 0;
    assert(items@.take(0) =~= Seq::<ContextMenuItem>::empty());
    while i < items.len()
        invariant
            0 <= i <= items@.len(),
            clicked@.len() == items@.len(),
            out.selected == chosen_item(items@.take(i as int), clicked@),
        decreases items@.len() - i,
    {
        assert(items@.take(i + 1).drop_last() =~= items@.take(i as int));
        let it = items[i];
        if clicked[i] && !it.separator && !it.disabled {
            out.selected = Some(i);
        }
        i += 1;
    }
    assert(items@.take(i as int) =~= items@);
    out
}

/// Where the pointer hit a tree row in one frame: its chevron, the row
/// itself, or the row with a right click or a double click.
#[derive(Clone, Copy, Debug, PartialEq, Eq, Structural)]
pub enum TreeHit {
    Chevron,
    Row,
    RightClick,
    DoubleClick,
}

/// The item whose row is shown at `path[d..]` below `items`: every index
/// names an item, and every item above the last one is open.
pub open spec fn shown_row(items: Seq<TreeItem>, path: Seq<usize>, d: int) -> Option<TreeItem>
    decreases path.len() - d,
{
    if d < 0 || d >= path.len() || path[d] >= items.len() {
        None
    } else if d + 1 == path.len() {
        Some(items[path[d] as int])
    } else if !items[path[d] as int].open {
        None
    } else {
        shown_row(items[path[d] as int].children@, path, d + 1)
    }
}

/// `n` is the list `o` after `hit` on the row at `path[d..]`: only a hit on
/// the chevron of a shown row with children changes anything, opening or
/// closing that row.
pub open spec fn hit_in(o: Seq<TreeItem>, n: Seq<TreeItem>, path: Seq<usize>, d: int, hit: TreeHit) -> bool
    decreases path.len() - d, 1int,
{
    if d < 0 || d >= path.len() || path[d] >= o.len() {
        n == o
    } else {
        &&& n.len() == o.len()
        &&& forall|k: int| 0 <= k < o.len() && k != path[d] ==> #[trigger] n[k] == o[k]
        &&& hit_at(o[path[d] as int], n[path[d] as int], path, d, hit)
    }
}

/// `n` is the item `o`, at `path[d]`, after `hit` on the row at `path[d..]`.
pub open spec fn hit_at(o: TreeItem, n: TreeItem, path: Seq<usize>, d: int, hit: TreeHit) -> bool
    decreases path.len() - d, 0int,
{
    if d < 0 || d >= path.len() {
        n == o
    } else if d + 1 == path.len() {
        &&& n.label == o.label && n.icon == o.icon && n.disabled == o.disabled
        &&& n.children == o.children
        &&& n.open == (if hit == TreeHit::Chevron && o.children@.len() > 0 {
            !o.open
        } else {
            o.open
        })
    } else if !o.open {
        n == o
    } else {
        &&& n.label == o.label && n.icon == o.icon && n.disabled == o.disabled && n.open == o.open
        &&& hit_in(o.children@, n.children@, path, d + 1, hit)
    }
}

/// Whether `hit` is answered as `kind` by the row at `path`: the row is
/// shown and enabled, and was hit that way.
pub open spec fn answers(items: Seq<TreeItem>, path: Seq<usize>, hit: TreeHit, kind: TreeHit) -> bool {
    hit == kind && (shown_row(items, path, 0) matches Some(t) && !t.disabled)
}

fn hit_items(items: &mut Vec<TreeItem>, path: &Vec<usize>, d: usize, hit: TreeHit) -> (r: Option<bool>)
    ensures
        hit_in(old(items)@, final(items)@, path@, d as int, hit),
        r == (match shown_row(old(items)@, path@, d as int) {
            Some(t) => Some(t.disabled),
            None => None,
        }),
    decreases path@.len() - d, 1int,
{
    if d >= path.len() {
        return None;
    }
    let p = path[d];
    if p >= items.len() {
        return None;
    }
    let ghost before = items@;
    let r = items[p].hit_item(path, d, hit);
    assert(items@ == before.update(p as int, items@[p as int]));
    r
}

impl TreeItem {
    fn hit_item(&mut self, path: &Vec<usize>, d: usize, hit: TreeHit) -> (r: Option<bool>)
        requires
            d < path@.len(),
        ensures
            hit_at(*old(self), *final(self), path@, d as int, hit),
            r == (if d + 1 == path@.len() {
                Some(old(self).disabled)
            } else if !old(self).open {
                None
            } else {
                match shown_row(old(self).children@, path@, d + 1) {
                    Some(t) => Some(t.disabled),
                    None => None,
                }
            }),
        decreases path@.len() - d, 0int,
    {
        if d == path.len() - 1 {
            if hit == TreeHit::Chevron && self.children.len() > 0 {
                self.open = !self.open;
            }
            Some(self.disabled)
        } else if !self.open {
            None
        } else {
            hit_items(&mut self.children, path, d + 1, hit)
        }
    }
}

fn copy_path(path: &Vec<usize>) -> (r: Vec<usize>)
    ensures
        r@ == path@,
{
    let mut r: Vec<usize> = Vec::new();
    let mut i: usize = 0;
    while i < path.len()
        invariant
            0 <= i <= path@.len(),
            r@ == path@.take(i as int),
        decreases path@.len() - i,
    {
        r.push(path[i]);
        assert(path@.take(i + 1) =~= r@);
        i += 1;
    }
    assert(path@.take(i as int) =~= path@);
    r
}

/// One frame of a tree in which the pointer hit the row at `path` (indices
/// from the top level down). A hit lands only on a shown row. A hit on the
/// chevron of a row with children opens or closes it; a click on an enabled
/// row selects it; the response names the row clicked, right-clicked or
/// double-clicked.
pub fn tree(
    items: &mut Vec<TreeItem>,
    selected: &mut Option<Vec<usize>>,
    path: &Vec<usize>,
    hit: TreeHit,
) -> (r: TreeResponse)
    ensures
        hit_in(old(items)@, final(items)@, path@, 0, hit),
        answers(old(items)@, path@, hit, TreeHit::Row) ==> (r.clicked matches Some(p) && p@ == path@),
        answers(old(items)@, path@, hit, TreeHit::Row) ==> (*final(selected) matches Some(q) && q@
            == path@),
        !answers(old(items)@, path@, hit, TreeHit::Row) ==> r.clicked is None && *final(selected)
            == *old(selected),
        answers(old(items)@, path@, hit, TreeHit::RightClick) ==> (r.right_clicked matches Some(p)
            && p@ == path@),
        !answers(old(items)@, path@, hit, TreeHit::RightClick) ==> r.right_clicked is None,
        answers(old(items)@, path@, hit, TreeHit::DoubleClick) ==> (r.double_clicked matches Some(
            p,
        ) && p@ == path@),
        !answers(old(items)@, path@, hit, TreeHit::DoubleClick) ==> r.double_clicked is None,
{
    let mut out = TreeResponse { clicked: None, right_clicked: None, double_clicked: None };
    match hit_items(items, path, 0, hit) {
        Some(false) => match hit {
            TreeHit::Row => {
                *selected = Some(copy_path(path));
                out.clicked = Some(copy_path(path));
            },
            TreeHit::RightClick => {
                out.right_clicked = Some(copy_path(path));
            },
            TreeHit::DoubleClick => {
                out.double_clicked = Some(copy_path(path));
            },
            TreeHit::Chevron => {},
        },
        _ => {},
    }
    out
}

/// Each index once, in ascending order: how a multi-select keeps its
/// selection.
pub open spec fn ascending(s: Seq<usize>) -> bool {
    forall|a: int, b: int| 0 <= a < b < s.len() ==> s[a] < s[b]
}

proof fn lemma_filter_ascending(s: Seq<usize>, p: spec_fn(usize) -> bool)
    requires
        ascending(s),
    ensures
        ascending(s.filter(p)),
    decreases s.len(),
{
    if s.len() > 0 {
        let init = s.drop_last();
        assert(ascending(init));
        lemma_filter_ascending(init, p);
        assert(init.push(s.last()) =~= s);
        init.lemma_filter_push(s.last(), p);
        if p(s.last()) {
            let f = init.filter(p);
            assert forall|k: int| 0 <= k < f.len() implies f[k] < s.last() by {
                assert(f.contains(f[k]));
                init.lemma_filter_contains_rev(p, f[k]);
                let w = choose|w: int| 0 <= w < init.len() && init[w] == f[k];
                assert(s[w] == init[w]);
            }
        }
    }
}

/// A click on a row of a multi-select keeps an ascending selection
/// ascending, each index in it once.
pub proof fn law_click_keeps_selection_ascending(s: Seq<usize>, i: usize)
    requires
        ascending(s),
    ensures
        ascending(selection_after_click(s, i)),
{
    broadcast use vstd::seq_lib::group_to_multiset_ensures;

    if s.contains(i) {
        lemma_filter_ascending(s, other_than(i));
    } else {
        let t = s.push(i);
        assert(t.no_duplicates()) by {
            assert forall|a: int, b: int| 0 <= a < t.len() && 0 <= b < t.len() && a != b implies t[a]
                != t[b] by {
                if a < s.len() && b < s.len() {
                    if a < b {
                        assert(s[a] < s[b]);
                    } else {
                        assert(s[b] < s[a]);
                    }
                } else if a < s.len() {
                    assert(s.contains(s[a]));
                } else {
                    assert(s.contains(s[b]));
                }
            }
        }
        lemma_index_le_total();
        t.lemma_sort_by_ensures(index_le());
        let u = t.sort_by(index_le());
        t.lemma_multiset_has_no_duplicates();
        assert(u.to_multiset() == t.to_multiset());
        u.lemma_multiset_has_no_duplicates_conv();
        assert forall|a: int, b: int| 0 <= a < b < u.len() implies u[a] < u[b] by {
            assert((index_le())(u[a], u[b]));
        }
    }
}

proof fn lemma_ascending_unique(a: Seq<usize>, b: Seq<usize>)
    requires
        ascending(a),
        ascending(b),
        forall|x: usize| a.contains(x) <==> b.contains(x),
    ensures
        a == b,
    decreases a.len(),
{
    if a.len() == 0 {
        if b.len() > 0 {
            assert(b.contains(b[0]));
        }
        assert(a =~= b);
    } else {
        assert(a.contains(a[0]));
        if b.len() == 0 {
            assert(false);
        }
        assert(b.contains(b[0]));
        let k = choose|k: int| 0 <= k < b.len() && b[k] == a[0];
        let j = choose|j: int| 0 <= j < a.len() && a[j] == b[0];
        assert(a[0] <= a[j]);
        assert(b[0] <= b[k]);
        assert(a[0] == b[0]);
        let ta = a.drop_first();
        let tb = b.drop_first();
        assert forall|x: usize| ta.contains(x) <==> tb.contains(x) by {
            if ta.contains(x) {
                let w = choose|w: int| 0 <= w < ta.len() && ta[w] == x;
                assert(a[w + 1] == x && a[0] < a[w + 1]);
                assert(a.contains(x));
                let v = choose|v: int| 0 <= v < b.len() && b[v] == x;
                assert(v != 0);
                assert(tb[v - 1] == x);
            }
            if tb.contains(x) {
                let w = choose|w: int| 0 <= w < tb.len() && tb[w] == x;
                assert(b[w + 1] == x && b[0] < b[w + 1]);
                assert(b.contains(x));
                let v = choose|v: int| 0 <= v < a.len() && a[v] == x;
                assert(v != 0);
                assert(ta[v - 1] == x);
            }
        }
        lemma_ascending_unique(ta, tb);
        assert(a =~= seq![a[0]] + ta);
        assert(b =~= seq![b[0]] + tb);
    }
}

/// Clicking the same row of a multi-select twice gives back the selection
/// it had, when that selection was ascending.
pub proof fn law_click_twice_restores(s: Seq<usize>, i: usize)
    requires
        ascending(s),
    ensures
        selection_after_click(selection_after_click(s, i), i) == s,
{
    let t = selection_after_click(s, i);
    let u = selection_after_click(t, i);
    law_click_keeps_selection_ascending(s, i);
    law_click_keeps_selection_ascending(t, i);
    assert forall|x: usize| u.contains(x) <==> s.contains(x) by {
        law_click_toggles_row(s, i, x);
        law_click_toggles_row(t, i, x);
        law_click_toggles_row(s, i, i);
    }
    lemma_ascending_unique(u, s);
}

} // verus!

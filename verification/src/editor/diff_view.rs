//! The rows of the read-only inline diff tab: every line of the base and
//! of the current text in diff order, removed lines numbered in the base
//! only, added lines in the current text only, unchanged lines in both.
//! The alignment is `similar`'s line diff; painting is left to the user
//! interface.

use vstd::prelude::*;

use crate::text;

verus! {

/// Whether a line is unchanged, removed or added.
#[derive(Clone, Copy, Debug, PartialEq, Eq, Structural)]
pub enum LineTag {
    Equal,
    Delete,
    Insert,
}

/// The lines of `similar`'s line diff of `old` against `new`, in order:
/// each with its tag and its text (with its line ending).
pub uninterp spec fn line_diff_changes(old: Seq<char>, new: Seq<char>) -> Seq<(LineTag, Seq<char>)>;

/// Calls `similar::TextDiff::from_lines(old, new).iter_all_changes()` and
/// keeps each change's tag (as the `LineTag` of the same name) and value.
/// What the changes are is left to the name `line_diff_changes`: the crate
/// computes them from the two texts alone.
#[verifier::external_body]
fn diff_changes(old: &str, new: &str) -> (r: Vec<(LineTag, String)>)
    ensures
        r@.map_values(|c: (LineTag, String)| (c.0, c.1@)) == line_diff_changes(old@, new@),
{
    let diff = similar::TextDiff::from_lines(old, new);
    let mut r = Vec::new();
    for c in diff.iter_all_changes() {
        let tag = match c.tag() {
            similar::ChangeTag::Equal => LineTag::Equal,
            similar::ChangeTag::Delete => LineTag::Delete,
            similar::ChangeTag::Insert => LineTag::Insert,
        };
        r.push((tag, c.value().to_string()));
    }
    r
}

/// One row of the inline diff.
pub struct DiffRow {
    pub tag: LineTag,
    pub old_no: Option<usize>,
    pub new_no: Option<usize>,
    pub text: String,
}

/// A row as `(tag, old line number, new line number, text)`.
pub open spec fn row_views(v: Seq<DiffRow>) -> Seq<(LineTag, Option<usize>, Option<usize>, Seq<char>)> {
    v.map_values(|r: DiffRow| (r.tag, r.old_no, r.new_no, r.text@))
}

/// The text of a change without one trailing `'\n'`.
pub open spec fn without_newline(t: Seq<char>) -> Seq<char> {
    if t.len() > 0 && t.last() == '\n' {
        t.drop_last()
    } else {
        t
    }
}

/// The number of lines the changes `cs` take in the base (`old`) or in the
/// current text.
pub open spec fn count_side(cs: Seq<(LineTag, Seq<char>)>, old: bool) -> nat
    decreases cs.len(),
{
    if cs.len() == 0 {
        0
    } else {
        count_side(cs.drop_last(), old) + if (old && cs.last().0 != LineTag::Insert) || (!old
            && cs.last().0 != LineTag::Delete) {
            1nat
        } else {
            0nat
        }
    }
}

/// The rows of the changes `cs`: each line numbered (from 1) on the sides
/// it belongs to.
pub open spec fn diff_rows_of(cs: Seq<(LineTag, Seq<char>)>) -> Seq<(LineTag, Option<usize>, Option<usize>, Seq<char>)>
    decreases cs.len(),
{
    if cs.len() == 0 {
        Seq::empty()
    } else {
        let prev = cs.drop_last();
        let (tag, t) = cs.last();
        let o = (count_side(prev, true) + 1) as usize;
        let n = (count_side(prev, false) + 1) as usize;
        diff_rows_of(prev).push(
            (
                tag,
                if tag != LineTag::Insert {
                    Some(o)
                } else {
                    None
                },
                if tag != LineTag::Delete {
                    Some(n)
                } else {
                    None
                },
                without_newline(t),
            ),
        )
    }
}

proof fn lemma_count_side_bound(cs: Seq<(LineTag, Seq<char>)>, old: bool)
    ensures
        count_side(cs, old) <= cs.len(),
    decreases cs.len(),
{
    if cs.len() > 0 {
        lemma_count_side_bound(cs.drop_last(), old);
    }
}

/// The rows of a list of diff changes.
pub fn rows_from_changes(changes: &Vec<(LineTag, String)>) -> (r: Vec<DiffRow>)
    ensures
        row_views(r@) == diff_rows_of(changes@.map_values(|c: (LineTag, String)| (c.0, c.1@))),
{
    let ghost cs = changes@.map_values(|c: (LineTag, String)| (c.0, c.1@));
    let mut rows: Vec<DiffRow> = Vec::new();
    let mut old_no: usize = 0;
    let mut new_no: usize = 0;
    let mut i: usize = 0;
    assert(cs.take(0) =~= Seq::<(LineTag, Seq<char>)>::empty());
    while i < changes.len()
        invariant
            cs == changes@.map_values(|c: (LineTag, String)| (c.0, c.1@)),
            0 <= i <= changes@.len(),
            old_no == count_side(cs.take(i as int), true),
            new_no == count_side(cs.take(i as int), false),
            old_no <= i,
            new_no <= i,
            row_views(rows@) == diff_rows_of(cs.take(i as int)),
        decreases changes@.len() - i,
    {
        let tag = changes[i].0;
        let v = text::chars_of(changes[i].1.as_str());
        let end = if v.len() > 0 && v[v.len() - 1] == '\n' {
            v.len() - 1
        } else {
            v.len()
        };
        let t = text::string_of(&v, 0, end);
        assert(t@ =~= without_newline(cs[i as int].1));
        assert(cs.take(i + 1 as int).drop_last() =~= cs.take(i as int));
        assert(cs.take(i + 1 as int).last() == cs[i as int]);
        let ghost before = row_views(rows@);
        let row = match tag {
            LineTag::Equal => {
                old_no += 1;
                new_no += 1;
                DiffRow { tag, old_no: Some(old_no), new_no: Some(new_no), text: t }
            },
            LineTag::Delete => {
                old_no += 1;
                DiffRow { tag, old_no: Some(old_no), new_no: None, text: t }
            },
            LineTag::Insert => {
                new_no += 1;
                DiffRow { tag, old_no: None, new_no: Some(new_no), text: t }
            },
        };
        rows.push(row);
        assert(row_views(rows@) =~= before.push(row_views(rows@).last()));
        i += 1;
    }
    assert(cs.take(i as int) =~= cs);
    rows
}

/// The rows of the inline diff of the current text `working` against the
/// base text `base`.
pub fn diff_rows(base: &str, working: &str) -> (r: Vec<DiffRow>)
    ensures
        row_views(r@) == diff_rows_of(line_diff_changes(base@, working@)),
{
    let changes = diff_changes(base, working);
    rows_from_changes(&changes)
}

} // verus!

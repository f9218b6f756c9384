//! Cursor arithmetic of the editor view: character offsets to 1-based
//! line/column pairs and back from a (line, byte-in-line) position, and the
//! lines that stay visible under the current folds.

use std::collections::BTreeMap;
use std::collections::BTreeSet;

use vstd::prelude::*;

use crate::text;
use super::fold;

verus! {

broadcast use vstd::laws_cmp::group_laws_cmp, vstd::std_specs::btree::group_btree_axioms;

/// The 1-based (line, column) reached after the characters `p`.
pub open spec fn line_col(p: Seq<char>) -> (int, int)
    decreases p.len(),
{
    if p.len() == 0 {
        (1, 1)
    } else {
        let (l, c) = line_col(p.drop_last());
        if p.last() == '\n' {
            (l + 1, 1)
        } else {
            (l, c + 1)
        }
    }
}

pub proof fn lemma_line_col_bounds(p: Seq<char>)
    ensures
        1 <= line_col(p).0 <= p.len() + 1,
        1 <= line_col(p).1 <= p.len() + 1,
    decreases p.len(),
{
    if p.len() > 0 {
        lemma_line_col_bounds(p.drop_last());
    }
}

/// The 1-based line and column of the character at `char_pos` (positions
/// past the end give the position after the last character).
pub fn char_to_line_col(text: &str, char_pos: usize) -> (r: (usize, usize))
    requires
        text@.len() < usize::MAX,
    ensures
        r.0 as int == line_col(text@.take(if char_pos < text@.len() { char_pos as int } else { text@.len() as int })).0,
        r.1 as int == line_col(text@.take(if char_pos < text@.len() { char_pos as int } else { text@.len() as int })).1,
{
    let v = text::chars_of(text);
    let mut line: usize = 1;
    let mut col: usize = 1;
    let mut i: usize = 0;
    while i < v.len() && i < char_pos
        invariant
            v@ == text@,
            v@.len() < usize::MAX,
            0 <= i <= v@.len(),
            i <= char_pos,
            (line as int, col as int) == line_col(v@.take(i as int)),
        decreases v@.len() - i,
    {
        proof {
            lemma_line_col_bounds(v@.take(i as int));
        }
        assert(v@.take(i + 1 as int).drop_last() =~= v@.take(i as int));
        if v[i] == '\n' {
            line += 1;
            col = 1;
        } else {
            col += 1;
        }
        i += 1;
    }
    (line, col)
}

/// The number of leading characters of `l` that start before byte `b`: the
/// characters are counted until the bytes taken reach `b`.
pub open spec fn chars_before_byte(l: Seq<char>, b: int) -> int
    decreases l.len(),
{
    if l.len() == 0 || b <= 0 {
        0
    } else {
        1 + chars_before_byte(l.drop_first(), b - text::utf8_width(l[0]))
    }
}

/// The character offset at which piece `m` of `pieces` begins, when the
/// pieces were separated by one character each.
pub open spec fn piece_start(pieces: Seq<Seq<char>>, m: int) -> int
    decreases m,
{
    if m <= 0 {
        0
    } else {
        piece_start(pieces, m - 1) + pieces[m - 1].len() + 1
    }
}

/// The character offset of byte `byte` within 1-based line `line` of `t`;
/// a line number outside the text gives the offset one past its end.
pub open spec fn line_byte_offset(t: Seq<char>, line: int, byte: int) -> int {
    let pieces = text::split_char(t, '\n');
    if 1 <= line <= pieces.len() {
        piece_start(pieces, line - 1) + chars_before_byte(pieces[line - 1], byte)
    } else {
        piece_start(pieces, pieces.len() as int)
    }
}

/// `piece_start` depends only on the pieces before `m`.
proof fn lemma_piece_start_prefix(p: Seq<Seq<char>>, q: Seq<Seq<char>>, m: int)
    requires
        0 <= m <= p.len(),
        m <= q.len(),
        p.take(m) == q.take(m),
    ensures
        piece_start(p, m) == piece_start(q, m),
    decreases m,
{
    if m > 0 {
        assert(p.take(m - 1) =~= p.take(m).take(m - 1));
        assert(q.take(m - 1) =~= q.take(m).take(m - 1));
        assert(p[m - 1] == p.take(m)[m - 1]);
        assert(q[m - 1] == q.take(m)[m - 1]);
        lemma_piece_start_prefix(p, q, m - 1);
    }
}

/// The pieces of `t`, with one separator between each two, make up `t`.
pub proof fn lemma_piece_start_total(t: Seq<char>)
    ensures
        piece_start(text::split_char(t, '\n'), text::split_char(t, '\n').len() as int) == t.len() + 1,
    decreases t.len(),
{
    text::lemma_split_char_nonempty(t, '\n');
    if t.len() == 0 {
        let q = text::split_char(t, '\n');
        assert(q.len() == 1);
        assert(piece_start(q, 1) == piece_start(q, 0) + q[0].len() + 1);
    } else {
        let s = t.drop_last();
        let p = text::split_char(s, '\n');
        let q = text::split_char(t, '\n');
        text::lemma_split_char_nonempty(s, '\n');
        lemma_piece_start_total(s);
        if t.last() == '\n' {
            assert(q == p.push(Seq::empty()));
            assert(q.take(p.len() as int) =~= p.take(p.len() as int));
            lemma_piece_start_prefix(p, q, p.len() as int);
            assert(piece_start(q, q.len() as int) == piece_start(q, p.len() as int) + q[p.len() as int].len() + 1);
        } else {
            let n = p.len() as int;
            assert(q == p.update(n - 1, p.last().push(t.last())));
            assert(q.take(n - 1) =~= p.take(n - 1));
            lemma_piece_start_prefix(p, q, n - 1);
            assert(piece_start(q, n) == piece_start(q, n - 1) + q[n - 1].len() + 1);
            assert(piece_start(p, n) == piece_start(p, n - 1) + p[n - 1].len() + 1);
        }
    }
}

pub proof fn lemma_piece_start_ge(p: Seq<Seq<char>>, m: int)
    requires
        0 <= m <= p.len(),
    ensures
        piece_start(p, m) >= m,
    decreases m,
{
    if m > 0 {
        lemma_piece_start_ge(p, m - 1);
    }
}

pub proof fn lemma_piece_start_mono(p: Seq<Seq<char>>, m: int, n: int)
    requires
        0 <= m <= n <= p.len(),
    ensures
        piece_start(p, m) <= piece_start(p, n),
    decreases n - m,
{
    if m < n {
        lemma_piece_start_mono(p, m, n - 1);
    }
}

pub proof fn lemma_chars_before_byte_bound(l: Seq<char>, b: int)
    ensures
        0 <= chars_before_byte(l, b) <= l.len(),
    decreases l.len(),
{
    if l.len() > 0 && b > 0 {
        lemma_chars_before_byte_bound(l.drop_first(), b - text::utf8_width(l[0]));
    }
}

pub proof fn lemma_byte_len_concat(x: Seq<char>, y: Seq<char>)
    ensures
        text::byte_len(x + y) == text::byte_len(x) + text::byte_len(y),
    decreases y.len(),
{
    if y.len() > 0 {
        assert((x + y).drop_last() =~= x + y.drop_last());
        lemma_byte_len_concat(x, y.drop_last());
    } else {
        assert(x + y =~= x);
    }
}

pub proof fn lemma_byte_len_sub(s: Seq<char>, a: int, b: int)
    requires
        0 <= a <= b <= s.len(),
    ensures
        text::byte_len(s.subrange(a, b)) <= text::byte_len(s),
{
    assert(s =~= s.subrange(0, a) + s.subrange(a, b) + s.subrange(b, s.len() as int));
    lemma_byte_len_concat(s.subrange(0, a), s.subrange(a, b));
    lemma_byte_len_concat(s.subrange(0, a) + s.subrange(a, b), s.subrange(b, s.len() as int));
}

/// The characters counted before the bytes of the first `k` characters of
/// `l` are those `k` characters.
proof fn lemma_chars_before_own_bytes(l: Seq<char>, k: int)
    requires
        0 <= k <= l.len(),
    ensures
        chars_before_byte(l, text::byte_len(l.take(k)) as int) == k,
    decreases l.len(),
{
    if k > 0 {
        let rest = l.drop_first();
        assert(l.take(k) =~= seq![l[0]] + rest.take(k - 1));
        lemma_byte_len_concat(seq![l[0]], rest.take(k - 1));
        assert(seq![l[0]].drop_last() =~= Seq::<char>::empty());
        assert(text::byte_len(Seq::<char>::empty()) == 0);
        assert(seq![l[0]].last() == l[0]);
        assert(text::byte_len(seq![l[0]]) == text::utf8_width(l[0]));
        lemma_chars_before_own_bytes(rest, k - 1);
    } else {
        assert(l.take(0) =~= Seq::<char>::empty());
    }
}

/// Character `k` of line `m + 1` (both from 0) of `t` lies at offset
/// `piece_start(.., m) + k`, where the line and column count to it.
proof fn lemma_piece_line_col(t: Seq<char>, m: int, k: int)
    requires
        0 <= m < text::split_char(t, '\n').len(),
        0 <= k <= text::split_char(t, '\n')[m].len(),
    ensures
        piece_start(text::split_char(t, '\n'), m) + k <= t.len(),
        line_col(t.take(piece_start(text::split_char(t, '\n'), m) + k)) == (m + 1, k + 1),
    decreases t.len(),
{
    let q = text::split_char(t, '\n');
    text::lemma_split_char_nonempty(t, '\n');
    if t.len() == 0 {
        assert(t.take(0) =~= t);
    } else {
        let s = t.drop_last();
        let p = text::split_char(s, '\n');
        let n = p.len() as int;
        text::lemma_split_char_nonempty(s, '\n');
        lemma_piece_start_total(s);
        if m < n - 1 || (m == n - 1 && k <= p[n - 1].len()) {
            assert(q.take(m) =~= p.take(m));
            lemma_piece_start_prefix(p, q, m);
            if m < n - 1 {
                assert(q[m] == p[m]);
            }
            assert(k <= p[m].len());
            lemma_piece_line_col(s, m, k);
            lemma_piece_start_mono(p, m + 1, n);
            assert(piece_start(p, m + 1) == piece_start(p, m) + p[m].len() + 1);
            assert(piece_start(q, m) == piece_start(p, m));
            assert(piece_start(p, n) == s.len() + 1);
            assert(piece_start(p, m) + k <= s.len());
            assert(forall|i: int| 0 <= i < s.len() ==> s[i] == t[i]);
            lemma_piece_start_ge(p, m);
            assert(t.take(piece_start(q, m) + k) =~= s.take(piece_start(p, m) + k));
        } else {
            lemma_piece_line_col(s, n - 1, p[n - 1].len() as int);
            assert(piece_start(p, n) == piece_start(p, n - 1) + p[n - 1].len() + 1);
            assert(s.take(s.len() as int) =~= s);
            assert(t.take(t.len() as int) =~= t);
            assert(t.drop_last() == s);
            if t.last() == '\n' {
                assert(m == n && k == 0);
                assert(q.take(n) =~= p.take(n));
                lemma_piece_start_prefix(p, q, n);
            } else {
                assert(m == n - 1 && k == p[n - 1].len() + 1);
                assert(q.take(n - 1) =~= p.take(n - 1));
                lemma_piece_start_prefix(p, q, n - 1);
            }
        }
    }
}

/// Going from a line and a byte offset in it (on a character boundary) to
/// a character offset, and back to a line and column, gives the same line,
/// with the column one past the characters before that byte.
pub proof fn law_offset_round_trip(t: Seq<char>, line: int, k: int)
    requires
        1 <= line <= text::split_char(t, '\n').len(),
        0 <= k <= text::split_char(t, '\n')[line - 1].len(),
    ensures
        ({
            let piece = text::split_char(t, '\n')[line - 1];
            let o = line_byte_offset(t, line, text::byte_len(piece.take(k)) as int);
            &&& 0 <= o <= t.len()
            &&& line_col(t.take(o)) == (line, k + 1)
        }),
{
    let piece = text::split_char(t, '\n')[line - 1];
    lemma_chars_before_own_bytes(piece, k);
    lemma_piece_line_col(t, line - 1, k);
    lemma_piece_start_ge(text::split_char(t, '\n'), line - 1);
}

/// The character offset of the position given as a 1-based line and a byte
/// offset within that line; a line past the end gives the offset one past
/// the end of the text.
pub fn line_col_byte_to_char_offset(text: &str, target_line: usize, target_byte_in_line: usize) -> (r:
    usize)
    requires
        text@.len() + 2 <= usize::MAX,
        text::byte_len(text@) <= usize::MAX,
    ensures
        r as int == line_byte_offset(text@, target_line as int, target_byte_in_line as int),
{
    let v = text::chars_of(text);
    let pieces = text::split_ranges(&v, 0, v.len(), '\n');
    assert(v@.subrange(0, v@.len() as int) =~= v@);
    let ghost sp = text::split_char(v@, '\n');
    proof {
        lemma_piece_start_total(v@);
        text::lemma_split_char_nonempty(v@, '\n');
        lemma_piece_start_ge(sp, sp.len() as int);
    }
    let mut current_line: usize = 1;
    let mut char_offset: usize = 0;
    let mut k: usize = 0;
    while k < pieces.len()
        invariant
            v@ == text@,
            v@.len() + 2 <= usize::MAX,
            text::byte_len(v@) <= usize::MAX,
            text::ranges_cut(v@, pieces@, sp),
            sp == text::split_char(v@, '\n'),
            piece_start(sp, sp.len() as int) == v@.len() + 1,
            sp.len() <= v@.len() + 1,
            0 <= k <= pieces@.len(),
            current_line == k + 1,
            char_offset as int == piece_start(sp, k as int),
            target_line < current_line ==> target_line == 0,
        decreases pieces@.len() - k,
    {
        let (a, b) = pieces[k];
        assert(sp[k as int] == v@.subrange(a as int, b as int));
        proof {
            lemma_piece_start_mono(sp, k + 1, sp.len() as int);
        }
        if current_line == target_line {
            let mut byte_pos: usize = 0;
            let mut i: usize = a;
            while i < b
                invariant
                    a <= i <= b <= v@.len(),
                    v@.len() + 2 <= usize::MAX,
                    text::byte_len(v@) <= usize::MAX,
                    byte_pos as int == text::byte_len(v@.subrange(a as int, i as int)),
                    char_offset as int == piece_start(sp, k as int) + (i - a),
                    piece_start(sp, k as int) + (b - a) + 1 <= v@.len() + 1,
                    chars_before_byte(v@.subrange(a as int, b as int), target_byte_in_line as int)
                        == (i - a) + chars_before_byte(
                        v@.subrange(i as int, b as int),
                        target_byte_in_line - byte_pos,
                    ),
                ensures
                    char_offset as int == piece_start(sp, k as int) + chars_before_byte(
                        v@.subrange(a as int, b as int),
                        target_byte_in_line as int,
                    ),
                decreases b - i,
            {
                if byte_pos >= target_byte_in_line {
                    break;
                }
                let w = text::char_width(v[i]);
                proof {
                    let rest = v@.subrange(i as int, b as int);
                    assert(rest.drop_first() =~= v@.subrange(i + 1 as int, b as int));
                    assert(rest[0] == v@[i as int]);
                    assert(v@.subrange(a as int, i + 1 as int).drop_last() =~= v@.subrange(
                        a as int,
                        i as int,
                    ));
                    lemma_byte_len_sub(v@, a as int, i + 1);
                }
                byte_pos += w;
                char_offset += 1;
                i += 1;
            }
            return char_offset;
        }
        char_offset += b - a + 1;
        current_line += 1;
        k += 1;
    }
    char_offset
}

/// The folded headers kept after the regions were computed again: those
/// that still start a region.
pub fn prune_folds(folded: &mut BTreeSet<usize>, ranges: &BTreeMap<usize, usize>)
    ensures
        final(folded)@ == old(folded)@.filter(|h: usize| ranges@.contains_key(h)),
{
    let ghost keys = vstd::std_specs::iter::IteratorSpec::remaining(
        &vstd::std_specs::btree::spec_btree_keys_iter(&*folded),
    ).unref();
    proof {
        vstd::std_specs::btree::axiom_spec_btree_keys_iter(&*folded);
    }
    let ghost before = folded@;
    let mut kept: BTreeSet<usize> = BTreeSet::new();
    for h in it: folded.iter()
        invariant
            it.seq().unref() == keys,
            keys.to_set() == before,
            kept@ == Set::new(|x: usize| keys.take(it.index() as int).contains(x) && ranges@.contains_key(x)),
    {
        let ghost i = it.index();
        assert(keys[i as int] == *h) by {
            assert(it.seq().unref()[i as int] == *h);
        }
        assert forall|x: usize| keys.take(i + 1).contains(x) <==> (keys.take(i as int).contains(x)
            || x == keys[i as int]) by {
            if keys.take(i + 1).contains(x) {
                let k = choose|k: int| 0 <= k < i + 1 && #[trigger] keys.take(i + 1)[k] == x;
                if k < i {
                    assert(keys.take(i as int)[k] == x);
                }
            }
            if keys.take(i as int).contains(x) {
                let k = choose|k: int| 0 <= k < i && #[trigger] keys.take(i as int)[k] == x;
                assert(keys.take(i + 1)[k] == x);
            }
            if x == keys[i as int] {
                assert(keys.take(i + 1)[i as int] == x);
            }
        }
        if ranges.contains_key(h) {
            kept.insert(*h);
        }
        assert(kept@ =~= Set::new(|x: usize| keys.take(i + 1).contains(x) && ranges@.contains_key(x)));
    }
    assert(keys.take(keys.len() as int) =~= keys);
    assert(kept@ =~= before.filter(|h: usize| ranges@.contains_key(h))) by {
        assert forall|x: usize| keys.contains(x) <==> before.contains(x) by {
            assert(keys.to_set().contains(x) == keys.contains(x));
        }
    }
    *folded = kept;
}

/// The 1-based lines `from..=n` that no folded header hides.
pub open spec fn visible_from(n: usize, headers: Set<usize>, ranges: Map<usize, usize>, from: int) -> Seq<usize>
    decreases n - from + 1,
{
    if from < 1 || from > n {
        Seq::empty()
    } else {
        let rest = visible_from(n, headers, ranges, from + 1);
        if fold::hidden_by(from as usize, headers, ranges) {
            rest
        } else {
            seq![from as usize] + rest
        }
    }
}

/// The lines (1-based, of `line_count`) that stay visible under the folds.
pub fn visible_lines(line_count: usize, folded: &BTreeSet<usize>, ranges: &BTreeMap<usize, usize>) -> (r: Vec<usize>)
    ensures
        r@ == visible_from(line_count, folded@, ranges@, 1),
{
    let mut r: Vec<usize> = Vec::new();
    let mut ln: usize = 1;
    assert(r@ + visible_from(line_count, folded@, ranges@, 1) =~= visible_from(line_count, folded@, ranges@, 1));
    while ln <= line_count
        invariant
            1 <= ln,
            ln <= line_count + 1,
            r@ + visible_from(line_count, folded@, ranges@, ln as int) == visible_from(
                line_count,
                folded@,
                ranges@,
                1,
            ),
        decreases line_count + 1 - ln,
    {
        let ghost before = r@;
        if !fold::is_hidden(ln, folded, ranges) {
            r.push(ln);
            assert(before + visible_from(line_count, folded@, ranges@, ln as int) =~= r@
                + visible_from(line_count, folded@, ranges@, ln + 1));
        }
        if ln == line_count {
            assert(visible_from(line_count, folded@, ranges@, ln + 1) == Seq::<usize>::empty());
            assert(r@ + Seq::<usize>::empty() =~= r@);
            return r;
        }
        ln += 1;
    }
    assert(visible_from(line_count, folded@, ranges@, ln as int) == Seq::<usize>::empty());
    assert(r@ + Seq::<usize>::empty() =~= r@);
    r
}

/// The folded headers after toggling header `h`.
pub open spec fn fold_toggled(s: Set<usize>, h: usize) -> Set<usize> {
    if s.contains(h) {
        s.remove(h)
    } else {
        s.insert(h)
    }
}

/// Folds the region of header `h`, or unfolds it when it was folded.
pub fn toggle_fold(folded: &mut BTreeSet<usize>, h: usize)
    ensures
        final(folded)@ == fold_toggled(old(folded)@, h),
{
    if !folded.remove(&h) {
        folded.insert(h);
    }
}

/// The fold chevron beside a line number.
#[derive(Clone, Copy, Debug, PartialEq, Eq, Structural)]
pub enum FoldChevron {
    /// The region is folded: the chevron points right.
    Folded,
    /// The region is open: the chevron points down.
    Open,
}

/// The chevron in the gutter of line `ln`: none unless the line starts a
/// region; a folded region always shows its chevron, an open one only
/// while the pointer is over the gutter.
pub fn gutter_chevron(
    ln: usize,
    ranges: &BTreeMap<usize, usize>,
    folded: &BTreeSet<usize>,
    gutter_hovered: bool,
) -> (r: Option<FoldChevron>)
    ensures
        r == (if !ranges@.contains_key(ln) {
            None
        } else if folded@.contains(ln) {
            Some(FoldChevron::Folded)
        } else if gutter_hovered {
            Some(FoldChevron::Open)
        } else {
            None
        }),
{
    if !ranges.contains_key(&ln) {
        None
    } else if folded.contains(&ln) {
        Some(FoldChevron::Folded)
    } else if gutter_hovered {
        Some(FoldChevron::Open)
    } else {
        None
    }
}

/// Toggling the same fold twice leaves the folds as they were.
pub proof fn law_fold_toggle_twice(s: Set<usize>, h: usize)
    ensures
        fold_toggled(fold_toggled(s, h), h) == s,
{
    assert(fold_toggled(fold_toggled(s, h), h) =~= s);
}

} // verus!

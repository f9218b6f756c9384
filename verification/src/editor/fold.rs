//! Indentation-based code folding.
//!
//! A line `H` is a *fold header* when at least one of the lines that follow
//! it, skipping blank lines, is indented deeper than `H`. The region runs
//! from `H` down to the last line of the run of deeper-or-blank lines that
//! follows it and is itself deeper than `H` (blank lines at the end of the
//! run are not part of the region).

use std::collections::BTreeMap;
use std::collections::BTreeSet;

use vstd::prelude::*;

use crate::text;

verus! {

broadcast use vstd::laws_cmp::group_laws_cmp, vstd::std_specs::btree::group_btree_axioms;

/// Visible width of a line's leading run of spaces and tabs (a tab counts
/// 4).
pub open spec fn lead_width(l: Seq<char>) -> int
    decreases l.len(),
{
    if l.len() == 0 {
        0
    } else if l[0] == ' ' {
        lead_width(l.drop_first()) + 1
    } else if l[0] == '\t' {
        lead_width(l.drop_first()) + 4
    } else {
        0
    }
}

/// Every character of `l` is whitespace (`char::is_whitespace`).
pub open spec fn all_whitespace(l: Seq<char>) -> bool {
    forall|i: int| 0 <= i < l.len() ==> text::whitespace(#[trigger] l[i])
}

/// The indentation of a line: `None` for a blank line (empty, or made only
/// of whitespace), otherwise the width of its leading spaces and tabs.
pub open spec fn indent(l: Seq<char>) -> Option<int> {
    if all_whitespace(l) {
        None
    } else {
        Some(lead_width(l))
    }
}

pub proof fn lemma_indent_bound(l: Seq<char>)
    ensures
        0 <= lead_width(l) <= 4 * l.len(),
        indent(l) matches Some(w) ==> 0 <= w <= 4 * l.len(),
    decreases l.len(),
{
    if l.len() > 0 {
        lemma_indent_bound(l.drop_first());
    }
}

/// Visible width of `line`'s leading whitespace, with tabs counted as 4;
/// `None` for blank (whitespace-only or empty) lines.
pub fn indent_of(line: &Vec<char>, lo: usize, hi: usize) -> (r: Option<usize>)
    requires
        lo <= hi <= line@.len(),
        hi - lo <= usize::MAX / 4,
    ensures
        match r {
            Some(w) => indent(line@.subrange(lo as int, hi as int)) == Some(w as int),
            None => indent(line@.subrange(lo as int, hi as int)) is None,
        },
{
    let ghost whole = line@.subrange(lo as int, hi as int);
    let mut width: usize = 0;
    let mut k: usize = lo;
    while k < hi && (line[k] == ' ' || line[k] == '\t')
        invariant
            lo <= k <= hi <= line@.len(),
            hi - lo <= usize::MAX / 4,
            whole == line@.subrange(lo as int, hi as int),
            width <= 4 * (k - lo),
            lead_width(whole) == width + lead_width(line@.subrange(k as int, hi as int)),
            forall|i: int| lo <= i < k ==> (line@[i] == ' ' || line@[i] == '\t'),
        decreases hi - k,
    {
        let ghost t = line@.subrange(k as int, hi as int);
        assert(t.drop_first() =~= line@.subrange(k + 1 as int, hi as int));
        if line[k] == ' ' {
            width += 1;
        } else {
            width += 4;
        }
        k += 1;
    }
    let ghost rest = line@.subrange(k as int, hi as int);
    assert(lead_width(rest) == 0);
    assert(lead_width(whole) == width);
    let mut j: usize = k;
    while j < hi
        invariant
            lo <= k <= j <= hi <= line@.len(),
            whole == line@.subrange(lo as int, hi as int),
            lead_width(whole) == width,
            forall|i: int| lo <= i < k ==> (line@[i] == ' ' || line@[i] == '\t'),
            forall|i: int| k <= i < j ==> text::whitespace(line@[i]),
        decreases hi - j,
    {
        if !text::is_whitespace(line[j]) {
            assert(whole[j - lo] == line@[j as int]);
            return Some(width);
        }
        j += 1;
    }
    assert(all_whitespace(whole)) by {
        assert forall|i: int| 0 <= i < whole.len() implies text::whitespace(#[trigger] whole[i]) by {
            assert(whole[i] == line@[lo + i]);
            if lo + i < k {
                assert(line@[lo + i] == ' ' || line@[lo + i] == '\t');
            }
        }
    }
    None
}

/// Where the scan for the region of a header with indentation `cur` ends,
/// having started at line `j` with `last` the last deeper line seen so far:
/// blank lines are passed over, deeper lines extend the region, and the
/// first line at most as deep as the header stops the scan.
pub open spec fn scan(ind: Seq<Option<int>>, cur: int, j: int, last: int) -> int
    decreases ind.len() - j,
{
    if j < 0 || j >= ind.len() {
        last
    } else {
        match ind[j] {
            None => scan(ind, cur, j + 1, last),
            Some(level) => if level > cur {
                scan(ind, cur, j + 1, j)
            } else {
                last
            },
        }
    }
}

/// The indentation of every line (the pieces between `'\n'`).
pub open spec fn line_indents(t: Seq<char>) -> Seq<Option<int>> {
    text::split_char(t, '\n').map_values(|l: Seq<char>| indent(l))
}

/// The region end (0-based) of the line `i`, if it is a fold header.
pub open spec fn region_end(ind: Seq<Option<int>>, i: int) -> Option<int> {
    match ind[i] {
        None => None,
        Some(cur) => {
            let e = scan(ind, cur, i + 1, i);
            if e > i {
                Some(e)
            } else {
                None
            }
        },
    }
}

/// The fold regions of lines `0..upto`, as 1-based `header -> last line`.
pub open spec fn regions_upto(ind: Seq<Option<int>>, upto: int) -> Map<usize, usize> {
    Map::new(
        |h: usize| 1 <= h <= upto && h <= ind.len() && region_end(ind, h - 1) is Some,
        |h: usize| (region_end(ind, h - 1)->0 + 1) as usize,
    )
}

/// The fold regions of a text, as 1-based `header -> last line`.
pub open spec fn fold_regions(t: Seq<char>) -> Map<usize, usize> {
    let ind = line_indents(t);
    regions_upto(ind, ind.len() as int)
}

pub proof fn lemma_scan_bounds(ind: Seq<Option<int>>, cur: int, j: int, last: int)
    requires
        0 <= j,
        last < j,
    ensures
        last <= scan(ind, cur, j, last) < ind.len() || scan(ind, cur, j, last) == last,
    decreases ind.len() - j,
{
    if j < ind.len() {
        match ind[j] {
            None => lemma_scan_bounds(ind, cur, j + 1, last),
            Some(level) => if level > cur {
                lemma_scan_bounds(ind, cur, j + 1, j);
            },
        }
    }
}

/// Map of `header_line -> last_line` (both 1-based, inclusive) for every
/// foldable region in `text`.
pub fn foldable_ranges(text: &str) -> (r: BTreeMap<usize, usize>)
    requires
        text@.len() <= usize::MAX / 4,
    ensures
        r@ == fold_regions(text@),
{
    let v = text::chars_of(text);
    let pieces = text::split_ranges(&v, 0, v.len(), '\n');
    assert(v@.subrange(0, v@.len() as int) =~= v@);
    let ghost sp = text::split_char(v@, '\n');
    let ghost ind = line_indents(v@);
    let n = pieces.len();
    let mut indents: Vec<Option<usize>> = Vec::new();
    let mut k: usize = 0;
    while k < n
        invariant
            n == pieces@.len(),
            text::ranges_cut(v@, pieces@, sp),
            v@.len() <= usize::MAX / 4,
            ind == sp.map_values(|l: Seq<char>| indent(l)),
            0 <= k <= n,
            indents@.len() == k,
            forall|i: int|
                #![trigger indents@[i]]
                0 <= i < k ==> match indents@[i] {
                    Some(w) => ind[i] == Some(w as int),
                    None => ind[i] is None,
                },
        decreases n - k,
    {
        let (a, b) = pieces[k];
        assert(sp[k as int] == v@.subrange(a as int, b as int));
        let w = indent_of(&v, a, b);
        indents.push(w);
        k += 1;
    }
    let mut ranges: BTreeMap<usize, usize> = BTreeMap::new();
    let mut i: usize = 0;
    while i < n
        invariant
            n == indents@.len(),
            n == ind.len(),
            forall|x: int|
                #![trigger indents@[x]]
                0 <= x < n ==> match indents@[x] {
                    Some(w) => ind[x] == Some(w as int),
                    None => ind[x] is None,
                },
            0 <= i <= n,
            ranges@ == regions_upto(ind, i as int),
        decreases n - i,
    {
        let ghost old_ranges = ranges@;
        match indents[i] {
            None => {
                assert(region_end(ind, i as int) is None);
            },
            Some(cur) => {
                let mut j = i + 1;
                let mut last_deeper = i;
                while j < n
                    invariant
                        n == indents@.len(),
                        n == ind.len(),
                        forall|x: int|
                            #![trigger indents@[x]]
                            0 <= x < n ==> match indents@[x] {
                                Some(w) => ind[x] == Some(w as int),
                                None => ind[x] is None,
                            },
                        i < j <= n,
                        i <= last_deeper < j,
                        ind[i as int] == Some(cur as int),
                        scan(ind, cur as int, i + 1, i as int) == scan(
                            ind,
                            cur as int,
                            j as int,
                            last_deeper as int,
                        ),
                    ensures
                        scan(ind, cur as int, i + 1, i as int) == last_deeper as int,
                        i <= last_deeper,
                    decreases n - j,
                {
                    match indents[j] {
                        None => {
                            j += 1;
                        },
                        Some(level) => {
                            if level > cur {
                                last_deeper = j;
                                j += 1;
                            } else {
                                break;
                            }
                        },
                    }
                }
                assert(scan(ind, cur as int, i + 1, i as int) == last_deeper as int);
                if last_deeper > i {
                    ranges.insert(i + 1, last_deeper + 1);
                }
            },
        }
        i += 1;
        assert(ranges@ =~= regions_upto(ind, i as int));
    }
    assert(ind.len() == sp.len());
    ranges
}

/// Whether `line` (1-based) is hidden by one of the folded `headers`: it
/// lies strictly after a folded header and within that header's region.
pub open spec fn hidden_by(line: usize, headers: Set<usize>, ranges: Map<usize, usize>) -> bool {
    exists|h: usize|
        #![trigger headers.contains(h)]
        headers.contains(h) && ranges.contains_key(h) && h < line && line <= ranges[h]
}

/// Returns `true` if `line` (1-based) is hidden by one of the currently
/// folded `headers`, given the computed `ranges`. A line is hidden when it
/// falls strictly after a folded header and within its region.
pub fn is_hidden(line: usize, headers: &BTreeSet<usize>, ranges: &BTreeMap<usize, usize>) -> (r:
    bool)
    ensures
        r == hidden_by(line, headers@, ranges@),
{
    let ghost keys = vstd::std_specs::iter::IteratorSpec::remaining(
        &vstd::std_specs::btree::spec_btree_keys_iter(headers),
    ).unref();
    proof {
        vstd::std_specs::btree::axiom_spec_btree_keys_iter(headers);
    }
    assert(keys.to_set() == headers@);
    for h in it: headers.iter()
        invariant
            it.seq().unref() == keys,
            keys.to_set() == headers@,
            forall|k: int|
                0 <= k < it.index() ==> !(ranges@.contains_key(#[trigger] keys[k]) && keys[k] < line
                    && line <= ranges@[keys[k]]),
    {
        match ranges.get(h) {
            Some(end) => {
                if line > *h && line <= *end {
                    assert(headers@.contains(*h)) by {
                        assert(it.seq().unref()[it.index() as int] == *h);
                    }
                    return true;
                }
            },
            None => {},
        }
    }
    assert forall|h: usize| headers@.contains(h) implies !(ranges@.contains_key(h) && h < line
        && line <= ranges@[h]) by {
        assert(keys.to_set().contains(h));
        let k = choose|k: int| 0 <= k < keys.len() && keys[k] == h;
        assert(keys[k] == h);
    }
    false
}

/// The line is blank or indented deeper than `cur`.
pub open spec fn blank_or_deeper(o: Option<int>, cur: int) -> bool {
    match o {
        Some(l) => l > cur,
        None => true,
    }
}

/// The line is indented deeper than `cur` (and not blank).
pub open spec fn deeper(o: Option<int>, cur: int) -> bool {
    match o {
        Some(l) => l > cur,
        None => false,
    }
}

/// What a scan that ended past its start saw: the line it ended on is
/// deeper than the header, and every line from its start to there is blank
/// or deeper than the header.
proof fn lemma_scan_shape(ind: Seq<Option<int>>, cur: int, j: int, last: int)
    requires
        0 <= j,
        last < j,
    ensures
        ({
            let e = scan(ind, cur, j, last);
            e != last ==> {
                &&& j <= e < ind.len()
                &&& deeper(ind[e], cur)
                &&& forall|k: int| j <= k <= e ==> blank_or_deeper(#[trigger] ind[k], cur)
            }
        }),
    decreases ind.len() - j,
{
    if j < ind.len() {
        match ind[j] {
            None => lemma_scan_shape(ind, cur, j + 1, last),
            Some(level) => if level > cur {
                lemma_scan_shape(ind, cur, j + 1, j);
                lemma_scan_bounds(ind, cur, j + 1, j);
            },
        }
    }
}

/// Every fold region runs from a non-blank header to a later line that is
/// indented deeper than the header, and every line in between (after the
/// header) is blank or indented deeper than the header (lines 1-based,
/// for a text whose lines can be numbered).
pub proof fn law_fold_region_shape(t: Seq<char>)
    requires
        line_indents(t).len() <= usize::MAX,
    ensures
        forall|h: usize|
            #[trigger] fold_regions(t).dom().contains(h) ==> {
                let ind = line_indents(t);
                let e = fold_regions(t)[h];
                &&& 1 <= h < e <= ind.len()
                &&& ind[h - 1] is Some
                &&& deeper(ind[e - 1], ind[h - 1]->0)
                &&& forall|k: int| h < k <= e ==> blank_or_deeper(#[trigger] ind[k - 1], ind[h - 1]->0)
            },
{
    let ind = line_indents(t);
    assert forall|h: usize| #[trigger] fold_regions(t).dom().contains(h) implies {
        let e = fold_regions(t)[h];
        &&& 1 <= h < e <= ind.len()
        &&& ind[h - 1] is Some
        &&& deeper(ind[e - 1], ind[h - 1]->0)
        &&& forall|k: int| h < k <= e ==> blank_or_deeper(#[trigger] ind[k - 1], ind[h - 1]->0)
    } by {
        let cur = ind[h - 1]->0;
        lemma_scan_shape(ind, cur, h as int, h - 1);
        lemma_scan_bounds(ind, cur, h as int, h - 1);
        let e0 = scan(ind, cur, h as int, h - 1);
        assert(region_end(ind, h - 1) == Some(e0));
        assert(fold_regions(t)[h] == (e0 + 1) as usize);
        assert forall|k: int| h < k <= e0 + 1 implies blank_or_deeper(#[trigger] ind[k - 1], cur) by {
            assert(h <= k - 1 <= e0);
        }
    }
}

/// After a scan from `j` that ended on `e`, the first non-blank line past
/// both is at most as deep as the header.
proof fn lemma_scan_stops(ind: Seq<Option<int>>, cur: int, j: int, last: int, k: int)
    requires
        0 <= j,
        last < j,
        j <= k < ind.len(),
        scan(ind, cur, j, last) < k,
        ind[k] is Some,
        forall|m: int| j <= m < k && scan(ind, cur, j, last) < m ==> #[trigger] ind[m] is None,
    ensures
        ind[k]->0 <= cur,
    decreases ind.len() - j,
{
    match ind[j] {
        None => {
            assert(j < k);
            lemma_scan_stops(ind, cur, j + 1, last, k);
        },
        Some(level) => if level > cur {
            lemma_scan_bounds(ind, cur, j + 1, j);
            lemma_scan_stops(ind, cur, j + 1, j, k);
        } else {
            if j < k {
                assert(ind[j] is None);
            }
        },
    }
}

/// A scan from `j` that meets a deeper line at `k` after only blank lines
/// ends no earlier than `k`.
proof fn lemma_scan_reaches(ind: Seq<Option<int>>, cur: int, j: int, last: int, k: int)
    requires
        0 <= j,
        last < j,
        j <= k < ind.len(),
        ind[k] matches Some(l) && l > cur,
        forall|m: int| j <= m < k ==> #[trigger] ind[m] is None,
    ensures
        scan(ind, cur, j, last) >= k,
    decreases ind.len() - j,
{
    if j < k {
        lemma_scan_reaches(ind, cur, j + 1, last, k);
    } else {
        lemma_scan_bounds(ind, cur, j + 1, j);
    }
}

/// A fold region is as long as it can be: the first non-blank line after
/// its last line is indented at most as deep as its header (lines 1-based).
/// So every non-blank line deeper than the header, up to the first later
/// line that is not, lies inside the region.
pub proof fn law_fold_region_maximal(t: Seq<char>, h: usize, k: int)
    requires
        line_indents(t).len() <= usize::MAX,
        fold_regions(t).dom().contains(h),
        fold_regions(t)[h] < k <= line_indents(t).len(),
        line_indents(t)[k - 1] is Some,
        forall|m: int| fold_regions(t)[h] < m < k ==> #[trigger] line_indents(t)[m - 1] is None,
    ensures
        line_indents(t)[h - 1] matches Some(c) && line_indents(t)[k - 1]->0 <= c,
{
    let ind = line_indents(t);
    let cur = ind[h - 1]->0;
    let e0 = scan(ind, cur, h as int, h - 1);
    lemma_scan_bounds(ind, cur, h as int, h - 1);
    assert(region_end(ind, h - 1) == Some(e0));
    assert forall|m: int| h <= m < k - 1 && e0 < m implies #[trigger] ind[m] is None by {
        assert(fold_regions(t)[h] < m + 1 < k);
        assert(line_indents(t)[(m + 1) - 1] is None);
    }
    lemma_scan_stops(ind, cur, h as int, h - 1, k - 1);
}

/// A non-blank line whose next non-blank line is indented deeper is a fold
/// header, and its region reaches at least that line (lines 1-based).
pub proof fn law_fold_header_found(t: Seq<char>, h: usize, k: int)
    requires
        line_indents(t).len() <= usize::MAX,
        1 <= h < k <= line_indents(t).len(),
        line_indents(t)[h - 1] matches Some(c) && line_indents(t)[k - 1] matches Some(d) && d > c,
        forall|m: int| h < m < k ==> #[trigger] line_indents(t)[m - 1] is None,
    ensures
        fold_regions(t).dom().contains(h),
        fold_regions(t)[h] >= k,
{
    let ind = line_indents(t);
    let cur = ind[h - 1]->0;
    assert forall|m: int| h <= m < k - 1 implies #[trigger] ind[m] is None by {
        assert(h < m + 1 < k);
        assert(line_indents(t)[(m + 1) - 1] is None);
    }
    lemma_scan_reaches(ind, cur, h as int, h - 1, k - 1);
    lemma_scan_bounds(ind, cur, h as int, h - 1);
    let e0 = scan(ind, cur, h as int, h - 1);
    assert(region_end(ind, h - 1) == Some(e0));
    assert(fold_regions(t)[h] == (e0 + 1) as usize);
    assert(e0 + 1 <= usize::MAX);
}

} // verus!

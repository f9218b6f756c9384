//! Unix path arithmetic on path strings, following the rules of
//! `std::path::Path`: component splitting, `file_name`, `extension`,
//! `starts_with`, equality and `join`.
//!
//! Paths are plain `String`s in this crate; their components are the pieces
//! between `'/'`, without empty pieces and without `"."` pieces, after an
//! optional root (`"/"`) or a leading current-directory marker (`"."`).

use vstd::prelude::*;

use crate::text;

verus! {

/// A piece between separators that names something (not empty, not `"."`).
pub open spec fn keep_piece(x: Seq<char>) -> bool {
    x.len() > 0 && x != seq!['.']
}

/// The pieces that survive as components.
pub open spec fn kept(pieces: Seq<Seq<char>>) -> Seq<Seq<char>>
    decreases pieces.len(),
{
    if pieces.len() == 0 {
        Seq::empty()
    } else {
        let k = kept(pieces.drop_last());
        if keep_piece(pieces.last()) {
            k.push(pieces.last())
        } else {
            k
        }
    }
}

/// The components of a path, as `Path::components` yields them: the root
/// is written `"/"` and a leading current directory `"."`.
pub open spec fn components(p: Seq<char>) -> Seq<Seq<char>> {
    let pieces = text::split_char(p, '/');
    if p.len() > 0 && p[0] == '/' {
        seq![seq!['/']] + kept(pieces)
    } else if pieces[0] == seq!['.'] {
        seq![seq!['.']] + kept(pieces)
    } else {
        kept(pieces)
    }
}

/// A component that is a name (not the root, `"."` or `".."`).
pub open spec fn is_name(c: Seq<char>) -> bool {
    c != seq!['/'] && c != seq!['.'] && c != seq!['.', '.']
}

/// `Path::file_name`: the last component when it is a name.
pub open spec fn file_name(p: Seq<char>) -> Option<Seq<char>> {
    let c = components(p);
    if c.len() > 0 && is_name(c.last()) {
        Some(c.last())
    } else {
        None
    }
}

/// The file name of `p`, or all of `p` when it has none.
pub open spec fn name_or_path(p: Seq<char>) -> Seq<char> {
    match file_name(p) {
        Some(n) => n,
        None => p,
    }
}

/// `Path::extension` of a file name: the text after its last `'.'`, unless
/// it has no `'.'` or its only `'.'` is the first character.
pub open spec fn name_extension(f: Seq<char>) -> Option<Seq<char>> {
    match text::rfind(f, seq!['.']) {
        None => None,
        Some(i) => if i == 0 {
            None
        } else {
            Some(f.subrange(i + 1, f.len() as int))
        },
    }
}

/// `Path::extension`.
pub open spec fn extension(p: Seq<char>) -> Option<Seq<char>> {
    match file_name(p) {
        Some(f) => name_extension(f),
        None => None,
    }
}

/// `Path::starts_with`: the components of `base` begin the components of `p`.
pub open spec fn path_starts_with(p: Seq<char>, base: Seq<char>) -> bool {
    let a = components(p);
    let b = components(base);
    b.len() <= a.len() && a.subrange(0, b.len() as int) == b
}

/// Path equality, which compares components.
pub open spec fn path_eq(p: Seq<char>, q: Seq<char>) -> bool {
    components(p) == components(q)
}

/// `Path::parent` followed by `file_name`: the name of the directory that
/// holds the last component.
pub open spec fn parent_name(p: Seq<char>) -> Option<Seq<char>> {
    let c = components(p);
    if c.len() >= 2 && is_name(c[c.len() - 2]) && c.last() != seq!['/'] {
        Some(c[c.len() - 2])
    } else {
        None
    }
}

/// `Path::join` on strings: an absolute `rel` replaces `root`; otherwise a
/// `'/'` is added between them unless `root` is empty or already ends in one.
pub open spec fn join(root: Seq<char>, rel: Seq<char>) -> Seq<char> {
    if rel.len() > 0 && rel[0] == '/' {
        rel
    } else if root.len() == 0 || root.last() == '/' {
        root + rel
    } else {
        root + seq!['/'] + rel
    }
}

/// Whether `v[a..b]` is the single character `c`.
fn is_single(v: &Vec<char>, a: usize, b: usize, c: char) -> (r: bool)
    requires
        a <= b <= v@.len(),
    ensures
        r == (v@.subrange(a as int, b as int) == seq![c]),
{
    if b - a == 1 && v[a] == c {
        assert(v@.subrange(a as int, b as int) =~= seq![c]);
        true
    } else {
        proof {
            let sub = v@.subrange(a as int, b as int);
            if sub == seq![c] {
                assert(sub.len() == 1);
                assert(sub[0] == v@[a as int]);
            }
        }
        false
    }
}

/// Whether `v[a..b]` is `".."`.
fn is_dotdot(v: &Vec<char>, a: usize, b: usize) -> (r: bool)
    requires
        a <= b <= v@.len(),
    ensures
        r == (v@.subrange(a as int, b as int) == seq!['.', '.']),
{
    if b - a == 2 && v[a] == '.' && v[a + 1] == '.' {
        assert(v@.subrange(a as int, b as int) =~= seq!['.', '.']);
        true
    } else {
        proof {
            let sub = v@.subrange(a as int, b as int);
            if sub == seq!['.', '.'] {
                assert(sub.len() == 2);
                assert(sub[0] == v@[a as int]);
                assert(sub[1] == v@[a + 1]);
            }
        }
        false
    }
}

/// Whether the component held in `v[a..b]` is a name.
fn is_name_range(v: &Vec<char>, a: usize, b: usize) -> (r: bool)
    requires
        a <= b <= v@.len(),
    ensures
        r == is_name(v@.subrange(a as int, b as int)),
{
    !(is_single(v, a, b, '/') || is_single(v, a, b, '.') || is_dotdot(v, a, b))
}

/// The ranges in `v` of the components of `v`.
pub fn component_ranges(v: &Vec<char>) -> (r: Vec<(usize, usize)>)
    ensures
        text::ranges_cut(v@, r@, components(v@)),
{
    let pieces = text::split_ranges(v, 0, v.len(), '/');
    let ghost sp = text::split_char(v@, '/');
    assert(v@.subrange(0, v@.len() as int) =~= v@);
    proof {
        text::lemma_split_char_nonempty(v@, '/');
    }
    let mut r: Vec<(usize, usize)> = Vec::new();
    let (a0, b0) = pieces[0];
    assert(sp[0] == v@.subrange(a0 as int, b0 as int));
    if v.len() > 0 && v[0] == '/' {
        r.push((0, 1));
        assert(v@.subrange(0, 1) =~= seq!['/']);
    } else if is_single(v, a0, b0, '.') {
        r.push((a0, b0));
    }
    let ghost head = r@;
    let mut t: Vec<(usize, usize)> = Vec::new();
    let mut i: usize = 0;
    while i < pieces.len()
        invariant
            text::ranges_cut(v@, pieces@, sp),
            text::ranges_cut(v@, t@, kept(sp.take(i as int))),
            0 <= i <= pieces@.len(),
        decreases pieces@.len() - i,
    {
        let (a, b) = pieces[i];
        assert(sp[i as int] == v@.subrange(a as int, b as int));
        let ghost old_t = t@;
        assert(sp.take(i + 1 as int).drop_last() =~= sp.take(i as int));
        if b > a && !is_single(v, a, b, '.') {
            t.push((a, b));
            assert forall|j: int| #![trigger t@[j]] 0 <= j < t@.len() implies t@[j].0 <= t@[j].1
                <= v@.len() && kept(sp.take(i + 1 as int))[j] == v@.subrange(
                t@[j].0 as int,
                t@[j].1 as int,
            ) by {
                if j < old_t.len() {
                    assert(t@[j] == old_t[j]);
                    assert(kept(sp.take(i + 1 as int))[j] == kept(sp.take(i as int))[j]);
                }
            }
        }
        i += 1;
    }
    assert(sp.take(i as int) =~= sp);
    let ghost tail = t@;
    r.append(&mut t);
    assert(components(v@) =~= head.map_values(
        |x: (usize, usize)| v@.subrange(x.0 as int, x.1 as int),
    ) + kept(sp)) by {
        if v@.len() > 0 && v@[0] == '/' {
            assert(head.len() == 1);
        } else if sp[0] == seq!['.'] {
            assert(head.len() == 1);
        } else {
            assert(head.len() == 0);
        }
    }
    assert forall|j: int| #![trigger r@[j]] 0 <= j < r@.len() implies r@[j].0 <= r@[j].1
        <= v@.len() && components(v@)[j] == v@.subrange(r@[j].0 as int, r@[j].1 as int) by {
        if j >= head.len() {
            assert(r@[j] == tail[j - head.len()]);
        }
    }
    r
}

/// The file name of `v`, as a range of `v`.
pub fn file_name_range(v: &Vec<char>) -> (r: Option<(usize, usize)>)
    ensures
        match r {
            Some((a, b)) => a <= b <= v@.len() && file_name(v@) == Some(
                v@.subrange(a as int, b as int),
            ),
            None => file_name(v@) is None,
        },
{
    let c = component_ranges(v);
    if c.len() == 0 {
        return None;
    }
    let (a, b) = c[c.len() - 1];
    assert(components(v@).last() == v@.subrange(a as int, b as int));
    if is_name_range(v, a, b) {
        Some((a, b))
    } else {
        None
    }
}

/// `Path::file_name` of `p`, as a new string.
pub fn path_file_name(p: &str) -> (r: Option<String>)
    ensures
        match r {
            Some(n) => file_name(p@) == Some(n@),
            None => file_name(p@) is None,
        },
{
    let v = text::chars_of(p);
    match file_name_range(&v) {
        Some((a, b)) => Some(text::string_of(&v, a, b)),
        None => None,
    }
}

/// The file name of `p`, or `p` itself when it has none.
pub fn name_or_whole(p: &str) -> (r: String)
    ensures
        r@ == name_or_path(p@),
{
    match path_file_name(p) {
        Some(n) => n,
        None => text::owned(p),
    }
}

/// The extension of a file name held in `v[a..b]`, as a range of `v`.
pub fn name_extension_range(v: &Vec<char>, a: usize, b: usize) -> (r: Option<(usize, usize)>)
    requires
        a <= b <= v@.len(),
    ensures
        match r {
            Some((x, y)) => a <= x <= y <= b && name_extension(v@.subrange(a as int, b as int))
                == Some(v@.subrange(x as int, y as int)),
            None => name_extension(v@.subrange(a as int, b as int)) is None,
        },
{
    let f = slice_vec(v, a, b);
    let dot = vec!['.'];
    assert(dot@ =~= seq!['.']);
    match text::rfind_exec(&f, &dot) {
        None => None,
        Some(i) => {
            proof {
                text::lemma_rfind_props(f@, dot@);
            }
            if i == 0 {
                None
            } else {
                assert(v@.subrange(a + i + 1, b as int) =~= f@.subrange(i + 1, f@.len() as int));
                Some((a + i + 1, b))
            }
        },
    }
}

/// A copy of `v[a..b]`.
pub fn slice_vec(v: &Vec<char>, a: usize, b: usize) -> (r: Vec<char>)
    requires
        a <= b <= v@.len(),
    ensures
        r@ == v@.subrange(a as int, b as int),
{
    let mut r: Vec<char> = Vec::new();
    let mut i: usize = a;
    while i < b
        invariant
            a <= i <= b <= v@.len(),
            r@ == v@.subrange(a as int, i as int),
        decreases b - i,
    {
        r.push(v[i]);
        i += 1;
        assert(r@ =~= v@.subrange(a as int, i as int));
    }
    r
}

/// `Path::extension` of `p`, as a new string.
pub fn path_extension(p: &str) -> (r: Option<String>)
    ensures
        match r {
            Some(e) => extension(p@) == Some(e@),
            None => extension(p@) is None,
        },
{
    let v = text::chars_of(p);
    match file_name_range(&v) {
        None => None,
        Some((a, b)) => match name_extension_range(&v, a, b) {
            Some((x, y)) => Some(text::string_of(&v, x, y)),
            None => None,
        },
    }
}

/// Whether the component ranges `ra` of `a` and `rb` of `b` agree on their
/// first `n` components.
fn components_agree(
    a: &Vec<char>,
    ra: &Vec<(usize, usize)>,
    b: &Vec<char>,
    rb: &Vec<(usize, usize)>,
    n: usize,
) -> (r: bool)
    requires
        text::ranges_cut(a@, ra@, components(a@)),
        text::ranges_cut(b@, rb@, components(b@)),
        n <= ra@.len(),
        n <= rb@.len(),
    ensures
        r == (components(a@).subrange(0, n as int) == components(b@).subrange(0, n as int)),
{
    let mut i: usize = 0;
    while i < n
        invariant
            text::ranges_cut(a@, ra@, components(a@)),
            text::ranges_cut(b@, rb@, components(b@)),
            n <= ra@.len(),
            n <= rb@.len(),
            0 <= i <= n,
            components(a@).subrange(0, i as int) == components(b@).subrange(0, i as int),
        decreases n - i,
    {
        let (x0, x1) = ra[i];
        let (y0, y1) = rb[i];
        let ca = slice_vec(a, x0, x1);
        let cb = slice_vec(b, y0, y1);
        if !text::chars_eq(&ca, &cb) {
            assert(components(a@).subrange(0, n as int)[i as int] != components(b@).subrange(
                0,
                n as int,
            )[i as int]);
            return false;
        }
        i += 1;
        assert(components(a@).subrange(0, i as int) =~= components(a@).subrange(
            0,
            i - 1 as int,
        ).push(components(a@)[i - 1]));
        assert(components(b@).subrange(0, i as int) =~= components(b@).subrange(
            0,
            i - 1 as int,
        ).push(components(b@)[i - 1]));
    }
    true
}

/// `Path::starts_with`: whether the components of `base` begin those of `p`.
pub fn starts_with_path(p: &str, base: &str) -> (r: bool)
    ensures
        r == path_starts_with(p@, base@),
{
    let a = text::chars_of(p);
    let b = text::chars_of(base);
    let ra = component_ranges(&a);
    let rb = component_ranges(&b);
    if rb.len() > ra.len() {
        return false;
    }
    let r = components_agree(&a, &ra, &b, &rb, rb.len());
    assert(components(b@).subrange(0, rb@.len() as int) =~= components(b@));
    r
}

/// Path equality: whether `p` and `q` have the same components.
pub fn same_path(p: &str, q: &str) -> (r: bool)
    ensures
        r == path_eq(p@, q@),
{
    let a = text::chars_of(p);
    let b = text::chars_of(q);
    let ra = component_ranges(&a);
    let rb = component_ranges(&b);
    if rb.len() != ra.len() {
        return false;
    }
    let r = components_agree(&a, &ra, &b, &rb, rb.len());
    assert(components(b@).subrange(0, rb@.len() as int) =~= components(b@));
    assert(components(a@).subrange(0, ra@.len() as int) =~= components(a@));
    r
}

/// `root.join(rel)`, as `PathBuf::push` builds it.
pub fn join_path(root: &str, rel: &str) -> (r: String)
    ensures
        r@ == join(root@, rel@),
{
    let rv = text::chars_of(rel);
    if rv.len() > 0 && rv[0] == '/' {
        return text::owned(rel);
    }
    let tv = text::chars_of(root);
    let mut out = text::owned(root);
    if !(tv.len() == 0 || tv[tv.len() - 1] == '/') {
        text::push_char(&mut out, '/');
    }
    let mut i: usize = 0;
    let ghost base = out@;
    while i < rv.len()
        invariant
            0 <= i <= rv@.len(),
            out@ == base + rv@.subrange(0, i as int),
        decreases rv@.len() - i,
    {
        text::push_char(&mut out, rv[i]);
        i += 1;
        assert(out@ =~= base + rv@.subrange(0, i as int));
    }
    assert(rv@.subrange(0, rv@.len() as int) =~= rv@);
    out
}

/// The name of the directory that holds the last component of `p`.
pub fn path_parent_name(p: &str) -> (r: Option<String>)
    ensures
        match r {
            Some(n) => parent_name(p@) == Some(n@),
            None => parent_name(p@) is None,
        },
{
    let v = text::chars_of(p);
    let c = component_ranges(&v);
    if c.len() < 2 {
        return None;
    }
    let (a, b) = c[c.len() - 2];
    let (la, lb) = c[c.len() - 1];
    let ghost comps = components(v@);
    assert(comps[comps.len() - 2] == v@.subrange(a as int, b as int));
    assert(comps.last() == v@.subrange(la as int, lb as int));
    let last_root = is_single(&v, la, lb, '/');
    if !is_name_range(&v, a, b) || last_root {
        None
    } else {
        Some(text::string_of(&v, a, b))
    }
}

} // verus!

//! Character-level text utilities shared by the parsers of this crate.
//!
//! Every string is modelled by its view, a `Seq<char>`. The functions here
//! are the small building blocks (search, split, trim, number parsing) that
//! the editor, search and git modules compose; each one is specified by a
//! spec function of the same family defined in this file.

use vstd::prelude::*;

verus! {

// ---------------------------------------------------------------------------
// Outside behaviour of `std` that vstd does not describe.
// ---------------------------------------------------------------------------

/// The result of `str::to_lowercase` on the given characters.
pub uninterp spec fn lowercase(s: Seq<char>) -> Seq<char>;

/// Whether `char::is_alphanumeric` holds of the character.
pub uninterp spec fn alphanumeric(c: char) -> bool;

/// Unicode's `White_Space` property, which `char::is_whitespace` documents
/// that it tests: the 25 code points U+0009..=U+000D, U+0020, U+0085,
/// U+00A0, U+1680, U+2000..=U+200A, U+2028, U+2029, U+202F, U+205F and
/// U+3000.
pub open spec fn whitespace(c: char) -> bool {
    ||| ('\u{9}' <= c && c <= '\u{d}')
    ||| c == ' '
    ||| c == '\u{85}'
    ||| c == '\u{a0}'
    ||| c == '\u{1680}'
    ||| ('\u{2000}' <= c && c <= '\u{200a}')
    ||| c == '\u{2028}'
    ||| c == '\u{2029}'
    ||| c == '\u{202f}'
    ||| c == '\u{205f}'
    ||| c == '\u{3000}'
}

/// The result of `String::from_utf8_lossy` on the given bytes.
pub uninterp spec fn lossy_utf8(b: Seq<u8>) -> Seq<char>;

/// Calls `str::to_lowercase`. Its documentation maps every character to one
/// or more characters, so the result is never shorter than the input; what
/// the characters are is left to the name `lowercase`.
#[verifier::external_body]
pub(crate) fn to_lowercase(s: &str) -> (r: String)
    ensures
        r@ == lowercase(s@),
        r@.len() >= s@.len(),
{
    s.to_lowercase()
}

/// Calls `char::is_alphanumeric`; the answer is the name `alphanumeric`.
#[verifier::external_body]
pub(crate) fn is_alphanumeric(c: char) -> (b: bool)
    ensures
        b == alphanumeric(c),
{
    c.is_alphanumeric()
}

/// Whether `c` is white space in the sense of `char::is_whitespace`.
pub(crate) fn is_whitespace(c: char) -> (b: bool)
    ensures
        b == whitespace(c),
{
    ('\u{9}' <= c && c <= '\u{d}') || c == ' ' || c == '\u{85}' || c == '\u{a0}' || c == '\u{1680}'
        || ('\u{2000}' <= c && c <= '\u{200a}') || c == '\u{2028}' || c == '\u{2029}'
        || c == '\u{202f}' || c == '\u{205f}' || c == '\u{3000}'
}

/// The text of the bytes `b` as `String::from_utf8_lossy` gives it: their
/// UTF-8 decoding where they are valid UTF-8, and `lossy_utf8` of them
/// (invalid sequences replaced) otherwise.
pub open spec fn lossy_text(b: Seq<u8>) -> Seq<char> {
    if vstd::utf8::valid_utf8(b) {
        vstd::utf8::decode_utf8(b)
    } else {
        lossy_utf8(b)
    }
}

/// Calls `String::from_utf8_lossy`. Its documentation returns the text
/// unchanged when the bytes are valid UTF-8; for other bytes the result is
/// left to the name `lossy_utf8`.
#[verifier::external_body]
pub(crate) fn from_utf8_lossy(b: &[u8]) -> (r: String)
    ensures
        r@ == lossy_utf8(b@),
        vstd::utf8::valid_utf8(b@) ==> r@ == vstd::utf8::decode_utf8(b@),
{
    String::from_utf8_lossy(b).into_owned()
}

/// Calls `String::from_utf8`, which documents that it returns the text of
/// the bytes when they are valid UTF-8 and an error otherwise (turned into
/// `None` here).
#[verifier::external_body]
pub(crate) fn from_utf8(b: Vec<u8>) -> (r: Option<String>)
    ensures
        match r {
            Some(s) => vstd::utf8::valid_utf8(b@) && s@ == vstd::utf8::decode_utf8(b@),
            None => !vstd::utf8::valid_utf8(b@),
        },
{
    String::from_utf8(b).ok()
}

/// Calls `str::len`, whose documentation gives the length of the text in
/// bytes, that is the size of its UTF-8 encoding.
#[verifier::external_body]
pub(crate) fn str_byte_len(s: &str) -> (n: usize)
    ensures
        n == byte_len(s@),
{
    s.len()
}

/// Calls `String::push`, which appends one character.
#[verifier::external_body]
pub(crate) fn push_char(s: &mut String, c: char)
    ensures
        final(s)@ == old(s)@.push(c),
{
    s.push(c);
}

/// Appends the text `t` to `s`, one character at a time.
pub fn push_str(s: &mut String, t: &str)
    ensures
        final(s)@ == old(s)@ + t@,
{
    let v = chars_of(t);
    let ghost base = s@;
    let mut i: usize = 0;
    while i < v.len()
        invariant
            0 <= i <= v@.len(),
            v@ == t@,
            s@ == base + v@.take(i as int),
        decreases v@.len() - i,
    {
        push_char(s, v[i]);
        i += 1;
        assert(s@ =~= base + v@.take(i as int));
    }
    assert(v@.take(i as int) =~= v@);
}

// ---------------------------------------------------------------------------
// Conversions between `str`, `String` and `Vec<char>`.
// ---------------------------------------------------------------------------

/// The characters of `s`, in order.
pub fn chars_of(s: &str) -> (v: Vec<char>)
    ensures
        v@ == s@,
{
    let mut v: Vec<char> = Vec::new();
    for c in it: s.chars()
        invariant
            v@ == it.seq().take(it.index() as int),
            it.seq() == s@,
    {
        v.push(c);
    }
    v
}

/// A `String` holding `v[lo..hi]`.
pub fn string_of(v: &Vec<char>, lo: usize, hi: usize) -> (s: String)
    requires
        lo <= hi <= v@.len(),
    ensures
        s@ == v@.subrange(lo as int, hi as int),
{
    let mut s = String::new();
    let mut i: usize = lo;
    while i < hi
        invariant
            lo <= i <= hi <= v@.len(),
            s@ == v@.subrange(lo as int, i as int),
        decreases hi - i,
    {
        push_char(&mut s, v[i]);
        i += 1;
        assert(s@ =~= v@.subrange(lo as int, i as int));
    }
    s
}

/// An owned copy of `s`.
pub fn owned(s: &str) -> (r: String)
    ensures
        r@ == s@,
{
    s.to_owned()
}

/// Whether two character sequences are equal, decided element by element.
pub fn chars_eq(a: &Vec<char>, b: &Vec<char>) -> (r: bool)
    ensures
        r == (a@ == b@),
{
    if a.len() != b.len() {
        return false;
    }
    let mut i: usize = 0;
    while i < a.len()
        invariant
            a@.len() == b@.len(),
            0 <= i <= a@.len(),
            a@.subrange(0, i as int) == b@.subrange(0, i as int),
        decreases a@.len() - i,
    {
        if a[i] != b[i] {
            assert(a@[i as int] != b@[i as int]);
            return false;
        }
        i += 1;
        assert(a@.subrange(0, i as int) =~= a@.subrange(0, i - 1 as int).push(a@[i - 1]));
        assert(b@.subrange(0, i as int) =~= b@.subrange(0, i - 1 as int).push(b@[i - 1]));
    }
    assert(a@ =~= a@.subrange(0, i as int));
    assert(b@ =~= b@.subrange(0, i as int));
    true
}

/// Whether `s` equals the text `lit`.
pub fn str_eq(s: &Vec<char>, lit: &str) -> (r: bool)
    ensures
        r == (s@ == lit@),
{
    let l = chars_of(lit);
    chars_eq(s, &l)
}

// ---------------------------------------------------------------------------
// Prefixes, suffixes and occurrences.
// ---------------------------------------------------------------------------

/// `p` occurs in `s` starting at index `i`.
pub open spec fn occurs_at(s: Seq<char>, p: Seq<char>, i: int) -> bool {
    0 <= i && i + p.len() <= s.len() && s.subrange(i, i + p.len()) == p
}

/// `s` starts with `p`.
pub open spec fn has_prefix(s: Seq<char>, p: Seq<char>) -> bool {
    occurs_at(s, p, 0)
}

/// `s` ends with `p`.
pub open spec fn has_suffix(s: Seq<char>, p: Seq<char>) -> bool {
    p.len() <= s.len() && occurs_at(s, p, s.len() - p.len())
}

/// The first index at or after `i` where `p` occurs in `s`.
pub open spec fn find_from(s: Seq<char>, p: Seq<char>, i: int) -> Option<int>
    decreases s.len() + 1 - i,
{
    if i < 0 || i + p.len() > s.len() {
        None
    } else if occurs_at(s, p, i) {
        Some(i)
    } else {
        find_from(s, p, i + 1)
    }
}

/// The first index where `p` occurs in `s`.
pub open spec fn find(s: Seq<char>, p: Seq<char>) -> Option<int> {
    find_from(s, p, 0)
}

/// The last index at or before `i` where `p` occurs in `s`.
pub open spec fn rfind_to(s: Seq<char>, p: Seq<char>, i: int) -> Option<int>
    decreases i + 1,
{
    if i < 0 {
        None
    } else if occurs_at(s, p, i) {
        Some(i)
    } else {
        rfind_to(s, p, i - 1)
    }
}

/// The last index where `p` occurs in `s`.
pub open spec fn rfind(s: Seq<char>, p: Seq<char>) -> Option<int> {
    rfind_to(s, p, s.len() - p.len())
}

pub proof fn lemma_find_from_props(s: Seq<char>, p: Seq<char>, i: int)
    requires
        0 <= i,
    ensures
        match find_from(s, p, i) {
            Some(k) => i <= k && occurs_at(s, p, k) && forall|j: int|
                i <= j < k ==> !occurs_at(s, p, j),
            None => forall|j: int| i <= j ==> !occurs_at(s, p, j),
        },
    decreases s.len() + 1 - i,
{
    if i + p.len() > s.len() {
    } else if occurs_at(s, p, i) {
    } else {
        lemma_find_from_props(s, p, i + 1);
    }
}


/// Whether `p` occurs in `v` at index `i`, decided element by element.
pub fn occurs_at_exec(v: &Vec<char>, p: &Vec<char>, i: usize) -> (r: bool)
    ensures
        r == occurs_at(v@, p@, i as int),
{
    if i > v.len() || p.len() > v.len() - i {
        return false;
    }
    let mut k: usize = 0;
    while k < p.len()
        invariant
            i + p@.len() <= v.len(),
            0 <= k <= p@.len(),
            forall|j: int| 0 <= j < k ==> v@[i + j] == p@[j],
        decreases p@.len() - k,
    {
        if v[i + k] != p[k] {
            assert(v@.subrange(i as int, i + p@.len())[k as int] != p@[k as int]);
            return false;
        }
        k += 1;
    }
    assert(v@.subrange(i as int, i + p@.len()) =~= p@);
    true
}

/// Whether `v` starts with the text `lit`.
pub fn starts_with(v: &Vec<char>, lit: &str) -> (r: bool)
    ensures
        r == has_prefix(v@, lit@),
{
    let p = chars_of(lit);
    occurs_at_exec(v, &p, 0)
}

/// Whether `v` ends with the text `lit`.
pub fn ends_with(v: &Vec<char>, lit: &str) -> (r: bool)
    ensures
        r == has_suffix(v@, lit@),
{
    let p = chars_of(lit);
    if p.len() > v.len() {
        return false;
    }
    occurs_at_exec(v, &p, v.len() - p.len())
}

/// Whether `v[lo..hi]` starts with `p`.
pub fn starts_with_range(v: &Vec<char>, lo: usize, hi: usize, p: &Vec<char>) -> (r: bool)
    requires
        lo <= hi <= v@.len(),
    ensures
        r == has_prefix(v@.subrange(lo as int, hi as int), p@),
{
    let ghost t = v@.subrange(lo as int, hi as int);
    if p.len() > hi - lo {
        return false;
    }
    let r = occurs_at_exec(v, p, lo);
    assert(t.subrange(0, p@.len() as int) =~= v@.subrange(lo as int, lo + p@.len()));
    r
}

/// The first index at or after `from` where `p` occurs in `v`.
pub fn find_exec(v: &Vec<char>, p: &Vec<char>, from: usize) -> (r: Option<usize>)
    ensures
        match r {
            Some(k) => find_from(v@, p@, from as int) == Some(k as int),
            None => find_from(v@, p@, from as int) is None,
        },
{
    let mut i: usize = from;
    while i <= v.len() && p.len() <= v.len() - i
        invariant
            from <= i,
            find_from(v@, p@, from as int) == find_from(v@, p@, i as int),
        decreases v@.len() + 1 - i,
    {
        if occurs_at_exec(v, p, i) {
            return Some(i);
        }
        if i == v.len() {
            assert(p@.len() > 0) by {
                if p@.len() == 0 {
                    assert(v@.subrange(i as int, i as int) =~= p@);
                }
            }
            return None;
        }
        i += 1;
    }
    None
}

/// The last index at or before `to` where `p` occurs in `v`.
pub fn rfind_exec(v: &Vec<char>, p: &Vec<char>) -> (r: Option<usize>)
    ensures
        match r {
            Some(k) => rfind(v@, p@) == Some(k as int),
            None => rfind(v@, p@) is None,
        },
{
    if p.len() > v.len() {
        return None;
    }
    let mut i: usize = v.len() - p.len();
    loop
        invariant
            i <= v@.len() - p@.len(),
            rfind(v@, p@) == rfind_to(v@, p@, i as int),
        decreases i,
    {
        if occurs_at_exec(v, p, i) {
            return Some(i);
        }
        if i == 0 {
            assert(rfind_to(v@, p@, -1) is None);
            return None;
        }
        i -= 1;
    }
}

/// Whether the text `lit` occurs anywhere in `v`.
pub fn contains_str(v: &Vec<char>, lit: &str) -> (r: bool)
    ensures
        r == find(v@, lit@) is Some,
{
    let p = chars_of(lit);
    find_exec(v, &p, 0).is_some()
}

pub proof fn lemma_rfind_to_props(s: Seq<char>, p: Seq<char>, i: int)
    ensures
        match rfind_to(s, p, i) {
            Some(k) => k <= i && occurs_at(s, p, k) && forall|j: int|
                k < j <= i ==> !occurs_at(s, p, j),
            None => forall|j: int| j <= i ==> !occurs_at(s, p, j),
        },
    decreases i + 1,
{
    if i < 0 {
    } else if occurs_at(s, p, i) {
    } else {
        lemma_rfind_to_props(s, p, i - 1);
    }
}

pub proof fn lemma_rfind_props(s: Seq<char>, p: Seq<char>)
    ensures
        match rfind(s, p) {
            Some(k) => occurs_at(s, p, k) && forall|j: int| k < j ==> !occurs_at(s, p, j),
            None => forall|j: int| !occurs_at(s, p, j),
        },
{
    lemma_rfind_to_props(s, p, s.len() - p.len());
}

// ---------------------------------------------------------------------------
// Splitting.
// ---------------------------------------------------------------------------

/// `s` cut at every occurrence of `c` (the pieces of `str::split(c)`).
pub open spec fn split_char(s: Seq<char>, c: char) -> Seq<Seq<char>>
    decreases s.len(),
{
    if s.len() == 0 {
        seq![Seq::empty()]
    } else {
        let prev = split_char(s.drop_last(), c);
        if s.last() == c {
            prev.push(Seq::empty())
        } else {
            prev.update(prev.len() - 1, prev.last().push(s.last()))
        }
    }
}

pub proof fn lemma_split_char_nonempty(s: Seq<char>, c: char)
    ensures
        split_char(s, c).len() >= 1,
    decreases s.len(),
{
    if s.len() > 0 {
        lemma_split_char_nonempty(s.drop_last(), c);
    }
}

/// The ranges `r` describe the pieces `pieces` of `v`: each range is in
/// bounds and cuts out the corresponding piece.
pub open spec fn ranges_cut(v: Seq<char>, r: Seq<(usize, usize)>, pieces: Seq<Seq<char>>) -> bool {
    &&& r.len() == pieces.len()
    &&& forall|i: int|
        #![trigger r[i]]
        #![trigger pieces[i]]
        0 <= i < r.len() ==> {
            &&& r[i].0 <= r[i].1 <= v.len()
            &&& pieces[i] == v.subrange(r[i].0 as int, r[i].1 as int)
        }
}

/// The ranges of `v[lo..hi]` between occurrences of `c`.
pub fn split_ranges(v: &Vec<char>, lo: usize, hi: usize, c: char) -> (r: Vec<(usize, usize)>)
    requires
        lo <= hi <= v@.len(),
    ensures
        ranges_cut(v@, r@, split_char(v@.subrange(lo as int, hi as int), c)),
        forall|i: int| 0 <= i < r@.len() ==> lo <= r@[i].0,
        forall|i: int| 0 <= i < r@.len() ==> r@[i].1 <= hi,
{
    let mut r: Vec<(usize, usize)> = Vec::new();
    let mut start: usize = lo;
    let mut k: usize = lo;
    assert(v@.subrange(lo as int, lo as int) =~= Seq::<char>::empty());
    while k < hi
        invariant
            lo <= start <= k <= hi <= v@.len(),
            ranges_cut(
                v@,
                r@.push((start, k)),
                split_char(v@.subrange(lo as int, k as int), c),
            ),
            forall|i: int| 0 <= i < r@.len() ==> lo <= r@[i].0 && r@[i].1 <= k,
        decreases hi - k,
    {
        let ghost old_r = r@.push((start, k));
        let ghost pre = v@.subrange(lo as int, k as int);
        let ghost cur = v@.subrange(lo as int, k + 1 as int);
        let ghost prev = split_char(pre, c);
        assert(cur.drop_last() =~= pre);
        assert(cur.last() == v@[k as int]);
        proof {
            lemma_split_char_nonempty(pre, c);
        }
        assert(prev.last() == v@.subrange(start as int, k as int)) by {
            assert(old_r[old_r.len() - 1] == (start, k));
        }
        if v[k] == c {
            r.push((start, k));
            start = k + 1;
            k += 1;
            assert(split_char(cur, c) == prev.push(Seq::<char>::empty()));
            assert(r@.push((start, k)) =~= old_r.push((start, k)));
            assert forall|i: int| 0 <= i < r@.push((start, k)).len() implies {
                &&& r@.push((start, k))[i].0 <= r@.push((start, k))[i].1 <= v@.len()
                &&& #[trigger] split_char(cur, c)[i] == v@.subrange(
                    r@.push((start, k))[i].0 as int,
                    r@.push((start, k))[i].1 as int,
                )
            } by {
                if i < old_r.len() {
                    assert(split_char(cur, c)[i] == prev[i]);
                } else {
                    assert(v@.subrange(start as int, k as int) =~= Seq::<char>::empty());
                }
            }
        } else {
            k += 1;
            let ghost newp = prev.last().push(v@[k - 1]);
            assert(split_char(cur, c) == prev.update(prev.len() - 1, newp));
            assert(v@.subrange(start as int, k as int) =~= newp);
            assert(r@.push((start, k)) =~= old_r.update(old_r.len() - 1, (start, k)));
            assert forall|i: int| 0 <= i < r@.push((start, k)).len() implies {
                &&& r@.push((start, k))[i].0 <= r@.push((start, k))[i].1 <= v@.len()
                &&& #[trigger] split_char(cur, c)[i] == v@.subrange(
                    r@.push((start, k))[i].0 as int,
                    r@.push((start, k))[i].1 as int,
                )
            } by {
                if i < old_r.len() - 1 {
                    assert(split_char(cur, c)[i] == prev[i]);
                }
            }
        }
    }
    r.push((start, hi));
    r
}

/// `str::lines`: pieces between `'\n'`, each dropping one trailing `'\r'`
/// when a `'\n'` followed it; a final empty piece is not a line.
pub open spec fn strip_cr(l: Seq<char>) -> Seq<char> {
    if l.len() > 0 && l.last() == '\r' {
        l.drop_last()
    } else {
        l
    }
}

pub open spec fn lines(s: Seq<char>) -> Seq<Seq<char>> {
    let parts = split_char(s, '\n');
    let init = parts.drop_last().map_values(|l: Seq<char>| strip_cr(l));
    if parts.last().len() == 0 {
        init
    } else {
        init.push(parts.last())
    }
}

/// The ranges of the lines of `v` (as `str::lines` yields them).
pub fn line_ranges(v: &Vec<char>) -> (r: Vec<(usize, usize)>)
    ensures
        ranges_cut(v@, r@, lines(v@)),
{
    let parts = split_ranges(v, 0, v.len(), '\n');
    let ghost sp = split_char(v@.subrange(0, v@.len() as int), '\n');
    assert(v@.subrange(0, v@.len() as int) =~= v@);
    proof {
        lemma_split_char_nonempty(v@, '\n');
    }
    let mut r: Vec<(usize, usize)> = Vec::new();
    let n = parts.len();
    let mut i: usize = 0;
    while i + 1 < n
        invariant
            n == parts@.len(),
            n >= 1,
            0 <= i <= n - 1,
            ranges_cut(v@, parts@, sp),
            sp == split_char(v@, '\n'),
            ranges_cut(
                v@,
                r@,
                sp.take(i as int).map_values(|l: Seq<char>| strip_cr(l)),
            ),
        decreases n - i,
    {
        let (a, b) = parts[i];
        assert(sp[i as int] == v@.subrange(a as int, b as int));
        let b2 = if b > a && v[b - 1] == '\r' {
            b - 1
        } else {
            b
        };
        assert(v@.subrange(a as int, b2 as int) == strip_cr(sp[i as int])) by {
            if b > a && v@[b - 1] == '\r' {
                assert(v@.subrange(a as int, b2 as int) =~= v@.subrange(
                    a as int,
                    b as int,
                ).drop_last());
            }
        }
        let ghost old_m = sp.take(i as int).map_values(|l: Seq<char>| strip_cr(l));
        r.push((a, b2));
        i += 1;
        let ghost new_m = sp.take(i as int).map_values(|l: Seq<char>| strip_cr(l));
        assert(new_m =~= old_m.push(strip_cr(sp[i - 1])));
        assert forall|j: int| 0 <= j < r@.len() implies {
            &&& r@[j].0 <= r@[j].1 <= v@.len()
            &&& #[trigger] new_m[j] == v@.subrange(r@[j].0 as int, r@[j].1 as int)
        } by {
            if j < i - 1 {
                assert(new_m[j] == old_m[j]);
            }
        }
    }
    assert(sp.take(i as int) =~= sp.drop_last());
    let (a, b) = parts[n - 1];
    assert(sp[n - 1] == v@.subrange(a as int, b as int));
    assert(sp.last() == v@.subrange(a as int, b as int));
    let ghost init = sp.drop_last().map_values(|l: Seq<char>| strip_cr(l));
    assert(lines(v@) == if sp.last().len() == 0 { init } else { init.push(sp.last()) });
    let ghost old_r = r@;
    if b > a {
        r.push((a, b));
        assert forall|j: int| 0 <= j < r@.len() implies {
            &&& r@[j].0 <= r@[j].1 <= v@.len()
            &&& #[trigger] lines(v@)[j] == v@.subrange(r@[j].0 as int, r@[j].1 as int)
        } by {
            if j < old_r.len() {
                assert(lines(v@)[j] == init[j]);
            }
        }
    } else {
        assert(v@.subrange(a as int, b as int).len() == 0);
    }
    r
}


// ---------------------------------------------------------------------------
// Trimming.
// ---------------------------------------------------------------------------

/// `str::trim_start`: drop leading whitespace.
pub open spec fn trim_start(s: Seq<char>) -> Seq<char>
    decreases s.len(),
{
    if s.len() > 0 && whitespace(s[0]) {
        trim_start(s.drop_first())
    } else {
        s
    }
}

/// `str::trim_end`: drop trailing whitespace.
pub open spec fn trim_end(s: Seq<char>) -> Seq<char>
    decreases s.len(),
{
    if s.len() > 0 && whitespace(s.last()) {
        trim_end(s.drop_last())
    } else {
        s
    }
}

/// `str::trim`: drop whitespace at both ends.
pub open spec fn trim(s: Seq<char>) -> Seq<char> {
    trim_end(trim_start(s))
}

/// The range of `v[lo..hi]` without its leading whitespace.
pub fn trim_start_range(v: &Vec<char>, lo: usize, hi: usize) -> (a: usize)
    requires
        lo <= hi <= v@.len(),
    ensures
        lo <= a <= hi,
        v@.subrange(a as int, hi as int) == trim_start(v@.subrange(lo as int, hi as int)),
{
    let mut a: usize = lo;
    while a < hi && is_whitespace(v[a])
        invariant
            lo <= a <= hi <= v@.len(),
            trim_start(v@.subrange(lo as int, hi as int)) == trim_start(
                v@.subrange(a as int, hi as int),
            ),
        decreases hi - a,
    {
        assert(v@.subrange(a as int, hi as int).drop_first() =~= v@.subrange(
            a + 1 as int,
            hi as int,
        ));
        a += 1;
    }
    a
}

/// The range of `v[lo..hi]` without whitespace at either end.
pub fn trim_range(v: &Vec<char>, lo: usize, hi: usize) -> (r: (usize, usize))
    requires
        lo <= hi <= v@.len(),
    ensures
        lo <= r.0 <= r.1 <= hi,
        v@.subrange(r.0 as int, r.1 as int) == trim(v@.subrange(lo as int, hi as int)),
{
    let a = trim_start_range(v, lo, hi);
    let mut b: usize = hi;
    while b > a && is_whitespace(v[b - 1])
        invariant
            lo <= a <= b <= hi <= v@.len(),
            trim_end(v@.subrange(a as int, hi as int)) == trim_end(
                v@.subrange(a as int, b as int),
            ),
        decreases b,
    {
        assert(v@.subrange(a as int, b as int).drop_last() =~= v@.subrange(
            a as int,
            b - 1 as int,
        ));
        b -= 1;
    }
    (a, b)
}

/// `str::trim` into a new `String`.
pub fn trim_string(s: &str) -> (r: String)
    ensures
        r@ == trim(s@),
{
    let v = chars_of(s);
    let (a, b) = trim_range(&v, 0, v.len());
    assert(v@.subrange(0, v@.len() as int) =~= v@);
    string_of(&v, a, b)
}

/// `str::trim_start_matches(c)`: drop every leading `c`.
pub open spec fn trim_start_char(s: Seq<char>, c: char) -> Seq<char>
    decreases s.len(),
{
    if s.len() > 0 && s[0] == c {
        trim_start_char(s.drop_first(), c)
    } else {
        s
    }
}

/// `str::trim_end_matches(c)`: drop every trailing `c`.
pub open spec fn trim_end_char(s: Seq<char>, c: char) -> Seq<char>
    decreases s.len(),
{
    if s.len() > 0 && s.last() == c {
        trim_end_char(s.drop_last(), c)
    } else {
        s
    }
}

/// `str::trim_start_matches(p)` for a non-empty text `p`: drop every
/// leading copy of `p`.
pub open spec fn trim_start_str(s: Seq<char>, p: Seq<char>) -> Seq<char>
    decreases s.len(),
{
    if p.len() > 0 && has_prefix(s, p) {
        trim_start_str(s.subrange(p.len() as int, s.len() as int), p)
    } else {
        s
    }
}

/// The range of `v[lo..hi]` without its leading copies of `c`.
pub fn trim_start_char_range(v: &Vec<char>, lo: usize, hi: usize, c: char) -> (a: usize)
    requires
        lo <= hi <= v@.len(),
    ensures
        lo <= a <= hi,
        v@.subrange(a as int, hi as int) == trim_start_char(v@.subrange(lo as int, hi as int), c),
{
    let mut a: usize = lo;
    while a < hi && v[a] == c
        invariant
            lo <= a <= hi <= v@.len(),
            trim_start_char(v@.subrange(lo as int, hi as int), c) == trim_start_char(
                v@.subrange(a as int, hi as int),
                c,
            ),
        decreases hi - a,
    {
        assert(v@.subrange(a as int, hi as int).drop_first() =~= v@.subrange(
            a + 1 as int,
            hi as int,
        ));
        a += 1;
    }
    a
}

/// The range of `v[lo..hi]` without its trailing copies of `c`.
pub fn trim_end_char_range(v: &Vec<char>, lo: usize, hi: usize, c: char) -> (b: usize)
    requires
        lo <= hi <= v@.len(),
    ensures
        lo <= b <= hi,
        v@.subrange(lo as int, b as int) == trim_end_char(v@.subrange(lo as int, hi as int), c),
{
    let mut b: usize = hi;
    while b > lo && v[b - 1] == c
        invariant
            lo <= b <= hi <= v@.len(),
            trim_end_char(v@.subrange(lo as int, hi as int), c) == trim_end_char(
                v@.subrange(lo as int, b as int),
                c,
            ),
        decreases b,
    {
        assert(v@.subrange(lo as int, b as int).drop_last() =~= v@.subrange(
            lo as int,
            b - 1 as int,
        ));
        b -= 1;
    }
    b
}

/// The range of `v[lo..hi]` without its leading copies of the text `p`.
pub fn trim_start_str_range(v: &Vec<char>, lo: usize, hi: usize, p: &Vec<char>) -> (a: usize)
    requires
        lo <= hi <= v@.len(),
        p@.len() > 0,
    ensures
        lo <= a <= hi,
        v@.subrange(a as int, hi as int) == trim_start_str(v@.subrange(lo as int, hi as int), p@),
{
    let mut a: usize = lo;
    while a <= hi && p.len() <= hi - a && occurs_at_exec(v, p, a)
        invariant
            lo <= a <= hi <= v@.len(),
            p@.len() > 0,
            trim_start_str(v@.subrange(lo as int, hi as int), p@) == trim_start_str(
                v@.subrange(a as int, hi as int),
                p@,
            ),
        decreases hi - a,
    {
        let ghost t = v@.subrange(a as int, hi as int);
        assert(t.subrange(0, p@.len() as int) =~= v@.subrange(a as int, a + p@.len()));
        assert(has_prefix(t, p@));
        assert(t.subrange(p@.len() as int, t.len() as int) =~= v@.subrange(
            a + p@.len(),
            hi as int,
        ));
        a += p.len();
    }
    proof {
        let t = v@.subrange(a as int, hi as int);
        if has_prefix(t, p@) {
            assert(t.subrange(0, p@.len() as int) =~= v@.subrange(a as int, a + p@.len()));
        }
    }
    a
}

// ---------------------------------------------------------------------------
// Words and numbers.
// ---------------------------------------------------------------------------

/// `str::split_whitespace`: the maximal runs of non-whitespace characters.
pub open spec fn words(s: Seq<char>) -> Seq<Seq<char>>
    decreases s.len(),
{
    if s.len() == 0 {
        Seq::empty()
    } else {
        let w = words(s.drop_last());
        let c = s.last();
        if whitespace(c) {
            w
        } else if s.len() >= 2 && !whitespace(s[s.len() - 2]) && w.len() > 0 {
            w.update(w.len() - 1, w.last().push(c))
        } else {
            w.push(seq![c])
        }
    }
}

pub proof fn lemma_words_open(s: Seq<char>)
    ensures
        s.len() > 0 && !whitespace(s.last()) ==> words(s).len() > 0,
{
}

/// The ranges of the words of `v[lo..hi]`.
pub fn word_ranges(v: &Vec<char>, lo: usize, hi: usize) -> (r: Vec<(usize, usize)>)
    requires
        lo <= hi <= v@.len(),
    ensures
        ranges_cut(v@, r@, words(v@.subrange(lo as int, hi as int))),
{
    let mut r: Vec<(usize, usize)> = Vec::new();
    let mut open = false;
    let mut cs: usize = lo;
    let mut k: usize = lo;
    assert(v@.subrange(lo as int, lo as int) =~= Seq::<char>::empty());
    while k < hi
        invariant
            lo <= cs <= k <= hi <= v@.len(),
            open == (k > lo && !whitespace(v@[k - 1])),
            open ==> ranges_cut(v@, r@.push((cs, k)), words(v@.subrange(lo as int, k as int))),
            !open ==> ranges_cut(v@, r@, words(v@.subrange(lo as int, k as int))),
        decreases hi - k,
    {
        let ghost pre = v@.subrange(lo as int, k as int);
        let ghost cur = v@.subrange(lo as int, k + 1 as int);
        let ghost w = words(pre);
        assert(cur.drop_last() =~= pre);
        assert(cur.last() == v@[k as int]);
        let ghost old_r = r@;
        let ghost old_cs = cs;
        let ws = is_whitespace(v[k]);
        if ws {
            if open {
                r.push((cs, k));
                open = false;
            }
            k += 1;
            assert(words(cur) == w);
        } else {
            if open {
                k += 1;
                proof {
                    assert(pre.len() > 0 && pre.last() == v@[k - 2]);
                    lemma_words_open(pre);
                    assert(cur.len() >= 2 && cur[cur.len() - 2] == pre.last());
                    assert(ranges_cut(v@, old_r.push((cs, (k - 1) as usize)), w));
                    assert(w.len() == old_r.len() + 1);
                    assert(w[w.len() - 1] == v@.subrange(cs as int, k - 1 as int));
                }
                let ghost nw = w.last().push(v@[k - 1]);
                assert(words(cur) == w.update(w.len() - 1, nw));
                assert(old_r.push((cs, (k - 1) as usize))[old_r.len() as int] == (cs, (k - 1) as usize));
                assert(v@.subrange(cs as int, k as int) =~= v@.subrange(cs as int, k - 1 as int).push(
                    v@[k - 1],
                ));
                assert forall|i: int| #![trigger r@.push((cs, k))[i]] 0 <= i < r@.push((cs, k)).len() implies {
                    &&& r@.push((cs, k))[i].0 <= r@.push((cs, k))[i].1 <= v@.len()
                    &&& words(cur)[i] == v@.subrange(
                        r@.push((cs, k))[i].0 as int,
                        r@.push((cs, k))[i].1 as int,
                    )
                } by {
                    let prev_r = old_r.push((cs, (k - 1) as usize));
                    if i < old_r.len() {
                        assert(prev_r[i] == old_r[i]);
                        assert(prev_r[i].0 <= prev_r[i].1 <= v@.len());
                        assert(words(cur)[i] == w[i]);
                    } else {
                        assert(cs <= k <= v@.len());
                    }
                }
                assert(ranges_cut(v@, r@.push((cs, k)), words(cur)));
            } else {
                assert(cur.len() < 2 || whitespace(cur[cur.len() - 2])) by {
                    if cur.len() >= 2 {
                        assert(cur[cur.len() - 2] == v@[k - 1]);
                    }
                }
                cs = k;
                k += 1;
                open = true;
                assert(words(cur) == w.push(seq![v@[k - 1]]));
                assert(v@.subrange(cs as int, k as int) =~= seq![v@[k - 1]]);
                assert forall|i: int| #![trigger r@.push((cs, k))[i]] 0 <= i < r@.push((cs, k)).len() implies {
                    &&& r@.push((cs, k))[i].0 <= r@.push((cs, k))[i].1 <= v@.len()
                    &&& words(cur)[i] == v@.subrange(
                        r@.push((cs, k))[i].0 as int,
                        r@.push((cs, k))[i].1 as int,
                    )
                } by {
                    if i < old_r.len() {
                        assert(words(cur)[i] == w[i]);
                    }
                }
                assert(ranges_cut(v@, r@.push((cs, k)), words(cur)));
            }
        }
    }
    if open {
        r.push((cs, k));
    }
    r
}

/// The value of a run of decimal digits.
pub open spec fn digits_value(s: Seq<char>) -> int
    decreases s.len(),
{
    if s.len() == 0 {
        0
    } else {
        digits_value(s.drop_last()) * 10 + (s.last() as int - '0' as int)
    }
}

pub open spec fn all_digits(s: Seq<char>) -> bool {
    forall|i: int| 0 <= i < s.len() ==> '0' <= #[trigger] s[i] <= '9'
}

/// `str::parse::<usize>`: an optional `'+'`, then one or more decimal
/// digits whose value fits in a `usize`.
pub open spec fn strip_plus(s: Seq<char>) -> Seq<char> {
    if s.len() > 0 && s[0] == '+' {
        s.drop_first()
    } else {
        s
    }
}

pub open spec fn parse_usize(s: Seq<char>) -> Option<usize> {
    let d = strip_plus(s);
    if d.len() > 0 && all_digits(d) && digits_value(d) <= usize::MAX {
        Some(digits_value(d) as usize)
    } else {
        None
    }
}

pub proof fn lemma_digits_value_nonneg(s: Seq<char>)
    requires
        all_digits(s),
    ensures
        digits_value(s) >= 0,
    decreases s.len(),
{
    if s.len() > 0 {
        lemma_digits_value_nonneg(s.drop_last());
    }
}

pub proof fn lemma_digits_value_grows(s: Seq<char>, k: int)
    requires
        all_digits(s),
        0 <= k <= s.len(),
    ensures
        digits_value(s.subrange(0, k)) <= digits_value(s),
    decreases s.len() - k,
{
    if k < s.len() {
        let t = s.subrange(0, k + 1);
        assert(t.drop_last() =~= s.subrange(0, k));
        lemma_digits_value_nonneg(s.subrange(0, k));
        lemma_digits_value_grows(s, k + 1);
    } else {
        assert(s.subrange(0, k) =~= s);
    }
}

/// Parses `v[lo..hi]` as `str::parse::<usize>` does.
pub fn parse_usize_range(v: &Vec<char>, lo: usize, hi: usize) -> (r: Option<usize>)
    requires
        lo <= hi <= v@.len(),
    ensures
        r == parse_usize(v@.subrange(lo as int, hi as int)),
{
    let ghost s = v@.subrange(lo as int, hi as int);
    let mut a = lo;
    if a < hi && v[a] == '+' {
        a += 1;
    }
    let ghost d = v@.subrange(a as int, hi as int);
    assert(d =~= strip_plus(s));
    if a == hi {
        assert(parse_usize(s) is None);
        return None;
    }
    let mut val: usize = 0;
    let mut k: usize = a;
    while k < hi
        invariant
            lo <= a <= k <= hi <= v@.len(),
            d == v@.subrange(a as int, hi as int),
            s == v@.subrange(lo as int, hi as int),
            d == strip_plus(s),
            all_digits(v@.subrange(a as int, k as int)),
            val as int == digits_value(v@.subrange(a as int, k as int)),
        decreases hi - k,
    {
        let c = v[k];
        let ghost pre = v@.subrange(a as int, k as int);
        let ghost cur = v@.subrange(a as int, k + 1 as int);
        assert(cur.drop_last() =~= pre);
        if c < '0' || c > '9' {
            assert(!all_digits(d)) by {
                assert(d[k - a] == c);
            }
            assert(parse_usize(s) is None);
            return None;
        }
        let dig = (c as u32 - '0' as u32) as usize;
        assert(all_digits(cur)) by {
            assert forall|i: int| 0 <= i < cur.len() implies '0' <= #[trigger] cur[i] <= '9' by {
                if i < pre.len() {
                    assert(cur[i] == pre[i]);
                }
            }
        }
        match val.checked_mul(10) {
            Some(m) => match m.checked_add(dig) {
                Some(n) => {
                    val = n;
                },
                None => {
                    proof {
                        bad_digits(v@, a as int, k as int, hi as int);
                    }
                    assert(parse_usize(s) is None);
                    return None;
                },
            },
            None => {
                proof {
                    lemma_digits_value_nonneg(pre);
                    bad_digits(v@, a as int, k as int, hi as int);
                }
                assert(parse_usize(s) is None);
                return None;
            },
        }
        k += 1;
    }
    assert(v@.subrange(a as int, k as int) =~= d);
    Some(val)
}

proof fn bad_digits(v: Seq<char>, a: int, k: int, hi: int)
    requires
        0 <= a <= k < hi <= v.len(),
        all_digits(v.subrange(a, k + 1)),
        digits_value(v.subrange(a, k + 1)) > usize::MAX,
    ensures
        !(all_digits(v.subrange(a, hi)) && digits_value(v.subrange(a, hi)) <= usize::MAX),
{
    let d = v.subrange(a, hi);
    if all_digits(d) {
        lemma_digits_value_grows(d, k + 1 - a);
        assert(d.subrange(0, k + 1 - a) =~= v.subrange(a, k + 1));
    }
}


// ---------------------------------------------------------------------------
// UTF-8 widths.
// ---------------------------------------------------------------------------

/// The number of bytes UTF-8 uses for `c`.
pub open spec fn utf8_width(c: char) -> nat {
    let u = c as u32;
    if u < 0x80 {
        1
    } else if u < 0x800 {
        2
    } else if u < 0x10000 {
        3
    } else {
        4
    }
}

/// The number of bytes UTF-8 uses for `s`.
pub open spec fn byte_len(s: Seq<char>) -> nat
    decreases s.len(),
{
    if s.len() == 0 {
        0
    } else {
        byte_len(s.drop_last()) + utf8_width(s.last())
    }
}

/// The byte offset `b` of the UTF-8 encoding of `t` falls between two
/// characters (or at either end).
pub open spec fn char_boundary(t: Seq<char>, b: int) -> bool {
    exists|n: int| 0 <= n <= t.len() && #[trigger] byte_len(t.take(n)) == b
}

/// `char::len_utf8`.
pub fn char_width(c: char) -> (n: usize)
    ensures
        n == utf8_width(c),
{
    let u = c as u32;
    if u < 0x80 {
        1
    } else if u < 0x800 {
        2
    } else if u < 0x10000 {
        3
    } else {
        4
    }
}


/// Whether the UTF-8 encoding of `v[a..b]` takes at least `n` bytes.
pub fn byte_len_at_least(v: &Vec<char>, a: usize, b: usize, n: usize) -> (r: bool)
    requires
        a <= b <= v@.len(),
    ensures
        r == (byte_len(v@.subrange(a as int, b as int)) >= n),
{
    if n == 0 {
        return true;
    }
    let mut sum: usize = 0;
    let mut i: usize = a;
    assert(v@.subrange(a as int, a as int) =~= Seq::<char>::empty());
    while i < b
        invariant
            a <= i <= b <= v@.len(),
            sum as int == byte_len(v@.subrange(a as int, i as int)),
            sum < n,
        decreases b - i,
    {
        assert(v@.subrange(a as int, i + 1 as int).drop_last() =~= v@.subrange(a as int, i as int));
        let w = char_width(v[i]);
        i += 1;
        if n - sum <= w {
            proof {
                lemma_byte_len_sub_mono(v@, a as int, i as int, b as int);
            }
            return true;
        }
        sum += w;
    }
    false
}

/// Extending a range never shortens its encoding.
pub proof fn lemma_byte_len_sub_mono(s: Seq<char>, a: int, i: int, b: int)
    requires
        0 <= a <= i <= b <= s.len(),
    ensures
        byte_len(s.subrange(a, i)) <= byte_len(s.subrange(a, b)),
    decreases b - i,
{
    if i < b {
        lemma_byte_len_sub_mono(s, a, i, b - 1);
        assert(s.subrange(a, b).drop_last() =~= s.subrange(a, b - 1));
    }
}

/// The part of `s` after the last occurrence of `p` (all of `s` when `p`
/// does not occur): the first piece `str::rsplit(p)` yields.
pub open spec fn after_last(s: Seq<char>, p: Seq<char>) -> Seq<char> {
    match rfind(s, p) {
        Some(i) => s.subrange(i + p.len(), s.len() as int),
        None => s,
    }
}

/// `str::split_once(p)`: the parts before and after the first occurrence.
pub open spec fn split_once(s: Seq<char>, p: Seq<char>) -> Option<(Seq<char>, Seq<char>)> {
    match find(s, p) {
        Some(i) => Some((s.subrange(0, i), s.subrange(i + p.len(), s.len() as int))),
        None => None,
    }
}


/// Where the part of `v[a..b]` after the last occurrence of `p` begins.
pub fn after_last_range(v: &Vec<char>, a: usize, b: usize, p: &Vec<char>) -> (x: usize)
    requires
        a <= b <= v@.len(),
    ensures
        a <= x <= b,
        v@.subrange(x as int, b as int) == after_last(v@.subrange(a as int, b as int), p@),
{
    let f = crate::paths::slice_vec(v, a, b);
    match rfind_exec(&f, p) {
        Some(i) => {
            proof {
                lemma_rfind_props(f@, p@);
            }
            assert(v@.subrange(a + i + p@.len(), b as int) =~= f@.subrange(
                i + p@.len(),
                f@.len() as int,
            ));
            a + i + p.len()
        },
        None => a,
    }
}

/// `split_once` on `v[a..b]`: where the first occurrence of `p` begins.
pub fn find_in_range(v: &Vec<char>, a: usize, b: usize, p: &Vec<char>) -> (r: Option<usize>)
    requires
        a <= b <= v@.len(),
    ensures
        match r {
            Some(i) => a <= i && i + p@.len() <= b && find(v@.subrange(a as int, b as int), p@)
                == Some(i - a),
            None => find(v@.subrange(a as int, b as int), p@) is None,
        },
{
    let f = crate::paths::slice_vec(v, a, b);
    match find_exec(&f, p, 0) {
        Some(i) => {
            proof {
                lemma_find_from_props(f@, p@, 0);
            }
            Some(a + i)
        },
        None => None,
    }
}


// ---------------------------------------------------------------------------
// Bytes.
// ---------------------------------------------------------------------------

/// `b` cut at every byte `c` (the pieces of `<[u8]>::split`).
pub open spec fn split_bytes(b: Seq<u8>, c: u8) -> Seq<Seq<u8>>
    decreases b.len(),
{
    if b.len() == 0 {
        seq![Seq::empty()]
    } else {
        let prev = split_bytes(b.drop_last(), c);
        if b.last() == c {
            prev.push(Seq::empty())
        } else {
            prev.update(prev.len() - 1, prev.last().push(b.last()))
        }
    }
}

pub proof fn lemma_split_bytes_nonempty(b: Seq<u8>, c: u8)
    ensures
        split_bytes(b, c).len() >= 1,
    decreases b.len(),
{
    if b.len() > 0 {
        lemma_split_bytes_nonempty(b.drop_last(), c);
    }
}

/// The ranges `r` describe the pieces `pieces` of the bytes `v`.
pub open spec fn byte_ranges_cut(v: Seq<u8>, r: Seq<(usize, usize)>, pieces: Seq<Seq<u8>>) -> bool {
    &&& r.len() == pieces.len()
    &&& forall|i: int|
        #![trigger r[i]]
        #![trigger pieces[i]]
        0 <= i < r.len() ==> {
            &&& r[i].0 <= r[i].1 <= v.len()
            &&& pieces[i] == v.subrange(r[i].0 as int, r[i].1 as int)
        }
}

/// The ranges of `v` between occurrences of the byte `c`.
pub fn split_byte_ranges(v: &Vec<u8>, c: u8) -> (r: Vec<(usize, usize)>)
    ensures
        byte_ranges_cut(v@, r@, split_bytes(v@, c)),
{
    let mut r: Vec<(usize, usize)> = Vec::new();
    let mut start: usize = 0;
    let mut k: usize = 0;
    assert(v@.subrange(0, 0) =~= Seq::<u8>::empty());
    while k < v.len()
        invariant
            0 <= start <= k <= v@.len(),
            byte_ranges_cut(v@, r@.push((start, k)), split_bytes(v@.subrange(0, k as int), c)),
        decreases v@.len() - k,
    {
        let ghost old_r = r@.push((start, k));
        let ghost pre = v@.subrange(0, k as int);
        let ghost cur = v@.subrange(0, k + 1 as int);
        let ghost prev = split_bytes(pre, c);
        assert(cur.drop_last() =~= pre);
        assert(cur.last() == v@[k as int]);
        proof {
            lemma_split_bytes_nonempty(pre, c);
        }
        assert(prev.last() == v@.subrange(start as int, k as int)) by {
            assert(old_r[old_r.len() - 1] == (start, k));
        }
        if v[k] == c {
            r.push((start, k));
            start = k + 1;
            k += 1;
            assert(split_bytes(cur, c) == prev.push(Seq::<u8>::empty()));
            assert(r@.push((start, k)) =~= old_r.push((start, k)));
            assert forall|i: int|
                #![trigger r@.push((start, k))[i]]
                0 <= i < r@.push((start, k)).len() implies {
                &&& r@.push((start, k))[i].0 <= r@.push((start, k))[i].1 <= v@.len()
                &&& split_bytes(cur, c)[i] == v@.subrange(
                    r@.push((start, k))[i].0 as int,
                    r@.push((start, k))[i].1 as int,
                )
            } by {
                if i < old_r.len() {
                    assert(split_bytes(cur, c)[i] == prev[i]);
                } else {
                    assert(v@.subrange(start as int, k as int) =~= Seq::<u8>::empty());
                }
            }
        } else {
            k += 1;
            let ghost newp = prev.last().push(v@[k - 1]);
            assert(split_bytes(cur, c) == prev.update(prev.len() - 1, newp));
            assert(v@.subrange(start as int, k as int) =~= newp);
            assert(r@.push((start, k)) =~= old_r.update(old_r.len() - 1, (start, k)));
            assert forall|i: int|
                #![trigger r@.push((start, k))[i]]
                0 <= i < r@.push((start, k)).len() implies {
                &&& r@.push((start, k))[i].0 <= r@.push((start, k))[i].1 <= v@.len()
                &&& split_bytes(cur, c)[i] == v@.subrange(
                    r@.push((start, k))[i].0 as int,
                    r@.push((start, k))[i].1 as int,
                )
            } by {
                if i < old_r.len() - 1 {
                    assert(split_bytes(cur, c)[i] == prev[i]);
                }
            }
        }
    }
    assert(v@.subrange(0, v@.len() as int) =~= v@);
    r.push((start, v.len()));
    r
}

/// A copy of the bytes `v[a..b]`.
pub fn slice_bytes(v: &Vec<u8>, a: usize, b: usize) -> (r: Vec<u8>)
    requires
        a <= b <= v@.len(),
    ensures
        r@ == v@.subrange(a as int, b as int),
{
    let mut r: Vec<u8> = Vec::new();
    let mut i: usize = a;
    while i < b
        invariant
            a <= i <= b <= v@.len(),
            r@ == v@.subrange(a as int, i as int),
        decreases b - i,
    {
        r.push(v[i]);
        i += 1;
        assert(r@ =~= v@.subrange(a as int, i as int));
    }
    r
}


// ---------------------------------------------------------------------------
// Decimal numerals.
// ---------------------------------------------------------------------------

/// The decimal digit `d` (below ten) as a character.
pub open spec fn digit_char(d: nat) -> char {
    if d == 0 {
        '0'
    } else if d == 1 {
        '1'
    } else if d == 2 {
        '2'
    } else if d == 3 {
        '3'
    } else if d == 4 {
        '4'
    } else if d == 5 {
        '5'
    } else if d == 6 {
        '6'
    } else if d == 7 {
        '7'
    } else if d == 8 {
        '8'
    } else {
        '9'
    }
}

/// The decimal numeral of `n`, without leading zeros.
pub open spec fn decimal(n: nat) -> Seq<char>
    decreases n,
{
    if n < 10 {
        seq![digit_char(n)]
    } else {
        decimal(n / 10).push(digit_char(n % 10))
    }
}

fn digit(d: usize) -> (c: char)
    requires
        d < 10,
    ensures
        c == digit_char(d as nat),
{
    match d {
        0 => '0',
        1 => '1',
        2 => '2',
        3 => '3',
        4 => '4',
        5 => '5',
        6 => '6',
        7 => '7',
        8 => '8',
        _ => '9',
    }
}

/// Appends the decimal numeral of `n` to `s`.
pub fn push_decimal(s: &mut String, n: usize)
    ensures
        final(s)@ == old(s)@ + decimal(n as nat),
    decreases n,
{
    if n >= 10 {
        push_decimal(s, n / 10);
    }
    push_char(s, digit(n % 10));
    proof {
        if n < 10 {
            assert(n % 10 == n);
        }
    }
    assert(final(s)@ =~= old(s)@ + decimal(n as nat)) by {
        if n >= 10 {
            assert(decimal(n as nat) == decimal((n / 10) as nat).push(digit_char((n % 10) as nat)));
        }
    }
}

} // verus!

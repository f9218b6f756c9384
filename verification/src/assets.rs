//! The editor's vector artwork: before an SVG is rasterised (by the user
//! interface), its root element is made to paint white, so that a tint can
//! colour it at draw time.

use vstd::prelude::*;

use crate::text;

verus! {

/// `src` with ` fill="#FFFFFF"` inserted right after the first `<svg`, so
/// that it cascades to every shape without a fill of its own; unchanged
/// when there is no `<svg`.
pub open spec fn white_filled(src: Seq<char>) -> Seq<char> {
    match text::find(src, "<svg"@) {
        Some(i) => src.take(i + 4) + " fill=\"#FFFFFF\""@ + src.skip(i + 4),
        None => src,
    }
}

pub fn inject_white_fill(src: &str) -> (r: String)
    ensures
        r@ == white_filled(src@),
{
    let v = text::chars_of(src);
    let tag = text::chars_of("<svg");
    proof {
        reveal_strlit("<svg");
    }
    let vl = v.len();
    match text::find_exec(&v, &tag, 0) {
        Some(i) => {
            proof {
                text::lemma_find_from_props(v@, tag@, 0);
                assert(text::occurs_at(v@, tag@, i as int));
                assert(tag@.len() == 4);
            }
            let mut out = text::string_of(&v, 0, i + 4);
            text::push_str(&mut out, " fill=\"#FFFFFF\"");
            let rest = text::string_of(&v, i + 4, vl);
            text::push_str(&mut out, rest.as_str());
            assert(v@.subrange(0, i + 4) =~= v@.take(i + 4));
            assert(v@.subrange(i + 4, v@.len() as int) =~= v@.skip(i + 4));
            out
        },
        None => text::owned(src),
    }
}

} // verus!

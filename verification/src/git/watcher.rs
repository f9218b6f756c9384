//! Which file-system changes make the workbench refresh Git status. The
//! watching itself (an OS watcher through `notify`) is left to the user
//! interface, which asks this filter about every changed path.

use vstd::prelude::*;

use crate::text;

verus! {

/// Whether a change at `path` matters: build output (`/target/`,
/// `/node_modules/`) never does; inside `.git/` only `HEAD`, `index` and
/// refs do (a branch switch or a commit); the `.git` folder itself does
/// not; everything else does.
pub open spec fn relevant(path: Seq<char>) -> bool {
    if text::find(path, "/target/"@) is Some || text::find(path, "/node_modules/"@) is Some {
        false
    } else {
        match text::find(path, "/.git/"@) {
            Some(i) => {
                let after = path.subrange(i + "/.git/"@.len(), path.len() as int);
                after == "HEAD"@ || text::has_prefix(after, "refs/"@) || after == "index"@
            },
            None => !text::has_suffix(path, "/.git"@),
        }
    }
}

pub fn is_relevant(path: &str) -> (r: bool)
    ensures
        r == relevant(path@),
{
    let v = text::chars_of(path);
    if text::contains_str(&v, "/target/") || text::contains_str(&v, "/node_modules/") {
        return false;
    }
    let git = text::chars_of("/.git/");
    assert(git@ == "/.git/"@);
    let vl = v.len();
    match text::find_exec(&v, &git, 0) {
        Some(i) => {
            proof {
                text::lemma_find_from_props(v@, git@, 0);
                assert(text::occurs_at(v@, git@, i as int));
            }
            let after: Vec<char> = crate::paths::slice_vec(&v, i + git.len(), vl);
            text::str_eq(&after, "HEAD") || text::starts_with(&after, "refs/") || text::str_eq(
                &after,
                "index",
            )
        },
        None => !text::ends_with(&v, "/.git"),
    }
}

} // verus!

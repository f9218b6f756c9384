//! An open text document: its path, current and saved text, and the
//! language and label derived from the path.

use std::collections::BTreeSet;

use vstd::prelude::*;

use crate::paths;
use crate::text;

verus! {

/// The language code for a (lower-cased) file extension; `""` when the
/// extension is not one the editor knows.
pub open spec fn language_code(e: Seq<char>) -> Seq<char> {
    if e == "rs"@ {
        "rs"@
    } else if e == "ts"@ {
        "ts"@
    } else if e == "tsx"@ {
        "tsx"@
    } else if e == "js"@ || e == "mjs"@ || e == "cjs"@ {
        "js"@
    } else if e == "jsx"@ {
        "jsx"@
    } else if e == "py"@ {
        "py"@
    } else if e == "go"@ {
        "go"@
    } else if e == "c"@ {
        "c"@
    } else if e == "cpp"@ || e == "cc"@ || e == "cxx"@ {
        "cpp"@
    } else if e == "h"@ || e == "hpp"@ {
        "h"@
    } else if e == "json"@ {
        "json"@
    } else if e == "md"@ || e == "markdown"@ {
        "md"@
    } else if e == "html"@ || e == "htm"@ {
        "html"@
    } else if e == "css"@ {
        "css"@
    } else if e == "toml"@ {
        "toml"@
    } else if e == "yaml"@ || e == "yml"@ {
        "yaml"@
    } else if e == "sh"@ || e == "bash"@ || e == "zsh"@ {
        "sh"@
    } else {
        ""@
    }
}

/// The human-readable name of a language code.
pub open spec fn language_name(l: Seq<char>) -> Seq<char> {
    if l == "rs"@ {
        "Rust"@
    } else if l == "ts"@ {
        "TypeScript"@
    } else if l == "tsx"@ {
        "TypeScript React"@
    } else if l == "js"@ {
        "JavaScript"@
    } else if l == "jsx"@ {
        "JavaScript React"@
    } else if l == "py"@ {
        "Python"@
    } else if l == "go"@ {
        "Go"@
    } else if l == "c"@ {
        "C"@
    } else if l == "cpp"@ {
        "C++"@
    } else if l == "h"@ {
        "C Header"@
    } else if l == "json"@ {
        "JSON"@
    } else if l == "md"@ {
        "Markdown"@
    } else if l == "html"@ {
        "HTML"@
    } else if l == "css"@ {
        "CSS"@
    } else if l == "toml"@ {
        "TOML"@
    } else if l == "yaml"@ || l == "yml"@ {
        "YAML"@
    } else if l == "sh"@ {
        "Shell"@
    } else {
        "Plain Text"@
    }
}

/// Every language the editor detects has a name of its own: a document is
/// labelled "Plain Text" exactly when its extension gives no language.
pub proof fn law_only_unknown_is_plain_text(p: Seq<char>)
    ensures
        language_name(detected_language(p)) == "Plain Text"@ <==> detected_language(p) == ""@,
{
    reveal_strlit("Plain Text");
    assert("Plain Text"@.len() == 10 && "Plain Text"@[0] == 'P');
    reveal_strlit("Rust");
    assert("Rust"@.len() == 4 && "Rust"@[0] == 'R');
    reveal_strlit("TypeScript");
    assert("TypeScript"@.len() == 10 && "TypeScript"@[0] == 'T');
    reveal_strlit("TypeScript React");
    assert("TypeScript React"@.len() == 16 && "TypeScript React"@[0] == 'T');
    reveal_strlit("JavaScript");
    assert("JavaScript"@.len() == 10 && "JavaScript"@[0] == 'J');
    reveal_strlit("JavaScript React");
    assert("JavaScript React"@.len() == 16 && "JavaScript React"@[0] == 'J');
    reveal_strlit("Python");
    assert("Python"@.len() == 6 && "Python"@[0] == 'P');
    reveal_strlit("Go");
    assert("Go"@.len() == 2 && "Go"@[0] == 'G');
    reveal_strlit("C");
    assert("C"@.len() == 1 && "C"@[0] == 'C');
    reveal_strlit("C++");
    assert("C++"@.len() == 3 && "C++"@[0] == 'C');
    reveal_strlit("C Header");
    assert("C Header"@.len() == 8 && "C Header"@[0] == 'C');
    reveal_strlit("JSON");
    assert("JSON"@.len() == 4 && "JSON"@[0] == 'J');
    reveal_strlit("Markdown");
    assert("Markdown"@.len() == 8 && "Markdown"@[0] == 'M');
    reveal_strlit("HTML");
    assert("HTML"@.len() == 4 && "HTML"@[0] == 'H');
    reveal_strlit("CSS");
    assert("CSS"@.len() == 3 && "CSS"@[0] == 'C');
    reveal_strlit("TOML");
    assert("TOML"@.len() == 4 && "TOML"@[0] == 'T');
    reveal_strlit("YAML");
    assert("YAML"@.len() == 4 && "YAML"@[0] == 'Y');
    reveal_strlit("Shell");
    assert("Shell"@.len() == 5 && "Shell"@[0] == 'S');
    reveal_strlit("");
    assert(""@.len() == 0);
    reveal_strlit("rs");
    assert("rs"@.len() == 2);
    reveal_strlit("ts");
    assert("ts"@.len() == 2);
    reveal_strlit("tsx");
    assert("tsx"@.len() == 3);
    reveal_strlit("js");
    assert("js"@.len() == 2);
    reveal_strlit("jsx");
    assert("jsx"@.len() == 3);
    reveal_strlit("py");
    assert("py"@.len() == 2);
    reveal_strlit("go");
    assert("go"@.len() == 2);
    reveal_strlit("c");
    assert("c"@.len() == 1);
    reveal_strlit("cpp");
    assert("cpp"@.len() == 3);
    reveal_strlit("h");
    assert("h"@.len() == 1);
    reveal_strlit("json");
    assert("json"@.len() == 4);
    reveal_strlit("md");
    assert("md"@.len() == 2);
    reveal_strlit("html");
    assert("html"@.len() == 4);
    reveal_strlit("css");
    assert("css"@.len() == 3);
    reveal_strlit("toml");
    assert("toml"@.len() == 4);
    reveal_strlit("yaml");
    assert("yaml"@.len() == 4);
    reveal_strlit("sh");
    assert("sh"@.len() == 2);
    reveal_strlit("yml");
    assert("yml"@.len() == 3);
    assert(language_name(""@) == "Plain Text"@);
    assert(language_name("rs"@) != "Plain Text"@);
    assert(language_name("ts"@) != "Plain Text"@);
    assert(language_name("tsx"@) != "Plain Text"@);
    assert(language_name("js"@) != "Plain Text"@);
    assert(language_name("jsx"@) != "Plain Text"@);
    assert(language_name("py"@) != "Plain Text"@);
    assert(language_name("go"@) != "Plain Text"@);
    assert(language_name("c"@) != "Plain Text"@);
    assert(language_name("cpp"@) != "Plain Text"@);
    assert(language_name("h"@) != "Plain Text"@);
    assert(language_name("json"@) != "Plain Text"@);
    assert(language_name("md"@) != "Plain Text"@);
    assert(language_name("html"@) != "Plain Text"@);
    assert(language_name("css"@) != "Plain Text"@);
    assert(language_name("toml"@) != "Plain Text"@);
    assert(language_name("yaml"@) != "Plain Text"@);
    assert(language_name("sh"@) != "Plain Text"@);
}

/// Whether a (lower-cased) extension names a binary file type.
pub open spec fn binary_ext(e: Seq<char>) -> bool {
    e == "png"@ ||
    e == "jpg"@ ||
    e == "jpeg"@ ||
    e == "gif"@ ||
    e == "bmp"@ ||
    e == "tiff"@ ||
    e == "tif"@ ||
    e == "ico"@ ||
    e == "webp"@ ||
    e == "avif"@ ||
    e == "heic"@ ||
    e == "heif"@ ||
    e == "psd"@ ||
    e == "ai"@ ||
    e == "pdf"@ ||
    e == "mp3"@ ||
    e == "wav"@ ||
    e == "flac"@ ||
    e == "ogg"@ ||
    e == "m4a"@ ||
    e == "aac"@ ||
    e == "mp4"@ ||
    e == "mov"@ ||
    e == "avi"@ ||
    e == "mkv"@ ||
    e == "webm"@ ||
    e == "wmv"@ ||
    e == "zip"@ ||
    e == "tar"@ ||
    e == "gz"@ ||
    e == "bz2"@ ||
    e == "xz"@ ||
    e == "7z"@ ||
    e == "rar"@ ||
    e == "exe"@ ||
    e == "dll"@ ||
    e == "so"@ ||
    e == "dylib"@ ||
    e == "a"@ ||
    e == "o"@ ||
    e == "lib"@ ||
    e == "ttf"@ ||
    e == "otf"@ ||
    e == "woff"@ ||
    e == "woff2"@ ||
    e == "eot"@ ||
    e == "wasm"@ ||
    e == "sqlite"@ ||
    e == "db"@
}

/// The lower-cased extension of `p`, or `""` when it has none.
pub open spec fn lower_ext(p: Seq<char>) -> Seq<char> {
    match paths::extension(p) {
        Some(e) => text::lowercase(e),
        None => text::lowercase(Seq::empty()),
    }
}

/// The language detected from the extension of `p`.
pub open spec fn detected_language(p: Seq<char>) -> Seq<char> {
    language_code(lower_ext(p))
}

/// The lower-cased extension of `path` (`""` when it has none).
fn lowered_extension(path: &str) -> (r: Vec<char>)
    ensures
        r@ == lower_ext(path@),
{
    let e = match paths::path_extension(path) {
        Some(e) => e,
        None => String::new(),
    };
    let l = text::to_lowercase(e.as_str());
    text::chars_of(l.as_str())
}

/// Whether `path` names a file type the editor refuses to open as text
/// (images, media, archives, executables, fonts, databases).
pub fn is_known_binary(path: &str) -> (r: bool)
    ensures
        r == binary_ext(lower_ext(path@)),
{
    let e = lowered_extension(path);
    text::str_eq(&e, "png") ||
    text::str_eq(&e, "jpg") ||
    text::str_eq(&e, "jpeg") ||
    text::str_eq(&e, "gif") ||
    text::str_eq(&e, "bmp") ||
    text::str_eq(&e, "tiff") ||
    text::str_eq(&e, "tif") ||
    text::str_eq(&e, "ico") ||
    text::str_eq(&e, "webp") ||
    text::str_eq(&e, "avif") ||
    text::str_eq(&e, "heic") ||
    text::str_eq(&e, "heif") ||
    text::str_eq(&e, "psd") ||
    text::str_eq(&e, "ai") ||
    text::str_eq(&e, "pdf") ||
    text::str_eq(&e, "mp3") ||
    text::str_eq(&e, "wav") ||
    text::str_eq(&e, "flac") ||
    text::str_eq(&e, "ogg") ||
    text::str_eq(&e, "m4a") ||
    text::str_eq(&e, "aac") ||
    text::str_eq(&e, "mp4") ||
    text::str_eq(&e, "mov") ||
    text::str_eq(&e, "avi") ||
    text::str_eq(&e, "mkv") ||
    text::str_eq(&e, "webm") ||
    text::str_eq(&e, "wmv") ||
    text::str_eq(&e, "zip") ||
    text::str_eq(&e, "tar") ||
    text::str_eq(&e, "gz") ||
    text::str_eq(&e, "bz2") ||
    text::str_eq(&e, "xz") ||
    text::str_eq(&e, "7z") ||
    text::str_eq(&e, "rar") ||
    text::str_eq(&e, "exe") ||
    text::str_eq(&e, "dll") ||
    text::str_eq(&e, "so") ||
    text::str_eq(&e, "dylib") ||
    text::str_eq(&e, "a") ||
    text::str_eq(&e, "o") ||
    text::str_eq(&e, "lib") ||
    text::str_eq(&e, "ttf") ||
    text::str_eq(&e, "otf") ||
    text::str_eq(&e, "woff") ||
    text::str_eq(&e, "woff2") ||
    text::str_eq(&e, "eot") ||
    text::str_eq(&e, "wasm") ||
    text::str_eq(&e, "sqlite") ||
    text::str_eq(&e, "db")
}

/// The language code for `path`, from its lower-cased extension.
pub fn detect_language(path: &str) -> (r: &'static str)
    ensures
        r@ == detected_language(path@),
{
    let e = lowered_extension(path);
    if text::str_eq(&e, "rs") {
        "rs"
    } else if text::str_eq(&e, "ts") {
        "ts"
    } else if text::str_eq(&e, "tsx") {
        "tsx"
    } else if text::str_eq(&e, "js") || text::str_eq(&e, "mjs") || text::str_eq(&e, "cjs") {
        "js"
    } else if text::str_eq(&e, "jsx") {
        "jsx"
    } else if text::str_eq(&e, "py") {
        "py"
    } else if text::str_eq(&e, "go") {
        "go"
    } else if text::str_eq(&e, "c") {
        "c"
    } else if text::str_eq(&e, "cpp") || text::str_eq(&e, "cc") || text::str_eq(&e, "cxx") {
        "cpp"
    } else if text::str_eq(&e, "h") || text::str_eq(&e, "hpp") {
        "h"
    } else if text::str_eq(&e, "json") {
        "json"
    } else if text::str_eq(&e, "md") || text::str_eq(&e, "markdown") {
        "md"
    } else if text::str_eq(&e, "html") || text::str_eq(&e, "htm") {
        "html"
    } else if text::str_eq(&e, "css") {
        "css"
    } else if text::str_eq(&e, "toml") {
        "toml"
    } else if text::str_eq(&e, "yaml") || text::str_eq(&e, "yml") {
        "yaml"
    } else if text::str_eq(&e, "sh") || text::str_eq(&e, "bash") || text::str_eq(&e, "zsh") {
        "sh"
    } else {
        ""
    }
}

/// The label shown for a language code in the status bar.
pub fn language_label_of(language: &str) -> (r: &'static str)
    ensures
        r@ == language_name(language@),
{
    let l = text::chars_of(language);
    if text::str_eq(&l, "rs") {
        "Rust"
    } else if text::str_eq(&l, "ts") {
        "TypeScript"
    } else if text::str_eq(&l, "tsx") {
        "TypeScript React"
    } else if text::str_eq(&l, "js") {
        "JavaScript"
    } else if text::str_eq(&l, "jsx") {
        "JavaScript React"
    } else if text::str_eq(&l, "py") {
        "Python"
    } else if text::str_eq(&l, "go") {
        "Go"
    } else if text::str_eq(&l, "c") {
        "C"
    } else if text::str_eq(&l, "cpp") {
        "C++"
    } else if text::str_eq(&l, "h") {
        "C Header"
    } else if text::str_eq(&l, "json") {
        "JSON"
    } else if text::str_eq(&l, "md") {
        "Markdown"
    } else if text::str_eq(&l, "html") {
        "HTML"
    } else if text::str_eq(&l, "css") {
        "CSS"
    } else if text::str_eq(&l, "toml") {
        "TOML"
    } else if text::str_eq(&l, "yaml") || text::str_eq(&l, "yml") {
        "YAML"
    } else if text::str_eq(&l, "sh") {
        "Shell"
    } else {
        "Plain Text"
    }
}

/// An open document.
pub struct Document {
    pub path: String,
    pub text: String,
    pub saved_text: String,
    pub dirty: bool,
    pub language: &'static str,
    pub cursor_line: usize,
    pub cursor_col: usize,
    /// (line, byte_offset_within_line): requested cursor placement, consumed
    /// by the view next frame.
    pub pending_nav: Option<(usize, usize)>,
    /// Tab is pinned to the front of the strip and protected from
    /// close-others / middle-click close.
    pub pinned: bool,
    /// Folded region headers (1-based lines).
    pub folded: BTreeSet<usize>,
    /// For a read-only diff tab: the base text the document is compared with.
    pub diff_base: Option<String>,
}

impl Document {
    /// The document for the file at `path` whose content was read as `text`:
    /// clean, cursor at 1:1, language from the extension.
    pub fn opened(path: String, text: String) -> (d: Document)
        ensures
            d.path@ == path@,
            d.text@ == text@,
            d.saved_text@ == text@,
            !d.dirty,
            d.language@ == detected_language(path@),
            d.cursor_line == 1,
            d.cursor_col == 1,
            d.pending_nav is None,
            !d.pinned,
            d.folded@ == Set::<usize>::empty(),
            d.diff_base is None,
    {
        let language = detect_language(path.as_str());
        let saved_text = text.clone();
        Document {
            path,
            text,
            saved_text,
            dirty: false,
            language,
            cursor_line: 1,
            cursor_col: 1,
            pending_nav: None,
            pinned: false,
            folded: BTreeSet::new(),
            diff_base: None,
        }
    }

    /// Record that the current text was written to disk.
    pub fn mark_saved(&mut self)
        ensures
            final(self).saved_text@ == old(self).text@,
            final(self).text@ == old(self).text@,
            !final(self).dirty,
            final(self).path == old(self).path,
            final(self).language == old(self).language,
            final(self).cursor_line == old(self).cursor_line,
            final(self).cursor_col == old(self).cursor_col,
            final(self).pending_nav == old(self).pending_nav,
            final(self).pinned == old(self).pinned,
            final(self).folded == old(self).folded,
            final(self).diff_base == old(self).diff_base,
    {
        self.saved_text = self.text.clone();
        self.dirty = false;
    }

    /// Recompute `dirty`: the text differs from what was last saved.
    pub fn check_dirty(&mut self)
        ensures
            final(self).dirty == (old(self).text@ != old(self).saved_text@),
            final(self).text == old(self).text,
            final(self).saved_text == old(self).saved_text,
            final(self).path == old(self).path,
            final(self).language == old(self).language,
            final(self).cursor_line == old(self).cursor_line,
            final(self).cursor_col == old(self).cursor_col,
            final(self).pending_nav == old(self).pending_nav,
            final(self).pinned == old(self).pinned,
            final(self).folded == old(self).folded,
            final(self).diff_base == old(self).diff_base,
    {
        self.dirty = !(self.text == self.saved_text);
    }

    /// The name shown on the tab: the file name, or the whole path when the
    /// path has none.
    pub fn display_name(&self) -> (r: String)
        ensures
            r@ == paths::name_or_path(self.path@),
    {
        paths::name_or_whole(self.path.as_str())
    }

    /// The label of the document's language.
    pub fn language_label(&self) -> (r: &'static str)
        ensures
            r@ == language_name(self.language@),
    {
        language_label_of(self.language)
    }
}

} // verus!

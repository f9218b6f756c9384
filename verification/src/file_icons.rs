//! The file-icon theme ("Seti"): which glyph and colour a file gets, from
//! its exact name, then its longest known extension, then the language of
//! its last extension, then the default file icon. The theme is built from
//! the text of its JSON definition; reading that file and drawing the glyph
//! are left to the user interface.

use serde_json::Value;
use vstd::prelude::*;

use crate::paths;
use crate::text;

verus! {

/// An icon: the glyph of the icon font and its colour as red, green, blue.
pub type Icon = (char, (u8, u8, u8));

/// The theme, as read from its definition file: icon definitions by name,
/// and the icon definition named for file extensions, file names and
/// language ids (keys lowercased). A later pair for the same key replaces
/// an earlier one.
pub struct IconTheme {
    pub defs: Vec<(String, Icon)>,
    pub file_extensions: Vec<(String, String)>,
    pub file_names: Vec<(String, String)>,
    pub language_ids: Vec<(String, String)>,
    pub default_def: String,
}

/// The language id of an extension, for extensions whose icon the theme
/// lists under a language only.
pub open spec fn language_of_ext(ext: Seq<char>) -> Option<Seq<char>> {
    if ext == "ts"@ || ext == "mts"@ || ext == "cts"@ {
        Some("typescript"@)
    } else if ext == "tsx"@ {
        Some("typescriptreact"@)
    } else if ext == "js"@ || ext == "mjs"@ || ext == "cjs"@ {
        Some("javascript"@)
    } else if ext == "jsx"@ {
        Some("javascriptreact"@)
    } else if ext == "rs"@ {
        Some("rust"@)
    } else if ext == "go"@ {
        Some("go"@)
    } else if ext == "py"@ {
        Some("python"@)
    } else if ext == "rb"@ {
        Some("ruby"@)
    } else if ext == "json"@ || ext == "jsonc"@ {
        Some("json"@)
    } else if ext == "md"@ || ext == "markdown"@ {
        Some("markdown"@)
    } else if ext == "html"@ || ext == "htm"@ {
        Some("html"@)
    } else if ext == "css"@ {
        Some("css"@)
    } else if ext == "yaml"@ || ext == "yml"@ {
        Some("yaml"@)
    } else if ext == "sh"@ || ext == "bash"@ || ext == "zsh"@ {
        Some("shellscript"@)
    } else if ext == "c"@ {
        Some("c"@)
    } else if ext == "cpp"@ || ext == "cc"@ || ext == "cxx"@ || ext == "hpp"@ {
        Some("cpp"@)
    } else {
        None
    }
}

/// The language of each extension that the theme lists only under a
/// language id: TypeScript (`ts`, `mts`, `cts`, and `tsx` for React),
/// JavaScript (`js`, `mjs`, `cjs`, and `jsx` for React), Rust, Go, Python,
/// Ruby, JSON, Markdown, HTML, CSS, YAML, shell scripts, C and C++.
pub proof fn law_language_of_known_extensions()
    ensures
        language_of_ext("ts"@) == Some("typescript"@),
        language_of_ext("mts"@) == Some("typescript"@),
        language_of_ext("cts"@) == Some("typescript"@),
        language_of_ext("tsx"@) == Some("typescriptreact"@),
        language_of_ext("js"@) == Some("javascript"@),
        language_of_ext("mjs"@) == Some("javascript"@),
        language_of_ext("cjs"@) == Some("javascript"@),
        language_of_ext("jsx"@) == Some("javascriptreact"@),
        language_of_ext("rs"@) == Some("rust"@),
        language_of_ext("go"@) == Some("go"@),
        language_of_ext("py"@) == Some("python"@),
        language_of_ext("rb"@) == Some("ruby"@),
        language_of_ext("json"@) == Some("json"@),
        language_of_ext("jsonc"@) == Some("json"@),
        language_of_ext("md"@) == Some("markdown"@),
        language_of_ext("markdown"@) == Some("markdown"@),
        language_of_ext("html"@) == Some("html"@),
        language_of_ext("htm"@) == Some("html"@),
        language_of_ext("css"@) == Some("css"@),
        language_of_ext("yaml"@) == Some("yaml"@),
        language_of_ext("yml"@) == Some("yaml"@),
        language_of_ext("sh"@) == Some("shellscript"@),
        language_of_ext("bash"@) == Some("shellscript"@),
        language_of_ext("zsh"@) == Some("shellscript"@),
        language_of_ext("c"@) == Some("c"@),
        language_of_ext("cpp"@) == Some("cpp"@),
        language_of_ext("cc"@) == Some("cpp"@),
        language_of_ext("cxx"@) == Some("cpp"@),
        language_of_ext("hpp"@) == Some("cpp"@),
{
    reveal_strlit("bash");
    reveal_strlit("c");
    reveal_strlit("cc");
    reveal_strlit("cjs");
    reveal_strlit("cpp");
    reveal_strlit("css");
    reveal_strlit("cts");
    reveal_strlit("cxx");
    reveal_strlit("go");
    reveal_strlit("hpp");
    reveal_strlit("htm");
    reveal_strlit("html");
    reveal_strlit("javascript");
    reveal_strlit("javascriptreact");
    reveal_strlit("js");
    reveal_strlit("json");
    reveal_strlit("jsonc");
    reveal_strlit("jsx");
    reveal_strlit("markdown");
    reveal_strlit("md");
    reveal_strlit("mjs");
    reveal_strlit("mts");
    reveal_strlit("py");
    reveal_strlit("python");
    reveal_strlit("rb");
    reveal_strlit("rs");
    reveal_strlit("ruby");
    reveal_strlit("rust");
    reveal_strlit("sh");
    reveal_strlit("shellscript");
    reveal_strlit("ts");
    reveal_strlit("tsx");
    reveal_strlit("typescript");
    reveal_strlit("typescriptreact");
    reveal_strlit("yaml");
    reveal_strlit("yml");
    reveal_strlit("zsh");
    assert(language_of_ext("ts"@) == Some("typescript"@)) by {

    }
    assert(language_of_ext("mts"@) == Some("typescript"@)) by {
        assert("mts"@.len() != "ts"@.len());
    }
    assert(language_of_ext("cts"@) == Some("typescript"@)) by {
        assert("cts"@.len() != "ts"@.len());
        assert("cts"@[0] != "mts"@[0]);
    }
    assert(language_of_ext("tsx"@) == Some("typescriptreact"@)) by {
        assert("tsx"@.len() != "ts"@.len());
        assert("tsx"@[0] != "mts"@[0]);
        assert("tsx"@[0] != "cts"@[0]);
    }
    assert(language_of_ext("js"@) == Some("javascript"@)) by {
        assert("js"@[0] != "ts"@[0]);
        assert("js"@.len() != "mts"@.len());
        assert("js"@.len() != "cts"@.len());
        assert("js"@.len() != "tsx"@.len());
    }
    assert(language_of_ext("mjs"@) == Some("javascript"@)) by {
        assert("mjs"@.len() != "ts"@.len());
        assert("mjs"@[1] != "mts"@[1]);
        assert("mjs"@[0] != "cts"@[0]);
        assert("mjs"@[0] != "tsx"@[0]);
        assert("mjs"@.len() != "js"@.len());
    }
    assert(language_of_ext("cjs"@) == Some("javascript"@)) by {
        assert("cjs"@.len() != "ts"@.len());
        assert("cjs"@[0] != "mts"@[0]);
        assert("cjs"@[1] != "cts"@[1]);
        assert("cjs"@[0] != "tsx"@[0]);
        assert("cjs"@.len() != "js"@.len());
        assert("cjs"@[0] != "mjs"@[0]);
    }
    assert(language_of_ext("jsx"@) == Some("javascriptreact"@)) by {
        assert("jsx"@.len() != "ts"@.len());
        assert("jsx"@[0] != "mts"@[0]);
        assert("jsx"@[0] != "cts"@[0]);
        assert("jsx"@[0] != "tsx"@[0]);
        assert("jsx"@.len() != "js"@.len());
        assert("jsx"@[0] != "mjs"@[0]);
        assert("jsx"@[0] != "cjs"@[0]);
    }
    assert(language_of_ext("rs"@) == Some("rust"@)) by {
        assert("rs"@[0] != "ts"@[0]);
        assert("rs"@.len() != "mts"@.len());
        assert("rs"@.len() != "cts"@.len());
        assert("rs"@.len() != "tsx"@.len());
        assert("rs"@[0] != "js"@[0]);
        assert("rs"@.len() != "mjs"@.len());
        assert("rs"@.len() != "cjs"@.len());
        assert("rs"@.len() != "jsx"@.len());
    }
    assert(language_of_ext("go"@) == Some("go"@)) by {
        assert("go"@[0] != "ts"@[0]);
        assert("go"@.len() != "mts"@.len());
        assert("go"@.len() != "cts"@.len());
        assert("go"@.len() != "tsx"@.len());
        assert("go"@[0] != "js"@[0]);
        assert("go"@.len() != "mjs"@.len());
        assert("go"@.len() != "cjs"@.len());
        assert("go"@.len() != "jsx"@.len());
        assert("go"@[0] != "rs"@[0]);
    }
    assert(language_of_ext("py"@) == Some("python"@)) by {
        assert("py"@[0] != "ts"@[0]);
        assert("py"@.len() != "mts"@.len());
        assert("py"@.len() != "cts"@.len());
        assert("py"@.len() != "tsx"@.len());
        assert("py"@[0] != "js"@[0]);
        assert("py"@.len() != "mjs"@.len());
        assert("py"@.len() != "cjs"@.len());
        assert("py"@.len() != "jsx"@.len());
        assert("py"@[0] != "rs"@[0]);
        assert("py"@[0] != "go"@[0]);
    }
    assert(language_of_ext("rb"@) == Some("ruby"@)) by {
        assert("rb"@[0] != "ts"@[0]);
        assert("rb"@.len() != "mts"@.len());
        assert("rb"@.len() != "cts"@.len());
        assert("rb"@.len() != "tsx"@.len());
        assert("rb"@[0] != "js"@[0]);
        assert("rb"@.len() != "mjs"@.len());
        assert("rb"@.len() != "cjs"@.len());
        assert("rb"@.len() != "jsx"@.len());
        assert("rb"@[1] != "rs"@[1]);
        assert("rb"@[0] != "go"@[0]);
        assert("rb"@[0] != "py"@[0]);
    }
    assert(language_of_ext("json"@) == Some("json"@)) by {
        assert("json"@.len() != "ts"@.len());
        assert("json"@.len() != "mts"@.len());
        assert("json"@.len() != "cts"@.len());
        assert("json"@.len() != "tsx"@.len());
        assert("json"@.len() != "js"@.len());
        assert("json"@.len() != "mjs"@.len());
        assert("json"@.len() != "cjs"@.len());
        assert("json"@.len() != "jsx"@.len());
        assert("json"@.len() != "rs"@.len());
        assert("json"@.len() != "go"@.len());
        assert("json"@.len() != "py"@.len());
        assert("json"@.len() != "rb"@.len());
    }
    assert(language_of_ext("jsonc"@) == Some("json"@)) by {
        assert("jsonc"@.len() != "ts"@.len());
        assert("jsonc"@.len() != "mts"@.len());
        assert("jsonc"@.len() != "cts"@.len());
        assert("jsonc"@.len() != "tsx"@.len());
        assert("jsonc"@.len() != "js"@.len());
        assert("jsonc"@.len() != "mjs"@.len());
        assert("jsonc"@.len() != "cjs"@.len());
        assert("jsonc"@.len() != "jsx"@.len());
        assert("jsonc"@.len() != "rs"@.len());
        assert("jsonc"@.len() != "go"@.len());
        assert("jsonc"@.len() != "py"@.len());
        assert("jsonc"@.len() != "rb"@.len());
        assert("jsonc"@.len() != "json"@.len());
    }
    assert(language_of_ext("md"@) == Some("markdown"@)) by {
        assert("md"@[0] != "ts"@[0]);
        assert("md"@.len() != "mts"@.len());
        assert("md"@.len() != "cts"@.len());
        assert("md"@.len() != "tsx"@.len());
        assert("md"@[0] != "js"@[0]);
        assert("md"@.len() != "mjs"@.len());
        assert("md"@.len() != "cjs"@.len());
        assert("md"@.len() != "jsx"@.len());
        assert("md"@[0] != "rs"@[0]);
        assert("md"@[0] != "go"@[0]);
        assert("md"@[0] != "py"@[0]);
        assert("md"@[0] != "rb"@[0]);
        assert("md"@.len() != "json"@.len());
        assert("md"@.len() != "jsonc"@.len());
    }
    assert(language_of_ext("markdown"@) == Some("markdown"@)) by {
        assert("markdown"@.len() != "ts"@.len());
        assert("markdown"@.len() != "mts"@.len());
        assert("markdown"@.len() != "cts"@.len());
        assert("markdown"@.len() != "tsx"@.len());
        assert("markdown"@.len() != "js"@.len());
        assert("markdown"@.len() != "mjs"@.len());
        assert("markdown"@.len() != "cjs"@.len());
        assert("markdown"@.len() != "jsx"@.len());
        assert("markdown"@.len() != "rs"@.len());
        assert("markdown"@.len() != "go"@.len());
        assert("markdown"@.len() != "py"@.len());
        assert("markdown"@.len() != "rb"@.len());
        assert("markdown"@.len() != "json"@.len());
        assert("markdown"@.len() != "jsonc"@.len());
        assert("markdown"@.len() != "md"@.len());
    }
    assert(language_of_ext("html"@) == Some("html"@)) by {
        assert("html"@.len() != "ts"@.len());
        assert("html"@.len() != "mts"@.len());
        assert("html"@.len() != "cts"@.len());
        assert("html"@.len() != "tsx"@.len());
        assert("html"@.len() != "js"@.len());
        assert("html"@.len() != "mjs"@.len());
        assert("html"@.len() != "cjs"@.len());
        assert("html"@.len() != "jsx"@.len());
        assert("html"@.len() != "rs"@.len());
        assert("html"@.len() != "go"@.len());
        assert("html"@.len() != "py"@.len());
        assert("html"@.len() != "rb"@.len());
        assert("html"@[0] != "json"@[0]);
        assert("html"@.len() != "jsonc"@.len());
        assert("html"@.len() != "md"@.len());
        assert("html"@.len() != "markdown"@.len());
    }
    assert(language_of_ext("htm"@) == Some("html"@)) by {
        assert("htm"@.len() != "ts"@.len());
        assert("htm"@[0] != "mts"@[0]);
        assert("htm"@[0] != "cts"@[0]);
        assert("htm"@[0] != "tsx"@[0]);
        assert("htm"@.len() != "js"@.len());
        assert("htm"@[0] != "mjs"@[0]);
        assert("htm"@[0] != "cjs"@[0]);
        assert("htm"@[0] != "jsx"@[0]);
        assert("htm"@.len() != "rs"@.len());
        assert("htm"@.len() != "go"@.len());
        assert("htm"@.len() != "py"@.len());
        assert("htm"@.len() != "rb"@.len());
        assert("htm"@.len() != "json"@.len());
        assert("htm"@.len() != "jsonc"@.len());
        assert("htm"@.len() != "md"@.len());
        assert("htm"@.len() != "markdown"@.len());
        assert("htm"@.len() != "html"@.len());
    }
    assert(language_of_ext("css"@) == Some("css"@)) by {
        assert("css"@.len() != "ts"@.len());
        assert("css"@[0] != "mts"@[0]);
        assert("css"@[1] != "cts"@[1]);
        assert("css"@[0] != "tsx"@[0]);
        assert("css"@.len() != "js"@.len());
        assert("css"@[0] != "mjs"@[0]);
        assert("css"@[1] != "cjs"@[1]);
        assert("css"@[0] != "jsx"@[0]);
        assert("css"@.len() != "rs"@.len());
        assert("css"@.len() != "go"@.len());
        assert("css"@.len() != "py"@.len());
        assert("css"@.len() != "rb"@.len());
        assert("css"@.len() != "json"@.len());
        assert("css"@.len() != "jsonc"@.len());
        assert("css"@.len() != "md"@.len());
        assert("css"@.len() != "markdown"@.len());
        assert("css"@.len() != "html"@.len());
        assert("css"@[0] != "htm"@[0]);
    }
    assert(language_of_ext("yaml"@) == Some("yaml"@)) by {
        assert("yaml"@.len() != "ts"@.len());
        assert("yaml"@.len() != "mts"@.len());
        assert("yaml"@.len() != "cts"@.len());
        assert("yaml"@.len() != "tsx"@.len());
        assert("yaml"@.len() != "js"@.len());
        assert("yaml"@.len() != "mjs"@.len());
        assert("yaml"@.len() != "cjs"@.len());
        assert("yaml"@.len() != "jsx"@.len());
        assert("yaml"@.len() != "rs"@.len());
        assert("yaml"@.len() != "go"@.len());
        assert("yaml"@.len() != "py"@.len());
        assert("yaml"@.len() != "rb"@.len());
        assert("yaml"@[0] != "json"@[0]);
        assert("yaml"@.len() != "jsonc"@.len());
        assert("yaml"@.len() != "md"@.len());
        assert("yaml"@.len() != "markdown"@.len());
        assert("yaml"@[0] != "html"@[0]);
        assert("yaml"@.len() != "htm"@.len());
        assert("yaml"@.len() != "css"@.len());
    }
    assert(language_of_ext("yml"@) == Some("yaml"@)) by {
        assert("yml"@.len() != "ts"@.len());
        assert("yml"@[0] != "mts"@[0]);
        assert("yml"@[0] != "cts"@[0]);
        assert("yml"@[0] != "tsx"@[0]);
        assert("yml"@.len() != "js"@.len());
        assert("yml"@[0] != "mjs"@[0]);
        assert("yml"@[0] != "cjs"@[0]);
        assert("yml"@[0] != "jsx"@[0]);
        assert("yml"@.len() != "rs"@.len());
        assert("yml"@.len() != "go"@.len());
        assert("yml"@.len() != "py"@.len());
        assert("yml"@.len() != "rb"@.len());
        assert("yml"@.len() != "json"@.len());
        assert("yml"@.len() != "jsonc"@.len());
        assert("yml"@.len() != "md"@.len());
        assert("yml"@.len() != "markdown"@.len());
        assert("yml"@.len() != "html"@.len());
        assert("yml"@[0] != "htm"@[0]);
        assert("yml"@[0] != "css"@[0]);
        assert("yml"@.len() != "yaml"@.len());
    }
    assert(language_of_ext("sh"@) == Some("shellscript"@)) by {
        assert("sh"@[0] != "ts"@[0]);
        assert("sh"@.len() != "mts"@.len());
        assert("sh"@.len() != "cts"@.len());
        assert("sh"@.len() != "tsx"@.len());
        assert("sh"@[0] != "js"@[0]);
        assert("sh"@.len() != "mjs"@.len());
        assert("sh"@.len() != "cjs"@.len());
        assert("sh"@.len() != "jsx"@.len());
        assert("sh"@[0] != "rs"@[0]);
        assert("sh"@[0] != "go"@[0]);
        assert("sh"@[0] != "py"@[0]);
        assert("sh"@[0] != "rb"@[0]);
        assert("sh"@.len() != "json"@.len());
        assert("sh"@.len() != "jsonc"@.len());
        assert("sh"@[0] != "md"@[0]);
        assert("sh"@.len() != "markdown"@.len());
        assert("sh"@.len() != "html"@.len());
        assert("sh"@.len() != "htm"@.len());
        assert("sh"@.len() != "css"@.len());
        assert("sh"@.len() != "yaml"@.len());
        assert("sh"@.len() != "yml"@.len());
    }
    assert(language_of_ext("bash"@) == Some("shellscript"@)) by {
        assert("bash"@.len() != "ts"@.len());
        assert("bash"@.len() != "mts"@.len());
        assert("bash"@.len() != "cts"@.len());
        assert("bash"@.len() != "tsx"@.len());
        assert("bash"@.len() != "js"@.len());
        assert("bash"@.len() != "mjs"@.len());
        assert("bash"@.len() != "cjs"@.len());
        assert("bash"@.len() != "jsx"@.len());
        assert("bash"@.len() != "rs"@.len());
        assert("bash"@.len() != "go"@.len());
        assert("bash"@.len() != "py"@.len());
        assert("bash"@.len() != "rb"@.len());
        assert("bash"@[0] != "json"@[0]);
        assert("bash"@.len() != "jsonc"@.len());
        assert("bash"@.len() != "md"@.len());
        assert("bash"@.len() != "markdown"@.len());
        assert("bash"@[0] != "html"@[0]);
        assert("bash"@.len() != "htm"@.len());
        assert("bash"@.len() != "css"@.len());
        assert("bash"@[0] != "yaml"@[0]);
        assert("bash"@.len() != "yml"@.len());
        assert("bash"@.len() != "sh"@.len());
    }
    assert(language_of_ext("zsh"@) == Some("shellscript"@)) by {
        assert("zsh"@.len() != "ts"@.len());
        assert("zsh"@[0] != "mts"@[0]);
        assert("zsh"@[0] != "cts"@[0]);
        assert("zsh"@[0] != "tsx"@[0]);
        assert("zsh"@.len() != "js"@.len());
        assert("zsh"@[0] != "mjs"@[0]);
        assert("zsh"@[0] != "cjs"@[0]);
        assert("zsh"@[0] != "jsx"@[0]);
        assert("zsh"@.len() != "rs"@.len());
        assert("zsh"@.len() != "go"@.len());
        assert("zsh"@.len() != "py"@.len());
        assert("zsh"@.len() != "rb"@.len());
        assert("zsh"@.len() != "json"@.len());
        assert("zsh"@.len() != "jsonc"@.len());
        assert("zsh"@.len() != "md"@.len());
        assert("zsh"@.len() != "markdown"@.len());
        assert("zsh"@.len() != "html"@.len());
        assert("zsh"@[0] != "htm"@[0]);
        assert("zsh"@[0] != "css"@[0]);
        assert("zsh"@.len() != "yaml"@.len());
        assert("zsh"@[0] != "yml"@[0]);
        assert("zsh"@.len() != "sh"@.len());
        assert("zsh"@.len() != "bash"@.len());
    }
    assert(language_of_ext("c"@) == Some("c"@)) by {
        assert("c"@.len() != "ts"@.len());
        assert("c"@.len() != "mts"@.len());
        assert("c"@.len() != "cts"@.len());
        assert("c"@.len() != "tsx"@.len());
        assert("c"@.len() != "js"@.len());
        assert("c"@.len() != "mjs"@.len());
        assert("c"@.len() != "cjs"@.len());
        assert("c"@.len() != "jsx"@.len());
        assert("c"@.len() != "rs"@.len());
        assert("c"@.len() != "go"@.len());
        assert("c"@.len() != "py"@.len());
        assert("c"@.len() != "rb"@.len());
        assert("c"@.len() != "json"@.len());
        assert("c"@.len() != "jsonc"@.len());
        assert("c"@.len() != "md"@.len());
        assert("c"@.len() != "markdown"@.len());
        assert("c"@.len() != "html"@.len());
        assert("c"@.len() != "htm"@.len());
        assert("c"@.len() != "css"@.len());
        assert("c"@.len() != "yaml"@.len());
        assert("c"@.len() != "yml"@.len());
        assert("c"@.len() != "sh"@.len());
        assert("c"@.len() != "bash"@.len());
        assert("c"@.len() != "zsh"@.len());
    }
    assert(language_of_ext("cpp"@) == Some("cpp"@)) by {
        assert("cpp"@.len() != "ts"@.len());
        assert("cpp"@[0] != "mts"@[0]);
        assert("cpp"@[1] != "cts"@[1]);
        assert("cpp"@[0] != "tsx"@[0]);
        assert("cpp"@.len() != "js"@.len());
        assert("cpp"@[0] != "mjs"@[0]);
        assert("cpp"@[1] != "cjs"@[1]);
        assert("cpp"@[0] != "jsx"@[0]);
        assert("cpp"@.len() != "rs"@.len());
        assert("cpp"@.len() != "go"@.len());
        assert("cpp"@.len() != "py"@.len());
        assert("cpp"@.len() != "rb"@.len());
        assert("cpp"@.len() != "json"@.len());
        assert("cpp"@.len() != "jsonc"@.len());
        assert("cpp"@.len() != "md"@.len());
        assert("cpp"@.len() != "markdown"@.len());
        assert("cpp"@.len() != "html"@.len());
        assert("cpp"@[0] != "htm"@[0]);
        assert("cpp"@[1] != "css"@[1]);
        assert("cpp"@.len() != "yaml"@.len());
        assert("cpp"@[0] != "yml"@[0]);
        assert("cpp"@.len() != "sh"@.len());
        assert("cpp"@.len() != "bash"@.len());
        assert("cpp"@[0] != "zsh"@[0]);
        assert("cpp"@.len() != "c"@.len());
    }
    assert(language_of_ext("cc"@) == Some("cpp"@)) by {
        assert("cc"@[0] != "ts"@[0]);
        assert("cc"@.len() != "mts"@.len());
        assert("cc"@.len() != "cts"@.len());
        assert("cc"@.len() != "tsx"@.len());
        assert("cc"@[0] != "js"@[0]);
        assert("cc"@.len() != "mjs"@.len());
        assert("cc"@.len() != "cjs"@.len());
        assert("cc"@.len() != "jsx"@.len());
        assert("cc"@[0] != "rs"@[0]);
        assert("cc"@[0] != "go"@[0]);
        assert("cc"@[0] != "py"@[0]);
        assert("cc"@[0] != "rb"@[0]);
        assert("cc"@.len() != "json"@.len());
        assert("cc"@.len() != "jsonc"@.len());
        assert("cc"@[0] != "md"@[0]);
        assert("cc"@.len() != "markdown"@.len());
        assert("cc"@.len() != "html"@.len());
        assert("cc"@.len() != "htm"@.len());
        assert("cc"@.len() != "css"@.len());
        assert("cc"@.len() != "yaml"@.len());
        assert("cc"@.len() != "yml"@.len());
        assert("cc"@[0] != "sh"@[0]);
        assert("cc"@.len() != "bash"@.len());
        assert("cc"@.len() != "zsh"@.len());
        assert("cc"@.len() != "c"@.len());
        assert("cc"@.len() != "cpp"@.len());
    }
    assert(language_of_ext("cxx"@) == Some("cpp"@)) by {
        assert("cxx"@.len() != "ts"@.len());
        assert("cxx"@[0] != "mts"@[0]);
        assert("cxx"@[1] != "cts"@[1]);
        assert("cxx"@[0] != "tsx"@[0]);
        assert("cxx"@.len() != "js"@.len());
        assert("cxx"@[0] != "mjs"@[0]);
        assert("cxx"@[1] != "cjs"@[1]);
        assert("cxx"@[0] != "jsx"@[0]);
        assert("cxx"@.len() != "rs"@.len());
        assert("cxx"@.len() != "go"@.len());
        assert("cxx"@.len() != "py"@.len());
        assert("cxx"@.len() != "rb"@.len());
        assert("cxx"@.len() != "json"@.len());
        assert("cxx"@.len() != "jsonc"@.len());
        assert("cxx"@.len() != "md"@.len());
        assert("cxx"@.len() != "markdown"@.len());
        assert("cxx"@.len() != "html"@.len());
        assert("cxx"@[0] != "htm"@[0]);
        assert("cxx"@[1] != "css"@[1]);
        assert("cxx"@.len() != "yaml"@.len());
        assert("cxx"@[0] != "yml"@[0]);
        assert("cxx"@.len() != "sh"@.len());
        assert("cxx"@.len() != "bash"@.len());
        assert("cxx"@[0] != "zsh"@[0]);
        assert("cxx"@.len() != "c"@.len());
        assert("cxx"@[1] != "cpp"@[1]);
        assert("cxx"@.len() != "cc"@.len());
    }
    assert(language_of_ext("hpp"@) == Some("cpp"@)) by {
        assert("hpp"@.len() != "ts"@.len());
        assert("hpp"@[0] != "mts"@[0]);
        assert("hpp"@[0] != "cts"@[0]);
        assert("hpp"@[0] != "tsx"@[0]);
        assert("hpp"@.len() != "js"@.len());
        assert("hpp"@[0] != "mjs"@[0]);
        assert("hpp"@[0] != "cjs"@[0]);
        assert("hpp"@[0] != "jsx"@[0]);
        assert("hpp"@.len() != "rs"@.len());
        assert("hpp"@.len() != "go"@.len());
        assert("hpp"@.len() != "py"@.len());
        assert("hpp"@.len() != "rb"@.len());
        assert("hpp"@.len() != "json"@.len());
        assert("hpp"@.len() != "jsonc"@.len());
        assert("hpp"@.len() != "md"@.len());
        assert("hpp"@.len() != "markdown"@.len());
        assert("hpp"@.len() != "html"@.len());
        assert("hpp"@[1] != "htm"@[1]);
        assert("hpp"@[0] != "css"@[0]);
        assert("hpp"@.len() != "yaml"@.len());
        assert("hpp"@[0] != "yml"@[0]);
        assert("hpp"@.len() != "sh"@.len());
        assert("hpp"@.len() != "bash"@.len());
        assert("hpp"@[0] != "zsh"@[0]);
        assert("hpp"@.len() != "c"@.len());
        assert("hpp"@[0] != "cpp"@[0]);
        assert("hpp"@.len() != "cc"@.len());
        assert("hpp"@[0] != "cxx"@[0]);
    }
}

pub fn ext_to_language(ext: &str) -> (r: Option<&'static str>)
    ensures
        match r {
            Some(l) => language_of_ext(ext@) == Some(l@),
            None => language_of_ext(ext@) is None,
        },
{
    let e = text::chars_of(ext);
    if text::str_eq(&e, "ts") || text::str_eq(&e, "mts") || text::str_eq(&e, "cts") {
        Some("typescript")
    } else if text::str_eq(&e, "tsx") {
        Some("typescriptreact")
    } else if text::str_eq(&e, "js") || text::str_eq(&e, "mjs") || text::str_eq(&e, "cjs") {
        Some("javascript")
    } else if text::str_eq(&e, "jsx") {
        Some("javascriptreact")
    } else if text::str_eq(&e, "rs") {
        Some("rust")
    } else if text::str_eq(&e, "go") {
        Some("go")
    } else if text::str_eq(&e, "py") {
        Some("python")
    } else if text::str_eq(&e, "rb") {
        Some("ruby")
    } else if text::str_eq(&e, "json") || text::str_eq(&e, "jsonc") {
        Some("json")
    } else if text::str_eq(&e, "md") || text::str_eq(&e, "markdown") {
        Some("markdown")
    } else if text::str_eq(&e, "html") || text::str_eq(&e, "htm") {
        Some("html")
    } else if text::str_eq(&e, "css") {
        Some("css")
    } else if text::str_eq(&e, "yaml") || text::str_eq(&e, "yml") {
        Some("yaml")
    } else if text::str_eq(&e, "sh") || text::str_eq(&e, "bash") || text::str_eq(&e, "zsh") {
        Some("shellscript")
    } else if text::str_eq(&e, "c") {
        Some("c")
    } else if text::str_eq(&e, "cpp") || text::str_eq(&e, "cc") || text::str_eq(&e, "cxx")
        || text::str_eq(&e, "hpp") {
        Some("cpp")
    } else {
        None
    }
}

/// The value of a hexadecimal digit.
pub open spec fn hex_digit(c: char) -> Option<nat> {
    if '0' <= c && c <= '9' {
        Some((c as nat - '0' as nat) as nat)
    } else if 'a' <= c && c <= 'f' {
        Some((c as nat - 'a' as nat + 10) as nat)
    } else if 'A' <= c && c <= 'F' {
        Some((c as nat - 'A' as nat + 10) as nat)
    } else {
        None
    }
}

/// The value of a run of hexadecimal digits, if they all are digits.
pub open spec fn hex_value(s: Seq<char>) -> Option<nat>
    decreases s.len(),
{
    if s.len() == 0 {
        Some(0)
    } else {
        match (hex_value(s.drop_last()), hex_digit(s.last())) {
            (Some(v), Some(d)) => Some(v * 16 + d),
            _ => None,
        }
    }
}

/// `u32::from_str_radix(s, 16)`: an optional `'+'`, then at least one
/// hexadecimal digit, with a value that fits in `u32`.
pub open spec fn parse_hex_u32(s: Seq<char>) -> Option<u32> {
    let d = if s.len() > 0 && s[0] == '+' {
        s.drop_first()
    } else {
        s
    };
    if d.len() == 0 {
        None
    } else {
        match hex_value(d) {
            Some(v) => if v <= u32::MAX {
                Some(v as u32)
            } else {
                None
            },
            None => None,
        }
    }
}

fn digit_value(c: char) -> (r: Option<u32>)
    ensures
        match r {
            Some(d) => hex_digit(c) == Some(d as nat) && d < 16,
            None => hex_digit(c) is None,
        },
{
    if '0' <= c && c <= '9' {
        Some((c as u32) - ('0' as u32))
    } else if 'a' <= c && c <= 'f' {
        Some((c as u32) - ('a' as u32) + 10)
    } else if 'A' <= c && c <= 'F' {
        Some((c as u32) - ('A' as u32) + 10)
    } else {
        None
    }
}

/// The hexadecimal number in `v[a..b]`, as `u32::from_str_radix` reads it.
pub fn hex_u32(v: &Vec<char>, a: usize, b: usize) -> (r: Option<u32>)
    requires
        a <= b <= v@.len(),
    ensures
        r == parse_hex_u32(v@.subrange(a as int, b as int)),
{
    let ghost s = v@.subrange(a as int, b as int);
    let mut i = a;
    if i < b && v[i] == '+' {
        i += 1;
    }
    let ghost d = v@.subrange(i as int, b as int);
    assert(d == if s.len() > 0 && s[0] == '+' { s.drop_first() } else { s });
    if i == b {
        return None;
    }
    let start = i;
    let mut value: u32 = 0;
    assert(v@.subrange(start as int, start as int) =~= Seq::<char>::empty());
    while i < b
        invariant
            a <= start <= i <= b <= v@.len(),
            hex_value(v@.subrange(start as int, i as int)) == Some(value as nat),
            s == v@.subrange(a as int, b as int),
            d == v@.subrange(start as int, b as int),
            d.len() > 0,
            d == if s.len() > 0 && s[0] == '+' {
                s.drop_first()
            } else {
                s
            },
        decreases b - i,
    {
        assert(v@.subrange(start as int, i + 1 as int).drop_last() =~= v@.subrange(start as int, i as int));
        match digit_value(v[i]) {
            None => {
                proof {
                    lemma_hex_value_prefix_none(v@.subrange(start as int, b as int), i - start + 1);
                    assert(v@.subrange(start as int, b as int).take(i - start + 1) =~= v@.subrange(
                        start as int,
                        i + 1 as int,
                    ));
                }
                return None;
            },
            Some(dg) => {
                if value > (u32::MAX - dg) / 16 {
                    proof {
                        assert(v@.subrange(start as int, b as int).take(i - start + 1) =~= v@.subrange(
                            start as int,
                            i + 1 as int,
                        ));
                        assert(value * 16 + dg > u32::MAX) by (nonlinear_arith)
                            requires
                                value > (u32::MAX - dg) / 16,
                                dg < 16,
                        ;
                        lemma_hex_value_prefix_big(v@.subrange(start as int, b as int), i - start + 1);
                    }
                    return None;
                }
                assert(value * 16 + dg <= u32::MAX) by (nonlinear_arith)
                    requires
                        value <= (u32::MAX - dg) / 16,
                        dg < 16,
                ;
                value = value * 16 + dg;
                i += 1;
            },
        }
    }
    assert(v@.subrange(start as int, i as int) == d);
    Some(value)
}

proof fn lemma_hex_value_prefix_none(s: Seq<char>, k: int)
    requires
        0 < k <= s.len(),
        hex_value(s.take(k)) is None,
    ensures
        hex_value(s) is None,
    decreases s.len(),
{
    if k < s.len() {
        assert(s.drop_last().take(k) =~= s.take(k));
        lemma_hex_value_prefix_none(s.drop_last(), k);
    } else {
        assert(s.take(k) =~= s);
    }
}

/// `o` is a value no greater than `v`.
pub open spec fn value_at_most(o: Option<nat>, v: nat) -> bool {
    match o {
        Some(w) => w <= v,
        None => false,
    }
}

proof fn lemma_hex_value_grows(s: Seq<char>)
    ensures
        hex_value(s) is Some ==> forall|k: int|
            0 <= k <= s.len() ==> value_at_most(#[trigger] hex_value(s.take(k)), hex_value(s)->0),
    decreases s.len(),
{
    if s.len() > 0 {
        lemma_hex_value_grows(s.drop_last());
        if hex_value(s) is Some {
            assert forall|k: int| 0 <= k <= s.len() implies value_at_most(
                #[trigger] hex_value(s.take(k)),
                hex_value(s)->0,
            ) by {
                if k < s.len() {
                    assert(s.drop_last().take(k) =~= s.take(k));
                    let w0 = hex_value(s.drop_last())->0;
                    assert(w0 <= w0 * 16) by (nonlinear_arith);
                } else {
                    assert(s.take(k) =~= s);
                }
            }
        }
    } else {
        assert forall|k: int| 0 <= k <= s.len() implies value_at_most(
            #[trigger] hex_value(s.take(k)),
            0,
        ) by {
            assert(s.take(k) =~= s);
        }
    }
}

proof fn lemma_hex_value_prefix_big(s: Seq<char>, k: int)
    requires
        0 < k <= s.len(),
        hex_value(s.take(k)) is Some,
        hex_value(s.take(k))->0 > u32::MAX,
    ensures
        !value_at_most(hex_value(s), u32::MAX as nat),
{
    lemma_hex_value_grows(s);
}

/// A Unicode scalar value.
pub open spec fn scalar(v: u32) -> bool {
    v < 0xD800 || (0xE000 <= v && v <= 0x10FFFF)
}

/// Calls `char::from_u32`, which documents `Some` of the character with
/// that code exactly for Unicode scalar values.
#[verifier::external_body]
fn char_from_u32(v: u32) -> (r: Option<char>)
    ensures
        match r {
            Some(c) => scalar(v) && c as u32 == v,
            None => !scalar(v),
        },
        scalar(v) ==> r == Some(v as char),
{
    char::from_u32(v)
}

/// The glyph of a theme `fontCharacter` such as `"\\E099"`: leading
/// backslashes dropped, the rest read as a hexadecimal code point.
pub fn parse_font_char(s: &str) -> (r: Option<char>)
    ensures
        match parse_hex_u32(text::trim_start_char(s@, '\\')) {
            Some(v) => match r {
                Some(c) => scalar(v) && c as u32 == v,
                None => !scalar(v),
            },
            None => r is None,
        },
        r == glyph_of(s@),
{
    let v = text::chars_of(s);
    let a = text::trim_start_char_range(&v, 0, v.len(), '\\');
    assert(v@.subrange(0, v@.len() as int) =~= v@);
    match hex_u32(&v, a, v.len()) {
        Some(x) => char_from_u32(x),
        None => None,
    }
}

/// The first character index of `t` at which `b` bytes of its UTF-8
/// encoding have been passed, if a character starts there.
pub open spec fn byte_cut(t: Seq<char>, b: int, k: int) -> Option<int>
    decreases t.len() - k,
{
    if k < 0 || k > t.len() {
        None
    } else if text::byte_len(t.take(k)) == b {
        Some(k)
    } else if text::byte_len(t.take(k)) > b || k == t.len() {
        None
    } else {
        byte_cut(t, b, k + 1)
    }
}

/// `u8::from_str_radix(s, 16)`.
pub open spec fn parse_hex_u8(s: Seq<char>) -> Option<u8> {
    match parse_hex_u32(s) {
        Some(v) => if v <= 255 {
            Some(v as u8)
        } else {
            None
        },
        None => None,
    }
}

/// A theme colour `#rrggbb` (the `'#'`s are optional): the text, without
/// leading `'#'`s, must hold at least 6 bytes, whose three 2-byte pieces
/// are hexadecimal bytes. Reading it cuts the text at bytes 2, 4 and 6,
/// which must fall between characters (see `color_cuts_ok`).
pub open spec fn theme_color(s: Seq<char>) -> Option<(u8, u8, u8)> {
    let t = text::trim_start_char(s, '#');
    if text::byte_len(t) < 6 {
        None
    } else {
        let k2 = byte_cut(t, 2, 0)->0;
        let k4 = byte_cut(t, 4, 0)->0;
        let k6 = byte_cut(t, 6, 0)->0;
        match (
            parse_hex_u8(t.subrange(0, k2)),
            parse_hex_u8(t.subrange(k2, k4)),
            parse_hex_u8(t.subrange(k4, k6)),
        ) {
            (Some(r), Some(g), Some(b)) => Some((r, g, b)),
            _ => None,
        }
    }
}

/// Reading a colour cuts its text at character boundaries.
pub open spec fn color_cuts(s: Seq<char>) -> bool {
    let t = text::trim_start_char(s, '#');
    text::byte_len(t) >= 6 ==> byte_cut(t, 2, 0) is Some && byte_cut(t, 4, 0) is Some && byte_cut(
        t,
        6,
        0,
    ) is Some
}

/// The character index where `b` bytes of `v[a..]` are passed, if one.
fn find_cut(v: &Vec<char>, a: usize, b: usize) -> (r: Option<usize>)
    requires
        a <= v@.len(),
        b <= 6,
    ensures
        match byte_cut(v@.subrange(a as int, v@.len() as int), b as int, 0) {
            Some(k) => r == Some((a + k) as usize),
            None => r is None,
        },
{
    let ghost t = v@.subrange(a as int, v@.len() as int);
    let mut k: usize = 0;
    let mut sum: usize = 0;
    assert(t.take(0) =~= Seq::<char>::empty());
    while k <= v.len() - a
        invariant
            a <= v@.len(),
            t == v@.subrange(a as int, v@.len() as int),
            k <= t.len(),
            sum as int == text::byte_len(t.take(k as int)),
            sum <= b,
            b <= 6,
            byte_cut(t, b as int, 0) == byte_cut(t, b as int, k as int),
        decreases t.len() - k,
    {
        if sum == b {
            return Some(a + k);
        }
        if a + k == v.len() {
            assert(byte_cut(t, b as int, k as int + 1) is None);
            return None;
        }
        let w = text::char_width(v[a + k]);
        assert(t.take(k + 1).drop_last() =~= t.take(k as int));
        assert(t.take(k + 1).last() == v@[a + k]);
        k += 1;
        if sum + w > b {
            assert(byte_cut(t, b as int, k as int) is None);
            return None;
        }
        sum = sum + w;
    }
    None
}

/// Whether reading the colour `s` cuts it at character boundaries.
pub fn color_cuts_ok(s: &str) -> (r: bool)
    ensures
        r == color_cuts(s@),
{
    let v = text::chars_of(s);
    let a = text::trim_start_char_range(&v, 0, v.len(), '#');
    assert(v@.subrange(0, v@.len() as int) =~= v@);
    if text::byte_len_at_least(&v, a, v.len(), 6) {
        find_cut(&v, a, 2).is_some() && find_cut(&v, a, 4).is_some() && find_cut(&v, a, 6).is_some()
    } else {
        true
    }
}

fn hex_u8(v: &Vec<char>, a: usize, b: usize) -> (r: Option<u8>)
    requires
        a <= b <= v@.len(),
    ensures
        r == parse_hex_u8(v@.subrange(a as int, b as int)),
{
    match hex_u32(v, a, b) {
        Some(x) => if x <= 255 {
            Some(x as u8)
        } else {
            None
        },
        None => None,
    }
}

/// Reads a theme colour `#rrggbb`.
#[verifier::rlimit(40)]
pub fn parse_hex(s: &str) -> (r: Option<(u8, u8, u8)>)
    requires
        color_cuts(s@),
    ensures
        r == theme_color(s@),
{
    let v = text::chars_of(s);
    let a = text::trim_start_char_range(&v, 0, v.len(), '#');
    assert(v@.subrange(0, v@.len() as int) =~= v@);
    let ghost t = v@.subrange(a as int, v@.len() as int);
    if !text::byte_len_at_least(&v, a, v.len(), 6) {
        return None;
    }
    let k2 = find_cut(&v, a, 2).unwrap();
    let k4 = find_cut(&v, a, 4).unwrap();
    let k6 = find_cut(&v, a, 6).unwrap();
    proof {
        lemma_byte_cut_bounds(t, 2, 0);
        lemma_byte_cut_bounds(t, 4, 0);
        lemma_byte_cut_bounds(t, 6, 0);
        lemma_byte_cut_order(t, 2, 4);
        lemma_byte_cut_order(t, 4, 6);
    }
    assert(t.subrange(0, k2 - a) =~= v@.subrange(a as int, k2 as int));
    assert(t.subrange(k2 - a, k4 - a) =~= v@.subrange(k2 as int, k4 as int));
    assert(t.subrange(k4 - a, k6 - a) =~= v@.subrange(k4 as int, k6 as int));
    match (hex_u8(&v, a, k2), hex_u8(&v, k2, k4), hex_u8(&v, k4, k6)) {
        (Some(r), Some(g), Some(b)) => Some((r, g, b)),
        _ => None,
    }
}

proof fn lemma_byte_cut_bounds(t: Seq<char>, b: int, k: int)
    requires
        0 <= k,
    ensures
        byte_cut(t, b, k) matches Some(j) ==> k <= j <= t.len() && text::byte_len(t.take(j)) == b,
    decreases t.len() - k,
{
    if k < t.len() && text::byte_len(t.take(k)) < b {
        lemma_byte_cut_bounds(t, b, k + 1);
    }
}

proof fn lemma_byte_len_take_mono(t: Seq<char>, i: int, j: int)
    requires
        0 <= i <= j <= t.len(),
    ensures
        text::byte_len(t.take(i)) <= text::byte_len(t.take(j)),
{
    text::lemma_byte_len_sub_mono(t, 0, i, j);
    assert(t.subrange(0, i) =~= t.take(i));
    assert(t.subrange(0, j) =~= t.take(j));
}

proof fn lemma_byte_cut_order(t: Seq<char>, b1: int, b2: int)
    requires
        b1 <= b2,
        byte_cut(t, b1, 0) is Some,
        byte_cut(t, b2, 0) is Some,
    ensures
        byte_cut(t, b1, 0)->0 <= byte_cut(t, b2, 0)->0,
{
    lemma_byte_cut_bounds(t, b1, 0);
    lemma_byte_cut_bounds(t, b2, 0);
    let j1 = byte_cut(t, b1, 0)->0;
    let j2 = byte_cut(t, b2, 0)->0;
    if j2 < j1 {
        lemma_byte_len_take_mono(t, j2, j1);
        if text::byte_len(t.take(j2)) == text::byte_len(t.take(j1)) {
            lemma_cut_first(t, b1, 0, j2);
        }
    }
}

/// The cut is the first index whose prefix has `b` bytes.
proof fn lemma_cut_first(t: Seq<char>, b: int, k: int, j: int)
    requires
        0 <= k <= j <= t.len(),
        text::byte_len(t.take(j)) == b,
    ensures
        byte_cut(t, b, k) matches Some(x) && x <= j,
    decreases j - k,
{
    if text::byte_len(t.take(k)) == b {
    } else {
        assert(k < j);
        lemma_byte_len_take_mono(t, k, j);
        lemma_cut_first(t, b, k + 1, j);
    }
}

/// The mathematical value of an `IconTheme`.
pub struct ThemeModel {
    pub defs: Seq<(Seq<char>, Icon)>,
    pub file_extensions: Seq<(Seq<char>, Seq<char>)>,
    pub file_names: Seq<(Seq<char>, Seq<char>)>,
    pub language_ids: Seq<(Seq<char>, Seq<char>)>,
    pub default_def: Seq<char>,
}

pub open spec fn table_view(v: Seq<(String, String)>) -> Seq<(Seq<char>, Seq<char>)> {
    v.map_values(|p: (String, String)| (p.0@, p.1@))
}

pub open spec fn defs_view(v: Seq<(String, Icon)>) -> Seq<(Seq<char>, Icon)> {
    v.map_values(|p: (String, Icon)| (p.0@, p.1))
}

impl View for IconTheme {
    type V = ThemeModel;

    open spec fn view(&self) -> ThemeModel {
        ThemeModel {
            defs: defs_view(self.defs@),
            file_extensions: table_view(self.file_extensions@),
            file_names: table_view(self.file_names@),
            language_ids: table_view(self.language_ids@),
            default_def: self.default_def@,
        }
    }
}

/// The value of the last pair with key `k`.
pub open spec fn lookup<V>(pairs: Seq<(Seq<char>, V)>, k: Seq<char>) -> Option<V>
    decreases pairs.len(),
{
    if pairs.len() == 0 {
        None
    } else if pairs.last().0 == k {
        Some(pairs.last().1)
    } else {
        lookup(pairs.drop_last(), k)
    }
}

/// The icon of the definition that `table` names for `key`.
pub open spec fn icon_via(t: ThemeModel, table: Seq<(Seq<char>, Seq<char>)>, key: Seq<char>) -> Option<Icon> {
    match lookup(table, key) {
        Some(def) => lookup(t.defs, def),
        None => None,
    }
}

/// The icon of the first extension, from index `p` on, that the theme
/// knows: the extensions of `name` are the texts after each of its `'.'`,
/// longest first (`foo.test.ts` has `test.ts`, then `ts`).
pub open spec fn ext_icon_from(t: ThemeModel, name: Seq<char>, p: int) -> Option<Icon>
    decreases name.len() - p,
{
    if p < 0 || p >= name.len() {
        None
    } else if name[p] == '.' {
        match icon_via(t, t.file_extensions, name.subrange(p + 1, name.len() as int)) {
            Some(i) => Some(i),
            None => ext_icon_from(t, name, p + 1),
        }
    } else {
        ext_icon_from(t, name, p + 1)
    }
}

/// The icon of a lowercased file name: by exact name, then by longest
/// known extension, then by the language of the text after the last `'.'`,
/// then the default file icon.
pub open spec fn icon_of_name(t: ThemeModel, name: Seq<char>) -> Option<Icon> {
    match icon_via(t, t.file_names, name) {
        Some(i) => Some(i),
        None => match ext_icon_from(t, name, 0) {
            Some(i) => Some(i),
            None => match language_of_ext(text::after_last(name, "."@)) {
                Some(l) => match icon_via(t, t.language_ids, l) {
                    Some(i) => Some(i),
                    None => lookup(t.defs, t.default_def),
                },
                None => lookup(t.defs, t.default_def),
            },
        },
    }
}

/// The icon of the file at `path`: none without a file name.
pub open spec fn icon_spec(t: ThemeModel, path: Seq<char>) -> Option<Icon> {
    match paths::file_name(path) {
        Some(n) => icon_of_name(t, text::lowercase(n)),
        None => None,
    }
}

fn lookup_str(table: &Vec<(String, String)>, key: &str) -> (r: Option<String>)
    ensures
        match lookup(table_view(table@), key@) {
            Some(v) => r matches Some(x) && x@ == v,
            None => r is None,
        },
{
    let ghost tv = table_view(table@);
    let k = text::chars_of(key);
    let mut i: usize = table.len();
    assert(tv.take(i as int) =~= tv);
    while i > 0
        invariant
            i <= table@.len(),
            tv == table_view(table@),
            k@ == key@,
            lookup(tv, key@) == lookup(tv.take(i as int), key@),
        decreases i,
    {
        i -= 1;
        let c = text::chars_of(table[i].0.as_str());
        assert(tv.take(i + 1 as int).last() == tv[i as int]);
        assert(tv.take(i + 1 as int).drop_last() =~= tv.take(i as int));
        if text::chars_eq(&c, &k) {
            return Some(text::owned(table[i].1.as_str()));
        }
    }
    None
}

fn lookup_icon(defs: &Vec<(String, Icon)>, key: &str) -> (r: Option<Icon>)
    ensures
        r == lookup(defs_view(defs@), key@),
{
    let ghost tv = defs_view(defs@);
    let k = text::chars_of(key);
    let mut i: usize = defs.len();
    assert(tv.take(i as int) =~= tv);
    while i > 0
        invariant
            i <= defs@.len(),
            tv == defs_view(defs@),
            k@ == key@,
            lookup(tv, key@) == lookup(tv.take(i as int), key@),
        decreases i,
    {
        i -= 1;
        let c = text::chars_of(defs[i].0.as_str());
        assert(tv.take(i + 1 as int).last() == tv[i as int]);
        assert(tv.take(i + 1 as int).drop_last() =~= tv.take(i as int));
        if text::chars_eq(&c, &k) {
            return Some(defs[i].1);
        }
    }
    None
}

fn icon_through(theme: &IconTheme, table: &Vec<(String, String)>, key: &str) -> (r: Option<Icon>)
    ensures
        r == icon_via(theme@, table_view(table@), key@),
{
    match lookup_str(table, key) {
        Some(def) => lookup_icon(&theme.defs, def.as_str()),
        None => None,
    }
}

impl IconTheme {
    /// The glyph and colour of the file at `path`.
    pub fn icon_for(&self, path: &str) -> (r: Option<Icon>)
        ensures
            r == icon_spec(self@, path@),
    {
        let n = match paths::path_file_name(path) {
            Some(n) => n,
            None => return None,
        };
        let lower = text::to_lowercase(n.as_str());
        let name = lower.as_str();
        if let Some(i) = icon_through(self, &self.file_names, name) {
            return Some(i);
        }
        let v = text::chars_of(name);
        let mut p: usize = 0;
        while p < v.len()
            invariant
                v@ == name@,
                0 <= p <= v@.len(),
                ext_icon_from(self@, name@, 0) == ext_icon_from(self@, name@, p as int),
                icon_via(self@, self@.file_names, name@) is None,
                paths::file_name(path@) == Some(n@),
                name@ == text::lowercase(n@),
            decreases v@.len() - p,
        {
            if v[p] == '.' {
                let ext = text::string_of(&v, p + 1, v.len());
                if let Some(i) = icon_through(self, &self.file_extensions, ext.as_str()) {
                    return Some(i);
                }
            }
            p += 1;
        }
        let dot = text::chars_of(".");
        let a = text::after_last_range(&v, 0, v.len(), &dot);
        assert(v@.subrange(0, v@.len() as int) =~= v@);
        let last = text::string_of(&v, a, v.len());
        match ext_to_language(last.as_str()) {
            Some(lang) => {
                if let Some(i) = icon_through(self, &self.language_ids, lang) {
                    return Some(i);
                }
                lookup_icon(&self.defs, self.default_def.as_str())
            },
            None => lookup_icon(&self.defs, self.default_def.as_str()),
        }
    }
}

/// A section of the theme file that maps keys to definition names: each key
/// with its value as text where the value is a string.
pub type JsonTable = Seq<(Seq<char>, Option<Seq<char>>)>;

/// The `iconDefinitions` section: each name with its `fontCharacter` and
/// `fontColor` as text where they are strings.
pub type JsonDefs = Seq<(Seq<char>, Option<Seq<char>>, Option<Seq<char>>)>;

/// The theme file as the theme is built from it: `iconDefinitions`,
/// `fileExtensions`, `fileNames`, `languageIds` (each `None` where it is
/// missing or not an object) and `file` (`None` where it is not a string).
pub type ThemeJsonModel = (Option<JsonDefs>, Option<JsonTable>, Option<JsonTable>, Option<JsonTable>, Option<Seq<char>>);

/// The parts of the theme's JSON text that the theme is built from, as
/// `read_theme_json` reads them; `theme_from_json` builds the theme.
pub struct ThemeJson {
    pub icon_definitions: Option<Vec<(String, Option<String>, Option<String>)>>,
    pub file_extensions: Option<Vec<(String, Option<String>)>>,
    pub file_names: Option<Vec<(String, Option<String>)>>,
    pub language_ids: Option<Vec<(String, Option<String>)>>,
    pub file: Option<String>,
}

pub open spec fn opt_text(o: Option<String>) -> Option<Seq<char>> {
    match o {
        Some(s) => Some(s@),
        None => None,
    }
}

pub open spec fn json_table_view(v: Seq<(String, Option<String>)>) -> JsonTable {
    v.map_values(|p: (String, Option<String>)| (p.0@, opt_text(p.1)))
}

pub open spec fn json_defs_view(v: Seq<(String, Option<String>, Option<String>)>) -> JsonDefs {
    v.map_values(|p: (String, Option<String>, Option<String>)| (p.0@, opt_text(p.1), opt_text(p.2)))
}

pub open spec fn opt_table_view(o: Option<Vec<(String, Option<String>)>>) -> Option<JsonTable> {
    match o {
        Some(v) => Some(json_table_view(v@)),
        None => None,
    }
}

impl View for ThemeJson {
    type V = ThemeJsonModel;

    open spec fn view(&self) -> ThemeJsonModel {
        (
            match self.icon_definitions {
                Some(v) => Some(json_defs_view(v@)),
                None => None,
            },
            opt_table_view(self.file_extensions),
            opt_table_view(self.file_names),
            opt_table_view(self.language_ids),
            opt_text(self.file),
        )
    }
}

/// The fields of a `ThemeJson`, in order.
pub type ThemeJsonParts = (
    Option<Vec<(String, Option<String>, Option<String>)>>,
    Option<Vec<(String, Option<String>)>>,
    Option<Vec<(String, Option<String>)>>,
    Option<Vec<(String, Option<String>)>>,
    Option<String>,
);

pub open spec fn parts_view(p: ThemeJsonParts) -> ThemeJsonModel {
    ThemeJson { icon_definitions: p.0, file_extensions: p.1, file_names: p.2, language_ids: p.3, file: p.4 }@
}

/// What `serde_json` reads from the theme's JSON text: `None` where the
/// text is not JSON.
pub uninterp spec fn theme_json(raw: Seq<char>) -> Option<(Option<JsonDefs>, Option<JsonTable>, Option<JsonTable>, Option<JsonTable>, Option<Seq<char>>)>;

/// Calls `serde_json::from_str` on the theme text into a `Value` and picks
/// out the sections the theme is built from, with the entries of each
/// object in the order its map yields them (a `BTreeMap` of the keys in this
/// build) and each value as text where it is a string. The result depends
/// on the text alone and is left to the name `theme_json`; `None` where
/// the text is not JSON.
#[verifier::external_body]
fn read_theme_json(raw: &str) -> (r: Option<ThemeJsonParts>)
    ensures
        match r {
            Some(p) => theme_json(raw@) == Some(parts_view(p)),
            None => theme_json(raw@) is None,
        },
{
    let v: Value = serde_json::from_str(raw).ok()?;
    let s = |x: Option<&Value>| x?.as_str().map(String::from);
    let o = |k: &str| v.get(k)?.as_object();
    let t = |k| Some(o(k)?.iter().map(|(n, x)| (n.clone(), s(Some(x)))).collect());
    let d = o("iconDefinitions").map(|m| m.iter().map(|(n, x)| (n.clone(), s(x.get("fontCharacter")), s(x.get("fontColor")))).collect());
    Some((d, t("fileExtensions"), t("fileNames"), t("languageIds"), s(v.get("file"))))
}

/// The text of an optional value, or `default` without one.
pub open spec fn text_or(o: Option<Seq<char>>, default: Seq<char>) -> Seq<char> {
    match o {
        Some(s) => s,
        None => default,
    }
}

/// The entries of an optional section: none where it is missing.
pub open spec fn section<T>(o: Option<Seq<T>>) -> Seq<T> {
    match o {
        Some(s) => s,
        None => Seq::empty(),
    }
}

/// The glyph of a `fontCharacter`: its code point after the leading
/// backslashes, where that is a Unicode scalar value.
pub open spec fn glyph_of(s: Seq<char>) -> Option<char> {
    match parse_hex_u32(text::trim_start_char(s, '\\')) {
        Some(v) => if scalar(v) {
            Some(v as char)
        } else {
            None
        },
        None => None,
    }
}

/// The icon definitions that the theme keeps, in order: those whose glyph
/// (`""` where none is given) and colour (`"#d4d7d6"` where none is given)
/// both read.
pub open spec fn kept_defs(d: JsonDefs) -> Seq<(Seq<char>, Icon)>
    decreases d.len(),
{
    if d.len() == 0 {
        Seq::empty()
    } else {
        let rest = kept_defs(d.drop_last());
        let e = d.last();
        match (glyph_of(text_or(e.1, ""@)), theme_color(text_or(e.2, "#d4d7d6"@))) {
            (Some(c), Some(col)) => rest.push((e.0, (c, col))),
            _ => rest,
        }
    }
}

/// The entries of a table whose value is a string, in order, keys
/// lowercased.
pub open spec fn string_entries(t: JsonTable) -> Seq<(Seq<char>, Seq<char>)>
    decreases t.len(),
{
    if t.len() == 0 {
        Seq::empty()
    } else {
        let rest = string_entries(t.drop_last());
        match t.last().1 {
            Some(v) => rest.push((text::lowercase(t.last().0), v)),
            None => rest,
        }
    }
}

/// The theme built from its file: the definitions that read, the three
/// tables with their string entries, and the default definition `file`
/// (`"_default"` where it is not given).
pub open spec fn theme_of(j: ThemeJsonModel) -> ThemeModel {
    ThemeModel {
        defs: kept_defs(section(j.0)),
        file_extensions: string_entries(section(j.1)),
        file_names: string_entries(section(j.2)),
        language_ids: string_entries(section(j.3)),
        default_def: text_or(j.4, "_default"@),
    }
}

/// Reading each definition's colour (`"#d4d7d6"` where none is given) cuts
/// it at character boundaries.
pub open spec fn colors_cut(j: ThemeJsonModel) -> bool {
    forall|i: int|
        0 <= i < section(j.0).len() ==> color_cuts(
            #[trigger] text_or(section(j.0)[i].2, "#d4d7d6"@),
        )
}

fn text_or_exec(o: &Option<String>, default: &str) -> (r: String)
    ensures
        r@ == text_or(opt_text(*o), default@),
{
    match o {
        Some(s) => text::owned(s.as_str()),
        None => text::owned(default),
    }
}

fn kept_defs_exec(d: &Vec<(String, Option<String>, Option<String>)>) -> (r: Vec<(String, Icon)>)
    requires
        forall|i: int|
            0 <= i < d@.len() ==> color_cuts(
                #[trigger] text_or(json_defs_view(d@)[i].2, "#d4d7d6"@),
            ),
    ensures
        defs_view(r@) == kept_defs(json_defs_view(d@)),
{
    let ghost dv = json_defs_view(d@);
    let mut r: Vec<(String, Icon)> = Vec::new();
    let mut i: usize = 0;
    assert(dv.take(0) =~= Seq::<(Seq<char>, Option<Seq<char>>, Option<Seq<char>>)>::empty());
    assert(defs_view(r@) =~= Seq::<(Seq<char>, Icon)>::empty());
    while i < d.len()
        invariant
            i <= d@.len(),
            dv == json_defs_view(d@),
            forall|k: int|
                0 <= k < d@.len() ==> color_cuts(#[trigger] text_or(dv[k].2, "#d4d7d6"@)),
            defs_view(r@) == kept_defs(dv.take(i as int)),
        decreases d@.len() - i,
    {
        assert(dv.take(i + 1 as int).drop_last() =~= dv.take(i as int));
        assert(dv.take(i + 1 as int).last() == dv[i as int]);
        let fc = text_or_exec(&d[i].1, "");
        let col = text_or_exec(&d[i].2, "#d4d7d6");
        assert(color_cuts(text_or(dv[i as int].2, "#d4d7d6"@)));
        let g = parse_font_char(fc.as_str());
        let c = parse_hex(col.as_str());
        if let (Some(g), Some(c)) = (g, c) {
            let name = text::owned(d[i].0.as_str());
            let ghost before = r@;
            r.push((name, (g, c)));
            assert(defs_view(r@) =~= defs_view(before).push((dv[i as int].0, (g, c))));
        }
        i += 1;
    }
    assert(dv.take(d@.len() as int) =~= dv);
    r
}

fn string_entries_exec(t: &Vec<(String, Option<String>)>) -> (r: Vec<(String, String)>)
    ensures
        table_view(r@) == string_entries(json_table_view(t@)),
{
    let ghost tv = json_table_view(t@);
    let mut r: Vec<(String, String)> = Vec::new();
    let mut i: usize = 0;
    assert(tv.take(0) =~= Seq::<(Seq<char>, Option<Seq<char>>)>::empty());
    assert(table_view(r@) =~= Seq::<(Seq<char>, Seq<char>)>::empty());
    while i < t.len()
        invariant
            i <= t@.len(),
            tv == json_table_view(t@),
            table_view(r@) == string_entries(tv.take(i as int)),
        decreases t@.len() - i,
    {
        assert(tv.take(i + 1 as int).drop_last() =~= tv.take(i as int));
        assert(tv.take(i + 1 as int).last() == tv[i as int]);
        if let Some(v) = &t[i].1 {
            let k = text::to_lowercase(t[i].0.as_str());
            let v = text::owned(v.as_str());
            let ghost before = r@;
            r.push((k, v));
            assert(table_view(r@) =~= table_view(before).push((text::lowercase(tv[i as int].0), v@)));
        }
        i += 1;
    }
    assert(tv.take(t@.len() as int) =~= tv);
    r
}

fn section_entries(o: &Option<Vec<(String, Option<String>)>>) -> (r: Vec<(String, String)>)
    ensures
        table_view(r@) == string_entries(section(opt_table_view(*o))),
{
    match o {
        Some(t) => string_entries_exec(t),
        None => {
            let r: Vec<(String, String)> = Vec::new();
            assert(table_view(r@) =~= Seq::<(Seq<char>, Seq<char>)>::empty());
            r
        },
    }
}

/// Whether reading every definition's colour cuts it at character
/// boundaries, as `theme_from_json` needs.
pub fn colors_cut_ok(j: &ThemeJson) -> (r: bool)
    ensures
        r == colors_cut(j@),
{
    match &j.icon_definitions {
        None => true,
        Some(d) => {
            let ghost dv = json_defs_view(d@);
            let mut i: usize = 0;
            while i < d.len()
                invariant
                    i <= d@.len(),
                    dv == json_defs_view(d@),
                    j@.0 == Some(dv),
                    forall|k: int| 0 <= k < i ==> color_cuts(#[trigger] text_or(dv[k].2, "#d4d7d6"@)),
                decreases d@.len() - i,
            {
                let col = text_or_exec(&d[i].2, "#d4d7d6");
                if !color_cuts_ok(col.as_str()) {
                    assert(!color_cuts(text_or(section(j@.0)[i as int].2, "#d4d7d6"@)));
                    return false;
                }
                i += 1;
            }
            true
        },
    }
}

/// The theme built from the parts of its file: the definitions whose glyph
/// and colour read, the string entries of the three tables with their keys
/// lowercased, and the default definition.
pub fn theme_from_json(j: ThemeJson) -> (t: IconTheme)
    requires
        colors_cut(j@),
    ensures
        t@ == theme_of(j@),
{
    let defs = match &j.icon_definitions {
        Some(d) => {
            assert(section(j@.0) == json_defs_view(d@));
            kept_defs_exec(d)
        },
        None => {
            let r: Vec<(String, Icon)> = Vec::new();
            assert(defs_view(r@) =~= Seq::<(Seq<char>, Icon)>::empty());
            r
        },
    };
    let t = IconTheme {
        defs,
        file_extensions: section_entries(&j.file_extensions),
        file_names: section_entries(&j.file_names),
        language_ids: section_entries(&j.language_ids),
        default_def: text_or_exec(&j.file, "_default"),
    };
    assert(t@ =~= theme_of(j@));
    t
}

/// The theme defined by the JSON text `raw`: `None` where the text is not
/// JSON, or where a definition's colour would be cut inside a character.
pub fn load_theme(raw: &str) -> (r: Option<IconTheme>)
    ensures
        match theme_json(raw@) {
            None => r is None,
            Some(j) => if colors_cut(j) {
                r matches Some(t) && t@ == theme_of(j)
            } else {
                r is None
            },
        },
{
    let (icon_definitions, file_extensions, file_names, language_ids, file) = read_theme_json(raw)?;
    let j = ThemeJson { icon_definitions, file_extensions, file_names, language_ids, file };
    if colors_cut_ok(&j) {
        Some(theme_from_json(j))
    } else {
        None
    }
}

} // verus!

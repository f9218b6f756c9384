use vscode_rust::file_icons::{
    color_cuts_ok, colors_cut_ok, ext_to_language, load_theme, parse_font_char, parse_hex, theme_from_json,
    IconTheme, ThemeJson,
};

fn s(x: &str) -> String {
    x.to_string()
}

fn theme() -> IconTheme {
    IconTheme {
        defs: vec![
            (s("_rust"), ('r', (1, 2, 3))),
            (s("_ts"), ('t', (0, 0, 0))),
            (s("_test_ts"), ('T', (0, 0, 0))),
            (s("_default"), ('d', (9, 9, 9))),
            (s("_mk"), ('m', (4, 4, 4))),
        ],
        file_extensions: vec![(s("test.ts"), s("_test_ts")), (s("lock"), s("_missing"))],
        file_names: vec![(s("makefile"), s("_mk"))],
        language_ids: vec![(s("rust"), s("_rust")), (s("typescript"), s("_ts"))],
        default_def: s("_default"),
    }
}

#[test]
fn languages_of_extensions() {
    assert_eq!(ext_to_language("mts"), Some("typescript"));
    assert_eq!(ext_to_language("zsh"), Some("shellscript"));
    assert_eq!(ext_to_language("xyz"), None);
}

#[test]
fn font_characters() {
    assert_eq!(parse_font_char("\\E099"), Some('\u{E099}'));
    assert_eq!(parse_font_char("\\\\41"), Some('A'));
    assert_eq!(parse_font_char("+42"), Some('B'));
    assert_eq!(parse_font_char("\\D800"), None);
    assert_eq!(parse_font_char("\\zz"), None);
    assert_eq!(parse_font_char(""), None);
    assert_eq!(parse_font_char("\\FFFFFFFFF"), None);
}

#[test]
fn colours() {
    assert_eq!(parse_hex("#ff8000"), Some((255, 128, 0)));
    assert_eq!(parse_hex("##0a0b0cdd"), Some((10, 11, 12)));
    assert_eq!(parse_hex("#abc"), None);
    assert_eq!(parse_hex("12345g"), None);
    assert!(color_cuts_ok("#123456"));
    assert!(!color_cuts_ok("#1é3456"));
    assert!(color_cuts_ok("é"));
}

#[test]
fn icons_by_name_extension_language_default() {
    let t = theme();
    assert_eq!(t.icon_for("/w/Makefile").map(|i| i.0), Some('m'));
    assert_eq!(t.icon_for("/w/a.test.ts").map(|i| i.0), Some('T'));
    assert_eq!(t.icon_for("/w/b.ts").map(|i| i.0), Some('t'));
    assert_eq!(t.icon_for("/w/main.rs"), Some(('r', (1, 2, 3))));
    assert_eq!(t.icon_for("/w/Cargo.lock").map(|i| i.0), Some('d'));
    assert_eq!(t.icon_for("/w/README").map(|i| i.0), Some('d'));
    assert_eq!(t.icon_for("/"), None);
}

#[test]
fn theme_from_json_keeps_what_reads() {
    let j = ThemeJson {
        icon_definitions: Some(vec![
            (s("_a"), Some(s("\\E001")), Some(s("#010203"))),
            (s("_b"), Some(s("\\E002")), None),
            (s("_bad_glyph"), Some(s("zz")), Some(s("#000000"))),
            (s("_no_glyph"), None, Some(s("#000000"))),
            (s("_short_colour"), Some(s("\\41")), Some(s("#abc"))),
        ]),
        file_extensions: Some(vec![(s("TS"), Some(s("_a"))), (s("js"), None)]),
        file_names: None,
        language_ids: Some(vec![(s("Rust"), Some(s("_b")))]),
        file: None,
    };
    assert!(colors_cut_ok(&j));
    let t = theme_from_json(j);
    assert_eq!(
        t.defs,
        vec![(s("_a"), ('\u{E001}', (1, 2, 3))), (s("_b"), ('\u{E002}', (0xd4, 0xd7, 0xd6)))]
    );
    assert_eq!(t.file_extensions, vec![(s("ts"), s("_a"))]);
    assert!(t.file_names.is_empty());
    assert_eq!(t.language_ids, vec![(s("rust"), s("_b"))]);
    assert_eq!(t.default_def, s("_default"));
}

#[test]
fn colours_cut_inside_a_character_are_refused() {
    let j = ThemeJson {
        icon_definitions: Some(vec![(s("_a"), Some(s("\\41")), Some(s("#1é3456")))]),
        file_extensions: None,
        file_names: None,
        language_ids: None,
        file: Some(s("_a")),
    };
    assert!(!colors_cut_ok(&j));
    assert!(load_theme(r##"{"iconDefinitions": {"_a": {"fontCharacter": "\\41", "fontColor": "#1é3456"}}}"##).is_none());
}

#[test]
fn load_theme_reads_the_json_definition() {
    let raw = r##"{
        "iconDefinitions": {
            "_rust": { "fontCharacter": "\\E09B", "fontColor": "#6d8086" },
            "_default": { "fontCharacter": "\\E023" },
            "_odd": { "fontCharacter": 5, "fontColor": "#000000" },
            "_mk": { "fontCharacter": "\\E0A0", "fontColor": "#ffffff" },
            "_mk_upper": { "fontCharacter": "\\E0A1", "fontColor": "#ffffff" }
        },
        "fileExtensions": { "RS": "_rust", "n": 3 },
        "fileNames": { "makefile": "_mk", "Makefile": "_mk_upper" },
        "languageIds": { "rust": "_rust" }
    }"##;
    let t = load_theme(raw).unwrap();
    assert_eq!(
        t.defs,
        vec![
            (s("_default"), ('\u{E023}', (0xd4, 0xd7, 0xd6))),
            (s("_mk"), ('\u{E0A0}', (255, 255, 255))),
            (s("_mk_upper"), ('\u{E0A1}', (255, 255, 255))),
            (s("_rust"), ('\u{E09B}', (0x6d, 0x80, 0x86))),
        ]
    );
    assert_eq!(t.file_extensions, vec![(s("rs"), s("_rust"))]);
    assert_eq!(t.default_def, s("_default"));
    assert_eq!(t.icon_for("/w/Main.RS"), Some(('\u{E09B}', (0x6d, 0x80, 0x86))));
    // "Makefile" comes before "makefile" among the keys, so the lowercase
    // key's entry is the one kept.
    assert_eq!(t.icon_for("/w/Makefile").map(|i| i.0), Some('\u{E0A0}'));
    assert_eq!(t.icon_for("/w/notes.txt").map(|i| i.0), Some('\u{E023}'));
}

#[test]
fn load_theme_of_other_json() {
    assert!(load_theme("{ not json").is_none());
    let t = load_theme(r#"{"file": "_x", "fileNames": [1, 2]}"#).unwrap();
    assert!(t.defs.is_empty() && t.file_names.is_empty());
    assert_eq!(t.default_def, s("_x"));
    let t = load_theme("[1, 2]").unwrap();
    assert!(t.defs.is_empty() && t.file_extensions.is_empty() && t.language_ids.is_empty());
    assert_eq!(t.default_def, s("_default"));
}

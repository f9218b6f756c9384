use vscode_rust::editor::buffer::{detect_language, is_known_binary, language_label_of, Document};
use vscode_rust::editor::find::{
    compute_matches, find_step, highlight_for, match_counter, FindEvent, FindState,
};
use vscode_rust::editor::highlight::{
    bracket_step, colour_runs, is_comment_color, is_string_color, paint_brackets, paint_token, runs_of_lines,
    syntax_token, BracketPaint,
};
use vscode_rust::editor::view::{char_to_line_col, line_col_byte_to_char_offset};

#[test]
fn languages_come_from_the_extension() {
    assert_eq!(detect_language("/a/main.RS"), "rs");
    assert_eq!(detect_language("x.mjs"), "js");
    assert_eq!(detect_language("x.hpp"), "h");
    assert_eq!(detect_language("Makefile"), "");
    assert_eq!(language_label_of("rs"), "Rust");
    assert_eq!(language_label_of("yml"), "YAML");
    assert_eq!(language_label_of(""), "Plain Text");
    assert!(is_known_binary("/img/logo.PNG"));
    assert!(!is_known_binary("/src/lib.rs"));
}

#[test]
fn documents_track_dirtiness() {
    let mut d = Document::opened("/w/src/lib.rs".to_string(), "fn a() {}\n".to_string());
    assert!(!d.dirty);
    assert_eq!(d.display_name(), "lib.rs");
    assert_eq!(d.language_label(), "Rust");
    assert_eq!((d.cursor_line, d.cursor_col), (1, 1));
    d.text.push('x');
    d.check_dirty();
    assert!(d.dirty);
    d.mark_saved();
    assert!(!d.dirty);
    assert_eq!(d.saved_text, "fn a() {}\nx");
    d.check_dirty();
    assert!(!d.dirty);
}

#[test]
fn find_widget() {
    let mut s = FindState::new();
    assert!(!s.open);
    s.open();
    assert!(s.open);
    assert!(s.take_focus_request());
    assert!(!s.take_focus_request());
    let m = compute_matches("a.b A.B", "a.b");
    assert_eq!(m, vec![(0, 3), (4, 7)]);
    assert!(compute_matches("abc", "").is_empty());
    s.current = 5;
    let h = highlight_for(&s, &m).unwrap();
    assert_eq!(h.current, 1);
    assert_eq!(h.ranges, m);
    assert!(highlight_for(&s, &[]).is_none());
    s.close();
    assert!(highlight_for(&s, &m).is_none());
}

#[test]
fn bracket_colours_rotate_by_depth() {
    let mut stack = Vec::new();
    let p = paint_brackets(&mut stack, "([{x}])]");
    assert_eq!(
        p,
        vec![
            BracketPaint::Level(0),
            BracketPaint::Level(1),
            BracketPaint::Level(2),
            BracketPaint::Text,
            BracketPaint::Level(2),
            BracketPaint::Level(1),
            BracketPaint::Level(0),
            BracketPaint::Unmatched,
        ]
    );
    assert!(stack.is_empty());
    let mut deep = vec!['(', '(', '('];
    assert_eq!(bracket_step(&mut deep, '['), BracketPaint::Level(0));
    assert_eq!(bracket_step(&mut deep, ')'), BracketPaint::Unmatched);
    assert_eq!(deep.len(), 4);
}

#[test]
fn cursor_positions() {
    let t = "ab\ncd\n\nef";
    assert_eq!(char_to_line_col(t, 0), (1, 1));
    assert_eq!(char_to_line_col(t, 2), (1, 3));
    assert_eq!(char_to_line_col(t, 3), (2, 1));
    assert_eq!(char_to_line_col(t, 7), (4, 1));
    assert_eq!(char_to_line_col(t, 100), (4, 3));
    assert_eq!(line_col_byte_to_char_offset(t, 2, 1), 4);
    assert_eq!(line_col_byte_to_char_offset("é\nxé", 2, 2), 4);
    assert_eq!(line_col_byte_to_char_offset(t, 9, 0), 10);
}

#[test]
fn inline_diff_rows() {
    use_diff_rows();
}

fn use_diff_rows() {
    let rows = vscode_rust::editor::diff_view::diff_rows("a\nb\nc\n", "a\nB\nc\nd");
    let got: Vec<(Option<usize>, Option<usize>, &str)> =
        rows.iter().map(|r| (r.old_no, r.new_no, r.text.as_str())).collect();
    assert_eq!(
        got,
        vec![
            (Some(1), Some(1), "a"),
            (Some(2), None, "b"),
            (None, Some(2), "B"),
            (Some(3), Some(3), "c"),
            (None, Some(4), "d"),
        ]
    );
}

#[test]
fn syntax_tokens_and_theme_colours() {
    assert_eq!(syntax_token("tsx"), "ts");
    assert_eq!(syntax_token("zsh"), "sh");
    assert_eq!(syntax_token("rs"), "rs");
    assert_eq!(syntax_token("lua"), "lua");
    assert!(is_string_color(0xa5, 0xd6, 0xff));
    assert!(!is_string_color(0, 0, 0));
    assert!(is_comment_color(0x6a, 0x99, 0x55));
    assert!(!is_comment_color(0xa5, 0xd6, 0xff));
}

#[test]
fn strings_and_comments_keep_their_brackets_plain() {
    let mut stack = vec!['{'];
    let p = paint_token(&mut stack, "\"(x\"", 0xa5, 0xd6, 0xff);
    assert_eq!(p, vec![BracketPaint::Text; 4]);
    assert_eq!(stack, vec!['{']);
    let p = paint_token(&mut stack, "// }", 0x6a, 0x99, 0x55);
    assert_eq!(p, vec![BracketPaint::Text; 4]);
    let p = paint_token(&mut stack, "f(}", 0xdc, 0xdc, 0xaa);
    assert_eq!(p, vec![BracketPaint::Text, BracketPaint::Level(1), BracketPaint::Unmatched]);
    assert_eq!(stack, vec!['{', '(']);
}

#[test]
fn find_widget_frames() {
    let m = [(0usize, 2usize), (5, 7), (9, 11)];
    let mut s = FindState::new();
    assert_eq!(find_step(&mut s, &m, FindEvent::Next).goto, None);
    assert_eq!(s.current, 0);
    s.open();
    assert_eq!(find_step(&mut s, &m, FindEvent::Next).goto, Some(5));
    assert_eq!(s.current, 1);
    assert_eq!(find_step(&mut s, &m, FindEvent::Next).goto, Some(9));
    assert_eq!(find_step(&mut s, &m, FindEvent::Next).goto, Some(0));
    assert_eq!(s.current, 0);
    assert_eq!(find_step(&mut s, &m, FindEvent::Prev).goto, Some(9));
    assert_eq!(s.current, 2);
    assert_eq!(find_step(&mut s, &m[..1], FindEvent::Idle).goto, None);
    assert_eq!(s.current, 0);
    s.current = 2;
    assert_eq!(find_step(&mut s, &m, FindEvent::QueryChanged("ab".to_string())).goto, None);
    assert_eq!((s.current, s.query.as_str()), (0, "ab"));
    assert_eq!(find_step(&mut s, &[], FindEvent::Next).goto, None);
    assert_eq!(s.current, 0);
    assert!(s.open);
    find_step(&mut s, &m, FindEvent::Escape);
    assert!(!s.open);
}

#[test]
fn find_match_counter() {
    assert_eq!(match_counter(true, 0, 3), "");
    assert_eq!(match_counter(false, 0, 0), "No results");
    assert_eq!(match_counter(false, 1, 12), "2 of 12");
}

#[test]
fn only_unknown_extensions_are_plain_text() {
    for (p, label) in [("x.YML", "YAML"), ("x.hpp", "C Header"), ("x.cc", "C++"), ("x.mjs", "JavaScript")] {
        let d = Document::opened(p.to_string(), String::new());
        assert_eq!(d.language_label(), label);
    }
    let d = Document::opened("notes.txt".to_string(), String::new());
    assert_eq!(d.language, "");
    assert_eq!(d.language_label(), "Plain Text");
}

#[test]
fn offsets_round_trip_to_lines_and_columns() {
    let text = "fn main() {\n    let é = 1;\n}\n";
    for (line, byte, col) in [(1, 0, 1), (1, 3, 4), (2, 8, 9), (2, 10, 10), (3, 1, 2), (4, 0, 1)] {
        let o = line_col_byte_to_char_offset(text, line, byte);
        assert_eq!(char_to_line_col(text, o), (line, col));
    }
}

const TEST_THEME: &str = r##"<?xml version="1.0" encoding="UTF-8"?>
<!DOCTYPE plist PUBLIC "-//Apple//DTD PLIST 1.0//EN" "http://www.apple.com/DTDs/PropertyList-1.0.dtd">
<plist version="1.0">
<dict>
  <key>name</key><string>Test</string>
  <key>settings</key>
  <array>
    <dict><key>settings</key><dict><key>foreground</key><string>#BBBEBF</string></dict></dict>
    <dict><key>scope</key><string>string</string><key>settings</key><dict><key>foreground</key><string>#A5D6FF</string></dict></dict>
    <dict><key>scope</key><string>comment</string><key>settings</key><dict><key>foreground</key><string>#8B949E</string></dict></dict>
  </array>
</dict>
</plist>"##;

const GOLD: (u8, u8, u8) = (0xFF, 0xD7, 0x00);
const ORCHID: (u8, u8, u8) = (0xDA, 0x70, 0xD6);
const RED: (u8, u8, u8) = (0xFF, 0x12, 0x12);

#[test]
fn runs_match_brackets_across_lines() {
    let lines = vec![
        ("a(b\n".to_string(), Some(vec![("a(b\n".to_string(), (1, 2, 3))])),
        ("x)\n".to_string(), None),
        ("\"(\"[)]".to_string(), Some(vec![("\"(\"".to_string(), (0xa5, 0xd6, 0xff)), ("[)]".to_string(), (4, 5, 6))])),
    ];
    let runs = runs_of_lines(&lines);
    let want: Vec<(String, BracketPaint, (u8, u8, u8))> = vec![
        ("a".to_string(), BracketPaint::Text, (1, 2, 3)),
        ("(".to_string(), BracketPaint::Level(0), GOLD),
        ("b\n".to_string(), BracketPaint::Text, (1, 2, 3)),
        ("x)\n".to_string(), BracketPaint::Text, (0xBB, 0xBE, 0xBF)),
        ("\"(\"".to_string(), BracketPaint::Text, (0xa5, 0xd6, 0xff)),
        ("[".to_string(), BracketPaint::Level(1), ORCHID),
        (")".to_string(), BracketPaint::Unmatched, RED),
        ("]".to_string(), BracketPaint::Level(1), ORCHID),
    ];
    assert_eq!(runs, want);
    assert!(runs_of_lines(&vec![("".to_string(), None)]).is_empty());
}

#[test]
fn colour_runs_highlights_a_document() {
    let text = "fn f() {\n    let s = \"(\"; // )\n}\n";
    let runs = colour_runs(TEST_THEME, text, "rs").unwrap();
    let joined: String = runs.iter().map(|r| r.0.as_str()).collect();
    assert_eq!(joined, text);
    let brackets: Vec<(String, BracketPaint)> =
        runs.iter().filter(|r| r.1 != BracketPaint::Text).map(|r| (r.0.clone(), r.1)).collect();
    assert_eq!(
        brackets,
        vec![
            ("(".to_string(), BracketPaint::Level(0)),
            (")".to_string(), BracketPaint::Level(0)),
            ("{".to_string(), BracketPaint::Level(0)),
            ("}".to_string(), BracketPaint::Level(0)),
        ]
    );
    assert!(runs.iter().any(|r| r.0.contains('(') && r.2 == (0xa5, 0xd6, 0xff)));
    assert!(runs.iter().any(|r| r.0.contains(')') && r.2 == (0x8b, 0x94, 0x9e)));
}

#[test]
fn colour_runs_of_plain_text_and_bad_themes() {
    let runs = colour_runs(TEST_THEME, "(\n)", "no-such-language").unwrap();
    let brackets: Vec<BracketPaint> = runs.iter().map(|r| r.1).filter(|p| *p != BracketPaint::Text).collect();
    assert_eq!(brackets, vec![BracketPaint::Level(0), BracketPaint::Level(0)]);
    assert!(colour_runs("not a theme", "x", "rs").is_none());
    assert_eq!(colour_runs(TEST_THEME, "", "rs").unwrap(), vec![]);
}

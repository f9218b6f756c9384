use vscode_rust::search::engine::{
    accept_entry, build_matcher, find_all, needs_content, is_binary, run, skip_file_name, trim_preview,
    SearchOutcome, SearchQuery, WalkEntry, MAX_FILE_SIZE, MAX_TOTAL_HITS,
};
use vscode_rust::search::ui::{plural, stats_text, SearchBoxInput, SearchState};

fn query(text: &str, match_case: bool, whole_word: bool, regex: bool) -> SearchQuery {
    SearchQuery { text: text.to_string(), match_case, whole_word, regex }
}

fn file(path: &str, content: &str) -> WalkEntry {
    WalkEntry {
        path: path.to_string(),
        is_file: true,
        name: Some(path.rsplit('/').next().unwrap().to_string()),
        size: Some(content.len() as u64),
        head: Some(content.as_bytes().to_vec()),
        content: Some(content.to_string()),
    }
}

#[test]
fn plain_matching_ignores_case_unless_asked() {
    let m = build_matcher(&query("foo", false, false, false)).ok().unwrap();
    assert_eq!(find_all(&m, "Foo bar FOO"), vec![(0, 3), (8, 11)]);
    let m = build_matcher(&query("foo", true, false, false)).ok().unwrap();
    assert_eq!(find_all(&m, "Foo bar foo"), vec![(8, 11)]);
}

#[test]
fn plain_matches_do_not_overlap() {
    let m = build_matcher(&query("aa", true, false, false)).ok().unwrap();
    assert_eq!(find_all(&m, "aaaaa"), vec![(0, 2), (2, 4)]);
}

#[test]
fn whole_word_matching() {
    let m = build_matcher(&query("cat", true, true, false)).ok().unwrap();
    assert_eq!(find_all(&m, "cat concat cat_x (cat)"), vec![(0, 3), (18, 21)]);
}

#[test]
fn byte_offsets_count_utf8() {
    let m = build_matcher(&query("b", true, false, false)).ok().unwrap();
    assert_eq!(find_all(&m, "éb"), vec![(2, 3)]);
}

#[test]
fn regex_matching_and_errors() {
    let m = build_matcher(&query("a+b", true, false, true)).ok().unwrap();
    assert_eq!(find_all(&m, "xaab ab"), vec![(1, 4), (5, 7)]);
    let ci = build_matcher(&query("ab", false, false, true)).ok().unwrap();
    assert_eq!(find_all(&ci, "AB"), vec![(0, 2)]);
    match build_matcher(&query("(", true, false, true)) {
        Err(e) => assert!(e.starts_with("Invalid regex: ")),
        Ok(_) => panic!("an unbalanced group must not build"),
    }
}

#[test]
fn previews_are_trimmed_and_cut() {
    assert_eq!(trim_preview("   let x = 1;"), "let x = 1;");
    let long = "y".repeat(250);
    let p = trim_preview(&long);
    assert_eq!(p.chars().count(), 201);
    assert!(p.ends_with('…'));
}

#[test]
fn walk_filters() {
    assert!(accept_entry("src", 1));
    assert!(!accept_entry("node_modules", 1));
    assert!(!accept_entry("target", 0));
    assert!(!accept_entry(".hidden", 2));
    assert!(accept_entry(".env", 2));
    assert!(accept_entry(".root", 0));
    assert!(skip_file_name("Cargo.lock"));
    assert!(!skip_file_name("main.rs"));
    assert!(is_binary(&[1, 0, 2]));
    assert!(!is_binary(b"text"));
}

#[test]
fn run_collects_hits_per_file() {
    let entries = vec![
        file("/w/a.txt", "hello\n  say hello world\n"),
        file("/w/b.txt", "nothing here\n"),
        WalkEntry { path: "/w/dir".to_string(), is_file: false, name: Some("dir".to_string()), size: None, head: None, content: None },
        file("/w/Cargo.lock", "hello\n"),
        file("/w/bin.dat", "hello\0"),
        file("/w/c.txt", "Hello"),
    ];
    let o = run(&query("hello", false, false, false), entries);
    assert_eq!(o.error, None);
    assert_eq!(o.total_hits, 3);
    assert_eq!(o.files_scanned, 3);
    assert!(!o.truncated);
    let files: Vec<&str> = o.results.iter().map(|r| r.path.as_str()).collect();
    assert_eq!(files, vec!["/w/a.txt", "/w/c.txt"]);
    let hits: Vec<(usize, usize, &str)> =
        o.results[0].hits.iter().map(|h| (h.line, h.byte_start, h.preview.as_str())).collect();
    assert_eq!(hits, vec![(1, 0, "hello"), (2, 6, "say hello world")]);
    assert_eq!(stats_text(&o), "3 results in 2 files");
}

#[test]
fn run_stops_at_the_hit_limit() {
    let content = "x\n".repeat(MAX_TOTAL_HITS + 5);
    let o = run(&query("x", true, false, false), vec![file("/w/a", &content), file("/w/b", "x")]);
    assert_eq!(o.total_hits, MAX_TOTAL_HITS);
    assert!(o.truncated);
    assert_eq!(o.results.len(), 1);
    assert_eq!(stats_text(&o), "1000 results in 1 file (truncated)");
}

#[test]
fn run_without_a_query_or_with_a_bad_regex() {
    let o = run(&query("", false, false, false), vec![file("/w/a", "x")]);
    assert_eq!(o.total_hits, 0);
    assert_eq!(o.files_scanned, 0);
    assert_eq!(stats_text(&o), "No results found.");
    let e = run(&query("[", true, false, true), vec![file("/w/a", "x")]);
    assert!(e.error.unwrap().starts_with("Invalid regex: "));
}

#[test]
fn stepping_an_outcome() {
    let m = build_matcher(&query("a", true, false, false)).ok().unwrap();
    let mut o = SearchOutcome::new();
    assert!(!o.step(&m, file("/w/x", "a a\n")));
    assert_eq!(o.total_hits, 2);
    assert_eq!(o.files_scanned, 1);
}

#[test]
fn search_state() {
    let mut s = SearchState::new();
    assert!(s.query_to_run().is_none());
    s.query = "  ".to_string();
    assert!(s.query_to_run().is_none());
    s.query = " foo".to_string();
    s.regex = true;
    let q = s.query_to_run().unwrap();
    assert_eq!(q.text, " foo");
    assert!(q.regex);
    assert!(!s.is_collapsed("/w/a"));
    s.toggle_collapsed("/w/a");
    assert!(s.is_collapsed("/w/a"));
    s.toggle_collapsed("/w/a");
    assert!(!s.is_collapsed("/w/a"));
    assert_eq!(plural(1), "");
    assert_eq!(plural(0), "s");
}

#[test]
fn search_box_frames() {
    let idle = SearchBoxInput {
        edited: false,
        submitted: false,
        regex_clicked: false,
        whole_word_clicked: false,
        match_case_clicked: false,
    };
    let mut s = SearchState::new();
    s.focus_input = true;
    assert!(!s.search_box(idle));
    assert!(!s.focus_input);
    assert!(s.search_box(SearchBoxInput { regex_clicked: true, ..idle }));
    assert!(s.regex && !s.whole_word && !s.match_case);
    assert!(s.search_box(SearchBoxInput { regex_clicked: true, match_case_clicked: true, ..idle }));
    assert!(!s.regex && s.match_case);
    assert!(s.search_box(SearchBoxInput { submitted: true, ..idle }));
    s.query = "x".to_string();
    s.outcome = Some(vscode_rust::search::engine::SearchOutcome {
        results: Vec::new(),
        files_scanned: 0,
        total_hits: 0,
        truncated: false,
        error: None,
    });
    assert!(!s.search_box(SearchBoxInput { edited: true, ..idle }));
    assert!(s.outcome.is_some());
    s.query.clear();
    assert!(!s.search_box(SearchBoxInput { edited: true, ..idle }));
    assert!(s.outcome.is_none());
}

#[test]
fn start_ends_early_or_hands_over_the_matcher() {
    match SearchOutcome::start(&query("", false, false, false)) {
        Err(o) => assert!(o.results.is_empty() && o.error.is_none() && o.files_scanned == 0),
        Ok(_) => panic!("an empty query searches nothing"),
    }
    match SearchOutcome::start(&query("(", false, false, true)) {
        Err(o) => assert!(o.error.unwrap().starts_with("Invalid regex: ")),
        Ok(_) => panic!("an unbalanced group does not build"),
    }
    match SearchOutcome::start(&query("Foo", false, false, false)) {
        Ok((o, m)) => {
            assert!(o.results.is_empty() && o.error.is_none() && o.total_hits == 0);
            assert_eq!(find_all(&m, "a foo"), vec![(2, 5)]);
        }
        Err(_) => panic!("a plain query always starts"),
    }
}

#[test]
fn only_files_that_are_searched_need_their_text() {
    let mut e = file("src/a.rs", "x");
    e.content = None;
    assert!(needs_content(&e));
    e.size = Some(MAX_FILE_SIZE + 1);
    assert!(!needs_content(&e));
    e.size = Some(10);
    e.head = Some(vec![b'a', 0, b'b']);
    assert!(!needs_content(&e));
    e.head = None;
    e.name = Some("Cargo.lock".to_string());
    let skipped = skip_file_name("Cargo.lock");
    assert_eq!(needs_content(&e), !skipped);
    e.is_file = false;
    assert!(!needs_content(&e));
}

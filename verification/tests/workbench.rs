use vscode_rust::assets::inject_white_fill;
use vscode_rust::editor::buffer::Document;
use vscode_rust::git::repository::status_v2;
use vscode_rust::git::Model;
use vscode_rust::git::status::CommitMode;
use vscode_rust::workbench::{
    active_repo_root, checkout_message, commit_diff_title, commit_failed_message, commit_menu_mode,
    commit_plan, editor_area, saved_message, shortcut_actions, shows_welcome_tab, sync_runs,
    tab_menu_action, tab_menu_items, workspace_title, CommitPlan, EditorArea, Editors,
    ShortcutAction, ShortcutKeys, TabMenuAction, WelcomeAction,
};
use vscode_rust::workbench::{file_menu_enabled, welcome_link_parts};

fn doc(path: &str) -> Document {
    Document::opened(path.to_string(), String::new())
}

fn paths(e: &Editors) -> Vec<&str> {
    e.documents.iter().map(|d| d.path.as_str()).collect()
}

#[test]
fn closing_tabs_moves_the_active_one() {
    let mut e = Editors::new();
    e.open(doc("/a"));
    e.open(doc("/b"));
    e.open(doc("/c"));
    assert_eq!(e.active, Some(2));
    e.close_doc(2);
    assert_eq!(paths(&e), vec!["/a", "/b"]);
    assert_eq!(e.active, Some(1));
    e.active = Some(1);
    e.close_doc(0);
    assert_eq!(e.active, Some(0));
    e.close_doc(7);
    assert_eq!(paths(&e), vec!["/b"]);
    e.close_active();
    assert!(e.documents.is_empty());
    assert_eq!(e.active, None);
}

#[test]
fn closing_others_keeps_pinned_tabs() {
    let mut e = Editors::new();
    e.open(doc("/a"));
    e.open(doc("/b"));
    e.open(doc("/c"));
    e.documents[0].pinned = true;
    e.close_others(2);
    assert_eq!(paths(&e), vec!["/a", "/c"]);
    assert_eq!(e.active, Some(1));
    assert_eq!(e.find("/c"), Some(1));
    assert_eq!(e.find("/b"), None);
    e.close_all();
    assert!(e.documents.is_empty() && e.active.is_none());
}

#[test]
fn messages_and_welcome() {
    assert_eq!(saved_message(3, 0), "Saved 3 file(s)");
    assert_eq!(saved_message(1, 2), "Saved 1 file(s), 2 errors");
    let w = WelcomeAction::default();
    assert!(!w.open_folder && !w.open_file && !w.open_palette);
}

#[test]
fn svg_roots_are_painted_white() {
    assert_eq!(inject_white_fill("<svg width=\"1\"/>"), "<svg fill=\"#FFFFFF\" width=\"1\"/>");
    assert_eq!(inject_white_fill("<?xml?><svg>"), "<?xml?><svg fill=\"#FFFFFF\">");
    assert_eq!(inject_white_fill("plain"), "plain");
}

fn repo(root: &str, status: &str) -> vscode_rust::git::repository::Repository {
    status_v2(root, Some(status.as_bytes().to_vec()))
}

#[test]
fn active_repository_follows_the_active_document() {
    let model = Model { repos: vec![repo("/w/a", "## main\0"), repo("/w/a/sub", "## main\0")] };
    let mut e = Editors::new();
    assert_eq!(active_repo_root(&e, &model).as_deref(), Some("/w/a"));
    e.open(doc("/w/a/sub/x.rs"));
    assert_eq!(active_repo_root(&e, &model).as_deref(), Some("/w/a/sub"));
    e.open(doc("/elsewhere/y.rs"));
    assert_eq!(active_repo_root(&e, &model).as_deref(), Some("/w/a"));
    let empty = Model { repos: Vec::new() };
    assert_eq!(active_repo_root(&e, &empty), None);
}

#[test]
fn commit_plans() {
    let clean = repo("/w/p", "## main\0");
    let staged = repo("/w/p", "## main\0M  a.rs\0");
    let unstaged = repo("/w/p", "## main\0 M a.rs\0");
    assert!(matches!(commit_plan("  \n ", &staged), CommitPlan::EmptyMessage));
    assert!(matches!(commit_plan("fix", &clean), CommitPlan::NothingToCommit));
    match commit_plan("  fix bug \n", &staged) {
        CommitPlan::Commit { message, all } => {
            assert_eq!(message, "fix bug");
            assert!(!all);
        }
        _ => panic!("expected a commit"),
    }
    match commit_plan("wip", &unstaged) {
        CommitPlan::Commit { message, all } => {
            assert_eq!(message, "wip");
            assert!(all);
        }
        _ => panic!("expected a commit"),
    }
}

#[test]
fn failed_commit_reports_the_first_line() {
    assert_eq!(
        commit_failed_message("error: nothing added\r\nhint: use git add\n"),
        "Commit failed: error: nothing added"
    );
    assert_eq!(commit_failed_message(""), "Commit failed: ");
}

#[test]
fn tab_context_menu() {
    let items = tab_menu_items(false);
    let labels: Vec<&str> = items.iter().map(|i| i.label).collect();
    assert_eq!(labels, vec!["Close", "Close Others", "Close All", "", "Pin"]);
    assert_eq!(items[0].shortcut, Some("⌘W"));
    assert!(items[3].separator);
    assert_eq!(tab_menu_items(true)[4].label, "Unpin");
    assert_eq!(tab_menu_action(0), Some(TabMenuAction::Close));
    assert_eq!(tab_menu_action(1), Some(TabMenuAction::CloseOthers));
    assert_eq!(tab_menu_action(2), Some(TabMenuAction::CloseAll));
    assert_eq!(tab_menu_action(3), None);
    assert_eq!(tab_menu_action(4), Some(TabMenuAction::TogglePin));
    let mut e = Editors::new();
    e.open(doc("/a"));
    e.open(doc("/b"));
    e.toggle_pin(0);
    assert!(e.documents[0].pinned && !e.documents[1].pinned);
    e.toggle_pin(0);
    assert!(!e.documents[0].pinned);
    e.toggle_pin(9);
    assert_eq!(e.documents.len(), 2);
}

#[test]
fn activating_and_diff_tabs() {
    let mut e = Editors::new();
    e.open(doc("/a"));
    e.open(doc("/b"));
    assert!(e.activate("/a"));
    assert_eq!(e.active, Some(0));
    assert!(!e.activate("/c"));
    assert_eq!(e.active, Some(0));
    assert_eq!(e.find_diff("/b"), None);
    let mut d = doc("/b");
    d.diff_base = Some("old".to_string());
    e.open(d);
    assert_eq!(e.find_diff("/b"), Some(2));
}

#[test]
fn menus_messages_and_titles() {
    assert_eq!(commit_menu_mode(0), CommitMode::Plain);
    assert_eq!(commit_menu_mode(1), CommitMode::AndPush);
    assert_eq!(commit_menu_mode(2), CommitMode::AndSync);
    assert_eq!(checkout_message("dev", true), "Switched to branch 'dev'");
    assert_eq!(checkout_message("dev", false), "Could not switch to 'dev' (uncommitted changes?)");
    assert_eq!(
        commit_diff_title("src/lib.rs", "0123456789", "abcdef0123"),
        "lib.rs (0123456) ↔ lib.rs (abcdef0)"
    );
    assert_eq!(commit_diff_title("a.rs", "", "abc"), "a.rs () ↔ a.rs (abc)");
    assert_eq!(workspace_title(Some("/home/me/proj")), "proj");
    assert_eq!(workspace_title(None), "vscode-rust");
    assert_eq!(workspace_title(Some("/")), "vscode-rust");
}

#[test]
fn shortcuts_follow_the_palette() {
    let none = ShortcutKeys {
        palette: false,
        save: false,
        save_all: false,
        toggle_sidebar: false,
        close_editor: false,
        show_search: false,
        show_explorer: false,
    };
    let keys = ShortcutKeys { save: true, show_explorer: true, ..none };
    assert_eq!(shortcut_actions(keys, false), vec![ShortcutAction::Save, ShortcutAction::ShowExplorer]);
    assert_eq!(shortcut_actions(keys, true), vec![]);
    let keys = ShortcutKeys { palette: true, save: true, ..none };
    assert_eq!(shortcut_actions(keys, true), vec![ShortcutAction::TogglePalette]);
    assert_eq!(shortcut_actions(none, false), vec![]);
}

#[test]
fn editor_area_and_sync() {
    assert_eq!(editor_area(Some(1), true), EditorArea::Document(1));
    assert_eq!(editor_area(None, true), EditorArea::Welcome);
    assert_eq!(editor_area(None, false), EditorArea::Hints);
    assert!(shows_welcome_tab(true, 0));
    assert!(!shows_welcome_tab(true, 2));
    assert!(!shows_welcome_tab(false, 0));
    assert_eq!(sync_runs(true), vec![vec!["pull".to_string(), "--ff-only".to_string()], vec!["push".to_string()]]);
    assert_eq!(sync_runs(false), vec![vec!["push".to_string()]]);
}

#[test]
fn opened_documents_are_found_again() {
    let mut e = Editors::new();
    e.open(doc("/w/a.rs"));
    assert_eq!(e.find("/w/a.rs"), Some(0));
    e.open(doc("/w/b.rs"));
    assert_eq!(e.find("/w/b.rs"), Some(1));
    e.open(doc("/w//a.rs"));
    assert_eq!(e.find("/w/a.rs"), Some(0));
    assert_eq!(e.find("/w/c.rs"), None);
}

#[test]
fn welcome_links_split_at_double_spaces() {
    assert_eq!(
        welcome_link_parts("Show All Commands  ⇧⌘P"),
        ("Show All Commands".to_string(), "⇧⌘P".to_string())
    );
    assert_eq!(welcome_link_parts("Open File…"), ("Open File…".to_string(), String::new()));
    assert_eq!(welcome_link_parts("a  b  c"), ("a".to_string(), "b  c".to_string()));
}

#[test]
fn file_menu_items_follow_the_tabs() {
    let mut e = Editors::new();
    assert_eq!(file_menu_enabled(&e), (false, false));
    e.open(doc("/a"));
    assert_eq!(file_menu_enabled(&e), (true, true));
    e.active = None;
    assert_eq!(file_menu_enabled(&e), (false, true));
}

#[test]
fn save_all_writes_the_modified_tabs() {
    let mut e = Editors::new();
    e.open(doc("/a"));
    e.open(doc("/b"));
    e.open(doc("/c"));
    assert!(e.dirty_tabs().is_empty());
    e.documents[0].dirty = true;
    e.documents[2].dirty = true;
    assert_eq!(e.dirty_tabs(), vec![0, 2]);
}

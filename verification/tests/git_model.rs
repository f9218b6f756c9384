use vscode_rust::git::repository::{status_v2, ResourceGroupKind};
use vscode_rust::git::status::ChangeKind;
use vscode_rust::git::watcher::is_relevant;
use vscode_rust::git::Model;

fn out(s: &str) -> Option<Vec<u8>> {
    Some(s.as_bytes().to_vec())
}

#[test]
fn status_v2_groups_and_header() {
    let o = "## main...origin/main [ahead 2, behind 1]\0M  a.rs\0 M b.rs\0?? c.rs\0UU d.rs\0R  new.rs\0old.rs\0";
    let r = status_v2("/w/proj", out(o));
    assert_eq!(r.name, "proj");
    assert_eq!(r.branch.as_deref(), Some("main"));
    assert!(r.has_upstream);
    assert_eq!((r.ahead, r.behind), (2, 1));
    let idx: Vec<(&str, ChangeKind)> = r.index.iter().map(|c| (c.rel.as_str(), c.kind)).collect();
    assert_eq!(idx, vec![("a.rs", ChangeKind::Modified), ("new.rs", ChangeKind::Renamed)]);
    let wt: Vec<(&str, ChangeKind)> = r.working.iter().map(|c| (c.rel.as_str(), c.kind)).collect();
    assert_eq!(wt, vec![("b.rs", ChangeKind::Modified), ("c.rs", ChangeKind::Untracked)]);
    assert_eq!(r.merge.len(), 1);
    assert_eq!(r.merge[0].path, "/w/proj/d.rs");
    assert_eq!(r.total(), 5);
    let kinds: Vec<ResourceGroupKind> = r.groups().iter().map(|g| g.0).collect();
    assert_eq!(kinds, vec![ResourceGroupKind::Merge, ResourceGroupKind::Index, ResourceGroupKind::WorkingTree]);
    assert_eq!(ResourceGroupKind::Index.label(), "Staged Changes");
}

#[test]
fn status_v2_without_output() {
    let r = status_v2("/w/proj", None);
    assert_eq!(r.name, "proj");
    assert_eq!(r.total(), 0);
    assert!(r.groups().is_empty());
}

#[test]
fn model_disambiguates_shared_names() {
    let roots = vec!["/w/a/app".to_string(), "/w/b/app".to_string(), "/w/lib".to_string()];
    let m = Model::discover(roots, vec![None, None, None]);
    let names: Vec<&str> = m.repos.iter().map(|r| r.name.as_str()).collect();
    assert_eq!(names, vec!["app • a", "app • b", "lib"]);
    assert!(!m.is_empty());
    assert!(Model::discover(Vec::new(), Vec::new()).is_empty());
}

#[test]
fn model_refresh_reads_again() {
    let mut m = Model::discover(vec!["/w".to_string()], vec![None]);
    assert_eq!(m.total_changes(), 0);
    m.refresh(vec![out("## main\0?? x\0 M y\0")]);
    assert_eq!(m.total_changes(), 2);
    assert_eq!(m.repos[0].name, "w");
}

#[test]
fn nested_repositories_own_their_files() {
    let m = Model::discover(
        vec!["/w".to_string(), "/w/sub".to_string(), "/other".to_string()],
        vec![None, None, None],
    );
    assert_eq!(m.repo_for("/w/sub/x.rs").map(|r| r.root.as_str()), Some("/w/sub"));
    assert_eq!(m.repo_for("/w/x.rs").map(|r| r.root.as_str()), Some("/w"));
    assert_eq!(m.repo_for("/w/subx/y.rs").map(|r| r.root.as_str()), Some("/w"));
    assert!(m.repo_for("/elsewhere/z").is_none());
}

#[test]
fn model_decorations_let_the_working_tree_win() {
    let m = Model::discover(vec!["/w".to_string()], vec![out("## main\0MD f\0")]);
    let d = m.decorations();
    assert_eq!(d.last(), Some(&("/w/f".to_string(), ChangeKind::Deleted)));
}

#[test]
fn watcher_filter() {
    assert!(is_relevant("/w/src/main.rs"));
    assert!(!is_relevant("/w/target/debug/x"));
    assert!(!is_relevant("/w/node_modules/a/b.js"));
    assert!(is_relevant("/w/.git/HEAD"));
    assert!(is_relevant("/w/.git/refs/heads/main"));
    assert!(is_relevant("/w/.git/index"));
    assert!(!is_relevant("/w/.git/objects/ab/cdef"));
    assert!(!is_relevant("/w/.git"));
}

#[test]
fn repository_scan_filter() {
    use_scan();
}

fn use_scan() {
    assert!(vscode_rust::git::scan_child("app", true, 1));
    assert!(!vscode_rust::git::scan_child("node_modules", true, 1));
    assert!(!vscode_rust::git::scan_child("app", false, 1));
    assert!(!vscode_rust::git::scan_child("app", true, 2));
}

#[test]
fn refreshing_twice_keeps_the_names() {
    let roots = vec!["/a/app".to_string(), "/b/app".to_string()];
    let mut m = Model::discover(roots, vec![None, None]);
    let names: Vec<String> = m.repos.iter().map(|r| r.name.clone()).collect();
    assert_eq!(names, vec!["app • a".to_string(), "app • b".to_string()]);
    m.refresh(vec![out("## main\0"), None]);
    m.refresh(vec![None, out("## dev\0")]);
    let again: Vec<String> = m.repos.iter().map(|r| r.name.clone()).collect();
    assert_eq!(again, names);
}

#[test]
fn repository_roots_must_be_distinct_folders() {
    let ok = vec!["/w/a".to_string(), "/w/b".to_string()];
    assert!(vscode_rust::git::roots_distinct(&ok));
    let twice = vec!["/w/a".to_string(), "/w/b".to_string(), "/w//a/".to_string()];
    assert!(!vscode_rust::git::roots_distinct(&twice));
    assert!(vscode_rust::git::roots_distinct(&Vec::new()));
}

#[test]
fn refreshing_gives_the_names_of_a_fresh_discovery() {
    let roots = vec!["/a/app".to_string(), "/b/app".to_string(), "/c/lib".to_string()];
    let mut m = Model::discover(roots.clone(), vec![None, None, None]);
    m.refresh(vec![out("## main\0 M x\0"), None, out("## dev\0")]);
    let fresh = Model::discover(roots.clone(), vec![None, out("## x\0"), None]);
    let refreshed: Vec<(String, String)> = m.repos.iter().map(|r| (r.root.clone(), r.name.clone())).collect();
    let discovered: Vec<(String, String)> = fresh.repos.iter().map(|r| (r.root.clone(), r.name.clone())).collect();
    assert_eq!(refreshed, discovered);
    assert_eq!(refreshed.iter().map(|p| p.0.clone()).collect::<Vec<_>>(), roots);
}

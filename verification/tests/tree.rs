use vscode_rust::fs::tree::{children_from, FileNode, ListEntry, RevealStep};

fn entry(path: &str, is_dir: bool) -> ListEntry {
    ListEntry {
        path: path.to_string(),
        name: Some(path.rsplit('/').next().unwrap().to_string()),
        is_dir,
    }
}

fn names(v: &[FileNode]) -> Vec<&str> {
    v.iter().map(|n| n.name.as_str()).collect()
}

#[test]
fn folders_first_then_names_without_case() {
    let c = children_from(vec![
        entry("/w/b.txt", false),
        entry("/w/Zeta", true),
        entry("/w/A.md", false),
        entry("/w/.git", true),
        entry("/w/alpha", true),
        entry("/w/.gitignore", false),
        entry("/w/Thumbs.db", false),
    ]);
    assert_eq!(names(&c), vec!["alpha", "Zeta", ".gitignore", "A.md", "b.txt"]);
    assert!(c.iter().all(|n| n.children.is_none() && !n.expanded));
}

#[test]
fn equal_keys_keep_listing_order() {
    let c = children_from(vec![entry("/w/x/Read", false), entry("/w/y/read", false)]);
    let paths: Vec<&str> = c.iter().map(|n| n.path.as_str()).collect();
    assert_eq!(paths, vec!["/w/x/Read", "/w/y/read"]);
}

#[test]
fn entries_without_utf8_names_are_not_shown() {
    let c = children_from(vec![ListEntry { path: "/w/x".to_string(), name: None, is_dir: false }]);
    assert!(c.is_empty());
}

#[test]
fn root_toggle_and_load_once() {
    let root = FileNode::root("/w".to_string(), true, vec![entry("/w/src", true), entry("/w/a", false)]);
    assert!(root.expanded);
    assert_eq!(root.name, "w");
    assert_eq!(names(root.children.as_ref().unwrap()), vec!["src", "a"]);
    let mut src = FileNode::new("/w/src".to_string(), true);
    assert!(src.toggle_needs_listing());
    src.toggle(vec![entry("/w/src/main.rs", false)]);
    assert!(src.expanded);
    assert_eq!(names(src.children.as_ref().unwrap()), vec!["main.rs"]);
    src.toggle(Vec::new());
    assert!(!src.expanded);
    src.toggle(vec![entry("/w/src/other.rs", false)]);
    assert_eq!(names(src.children.as_ref().unwrap()), vec!["main.rs"]);
    let mut file = FileNode::new("/w/a".to_string(), false);
    file.toggle(Vec::new());
    assert!(!file.expanded);
    file.ensure_loaded(vec![entry("/w/a/x", false)]);
    assert!(file.children.is_none());
}

#[test]
fn reveal_expands_the_way_to_a_file() {
    let mut root = FileNode::root("/w".to_string(), true, vec![entry("/w/src", true), entry("/w/b", false)]);
    let listings = vec![
        ("/w/src".to_string(), vec![entry("/w/src/deep", true), entry("/w/src/z.rs", false)]),
        ("/w/src/deep".to_string(), vec![entry("/w/src/deep/f.rs", false)]),
    ];
    assert!(root.reveal_path("/w/src/deep/f.rs", listings));
    let src = &root.children.as_ref().unwrap()[0];
    assert!(src.expanded);
    let deep = &src.children.as_ref().unwrap()[0];
    assert!(deep.expanded);
    assert_eq!(names(deep.children.as_ref().unwrap()), vec!["f.rs"]);
    assert!(!root.reveal_path("/elsewhere/x", Vec::new()));
}

#[test]
fn reveal_in_steps() {
    let mut root = FileNode::root("/w".to_string(), true, vec![entry("/w/src", true)]);
    match root.reveal_step("/w/src/a.rs") {
        RevealStep::Load(p) => assert_eq!(p, "/w/src"),
        RevealStep::Done(_) => panic!("the folder must be listed first"),
    }
    root.load_on_route("/w/src/a.rs", vec![entry("/w/src/a.rs", false)]);
    match root.reveal_step("/w/src/a.rs") {
        RevealStep::Done(found) => assert!(found),
        RevealStep::Load(_) => panic!("nothing left to list"),
    }
}

#[test]
fn reveal_without_listings_still_finds_targets_below() {
    let mut dir = FileNode::new("/w".to_string(), true);
    assert!(dir.reveal_path("/w/a/b.rs", Vec::new()));
    assert!(dir.expanded);
    assert_eq!(dir.children.as_ref().map(|c| c.len()), Some(0));
    let mut file = FileNode::new("/w/f.rs".to_string(), false);
    assert!(file.reveal_path("/w/f.rs", Vec::new()));
    assert!(!file.reveal_path("/w/f.rs/x", Vec::new()));
}

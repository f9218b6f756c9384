use vscode_rust::git::status::{
    ahead_behind, branch, branches, checkout, commit, commit_error, commit_with, decorations,
    head_blob, line_changes, line_changes_diff, pull, push, repo_root, stage, stage_all, status,
    unstage, unstage_all, ChangeKind, CommitMode, DiffKind,
};

fn strs(v: &[String]) -> Vec<&str> {
    v.iter().map(|s| s.as_str()).collect()
}

#[test]
fn repo_root_is_trimmed_output() {
    assert_eq!(repo_root(Some("  /work/repo\n".to_string())), Some("/work/repo".to_string()));
    assert_eq!(repo_root(Some("   \n".to_string())), None);
    assert_eq!(repo_root(None), None);
}

#[test]
fn branch_is_none_when_detached() {
    assert_eq!(branch(Some("main\n".to_string())), Some("main".to_string()));
    assert_eq!(branch(Some("HEAD\n".to_string())), None);
    assert_eq!(branch(Some("\n".to_string())), None);
    assert_eq!(branch(None), None);
}

#[test]
fn status_splits_staged_and_unstaged() {
    let out = "M  src/a.rs\n M b.txt\nMM c.txt\n?? new.txt\nR  old.rs -> renamed.rs\n";
    let st = status("/r", Some("main".to_string()), Some(out.to_string()));
    assert_eq!(st.branch.as_deref(), Some("main"));
    let staged: Vec<(&str, &str, ChangeKind)> =
        st.staged.iter().map(|c| (c.path.as_str(), c.rel.as_str(), c.kind)).collect();
    assert_eq!(
        staged,
        vec![
            ("/r/src/a.rs", "src/a.rs", ChangeKind::Modified),
            ("/r/c.txt", "c.txt", ChangeKind::Modified),
            ("/r/renamed.rs", "renamed.rs", ChangeKind::Renamed),
        ]
    );
    let unstaged: Vec<(&str, ChangeKind, bool)> =
        st.unstaged.iter().map(|c| (c.rel.as_str(), c.kind, c.staged)).collect();
    assert_eq!(
        unstaged,
        vec![
            ("b.txt", ChangeKind::Modified, false),
            ("c.txt", ChangeKind::Modified, false),
            ("new.txt", ChangeKind::Untracked, false),
        ]
    );
    assert_eq!(st.total(), 6);
    let empty = status("/r", None, None);
    assert!(empty.staged.is_empty() && empty.unstaged.is_empty());
}

#[test]
fn decorations_prefer_the_working_tree() {
    let out = "MD x.txt\n";
    let st = status("/r", None, Some(out.to_string()));
    let d = decorations(&st);
    // staged first, then unstaged: the later pair wins for the same path.
    assert_eq!(d.len(), 2);
    assert_eq!(d[1], ("/r/x.txt".to_string(), ChangeKind::Deleted));
}

#[test]
fn badges_and_strikethrough() {
    assert_eq!(ChangeKind::Modified.badge(), "M");
    assert_eq!(ChangeKind::Untracked.badge(), "U");
    assert_eq!(ChangeKind::Conflicted.badge(), "!");
    assert!(ChangeKind::Deleted.strikethrough());
    assert!(!ChangeKind::Added.strikethrough());
}

#[test]
fn line_changes_reads_hunks() {
    let out = "diff --git a/f b/f\n@@ -1,0 +2,2 @@\n+a\n+b\n@@ -5 +7 @@\n-x\n+y\n@@ -9,2 +10,0 @@\n";
    let m = line_changes(Some(out.to_string()));
    assert_eq!(m.get(&2), Some(&DiffKind::Added));
    assert_eq!(m.get(&3), Some(&DiffKind::Added));
    assert_eq!(m.get(&7), Some(&DiffKind::Modified));
    assert_eq!(m.get(&11), Some(&DiffKind::DeletedAbove));
    assert_eq!(m.len(), 4);
    assert!(line_changes(None).is_empty());
}

#[test]
fn line_changes_diff_marks_new_lines() {
    let m = line_changes_diff("a\nb\nc\n", "a\nB\nc\nd\n");
    assert_eq!(m.get(&2), Some(&DiffKind::Modified));
    assert_eq!(m.get(&4), Some(&DiffKind::Added));
    assert_eq!(m.get(&1), None);
    let d = line_changes_diff("a\nb\nc\n", "a\nc\n");
    assert_eq!(d.get(&2), Some(&DiffKind::DeletedAbove));
    assert!(line_changes_diff("same\n", "same\n").is_empty());
}

#[test]
fn branches_put_the_current_one_first() {
    let out = "  feature\n*main\n\n  fix \n";
    assert_eq!(branches(Some(out.to_string())), vec!["main", "feature", "fix"]);
    assert!(branches(None).is_empty());
}

#[test]
fn ahead_behind_reads_two_counts() {
    assert_eq!(ahead_behind(Some("3\t5\n".to_string())), (5, 3));
    assert_eq!(ahead_behind(Some("x\n".to_string())), (0, 0));
    assert_eq!(ahead_behind(None), (0, 0));
}

#[test]
fn command_lines() {
    assert_eq!(strs(&stage("a b.txt")), vec!["add", "--", "a b.txt"]);
    assert_eq!(strs(&unstage("f")), vec!["restore", "--staged", "--", "f"]);
    assert_eq!(strs(&stage_all()), vec!["add", "-A"]);
    assert_eq!(strs(&unstage_all()), vec!["restore", "--staged", "."]);
    assert_eq!(strs(&checkout("dev")), vec!["checkout", "dev"]);
    assert_eq!(strs(&head_blob("src/x.rs")), vec!["show", "HEAD:src/x.rs"]);
    assert_eq!(strs(&commit("msg", true)), vec!["commit", "-a", "-m", "msg"]);
    assert_eq!(strs(&commit("msg", false)), vec!["commit", "-m", "msg"]);
    assert_eq!(strs(&pull()), vec!["pull", "--ff-only"]);
    assert_eq!(strs(&push()), vec!["push"]);
    assert!(commit_with(CommitMode::Plain).is_empty());
    assert_eq!(commit_with(CommitMode::AndPush).len(), 1);
    let sync = commit_with(CommitMode::AndSync);
    assert_eq!(strs(&sync[0]), vec!["pull", "--ff-only"]);
    assert_eq!(strs(&sync[1]), vec!["push"]);
}

#[test]
fn commit_error_joins_and_trims() {
    assert_eq!(commit_error("error: nothing\n", "hint\n"), "error: nothing\nhint");
    assert_eq!(commit_error("", "  "), "");
}

#[test]
fn discarding_changes() {
    match vscode_rust::git::status::discard("/w/p", "src/a.rs", true) {
        vscode_rust::git::status::Discard::RemoveFile(p) => assert_eq!(p, "/w/p/src/a.rs"),
        _ => panic!("an untracked file is deleted"),
    }
    match vscode_rust::git::status::discard("/w/p", "src/a.rs", false) {
        vscode_rust::git::status::Discard::Git(a) => assert_eq!(a, vec!["restore", "--", "src/a.rs"]),
        _ => panic!("a tracked file is restored"),
    }
}

#[test]
fn pure_deletions_mark_the_line_below_the_gap() {
    let out = "@@ -3,0 +4,2 @@\n+x\n+y\n@@ -10,2 +12,2 @@\n-a\n-b\n+c\n+d\n@@ -20,3 +21,0 @@\n-p\n-q\n-r\n";
    let m = line_changes(Some(out.to_string()));
    assert_eq!(m.get(&4), Some(&DiffKind::Added));
    assert_eq!(m.get(&5), Some(&DiffKind::Added));
    assert_eq!(m.get(&12), Some(&DiffKind::Modified));
    assert_eq!(m.get(&13), Some(&DiffKind::Modified));
    assert_eq!(m.get(&22), Some(&DiffKind::DeletedAbove));
    assert_eq!(m.len(), 5);
    let top = line_changes(Some("@@ -1,2 +0,0 @@\n".to_string()));
    assert_eq!(top.get(&1), Some(&DiffKind::DeletedAbove));
}

#[test]
fn head_blob_output_as_text() {
    let text = vscode_rust::git::status::head_blob_text(Some("fn main() {}\n".as_bytes().to_vec()));
    assert_eq!(text.as_deref(), Some("fn main() {}\n"));
    assert_eq!(vscode_rust::git::status::head_blob_text(Some(vec![0xff, 0xfe])), None);
    assert_eq!(vscode_rust::git::status::head_blob_text(None), None);
}

use vscode_rust::git::history::{
    blob_at, blob_at_args, build_graph, commit_changes, commit_changes_args, log, log_args,
    parse_commit_changes, parse_log, parse_refs, Commit, RefKind, LANE_COUNT,
};
use vscode_rust::git::status::ChangeKind;

fn commit(id: &str, parents: &[&str]) -> Commit {
    Commit {
        id: id.to_string(),
        short_id: id.chars().take(2).collect(),
        parents: parents.iter().map(|p| p.to_string()).collect(),
        author: "a".to_string(),
        summary: "s".to_string(),
        refs: Vec::new(),
    }
}

#[test]
fn refs_are_classified() {
    let r = parse_refs("HEAD -> refs/heads/main, refs/remotes/origin/main, tag: refs/tags/v1, refs/heads/dev, HEAD, refs/stash");
    let got: Vec<(&str, RefKind)> = r.iter().map(|b| (b.name.as_str(), b.kind)).collect();
    assert_eq!(
        got,
        vec![
            ("main", RefKind::Head),
            ("origin/main", RefKind::Remote),
            ("v1", RefKind::Tag),
            ("dev", RefKind::Local),
            ("HEAD", RefKind::Head),
        ]
    );
    assert!(parse_refs("").is_empty());
}

#[test]
fn log_reads_six_fields_per_commit() {
    let out = "aaa\0a\0bbb ccc\0Ann\0Merge\0HEAD -> refs/heads/main\0\nbbb\0b\0\0Bob\0Init\0\0";
    let cs = parse_log(out);
    assert_eq!(cs.len(), 2);
    assert_eq!(cs[0].id, "aaa");
    assert_eq!(cs[0].parents, vec!["bbb", "ccc"]);
    assert_eq!(cs[0].author, "Ann");
    assert_eq!(cs[0].refs.len(), 1);
    assert_eq!(cs[1].id, "bbb");
    assert!(cs[1].parents.is_empty());
    assert_eq!(cs[1].summary, "Init");
    assert!(log(None).is_empty());
    assert_eq!(log(Some(out.as_bytes().to_vec())).len(), 2);
}

#[test]
fn log_arguments() {
    let a = log_args(50);
    assert_eq!(a[0], "log");
    assert_eq!(a[1], "--decorate=full");
    assert_eq!(a[2], "--format=%H%x00%h%x00%P%x00%an%x00%s%x00%D");
    assert_eq!(a[3], "-z");
    assert_eq!(a[4], "-n50");
    assert_eq!(log_args(0)[4], "-n0");
}

#[test]
fn commit_changes_keep_the_new_name_of_renames() {
    let out = "M\0src/a.rs\0R100\0old.rs\0new.rs\0A\0b.txt\0D\0gone.txt\0";
    let fs = parse_commit_changes(out);
    let got: Vec<(&str, ChangeKind)> = fs.iter().map(|f| (f.rel.as_str(), f.kind)).collect();
    assert_eq!(
        got,
        vec![
            ("src/a.rs", ChangeKind::Modified),
            ("new.rs", ChangeKind::Renamed),
            ("b.txt", ChangeKind::Added),
            ("gone.txt", ChangeKind::Deleted),
        ]
    );
    assert!(commit_changes(None).is_empty());
    assert_eq!(commit_changes(Some(out.as_bytes().to_vec())).len(), 4);
    let args = commit_changes_args(&commit("abc", &[]));
    assert_eq!(args, vec!["diff-tree", "--no-commit-id", "-r", "-z", "--name-status", "abc"]);
}

#[test]
fn blobs() {
    assert_eq!(blob_at_args("HEAD~1", "a/b.rs"), vec!["show", "HEAD~1:a/b.rs"]);
    assert_eq!(blob_at(Some(b"text".to_vec())), Some("text".to_string()));
    assert_eq!(blob_at(Some(vec![0x66, 0xff])), Some("f\u{fffd}".to_string()));
    assert_eq!(blob_at(None), None);
    assert_eq!(blob_at(Some("größe ✓".as_bytes().to_vec())), Some("größe ✓".to_string()));
}

#[test]
fn graph_of_a_merge() {
    // m merges a (first parent) and b; both come from r.
    let cs = vec![commit("m", &["a", "b"]), commit("a", &["r"]), commit("b", &["r"]), commit("r", &[])];
    let rows = build_graph(&cs);
    assert_eq!(rows.len(), 4);
    // m: a new lane with colour 0; no lane carried it, so both parents
    // open lanes with the next colours of the rotation.
    assert_eq!((rows[0].circle_lane, rows[0].circle_color), (0, 0));
    let out0: Vec<(&str, usize)> = rows[0].output.iter().map(|l| (l.id.as_str(), l.color)).collect();
    assert_eq!(out0, vec![("a", 2), ("b", 3)]);
    // a sits on lane 0; its parent r continues there.
    assert_eq!(rows[1].circle_lane, 0);
    let out1: Vec<&str> = rows[1].output.iter().map(|l| l.id.as_str()).collect();
    assert_eq!(out1, vec!["r", "b"]);
    // b sits on lane 1 and keeps its colour.
    assert_eq!((rows[2].circle_lane, rows[2].circle_color), (1, 3));
    let out2: Vec<(&str, usize)> = rows[2].output.iter().map(|l| (l.id.as_str(), l.color)).collect();
    assert_eq!(out2, vec![("r", 2), ("r", 3)]);
    // r: both lanes carried r; the second ends.
    assert_eq!(rows[3].circle_lane, 0);
    assert!(rows[3].output.is_empty());
    for w in rows.windows(2) {
        let a: Vec<(&str, usize)> = w[0].output.iter().map(|l| (l.id.as_str(), l.color)).collect();
        let b: Vec<(&str, usize)> = w[1].input.iter().map(|l| (l.id.as_str(), l.color)).collect();
        assert_eq!(a, b);
    }
    for r in &rows {
        assert!(r.circle_color < LANE_COUNT);
        assert!(r.output.iter().all(|l| l.color < LANE_COUNT));
    }
}

use std::collections::BTreeMap;
use std::collections::BTreeSet;

use vscode_rust::editor::fold::foldable_ranges;
use vscode_rust::editor::fold::is_hidden;
use vscode_rust::editor::view::{gutter_chevron, prune_folds, toggle_fold, visible_lines, FoldChevron};

#[test]
fn detects_simple_block() {
    let text = "fn main() {\n    let x = 1;\n    let y = 2;\n}\n";
    let r = foldable_ranges(text);
    // Line 1 is the header, body runs through line 3 (the deeper lines).
    assert_eq!(r.get(&1), Some(&3));
}

#[test]
fn blank_line_inside_block_is_absorbed() {
    let text = "a\n  b\n\n  c\nd\n";
    let r = foldable_ranges(text);
    assert_eq!(r.get(&1), Some(&4));
}

#[test]
fn no_fold_for_flat_text() {
    let text = "a\nb\nc\n";
    assert!(foldable_ranges(text).is_empty());
}

#[test]
fn hidden_lines_are_inside_a_folded_region() {
    let text = "fn main() {\n    let x = 1;\n    let y = 2;\n}\n";
    let ranges: BTreeMap<usize, usize> = foldable_ranges(text);
    let mut headers = BTreeSet::new();
    headers.insert(1usize);
    assert!(!is_hidden(1, &headers, &ranges));
    assert!(is_hidden(2, &headers, &ranges));
    assert!(is_hidden(3, &headers, &ranges));
    assert!(!is_hidden(4, &headers, &ranges));
    let none = BTreeSet::new();
    assert!(!is_hidden(2, &none, &ranges));
}

#[test]
fn folds_hide_lines_and_prune() {
    let text = "a\n  b\n  c\nd\n  e\n";
    let ranges = foldable_ranges(text);
    assert_eq!(ranges.get(&1), Some(&3));
    assert_eq!(ranges.get(&4), Some(&5));
    let mut folded = BTreeSet::new();
    toggle_fold(&mut folded, 1);
    assert_eq!(visible_lines(6, &folded, &ranges), vec![1, 4, 5, 6]);
    toggle_fold(&mut folded, 4);
    assert_eq!(visible_lines(6, &folded, &ranges), vec![1, 4, 6]);
    toggle_fold(&mut folded, 1);
    assert_eq!(visible_lines(6, &folded, &ranges), vec![1, 2, 3, 4, 6]);
    folded.insert(2);
    prune_folds(&mut folded, &ranges);
    assert_eq!(folded.into_iter().collect::<Vec<_>>(), vec![4]);
}

#[test]
fn gutter_chevrons() {
    let mut ranges = BTreeMap::new();
    ranges.insert(2usize, 5usize);
    ranges.insert(7usize, 9usize);
    let mut folded = BTreeSet::new();
    folded.insert(7usize);
    assert_eq!(gutter_chevron(1, &ranges, &folded, true), None);
    assert_eq!(gutter_chevron(2, &ranges, &folded, false), None);
    assert_eq!(gutter_chevron(2, &ranges, &folded, true), Some(FoldChevron::Open));
    assert_eq!(gutter_chevron(7, &ranges, &folded, false), Some(FoldChevron::Folded));
}

#[test]
fn toggling_a_fold_twice_restores_the_folds() {
    let mut folded = BTreeSet::new();
    folded.insert(3usize);
    let before = folded.clone();
    toggle_fold(&mut folded, 9);
    assert!(folded.contains(&9));
    toggle_fold(&mut folded, 9);
    assert_eq!(folded, before);
    toggle_fold(&mut folded, 3);
    assert!(folded.is_empty());
    toggle_fold(&mut folded, 3);
    assert_eq!(folded, before);
}

#[test]
fn whitespace_only_lines_are_blank() {
    assert!(foldable_ranges("a\n \r\n").is_empty());
    assert!(foldable_ranges("a\n\u{a0}\n").is_empty());
    let r = foldable_ranges("a\r\n  b\r\n  \r\n  c\r\nd\r\n");
    assert_eq!(r.get(&1), Some(&4));
}

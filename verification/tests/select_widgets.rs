use vscode_rust::vscode_widgets::forms::{checkbox, radio, CheckboxState};
use vscode_rust::vscode_widgets::layout::collapsible;
use vscode_rust::vscode_widgets::composite::{
    context_menu, multi_select, multi_select_summary, single_select, single_select_label, table, table_row_tone,
    tab_glyph, tabs, tree, ContextMenuItem, TreeHit, TreeItem, RowClicks, RowTone, SelectClicks, Tab, TabClicks, TabGlyph,
};

fn trigger() -> SelectClicks {
    SelectClicks { trigger: true, row: None }
}

fn row(i: usize) -> SelectClicks {
    SelectClicks { trigger: false, row: Some(i) }
}

#[test]
fn single_select_opens_picks_and_closes() {
    let mut selected = None;
    let mut open = false;
    let r = single_select(3, false, &mut selected, &mut open, row(1));
    assert!(r.changed.is_none() && !r.opened && !r.dismissed);
    assert!(!open && selected.is_none());
    let r = single_select(3, false, &mut selected, &mut open, trigger());
    assert!(r.opened && !r.dismissed && open);
    let r = single_select(3, false, &mut selected, &mut open, row(5));
    assert!(r.changed.is_none() && open);
    let r = single_select(3, false, &mut selected, &mut open, row(2));
    assert_eq!(r.changed, Some(2));
    assert!(r.dismissed && !open);
    assert_eq!(selected, Some(2));
    let r = single_select(3, true, &mut selected, &mut open, trigger());
    assert!(!r.opened && !open);
    open = true;
    let r = single_select(3, false, &mut selected, &mut open, trigger());
    assert!(r.dismissed && !r.opened && !open);
}

#[test]
fn single_select_trigger_text() {
    let opts = ["Red", "Green"];
    assert_eq!(single_select_label(&opts, "Pick…", Some(1)), ("Green".to_string(), false));
    assert_eq!(single_select_label(&opts, "Pick…", Some(2)), ("Pick…".to_string(), true));
    assert_eq!(single_select_label(&opts, "Pick…", None), ("Pick…".to_string(), true));
}

#[test]
fn multi_select_toggles_rows_in_order() {
    let mut sel = vec![4, 1];
    let mut open = true;
    let r = multi_select(6, false, &mut sel, &mut open, row(3));
    assert_eq!(sel, vec![1, 3, 4]);
    assert_eq!(r.changed, Some(vec![1, 3, 4]));
    assert_eq!(r.count, 3);
    assert!(open && !r.dismissed);
    let r = multi_select(6, false, &mut sel, &mut open, row(3));
    assert_eq!(sel, vec![1, 4]);
    assert_eq!(r.count, 2);
    let r = multi_select(6, false, &mut sel, &mut open, row(9));
    assert!(r.changed.is_none());
    assert_eq!(r.count, 2);
    let r = multi_select(6, false, &mut sel, &mut open, trigger());
    assert!(r.dismissed && !open);
    let r = multi_select(6, false, &mut sel, &mut open, row(0));
    assert!(r.changed.is_none());
    assert_eq!(sel, vec![1, 4]);
}

#[test]
fn multi_select_summary_joins_labels() {
    let opts = ["a", "b", "c"];
    assert_eq!(multi_select_summary(&opts, &vec![2, 0, 7]), "c, a");
    assert_eq!(multi_select_summary(&opts, &vec![]), "");
    assert_eq!(multi_select_summary(&opts, &vec![1]), "b");
}

#[test]
fn table_rows_answer_clicks() {
    let none = RowClicks { clicked: false, right_clicked: false, double_clicked: false };
    let rows = [
        none,
        RowClicks { clicked: true, right_clicked: false, double_clicked: true },
        RowClicks { clicked: false, right_clicked: true, double_clicked: false },
    ];
    let mut selected = Some(0);
    let r = table(&mut selected, &rows);
    assert_eq!(r.clicked_row, Some(1));
    assert_eq!(r.double_clicked_row, Some(1));
    assert_eq!(r.right_clicked_row, Some(2));
    assert_eq!(selected, Some(1));
    let r = table(&mut selected, &[none, none]);
    assert!(r.clicked_row.is_none() && r.right_clicked_row.is_none());
    assert_eq!(selected, Some(1));
    assert_eq!(table_row_tone(3, false, false, true), RowTone::Striped);
    assert_eq!(table_row_tone(2, false, false, true), RowTone::Plain);
    assert_eq!(table_row_tone(3, true, true, true), RowTone::Selected);
    assert_eq!(table_row_tone(3, false, true, false), RowTone::Hovered);
}

#[test]
fn tab_strip_answers_clicks() {
    let items = [Tab::new("a.rs"), Tab::new("b.rs").disabled(), Tab::new("c.rs").pinned()];
    let idle = TabClicks { clicked: false, slot_clicked: false, right_clicked: false, double_clicked: false };
    let mut active = 0;
    let clicks = [
        idle,
        TabClicks { clicked: true, slot_clicked: false, right_clicked: true, double_clicked: false },
        TabClicks { clicked: true, slot_clicked: false, right_clicked: false, double_clicked: true },
    ];
    let r = tabs(&items, &clicks, &mut active);
    assert_eq!(r.clicked, Some(2));
    assert_eq!(active, 2);
    assert_eq!(r.right_clicked, None);
    assert_eq!(r.double_clicked, Some(2));
    let clicks = [
        TabClicks { clicked: true, slot_clicked: true, right_clicked: false, double_clicked: false },
        idle,
        idle,
    ];
    let r = tabs(&items, &clicks, &mut active);
    assert_eq!(r.close_requested, Some(0));
    assert_eq!(r.clicked, None);
    assert_eq!(active, 2);
}

#[test]
fn tab_slot_glyphs() {
    assert_eq!(tab_glyph(&Tab::new("a"), false), TabGlyph::Close);
    assert_eq!(tab_glyph(&Tab::new("a").dirty(), false), TabGlyph::Dirty);
    assert_eq!(tab_glyph(&Tab::new("a").dirty(), true), TabGlyph::Close);
    assert_eq!(tab_glyph(&Tab::new("a").pinned(), true), TabGlyph::Pin);
    assert_eq!(tab_glyph(&Tab::new("a").pinned().dirty(), false), TabGlyph::Dirty);
    assert_eq!(tab_glyph(&Tab::new("a").closable(false), false), TabGlyph::Empty);
}

#[test]
fn checkbox_radio_and_collapsible_clicks() {
    let mut s = CheckboxState::Indeterminate;
    assert!(checkbox(false, &mut s, true));
    assert_eq!(s, CheckboxState::Checked);
    assert!(checkbox(false, &mut s, true));
    assert_eq!(s, CheckboxState::Unchecked);
    assert!(!checkbox(true, &mut s, true));
    assert_eq!(s, CheckboxState::Unchecked);
    let mut on = false;
    assert!(radio(false, &mut on, true));
    assert!(on);
    assert!(radio(false, &mut on, true));
    assert!(on);
    let mut off = false;
    assert!(!radio(true, &mut off, true));
    assert!(!off);
    let mut open = false;
    assert!(collapsible(false, &mut open, true));
    assert!(open);
    assert!(!collapsible(false, &mut open, false));
    assert!(open);
    assert!(!collapsible(true, &mut open, true));
    assert!(open);
}

#[test]
fn context_menu_picks_enabled_items() {
    let items = [
        ContextMenuItem::new("Cut"),
        ContextMenuItem::separator(),
        ContextMenuItem::new("Paste").disabled(),
        ContextMenuItem::new("Copy"),
    ];
    assert_eq!(context_menu(&items, &[true, false, false, false]).selected, Some(0));
    assert_eq!(context_menu(&items, &[false, true, true, false]).selected, None);
    assert_eq!(context_menu(&items, &[true, false, false, true]).selected, Some(3));
}

fn sample_tree() -> Vec<TreeItem> {
    let mut off = TreeItem::leaf("off.rs".to_string(), None);
    off.disabled = true;
    vec![
        TreeItem::folder(
            "src".to_string(),
            None,
            vec![TreeItem::leaf("main.rs".to_string(), None), off],
        ),
        TreeItem::leaf("README.md".to_string(), None),
    ]
}

#[test]
fn tree_rows_answer_hits() {
    let mut items = sample_tree();
    let mut selected = None;
    let r = tree(&mut items, &mut selected, &vec![0, 0], TreeHit::Row);
    assert!(r.clicked.is_none() && selected.is_none());
    let r = tree(&mut items, &mut selected, &vec![0], TreeHit::Chevron);
    assert!(r.clicked.is_none());
    assert!(items[0].open);
    let r = tree(&mut items, &mut selected, &vec![0, 0], TreeHit::Row);
    assert_eq!(r.clicked, Some(vec![0, 0]));
    assert_eq!(selected, Some(vec![0, 0]));
    let r = tree(&mut items, &mut selected, &vec![0, 1], TreeHit::Row);
    assert!(r.clicked.is_none());
    assert_eq!(selected, Some(vec![0, 0]));
    let r = tree(&mut items, &mut selected, &vec![1], TreeHit::DoubleClick);
    assert_eq!(r.double_clicked, Some(vec![1]));
    let r = tree(&mut items, &mut selected, &vec![1], TreeHit::RightClick);
    assert_eq!(r.right_clicked, Some(vec![1]));
    let _ = tree(&mut items, &mut selected, &vec![1], TreeHit::Chevron);
    assert!(!items[1].open);
    let _ = tree(&mut items, &mut selected, &vec![0], TreeHit::Chevron);
    assert!(!items[0].open);
    let r = tree(&mut items, &mut selected, &vec![5], TreeHit::Row);
    assert!(r.clicked.is_none());
}

#[test]
fn clicking_a_row_twice_restores_the_selection() {
    let mut open = true;
    for start in [vec![], vec![1, 4], vec![0, 2, 5]] {
        for i in 0..6 {
            let mut sel = start.clone();
            multi_select(6, false, &mut sel, &mut open, row(i));
            assert_eq!(sel.contains(&i), !start.contains(&i));
            assert!(sel.windows(2).all(|w| w[0] < w[1]));
            multi_select(6, false, &mut sel, &mut open, row(i));
            assert_eq!(sel, start);
        }
    }
}

use vscode_rust::vscode_widgets::composite::{ContextMenuItem, ContextMenuResponse, Tab, TabsResponse, TreeItem};
use vscode_rust::vscode_widgets::forms::{CheckboxProps, CheckboxState, RadioProps};
use vscode_rust::vscode_widgets::layout::{CollapsibleProps, SplitOrientation};
use vscode_rust::vscode_widgets::primitives::{BadgeProps, BadgeVariant, ButtonProps, ButtonSize, ButtonVariant};
use vscode_rust::vscode_widgets::testing::Category;

#[test]
fn menu_items() {
    let i = ContextMenuItem::new("Copy").icon('c').shortcut("Ctrl+C").disabled();
    assert_eq!(i.label, "Copy");
    assert_eq!(i.icon, Some('c'));
    assert_eq!(i.shortcut, Some("Ctrl+C"));
    assert!(i.disabled && !i.separator);
    let s = ContextMenuItem::separator();
    assert!(s.separator && s.label.is_empty());
    assert!(ContextMenuResponse::default().selected.is_none());
}

#[test]
fn tabs() {
    let t = Tab::new("main.rs");
    assert!(t.closable && !t.dirty && !t.pinned && t.tooltip.is_none());
    let t = t.icon('r').dirty().closable(false).disabled().preview().pinned().tooltip("/w/main.rs");
    assert!(t.dirty && !t.closable && t.disabled && t.preview && t.pinned);
    assert_eq!(t.tooltip, Some("/w/main.rs"));
    assert_eq!(t.icon, Some('r'));
    assert!(TabsResponse::default().clicked.is_none());
}

#[test]
fn trees() {
    let leaf = TreeItem::leaf("a".to_string(), None);
    assert!(!leaf.open && leaf.children.is_empty());
    let f = TreeItem::folder("src".to_string(), Some('f'), vec![leaf]).open();
    assert!(f.open);
    assert_eq!(f.children.len(), 1);
    assert_eq!(f.label, "src");
}

#[test]
fn form_controls() {
    let c = CheckboxProps::new().label("Accept").disabled().focused();
    assert_eq!(c.label, Some("Accept"));
    assert!(c.disabled && c.focused);
    assert_eq!(CheckboxState::default(), CheckboxState::Unchecked);
    let r = RadioProps::new().label("One").focused();
    assert_eq!(r.label, Some("One"));
    assert!(r.focused && !r.disabled);
    let s = CollapsibleProps::new("Outline").description("3 items").disabled();
    assert_eq!(s.description, Some("3 items"));
    assert!(s.disabled);
    assert_eq!(SplitOrientation::default(), SplitOrientation::Vertical);
}

#[test]
fn badges_buttons_and_categories() {
    assert_eq!(BadgeProps::new("1").variant, BadgeVariant::Default);
    assert_eq!(BadgeProps::counter("2").variant, BadgeVariant::Counter);
    assert_eq!(BadgeProps::activity_bar("3").variant, BadgeVariant::ActivityBar);
    assert_eq!(BadgeProps::tab_header("4").variant, BadgeVariant::TabHeader);
    let b = ButtonProps::new("OK");
    assert_eq!(b.variant, ButtonVariant::Primary);
    assert_eq!(b.size, ButtonSize::Regular);
    let b = b.secondary().disabled().focused().icon('a').icon_after('b').block().small();
    assert_eq!(b.variant, ButtonVariant::Secondary);
    assert!(b.disabled && b.focused && b.block);
    assert_eq!((b.icon, b.icon_after), (Some('a'), Some('b')));
    assert_eq!(b.size, ButtonSize::Small);
    assert_eq!(Category::Forms.as_str(), "Forms");
    assert_eq!(Category::Composite.as_str(), "Composite");
}

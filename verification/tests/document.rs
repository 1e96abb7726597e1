use probe_node::document::UiElementKind;
use probe_node::element::{UiEdit, UiElement};
use probe_node::path::UiPath;

fn text(content: &str) -> UiElement {
    UiElement::from_string(content)
}

fn tagged(content: &str, id: &str) -> UiElement {
    let mut e = UiElement::from_string(content);
    e.set_id(id);
    e
}

/// rows
///   0: text "a" (id "a")
///   1: rows
///        0: text "b" (id "b")
///        1: text "c"
///   2: text "d" (id "d")
fn sample_tree() -> UiElement {
    let mut inner = UiElement::new(UiElementKind::Rows);
    inner.append_child(tagged("b", "b"));
    inner.append_child(text("c"));
    let mut root = UiElement::new(UiElementKind::Rows);
    root.append_child(tagged("a", "a"));
    root.append_child(inner);
    root.append_child(tagged("d", "d"));
    root
}

#[test]
fn new_element_is_bare() {
    let e = UiElement::new(UiElementKind::Columns);
    assert_eq!(e.kind, UiElementKind::Columns);
    assert_eq!(e.id, None);
    assert_eq!(e.text, None);
    assert!(e.children.is_empty());
}

#[test]
fn from_string_makes_a_text_element() {
    let e = UiElement::from_string("Temp is: ");
    assert_eq!(e.kind, UiElementKind::Text);
    assert_eq!(e.text, Some(String::from("Temp is: ")));
    assert_eq!(e.id, None);
    assert!(e.children.is_empty());
}

#[test]
fn setters_change_one_field_each() {
    let mut e = UiElement::from_string("-");
    e.set_id("temp");
    assert_eq!(e.id, Some(String::from("temp")));
    assert_eq!(e.text, Some(String::from("-")));
    e.set_kind(UiElementKind::Rows);
    assert_eq!(e.kind, UiElementKind::Rows);
    assert_eq!(e.id, Some(String::from("temp")));
    e.set_text(String::from("21C"));
    assert_eq!(e.text, Some(String::from("21C")));
    assert_eq!(e.kind, UiElementKind::Rows);
    e.set_id("other");
    assert_eq!(e.id, Some(String::from("other")));
}

#[test]
fn append_child_adds_at_the_end_and_gives_no_id() {
    let mut root = UiElement::new(UiElementKind::Rows);
    root.append_child(text("first"));
    root.append_child(text("second"));
    assert_eq!(root.children.len(), 2);
    assert_eq!(root.children[0].text, Some(String::from("first")));
    assert_eq!(root.children[1].text, Some(String::from("second")));
    assert_eq!(root.children[1].id, None);
}

#[test]
fn get_follows_a_path() {
    let root = sample_tree();
    assert_eq!(root.get(&UiPath::root()), Some(&root));
    let c = root.get(&UiPath::new(vec![1, 1])).expect("inner second child");
    assert_eq!(c.text, Some(String::from("c")));
    let d = root.get(&UiPath::new(vec![2])).expect("third child");
    assert_eq!(d.id, Some(String::from("d")));
}

#[test]
fn get_fails_on_an_index_out_of_range() {
    let root = sample_tree();
    assert!(root.get(&UiPath::new(vec![3])).is_none());
    assert!(root.get(&UiPath::new(vec![1, 2])).is_none());
    assert!(root.get(&UiPath::new(vec![0, 0])).is_none());
    assert!(root.get(&UiPath::new(vec![5, 0, 0])).is_none());
}

#[test]
fn find_id_gives_the_path_of_the_declaring_element() {
    let root = sample_tree();
    assert_eq!(root.find_id("a"), Some(UiPath::new(vec![0])));
    assert_eq!(root.find_id("b"), Some(UiPath::new(vec![1, 0])));
    assert_eq!(root.find_id("d"), Some(UiPath::new(vec![2])));
    assert_eq!(root.find_id("c"), None);
    assert_eq!(root.find_id(""), None);
}

#[test]
fn find_id_finds_the_root() {
    let mut root = sample_tree();
    root.set_id("top");
    assert_eq!(root.find_id("top"), Some(UiPath::root()));
}

#[test]
fn find_id_takes_the_first_in_document_order() {
    let mut root = sample_tree();
    root.append_child(tagged("late", "b"));
    assert_eq!(root.find_id("b"), Some(UiPath::new(vec![1, 0])));
    let mut other = UiElement::new(UiElementKind::Rows);
    other.append_child(tagged("early", "d"));
    other.append_child(sample_tree());
    assert_eq!(other.find_id("d"), Some(UiPath::new(vec![0])));
}

#[test]
fn edit_at_changes_the_addressed_element_only() {
    let mut root = sample_tree();
    let done = root.edit_at(&UiPath::new(vec![1, 1]), UiEdit::SetText(String::from("C")));
    assert!(done);
    let mut expected = sample_tree();
    expected.children[1].children[1].text = Some(String::from("C"));
    assert_eq!(root, expected);

    let done = root.edit_at(&UiPath::new(vec![1]), UiEdit::SetKind(UiElementKind::Columns));
    assert!(done);
    expected.children[1].kind = UiElementKind::Columns;
    assert_eq!(root, expected);

    let done = root.edit_at(&UiPath::root(), UiEdit::AppendChild(text("e")));
    assert!(done);
    expected.children.push(text("e"));
    assert_eq!(root, expected);
}

#[test]
fn edit_at_changes_nothing_where_the_path_leads_nowhere() {
    let mut root = sample_tree();
    let done = root.edit_at(&UiPath::new(vec![1, 7]), UiEdit::SetText(String::from("x")));
    assert!(!done);
    assert_eq!(root, sample_tree());
}

#[test]
fn apply_edit_makes_each_kind_of_change() {
    let mut e = text("a");
    e.apply_edit(UiEdit::SetKind(UiElementKind::Rows));
    e.apply_edit(UiEdit::SetText(String::from("b")));
    e.apply_edit(UiEdit::AppendChild(text("child")));
    assert_eq!(e.kind, UiElementKind::Rows);
    assert_eq!(e.text, Some(String::from("b")));
    assert_eq!(e.children, vec![text("child")]);
}

#[test]
fn clone_copies_the_whole_subtree() {
    let root = sample_tree();
    let mut copy = root.clone();
    assert_eq!(copy, root);
    copy.children[1].children[0].text = Some(String::from("changed"));
    assert_ne!(copy, root);
    assert_eq!(root, sample_tree());
}

#[test]
fn accepts_a_child_with_fresh_ids() {
    let root = sample_tree();
    assert!(root.accepts(&text("no id")));
    assert!(root.accepts(&tagged("x", "fresh")));
    let mut group = UiElement::new(UiElementKind::Rows);
    group.append_child(tagged("x", "x"));
    group.append_child(tagged("y", "y"));
    assert!(root.accepts(&group));
}

#[test]
fn refuses_a_child_whose_id_is_taken() {
    let root = sample_tree();
    assert!(!root.accepts(&tagged("x", "a")));
    assert!(!root.accepts(&tagged("x", "b")));
    let mut group = UiElement::new(UiElementKind::Rows);
    group.append_child(tagged("x", "x"));
    group.append_child(tagged("y", "d"));
    assert!(!root.accepts(&group));
}

#[test]
fn refuses_a_child_that_declares_an_id_twice() {
    let root = sample_tree();
    let mut group = UiElement::new(UiElementKind::Rows);
    group.append_child(tagged("x", "x"));
    group.append_child(tagged("y", "x"));
    assert!(!root.accepts(&group));
    let mut nested = tagged("outer", "same");
    nested.append_child(tagged("inner", "same"));
    assert!(!root.accepts(&nested));
}

#[test]
fn path_builders() {
    assert!(UiPath::root().is_root());
    assert_eq!(UiPath::root().len(), 0);
    let p = UiPath::root().child(2).child(0);
    assert_eq!(p, UiPath::new(vec![2, 0]));
    assert_eq!(p.len(), 2);
    assert!(!p.is_root());
    assert_eq!(p.clone(), p);
}

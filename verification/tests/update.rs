use probe_node::document::UiElementKind;
use probe_node::element::UiElement;
use probe_node::path::UiPath;
use probe_node::update::{UiElementKey, UiElementUpdate};

fn labelled(content: &str, id: &str) -> UiElement {
    let mut e = UiElement::from_string(content);
    e.set_id(id);
    e
}

fn two_rows() -> UiElement {
    let mut root = UiElement::new(UiElementKind::Rows);
    root.append_child(UiElement::from_string("Temp is: "));
    root.append_child(labelled("-", "temp"));
    root
}

#[test]
fn replace_at_swaps_one_subtree() {
    let mut root = two_rows();
    let done = root.replace_at(&UiPath::new(vec![0]), UiElement::from_string("Level is: "));
    assert!(done);
    assert_eq!(root.children[0].text, Some(String::from("Level is: ")));
    assert_eq!(root.children[1], labelled("-", "temp"));
}

#[test]
fn replace_at_the_root_replaces_everything() {
    let mut root = two_rows();
    let done = root.replace_at(&UiPath::root(), UiElement::from_string("only"));
    assert!(done);
    assert_eq!(root, UiElement::from_string("only"));
}

#[test]
fn replace_at_changes_nothing_where_the_path_leads_nowhere() {
    let mut root = two_rows();
    let done = root.replace_at(&UiPath::new(vec![2]), UiElement::from_string("x"));
    assert!(!done);
    assert_eq!(root, two_rows());
}

#[test]
fn locate_by_id_and_by_path() {
    let root = two_rows();
    assert_eq!(
        root.locate(&UiElementKey::Id(String::from("temp"))),
        Some(UiPath::new(vec![1]))
    );
    assert_eq!(root.locate(&UiElementKey::Id(String::from("none"))), None);
    assert_eq!(
        root.locate(&UiElementKey::Path(UiPath::new(vec![0]))),
        Some(UiPath::new(vec![0]))
    );
    assert_eq!(root.locate(&UiElementKey::Path(UiPath::new(vec![0, 0]))), None);
}

#[test]
fn apply_update_by_id() {
    let mut mirror = two_rows();
    let update = UiElementUpdate {
        key: UiElementKey::Id(String::from("temp")),
        element: labelled("21C", "temp"),
    };
    assert!(mirror.apply_update(&update));
    assert_eq!(mirror.children[1].text, Some(String::from("21C")));
    assert_eq!(mirror.children[0], UiElement::from_string("Temp is: "));
}

#[test]
fn apply_update_by_path() {
    let mut mirror = two_rows();
    let update = UiElementUpdate {
        key: UiElementKey::Path(UiPath::new(vec![0])),
        element: UiElement::from_string("Water is: "),
    };
    assert!(mirror.apply_update(&update));
    assert_eq!(mirror.children[0].text, Some(String::from("Water is: ")));
}

#[test]
fn apply_update_with_an_unknown_key_changes_nothing() {
    let mut mirror = two_rows();
    let by_id = UiElementUpdate {
        key: UiElementKey::Id(String::from("missing")),
        element: UiElement::from_string("x"),
    };
    assert!(!mirror.apply_update(&by_id));
    let by_path = UiElementUpdate {
        key: UiElementKey::Path(UiPath::new(vec![4])),
        element: UiElement::from_string("x"),
    };
    assert!(!mirror.apply_update(&by_path));
    assert_eq!(mirror, two_rows());
}

#[test]
fn apply_updates_in_order_lets_the_last_write_win() {
    let mut mirror = two_rows();
    let updates = vec![
        UiElementUpdate {
            key: UiElementKey::Id(String::from("temp")),
            element: labelled("1C", "temp"),
        },
        UiElementUpdate {
            key: UiElementKey::Id(String::from("temp")),
            element: labelled("2C", "temp"),
        },
    ];
    mirror.apply_updates(&updates);
    assert_eq!(mirror.children[1].text, Some(String::from("2C")));
    mirror.apply_updates(&Vec::new());
    assert_eq!(mirror.children[1].text, Some(String::from("2C")));
}

#[test]
fn update_and_key_clone() {
    let update = UiElementUpdate {
        key: UiElementKey::Path(UiPath::new(vec![1, 2])),
        element: labelled("x", "y"),
    };
    assert_eq!(update.clone(), update);
    let key = UiElementKey::Id(String::from("temp"));
    assert_eq!(key.clone(), key);
}

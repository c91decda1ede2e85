use ax_snapshot::element::{element_json, is_label_selected, list_item};
use ax_snapshot::node::{has_popup_shape, is_popup_shape, AxNode, Extent, Point};
use serde_json::Value;

fn node(role: &str) -> AxNode {
    AxNode {
        role: role.to_string(),
        subrole: String::new(),
        title: String::new(),
        value: String::new(),
        desc: String::new(),
        help: String::new(),
        selected: false,
        focused: false,
        position: None,
        size: None,
        children: Vec::new(),
    }
}

fn json(text: &str) -> Value {
    serde_json::from_str(text).unwrap()
}

#[test]
fn element_with_all_attributes() {
    let mut n = node("AXTextField");
    n.subrole = "AXSecureTextField".to_string();
    n.title = "Password".to_string();
    n.value = "\u{2022}\u{2022}".to_string();
    n.desc = "the password".to_string();
    n.help = "type it".to_string();
    n.selected = true;
    n.focused = true;
    n.position = Some(Point { x: -12, y: 34 });
    n.size = Some(Extent { w: 200, h: 24 });
    let expected = json(
        r#"{"role":"AXTextField","subrole":"AXSecureTextField","title":"Password",
            "value":"••","desc":"the password","help":"type it",
            "selected":true,"focused":true,"x":-12,"y":34,"w":200,"h":24}"#,
    );
    assert_eq!(Value::Object(element_json(&n)), expected);
}

#[test]
fn element_without_attributes_states_its_empty_role() {
    assert_eq!(Value::Object(element_json(&node(""))), json(r#"{"role":""}"#));
}

#[test]
fn empty_texts_and_unset_flags_are_left_out() {
    let mut n = node("AXButton");
    n.title = "OK".to_string();
    assert_eq!(Value::Object(element_json(&n)), json(r#"{"role":"AXButton","title":"OK"}"#));
}

#[test]
fn place_needs_position_and_size() {
    let mut n = node("AXButton");
    n.position = Some(Point { x: 1, y: 2 });
    assert_eq!(Value::Object(element_json(&n)), json(r#"{"role":"AXButton"}"#));
    n.position = None;
    n.size = Some(Extent { w: 3, h: 4 });
    assert_eq!(Value::Object(element_json(&n)), json(r#"{"role":"AXButton"}"#));
    n.position = Some(Point { x: i64::MIN, y: i64::MAX });
    assert_eq!(
        Value::Object(element_json(&n)),
        json(r#"{"role":"AXButton","x":-9223372036854775808,"y":9223372036854775807,"w":3,"h":4}"#)
    );
}

#[test]
fn popup_roles_and_subroles() {
    for role in ["AXMenu", "AXSheet", "AXPopover", "AXSystemDialog", "AXList"] {
        assert!(is_popup_shape(&node(role)));
        assert!(has_popup_shape(role, ""));
        assert!(!has_popup_shape("", role) || role == "AXSystemDialog");
    }
    for subrole in ["AXSystemDialog", "AXFloatingWindow", "AXSystemFloatingWindow", "AXDialog"] {
        let mut n = node("AXWindow");
        n.subrole = subrole.to_string();
        assert!(is_popup_shape(&n));
        assert!(!is_popup_shape(&node(subrole)) || subrole == "AXSystemDialog");
    }
    assert!(!is_popup_shape(&node("AXWindow")));
    assert!(!is_popup_shape(&node("")));
    assert!(!is_popup_shape(&node("AXMenuBar")));
    assert!(!is_popup_shape(&node("axmenu")));
}

#[test]
fn label_mark_is_on_the_label_or_on_its_first_label() {
    let mut n = node("AXStaticText");
    assert!(!is_label_selected(&n));
    n.focused = true;
    assert!(is_label_selected(&n));
    n.focused = false;
    n.selected = true;
    assert!(is_label_selected(&n));

    let mut inner = node("AXStaticText");
    inner.focused = true;
    let mut n = node("AXStaticText");
    n.children = vec![node("AXImage"), inner];
    assert!(is_label_selected(&n));

    let mut second = node("AXStaticText");
    second.selected = true;
    let mut n = node("AXStaticText");
    n.children = vec![node("AXStaticText"), second];
    assert!(!is_label_selected(&n));

    let mut image = node("AXImage");
    image.selected = true;
    let mut n = node("AXStaticText");
    n.children = vec![image];
    assert!(!is_label_selected(&n));
}

#[test]
fn list_item_takes_the_value_before_the_title() {
    let mut n = node("AXStaticText");
    n.title = "title".to_string();
    assert_eq!(list_item(&n, 7), json(r#"{"index":7,"text":"title","selected":false}"#));
    n.value = "value".to_string();
    n.selected = true;
    n.position = Some(Point { x: 5, y: 6 });
    n.size = Some(Extent { w: 7, h: 8 });
    assert_eq!(
        list_item(&n, 0),
        json(r#"{"index":0,"text":"value","selected":true,"x":5,"y":6,"w":7,"h":8}"#)
    );
}

use ax_snapshot::node::{AxNode, Extent, Point};
use ax_snapshot::popup::{collect_list_items, find_popups, popup_json};
use serde_json::Value;

fn node(role: &str, children: Vec<AxNode>) -> AxNode {
    AxNode {
        role: role.to_string(),
        subrole: String::new(),
        title: String::new(),
        value: String::new(),
        desc: String::new(),
        help: String::new(),
        selected: false,
        focused: false,
        position: None,
        size: None,
        children,
    }
}

fn label(text: &str) -> AxNode {
    let mut n = node("AXStaticText", Vec::new());
    n.value = text.to_string();
    n
}

fn nested(levels: usize, inner: AxNode) -> AxNode {
    let mut n = inner;
    for _ in 0..levels {
        n = node("AXGroup", vec![n]);
    }
    n
}

fn json(text: &str) -> Value {
    serde_json::from_str(text).unwrap()
}

fn found(n: &AxNode, depth: usize) -> Vec<Value> {
    let mut results = Vec::new();
    find_popups(n, depth, &mut results);
    results.into_iter().map(Value::Object).collect()
}

fn items(n: &AxNode, depth: usize) -> Vec<Value> {
    let mut items = Vec::new();
    let mut idx = 0;
    collect_list_items(n, depth, &mut idx, &mut items);
    assert_eq!(idx, items.len());
    items
}

#[test]
fn labels_are_numbered_in_their_order() {
    let n = node("AXList", vec![label("a"), node("AXGroup", vec![label("b"), label("c")]), label("d")]);
    assert_eq!(
        Value::Array(items(&n, 0)),
        json(
            r#"[{"index":0,"text":"a","selected":false},{"index":1,"text":"b","selected":false},
                {"index":2,"text":"c","selected":false},{"index":3,"text":"d","selected":false}]"#
        )
    );
}

#[test]
fn numbering_goes_on_from_the_index() {
    let mut list = vec![Value::Null, Value::Null, Value::Null];
    let mut idx = 2;
    collect_list_items(&label("x"), 0, &mut idx, &mut list);
    assert_eq!(idx, 3);
    assert_eq!(list.len(), 4);
    assert_eq!(list[0], Value::Null);
    assert_eq!(list[3], json(r#"{"index":2,"text":"x","selected":false}"#));

    let mut list = Vec::new();
    let mut idx = 5;
    collect_list_items(&node("AXList", vec![label("a"), label("b")]), 0, &mut idx, &mut list);
    assert_eq!(idx, 7);
    assert_eq!(
        Value::Array(list),
        json(r#"[{"index":5,"text":"a","selected":false},{"index":6,"text":"b","selected":false}]"#)
    );
}

#[test]
fn labels_inside_a_label_are_no_items() {
    let mut outer = label("outer");
    let mut inner = label("inner");
    inner.selected = true;
    outer.children = vec![inner];
    assert_eq!(
        Value::Array(items(&node("AXList", vec![outer]), 0)),
        json(r#"[{"index":0,"text":"outer","selected":true}]"#)
    );
}

#[test]
fn labels_below_the_deepest_level_are_no_items() {
    assert_eq!(items(&nested(10, label("in")), 0).len(), 1);
    assert_eq!(items(&nested(11, label("out")), 0).len(), 0);
    assert_eq!(items(&label("in"), 10).len(), 1);
    assert_eq!(items(&label("out"), 11).len(), 0);
}

#[test]
fn popup_without_labels_has_no_items() {
    assert_eq!(
        Value::Object(popup_json(&node("AXMenu", vec![node("AXMenuItem", Vec::new())]))),
        json(r#"{"role":"AXMenu"}"#)
    );
}

#[test]
fn popup_that_is_itself_a_label_lists_itself() {
    let mut n = label("alert");
    n.subrole = "AXDialog".to_string();
    assert_eq!(
        found(&n, 0),
        vec![json(
            r#"{"role":"AXStaticText","subrole":"AXDialog","value":"alert",
                "items":[{"index":0,"text":"alert","selected":false}]}"#
        )]
    );
}

#[test]
fn autofill_picker() {
    let mut list = node("AXList", vec![label("Password for ann"), label("Password for bob")]);
    list.desc = "Autofill".to_string();
    list.position = Some(Point { x: 10, y: 20 });
    list.size = Some(Extent { w: 300, h: 80 });
    let window = node("AXWindow", vec![node("AXGroup", vec![list])]);
    assert_eq!(
        found(&window, 0),
        vec![json(
            r#"{"role":"AXList","desc":"Autofill","x":10,"y":20,"w":300,"h":80,
                "items":[{"index":0,"text":"Password for ann","selected":false},
                         {"index":1,"text":"Password for bob","selected":false}]}"#
        )]
    );
}

#[test]
fn pages_are_not_looked_into() {
    let page = node("AXWebArea", vec![node("AXMenu", Vec::new())]);
    assert_eq!(found(&node("AXWindow", vec![page]), 0).len(), 0);
    let mut page = node("AXWebArea", Vec::new());
    page.subrole = "AXDialog".to_string();
    assert_eq!(found(&page, 0).len(), 0);
}

#[test]
fn popups_inside_a_popup_are_not_found() {
    let n = node("AXSheet", vec![node("AXMenu", Vec::new())]);
    assert_eq!(found(&n, 0), vec![json(r#"{"role":"AXSheet"}"#)]);
}

#[test]
fn popups_come_in_their_order() {
    let n = node(
        "AXWindow",
        vec![node("AXMenu", Vec::new()), nested(3, node("AXSheet", Vec::new())), node("AXPopover", Vec::new())],
    );
    assert_eq!(
        Value::Array(found(&n, 0)),
        json(r#"[{"role":"AXMenu"},{"role":"AXSheet"},{"role":"AXPopover"}]"#)
    );
}

#[test]
fn popups_below_the_deepest_level_are_not_found() {
    assert_eq!(found(&nested(14, node("AXMenu", Vec::new())), 0).len(), 1);
    assert_eq!(found(&nested(15, node("AXMenu", Vec::new())), 0).len(), 0);
    assert_eq!(found(&node("AXMenu", Vec::new()), 14).len(), 1);
    assert_eq!(found(&node("AXMenu", Vec::new()), 15).len(), 0);
}

#[test]
fn what_was_found_before_stays() {
    let earlier = json(r#"{"role":"AXMenu","x":1.5}"#);
    let mut results = vec![earlier.as_object().unwrap().clone()];
    find_popups(&node("AXWebArea", vec![node("AXMenu", Vec::new())]), 0, &mut results);
    find_popups(&node("AXMenu", Vec::new()), 15, &mut results);
    assert_eq!(results.len(), 1);
    find_popups(&node("AXMenu", Vec::new()), 0, &mut results);
    find_popups(&node("AXSheet", Vec::new()), 0, &mut results);
    assert_eq!(
        Value::Array(results.into_iter().map(Value::Object).collect()),
        json(r#"[{"role":"AXMenu","x":1.5},{"role":"AXMenu"},{"role":"AXSheet"}]"#)
    );
}

#[test]
fn what_was_listed_before_stays() {
    let mut list = vec![json("2.5"), json(r#"{"text":"earlier"}"#)];
    let mut idx = 2;
    collect_list_items(&label("too deep"), 11, &mut idx, &mut list);
    assert_eq!(idx, 2);
    assert_eq!(list.len(), 2);
    collect_list_items(&label("new"), 0, &mut idx, &mut list);
    assert_eq!(
        Value::Array(list),
        json(r#"[2.5,{"text":"earlier"},{"index":2,"text":"new","selected":false}]"#)
    );
}

#[test]
fn deeper_start_finds_no_more() {
    let tree = node(
        "AXWindow",
        vec![node("AXMenu", Vec::new()), nested(5, node("AXSheet", Vec::new())), nested(9, label("text"))],
    );
    for depth in 0..16 {
        let shallow = found(&tree, depth);
        let deep = found(&tree, depth + 1);
        assert!(deep.len() <= shallow.len());
        assert!(deep.iter().all(|p| shallow.contains(p)));
        assert!(items(&tree, depth + 1).len() <= items(&tree, depth).len());
    }
    assert_eq!(found(&tree, 8).len(), 2);
    assert_eq!(found(&tree, 9).len(), 1);
    assert_eq!(found(&tree, 13).len(), 1);
    assert_eq!(found(&tree, 14).len(), 0);
}

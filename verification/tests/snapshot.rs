use ax_snapshot::node::{AxNode, Extent, Point};
use ax_snapshot::snapshot::{find_window_popups, focused_snapshot, Capture, Reading};
use serde_json::Value;

fn node(role: &str, children: Vec<AxNode>) -> AxNode {
    AxNode {
        role: role.to_string(),
        subrole: String::new(),
        title: String::new(),
        value: String::new(),
        desc: String::new(),
        help: String::new(),
        selected: false,
        focused: false,
        position: None,
        size: None,
        children,
    }
}

fn placed(role: &str, x: i64, y: i64, w: i64, h: i64) -> AxNode {
    let mut n = node(role, Vec::new());
    n.position = Some(Point { x, y });
    n.size = Some(Extent { w, h });
    n
}

fn dialog(role: &str) -> AxNode {
    let mut n = node(role, Vec::new());
    n.subrole = "AXDialog".to_string();
    n
}

fn json(text: &str) -> Value {
    serde_json::from_str(text).unwrap()
}

fn snapshot(capture: Capture) -> Value {
    focused_snapshot(7, Reading::Captured(capture)).unwrap().into_json(12)
}

fn failure(reading: Reading) -> String {
    match focused_snapshot(-42, reading) {
        Ok(_) => panic!("no failure"),
        Err(message) => message,
    }
}

#[test]
fn no_tree_to_read() {
    assert_eq!(failure(Reading::Unsupported), "AX snapshot is only available on macOS");
}

#[test]
fn no_permission() {
    assert_eq!(
        failure(Reading::NotTrusted),
        "Accessibility permission required. Grant in System Settings \u{2192} Privacy & Security \
         \u{2192} Accessibility for this binary, then retry."
    );
}

#[test]
fn no_element_for_the_process() {
    assert_eq!(
        failure(Reading::NoApplication),
        "AXUIElementCreateApplication returned null for pid -42"
    );
    for pid in [0, 9, 10, 4711, i32::MAX, i32::MIN] {
        let message = match focused_snapshot(pid, Reading::NoApplication) {
            Ok(_) => panic!("no failure"),
            Err(message) => message,
        };
        assert_eq!(message, format!("AXUIElementCreateApplication returned null for pid {pid}"));
    }
}

#[test]
fn nothing_open() {
    let capture = Capture { app_focused: None, system_focused: None, windows: Vec::new() };
    assert_eq!(
        snapshot(capture),
        json(r#"{"pid":7,"focused":null,"popups":[],"elapsed_ms":12,"windows":0}"#)
    );
}

#[test]
fn focus_of_the_process_comes_first() {
    let capture = Capture {
        app_focused: Some(node("AXTextField", Vec::new())),
        system_focused: Some(node("AXButton", Vec::new())),
        windows: vec![node("AXWindow", Vec::new())],
    };
    assert_eq!(
        snapshot(capture),
        json(r#"{"pid":7,"focused":{"role":"AXTextField"},"popups":[],"elapsed_ms":12,"windows":1}"#)
    );
}

#[test]
fn focus_of_the_system_stands_in() {
    let capture = Capture {
        app_focused: None,
        system_focused: Some(node("AXButton", Vec::new())),
        windows: Vec::new(),
    };
    assert_eq!(
        snapshot(capture),
        json(r#"{"pid":7,"focused":{"role":"AXButton"},"popups":[],"elapsed_ms":12,"windows":0}"#)
    );
}

#[test]
fn negative_numbers_are_kept() {
    let capture = Capture { app_focused: None, system_focused: None, windows: Vec::new() };
    let value = focused_snapshot(-1, Reading::Captured(capture)).unwrap().into_json(-5);
    assert_eq!(
        value,
        json(r#"{"pid":-1,"focused":null,"popups":[],"elapsed_ms":-5,"windows":0}"#)
    );
}

#[test]
fn popup_seen_from_two_windows_is_shown_once() {
    let mut picker = placed("AXList", 10, -20, 300, 80);
    picker.desc = "first".to_string();
    let mut again = placed("AXList", 10, -20, 300, 80);
    again.desc = "second".to_string();
    let capture = Capture {
        app_focused: None,
        system_focused: None,
        windows: vec![node("AXWindow", vec![picker]), node("AXWindow", vec![again])],
    };
    assert_eq!(
        snapshot(capture),
        json(
            r#"{"pid":7,"focused":null,"elapsed_ms":12,"windows":2,
                "popups":[{"role":"AXList","desc":"first","x":10,"y":-20,"w":300,"h":80}]}"#
        )
    );
}

#[test]
fn popups_that_differ_in_role_or_place_are_all_shown() {
    let windows = vec![
        placed("AXList", 1, 2, 3, 4),
        placed("AXMenu", 1, 2, 3, 4),
        placed("AXList", 0, 2, 3, 4),
        placed("AXList", 1, 0, 3, 4),
        placed("AXList", 1, 2, 0, 4),
        placed("AXList", 1, 2, 3, 0),
        placed("AXList", -1, 2, 3, 4),
        placed("AXList", 12, 3, 4, 0),
        node("AXList", Vec::new()),
    ];
    assert_eq!(find_window_popups(&windows).len(), 9);
}

#[test]
fn popups_without_a_place_agree_by_role() {
    let windows = vec![
        node("AXList", Vec::new()),
        node("AXMenu", Vec::new()),
        node("AXList", Vec::new()),
        node("AXMenu", Vec::new()),
    ];
    assert_eq!(Value::Array(find_window_popups(&windows)), json(r#"[{"role":"AXList"},{"role":"AXMenu"}]"#));
}

#[test]
fn roles_with_bars_are_told_apart() {
    let mut a = dialog("R");
    a.position = Some(Point { x: 1, y: 2 });
    a.size = Some(Extent { w: 3, h: 4 });
    let mut b = dialog("R|1");
    b.position = Some(Point { x: 2, y: 3 });
    b.size = Some(Extent { w: 4, h: 4 });
    let windows = vec![a, b, dialog("R|1|2|3|4"), dialog("R"), dialog("R|"), dialog("R||||")];
    assert_eq!(find_window_popups(&windows).len(), 6);
}

#[test]
fn popups_of_one_window_are_shown_once_too() {
    let window = node(
        "AXWindow",
        vec![placed("AXMenu", 1, 1, 1, 1), node("AXGroup", vec![placed("AXMenu", 1, 1, 1, 1)])],
    );
    assert_eq!(find_window_popups(&vec![window]).len(), 1);
}

use ax_snapshot::attribute::{
    ax_bool, ax_element_array, ax_element_attr, ax_point, ax_size, ax_str, drain_element_array, Reply,
};
use ax_snapshot::node::{AxNode, Extent, Point};
use ax_snapshot::reading::{read_plan, Scan};
use ax_snapshot::snapshot::{focused_snapshot, Capture, Reading};

fn node(role: &str, children: Vec<AxNode>) -> AxNode {
    AxNode {
        role: role.to_string(),
        subrole: String::new(),
        title: format!("title of {role}"),
        value: String::new(),
        desc: String::new(),
        help: String::new(),
        selected: true,
        focused: false,
        position: Some(Point { x: 1, y: 2 }),
        size: Some(Extent { w: 3, h: 4 }),
        children,
    }
}

/// Reads of a tree what the plan asks for, and counts the elements.
fn read(full: &AxNode, scan: Scan, count: &mut usize) -> AxNode {
    *count += 1;
    let plan = read_plan(scan, &full.role, &full.subrole);
    let mut children = Vec::new();
    if let Some(next) = plan.children {
        for child in &full.children {
            children.push(read(child, next, count));
        }
    }
    AxNode {
        role: full.role.clone(),
        subrole: full.subrole.clone(),
        title: if plan.detail { full.title.clone() } else { String::new() },
        value: String::new(),
        desc: String::new(),
        help: String::new(),
        selected: plan.detail && full.selected,
        focused: plan.detail && full.focused,
        position: if plan.detail { full.position } else { None },
        size: if plan.detail { full.size } else { None },
        children,
    }
}

fn snapshot(window: AxNode) -> serde_json::Value {
    let capture = Capture { app_focused: None, system_focused: None, windows: vec![window] };
    focused_snapshot(1, Reading::Captured(capture)).unwrap().into_json(0)
}

#[test]
fn planned_reading_gives_the_whole_snapshot() {
    let label = node("AXStaticText", vec![node("AXStaticText", vec![node("AXImage", Vec::new())])]);
    let list = node("AXList", vec![node("AXGroup", vec![label, node("AXImage", Vec::new())])]);
    let page = node("AXWebArea", vec![node("AXList", vec![node("AXStaticText", Vec::new())])]);
    let window = node("AXWindow", vec![page, node("AXGroup", vec![list])]);
    let mut count = 0;
    let part = read(&window, Scan::Window { depth: 0 }, &mut count);
    assert_eq!(count, 8);
    assert_eq!(part.children[0].children.len(), 0);
    assert_eq!(part.title, "");
    assert_eq!(snapshot(part), snapshot(window));
}

#[test]
fn plans_for_windows() {
    let plan = read_plan(Scan::Window { depth: 0 }, "AXGroup", "");
    assert!(!plan.detail);
    assert!(matches!(plan.children, Some(Scan::Window { depth: 1 })));
    let plan = read_plan(Scan::Window { depth: 3 }, "AXWebArea", "AXDialog");
    assert!(!plan.detail && plan.children.is_none());
    let plan = read_plan(Scan::Window { depth: 14 }, "AXGroup", "");
    assert!(!plan.detail && plan.children.is_none());
    let plan = read_plan(Scan::Window { depth: 14 }, "AXMenu", "");
    assert!(plan.detail && matches!(plan.children, Some(Scan::List { depth: 1 })));
    let plan = read_plan(Scan::Window { depth: 15 }, "AXMenu", "");
    assert!(!plan.detail && plan.children.is_none());
    let plan = read_plan(Scan::Window { depth: 2 }, "AXStaticText", "AXDialog");
    assert!(plan.detail && matches!(plan.children, Some(Scan::Label)));
}

#[test]
fn plans_for_lists_labels_and_the_focus() {
    let plan = read_plan(Scan::List { depth: 1 }, "AXMenu", "");
    assert!(!plan.detail && matches!(plan.children, Some(Scan::List { depth: 2 })));
    let plan = read_plan(Scan::List { depth: 10 }, "AXStaticText", "");
    assert!(plan.detail && matches!(plan.children, Some(Scan::Label)));
    let plan = read_plan(Scan::List { depth: 10 }, "AXGroup", "");
    assert!(!plan.detail && plan.children.is_none());
    let plan = read_plan(Scan::List { depth: 11 }, "AXStaticText", "");
    assert!(!plan.detail && plan.children.is_none());
    let plan = read_plan(Scan::Label, "AXStaticText", "");
    assert!(plan.detail && plan.children.is_none());
    let plan = read_plan(Scan::Label, "AXImage", "");
    assert!(!plan.detail && plan.children.is_none());
    let plan = read_plan(Scan::Focus, "AXWebArea", "");
    assert!(plan.detail && plan.children.is_none());
}

#[test]
fn failed_reads_count_as_nothing() {
    assert_eq!(ax_str(Reply { err: 0, value: Some(Some("a".to_string())) }), "a");
    assert_eq!(ax_str(Reply { err: -25212, value: Some(Some("a".to_string())) }), "");
    assert_eq!(ax_str(Reply { err: 0, value: Some(None) }), "");
    assert_eq!(ax_str(Reply { err: 0, value: None }), "");

    assert!(ax_bool(Reply { err: 0, value: Some(Some(true)) }));
    assert!(!ax_bool(Reply { err: 0, value: Some(Some(false)) }));
    assert!(!ax_bool(Reply { err: 0, value: Some(None) }));
    assert!(!ax_bool(Reply { err: 1, value: Some(Some(true)) }));
    assert!(!ax_bool(Reply { err: 0, value: None }));

    let p = ax_point(Reply { err: 0, value: Some(Some(Point { x: 1, y: 2 })) }).unwrap();
    assert_eq!((p.x, p.y), (1, 2));
    assert!(ax_point(Reply { err: 0, value: Some(None) }).is_none());
    assert!(ax_point(Reply { err: 0, value: None }).is_none());
    assert!(ax_point(Reply { err: 1, value: Some(Some(Point { x: 1, y: 2 })) }).is_none());

    let s = ax_size(Reply { err: 0, value: Some(Some(Extent { w: 3, h: 4 })) }).unwrap();
    assert_eq!((s.w, s.h), (3, 4));
    assert!(ax_size(Reply { err: 0, value: Some(None) }).is_none());
    assert!(ax_size(Reply { err: 0, value: None }).is_none());
    assert!(ax_size(Reply { err: 1, value: Some(Some(Extent { w: 3, h: 4 })) }).is_none());

    assert_eq!(ax_element_attr(Reply { err: 0, value: Some(5) }), Some(5));
    assert_eq!(ax_element_attr(Reply { err: 5, value: Some(5) }), None);
    assert_eq!(ax_element_attr(Reply::<i32> { err: 0, value: None }), None);
}

#[test]
fn lists_of_elements_have_no_gaps() {
    assert_eq!(drain_element_array(vec![None, Some(1), None, Some(2), None]), vec![1, 2]);
    assert_eq!(drain_element_array::<i32>(vec![None]), Vec::<i32>::new());
    assert_eq!(ax_element_array(Reply { err: 0, value: Some(vec![Some(1), None, Some(3)]) }), vec![1, 3]);
    assert_eq!(ax_element_array(Reply { err: 1, value: Some(vec![Some(1)]) }), Vec::<i32>::new());
    assert_eq!(ax_element_array::<i32>(Reply { err: 0, value: None }), Vec::<i32>::new());
}

#[test]
fn plans_come_to_an_end() {
    for role in ["AXGroup", "AXMenu", "AXStaticText", "AXWebArea"] {
        let mut scan = Scan::Window { depth: 0 };
        let mut levels = 0;
        while let Some(next) = read_plan(scan, role, "").children {
            scan = next;
            levels += 1;
        }
        assert!(levels <= 25);
    }
    let mut scan = Scan::Window { depth: 0 };
    let mut levels = 0;
    while let Some(next) = read_plan(scan, if levels < 14 { "AXGroup" } else { "AXList" }, "").children {
        scan = next;
        levels += 1;
    }
    assert_eq!(levels, 24);
    assert!(read_plan(scan, "AXStaticText", "").children.is_some());
}

use ax_snapshot::click::{activate_pid, hid_click, ClickStep, Platform};

#[test]
fn script_names_the_process() {
    assert_eq!(
        activate_pid(4711),
        "tell application \"System Events\" to set frontmost of (first process whose unix id is 4711) to true"
    );
    assert_eq!(
        activate_pid(-1),
        "tell application \"System Events\" to set frontmost of (first process whose unix id is -1) to true"
    );
}

#[test]
fn click_brings_to_front_moves_presses_and_releases() {
    let at = (12.5f64, -3.0f64);
    let steps = hid_click(Platform::MacOs, at, 99);
    assert_eq!(steps.len(), 7);
    match &steps[0] {
        ClickStep::Script { source } => assert_eq!(*source, activate_pid(99)),
        _ => panic!("no script"),
    }
    for (i, expected) in [(1, 150), (3, 20), (5, 40)] {
        match &steps[i] {
            ClickStep::Wait { ms } => assert_eq!(*ms, expected),
            _ => panic!("no pause"),
        }
    }
    for (i, expected) in [(2, 5), (4, 1), (6, 2)] {
        match &steps[i] {
            ClickStep::Post { kind, button, tap, at: place } => {
                assert_eq!(*kind, expected);
                assert_eq!(*button, 0);
                assert_eq!(*tap, 0);
                assert_eq!(*place, at);
            }
            _ => panic!("no event"),
        }
    }
}

#[test]
fn no_clicks_elsewhere() {
    assert_eq!(hid_click(Platform::Other, (), 99).len(), 0);
}

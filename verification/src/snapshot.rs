//! The snapshot of a browser process: what has the focus, and which popups are
//! open.

use crate::dedup;
use crate::element;
use crate::json;
use crate::json::Json;
use crate::node::AxNode;
use crate::popup;
use crate::stated;
use crate::text;
use serde_json::Value;
use vstd::prelude::*;
use vstd::string::*;

verus! {

/// What is said where there is no accessibility tree to read.
pub const UNSUPPORTED: &'static str = "AX snapshot is only available on macOS";

/// What is said where this process may not read the accessibility tree.
pub const NOT_TRUSTED: &'static str =
    "Accessibility permission required. Grant in System Settings → Privacy & Security → Accessibility for this binary, then retry.";

/// What is said, before the process id, where the process has no element.
pub const NO_APPLICATION: &'static str = "AXUIElementCreateApplication returned null for pid ";

/// What was read of a browser process.
#[derive(Debug)]
pub struct Capture {
    /// The focused element, as the browser process tells it.
    pub app_focused: Option<AxNode>,
    /// The focused element, as the system tells it. It is looked at only where
    /// the process tells none: while a popup's window is the key window, the
    /// process does not.
    pub system_focused: Option<AxNode>,
    /// The windows of the process.
    pub windows: Vec<AxNode>,
}

/// How an attempt to read a browser process ended.
#[derive(Debug)]
pub enum Reading {
    /// The platform has no such tree.
    Unsupported,
    /// This process may not read it.
    NotTrusted,
    /// No element could be made for the process.
    NoApplication,
    /// The tree was read.
    Captured(Capture),
}

/// A snapshot, before the time that it took is known.
#[derive(Debug)]
pub struct FocusedSnapshot {
    pid: i32,
    focused: Value,
    popups: Vec<Value>,
    windows: usize,
}

/// What a snapshot says.
pub struct SnapshotView {
    pub pid: int,
    pub focused: Json,
    pub popups: Seq<Json>,
    pub windows: nat,
}

impl View for FocusedSnapshot {
    type V = SnapshotView;

    closed spec fn view(&self) -> SnapshotView {
        SnapshotView {
            pid: self.pid as int,
            focused: json::json_of(self.focused),
            popups: json::json_seq(self.popups@),
            windows: self.windows as nat,
        }
    }
}

/// The element that a capture takes for the focused one.
pub open spec fn focus_of(c: Capture) -> Option<AxNode> {
    match c.app_focused {
        Some(n) => Some(n),
        None => c.system_focused,
    }
}

/// The focused element in JSON.
pub open spec fn focus_json(c: Capture) -> Json {
    match focus_of(c) {
        Some(n) => Json::Obj(element::element_entries(n)),
        None => Json::Null,
    }
}

/// All sightings of popups in a sequence of windows.
pub open spec fn sightings(windows: Seq<AxNode>) -> Seq<Map<Seq<char>, Json>> {
    popup::all_popup_entries(popup::popups_in_all(windows, 0))
}

/// The popups of a sequence of windows, each once.
pub open spec fn window_popups(windows: Seq<AxNode>) -> Seq<Map<Seq<char>, Json>> {
    dedup::first_sightings(sightings(windows))
}

/// What the snapshot of a captured process says.
pub open spec fn snapshot_of(pid: int, c: Capture) -> SnapshotView {
    SnapshotView {
        pid,
        focused: focus_json(c),
        popups: dedup::as_objects(window_popups(c.windows@)),
        windows: c.windows@.len(),
    }
}

/// What the JSON object of a snapshot has under a key.
pub open spec fn snapshot_field(s: SnapshotView, elapsed_ms: int, key: Seq<char>) -> Option<Json> {
    if key == "pid"@ {
        Some(Json::Int(s.pid))
    } else if key == "focused"@ {
        Some(s.focused)
    } else if key == "popups"@ {
        Some(Json::Arr(s.popups))
    } else if key == "elapsed_ms"@ {
        Some(Json::Int(elapsed_ms))
    } else if key == "windows"@ {
        Some(Json::Int(s.windows as int))
    } else {
        None
    }
}

/// A snapshot, and the time that it took, in JSON.
pub open spec fn snapshot_json(s: SnapshotView, elapsed_ms: int) -> Json {
    Json::Obj(json::object_with(|key: Seq<char>| snapshot_field(s, elapsed_ms, key)))
}

/// No two keys of a snapshot are the same text.
pub proof fn lemma_snapshot_keys_differ()
    ensures
        "pid"@.len() == 3,
        "popups"@.len() == 6,
        "focused"@.len() == 7 && "windows"@.len() == 7 && "focused"@ != "windows"@,
        "elapsed_ms"@.len() == 10,
{
    reveal_strlit("pid");
    reveal_strlit("popups");
    reveal_strlit("focused");
    reveal_strlit("windows");
    reveal_strlit("elapsed_ms");
    assert("focused"@[0] == 'f' && "windows"@[0] == 'w');
}

/// The place that the JSON object of a popup states is made of integers.
pub proof fn lemma_integer_place(n: AxNode)
    ensures
        dedup::integer_place(popup::popup_entries(n)),
{
    element::lemma_keys_differ();
}

/// The popups of a sequence of windows, each once.
pub fn find_window_popups(windows: &Vec<AxNode>) -> (popups: Vec<Value>)
    ensures
        json::json_seq(popups@) == dedup::as_objects(window_popups(windows@)),
        stated::shows_popups(json::json_seq(popups@), windows@),
{
    let mut raw: Vec<serde_json::Map<String, Value>> = Vec::new();
    let mut i: usize = 0;
    assert(json::entries_seq(raw@) =~= sightings(windows@.take(0)));
    while i < windows.len()
        invariant
            0 <= i <= windows@.len(),
            json::entries_seq(raw@) == sightings(windows@.take(i as int)),
        decreases windows@.len() - i,
    {
        let ghost done = popup::popups_in_all(windows@.take(i as int), 0);
        let ghost next = popup::popups_in(windows@[i as int], 0);
        popup::find_popups(&windows[i], 0, &mut raw);
        assert(windows@.take(i + 1).drop_last() =~= windows@.take(i as int));
        assert(popup::all_popup_entries(done + next) =~= popup::all_popup_entries(done)
            + popup::all_popup_entries(next));
        i += 1;
    }
    assert(windows@.take(i as int) =~= windows@);
    assert forall|j: int| 0 <= j < raw@.len() implies dedup::integer_place(
        json::entries_of(#[trigger] raw@[j]),
    ) by {
        let found = popup::popups_in_all(windows@, 0);
        assert(json::entries_seq(raw@)[j] == sightings(windows@)[j]);
        lemma_integer_place(found[j]);
    }
    proof {
        stated::law_window_popups_are_shown(windows@);
    }
    dedup::drop_repeats(raw)
}

/// The snapshot of the browser process `pid`, or why there is none.
pub fn focused_snapshot(pid: i32, reading: Reading) -> (r: Result<FocusedSnapshot, String>)
    ensures
        match reading {
            Reading::Unsupported => r is Err && r->Err_0@ == UNSUPPORTED@,
            Reading::NotTrusted => r is Err && r->Err_0@ == NOT_TRUSTED@,
            Reading::NoApplication => r is Err && r->Err_0@ == NO_APPLICATION@ + text::decimal(
                pid as int,
            ),
            Reading::Captured(c) => r is Ok && r->Ok_0@ == snapshot_of(pid as int, c),
        },
        reading is Unsupported ==> r->Err_0@ == "AX snapshot is only available on macOS"@,
        reading is NotTrusted ==> r->Err_0@
            == "Accessibility permission required. Grant in System Settings → Privacy & Security → Accessibility for this binary, then retry."@,
        reading is NoApplication ==> r->Err_0@
            == "AXUIElementCreateApplication returned null for pid "@ + text::decimal(pid as int),
        reading matches Reading::Captured(c) ==> stated::states_capture(r->Ok_0@, pid as int, c),
{
    let capture = match reading {
        Reading::Unsupported => {
            return Err(UNSUPPORTED.to_owned());
        },
        Reading::NotTrusted => {
            return Err(NOT_TRUSTED.to_owned());
        },
        Reading::NoApplication => {
            let mut message = NO_APPLICATION.to_owned();
            message.append(text::decimal_text(pid).as_str());
            return Err(message);
        },
        Reading::Captured(capture) => capture,
    };
    let focused = match &capture.app_focused {
        Some(n) => json::object(element::element_json(n)),
        None => match &capture.system_focused {
            Some(n) => json::object(element::element_json(n)),
            None => json::null(),
        },
    };
    let popups = find_window_popups(&capture.windows);
    proof {
        stated::law_snapshot_states_the_capture(pid as int, capture);
    }
    Ok(FocusedSnapshot { pid, focused, popups, windows: capture.windows.len() })
}

impl FocusedSnapshot {
    /// The snapshot as a JSON value, with the time that it took.
    pub fn into_json(self, elapsed_ms: i64) -> (v: Value)
        ensures
            json::json_of(v) == snapshot_json(self@, elapsed_ms as int),
            stated::states_snapshot(json::json_of(v), self@, elapsed_ms as int),
    {
        let FocusedSnapshot { pid, focused, popups, windows } = self;
        let mut top = json::new_object();
        json::insert(&mut top, "pid".to_owned(), json::integer(pid as i64));
        json::insert(&mut top, "focused".to_owned(), focused);
        json::insert(&mut top, "popups".to_owned(), json::array(popups));
        json::insert(&mut top, "elapsed_ms".to_owned(), json::integer(elapsed_ms));
        json::insert(&mut top, "windows".to_owned(), json::count(windows));
        proof {
            lemma_snapshot_keys_differ();
            stated::law_snapshot_is_stated_whole(self@, elapsed_ms as int);
            assert(json::entries_of(top) =~= json::object_with(
                |key: Seq<char>| snapshot_field(self@, elapsed_ms as int, key),
            ));
        }
        json::object(top)
    }
}

/// Why there is no snapshot is said in one of three ways, and where the process
/// has no element the process is told.
pub proof fn law_refusals_say_why(p: int, q: int)
    ensures
        UNSUPPORTED@ == "AX snapshot is only available on macOS"@,
        NOT_TRUSTED@
            == "Accessibility permission required. Grant in System Settings → Privacy & Security → Accessibility for this binary, then retry."@,
        NO_APPLICATION@ == "AXUIElementCreateApplication returned null for pid "@,
        NO_APPLICATION@ + text::decimal(p) == NO_APPLICATION@ + text::decimal(q) ==> p == q,
{
    let a = NO_APPLICATION@ + text::decimal(p);
    let b = NO_APPLICATION@ + text::decimal(q);
    let head = NO_APPLICATION@.len() as int;
    assert(text::decimal(p) =~= a.skip(head));
    assert(text::decimal(q) =~= b.skip(head));
    text::lemma_decimal(p, q);
}

} // verus!

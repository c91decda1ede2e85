//! A click that the browser takes for one of its user. The browser does not
//! offer saved credentials on a click that a debugger makes, but it does on one
//! that comes through the input devices.

use crate::text;
use vstd::prelude::*;
use vstd::string::*;

verus! {

/// The event kind of a pressed left button.
pub const LEFT_MOUSE_DOWN: u32 = 1;

/// The event kind of a released left button.
pub const LEFT_MOUSE_UP: u32 = 2;

/// The event kind of a pointer that moved.
pub const MOUSE_MOVED: u32 = 5;

/// The number of the left button.
pub const LEFT_BUTTON: u32 = 0;

/// Where events enter that come from the input devices.
pub const HID_EVENT_TAP: u32 = 0;

/// The part of the activation script before the process id.
pub const SCRIPT_HEAD: &'static str =
    "tell application \"System Events\" to set frontmost of (first process whose unix id is ";

/// The part of the activation script behind the process id.
pub const SCRIPT_TAIL: &'static str = ") to true";

/// The platforms, as far as clicks are concerned.
#[derive(Debug, Clone, Copy)]
pub enum Platform {
    MacOs,
    Other,
}

/// A step of a click at a place of the screen. How a place is told is left to
/// who makes the click.
#[derive(Debug)]
pub enum ClickStep<P> {
    /// Run this script.
    Script { source: String },
    /// Wait for this many milliseconds.
    Wait { ms: u64 },
    /// Post an event of this kind, for this button, at this place.
    Post { kind: u32, button: u32, tap: u32, at: P },
}

/// What a step of a click says.
pub enum StepView<P> {
    Script(Seq<char>),
    Wait(nat),
    Post { kind: u32, button: u32, tap: u32, at: P },
}

impl<P> View for ClickStep<P> {
    type V = StepView<P>;

    open spec fn view(&self) -> StepView<P> {
        match *self {
            ClickStep::Script { source } => StepView::Script(source@),
            ClickStep::Wait { ms } => StepView::Wait(ms as nat),
            ClickStep::Post { kind, button, tap, at } => StepView::Post { kind, button, tap, at },
        }
    }
}

/// What each of a sequence of steps says.
pub open spec fn step_views<P>(s: Seq<ClickStep<P>>) -> Seq<StepView<P>> {
    s.map_values(|step: ClickStep<P>| step@)
}

/// The script that brings the front window of a process to the front of all.
pub open spec fn activation_script(pid: int) -> Seq<char> {
    SCRIPT_HEAD@ + text::decimal(pid) + SCRIPT_TAIL@
}

/// An event of the left button that enters with the input devices.
pub open spec fn left_event<P>(kind: u32, at: P) -> StepView<P> {
    StepView::Post { kind, button: LEFT_BUTTON, tap: HID_EVENT_TAP, at }
}

/// The steps of a click on a window of a process. The window has to be in front,
/// or else the event reaches whatever is; then the pointer moves to the place,
/// and the button goes down and up.
pub open spec fn click_steps<P>(platform: Platform, at: P, pid: int) -> Seq<StepView<P>> {
    match platform {
        Platform::MacOs => seq![
            StepView::Script(activation_script(pid)),
            StepView::Wait(150),
            left_event(MOUSE_MOVED, at),
            StepView::Wait(20),
            left_event(LEFT_MOUSE_DOWN, at),
            StepView::Wait(40),
            left_event(LEFT_MOUSE_UP, at),
        ],
        Platform::Other => Seq::empty(),
    }
}

/// Whether steps are those of a left click: the process is brought to the front,
/// then the pointer is moved to the place and the left button pressed and released
/// there, with a pause before each event.
pub open spec fn is_left_click<P>(steps: Seq<ClickStep<P>>, at: P, pid: int) -> bool {
    &&& steps.len() == 7
    &&& steps[0] matches ClickStep::Script { source } && source@
        == "tell application \"System Events\" to set frontmost of (first process whose unix id is "@
        + text::decimal(pid) + ") to true"@
    &&& steps[1] == ClickStep::<P>::Wait { ms: 150 }
    &&& steps[2] == ClickStep::<P>::Post { kind: 5, button: 0, tap: 0, at }
    &&& steps[3] == ClickStep::<P>::Wait { ms: 20 }
    &&& steps[4] == ClickStep::<P>::Post { kind: 1, button: 0, tap: 0, at }
    &&& steps[5] == ClickStep::<P>::Wait { ms: 40 }
    &&& steps[6] == ClickStep::<P>::Post { kind: 2, button: 0, tap: 0, at }
}

/// The script that brings the front window of a process to the front of all.
pub fn activate_pid(pid: i32) -> (script: String)
    ensures
        script@ == activation_script(pid as int),
        script@
            == "tell application \"System Events\" to set frontmost of (first process whose unix id is "@
            + text::decimal(pid as int) + ") to true"@,
{
    let mut script = SCRIPT_HEAD.to_owned();
    script.append(text::decimal_text(pid).as_str());
    script.append(SCRIPT_TAIL);
    script
}

/// A step that posts an event of the left button.
fn post_event<P>(kind: u32, at: P) -> (step: ClickStep<P>)
    ensures
        step@ == left_event(kind, at),
        step == (ClickStep::Post { kind, button: 0, tap: 0, at }),
{
    ClickStep::Post { kind, button: LEFT_BUTTON, tap: HID_EVENT_TAP, at }
}

/// The steps of a click at `at` on a window of the process `pid`. There are none
/// where the platform has no such clicks.
pub fn hid_click<P: Copy>(platform: Platform, at: P, pid: i32) -> (steps: Vec<ClickStep<P>>)
    ensures
        step_views(steps@) == click_steps(platform, at, pid as int),
        platform is MacOs ==> is_left_click(steps@, at, pid as int),
        platform is Other ==> steps@.len() == 0,
{
    let mut steps: Vec<ClickStep<P>> = Vec::new();
    match platform {
        Platform::MacOs => {
            steps.push(ClickStep::Script { source: activate_pid(pid) });
            steps.push(ClickStep::Wait { ms: 150 });
            steps.push(post_event(MOUSE_MOVED, at));
            steps.push(ClickStep::Wait { ms: 20 });
            steps.push(post_event(LEFT_MOUSE_DOWN, at));
            steps.push(ClickStep::Wait { ms: 40 });
            steps.push(post_event(LEFT_MOUSE_UP, at));
        },
        Platform::Other => {},
    }
    assert(step_views(steps@) =~= click_steps(platform, at, pid as int));
    steps
}

/// Clicks on windows of different processes bring different processes to the
/// front.
pub proof fn law_script_tells_the_process(p: int, q: int)
    requires
        activation_script(p) == activation_script(q),
    ensures
        p == q,
{
    let head = SCRIPT_HEAD@.len() as int;
    let tail = SCRIPT_TAIL@.len() as int;
    let a = activation_script(p);
    let b = activation_script(q);
    assert(text::decimal(p) =~= a.subrange(head, a.len() - tail));
    assert(text::decimal(q) =~= b.subrange(head, b.len() - tail));
    text::lemma_decimal(p, q);
}

/// The first step of a click is the script that names its process, whatever the
/// process and the place.
pub proof fn law_click_first_brings_its_process_to_the_front<P>(at: P, pid: int)
    ensures
        click_steps(Platform::MacOs, at, pid).len() == 7,
        click_steps(Platform::MacOs, at, pid)[0] == StepView::<P>::Script(
            "tell application \"System Events\" to set frontmost of (first process whose unix id is "@
                + text::decimal(pid) + ") to true"@,
        ),
        click_steps(Platform::Other, at, pid).len() == 0,
{
}

/// The pointer is moved to the place before the left button is pressed there, and
/// the button is released at the same place; nothing else is posted, and before
/// each of these events there is a pause.
pub proof fn law_click_moves_presses_and_releases_at_its_place<P>(at: P, pid: int)
    ensures
        click_steps(Platform::MacOs, at, pid)[1] == StepView::<P>::Wait(150),
        click_steps(Platform::MacOs, at, pid)[2] == (StepView::<P>::Post {
            kind: 5,
            button: 0,
            tap: 0,
            at,
        }),
        click_steps(Platform::MacOs, at, pid)[3] == StepView::<P>::Wait(20),
        click_steps(Platform::MacOs, at, pid)[4] == (StepView::<P>::Post {
            kind: 1,
            button: 0,
            tap: 0,
            at,
        }),
        click_steps(Platform::MacOs, at, pid)[5] == StepView::<P>::Wait(40),
        click_steps(Platform::MacOs, at, pid)[6] == (StepView::<P>::Post {
            kind: 2,
            button: 0,
            tap: 0,
            at,
        }),
{
}

/// Clicks with the same steps are clicks on the same process at the same place.
pub proof fn law_steps_tell_the_click<P>(at: P, p: int, other: P, q: int)
    requires
        click_steps(Platform::MacOs, at, p) == click_steps(Platform::MacOs, other, q),
    ensures
        p == q,
        at == other,
{
    let a = click_steps(Platform::MacOs, at, p);
    let b = click_steps(Platform::MacOs, other, q);
    assert(a[0] == b[0]);
    assert(a[2] == b[2]);
    law_click_first_brings_its_process_to_the_front(at, p);
    law_click_first_brings_its_process_to_the_front(other, q);
    law_script_tells_the_process(p, q);
}

/// What a step says is what it holds, and what steps say is what each of them
/// says, in their order.
pub proof fn law_step_says_what_it_holds<P>(
    source: String,
    ms: u64,
    kind: u32,
    button: u32,
    tap: u32,
    at: P,
    steps: Seq<ClickStep<P>>,
)
    ensures
        step_views(steps).len() == steps.len(),
        forall|i: int| 0 <= i < steps.len() ==> #[trigger] step_views(steps)[i] == steps[i]@,
        (ClickStep::<P>::Script { source })@ == StepView::<P>::Script(source@),
        (ClickStep::<P>::Wait { ms })@ == StepView::<P>::Wait(ms as nat),
        (ClickStep::Post { kind, button, tap, at })@ == (StepView::Post { kind, button, tap, at }),
{
}

} // verus!

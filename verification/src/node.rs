//! Elements of the accessibility tree, as plain values.

use crate::walk;
use vstd::prelude::*;
use vstd::string::*;

verus! {

/// The role of a text label.
pub const STATIC_TEXT: &'static str = "AXStaticText";

/// The role of the area that shows a page.
pub const WEB_AREA: &'static str = "AXWebArea";

/// A place on the screen, in whole points.
#[derive(Debug, Clone, Copy)]
pub struct Point {
    pub x: i64,
    pub y: i64,
}

/// The size of an element on the screen, in whole points.
#[derive(Debug, Clone, Copy)]
pub struct Extent {
    pub w: i64,
    pub h: i64,
}

/// An element with the attributes that a snapshot speaks of. A text attribute
/// that could not be read is empty, a flag that could not be read is not set.
#[derive(Debug)]
pub struct AxNode {
    pub role: String,
    pub subrole: String,
    pub title: String,
    pub value: String,
    pub desc: String,
    pub help: String,
    pub selected: bool,
    pub focused: bool,
    pub position: Option<Point>,
    pub size: Option<Extent>,
    pub children: Vec<AxNode>,
}

/// The roles that make an element a popup.
pub open spec fn popup_role(role: Seq<char>) -> bool {
    ||| role == "AXMenu"@
    ||| role == "AXSheet"@
    ||| role == "AXPopover"@
    ||| role == "AXSystemDialog"@
    ||| role == "AXList"@
}

/// The subroles that make an element a popup.
pub open spec fn popup_subrole(subrole: Seq<char>) -> bool {
    ||| subrole == "AXSystemDialog"@
    ||| subrole == "AXFloatingWindow"@
    ||| subrole == "AXSystemFloatingWindow"@
    ||| subrole == "AXDialog"@
}

/// Whether an element with this role and subrole is a popup.
pub open spec fn popup_shape(role: Seq<char>, subrole: Seq<char>) -> bool {
    popup_role(role) || popup_subrole(subrole)
}

impl AxNode {
    /// Whether the element is a text label.
    pub open spec fn is_static_text(self) -> bool {
        self.role@ == STATIC_TEXT@
    }

    /// Whether the element shows a page.
    pub open spec fn is_web_area(self) -> bool {
        self.role@ == WEB_AREA@
    }

    /// Whether the element is a popup.
    pub open spec fn is_popup(self) -> bool {
        popup_shape(self.role@, self.subrole@)
    }
}

/// Whether an element with this role and subrole is a popup: a menu, sheet,
/// popover or list of the browser's own interface, or a window of a dialog's
/// kind. The list that offers saved credentials is an `AXList`.
pub fn has_popup_shape(role: &str, subrole: &str) -> (r: bool)
    ensures
        r == popup_shape(role@, subrole@),
        r == walk::is_popup_kind(role@, subrole@),
{
    role.eq("AXMenu") || role.eq("AXSheet") || role.eq("AXPopover") || role.eq("AXSystemDialog")
        || role.eq("AXList") || subrole.eq("AXSystemDialog") || subrole.eq("AXFloatingWindow")
        || subrole.eq("AXSystemFloatingWindow") || subrole.eq("AXDialog")
}

/// Whether an element is a popup.
pub fn is_popup_shape(el: &AxNode) -> (r: bool)
    ensures
        r == el.is_popup(),
        r == walk::is_popup_kind(el.role@, el.subrole@),
{
    has_popup_shape(el.role.as_str(), el.subrole.as_str())
}

/// An element with one of five roles is a popup, whatever its subrole; one with
/// one of four subroles is a popup, whatever its role; no other element is.
pub proof fn law_role_or_subrole_makes_a_popup(role: Seq<char>, subrole: Seq<char>)
    ensures
        popup_shape("AXMenu"@, subrole),
        popup_shape("AXSheet"@, subrole),
        popup_shape("AXPopover"@, subrole),
        popup_shape("AXSystemDialog"@, subrole),
        popup_shape("AXList"@, subrole),
        popup_shape(role, "AXSystemDialog"@),
        popup_shape(role, "AXFloatingWindow"@),
        popup_shape(role, "AXSystemFloatingWindow"@),
        popup_shape(role, "AXDialog"@),
        popup_shape(role, subrole) ==> {
            ||| role == "AXMenu"@
            ||| role == "AXSheet"@
            ||| role == "AXPopover"@
            ||| role == "AXSystemDialog"@
            ||| role == "AXList"@
            ||| subrole == "AXSystemDialog"@
            ||| subrole == "AXFloatingWindow"@
            ||| subrole == "AXSystemFloatingWindow"@
            ||| subrole == "AXDialog"@
        },
{
}

/// What an element is goes by its role, and for a popup by its subrole as well;
/// nothing else of it matters.
pub proof fn law_role_and_subrole_say_what_an_element_is(n: AxNode)
    ensures
        n.is_static_text() <==> n.role@ == "AXStaticText"@,
        n.is_web_area() <==> n.role@ == "AXWebArea"@,
        n.is_popup() <==> popup_shape(n.role@, n.subrole@),
{
}

} // verus!

//! Both walks, for popups and for labels, find exactly the elements that are to
//! be found, in the order in which they stand in the tree.

use crate::node::AxNode;
use crate::popup;
use vstd::prelude::*;
use vstd::string::*;

verus! {

/// What a walk looks for.
pub enum Sought {
    Popups,
    Labels,
}

impl Sought {
    /// What the walk finds at or below an element at this depth.
    pub open spec fn found(self, n: AxNode, depth: nat) -> Seq<AxNode> {
        match self {
            Sought::Popups => popup::popups_in(n, depth),
            Sought::Labels => popup::labels_in(n, depth),
        }
    }

    /// What the walk finds at or below each of a sequence of elements.
    pub open spec fn found_all(self, s: Seq<AxNode>, depth: nat) -> Seq<AxNode> {
        match self {
            Sought::Popups => popup::popups_in_all(s, depth),
            Sought::Labels => popup::labels_in_all(s, depth),
        }
    }

    /// The deepest level of the walk.
    pub open spec fn limit(self) -> int {
        match self {
            Sought::Popups => 14,
            Sought::Labels => 10,
        }
    }

    /// Whether an element is what the walk looks for: a popup that is no page, or
    /// a label.
    pub open spec fn is_sought(self, n: AxNode) -> bool {
        match self {
            Sought::Popups => is_popup_kind(n.role@, n.subrole@) && n.role@ != "AXWebArea"@,
            Sought::Labels => n.role@ == "AXStaticText"@,
        }
    }

    /// Whether the walk looks inside an element: one that is neither popup nor
    /// page, or one that is no label.
    pub open spec fn is_open(self, n: AxNode) -> bool {
        match self {
            Sought::Popups => !is_popup_kind(n.role@, n.subrole@) && n.role@ != "AXWebArea"@,
            Sought::Labels => n.role@ != "AXStaticText"@,
        }
    }

    /// Whether a path leads from an element at this depth, not below the limit
    /// and only through elements that the walk looks inside, to one that it looks
    /// for.
    pub open spec fn is_reached(self, n: AxNode, depth: nat, path: Seq<int>) -> bool {
        &&& is_path(n, path)
        &&& depth + path.len() <= self.limit()
        &&& forall|k: int|
            0 <= k < path.len() ==> self.is_open(element_at(n, #[trigger] path.take(k)))
        &&& self.is_sought(element_at(n, path))
    }

    /// The paths to what the walk finds, in its order.
    pub open spec fn paths(self, n: AxNode, depth: nat) -> Seq<Seq<int>>
        decreases n,
    {
        if depth > self.limit() {
            Seq::empty()
        } else if self.is_sought(n) {
            seq![Seq::empty()]
        } else if self.is_open(n) {
            self.paths_all(n.children@, depth + 1)
        } else {
            Seq::empty()
        }
    }

    /// The paths to what the walk finds below an element with these children.
    pub open spec fn paths_all(self, s: Seq<AxNode>, depth: nat) -> Seq<Seq<int>>
        decreases s,
    {
        if s.len() == 0 {
            Seq::empty()
        } else {
            self.paths_all(s.drop_last(), depth) + through(
                s.len() - 1,
                self.paths(s.last(), depth),
            )
        }
    }
}

/// Whether a role or a subrole is one of those that popups have.
pub open spec fn is_popup_kind(role: Seq<char>, subrole: Seq<char>) -> bool {
    ||| role == "AXMenu"@
    ||| role == "AXSheet"@
    ||| role == "AXPopover"@
    ||| role == "AXSystemDialog"@
    ||| role == "AXList"@
    ||| subrole == "AXSystemDialog"@
    ||| subrole == "AXFloatingWindow"@
    ||| subrole == "AXSystemFloatingWindow"@
    ||| subrole == "AXDialog"@
}

/// Whether a path, which says at each level which child comes next, leads from
/// an element to an element.
pub open spec fn is_path(n: AxNode, path: Seq<int>) -> bool
    decreases path.len(),
{
    path.len() > 0 ==> 0 <= path[0] < n.children@.len() && is_path(
        n.children@[path[0]],
        path.drop_first(),
    )
}

/// The element to which a path leads.
pub open spec fn element_at(n: AxNode, path: Seq<int>) -> AxNode
    decreases path.len(),
{
    if path.len() == 0 {
        n
    } else {
        element_at(n.children@[path[0]], path.drop_first())
    }
}

/// A path that goes through a child first.
pub open spec fn step(child: int, path: Seq<int>) -> Seq<int> {
    seq![child] + path
}

/// Paths that go through a child first.
pub open spec fn through(child: int, paths: Seq<Seq<int>>) -> Seq<Seq<int>> {
    paths.map_values(|path: Seq<int>| step(child, path))
}

/// Whether the first path leads to an element that stands before that of the
/// second: where the paths part, it takes the earlier child.
pub open spec fn stands_before(p: Seq<int>, q: Seq<int>) -> bool {
    exists|k: int| #[trigger] parts_at(p, q, k)
}

/// Whether two paths agree up to the level `k`, where the first takes the
/// earlier child.
pub open spec fn parts_at(p: Seq<int>, q: Seq<int>, k: int) -> bool {
    &&& 0 <= k < p.len()
    &&& k < q.len()
    &&& p.take(k) == q.take(k)
    &&& p[k] < q[k]
}

/// Whether each path leads to an element that stands before those of the paths
/// behind it.
pub open spec fn in_order(paths: Seq<Seq<int>>) -> bool {
    forall|i: int, j: int|
        0 <= i < j < paths.len() ==> stands_before(#[trigger] paths[i], #[trigger] paths[j])
}

/// Whether a path of at most ten steps leads from an element, without going
/// through a label, to a label.
pub open spec fn is_listed(n: AxNode, path: Seq<int>) -> bool {
    &&& is_path(n, path)
    &&& path.len() <= 10
    &&& forall|k: int|
        0 <= k < path.len() ==> element_at(n, #[trigger] path.take(k)).role@ != "AXStaticText"@
    &&& element_at(n, path).role@ == "AXStaticText"@
}

/// Whether these are all such paths, in the order of the labels.
pub open spec fn are_all_listed(n: AxNode, paths: Seq<Seq<int>>) -> bool {
    &&& in_order(paths)
    &&& forall|path: Seq<int>| #[trigger] paths.contains(path) <==> is_listed(n, path)
}

/// The element to which a path through windows leads; its first step says which
/// window.
pub open spec fn popup_at(windows: Seq<AxNode>, path: Seq<int>) -> AxNode {
    element_at(windows[path[0]], path.drop_first())
}

/// Whether a path leads from a window, in at most fourteen steps and without going
/// through a popup or a page, to a popup that is no page.
pub open spec fn leads_to_popup(windows: Seq<AxNode>, path: Seq<int>) -> bool {
    &&& path.len() > 0
    &&& 0 <= path[0] < windows.len()
    &&& is_path(windows[path[0]], path.drop_first())
    &&& path.len() <= 15
    &&& forall|k: int|
        0 <= k < path.drop_first().len() ==> {
            let between = element_at(windows[path[0]], #[trigger] path.drop_first().take(k));
            !is_popup_kind(between.role@, between.subrole@) && between.role@ != "AXWebArea"@
        }
    &&& is_popup_kind(popup_at(windows, path).role@, popup_at(windows, path).subrole@)
    &&& popup_at(windows, path).role@ != "AXWebArea"@
}

/// What is reached below an element is what is reached through its children.
proof fn lemma_reached_step(sought: Sought, n: AxNode, depth: nat, path: Seq<int>)
    requires
        path.len() > 0,
    ensures
        sought.is_reached(n, depth, path) <==> {
            &&& sought.is_open(n)
            &&& 0 <= path[0] < n.children@.len()
            &&& sought.is_reached(n.children@[path[0]], depth + 1, path.drop_first())
        },
{
    let rest = path.drop_first();
    let child = n.children@[path[0]];
    assert forall|k: int| 0 <= k < rest.len() implies element_at(child, #[trigger] rest.take(k))
        == element_at(n, path.take(k + 1)) by {
        assert(path.take(k + 1).drop_first() =~= rest.take(k));
    }
    assert(path.take(0) =~= Seq::empty());
    if sought.is_reached(n, depth, path) {
        assert(sought.is_open(element_at(n, path.take(0))));
        assert forall|k: int| 0 <= k < rest.len() implies sought.is_open(
            element_at(child, #[trigger] rest.take(k)),
        ) by {
            assert(sought.is_open(element_at(n, path.take(k + 1))));
        }
    }
    if sought.is_open(n) && 0 <= path[0] < n.children@.len() && sought.is_reached(
        child,
        depth + 1,
        rest,
    ) {
        assert forall|k: int| 0 <= k < path.len() implies sought.is_open(
            element_at(n, #[trigger] path.take(k)),
        ) by {
            if k > 0 {
                assert(element_at(child, rest.take(k - 1)) == element_at(n, path.take(k)));
            }
        }
    }
}

/// Of what stands in order, that which goes through one child stands in order.
proof fn lemma_step_keeps_order(child: int, p: Seq<int>, q: Seq<int>)
    requires
        stands_before(p, q),
    ensures
        stands_before(step(child, p), step(child, q)),
{
    let k = choose|k: int| #[trigger] parts_at(p, q, k);
    let a = step(child, p);
    let b = step(child, q);
    assert(a.take(k + 1) =~= step(child, p.take(k)));
    assert(b.take(k + 1) =~= step(child, q.take(k)));
    assert(parts_at(a, b, k + 1));
}

/// Whether a path goes through one of the elements to one that is reached.
pub open spec fn is_reached_in(sought: Sought, s: Seq<AxNode>, depth: nat, path: Seq<int>) -> bool {
    &&& path.len() > 0
    &&& 0 <= path[0] < s.len()
    &&& sought.is_reached(s[path[0]], depth, path.drop_first())
}

/// A walk finds exactly what can be reached, in the order in which it stands:
/// what it finds is what its paths lead to, its paths are those that reach what
/// is sought and no others, and they follow each other as the elements do.
pub proof fn law_walk_finds_all_in_order(sought: Sought, n: AxNode, depth: nat)
    ensures
        sought.found(n, depth).len() == sought.paths(n, depth).len(),
        forall|i: int|
            0 <= i < sought.paths(n, depth).len() ==> sought.is_reached(
                n,
                depth,
                #[trigger] sought.paths(n, depth)[i],
            ) && sought.found(n, depth)[i] == element_at(n, sought.paths(n, depth)[i]),
        forall|path: Seq<int>| #[trigger]
            sought.is_reached(n, depth, path) ==> sought.paths(n, depth).contains(path),
        forall|i: int, j: int|
            0 <= i < j < sought.paths(n, depth).len() ==> stands_before(
                #[trigger] sought.paths(n, depth)[i],
                #[trigger] sought.paths(n, depth)[j],
            ),
    decreases n,
{
    let paths = sought.paths(n, depth);
    if depth <= sought.limit() && sought.is_sought(n) {
        assert(paths[0] =~= Seq::empty());
        assert(sought.is_reached(n, depth, paths[0]));
        assert forall|path: Seq<int>| #[trigger] sought.is_reached(n, depth, path) implies paths.contains(
            path,
        ) by {
            if path.len() > 0 {
                lemma_reached_step(sought, n, depth, path);
            }
            assert(path =~= paths[0]);
        }
    } else if depth <= sought.limit() && sought.is_open(n) {
        lemma_walk_of_all(sought, n.children@, depth + 1);
        assert forall|i: int| 0 <= i < paths.len() implies sought.is_reached(
            n,
            depth,
            #[trigger] paths[i],
        ) && sought.found(n, depth)[i] == element_at(n, paths[i]) by {
            assert(is_reached_in(sought, n.children@, depth + 1, paths[i]));
            lemma_reached_step(sought, n, depth, paths[i]);
        }
        assert forall|path: Seq<int>| #[trigger] sought.is_reached(n, depth, path) implies paths.contains(
            path,
        ) by {
            if path.len() > 0 {
                lemma_reached_step(sought, n, depth, path);
                assert(is_reached_in(sought, n.children@, depth + 1, path));
            }
        }
    } else {
        assert forall|path: Seq<int>| !(#[trigger] sought.is_reached(n, depth, path)) by {
            if path.len() > 0 {
                lemma_reached_step(sought, n, depth, path);
            }
        }
    }
}

/// The same for the children of an element.
proof fn lemma_walk_of_all(sought: Sought, s: Seq<AxNode>, depth: nat)
    ensures
        sought.found_all(s, depth).len() == sought.paths_all(s, depth).len(),
        forall|i: int|
            0 <= i < sought.paths_all(s, depth).len() ==> is_reached_in(
                sought,
                s,
                depth,
                #[trigger] sought.paths_all(s, depth)[i],
            ) && sought.found_all(s, depth)[i] == element_at(
                s[sought.paths_all(s, depth)[i][0]],
                sought.paths_all(s, depth)[i].drop_first(),
            ),
        forall|path: Seq<int>| #[trigger]
            is_reached_in(sought, s, depth, path) ==> sought.paths_all(s, depth).contains(path),
        forall|i: int, j: int|
            0 <= i < j < sought.paths_all(s, depth).len() ==> stands_before(
                #[trigger] sought.paths_all(s, depth)[i],
                #[trigger] sought.paths_all(s, depth)[j],
            ),
    decreases s,
{
    if s.len() > 0 {
        let front = s.drop_last();
        let last = s.len() - 1;
        let a = sought.paths_all(front, depth);
        let inner = sought.paths(s.last(), depth);
        let b = through(last, inner);
        let paths = sought.paths_all(s, depth);
        lemma_walk_of_all(sought, front, depth);
        law_walk_finds_all_in_order(sought, s.last(), depth);
        assert(paths == a + b);
        assert forall|i: int| 0 <= i < paths.len() implies is_reached_in(
            sought,
            s,
            depth,
            #[trigger] paths[i],
        ) && sought.found_all(s, depth)[i] == element_at(s[paths[i][0]], paths[i].drop_first()) by {
            if i < a.len() {
                assert(paths[i] == a[i]);
                assert(is_reached_in(sought, front, depth, a[i]));
            } else {
                let k = i - a.len();
                assert(paths[i] == step(last, inner[k]));
                assert(paths[i].drop_first() =~= inner[k]);
                assert(sought.is_reached(s.last(), depth, inner[k]));
            }
        }
        assert forall|path: Seq<int>| #[trigger] is_reached_in(sought, s, depth, path) implies paths.contains(
            path,
        ) by {
            if path[0] < last {
                assert(front[path[0]] == s[path[0]]);
                assert(is_reached_in(sought, front, depth, path));
                let i = choose|i: int| 0 <= i < a.len() && a[i] == path;
                assert(paths[i] == path);
            } else {
                let rest = path.drop_first();
                assert(sought.is_reached(s.last(), depth, rest));
                let k = choose|k: int| 0 <= k < inner.len() && inner[k] == rest;
                assert(paths[a.len() + k] == step(last, rest));
                assert(step(last, rest) =~= path);
            }
        }
        assert forall|i: int, j: int| 0 <= i < j < paths.len() implies stands_before(
            #[trigger] paths[i],
            #[trigger] paths[j],
        ) by {
            if j < a.len() {
                assert(stands_before(a[i], a[j]));
            } else if i < a.len() {
                assert(is_reached_in(sought, front, depth, a[i]));
                assert(paths[j] == step(last, inner[j - a.len()]));
                assert(paths[i].take(0) =~= paths[j].take(0));
                assert(parts_at(paths[i], paths[j], 0));
            } else {
                assert(stands_before(inner[i - a.len()], inner[j - a.len()]));
                lemma_step_keeps_order(last, inner[i - a.len()], inner[j - a.len()]);
            }
        }
    }
}

/// The labels that are found below a popup are those to which the paths lead that
/// list them, in their order.
pub proof fn law_listed_labels_are_found(n: AxNode)
    ensures
        are_all_listed(n, Sought::Labels.paths(n, 0)),
        popup::labels_in(n, 0).len() == Sought::Labels.paths(n, 0).len(),
        forall|i: int|
            0 <= i < Sought::Labels.paths(n, 0).len() ==> #[trigger] popup::labels_in(n, 0)[i]
                == element_at(n, Sought::Labels.paths(n, 0)[i]),
{
    law_walk_finds_all_in_order(Sought::Labels, n, 0);
    let paths = Sought::Labels.paths(n, 0);
    assert forall|path: Seq<int>| #[trigger] paths.contains(path) <==> is_listed(n, path) by {
        assert(Sought::Labels.is_reached(n, 0, path) <==> is_listed(n, path));
        if paths.contains(path) {
            let i = choose|i: int| 0 <= i < paths.len() && paths[i] == path;
            assert(Sought::Labels.is_reached(n, 0, paths[i]));
        }
    }
    assert forall|i: int| 0 <= i < paths.len() implies #[trigger] popup::labels_in(n, 0)[i]
        == element_at(n, paths[i]) by {
        assert(Sought::Labels.is_reached(n, 0, paths[i]));
    }
}

/// The popups that are found in windows are exactly those to which a path leads
/// from a window, in at most fourteen steps below it and through no popup and no
/// page, in their order.
pub proof fn law_popups_of_windows_are_found(windows: Seq<AxNode>) -> (paths: Seq<Seq<int>>)
    ensures
        in_order(paths),
        forall|window: int, path: Seq<int>|
            #![trigger paths.contains(step(window, path))]
            paths.contains(step(window, path)) <==> {
                &&& 0 <= window < windows.len()
                &&& is_path(windows[window], path)
                &&& path.len() <= 14
                &&& forall|k: int|
                    0 <= k < path.len() ==> !element_at(
                        windows[window],
                        #[trigger] path.take(k),
                    ).is_popup() && !element_at(windows[window], path.take(k)).is_web_area()
                &&& element_at(windows[window], path).is_popup()
                &&& !element_at(windows[window], path).is_web_area()
            },
        !paths.contains(Seq::empty()),
        popup::popups_in_all(windows, 0).len() == paths.len(),
        forall|i: int|
            0 <= i < paths.len() ==> #[trigger] popup::popups_in_all(windows, 0)[i] == element_at(
                windows[paths[i][0]],
                paths[i].drop_first(),
            ),
{
    let paths = Sought::Popups.paths_all(windows, 0);
    law_open_popups_are_found(windows);
    assert forall|window: int, path: Seq<int>|
        #![trigger paths.contains(step(window, path))]
        paths.contains(step(window, path)) <==> {
            &&& 0 <= window < windows.len()
            &&& is_path(windows[window], path)
            &&& path.len() <= 14
            &&& forall|k: int|
                0 <= k < path.len() ==> !element_at(
                    windows[window],
                    #[trigger] path.take(k),
                ).is_popup() && !element_at(windows[window], path.take(k)).is_web_area()
            &&& element_at(windows[window], path).is_popup()
            &&& !element_at(windows[window], path).is_web_area()
        } by {
        let whole = step(window, path);
        assert(whole[0] == window);
        assert(whole.drop_first() =~= path);
        assert(paths.contains(whole) <==> leads_to_popup(windows, whole));
        if leads_to_popup(windows, whole) {
            assert forall|k: int| 0 <= k < path.len() implies !element_at(
                windows[window],
                #[trigger] path.take(k),
            ).is_popup() && !element_at(windows[window], path.take(k)).is_web_area() by {
                assert(whole.drop_first().take(k) == path.take(k));
            }
        }
    }
    assert(!leads_to_popup(windows, Seq::empty()));
    paths
}

/// The popups that are found in windows are those to which paths lead, in their
/// order.
pub proof fn law_open_popups_are_found(windows: Seq<AxNode>)
    ensures
        in_order(Sought::Popups.paths_all(windows, 0)),
        forall|path: Seq<int>| #[trigger]
            Sought::Popups.paths_all(windows, 0).contains(path) <==> leads_to_popup(windows, path),
        popup::popups_in_all(windows, 0).len() == Sought::Popups.paths_all(windows, 0).len(),
        forall|i: int|
            0 <= i < Sought::Popups.paths_all(windows, 0).len() ==> #[trigger] popup::popups_in_all(
                windows,
                0,
            )[i] == popup_at(windows, Sought::Popups.paths_all(windows, 0)[i]),
{
    lemma_walk_of_all(Sought::Popups, windows, 0);
    let paths = Sought::Popups.paths_all(windows, 0);
    assert forall|path: Seq<int>| #[trigger] paths.contains(path) <==> leads_to_popup(windows, path) by {
        assert(is_reached_in(Sought::Popups, windows, 0, path) <==> leads_to_popup(windows, path)) by {
            if is_reached_in(Sought::Popups, windows, 0, path) {
                let rest = path.drop_first();
                assert forall|k: int| 0 <= k < rest.len() implies {
                    let between = element_at(windows[path[0]], #[trigger] rest.take(k));
                    !is_popup_kind(between.role@, between.subrole@) && between.role@ != "AXWebArea"@
                } by {
                    assert(Sought::Popups.is_open(element_at(windows[path[0]], rest.take(k))));
                }
            }
        }
        if paths.contains(path) {
            let i = choose|i: int| 0 <= i < paths.len() && paths[i] == path;
            assert(is_reached_in(Sought::Popups, windows, 0, paths[i]));
        }
    }
    assert forall|i: int| 0 <= i < paths.len() implies #[trigger] popup::popups_in_all(windows, 0)[i]
        == popup_at(windows, paths[i]) by {
        assert(is_reached_in(Sought::Popups, windows, 0, paths[i]));
    }
}

/// Of two paths at most one leads to the element that stands first, and none to
/// one that stands before itself.
pub proof fn law_standing_before_is_an_order(p: Seq<int>, q: Seq<int>)
    ensures
        !(stands_before(p, q) && stands_before(q, p)),
        !stands_before(p, p),
{
    if stands_before(p, q) && stands_before(q, p) {
        let j = choose|j: int| #[trigger] parts_at(p, q, j);
        let k = choose|k: int| #[trigger] parts_at(q, p, k);
        if j < k {
            assert(p[j] == p.take(k)[j] && q[j] == q.take(k)[j]);
        } else if k < j {
            assert(p[k] == p.take(j)[k] && q[k] == q.take(j)[k]);
        }
    }
    if stands_before(p, p) {
        let k = choose|k: int| #[trigger] parts_at(p, p, k);
    }
}

/// Every popup within the limit that is outside pages and outside other popups is
/// found.
pub proof fn law_every_open_popup_is_found(n: AxNode, depth: nat, path: Seq<int>)
    requires
        is_path(n, path),
        depth + path.len() <= 14,
        forall|k: int|
            0 <= k < path.len() ==> !element_at(n, #[trigger] path.take(k)).is_popup()
                && !element_at(n, path.take(k)).is_web_area(),
        element_at(n, path).is_popup(),
        !element_at(n, path).is_web_area(),
    ensures
        popup::popups_in(n, depth).contains(element_at(n, path)),
{
    law_walk_finds_all_in_order(Sought::Popups, n, depth);
    let paths = Sought::Popups.paths(n, depth);
    assert(Sought::Popups.is_reached(n, depth, path));
    let i = choose|i: int| 0 <= i < paths.len() && paths[i] == path;
    assert(popup::popups_in(n, depth)[i] == element_at(n, paths[i]));
}

/// Every label within the limit that is outside other labels is found.
pub proof fn law_every_open_label_is_found(n: AxNode, depth: nat, path: Seq<int>)
    requires
        is_path(n, path),
        depth + path.len() <= 10,
        forall|k: int|
            0 <= k < path.len() ==> !element_at(n, #[trigger] path.take(k)).is_static_text(),
        element_at(n, path).is_static_text(),
    ensures
        popup::labels_in(n, depth).contains(element_at(n, path)),
{
    law_walk_finds_all_in_order(Sought::Labels, n, depth);
    let paths = Sought::Labels.paths(n, depth);
    assert(Sought::Labels.is_reached(n, depth, path));
    let i = choose|i: int| 0 <= i < paths.len() && paths[i] == path;
    assert(popup::labels_in(n, depth)[i] == element_at(n, paths[i]));
}

/// A walk that starts deeper never finds more: it finds exactly that part of what
/// the other finds which is not too far below the start.
pub proof fn law_deeper_start_adds_nothing(sought: Sought, n: AxNode, depth: nat, deeper: nat)
    requires
        depth <= deeper,
    ensures
        sought.found(n, deeper).len() <= sought.found(n, depth).len(),
        forall|found: AxNode| #[trigger]
            sought.found(n, deeper).contains(found) ==> sought.found(n, depth).contains(found),
        forall|path: Seq<int>| #[trigger]
            sought.paths(n, deeper).contains(path) <==> sought.paths(n, depth).contains(path)
                && deeper + path.len() <= sought.limit(),
{
    law_walk_finds_all_in_order(sought, n, depth);
    law_walk_finds_all_in_order(sought, n, deeper);
    let a = sought.paths(n, depth);
    let b = sought.paths(n, deeper);
    assert forall|path: Seq<int>| #[trigger] b.contains(path) <==> a.contains(path) && deeper
        + path.len() <= sought.limit() by {
        if b.contains(path) {
            let i = choose|i: int| 0 <= i < b.len() && b[i] == path;
            assert(sought.is_reached(n, deeper, b[i]));
            assert(sought.is_reached(n, depth, path));
        }
        if a.contains(path) && deeper + path.len() <= sought.limit() {
            let i = choose|i: int| 0 <= i < a.len() && a[i] == path;
            assert(sought.is_reached(n, depth, a[i]));
            assert(sought.is_reached(n, deeper, path));
        }
    }
    assert forall|found: AxNode| #[trigger] sought.found(n, deeper).contains(found) implies sought.found(
        n,
        depth,
    ).contains(found) by {
        let i = choose|i: int|
            0 <= i < sought.found(n, deeper).len() && sought.found(n, deeper)[i] == found;
        assert(b.contains(b[i]));
        let j = choose|j: int| 0 <= j < a.len() && a[j] == b[i];
        assert(sought.is_reached(n, deeper, b[i]));
        assert(sought.found(n, depth)[j] == element_at(n, a[j]));
        assert(sought.found(n, deeper)[i] == element_at(n, b[i]));
    }
    lemma_deeper_start(sought, n, depth, deeper);
}

/// A walk that starts deeper never finds more.
proof fn lemma_deeper_start(sought: Sought, n: AxNode, depth: nat, deeper: nat)
    requires
        depth <= deeper,
    ensures
        sought.found(n, deeper).len() <= sought.found(n, depth).len(),
    decreases n,
{
    lemma_deeper_start_of_all(sought, n.children@, depth + 1, deeper + 1);
}

/// The same for each of a sequence of elements.
proof fn lemma_deeper_start_of_all(sought: Sought, s: Seq<AxNode>, depth: nat, deeper: nat)
    requires
        depth <= deeper,
    ensures
        sought.found_all(s, deeper).len() <= sought.found_all(s, depth).len(),
    decreases s,
{
    if s.len() > 0 {
        lemma_deeper_start_of_all(sought, s.drop_last(), depth, deeper);
        lemma_deeper_start(sought, s.last(), depth, deeper);
    }
}

} // verus!

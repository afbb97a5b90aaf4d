//! The decisions of the accessibility (AT-SPI) query.
//!
//! Naming the element under the cursor walks the accessibility tree over
//! D-Bus: the applications, their top-level frames, then from a frame down
//! to the deepest element at the point. The bus calls are the caller's part;
//! what the answers mean (which objects are real, when the descent ends,
//! which node names an element, where a button's centre lies) is decided
//! here.

use vstd::prelude::*;
use vstd::string::StringExecFns;
use crate::platform::Element;
use crate::text::{contains_str, occurs_in};

verus! {

/// The object path AT-SPI uses for "no object".
pub const NULL_PATH: &'static str = "/org/a11y/atspi/null";

/// How many levels a descent goes down at most before it stops.
pub const MAX_DESCENT: u32 = 40;

/// How deep the search for a named button looks.
pub const MAX_BUTTON_DEPTH: u32 = 25;

/// A reference to an accessible object: the owning bus name and the object path.
#[derive(Debug)]
pub struct AccessibleRef {
    pub bus: String,
    pub path: String,
}

/// Whether two references name the same object.
pub open spec fn same_ref(a: AccessibleRef, b: AccessibleRef) -> bool {
    a.bus@ == b.bus@ && a.path@ == b.path@
}

/// Whether a (bus name, path) answer names an object: neither is empty and
/// the path is not the null path.
pub open spec fn names_object(bus: Seq<char>, path: Seq<char>) -> bool {
    bus.len() > 0 && path.len() > 0 && path != NULL_PATH@
}

/// The object that a "which accessible is at this point" answer names, if any.
pub fn accessible_at(bus: String, path: String) -> (res: Option<AccessibleRef>)
    ensures
        res is Some <==> names_object(bus@, path@),
        res matches Some(r) ==> r.bus == bus && r.path == path,
{
    let null = String::from_str(NULL_PATH);
    if bus.as_str().is_empty() || path.as_str().is_empty() || path == null {
        None
    } else {
        Some(AccessibleRef { bus, path })
    }
}

/// The children in a `GetChildren` answer that are real objects, in order:
/// those whose path is not the null path.
pub open spec fn live_children(list: Seq<(String, String)>) -> Seq<AccessibleRef>
    decreases list.len(),
{
    if list.len() == 0 {
        Seq::empty()
    } else {
        let prev = live_children(list.drop_last());
        let (bus, path) = list.last();
        if path@ != NULL_PATH@ {
            prev.push(AccessibleRef { bus, path })
        } else {
            prev
        }
    }
}

/// Keeps the children of a `GetChildren` answer that are real objects.
pub fn children_of(list: &Vec<(String, String)>) -> (res: Vec<AccessibleRef>)
    ensures
        res@ == live_children(list@),
{
    let null = String::from_str(NULL_PATH);
    let n: usize = list.len();
    let mut out: Vec<AccessibleRef> = Vec::new();
    assert(list@.take(0) =~= Seq::<(String, String)>::empty());
    for i in 0..n
        invariant
            n == list@.len(),
            null@ == NULL_PATH@,
            out@ == live_children(list@.take(i as int)),
    {
        assert(list@.take(i + 1).drop_last() =~= list@.take(i as int));
        assert(list@.take(i + 1).last() == list@[i as int]);
        let bus = list[i].0.clone();
        let path = list[i].1.clone();
        if !(path == null) {
            out.push(AccessibleRef { bus, path });
        }
    }
    assert(list@.take(n as int) =~= list@);
    out
}

// ---------------------------------------------------------------------------
// Descending to the deepest element at a point
// ---------------------------------------------------------------------------

/// How far a descent from a window frame towards the deepest element at a
/// point has come: the object reached and the number of levels gone down.
#[derive(Debug)]
pub struct Descent {
    pub cur: AccessibleRef,
    pub steps: u32,
}

/// One answer of the descent: the child at the point, if any. A child other
/// than the current object is entered; the descent ends when there is none,
/// when the object names itself, or after going down more than
/// [`MAX_DESCENT`] levels. The flag says whether it ended.
pub open spec fn descent_next(d: Descent, child: Option<AccessibleRef>) -> (Descent, bool) {
    match child {
        Some(c) => if same_ref(c, d.cur) {
            (d, true)
        } else {
            let steps = (d.steps + 1) as u32;
            (Descent { cur: c, steps }, steps > MAX_DESCENT)
        },
        None => (d, true),
    }
}

/// Feeds answers to a descent until it ends or the answers run out.
pub open spec fn descend_all(d: Descent, answers: Seq<Option<AccessibleRef>>) -> (Descent, bool)
    decreases answers.len(),
{
    if answers.len() == 0 {
        (d, false)
    } else {
        let (next, done) = descent_next(d, answers[0]);
        if done {
            (next, true)
        } else {
            descend_all(next, answers.drop_first())
        }
    }
}

/// What a finished descent found: nothing when it never left the frame
/// (the point lies outside this window), otherwise the object reached.
pub open spec fn descent_result(d: Descent) -> Option<AccessibleRef> {
    if d.steps == 0 {
        None
    } else {
        Some(d.cur)
    }
}

impl Descent {
    /// A descent starting at a window frame.
    pub fn new(frame: AccessibleRef) -> (res: Descent)
        ensures
            res.cur == frame,
            res.steps == 0,
    {
        Descent { cur: frame, steps: 0 }
    }

    /// Takes the answer for the current object; returns whether the descent
    /// has ended.
    pub fn advance(&mut self, child: Option<AccessibleRef>) -> (done: bool)
        requires
            old(self).steps <= MAX_DESCENT,
        ensures
            (*final(self), done) == descent_next(*old(self), child),
    {
        match child {
            Some(c) => {
                if c.bus == self.cur.bus && c.path == self.cur.path {
                    true
                } else {
                    self.cur = c;
                    self.steps = self.steps + 1;
                    self.steps > MAX_DESCENT
                }
            },
            None => true,
        }
    }

    /// The deepest object found, if the descent left the frame at all.
    pub fn result(self) -> (res: Option<AccessibleRef>)
        ensures
            res == descent_result(self),
    {
        if self.steps == 0 {
            None
        } else {
            Some(self.cur)
        }
    }
}

/// Law: a descent that has not yet gone down more than [`MAX_DESCENT`]
/// levels ends after at most `MAX_DESCENT + 1 - steps` more answers,
/// whatever they are; and it never goes deeper than `MAX_DESCENT + 1`.
pub proof fn law_descent_ends(d: Descent, answers: Seq<Option<AccessibleRef>>)
    requires
        d.steps <= MAX_DESCENT,
        answers.len() > MAX_DESCENT - d.steps,
    ensures
        descend_all(d, answers).1,
        descend_all(d, answers).0.steps <= MAX_DESCENT + 1,
    decreases answers.len(),
{
    let (next, done) = descent_next(d, answers[0]);
    if !done {
        law_descent_ends(next, answers.drop_first());
    }
}

// ---------------------------------------------------------------------------
// Elements and buttons
// ---------------------------------------------------------------------------

/// The element that a node with this name and role stands for: none when
/// both are empty.
pub fn element_from_node(name: String, role: String) -> (res: Option<Element>)
    ensures
        res is Some <==> (name@.len() > 0 || role@.len() > 0),
        res matches Some(e) ==> e.name == name && e.role == role,
{
    if name.as_str().is_empty() && role.as_str().is_empty() {
        None
    } else {
        Some(Element { name, role })
    }
}

/// The element that the node a descent reached stands for: none when the
/// descent reached nothing or the node has neither name nor role.
pub open spec fn node_element(node: Option<(String, String)>) -> Option<Element> {
    match node {
        Some((name, role)) => if name@.len() > 0 || role@.len() > 0 {
            Some(Element { name, role })
        } else {
            None
        },
        None => None,
    }
}

/// The element that a search over frames finds: that of the first frame, in
/// order, whose node stands for one.
pub open spec fn first_element(nodes: Seq<Option<(String, String)>>) -> Option<Element>
    decreases nodes.len(),
{
    if nodes.len() == 0 {
        None
    } else {
        match node_element(nodes[0]) {
            Some(e) => Some(e),
            None => first_element(nodes.drop_first()),
        }
    }
}

/// The search for the clicked element over the top-level frames of every
/// application, in order: the first frame whose descent reaches a node with
/// a name or a role gives the element, and the search stops there.
#[derive(Debug)]
pub struct ElementSearch {
    pub found: Option<Element>,
}

impl ElementSearch {
    /// A search that has found nothing yet.
    pub fn new() -> (res: ElementSearch)
        ensures
            res.found is None,
    {
        ElementSearch { found: None }
    }

    /// Takes the node that the descent from the next frame reached (its
    /// name and role), if it reached one; returns whether the search is over.
    pub fn offer(&mut self, node: Option<(String, String)>) -> (done: bool)
        requires
            old(self).found is None,
        ensures
            final(self).found == node_element(node),
            done == node_element(node) is Some,
    {
        match node {
            Some((name, role)) => {
                self.found = element_from_node(name, role);
                self.found.is_some()
            },
            None => false,
        }
    }

    /// The element found, if any.
    pub fn result(self) -> (res: Option<Element>)
        ensures
            res == self.found,
    {
        self.found
    }
}

/// Law: offering the frames' nodes in order until the search is over finds
/// exactly the first element among them: a search that has not stopped
/// before node `i` and stops there holds `first_element` of all the nodes
/// up to and including `i`.
pub proof fn law_search_finds_first(nodes: Seq<Option<(String, String)>>, i: int)
    requires
        0 <= i < nodes.len(),
        forall|j: int| 0 <= j < i ==> (#[trigger] node_element(nodes[j])) is None,
    ensures
        first_element(nodes) == match node_element(nodes[i]) {
            Some(e) => Some(e),
            None => first_element(nodes.subrange(i + 1, nodes.len() as int)),
        },
    decreases i,
{
    if i > 0 {
        let rest = nodes.drop_first();
        assert(node_element(nodes[0]) is None);
        assert forall|j: int| 0 <= j < i - 1 implies (#[trigger] node_element(rest[j])) is None by {
            assert(rest[j] == nodes[j + 1]);
            assert(node_element(nodes[j + 1]) is None);
        }
        assert(rest[i - 1] == nodes[i]);
        law_search_finds_first(rest, i - 1);
        assert(rest.subrange(i, rest.len() as int) =~= nodes.subrange(i + 1, nodes.len() as int));
    } else {
        assert(nodes.drop_first() =~= nodes.subrange(1, nodes.len() as int));
    }
}

/// Whether a node is a button with a name: its role mentions "button" and
/// its name is not empty.
pub fn is_named_button(role: &str, name: &str) -> (res: bool)
    ensures
        res == (occurs_in(role@, "button"@) && name@.len() > 0),
{
    contains_str(role, "button") && !name.is_empty()
}

/// The centre of a node's extents `(x, y, width, height)`, when the extents
/// are known and not empty.
pub open spec fn extents_centre(extents: Option<(i32, i32, i32, i32)>) -> Option<(int, int)> {
    match extents {
        Some((x, y, w, h)) => if w > 0 && h > 0 {
            Some((x + w / 2, y + h / 2))
        } else {
            None
        },
        None => None,
    }
}

/// The centre of a node's extents, in screen coordinates.
pub fn button_centre(extents: Option<(i32, i32, i32, i32)>) -> (res: Option<(i32, i32)>)
    requires
        extents_centre(extents) matches Some((cx, cy)) ==> cx <= i32::MAX && cy <= i32::MAX,
    ensures
        match (res, extents_centre(extents)) {
            (Some((x, y)), Some((cx, cy))) => x == cx && y == cy,
            (None, None) => true,
            _ => false,
        },
{
    match extents {
        Some((x, y, w, h)) => {
            if w > 0 && h > 0 {
                Some((x + w / 2, y + h / 2))
            } else {
                None
            }
        },
        None => None,
    }
}

/// One line of the tree dump: two spaces per level, the role in brackets,
/// the quoted name and the bus name.
pub open spec fn dump_line_text(depth: nat, role: Seq<char>, name: Seq<char>, bus: Seq<char>) -> Seq<char> {
    Seq::new(2 * depth, |i: int| ' ') + "["@ + role + "] “"@ + name + "”  ("@ + bus + ")"@
}

/// Formats one line of the tree dump.
pub fn dump_line(depth: u32, role: &str, name: &str, bus: &str) -> (res: String)
    ensures
        res@ == dump_line_text(depth as nat, role@, name@, bus@),
{
    let mut out = String::new();
    let mut k: u32 = 0;
    while k < depth
        invariant
            k <= depth,
            out@ =~= Seq::new(2 * k as nat, |i: int| ' '),
        decreases depth - k,
    {
        out.append("  ");
        proof {
            reveal_strlit("  ");
        }
        k = k + 1;
    }
    out.append("[");
    out.append(role);
    out.append("] “");
    out.append(name);
    out.append("”  (");
    out.append(bus);
    out.append(")");
    out
}

/// Whether ending a session switches accessibility off again: only when it
/// was known to be off before the session switched it on.
pub open spec fn switches_off(prev_enabled: Option<bool>) -> bool {
    prev_enabled == Some(false)
}

/// Whether accessibility is on after a session: the session switched it on
/// (`enable`), and ending it switches it off when [`switches_off`] says so.
pub open spec fn enabled_after_session(prev_enabled: Option<bool>) -> bool {
    !switches_off(prev_enabled)
}

/// Law: a session leaves accessibility as it found it whenever the earlier
/// state could be read; it is on only while recording unless it was on
/// before.
pub proof fn law_session_restores_accessibility(prev_enabled: Option<bool>)
    ensures
        prev_enabled matches Some(b) ==> enabled_after_session(prev_enabled) == b,
        prev_enabled is None ==> enabled_after_session(prev_enabled),
{
}

/// Whether ending a session has to switch accessibility off again.
pub fn restore_needed(prev_enabled: Option<bool>) -> (res: bool)
    ensures
        res == switches_off(prev_enabled),
{
    match prev_enabled {
        Some(false) => true,
        _ => false,
    }
}

} // verus!

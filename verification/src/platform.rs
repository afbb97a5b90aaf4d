//! Platform abstraction.
//!
//! The OS-specific work (capturing clicks, finding the cursor, naming the
//! element under it) sits behind these traits; each OS provides one backend.
//! The shared data types and the element description live here.

use vstd::prelude::*;
use crate::i18n::{Strings, table, Lang};
use crate::model::Click;
use crate::text::{chars_of, string_of, trim, trim_chars};

verus! {

/// std's `mpsc::Sender`, the sending half of the channel over which clicks
/// are delivered; declared so that [`ClickSource::start`] can take one. It is
/// only passed through: nothing here looks inside it.
#[verifier::external_type_specification]
#[verifier::external_body]
#[verifier::reject_recursive_types(T)]
pub struct ExSender<T>(std::sync::mpsc::Sender<T>);

/// Global cursor position and frame rect of the active window (screen coords).
#[derive(Debug, Clone, Copy, PartialEq, Eq, Structural)]
pub struct CursorInfo {
    pub x: i32,
    pub y: i32,
    pub frame_x: i32,
    pub frame_y: i32,
    pub frame_w: i32,
    pub frame_h: i32,
}

/// A detected UI element (name + role), e.g. button “Save”.
#[derive(Debug, Clone)]
pub struct Element {
    pub name: String,
    pub role: String,
}

/// The description of an element: trimmed role and name as `role “name”`,
/// the role alone, the quoted name alone, or the table's generic word when
/// both are blank.
pub open spec fn element_description(t: Strings, role: Seq<char>, name: Seq<char>) -> Seq<char> {
    let r = trim(role);
    let n = trim(name);
    if r.len() > 0 && n.len() > 0 {
        r + seq![' ', '\u{201c}'] + n + seq!['\u{201d}']
    } else if r.len() > 0 {
        r
    } else if n.len() > 0 {
        seq!['\u{201c}'] + n + seq!['\u{201d}']
    } else {
        t.element_generic@
    }
}

impl Element {
    /// Description like “button ‘Save’” or just “text field”.
    pub fn describe(&self, t: &Strings) -> (res: String)
        ensures
            res@ == element_description(*t, self.role@, self.name@),
    {
        let r = trim_chars(&chars_of(self.role.as_str()));
        let n = trim_chars(&chars_of(self.name.as_str()));
        if r.len() > 0 && n.len() > 0 {
            let mut out: Vec<char> = Vec::new();
            let mut i: usize = 0;
            while i < r.len()
                invariant
                    i <= r@.len(),
                    out@ =~= r@.take(i as int),
                decreases r@.len() - i,
            {
                out.push(r[i]);
                i = i + 1;
            }
            out.push(' ');
            out.push('\u{201c}');
            let mut j: usize = 0;
            let ghost head = out@;
            while j < n.len()
                invariant
                    j <= n@.len(),
                    out@ =~= head + n@.take(j as int),
                decreases n@.len() - j,
            {
                out.push(n[j]);
                j = j + 1;
            }
            out.push('\u{201d}');
            assert(r@.take(r@.len() as int) =~= r@);
            assert(n@.take(n@.len() as int) =~= n@);
            assert(out@ =~= r@ + seq![' ', '\u{201c}'] + n@ + seq!['\u{201d}']);
            string_of(&out)
        } else if r.len() > 0 {
            string_of(&r)
        } else if n.len() > 0 {
            let mut out: Vec<char> = Vec::new();
            out.push('\u{201c}');
            let mut j: usize = 0;
            while j < n.len()
                invariant
                    j <= n@.len(),
                    out@ =~= seq!['\u{201c}'] + n@.take(j as int),
                decreases n@.len() - j,
            {
                out.push(n[j]);
                j = j + 1;
            }
            out.push('\u{201d}');
            assert(n@.take(n@.len() as int) =~= n@);
            string_of(&out)
        } else {
            String::from_str(t.element_generic)
        }
    }
}

/// A source of global clicks. Reports every button press over the channel.
pub trait ClickSource {
    /// Starts capturing. Clicks are delivered asynchronously over `tx`; an
    /// error carries a human-readable reason.
    fn start(&self, tx: std::sync::mpsc::Sender<Click>) -> Result<(), String>;
}

/// Backend that reports the global cursor position and active-window geometry.
pub trait CursorTracker {
    fn fetch(&self) -> Option<CursorInfo>;
}

/// Backend that names the UI element at a screen coordinate.
///
/// `enable`/`restore` bracket a recording session: on Linux they toggle the
/// accessibility bridge; where element lookup is always available they do
/// nothing.
pub trait ElementResolver {
    fn enable(&mut self);

    fn restore(&self);

    fn element_at(&self, x: i32, y: i32) -> Option<Element>;
}

/// The description of the element that a resolver found, if it found one.
pub fn describe_found(found: Option<Element>, t: &Strings) -> (res: Option<String>)
    ensures
        found is None ==> res is None,
        found matches Some(e) ==> res matches Some(d) && d@ == element_description(
            *t,
            e.role@,
            e.name@,
        ),
{
    match found {
        Some(e) => Some(e.describe(t)),
        None => None,
    }
}

/// Where the resolver is asked for the clicked element: at the cursor
/// position, when a resolver is available and the cursor position is known;
/// nowhere otherwise (the step then has no element). The resolver's answer is
/// described by [`describe_found`].
pub fn element_query(has_resolver: bool, cursor: Option<CursorInfo>) -> (res: Option<(i32, i32)>)
    ensures
        res == match cursor {
            Some(c) => if has_resolver {
                Some((c.x, c.y))
            } else {
                None
            },
            None => None,
        },
{
    match cursor {
        Some(c) => {
            if has_resolver {
                Some((c.x, c.y))
            } else {
                None
            }
        },
        None => None,
    }
}

/// Law: with a shipped string table an element description is never empty.
pub proof fn law_element_description_nonempty(lang: Lang, role: Seq<char>, name: Seq<char>)
    ensures
        element_description(table(lang), role, name).len() > 0,
{
    reveal_strlit("element");
    reveal_strlit("Element");
}

} // verus!

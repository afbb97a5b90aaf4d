//! Platform-neutral data types for a recorded session and the description
//! of each recorded step.

use vstd::prelude::*;
use vstd::string::StringExecFns;
use crate::i18n::Strings;
use crate::text::{
    chars_of, decimal, digits_value, lemma_decimal_digits, lemma_digits_value_append, pow10,
    push_chars, replace, replace_str, string_of, usize_to_decimal, all_digits, is_digit,
};

verus! {

/// Which mouse button triggered the step.
#[derive(Debug, Clone, Copy, PartialEq, Eq, Structural)]
pub enum Button {
    Left,
    Right,
    Middle,
}

/// The button that an evdev key code names: BTN_LEFT=272, BTN_RIGHT=273,
/// BTN_MIDDLE=274; no button for any other code.
pub open spec fn button_for_code(code: u16) -> Option<Button> {
    if code == 272 {
        Some(Button::Left)
    } else if code == 273 {
        Some(Button::Right)
    } else if code == 274 {
        Some(Button::Middle)
    } else {
        None
    }
}

/// The label of a button in a string table.
pub open spec fn button_label(t: Strings, b: Button) -> &'static str {
    match b {
        Button::Left => t.click_left,
        Button::Right => t.click_right,
        Button::Middle => t.click_middle,
    }
}

impl Button {
    /// Maps an evdev key code to a button.
    pub fn from_evdev_code(code: u16) -> (res: Option<Button>)
        ensures
            res == button_for_code(code),
    {
        match code {
            272 => Some(Button::Left),
            273 => Some(Button::Right),
            274 => Some(Button::Middle),
            _ => None,
        }
    }

    /// Human-readable label used in the description.
    pub fn label(self, t: &Strings) -> (res: &'static str)
        ensures
            res == button_label(*t, self),
    {
        match self {
            Button::Left => t.click_left,
            Button::Right => t.click_right,
            Button::Middle => t.click_middle,
        }
    }
}

/// A click reported by the input backend (no screenshot yet).
#[derive(Debug, Clone, Copy)]
pub struct Click {
    pub button: Button,
}

/// A fully captured step: click + screenshot + context.
#[derive(Debug, Clone)]
pub struct Step {
    /// 1-based step number within the session.
    pub index: usize,
    pub button: Button,
    /// Capture timestamp, preformatted (HH:MM:SS).
    pub time: String,
    /// File name (relative to the session folder) of the screenshot.
    pub image_file: String,
    /// Window title, if the capture backend could resolve it.
    pub window_title: Option<String>,
    /// Description of the clicked UI element, if available.
    pub element: Option<String>,
}

/// What was done: the button label, placed into `action_on` together with
/// the element when a non-empty element description is known.
pub open spec fn action_text(t: Strings, button: Button, element: Option<Seq<char>>) -> Seq<char> {
    let label = button_label(t, button)@;
    match element {
        Some(el) => if el.len() > 0 {
            replace(replace(t.action_on@, "{action}"@, label), "{element}"@, el)
        } else {
            label
        },
        None => label,
    }
}

/// One-line description of a step: the action placed into `in_window`
/// together with the window title when a non-empty title is known, otherwise
/// into `in_active_window`.
pub open spec fn step_description(
    t: Strings,
    button: Button,
    element: Option<Seq<char>>,
    title: Option<Seq<char>>,
) -> Seq<char> {
    let action = action_text(t, button, element);
    match title {
        Some(ti) => if ti.len() > 0 {
            replace(replace(t.in_window@, "{action}"@, action), "{title}"@, ti)
        } else {
            replace(t.in_active_window@, "{action}"@, action)
        },
        None => replace(t.in_active_window@, "{action}"@, action),
    }
}

impl Step {
    /// One-line description of what happened in this step.
    pub fn describe(&self, t: &Strings) -> (res: String)
        ensures
            res@ == step_description(
                *t,
                self.button,
                self.element.deep_view(),
                self.window_title.deep_view(),
            ),
    {
        let label = self.button.label(t);
        let action: String = match &self.element {
            Some(el) => {
                if el.as_str().is_empty() {
                    String::from_str(label)
                } else {
                    let a = replace_str(t.action_on, "{action}", label);
                    replace_str(a.as_str(), "{element}", el.as_str())
                }
            },
            None => String::from_str(label),
        };
        match &self.window_title {
            Some(title) => {
                if title.as_str().is_empty() {
                    replace_str(t.in_active_window, "{action}", action.as_str())
                } else {
                    let w = replace_str(t.in_window, "{action}", action.as_str());
                    replace_str(w.as_str(), "{title}", title.as_str())
                }
            },
            None => replace_str(t.in_active_window, "{action}", action.as_str()),
        }
    }
}

/// `s` with zeros in front, up to at least `width` characters.
pub open spec fn zero_pad(s: Seq<char>, width: nat) -> Seq<char> {
    if s.len() >= width {
        s
    } else {
        Seq::new((width - s.len()) as nat, |i: int| '0') + s
    }
}

/// The screenshot file name of a step: `step-` and the index in at least
/// three digits, then `.png` (`step-007.png`, `step-1234.png`).
pub open spec fn step_image_name(index: nat) -> Seq<char> {
    "step-"@ + zero_pad(decimal(index), 3) + ".png"@
}

/// File name of the screenshot of step `index`.
pub fn step_image_file(index: usize) -> (res: String)
    ensures
        res@ == step_image_name(index as nat),
{
    let digits = usize_to_decimal(index);
    let mut out = String::from_str("step-");
    let mut padded: Vec<char> = Vec::new();
    let mut k: usize = digits.len();
    while k < 3
        invariant
            digits.len() <= k <= 3 || (k == digits.len() && k >= 3),
            padded@ == Seq::new((k - digits@.len()) as nat, |i: int| '0'),
        decreases 3 - k,
    {
        padded.push('0');
        assert(padded@ =~= Seq::new((k + 1 - digits@.len()) as nat, |i: int| '0'));
        k = k + 1;
    }
    push_chars(&mut out, &padded);
    push_chars(&mut out, &digits);
    out.append(".png");
    proof {
        if digits@.len() >= 3 {
            assert(padded@ =~= Seq::<char>::empty());
        }
        assert(out@ =~= "step-"@ + zero_pad(decimal(index as nat), 3) + ".png"@);
    }
    out
}

impl Step {
    /// The step captured as number `index`: its screenshot is stored under
    /// [`step_image_file`]`(index)`.
    pub fn captured(
        index: usize,
        button: Button,
        time: String,
        window_title: Option<String>,
        element: Option<String>,
    ) -> (res: Step)
        ensures
            res.index == index,
            res.button == button,
            res.time == time,
            res.image_file@ == step_image_name(index as nat),
            res.window_title == window_title,
            res.element == element,
    {
        let image_file = step_image_file(index);
        Step { index, button, time, image_file, window_title, element }
    }
}

/// The number that a zero-padded decimal denotes is the number itself.
proof fn lemma_zero_pad_value(n: nat, width: nat)
    ensures
        all_digits(zero_pad(decimal(n), width)),
        digits_value(zero_pad(decimal(n), width)) == n,
{
    lemma_decimal_digits(n);
    let d = decimal(n);
    if d.len() < width {
        let z = Seq::new((width - d.len()) as nat, |i: int| '0');
        lemma_digits_value_append(z, d);
        lemma_zeros_value(z);
        assert(0 * pow10(d.len()) == 0);
        assert forall|i: int| 0 <= i < (z + d).len() implies is_digit(#[trigger] (z + d)[i]) by {
            if i >= z.len() {
                assert((z + d)[i] == d[i - z.len()]);
            }
        }
    }
}

/// A run of zeros denotes zero.
proof fn lemma_zeros_value(z: Seq<char>)
    requires
        forall|i: int| 0 <= i < z.len() ==> z[i] == '0',
    ensures
        digits_value(z) == 0,
    decreases z.len(),
{
    if z.len() > 0 {
        lemma_zeros_value(z.drop_last());
        assert(z.last() == z[z.len() - 1]);
    }
}

/// Law: different steps get different screenshot files, so no screenshot of
/// a session overwrites another.
pub proof fn law_step_image_names_distinct(a: nat, b: nat)
    requires
        a != b,
    ensures
        step_image_name(a) != step_image_name(b),
{
    let pa = zero_pad(decimal(a), 3);
    let pb = zero_pad(decimal(b), 3);
    lemma_zero_pad_value(a, 3);
    lemma_zero_pad_value(b, 3);
    if step_image_name(a) == step_image_name(b) {
        let sa = step_image_name(a);
        let pre = "step-"@;
        let suf = ".png"@;
        assert(sa.len() == pre.len() + pa.len() + suf.len());
        assert(pa.len() == pb.len());
        assert(pa =~= sa.subrange(pre.len() as int, (pre.len() + pa.len()) as int));
        assert(pb =~= step_image_name(b).subrange(pre.len() as int, (pre.len() + pb.len()) as int));
    }
}

} // verus!

//! Debug and self-test modes, chosen once at startup from the environment.
//!
//! The caller reports which of the variables `STEPSHOT_ICON`,
//! `STEPSHOT_ATTREE`, `STEPSHOT_ATDUMP` and `STEPSHOT_ONESHOT` are set (and
//! the value of `STEPSHOT_ATTREE`); the first set one, in that order, selects
//! the mode.

use vstd::prelude::*;
use crate::text::{all_digits, char_to_digit, chars_of, digits_value, is_digit};

verus! {

/// The mode a run is in.
#[derive(Debug, Clone, Copy, PartialEq, Eq, Structural)]
pub enum TestMode {
    /// Render the tray icons to files and exit.
    Icon,
    /// Print the accessibility tree down to `depth` levels and exit.
    AtTree { depth: u32 },
    /// Find the first named button, query the element there, and exit.
    AtDump,
    /// Capture a single step, write its report, and exit.
    Oneshot,
    /// No test mode: run the tray application.
    Normal,
}

/// `u32::from_str`: an optional `+`, then one or more decimal digits, and a
/// value that fits in `u32`.
pub open spec fn parse_u32(s: Seq<char>) -> Option<u32> {
    let body = if s.len() > 0 && s[0] == '+' {
        s.drop_first()
    } else {
        s
    };
    if body.len() == 0 || !all_digits(body) || digits_value(body) > u32::MAX {
        None
    } else {
        Some(digits_value(body) as u32)
    }
}

/// The tree depth: the variable's value when it is a number, 3 otherwise.
pub open spec fn tree_depth(value: Option<Seq<char>>) -> u32 {
    match value {
        Some(v) => match parse_u32(v) {
            Some(d) => d,
            None => 3,
        },
        None => 3,
    }
}

/// The mode that the variables select.
pub open spec fn selected_mode(
    icon: bool,
    attree: bool,
    attree_value: Option<Seq<char>>,
    atdump: bool,
    oneshot: bool,
) -> TestMode {
    if icon {
        TestMode::Icon
    } else if attree {
        TestMode::AtTree { depth: tree_depth(attree_value) }
    } else if atdump {
        TestMode::AtDump
    } else if oneshot {
        TestMode::Oneshot
    } else {
        TestMode::Normal
    }
}

/// A larger prefix of digits never has a smaller value.
proof fn lemma_prefix_value(s: Seq<char>, k: int)
    requires
        0 <= k <= s.len(),
        all_digits(s),
    ensures
        digits_value(s) >= digits_value(s.take(k)),
    decreases s.len() - k,
{
    if k < s.len() {
        lemma_prefix_value(s, k + 1);
        let t = s.take(k + 1);
        assert(t.drop_last() =~= s.take(k));
        assert(is_digit(s[k]));
        assert(t.last() == s[k]);
    } else {
        assert(s.take(k) =~= s);
    }
}

/// `u32::from_str` on characters.
pub fn parse_u32_chars(s: &Vec<char>) -> (res: Option<u32>)
    ensures
        res == parse_u32(s@),
{
    let n: usize = s.len();
    let start: usize = if n > 0 && s[0] == '+' {
        1
    } else {
        0
    };
    let ghost body = if s@.len() > 0 && s@[0] == '+' {
        s@.drop_first()
    } else {
        s@
    };
    assert(body =~= s@.subrange(start as int, n as int));
    if start >= n {
        return None;
    }
    let mut acc: u64 = 0;
    let mut i: usize = start;
    while i < n
        invariant
            n == s@.len(),
            start <= i <= n,
            body == s@.subrange(start as int, n as int),
            body == (if s@.len() > 0 && s@[0] == '+' {
                s@.drop_first()
            } else {
                s@
            }),
            body.len() > 0,
            all_digits(body.take(i - start)),
            acc == digits_value(body.take(i - start)),
            acc <= u32::MAX,
        decreases n - i,
    {
        let c = s[i];
        if !('0' <= c && c <= '9') {
            assert(body[i - start] == c);
            assert(!is_digit(body[i - start]));
            return None;
        }
        let d = char_to_digit(c);
        let ghost pre = body.take(i - start);
        let ghost next = body.take(i + 1 - start);
        assert(next.drop_last() =~= pre);
        assert(next.last() == c);
        assert(all_digits(next)) by {
            assert forall|k: int| 0 <= k < next.len() implies is_digit(#[trigger] next[k]) by {
                if k < pre.len() {
                    assert(next[k] == pre[k]);
                }
            }
        }
        assert(digits_value(next) == digits_value(pre) * 10 + crate::text::digit_value(c));
        acc = acc * 10 + d as u64;
        if acc > 4294967295 {
            proof {
                if all_digits(body) {
                    lemma_prefix_value(body, i + 1 - start);
                }
            }
            return None;
        }
        i = i + 1;
    }
    assert(body.take(n - start) =~= body);
    Some(acc as u32)
}

/// Chooses the mode from which variables are set and the value of
/// `STEPSHOT_ATTREE` (`None` when unset or not valid text).
pub fn select_test_mode(
    icon: bool,
    attree: bool,
    attree_value: Option<String>,
    atdump: bool,
    oneshot: bool,
) -> (res: TestMode)
    ensures
        res == selected_mode(icon, attree, attree_value.deep_view(), atdump, oneshot),
{
    if icon {
        TestMode::Icon
    } else if attree {
        let depth: u32 = match attree_value {
            Some(v) => match parse_u32_chars(&chars_of(v.as_str())) {
                Some(d) => d,
                None => 3,
            },
            None => 3,
        };
        TestMode::AtTree { depth }
    } else if atdump {
        TestMode::AtDump
    } else if oneshot {
        TestMode::Oneshot
    } else {
        TestMode::Normal
    }
}

} // verus!

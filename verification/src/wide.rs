//! UTF-16 text for the Windows tray: NUL-terminated buffers and fixed-size
//! fields.

use vstd::prelude::*;
use vstd::slice::SliceAdditionalExecFns;
use crate::text::chars_of;

verus! {

/// The UTF-16 code units of one character: one unit below U+10000,
/// otherwise a surrogate pair.
pub open spec fn utf16_units(c: char) -> Seq<u16> {
    let v = (c as u32) as int;
    if v < 0x10000 {
        seq![v as u16]
    } else {
        let u = v - 0x10000;
        seq![(0xd800 + u / 1024) as u16, (0xdc00 + u % 1024) as u16]
    }
}

/// `str::encode_utf16`: the code units of every character, in order.
pub open spec fn utf16(s: Seq<char>) -> Seq<u16>
    decreases s.len(),
{
    if s.len() == 0 {
        Seq::empty()
    } else {
        utf16(s.drop_last()) + utf16_units(s.last())
    }
}

/// The UTF-16 encoding of a string.
fn encode_utf16(s: &str) -> (res: Vec<u16>)
    ensures
        res@ == utf16(s@),
{
    let cs = chars_of(s);
    let n: usize = cs.len();
    let mut out: Vec<u16> = Vec::new();
    assert(cs@.take(0) =~= Seq::<char>::empty());
    for i in 0..n
        invariant
            n == cs@.len(),
            cs@ == s@,
            out@ == utf16(cs@.take(i as int)),
    {
        let c = cs[i];
        assert(cs@.take(i + 1).drop_last() =~= cs@.take(i as int));
        assert(cs@.take(i + 1).last() == c);
        let v: u32 = c as u32;
        let ghost before = out@;
        if v < 0x10000 {
            out.push(v as u16);
        } else {
            let u: u32 = v - 0x10000;
            out.push((0xd800 + u / 1024) as u16);
            out.push((0xdc00 + u % 1024) as u16);
        }
        assert(out@ =~= before + utf16_units(c));
    }
    assert(cs@.take(n as int) =~= cs@);
    out
}

/// A NUL-terminated UTF-16 buffer of `s`.
pub fn wide(s: &str) -> (res: Vec<u16>)
    ensures
        res@ == utf16(s@).push(0),
{
    let mut v = encode_utf16(s);
    v.push(0);
    v
}

/// The contents of a `len`-unit field after copying `s` into it: the first
/// `len - 1` code units of `s` at most, zeros after them.
pub open spec fn wide_field(len: nat, s: Seq<char>) -> Seq<u16> {
    let units = utf16(s);
    let max: int = if len > 0 {
        len - 1
    } else {
        0
    };
    let k: int = if units.len() < max {
        units.len() as int
    } else {
        max
    };
    Seq::new(len, |i: int| if i < k { units[i] } else { 0u16 })
}

/// Copies `s` (truncated, NUL-terminated) into a fixed-size UTF-16 field.
pub fn put_wide(dst: &mut [u16], s: &str)
    ensures
        final(dst)@ == wide_field(old(dst)@.len(), s@),
{
    let units = encode_utf16(s);
    let n: usize = dst.len();
    let max: usize = if n > 0 {
        n - 1
    } else {
        0
    };
    let k: usize = if units.len() < max {
        units.len()
    } else {
        max
    };
    let ghost want = wide_field(old(dst)@.len(), s@);
    for i in 0..n
        invariant
            n == dst@.len(),
            n == old(dst)@.len(),
            units@ == utf16(s@),
            k <= units@.len(),
            k == (if units@.len() < max {
                units@.len() as usize
            } else {
                max
            }),
            max == (if n > 0 {
                n - 1
            } else {
                0
            }),
            want == wide_field(n as nat, s@),
            forall|j: int| 0 <= j < i ==> dst@[j] == want[j],
    {
        if i < k {
            dst[i] = units[i];
        } else {
            dst[i] = 0;
        }
    }
    assert(dst@ =~= want);
}

/// Law: a field of at least one unit always ends with a NUL, however long
/// the text.
pub proof fn law_wide_field_terminated(len: nat, s: Seq<char>)
    requires
        len > 0,
    ensures
        wide_field(len, s)[len - 1] == 0u16,
        wide_field(len, s).len() == len,
{
}

} // verus!

//! Pixel layout of the tray icon.
//!
//! The icon is drawn as RGBA; the tray protocol wants ARGB32 in network byte
//! order. Drawing it is the caller's part.

use vstd::prelude::*;

verus! {

/// The bytes after moving each whole pixel's alpha to the front:
/// `[r, g, b, a]` becomes `[a, r, g, b]`; trailing bytes that do not form
/// a whole pixel stay as they are.
pub open spec fn argb_bytes(data: Seq<u8>) -> Seq<u8> {
    let whole = data.len() - data.len() % 4;
    Seq::new(
        data.len(),
        |i: int|
            if i < whole {
                if i % 4 == 0 {
                    data[i + 3]
                } else {
                    data[i - 1]
                }
            } else {
                data[i]
            },
    )
}

/// Reorders RGBA pixel bytes into ARGB.
pub fn argb_from_rgba(data: &mut Vec<u8>)
    ensures
        final(data)@ == argb_bytes(old(data)@),
{
    let n: usize = data.len();
    let whole: usize = n - n % 4;
    let ghost start = data@;
    let mut k: usize = 0;
    while k < whole
        invariant
            n == data@.len(),
            n == start.len(),
            whole == n - n % 4,
            k % 4 == 0,
            k <= whole,
            forall|i: int| 0 <= i < k ==> #[trigger] data@[i] == argb_bytes(start)[i],
            forall|i: int| k <= i < n ==> #[trigger] data@[i] == start[i],
        decreases whole - k,
    {
        let r = data[k];
        let g = data[k + 1];
        let b = data[k + 2];
        let a = data[k + 3];
        data.set(k, a);
        data.set(k + 1, r);
        data.set(k + 2, g);
        data.set(k + 3, b);
        assert((k + 1) % 4 == 1 && (k + 2) % 4 == 2 && (k + 3) % 4 == 3);
        k = k + 4;
    }
    assert(data@ =~= argb_bytes(start));
}

} // verus!

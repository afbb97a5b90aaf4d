//! The decisions of the Windows backend: the tray's popup menu and the
//! conversion of a printed window into an image.
//!
//! The popup menu identifies its entries by number; the chosen number is
//! mapped back to a command. A window is printed into a top-down 32-bit BGRA
//! buffer, which becomes an opaque RGBA canvas. The Win32 calls themselves
//! are the caller's part.

use vstd::prelude::*;
use vstd::string::StringExecFns;
use crate::canvas::Canvas;
use crate::i18n::Strings;
use crate::tray::Cmd;

verus! {

/// Menu number of "start recording".
pub const ID_START: usize = 1;

/// Menu number of "stop recording".
pub const ID_STOP: usize = 2;

/// Menu number of "open last report folder".
pub const ID_OPEN: usize = 3;

/// Menu number of "quit".
pub const ID_QUIT: usize = 4;

/// The command a menu number stands for.
pub open spec fn command_for(id: usize) -> Option<Cmd> {
    if id == ID_START {
        Some(Cmd::Start)
    } else if id == ID_STOP {
        Some(Cmd::Stop)
    } else if id == ID_OPEN {
        Some(Cmd::OpenFolder)
    } else if id == ID_QUIT {
        Some(Cmd::Quit)
    } else {
        None
    }
}

/// The command of the chosen menu entry; none when the menu was dismissed
/// (number 0) or the number is unknown.
pub fn menu_command(id: usize) -> (res: Option<Cmd>)
    ensures
        res == command_for(id),
{
    if id == ID_START {
        Some(Cmd::Start)
    } else if id == ID_STOP {
        Some(Cmd::Stop)
    } else if id == ID_OPEN {
        Some(Cmd::OpenFolder)
    } else if id == ID_QUIT {
        Some(Cmd::Quit)
    } else {
        None
    }
}

/// Whether a popup entry is a text entry with this number and label.
pub open spec fn is_entry(e: Option<(usize, String)>, id: usize, label: Seq<char>) -> bool {
    match e {
        Some((i, l)) => i == id && l@ == label,
        None => false,
    }
}

/// The popup menu's entries in order: the start/stop toggle, "open last
/// report folder", a separator (`None`), and "quit".
pub fn win_menu_items(t: &Strings, recording: bool) -> (res: Vec<Option<(usize, String)>>)
    ensures
        res@.len() == 4,
        recording ==> is_entry(res@[0], ID_STOP, t.menu_stop@),
        !recording ==> is_entry(res@[0], ID_START, t.menu_start@),
        is_entry(res@[1], ID_OPEN, t.menu_open_folder@),
        res@[2] is None,
        is_entry(res@[3], ID_QUIT, t.menu_quit@),
{
    let toggle = if recording {
        (ID_STOP, String::from_str(t.menu_stop))
    } else {
        (ID_START, String::from_str(t.menu_start))
    };
    let mut v: Vec<Option<(usize, String)>> = Vec::new();
    v.push(Some(toggle));
    v.push(Some((ID_OPEN, String::from_str(t.menu_open_folder))));
    v.push(None);
    v.push(Some((ID_QUIT, String::from_str(t.menu_quit))));
    v
}

/// The size of the image of a window with this frame (left, top, right,
/// bottom): width and height, each at least one pixel.
pub open spec fn extent_of(left: int, top: int, right: int, bottom: int) -> (int, int) {
    (
        if right - left > 1 {
            right - left
        } else {
            1
        },
        if bottom - top > 1 {
            bottom - top
        } else {
            1
        },
    )
}

/// The image size of a window frame.
pub fn window_extent(left: i32, top: i32, right: i32, bottom: i32) -> (res: (i32, i32))
    requires
        i32::MIN <= right - left <= i32::MAX,
        i32::MIN <= bottom - top <= i32::MAX,
    ensures
        (res.0 as int, res.1 as int) == extent_of(left as int, top as int, right as int, bottom as int),
{
    let w = right - left;
    let h = bottom - top;
    (if w > 1 { w } else { 1 }, if h > 1 { h } else { 1 })
}

/// The opaque RGBA pixel of BGRA bytes starting at `o`.
pub open spec fn bgra_pixel(buf: Seq<u8>, o: int) -> [u8; 4] {
    [buf[o + 2], buf[o + 1], buf[o], 255]
}

/// A top-down BGRA buffer of a `width` × `height` window as an opaque RGBA
/// canvas (many windows report alpha 0, so alpha is set to 255); none when
/// the buffer is shorter than `width * height * 4` bytes.
pub fn canvas_from_bgra(width: u32, height: u32, buf: &[u8]) -> (res: Option<Canvas>)
    requires
        (width as int) * (height as int) * 4 <= usize::MAX,
    ensures
        res is Some <==> buf@.len() >= (width as int) * (height as int) * 4,
        res matches Some(c) ==> c.wf() && c.width_of() == width && c.height_of() == height && (
        forall|k: int|
            0 <= k < (width as int) * (height as int) ==> #[trigger] c.pixels_of()[k] == bgra_pixel(
                buf@,
                4 * k,
            )),
{
    let n: usize = (width as usize) * (height as usize);
    if buf.len() < n * 4 {
        return None;
    }
    let mut pixels: Vec<[u8; 4]> = Vec::new();
    let mut k: usize = 0;
    while k < n
        invariant
            n == (width as int) * (height as int),
            n * 4 <= buf@.len(),
            n * 4 <= usize::MAX,
            k <= n,
            pixels@.len() == k,
            forall|j: int| 0 <= j < k ==> #[trigger] pixels@[j] == bgra_pixel(buf@, 4 * j),
        decreases n - k,
    {
        let o: usize = 4 * k;
        pixels.push([buf[o + 2], buf[o + 1], buf[o], 255]);
        k = k + 1;
    }
    Canvas::from_pixels(width, height, pixels)
}

} // verus!

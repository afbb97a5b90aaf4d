//! Decoding a window screenshot as the compositor delivers it.
//!
//! The compositor writes the raw image into a pipe and answers with a
//! dictionary (`width`, `height`, `stride`, `format`, ...). The pipe bytes
//! are usually `QImage::Format_ARGB32_Premultiplied` (format 6): in memory,
//! little-endian, B, G, R, A with premultiplied alpha. Decoding swaps B and R
//! and undoes the premultiplication so shadows and rounded corners stay clean.

use vstd::prelude::*;
use crate::canvas::{Canvas, pixel_at};

verus! {

/// Why a raw screenshot could not be decoded.
#[derive(Debug, Clone, Copy, PartialEq, Eq, Structural)]
pub enum DecodeError {
    /// Width or height is zero.
    InvalidSize { width: u32, height: u32 },
    /// A row is shorter than `width * 4` bytes.
    StrideTooSmall { stride: usize, row_bytes: usize },
    /// Fewer bytes than `stride * height`.
    NotEnoughData { have: usize, need: usize },
}

/// Whether a QImage format number is one of the premultiplied ARGB formats.
pub open spec fn is_premultiplied(format: i64) -> bool {
    format == 6 || format == 7
}

/// Undoing premultiplication of one channel by alpha `a` (rounded, at most 255).
pub open spec fn unpremultiply(c: int, a: int) -> int {
    let v = (c * 255 + a / 2) / a;
    if v > 255 {
        255
    } else {
        v
    }
}

/// The RGBA pixel at column `x` and row `y` of a raw BGRA buffer.
pub open spec fn decoded_pixel(raw: Seq<u8>, stride: int, x: int, y: int, premultiplied: bool) -> [u8; 4] {
    let o = y * stride + x * 4;
    let b = raw[o];
    let g = raw[o + 1];
    let r = raw[o + 2];
    let a = raw[o + 3];
    if premultiplied && 0 < a && a < 255 {
        [
            unpremultiply(r as int, a as int) as u8,
            unpremultiply(g as int, a as int) as u8,
            unpremultiply(b as int, a as int) as u8,
            a,
        ]
    } else {
        [r, g, b, a]
    }
}

/// The error that a raw buffer's size gives, if any, checked in order:
/// size, stride, amount of data.
pub open spec fn decode_error(raw_len: int, width: u32, height: u32, stride: usize) -> Option<DecodeError> {
    if width == 0 || height == 0 {
        Some(DecodeError::InvalidSize { width, height })
    } else if (stride as int) < (width as int) * 4 {
        Some(DecodeError::StrideTooSmall { stride, row_bytes: ((width as int) * 4) as usize })
    } else if raw_len < (stride as int) * (height as int) {
        Some(
            DecodeError::NotEnoughData {
                have: raw_len as usize,
                need: ((stride as int) * (height as int)) as usize,
            },
        )
    } else {
        None
    }
}

fn unpremultiply_channel(c: u8, a: u8) -> (res: u8)
    requires
        0 < a,
    ensures
        res == unpremultiply(c as int, a as int),
{
    let v: u16 = (c as u16 * 255 + a as u16 / 2) / a as u16;
    if v > 255 {
        255
    } else {
        v as u8
    }
}

/// Where a pixel's bytes start, and that all four lie inside the buffer.
proof fn lemma_pixel_offset(x: int, y: int, w: int, h: int, stride: int)
    requires
        0 <= x < w,
        0 <= y < h,
        w * 4 <= stride,
    ensures
        0 <= y * stride + x * 4,
        y * stride + x * 4 + 3 < h * stride,
{
    assert(0 <= y * stride) by (nonlinear_arith)
        requires
            0 <= y,
            0 <= w * 4 <= stride,
    ;
    assert(y * stride + stride <= h * stride) by (nonlinear_arith)
        requires
            0 <= y < h,
            0 <= stride,
    ;
}

/// Row-major positions: the pixel after (x, y) in a `w`-wide image.
proof fn lemma_row_major_before(w: int, x: int, y: int, xx: int, yy: int)
    requires
        0 <= xx < w,
        0 <= x <= w,
        0 <= yy <= y,
        yy < y || xx < x,
    ensures
        0 <= yy * w + xx < y * w + x,
{
    assert(0 <= yy * w + xx < y * w + x) by (nonlinear_arith)
        requires
            0 <= xx < w,
            0 <= x <= w,
            0 <= yy <= y,
            yy < y || xx < x,
    ;
}

/// Converts a raw BGRA buffer (`stride` bytes per row) into an RGBA canvas.
pub fn decode_qimage(raw: &[u8], width: u32, height: u32, stride: usize, format: i64) -> (res:
    Result<Canvas, DecodeError>)
    requires
        (width as int) * 4 <= usize::MAX,
        (stride as int) * (height as int) <= usize::MAX,
    ensures
        decode_error(raw@.len() as int, width, height, stride) matches Some(e) ==> res == Err::<
            Canvas,
            DecodeError,
        >(e),
        decode_error(raw@.len() as int, width, height, stride) is None ==> res is Ok,
        res matches Ok(c) ==> {
            &&& c.wf()
            &&& c.width_of() == width
            &&& c.height_of() == height
            &&& forall|x: int, y: int|
                0 <= x < width && 0 <= y < height ==> #[trigger] pixel_at(
                    c.pixels_of(),
                    width as int,
                    x,
                    y,
                ) == decoded_pixel(raw@, stride as int, x, y, is_premultiplied(format))
        },
{
    if width == 0 || height == 0 {
        return Err(DecodeError::InvalidSize { width, height });
    }
    let row_bytes: usize = width as usize * 4;
    if stride < row_bytes {
        return Err(DecodeError::StrideTooSmall { stride, row_bytes });
    }
    let need: usize = stride * height as usize;
    if raw.len() < need {
        return Err(DecodeError::NotEnoughData { have: raw.len(), need });
    }
    let premultiplied: bool = format == 6 || format == 7;
    let ghost w = width as int;
    let ghost h = height as int;
    let ghost st = stride as int;
    let mut pixels: Vec<[u8; 4]> = Vec::new();
    let mut y: usize = 0;
    assert(raw@.len() == raw.len());
    while y < height as usize
        invariant
            w == width,
            h == height,
            st == stride,
            w > 0,
            h > 0,
            w * 4 <= st,
            st * h <= raw@.len(),
            raw@.len() <= usize::MAX,
            premultiplied == is_premultiplied(format),
            0 <= y <= h,
            pixels@.len() == y * w,
            forall|xx: int, yy: int|
                0 <= xx < w && 0 <= yy < y ==> #[trigger] pixel_at(pixels@, w, xx, yy)
                    == decoded_pixel(raw@, st, xx, yy, premultiplied),
        decreases h - y,
    {
        let mut x: usize = 0;
        while x < width as usize
            invariant
                w == width,
                h == height,
                st == stride,
                w > 0,
                w * 4 <= st,
                st * h <= raw@.len(),
                raw@.len() <= usize::MAX,
                premultiplied == is_premultiplied(format),
                0 <= y < h,
                0 <= x <= w,
                pixels@.len() == y * w + x,
                forall|xx: int, yy: int|
                    0 <= xx < w && 0 <= yy <= y && (yy < y || xx < x) ==> #[trigger] pixel_at(
                        pixels@,
                        w,
                        xx,
                        yy,
                    ) == decoded_pixel(raw@, st, xx, yy, premultiplied),
            decreases w - x,
        {
            proof {
                lemma_pixel_offset(x as int, y as int, w, h, st);
            }
            let o: usize = y * stride + x * 4;
            let b: u8 = raw[o];
            let g: u8 = raw[o + 1];
            let r: u8 = raw[o + 2];
            let a: u8 = raw[o + 3];
            let px: [u8; 4] = if premultiplied && a > 0 && a < 255 {
                [unpremultiply_channel(r, a), unpremultiply_channel(g, a), unpremultiply_channel(b, a), a]
            } else {
                [r, g, b, a]
            };
            let ghost before = pixels@;
            pixels.push(px);
            proof {
                assert forall|xx: int, yy: int|
                    0 <= xx < w && 0 <= yy <= y && (yy < y || xx < x + 1) implies #[trigger] pixel_at(
                    pixels@,
                    w,
                    xx,
                    yy,
                ) == decoded_pixel(raw@, st, xx, yy, premultiplied) by {
                    if yy == y && xx == x {
                        assert(yy * w + xx == before.len());
                    } else {
                        lemma_row_major_before(w, x as int, y as int, xx, yy);
                        assert(pixel_at(before, w, xx, yy) == decoded_pixel(
                            raw@,
                            st,
                            xx,
                            yy,
                            premultiplied,
                        ));
                    }
                }
            }
            x = x + 1;
        }
        proof {
            assert(pixels@.len() == (y + 1) * w) by (nonlinear_arith)
                requires
                    pixels@.len() == y * w + w,
            ;
        }
        y = y + 1;
    }
    assert(pixels@.len() == w * h) by (nonlinear_arith)
        requires
            pixels@.len() == y * w,
            y == h,
    ;
    match Canvas::from_pixels(width, height, pixels) {
        Some(c) => Ok(c),
        None => {
            proof {
                assert(false);
            }
            Err(DecodeError::InvalidSize { width, height })
        },
    }
}

// ---------------------------------------------------------------------------
// The compositor's reply
// ---------------------------------------------------------------------------

/// A value of the reply dictionary, as far as decoding reads it. A reply is
/// held as its (key, value) entries; coming from a dictionary, no key occurs
/// twice in it ([`distinct_keys`]).
#[derive(Debug)]
pub enum ReplyValue {
    U8(u8),
    I16(i16),
    U16(u16),
    I32(i32),
    U32(u32),
    I64(i64),
    U64(u64),
    Str(String),
    /// Any other kind of value.
    Other,
}

/// The first value stored under `key`.
pub open spec fn lookup(entries: Seq<(String, ReplyValue)>, key: Seq<char>) -> Option<ReplyValue>
    decreases entries.len(),
{
    if entries.len() == 0 {
        None
    } else if entries[0].0@ == key {
        Some(entries[0].1)
    } else {
        lookup(entries.drop_first(), key)
    }
}

/// Whether no key occurs twice, as in the dictionary the compositor sends.
pub open spec fn distinct_keys(entries: Seq<(String, ReplyValue)>) -> bool {
    forall|i: int, j: int|
        0 <= i < j < entries.len() ==> (#[trigger] entries[i]).0@ != (#[trigger] entries[j]).0@
}

/// Law: in a reply without repeated keys (a dictionary, whatever order its
/// entries come in), looking a key up finds exactly the entry stored under it.
pub proof fn law_lookup_finds_the_entry(entries: Seq<(String, ReplyValue)>, i: int)
    requires
        distinct_keys(entries),
        0 <= i < entries.len(),
    ensures
        lookup(entries, entries[i].0@) == Some(entries[i].1),
    decreases i,
{
    if i > 0 {
        let rest = entries.drop_first();
        assert(entries[0].0@ != entries[i].0@);
        assert(distinct_keys(rest)) by {
            assert forall|a: int, b: int| 0 <= a < b < rest.len() implies (#[trigger] rest[a]).0@
                != (#[trigger] rest[b]).0@ by {
                assert(rest[a] == entries[a + 1] && rest[b] == entries[b + 1]);
            }
        }
        assert(rest[i - 1] == entries[i]);
        law_lookup_finds_the_entry(rest, i - 1);
    }
}

/// An integer value widened to `i64` (a `u64` taken modulo 2^64).
pub open spec fn as_i64(v: ReplyValue) -> Option<i64> {
    match v {
        ReplyValue::U8(n) => Some(n as i64),
        ReplyValue::I16(n) => Some(n as i64),
        ReplyValue::U16(n) => Some(n as i64),
        ReplyValue::I32(n) => Some(n as i64),
        ReplyValue::U32(n) => Some(n as i64),
        ReplyValue::I64(n) => Some(n),
        ReplyValue::U64(n) => Some(n as i64),
        _ => None,
    }
}

/// The integer stored under `key`, if there is one.
pub open spec fn reply_i64(entries: Seq<(String, ReplyValue)>, key: Seq<char>) -> Option<i64> {
    match lookup(entries, key) {
        Some(v) => as_i64(v),
        None => None,
    }
}

/// The text stored under `key`, if there is one.
pub open spec fn reply_string(entries: Seq<(String, ReplyValue)>, key: Seq<char>) -> Option<Seq<char>> {
    match lookup(entries, key) {
        Some(ReplyValue::Str(s)) => Some(s@),
        _ => None,
    }
}

fn find<'a>(map: &'a Vec<(String, ReplyValue)>, key: &str) -> (res: Option<&'a ReplyValue>)
    ensures
        match res {
            Some(v) => lookup(map@, key@) == Some(*v),
            None => lookup(map@, key@) is None,
        },
{
    let n: usize = map.len();
    let mut i: usize = 0;
    assert(map@.subrange(0, n as int) =~= map@);
    while i < n
        invariant
            n == map@.len(),
            i <= n,
            lookup(map@, key@) == lookup(map@.subrange(i as int, n as int), key@),
        decreases n - i,
    {
        let ghost sub = map@.subrange(i as int, n as int);
        assert(sub.drop_first() =~= map@.subrange(i + 1, n as int));
        let k = crate::text::chars_of(map[i].0.as_str());
        let kk = crate::text::chars_of(key);
        if vec_chars_eq(&k, &kk) {
            return Some(&map[i].1);
        }
        i = i + 1;
    }
    None
}

fn vec_chars_eq(a: &Vec<char>, b: &Vec<char>) -> (res: bool)
    ensures
        res == (a@ == b@),
{
    if a.len() != b.len() {
        return false;
    }
    let n: usize = a.len();
    for i in 0..n
        invariant
            n == a@.len() == b@.len(),
            forall|k: int| 0 <= k < i ==> a@[k] == b@[k],
    {
        if a[i] != b[i] {
            return false;
        }
    }
    assert(a@ =~= b@);
    true
}

/// Pulls an integer out of the reply dictionary (the compositor mixes
/// 32- and 64-bit, signed and unsigned integers).
pub fn get_i64(map: &Vec<(String, ReplyValue)>, key: &str) -> (res: Option<i64>)
    ensures
        res == reply_i64(map@, key@),
{
    match find(map, key) {
        Some(v) => match v {
            ReplyValue::U8(n) => Some(*n as i64),
            ReplyValue::I16(n) => Some(*n as i64),
            ReplyValue::U16(n) => Some(*n as i64),
            ReplyValue::I32(n) => Some(*n as i64),
            ReplyValue::U32(n) => Some(*n as i64),
            ReplyValue::I64(n) => Some(*n),
            ReplyValue::U64(n) => Some(*n as i64),
            _ => None,
        },
        None => None,
    }
}

/// Pulls a text out of the reply dictionary.
pub fn get_string(map: &Vec<(String, ReplyValue)>, key: &str) -> (res: Option<String>)
    ensures
        res.deep_view() == reply_string(map@, key@),
{
    match find(map, key) {
        Some(v) => match v {
            ReplyValue::Str(s) => Some(String::from_str(s.as_str())),
            _ => None,
        },
        None => None,
    }
}

/// The window title from a window's caption: none when the caption is
/// missing or empty.
pub fn caption_title(caption: Option<String>) -> (res: Option<String>)
    ensures
        match caption {
            Some(c) => if c@.len() > 0 {
                res == Some(c)
            } else {
                res is None
            },
            None => res is None,
        },
{
    match caption {
        Some(c) => {
            if c.as_str().is_empty() {
                None
            } else {
                Some(c)
            }
        },
        None => None,
    }
}

/// Why a screenshot reply could not be turned into an image.
#[derive(Debug, Clone, Copy, PartialEq, Eq, Structural)]
pub enum CaptureError {
    /// No `width` entry.
    NoWidth,
    /// No `height` entry.
    NoHeight,
    /// No `stride` entry.
    NoStride,
    /// The pixel data does not fit the announced geometry.
    Decode(DecodeError),
}

/// The geometry that a reply announces: width, height (each taken modulo
/// 2^32), stride (modulo the word size) and format (6 when absent).
pub open spec fn reply_geometry(entries: Seq<(String, ReplyValue)>) -> Result<
    (u32, u32, usize, i64),
    CaptureError,
> {
    match reply_i64(entries, "width"@) {
        None => Err(CaptureError::NoWidth),
        Some(w) => match reply_i64(entries, "height"@) {
            None => Err(CaptureError::NoHeight),
            Some(h) => match reply_i64(entries, "stride"@) {
                None => Err(CaptureError::NoStride),
                Some(s) => Ok(
                    (
                        w as u32,
                        h as u32,
                        s as usize,
                        match reply_i64(entries, "format"@) {
                            Some(f) => f,
                            None => 6,
                        },
                    ),
                ),
            },
        },
    }
}

/// Reads the geometry of a screenshot reply.
pub fn screenshot_geometry(results: &Vec<(String, ReplyValue)>) -> (res: Result<
    (u32, u32, usize, i64),
    CaptureError,
>)
    ensures
        res == reply_geometry(results@),
{
    let width: u32 = match get_i64(results, "width") {
        Some(w) => w as u32,
        None => {
            return Err(CaptureError::NoWidth);
        },
    };
    let height: u32 = match get_i64(results, "height") {
        Some(h) => h as u32,
        None => {
            return Err(CaptureError::NoHeight);
        },
    };
    let stride: usize = match get_i64(results, "stride") {
        Some(s) => s as usize,
        None => {
            return Err(CaptureError::NoStride);
        },
    };
    let format: i64 = match get_i64(results, "format") {
        Some(f) => f,
        None => 6,
    };
    Ok((width, height, stride, format))
}

/// Turns a screenshot reply and the bytes read from the pipe into an image:
/// the geometry from the reply, then the decoded pixels.
pub fn image_from_reply(results: &Vec<(String, ReplyValue)>, raw: &[u8]) -> (res: Result<
    Canvas,
    CaptureError,
>)
    requires
        reply_geometry(results@) matches Ok((w, h, s, f)) ==> (w as int) * 4 <= usize::MAX && (
        s as int) * (h as int) <= usize::MAX,
    ensures
        reply_geometry(results@) matches Err(e) ==> res == Err::<Canvas, CaptureError>(e),
        reply_geometry(results@) matches Ok((w, h, s, f)) ==> match decode_error(
            raw@.len() as int,
            w,
            h,
            s,
        ) {
            Some(e) => res == Err::<Canvas, CaptureError>(CaptureError::Decode(e)),
            None => res matches Ok(c) && c.wf() && c.width_of() == w && c.height_of() == h && (
            forall|x: int, y: int|
                0 <= x < w && 0 <= y < h ==> #[trigger] pixel_at(c.pixels_of(), w as int, x, y)
                    == decoded_pixel(raw@, s as int, x, y, is_premultiplied(f))),
        },
{
    let (width, height, stride, format) = match screenshot_geometry(results) {
        Ok(g) => g,
        Err(e) => {
            return Err(e);
        },
    };
    match decode_qimage(raw, width, height, stride, format) {
        Ok(c) => Ok(c),
        Err(e) => Err(CaptureError::Decode(e)),
    }
}

/// Law: a decoded pixel takes red from byte 2, green from byte 1, blue from
/// byte 0 and alpha from byte 3 of the pixel's four bytes (at `y * stride +
/// x * 4`). Opaque and fully transparent pixels, and every pixel of a
/// format without premultiplied alpha, keep these values as they are; a
/// premultiplied pixel with `0 < a < 255` has each colour channel `c`
/// scaled back to `(c * 255 + a / 2) / a`, at most 255.
pub proof fn law_decoded_channels(raw: Seq<u8>, stride: int, x: int, y: int, premultiplied: bool)
    requires
        0 <= y * stride + x * 4,
        y * stride + x * 4 + 3 < raw.len(),
    ensures
        ({
            let o = y * stride + x * 4;
            let (b, g, r, a) = (raw[o] as int, raw[o + 1] as int, raw[o + 2] as int, raw[o + 3]
                as int);
            let p = decoded_pixel(raw, stride, x, y, premultiplied);
            &&& p[3] as int == a
            &&& (!premultiplied || a == 0 || a == 255) ==> (p[0] as int == r && p[1] as int == g
                && p[2] as int == b)
            &&& (premultiplied && 0 < a < 255) ==> {
                &&& p[0] as int == (if (r * 255 + a / 2) / a > 255 {
                    255
                } else {
                    (r * 255 + a / 2) / a
                })
                &&& p[1] as int == (if (g * 255 + a / 2) / a > 255 {
                    255
                } else {
                    (g * 255 + a / 2) / a
                })
                &&& p[2] as int == (if (b * 255 + a / 2) / a > 255 {
                    255
                } else {
                    (b * 255 + a / 2) / a
                })
            }
        }),
{
    let o = y * stride + x * 4;
    let (b, g, r, a) = (raw[o] as int, raw[o + 1] as int, raw[o + 2] as int, raw[o + 3] as int);
    if premultiplied && 0 < a < 255 {
        assert(0 <= (r * 255 + a / 2) / a) by (nonlinear_arith)
            requires
                0 <= r,
                0 < a,
        ;
        assert(0 <= (g * 255 + a / 2) / a) by (nonlinear_arith)
            requires
                0 <= g,
                0 < a,
        ;
        assert(0 <= (b * 255 + a / 2) / a) by (nonlinear_arith)
            requires
                0 <= b,
                0 < a,
        ;
    }
}

} // verus!

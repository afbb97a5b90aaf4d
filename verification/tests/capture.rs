use stepshot::capture::caption_title;
use stepshot::canvas::Canvas;
use stepshot::capture::{
    decode_qimage, get_i64, get_string, image_from_reply, screenshot_geometry, CaptureError,
    DecodeError, ReplyValue,
};

fn pixels(c: &Canvas) -> Vec<[u8; 4]> {
    let mut out = Vec::new();
    for y in 0..c.height() {
        for x in 0..c.width() {
            out.push(c.get_pixel(x, y));
        }
    }
    out
}

#[test]
fn decode_swaps_channels_and_unpremultiplies() {
    let raw = [
        10, 20, 30, 255, // opaque: B,G,R,A -> R,G,B,A
        64, 64, 64, 128, // half transparent, premultiplied
        5, 6, 7, 0, // fully transparent: left as is
    ];
    let c = match decode_qimage(&raw, 3, 1, 12, 6) {
        Ok(c) => c,
        Err(e) => panic!("decode failed: {e:?}"),
    };
    assert_eq!((c.width(), c.height()), (3, 1));
    assert_eq!(pixels(&c), vec![[30, 20, 10, 255], [128, 128, 128, 128], [7, 6, 5, 0]]);
}

#[test]
fn decode_caps_unpremultiplied_values() {
    // A channel above its alpha would exceed 255 after un-premultiplying.
    let raw = [200, 0, 100, 100];
    let c = decode_qimage(&raw, 1, 1, 4, 7).ok().unwrap();
    assert_eq!(pixels(&c), vec![[255, 0, 255, 100]]);
}

#[test]
fn decode_keeps_straight_alpha_formats() {
    let raw = [64, 64, 64, 128];
    let c = decode_qimage(&raw, 1, 1, 4, 5).ok().unwrap();
    assert_eq!(pixels(&c), vec![[64, 64, 64, 128]]);
}

#[test]
fn decode_skips_row_padding() {
    let raw = [1, 2, 3, 255, 9, 9, 9, 9, 4, 5, 6, 255, 0, 0, 0, 0];
    let c = decode_qimage(&raw, 1, 2, 8, 6).ok().unwrap();
    assert_eq!(pixels(&c), vec![[3, 2, 1, 255], [6, 5, 4, 255]]);
}

#[test]
fn decode_errors() {
    let raw = [0u8; 16];
    assert_eq!(decode_qimage(&raw, 0, 1, 4, 6).err(), Some(DecodeError::InvalidSize { width: 0, height: 1 }));
    assert_eq!(decode_qimage(&raw, 2, 0, 8, 6).err(), Some(DecodeError::InvalidSize { width: 2, height: 0 }));
    assert_eq!(
        decode_qimage(&raw, 2, 1, 4, 6).err(),
        Some(DecodeError::StrideTooSmall { stride: 4, row_bytes: 8 })
    );
    assert_eq!(
        decode_qimage(&raw, 2, 3, 8, 6).err(),
        Some(DecodeError::NotEnoughData { have: 16, need: 24 })
    );
}

fn reply(entries: Vec<(&str, ReplyValue)>) -> Vec<(String, ReplyValue)> {
    entries.into_iter().map(|(k, v)| (k.to_string(), v)).collect()
}

#[test]
fn reply_integers_of_every_width() {
    let r = reply(vec![
        ("a", ReplyValue::U8(7)),
        ("b", ReplyValue::I16(-3)),
        ("c", ReplyValue::U16(65535)),
        ("d", ReplyValue::I32(-100000)),
        ("e", ReplyValue::U32(4000000000)),
        ("f", ReplyValue::I64(-1)),
        ("g", ReplyValue::U64(u64::MAX)),
        ("h", ReplyValue::Str("x".to_string())),
        ("i", ReplyValue::Other),
        ("a", ReplyValue::U8(9)),
    ]);
    assert_eq!(get_i64(&r, "a"), Some(7));
    assert_eq!(get_i64(&r, "b"), Some(-3));
    assert_eq!(get_i64(&r, "c"), Some(65535));
    assert_eq!(get_i64(&r, "d"), Some(-100000));
    assert_eq!(get_i64(&r, "e"), Some(4000000000));
    assert_eq!(get_i64(&r, "f"), Some(-1));
    assert_eq!(get_i64(&r, "g"), Some(-1));
    assert_eq!(get_i64(&r, "h"), None);
    assert_eq!(get_i64(&r, "i"), None);
    assert_eq!(get_i64(&r, "missing"), None);
    assert_eq!(get_string(&r, "h"), Some("x".to_string()));
    assert_eq!(get_string(&r, "a"), None);
    assert_eq!(get_string(&r, "missing"), None);
}

#[test]
fn geometry_from_reply() {
    let r = reply(vec![
        ("width", ReplyValue::U32(2)),
        ("height", ReplyValue::I32(1)),
        ("stride", ReplyValue::U64(8)),
    ]);
    assert_eq!(screenshot_geometry(&r), Ok((2, 1, 8, 6)));
    let r = reply(vec![
        ("format", ReplyValue::I32(5)),
        ("stride", ReplyValue::U32(8)),
        ("height", ReplyValue::U32(1)),
        ("width", ReplyValue::U32(2)),
    ]);
    assert_eq!(screenshot_geometry(&r), Ok((2, 1, 8, 5)));
    assert_eq!(screenshot_geometry(&reply(vec![])), Err(CaptureError::NoWidth));
    assert_eq!(
        screenshot_geometry(&reply(vec![("width", ReplyValue::U32(2))])),
        Err(CaptureError::NoHeight)
    );
    assert_eq!(
        screenshot_geometry(&reply(vec![("width", ReplyValue::U32(2)), ("height", ReplyValue::U32(2))])),
        Err(CaptureError::NoStride)
    );
}

#[test]
fn image_from_reply_decodes_the_pipe_bytes() {
    let r = reply(vec![
        ("width", ReplyValue::U32(2)),
        ("height", ReplyValue::U32(1)),
        ("stride", ReplyValue::U32(8)),
        ("windowId", ReplyValue::Str("{abc}".to_string())),
    ]);
    let raw = [1, 2, 3, 255, 40, 40, 40, 80];
    let c = image_from_reply(&r, &raw).ok().unwrap();
    assert_eq!(pixels(&c), vec![[3, 2, 1, 255], [128, 128, 128, 80]]);
    assert_eq!(
        image_from_reply(&r, &raw[..4]).err(),
        Some(CaptureError::Decode(DecodeError::NotEnoughData { have: 4, need: 8 }))
    );
    assert_eq!(image_from_reply(&reply(vec![]), &raw).err(), Some(CaptureError::NoWidth));
}

#[test]
fn empty_captions_give_no_title() {
    assert_eq!(caption_title(Some("Kate".to_string())), Some("Kate".to_string()));
    assert_eq!(caption_title(Some(String::new())), None);
    assert_eq!(caption_title(None), None);
}

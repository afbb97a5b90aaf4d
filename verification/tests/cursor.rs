use stepshot::cursor::{script_object_path, script_plugin_name};
use stepshot::cursor::report;
use stepshot::platform::CursorInfo;

#[test]
fn report_line_gives_cursor_info() {
    assert_eq!(
        report("10,20,0,0,800,600"),
        Some(CursorInfo { x: 10, y: 20, frame_x: 0, frame_y: 0, frame_w: 800, frame_h: 600 })
    );
}

#[test]
fn report_allows_blanks_and_signs() {
    assert_eq!(
        report(" 1 , -2 ,+3,4\t,5, 6\n"),
        Some(CursorInfo { x: 1, y: -2, frame_x: 3, frame_y: 4, frame_w: 5, frame_h: 6 })
    );
    assert_eq!(
        report("-2147483648,2147483647,0,0,1,1"),
        Some(CursorInfo { x: i32::MIN, y: i32::MAX, frame_x: 0, frame_y: 0, frame_w: 1, frame_h: 1 })
    );
}

#[test]
fn report_needs_exactly_six_numbers() {
    assert_eq!(report("1,2,3,4,5"), None);
    assert_eq!(report("1,2,3,4,5,6,7"), None);
    assert_eq!(report(""), None);
    assert_eq!(report(",,,,,"), None);
}

#[test]
fn report_skips_pieces_that_are_not_numbers() {
    assert_eq!(
        report("1,x,2,,3,4,5,6"),
        Some(CursorInfo { x: 1, y: 2, frame_x: 3, frame_y: 4, frame_w: 5, frame_h: 6 })
    );
    // Out of range for i32: skipped, leaving five numbers.
    assert_eq!(report("2147483648,1,2,3,4,5"), None);
    assert_eq!(report("1.5,1,2,3,4,5"), None);
    assert_eq!(report("- 1,1,2,3,4,5"), None);
}

#[test]
fn report_round_trips_the_script_format() {
    let c = CursorInfo { x: -17, y: 4096, frame_x: -1920, frame_y: 0, frame_w: 1280, frame_h: 720 };
    let line = format!("{},{},{},{},{},{}", c.x, c.y, c.frame_x, c.frame_y, c.frame_w, c.frame_h);
    assert_eq!(report(&line), Some(c));
}

#[test]
fn script_names_carry_the_number() {
    assert_eq!(script_plugin_name(0), "stepshot0");
    assert_eq!(script_plugin_name(17), "stepshot17");
    assert_eq!(script_plugin_name(-3), "stepshot-3");
    assert_eq!(script_object_path(5), "/Scripting/Script5");
    assert_eq!(script_object_path(i32::MIN), "/Scripting/Script-2147483648");
}

use stepshot::i18n::{strings_for, Lang};
use stepshot::platform::{describe_found, element_query, CursorInfo, Element};

fn el(role: &str, name: &str) -> Element {
    Element { name: name.to_string(), role: role.to_string() }
}

#[test]
fn element_with_role_and_name() {
    let en = strings_for(Lang::En);
    assert_eq!(el("button", "Save").describe(&en), "button “Save”");
    assert_eq!(el("  push button ", "\tOK\n").describe(&en), "push button “OK”");
}

#[test]
fn element_with_role_or_name_only() {
    let en = strings_for(Lang::En);
    assert_eq!(el(" text field ", "   ").describe(&en), "text field");
    assert_eq!(el("", "Open").describe(&en), "“Open”");
}

#[test]
fn blank_element_uses_generic_word() {
    assert_eq!(el("", "").describe(&strings_for(Lang::En)), "element");
    assert_eq!(el(" ", "\u{3000}").describe(&strings_for(Lang::De)), "Element");
}

#[test]
fn describe_found_passes_absence_through() {
    let en = strings_for(Lang::En);
    assert_eq!(describe_found(None, &en), None);
    assert_eq!(describe_found(Some(el("menu item", "Quit")), &en), Some("menu item “Quit”".to_string()));
}

fn cursor_at(x: i32, y: i32) -> CursorInfo {
    CursorInfo { x, y, frame_x: 0, frame_y: 0, frame_w: 100, frame_h: 100 }
}

#[test]
fn element_is_queried_at_the_cursor() {
    assert_eq!(element_query(true, Some(cursor_at(5, 7))), Some((5, 7)));
    assert_eq!(element_query(false, Some(cursor_at(5, 7))), None);
    assert_eq!(element_query(true, None), None);
    assert_eq!(element_query(false, None), None);
}

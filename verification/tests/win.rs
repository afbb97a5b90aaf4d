use stepshot::i18n::{strings_for, Lang};
use stepshot::tray::Cmd;
use stepshot::win::{canvas_from_bgra, menu_command, win_menu_items, window_extent, ID_OPEN, ID_QUIT, ID_START, ID_STOP};

#[test]
fn menu_numbers_map_to_commands() {
    assert_eq!(menu_command(0), None);
    assert_eq!(menu_command(1), Some(Cmd::Start));
    assert_eq!(menu_command(2), Some(Cmd::Stop));
    assert_eq!(menu_command(3), Some(Cmd::OpenFolder));
    assert_eq!(menu_command(4), Some(Cmd::Quit));
    assert_eq!(menu_command(5), None);
}

#[test]
fn popup_menu_entries_follow_the_state_and_language() {
    let de = strings_for(Lang::De);
    let m = win_menu_items(&de, false);
    assert_eq!(m.len(), 4);
    assert_eq!(m[0], Some((ID_START, "Aufnahme starten".to_string())));
    assert_eq!(m[1], Some((ID_OPEN, "Letzten Bericht-Ordner öffnen".to_string())));
    assert_eq!(m[2], None);
    assert_eq!(m[3], Some((ID_QUIT, "stepshot beenden".to_string())));
    let en = strings_for(Lang::En);
    assert_eq!(win_menu_items(&en, true)[0], Some((ID_STOP, "Stop recording & write report".to_string())));
}

#[test]
fn window_extent_is_at_least_one_pixel() {
    assert_eq!(window_extent(10, 20, 810, 620), (800, 600));
    assert_eq!(window_extent(10, 20, 10, 20), (1, 1));
    assert_eq!(window_extent(10, 20, 5, 21), (1, 1));
    assert_eq!(window_extent(-100, -50, 100, 50), (200, 100));
}

#[test]
fn bgra_buffer_becomes_opaque_rgba() {
    let buf = [1, 2, 3, 0, 10, 20, 30, 40, 99];
    let c = canvas_from_bgra(2, 1, &buf).unwrap();
    assert_eq!(c.get_pixel(0, 0), [3, 2, 1, 255]);
    assert_eq!(c.get_pixel(1, 0), [30, 20, 10, 255]);
    assert!(canvas_from_bgra(2, 2, &buf).is_none());
}

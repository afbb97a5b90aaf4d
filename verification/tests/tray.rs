use stepshot::i18n::{strings_for, Lang};
use stepshot::tray::{menu_entries, tool_tip_description, Cmd, MenuEntry};

fn item(e: &MenuEntry) -> (String, &'static str, bool, Option<Cmd>) {
    match e {
        MenuEntry::Item { label, icon_name, enabled, command } => {
            (label.clone(), *icon_name, *enabled, *command)
        }
        MenuEntry::Separator => panic!("expected an item, found a separator"),
    }
}

#[test]
fn tool_tip_shows_the_step_count_while_recording() {
    assert_eq!(tool_tip_description(&strings_for(Lang::En), false, 5), "Ready");
    assert_eq!(tool_tip_description(&strings_for(Lang::En), true, 0), "Recording — 0 step(s)");
    assert_eq!(tool_tip_description(&strings_for(Lang::En), true, 12), "Recording — 12 step(s)");
}

#[test]
fn idle_menu() {
    let m = menu_entries(&strings_for(Lang::En), false, 0);
    assert_eq!(m.len(), 6);
    assert_eq!(item(&m[0]), ("stepshot — ready".to_string(), "", false, None));
    assert!(matches!(m[1], MenuEntry::Separator));
    assert_eq!(item(&m[2]), ("Start recording".to_string(), "media-record", true, Some(Cmd::Start)));
    assert_eq!(
        item(&m[3]),
        ("Open last report folder".to_string(), "folder-open", true, Some(Cmd::OpenFolder))
    );
    assert!(matches!(m[4], MenuEntry::Separator));
    assert_eq!(item(&m[5]), ("Quit stepshot".to_string(), "application-exit", true, Some(Cmd::Quit)));
}

#[test]
fn recording_menu() {
    let m = menu_entries(&strings_for(Lang::En), true, 3);
    assert_eq!(item(&m[0]), ("● Recording — 3 step(s)".to_string(), "", false, None));
    assert_eq!(
        item(&m[2]),
        ("Stop recording & write report".to_string(), "media-playback-stop", true, Some(Cmd::Stop))
    );
}

#[test]
fn german_tray() {
    let de = strings_for(Lang::De);
    assert_eq!(tool_tip_description(&de, false, 5), "Bereit");
    assert_eq!(tool_tip_description(&de, true, 5), "Aufnahme — 5 Schritt(e)");
    let m = menu_entries(&de, false, 5);
    assert_eq!(item(&m[0]), ("stepshot — bereit".to_string(), "", false, None));
    assert_eq!(item(&m[2]), ("Aufnahme starten".to_string(), "media-record", true, Some(Cmd::Start)));
    assert_eq!(
        item(&m[3]),
        ("Letzten Bericht-Ordner öffnen".to_string(), "folder-open", true, Some(Cmd::OpenFolder))
    );
    assert_eq!(item(&m[5]), ("stepshot beenden".to_string(), "application-exit", true, Some(Cmd::Quit)));
    let m = menu_entries(&de, true, 2);
    assert_eq!(item(&m[0]).0, "● Aufnahme — 2 Schritt(e)");
    assert_eq!(item(&m[2]).0, "Aufnahme beenden & Bericht schreiben");
}

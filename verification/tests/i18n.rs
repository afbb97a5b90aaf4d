use stepshot::i18n::{init, strings_for, tr, Lang};

fn vars(v: [Option<&str>; 4]) -> Vec<Option<String>> {
    v.iter().map(|o| o.map(|s| s.to_string())).collect()
}

#[test]
fn detect_reads_the_first_set_variable() {
    assert_eq!(Lang::detect(&vars([None, None, None, Some("de_DE.UTF-8")])), Lang::De);
    assert_eq!(Lang::detect(&vars([Some("en_US"), Some("de_DE"), None, None])), Lang::En);
    assert_eq!(Lang::detect(&vars([None, Some("DE_at"), None, Some("en")])), Lang::De);
    assert_eq!(Lang::detect(&vars([None, None, None, None])), Lang::En);
}

#[test]
fn detect_treats_an_empty_first_value_as_english() {
    assert_eq!(Lang::detect(&vars([Some(""), Some("de_DE"), None, None])), Lang::En);
    assert_eq!(Lang::detect(&vars([Some("d"), None, None, None])), Lang::En);
    assert_eq!(Lang::detect(&vars([Some("fr:de"), None, None, None])), Lang::En);
}

#[test]
fn english_until_init_then_first_language_stays() {
    let mut current: Option<Lang> = None;
    assert_eq!(tr(&current).click_left, "Left click");
    init(&mut current, &vars([None, None, None, Some("de_DE.UTF-8")]));
    assert_eq!(current, Some(Lang::De));
    assert_eq!(tr(&current).click_left, "Linksklick");
    init(&mut current, &vars([Some("en"), None, None, None]));
    assert_eq!(current, Some(Lang::De));
    assert_eq!(tr(&current).html_lang, "de");
}

#[test]
fn every_language_keeps_the_placeholders() {
    for lang in [Lang::En, Lang::De] {
        let t = strings_for(lang);
        assert!(t.action_on.contains("{action}") && t.action_on.contains("{element}"));
        assert!(t.in_window.contains("{action}") && t.in_window.contains("{title}"));
        assert!(t.in_active_window.contains("{action}"));
        assert!(t.tray_recording.contains("{n}"));
        assert!(t.tt_recording.contains("{n}"));
        assert!(t.notify_stopped.contains("{n}"));
        assert!(t.report_started.contains("{x}"));
        assert!(t.report_total.contains("{n}"));
        assert!(t.report_step.contains("{n}"));
    }
}

#[test]
fn string_tables_have_their_language_code() {
    assert_eq!(strings_for(Lang::En).html_lang, "en");
    assert_eq!(strings_for(Lang::De).html_lang, "de");
    assert_eq!(strings_for(Lang::De).menu_quit, "stepshot beenden");
}

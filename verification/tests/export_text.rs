use stepshot::export::{sanitize, started_line, step_heading, total_line, wrap};
use stepshot::i18n::{strings_for, Lang};

#[test]
fn sanitize_maps_typography() {
    assert_eq!(sanitize("“hi” — café"), "\"hi\" - caf\u{e9}");
    assert_eq!(sanitize("emoji \u{1F600}"), "emoji ?");
}

#[test]
fn sanitize_maps_single_quotes_ellipsis_and_no_break_space() {
    assert_eq!(sanitize("‘a’\u{a0}b…\u{2212}1 ‚z"), "'a' b~-1 'z");
    assert_eq!(sanitize("plain ASCII & Ä ÿ"), "plain ASCII & Ä ÿ");
    assert_eq!(sanitize("日本"), "??");
    assert_eq!(sanitize(""), "");
}

#[test]
fn wrap_breaks_before_the_limit() {
    assert_eq!(wrap("hello world foo", 11), vec!["hello world", "foo"]);
    assert_eq!(wrap("hello world foo", 10), vec!["hello", "world foo"]);
}

#[test]
fn wrap_collapses_whitespace() {
    assert_eq!(wrap("  a \t b\n\nc  ", 80), vec!["a b c"]);
}

#[test]
fn wrap_of_blank_text_is_one_empty_line() {
    assert_eq!(wrap("", 10), vec![""]);
    assert_eq!(wrap("   \n ", 10), vec![""]);
}

#[test]
fn wrap_keeps_overlong_words_whole() {
    assert_eq!(wrap("supercalifragilistic x", 5), vec!["supercalifragilistic", "x"]);
    assert_eq!(wrap("ab cd", 0), vec!["ab", "cd"]);
}

#[test]
fn title_lines_fill_placeholders() {
    let en = strings_for(Lang::En);
    let de = strings_for(Lang::De);
    assert_eq!(started_line(&en, "2026-01-01 12:00:00"), "Started: 2026-01-01 12:00:00");
    assert_eq!(started_line(&de, "2026-01-01 12:00:00"), "Gestartet: 2026-01-01 12:00:00");
    assert_eq!(total_line(&en, 3), "Total steps: 3");
    assert_eq!(total_line(&de, 0), "Schritte gesamt: 0");
}

#[test]
fn step_heading_has_index_and_time() {
    let en = strings_for(Lang::En);
    let de = strings_for(Lang::De);
    assert_eq!(step_heading(&en, 7, "12:00:00"), "Step 7  —  12:00:00");
    assert_eq!(step_heading(&de, 12, "08:15:00"), "Schritt 12  —  08:15:00");
}

use stepshot::i18n::{strings_for, Lang};
use stepshot::model::{Button, Step};
use stepshot::report::{base64, html_escape, render_html, render_markdown, HTML_DOCTYPE, HTML_STYLE};

fn english_head() -> String {
    format!("{HTML_DOCTYPE}en{HTML_STYLE}Recording</h1>\n  <p class=\"meta\">Started: ")
}

fn sample_steps() -> Vec<Step> {
    vec![
        Step {
            index: 1,
            button: Button::Left,
            time: "12:00:00".to_string(),
            image_file: "step-001.png".to_string(),
            window_title: Some("A <b> & \"c\"".to_string()),
            element: Some("button “Save”".to_string()),
        },
        Step {
            index: 2,
            button: Button::Right,
            time: "12:00:05".to_string(),
            image_file: "step-002.png".to_string(),
            window_title: None,
            element: None,
        },
    ]
}

#[test]
fn html_escape_replaces_markup_characters() {
    assert_eq!(html_escape("a<b>&\"c\""), "a&lt;b&gt;&amp;&quot;c&quot;");
    assert_eq!(html_escape("&amp;"), "&amp;amp;");
    assert_eq!(html_escape("it's fine"), "it's fine");
    assert_eq!(html_escape(""), "");
}

#[test]
fn base64_matches_the_standard_vectors() {
    assert_eq!(base64(b""), "");
    assert_eq!(base64(b"f"), "Zg==");
    assert_eq!(base64(b"fo"), "Zm8=");
    assert_eq!(base64(b"foo"), "Zm9v");
    assert_eq!(base64(b"foob"), "Zm9vYg==");
    assert_eq!(base64(b"fooba"), "Zm9vYmE=");
    assert_eq!(base64(b"foobar"), "Zm9vYmFy");
    assert_eq!(base64(b"hello"), "aGVsbG8=");
    assert_eq!(base64(&[0xff, 0xfe, 0xfd]), "//79");
    assert_eq!(base64(&[0, 0, 0, 0]), "AAAAAA==");
}

#[test]
fn base64_length_is_four_per_started_triple() {
    for n in 0..20usize {
        let data = vec![0xabu8; n];
        assert_eq!(base64(&data).len(), (n + 2) / 3 * 4);
    }
}

#[test]
fn markdown_report_lists_every_step() {
    let en = strings_for(Lang::En);
    let md = render_markdown(&sample_steps(), "2026-01-01 12:00:00", &en);
    let want = "# Recording\n\nStarted: 2026-01-01 12:00:00\n\nTotal steps: 2\n\n\
## Step 1 — 12:00:00\n\n*Left click on button “Save” in window “A <b> & \"c\"”*\n\n![Step 1](step-001.png)\n\n\
## Step 2 — 12:00:05\n\n*Right click in the active window*\n\n![Step 2](step-002.png)\n\n";
    assert_eq!(md, want);
}

#[test]
fn markdown_report_without_steps() {
    let en = strings_for(Lang::En);
    assert_eq!(
        render_markdown(&[], "now", &en),
        "# Recording\n\nStarted: now\n\nTotal steps: 0\n\n"
    );
}

fn card(n: usize, desc: &str, time: &str, src: &str) -> String {
    format!(
        "  <section class=\"step\">\n    <div class=\"head\"><span class=\"num\">{n}</span>\n      <div><p class=\"desc\">{desc}</p><p class=\"time\">{time}</p></div>\n    </div>\n    <img src=\"{src}\" alt=\"Step {n}\" loading=\"lazy\">\n  </section>\n"
    )
}

#[test]
fn html_report_references_images_by_name() {
    let en = strings_for(Lang::En);
    let html = render_html(&sample_steps(), "2026-01-01 <12:00>", &en, false, &vec![]);
    let want = format!(
        "{}2026-01-01 &lt;12:00&gt; · 2 step(s)</p>\n</header>\n{}{}</body>\n</html>\n",
        english_head(),
        card(
            1,
            "Left click on button “Save” in window “A &lt;b&gt; &amp; &quot;c&quot;”",
            "12:00:00",
            "step-001.png"
        ),
        card(2, "Right click in the active window", "12:00:05", "step-002.png"),
    );
    assert_eq!(html, want);
    assert!(html.starts_with("<!DOCTYPE html>\n<html lang=\"en\">"));
    assert!(html.contains("<h1>Recording</h1>\n  <p class=\"meta\">Started: 2026-01-01 &lt;12:00&gt; · 2 step(s)</p>"));
}

#[test]
fn html_report_embeds_images_that_were_read() {
    let en = strings_for(Lang::En);
    let images = vec![Some(b"foo".to_vec()), None];
    let html = render_html(&sample_steps(), "t", &en, true, &images);
    let want = format!(
        "{}t · 2 step(s) · self-contained</p>\n</header>\n{}{}</body>\n</html>\n",
        english_head(),
        card(
            1,
            "Left click on button “Save” in window “A &lt;b&gt; &amp; &quot;c&quot;”",
            "12:00:00",
            "data:image/png;base64,Zm9v"
        ),
        card(2, "Right click in the active window", "12:00:05", "step-002.png"),
    );
    assert_eq!(html, want);
}

#[test]
fn html_report_without_steps() {
    let de = strings_for(Lang::De);
    let html = render_html(&[], "x", &de, true, &vec![]);
    assert_eq!(
        html,
        format!("{HTML_DOCTYPE}de{HTML_STYLE}Aufzeichnung</h1>\n  <p class=\"meta\">Gestartet: x · 0 Schritt(e) · eigenständig</p>\n</header>\n</body>\n</html>\n")
    );
    assert!(html.starts_with("<!DOCTYPE html>\n<html lang=\"de\">"));
}

#[test]
fn markdown_report_in_german() {
    let de = strings_for(Lang::De);
    assert_eq!(render_markdown(&[], "X", &de), "# Aufzeichnung\n\nGestartet: X\n\nSchritte gesamt: 0\n\n");
    let md = render_markdown(&sample_steps()[1..], "X", &de);
    assert!(md.ends_with("## Schritt 2 — 12:00:05\n\n*Rechtsklick im aktiven Fenster*\n\n![Schritt 2](step-002.png)\n\n"));
}

#[test]
fn html_cards_use_the_step_label() {
    let de = strings_for(Lang::De);
    let html = render_html(&sample_steps()[1..], "x", &de, false, &vec![]);
    assert!(html.contains("<img src=\"step-002.png\" alt=\"Schritt 2\" loading=\"lazy\">"));
    assert!(html.contains("<p class=\"desc\">Rechtsklick im aktiven Fenster</p>"));
}

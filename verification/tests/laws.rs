use stepshot::a11y::restore_needed;
use stepshot::export::{sanitize, wrap};
use stepshot::i18n::{strings_for, Lang};
use stepshot::model::{step_image_file, Button, Step};
use stepshot::report::{base64, html_escape, render_markdown};
use stepshot::wide::put_wide;

/// A plain decoder for the standard base64 alphabet with `=` padding.
fn decode(s: &str) -> Vec<u8> {
    const T: &[u8; 64] = b"ABCDEFGHIJKLMNOPQRSTUVWXYZabcdefghijklmnopqrstuvwxyz0123456789+/";
    let val = |c: u8| T.iter().position(|&t| t == c).unwrap() as u32;
    let mut out = Vec::new();
    for chunk in s.as_bytes().chunks(4) {
        let pad = chunk.iter().filter(|&&c| c == b'=').count();
        let mut n = 0u32;
        for &c in chunk {
            n = n * 64 + if c == b'=' { 0 } else { val(c) };
        }
        let bytes = [(n >> 16) as u8, (n >> 8) as u8, n as u8];
        out.extend_from_slice(&bytes[..3 - pad]);
    }
    out
}

#[test]
fn base64_decodes_back_to_the_bytes() {
    let samples: Vec<Vec<u8>> = vec![
        vec![],
        vec![0],
        vec![255, 0],
        (0..=255u8).collect(),
        b"\x89PNG\r\n\x1a\n".to_vec(),
    ];
    for data in samples {
        let enc = base64(&data);
        assert_eq!(enc.len(), 4 * ((data.len() + 2) / 3));
        assert_eq!(decode(&enc), data);
    }
}

#[test]
fn escaped_text_has_no_markup() {
    for s in ["<script>alert(\"x\")</script>", "a > b & c < d", "\"\"", "plain"] {
        let e = html_escape(s);
        assert!(!e.contains('<') && !e.contains('>') && !e.contains('"'));
    }
}

#[test]
fn sanitized_text_is_latin1() {
    for s in ["“quotes” — dash … 😀 中文 \u{a0}", "Ærøskøbing", ""] {
        let out = sanitize(s);
        assert!(out.chars().all(|c| (c as u32) <= 0xff));
        assert_eq!(out.chars().count(), s.chars().count());
    }
}

#[test]
fn wrapped_lines_fit_unless_one_word() {
    let text = "Left click on push button “Save as…” in window “Untitled document — LibreOffice Writer”";
    for max in [1usize, 10, 20, 40, 92] {
        let lines = wrap(text, max);
        assert!(!lines.is_empty());
        for l in &lines {
            assert!(l.chars().count() <= max || !l.contains(' '));
        }
        assert_eq!(lines.join(" "), text.split_whitespace().collect::<Vec<_>>().join(" "));
    }
}

#[test]
fn image_names_are_distinct() {
    let names: Vec<String> = (0..2000).map(step_image_file).collect();
    let mut sorted = names.clone();
    sorted.sort();
    sorted.dedup();
    assert_eq!(sorted.len(), names.len());
}

#[test]
fn wide_fields_end_with_nul() {
    for len in 1..8 {
        let mut f = vec![0xffffu16; len];
        put_wide(&mut f, "a long text that does not fit");
        assert_eq!(f[len - 1], 0);
    }
}

#[test]
fn base64_uses_the_alphabet_with_padding_at_the_end() {
    for n in 0..10usize {
        let data: Vec<u8> = (0..n as u8).map(|b| b.wrapping_mul(37)).collect();
        let e = base64(&data);
        let chars: Vec<char> = e.chars().collect();
        for (i, c) in chars.iter().enumerate() {
            let alpha = c.is_ascii_alphanumeric() || *c == '+' || *c == '/';
            assert!(alpha || (*c == '=' && i + 2 >= chars.len()));
        }
        if chars.len() >= 2 && chars[chars.len() - 2] == '=' {
            assert_eq!(chars[chars.len() - 1], '=');
        }
    }
}

#[test]
fn fixed_texts_hold_no_placeholder() {
    for lang in [Lang::En, Lang::De] {
        let t = strings_for(lang);
        for s in [
            t.html_lang, t.click_left, t.click_right, t.click_middle, t.element_generic, t.tray_ready,
            t.tt_ready, t.menu_start, t.menu_stop, t.menu_open_folder, t.menu_quit, t.notify_started,
            t.notify_no_input, t.report_heading, t.report_steps_word, t.report_self_contained,
        ] {
            assert!(!s.contains('{'));
        }
    }
}

#[test]
fn live_report_keeps_earlier_steps() {
    let t = strings_for(Lang::En);
    let mut steps = vec![Step::captured(1, Button::Left, "t1".to_string(), None, None)];
    let before = render_markdown(&steps, "s", &t);
    steps.push(Step::captured(2, Button::Right, "t2".to_string(), None, None));
    let after = render_markdown(&steps, "s", &t);
    let body_before = &before[before.find("## ").unwrap()..];
    assert!(after.contains(body_before));
    assert!(after.ends_with("## Step 2 — t2\n\n*Right click in the active window*\n\n![Step 2](step-002.png)\n\n"));
}

#[test]
fn accessibility_is_switched_off_only_when_it_was_off() {
    assert!(restore_needed(Some(false)));
    assert!(!restore_needed(Some(true)));
    assert!(!restore_needed(None));
}

#[test]
fn wrap_is_greedy() {
    let text = "Left click on push button “Save as…” in window “Untitled document — LibreOffice Writer”";
    for max in [1usize, 10, 20, 40, 92] {
        let lines = wrap(text, max);
        for l in &lines {
            assert!(!l.is_empty());
        }
        for pair in lines.windows(2) {
            let next_word = pair[1].split(' ').next().unwrap();
            assert!(pair[0].chars().count() + 1 + next_word.chars().count() > max);
        }
    }
}

#[test]
fn templates_hold_only_their_placeholders() {
    for lang in [Lang::En, Lang::De] {
        let t = strings_for(lang);
        let cases: [(&str, &[&str]); 9] = [
            (t.action_on, &["{action}", "{element}"]),
            (t.in_window, &["{action}", "{title}"]),
            (t.in_active_window, &["{action}"]),
            (t.tray_recording, &["{n}"]),
            (t.tt_recording, &["{n}"]),
            (t.notify_stopped, &["{n}"]),
            (t.report_started, &["{x}"]),
            (t.report_total, &["{n}"]),
            (t.report_step, &["{n}"]),
        ];
        for (s, ps) in cases {
            for (i, _) in s.match_indices('{') {
                assert!(ps.iter().any(|p| s[i..].starts_with(p)), "{s}");
            }
        }
    }
}

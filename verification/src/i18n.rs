//! Internationalization: one string table per language.
//!
//! Each language is a complete [`Strings`] value, so adding a string means
//! adding a field that every table must provide. Placeholders (`{n}`,
//! `{title}`, `{action}`, `{element}`, `{x}`) are identical across languages
//! and are filled at the call site with `replace`.
//!
//! The active language is a plain `Option<Lang>` owned by the program:
//! `None` until [`init`] runs, after which [`tr`] hands out its table.

use vstd::prelude::*;

verus! {

/// Supported languages.
#[derive(Clone, Copy, PartialEq, Eq, Debug, Structural)]
pub enum Lang {
    En,
    De,
}

/// All user-facing strings. Templates use `{placeholders}` filled at call sites.
#[derive(Clone, Copy, Debug)]
pub struct Strings {
    /// BCP-47 code for the HTML `lang` attribute.
    pub html_lang: &'static str,
    pub click_left: &'static str,
    pub click_right: &'static str,
    pub click_middle: &'static str,
    /// "{action} on {element}"
    pub action_on: &'static str,
    /// "{action} in window “{title}”"
    pub in_window: &'static str,
    /// "{action} in the active window"
    pub in_active_window: &'static str,
    /// Fallback word for an element without role and name.
    pub element_generic: &'static str,
    pub tray_ready: &'static str,
    /// "● Recording — {n} step(s)"
    pub tray_recording: &'static str,
    pub tt_ready: &'static str,
    /// "Recording — {n} step(s)"
    pub tt_recording: &'static str,
    pub menu_start: &'static str,
    pub menu_stop: &'static str,
    pub menu_open_folder: &'static str,
    pub menu_quit: &'static str,
    pub notify_started: &'static str,
    /// "Recording stopped — {n} step(s). Report saved."
    pub notify_stopped: &'static str,
    /// Click capture unavailable (not in the `input` group).
    pub notify_no_input: &'static str,
    pub report_heading: &'static str,
    /// "Started: {x}"
    pub report_started: &'static str,
    /// "Total steps: {n}"
    pub report_total: &'static str,
    /// "Step {n}"
    pub report_step: &'static str,
    pub report_steps_word: &'static str,
    pub report_self_contained: &'static str,
}

/// The English table (the fallback language).
pub open spec fn english() -> Strings {
    Strings {
        html_lang: "en",
        click_left: "Left click",
        click_right: "Right click",
        click_middle: "Middle click",
        action_on: "{action} on {element}",
        in_window: "{action} in window “{title}”",
        in_active_window: "{action} in the active window",
        element_generic: "element",
        tray_ready: "stepshot — ready",
        tray_recording: "● Recording — {n} step(s)",
        tt_ready: "Ready",
        tt_recording: "Recording — {n} step(s)",
        menu_start: "Start recording",
        menu_stop: "Stop recording & write report",
        menu_open_folder: "Open last report folder",
        menu_quit: "Quit stepshot",
        notify_started: "Recording started",
        notify_stopped: "Recording stopped — {n} step(s). Report saved.",
        notify_no_input: "No input device — click capture is off. Add yourself to the “input” group and log back in.",
        report_heading: "Recording",
        report_started: "Started: {x}",
        report_total: "Total steps: {n}",
        report_step: "Step {n}",
        report_steps_word: "step(s)",
        report_self_contained: "self-contained",
    }
}

/// The German table.
pub open spec fn german() -> Strings {
    Strings {
        html_lang: "de",
        click_left: "Linksklick",
        click_right: "Rechtsklick",
        click_middle: "Mittelklick",
        action_on: "{action} auf {element}",
        in_window: "{action} im Fenster „{title}“",
        in_active_window: "{action} im aktiven Fenster",
        element_generic: "Element",
        tray_ready: "stepshot — bereit",
        tray_recording: "● Aufnahme — {n} Schritt(e)",
        tt_ready: "Bereit",
        tt_recording: "Aufnahme — {n} Schritt(e)",
        menu_start: "Aufnahme starten",
        menu_stop: "Aufnahme beenden & Bericht schreiben",
        menu_open_folder: "Letzten Bericht-Ordner öffnen",
        menu_quit: "stepshot beenden",
        notify_started: "Aufnahme gestartet",
        notify_stopped: "Aufnahme beendet — {n} Schritt(e). Bericht gespeichert.",
        notify_no_input: "Kein Eingabegerät — Klick-Erfassung ist aus. Trag dich in die Gruppe „input“ ein und melde dich neu an.",
        report_heading: "Aufzeichnung",
        report_started: "Gestartet: {x}",
        report_total: "Schritte gesamt: {n}",
        report_step: "Schritt {n}",
        report_steps_word: "Schritt(e)",
        report_self_contained: "eigenständig",
    }
}

/// The table of a language.
pub open spec fn table(lang: Lang) -> Strings {
    match lang {
        Lang::En => english(),
        Lang::De => german(),
    }
}

/// The first locale variable that is set, in the order given.
pub open spec fn first_set(vars: Seq<Option<Seq<char>>>) -> Option<Seq<char>>
    decreases vars.len(),
{
    if vars.len() == 0 {
        None
    } else if vars[0] is Some {
        vars[0]
    } else {
        first_set(vars.drop_first())
    }
}

/// Whether a locale value starts with `de`, ignoring case.
pub open spec fn has_de_prefix(v: Seq<char>) -> bool {
    &&& v.len() >= 2
    &&& (v[0] == 'd' || v[0] == 'D')
    &&& (v[1] == 'e' || v[1] == 'E')
}

/// The language that the locale variables select: German when the first
/// variable that is set starts with `de` (any case), English otherwise
/// (also when that variable is empty or none is set).
pub open spec fn detected_lang(vars: Seq<Option<Seq<char>>>) -> Lang {
    match first_set(vars) {
        Some(v) => if has_de_prefix(v) {
            Lang::De
        } else {
            Lang::En
        },
        None => Lang::En,
    }
}

/// The language state after `init`: a language set earlier stays.
pub open spec fn initialized(current: Option<Lang>, detected: Lang) -> Option<Lang> {
    match current {
        Some(l) => Some(l),
        None => Some(detected),
    }
}

/// The table that `tr` hands out: English until a language is set.
pub open spec fn active_table(current: Option<Lang>) -> Strings {
    match current {
        Some(l) => table(l),
        None => english(),
    }
}

impl Lang {
    /// Detects the language from the values of `LANGUAGE`, `LC_ALL`,
    /// `LC_MESSAGES` and `LANG` (in that order; `None` for a variable that is
    /// not set), defaulting to English.
    pub fn detect(vars: &Vec<Option<String>>) -> (res: Lang)
        ensures
            res == detected_lang(vars.deep_view()),
    {
        let n: usize = vars.len();
        let mut i: usize = 0;
        assert(vars.deep_view().len() == n);
        assert(vars.deep_view().subrange(0, n as int) =~= vars.deep_view());
        while i < n
            invariant
                n == vars@.len(),
                i <= n,
                forall|k: int| 0 <= k < i ==> vars@[k] is None,
                first_set(vars.deep_view()) == first_set(vars.deep_view().subrange(i as int, n as int)),
            decreases n - i,
        {
            let ghost dv = vars.deep_view();
            assert(dv.subrange(i as int, n as int).drop_first() =~= dv.subrange(i + 1, n as int));
            match &vars[i] {
                Some(v) => {
                    assert(dv[i as int] == Some(v@));
                    let cs = crate::text::chars_of(v.as_str());
                    if cs.len() >= 2 && (cs[0] == 'd' || cs[0] == 'D') && (cs[1] == 'e' || cs[1]
                        == 'E') {
                        return Lang::De;
                    } else {
                        return Lang::En;
                    }
                },
                None => {
                    assert(dv[i as int] is None);
                },
            }
            i = i + 1;
        }
        assert(vars.deep_view().subrange(n as int, n as int).len() == 0);
        Lang::En
    }
}

/// Maps a language to its string table.
pub fn strings_for(lang: Lang) -> (res: Strings)
    ensures
        res == table(lang),
{
    match lang {
        Lang::En => Strings {
            html_lang: "en",
            click_left: "Left click",
            click_right: "Right click",
            click_middle: "Middle click",
            action_on: "{action} on {element}",
            in_window: "{action} in window “{title}”",
            in_active_window: "{action} in the active window",
            element_generic: "element",
            tray_ready: "stepshot — ready",
            tray_recording: "● Recording — {n} step(s)",
            tt_ready: "Ready",
            tt_recording: "Recording — {n} step(s)",
            menu_start: "Start recording",
            menu_stop: "Stop recording & write report",
            menu_open_folder: "Open last report folder",
            menu_quit: "Quit stepshot",
            notify_started: "Recording started",
            notify_stopped: "Recording stopped — {n} step(s). Report saved.",
            notify_no_input: "No input device — click capture is off. Add yourself to the “input” group and log back in.",
            report_heading: "Recording",
            report_started: "Started: {x}",
            report_total: "Total steps: {n}",
            report_step: "Step {n}",
            report_steps_word: "step(s)",
            report_self_contained: "self-contained",
        },
        Lang::De => Strings {
            html_lang: "de",
            click_left: "Linksklick",
            click_right: "Rechtsklick",
            click_middle: "Mittelklick",
            action_on: "{action} auf {element}",
            in_window: "{action} im Fenster „{title}“",
            in_active_window: "{action} im aktiven Fenster",
            element_generic: "Element",
            tray_ready: "stepshot — bereit",
            tray_recording: "● Aufnahme — {n} Schritt(e)",
            tt_ready: "Bereit",
            tt_recording: "Aufnahme — {n} Schritt(e)",
            menu_start: "Aufnahme starten",
            menu_stop: "Aufnahme beenden & Bericht schreiben",
            menu_open_folder: "Letzten Bericht-Ordner öffnen",
            menu_quit: "stepshot beenden",
            notify_started: "Aufnahme gestartet",
            notify_stopped: "Aufnahme beendet — {n} Schritt(e). Bericht gespeichert.",
            notify_no_input: "Kein Eingabegerät — Klick-Erfassung ist aus. Trag dich in die Gruppe „input“ ein und melde dich neu an.",
            report_heading: "Aufzeichnung",
            report_started: "Gestartet: {x}",
            report_total: "Schritte gesamt: {n}",
            report_step: "Schritt {n}",
            report_steps_word: "Schritt(e)",
            report_self_contained: "eigenständig",
        },
    }
}

/// Detects the language once: sets `current` from the locale variables
/// unless a language is already set.
pub fn init(current: &mut Option<Lang>, vars: &Vec<Option<String>>)
    ensures
        *final(current) == initialized(*old(current), detected_lang(vars.deep_view())),
{
    let detected = Lang::detect(vars);
    if current.is_none() {
        *current = Some(detected);
    }
}

/// The active string table (English until [`init`] runs).
pub fn tr(current: &Option<Lang>) -> (res: Strings)
    ensures
        res == active_table(*current),
{
    match current {
        Some(l) => strings_for(*l),
        None => strings_for(Lang::En),
    }
}

/// Law: the first detected language stays active; a later `init` changes
/// nothing, and `tr` then hands out the first language's table.
pub proof fn law_first_init_wins(first: Lang, later: Lang)
    ensures
        initialized(initialized(None, first), later) == Some(first),
        active_table(initialized(initialized(None, first), later)) == table(first),
{
}

/// Law: before any language is set, the English table is active.
pub proof fn law_english_until_init()
    ensures
        active_table(None) == english(),
{
}

/// Whether `p` occurs in `s`.
pub open spec fn has_placeholder(s: Seq<char>, p: Seq<char>) -> bool {
    exists|i: int| 0 <= i && i + p.len() <= s.len() && #[trigger] s.subrange(i, i + p.len()) == p
}

proof fn lemma_placeholder_at(s: Seq<char>, p: Seq<char>, i: int)
    requires
        0 <= i,
        i + p.len() <= s.len(),
        s.subrange(i, i + p.len()) =~= p,
    ensures
        has_placeholder(s, p),
{
}

/// Law: every language's templates hold the placeholders that the call
/// sites fill: `{action}` and `{element}` in `action_on`, `{action}` and
/// `{title}` in `in_window`, `{action}` in `in_active_window`, `{n}` in the
/// counters, notices and step heading, `{x}` in the start line.
pub proof fn law_placeholders_in_every_language(lang: Lang)
    ensures
        ({
            let t = table(lang);
    has_placeholder(t.action_on@, "{action}"@) &&
    has_placeholder(t.action_on@, "{element}"@) &&
    has_placeholder(t.in_window@, "{action}"@) &&
    has_placeholder(t.in_window@, "{title}"@) &&
    has_placeholder(t.in_active_window@, "{action}"@) &&
    has_placeholder(t.tray_recording@, "{n}"@) &&
    has_placeholder(t.tt_recording@, "{n}"@) &&
    has_placeholder(t.notify_stopped@, "{n}"@) &&
    has_placeholder(t.report_started@, "{x}"@) &&
    has_placeholder(t.report_total@, "{n}"@) &&
    has_placeholder(t.report_step@, "{n}"@)
        }),
{
    reveal_strlit("{action}");
    reveal_strlit("{element}");
    reveal_strlit("{title}");
    reveal_strlit("{n}");
    reveal_strlit("{x}");
    let t = table(lang);
    if lang == Lang::En {
        reveal_strlit("{action} on {element}");
        lemma_placeholder_at(t.action_on@, "{action}"@, 0);
        lemma_placeholder_at(t.action_on@, "{element}"@, 12);
        reveal_strlit("{action} in window “{title}”");
        lemma_placeholder_at(t.in_window@, "{action}"@, 0);
        lemma_placeholder_at(t.in_window@, "{title}"@, 20);
        reveal_strlit("{action} in the active window");
        lemma_placeholder_at(t.in_active_window@, "{action}"@, 0);
        reveal_strlit("● Recording — {n} step(s)");
        lemma_placeholder_at(t.tray_recording@, "{n}"@, 14);
        reveal_strlit("Recording — {n} step(s)");
        lemma_placeholder_at(t.tt_recording@, "{n}"@, 12);
        reveal_strlit("Recording stopped — {n} step(s). Report saved.");
        lemma_placeholder_at(t.notify_stopped@, "{n}"@, 20);
        reveal_strlit("Started: {x}");
        lemma_placeholder_at(t.report_started@, "{x}"@, 9);
        reveal_strlit("Total steps: {n}");
        lemma_placeholder_at(t.report_total@, "{n}"@, 13);
        reveal_strlit("Step {n}");
        lemma_placeholder_at(t.report_step@, "{n}"@, 5);
    } else {
        reveal_strlit("{action} auf {element}");
        lemma_placeholder_at(t.action_on@, "{action}"@, 0);
        lemma_placeholder_at(t.action_on@, "{element}"@, 13);
        reveal_strlit("{action} im Fenster „{title}“");
        lemma_placeholder_at(t.in_window@, "{action}"@, 0);
        lemma_placeholder_at(t.in_window@, "{title}"@, 21);
        reveal_strlit("{action} im aktiven Fenster");
        lemma_placeholder_at(t.in_active_window@, "{action}"@, 0);
        reveal_strlit("● Aufnahme — {n} Schritt(e)");
        lemma_placeholder_at(t.tray_recording@, "{n}"@, 13);
        reveal_strlit("Aufnahme — {n} Schritt(e)");
        lemma_placeholder_at(t.tt_recording@, "{n}"@, 11);
        reveal_strlit("Aufnahme beendet — {n} Schritt(e). Bericht gespeichert.");
        lemma_placeholder_at(t.notify_stopped@, "{n}"@, 19);
        reveal_strlit("Gestartet: {x}");
        lemma_placeholder_at(t.report_started@, "{x}"@, 11);
        reveal_strlit("Schritte gesamt: {n}");
        lemma_placeholder_at(t.report_total@, "{n}"@, 17);
        reveal_strlit("Schritt {n}");
        lemma_placeholder_at(t.report_step@, "{n}"@, 8);
    }
}

/// Whether a text holds no `{` (so no placeholder).
pub open spec fn no_brace(s: Seq<char>) -> bool {
    forall|i: int| 0 <= i < s.len() ==> s[i] != '{'
}

/// Law: the texts that the call sites use as they are (labels, words,
/// headings, notices without a count) hold no placeholder in any language.
pub proof fn law_no_placeholder_elsewhere(lang: Lang)
    ensures
        ({
            let t = table(lang);
            no_brace(t.html_lang@) &&
            no_brace(t.click_left@) &&
            no_brace(t.click_right@) &&
            no_brace(t.click_middle@) &&
            no_brace(t.element_generic@) &&
            no_brace(t.tray_ready@) &&
            no_brace(t.tt_ready@) &&
            no_brace(t.menu_start@) &&
            no_brace(t.menu_stop@) &&
            no_brace(t.menu_open_folder@) &&
            no_brace(t.menu_quit@) &&
            no_brace(t.notify_started@) &&
            no_brace(t.notify_no_input@) &&
            no_brace(t.report_heading@) &&
            no_brace(t.report_steps_word@) &&
            no_brace(t.report_self_contained@)
        }),
{
    if lang == Lang::En {
        reveal_strlit("en");
        reveal_strlit("Left click");
        reveal_strlit("Right click");
        reveal_strlit("Middle click");
        reveal_strlit("element");
        reveal_strlit("stepshot — ready");
        reveal_strlit("Ready");
        reveal_strlit("Start recording");
        reveal_strlit("Stop recording & write report");
        reveal_strlit("Open last report folder");
        reveal_strlit("Quit stepshot");
        reveal_strlit("Recording started");
        reveal_strlit("No input device — click capture is off. Add yourself to the “input” group and log back in.");
        reveal_strlit("Recording");
        reveal_strlit("step(s)");
        reveal_strlit("self-contained");
    } else {
        reveal_strlit("de");
        reveal_strlit("Linksklick");
        reveal_strlit("Rechtsklick");
        reveal_strlit("Mittelklick");
        reveal_strlit("Element");
        reveal_strlit("stepshot — bereit");
        reveal_strlit("Bereit");
        reveal_strlit("Aufnahme starten");
        reveal_strlit("Aufnahme beenden & Bericht schreiben");
        reveal_strlit("Letzten Bericht-Ordner öffnen");
        reveal_strlit("stepshot beenden");
        reveal_strlit("Aufnahme gestartet");
        reveal_strlit("Kein Eingabegerät — Klick-Erfassung ist aus. Trag dich in die Gruppe „input“ ein und melde dich neu an.");
        reveal_strlit("Aufzeichnung");
        reveal_strlit("Schritt(e)");
        reveal_strlit("eigenständig");
    }
}

/// Whether placeholder `p` starts at position `i` of `s`.
pub open spec fn placeholder_at(s: Seq<char>, i: int, p: Seq<char>) -> bool {
    0 <= i && i + p.len() <= s.len() && s.subrange(i, i + p.len()) == p
}

/// Law: every `{` in a template starts one of the placeholders its call site
/// fills, in every language, so a template holds no other placeholder:
/// `action_on` only `{action}` and `{element}`, `in_window` only
/// `{action}` and `{title}`, `in_active_window` only `{action}`, the start
/// line only `{x}`, and the counters, notices and step heading only `{n}`.
pub proof fn law_no_other_placeholder(lang: Lang)
    ensures
        ({
            let t = table(lang);
            &&& forall|i: int|
                0 <= i < t.action_on@.len() && #[trigger] t.action_on@[i] == '{' ==>
                    placeholder_at(t.action_on@, i, "{action}"@)
                    || placeholder_at(t.action_on@, i, "{element}"@)
            &&& forall|i: int|
                0 <= i < t.in_window@.len() && #[trigger] t.in_window@[i] == '{' ==>
                    placeholder_at(t.in_window@, i, "{action}"@)
                    || placeholder_at(t.in_window@, i, "{title}"@)
            &&& forall|i: int|
                0 <= i < t.in_active_window@.len() && #[trigger] t.in_active_window@[i] == '{' ==>
                    placeholder_at(t.in_active_window@, i, "{action}"@)
            &&& forall|i: int|
                0 <= i < t.tray_recording@.len() && #[trigger] t.tray_recording@[i] == '{' ==>
                    placeholder_at(t.tray_recording@, i, "{n}"@)
            &&& forall|i: int|
                0 <= i < t.tt_recording@.len() && #[trigger] t.tt_recording@[i] == '{' ==>
                    placeholder_at(t.tt_recording@, i, "{n}"@)
            &&& forall|i: int|
                0 <= i < t.notify_stopped@.len() && #[trigger] t.notify_stopped@[i] == '{' ==>
                    placeholder_at(t.notify_stopped@, i, "{n}"@)
            &&& forall|i: int|
                0 <= i < t.report_started@.len() && #[trigger] t.report_started@[i] == '{' ==>
                    placeholder_at(t.report_started@, i, "{x}"@)
            &&& forall|i: int|
                0 <= i < t.report_total@.len() && #[trigger] t.report_total@[i] == '{' ==>
                    placeholder_at(t.report_total@, i, "{n}"@)
            &&& forall|i: int|
                0 <= i < t.report_step@.len() && #[trigger] t.report_step@[i] == '{' ==>
                    placeholder_at(t.report_step@, i, "{n}"@)
        }),
{
    reveal_strlit("{action}");
    reveal_strlit("{element}");
    reveal_strlit("{title}");
    reveal_strlit("{n}");
    reveal_strlit("{x}");
    let t = table(lang);
    if lang == Lang::En {
        reveal_strlit("{action} on {element}");
        assert forall|i: int| 0 <= i < t.action_on@.len() && #[trigger] t.action_on@[i] == '{'
            implies placeholder_at(t.action_on@, i, "{action}"@)
            || placeholder_at(t.action_on@, i, "{element}"@) by {
            if i == 0 {
                assert(t.action_on@.subrange(i, i + "{action}"@.len()) =~= "{action}"@);
            } else if i == 12 {
                assert(t.action_on@.subrange(i, i + "{element}"@.len()) =~= "{element}"@);
            }
        }
        reveal_strlit("{action} in window “{title}”");
        assert forall|i: int| 0 <= i < t.in_window@.len() && #[trigger] t.in_window@[i] == '{'
            implies placeholder_at(t.in_window@, i, "{action}"@)
            || placeholder_at(t.in_window@, i, "{title}"@) by {
            if i == 0 {
                assert(t.in_window@.subrange(i, i + "{action}"@.len()) =~= "{action}"@);
            } else if i == 20 {
                assert(t.in_window@.subrange(i, i + "{title}"@.len()) =~= "{title}"@);
            }
        }
        reveal_strlit("{action} in the active window");
        assert forall|i: int| 0 <= i < t.in_active_window@.len() && #[trigger] t.in_active_window@[i] == '{'
            implies placeholder_at(t.in_active_window@, i, "{action}"@) by {
            if i == 0 {
                assert(t.in_active_window@.subrange(i, i + "{action}"@.len()) =~= "{action}"@);
            }
        }
        reveal_strlit("● Recording — {n} step(s)");
        assert forall|i: int| 0 <= i < t.tray_recording@.len() && #[trigger] t.tray_recording@[i] == '{'
            implies placeholder_at(t.tray_recording@, i, "{n}"@) by {
            if i == 14 {
                assert(t.tray_recording@.subrange(i, i + "{n}"@.len()) =~= "{n}"@);
            }
        }
        reveal_strlit("Recording — {n} step(s)");
        assert forall|i: int| 0 <= i < t.tt_recording@.len() && #[trigger] t.tt_recording@[i] == '{'
            implies placeholder_at(t.tt_recording@, i, "{n}"@) by {
            if i == 12 {
                assert(t.tt_recording@.subrange(i, i + "{n}"@.len()) =~= "{n}"@);
            }
        }
        reveal_strlit("Recording stopped — {n} step(s). Report saved.");
        assert forall|i: int| 0 <= i < t.notify_stopped@.len() && #[trigger] t.notify_stopped@[i] == '{'
            implies placeholder_at(t.notify_stopped@, i, "{n}"@) by {
            if i == 20 {
                assert(t.notify_stopped@.subrange(i, i + "{n}"@.len()) =~= "{n}"@);
            }
        }
        reveal_strlit("Started: {x}");
        assert forall|i: int| 0 <= i < t.report_started@.len() && #[trigger] t.report_started@[i] == '{'
            implies placeholder_at(t.report_started@, i, "{x}"@) by {
            if i == 9 {
                assert(t.report_started@.subrange(i, i + "{x}"@.len()) =~= "{x}"@);
            }
        }
        reveal_strlit("Total steps: {n}");
        assert forall|i: int| 0 <= i < t.report_total@.len() && #[trigger] t.report_total@[i] == '{'
            implies placeholder_at(t.report_total@, i, "{n}"@) by {
            if i == 13 {
                assert(t.report_total@.subrange(i, i + "{n}"@.len()) =~= "{n}"@);
            }
        }
        reveal_strlit("Step {n}");
        assert forall|i: int| 0 <= i < t.report_step@.len() && #[trigger] t.report_step@[i] == '{'
            implies placeholder_at(t.report_step@, i, "{n}"@) by {
            if i == 5 {
                assert(t.report_step@.subrange(i, i + "{n}"@.len()) =~= "{n}"@);
            }
        }
    } else {
        reveal_strlit("{action} auf {element}");
        assert forall|i: int| 0 <= i < t.action_on@.len() && #[trigger] t.action_on@[i] == '{'
            implies placeholder_at(t.action_on@, i, "{action}"@)
            || placeholder_at(t.action_on@, i, "{element}"@) by {
            if i == 0 {
                assert(t.action_on@.subrange(i, i + "{action}"@.len()) =~= "{action}"@);
            } else if i == 13 {
                assert(t.action_on@.subrange(i, i + "{element}"@.len()) =~= "{element}"@);
            }
        }
        reveal_strlit("{action} im Fenster „{title}“");
        assert forall|i: int| 0 <= i < t.in_window@.len() && #[trigger] t.in_window@[i] == '{'
            implies placeholder_at(t.in_window@, i, "{action}"@)
            || placeholder_at(t.in_window@, i, "{title}"@) by {
            if i == 0 {
                assert(t.in_window@.subrange(i, i + "{action}"@.len()) =~= "{action}"@);
            } else if i == 21 {
                assert(t.in_window@.subrange(i, i + "{title}"@.len()) =~= "{title}"@);
            }
        }
        reveal_strlit("{action} im aktiven Fenster");
        assert forall|i: int| 0 <= i < t.in_active_window@.len() && #[trigger] t.in_active_window@[i] == '{'
            implies placeholder_at(t.in_active_window@, i, "{action}"@) by {
            if i == 0 {
                assert(t.in_active_window@.subrange(i, i + "{action}"@.len()) =~= "{action}"@);
            }
        }
        reveal_strlit("● Aufnahme — {n} Schritt(e)");
        assert forall|i: int| 0 <= i < t.tray_recording@.len() && #[trigger] t.tray_recording@[i] == '{'
            implies placeholder_at(t.tray_recording@, i, "{n}"@) by {
            if i == 13 {
                assert(t.tray_recording@.subrange(i, i + "{n}"@.len()) =~= "{n}"@);
            }
        }
        reveal_strlit("Aufnahme — {n} Schritt(e)");
        assert forall|i: int| 0 <= i < t.tt_recording@.len() && #[trigger] t.tt_recording@[i] == '{'
            implies placeholder_at(t.tt_recording@, i, "{n}"@) by {
            if i == 11 {
                assert(t.tt_recording@.subrange(i, i + "{n}"@.len()) =~= "{n}"@);
            }
        }
        reveal_strlit("Aufnahme beendet — {n} Schritt(e). Bericht gespeichert.");
        assert forall|i: int| 0 <= i < t.notify_stopped@.len() && #[trigger] t.notify_stopped@[i] == '{'
            implies placeholder_at(t.notify_stopped@, i, "{n}"@) by {
            if i == 19 {
                assert(t.notify_stopped@.subrange(i, i + "{n}"@.len()) =~= "{n}"@);
            }
        }
        reveal_strlit("Gestartet: {x}");
        assert forall|i: int| 0 <= i < t.report_started@.len() && #[trigger] t.report_started@[i] == '{'
            implies placeholder_at(t.report_started@, i, "{x}"@) by {
            if i == 11 {
                assert(t.report_started@.subrange(i, i + "{x}"@.len()) =~= "{x}"@);
            }
        }
        reveal_strlit("Schritte gesamt: {n}");
        assert forall|i: int| 0 <= i < t.report_total@.len() && #[trigger] t.report_total@[i] == '{'
            implies placeholder_at(t.report_total@, i, "{n}"@) by {
            if i == 17 {
                assert(t.report_total@.subrange(i, i + "{n}"@.len()) =~= "{n}"@);
            }
        }
        reveal_strlit("Schritt {n}");
        assert forall|i: int| 0 <= i < t.report_step@.len() && #[trigger] t.report_step@[i] == '{'
            implies placeholder_at(t.report_step@, i, "{n}"@) by {
            if i == 8 {
                assert(t.report_step@.subrange(i, i + "{n}"@.len()) =~= "{n}"@);
            }
        }
    }
}

/// The first set variable is the one at `i` when all before it are unset.
proof fn lemma_first_set_at(vars: Seq<Option<Seq<char>>>, i: int)
    requires
        0 <= i < vars.len(),
        vars[i] is Some,
        forall|j: int| 0 <= j < i ==> (#[trigger] vars[j]) is None,
    ensures
        first_set(vars) == vars[i],
    decreases i,
{
    if i > 0 {
        let rest = vars.drop_first();
        assert forall|j: int| 0 <= j < i - 1 implies (#[trigger] rest[j]) is None by {
            assert(rest[j] == vars[j + 1]);
        }
        assert(rest[i - 1] == vars[i]);
        lemma_first_set_at(rest, i - 1);
    }
}

proof fn lemma_first_set_none(vars: Seq<Option<Seq<char>>>)
    requires
        forall|j: int| 0 <= j < vars.len() ==> (#[trigger] vars[j]) is None,
    ensures
        first_set(vars) is None,
    decreases vars.len(),
{
    if vars.len() > 0 {
        let rest = vars.drop_first();
        assert forall|j: int| 0 <= j < rest.len() implies (#[trigger] rest[j]) is None by {
            assert(rest[j] == vars[j + 1]);
        }
        lemma_first_set_none(rest);
    }
}

/// Law: the language is German exactly when the first of the locale
/// variables that is set has a value whose first two characters are `d`
/// and `e` in either case, whatever follows them (`de`, `de_DE.UTF-8`,
/// `de:en`, `DE` all select German); any other first value, the empty one
/// included, selects English, and so does no variable being set.
pub proof fn law_detect_reads_first_set_variable(vars: Seq<Option<Seq<char>>>, i: int, v: Seq<char>)
    requires
        0 <= i < vars.len(),
        vars[i] == Some(v),
        forall|j: int| 0 <= j < i ==> (#[trigger] vars[j]) is None,
    ensures
        detected_lang(vars) == (if v.len() >= 2 && (v[0] == 'd' || v[0] == 'D') && (v[1] == 'e'
            || v[1] == 'E') {
            Lang::De
        } else {
            Lang::En
        }),
{
    lemma_first_set_at(vars, i);
}

/// Law: with no locale variable set, the language is English.
pub proof fn law_detect_defaults_to_english(vars: Seq<Option<Seq<char>>>)
    requires
        forall|j: int| 0 <= j < vars.len() ==> (#[trigger] vars[j]) is None,
    ensures
        detected_lang(vars) == Lang::En,
{
    lemma_first_set_none(vars);
}

} // verus!

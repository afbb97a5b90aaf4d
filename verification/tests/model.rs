use stepshot::i18n::{strings_for, Lang};
use stepshot::model::{step_image_file, Button, Click, Step};

fn step(button: Button, title: Option<&str>, element: Option<&str>) -> Step {
    Step {
        index: 1,
        button,
        time: "12:00:00".to_string(),
        image_file: "step-001.png".to_string(),
        window_title: title.map(|s| s.to_string()),
        element: element.map(|s| s.to_string()),
    }
}

#[test]
fn evdev_codes_map_to_buttons() {
    assert_eq!(Button::from_evdev_code(272), Some(Button::Left));
    assert_eq!(Button::from_evdev_code(273), Some(Button::Right));
    assert_eq!(Button::from_evdev_code(274), Some(Button::Middle));
    assert_eq!(Button::from_evdev_code(275), None);
    assert_eq!(Button::from_evdev_code(0), None);
    let c = Click { button: Button::Right };
    assert_eq!(c.button, Button::Right);
}

#[test]
fn button_labels_per_language() {
    let en = strings_for(Lang::En);
    let de = strings_for(Lang::De);
    assert_eq!(Button::Left.label(&en), "Left click");
    assert_eq!(Button::Right.label(&en), "Right click");
    assert_eq!(Button::Middle.label(&en), "Middle click");
    assert_eq!(Button::Left.label(&de), "Linksklick");
    assert_eq!(Button::Right.label(&de), "Rechtsklick");
    assert_eq!(Button::Middle.label(&de), "Mittelklick");
}

#[test]
fn describe_with_element_and_title() {
    let en = strings_for(Lang::En);
    let s = step(Button::Left, Some("Editor"), Some("button “Save”"));
    assert_eq!(s.describe(&en), "Left click on button “Save” in window “Editor”");
    let de = strings_for(Lang::De);
    assert_eq!(s.describe(&de), "Linksklick auf button “Save” im Fenster „Editor“");
}

#[test]
fn describe_without_context_uses_active_window() {
    let en = strings_for(Lang::En);
    assert_eq!(step(Button::Right, None, None).describe(&en), "Right click in the active window");
    assert_eq!(
        step(Button::Middle, Some(""), Some("")).describe(&en),
        "Middle click in the active window"
    );
    assert_eq!(
        step(Button::Left, None, Some("link “Home”")).describe(&en),
        "Left click on link “Home” in the active window"
    );
    let de = strings_for(Lang::De);
    assert_eq!(
        step(Button::Right, Some("Dateien"), None).describe(&de),
        "Rechtsklick im Fenster „Dateien“"
    );
}

#[test]
fn describe_does_not_expand_placeholders_in_values() {
    let en = strings_for(Lang::En);
    let s = step(Button::Left, Some("{title}"), Some("{action}"));
    assert_eq!(s.describe(&en), "Left click on {action} in window “{title}”");
}

#[test]
fn image_file_names_are_zero_padded() {
    assert_eq!(step_image_file(0), "step-000.png");
    assert_eq!(step_image_file(1), "step-001.png");
    assert_eq!(step_image_file(42), "step-042.png");
    assert_eq!(step_image_file(999), "step-999.png");
    assert_eq!(step_image_file(1234), "step-1234.png");
}

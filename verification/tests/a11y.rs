use stepshot::a11y::{
    accessible_at, button_centre, children_of, dump_line, element_from_node, is_named_button,
    restore_needed, AccessibleRef, Descent, ElementSearch, MAX_DESCENT, NULL_PATH,
};

fn r(bus: &str, path: &str) -> AccessibleRef {
    AccessibleRef { bus: bus.to_string(), path: path.to_string() }
}

fn pair(bus: &str, path: &str) -> (String, String) {
    (bus.to_string(), path.to_string())
}

#[test]
fn answers_naming_no_object() {
    assert!(accessible_at(String::new(), "/a".to_string()).is_none());
    assert!(accessible_at(":1.2".to_string(), String::new()).is_none());
    assert!(accessible_at(":1.2".to_string(), NULL_PATH.to_string()).is_none());
    let a = accessible_at(":1.2".to_string(), "/org/a11y/atspi/accessible/5".to_string()).unwrap();
    assert_eq!((a.bus.as_str(), a.path.as_str()), (":1.2", "/org/a11y/atspi/accessible/5"));
}

#[test]
fn children_skip_null_objects() {
    let list = vec![pair(":1.2", "/a"), pair(":1.3", NULL_PATH), pair(":1.4", "/b"), pair("", "/c")];
    let kids = children_of(&list);
    let got: Vec<(&str, &str)> = kids.iter().map(|k| (k.bus.as_str(), k.path.as_str())).collect();
    assert_eq!(got, vec![(":1.2", "/a"), (":1.4", "/b"), ("", "/c")]);
}

#[test]
fn descent_follows_children_until_none() {
    let mut d = Descent::new(r(":1.2", "/frame"));
    assert!(!d.advance(Some(r(":1.2", "/panel"))));
    assert!(!d.advance(Some(r(":1.2", "/button"))));
    assert!(d.advance(None));
    assert_eq!(d.steps, 2);
    let found = d.result().unwrap();
    assert_eq!(found.path, "/button");
}

#[test]
fn descent_stops_at_an_object_naming_itself() {
    let mut d = Descent::new(r(":1.2", "/frame"));
    assert!(!d.advance(Some(r(":1.2", "/leaf"))));
    assert!(d.advance(Some(r(":1.2", "/leaf"))));
    assert_eq!(d.result().unwrap().path, "/leaf");
}

#[test]
fn descent_outside_the_window_finds_nothing() {
    let mut d = Descent::new(r(":1.2", "/frame"));
    assert!(d.advance(None));
    assert!(d.result().is_none());
    let mut d = Descent::new(r(":1.2", "/frame"));
    assert!(d.advance(Some(r(":1.2", "/frame"))));
    assert!(d.result().is_none());
}

#[test]
fn descent_ends_after_at_most_forty_one_answers() {
    let mut d = Descent::new(r(":1.2", "/n0"));
    let mut answers = 0;
    loop {
        answers += 1;
        let next = format!("/n{answers}");
        if d.advance(Some(r(":1.2", &next))) {
            break;
        }
    }
    assert_eq!(answers, MAX_DESCENT as usize + 1);
    assert_eq!(d.steps, MAX_DESCENT + 1);
    assert_eq!(d.result().unwrap().path, "/n41");
}

#[test]
fn nodes_with_a_name_or_role_are_elements() {
    assert!(element_from_node(String::new(), String::new()).is_none());
    let e = element_from_node("Save".to_string(), String::new()).unwrap();
    assert_eq!((e.name.as_str(), e.role.as_str()), ("Save", ""));
    let e = element_from_node(String::new(), "panel".to_string()).unwrap();
    assert_eq!(e.role, "panel");
}

#[test]
fn named_buttons() {
    assert!(is_named_button("push button", "OK"));
    assert!(is_named_button("toggle button", "Bold"));
    assert!(!is_named_button("push button", ""));
    assert!(!is_named_button("label", "OK"));
    assert!(!is_named_button("Button", "OK"));
}

#[test]
fn button_centre_of_extents() {
    assert_eq!(button_centre(Some((10, 20, 100, 50))), Some((60, 45)));
    assert_eq!(button_centre(Some((-10, -20, 5, 3))), Some((-8, -19)));
    assert_eq!(button_centre(Some((10, 20, 0, 50))), None);
    assert_eq!(button_centre(Some((10, 20, 100, -1))), None);
    assert_eq!(button_centre(None), None);
}

#[test]
fn dump_lines_are_indented_per_level() {
    assert_eq!(dump_line(0, "application", "kate", ":1.5"), "[application] “kate”  (:1.5)");
    assert_eq!(dump_line(2, "push button", "", ":1.5"), "    [push button] “”  (:1.5)");
}

#[test]
fn restore_only_what_was_off() {
    assert!(restore_needed(Some(false)));
    assert!(!restore_needed(Some(true)));
    assert!(!restore_needed(None));
}

#[test]
fn search_stops_at_the_first_named_node() {
    let mut s = ElementSearch::new();
    assert!(!s.offer(None));
    let mut s2 = ElementSearch::new();
    assert!(!s2.offer(Some((String::new(), String::new()))));
    assert!(s.offer(Some(("Save".to_string(), "push button".to_string()))));
    let e = s.result().unwrap();
    assert_eq!((e.name.as_str(), e.role.as_str()), ("Save", "push button"));
    assert!(s2.result().is_none());
}

use stepshot::selftest::{select_test_mode, TestMode};

fn some(s: &str) -> Option<String> {
    Some(s.to_string())
}

#[test]
fn first_set_variable_wins() {
    assert_eq!(select_test_mode(true, true, some("5"), true, true), TestMode::Icon);
    assert_eq!(select_test_mode(false, true, some("5"), true, true), TestMode::AtTree { depth: 5 });
    assert_eq!(select_test_mode(false, false, None, true, true), TestMode::AtDump);
    assert_eq!(select_test_mode(false, false, None, false, true), TestMode::Oneshot);
    assert_eq!(select_test_mode(false, false, None, false, false), TestMode::Normal);
}

#[test]
fn tree_depth_defaults_to_three() {
    assert_eq!(select_test_mode(false, true, None, false, false), TestMode::AtTree { depth: 3 });
    assert_eq!(select_test_mode(false, true, some(""), false, false), TestMode::AtTree { depth: 3 });
    assert_eq!(select_test_mode(false, true, some("deep"), false, false), TestMode::AtTree { depth: 3 });
    assert_eq!(select_test_mode(false, true, some(" 4"), false, false), TestMode::AtTree { depth: 3 });
    assert_eq!(select_test_mode(false, true, some("-1"), false, false), TestMode::AtTree { depth: 3 });
    assert_eq!(
        select_test_mode(false, true, some("4294967296"), false, false),
        TestMode::AtTree { depth: 3 }
    );
}

#[test]
fn tree_depth_parses_like_u32() {
    assert_eq!(select_test_mode(false, true, some("+7"), false, false), TestMode::AtTree { depth: 7 });
    assert_eq!(select_test_mode(false, true, some("007"), false, false), TestMode::AtTree { depth: 7 });
    assert_eq!(
        select_test_mode(false, true, some("4294967295"), false, false),
        TestMode::AtTree { depth: u32::MAX }
    );
}

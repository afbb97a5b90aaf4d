use stepshot::icon::argb_from_rgba;
use stepshot::input::click_for_event;
use stepshot::model::Button;

#[test]
fn only_button_presses_are_clicks() {
    assert_eq!(click_for_event(true, 272, 1).map(|c| c.button), Some(Button::Left));
    assert_eq!(click_for_event(true, 273, 1).map(|c| c.button), Some(Button::Right));
    assert_eq!(click_for_event(true, 274, 1).map(|c| c.button), Some(Button::Middle));
    assert!(click_for_event(true, 272, 0).is_none()); // release
    assert!(click_for_event(true, 272, 2).is_none()); // auto-repeat
    assert!(click_for_event(false, 272, 1).is_none()); // not a key event
    assert!(click_for_event(true, 30, 1).is_none()); // a keyboard key
}

#[test]
fn rgba_pixels_become_argb() {
    let mut data = vec![1, 2, 3, 4, 5, 6, 7, 8];
    argb_from_rgba(&mut data);
    assert_eq!(data, vec![4, 1, 2, 3, 8, 5, 6, 7]);
    let mut odd = vec![1, 2, 3, 4, 9, 9];
    argb_from_rgba(&mut odd);
    assert_eq!(odd, vec![4, 1, 2, 3, 9, 9]);
    let mut empty: Vec<u8> = vec![];
    argb_from_rgba(&mut empty);
    assert!(empty.is_empty());
}

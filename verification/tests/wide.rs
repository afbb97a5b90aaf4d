use stepshot::wide::{put_wide, wide};

#[test]
fn wide_is_nul_terminated_utf16() {
    assert_eq!(wide(""), vec![0]);
    assert_eq!(wide("ab"), vec![97, 98, 0]);
    assert_eq!(wide("é😀"), vec![0xe9, 0xd83d, 0xde00, 0]);
}

#[test]
fn put_wide_truncates_and_terminates() {
    let mut f = [0xffffu16; 4];
    put_wide(&mut f, "hello");
    assert_eq!(f, [104, 101, 108, 0]);
    let mut f = [0xffffu16; 5];
    put_wide(&mut f, "hi");
    assert_eq!(f, [104, 105, 0, 0, 0]);
    let mut f = [7u16; 1];
    put_wide(&mut f, "x");
    assert_eq!(f, [0]);
    let mut f: [u16; 0] = [];
    put_wide(&mut f, "x");
}

#[test]
fn put_wide_may_split_a_surrogate_pair() {
    let mut f = [1u16; 2];
    put_wide(&mut f, "😀");
    assert_eq!(f, [0xd83d, 0]);
}

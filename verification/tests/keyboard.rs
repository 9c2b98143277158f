use heineos::key::{poll_char, poll_key_press, wait_for_return, KeyEvent};

fn ev(pressed: bool, ascii: Option<char>) -> KeyEvent {
    KeyEvent { pressed, ascii }
}

#[test]
fn key_press_skips_releases() {
    let events = vec![ev(false, Some('a')), ev(false, None), ev(true, None), ev(true, Some('b'))];
    assert_eq!(poll_key_press(&events), Some(2));
    assert_eq!(poll_key_press(&vec![ev(false, Some('a'))]), None);
}

#[test]
fn char_skips_releases_and_keys_without_ascii() {
    let events = vec![ev(false, Some('a')), ev(true, None), ev(true, Some('b')), ev(true, Some('c'))];
    assert_eq!(poll_char(&events), Some((2, 'b')));
    assert_eq!(poll_char(&vec![ev(true, None)]), None);
}

#[test]
fn return_ends_the_wait() {
    assert_eq!(wait_for_return(&vec!['h', 'i', '\r', 'x', '\r']), Some(2));
    assert_eq!(wait_for_return(&vec!['h', '\n']), None);
}

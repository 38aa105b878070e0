use base64::engine::general_purpose::STANDARD;
use base64::Engine;
use sqlens::clipboard::clipboard_sequence;

#[test]
fn clipboard_sequence_is_an_osc52_request() {
    assert_eq!(clipboard_sequence("hello"), "\x1b]52;c;aGVsbG8=\x07");
    assert_eq!(clipboard_sequence(""), "\x1b]52;c;\x07");
    assert_eq!(clipboard_sequence("a"), "\x1b]52;c;YQ==\x07");
    assert_eq!(clipboard_sequence("ab?"), "\x1b]52;c;YWI/\x07");
    assert_eq!(clipboard_sequence("界>~"), "\x1b]52;c;55WMPn4=\x07");
}

#[test]
fn copied_controls_do_not_reach_the_terminal() {
    let text = "\x1b]0;title\x07\n\u{9b}31m";
    let s = clipboard_sequence(text);
    let inner = &s[1..s.len() - 1];
    assert!(!inner.chars().any(char::is_control));
    let payload = s.strip_prefix("\x1b]52;c;").unwrap();
    let payload = payload.strip_suffix('\x07').unwrap();
    assert_eq!(STANDARD.decode(payload).unwrap(), text.as_bytes());
}

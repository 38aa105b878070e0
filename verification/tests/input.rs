use sqlens::input::{Input, InputKind, KeyCode, KeyEvent};

fn key(code: KeyCode) -> KeyEvent {
    KeyEvent {
        code,
        control: false,
        alt: false,
    }
}

fn ctrl(c: char) -> KeyEvent {
    KeyEvent {
        code: KeyCode::Char(c),
        control: true,
        alt: false,
    }
}

fn line(text: &str) -> Input {
    Input::new(InputKind::Filter("name".into()), text.into())
}

#[test]
fn a_line_opens_with_the_cursor_at_its_end() {
    let input = line("é界");
    assert_eq!(input.cursor, 2);
    assert_eq!(input.kind, InputKind::Filter("name".into()));
}

#[test]
fn pasted_control_characters_are_left_out() {
    let mut input = line("ab");
    input.key(key(KeyCode::Left));
    input.insert("1\n2\t3\u{1b}\u{85}4");
    assert_eq!(input.text, "a1234b");
    assert_eq!(input.cursor, 5);
    input.key(key(KeyCode::Char('\u{7}')));
    assert_eq!(input.text, "a1234b");
}

#[test]
fn backspace_takes_back_what_was_typed() {
    let mut input = line("x🙂y");
    input.key(key(KeyCode::Left));
    input.key(key(KeyCode::Char('é')));
    assert_eq!((input.text.as_str(), input.cursor), ("x🙂éy", 3));
    input.key(key(KeyCode::Backspace));
    assert_eq!((input.text.as_str(), input.cursor), ("x🙂y", 2));
}

#[test]
fn the_cursor_stays_in_the_line() {
    let mut input = line("界");
    input.key(key(KeyCode::Right));
    assert_eq!(input.cursor, 1);
    input.key(key(KeyCode::Delete));
    assert_eq!(input.text, "界");
    input.key(key(KeyCode::Home));
    input.key(key(KeyCode::Left));
    input.key(key(KeyCode::Backspace));
    assert_eq!((input.text.as_str(), input.cursor), ("界", 0));
    input.key(key(KeyCode::End));
    assert_eq!(input.cursor, 1);
}

#[test]
fn control_keys_edit_the_line() {
    let mut input = line("abc");
    input.key(ctrl('a'));
    assert_eq!(input.cursor, 0);
    input.key(ctrl('e'));
    assert_eq!(input.cursor, 3);
    input.key(ctrl('x'));
    input.key(KeyEvent {
        code: KeyCode::Char('y'),
        control: false,
        alt: true,
    });
    assert_eq!(input.text, "abc");
    input.key(ctrl('u'));
    assert_eq!((input.text.as_str(), input.cursor), ("", 0));
    input.key(key(KeyCode::Tab));
    assert_eq!(input.clone().text, "");
}

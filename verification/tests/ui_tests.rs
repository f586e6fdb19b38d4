use lilith::ui::{apply_chat_input, len_utf8, Action, Align, ButtonAction, InputBuffer};

#[test]
fn utf8_lengths() {
    assert_eq!(len_utf8('a'), 1);
    assert_eq!(len_utf8('é'), 2);
    assert_eq!(len_utf8('あ'), 3);
    assert_eq!(len_utf8('😀'), 4);
    for c in ['a', 'é', 'あ', '😀', '\u{7f}', '\u{80}', '\u{7ff}', '\u{800}', '\u{ffff}', '\u{10000}'] {
        assert_eq!(len_utf8(c), c.len_utf8());
    }
}

#[test]
fn typing_moves_the_cursor_by_bytes() {
    let mut b = InputBuffer::new("type here".to_string());
    assert_eq!(b.placeholder, "type here");
    assert!(!b.is_focused);
    b.push_char('a');
    b.push_char('あ');
    b.push_char('b');
    assert_eq!(b.buffer, "aあb");
    assert_eq!(b.cursor, 5);
}

#[test]
fn typing_in_the_middle() {
    let mut b = InputBuffer { buffer: "aあb".to_string(), cursor: 1, is_focused: true, placeholder: String::new() };
    b.push_char('é');
    assert_eq!(b.buffer, "aéあb");
    assert_eq!(b.cursor, 3);
    b.backspace();
    assert_eq!(b.buffer, "aあb");
    assert_eq!(b.cursor, 1);
    b.backspace();
    assert_eq!(b.buffer, "あb");
    assert_eq!(b.cursor, 0);
    b.backspace();
    assert_eq!(b.buffer, "あb");
    assert_eq!(b.cursor, 0);
    assert!(b.is_focused);
}

#[test]
fn backspace_undoes_typing() {
    let mut b = InputBuffer { buffer: "xyz".to_string(), cursor: 2, is_focused: false, placeholder: String::new() };
    for c in ['q', 'ß', '語', '🎈'] {
        b.push_char(c);
        b.backspace();
        assert_eq!(b.buffer, "xyz");
        assert_eq!(b.cursor, 2);
    }
}

#[test]
fn chat_line_editing_and_sending() {
    let mut line = String::new();
    assert_eq!(apply_chat_input(&mut line, "こん"), None);
    assert_eq!(apply_chat_input(&mut line, "にちは"), None);
    assert_eq!(line, "こんにちは");
    assert_eq!(apply_chat_input(&mut line, "\x08"), None);
    assert_eq!(line, "こんにち");
    assert_eq!(apply_chat_input(&mut line, "\n"), Some("こんにち".to_string()));
    assert_eq!(line, "");
    assert_eq!(apply_chat_input(&mut line, "\n"), None);
    assert_eq!(apply_chat_input(&mut line, "\x08"), None);
    assert_eq!(line, "");
    assert_eq!(apply_chat_input(&mut line, "a\n"), None);
    assert_eq!(line, "a\n");
}

#[test]
fn ui_enums() {
    assert!(matches!(Action::Inert, Action::Inert));
    assert!(matches!(Align::Center, Align::Center));
    assert_ne!(ButtonAction::RequestToHuman, ButtonAction::SaveWeights);
}

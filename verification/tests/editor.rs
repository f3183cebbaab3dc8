use gl_editor::editor::{Cursor, Editor, Key};

fn editor_with(lines: &[&str], line: u32, char: u32) -> Editor {
    let mut editor = Editor::default();
    editor.lines = lines.iter().map(|s| String::from(*s)).collect();
    editor.cursor = Cursor { line, char };
    editor
}

fn texts(editor: &Editor) -> Vec<&str> {
    editor.lines.iter().map(|s| s.as_str()).collect()
}

#[test]
fn test_editor() {
    let mut editor = Editor::default();
    let test_str = "Hello World";
    editor.lines = vec![String::from(test_str)];
    editor.delete(0, 0..(test_str.len() + 10) as i32);
    let first_line = editor.lines.get(0).expect("first line");
    assert_eq!(first_line, &String::from(""));

    editor.lines = vec![String::from(test_str)];
    editor.delete(0, 5..test_str.len() as i32);
    let first_line = editor.lines.get(0).expect("first line");
    assert_eq!(first_line, &String::from("Hello"));

    editor.lines = vec![String::from(test_str)];
    editor.delete(0, 20..(test_str.len() + 10) as i32);
    let first_line = editor.lines.get(0).expect("first line");
    assert_eq!(first_line, &String::from("Hello World"));
}

#[test]
fn test_lerp() {}

#[test]
fn default_has_one_empty_line() {
    let editor = Editor::default();
    assert_eq!(editor.lines, vec![String::new()]);
    assert_eq!(editor.cursor, Cursor { line: 0, char: 0 });
}

#[test]
fn delete_clamps_negative_start() {
    let mut editor = editor_with(&["Hello"], 0, 0);
    editor.delete(0, -3..2);
    assert_eq!(texts(&editor), vec!["llo"]);
}

#[test]
fn delete_reversed_range_repeats_middle() {
    let mut editor = editor_with(&["Hello"], 0, 0);
    editor.delete(0, 4..2);
    assert_eq!(texts(&editor), vec!["Hellllo"]);
}

#[test]
fn delete_empty_range_keeps_line() {
    let mut editor = editor_with(&["Hello"], 0, 0);
    editor.delete(0, 3..3);
    assert_eq!(texts(&editor), vec!["Hello"]);
}

#[test]
fn delete_on_missing_line_does_nothing() {
    let mut editor = editor_with(&["a", "b"], 1, 0);
    editor.delete(7, 0..1);
    assert_eq!(texts(&editor), vec!["a", "b"]);
    assert_eq!(editor.cursor, Cursor { line: 1, char: 0 });
}

#[test]
fn delete_multibyte_character() {
    let mut editor = editor_with(&["aéb"], 0, 0);
    editor.delete(0, 1..3);
    assert_eq!(texts(&editor), vec!["ab"]);
}

#[test]
fn typing_inserts_at_caret() {
    let mut editor = editor_with(&["Hllo", "x"], 0, 1);
    editor.handle_text(String::from("e"));
    assert_eq!(texts(&editor), vec!["Hello", "x"]);
    assert_eq!(editor.cursor, Cursor { line: 0, char: 2 });
}

#[test]
fn typing_past_end_appends() {
    let mut editor = editor_with(&["ab"], 0, 9);
    editor.handle_text(String::from("cd"));
    assert_eq!(texts(&editor), vec!["abcd"]);
    assert_eq!(editor.cursor, Cursor { line: 0, char: 11 });
}

#[test]
fn typing_multibyte_moves_by_bytes() {
    let mut editor = editor_with(&["ab"], 0, 1);
    editor.handle_text(String::from("é"));
    assert_eq!(texts(&editor), vec!["aéb"]);
    assert_eq!(editor.cursor, Cursor { line: 0, char: 3 });
}

#[test]
fn delete_undoes_typing() {
    let mut editor = editor_with(&["Hello World"], 0, 5);
    editor.handle_text(String::from(", dear"));
    assert_eq!(texts(&editor), vec!["Hello, dear World"]);
    editor.delete(0, 5..11);
    assert_eq!(texts(&editor), vec!["Hello World"]);
}

#[test]
fn backspace_undoes_typing() {
    let mut editor = editor_with(&["ac", "z"], 0, 1);
    editor.handle_text(String::from("b"));
    assert_eq!(texts(&editor), vec!["abc", "z"]);
    editor.handle_input(Key::Backspace);
    assert_eq!(texts(&editor), vec!["ac", "z"]);
    assert_eq!(editor.cursor, Cursor { line: 0, char: 1 });
}

#[test]
fn paste_inserts_before_caret_line() {
    let mut editor = editor_with(&["a", "b", "c"], 1, 0);
    editor.paste_lines(vec![String::from("x"), String::from("y")]);
    assert_eq!(texts(&editor), vec!["a", "x", "y", "b", "c"]);
    assert_eq!(editor.cursor, Cursor { line: 1, char: 0 });
}

#[test]
fn paste_clamps_caret_first() {
    let mut editor = editor_with(&["ab", "abcdef"], 9, 5);
    editor.paste_lines(vec![String::from("x")]);
    assert_eq!(texts(&editor), vec!["ab", "x", "abcdef"]);
    assert_eq!(editor.cursor, Cursor { line: 1, char: 2 });
}

#[test]
fn paste_into_default_editor() {
    let mut editor = Editor::default();
    editor.paste_lines(vec![String::from("Hello world")]);
    assert_eq!(texts(&editor), vec!["Hello world", ""]);
}

#[test]
fn up_and_down_stay_on_existing_lines() {
    let mut editor = editor_with(&["a", "b", "c"], 0, 0);
    editor.handle_input(Key::Up);
    assert_eq!(editor.cursor, Cursor { line: 0, char: 0 });
    editor.handle_input(Key::Down);
    editor.handle_input(Key::Down);
    editor.handle_input(Key::Down);
    assert_eq!(editor.cursor, Cursor { line: 2, char: 0 });
}

#[test]
fn home_and_end() {
    let mut editor = editor_with(&["hello"], 0, 2);
    editor.handle_input(Key::End);
    assert_eq!(editor.cursor, Cursor { line: 0, char: 5 });
    editor.handle_input(Key::Home);
    assert_eq!(editor.cursor, Cursor { line: 0, char: 0 });
}

#[test]
fn left_and_right_clamp_to_line() {
    let mut editor = editor_with(&["abc"], 0, 10);
    editor.handle_input(Key::Left);
    assert_eq!(editor.cursor, Cursor { line: 0, char: 2 });
    editor.handle_input(Key::Right);
    editor.handle_input(Key::Right);
    assert_eq!(editor.cursor, Cursor { line: 0, char: 3 });
    editor.handle_input(Key::Home);
    editor.handle_input(Key::Left);
    assert_eq!(editor.cursor, Cursor { line: 0, char: 0 });
}

#[test]
fn delete_key_removes_next_byte() {
    let mut editor = editor_with(&["abc"], 0, 1);
    editor.handle_input(Key::Delete);
    assert_eq!(texts(&editor), vec!["ac"]);
    assert_eq!(editor.cursor, Cursor { line: 0, char: 1 });
    editor.handle_input(Key::End);
    editor.handle_input(Key::Delete);
    assert_eq!(texts(&editor), vec!["ac"]);
}

#[test]
fn backspace_at_line_start_does_nothing() {
    let mut editor = editor_with(&["abc"], 0, 0);
    editor.handle_input(Key::Backspace);
    assert_eq!(texts(&editor), vec!["abc"]);
    assert_eq!(editor.cursor, Cursor { line: 0, char: 0 });
}

#[test]
fn other_key_only_clamps_line() {
    let mut editor = editor_with(&["abc", "d"], 7, 9);
    editor.handle_input(Key::Other);
    assert_eq!(editor.cursor, Cursor { line: 1, char: 9 });
}

#[test]
fn cursor_prefix_cases() {
    let editor = editor_with(&["hello"], 0, 3);
    assert_eq!(editor.cursor_prefix(), Some(String::from("hel")));
    let editor = editor_with(&["hello"], 0, 30);
    assert_eq!(editor.cursor_prefix(), Some(String::from("hello")));
    let editor = editor_with(&["hello"], 2, 0);
    assert_eq!(editor.cursor_prefix(), None);
}

#[test]
fn checks_reject_cuts_inside_a_character() {
    let editor = editor_with(&["é"], 0, 1);
    assert!(!editor.text_allowed(&String::from("x")));
    assert!(!editor.prefix_allowed());
    assert!(!editor.delete_allowed(0, &(0..1)));
    assert!(editor.delete_allowed(0, &(0..2)));
    assert!(editor.delete_allowed(5, &(0..1)));
    let editor = editor_with(&["é"], 0, 0);
    assert!(!editor.input_allowed(Key::Delete));
    assert!(editor.input_allowed(Key::Backspace));
    assert!(editor.text_allowed(&String::from("x")));
    assert!(editor.prefix_allowed());
}

#[test]
fn checks_reject_overflow_and_empty_buffers() {
    let editor = editor_with(&["a"], 0, u32::MAX);
    assert!(!editor.text_allowed(&String::from("x")));
    assert!(editor.text_allowed(&String::new()));
    let editor = editor_with(&[], 0, 0);
    assert!(!editor.input_allowed(Key::Other));
    assert!(!editor.text_allowed(&String::from("x")));
    let editor = editor_with(&["a"], 0, i32::MAX as u32);
    assert!(!editor.input_allowed(Key::End));
    assert!(editor.input_allowed(Key::Home));
}

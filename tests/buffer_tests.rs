use yate::editor::{handle_key_event, handle_mouse_event, clamp_axis, Action, Cursor, EditorCommand, Key};
use yate::file_buffer::FileBuffer;

#[test]
fn buffer_starts_clean() {
    let b = FileBuffer::new(String::from("notes.txt"), String::from("one\ntwo"));
    assert!(!b.is_dirty());
    assert_eq!(b.filename(), "notes.txt");
    assert_eq!(b.get_contents(), "one\ntwo");
    assert_eq!(b.rope().line_breaks(), 1);
}

#[test]
fn buffer_edits_set_dirty_and_keep_previous() {
    let mut b = FileBuffer::new(String::from("f"), String::from("hello world"));
    let prev = b.apply_insert(5, String::from("!!!"));
    assert!(b.is_dirty());
    assert_eq!(b.get_contents(), "hello!!! world");
    assert_eq!(prev.materialize(), "hello world");
    let prev = b.apply_delete(5, 3);
    assert_eq!(b.get_contents(), "hello world");
    assert_eq!(prev.materialize(), "hello!!! world");
    b.mark_saved();
    assert!(!b.is_dirty());
    assert_eq!(b.get_contents(), "hello world");
}

#[test]
fn keys_map_to_commands() {
    assert_eq!(handle_key_event(Key::Char('q')), EditorCommand::Quit);
    assert_eq!(handle_key_event(Key::Char('\n')), EditorCommand::MoveCursorStartOfNextLine);
    assert_eq!(handle_key_event(Key::Left), EditorCommand::MoveCursor(-1, 0));
    assert_eq!(handle_key_event(Key::Char('l')), EditorCommand::MoveCursor(1, 0));
    assert_eq!(handle_key_event(Key::Char('j')), EditorCommand::MoveCursor(0, -1));
    assert_eq!(handle_key_event(Key::Down), EditorCommand::MoveCursor(0, 1));
    assert_eq!(handle_key_event(Key::Char('x')), EditorCommand::TypeChar('x'));
    assert_eq!(handle_key_event(Key::Other), EditorCommand::DoNothing);
    assert_eq!(handle_mouse_event(4, 7), EditorCommand::SetPosition(4, 7));
}

#[test]
fn cursor_is_clamped_per_axis() {
    assert_eq!(clamp_axis(0, -1, 80), 0);
    assert_eq!(clamp_axis(80, 1, 80), 80);
    assert_eq!(clamp_axis(10, 5, 80), 15);
    let mut c = Cursor::new(80, 24);
    assert_eq!(c.process_command(EditorCommand::MoveCursor(-5, 30)), Action::Goto(0, 24));
    assert_eq!(c.process_command(EditorCommand::MoveCursorStartOfNextLine), Action::BreakLineThenGoto(0, 24));
    assert_eq!(c.process_command(EditorCommand::SetPosition(3, 4)), Action::Goto(3, 4));
    assert_eq!(c.process_command(EditorCommand::TypeChar('z')), Action::GotoThenWrite(4, 4, 'z'));
    assert_eq!(c.process_command(EditorCommand::Quit), Action::Quit);
    assert_eq!(c.process_command(EditorCommand::DoNothing), Action::Nothing);
    assert_eq!((c.x, c.y), (4, 4));
}

use alfred::buffer;
use alfred::command::{self, CommandRegistry};
use alfred::cursor;
use alfred::editor_state::{self, EditorState, Keymap};
use alfred::error::AlfredError;
use alfred::key_event::{KeyCode, KeyEvent};


// -----------------------------------------------------------------------
// Acceptance test: register a command, execute it, verify state change
// -----------------------------------------------------------------------

#[test]
fn given_editor_state_when_command_registered_and_executed_then_state_changes() {
    // Given: an EditorState with default initialization
    let mut state = editor_state::new(80, 24);

    // And: cursor starts at (0, 0), running is true, message is None
    assert_eq!(state.cursor.line, 0);
    assert_eq!(state.cursor.column, 0);
    assert!(state.running);
    assert!(state.message.is_none());

    // And: a command is registered that sets a message
    let mut commands: CommandRegistry<fn(&mut EditorState) -> Result<(), AlfredError>> = CommandRegistry::new();
    command::register(&mut commands, "greet".to_string(), |state| {
        state.message = Some("Hello from command!".to_string());
        Ok(())
    });

    // When: the command is executed
    let result = command::find_command(&commands, "greet").and_then(|f| f(&mut state));

    // Then: execution succeeds
    assert!(result.is_ok());

    // And: the state has been mutated by the command
    assert_eq!(state.message, Some("Hello from command!".to_string()));
}

// -----------------------------------------------------------------------
// Unit tests: EditorState initialization
// -----------------------------------------------------------------------

#[test]
fn given_new_editor_state_then_cursor_at_origin() {
    let state = editor_state::new(80, 24);
    assert_eq!(state.cursor.line, 0);
    assert_eq!(state.cursor.column, 0);
}

#[test]
fn given_new_editor_state_then_viewport_matches_terminal_size() {
    let state = editor_state::new(80, 24);
    assert_eq!(state.viewport.width, 80);
    assert_eq!(state.viewport.height, 24);
    assert_eq!(state.viewport.top_line, 0);
}

#[test]
fn given_new_editor_state_then_running_is_true() {
    let state = editor_state::new(80, 24);
    assert!(state.running);
}

#[test]
fn given_new_editor_state_then_message_is_none() {
    let state = editor_state::new(80, 24);
    assert!(state.message.is_none());
}

#[test]
fn given_new_editor_state_then_mode_is_normal() {
    let state = editor_state::new(80, 24);
    assert_eq!(state.mode, "normal");
}

#[test]
fn given_new_editor_state_then_command_registry_is_empty() {
    let state = editor_state::new(80, 24);
    let _ = &state;
    assert!(command::lookup(&CommandRegistry::<u8>::new(), "anything").is_none());
}

#[test]
fn given_new_editor_state_then_active_keymaps_is_empty() {
    let state = editor_state::new(80, 24);
    assert!(state.active_keymaps.is_empty());
}

// -----------------------------------------------------------------------
// Unit tests (06-02): resolve_key keymap lookup
// Test Budget: 4 behaviors x 2 = 8 max
// -----------------------------------------------------------------------

#[test]
fn given_keymap_with_binding_when_resolve_key_then_returns_command_name() {

    let mut state = editor_state::new(80, 24);
    let mut keymap = Keymap::new();
    keymap.insert(KeyEvent::plain(KeyCode::Up), "cursor-up".to_string());
    state.keymaps.insert("global".to_string(), keymap);
    state.active_keymaps.push("global".to_string());

    let result = editor_state::resolve_key(&state, KeyEvent::plain(KeyCode::Up));
    assert_eq!(result, Some("cursor-up".to_string()));
}

#[test]
fn given_keymap_when_unbound_key_then_returns_none() {

    let mut state = editor_state::new(80, 24);
    let keymap = Keymap::new(); // empty keymap
    state.keymaps.insert("global".to_string(), keymap);
    state.active_keymaps.push("global".to_string());

    let result = editor_state::resolve_key(&state, KeyEvent::plain(KeyCode::Tab));
    assert_eq!(result, None);
}

#[test]
fn given_multiple_active_keymaps_when_key_in_first_then_first_wins() {

    let mut state = editor_state::new(80, 24);

    // First keymap: Up -> "custom-up"
    let mut keymap1 = Keymap::new();
    keymap1.insert(KeyEvent::plain(KeyCode::Up), "custom-up".to_string());
    state.keymaps.insert("overlay".to_string(), keymap1);

    // Second keymap: Up -> "cursor-up"
    let mut keymap2 = Keymap::new();
    keymap2.insert(KeyEvent::plain(KeyCode::Up), "cursor-up".to_string());
    state.keymaps.insert("global".to_string(), keymap2);

    // Active keymaps: overlay checked first, then global
    state.active_keymaps.push("overlay".to_string());
    state.active_keymaps.push("global".to_string());

    let result = editor_state::resolve_key(&state, KeyEvent::plain(KeyCode::Up));
    assert_eq!(result, Some("custom-up".to_string()));
}

#[test]
fn given_no_active_keymaps_when_resolve_key_then_returns_none() {

    let state = editor_state::new(80, 24);
    // No keymaps, no active keymaps
    let result = editor_state::resolve_key(&state, KeyEvent::plain(KeyCode::Up));
    assert_eq!(result, None);
}

// -----------------------------------------------------------------------
// Unit tests (07-02): delete-char-at-cursor and delete-line commands
// Test Budget: 4 behaviors x 2 = 8 max
// -----------------------------------------------------------------------

#[test]
fn given_buffer_with_text_when_delete_char_at_cursor_executed_then_char_at_cursor_removed() {

    let mut state = editor_state::new(80, 24);
    state.buffer = buffer::Buffer::from_string("Hello");
    state.cursor = cursor::new(0, 1); // cursor at 'e'

    let result = editor_state::delete_char_at_cursor(&mut state);
    assert!(result.is_ok());
    assert_eq!(buffer::content(&state.buffer), "Hllo");
    // Cursor stays at same position after forward-delete
    assert_eq!(state.cursor.column, 1);
}

#[test]
fn given_cursor_at_end_of_buffer_when_delete_char_at_cursor_executed_then_buffer_unchanged() {

    let mut state = editor_state::new(80, 24);
    state.buffer = buffer::Buffer::from_string("Hi");
    state.cursor = cursor::new(0, 2); // cursor past last char

    let result = editor_state::delete_char_at_cursor(&mut state);
    assert!(result.is_ok());
    assert_eq!(buffer::content(&state.buffer), "Hi");
}

#[test]
fn given_multiline_buffer_when_delete_line_executed_then_current_line_removed() {

    let mut state = editor_state::new(80, 24);
    state.buffer = buffer::Buffer::from_string("First\nSecond\nThird");
    state.cursor = cursor::new(1, 3); // cursor on "Second"

    let result = editor_state::delete_line(&mut state);
    assert!(result.is_ok());
    assert_eq!(buffer::content(&state.buffer), "First\nThird");
}

#[test]
fn given_single_line_buffer_when_delete_line_executed_then_buffer_becomes_empty() {

    let mut state = editor_state::new(80, 24);
    state.buffer = buffer::Buffer::from_string("Only line");
    state.cursor = cursor::new(0, 0);

    let result = editor_state::delete_line(&mut state);
    assert!(result.is_ok());
    assert_eq!(buffer::content(&state.buffer), "");
}


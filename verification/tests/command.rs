use alfred::command::{find_command, lookup, register, remove, CommandRegistry};
use alfred::editor_state::{self, EditorState};
use alfred::error::AlfredError;
use std::rc::Rc;

/// A command handler as the editor stores them: a plain function or a closure.
enum CommandHandler {
    Native(fn(&mut EditorState) -> Result<(), AlfredError>),
    Dynamic(Rc<dyn Fn(&mut EditorState) -> Result<(), AlfredError>>),
}

/// Runs a named command on the state.
fn execute(state: &mut EditorState, commands: &CommandRegistry<CommandHandler>, name: &str) -> Result<(), AlfredError> {
    match find_command(commands, name)? {
        CommandHandler::Native(f) => f(state),
        CommandHandler::Dynamic(f) => {
            let f = Rc::clone(f);
            f(state)
        }
    }
}

#[test]
fn given_empty_registry_when_lookup_then_returns_none() {
    let registry: CommandRegistry<CommandHandler> = CommandRegistry::new();
    assert!(lookup(&registry, "nonexistent").is_none());
}

#[test]
fn given_registered_command_when_lookup_by_name_then_returns_some() {
    let mut registry = CommandRegistry::new();
    register(&mut registry, "test-cmd".to_string(), CommandHandler::Native(|_state| Ok(())));
    assert!(lookup(&registry, "test-cmd").is_some());
}

#[test]
fn given_registered_command_when_lookup_wrong_name_then_returns_none() {
    let mut registry = CommandRegistry::new();
    register(&mut registry, "test-cmd".to_string(), CommandHandler::Native(|_state| Ok(())));
    assert!(lookup(&registry, "other-cmd").is_none());
}

#[test]
fn given_registered_command_when_executed_then_mutates_state() {
    let mut state = editor_state::new(80, 24);
    let mut commands = CommandRegistry::new();
    register(
        &mut commands,
        "set-msg".to_string(),
        CommandHandler::Native(|s| {
            s.message = Some("executed".to_string());
            Ok(())
        }),
    );

    let result = execute(&mut state, &commands, "set-msg");
    assert!(result.is_ok());
    assert_eq!(state.message, Some("executed".to_string()));
}

#[test]
fn given_registered_command_when_removed_then_lookup_returns_none() {
    let mut registry = CommandRegistry::new();
    register(&mut registry, "ephemeral".to_string(), CommandHandler::Native(|_state| Ok(())));
    assert!(lookup(&registry, "ephemeral").is_some());

    remove(&mut registry, "ephemeral");

    assert!(lookup(&registry, "ephemeral").is_none(), "command should be gone after remove");
}

#[test]
fn given_unknown_command_when_executed_then_returns_error() {
    let mut state = editor_state::new(80, 24);
    let commands: CommandRegistry<CommandHandler> = CommandRegistry::new();
    let result = execute(&mut state, &commands, "unknown");
    assert!(result.is_err());
    assert_eq!(result.unwrap_err().message(), "command not found: 'unknown'");
}

#[test]
fn given_dynamic_command_when_executed_then_mutates_state() {
    let mut state = editor_state::new(80, 24);
    let mut commands = CommandRegistry::new();
    register(
        &mut commands,
        "dynamic-cmd".to_string(),
        CommandHandler::Dynamic(Rc::new(|s: &mut EditorState| {
            s.message = Some("dynamic executed".to_string());
            Ok(())
        })),
    );

    let result = execute(&mut state, &commands, "dynamic-cmd");
    assert!(result.is_ok());
    assert_eq!(state.message, Some("dynamic executed".to_string()));
}

#[test]
fn registering_a_name_again_replaces_the_handler() {
    let mut registry = CommandRegistry::new();
    register(&mut registry, "x".to_string(), 1u8);
    register(&mut registry, "x".to_string(), 2u8);
    assert_eq!(lookup(&registry, "x"), Some(&2u8));
}

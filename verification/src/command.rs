//! CommandRegistry: command handlers stored by name. `H` is the handler type;
//! the handlers themselves are run by the caller.
use crate::error::AlfredError;
use crate::str_map::StrMap;
use crate::text::to_string;
use vstd::prelude::*;

verus! {

/// Registry mapping command names to their handlers.
pub struct CommandRegistry<H> {
    commands: StrMap<H>,
}

impl<H> View for CommandRegistry<H> {
    type V = Map<Seq<char>, H>;

    closed spec fn view(&self) -> Map<Seq<char>, H> {
        self.commands@
    }
}

impl<H> CommandRegistry<H> {
    /// Creates an empty command registry.
    pub fn new() -> (r: Self)
        ensures
            r@ == Map::<Seq<char>, H>::empty(),
    {
        CommandRegistry { commands: StrMap::new() }
    }
}

impl<H> Default for CommandRegistry<H> {
    /// An empty registry.
    fn default() -> (r: Self)
        ensures
            r@ == Map::<Seq<char>, H>::empty(),
    {
        Self::new()
    }
}

/// Registers a handler under a name, replacing any handler of that name.
pub fn register<H>(registry: &mut CommandRegistry<H>, name: String, handler: H)
    ensures
        final(registry)@ == old(registry)@.insert(name@, handler),
{
    registry.commands.insert(name, handler);
}

/// Looks up the handler of a name.
pub fn lookup<'a, H>(registry: &'a CommandRegistry<H>, name: &str) -> (r: Option<&'a H>)
    ensures
        r == (if registry@.contains_key(name@) {
            Some(&registry@[name@])
        } else {
            None::<&H>
        }),
{
    registry.commands.get(name)
}

/// Removes the handler of a name (nothing happens for an unknown name).
pub fn remove<H>(registry: &mut CommandRegistry<H>, name: &str)
    ensures
        final(registry)@ == old(registry)@.remove(name@),
{
    registry.commands.remove(name);
}

/// The handler to run for a command name, or the "command not found" error.
pub fn find_command<'a, H>(registry: &'a CommandRegistry<H>, name: &str) -> (r: Result<&'a H, AlfredError>)
    ensures
        registry@.contains_key(name@) ==> r == Ok::<&H, AlfredError>(&registry@[name@]),
        !registry@.contains_key(name@) ==> (r matches Err(e) && e matches AlfredError::CommandNotFound { name: n }
            && n@ == name@),
{
    match registry.commands.get(name) {
        Some(h) => Ok(h),
        None => Err(AlfredError::CommandNotFound { name: to_string(name) }),
    }
}

/// A lookup after a registration finds the registered handler, and a
/// removal undoes a registration of a name that was not registered before.
pub proof fn register_then_lookup<H>(before: Map<Seq<char>, H>, name: Seq<char>, handler: H)
    ensures
        before.insert(name, handler).contains_key(name),
        before.insert(name, handler)[name] == handler,
        !before.contains_key(name) ==> before.insert(name, handler).remove(name) == before,
{
    if !before.contains_key(name) {
        assert(before.insert(name, handler).remove(name) =~= before);
    }
}


/// The editor's built-in commands.
#[derive(Debug, Clone, Copy, PartialEq, Eq, Structural)]
pub enum BuiltinCommand {
    CursorUp,
    CursorDown,
    CursorLeft,
    CursorRight,
    DeleteBackward,
    DeleteCharAtCursor,
    DeleteLine,
    CursorLineStart,
    CursorLineEnd,
    CursorFirstNonBlank,
    CursorDocumentStart,
    CursorDocumentEnd,
    CursorWordForward,
    CursorWordBackward,
    CursorWordEnd,
}

/// The names the built-in commands are registered under, in order.
pub open spec fn builtin_table() -> Seq<(Seq<char>, BuiltinCommand)> {
    seq![
        ("cursor-up"@, BuiltinCommand::CursorUp),
        ("cursor-down"@, BuiltinCommand::CursorDown),
        ("cursor-left"@, BuiltinCommand::CursorLeft),
        ("cursor-right"@, BuiltinCommand::CursorRight),
        ("delete-backward"@, BuiltinCommand::DeleteBackward),
        ("delete-char-at-cursor"@, BuiltinCommand::DeleteCharAtCursor),
        ("delete-line"@, BuiltinCommand::DeleteLine),
        ("cursor-line-start"@, BuiltinCommand::CursorLineStart),
        ("cursor-line-end"@, BuiltinCommand::CursorLineEnd),
        ("cursor-first-non-blank"@, BuiltinCommand::CursorFirstNonBlank),
        ("cursor-document-start"@, BuiltinCommand::CursorDocumentStart),
        ("cursor-document-end"@, BuiltinCommand::CursorDocumentEnd),
        ("cursor-word-forward"@, BuiltinCommand::CursorWordForward),
        ("cursor-word-backward"@, BuiltinCommand::CursorWordBackward),
        ("cursor-word-end"@, BuiltinCommand::CursorWordEnd),
    ]
}

/// The built-in commands with their names, in order.
pub fn builtin_commands() -> (r: Vec<(&'static str, BuiltinCommand)>)
    ensures
        r@.map_values(|e: (&'static str, BuiltinCommand)| (e.0@, e.1)) == builtin_table(),
{
    let r = vec![
        ("cursor-up", BuiltinCommand::CursorUp),
        ("cursor-down", BuiltinCommand::CursorDown),
        ("cursor-left", BuiltinCommand::CursorLeft),
        ("cursor-right", BuiltinCommand::CursorRight),
        ("delete-backward", BuiltinCommand::DeleteBackward),
        ("delete-char-at-cursor", BuiltinCommand::DeleteCharAtCursor),
        ("delete-line", BuiltinCommand::DeleteLine),
        ("cursor-line-start", BuiltinCommand::CursorLineStart),
        ("cursor-line-end", BuiltinCommand::CursorLineEnd),
        ("cursor-first-non-blank", BuiltinCommand::CursorFirstNonBlank),
        ("cursor-document-start", BuiltinCommand::CursorDocumentStart),
        ("cursor-document-end", BuiltinCommand::CursorDocumentEnd),
        ("cursor-word-forward", BuiltinCommand::CursorWordForward),
        ("cursor-word-backward", BuiltinCommand::CursorWordBackward),
        ("cursor-word-end", BuiltinCommand::CursorWordEnd),
    ];
    assert(r@.map_values(|e: (&'static str, BuiltinCommand)| (e.0@, e.1)) =~= builtin_table());
    r
}

/// `m` with the first `n` names of `table` registered, the `j`-th to `hs[j]`,
/// one after another.
pub open spec fn registered_in_turn<H>(m: Map<Seq<char>, H>, table: Seq<(Seq<char>, BuiltinCommand)>, hs: Seq<H>, n: int) -> Map<
    Seq<char>,
    H,
>
    decreases n,
{
    if n <= 0 {
        m
    } else {
        registered_in_turn(m, table, hs, n - 1).insert(table[n - 1].0, hs[n - 1])
    }
}

/// Registers every built-in command under its name, in order, each with
/// the handler `handler_of` gives for it.
pub fn register_builtin_commands<H, F: Fn(BuiltinCommand) -> H>(registry: &mut CommandRegistry<H>, handler_of: F)
    requires
        forall|c: BuiltinCommand| handler_of.requires((c,)),
    ensures
        exists|hs: Seq<H>|
            {
                &&& hs.len() == builtin_table().len()
                &&& forall|j: int| 0 <= j < hs.len() ==> handler_of.ensures((builtin_table()[j].1,), #[trigger] hs[j])
                &&& final(registry)@ == registered_in_turn(old(registry)@, builtin_table(), hs, hs.len() as int)
            },
{
    let table = builtin_commands();
    let ghost mut hs: Seq<H> = Seq::empty();
    let mut i: usize = 0;
    while i < table.len()
        invariant
            forall|c: BuiltinCommand| handler_of.requires((c,)),
            table@.map_values(|e: (&'static str, BuiltinCommand)| (e.0@, e.1)) == builtin_table(),
            i <= table@.len(),
            hs.len() == i,
            forall|j: int| 0 <= j < i ==> handler_of.ensures((builtin_table()[j].1,), #[trigger] hs[j]),
            registry@ == registered_in_turn(old(registry)@, builtin_table(), hs, i as int),
        decreases table@.len() - i,
    {
        let (name, cmd) = table[i];
        assert(builtin_table()[i as int] == (name@, cmd));
        let h = handler_of(cmd);
        let ghost hs0 = hs;
        proof {
            hs = hs.push(h);
        }
        register(registry, to_string(name), h);
        proof {
            lemma_registered_prefix(old(registry)@, builtin_table(), hs, hs0, i as int);
            assert(hs[i as int] == h);
        }
        i = i + 1;
    }
}

/// Registering the first `n` names depends only on the first `n` handlers.
proof fn lemma_registered_prefix<H>(m: Map<Seq<char>, H>, table: Seq<(Seq<char>, BuiltinCommand)>, hs: Seq<H>, gs: Seq<H>, n: int)
    requires
        forall|j: int| 0 <= j < n ==> hs[j] == gs[j],
    ensures
        registered_in_turn(m, table, hs, n) == registered_in_turn(m, table, gs, n),
    decreases n,
{
    if n > 0 {
        lemma_registered_prefix(m, table, hs, gs, n - 1);
    }
}
} // verus!

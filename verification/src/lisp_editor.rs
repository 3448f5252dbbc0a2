//! The Lisp primitives that read and change the editor state: the buffer, the
//! cursor, the message line, the mode, the keymaps and the line styles.
use crate::bridge::{
    cat2, cat3, cat4, cat5, direction_of, extract_direction, extract_string_arg, extract_string_arg_at, first_string,
    key_spec_event, parse_key_spec, string_at, Arg, ArgKind, Reply,
};
use crate::buffer::{self, char_index, edited_from, splice, Buffer};
use crate::cursor::{self, down_target, left_target, right_target, up_target, Cursor};
use crate::editor_state::{self, EditorState, Keymap};
use crate::hook::{unregister_hook, HookId, HookRegistry};
use crate::key_event::KeyEvent;
use crate::theme::{color_of, hex_cuts_ok, normalized, parse_color};
use crate::text::{str_eq, to_string};
use crate::viewport::{self, adjusted, can_adjust};
use vstd::prelude::*;

verus! {

/// `r` is the error with message `m`.
pub open spec fn fails_with<T>(r: Result<Reply<T>, String>, m: Seq<char>) -> bool {
    r matches Err(e) && e@ == m
}

/// `r` is a plain success.
pub open spec fn answers_nil<T>(r: Result<Reply<T>, String>) -> bool {
    r matches Ok(Reply::Nil)
}

/// `(buffer-insert text)`: inserts the text at the cursor.
pub fn buffer_insert<T>(state: &mut EditorState, args: &Vec<Arg<T>>) -> (r: Result<Reply<T>, String>)
    requires
        old(state).buffer.spec_version() < u64::MAX,
    ensures
        match first_string(args@, "buffer-insert"@) {
            Err(m) => fails_with(r, m) && *final(state) == *old(state),
            Ok(t) => {
                let i = char_index(old(state).buffer@, old(state).cursor.line as int, old(state).cursor.column as int);
                &&& answers_nil(r)
                &&& final(state).buffer@ == splice(old(state).buffer@, i, i, t)
                &&& edited_from(&old(state).buffer, &final(state).buffer)
                &&& *final(state) == (EditorState { buffer: final(state).buffer, ..*old(state) })
            },
        },
{
    let text = match extract_string_arg(args, "buffer-insert") {
        Ok(t) => t,
        Err(e) => return Err(e),
    };
    state.buffer = buffer::insert_at(&state.buffer, state.cursor.line, state.cursor.column, text.as_str());
    Ok(Reply::Nil)
}

/// `(buffer-delete)`: deletes the char at the cursor.
pub fn buffer_delete<T>(state: &mut EditorState) -> (r: Result<Reply<T>, String>)
    requires
        old(state).buffer.spec_version() < u64::MAX,
    ensures
        answers_nil(r),
        buffer::deleted_at(
            &old(state).buffer,
            &final(state).buffer,
            old(state).cursor.line as int,
            old(state).cursor.column as int,
        ),
        *final(state) == (EditorState { buffer: final(state).buffer, ..*old(state) }),
{
    state.buffer = buffer::delete_at(&state.buffer, state.cursor.line, state.cursor.column);
    Ok(Reply::Nil)
}

/// `(buffer-content)`: the whole text of the buffer.
pub fn buffer_content<T>(state: &EditorState) -> (r: Result<Reply<T>, String>)
    ensures
        r matches Ok(Reply::Str(s)) && s@ == state.buffer@,
{
    Ok(Reply::Str(crate::facade::buffer_content(state)))
}

/// `(buffer-set-content text)`: replaces the buffer with a new unmodified
/// buffer holding the text; the cursor goes to (0, 0) and the viewport to
/// the first line.
pub fn buffer_set_content<T>(state: &mut EditorState, args: &Vec<Arg<T>>) -> (r: Result<Reply<T>, String>)
    ensures
        match first_string(args@, "buffer-set-content"@) {
            Err(m) => fails_with(r, m) && *final(state) == *old(state),
            Ok(t) => {
                &&& answers_nil(r)
                &&& final(state).buffer@ == t
                &&& !final(state).buffer.spec_modified()
                &&& final(state).buffer.spec_filename() is None
                &&& final(state).buffer.spec_file_path() is None
                &&& final(state).buffer.spec_version() == 1
                &&& *final(state) == (EditorState {
                    buffer: final(state).buffer,
                    cursor: Cursor { line: 0, column: 0 },
                    viewport: crate::viewport::Viewport { top_line: 0, ..old(state).viewport },
                    ..*old(state)
                })
            },
        },
{
    let text = match extract_string_arg(args, "buffer-set-content") {
        Ok(t) => t,
        Err(e) => return Err(e),
    };
    state.buffer = Buffer::from_string(text.as_str());
    state.cursor = cursor::new(0, 0);
    state.viewport.top_line = 0;
    Ok(Reply::Nil)
}

/// `(quit)`: stops the editor.
pub fn quit<T>(state: &mut EditorState) -> (r: Result<Reply<T>, String>)
    ensures
        answers_nil(r),
        *final(state) == (EditorState { running: false, ..*old(state) }),
{
    state.running = false;
    Ok(Reply::Nil)
}

/// `(cursor-position)`: the cursor's line and column.
pub fn cursor_position<T>(state: &EditorState) -> (r: Result<Reply<T>, String>)
    ensures
        r matches Ok(Reply::Ints(v)) && v@ == seq![state.cursor.line as i32, state.cursor.column as i32],
{
    let (line, column) = crate::facade::cursor_position(state);
    let v = vec![line as i32, column as i32];
    Ok(Reply::Ints(v))
}

/// The cursor after one move in a direction ("up", "down", "left" or
/// "right"), or `None` for another direction.
pub open spec fn step(b: &Buffer, c: Cursor, direction: Seq<char>) -> Option<Cursor> {
    if direction == "up"@ {
        Some(up_target(b, c))
    } else if direction == "down"@ {
        Some(down_target(b, c))
    } else if direction == "left"@ {
        Some(left_target(b, c))
    } else if direction == "right"@ {
        Some(right_target(b, c))
    } else {
        None
    }
}

/// The message for an unknown direction.
pub open spec fn unknown_direction(direction: Seq<char>) -> Seq<char> {
    "cursor-move: unknown direction \""@ + direction + "\". Expected up, down, left, or right"@
}

/// Moves the cursor once in a direction; the error message for an unknown one.
pub fn apply_cursor_move(cursor_pos: Cursor, buf: &Buffer, direction: &str) -> (r: Result<Cursor, String>)
    ensures
        match step(buf, cursor_pos, direction@) {
            Some(c) => r == Ok::<Cursor, String>(c),
            None => r matches Err(e) && e@ == unknown_direction(direction@),
        },
{
    if str_eq(direction, "up") {
        Ok(cursor::move_up(cursor_pos, buf))
    } else if str_eq(direction, "down") {
        Ok(cursor::move_down(cursor_pos, buf))
    } else if str_eq(direction, "left") {
        Ok(cursor::move_left(cursor_pos, buf))
    } else if str_eq(direction, "right") {
        Ok(cursor::move_right(cursor_pos, buf))
    } else {
        Err(cat2(
            cat2("cursor-move: unknown direction \"", direction).as_str(),
            "\". Expected up, down, left, or right",
        ))
    }
}

/// The cursor after `n` moves in a direction.
pub open spec fn steps(b: &Buffer, c: Cursor, direction: Seq<char>, n: nat) -> Cursor
    decreases n,
{
    if n == 0 {
        c
    } else {
        match step(b, steps(b, c, direction, (n - 1) as nat), direction) {
            Some(d) => d,
            None => c,
        }
    }
}

/// The count of a `cursor-move`: the second argument, 1 when absent.
pub open spec fn move_count<T>(args: Seq<Arg<T>>) -> Result<usize, Seq<char>> {
    if args.len() < 2 {
        Ok(1)
    } else {
        match args[1].kind {
            ArgKind::Int(n) => Ok(n as usize),
            _ => Err("cursor-move: expected integer count, got "@ + args[1].shown@),
        }
    }
}

/// What `(cursor-move direction [count])` does: the error message, or the
/// cursor it moves to.
pub open spec fn cursor_move_outcome<T>(b: &Buffer, c: Cursor, args: Seq<Arg<T>>) -> Result<Cursor, Seq<char>> {
    if args.len() == 0 {
        Err("cursor-move: expected at least 1 argument (direction), got 0"@)
    } else {
        match direction_of(args[0]) {
            Err(m) => Err(m),
            Ok(d) => match move_count(args) {
                Err(m) => Err(m),
                Ok(n) => if n > 0 && step(b, c, d) is None {
                    Err(unknown_direction(d))
                } else {
                    Ok(steps(b, c, d, n as nat))
                },
            },
        }
    }
}

/// `(cursor-move direction [count])`: moves the cursor `count` times (1 by
/// default) up, down, left or right (the direction a symbol like `:down` or
/// a string), then scrolls the viewport to it.
pub fn cursor_move<T>(state: &mut EditorState, args: &Vec<Arg<T>>) -> (r: Result<Reply<T>, String>)
    requires
        forall|c: Cursor| can_adjust(old(state).viewport, c),
    ensures
        match cursor_move_outcome(&old(state).buffer, old(state).cursor, args@) {
            Err(m) => fails_with(r, m) && *final(state) == *old(state),
            Ok(c) => answers_nil(r) && *final(state) == editor_state::moved_to(*old(state), c),
        },
{
    if args.len() == 0 {
        return Err(to_string("cursor-move: expected at least 1 argument (direction), got 0"));
    }
    let direction = match extract_direction(&args[0]) {
        Ok(d) => d,
        Err(e) => return Err(e),
    };
    let count: usize = if args.len() < 2 {
        1
    } else {
        match &args[1].kind {
            ArgKind::Int(n) => *n as usize,
            _ => {
                return Err(cat2("cursor-move: expected integer count, got ", args[1].shown.as_str()));
            },
        }
    };
    let mut current = state.cursor;
    let mut i: usize = 0;
    while i < count
        invariant
            i <= count,
            current == steps(&state.buffer, state.cursor, direction@, i as nat),
            i > 0 ==> step(&state.buffer, state.cursor, direction@) is Some,
            *state == *old(state),
            args@.len() > 0,
            direction_of(args@[0]) == Ok::<Seq<char>, Seq<char>>(direction@),
            move_count(args@) == Ok::<usize, Seq<char>>(count),
        decreases count - i,
    {
        match apply_cursor_move(current, &state.buffer, direction.as_str()) {
            Ok(c) => {
                current = c;
            },
            Err(e) => {
                return Err(e);
            },
        }
        i = i + 1;
    }
    state.cursor = current;
    state.viewport = viewport::adjust(state.viewport, &state.cursor);
    Ok(Reply::Nil)
}

/// `(message text)`: sets the message line.
pub fn message<T>(state: &mut EditorState, args: &Vec<Arg<T>>) -> (r: Result<Reply<T>, String>)
    ensures
        match first_string(args@, "message"@) {
            Err(m) => fails_with(r, m) && *final(state) == *old(state),
            Ok(t) => {
                &&& answers_nil(r)
                &&& final(state).message matches Some(s) && s@ == t
                &&& *final(state) == (EditorState { message: final(state).message, ..*old(state) })
            },
        },
{
    let text = match extract_string_arg(args, "message") {
        Ok(t) => t,
        Err(e) => return Err(e),
    };
    state.message = Some(text);
    Ok(Reply::Nil)
}

/// `(current-mode)`: the mode name.
pub fn current_mode<T>(state: &EditorState) -> (r: Result<Reply<T>, String>)
    ensures
        r matches Ok(Reply::Str(s)) && s@ == state.mode@,
{
    Ok(Reply::Str(state.mode.clone()))
}

/// `(set-mode name)`: sets the mode, and makes "<name>-mode" the one active keymap.
pub fn set_mode<T>(state: &mut EditorState, args: &Vec<Arg<T>>) -> (r: Result<Reply<T>, String>)
    ensures
        match first_string(args@, "set-mode"@) {
            Err(m) => fails_with(r, m) && *final(state) == *old(state),
            Ok(t) => {
                &&& answers_nil(r)
                &&& final(state).mode@ == t
                &&& final(state).active_keymaps@.len() == 1
                &&& final(state).active_keymaps@[0]@ == t + "-mode"@
                &&& *final(state) == (EditorState {
                    mode: final(state).mode,
                    active_keymaps: final(state).active_keymaps,
                    ..*old(state)
                })
            },
        },
{
    let mode_name = match extract_string_arg(args, "set-mode") {
        Ok(t) => t,
        Err(e) => return Err(e),
    };
    let keymap = cat2(mode_name.as_str(), "-mode");
    state.mode = mode_name;
    state.active_keymaps = vec![keymap];
    Ok(Reply::Nil)
}

/// `(buffer-filename)`: the buffer's file name, empty when it has none.
pub fn buffer_filename<T>(state: &EditorState) -> (r: Result<Reply<T>, String>)
    ensures
        r matches Ok(Reply::Str(s)) && s@ == (match state.buffer.spec_filename() {
            Some(f) => f@,
            None => Seq::<char>::empty(),
        }),
{
    match state.buffer.filename() {
        Some(f) => Ok(Reply::Str(to_string(f))),
        None => Ok(Reply::Str(String::new())),
    }
}

/// `(buffer-modified?)`: whether the buffer was modified.
pub fn buffer_modified<T>(state: &EditorState) -> (r: Result<Reply<T>, String>)
    ensures
        r == Ok::<Reply<T>, String>(Reply::Bool(state.buffer.spec_modified())),
{
    Ok(Reply::Bool(state.buffer.is_modified()))
}

/// `(buffer-line-count)`: the number of lines of the buffer.
pub fn buffer_line_count<T>(state: &EditorState) -> (r: Result<Reply<T>, String>)
    ensures
        r == Ok::<Reply<T>, String>(Reply::Int(crate::lines::line_count(state.buffer@) as i32)),
{
    let n = crate::facade::buffer_line_count(state);
    Ok(Reply::Int(n as i32))
}

/// `(viewport-top-line)`: the first visible line.
pub fn viewport_top_line<T>(state: &EditorState) -> (r: Result<Reply<T>, String>)
    ensures
        r == Ok::<Reply<T>, String>(Reply::Int(state.viewport.top_line as i32)),
{
    Ok(Reply::Int(state.viewport.top_line as i32))
}

/// `(viewport-height)`: the number of visible lines.
pub fn viewport_height<T>(state: &EditorState) -> (r: Result<Reply<T>, String>)
    ensures
        r == Ok::<Reply<T>, String>(Reply::Int(state.viewport.height as i32)),
{
    Ok(Reply::Int(state.viewport.height as i32))
}

/// `(set-active-keymap name)`: makes the named keymap the one active keymap.
pub fn set_active_keymap<T>(state: &mut EditorState, args: &Vec<Arg<T>>) -> (r: Result<Reply<T>, String>)
    ensures
        match first_string(args@, "set-active-keymap"@) {
            Err(m) => fails_with(r, m) && *final(state) == *old(state),
            Ok(t) => {
                &&& answers_nil(r)
                &&& final(state).active_keymaps@.len() == 1
                &&& final(state).active_keymaps@[0]@ == t
                &&& *final(state) == (EditorState { active_keymaps: final(state).active_keymaps, ..*old(state) })
            },
        },
{
    let name = match extract_string_arg(args, "set-active-keymap") {
        Ok(t) => t,
        Err(e) => return Err(e),
    };
    state.active_keymaps = vec![name];
    Ok(Reply::Nil)
}

/// `(make-keymap name)`: creates an empty keymap of that name, unless one exists.
pub fn make_keymap<T>(state: &mut EditorState, args: &Vec<Arg<T>>) -> (r: Result<Reply<T>, String>)
    ensures
        match first_string(args@, "make-keymap"@) {
            Err(m) => fails_with(r, m) && *final(state) == *old(state),
            Ok(t) => {
                &&& answers_nil(r)
                &&& final(state).keymaps@.contains_key(t)
                &&& old(state).keymaps@.contains_key(t) ==> final(state).keymaps@ == old(state).keymaps@
                &&& !old(state).keymaps@.contains_key(t) ==> final(state).keymaps@.remove(t) == old(state).keymaps@
                    && final(state).keymaps@[t]@ == Map::<KeyEvent, Seq<char>>::empty()
                &&& *final(state) == (EditorState { keymaps: final(state).keymaps, ..*old(state) })
            },
        },
{
    let name = match extract_string_arg(args, "make-keymap") {
        Ok(t) => t,
        Err(e) => return Err(e),
    };
    if !state.keymaps.contains_key(name.as_str()) {
        let ghost t = name@;
        state.keymaps.insert(name, Keymap::new());
        assert(state.keymaps@.remove(t) =~= old(state).keymaps@);
    }
    Ok(Reply::Nil)
}

/// What `(define-key keymap key-spec command)` does: the error message, or
/// the keymap name, key and command of the binding.
pub open spec fn define_key_outcome<T>(keymaps: Map<Seq<char>, Keymap>, args: Seq<Arg<T>>) -> Result<
    (Seq<char>, KeyEvent, Seq<char>),
    Seq<char>,
> {
    match string_at(args, 0, "define-key"@, "keymap-name"@) {
        Err(m) => Err(m),
        Ok(name) => match string_at(args, 1, "define-key"@, "key-spec"@) {
            Err(m) => Err(m),
            Ok(spec) => match string_at(args, 2, "define-key"@, "command-name"@) {
                Err(m) => Err(m),
                Ok(command) => match key_spec_event(spec) {
                    Err(m) => Err(m),
                    Ok(key) => if keymaps.contains_key(name) {
                        Ok((name, key, command))
                    } else {
                        Err("define-key: keymap \""@ + name + "\" does not exist. Create it first with (make-keymap \""@
                            + name + "\")"@)
                    },
                },
            },
        },
    }
}

/// `(define-key keymap key-spec command)`: binds the key to the command in
/// the named keymap, which must exist.
pub fn define_key<T>(state: &mut EditorState, args: &Vec<Arg<T>>) -> (r: Result<Reply<T>, String>)
    ensures
        match define_key_outcome(old(state).keymaps@, args@) {
            Err(m) => fails_with(r, m) && *final(state) == *old(state),
            Ok((name, key, command)) => {
                &&& answers_nil(r)
                &&& final(state).keymaps@.dom() == old(state).keymaps@.dom()
                &&& final(state).keymaps@[name]@ == old(state).keymaps@[name]@.insert(key, command)
                &&& forall|k: Seq<char>| k != name ==> #[trigger] final(state).keymaps@.get(k) == old(state).keymaps@.get(k)
                &&& *final(state) == (EditorState { keymaps: final(state).keymaps, ..*old(state) })
            },
        },
{
    let keymap_name = match extract_string_arg_at(args, 0, "define-key", "keymap-name") {
        Ok(t) => t,
        Err(e) => return Err(e),
    };
    let key_spec = match extract_string_arg_at(args, 1, "define-key", "key-spec") {
        Ok(t) => t,
        Err(e) => return Err(e),
    };
    let command_name = match extract_string_arg_at(args, 2, "define-key", "command-name") {
        Ok(t) => t,
        Err(e) => return Err(e),
    };
    let key = match parse_key_spec(key_spec.as_str()) {
        Ok(k) => k,
        Err(e) => return Err(e),
    };
    let ghost old_maps = state.keymaps@;
    match state.keymaps.remove(keymap_name.as_str()) {
        Some(mut keymap) => {
            keymap.insert(key, command_name);
            let ghost km = keymap;
            let ghost name = keymap_name@;
            state.keymaps.insert(keymap_name, keymap);
            proof {
                assert(state.keymaps@ =~= old_maps.insert(name, km));
                assert(state.keymaps@.dom() =~= old_maps.dom());
            }
            Ok(Reply::Nil)
        },
        None => Err(cat5(
            "define-key: keymap \"",
            keymap_name.as_str(),
            "\" does not exist. Create it first with (make-keymap \"",
            keymap_name.as_str(),
            "\")",
        )),
    }
}

/// `(clear-line-styles)`: removes every line style.
pub fn clear_line_styles<T>(state: &mut EditorState) -> (r: Result<Reply<T>, String>)
    ensures
        answers_nil(r),
        final(state).line_styles@ == Map::<usize, Vec<editor_state::LineStyle>>::empty(),
        *final(state) == (EditorState { line_styles: final(state).line_styles, ..*old(state) }),
{
    editor_state::clear_line_styles(state);
    Ok(Reply::Nil)
}


/// The argument at `i` of `set-line-style`, an integer: the error for any
/// other kind, and for a missing one the message giving how many came.
pub open spec fn style_int<T>(args: Seq<Arg<T>>, i: int, what: Seq<char>, got: Seq<char>) -> Result<i32, Seq<char>> {
    if i < args.len() {
        match args[i].kind {
            ArgKind::Int(n) => Ok(n),
            _ => Err("set-line-style: expected integer for "@ + what + ", got "@ + args[i].shown@),
        }
    } else {
        Err("set-line-style: expected 4 arguments (line, start, end, color), got "@ + got)
    }
}

/// The color text of `set-line-style` (its fourth argument).
pub open spec fn style_color_text<T>(args: Seq<Arg<T>>) -> Result<Seq<char>, Seq<char>> {
    if 3 < args.len() {
        match args[3].kind {
            ArgKind::Str(s) => Ok(s@),
            _ => Err("set-line-style: expected string for color, got "@ + args[3].shown@),
        }
    } else {
        Err("set-line-style: expected 4 arguments (line, start, end, color), got 3"@)
    }
}

/// What `(set-line-style line start end color)` does: the error message, or
/// the line and the segment it adds.
pub open spec fn line_style_outcome<T>(args: Seq<Arg<T>>) -> Result<(usize, editor_state::LineStyle), Seq<char>> {
    match style_int(args, 0, "line"@, "0"@) {
        Err(m) => Err(m),
        Ok(line) => match style_int(args, 1, "start"@, "1"@) {
            Err(m) => Err(m),
            Ok(start) => match style_int(args, 2, "end"@, "2"@) {
                Err(m) => Err(m),
                Ok(end) => match style_color_text(args) {
                    Err(m) => Err(m),
                    Ok(t) => match color_of(normalized(t)) {
                        None => Err("set-line-style: invalid color \""@ + t + "\""@),
                        Some(c) => Ok((line as usize, (start as usize, end as usize, c))),
                    },
                },
            },
        },
    }
}

fn style_int_at<T>(args: &Vec<Arg<T>>, i: usize, what: &str, got: &str) -> (r: Result<i32, String>)
    ensures
        match r {
            Ok(n) => style_int(args@, i as int, what@, got@) == Ok::<i32, Seq<char>>(n),
            Err(e) => style_int(args@, i as int, what@, got@) == Err::<i32, Seq<char>>(e@),
        },
{
    if i < args.len() {
        match &args[i].kind {
            ArgKind::Int(n) => Ok(*n),
            _ => Err(cat4("set-line-style: expected integer for ", what, ", got ", args[i].shown.as_str())),
        }
    } else {
        Err(cat2("set-line-style: expected 4 arguments (line, start, end, color), got ", got))
    }
}

/// `(set-line-style line start end color)`: adds a colored segment
/// `start..end` to a buffer line.
pub fn set_line_style<T>(state: &mut EditorState, args: &Vec<Arg<T>>) -> (r: Result<Reply<T>, String>)
    requires
        style_int(args@, 0, "line"@, "0"@) is Ok && style_int(args@, 1, "start"@, "1"@) is Ok && style_int(
            args@,
            2,
            "end"@,
            "2"@,
        ) is Ok ==> (style_color_text(args@) matches Ok(t) ==> hex_cuts_ok(normalized(t))),
    ensures
        match line_style_outcome(args@) {
            Err(m) => fails_with(r, m) && *final(state) == *old(state),
            Ok((line, seg)) => {
                &&& answers_nil(r)
                &&& editor_state::styles_view(final(state).line_styles@) == crate::panel::with_segment(
                    editor_state::styles_view(old(state).line_styles@),
                    line,
                    seg,
                )
                &&& *final(state) == (EditorState { line_styles: final(state).line_styles, ..*old(state) })
            },
        },
{
    let line = match style_int_at(args, 0, "line", "0") {
        Ok(n) => n,
        Err(e) => return Err(e),
    };
    let start = match style_int_at(args, 1, "start", "1") {
        Ok(n) => n,
        Err(e) => return Err(e),
    };
    let end = match style_int_at(args, 2, "end", "2") {
        Ok(n) => n,
        Err(e) => return Err(e),
    };
    if args.len() <= 3 {
        return Err(to_string("set-line-style: expected 4 arguments (line, start, end, color), got 3"));
    }
    let color_str = match &args[3].kind {
        ArgKind::Str(s) => s,
        _ => return Err(cat2("set-line-style: expected string for color, got ", args[3].shown.as_str())),
    };
    let color = match parse_color(color_str.as_str()) {
        Some(c) => c,
        None => return Err(cat3("set-line-style: invalid color \"", color_str.as_str(), "\"")),
    };
    editor_state::add_line_style(state, line as usize, start as usize, end as usize, color);
    Ok(Reply::Nil)
}

/// What `(buffer-get-line n)` answers: the error message, or the line number.
pub open spec fn get_line_outcome<T>(args: Seq<Arg<T>>) -> Result<usize, Seq<char>> {
    if args.len() == 0 {
        Err("buffer-get-line: expected 1 argument, got 0"@)
    } else {
        match args[0].kind {
            ArgKind::Int(n) => Ok(n as usize),
            _ => Err("buffer-get-line: expected integer, got "@ + args[0].shown@),
        }
    }
}

/// `(buffer-get-line n)`: the text of line n without its line break (empty
/// past the end).
pub fn buffer_get_line<T>(state: &EditorState, args: &Vec<Arg<T>>) -> (r: Result<Reply<T>, String>)
    ensures
        match get_line_outcome(args@) {
            Err(m) => fails_with(r, m),
            Ok(n) => r matches Ok(Reply::Str(s)) && s@ == buffer::line_content(&state.buffer, n as int),
        },
{
    if args.len() == 0 {
        return Err(to_string("buffer-get-line: expected 1 argument, got 0"));
    }
    let n = match &args[0].kind {
        ArgKind::Int(n) => *n as usize,
        _ => return Err(cat2("buffer-get-line: expected integer, got ", args[0].shown.as_str())),
    };
    Ok(Reply::Str(buffer::get_line_content(&state.buffer, n)))
}

/// What `(remove-hook name id)` does: the error message, or the hook name
/// and id.
pub open spec fn remove_hook_outcome<T>(args: Seq<Arg<T>>) -> Result<(Seq<char>, HookId), Seq<char>> {
    match first_string(args, "remove-hook"@) {
        Err(m) => Err(m),
        Ok(name) => if args.len() < 2 {
            Err("remove-hook: expected 2 arguments (name, hook-id), got 1"@)
        } else {
            match args[1].kind {
                ArgKind::Int(n) => Ok((name, HookId(n as usize))),
                _ => Err("remove-hook: expected integer hook-id, got "@ + args[1].shown@),
            }
        },
    }
}

/// `(remove-hook name id)`: removes the callback with that id from the hook.
pub fn remove_hook<F, T>(hooks: &mut HookRegistry<F>, args: &Vec<Arg<T>>) -> (r: Result<Reply<T>, String>)
    requires
        old(hooks).wf(),
    ensures
        final(hooks).wf(),
        match remove_hook_outcome(args@) {
            Err(m) => fails_with(r, m) && *final(hooks) == *old(hooks),
            Ok((name, id)) => {
                &&& answers_nil(r)
                &&& final(hooks).callbacks_of(name) == old(hooks).callbacks_of(name).filter(
                    |c: (HookId, F)| c.0 != id,
                )
                &&& forall|other: Seq<char>| other != name ==> final(hooks).callbacks_of(other) == old(hooks).callbacks_of(
                    other,
                )
            },
        },
{
    let name = match extract_string_arg(args, "remove-hook") {
        Ok(t) => t,
        Err(e) => return Err(e),
    };
    if args.len() < 2 {
        return Err(to_string("remove-hook: expected 2 arguments (name, hook-id), got 1"));
    }
    let id = match &args[1].kind {
        ArgKind::Int(n) => HookId(*n as usize),
        _ => return Err(cat2("remove-hook: expected integer hook-id, got ", args[1].shown.as_str())),
    };
    unregister_hook(hooks, name.as_str(), id);
    Ok(Reply::Nil)
}
} // verus!

//! The Lisp primitives on panels: defining and removing them, their content,
//! style, size, priority and line styles, their cursor, and which one has
//! the keyboard focus.
use crate::bridge::{
    as_unit, cat2, cat3, extract_int_arg_at, extract_string_arg, extract_string_arg_at, first_string, int_at,
    parse_panel_position, position_named, string_at, Arg, Reply,
};
use crate::lisp_editor::{answers_nil, fails_with};
use crate::panel::{
    self, clamped_line, edited, exists_msg, find_panel, fresh_panel, not_found_msg, with_segment, PanelPosition, PanelRegistry,
    PanelView,
};
use crate::text::{str_eq, to_string};
use crate::theme::{color_of, hex_cuts_ok, normalized, parse_color, ThemeColor};
use vstd::prelude::*;

verus! {

/// What `(define-panel name position size)` reads: the error message, or
/// the name, position and size.
pub open spec fn define_panel_args<T>(args: Seq<Arg<T>>) -> Result<(Seq<char>, PanelPosition, u16), Seq<char>> {
    match string_at(args, 0, "define-panel"@, "name"@) {
        Err(m) => Err(m),
        Ok(name) => match string_at(args, 1, "define-panel"@, "position"@) {
            Err(m) => Err(m),
            Ok(pos) => match int_at(args, 2, "define-panel"@, "size"@) {
                Err(m) => Err(m),
                Ok(size) => match position_named(pos) {
                    None => Err("define-panel: invalid position \""@ + pos
                        + "\", expected \"top\", \"bottom\", \"left\", or \"right\""@),
                    Some(p) => Ok((name, p, size as u16)),
                },
            },
        },
    }
}

/// `(define-panel name position size)`: creates a panel at "top", "bottom",
/// "left" or "right"; an error when the name is taken.
pub fn define_panel<T>(registry: &mut PanelRegistry, args: &Vec<Arg<T>>) -> (r: Result<Reply<T>, String>)
    ensures
        match define_panel_args(args@) {
            Err(m) => fails_with(r, m) && final(registry)@ == old(registry)@,
            Ok((name, position, size)) => if find_panel(old(registry)@, name) is None {
                answers_nil(r) && final(registry)@ == old(registry)@.push(fresh_panel(name, position, size))
            } else {
                fails_with(r, exists_msg(name)) && final(registry)@ == old(registry)@
            },
        },
{
    let name = match extract_string_arg_at(args, 0, "define-panel", "name") {
        Ok(t) => t,
        Err(e) => return Err(e),
    };
    let position_str = match extract_string_arg_at(args, 1, "define-panel", "position") {
        Ok(t) => t,
        Err(e) => return Err(e),
    };
    let size = match extract_int_arg_at(args, 2, "define-panel", "size") {
        Ok(n) => n as u16,
        Err(e) => return Err(e),
    };
    let position = match parse_panel_position(position_str.as_str()) {
        Some(p) => p,
        None => {
            return Err(cat3(
                "define-panel: invalid position \"",
                position_str.as_str(),
                "\", expected \"top\", \"bottom\", \"left\", or \"right\"",
            ));
        },
    };
    match panel::define_panel(registry, name.as_str(), position, size) {
        Ok(()) => Ok(Reply::Nil),
        Err(e) => Err(e),
    }
}

/// `(remove-panel name)`: removes the panels of that name.
pub fn remove_panel<T>(registry: &mut PanelRegistry, args: &Vec<Arg<T>>) -> (r: Result<Reply<T>, String>)
    ensures
        match first_string(args@, "remove-panel"@) {
            Err(m) => fails_with(r, m) && final(registry)@ == old(registry)@,
            Ok(name) => answers_nil(r) && final(registry)@ == old(registry)@.filter(|p: PanelView| p.name != name),
        },
{
    let name = match extract_string_arg(args, "remove-panel") {
        Ok(t) => t,
        Err(e) => return Err(e),
    };
    panel::remove_panel(registry, name.as_str());
    Ok(Reply::Nil)
}

/// A panel edit's result as a primitive's result.
fn edit_reply<T>(r: Result<(), String>) -> (out: Result<Reply<T>, String>)
    ensures
        as_unit(out) == r,
        r is Ok ==> answers_nil(out),
{
    match r {
        Ok(u) => {
            assert(u == ());
            Ok(Reply::Nil)
        },
        Err(e) => Err(e),
    }
}

/// `(set-panel-content name text)`: sets a panel's one-line content.
pub fn set_panel_content<T>(registry: &mut PanelRegistry, args: &Vec<Arg<T>>) -> (r: Result<Reply<T>, String>)
    ensures
        match string_at(args@, 0, "set-panel-content"@, "name"@) {
            Err(m) => fails_with(r, m) && final(registry)@ == old(registry)@,
            Ok(name) => match string_at(args@, 1, "set-panel-content"@, "text"@) {
                Err(m) => fails_with(r, m) && final(registry)@ == old(registry)@,
                Ok(text) => (r is Ok ==> answers_nil(r)) && edited(
                    old(registry)@,
                    final(registry)@,
                    as_unit(r),
                    name,
                    |p: PanelView| PanelView { content: text, ..p },
                ),
            },
        },
{
    let name = match extract_string_arg_at(args, 0, "set-panel-content", "name") {
        Ok(t) => t,
        Err(e) => return Err(e),
    };
    let text = match extract_string_arg_at(args, 1, "set-panel-content", "text") {
        Ok(t) => t,
        Err(e) => return Err(e),
    };
    edit_reply(panel::set_content(registry, name.as_str(), text.as_str()))
}

/// `(set-panel-line name line-num text)`: sets one line of a panel.
pub fn set_panel_line<T>(registry: &mut PanelRegistry, args: &Vec<Arg<T>>) -> (r: Result<Reply<T>, String>)
    ensures
        match string_at(args@, 0, "set-panel-line"@, "name"@) {
            Err(m) => fails_with(r, m) && final(registry)@ == old(registry)@,
            Ok(name) => match int_at(args@, 1, "set-panel-line"@, "line-num"@) {
                Err(m) => fails_with(r, m) && final(registry)@ == old(registry)@,
                Ok(n) => match string_at(args@, 2, "set-panel-line"@, "text"@) {
                    Err(m) => fails_with(r, m) && final(registry)@ == old(registry)@,
                    Ok(text) => (r is Ok ==> answers_nil(r)) && edited(
                        old(registry)@,
                        final(registry)@,
                        as_unit(r),
                        name,
                        |p: PanelView| PanelView { lines: p.lines.insert(n as usize, text), ..p },
                    ),
                },
            },
        },
{
    let name = match extract_string_arg_at(args, 0, "set-panel-line", "name") {
        Ok(t) => t,
        Err(e) => return Err(e),
    };
    let line_num = match extract_int_arg_at(args, 1, "set-panel-line", "line-num") {
        Ok(n) => n as usize,
        Err(e) => return Err(e),
    };
    let text = match extract_string_arg_at(args, 2, "set-panel-line", "text") {
        Ok(t) => t,
        Err(e) => return Err(e),
    };
    edit_reply(panel::set_line(registry, name.as_str(), line_num, text.as_str()))
}

/// A style color: "default" stands for none.
pub open spec fn style_color(t: Seq<char>) -> Option<Seq<char>> {
    if t == "default"@ {
        None
    } else {
        Some(t)
    }
}

/// `(set-panel-style name fg bg)`: sets a panel's colors ("default" for none).
pub fn set_panel_style<T>(registry: &mut PanelRegistry, args: &Vec<Arg<T>>) -> (r: Result<Reply<T>, String>)
    ensures
        match string_at(args@, 0, "set-panel-style"@, "name"@) {
            Err(m) => fails_with(r, m) && final(registry)@ == old(registry)@,
            Ok(name) => match string_at(args@, 1, "set-panel-style"@, "fg"@) {
                Err(m) => fails_with(r, m) && final(registry)@ == old(registry)@,
                Ok(fg) => match string_at(args@, 2, "set-panel-style"@, "bg"@) {
                    Err(m) => fails_with(r, m) && final(registry)@ == old(registry)@,
                    Ok(bg) => (r is Ok ==> answers_nil(r)) && edited(
                        old(registry)@,
                        final(registry)@,
                        as_unit(r),
                        name,
                        |p: PanelView| PanelView { fg_color: style_color(fg), bg_color: style_color(bg), ..p },
                    ),
                },
            },
        },
{
    let name = match extract_string_arg_at(args, 0, "set-panel-style", "name") {
        Ok(t) => t,
        Err(e) => return Err(e),
    };
    let fg_str = match extract_string_arg_at(args, 1, "set-panel-style", "fg") {
        Ok(t) => t,
        Err(e) => return Err(e),
    };
    let bg_str = match extract_string_arg_at(args, 2, "set-panel-style", "bg") {
        Ok(t) => t,
        Err(e) => return Err(e),
    };
    let fg = if str_eq(fg_str.as_str(), "default") {
        None
    } else {
        Some(fg_str.as_str())
    };
    let bg = if str_eq(bg_str.as_str(), "default") {
        None
    } else {
        Some(bg_str.as_str())
    };
    edit_reply(panel::set_style(registry, name.as_str(), fg, bg))
}

/// `(set-panel-size name size)`: resizes a panel.
pub fn set_panel_size<T>(registry: &mut PanelRegistry, args: &Vec<Arg<T>>) -> (r: Result<Reply<T>, String>)
    ensures
        match first_string(args@, "set-panel-size"@) {
            Err(m) => fails_with(r, m) && final(registry)@ == old(registry)@,
            Ok(name) => match int_at(args@, 1, "set-panel-size"@, "size"@) {
                Err(m) => fails_with(r, m) && final(registry)@ == old(registry)@,
                Ok(n) => (r is Ok ==> answers_nil(r)) && edited(
                    old(registry)@,
                    final(registry)@,
                    as_unit(r),
                    name,
                    |p: PanelView| PanelView { size: n as u16, ..p },
                ),
            },
        },
{
    let name = match extract_string_arg(args, "set-panel-size") {
        Ok(t) => t,
        Err(e) => return Err(e),
    };
    let size = match extract_int_arg_at(args, 1, "set-panel-size", "size") {
        Ok(n) => n as u16,
        Err(e) => return Err(e),
    };
    edit_reply(panel::set_size(registry, name.as_str(), size))
}

/// `(set-panel-priority name priority)`: sets a panel's rendering priority.
pub fn set_panel_priority<T>(registry: &mut PanelRegistry, args: &Vec<Arg<T>>) -> (r: Result<Reply<T>, String>)
    ensures
        match string_at(args@, 0, "set-panel-priority"@, "name"@) {
            Err(m) => fails_with(r, m) && final(registry)@ == old(registry)@,
            Ok(name) => match int_at(args@, 1, "set-panel-priority"@, "priority"@) {
                Err(m) => fails_with(r, m) && final(registry)@ == old(registry)@,
                Ok(n) => (r is Ok ==> answers_nil(r)) && edited(
                    old(registry)@,
                    final(registry)@,
                    as_unit(r),
                    name,
                    |p: PanelView| PanelView { priority: n as u16, ..p },
                ),
            },
        },
{
    let name = match extract_string_arg_at(args, 0, "set-panel-priority", "name") {
        Ok(t) => t,
        Err(e) => return Err(e),
    };
    let priority = match extract_int_arg_at(args, 1, "set-panel-priority", "priority") {
        Ok(n) => n as u16,
        Err(e) => return Err(e),
    };
    edit_reply(panel::set_panel_priority(registry, name.as_str(), priority))
}

/// What `(set-panel-line-style name line start end color)` reads: the error
/// message, or the name, the line and the segment.
pub open spec fn panel_style_args<T>(args: Seq<Arg<T>>) -> Result<(Seq<char>, usize, (usize, usize, ThemeColor)), Seq<char>> {
    match string_at(args, 0, "set-panel-line-style"@, "name"@) {
        Err(m) => Err(m),
        Ok(name) => match int_at(args, 1, "set-panel-line-style"@, "line"@) {
            Err(m) => Err(m),
            Ok(line) => match int_at(args, 2, "set-panel-line-style"@, "start"@) {
                Err(m) => Err(m),
                Ok(start) => match int_at(args, 3, "set-panel-line-style"@, "end"@) {
                    Err(m) => Err(m),
                    Ok(end) => match string_at(args, 4, "set-panel-line-style"@, "color"@) {
                        Err(m) => Err(m),
                        Ok(t) => match color_of(normalized(t)) {
                            None => Err("set-panel-line-style: invalid color \""@ + t + "\""@),
                            Some(c) => Ok((name, line as usize, (start as usize, end as usize, c))),
                        },
                    },
                },
            },
        },
    }
}

/// `(set-panel-line-style name line start end color)`: adds a colored
/// segment to a panel line.
pub fn set_panel_line_style<T>(registry: &mut PanelRegistry, args: &Vec<Arg<T>>) -> (r: Result<Reply<T>, String>)
    requires
        string_at(args@, 0, "set-panel-line-style"@, "name"@) is Ok && int_at(args@, 1, "set-panel-line-style"@, "line"@) is Ok
            && int_at(args@, 2, "set-panel-line-style"@, "start"@) is Ok && int_at(args@, 3, "set-panel-line-style"@, "end"@) is Ok
            ==> (string_at(args@, 4, "set-panel-line-style"@, "color"@) matches Ok(t) ==> hex_cuts_ok(normalized(t))),
    ensures
        match panel_style_args(args@) {
            Err(m) => fails_with(r, m) && final(registry)@ == old(registry)@,
            Ok((name, line, seg)) => (r is Ok ==> answers_nil(r)) && edited(
                old(registry)@,
                final(registry)@,
                as_unit(r),
                name,
                |p: PanelView| PanelView { line_styles: with_segment(p.line_styles, line, seg), ..p },
            ),
        },
{
    let name = match extract_string_arg_at(args, 0, "set-panel-line-style", "name") {
        Ok(t) => t,
        Err(e) => return Err(e),
    };
    let line = match extract_int_arg_at(args, 1, "set-panel-line-style", "line") {
        Ok(n) => n as usize,
        Err(e) => return Err(e),
    };
    let start = match extract_int_arg_at(args, 2, "set-panel-line-style", "start") {
        Ok(n) => n as usize,
        Err(e) => return Err(e),
    };
    let end = match extract_int_arg_at(args, 3, "set-panel-line-style", "end") {
        Ok(n) => n as usize,
        Err(e) => return Err(e),
    };
    let color_str = match extract_string_arg_at(args, 4, "set-panel-line-style", "color") {
        Ok(t) => t,
        Err(e) => return Err(e),
    };
    let color = match parse_color(color_str.as_str()) {
        Some(c) => c,
        None => return Err(cat3("set-panel-line-style: invalid color \"", color_str.as_str(), "\"")),
    };
    edit_reply(panel::add_panel_line_style(registry, name.as_str(), line, start, end, color))
}

/// `(clear-panel-line-styles name)`: removes a panel's line styles.
pub fn clear_panel_line_styles<T>(registry: &mut PanelRegistry, args: &Vec<Arg<T>>) -> (r: Result<Reply<T>, String>)
    ensures
        match first_string(args@, "clear-panel-line-styles"@) {
            Err(m) => fails_with(r, m) && final(registry)@ == old(registry)@,
            Ok(name) => (r is Ok ==> answers_nil(r)) && edited(
                old(registry)@,
                final(registry)@,
                as_unit(r),
                name,
                |p: PanelView| PanelView { line_styles: Map::empty(), ..p },
            ),
        },
{
    let name = match extract_string_arg(args, "clear-panel-line-styles") {
        Ok(t) => t,
        Err(e) => return Err(e),
    };
    edit_reply(panel::clear_panel_line_styles(registry, name.as_str()))
}

/// `(clear-panel-lines name)`: removes a panel's lines and line styles and
/// puts its cursor on line 0.
pub fn clear_panel_lines<T>(registry: &mut PanelRegistry, args: &Vec<Arg<T>>) -> (r: Result<Reply<T>, String>)
    ensures
        match first_string(args@, "clear-panel-lines"@) {
            Err(m) => fails_with(r, m) && final(registry)@ == old(registry)@,
            Ok(name) => (r is Ok ==> answers_nil(r)) && edited(
                old(registry)@,
                final(registry)@,
                as_unit(r),
                name,
                |p: PanelView| PanelView { lines: Map::empty(), line_styles: Map::empty(), cursor_line: 0, ..p },
            ),
        },
{
    let name = match extract_string_arg(args, "clear-panel-lines") {
        Ok(t) => t,
        Err(e) => return Err(e),
    };
    edit_reply(panel::clear_lines(registry, name.as_str()))
}

/// `(panel-set-cursor name line)`: puts a panel's cursor on a line, clamped
/// to the lines set on the panel.
pub fn panel_set_cursor<T>(registry: &mut PanelRegistry, args: &Vec<Arg<T>>) -> (r: Result<Reply<T>, String>)
    ensures
        match first_string(args@, "panel-set-cursor"@) {
            Err(m) => fails_with(r, m) && final(registry)@ == old(registry)@,
            Ok(name) => match int_at(args@, 1, "panel-set-cursor"@, "line"@) {
                Err(m) => fails_with(r, m) && final(registry)@ == old(registry)@,
                Ok(n) => (r is Ok ==> answers_nil(r)) && edited(
                    old(registry)@,
                    final(registry)@,
                    as_unit(r),
                    name,
                    |p: PanelView| PanelView { cursor_line: clamped_line(n as usize, p.lines.len()), ..p },
                ),
            },
        },
{
    let name = match extract_string_arg(args, "panel-set-cursor") {
        Ok(t) => t,
        Err(e) => return Err(e),
    };
    let line = match extract_int_arg_at(args, 1, "panel-set-cursor", "line") {
        Ok(n) => n as usize,
        Err(e) => return Err(e),
    };
    edit_reply(panel::set_panel_cursor(registry, name.as_str(), line))
}

/// `(panel-cursor-up name)`: moves a panel's cursor up one line (not above 0).
pub fn panel_cursor_up<T>(registry: &mut PanelRegistry, args: &Vec<Arg<T>>) -> (r: Result<Reply<T>, String>)
    ensures
        match first_string(args@, "panel-cursor-up"@) {
            Err(m) => fails_with(r, m) && final(registry)@ == old(registry)@,
            Ok(name) => (r is Ok ==> answers_nil(r)) && edited(
                old(registry)@,
                final(registry)@,
                as_unit(r),
                name,
                |p: PanelView|
                    PanelView {
                        cursor_line: (if p.cursor_line > 0 {
                            p.cursor_line - 1
                        } else {
                            0
                        }) as usize,
                        ..p
                    },
            ),
        },
{
    let name = match extract_string_arg(args, "panel-cursor-up") {
        Ok(t) => t,
        Err(e) => return Err(e),
    };
    edit_reply(panel::panel_cursor_up(registry, name.as_str()))
}

/// `(panel-cursor-line name)`: a panel's cursor line.
pub fn panel_cursor_line<T>(registry: &PanelRegistry, args: &Vec<Arg<T>>) -> (r: Result<Reply<T>, String>)
    ensures
        match first_string(args@, "panel-cursor-line"@) {
            Err(m) => fails_with(r, m),
            Ok(name) => match find_panel(registry@, name) {
                Some(i) => r == Ok::<Reply<T>, String>(Reply::Int(registry@[i].cursor_line as i32)),
                None => fails_with(r, not_found_msg(name)),
            },
        },
{
    let name = match extract_string_arg(args, "panel-cursor-line") {
        Ok(t) => t,
        Err(e) => return Err(e),
    };
    match panel::panel_cursor_line(registry, name.as_str()) {
        Ok(line) => Ok(Reply::Int(line as i32)),
        Err(e) => Err(e),
    }
}

/// `(focus-panel name)`: gives the keyboard focus to an existing panel.
pub fn focus_panel<T>(registry: &PanelRegistry, focused: &mut Option<String>, args: &Vec<Arg<T>>) -> (r: Result<
    Reply<T>,
    String,
>)
    ensures
        match first_string(args@, "focus-panel"@) {
            Err(m) => fails_with(r, m) && *final(focused) == *old(focused),
            Ok(name) => if find_panel(registry@, name) is Some {
                &&& answers_nil(r)
                &&& *final(focused) matches Some(f) && f@ == name
            } else {
                fails_with(r, "focus-panel: panel '"@ + name + "' not found"@) && *final(focused) == *old(focused)
            },
        },
{
    let name = match extract_string_arg(args, "focus-panel") {
        Ok(t) => t,
        Err(e) => return Err(e),
    };
    match panel::get(registry, name.as_str()) {
        None => Err(cat3("focus-panel: panel '", name.as_str(), "' not found")),
        Some(_) => {
            *focused = Some(name);
            Ok(Reply::Nil)
        },
    }
}

/// `(unfocus-panel)`: gives the keyboard focus back to the editor.
pub fn unfocus_panel<T>(focused: &mut Option<String>) -> (r: Result<Reply<T>, String>)
    ensures
        answers_nil(r),
        *final(focused) == None::<String>,
{
    *focused = None;
    Ok(Reply::Nil)
}

/// `(panel-cursor-down name)`: moves a panel's cursor down one line while
/// a further line remains (clamped to the number of lines set).
pub fn panel_cursor_down<T>(registry: &mut PanelRegistry, args: &Vec<Arg<T>>) -> (r: Result<Reply<T>, String>)
    ensures
        match first_string(args@, "panel-cursor-down"@) {
            Err(m) => fails_with(r, m) && final(registry)@ == old(registry)@,
            Ok(name) => (r is Ok ==> answers_nil(r)) && edited(
                old(registry)@,
                final(registry)@,
                as_unit(r),
                name,
                |p: PanelView|
                    PanelView {
                        cursor_line: (if p.cursor_line + 1 < p.lines.len() {
                            p.cursor_line + 1
                        } else {
                            p.cursor_line as int
                        }) as usize,
                        ..p
                    },
            ),
        },
{
    let name = match extract_string_arg(args, "panel-cursor-down") {
        Ok(t) => t,
        Err(e) => return Err(e),
    };
    edit_reply(panel::panel_cursor_down(registry, name.as_str()))
}

/// `(panel-entry-count name)`: the number of lines set on a panel.
pub fn panel_entry_count<T>(registry: &PanelRegistry, args: &Vec<Arg<T>>) -> (r: Result<Reply<T>, String>)
    ensures
        match first_string(args@, "panel-entry-count"@) {
            Err(m) => fails_with(r, m),
            Ok(name) => match find_panel(registry@, name) {
                Some(i) => r == Ok::<Reply<T>, String>(
                    Reply::Int(registry@[i].lines.len() as usize as i32),
                ),
                None => fails_with(r, not_found_msg(name)),
            },
        },
{
    let name = match extract_string_arg(args, "panel-entry-count") {
        Ok(t) => t,
        Err(e) => return Err(e),
    };
    match panel::panel_entry_count(registry, name.as_str()) {
        Ok(n) => Ok(Reply::Int(n as i32)),
        Err(e) => Err(e),
    }
}
} // verus!

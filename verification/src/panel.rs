//! Panels: named screen regions at the edges of the screen (top, bottom, left,
//! right), managed by plugins. The text area fills what the panels leave free.
use crate::text::{str_eq, string_push_str, to_string};
use crate::theme::ThemeColor;
use std::collections::HashMap;
use vstd::prelude::*;
use vstd::std_specs::iter::IteratorSpec;

verus! {

broadcast use vstd::std_specs::hash::group_hash_axioms;

/// Where a panel is positioned on screen.
#[derive(Debug, Clone, Copy, PartialEq, Eq, Structural)]
pub enum PanelPosition {
    Top,
    Bottom,
    Left,
    Right,
}

/// A style segment of a panel line: start column, end column, color.
pub type LineStyle = (usize, usize, ThemeColor);

/// A single panel with its properties.
#[derive(Debug)]
pub struct Panel {
    pub name: String,
    pub position: PanelPosition,
    pub size: u16,
    pub content: String,
    pub lines: HashMap<usize, String>,
    pub fg_color: Option<String>,
    pub bg_color: Option<String>,
    pub visible: bool,
    /// Cursor row within the panel (used when the panel has focus).
    pub cursor_line: usize,
    /// Rendering priority: lower values render more to the left (for left panels).
    pub priority: u16,
    /// Per-line style segments: line number to (start_col, end_col, color) segments.
    pub line_styles: HashMap<usize, Vec<LineStyle>>,
}

/// The value of a panel: its fields, strings taken by their chars.
pub struct PanelView {
    pub name: Seq<char>,
    pub position: PanelPosition,
    pub size: u16,
    pub content: Seq<char>,
    pub lines: Map<usize, Seq<char>>,
    pub fg_color: Option<Seq<char>>,
    pub bg_color: Option<Seq<char>>,
    pub visible: bool,
    pub cursor_line: usize,
    pub priority: u16,
    pub line_styles: Map<usize, Seq<LineStyle>>,
}

/// The chars of an optional string.
pub open spec fn opt_view(s: Option<String>) -> Option<Seq<char>> {
    match s {
        Some(t) => Some(t@),
        None => None,
    }
}

impl View for Panel {
    type V = PanelView;

    open spec fn view(&self) -> PanelView {
        PanelView {
            name: self.name@,
            position: self.position,
            size: self.size,
            content: self.content@,
            lines: self.lines@.map_values(|s: String| s@),
            fg_color: opt_view(self.fg_color),
            bg_color: opt_view(self.bg_color),
            visible: self.visible,
            cursor_line: self.cursor_line,
            priority: self.priority,
            line_styles: self.line_styles@.map_values(|v: Vec<LineStyle>| v@),
        }
    }
}

/// Registry of all panels, in order of creation.
#[derive(Debug)]
pub struct PanelRegistry {
    pub panels: Vec<Panel>,
}

impl View for PanelRegistry {
    type V = Seq<PanelView>;

    open spec fn view(&self) -> Seq<PanelView> {
        self.panels@.map_values(|p: Panel| p@)
    }
}

/// The position of the first panel named `name` from index `i` on.
pub open spec fn find_from(v: Seq<PanelView>, name: Seq<char>, i: int) -> Option<int>
    decreases v.len() - i,
{
    if i < 0 || i >= v.len() {
        None
    } else if v[i].name == name {
        Some(i)
    } else {
        find_from(v, name, i + 1)
    }
}

/// The position of the first panel named `name`.
pub open spec fn find_panel(v: Seq<PanelView>, name: Seq<char>) -> Option<int> {
    find_from(v, name, 0)
}

/// The message for a missing panel: "Panel '<name>' not found".
pub open spec fn not_found_msg(name: Seq<char>) -> Seq<char> {
    "Panel '"@ + name + "' not found"@
}

/// The message for a name already in use: "Panel '<name>' already exists".
pub open spec fn exists_msg(name: Seq<char>) -> Seq<char> {
    "Panel '"@ + name + "' already exists"@
}

/// What an edit of the panel named `name` does: the first panel of that name
/// becomes `f` of itself and the result is `Ok`; with no such panel nothing
/// changes and the result is the "not found" error.
pub open spec fn edited(
    old: Seq<PanelView>,
    new: Seq<PanelView>,
    r: Result<(), String>,
    name: Seq<char>,
    f: spec_fn(PanelView) -> PanelView,
) -> bool {
    match find_panel(old, name) {
        Some(i) => r is Ok && new == old.update(i, f(old[i])),
        None => r matches Err(e) && e@ == not_found_msg(name) && new == old,
    }
}

/// A line number clamped to the lines of a panel that has `n` lines set:
/// at most the last of them (0 when none is set).
pub open spec fn clamped_line(line: usize, n: nat) -> usize {
    if n == 0 {
        0
    } else if line < n {
        line
    } else {
        (n - 1) as usize
    }
}

/// The number of lines set on a panel of `p`'s view, from its lines map.
proof fn lemma_lines_count(p: &Panel)
    ensures
        p@.lines.len() == p.lines@.len(),
        p@.lines.dom().finite(),
{
    assert(p@.lines.dom() =~= p.lines@.dom());
}

fn msg_with_name(before: &str, name: &str, after: &str) -> (s: String)
    ensures
        s@ == before@ + name@ + after@,
{
    let mut s = to_string(before);
    string_push_str(&mut s, name);
    string_push_str(&mut s, after);
    s
}

fn not_found(name: &str) -> (s: String)
    ensures
        s@ == not_found_msg(name@),
{
    msg_with_name("Panel '", name, "' not found")
}

fn position_of(registry: &PanelRegistry, name: &str) -> (r: Option<usize>)
    ensures
        r matches Some(i) ==> find_panel(registry@, name@) == Some(i as int) && i < registry.panels@.len(),
        r is None ==> find_panel(registry@, name@) is None,
{
    let mut i: usize = 0;
    while i < registry.panels.len()
        invariant
            i <= registry.panels@.len(),
            find_panel(registry@, name@) == find_from(registry@, name@, i as int),
        decreases registry.panels@.len() - i,
    {
        if str_eq(registry.panels[i].name.as_str(), name) {
            return Some(i);
        }
        i = i + 1;
    }
    None
}

/// Creates a new empty panel registry.
pub fn new() -> (r: PanelRegistry)
    ensures
        r@ == Seq::<PanelView>::empty(),
{
    let r = PanelRegistry { panels: Vec::new() };
    assert(r@ =~= Seq::<PanelView>::empty());
    r
}

/// A fresh panel as `define_panel` makes it.
pub open spec fn fresh_panel(name: Seq<char>, position: PanelPosition, size: u16) -> PanelView {
    PanelView {
        name,
        position,
        size,
        content: Seq::empty(),
        lines: Map::empty(),
        fg_color: None,
        bg_color: None,
        visible: true,
        cursor_line: 0,
        priority: 50,
        line_styles: Map::empty(),
    }
}

/// Adds a new visible panel at the end of the registry, with no content, no
/// lines or styles, cursor at 0 and priority 50. Fails, changing nothing, when
/// a panel of that name exists.
pub fn define_panel(registry: &mut PanelRegistry, name: &str, position: PanelPosition, size: u16) -> (r:
    Result<(), String>)
    ensures
        find_panel(old(registry)@, name@) is None ==> r is Ok && final(registry)@ == old(registry)@.push(
            fresh_panel(name@, position, size),
        ),
        find_panel(old(registry)@, name@) is Some ==> (r matches Err(e) && e@ == exists_msg(name@)
            && final(registry)@ == old(registry)@),
{
    if position_of(registry, name).is_some() {
        return Err(msg_with_name("Panel '", name, "' already exists"));
    }
    let p = Panel {
        name: to_string(name),
        position,
        size,
        content: String::new(),
        lines: HashMap::new(),
        fg_color: None,
        bg_color: None,
        visible: true,
        cursor_line: 0,
        priority: 50,
        line_styles: HashMap::new(),
    };
    assert(p@.lines =~= Map::<usize, Seq<char>>::empty());
    assert(p@.line_styles =~= Map::<usize, Seq<LineStyle>>::empty());
    registry.panels.push(p);
    assert(registry@ =~= old(registry)@.push(fresh_panel(name@, position, size)));
    Ok(())
}

/// Removes every panel named `name`; the others keep their order.
pub fn remove_panel(registry: &mut PanelRegistry, name: &str)
    ensures
        final(registry)@ == old(registry)@.filter(|p: PanelView| p.name != name@),
{
    let ghost v0 = registry@;
    let ghost keep = |p: PanelView| p.name != name@;
    let mut i: usize = 0;
    let ghost mut j: int = 0;
    while i < registry.panels.len()
        invariant
            0 <= j <= v0.len(),
            keep == (|p: PanelView| p.name != name@),
            registry@ == v0.subrange(0, j).filter(keep) + v0.subrange(j, v0.len() as int),
            i == v0.subrange(0, j).filter(keep).len(),
        decreases registry.panels@.len() - i,
    {
        let ghost before = registry@;
        let ghost bp = registry.panels@;
        proof {
            assert(v0.subrange(0, j + 1).drop_last() =~= v0.subrange(0, j));
            assert(before[i as int] == v0[j]);
            reveal_with_fuel(Seq::filter, 1);
        }
        if str_eq(registry.panels[i].name.as_str(), name) {
            registry.panels.remove(i);
            proof {
                assert(registry.panels@ == bp.remove(i as int));
                assert(registry@ =~= before.remove(i as int));
                assert(v0.subrange(0, j + 1).filter(keep) =~= v0.subrange(0, j).filter(keep));
                assert(registry@ =~= v0.subrange(0, j + 1).filter(keep) + v0.subrange(j + 1, v0.len() as int));
            }
        } else {
            i = i + 1;
            proof {
                assert(v0.subrange(0, j + 1).filter(keep) =~= v0.subrange(0, j).filter(keep).push(v0[j]));
                assert(registry@ =~= v0.subrange(0, j + 1).filter(keep) + v0.subrange(j + 1, v0.len() as int));
            }
        }
        proof {
            j = j + 1;
        }
    }
    proof {
        assert(v0.subrange(0, j) =~= v0);
        assert(registry@ =~= v0.filter(keep));
    }
}


/// Sets the single-line content of a panel (used for top/bottom panels).
pub fn set_content(registry: &mut PanelRegistry, name: &str, text: &str) -> (r: Result<(), String>)
    ensures
        edited(old(registry)@, final(registry)@, r, name@, |p: PanelView| PanelView { content: text@, ..p }),
{
    match position_of(registry, name) {
        None => Err(not_found(name)),
        Some(i) => {
            registry.panels[i].content = to_string(text);
            proof {
                assert(registry@ =~= old(registry)@.update(i as int, PanelView { content: text@, ..old(registry)@[i as int] }));
            }
            Ok(())
        },
    }
}

/// Sets the text of one line of a panel (used for left/right panels).
pub fn set_line(registry: &mut PanelRegistry, name: &str, line_num: usize, text: &str) -> (r: Result<(), String>)
    ensures
        edited(
            old(registry)@,
            final(registry)@,
            r,
            name@,
            |p: PanelView| PanelView { lines: p.lines.insert(line_num, text@), ..p },
        ),
{
    match position_of(registry, name) {
        None => Err(not_found(name)),
        Some(i) => {
            let ghost l0 = registry.panels@[i as int].lines@;
            registry.panels[i].lines.insert(line_num, to_string(text));
            proof {
                assert(registry.panels@[i as int].lines@.map_values(|s: String| s@) =~= l0.map_values(
                    |s: String| s@,
                ).insert(line_num, text@));
                assert(registry@ =~= old(registry)@.update(
                    i as int,
                    PanelView { lines: old(registry)@[i as int].lines.insert(line_num, text@), ..old(registry)@[i as int] },
                ));
            }
            Ok(())
        },
    }
}

fn opt_to_string(s: Option<&str>) -> (r: Option<String>)
    ensures
        opt_view(r) == (match s {
            Some(t) => Some(t@),
            None => None::<Seq<char>>,
        }),
{
    match s {
        Some(t) => Some(to_string(t)),
        None => None,
    }
}

/// Sets (or, with `None`, clears) the foreground and background colors of a panel.
pub fn set_style(registry: &mut PanelRegistry, name: &str, fg: Option<&str>, bg: Option<&str>) -> (r: Result<(), String>)
    ensures
        edited(
            old(registry)@,
            final(registry)@,
            r,
            name@,
            |p: PanelView|
                PanelView {
                    fg_color: match fg {
                        Some(t) => Some(t@),
                        None => None,
                    },
                    bg_color: match bg {
                        Some(t) => Some(t@),
                        None => None,
                    },
                    ..p
                },
        ),
{
    match position_of(registry, name) {
        None => Err(not_found(name)),
        Some(i) => {
            registry.panels[i].fg_color = opt_to_string(fg);
            registry.panels[i].bg_color = opt_to_string(bg);
            proof {
                let f = |p: PanelView|
                    PanelView {
                        fg_color: match fg {
                            Some(t) => Some(t@),
                            None => None,
                        },
                        bg_color: match bg {
                            Some(t) => Some(t@),
                            None => None,
                        },
                        ..p
                    };
                assert(registry@ =~= old(registry)@.update(i as int, f(old(registry)@[i as int])));
            }
            Ok(())
        },
    }
}

/// Sets the size of a panel (height for top/bottom, width for left/right).
pub fn set_size(registry: &mut PanelRegistry, name: &str, size: u16) -> (r: Result<(), String>)
    ensures
        edited(old(registry)@, final(registry)@, r, name@, |p: PanelView| PanelView { size, ..p }),
{
    match position_of(registry, name) {
        None => Err(not_found(name)),
        Some(i) => {
            registry.panels[i].size = size;
            proof {
                assert(registry@ =~= old(registry)@.update(i as int, PanelView { size, ..old(registry)@[i as int] }));
            }
            Ok(())
        },
    }
}

/// Sets the rendering priority of a panel (lower renders further left).
pub fn set_panel_priority(registry: &mut PanelRegistry, name: &str, priority: u16) -> (r: Result<(), String>)
    ensures
        edited(old(registry)@, final(registry)@, r, name@, |p: PanelView| PanelView { priority, ..p }),
{
    match position_of(registry, name) {
        None => Err(not_found(name)),
        Some(i) => {
            registry.panels[i].priority = priority;
            proof {
                assert(registry@ =~= old(registry)@.update(i as int, PanelView { priority, ..old(registry)@[i as int] }));
            }
            Ok(())
        },
    }
}

/// The segments of line `line` with one more segment at the end.
pub open spec fn with_segment(styles: Map<usize, Seq<LineStyle>>, line: usize, seg: LineStyle) -> Map<
    usize,
    Seq<LineStyle>,
> {
    let before = if styles.contains_key(line) {
        styles[line]
    } else {
        Seq::empty()
    };
    styles.insert(line, before.push(seg))
}

/// Adds a style segment at the end of the segments of one panel line.
pub fn add_panel_line_style(
    registry: &mut PanelRegistry,
    name: &str,
    line: usize,
    start: usize,
    end: usize,
    color: ThemeColor,
) -> (r: Result<(), String>)
    ensures
        edited(
            old(registry)@,
            final(registry)@,
            r,
            name@,
            |p: PanelView| PanelView { line_styles: with_segment(p.line_styles, line, (start, end, color)), ..p },
        ),
{
    match position_of(registry, name) {
        None => Err(not_found(name)),
        Some(i) => {
            let ghost s0 = registry.panels@[i as int].line_styles@;
            let mut segs = match registry.panels[i].line_styles.remove(&line) {
                Some(v) => v,
                None => Vec::new(),
            };
            segs.push((start, end, color));
            registry.panels[i].line_styles.insert(line, segs);
            proof {
                let m0 = s0.map_values(|v: Vec<LineStyle>| v@);
                assert(registry.panels@[i as int].line_styles@.map_values(|v: Vec<LineStyle>| v@) =~= with_segment(
                    m0,
                    line,
                    (start, end, color),
                ));
                assert(registry@ =~= old(registry)@.update(
                    i as int,
                    PanelView {
                        line_styles: with_segment(old(registry)@[i as int].line_styles, line, (start, end, color)),
                        ..old(registry)@[i as int]
                    },
                ));
            }
            Ok(())
        },
    }
}

/// Clears all per-line styles of a panel.
pub fn clear_panel_line_styles(registry: &mut PanelRegistry, name: &str) -> (r: Result<(), String>)
    ensures
        edited(old(registry)@, final(registry)@, r, name@, |p: PanelView| PanelView { line_styles: Map::empty(), ..p }),
{
    match position_of(registry, name) {
        None => Err(not_found(name)),
        Some(i) => {
            registry.panels[i].line_styles.clear();
            proof {
                assert(registry.panels@[i as int].line_styles@.map_values(|v: Vec<LineStyle>| v@) =~= Map::<
                    usize,
                    Seq<LineStyle>,
                >::empty());
                assert(registry@ =~= old(registry)@.update(
                    i as int,
                    PanelView { line_styles: Map::empty(), ..old(registry)@[i as int] },
                ));
            }
            Ok(())
        },
    }
}

/// Clears all lines and line styles of a panel and puts its cursor back at 0.
pub fn clear_lines(registry: &mut PanelRegistry, name: &str) -> (r: Result<(), String>)
    ensures
        edited(
            old(registry)@,
            final(registry)@,
            r,
            name@,
            |p: PanelView| PanelView { lines: Map::empty(), line_styles: Map::empty(), cursor_line: 0, ..p },
        ),
{
    match position_of(registry, name) {
        None => Err(not_found(name)),
        Some(i) => {
            registry.panels[i].lines.clear();
            registry.panels[i].line_styles.clear();
            registry.panels[i].cursor_line = 0;
            proof {
                assert(registry.panels@[i as int].lines@.map_values(|s: String| s@) =~= Map::<usize, Seq<char>>::empty());
                assert(registry.panels@[i as int].line_styles@.map_values(|v: Vec<LineStyle>| v@) =~= Map::<
                    usize,
                    Seq<LineStyle>,
                >::empty());
                assert(registry@ =~= old(registry)@.update(
                    i as int,
                    PanelView { lines: Map::empty(), line_styles: Map::empty(), cursor_line: 0, ..old(registry)@[i as int] },
                ));
            }
            Ok(())
        },
    }
}

/// Sets the cursor line of a panel, clamped to the lines set on it: at most
/// the last of them, 0 when it has none.
pub fn set_panel_cursor(registry: &mut PanelRegistry, name: &str, line: usize) -> (r: Result<(), String>)
    ensures
        edited(
            old(registry)@,
            final(registry)@,
            r,
            name@,
            |p: PanelView| PanelView { cursor_line: clamped_line(line, p.lines.len()), ..p },
        ),
{
    match position_of(registry, name) {
        None => Err(not_found(name)),
        Some(i) => {
            let n = registry.panels[i].lines.len();
            proof {
                lemma_lines_count(&registry.panels@[i as int]);
            }
            let c = if n == 0 {
                0
            } else if line < n {
                line
            } else {
                n - 1
            };
            registry.panels[i].cursor_line = c;
            proof {
                assert(registry@ =~= old(registry)@.update(i as int, PanelView { cursor_line: c, ..old(registry)@[i as int] }));
            }
            Ok(())
        },
    }
}

/// Moves a panel's cursor up by one, stopping at 0.
pub fn panel_cursor_up(registry: &mut PanelRegistry, name: &str) -> (r: Result<(), String>)
    ensures
        edited(
            old(registry)@,
            final(registry)@,
            r,
            name@,
            |p: PanelView|
                PanelView {
                    cursor_line: (if p.cursor_line > 0 {
                        p.cursor_line - 1
                    } else {
                        0
                    }) as usize,
                    ..p
                },
        ),
{
    match position_of(registry, name) {
        None => Err(not_found(name)),
        Some(i) => {
            let c = registry.panels[i].cursor_line;
            let n = if c > 0 {
                c - 1
            } else {
                0
            };
            registry.panels[i].cursor_line = n;
            proof {
                assert(registry@ =~= old(registry)@.update(i as int, PanelView { cursor_line: n, ..old(registry)@[i as int] }));
            }
            Ok(())
        },
    }
}

/// Moves a panel's cursor down by one, clamped to the number of lines set on
/// the panel: it moves only while a further line remains.
pub fn panel_cursor_down(registry: &mut PanelRegistry, name: &str) -> (r: Result<(), String>)
    ensures
        edited(
            old(registry)@,
            final(registry)@,
            r,
            name@,
            |p: PanelView|
                PanelView {
                    cursor_line: (if p.cursor_line + 1 < p.lines.len() {
                        p.cursor_line + 1
                    } else {
                        p.cursor_line as int
                    }) as usize,
                    ..p
                },
        ),
{
    match position_of(registry, name) {
        None => Err(not_found(name)),
        Some(i) => {
            let count = registry.panels[i].lines.len();
            proof {
                lemma_lines_count(&registry.panels@[i as int]);
            }
            let c = registry.panels[i].cursor_line;
            let n = if c < count && count - c > 1 {
                c + 1
            } else {
                c
            };
            registry.panels[i].cursor_line = n;
            proof {
                assert(registry@ =~= old(registry)@.update(i as int, PanelView { cursor_line: n, ..old(registry)@[i as int] }));
            }
            Ok(())
        },
    }
}

/// Looks up the first panel named `name`.
pub fn get<'a>(registry: &'a PanelRegistry, name: &str) -> (r: Option<&'a Panel>)
    ensures
        match find_panel(registry@, name@) {
            Some(i) => r == Some(&registry.panels@[i]),
            None => r is None,
        },
{
    match position_of(registry, name) {
        Some(i) => Some(&registry.panels[i]),
        None => None,
    }
}

/// The cursor line of the named panel, or the "not found" error.
pub fn panel_cursor_line(registry: &PanelRegistry, name: &str) -> (r: Result<usize, String>)
    ensures
        match find_panel(registry@, name@) {
            Some(i) => r == Ok::<usize, String>(registry@[i].cursor_line),
            None => r matches Err(e) && e@ == not_found_msg(name@),
        },
{
    match position_of(registry, name) {
        Some(i) => Ok(registry.panels[i].cursor_line),
        None => Err(not_found(name)),
    }
}

/// The number of lines set on the named panel (the entries of its lines
/// map), or the "not found" error.
pub fn panel_entry_count(registry: &PanelRegistry, name: &str) -> (r: Result<usize, String>)
    ensures
        match find_panel(registry@, name@) {
            Some(i) => r == Ok::<usize, String>(registry@[i].lines.len() as usize),
            None => r matches Err(e) && e@ == not_found_msg(name@),
        },
{
    match position_of(registry, name) {
        Some(i) => {
            let p = &registry.panels[i];
            proof {
                lemma_lines_count(p);
            }
            Ok(p.lines.len())
        },
        None => Err(not_found(name)),
    }
}

proof fn lemma_find_from_names(v: Seq<PanelView>, name: Seq<char>, i: int)
    ensures
        find_from(v, name, i) matches Some(j) ==> 0 <= j < v.len() && v[j].name == name,
    decreases v.len() - i,
{
    if 0 <= i < v.len() && v[i].name != name {
        lemma_find_from_names(v, name, i + 1);
    }
}

/// `a` comes before `b` in rendering order: lower priority first, then
/// registry order.
pub open spec fn renders_before(v: Seq<PanelView>, a: int, b: int) -> bool {
    v[a].priority < v[b].priority || (v[a].priority == v[b].priority && a < b)
}

/// `idx` lists, in rendering order, the positions of exactly the panels at `pos`.
pub open spec fn in_render_order(v: Seq<PanelView>, pos: PanelPosition, idx: Seq<int>) -> bool {
    &&& forall|k: int| 0 <= k < idx.len() ==> 0 <= #[trigger] idx[k] < v.len() && v[idx[k]].position == pos
    &&& forall|j: int| 0 <= j < v.len() && #[trigger] v[j].position == pos ==> idx.contains(j)
    &&& forall|k: int, l: int| 0 <= k < l < idx.len() ==> renders_before(v, #[trigger] idx[k], #[trigger] idx[l])
}

/// The panels at `position`, sorted by priority (ascending); panels of equal
/// priority keep the order in which they were defined.
pub fn panels_at<'a>(registry: &'a PanelRegistry, position: &PanelPosition) -> (r: Vec<&'a Panel>)
    ensures
        exists|idx: Seq<int>|
            {
                &&& in_render_order(registry@, *position, idx)
                &&& r@.len() == idx.len()
                &&& forall|k: int| 0 <= k < idx.len() ==> *r@[k] == registry.panels@[#[trigger] idx[k]]
            },
{
    let ghost v = registry@;
    let mut order: Vec<usize> = Vec::new();
    let mut j: usize = 0;
    while j < registry.panels.len()
        invariant
            j <= registry.panels@.len(),
            v == registry@,
            forall|k: int| 0 <= k < order@.len() ==> (#[trigger] order@[k] as int) < j && v[order@[k] as int].position
                == *position,
            forall|t: int| 0 <= t < j && #[trigger] v[t].position == *position ==> order@.contains(t as usize),
            forall|k: int, l: int|
                0 <= k < l < order@.len() ==> renders_before(v, #[trigger] order@[k] as int, #[trigger] order@[l] as int),
        decreases registry.panels@.len() - j,
    {
        if registry.panels[j].position == *position {
            let p = registry.panels[j].priority;
            let mut at = order.len();
            while at > 0 && registry.panels[order[at - 1]].priority > p
                invariant
                    at <= order@.len(),
                    j < registry.panels@.len(),
                    v == registry@,
                    p == v[j as int].priority,
                    forall|k: int| 0 <= k < order@.len() ==> (#[trigger] order@[k] as int) < j,
                    forall|k: int| at <= k < order@.len() ==> v[#[trigger] order@[k] as int].priority > p,
                decreases at,
            {
                at = at - 1;
            }
            let ghost o0 = order@;
            order.insert(at, j);
            proof {
                assert forall|k: int, l: int| 0 <= k < l < order@.len() implies renders_before(
                    v,
                    #[trigger] order@[k] as int,
                    #[trigger] order@[l] as int,
                ) by {
                    if l < at {
                    } else if l == at {
                        assert(order@[k] == o0[k]);
                        if at > 0 && k < at {
                            assert(renders_before(v, o0[k] as int, o0[at - 1] as int) || k == at - 1);
                        }
                    } else if k == at {
                        assert(order@[l] == o0[l - 1]);
                    } else if k < at {
                        assert(order@[k] == o0[k]);
                        assert(order@[l] == o0[l - 1]);
                    } else {
                        assert(order@[k] == o0[k - 1]);
                        assert(order@[l] == o0[l - 1]);
                    }
                }
                assert forall|t: int| 0 <= t < j + 1 && #[trigger] v[t].position == *position implies order@.contains(
                    t as usize,
                ) by {
                    if t == j {
                        assert(order@[at as int] == j);
                    } else {
                        let k = choose|k: int| 0 <= k < o0.len() && o0[k] == t as usize;
                        if k < at {
                            assert(order@[k] == t as usize);
                        } else {
                            assert(order@[k + 1] == t as usize);
                        }
                    }
                }
            }
        }
        j = j + 1;
    }
    let mut r: Vec<&'a Panel> = Vec::new();
    let mut k: usize = 0;
    while k < order.len()
        invariant
            k <= order@.len(),
            r@.len() == k,
            forall|t: int| 0 <= t < order@.len() ==> (#[trigger] order@[t] as int) < registry.panels@.len(),
            forall|t: int| 0 <= t < k ==> *r@[t] == registry.panels@[#[trigger] order@[t] as int],
        decreases order@.len() - k,
    {
        r.push(&registry.panels[order[k]]);
        k = k + 1;
    }
    let ghost idx = order@.map_values(|x: usize| x as int);
    proof {
        assert forall|t: int| 0 <= t < v.len() && #[trigger] v[t].position == *position implies idx.contains(t) by {
            assert(order@.contains(t as usize));
            let w = choose|w: int| 0 <= w < order@.len() && order@[w] == t as usize;
            assert(idx[w] == t);
        }
        assert(in_render_order(registry@, *position, idx));
    }
    r
}

impl Default for PanelRegistry {
    /// An empty registry.
    fn default() -> (r: Self)
        ensures
            r@ == Seq::<PanelView>::empty(),
    {
        new()
    }
}

proof fn lemma_find_from_none_push(v: Seq<PanelView>, p: PanelView, name: Seq<char>, i: int)
    requires
        0 <= i <= v.len(),
        find_from(v, name, i) is None,
        p.name == name,
    ensures
        find_from(v.push(p), name, i) == Some(v.len() as int),
    decreases v.len() - i,
{
    if i < v.len() {
        assert(v.push(p)[i] == v[i]);
        lemma_find_from_none_push(v, p, name, i + 1);
    }
}

proof fn lemma_find_from_absent(v: Seq<PanelView>, name: Seq<char>, i: int)
    requires
        forall|k: int| 0 <= k < v.len() ==> (#[trigger] v[k]).name != name,
    ensures
        find_from(v, name, i) is None,
    decreases v.len() - i,
{
    if 0 <= i < v.len() {
        lemma_find_from_absent(v, name, i + 1);
    }
}

/// A panel defined under a new name is found under that name, as the fresh
/// panel at the end; after the panels of a name are removed, none is found.
pub proof fn define_then_find_and_remove_then_gone(v: Seq<PanelView>, name: Seq<char>, position: PanelPosition, size: u16)
    ensures
        find_panel(v, name) is None ==> {
            let w = v.push(fresh_panel(name, position, size));
            &&& find_panel(w, name) == Some(v.len() as int)
            &&& w[v.len() as int] == fresh_panel(name, position, size)
        },
        find_panel(v.filter(|p: PanelView| p.name != name), name) is None,
{
    if find_panel(v, name) is None {
        lemma_find_from_none_push(v, fresh_panel(name, position, size), name, 0);
    }
    let f = |p: PanelView| p.name != name;
    let w = v.filter(f);
    assert forall|k: int| 0 <= k < w.len() implies (#[trigger] w[k]).name != name by {
        assert(f(w[k]));
    }
    lemma_find_from_absent(w, name, 0);
}
} // verus!

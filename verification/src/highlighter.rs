//! SyntaxHighlighter: the parser, the current parse tree and the highlight
//! query of the current language, and the highlight ranges of a window of lines.
use crate::plugin::lines_of;
use crate::str_map::StrMap;
use crate::syntax::{notified_edit, line_start_from, 
    capture_color, theme_slot, compute_edit_notification, deduplicate_ranges, deduplicated, edit_cuts_ok, ends_with, language_of, line_to_byte_offset,
    node_pieces, range_pieces, split_node_into_line_ranges, EditNotification, HighlightRange,
};
use crate::text::{str_eq, str_to_chars, to_string};
use crate::theme::ThemeColor;
use streaming_iterator::StreamingIterator;
use tree_sitter::{Language, Parser, Query, Tree};
use vstd::prelude::*;

verus! {

#[verifier::external_type_specification]
#[verifier::external_body]
pub struct ExParser(Parser);

#[verifier::external_type_specification]
#[verifier::external_body]
pub struct ExTree(Tree);

#[verifier::external_type_specification]
#[verifier::external_body]
pub struct ExQuery(Query);

#[verifier::external_type_specification]
#[verifier::external_body]
pub struct ExLanguage(Language);

/// The grammar of Rust from `tree_sitter_rust`: generated for ABI
/// version 15 (its `parser.c`), which `tree_sitter` 0.27 accepts (versions
/// 13 to 15), and with a lexer, so a parser takes it.
#[verifier::external_body]
fn rust_grammar() -> (g: Grammar)
    ensures
        g.usable@,
{
    Grammar { language: tree_sitter_rust::LANGUAGE.into(), usable: Ghost(true) }
}

/// The grammar of Python from `tree_sitter_python`: generated for ABI
/// version 15 (its `parser.c`), which `tree_sitter` 0.27 accepts (versions
/// 13 to 15), and with a lexer, so a parser takes it.
#[verifier::external_body]
fn python_grammar() -> (g: Grammar)
    ensures
        g.usable@,
{
    Grammar { language: tree_sitter_python::LANGUAGE.into(), usable: Ghost(true) }
}

/// The grammar of JavaScript from `tree_sitter_javascript`: generated for ABI
/// version 15 (its `parser.c`), which `tree_sitter` 0.27 accepts (versions
/// 13 to 15), and with a lexer, so a parser takes it.
#[verifier::external_body]
fn javascript_grammar() -> (g: Grammar)
    ensures
        g.usable@,
{
    Grammar { language: tree_sitter_javascript::LANGUAGE.into(), usable: Ghost(true) }
}

/// The highlight query that `tree_sitter_rust` ships.
#[verifier::external_body]
fn rust_highlights() -> &'static str {
    tree_sitter_rust::HIGHLIGHTS_QUERY
}

/// The highlight query that `tree_sitter_python` ships.
#[verifier::external_body]
fn python_highlights() -> &'static str {
    tree_sitter_python::HIGHLIGHTS_QUERY
}

/// The highlight query that `tree_sitter_javascript` ships.
#[verifier::external_body]
fn javascript_highlights() -> &'static str {
    tree_sitter_javascript::HIGHLIGHT_QUERY
}

/// A grammar, and whether a parser takes it (its ABI version is one the
/// parser supports and it has a lexer).
pub struct Grammar {
    language: Language,
    usable: Ghost<bool>,
}

impl Grammar {
    /// Whether a parser takes this grammar.
    pub closed spec fn is_usable(&self) -> bool {
        self.usable@
    }
}

/// A parser, whether a language was set on it, and how many times one was:
/// a tree is parsed under the language set that many times.
pub struct LanguageParser {
    parser: Parser,
    ready: Ghost<bool>,
    epoch: Ghost<nat>,
}

/// A parse tree, the count of languages set on its parser when it was
/// parsed, the text it was parsed from, and whether it has been told of no
/// edit since.
pub struct ParsedTree {
    tree: Tree,
    epoch: Ghost<nat>,
    text: Ghost<Seq<char>>,
    fresh: Ghost<bool>,
}

/// `Parser::new`: a parser with no language set.
#[verifier::external_body]
fn new_parser() -> (p: LanguageParser)
    ensures
        !p.ready@,
{
    LanguageParser { parser: Parser::new(), ready: Ghost(false), epoch: Ghost(0) }
}

/// `Parser::set_language`: whether the parser took the language. It takes
/// every grammar whose ABI version it supports and that has a lexer, and
/// then holds that language; when it refuses one, the parser is left as it
/// was.
#[verifier::external_body]
fn set_parser_language(parser: &mut LanguageParser, grammar: &Grammar) -> (r: bool)
    ensures
        grammar.usable@ ==> r,
        r ==> final(parser).ready@ && final(parser).epoch@ == old(parser).epoch@ + 1,
        !r ==> final(parser).ready@ == old(parser).ready@ && final(parser).epoch@ == old(parser).epoch@,
    no_unwind
{
    parser.parser.set_language(&grammar.language).is_ok()
}

/// `Query::new`: the query compiled for the language, `None` when it does not compile.
#[verifier::external_body]
fn new_query(grammar: &Grammar, source: &str) -> Option<Query> {
    match Query::new(&grammar.language, source) {
        Ok(q) => Some(q),
        Err(_) => None,
    }
}

/// `Parser::parse`: the parse tree of the text, reusing `old` for unchanged
/// parts (`previous`). Its documentation and `ts_parser_parse` give `None` only when the
/// parser has no language, or the old tree was parsed under another
/// language (no progress callback is given, so it is never cancelled).
/// A tree that comes back is parsed from `source` under the parser's
/// language; the parser keeps its language.
#[verifier::external_body]
fn parse_text(parser: &mut LanguageParser, source: &str, previous: Option<&ParsedTree>) -> (r: Option<ParsedTree>)
    ensures
        final(parser).ready@ == old(parser).ready@,
        final(parser).epoch@ == old(parser).epoch@,
        old(parser).ready@ && (previous matches Some(t) ==> t.epoch@ == old(parser).epoch@) ==> r is Some,
        r matches Some(t) ==> t.epoch@ == old(parser).epoch@ && t.text@ == source@ && t.fresh@,
    no_unwind
{
    parser.parser.parse(source, previous.map(|t| &t.tree)).map(
        |tree| ParsedTree { tree, epoch: Ghost(parser.epoch@), text: Ghost(source@), fresh: Ghost(true) },
    )
}

/// `Tree::edit`: tells the tree of an edit of its text; the tree stays one
/// of the same language, and is no longer as it was parsed.
#[verifier::external_body]
fn edit_tree(tree: &mut ParsedTree, e: &EditNotification)
    ensures
        final(tree).epoch@ == old(tree).epoch@,
        final(tree).text@ == old(tree).text@,
        !final(tree).fresh@,
    no_unwind
{
    tree.fresh = Ghost(false);
    tree.tree.edit(&tree_sitter::InputEdit {
        start_byte: e.start_byte,
        old_end_byte: e.old_end_byte,
        new_end_byte: e.new_end_byte,
        start_position: tree_sitter::Point { row: e.start_position.0, column: e.start_position.1 },
        old_end_position: tree_sitter::Point { row: e.old_end_position.0, column: e.old_end_position.1 },
        new_end_position: tree_sitter::Point { row: e.new_end_position.0, column: e.new_end_position.1 },
    })
}

/// One capture of a query match: the capture's name and the (row, column)
/// points where its node starts and ends.
pub struct Capture {
    pub name: String,
    pub start: (usize, usize),
    pub end: (usize, usize),
}

/// What `QueryCursor::matches` gives for a query on a tree over the text
/// `source` within the bytes `start_byte..end_byte`: the captures of all
/// matches (name, start point, end point), in the order the cursor yields them.
pub uninterp spec fn query_result(query: Query, tree: Tree, source: Seq<char>, start_byte: int, end_byte: int) -> Seq<
    (Seq<char>, (usize, usize), (usize, usize)),
>;

/// The name and points of each capture.
pub open spec fn capture_views(caps: Seq<Capture>) -> Seq<(Seq<char>, (usize, usize), (usize, usize))> {
    caps.map_values(|c: Capture| (c.name@, c.start, c.end))
}

/// `QueryCursor::matches` on the tree's root within a byte range, with the
/// text the tree was parsed from (the cursor reads the text of nodes at
/// their byte ranges for text predicates, so another text could be cut
/// short): the captures of all matches, in the order the cursor yields them,
/// as `query_result` names them; each capture's node ends on or after the row
/// it starts on.
#[verifier::external_body]
fn query_captures(query: &Query, tree: &ParsedTree, source: &str, start_byte: usize, end_byte: usize) -> (r: Vec<Capture>)
    requires
        tree.text@ == source@,
        tree.fresh@,
    ensures
        capture_views(r@) == query_result(*query, tree.tree, source@, start_byte as int, end_byte as int),
        captures_well_placed(r@),
{
    let mut cursor = tree_sitter::QueryCursor::new();
    cursor.set_byte_range(start_byte..end_byte);
    let mut out = Vec::new();
    let mut matches = cursor.matches(query, tree.tree.root_node(), source.as_bytes());
    while let Some(m) = matches.next() {
        for c in m.captures() {
            let (s, e) = (c.node.start_position(), c.node.end_position());
            let name = query.capture_names()[c.index as usize].to_string();
            out.push(Capture { name, start: (s.row, s.column), end: (e.row, e.column) });
        }
    }
    out
}


/// The view of a highlight range: line, start column, end column, capture name.
pub open spec fn range_view(r: HighlightRange) -> (int, int, int, Seq<char>) {
    (r.line as int, r.start_col as int, r.end_col as int, r.capture_name@)
}

/// The views of a list of ranges.
pub open spec fn range_views(v: Seq<HighlightRange>) -> Seq<(int, int, int, Seq<char>)> {
    v.map_values(|r: HighlightRange| range_view(r))
}

/// The per-line pieces of a capture's node, with the capture's name.
pub open spec fn capture_pieces(source: Seq<char>, c: Capture) -> Seq<(int, int, int, Seq<char>)> {
    node_pieces(lines_of(source), c.start.0 as int, c.start.1 as int, c.end.0 as int, c.end.1 as int).map_values(
        |p: (int, int, int)| (p.0, p.1, p.2, c.name@),
    )
}

/// Whether a piece lies on a line of the window `s..e`.
pub open spec fn in_window(p: (int, int, int, Seq<char>), s: int, e: int) -> bool {
    s <= p.0 < e
}

/// The pieces of all captures, in order, that lie in the window `s..e`.
pub open spec fn window_pieces(source: Seq<char>, caps: Seq<Capture>, s: int, e: int) -> Seq<(int, int, int, Seq<char>)>
    decreases caps.len(),
{
    if caps.len() == 0 {
        Seq::empty()
    } else {
        window_pieces(source, caps.drop_last(), s, e) + capture_pieces(source, caps.last()).filter(
            |p: (int, int, int, Seq<char>)| in_window(p, s, e),
        )
    }
}

/// Rendering order of ranges: by line, then by start column.
pub open spec fn pos_lt(a: (int, int, int, Seq<char>), b: (int, int, int, Seq<char>)) -> bool {
    a.0 < b.0 || (a.0 == b.0 && a.1 < b.1)
}

/// `dst` holds the pieces of `src` sorted by line and start column, pieces at
/// the same position keeping their order in `src`.
pub open spec fn sorted_by_position(src: Seq<(int, int, int, Seq<char>)>, dst: Seq<(int, int, int, Seq<char>)>) -> bool {
    exists|idx: Seq<int>|
        {
            &&& crate::browser::is_permutation(idx, src.len() as int)
            &&& dst.len() == src.len()
            &&& forall|k: int| 0 <= k < dst.len() ==> #[trigger] dst[k] == src[idx[k]]
            &&& forall|k: int, l: int|
                0 <= k < l < dst.len() ==> !pos_lt(#[trigger] dst[l], #[trigger] dst[k]) && (!pos_lt(dst[k], dst[l])
                    ==> idx[k] < idx[l])
        }
}

/// Whether every capture can be split into line ranges (no node starts on the
/// largest representable row and ends on another).
pub open spec fn captures_splittable(caps: Seq<Capture>) -> bool {
    forall|i: int| 0 <= i < caps.len() ==> (#[trigger] caps[i]).start.0 == caps[i].end.0 || caps[i].start.0 < usize::MAX
}

/// Turns the captures of a query into the highlight ranges of the window of
/// lines `start_line..end_line`: each capture's node is split into per-line
/// ranges, those in the window are kept, sorted by line then start column
/// (stably), and ranges that overlap an earlier kept one are dropped.
pub fn ranges_from_captures(source: &str, caps: &Vec<Capture>, start_line: usize, end_line: usize) -> (r: Vec<
    HighlightRange,
>)
    requires
        captures_splittable(caps@),
    ensures
        exists|sorted: Seq<HighlightRange>|
            sorted_by_position(window_pieces(source@, caps@, start_line as int, end_line as int), range_views(sorted))
                && r@ == deduplicated(sorted),
{
    let mut ranges: Vec<HighlightRange> = Vec::new();
    let mut i: usize = 0;
    let ghost keep = |p: (int, int, int, Seq<char>)| in_window(p, start_line as int, end_line as int);
    assert(caps@.subrange(0, 0) =~= Seq::<Capture>::empty());
    assert(range_views(ranges@) =~= Seq::<(int, int, int, Seq<char>)>::empty());
    while i < caps.len()
        invariant
            i <= caps@.len(),
            captures_splittable(caps@),
            keep == (|p: (int, int, int, Seq<char>)| in_window(p, start_line as int, end_line as int)),
            range_views(ranges@) == window_pieces(source@, caps@.subrange(0, i as int), start_line as int, end_line as int),
        decreases caps@.len() - i,
    {
        let cap = &caps[i];
        let pieces = split_node_into_line_ranges(source, cap.start, cap.end, cap.name.as_str());
        let ghost all_pieces = capture_pieces(source@, caps@[i as int]);
        proof {
            assert(range_views(pieces@) =~= all_pieces) by {
                assert forall|k: int| 0 <= k < pieces@.len() implies range_views(pieces@)[k] == all_pieces[k] by {
                    assert(range_pieces(pieces@)[k] == (pieces@[k].line as int, pieces@[k].start_col as int, pieces@[k].end_col as int));
                }
            }
        }
        let ghost before = range_views(ranges@);
        let mut rest = pieces;
        let ghost mut k: int = 0;
        while rest.len() > 0
            invariant
                0 <= k <= all_pieces.len(),
                keep == (|p: (int, int, int, Seq<char>)| in_window(p, start_line as int, end_line as int)),
                range_views(rest@) == all_pieces.subrange(k, all_pieces.len() as int),
                range_views(ranges@) == before + all_pieces.subrange(0, k).filter(keep),
            decreases rest@.len(),
        {
            let ghost r0 = rest@;
            proof {
                assert(range_views(r0).len() == r0.len());
                assert(k < all_pieces.len());
            }
            let piece = rest.remove(0);
            proof {
                reveal_with_fuel(Seq::filter, 1);
                assert(all_pieces.subrange(0, k + 1).drop_last() =~= all_pieces.subrange(0, k));
                assert(range_views(r0)[0] == range_view(piece));
                assert(all_pieces[k] == range_view(piece));
                assert forall|m: int| 0 <= m < rest@.len() implies range_views(rest@)[m] == all_pieces[k + 1 + m] by {
                    assert(rest@[m] == r0[m + 1]);
                    assert(range_views(r0)[m + 1] == all_pieces.subrange(k, all_pieces.len() as int)[m + 1]);
                }
                assert(range_views(rest@) =~= all_pieces.subrange(k + 1, all_pieces.len() as int));
            }
            let ghost rv0 = range_views(ranges@);
            if piece.line >= start_line && piece.line < end_line {
                ranges.push(piece);
                proof {
                    assert(range_views(ranges@) =~= rv0.push(all_pieces[k]));
                    assert(all_pieces.subrange(0, k + 1).filter(keep) =~= all_pieces.subrange(0, k).filter(keep).push(all_pieces[k]));
                }
            } else {
                proof {
                    assert(all_pieces.subrange(0, k + 1).filter(keep) =~= all_pieces.subrange(0, k).filter(keep));
                }
            }
            proof {
                k = k + 1;
            }
        }
        proof {
            assert(k == all_pieces.len()) by {
                assert(range_views(rest@).len() == 0);
            }
        }
        proof {
            assert(all_pieces.subrange(0, all_pieces.len() as int) =~= all_pieces);
            assert(caps@.subrange(0, i + 1).drop_last() =~= caps@.subrange(0, i as int));
            assert(range_views(ranges@) =~= window_pieces(source@, caps@.subrange(0, i + 1), start_line as int, end_line as int));
        }
        i = i + 1;
    }
    proof {
        assert(caps@.subrange(0, caps@.len() as int) =~= caps@);
    }
    let sorted = sort_by_position(ranges);
    let ghost sv = sorted@;
    let r = deduplicate_ranges(sorted);
    r
}

/// Sorts ranges by line, then start column; ranges at the same position keep
/// their order.
fn sort_by_position(v: Vec<HighlightRange>) -> (r: Vec<HighlightRange>)
    ensures
        sorted_by_position(range_views(v@), range_views(r@)),
{
    let ghost src = range_views(v@);
    let mut rest = v;
    let ghost all = rest@;
    let n = rest.len();
    let mut out: Vec<HighlightRange> = Vec::new();
    let ghost mut idx: Seq<int> = Seq::empty();
    let mut j: usize = 0;
    while rest.len() > 0
        invariant
            src == range_views(all),
            n == all.len(),
            j + rest@.len() == n,
            rest@ == all.subrange(j as int, n as int),
            out@.len() == j,
            idx.len() == j,
            forall|k: int| 0 <= k < j ==> 0 <= #[trigger] idx[k] < j,
            forall|k: int, l: int| 0 <= k < l < j ==> #[trigger] idx[k] != #[trigger] idx[l],
            forall|k: int| 0 <= k < j ==> range_view(#[trigger] out@[k]) == src[idx[k]],
            forall|k: int, l: int|
                0 <= k < l < j ==> !pos_lt(range_view(#[trigger] out@[l]), range_view(#[trigger] out@[k])) && (!pos_lt(
                    range_view(out@[k]),
                    range_view(out@[l]),
                ) ==> idx[k] < idx[l]),
        decreases rest@.len(),
    {
        let e = rest.remove(0);
        let mut at = out.len();
        while at > 0 && (e.line < out[at - 1].line || (e.line == out[at - 1].line && e.start_col < out[at - 1].start_col))
            invariant
                at <= out@.len(),
                forall|k: int| at <= k < out@.len() ==> pos_lt(range_view(e), range_view(#[trigger] out@[k])),
            decreases at,
        {
            at = at - 1;
        }
        let ghost o0 = out@;
        let ghost i0 = idx;
        proof {
            assert(range_view(e) == src[j as int]) by {
                assert(all[j as int] == e);
            }
        }
        out.insert(at, e);
        proof {
            idx = i0.insert(at as int, j as int);
            assert(rest@ =~= all.subrange(j + 1, n as int));
            assert forall|k: int, l: int| 0 <= k < l < j + 1 implies !pos_lt(
                range_view(#[trigger] out@[l]),
                range_view(#[trigger] out@[k]),
            ) && (!pos_lt(range_view(out@[k]), range_view(out@[l])) ==> idx[k] < idx[l]) by {
                if l < at {
                    assert(out@[k] == o0[k] && out@[l] == o0[l]);
                } else if l == at {
                    assert(out@[k] == o0[k]);
                } else if k == at {
                    assert(out@[l] == o0[l - 1]);
                } else if k < at {
                    assert(out@[k] == o0[k]);
                    assert(out@[l] == o0[l - 1]);
                } else {
                    assert(out@[k] == o0[k - 1]);
                    assert(out@[l] == o0[l - 1]);
                }
            }
        }
        j = j + 1;
    }
    proof {
        assert(crate::browser::is_permutation(idx, n as int));
        assert(range_views(out@).len() == src.len());
        assert forall|k: int| 0 <= k < src.len() implies #[trigger] range_views(out@)[k] == src[idx[k]] by {}
        assert forall|k: int, l: int| 0 <= k < l < src.len() implies !pos_lt(
            #[trigger] range_views(out@)[l],
            #[trigger] range_views(out@)[k],
        ) && (!pos_lt(range_views(out@)[k], range_views(out@)[l]) ==> idx[k] < idx[l]) by {
            assert(range_views(out@)[k] == range_view(out@[k]));
            assert(range_views(out@)[l] == range_view(out@[l]));
        }
    }
    out
}

/// A supported language: its id, the file extensions that select it, its
/// grammar and its highlight query.
pub struct LanguageConfig {
    pub id: &'static str,
    pub extensions: &'static [&'static str],
    pub grammar: Grammar,
    pub highlight_query: &'static str,
}

/// The id and extensions of a language config.
pub open spec fn config_view(c: LanguageConfig) -> (Seq<char>, Seq<Seq<char>>) {
    (c.id@, c.extensions@.map_values(|e: &str| e@))
}

/// The ids and extensions of a list of configs.
pub open spec fn config_views(v: Seq<LanguageConfig>) -> Seq<(Seq<char>, Seq<Seq<char>>)> {
    v.map_values(|c: LanguageConfig| config_view(c))
}

/// The supported languages, in search order.
pub open spec fn language_table() -> Seq<(Seq<char>, Seq<Seq<char>>)> {
    seq![
        ("rust"@, seq![".rs"@]),
        ("python"@, seq![".py"@, ".pyi"@]),
        ("javascript"@, seq![".js"@, ".mjs"@, ".cjs"@, ".jsx"@]),
    ]
}

/// Whether a file name ends with one of a config's extensions.
pub open spec fn matches_config(c: (Seq<char>, Seq<Seq<char>>), name: Seq<char>) -> bool {
    exists|k: int| 0 <= k < c.1.len() && ends_with(name, #[trigger] c.1[k])
}

/// The config for Rust.
pub fn rust_config() -> (c: LanguageConfig)
    ensures
        config_view(c) == language_table()[0],
        c.grammar.is_usable(),
{
    let c = LanguageConfig { id: "rust", extensions: &[".rs"], grammar: rust_grammar(), highlight_query: rust_highlights() };
    assert(config_view(c).1 =~= language_table()[0].1);
    c
}

/// The config for Python.
pub fn python_config() -> (c: LanguageConfig)
    ensures
        config_view(c) == language_table()[1],
        c.grammar.is_usable(),
{
    let c = LanguageConfig {
        id: "python",
        extensions: &[".py", ".pyi"],
        grammar: python_grammar(),
        highlight_query: python_highlights(),
    };
    assert(config_view(c).1 =~= language_table()[1].1);
    c
}

/// The config for JavaScript.
pub fn javascript_config() -> (c: LanguageConfig)
    ensures
        config_view(c) == language_table()[2],
        c.grammar.is_usable(),
{
    let c = LanguageConfig {
        id: "javascript",
        extensions: &[".js", ".mjs", ".cjs", ".jsx"],
        grammar: javascript_grammar(),
        highlight_query: javascript_highlights(),
    };
    assert(config_view(c).1 =~= language_table()[2].1);
    c
}

/// All available language configs.
pub fn all_languages() -> (r: Vec<LanguageConfig>)
    ensures
        config_views(r@) == language_table(),
        forall|i: int| 0 <= i < r@.len() ==> (#[trigger] r@[i]).grammar.is_usable(),
{
    let r = vec![rust_config(), python_config(), javascript_config()];
    assert(config_views(r@) =~= language_table());
    r
}

/// The first config in `v` that a file name matches, by extension.
pub open spec fn first_match(v: Seq<(Seq<char>, Seq<Seq<char>>)>, name: Seq<char>, i: int) -> bool {
    &&& 0 <= i < v.len()
    &&& matches_config(v[i], name)
    &&& forall|j: int| 0 <= j < i ==> !matches_config(#[trigger] v[j], name)
}

/// Which config of the table a file name selects is the language of its name.
proof fn lemma_table_matches(name: Seq<char>)
    ensures
        forall|i: int| first_match(language_table(), name, i) ==> language_of(name) == Some(language_table()[i].0),
        (forall|j: int| 0 <= j < 3 ==> !matches_config(#[trigger] language_table()[j], name)) ==> language_of(name) is None,
{
    let t = language_table();
    assert(t[0].1[0] == ".rs"@);
    assert(t[1].1[0] == ".py"@ && t[1].1[1] == ".pyi"@);
    assert(t[2].1[0] == ".js"@ && t[2].1[1] == ".mjs"@ && t[2].1[2] == ".cjs"@ && t[2].1[3] == ".jsx"@);
    assert(matches_config(t[0], name) <==> ends_with(name, ".rs"@));
    assert(matches_config(t[1], name) <==> (ends_with(name, ".py"@) || ends_with(name, ".pyi"@)));
    assert(matches_config(t[2], name) <==> (ends_with(name, ".js"@) || ends_with(name, ".mjs"@) || ends_with(
        name,
        ".cjs"@,
    ) || ends_with(name, ".jsx"@)));
    assert forall|i: int| first_match(t, name, i) implies language_of(name) == Some(t[i].0) by {
        if i >= 1 {
            assert(!matches_config(t[0], name));
        }
        if i >= 2 {
            assert(!matches_config(t[1], name));
        }
    }
}

/// The index of the first config whose extensions end the file name.
fn find_config(configs: &Vec<LanguageConfig>, filename: &str) -> (r: Option<usize>)
    ensures
        match r {
            Some(i) => first_match(config_views(configs@), filename@, i as int),
            None => forall|j: int| 0 <= j < configs@.len() ==> !matches_config(#[trigger] config_views(configs@)[j], filename@),
        },
{
    let name = str_to_chars(filename);
    let ghost cv = config_views(configs@);
    let mut i: usize = 0;
    while i < configs.len()
        invariant
            i <= configs@.len(),
            cv == config_views(configs@),
            name@ == filename@,
            forall|j: int| 0 <= j < i ==> !matches_config(#[trigger] cv[j], filename@),
        decreases configs@.len() - i,
    {
        let exts = configs[i].extensions;
        let ghost c = cv[i as int];
        assert(c == config_view(configs@[i as int]));
        let mut k: usize = 0;
        while k < exts.len()
            invariant
                k <= exts@.len(),
                i < configs@.len(),
                cv == config_views(configs@),
                c == cv[i as int],
                forall|j: int| 0 <= j < i ==> !matches_config(#[trigger] cv[j], filename@),
                c.1 == exts@.map_values(|e: &str| e@),
                name@ == filename@,
                forall|m: int| 0 <= m < k ==> !ends_with(filename@, #[trigger] c.1[m]),
            decreases exts@.len() - k,
        {
            if crate::syntax::str_ends_with(&name, exts[k]) {
                assert(c.1[k as int] == exts@[k as int]@);
                assert(matches_config(c, filename@));
                assert(first_match(cv, filename@, i as int));
                return Some(i);
            }
            assert(c.1[k as int] == exts@[k as int]@);
            k = k + 1;
        }
        i = i + 1;
    }
    None
}

/// What can be told of a highlighter from outside: the current language, whether
/// a parse tree and a highlight query are held, and the last parsed buffer version.
pub struct HighlighterView {
    pub language: Option<Seq<char>>,
    pub has_tree: bool,
    pub has_query: bool,
    pub version: u64,
    /// The text the current tree was parsed from.
    pub tree_text: Seq<char>,
    /// The edits told to the current tree since it was parsed, in order.
    pub pending_edits: Seq<EditNotification>,
}

/// The syntax highlighter: the parser, the current parse tree, the language
/// configs, the highlight query of the current language and the version of
/// the buffer last parsed.
pub struct SyntaxHighlighter {
    parser: LanguageParser,
    current_tree: Option<ParsedTree>,
    current_language_id: Option<String>,
    language_configs: Vec<LanguageConfig>,
    highlight_query: Option<Query>,
    buffer_version: u64,
    tree_text: Ghost<Seq<char>>,
    pending_edits: Ghost<Seq<EditNotification>>,
}

impl View for SyntaxHighlighter {
    type V = HighlighterView;

    closed spec fn view(&self) -> HighlighterView {
        HighlighterView {
            language: match self.current_language_id {
                Some(s) => Some(s@),
                None => None,
            },
            has_tree: self.current_tree is Some,
            has_query: self.highlight_query is Some,
            version: self.buffer_version,
            tree_text: self.tree_text@,
            pending_edits: self.pending_edits@,
        }
    }
}

/// The captures of a query on a tree, with the node points that every
/// capture has: a node never ends before the row it starts on.
pub open spec fn captures_well_placed(caps: Seq<Capture>) -> bool {
    forall|i: int| 0 <= i < caps.len() ==> (#[trigger] caps[i]).start.0 <= caps[i].end.0
}

/// The highlight ranges that captures `caps` give for the window of lines
/// `s..e` of `source`.
pub open spec fn highlighted(source: Seq<char>, caps: Seq<Capture>, s: int, e: int, r: Seq<HighlightRange>) -> bool {
    exists|sorted: Seq<HighlightRange>|
        sorted_by_position(window_pieces(source, caps, s, e), range_views(sorted)) && r == deduplicated(sorted)
}

impl SyntaxHighlighter {
    #[verifier::type_invariant]
    spec fn configs_known(self) -> bool {
        &&& config_views(self.language_configs@) == language_table()
        &&& forall|i: int| 0 <= i < self.language_configs@.len() ==> (#[trigger] self.language_configs@[i]).grammar.usable@
        &&& self.current_language_id is Some ==> self.parser.ready@
        &&& self.current_tree matches Some(t) ==> t.epoch@ == self.parser.epoch@ && t.text@ == self.tree_text@
            && t.fresh@ == (self.pending_edits@.len() == 0)
    }

    /// The current highlight query (meaningful when one is held).
    pub closed spec fn spec_query(&self) -> Query {
        self.highlight_query->0
    }

    /// The current parse tree (meaningful when one is held).
    pub closed spec fn spec_tree(&self) -> Tree {
        self.current_tree->0.tree
    }

    /// A highlighter with all supported languages and no language set.
    pub fn new() -> (r: Self)
        ensures
            r@ == (HighlighterView {
                language: None,
                has_tree: false,
                has_query: false,
                version: 0,
                tree_text: Seq::empty(),
                pending_edits: Seq::empty(),
            }),
    {
        SyntaxHighlighter {
            parser: new_parser(),
            current_tree: None,
            current_language_id: None,
            language_configs: all_languages(),
            highlight_query: None,
            buffer_version: 0,
            tree_text: Ghost(Seq::empty()),
            pending_edits: Ghost(Seq::empty()),
        }
    }

    /// Sets the language from a file name's extension. Returns whether a
    /// language is set: the language of the name is kept as it is when it is
    /// already the current one; else the parser takes the new grammar (every
    /// bundled grammar is one it takes), the query of the language is
    /// compiled, and the tree and the version are reset. A name of no known
    /// language clears the language, the query and the tree.
    pub fn set_language_for_file(&mut self, filename: &str) -> (r: bool)
        ensures
            match language_of(filename@) {
                None => !r && final(self)@ == (HighlighterView {
                    language: None,
                    has_tree: false,
                    has_query: false,
                    ..old(self)@
                }),
                Some(id) => r && if old(self)@.language == Some(id) {
                    final(self)@ == old(self)@
                } else {
                    final(self)@.language == Some(id) && !final(self)@.has_tree && final(self)@.version == 0
                },
            },
    {
        proof {
            use_type_invariant(&*self);
            lemma_table_matches(filename@);
        }
        match find_config(&self.language_configs, filename) {
            Some(idx) => {
                let id = self.language_configs[idx].id;
                proof {
                    assert(config_views(self.language_configs@)[idx as int].0 == id@);
                    assert(first_match(language_table(), filename@, idx as int));
                    assert(language_of(filename@) == Some(id@));
                    assert(self.language_configs@[idx as int].grammar.usable@);
                }
                let same = match &self.current_language_id {
                    Some(cur) => str_eq(cur.as_str(), id),
                    None => false,
                };
                if same {
                    return true;
                }
                let mut tree = None;
                std::mem::swap(&mut tree, &mut self.current_tree);
                if !set_parser_language(&mut self.parser, &self.language_configs[idx].grammar) {
                    self.current_tree = tree;
                    return false;
                }
                self.highlight_query = new_query(&self.language_configs[idx].grammar, self.language_configs[idx].highlight_query);
                self.current_language_id = Some(to_string(id));
                self.buffer_version = 0;
                true
            },
            None => {
                proof {
                    assert(config_views(self.language_configs@).len() == self.language_configs@.len());
                    assert(language_table().len() == 3);
                    assert forall|j: int| 0 <= j < 3 implies !matches_config(#[trigger] language_table()[j], filename@) by {
                        assert(config_views(self.language_configs@)[j] == language_table()[j]);
                    }
                }
                self.current_language_id = None;
                self.highlight_query = None;
                self.current_tree = None;
                false
            },
        }
    }

    /// The current language id, if any.
    pub fn current_language(&self) -> (r: Option<&str>)
        ensures
            match r {
                Some(s) => self@.language == Some(s@),
                None => self@.language is None,
            },
    {
        match &self.current_language_id {
            Some(s) => Some(s.as_str()),
            None => None,
        }
    }

    /// Parses the full text, reusing the current tree for unchanged parts.
    /// Returns whether a tree came back; it then becomes the current tree,
    /// parsed from `source` with no edits told to it. A tree always comes
    /// back when a language is set. When none comes back nothing changes.
    pub fn parse(&mut self, source: &str) -> (r: bool)
        ensures
            old(self)@.language is Some ==> r,
            r ==> final(self)@ == (HighlighterView {
                has_tree: true,
                tree_text: source@,
                pending_edits: Seq::empty(),
                ..old(self)@
            }),
            !r ==> final(self)@ == old(self)@,
    {
        proof {
            use_type_invariant(&*self);
        }
        let mut previous = None;
        std::mem::swap(&mut previous, &mut self.current_tree);
        match parse_text(&mut self.parser, source, previous.as_ref()) {
            Some(tree) => {
                self.tree_text = Ghost(source@);
                self.pending_edits = Ghost(Seq::empty());
                self.current_tree = Some(tree);
                true
            },
            None => {
                self.current_tree = previous;
                false
            },
        }
    }

    /// Parses the text and records its buffer version; nothing is done when
    /// that version was already parsed and a tree is held.
    pub fn parse_with_version(&mut self, source: &str, version: u64) -> (r: bool)
        ensures
            if old(self)@.version == version && old(self)@.has_tree {
                r && final(self)@ == old(self)@
            } else {
                &&& old(self)@.language is Some ==> r
                &&& r ==> final(self)@ == (HighlighterView {
                    has_tree: true,
                    tree_text: source@,
                    pending_edits: Seq::empty(),
                    version,
                    ..old(self)@
                })
                &&& !r ==> final(self)@ == old(self)@
            },
    {
        proof {
            use_type_invariant(&*self);
        }
        if self.buffer_version == version && self.current_tree.is_some() {
            return true;
        }
        let r = self.parse(source);
        proof {
            use_type_invariant(&*self);
        }
        if r {
            self.buffer_version = version;
        }
        r
    }

    /// Tells the current tree, if any, of an edit of its text: the edit goes
    /// after those already told to it.
    pub fn edit(&mut self, notification: &EditNotification)
        ensures
            final(self)@ == (if old(self)@.has_tree {
                HighlighterView { pending_edits: old(self)@.pending_edits.push(*notification), ..old(self)@ }
            } else {
                old(self)@
            }),
    {
        proof {
            use_type_invariant(&*self);
        }
        let mut current = None;
        std::mem::swap(&mut current, &mut self.current_tree);
        if let Some(mut tree) = current {
            edit_tree(&mut tree, notification);
            self.pending_edits = Ghost(self.pending_edits@.push(*notification));
            self.current_tree = Some(tree);
        }
    }

    /// Finds the edit between the old and the new text, tells the tree of it,
    /// and parses the new text. Returns whether a tree came back; when none
    /// did, the tree (if any) keeps the edit it was told.
    pub fn incremental_update(&mut self, old_source: &str, new_source: &str) -> (r: bool)
        requires
            edit_cuts_ok(vstd::utf8::encode_utf8(old_source@), vstd::utf8::encode_utf8(new_source@)),
        ensures
            old(self)@.language is Some ==> r,
            r ==> final(self)@ == (HighlighterView {
                has_tree: true,
                tree_text: new_source@,
                pending_edits: Seq::empty(),
                ..old(self)@
            }),
            !r ==> final(self)@ == (match notified_edit(old_source@, new_source@) {
                Some(n) => if old(self)@.has_tree {
                    HighlighterView { pending_edits: old(self)@.pending_edits.push(n), ..old(self)@ }
                } else {
                    old(self)@
                },
                None => old(self)@,
            }),
    {
        match compute_edit_notification(old_source, new_source) {
            Some(n) => self.edit(&n),
            None => {},
        }
        self.parse(new_source)
    }

    /// The highlight ranges of the lines `start_line..end_line` (end
    /// exclusive) of `source`, the text the tree was parsed from: empty
    /// without a tree or a query; else the captures of the query over the
    /// bytes of those lines, split per line, kept in the window, sorted by line
    /// then column, without overlaps.
    pub fn highlight_lines(&self, source: &str, start_line: usize, end_line: usize) -> (r: Vec<HighlightRange>)
        requires
            self@.has_tree && self@.has_query ==> self@.tree_text == source@ && self@.pending_edits.len() == 0,
        ensures
            !self@.has_tree || !self@.has_query ==> r@.len() == 0,
            self@.has_tree && self@.has_query ==> exists|caps: Seq<Capture>|
                capture_views(caps) == query_result(
                    self.spec_query(),
                    self.spec_tree(),
                    source@,
                    line_start_from(vstd::utf8::encode_utf8(source@), start_line as nat, 0),
                    line_start_from(vstd::utf8::encode_utf8(source@), end_line as nat, 0),
                ) && captures_well_placed(caps) && highlighted(source@, caps, start_line as int, end_line as int, r@),
    {
        proof {
            use_type_invariant(self);
        }
        let tree = match &self.current_tree {
            Some(t) => t,
            None => return Vec::new(),
        };
        let query = match &self.highlight_query {
            Some(q) => q,
            None => return Vec::new(),
        };
        let start_byte = line_to_byte_offset(source, start_line);
        let end_byte = line_to_byte_offset(source, end_line);
        let caps = query_captures(query, tree, source, start_byte, end_byte);
        proof {
            assert(captures_splittable(caps@));
        }
        assert(capture_views(caps@) == query_result(
            self.spec_query(),
            self.spec_tree(),
            source@,
            start_byte as int,
            end_byte as int,
        ));
        let r = ranges_from_captures(source, &caps, start_line, end_line);
        assert(highlighted(source@, caps@, start_line as int, end_line as int, r@));
        r
    }

    /// Maps a capture name (e.g. "keyword") to its theme slot ("syntax-keyword").
    pub fn resolve_theme_slot(capture_name: &str) -> (s: String)
        ensures
            s@ == theme_slot(capture_name@),
    {
        crate::syntax::resolve_theme_slot(capture_name)
    }

    /// Resolves a capture name to a theme color, falling back from a
    /// sub-capture ("function.method") to its parent ("function").
    pub fn resolve_color(capture_name: &str, theme: &StrMap<ThemeColor>) -> (r: Option<ThemeColor>)
        ensures
            r == capture_color(capture_name@, theme@),
    {
        crate::syntax::resolve_color(capture_name, theme)
    }

    /// Whether a language is set.
    pub fn has_language(&self) -> (b: bool)
        ensures
            b == self@.language is Some,
    {
        self.current_language_id.is_some()
    }

    /// Whether a parse tree is held.
    pub fn has_tree(&self) -> (b: bool)
        ensures
            b == self@.has_tree,
    {
        self.current_tree.is_some()
    }

    /// The last parsed buffer version.
    pub fn buffer_version(&self) -> (v: u64)
        ensures
            v == self@.version,
    {
        self.buffer_version
    }
}

impl Default for SyntaxHighlighter {
    /// The same as `new`.
    fn default() -> (r: Self)
        ensures
            r@ == (HighlighterView {
                language: None,
                has_tree: false,
                has_query: false,
                version: 0,
                tree_text: Seq::empty(),
                pending_edits: Seq::empty(),
            }),
    {
        Self::new()
    }
}
} // verus!

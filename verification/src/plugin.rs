//! Plugins: the metadata header of a plugin's init.lisp, the errors of
//! discovery and loading, and the registry of loaded plugins.
use crate::paths::{path_text, text_of};
use crate::str_map::StrMap;
use crate::text::{chars_to_string, str_eq, str_to_chars, str_trim, string_push_str, to_string, trimmed};
use std::path::PathBuf;
use vstd::prelude::*;

verus! {

/// Errors that can occur during plugin discovery and loading.
#[derive(Debug)]
pub enum PluginError {
    /// Plugin directory does not contain init.lisp.
    MissingInitFile { path: PathBuf },
    /// Failed to read init.lisp; `message` is the I/O error's text.
    ReadError { path: PathBuf, message: String },
    /// Failed to parse metadata from init.lisp.
    ParseError { path: PathBuf, reason: String },
    /// A plugin of that name is already loaded.
    AlreadyLoaded { name: String },
    /// No plugin of that name is loaded.
    NotFound { name: String },
    /// Evaluating the plugin's init.lisp failed.
    InitError { name: String, reason: String },
}

/// The text of an error.
pub open spec fn error_text(e: PluginError) -> Seq<char> {
    match e {
        PluginError::MissingInitFile { path } => "missing init.lisp in "@ + path_text(path),
        PluginError::ReadError { path, message } => "failed to read "@ + path_text(path) + ": "@ + message@,
        PluginError::ParseError { path, reason } => "parse error in "@ + path_text(path) + ": "@ + reason@,
        PluginError::AlreadyLoaded { name } => "plugin '"@ + name@ + "' already loaded"@,
        PluginError::NotFound { name } => "plugin '"@ + name@ + "' not found"@,
        PluginError::InitError { name, reason } => "failed to initialize plugin '"@ + name@ + "': "@ + reason@,
    }
}

impl PluginError {
    /// The error's text, as it is displayed.
    pub fn message(&self) -> (s: String)
        ensures
            s@ == error_text(*self),
    {
        match self {
            PluginError::MissingInitFile { path } => {
                let mut s = to_string("missing init.lisp in ");
                string_push_str(&mut s, text_of(path).as_str());
                s
            },
            PluginError::ReadError { path, message } => {
                let mut s = to_string("failed to read ");
                string_push_str(&mut s, text_of(path).as_str());
                string_push_str(&mut s, ": ");
                string_push_str(&mut s, message.as_str());
                s
            },
            PluginError::ParseError { path, reason } => {
                let mut s = to_string("parse error in ");
                string_push_str(&mut s, text_of(path).as_str());
                string_push_str(&mut s, ": ");
                string_push_str(&mut s, reason.as_str());
                s
            },
            PluginError::AlreadyLoaded { name } => {
                let mut s = to_string("plugin '");
                string_push_str(&mut s, name.as_str());
                string_push_str(&mut s, "' already loaded");
                s
            },
            PluginError::NotFound { name } => {
                let mut s = to_string("plugin '");
                string_push_str(&mut s, name.as_str());
                string_push_str(&mut s, "' not found");
                s
            },
            PluginError::InitError { name, reason } => {
                let mut s = to_string("failed to initialize plugin '");
                string_push_str(&mut s, name.as_str());
                string_push_str(&mut s, "': ");
                string_push_str(&mut s, reason.as_str());
                s
            },
        }
    }
}

/// Metadata extracted from a plugin's init.lisp header comments.
#[derive(Debug, Clone, PartialEq)]
pub struct PluginMetadata {
    pub name: String,
    pub version: String,
    pub description: String,
    pub dependencies: Vec<String>,
    pub source_path: PathBuf,
}

/// The index of the first `c` in `s` at or after `i`.
pub open spec fn find_char(s: Seq<char>, c: char, i: int) -> Option<int>
    decreases s.len() - i,
{
    if i < 0 || i >= s.len() {
        None
    } else if s[i] == c {
        Some(i)
    } else {
        find_char(s, c, i + 1)
    }
}

/// Where `find_char` finds `c`, it lies at or after `i` within `s`.
pub proof fn lemma_find_char_bounds(s: Seq<char>, c: char, i: int)
    ensures
        find_char(s, c, i) matches Some(p) ==> i <= p < s.len() && s[p] == c && 0 <= p,
    decreases s.len() - i,
{
    if 0 <= i < s.len() && s[i] != c {
        lemma_find_char_bounds(s, c, i + 1);
    }
}

/// The lines of `s` as `str::lines` yields them: split at each '\n', a '\r'
/// just before a '\n' dropped, no empty line after a final '\n'.
pub open spec fn lines_of(s: Seq<char>) -> Seq<Seq<char>>
    decreases s.len(),
{
    if s.len() == 0 {
        Seq::empty()
    } else {
        match find_char(s, '\n', 0) {
            Some(p) => {
                proof {
                    lemma_find_char_bounds(s, '\n', 0);
                }
                let l = s.subrange(0, p);
                let line = if l.len() > 0 && l.last() == '\r' { l.drop_last() } else { l };
                seq![line] + lines_of(s.subrange(p + 1, s.len() as int))
            },
            None => seq![s],
        }
    }
}

/// The index of the first ": " in `s`.
pub open spec fn find_colon_space(s: Seq<char>, i: int) -> Option<int>
    decreases s.len() - i,
{
    if i < 0 || i + 1 >= s.len() {
        None
    } else if s[i] == ':' && s[i + 1] == ' ' {
        Some(i)
    } else {
        find_colon_space(s, i + 1)
    }
}

/// The key and value of a header line ";;; key: value" (after trimming the
/// line); key and value trimmed.
pub open spec fn header_field(line: Seq<char>) -> Option<(Seq<char>, Seq<char>)> {
    let t = trimmed(line);
    if t.len() >= 4 && t.subrange(0, 4) == ";;; "@ {
        let rest = t.subrange(4, t.len() as int);
        match find_colon_space(rest, 0) {
            Some(p) => Some((trimmed(rest.subrange(0, p)), trimmed(rest.subrange(p + 2, rest.len() as int)))),
            None => None,
        }
    } else {
        None
    }
}

/// The value of the last header line of `ls` with key `key`.
pub open spec fn last_field(ls: Seq<Seq<char>>, key: Seq<char>) -> Option<Seq<char>>
    decreases ls.len(),
{
    if ls.len() == 0 {
        None
    } else {
        match header_field(ls.last()) {
            Some(kv) if kv.0 == key => Some(kv.1),
            _ => last_field(ls.drop_last(), key),
        }
    }
}

/// The pieces of `s` between commas.
pub open spec fn split_commas(s: Seq<char>) -> Seq<Seq<char>>
    decreases s.len(),
{
    match find_char(s, ',', 0) {
        Some(p) => {
            proof {
                lemma_find_char_bounds(s, ',', 0);
            }
            seq![s.subrange(0, p)] + split_commas(s.subrange(p + 1, s.len() as int))
        },
        None => seq![s],
    }
}

/// The dependency names of a "depends" value: its comma-separated pieces,
/// trimmed, empty ones left out.
pub open spec fn dependency_names(v: Seq<char>) -> Seq<Seq<char>> {
    split_commas(v).map_values(|p: Seq<char>| trimmed(p)).filter(|p: Seq<char>| p.len() > 0)
}

/// The chars of each string of a list.
pub open spec fn string_views(v: Seq<String>) -> Seq<Seq<char>> {
    v.map_values(|s: String| s@)
}

/// What `parse_metadata` gives for the text of an init.lisp at `path`: the
/// metadata from the last "name", "version", "description" and "depends"
/// header lines ("0.0.0", "" and no dependencies where absent), or a parse
/// error when there is no "name" line.
pub open spec fn parsed_metadata(content: Seq<char>, path: PathBuf, r: Result<PluginMetadata, PluginError>) -> bool {
    let ls = lines_of(content);
    match last_field(ls, "name"@) {
        None => r matches Err(e) && e matches PluginError::ParseError { path: p, reason } && p == path
            && reason@ == "missing required field: name"@,
        Some(name) => r matches Ok(m) && {
            &&& m.name@ == name
            &&& m.version@ == (match last_field(ls, "version"@) {
                Some(v) => v,
                None => "0.0.0"@,
            })
            &&& m.description@ == (match last_field(ls, "description"@) {
                Some(v) => v,
                None => Seq::empty(),
            })
            &&& string_views(m.dependencies@) == (match last_field(ls, "depends"@) {
                Some(v) => dependency_names(v),
                None => Seq::empty(),
            })
            &&& m.source_path == path
        },
    }
}

/// The key and value of a header line, as `header_field` reads it.
fn header_field_of(line: &str) -> (r: Option<(String, String)>)
    ensures
        match header_field(line@) {
            Some(kv) => r matches Some(x) && x.0@ == kv.0 && x.1@ == kv.1,
            None => r is None,
        },
{
    let t = str_trim(line);
    let tc = str_to_chars(t);
    proof {
        reveal_strlit(";;; ");
    }
    if tc.len() >= 4 && tc[0] == ';' && tc[1] == ';' && tc[2] == ';' && tc[3] == ' ' {
        proof {
            assert(tc@.subrange(0, 4) =~= ";;; "@);
        }
        let ghost rest = tc@.subrange(4, tc@.len() as int);
        let mut i: usize = 4;
        let n = tc.len();
        while i < n - 1
            invariant
                n == tc@.len(),
                t@ == tc@,
                t@ == trimmed(line@),
                tc@.subrange(0, 4) == ";;; "@,
                4 <= i <= tc@.len(),
                rest == tc@.subrange(4, tc@.len() as int),
                find_colon_space(rest, 0) == find_colon_space(rest, i - 4),
            decreases tc@.len() - i,
        {
            if tc[i] == ':' && tc[i + 1] == ' ' {
                let key = chars_to_string(tc.as_slice(), 4, i);
                let value = chars_to_string(tc.as_slice(), i + 2, tc.len());
                proof {
                    assert(rest[i - 4] == ':' && rest[i - 4 + 1] == ' ');
                    assert(find_colon_space(rest, i - 4) == Some(i - 4));
                    assert(key@ =~= rest.subrange(0, i - 4));
                    assert(value@ =~= rest.subrange(i - 4 + 2, rest.len() as int));
                }
                let k = to_string(str_trim(key.as_str()));
                let v = to_string(str_trim(value.as_str()));
                return Some((k, v));
            }
            i = i + 1;
        }
        None
    } else {
        proof {
            if tc@.len() >= 4 {
                assert(tc@.subrange(0, 4) != ";;; "@) by {
                    assert(";;; "@[0] == ';' && ";;; "@[1] == ';' && ";;; "@[2] == ';' && ";;; "@[3] == ' ');
                }
            }
        }
        None
    }
}

/// The dependency names of a "depends" value.
fn dependencies_of(v: &str) -> (r: Vec<String>)
    ensures
        string_views(r@) == dependency_names(v@),
{
    let chars = str_to_chars(v);
    let ghost all = chars@;
    let mut r: Vec<String> = Vec::new();
    let mut start: usize = 0;
    let mut i: usize = 0;
    let ghost mut done: Seq<Seq<char>> = Seq::empty();
    let ghost keep = |p: Seq<char>| p.len() > 0;
    let ghost tr = |p: Seq<char>| trimmed(p);
    assert(all.subrange(0, all.len() as int) =~= all);
    while i < chars.len()
        invariant
            start <= i <= all.len(),
            all == chars@,
            keep == (|p: Seq<char>| p.len() > 0),
            tr == (|p: Seq<char>| trimmed(p)),
            split_commas(all) == done + split_commas(all.subrange(start as int, all.len() as int)),
            find_char(all.subrange(start as int, all.len() as int), ',', 0) == find_char(
                all.subrange(start as int, all.len() as int),
                ',',
                i - start,
            ),
            string_views(r@) == done.map_values(tr).filter(keep),
        decreases all.len() - i,
    {
        if chars[i] == ',' {
            let piece = chars_to_string(chars.as_slice(), start, i);
            let ghost sub = all.subrange(start as int, all.len() as int);
            proof {
                assert(find_char(sub, ',', i - start) == Some(i - start));
                assert(piece@ =~= sub.subrange(0, i - start));
                assert(sub.subrange(i - start + 1, sub.len() as int) =~= all.subrange(i + 1, all.len() as int));
            }
            let t = to_string(str_trim(piece.as_str()));
            let ghost r0 = r@;
            if !t.as_str().is_empty() {
                r.push(t);
            }
            proof {
                let d2 = done.push(piece@);
                assert(d2.map_values(tr) =~= done.map_values(tr).push(trimmed(piece@)));
                reveal_with_fuel(Seq::filter, 1);
                assert(d2.map_values(tr).drop_last() =~= done.map_values(tr));
                assert(string_views(r@) =~= d2.map_values(tr).filter(keep));
                assert(split_commas(all) =~= d2 + split_commas(all.subrange(i + 1, all.len() as int)));
                done = d2;
            }
            start = i + 1;
        }
        i = i + 1;
    }
    let piece = chars_to_string(chars.as_slice(), start, chars.len());
    let t = to_string(str_trim(piece.as_str()));
    if !t.as_str().is_empty() {
        r.push(t);
    }
    proof {
        let sub = all.subrange(start as int, all.len() as int);
        assert(piece@ =~= sub);
        assert(split_commas(sub) == seq![sub]);
        let d2 = done.push(piece@);
        assert(d2.map_values(tr) =~= done.map_values(tr).push(trimmed(piece@)));
        reveal_with_fuel(Seq::filter, 1);
        assert(d2.map_values(tr).drop_last() =~= done.map_values(tr));
        assert(string_views(r@) =~= d2.map_values(tr).filter(keep));
        assert(split_commas(all) =~= d2);
    }
    r
}


/// The chars of an optional string.
pub open spec fn opt_chars(s: Option<String>) -> Option<Seq<char>> {
    match s {
        Some(t) => Some(t@),
        None => None,
    }
}

/// Parses plugin metadata from the header comments of an init.lisp file:
/// lines of the form ";;; key: value" with the keys "name", "version",
/// "description" and "depends" (comma-separated); for a key given twice the
/// last line counts. A missing "name" is a parse error.
pub fn parse_metadata(content: &str, init_path: &PathBuf) -> (r: Result<PluginMetadata, PluginError>)
    ensures
        parsed_metadata(content@, *init_path, r),
{
    let chars = str_to_chars(content);
    let ghost all = chars@;
    let n = chars.len();
    let mut name: Option<String> = None;
    let mut version: Option<String> = None;
    let mut description: Option<String> = None;
    let mut depends: Option<String> = None;
    let mut pos: usize = 0;
    let ghost mut done: Seq<Seq<char>> = Seq::empty();
    assert(all.subrange(0, all.len() as int) =~= all);
    while pos < n
        invariant
            n == all.len(),
            all == chars@,
            pos <= n,
            lines_of(all) == done + lines_of(all.subrange(pos as int, n as int)),
            opt_chars(name) == last_field(done, "name"@),
            opt_chars(version) == last_field(done, "version"@),
            opt_chars(description) == last_field(done, "description"@),
            opt_chars(depends) == last_field(done, "depends"@),
        decreases n - pos,
    {
        let ghost sub = all.subrange(pos as int, n as int);
        let mut e = pos;
        while e < n && chars[e] != '\n'
            invariant
                pos <= e <= n,
                n == all.len(),
                all == chars@,
                sub == all.subrange(pos as int, n as int),
                find_char(sub, '\n', 0) == find_char(sub, '\n', e - pos),
            decreases n - e,
        {
            e = e + 1;
        }
        let line_end = if e < n && e > pos && chars[e - 1] == '\r' {
            e - 1
        } else {
            e
        };
        let line = chars_to_string(chars.as_slice(), pos, line_end);
        let next = if e < n {
            e + 1
        } else {
            n
        };
        proof {
            if e < n {
                assert(find_char(sub, '\n', 0) == Some(e - pos));
                let l = sub.subrange(0, e - pos);
                assert(l =~= all.subrange(pos as int, e as int));
                if e > pos && chars@[e - 1] == '\r' {
                    assert(line@ =~= l.drop_last());
                } else {
                    assert(line@ =~= l);
                }
                assert(sub.subrange(e - pos + 1, sub.len() as int) =~= all.subrange(e + 1, n as int));
                assert(lines_of(sub) == seq![line@] + lines_of(all.subrange(next as int, n as int)));
            } else {
                assert(find_char(sub, '\n', 0) is None);
                assert(line@ =~= sub);
                assert(lines_of(sub) == seq![line@]);
                assert(all.subrange(n as int, n as int) =~= Seq::<char>::empty());
                assert(lines_of(all.subrange(next as int, n as int)) =~= Seq::<Seq<char>>::empty());
            }
        }
        match header_field_of(line.as_str()) {
            Some((k, v)) => {
                if str_eq(k.as_str(), "name") {
                    name = Some(v);
                } else if str_eq(k.as_str(), "version") {
                    version = Some(v);
                } else if str_eq(k.as_str(), "description") {
                    description = Some(v);
                } else if str_eq(k.as_str(), "depends") {
                    depends = Some(v);
                }
            },
            None => {},
        }
        proof {
            reveal_strlit("name");
            reveal_strlit("version");
            reveal_strlit("description");
            reveal_strlit("depends");
            let d2 = done.push(line@);
            assert(d2.drop_last() =~= done);
            assert(d2.last() == line@);
            assert("name"@.len() == 4 && "version"@.len() == 7 && "description"@.len() == 11);
            assert("depends"@.len() == 7 && "version"@[0] == 'v' && "depends"@[0] == 'd');
            assert(opt_chars(version) == last_field(d2, "version"@));
            assert(opt_chars(description) == last_field(d2, "description"@));
            assert(lines_of(all) =~= d2 + lines_of(all.subrange(next as int, n as int)));
            done = d2;
        }
        pos = next;
    }
    proof {
        assert(all.subrange(n as int, n as int) =~= Seq::<char>::empty());
        assert(done =~= lines_of(all));
    }
    match name {
        None => Err(
            PluginError::ParseError {
                path: init_path.clone(),
                reason: to_string("missing required field: name"),
            },
        ),
        Some(name) => {
            let version = match version {
                Some(v) => v,
                None => to_string("0.0.0"),
            };
            let description = match description {
                Some(v) => v,
                None => String::new(),
            };
            let dependencies = match depends {
                Some(v) => dependencies_of(v.as_str()),
                None => {
                    let d: Vec<String> = Vec::new();
                    assert(string_views(d@) =~= Seq::<Seq<char>>::empty());
                    d
                },
            };
            Ok(PluginMetadata { name, version, description, dependencies, source_path: init_path.clone() })
        },
    }
}

/// Whether a plugin directory is switched off: its name ends in ".disabled".
pub open spec fn is_disabled_name(name: Seq<char>) -> bool {
    name.len() >= 9 && name.subrange(name.len() - 9, name.len() as int) == ".disabled"@
}

/// Whether a plugin directory name ends in ".disabled" (such directories are skipped).
pub fn is_disabled_dir_name(name: &str) -> (b: bool)
    ensures
        b == is_disabled_name(name@),
{
    let c = str_to_chars(name);
    let n = c.len();
    if n < 9 {
        return false;
    }
    let tail = chars_to_string(c.as_slice(), n - 9, n);
    proof {
        assert(tail@ =~= name@.subrange(name@.len() - 9, name@.len() as int));
    }
    str_eq(tail.as_str(), ".disabled")
}

/// Status of a loaded plugin.
#[derive(Debug, Clone, Copy, PartialEq, Eq, Structural)]
pub enum PluginStatus {
    /// Plugin loaded and init.lisp evaluated successfully.
    Active,
}

/// A plugin that has been loaded into the registry.
#[derive(Debug, Clone)]
pub struct LoadedPlugin {
    pub metadata: PluginMetadata,
    pub status: PluginStatus,
}

/// Registry tracking all loaded plugins by name.
pub struct PluginRegistry {
    plugins: StrMap<LoadedPlugin>,
}

impl View for PluginRegistry {
    type V = Map<Seq<char>, LoadedPlugin>;

    closed spec fn view(&self) -> Map<Seq<char>, LoadedPlugin> {
        self.plugins@
    }
}

impl PluginRegistry {
    /// The names of the loaded plugins, in the order they were loaded.
    pub closed spec fn names(&self) -> Seq<Seq<char>> {
        self.plugins.keys()
    }

    /// The number of loaded plugins, as listed.
    pub open spec fn count(&self) -> nat {
        self.names().len()
    }

    /// Create an empty plugin registry.
    pub fn new() -> (r: Self)
        ensures
            r@ == Map::<Seq<char>, LoadedPlugin>::empty(),
            r.count() == 0,
    {
        PluginRegistry { plugins: StrMap::new() }
    }
}

impl Default for PluginRegistry {
    /// An empty registry.
    fn default() -> (r: Self)
        ensures
            r@ == Map::<Seq<char>, LoadedPlugin>::empty(),
    {
        Self::new()
    }
}

/// The first step of loading: fails with "already loaded" when a plugin of
/// that name is in the registry.
pub fn check_not_loaded(registry: &PluginRegistry, name: &str) -> (r: Result<(), PluginError>)
    ensures
        r is Ok <==> !registry@.contains_key(name@),
        r matches Err(e) ==> e matches PluginError::AlreadyLoaded { name: n } && n@ == name@,
{
    if registry.plugins.contains_key(name) {
        Err(PluginError::AlreadyLoaded { name: to_string(name) })
    } else {
        Ok(())
    }
}

/// The last step of loading, given the outcome of evaluating the plugin's
/// init.lisp: on success the plugin is recorded as active, on failure nothing
/// changes and the evaluation error is returned as an init error.
pub fn complete_load(registry: &mut PluginRegistry, metadata: PluginMetadata, init_outcome: Result<(), String>) -> (r:
    Result<(), PluginError>)
    requires
        !old(registry)@.contains_key(metadata.name@),
    ensures
        match init_outcome {
            Ok(_) => r is Ok && final(registry)@ == old(registry)@.insert(
                metadata.name@,
                LoadedPlugin { metadata, status: PluginStatus::Active },
            ),
            Err(reason) => final(registry)@ == old(registry)@ && (r matches Err(e)
                && e matches PluginError::InitError { name: n, reason: why } && n@ == metadata.name@ && why@
                == reason@),
        },
{
    match init_outcome {
        Err(reason) => Err(PluginError::InitError { name: metadata.name.clone(), reason }),
        Ok(_) => {
            let key = metadata.name.clone();
            registry.plugins.insert(key, LoadedPlugin { metadata, status: PluginStatus::Active });
            Ok(())
        },
    }
}

/// Removes a plugin from the registry by name; "not found" when no plugin of
/// that name is loaded.
pub fn unload_plugin(registry: &mut PluginRegistry, name: &str) -> (r: Result<(), PluginError>)
    ensures
        old(registry)@.contains_key(name@) ==> r is Ok && final(registry)@ == old(registry)@.remove(name@),
        !old(registry)@.contains_key(name@) ==> final(registry)@ == old(registry)@ && (r matches Err(e)
            && e matches PluginError::NotFound { name: n } && n@ == name@),
{
    match registry.plugins.remove(name) {
        Some(_) => Ok(()),
        None => Err(PluginError::NotFound { name: to_string(name) }),
    }
}

/// Lists the metadata of all loaded plugins, in the order they were loaded:
/// each loaded plugin once.
pub fn list_plugins(registry: &PluginRegistry) -> (r: Vec<&PluginMetadata>)
    ensures
        r@.len() == registry.names().len(),
        r@.len() == registry@.dom().len(),
        registry.names().no_duplicates(),
        forall|k: Seq<char>| #[trigger] registry@.contains_key(k) <==> registry.names().contains(k),
        forall|i: int| 0 <= i < r@.len() ==> *#[trigger] r@[i] == registry@[registry.names()[i]].metadata,
{
    proof {
        use_type_invariant(&registry.plugins);
        registry.plugins.lemma_view();
    }
    let mut r: Vec<&PluginMetadata> = Vec::new();
    let n = registry.plugins.len();
    let mut i: usize = 0;
    while i < n
        invariant
            n == registry.plugins.len_spec(),
            i <= n,
            r@.len() == i,
            forall|k: int| 0 <= k < i ==> *#[trigger] r@[k] == registry.plugins.value_at_spec(k).metadata,
        decreases n - i,
    {
        r.push(&registry.plugins.value_at(i).metadata);
        i = i + 1;
    }
    proof {
        assert forall|i: int| 0 <= i < r@.len() implies *#[trigger] r@[i] == registry@[registry.names()[i]].metadata by {
            assert(registry.plugins@.contains_key(registry.plugins.keys()[i]));
        }
    }
    r
}

/// Unloading a plugin right after loading it gives back the registry as it was.
pub proof fn unload_undoes_load(before: Map<Seq<char>, LoadedPlugin>, metadata: PluginMetadata)
    requires
        !before.contains_key(metadata.name@),
    ensures
        before.insert(metadata.name@, LoadedPlugin { metadata, status: PluginStatus::Active }).remove(metadata.name@)
            == before,
{
    assert(before.insert(metadata.name@, LoadedPlugin { metadata, status: PluginStatus::Active }).remove(
        metadata.name@,
    ) =~= before);
}

/// The lines of a text as `str::lines` yields them.
pub fn str_lines(content: &str) -> (r: Vec<String>)
    ensures
        string_views(r@) == lines_of(content@),
{
    let chars = str_to_chars(content);
    let ghost all = chars@;
    let n = chars.len();
    let mut r: Vec<String> = Vec::new();
    let mut pos: usize = 0;
    assert(all.subrange(0, all.len() as int) =~= all);
    assert(string_views(r@) =~= Seq::<Seq<char>>::empty());
    while pos < n
        invariant
            n == all.len(),
            all == chars@,
            pos <= n,
            lines_of(all) == string_views(r@) + lines_of(all.subrange(pos as int, n as int)),
        decreases n - pos,
    {
        let ghost sub = all.subrange(pos as int, n as int);
        let mut e = pos;
        while e < n && chars[e] != '\n'
            invariant
                pos <= e <= n,
                n == all.len(),
                all == chars@,
                sub == all.subrange(pos as int, n as int),
                find_char(sub, '\n', 0) == find_char(sub, '\n', e - pos),
            decreases n - e,
        {
            e = e + 1;
        }
        let line_end = if e < n && e > pos && chars[e - 1] == '\r' {
            e - 1
        } else {
            e
        };
        let line = chars_to_string(chars.as_slice(), pos, line_end);
        let next = if e < n {
            e + 1
        } else {
            n
        };
        proof {
            if e < n {
                assert(find_char(sub, '\n', 0) == Some(e - pos));
                let l = sub.subrange(0, e - pos);
                assert(l =~= all.subrange(pos as int, e as int));
                if e > pos && chars@[e - 1] == '\r' {
                    assert(line@ =~= l.drop_last());
                } else {
                    assert(line@ =~= l);
                }
                assert(sub.subrange(e - pos + 1, sub.len() as int) =~= all.subrange(e + 1, n as int));
                assert(lines_of(sub) == seq![line@] + lines_of(all.subrange(next as int, n as int)));
            } else {
                assert(find_char(sub, '\n', 0) is None);
                assert(line@ =~= sub);
                assert(lines_of(sub) == seq![line@]);
                assert(all.subrange(n as int, n as int) =~= Seq::<char>::empty());
                assert(lines_of(all.subrange(next as int, n as int)) =~= Seq::<Seq<char>>::empty());
            }
        }
        let ghost r0 = string_views(r@);
        r.push(line);
        proof {
            assert(string_views(r@) =~= r0.push(line@));
            assert(lines_of(all) =~= string_views(r@) + lines_of(all.subrange(next as int, n as int)));
        }
        pos = next;
    }
    proof {
        assert(all.subrange(n as int, n as int) =~= Seq::<char>::empty());
        assert(lines_of(Seq::<char>::empty()) =~= Seq::<Seq<char>>::empty());
        assert(string_views(r@) =~= lines_of(all));
    }
    r
}

/// Whether a directory entry is taken as a plugin directory: a directory
/// whose name does not end in ".disabled" (a name that is not text is
/// never a disabled one).
pub fn is_plugin_dir(is_dir: bool, name: Option<&str>) -> (b: bool)
    ensures
        b == (is_dir && !(name matches Some(n) && is_disabled_name(n@))),
{
    if !is_dir {
        return false;
    }
    match name {
        Some(n) => !is_disabled_dir_name(n),
        None => true,
    }
}

/// What a plugin directory gives, from what reading its `init.lisp` gave:
/// `None` when there is no such file (a missing-init error naming the
/// directory), the I/O error's text when it could not be read (a read error
/// naming the file), else the metadata parsed from its text.
pub fn plugin_from_init(dir: PathBuf, init_path: PathBuf, init: Option<Result<String, String>>) -> (r: Result<
    PluginMetadata,
    PluginError,
>)
    ensures
        match init {
            None => r == Err::<PluginMetadata, PluginError>(PluginError::MissingInitFile { path: dir }),
            Some(Err(m)) => r matches Err(PluginError::ReadError { path, message }) && path == init_path && message@ == m@,
            Some(Ok(text)) => parsed_metadata(text@, init_path, r),
        },
{
    match init {
        None => Err(PluginError::MissingInitFile { path: dir }),
        Some(Err(m)) => Err(PluginError::ReadError { path: init_path, message: m }),
        Some(Ok(text)) => parse_metadata(text.as_str(), &init_path),
    }
}

/// The message that reports the errors of loading plugins: none without
/// errors, else "Plugin errors: " and the errors joined by "; ".
pub fn plugin_errors_message(errors: &Vec<String>) -> (r: Option<String>)
    ensures
        errors@.len() == 0 ==> r is None,
        errors@.len() > 0 ==> (r matches Some(s) && s@ == "Plugin errors: "@ + crate::lisp_strings::join_with(
            crate::lisp_strings::strings_view(errors@),
            "; "@,
        )),
{
    if errors.len() == 0 {
        return None;
    }
    let mut s = to_string("Plugin errors: ");
    let joined = crate::lisp_strings::join_strings(errors, "; ");
    string_push_str(&mut s, joined.as_str());
    Some(s)
}

/// A message with `addition` after it: `addition` alone without a message,
/// else the message, "; " and `addition`.
pub fn appended_message(message: Option<String>, addition: String) -> (r: String)
    ensures
        r@ == match message {
            None => addition@,
            Some(m) => m@ + "; "@ + addition@,
        },
{
    match message {
        None => addition,
        Some(m) => {
            let mut s = m;
            string_push_str(&mut s, "; ");
            string_push_str(&mut s, addition.as_str());
            s
        },
    }
}

} // verus!

//! The compile orchestrator over in-memory sources.  The caller supplies a
//! [`SourceSet`] mapping file paths to their text (reading files from disk
//! is its business, not this module's).  Compilation parses the entry
//! file, expands `@import` at-rules by probing the import resolver's
//! candidates against each include directory in order, guards against
//! cyclic imports with a visited-path set (an already-visited file is
//! skipped, not an error), and emits flat CSS with variables resolved in
//! source-plus-import order.

use vstd::prelude::*;

use crate::ast::{node_view, views_of, Node, SpecNode};
use crate::emit::{copy_strings, emit_css, sp_emit};
use crate::parser::{parse_scss, sp_parse_block, str_views, ErrorKind, PRes, ScssError};
use crate::scan::{after_last_slash, import_candidates, lemma_after_last_slash_bounds,
    sp_import_candidates};
use crate::text::{chars_start_with, from_chars, starts_with_at, str_eq, sub_chars, to_chars};
use crate::value::{lemma_map_of_absent, lemma_map_of_get, map_of, Vars};

verus! {

/// The in-memory file table: paths mapped to their text, a later entry
/// for the same path overriding an earlier one.
#[derive(Debug)]
pub struct SourceSet {
    files: Vec<(String, String)>,
}

impl View for SourceSet {
    type V = Map<Seq<char>, Seq<char>>;

    closed spec fn view(&self) -> Map<Seq<char>, Seq<char>> {
        map_of(self.files@)
    }
}

impl SourceSet {
    /// The number of entries the table holds.
    pub closed spec fn backing_len(&self) -> nat {
        self.files@.len()
    }

    /// An empty table.
    pub fn new() -> (r: SourceSet)
        ensures
            r@ == Map::<Seq<char>, Seq<char>>::empty(),
            r.backing_len() == 0,
    {
        let r = SourceSet { files: Vec::new() };
        proof {
            assert(r@ =~= Map::<Seq<char>, Seq<char>>::empty());
        }
        r
    }

    /// Enters `text` under `path`, overriding any earlier entry.
    pub fn add(&mut self, path: &str, text: &str)
        ensures
            final(self)@ == old(self)@.insert(path@, text@),
            final(self).backing_len() == old(self).backing_len() + 1,
    {
        let entry = (String::from_str(path), String::from_str(text));
        self.files.push(entry);
        proof {
            assert(self.files@.drop_last() =~= old(self).files@);
        }
    }

    /// The text entered under `path`, if any.
    pub fn lookup(&self, path: &str) -> (r: Option<&String>)
        ensures
            match r {
                Option::Some(t) => self@.contains_key(path@) && t@ == self@[path@],
                Option::None => !self@.contains_key(path@),
            },
    {
        let n: usize = self.files.len();
        let mut t: usize = n;
        while t > 0
            invariant
                t <= n,
                n == self.files@.len(),
                forall|u: int| t <= u < n ==> self.files@[u].0@ != path@,
            decreases t,
        {
            t -= 1;
            if str_eq(self.files[t].0.as_str(), path) {
                proof {
                    lemma_map_of_get(self.files@, path@, t as int);
                }
                return Option::Some(&self.files[t].1);
            }
        }
        proof {
            lemma_map_of_absent(self.files@, path@);
        }
        Option::None
    }

    /// The number of entries, as an executable value.
    pub fn size(&self) -> (r: usize)
        ensures
            r == self.backing_len(),
    {
        self.files.len()
    }
}

/// The first index at or after `i` holding a quote character, or the end.
pub open spec fn find_quote(s: Seq<char>, i: int) -> int
    decreases s.len() - i when 0 <= i <= s.len()
{
    if i >= s.len() {
        i
    } else if s[i] == '"' || s[i] == '\'' {
        i
    } else {
        find_quote(s, i + 1)
    }
}

pub proof fn lemma_find_quote_bounds(s: Seq<char>, i: int)
    requires
        0 <= i <= s.len(),
    ensures
        i <= find_quote(s, i) <= s.len(),
    decreases s.len() - i,
{
    if i < s.len() && !(s[i] == '"' || s[i] == '\'') {
        lemma_find_quote_bounds(s, i + 1);
    }
}

/// The first index at or after `i` holding exactly `q`, or the end.
pub open spec fn find_char(s: Seq<char>, i: int, q: char) -> int
    decreases s.len() - i when 0 <= i <= s.len()
{
    if i >= s.len() {
        i
    } else if s[i] == q {
        i
    } else {
        find_char(s, i + 1, q)
    }
}

pub proof fn lemma_find_char_bounds(s: Seq<char>, i: int, q: char)
    requires
        0 <= i <= s.len(),
    ensures
        i <= find_char(s, i, q) <= s.len(),
    decreases s.len() - i,
{
    if i < s.len() && s[i] != q {
        lemma_find_char_bounds(s, i + 1, q);
    }
}

/// The quoted spans of `s` from `i` on: each maximal span between a quote
/// character and its matching closer, in order; an unclosed quote yields
/// nothing further.
pub open spec fn sp_quoted(s: Seq<char>, i: int) -> Seq<Seq<char>>
    decreases s.len() - i when 0 <= i <= s.len()
{
    proof {
        lemma_find_quote_bounds(s, i);
    }
    let a = find_quote(s, i);
    if a >= s.len() {
        Seq::empty()
    } else {
        proof {
            lemma_find_char_bounds(s, a + 1, s[a]);
        }
        let b = find_char(s, a + 1, s[a]);
        if b >= s.len() {
            Seq::empty()
        } else {
            seq![s.subrange(a + 1, b)] + sp_quoted(s, b + 1)
        }
    }
}

/// Extracts the quoted specifiers of an at-rule text, as [`sp_quoted`]
/// states.
pub fn import_specifiers(text: &str) -> (r: Vec<String>)
    ensures
        str_views(r@) == sp_quoted(text@, 0),
{
    let cs = to_chars(text);
    quoted_from(&cs, 0)
}

/// [`import_specifiers`] from position `i` of a character vector.
fn quoted_from(cs: &Vec<char>, i: usize) -> (r: Vec<String>)
    requires
        i <= cs@.len(),
    ensures
        str_views(r@) == sp_quoted(cs@, i as int),
    decreases cs@.len() - i,
{
    let ghost s = cs@;
    let n: usize = cs.len();
    proof {
        lemma_find_quote_bounds(s, i as int);
    }
    let mut a: usize = i;
    while a < n && !(cs[a] == '"' || cs[a] == '\'')
        invariant
            i <= a <= n,
            n == s.len(),
            cs@ == s,
            find_quote(s, i as int) == find_quote(s, a as int),
        decreases n - a,
    {
        a += 1;
    }
    assert(a as int == find_quote(s, i as int));
    if a >= n {
        let r: Vec<String> = Vec::new();
        proof {
            assert(str_views(r@) =~= sp_quoted(s, i as int));
        }
        return r;
    }
    let q = cs[a];
    proof {
        lemma_find_char_bounds(s, a + 1, q);
    }
    let mut b: usize = a + 1;
    while b < n && cs[b] != q
        invariant
            a + 1 <= b <= n,
            n == s.len(),
            cs@ == s,
            q == s[a as int],
            find_char(s, a + 1, q) == find_char(s, b as int, q),
        decreases n - b,
    {
        b += 1;
    }
    assert(b as int == find_char(s, a + 1, q));
    if b >= n {
        let r: Vec<String> = Vec::new();
        proof {
            assert(str_views(r@) =~= sp_quoted(s, i as int));
        }
        return r;
    }
    let piece = from_chars(&sub_chars(cs, a + 1, b));
    let mut rest = quoted_from(cs, b + 1);
    let mut r: Vec<String> = Vec::new();
    r.push(piece);
    r.append(&mut rest);
    proof {
        assert(str_views(r@) =~= sp_quoted(s, i as int));
    }
    r
}

/// A directory joined with a file name: a `/` between them unless the
/// directory is empty or already ends in one.
pub open spec fn sp_join(dir: Seq<char>, name: Seq<char>) -> Seq<char> {
    if dir.len() == 0 {
        name
    } else if dir.last() == '/' {
        dir + name
    } else {
        dir + "/"@ + name
    }
}

/// Joins a directory and a file name, as [`sp_join`] states.
pub fn join_path(dir: &str, name: &str) -> (r: String)
    ensures
        r@ == sp_join(dir@, name@),
{
    let dc = to_chars(dir);
    if dc.len() == 0 {
        String::from_str(name)
    } else if dc[dc.len() - 1] == '/' {
        let mut r = String::from_str(dir);
        r.append(name);
        r
    } else {
        let mut r = String::from_str(dir);
        r.append("/");
        r.append(name);
        r
    }
}

/// The first candidate under the directories from `di` on that the file
/// table holds, in directory-major order, or nothing.
pub open spec fn sp_probe(
    files: Map<Seq<char>, Seq<char>>,
    dirs: Seq<Seq<char>>,
    di: int,
    cands: Seq<Seq<char>>,
) -> Option<Seq<char>>
    decreases dirs.len() - di when 0 <= di <= dirs.len()
{
    if di >= dirs.len() {
        Option::None
    } else {
        match sp_probe_cands(files, dirs[di], cands, 0) {
            Option::Some(p) => Option::Some(p),
            Option::None => sp_probe(files, dirs, di + 1, cands),
        }
    }
}

/// The first candidate from `k` on whose joined path the table holds.
pub open spec fn sp_probe_cands(
    files: Map<Seq<char>, Seq<char>>,
    dir: Seq<char>,
    cands: Seq<Seq<char>>,
    k: int,
) -> Option<Seq<char>>
    decreases cands.len() - k when 0 <= k <= cands.len()
{
    if k >= cands.len() {
        Option::None
    } else {
        let p = sp_join(dir, cands[k]);
        if files.contains_key(p) {
            Option::Some(p)
        } else {
            sp_probe_cands(files, dir, cands, k + 1)
        }
    }
}

/// Probes the candidates under each directory, as [`sp_probe`] states.
fn probe(files: &SourceSet, dirs: &Vec<String>, di: usize, cands: &Vec<String>) -> (r: Option<
    String,
>)
    requires
        di <= dirs@.len(),
    ensures
        match r {
            Option::Some(p) => sp_probe(files@, str_views(dirs@), di as int, str_views(cands@))
                == Option::Some(p@) && files@.contains_key(p@),
            Option::None => sp_probe(files@, str_views(dirs@), di as int, str_views(cands@))
                is None,
        },
    decreases dirs@.len() - di,
{
    if di >= dirs.len() {
        return Option::None;
    }
    match probe_cands(files, &dirs[di], cands, 0) {
        Option::Some(p) => Option::Some(p),
        Option::None => probe(files, dirs, di + 1, cands),
    }
}

/// Probes the candidates under one directory, as [`sp_probe_cands`]
/// states.
fn probe_cands(files: &SourceSet, dir: &String, cands: &Vec<String>, k: usize) -> (r: Option<
    String,
>)
    requires
        k <= cands@.len(),
    ensures
        match r {
            Option::Some(p) => sp_probe_cands(files@, dir@, str_views(cands@), k as int)
                == Option::Some(p@) && files@.contains_key(p@),
            Option::None => sp_probe_cands(files@, dir@, str_views(cands@), k as int) is None,
        },
    decreases cands@.len() - k,
{
    if k >= cands.len() {
        return Option::None;
    }
    let p = join_path(dir.as_str(), cands[k].as_str());
    match files.lookup(p.as_str()) {
        Option::Some(t) => Option::Some(p),
        Option::None => probe_cands(files, dir, cands, k + 1),
    }
}

/// The outcome of import expansion: the expanded nodes with the grown
/// visited-path list, or the first failure.
pub enum ERes {
    EOk { nodes: Seq<SpecNode>, vis: Seq<Seq<char>> },
    EErr { kind: ErrorKind, msg: Seq<char> },
}

/// Expands the `@import` at-rules among `nodes`, in order: each quoted
/// specifier's candidates are probed against the directories; the first
/// hit is parsed and recursively expanded, and its top-level nodes are
/// spliced in place; an already-visited path is skipped; a specifier with
/// no hit is an import failure.  `fuel` bounds the depth of nested
/// imports.
pub open spec fn sp_expand_nodes(
    files: Map<Seq<char>, Seq<char>>,
    dirs: Seq<Seq<char>>,
    nodes: Seq<SpecNode>,
    vis: Seq<Seq<char>>,
    fuel: nat,
) -> ERes
    decreases fuel, 1int, nodes.len(),
{
    if nodes.len() == 0 {
        ERes::EOk { nodes: Seq::empty(), vis }
    } else {
        let rest = nodes.drop_first();
        match nodes[0] {
            SpecNode::RawAt { text } => {
                if starts_with_at(text, 0, "@import"@) {
                    match sp_expand_specs(files, dirs, sp_quoted(text, 0), 0, vis, fuel) {
                        ERes::EOk { nodes: spliced, vis: vis2 } => {
                            match sp_expand_nodes(files, dirs, rest, vis2, fuel) {
                                ERes::EOk { nodes: more, vis: vis3 } => ERes::EOk {
                                    nodes: spliced + more,
                                    vis: vis3,
                                },
                                ERes::EErr { kind, msg } => ERes::EErr { kind, msg },
                            }
                        },
                        ERes::EErr { kind, msg } => ERes::EErr { kind, msg },
                    }
                } else {
                    match sp_expand_nodes(files, dirs, rest, vis, fuel) {
                        ERes::EOk { nodes: more, vis: vis2 } => ERes::EOk {
                            nodes: seq![nodes[0]] + more,
                            vis: vis2,
                        },
                        ERes::EErr { kind, msg } => ERes::EErr { kind, msg },
                    }
                }
            },
            _ => {
                match sp_expand_nodes(files, dirs, rest, vis, fuel) {
                    ERes::EOk { nodes: more, vis: vis2 } => ERes::EOk {
                        nodes: seq![nodes[0]] + more,
                        vis: vis2,
                    },
                    ERes::EErr { kind, msg } => ERes::EErr { kind, msg },
                }
            },
        }
    }
}

/// Expands the specifiers of one `@import` at-rule from `k` on, threading
/// the visited-path list.
pub open spec fn sp_expand_specs(
    files: Map<Seq<char>, Seq<char>>,
    dirs: Seq<Seq<char>>,
    specs: Seq<Seq<char>>,
    k: int,
    vis: Seq<Seq<char>>,
    fuel: nat,
) -> ERes
    decreases fuel, 0int, specs.len() - k when 0 <= k <= specs.len()
{
    if k >= specs.len() {
        ERes::EOk { nodes: Seq::empty(), vis }
    } else {
        match sp_probe(files, dirs, 0, sp_import_candidates(specs[k])) {
            Option::None => ERes::EErr {
                kind: ErrorKind::Import,
                msg: "import not found: "@ + specs[k],
            },
            Option::Some(path) => {
                if vis.contains(path) {
                    sp_expand_specs(files, dirs, specs, k + 1, vis, fuel)
                } else if fuel == 0 {
                    ERes::EErr { kind: ErrorKind::Import, msg: "import nesting too deep"@ }
                } else {
                    match sp_parse_block(files[path], 0, Option::None) {
                        PRes::PErr { msg } => ERes::EErr { kind: ErrorKind::Syntax, msg },
                        PRes::POk { nodes, next } => {
                            match sp_expand_nodes(
                                files,
                                dirs,
                                nodes,
                                vis.push(path),
                                (fuel - 1) as nat,
                            ) {
                                ERes::EErr { kind, msg } => ERes::EErr { kind, msg },
                                ERes::EOk { nodes: got, vis: vis2 } => {
                                    match sp_expand_specs(files, dirs, specs, k + 1, vis2, fuel) {
                                        ERes::EErr { kind, msg } => ERes::EErr { kind, msg },
                                        ERes::EOk { nodes: more, vis: vis3 } => ERes::EOk {
                                            nodes: got + more,
                                            vis: vis3,
                                        },
                                    }
                                },
                            }
                        },
                    }
                }
            },
        }
    }
}

/// Whether the list holds `p`.
fn contains_str(v: &Vec<String>, p: &str) -> (r: bool)
    ensures
        r == str_views(v@).contains(p@),
{
    let n: usize = v.len();
    let mut t: usize = 0;
    while t < n
        invariant
            t <= n,
            n == v@.len(),
            forall|u: int| 0 <= u < t ==> v@[u]@ != p@,
        decreases n - t,
    {
        if str_eq(v[t].as_str(), p) {
            proof {
                assert(str_views(v@)[t as int] == p@);
            }
            return true;
        }
        t += 1;
    }
    proof {
        assert(forall|u: int| 0 <= u < str_views(v@).len() ==> str_views(v@)[u] != p@);
    }
    false
}

/// Expands imports among owned nodes, as [`sp_expand_nodes`] states.
fn expand_nodes(
    files: &SourceSet,
    dirs: &Vec<String>,
    nodes: Vec<Node>,
    visited: &mut Vec<String>,
    fuel: usize,
) -> (r: Result<Vec<Node>, ScssError>)
    ensures
        match sp_expand_nodes(
            files@,
            str_views(dirs@),
            views_of(nodes@),
            str_views(old(visited)@),
            fuel as nat,
        ) {
            ERes::EOk { nodes: out, vis } => r matches Result::Ok(v) && views_of(v@) == out
                && str_views(final(visited)@) == vis,
            ERes::EErr { kind, msg } => r matches Result::Err(e) && e.kind == kind && e.msg@
                == msg,
        },
    decreases fuel, 1int, nodes@.len(),
{
    let mut nodes = nodes;
    if nodes.len() == 0 {
        let r: Vec<Node> = Vec::new();
        proof {
            assert(views_of(nodes@) =~= Seq::<SpecNode>::empty());
            assert(views_of(r@) =~= Seq::<SpecNode>::empty());
        }
        return Result::Ok(r);
    }
    let ghost all = views_of(nodes@);
    let node = nodes.remove(0);
    proof {
        assert(views_of(nodes@) =~= all.drop_first());
        assert(node_view(node) == all[0]);
    }
    let is_import = match &node {
        Node::RawAt { text } => {
            let tc = to_chars(text.as_str());
            chars_start_with(&tc, 0, "@import")
        },
        _ => false,
    };
    if is_import {
        let text = match node {
            Node::RawAt { text } => text,
            _ => {
                proof {
                    assert(false);
                }
                String::new()
            },
        };
        let specs = import_specifiers(text.as_str());
        let spliced = match expand_specs(files, dirs, &specs, 0, visited, fuel) {
            Result::Ok(v) => v,
            Result::Err(e) => {
                return Result::Err(e);
            },
        };
        let more = match expand_nodes(files, dirs, nodes, visited, fuel) {
            Result::Ok(v) => v,
            Result::Err(e) => {
                return Result::Err(e);
            },
        };
        let mut out = spliced;
        let mut more = more;
        let ghost outv = views_of(out@);
        let ghost morev = views_of(more@);
        out.append(&mut more);
        proof {
            assert(views_of(out@) =~= outv + morev);
        }
        Result::Ok(out)
    } else {
        let more = match expand_nodes(files, dirs, nodes, visited, fuel) {
            Result::Ok(v) => v,
            Result::Err(e) => {
                return Result::Err(e);
            },
        };
        let mut out: Vec<Node> = Vec::new();
        out.push(node);
        let mut more = more;
        let ghost morev = views_of(more@);
        out.append(&mut more);
        proof {
            assert(views_of(out@) =~= seq![all[0]] + morev);
        }
        Result::Ok(out)
    }
}

/// Expands the specifiers of one `@import` from `k` on, as
/// [`sp_expand_specs`] states.
fn expand_specs(
    files: &SourceSet,
    dirs: &Vec<String>,
    specs: &Vec<String>,
    k: usize,
    visited: &mut Vec<String>,
    fuel: usize,
) -> (r: Result<Vec<Node>, ScssError>)
    requires
        k <= specs@.len(),
    ensures
        match sp_expand_specs(
            files@,
            str_views(dirs@),
            str_views(specs@),
            k as int,
            str_views(old(visited)@),
            fuel as nat,
        ) {
            ERes::EOk { nodes: out, vis } => r matches Result::Ok(v) && views_of(v@) == out
                && str_views(final(visited)@) == vis,
            ERes::EErr { kind, msg } => r matches Result::Err(e) && e.kind == kind && e.msg@
                == msg,
        },
    decreases fuel, 0int, specs@.len() - k,
{
    if k >= specs.len() {
        let r: Vec<Node> = Vec::new();
        proof {
            assert(views_of(r@) =~= Seq::<SpecNode>::empty());
        }
        return Result::Ok(r);
    }
    let cands = import_candidates(specs[k].as_str());
    match probe(files, dirs, 0, &cands) {
        Option::None => {
            let mut m = String::from_str("import not found: ");
            m.append(specs[k].as_str());
            Result::Err(ScssError { kind: ErrorKind::Import, msg: m })
        },
        Option::Some(path) => {
            if contains_str(visited, path.as_str()) {
                expand_specs(files, dirs, specs, k + 1, visited, fuel)
            } else if fuel == 0 {
                Result::Err(
                    ScssError {
                        kind: ErrorKind::Import,
                        msg: String::from_str("import nesting too deep"),
                    },
                )
            } else {
                let text = match files.lookup(path.as_str()) {
                    Option::Some(t) => t.clone(),
                    Option::None => {
                        proof {
                            assert(false);
                        }
                        String::new()
                    },
                };
                match parse_scss(text.as_str()) {
                    Result::Err(e) => Result::Err(e),
                    Result::Ok(ast) => {
                        let ghost vis0 = str_views(visited@);
                        let ghost pathv = path@;
                        visited.push(path);
                        proof {
                            assert(str_views(visited@) =~= vis0.push(pathv));
                        }
                        let got = match expand_nodes(files, dirs, ast.nodes, visited, fuel - 1) {
                            Result::Ok(v) => v,
                            Result::Err(e) => {
                                return Result::Err(e);
                            },
                        };
                        let more = match expand_specs(files, dirs, specs, k + 1, visited, fuel) {
                            Result::Ok(v) => v,
                            Result::Err(e) => {
                                return Result::Err(e);
                            },
                        };
                        let mut out = got;
                        let mut more = more;
                        let ghost outv = views_of(out@);
                        let ghost morev = views_of(more@);
                        out.append(&mut more);
                        proof {
                            assert(views_of(out@) =~= outv + morev);
                        }
                        Result::Ok(out)
                    },
                }
            }
        },
    }
}

/// The outcome of a whole compile: the flat CSS text, or the first
/// failure with its kind.
pub enum CRes {
    COk { css: Seq<char> },
    CErr { kind: ErrorKind, msg: Seq<char> },
}

/// A whole compile: the entry file's text is parsed, its imports are
/// expanded with the entry path pre-visited (a self-import is a no-op)
/// and the entry file's own directory implicitly appended last to the
/// probe directories, and flat CSS is emitted starting from an empty
/// variable table.  The first parse or import failure is wrapped with
/// the entry file's path for context.
pub open spec fn sp_compile(
    files: Map<Seq<char>, Seq<char>>,
    entry: Seq<char>,
    dirs: Seq<Seq<char>>,
    fuel: nat,
) -> CRes {
    if !files.contains_key(entry) {
        CRes::CErr { kind: ErrorKind::Io, msg: "no such file: "@ + entry }
    } else {
        let all_dirs = dirs.push(entry.take(after_last_slash(entry)));
        match sp_parse_block(files[entry], 0, Option::None) {
            PRes::PErr { msg } => CRes::CErr {
                kind: ErrorKind::Syntax,
                msg: entry + ": "@ + msg,
            },
            PRes::POk { nodes, next } => {
                match sp_expand_nodes(files, all_dirs, nodes, seq![entry], fuel) {
                    ERes::EErr { kind, msg } => CRes::CErr { kind, msg: entry + ": "@ + msg },
                    ERes::EOk { nodes: ex, vis } => CRes::COk {
                        css: sp_emit(Map::empty(), ex).0,
                    },
                }
            },
        }
    }
}

/// Compiles the entry file against the table, as [`sp_compile`] (with the
/// table's size as import fuel) states.  The given directories are probed
/// in order, and the entry file's own directory is implicitly appended
/// last; the first parse or import failure comes back wrapped with the
/// entry file's path.
pub fn compile_source(files: &SourceSet, entry_path: &str, dirs: &Vec<String>) -> (r: Result<
    String,
    ScssError,
>)
    ensures
        match sp_compile(files@, entry_path@, str_views(dirs@), files.backing_len()) {
            CRes::COk { css } => r matches Result::Ok(c) && c@ == css,
            CRes::CErr { kind, msg } => r matches Result::Err(e) && e.kind == kind && e.msg@
                == msg,
        },
{
    let text = match files.lookup(entry_path) {
        Option::Some(t) => t.clone(),
        Option::None => {
            let mut m = String::from_str("no such file: ");
            m.append(entry_path);
            return Result::Err(ScssError { kind: ErrorKind::Io, msg: m });
        },
    };
    // the entry file's own directory joins the probe list last
    let cs = to_chars(entry_path);
    let ghost p = cs@;
    let n: usize = cs.len();
    proof {
        lemma_after_last_slash_bounds(p);
        assert(p.take(n as int) =~= p);
    }
    let mut k: usize = n;
    while k > 0 && cs[k - 1] != '/'
        invariant
            k <= n,
            n == p.len(),
            cs@ == p,
            after_last_slash(p) == after_last_slash(p.take(k as int)),
            after_last_slash(p.take(k as int)) <= k,
        decreases k,
    {
        k -= 1;
        proof {
            assert(p.take(k + 1).drop_last() =~= p.take(k as int));
            lemma_after_last_slash_bounds(p.take(k as int));
        }
    }
    proof {
        if k > 0 {
            assert(p.take(k as int).last() == p[k - 1]);
        } else {
            assert(p.take(0) =~= Seq::<char>::empty());
        }
        assert(after_last_slash(p) == k as int);
    }
    let entry_dir = from_chars(&sub_chars(&cs, 0, k));
    let mut all_dirs = copy_strings(dirs);
    all_dirs.push(entry_dir);
    proof {
        assert(str_views(all_dirs@) =~= str_views(dirs@).push(p.take(after_last_slash(p))));
    }
    let ast = match parse_scss(text.as_str()) {
        Result::Ok(a) => a,
        Result::Err(e) => {
            let mut m = String::from_str(entry_path);
            m.append(": ");
            m.append(e.msg.as_str());
            return Result::Err(ScssError { kind: e.kind, msg: m });
        },
    };
    let mut visited: Vec<String> = Vec::new();
    visited.push(String::from_str(entry_path));
    proof {
        assert(str_views(visited@) =~= seq![entry_path@]);
    }
    let fuel = files.size();
    let expanded = match expand_nodes(files, &all_dirs, ast.nodes, &mut visited, fuel) {
        Result::Ok(v) => v,
        Result::Err(e) => {
            let mut m = String::from_str(entry_path);
            m.append(": ");
            m.append(e.msg.as_str());
            return Result::Err(ScssError { kind: e.kind, msg: m });
        },
    };
    let mut vars = Vars::new();
    let css = emit_css(&mut vars, expanded);
    Result::Ok(css)
}

} // verus!

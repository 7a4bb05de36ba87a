//! The scanner and recursive-descent parser of the stylesheet dialect.
//!
//! The scanner is a cursor over the input characters: it skips whitespace
//! and comments, and reads substrings up to a stop character while treating
//! quoted strings and parenthesized spans as opaque.  The parser builds the
//! ordered [`Node`] tree on top of it.  Every routine is specified against a
//! mathematical model of the same pass over the character sequence.

use vstd::prelude::*;

use crate::ast::{
    join_sel, lemma_node_views_list, node_view, node_views_list, ser_nodes,
    serialize_nodes_as_css_like, views_of, Ast, Node, SpecNode,
};
use crate::text::{
    chars_start_with, ident_char, is_ident_char, is_ws_char, lemma_skip_ws_from_bounds, skip_ws_from,
    spec_trim, sub_chars, to_chars, trim_chars, ws_char,
};

verus! {

/// Error taxonomy of the compiler: syntax failures carry the offending
/// source fragment, import failures the specifier that could not be found,
/// and I/O failures the underlying description.
#[derive(Debug, Clone, Copy, PartialEq, Eq, Structural)]
pub enum ErrorKind {
    Syntax,
    Import,
    Io,
}

/// An error of the stylesheet compiler, with a human-readable message.
#[derive(Debug, Clone)]
pub struct ScssError {
    pub kind: ErrorKind,
    pub msg: String,
}

impl ScssError {
    /// The human-readable description of the failure.
    pub fn message(&self) -> (r: &String)
        ensures
            r@ == self.msg@,
    {
        &self.msg
    }
}

/// The index just after the closing `*/` of a block comment whose body
/// starts at `i`, or the end of input if the comment is unterminated.
pub open spec fn find_close(s: Seq<char>, i: int) -> int
    decreases s.len() - i when 0 <= i <= s.len()
{
    if i >= s.len() {
        i
    } else if i + 1 < s.len() && s[i] == '*' && s[i + 1] == '/' {
        i + 2
    } else {
        find_close(s, i + 1)
    }
}

pub proof fn lemma_find_close_bounds(s: Seq<char>, i: int)
    requires
        0 <= i <= s.len(),
    ensures
        i <= find_close(s, i) <= s.len(),
    decreases s.len() - i,
{
    if i >= s.len() {
    } else if i + 1 < s.len() && s[i] == '*' && s[i + 1] == '/' {
    } else {
        lemma_find_close_bounds(s, i + 1);
    }
}

/// The index just after the newline ending a line comment that begins at
/// `i`, or the end of input.
pub open spec fn find_nl(s: Seq<char>, i: int) -> int
    decreases s.len() - i when 0 <= i <= s.len()
{
    if i >= s.len() {
        i
    } else if s[i] == '\n' {
        i + 1
    } else {
        find_nl(s, i + 1)
    }
}

pub proof fn lemma_find_nl_bounds(s: Seq<char>, i: int)
    requires
        0 <= i <= s.len(),
    ensures
        i <= find_nl(s, i) <= s.len(),
    decreases s.len() - i,
{
    if i >= s.len() {
    } else if s[i] == '\n' {
    } else {
        lemma_find_nl_bounds(s, i + 1);
    }
}

/// The cursor position after consuming, starting at `i`, every run of
/// whitespace, `/* ... */` block comment and `// ...` line comment, in any
/// interleaving.  A block comment left unclosed is consumed to the end of
/// input; [`wc_open`] tells whether that happened, and the parser treats
/// it as a syntax failure.
pub open spec fn skip_wc(s: Seq<char>, i: int) -> int
    decreases s.len() - i when 0 <= i <= s.len()
{
    let j = skip_ws_from(s, i);
    if j + 1 < s.len() && s[j] == '/' && s[j + 1] == '*' {
        proof {
            lemma_skip_ws_from_bounds(s, i);
            lemma_find_close_bounds(s, j + 2);
        }
        skip_wc(s, find_close(s, j + 2))
    } else if j + 1 < s.len() && s[j] == '/' && s[j + 1] == '/' {
        proof {
            lemma_skip_ws_from_bounds(s, i);
            lemma_find_nl_bounds(s, j + 2);
        }
        skip_wc(s, find_nl(s, j + 2))
    } else {
        j
    }
}

pub proof fn lemma_skip_wc_bounds(s: Seq<char>, i: int)
    requires
        0 <= i <= s.len(),
    ensures
        i <= skip_wc(s, i) <= s.len(),
    decreases s.len() - i,
{
    lemma_skip_ws_from_bounds(s, i);
    let j = skip_ws_from(s, i);
    if j + 1 < s.len() && s[j] == '/' && s[j + 1] == '*' {
        lemma_find_close_bounds(s, j + 2);
        lemma_skip_wc_bounds(s, find_close(s, j + 2));
    } else if j + 1 < s.len() && s[j] == '/' && s[j + 1] == '/' {
        lemma_find_nl_bounds(s, j + 2);
        lemma_skip_wc_bounds(s, find_nl(s, j + 2));
    }
}

/// Whether a closing `*/` occurs at or after `i`.
pub open spec fn has_close(s: Seq<char>, i: int) -> bool
    decreases s.len() - i when 0 <= i <= s.len()
{
    if i >= s.len() {
        false
    } else if i + 1 < s.len() && s[i] == '*' && s[i + 1] == '/' {
        true
    } else {
        has_close(s, i + 1)
    }
}

/// Whether skipping whitespace and comments from `i` runs into a block
/// comment that is never closed before the end of input.
pub open spec fn wc_open(s: Seq<char>, i: int) -> bool
    decreases s.len() - i when 0 <= i <= s.len()
{
    let j = skip_ws_from(s, i);
    if j + 1 < s.len() && s[j] == '/' && s[j + 1] == '*' {
        if !has_close(s, j + 2) {
            true
        } else {
            proof {
                lemma_skip_ws_from_bounds(s, i);
                lemma_find_close_bounds(s, j + 2);
            }
            wc_open(s, find_close(s, j + 2))
        }
    } else if j + 1 < s.len() && s[j] == '/' && s[j + 1] == '/' {
        proof {
            lemma_skip_ws_from_bounds(s, i);
            lemma_find_nl_bounds(s, j + 2);
        }
        wc_open(s, find_nl(s, j + 2))
    } else {
        false
    }
}

/// The position of the `/*` opening the unterminated block comment that
/// [`wc_open`] detects (the end of input when there is none).
pub open spec fn wc_open_pos(s: Seq<char>, i: int) -> int
    decreases s.len() - i when 0 <= i <= s.len()
{
    let j = skip_ws_from(s, i);
    if j + 1 < s.len() && s[j] == '/' && s[j + 1] == '*' {
        if !has_close(s, j + 2) {
            j
        } else {
            proof {
                lemma_skip_ws_from_bounds(s, i);
                lemma_find_close_bounds(s, j + 2);
            }
            wc_open_pos(s, find_close(s, j + 2))
        }
    } else if j + 1 < s.len() && s[j] == '/' && s[j + 1] == '/' {
        proof {
            lemma_skip_ws_from_bounds(s, i);
            lemma_find_nl_bounds(s, j + 2);
        }
        wc_open_pos(s, find_nl(s, j + 2))
    } else {
        s.len() as int
    }
}

/// The syntax failure for an unterminated block comment, carrying the
/// comment's text to the end of input as the offending fragment.
pub open spec fn unterminated_msg(s: Seq<char>, i: int) -> Seq<char> {
    "unterminated block comment: "@ + s.subrange(wc_open_pos(s, i), s.len() as int)
}

/// The stop position of a stop-set-aware read beginning at `i` with paren
/// depth `depth` and string state `in_str`: the first position holding a
/// stop character that is neither inside a quoted string (where a backslash
/// escapes the next character) nor inside a parenthesized span, or the end
/// of input.
pub open spec fn rua_end(
    s: Seq<char>,
    i: int,
    stops: Seq<char>,
    depth: int,
    in_str: Option<char>,
) -> int
    decreases s.len() - i when 0 <= i <= s.len()
{
    if i >= s.len() {
        i
    } else {
        let c = s[i];
        match in_str {
            Option::Some(q) => {
                if c == q {
                    rua_end(s, i + 1, stops, depth, Option::None)
                } else if c == '\\' && i + 1 < s.len() {
                    rua_end(s, i + 2, stops, depth, Option::Some(q))
                } else {
                    rua_end(s, i + 1, stops, depth, Option::Some(q))
                }
            },
            Option::None => {
                if c == '"' || c == '\'' {
                    rua_end(s, i + 1, stops, depth, Option::Some(c))
                } else if c == '(' {
                    rua_end(s, i + 1, stops, depth + 1, Option::None)
                } else if c == ')' {
                    rua_end(s, i + 1, stops, depth - 1, Option::None)
                } else if depth == 0 && stops.contains(c) {
                    i
                } else {
                    rua_end(s, i + 1, stops, depth, Option::None)
                }
            },
        }
    }
}

pub proof fn lemma_rua_end_bounds(
    s: Seq<char>,
    i: int,
    stops: Seq<char>,
    depth: int,
    in_str: Option<char>,
)
    requires
        0 <= i <= s.len(),
    ensures
        i <= rua_end(s, i, stops, depth, in_str) <= s.len(),
    decreases s.len() - i,
{
    if i >= s.len() {
    } else {
        let c = s[i];
        match in_str {
            Option::Some(q) => {
                if c == q {
                    lemma_rua_end_bounds(s, i + 1, stops, depth, Option::None);
                } else if c == '\\' && i + 1 < s.len() {
                    lemma_rua_end_bounds(s, i + 2, stops, depth, Option::Some(q));
                } else {
                    lemma_rua_end_bounds(s, i + 1, stops, depth, Option::Some(q));
                }
            },
            Option::None => {
                if c == '"' || c == '\'' {
                    lemma_rua_end_bounds(s, i + 1, stops, depth, Option::Some(c));
                } else if c == '(' {
                    lemma_rua_end_bounds(s, i + 1, stops, depth + 1, Option::None);
                } else if c == ')' {
                    lemma_rua_end_bounds(s, i + 1, stops, depth - 1, Option::None);
                } else if depth == 0 && stops.contains(c) {
                } else {
                    lemma_rua_end_bounds(s, i + 1, stops, depth, Option::None);
                }
            },
        }
    }
}

/// The end of the maximal identifier run starting at `i`.
pub open spec fn ident_end(s: Seq<char>, i: int) -> int
    decreases s.len() - i when 0 <= i <= s.len()
{
    if i < s.len() && is_ident_char(s[i]) {
        ident_end(s, i + 1)
    } else {
        i
    }
}

pub proof fn lemma_ident_end_bounds(s: Seq<char>, i: int)
    requires
        0 <= i <= s.len(),
    ensures
        i <= ident_end(s, i) <= s.len(),
    decreases s.len() - i,
{
    if i < s.len() && is_ident_char(s[i]) {
        lemma_ident_end_bounds(s, i + 1);
    }
}

/// The scanner: a cursor over the input characters.
pub(crate) struct Parser {
    pub s: Vec<char>,
    pub i: usize,
}

impl Parser {
    /// The cursor never passes the end of the input.
    pub(crate) open spec fn wf(&self) -> bool {
        self.i <= self.s@.len()
    }

    pub(crate) fn new(src: &str) -> (r: Parser)
        ensures
            r.wf(),
            r.s@ == src@,
            r.i == 0,
    {
        Parser { s: to_chars(src), i: 0 }
    }

    fn eof(&self) -> (r: bool)
        requires
            self.wf(),
        ensures
            r == (self.i == self.s@.len()),
    {
        self.i >= self.s.len()
    }

    /// Consumes whitespace and comments until neither matches.  A block
    /// comment left unclosed at the end of input is reported with the
    /// position of its `/*`.
    fn skip_ws_and_comments(&mut self) -> (r: Option<usize>)
        requires
            old(self).wf(),
        ensures
            final(self).wf(),
            final(self).s@ == old(self).s@,
            final(self).i == skip_wc(old(self).s@, old(self).i as int),
            old(self).i <= final(self).i,
            match r {
                Option::Some(p) => wc_open(old(self).s@, old(self).i as int) && p as int
                    == wc_open_pos(old(self).s@, old(self).i as int) && p < old(self).s@.len(),
                Option::None => !wc_open(old(self).s@, old(self).i as int),
            },
    {
        proof {
            lemma_skip_wc_bounds(self.s@, self.i as int);
        }
        let ghost s = self.s@;
        let ghost i0 = self.i as int;
        loop
            invariant
                self.wf(),
                self.s@ == s,
                s == old(self).s@,
                i0 == old(self).i as int,
                i0 <= self.i,
                skip_wc(s, i0) == skip_wc(s, self.i as int),
                wc_open(s, i0) == wc_open(s, self.i as int),
                wc_open(s, i0) ==> wc_open_pos(s, i0) == wc_open_pos(s, self.i as int),
            ensures
                self.wf(),
                self.s@ == s,
                self.i as int == skip_wc(s, i0),
                !wc_open(s, i0),
            decreases s.len() - self.i,
        {
            let ghost iter0 = self.i as int;
            proof {
                lemma_skip_ws_from_bounds(s, iter0);
            }
            while self.i < self.s.len() && ws_char(self.s[self.i])
                invariant
                    self.wf(),
                    self.s@ == s,
                    iter0 <= self.i,
                    skip_ws_from(s, iter0) == skip_ws_from(s, self.i as int),
                decreases s.len() - self.i,
            {
                self.i += 1;
            }
            assert(self.i as int == skip_ws_from(s, iter0));
            let start = self.i;
            let ghost j = self.i as int;
            if self.i < self.s.len() && self.i + 1 < self.s.len() && self.s[self.i] == '/'
                && self.s[self.i + 1] == '*' {
                self.i += 2;
                while self.i < self.s.len() && !(self.i + 1 < self.s.len() && self.s[self.i] == '*'
                    && self.s[self.i + 1] == '/')
                    invariant
                        self.wf(),
                        self.s@ == s,
                        j + 2 <= self.i,
                        find_close(s, j + 2) == find_close(s, self.i as int),
                        has_close(s, j + 2) == has_close(s, self.i as int),
                    decreases s.len() - self.i,
                {
                    self.i += 1;
                }
                if self.i < self.s.len() {
                    // the comment is closed; consume the `*/` and go on
                    proof {
                        assert(has_close(s, j + 2));
                    }
                    self.i += 2;
                    assert(self.i as int == find_close(s, j + 2));
                    proof {
                        lemma_find_close_bounds(s, j + 2);
                        assert(skip_wc(s, iter0) == skip_wc(s, self.i as int));
                        assert(wc_open(s, iter0) == wc_open(s, self.i as int));
                        assert(wc_open(s, iter0) ==> wc_open_pos(s, iter0) == wc_open_pos(
                            s,
                            self.i as int,
                        ));
                    }
                } else {
                    // end of input inside the comment
                    proof {
                        assert(!has_close(s, j + 2));
                        assert(wc_open(s, iter0));
                        assert(wc_open_pos(s, iter0) == j);
                        assert(self.i as int == find_close(s, j + 2));
                        assert(skip_wc(s, self.i as int) == self.i as int);
                        assert(skip_wc(s, iter0) == skip_wc(s, self.i as int));
                    }
                    return Option::Some(start);
                }
            } else if self.i < self.s.len() && self.i + 1 < self.s.len() && self.s[self.i] == '/'
                && self.s[self.i + 1] == '/' {
                self.i += 2;
                while self.i < self.s.len() && self.s[self.i] != '\n'
                    invariant
                        self.wf(),
                        self.s@ == s,
                        j + 2 <= self.i,
                        find_nl(s, j + 2) == find_nl(s, self.i as int),
                    decreases s.len() - self.i,
                {
                    self.i += 1;
                }
                if self.i < self.s.len() {
                    self.i += 1;
                }
                assert(self.i as int == find_nl(s, j + 2));
                proof {
                    lemma_find_nl_bounds(s, j + 2);
                    assert(skip_wc(s, iter0) == skip_wc(s, self.i as int));
                    assert(wc_open(s, iter0) == wc_open(s, self.i as int));
                    assert(wc_open(s, iter0) ==> wc_open_pos(s, iter0) == wc_open_pos(
                        s,
                        self.i as int,
                    ));
                }
            } else {
                assert(skip_wc(s, self.i as int) == self.i as int);
                assert(!wc_open(s, self.i as int));
                break;
            }
            proof {
                assert(self.i > iter0);
            }
        }
        Option::None
    }

    /// Reads up to (not including) the first stop character that stands at
    /// paren depth zero outside any quoted string, as [`rua_end`] states.
    fn read_until_any(&mut self, stops: &Vec<char>) -> (r: Vec<char>)
        requires
            old(self).wf(),
        ensures
            final(self).wf(),
            final(self).s@ == old(self).s@,
            final(self).i == rua_end(old(self).s@, old(self).i as int, stops@, 0, Option::None),
            r@ == old(self).s@.subrange(old(self).i as int, final(self).i as int),
            old(self).i <= final(self).i,
    {
        let ghost s = self.s@;
        let ghost i0 = self.i as int;
        let ghost gstops = stops@;
        let start = self.i;
        let mut depth: i128 = 0;
        let mut in_str: Option<char> = Option::None;
        proof {
            lemma_rua_end_bounds(s, i0, gstops, 0, Option::None);
        }
        loop
            invariant
                self.wf(),
                self.s@ == s,
                i0 <= self.i,
                start == i0,
                gstops == stops@,
                -(self.i as int) <= depth <= self.i as int,
                rua_end(s, i0, gstops, 0, Option::None) == rua_end(
                    s,
                    self.i as int,
                    gstops,
                    depth as int,
                    in_str,
                ),
            ensures
                self.wf(),
                self.s@ == s,
                i0 <= self.i,
                self.i as int == rua_end(s, i0, gstops, 0, Option::None),
            decreases s.len() - self.i,
        {
            if self.i >= self.s.len() {
                break;
            }
            let ghost ic = self.i as int;
            let ghost dc = depth as int;
            let ghost stc = in_str;
            let c = self.s[self.i];
            match in_str {
                Option::Some(q) => {
                    self.i += 1;
                    if c == q {
                        in_str = Option::None;
                        proof {
                            assert(rua_end(s, ic, gstops, dc, stc) == rua_end(
                                s,
                                ic + 1,
                                gstops,
                                dc,
                                Option::None,
                            ));
                        }
                    } else if c == '\\' && self.i < self.s.len() {
                        self.i += 1;
                        proof {
                            assert(rua_end(s, ic, gstops, dc, stc) == rua_end(
                                s,
                                ic + 2,
                                gstops,
                                dc,
                                Option::Some(q),
                            ));
                        }
                    } else {
                        proof {
                            assert(rua_end(s, ic, gstops, dc, stc) == rua_end(
                                s,
                                ic + 1,
                                gstops,
                                dc,
                                Option::Some(q),
                            ));
                        }
                    }
                },
                Option::None => {
                    if c == '"' || c == '\'' {
                        in_str = Option::Some(c);
                        self.i += 1;
                        proof {
                            assert(rua_end(s, ic, gstops, dc, stc) == rua_end(
                                s,
                                ic + 1,
                                gstops,
                                dc,
                                Option::Some(c),
                            ));
                        }
                    } else if c == '(' {
                        depth = depth + 1;
                        self.i += 1;
                        proof {
                            assert(rua_end(s, ic, gstops, dc, stc) == rua_end(
                                s,
                                ic + 1,
                                gstops,
                                dc + 1,
                                Option::None,
                            ));
                        }
                    } else if c == ')' {
                        depth = depth - 1;
                        self.i += 1;
                        proof {
                            assert(rua_end(s, ic, gstops, dc, stc) == rua_end(
                                s,
                                ic + 1,
                                gstops,
                                dc - 1,
                                Option::None,
                            ));
                        }
                    } else if depth == 0 && char_in(stops, c) {
                        proof {
                            assert(rua_end(s, ic, gstops, dc, stc) == ic);
                        }
                        break;
                    } else {
                        self.i += 1;
                        proof {
                            assert(rua_end(s, ic, gstops, dc, stc) == rua_end(
                                s,
                                ic + 1,
                                gstops,
                                dc,
                                Option::None,
                            ));
                        }
                    }
                },
            }
        }
        proof {
            assert(self.i as int == rua_end(s, i0, gstops, 0, Option::None));
        }
        sub_chars(&self.s, start, self.i)
    }

    /// Consumes the maximal identifier run; failing when it is empty.
    fn read_ident(&mut self) -> (r: Result<Vec<char>, ScssError>)
        requires
            old(self).wf(),
        ensures
            final(self).wf(),
            final(self).s@ == old(self).s@,
            final(self).i == ident_end(old(self).s@, old(self).i as int),
            old(self).i <= final(self).i,
            ({
                let e = ident_end(old(self).s@, old(self).i as int);
                if e == old(self).i {
                    r matches Result::Err(err) && err.kind == ErrorKind::Syntax && err.msg@
                        == "expected identifier near: "@ + old(self).s@.subrange(
                        old(self).i as int,
                        old(self).s@.len() as int,
                    )
                } else {
                    r matches Result::Ok(v) && v@ == old(self).s@.subrange(old(self).i as int, e)
                }
            }),
    {
        let ghost s = self.s@;
        let ghost i0 = self.i as int;
        let start = self.i;
        proof {
            lemma_ident_end_bounds(s, i0);
        }
        while self.i < self.s.len() && ident_char(self.s[self.i])
            invariant
                self.wf(),
                self.s@ == s,
                i0 <= self.i,
                ident_end(s, i0) == ident_end(s, self.i as int),
            decreases s.len() - self.i,
        {
            self.i += 1;
        }
        assert(self.i as int == ident_end(s, i0));
        if self.i == start {
            let n: usize = self.s.len();
            let mut m = String::from_str("expected identifier near: ");
            m.append(crate::text::from_chars(&sub_chars(&self.s, start, n)).as_str());
            Result::Err(ScssError { kind: ErrorKind::Syntax, msg: m })
        } else {
            Result::Ok(sub_chars(&self.s, start, self.i))
        }
    }

    /// Skips whitespace and comments, then consumes exactly `ch` or
    /// fails, naming `ch` and the text at the failure point; a block
    /// comment left unclosed at the end of input fails on its own.
    fn expect_char(&mut self, ch: char) -> (r: Result<(), ScssError>)
        requires
            old(self).wf(),
        ensures
            final(self).wf(),
            final(self).s@ == old(self).s@,
            old(self).i <= final(self).i,
            ({
                let s = old(self).s@;
                let i = old(self).i as int;
                let j = skip_wc(s, i);
                if wc_open(s, i) {
                    r matches Result::Err(err) && err.kind == ErrorKind::Syntax && err.msg@
                        == unterminated_msg(s, i) && final(self).i == j
                } else if j < s.len() && s[j] == ch {
                    r matches Result::Ok(u) && final(self).i == j + 1
                } else {
                    r matches Result::Err(err) && err.kind == ErrorKind::Syntax && err.msg@
                        == "expected '"@ + seq![ch] + "' near: "@ + s.subrange(j, s.len() as int)
                        && final(self).i == j
                }
            }),
    {
        match self.skip_ws_and_comments() {
            Option::Some(p) => {
                let n: usize = self.s.len();
                let mut m = String::from_str("unterminated block comment: ");
                m.append(crate::text::from_chars(&sub_chars(&self.s, p, n)).as_str());
                return Result::Err(ScssError { kind: ErrorKind::Syntax, msg: m });
            },
            Option::None => {},
        }
        proof {
            lemma_skip_wc_bounds(old(self).s@, old(self).i as int);
        }
        if self.i < self.s.len() && self.s[self.i] == ch {
            self.i += 1;
            Result::Ok(())
        } else {
            let n: usize = self.s.len();
            let mut m = String::from_str("expected '");
            let one: Vec<char> = vec![ch];
            proof {
                assert(one@ =~= seq![ch]);
            }
            m.append(crate::text::from_chars(&one).as_str());
            m.append("' near: ");
            m.append(crate::text::from_chars(&sub_chars(&self.s, self.i, n)).as_str());
            Result::Err(ScssError { kind: ErrorKind::Syntax, msg: m })
        }
    }
}

/// Whether `c` is one of the stop characters.
pub(crate) fn char_in(stops: &Vec<char>, c: char) -> (r: bool)
    ensures
        r == stops@.contains(c),
{
    let n = stops.len();
    let mut k: usize = 0;
    while k < n
        invariant
            k <= n,
            n == stops@.len(),
            forall|t: int| 0 <= t < k ==> stops@[t] != c,
        decreases n - k,
    {
        if stops[k] == c {
            return true;
        }
        k += 1;
    }
    false
}


/// The index of the first `:` standing at paren depth zero outside any
/// quoted string, scanning from `i`; the length of `s` if there is none.
pub open spec fn sd_colon(s: Seq<char>, i: int, depth: int, in_str: Option<char>) -> int
    decreases s.len() - i when 0 <= i <= s.len()
{
    if i >= s.len() {
        i
    } else {
        let c = s[i];
        match in_str {
            Option::Some(q) => sd_colon(
                s,
                i + 1,
                depth,
                if c == q {
                    Option::None
                } else {
                    Option::Some(q)
                },
            ),
            Option::None => {
                if c == '"' || c == '\'' {
                    sd_colon(s, i + 1, depth, Option::Some(c))
                } else if c == '(' {
                    sd_colon(s, i + 1, depth + 1, Option::None)
                } else if c == ')' {
                    sd_colon(s, i + 1, depth - 1, Option::None)
                } else if depth == 0 && c == ':' {
                    i
                } else {
                    sd_colon(s, i + 1, depth, Option::None)
                }
            },
        }
    }
}

pub proof fn lemma_sd_colon_bounds(s: Seq<char>, i: int, depth: int, in_str: Option<char>)
    requires
        0 <= i <= s.len(),
    ensures
        i <= sd_colon(s, i, depth, in_str) <= s.len(),
    decreases s.len() - i,
{
    if i < s.len() {
        let c = s[i];
        match in_str {
            Option::Some(q) => {
                lemma_sd_colon_bounds(
                    s,
                    i + 1,
                    depth,
                    if c == q {
                        Option::None
                    } else {
                        Option::Some(q)
                    },
                );
            },
            Option::None => {
                if c == '"' || c == '\'' {
                    lemma_sd_colon_bounds(s, i + 1, depth, Option::Some(c));
                } else if c == '(' {
                    lemma_sd_colon_bounds(s, i + 1, depth + 1, Option::None);
                } else if c == ')' {
                    lemma_sd_colon_bounds(s, i + 1, depth - 1, Option::None);
                } else if depth == 0 && c == ':' {
                } else {
                    lemma_sd_colon_bounds(s, i + 1, depth, Option::None);
                }
            },
        }
    }
}

/// Splitting a statement head on its first unbracketed, unquoted `:`:
/// the trimmed property and value, or nothing when there is no such colon
/// or the property is empty.
pub open spec fn sp_split_decl(s: Seq<char>) -> Option<(Seq<char>, Seq<char>)> {
    let k = sd_colon(s, 0, 0, Option::None);
    if k >= s.len() {
        Option::None
    } else {
        let prop = spec_trim(s.take(k));
        let val = spec_trim(s.skip(k + 1));
        if prop.len() == 0 {
            Option::None
        } else {
            Option::Some((prop, val))
        }
    }
}

/// Splits a declaration head into its `(property, value)` pair, as
/// [`sp_split_decl`] states: the first `:` at paren depth zero outside any
/// quoted string separates the two; both are trimmed, and a head with no
/// such colon or an empty property yields nothing.
pub fn split_decl(s: &str) -> (r: Option<(String, String)>)
    ensures
        match sp_split_decl(s@) {
            Option::Some(pv) => r matches Option::Some(x) && x.0@ == pv.0 && x.1@ == pv.1,
            Option::None => r is None,
        },
{
    let cs = to_chars(s);
    split_decl_chars(&cs)
}

/// [`split_decl`] over a character vector.
pub(crate) fn split_decl_chars(cs: &Vec<char>) -> (r: Option<(String, String)>)
    ensures
        match sp_split_decl(cs@) {
            Option::Some(pv) => r matches Option::Some(x) && x.0@ == pv.0 && x.1@ == pv.1,
            Option::None => r is None,
        },
{
    let ghost s = cs@;
    let n: usize = cs.len();
    let mut i: usize = 0;
    let mut depth: i128 = 0;
    let mut in_str: Option<char> = Option::None;
    proof {
        lemma_sd_colon_bounds(s, 0, 0, Option::None);
    }
    loop
        invariant
            cs@ == s,
            i <= n,
            n == s.len(),
            -(i as int) <= depth <= i as int,
            sd_colon(s, 0, 0, Option::None) == sd_colon(s, i as int, depth as int, in_str),
        ensures
            i <= n,
            n == s.len(),
            i as int == sd_colon(s, 0, 0, Option::None),
        decreases n - i,
    {
        if i >= n {
            break;
        }
        let ghost ic = i as int;
        let ghost dc = depth as int;
        let ghost stc = in_str;
        let c = cs[i];
        match in_str {
            Option::Some(q) => {
                if c == q {
                    in_str = Option::None;
                }
                i += 1;
                proof {
                    assert(sd_colon(s, ic, dc, stc) == sd_colon(
                        s,
                        ic + 1,
                        dc,
                        if c == q {
                            Option::None
                        } else {
                            Option::Some(q)
                        },
                    ));
                }
            },
            Option::None => {
                if c == '"' || c == '\'' {
                    in_str = Option::Some(c);
                    i += 1;
                } else if c == '(' {
                    depth = depth + 1;
                    i += 1;
                } else if c == ')' {
                    depth = depth - 1;
                    i += 1;
                } else if depth == 0 && c == ':' {
                    proof {
                        assert(sd_colon(s, ic, dc, stc) == ic);
                    }
                    break;
                } else {
                    i += 1;
                }
            },
        }
    }
    if i >= n {
        proof {
            assert(sp_split_decl(s) is None);
        }
        return Option::None;
    }
    let prop_cs = trim_chars(&sub_chars(cs, 0, i));
    let val_cs = trim_chars(&sub_chars(cs, i + 1, n));
    proof {
        assert(s.subrange(0, i as int) =~= s.take(i as int));
        assert(s.subrange(i + 1, n as int) =~= s.skip(i + 1));
    }
    if prop_cs.len() == 0 {
        Option::None
    } else {
        Option::Some((crate::text::from_chars(&prop_cs), crate::text::from_chars(&val_cs)))
    }
}

/// The index of the first `,` at or after `i`, or the length of `s`.
pub open spec fn find_comma(s: Seq<char>, i: int) -> int
    decreases s.len() - i when 0 <= i <= s.len()
{
    if i >= s.len() {
        i
    } else if s[i] == ',' {
        i
    } else {
        find_comma(s, i + 1)
    }
}

pub proof fn lemma_find_comma_bounds(s: Seq<char>, i: int)
    requires
        0 <= i <= s.len(),
    ensures
        i <= find_comma(s, i) <= s.len(),
    decreases s.len() - i,
{
    if i < s.len() && s[i] != ',' {
        lemma_find_comma_bounds(s, i + 1);
    }
}

/// The comma-separated pieces of `s` from `i` on, each trimmed, empty
/// pieces dropped.
pub open spec fn sp_split_sel_from(s: Seq<char>, i: int) -> Seq<Seq<char>>
    decreases s.len() - i when 0 <= i <= s.len()
{
    let k = find_comma(s, i);
    let piece = spec_trim(s.subrange(i, k));
    proof {
        lemma_find_comma_bounds(s, i);
    }
    if k >= s.len() {
        if piece.len() == 0 {
            Seq::empty()
        } else {
            seq![piece]
        }
    } else {
        if piece.len() == 0 {
            sp_split_sel_from(s, k + 1)
        } else {
            seq![piece] + sp_split_sel_from(s, k + 1)
        }
    }
}

/// A rule head split on commas: the ordered list of trimmed, non-empty
/// selectors.
pub open spec fn sp_split_sel(s: Seq<char>) -> Seq<Seq<char>> {
    sp_split_sel_from(s, 0)
}

/// The views of a list of strings.
pub open spec fn str_views(v: Seq<String>) -> Seq<Seq<char>> {
    Seq::new(v.len(), |i: int| v[i]@)
}

/// Splits a rule head on commas into trimmed, non-empty selectors, as
/// [`sp_split_sel`] states.
pub fn split_selectors(s: &str) -> (r: Vec<String>)
    ensures
        str_views(r@) == sp_split_sel(s@),
{
    let cs = to_chars(s);
    split_sel_chars(&cs)
}

/// [`split_selectors`] over a character vector.
pub(crate) fn split_sel_chars(cs: &Vec<char>) -> (r: Vec<String>)
    ensures
        str_views(r@) == sp_split_sel(cs@),
{
    let ghost s = cs@;
    let n: usize = cs.len();
    let mut out: Vec<String> = Vec::new();
    let mut pos: usize = 0;
    proof {
        assert(str_views(out@) =~= Seq::<Seq<char>>::empty());
        assert(Seq::<Seq<char>>::empty() + sp_split_sel_from(s, 0) =~= sp_split_sel_from(s, 0));
    }
    loop
        invariant_except_break
            sp_split_sel(s) == str_views(out@) + sp_split_sel_from(s, pos as int),
        invariant
            cs@ == s,
            pos <= n,
            n == s.len(),
        ensures
            str_views(out@) == sp_split_sel(s),
        decreases n - pos,
    {
        let ghost p0 = pos as int;
        let mut k: usize = pos;
        proof {
            lemma_find_comma_bounds(s, p0);
        }
        while k < n && cs[k] != ','
            invariant
                cs@ == s,
                pos <= k <= n,
                n == s.len(),
                find_comma(s, p0) == find_comma(s, k as int),
            decreases n - k,
        {
            k += 1;
        }
        assert(k as int == find_comma(s, p0));
        let piece = trim_chars(&sub_chars(cs, pos, k));
        let ghost out0 = out@;
        if piece.len() > 0 {
            out.push(crate::text::from_chars(&piece));
        }
        proof {
            let rest = sp_split_sel_from(s, p0);
            if piece@.len() == 0 {
                assert(out@ == out0);
            } else {
                assert(str_views(out@) =~= str_views(out0).push(piece@));
            }
            if k >= n {
                if piece@.len() == 0 {
                    assert(rest =~= Seq::<Seq<char>>::empty());
                } else {
                    assert(rest =~= seq![piece@]);
                }
                assert(str_views(out@) =~= str_views(out0) + rest);
                assert(str_views(out@) =~= sp_split_sel(s));
            } else {
                if piece@.len() == 0 {
                    assert(rest == sp_split_sel_from(s, k + 1));
                    assert(str_views(out@) + sp_split_sel_from(s, k + 1) =~= str_views(out0)
                        + rest);
                } else {
                    assert(rest == seq![piece@] + sp_split_sel_from(s, k + 1));
                    assert(str_views(out@) + sp_split_sel_from(s, k + 1) =~= str_views(out0)
                        + rest);
                }
            }
        }
        if k >= n {
            break;
        }
        pos = k + 1;
    }
    out
}


/// The outcome of parsing one statement: the node and the position after
/// it, or a failure message.
pub enum SRes {
    SOk { node: SpecNode, next: int },
    SErr { msg: Seq<char> },
}

/// The outcome of parsing a block: the nodes and the position after the
/// block, or a failure message.
pub enum PRes {
    POk { nodes: Seq<SpecNode>, next: int },
    PErr { msg: Seq<char> },
}

/// Prepends a node to the nodes of a successful block parse.
pub open spec fn pcons(n: SpecNode, r: PRes) -> PRes {
    match r {
        PRes::POk { nodes, next } => PRes::POk { nodes: seq![n] + nodes, next },
        PRes::PErr { .. } => r,
    }
}

/// Prepends already-parsed nodes to the nodes of a block parse.
pub open spec fn pmerge(pre: Seq<SpecNode>, r: PRes) -> PRes {
    match r {
        PRes::POk { nodes, next } => PRes::POk { nodes: pre + nodes, next },
        PRes::PErr { .. } => r,
    }
}

/// Parsing `$` identifier `:` value `;` at `i`: the variable declaration
/// node with both texts trimmed, or the first failure; each failure names
/// what was expected and the text at the failure point, and a block
/// comment left unclosed at the end of input is its own failure.
pub open spec fn sp_var_decl(s: Seq<char>, i: int) -> SRes {
    if wc_open(s, i) {
        SRes::SErr { msg: unterminated_msg(s, i) }
    } else {
        let j0 = skip_wc(s, i);
        if !(j0 < s.len() && s[j0] == '$') {
            SRes::SErr {
                msg: "expected '"@ + seq!['$'] + "' near: "@ + s.subrange(j0, s.len() as int),
            }
        } else {
            let e1 = ident_end(s, j0 + 1);
            if e1 == j0 + 1 {
                SRes::SErr {
                    msg: "expected identifier near: "@ + s.subrange(j0 + 1, s.len() as int),
                }
            } else if wc_open(s, e1) {
                SRes::SErr { msg: unterminated_msg(s, e1) }
            } else {
                let j1 = skip_wc(s, e1);
                if !(j1 < s.len() && s[j1] == ':') {
                    SRes::SErr {
                        msg: "expected '"@ + seq![':'] + "' near: "@ + s.subrange(
                            j1,
                            s.len() as int,
                        ),
                    }
                } else {
                    let e2 = rua_end(s, j1 + 1, seq![';'], 0, Option::None);
                    if wc_open(s, e2) {
                        SRes::SErr { msg: unterminated_msg(s, e2) }
                    } else {
                        let j2 = skip_wc(s, e2);
                        if !(j2 < s.len() && s[j2] == ';') {
                            SRes::SErr {
                                msg: "expected '"@ + seq![';'] + "' near: "@ + s.subrange(
                                    j2,
                                    s.len() as int,
                                ),
                            }
                        } else {
                            SRes::SOk {
                                node: SpecNode::VarDecl {
                                    name: spec_trim(s.subrange(j0 + 1, e1)),
                                    value: spec_trim(s.subrange(j1 + 1, e2)),
                                },
                                next: j2 + 1,
                            }
                        }
                    }
                }
            }
        }
    }
}

/// Parsing an at-statement at `i`: text up to `;` or `{`; a `{` carries a
/// nested block, parsed recursively and re-rendered into the at-rule text.
pub open spec fn sp_at_stmt(s: Seq<char>, i: int) -> SRes
    decreases s.len() - i, 0int when 0 <= i <= s.len()
{
    let e = rua_end(s, i, seq![';', '{'], 0, Option::None);
    let text = s.subrange(i, e);
    proof {
        lemma_rua_end_bounds(s, i, seq![';', '{'], 0, Option::None);
        lemma_skip_wc_bounds(s, e);
    }
    if wc_open(s, e) {
        SRes::SErr { msg: unterminated_msg(s, e) }
    } else {
        let j = skip_wc(s, e);
        if j < s.len() && s[j] == ';' {
            SRes::SOk { node: SpecNode::RawAt { text: spec_trim(text) }, next: j + 1 }
        } else if j < s.len() && s[j] == '{' {
            match sp_parse_block(s, j + 1, Option::Some('}')) {
                PRes::POk { nodes, next } => SRes::SOk {
                    node: SpecNode::RawAt {
                        text: spec_trim(text) + " {"@ + ser_nodes(nodes) + "}"@,
                    },
                    next,
                },
                PRes::PErr { msg } => SRes::SErr { msg },
            }
        } else {
            SRes::SErr { msg: "invalid @ rule: "@ + text }
        }
    }
}

/// Parsing a rule or declaration at `i`: the head up to the first
/// unbracketed `{` or `;`; a `{` opens a rule body, a `;` closes a
/// declaration split on its first top-level colon.
pub open spec fn sp_head_stmt(s: Seq<char>, i: int) -> SRes
    decreases s.len() - i, 0int when 0 <= i <= s.len()
{
    let e = rua_end(s, i, seq!['{', ';'], 0, Option::None);
    let head = spec_trim(s.subrange(i, e));
    proof {
        lemma_rua_end_bounds(s, i, seq!['{', ';'], 0, Option::None);
        lemma_skip_wc_bounds(s, e);
    }
    if wc_open(s, e) {
        SRes::SErr { msg: unterminated_msg(s, e) }
    } else {
        let j = skip_wc(s, e);
        if j < s.len() && s[j] == '{' {
            if sp_split_sel(head).len() == 0 {
                SRes::SErr { msg: "invalid selector: "@ + head }
            } else {
                match sp_parse_block(s, j + 1, Option::Some('}')) {
                    PRes::POk { nodes, next } => SRes::SOk {
                        node: SpecNode::Rule { selectors: sp_split_sel(head), body: nodes },
                        next,
                    },
                    PRes::PErr { msg } => SRes::SErr { msg },
                }
            }
        } else if j < s.len() && s[j] == ';' {
            match sp_split_decl(head) {
                Option::Some(pv) => SRes::SOk {
                    node: SpecNode::Decl { prop: pv.0, value: pv.1 },
                    next: j + 1,
                },
                Option::None => SRes::SErr { msg: "invalid declaration: "@ + head },
            }
        } else {
            SRes::SErr { msg: "unexpected token near: "@ + head }
        }
    }
}

/// Parsing a block at `i`: statements in order until the closing
/// character `until`, which is consumed; a nested block left unclosed at
/// the end of input is a failure, as is a block comment left unclosed
/// anywhere a statement may begin.  A top-level parse (no `until`) stops
/// at the end of input.  The continuation
/// position after a statement is clamped to stay strictly increasing and
/// in range, a termination guard that the statement parsers in fact
/// always satisfy.
pub open spec fn sp_parse_block(s: Seq<char>, i: int, until: Option<char>) -> PRes
    decreases s.len() - i, 1int when 0 <= i <= s.len()
{
    proof {
        lemma_skip_wc_bounds(s, i);
    }
    let j = skip_wc(s, i);
    if wc_open(s, i) {
        PRes::PErr { msg: unterminated_msg(s, i) }
    } else if j >= s.len() {
        match until {
            Option::Some(u) => PRes::PErr {
                msg: "unexpected end of input: expected '"@ + seq![u] + "'"@,
            },
            Option::None => PRes::POk { nodes: Seq::empty(), next: j },
        }
    } else if until == Option::Some(s[j]) {
        PRes::POk { nodes: Seq::empty(), next: j + 1 }
    } else if s[j] == '$' {
        match sp_var_decl(s, j) {
            SRes::SOk { node, next } => {
                let nn = if j < next <= s.len() {
                    next
                } else {
                    j + 1
                };
                pcons(node, sp_parse_block(s, nn, until))
            },
            SRes::SErr { msg } => PRes::PErr { msg },
        }
    } else if s[j] == '@' {
        match sp_at_stmt(s, j) {
            SRes::SOk { node, next } => {
                let nn = if j < next <= s.len() {
                    next
                } else {
                    j + 1
                };
                pcons(node, sp_parse_block(s, nn, until))
            },
            SRes::SErr { msg } => PRes::PErr { msg },
        }
    } else {
        match sp_head_stmt(s, j) {
            SRes::SOk { node, next } => {
                let nn = if j < next <= s.len() {
                    next
                } else {
                    j + 1
                };
                pcons(node, sp_parse_block(s, nn, until))
            },
            SRes::SErr { msg } => PRes::PErr { msg },
        }
    }
}


impl Parser {
    /// Parses `$` identifier `:` value `;`, as [`sp_var_decl`] states.
    fn parse_var_decl(&mut self) -> (r: Result<Node, ScssError>)
        requires
            old(self).wf(),
        ensures
            final(self).wf(),
            final(self).s@ == old(self).s@,
            old(self).i <= final(self).i,
            match sp_var_decl(old(self).s@, old(self).i as int) {
                SRes::SOk { node, next } => r matches Result::Ok(nd) && node_view(nd) == node
                    && final(self).i as int == next && old(self).i < next,
                SRes::SErr { msg } => r matches Result::Err(e) && e.kind == ErrorKind::Syntax
                    && e.msg@ == msg,
            },
    {
        let ghost s = self.s@;
        let ghost i0 = self.i as int;
        match self.expect_char('$') {
            Result::Err(e) => {
                return Result::Err(e);
            },
            Result::Ok(u) => {},
        }
        let name = match self.read_ident() {
            Result::Ok(v) => v,
            Result::Err(e) => {
                return Result::Err(e);
            },
        };
        match self.expect_char(':') {
            Result::Err(e) => {
                return Result::Err(e);
            },
            Result::Ok(u) => {},
        }
        let stops: Vec<char> = vec![';'];
        proof {
            assert(stops@ =~= seq![';']);
        }
        let value = self.read_until_any(&stops);
        match self.expect_char(';') {
            Result::Err(e) => {
                return Result::Err(e);
            },
            Result::Ok(u) => {},
        }
        let name_t = trim_chars(&name);
        let value_t = trim_chars(&value);
        Result::Ok(
            Node::VarDecl {
                name: crate::text::from_chars(&name_t),
                value: crate::text::from_chars(&value_t),
            },
        )
    }

    /// Parses an at-statement, as [`sp_at_stmt`] states.
    fn parse_at_stmt(&mut self) -> (r: Result<Node, ScssError>)
        requires
            old(self).wf(),
        ensures
            final(self).wf(),
            final(self).s@ == old(self).s@,
            old(self).i <= final(self).i,
            match sp_at_stmt(old(self).s@, old(self).i as int) {
                SRes::SOk { node, next } => r matches Result::Ok(nd) && node_view(nd) == node
                    && final(self).i as int == next && old(self).i < next,
                SRes::SErr { msg } => r matches Result::Err(e) && e.kind == ErrorKind::Syntax
                    && e.msg@ == msg,
            },
        decreases old(self).s@.len() - old(self).i, 0int,
    {
        let ghost s = self.s@;
        let ghost i0 = self.i as int;
        let stops: Vec<char> = vec![';', '{'];
        proof {
            assert(stops@ =~= seq![';', '{']);
        }
        let text = self.read_until_any(&stops);
        let ghost e = self.i as int;
        match self.skip_ws_and_comments() {
            Option::Some(p) => {
                let n: usize = self.s.len();
                let mut m = String::from_str("unterminated block comment: ");
                m.append(crate::text::from_chars(&sub_chars(&self.s, p, n)).as_str());
                return Result::Err(ScssError { kind: ErrorKind::Syntax, msg: m });
            },
            Option::None => {},
        }
        let ghost j = self.i as int;
        if self.i < self.s.len() && self.s[self.i] == ';' {
            self.i += 1;
            let t = trim_chars(&text);
            Result::Ok(Node::RawAt { text: crate::text::from_chars(&t) })
        } else if self.i < self.s.len() && self.s[self.i] == '{' {
            self.i += 1;
            let inner = match self.parse_block_until(Option::Some('}')) {
                Result::Ok(v) => v,
                Result::Err(e2) => {
                    return Result::Err(e2);
                },
            };
            let t = trim_chars(&text);
            let mut reb = crate::text::from_chars(&t);
            reb.append(" {");
            let ser = serialize_nodes_as_css_like(&inner);
            reb.append(ser.as_str());
            reb.append("}");
            Result::Ok(Node::RawAt { text: reb })
        } else {
            let mut m = String::from_str("invalid @ rule: ");
            m.append(crate::text::from_chars(&text).as_str());
            Result::Err(ScssError { kind: ErrorKind::Syntax, msg: m })
        }
    }

    /// Parses statements until the end of input or the closing character
    /// `until`, as [`sp_parse_block`] states.
    fn parse_block_until(&mut self, until: Option<char>) -> (r: Result<Vec<Node>, ScssError>)
        requires
            old(self).wf(),
        ensures
            final(self).wf(),
            final(self).s@ == old(self).s@,
            old(self).i <= final(self).i,
            match sp_parse_block(old(self).s@, old(self).i as int, until) {
                PRes::POk { nodes, next } => r matches Result::Ok(v) && views_of(v@) == nodes
                    && final(self).i as int == next,
                PRes::PErr { msg } => r matches Result::Err(e) && e.kind == ErrorKind::Syntax
                    && e.msg@ == msg,
            },
        decreases old(self).s@.len() - old(self).i, 1int,
    {
        let ghost s = self.s@;
        let ghost i0 = self.i as int;
        let mut out: Vec<Node> = Vec::new();
        proof {
            assert(views_of(out@) =~= Seq::<SpecNode>::empty());
        }
        loop
            invariant_except_break
                sp_parse_block(s, i0, until) == pmerge(
                    views_of(out@),
                    sp_parse_block(s, self.i as int, until),
                ),
            invariant
                self.wf(),
                self.s@ == s,
                i0 <= self.i,
                s == old(self).s@,
                i0 == old(self).i as int,
            ensures
                self.wf(),
                self.s@ == s,
                i0 <= self.i,
                sp_parse_block(s, i0, until) == (PRes::POk {
                    nodes: views_of(out@),
                    next: self.i as int,
                }),
            decreases s.len() - self.i,
        {
            let ghost it = self.i as int;
            match self.skip_ws_and_comments() {
                Option::Some(p) => {
                    proof {
                        assert(sp_parse_block(s, it, until) is PErr);
                    }
                    let n: usize = self.s.len();
                    let mut m = String::from_str("unterminated block comment: ");
                    m.append(crate::text::from_chars(&sub_chars(&self.s, p, n)).as_str());
                    return Result::Err(ScssError { kind: ErrorKind::Syntax, msg: m });
                },
                Option::None => {},
            }
            let ghost j = self.i as int;
            if self.i >= self.s.len() {
                match until {
                    Option::Some(u) => {
                        proof {
                            assert(sp_parse_block(s, it, until) is PErr);
                        }
                        let mut m = String::from_str("unexpected end of input: expected '");
                        let one: Vec<char> = vec![u];
                        proof {
                            assert(one@ =~= seq![u]);
                        }
                        m.append(crate::text::from_chars(&one).as_str());
                        m.append("'");
                        return Result::Err(ScssError { kind: ErrorKind::Syntax, msg: m });
                    },
                    Option::None => {
                        proof {
                            assert(sp_parse_block(s, it, until) == (PRes::POk {
                                nodes: Seq::<SpecNode>::empty(),
                                next: j,
                            }));
                            assert(views_of(out@) + Seq::<SpecNode>::empty() =~= views_of(out@));
                        }
                        break;
                    },
                }
            }
            if let Option::Some(u) = until {
                if self.s[self.i] == u {
                    self.i += 1;
                    proof {
                        assert(sp_parse_block(s, it, until) == (PRes::POk {
                            nodes: Seq::<SpecNode>::empty(),
                            next: j + 1,
                        }));
                        assert(views_of(out@) + Seq::<SpecNode>::empty() =~= views_of(out@));
                    }
                    break;
                }
            }
            let c = self.s[self.i];
            let ghost out0 = out@;
            if c == '$' {
                match self.parse_var_decl() {
                    Result::Ok(node) => {
                        out.push(node);
                        proof {
                            lemma_step(s, it, j, until, views_of(out0), node_view(node), self.i as int);
                            assert(views_of(out@) =~= views_of(out0).push(node_view(node)));
                        }
                    },
                    Result::Err(e) => {
                        proof {
                            assert(sp_parse_block(s, it, until) is PErr);
                        }
                        return Result::Err(e);
                    },
                }
            } else if c == '@' {
                match self.parse_at_stmt() {
                    Result::Ok(node) => {
                        out.push(node);
                        proof {
                            lemma_step(s, it, j, until, views_of(out0), node_view(node), self.i as int);
                            assert(views_of(out@) =~= views_of(out0).push(node_view(node)));
                        }
                    },
                    Result::Err(e) => {
                        proof {
                            assert(sp_parse_block(s, it, until) is PErr);
                        }
                        return Result::Err(e);
                    },
                }
            } else {
                let stops2: Vec<char> = vec!['{', ';'];
                proof {
                    assert(stops2@ =~= seq!['{', ';']);
                }
                let head = self.read_until_any(&stops2);
                let head_trim = trim_chars(&head);
                let ghost e2 = self.i as int;
                match self.skip_ws_and_comments() {
                    Option::Some(p) => {
                        proof {
                            assert(sp_head_stmt(s, j) is SErr);
                            assert(sp_parse_block(s, it, until) is PErr);
                        }
                        let n: usize = self.s.len();
                        let mut m = String::from_str("unterminated block comment: ");
                        m.append(crate::text::from_chars(&sub_chars(&self.s, p, n)).as_str());
                        return Result::Err(ScssError { kind: ErrorKind::Syntax, msg: m });
                    },
                    Option::None => {},
                }
                let ghost j2 = self.i as int;
                if self.i < self.s.len() && self.s[self.i] == '{' {
                    self.i += 1;
                    let selectors = split_sel_chars(&head_trim);
                    if selectors.len() == 0 {
                        proof {
                            assert(sp_split_sel(head_trim@).len() == 0);
                            assert(sp_head_stmt(s, j) is SErr);
                            assert(sp_parse_block(s, it, until) is PErr);
                        }
                        let mut m = String::from_str("invalid selector: ");
                        m.append(crate::text::from_chars(&head_trim).as_str());
                        return Result::Err(ScssError { kind: ErrorKind::Syntax, msg: m });
                    }
                    let body = match self.parse_block_until(Option::Some('}')) {
                        Result::Ok(v) => v,
                        Result::Err(e) => {
                            proof {
                                assert(sp_head_stmt(s, j) is SErr);
                                assert(sp_parse_block(s, it, until) is PErr);
                            }
                            return Result::Err(e);
                        },
                    };
                    let node = Node::Rule { selectors, body };
                    proof {
                        lemma_node_views_list(body@);
                        assert(Seq::new(selectors@.len(), |t: int| selectors@[t]@) =~= str_views(
                            selectors@));
                        assert(node_view(node) == sp_head_stmt(s, j)->SOk_node);
                        lemma_step(s, it, j, until, views_of(out0), node_view(node), self.i as int);
                    }
                    out.push(node);
                    proof {
                        assert(views_of(out@) =~= views_of(out0).push(node_view(node)));
                    }
                } else if self.i < self.s.len() && self.s[self.i] == ';' {
                    self.i += 1;
                    match split_decl_chars(&head_trim) {
                        Option::Some(pv) => {
                            let node = Node::Decl { prop: pv.0, value: pv.1 };
                            proof {
                                lemma_step(s, it, j, until, views_of(out0), node_view(node), self.i as int);
                            }
                            out.push(node);
                            proof {
                                assert(views_of(out@) =~= views_of(out0).push(node_view(node)));
                            }
                        },
                        Option::None => {
                            let mut m = String::from_str("invalid declaration: ");
                            m.append(crate::text::from_chars(&head_trim).as_str());
                            proof {
                                assert(sp_parse_block(s, it, until) is PErr);
                            }
                            return Result::Err(ScssError { kind: ErrorKind::Syntax, msg: m });
                        },
                    }
                } else {
                    let mut m = String::from_str("unexpected token near: ");
                    m.append(crate::text::from_chars(&head_trim).as_str());
                    proof {
                        assert(sp_parse_block(s, it, until) is PErr);
                    }
                    return Result::Err(ScssError { kind: ErrorKind::Syntax, msg: m });
                }
            }
        }
        Result::Ok(out)
    }
}

/// One step of the block-parse equation: a statement parsed at `j` (the
/// whitespace-skipped position of `it`) extends the accumulated nodes.
proof fn lemma_step(
    s: Seq<char>,
    it: int,
    j: int,
    until: Option<char>,
    out0: Seq<SpecNode>,
    nv: SpecNode,
    ni: int,
)
    requires
        0 <= it <= s.len(),
        !wc_open(s, it),
        j == skip_wc(s, it),
        j < s.len(),
        until != Option::Some(s[j]),
        ({
            let st = if s[j] == '$' {
                sp_var_decl(s, j)
            } else if s[j] == '@' {
                sp_at_stmt(s, j)
            } else {
                sp_head_stmt(s, j)
            };
            st == (SRes::SOk { node: nv, next: ni }) && j < ni <= s.len()
        }),
    ensures
        pmerge(out0, sp_parse_block(s, it, until)) == pmerge(
            out0.push(nv),
            sp_parse_block(s, ni, until),
        ),
{
    lemma_skip_wc_bounds(s, it);
    assert(sp_parse_block(s, it, until) == pcons(nv, sp_parse_block(s, ni, until)));
    match sp_parse_block(s, ni, until) {
        PRes::POk { nodes, next } => {
            assert(out0 + (seq![nv] + nodes) =~= out0.push(nv) + nodes);
        },
        PRes::PErr { msg } => {},
    }
}

/// Parses a stylesheet source text into its ordered top-level nodes, as
/// [`sp_parse_block`] (started at the beginning, with no closing
/// character) states.
pub fn parse_scss(src: &str) -> (r: Result<Ast, ScssError>)
    ensures
        match sp_parse_block(src@, 0, Option::None) {
            PRes::POk { nodes, next } => r matches Result::Ok(a) && a@ == nodes,
            PRes::PErr { msg } => r matches Result::Err(e) && e.kind == ErrorKind::Syntax
                && e.msg@ == msg,
        },
{
    let mut p = Parser::new(src);
    match p.parse_block_until(Option::None) {
        Result::Ok(nodes) => Result::Ok(Ast { nodes }),
        Result::Err(e) => Result::Err(e),
    }
}


/// A character that carries no structural meaning for the scanner: not
/// whitespace and none of the statement, comment, quote, paren, variable
/// or at-rule characters.
pub open spec fn plain_char(c: char) -> bool {
    !is_ws_char(c) && c != '{' && c != '}' && c != ';' && c != ':' && c != '$' && c != '@' && c
        != '(' && c != ')' && c != '"' && c != '\'' && c != '\\' && c != '/' && c != '*'
}

/// A declaration text character: plain, or interior whitespace.
pub open spec fn decl_char(c: char) -> bool {
    plain_char(c) || is_ws_char(c)
}

/// A declaration value character: a declaration character, or a colon
/// (the split takes the first top-level colon, so later ones are value
/// text).
pub open spec fn value_char(c: char) -> bool {
    decl_char(c) || c == ':'
}

/// A well-formed `(property, value)` pair: the property is non-empty, the
/// colon separating them is unambiguous, and neither text begins or ends
/// with whitespace.
pub open spec fn wf_plain_decl(p: Seq<char>, v: Seq<char>) -> bool {
    p.len() > 0 && !is_ws_char(p[0]) && !is_ws_char(p.last()) && (v.len() == 0 || (!is_ws_char(
        v[0],
    ) && !is_ws_char(v.last()))) && (forall|k: int| 0 <= k < p.len() ==> decl_char(p[k])) && (
    forall|k: int| 0 <= k < v.len() ==> value_char(v[k]))
}

pub open spec fn wf_plain_decls(ds: Seq<(Seq<char>, Seq<char>)>) -> bool {
    forall|t: int| 0 <= t < ds.len() ==> wf_plain_decl(ds[t].0, ds[t].1)
}

/// The pairs rendered as declaration text, in order: `p:v;` each.
pub open spec fn render_decls(ds: Seq<(Seq<char>, Seq<char>)>) -> Seq<char>
    decreases ds.len(),
{
    if ds.len() == 0 {
        Seq::empty()
    } else {
        ds[0].0 + seq![':'] + ds[0].1 + seq![';'] + render_decls(ds.drop_first())
    }
}

/// The pairs as declaration nodes, in order.
pub open spec fn decl_nodes(ds: Seq<(Seq<char>, Seq<char>)>) -> Seq<SpecNode>
    decreases ds.len(),
{
    if ds.len() == 0 {
        Seq::empty()
    } else {
        seq![SpecNode::Decl { prop: ds[0].0, value: ds[0].1 }] + decl_nodes(ds.drop_first())
    }
}

/// A stop-set-aware read over declaration characters runs to the first
/// `;`.
proof fn lemma_rua_plain(s: Seq<char>, i: int, e: int)
    requires
        0 <= i <= e < s.len(),
        forall|k: int| i <= k < e ==> (decl_char(s[k]) || s[k] == ':'),
        s[e] == ';',
    ensures
        rua_end(s, i, seq!['{', ';'], 0, Option::None) == e,
    decreases e - i,
{
    if i == e {
        assert(seq!['{', ';'][1] == ';');
        assert(seq!['{', ';'].contains(';'));
    } else {
        assert(decl_char(s[i]) || s[i] == ':');
        assert(!seq!['{', ';'].contains(s[i])) by {
            if seq!['{', ';'].contains(s[i]) {
                let w = choose|w: int| 0 <= w < 2 && seq!['{', ';'][w] == s[i];
                assert(s[i] == '{' || s[i] == ';');
            }
        }
        lemma_rua_plain(s, i + 1, e);
    }
}

/// The colon search over a plain property runs to its end.
proof fn lemma_sd_plain(head: Seq<char>, p: Seq<char>, i: int)
    requires
        0 <= i <= p.len() < head.len(),
        forall|k: int| i <= k < p.len() ==> decl_char(head[k]),
        head[p.len() as int] == ':',
    ensures
        sd_colon(head, i, 0, Option::None) == p.len(),
    decreases p.len() - i,
{
    if i < p.len() {
        assert(decl_char(head[i]));
        lemma_sd_plain(head, p, i + 1);
    }
}

/// Text that neither begins nor ends with whitespace trims to itself.
proof fn lemma_trim_id(s: Seq<char>)
    requires
        s.len() > 0,
        !is_ws_char(s[0]),
        !is_ws_char(s.last()),
    ensures
        spec_trim(s) == s,
{
    assert(skip_ws_from(s, 0) == 0);
    assert(crate::text::rskip_ws_from(s, s.len() as int) == s.len() as int);
    assert(s.subrange(0, s.len() as int) =~= s);
}

/// One declaration statement: when the cursor, after whitespace and
/// comments, stands at `p:v;`, the block parse produces the declaration
/// node and continues after the semicolon.
proof fn lemma_decl_stmt(s: Seq<char>, i: int, j: int, p: Seq<char>, v: Seq<char>)
    requires
        0 <= i <= s.len(),
        !wc_open(s, i),
        skip_wc(s, i) == j,
        0 <= j,
        j + p.len() + 1 + v.len() < s.len(),
        s.subrange(j, j + p.len() + 1 + v.len()) == p + seq![':'] + v,
        s[j + p.len() + 1 + v.len()] == ';',
        wf_plain_decl(p, v),
    ensures
        sp_parse_block(s, i, Option::None) == pcons(
            SpecNode::Decl { prop: p, value: v },
            sp_parse_block(s, j + p.len() + v.len() + 2, Option::None),
        ),
{
    lemma_skip_wc_bounds(s, i);
    let head = p + seq![':'] + v;
    let e = j + head.len();
    assert(s[e] == ';');
    assert forall|k: int| j <= k < e implies (decl_char(s[k]) || s[k] == ':') by {
        let t = k - j;
        assert(s[k] == s.subrange(j, e)[t]);
        assert(s.subrange(j, e)[t] == head[t]);
        if t < p.len() {
            assert(head[t] == p[t]);
        } else if t == p.len() {
            assert(head[t] == ':');
        } else {
            assert(head[t] == v[t - p.len() - 1]);
        }
    }
    assert(s[j] == head[0]);
    assert(s[j] == p[0]);
    assert(!is_ws_char(s[j]) && s[j] != '/');
    lemma_rua_plain(s, j, e);
    assert(rua_end(s, j, seq!['{', ';'], 0, Option::None) == e);
    assert(s.subrange(j, e) =~= head);
    assert(head.len() > 0 && !is_ws_char(head[0]));
    assert(!is_ws_char(head.last())) by {
        if v.len() == 0 {
            assert(head.last() == ':');
        } else {
            assert(head.last() == v.last());
        }
    }
    lemma_trim_id(head);
    assert(skip_ws_from(s, e) == e);
    assert(skip_wc(s, e) == e);
    assert(!wc_open(s, e));
    assert forall|k: int| 0 <= k < p.len() implies decl_char(head[k]) by {
        assert(head[k] == p[k]);
    }
    assert(head[p.len() as int] == ':');
    lemma_sd_plain(head, p, 0);
    assert(sd_colon(head, 0, 0, Option::None) == p.len());
    assert(head.take(p.len() as int) =~= p);
    assert(head.skip(p.len() as int + 1) =~= v);
    lemma_trim_id(p);
    if v.len() > 0 {
        lemma_trim_id(v);
    } else {
        assert(spec_trim(v) =~= v);
    }
    assert(sp_split_decl(head) == Option::Some((p, v)));
    assert(sp_head_stmt(s, j) == (SRes::SOk {
        node: SpecNode::Decl { prop: p, value: v },
        next: e + 1,
    }));
    assert(s[j] != '$' && s[j] != '@');
    assert(sp_parse_block(s, i, Option::None) == pcons(
        SpecNode::Decl { prop: p, value: v },
        sp_parse_block(s, e + 1, Option::None),
    ));
}

/// The round trip at position `i`: text that renders a well-formed pair
/// list parses back to exactly those declaration nodes.
proof fn lemma_decls_at(s: Seq<char>, ds: Seq<(Seq<char>, Seq<char>)>, i: int)
    requires
        0 <= i <= s.len(),
        s.skip(i) == render_decls(ds),
        wf_plain_decls(ds),
    ensures
        sp_parse_block(s, i, Option::None) == (PRes::POk {
            nodes: decl_nodes(ds),
            next: s.len() as int,
        }),
    decreases ds.len(),
{
    lemma_skip_wc_bounds(s, i);
    if ds.len() == 0 {
        assert(s.skip(i).len() == 0);
        assert(i == s.len());
        assert(skip_ws_from(s, i) == i);
        assert(skip_wc(s, i) == i);
        assert(!wc_open(s, i));
        assert(decl_nodes(ds) =~= Seq::<SpecNode>::empty());
    } else {
        let p = ds[0].0;
        let v = ds[0].1;
        assert(wf_plain_decl(p, v));
        let rest = render_decls(ds.drop_first());
        let head = p + seq![':'] + v;
        let e = i + head.len();
        assert(s.skip(i) == head + seq![';'] + rest);
        assert forall|k: int| i <= k < s.len() implies s[k] == s.skip(i)[k - i] by {}
        assert(e < s.len()) by {
            assert(s.skip(i).len() == head.len() + 1 + rest.len());
        }
        assert(s[e] == ';') by {
            assert(s.skip(i)[head.len() as int] == ';');
        }
        assert(s[i] == p[0]);
        assert(!is_ws_char(s[i]) && s[i] != '/');
        assert(skip_ws_from(s, i) == i);
        assert(skip_wc(s, i) == i);
        assert(!wc_open(s, i));
        assert(s.subrange(i, e) =~= head);
        lemma_decl_stmt(s, i, i, p, v);
        assert(s.skip(e + 1) =~= rest) by {
            assert forall|k: int| 0 <= k < s.len() - e - 1 implies s.skip(e + 1)[k] == rest[k] by {
                assert(s.skip(e + 1)[k] == s.skip(i)[k + head.len() + 1]);
            }
        }
        assert(wf_plain_decls(ds.drop_first())) by {
            assert forall|t: int| 0 <= t < ds.drop_first().len() implies wf_plain_decl(
                ds.drop_first()[t].0,
                ds.drop_first()[t].1,
            ) by {
                assert(ds.drop_first()[t] == ds[t + 1]);
            }
        }
        lemma_decls_at(s, ds.drop_first(), e + 1);
        assert(seq![SpecNode::Decl { prop: p, value: v }] + decl_nodes(ds.drop_first())
            =~= decl_nodes(ds));
    }
}

/// For any input consisting only of well-formed declarations, parsing and
/// then reading the declarations back in order reproduces exactly the
/// same `(property, value)` pairs: the text that renders the pairs parses
/// to precisely the corresponding declaration nodes, in the same order.
pub proof fn lemma_decls_round_trip(ds: Seq<(Seq<char>, Seq<char>)>)
    requires
        wf_plain_decls(ds),
    ensures
        sp_parse_block(render_decls(ds), 0, Option::None) == (PRes::POk {
            nodes: decl_nodes(ds),
            next: render_decls(ds).len() as int,
        }),
{
    let s = render_decls(ds);
    assert(s.skip(0) =~= s);
    lemma_decls_at(s, ds, 0);
}


/// A close-comment search over star-free text runs to the first `*/`.
proof fn lemma_find_close_starfree(s: Seq<char>, i: int, e: int)
    requires
        0 <= i <= e,
        e + 1 < s.len(),
        forall|k: int| i <= k < e ==> s[k] != '*',
        s[e] == '*',
        s[e + 1] == '/',
    ensures
        find_close(s, i) == e + 2,
    decreases e - i,
{
    if i == e {
    } else {
        assert(s[i] != '*');
        lemma_find_close_starfree(s, i + 1, e);
    }
}

/// A close-comment pair after star-free text is found by the search.
proof fn lemma_has_close_starfree(s: Seq<char>, i: int, e: int)
    requires
        0 <= i <= e,
        e + 1 < s.len(),
        forall|k: int| i <= k < e ==> s[k] != '*',
        s[e] == '*',
        s[e + 1] == '/',
    ensures
        has_close(s, i),
    decreases e - i,
{
    if i == e {
    } else {
        lemma_has_close_starfree(s, i + 1, e);
    }
}

/// Skipping over a space, a star-free block comment and another space
/// lands on the first following character.
proof fn lemma_skip_wc_gap(s: Seq<char>, g: int, clen: int)
    requires
        0 <= g,
        0 <= clen,
        g + clen + 6 < s.len(),
        s[g] == ' ',
        s[g + 1] == '/',
        s[g + 2] == '*',
        forall|k: int| g + 3 <= k < g + 3 + clen ==> s[k] != '*',
        s[g + 3 + clen] == '*',
        s[g + 4 + clen] == '/',
        s[g + 5 + clen] == ' ',
        !is_ws_char(s[g + 6 + clen]),
        s[g + 6 + clen] != '/',
    ensures
        skip_wc(s, g) == g + clen + 6,
        !wc_open(s, g),
{
    assert(skip_ws_from(s, g + 1) == g + 1);
    assert(skip_ws_from(s, g) == g + 1);
    lemma_find_close_starfree(s, g + 3, g + 3 + clen);
    lemma_has_close_starfree(s, g + 3, g + 3 + clen);
    assert(find_close(s, g + 3) == g + clen + 5);
    assert(skip_ws_from(s, g + clen + 6) == g + clen + 6);
    assert(skip_ws_from(s, g + clen + 5) == g + clen + 6);
    assert(skip_wc(s, g + clen + 5) == g + clen + 6);
    assert(skip_wc(s, g) == skip_wc(s, find_close(s, g + 3)));
    assert(!wc_open(s, g + clen + 5));
    assert(wc_open(s, g) == wc_open(s, find_close(s, g + 3)));
}

/// Comment stripping is transparent to statement boundaries: two
/// well-formed declarations with any star-free block comment embedded
/// between them parse to exactly the two declaration nodes, whatever the
/// comment says.
pub proof fn lemma_comment_transparent(
    p1: Seq<char>,
    v1: Seq<char>,
    p2: Seq<char>,
    v2: Seq<char>,
    c: Seq<char>,
)
    requires
        wf_plain_decl(p1, v1),
        wf_plain_decl(p2, v2),
        forall|k: int| 0 <= k < c.len() ==> c[k] != '*',
    ensures
        ({
            let pre1 = p1 + seq![':'] + v1 + seq![';'];
            let gap = seq![' ', '/', '*'] + c + seq!['*', '/', ' '];
            let pre2 = p2 + seq![':'] + v2 + seq![';'];
            let s = pre1 + gap + pre2;
            sp_parse_block(s, 0, Option::None) == (PRes::POk {
                nodes: seq![
                    SpecNode::Decl { prop: p1, value: v1 },
                    SpecNode::Decl { prop: p2, value: v2 },
                ],
                next: s.len() as int,
            })
        }),
{
    let pre1 = p1 + seq![':'] + v1 + seq![';'];
    let gap = seq![' ', '/', '*'] + c + seq!['*', '/', ' '];
    let pre2 = p2 + seq![':'] + v2 + seq![';'];
    let s = pre1 + gap + pre2;
    let e1 = p1.len() as int + 1 + v1.len() as int;
    let g = e1 + 1;
    let cl = c.len() as int;
    let j2 = g + cl + 6;
    let e2 = j2 + p2.len() as int + 1 + v2.len() as int;
    assert(s.len() == pre1.len() + gap.len() + pre2.len());
    assert(e2 + 1 == s.len());
    // the first statement
    assert(s.subrange(0, e1) =~= p1 + seq![':'] + v1);
    assert(s[e1] == pre1[e1]);
    assert(s[e1] == ';');
    assert(s[0] == p1[0]);
    assert(!is_ws_char(s[0]) && s[0] != '/');
    assert(skip_ws_from(s, 0) == 0);
    assert(skip_wc(s, 0) == 0);
    assert(!wc_open(s, 0));
    lemma_decl_stmt(s, 0, 0, p1, v1);
    // the comment gap
    assert forall|k: int| 0 <= k < gap.len() implies s[g + k] == gap[k] by {
        assert(s[g + k] == (pre1 + gap)[g + k]);
    }
    assert(s[g] == ' ');
    assert(s[g + 1] == '/');
    assert(s[g + 2] == '*');
    assert forall|k: int| g + 3 <= k < g + 3 + cl implies s[k] != '*' by {
        assert(s[k] == gap[k - g]);
        assert(gap[k - g] == c[k - g - 3]);
    }
    assert(s[g + 3 + cl] == gap[3 + cl]);
    assert(s[g + 3 + cl] == '*');
    assert(s[g + 4 + cl] == gap[4 + cl]);
    assert(s[g + 4 + cl] == '/');
    assert(s[g + 5 + cl] == gap[5 + cl]);
    assert(s[g + 5 + cl] == ' ');
    assert forall|k: int| 0 <= k < pre2.len() implies s[j2 + k] == pre2[k] by {}
    assert(s[j2] == pre2[0]);
    assert(s[j2] == p2[0]);
    assert(!is_ws_char(s[j2]) && s[j2] != '/');
    lemma_skip_wc_gap(s, g, cl);
    assert(skip_wc(s, g) == j2);
    assert(!wc_open(s, g));
    // the second statement
    assert(s.subrange(j2, e2) =~= p2 + seq![':'] + v2) by {
        assert forall|k: int| 0 <= k < p2.len() + 1 + v2.len() implies s.subrange(j2, e2)[k] == (p2
            + seq![':'] + v2)[k] by {
            assert(s.subrange(j2, e2)[k] == s[j2 + k]);
            assert(s[j2 + k] == pre2[k]);
        }
    }
    assert(s[e2] == pre2[p2.len() as int + 1 + v2.len() as int]);
    assert(s[e2] == ';');
    lemma_decl_stmt(s, g, j2, p2, v2);
    // the tail is empty
    assert(skip_ws_from(s, s.len() as int) == s.len());
    assert(skip_wc(s, s.len() as int) == s.len());
    assert(!wc_open(s, s.len() as int));
    assert(sp_parse_block(s, s.len() as int, Option::None) == (PRes::POk {
        nodes: Seq::<SpecNode>::empty(),
        next: s.len() as int,
    }));
    // combine
    assert(sp_parse_block(s, g, Option::None) == (PRes::POk {
        nodes: seq![SpecNode::Decl { prop: p2, value: v2 }] + Seq::<SpecNode>::empty(),
        next: s.len() as int,
    }));
    assert(seq![SpecNode::Decl { prop: p1, value: v1 }] + (seq![
        SpecNode::Decl { prop: p2, value: v2 },
    ] + Seq::<SpecNode>::empty()) =~= seq![
        SpecNode::Decl { prop: p1, value: v1 },
        SpecNode::Decl { prop: p2, value: v2 },
    ]);
}

} // verus!

//! The whitespace/comment-reducing minifiers for JavaScript, CSS and
//! HTML.  Each is a pipeline of small character-level passes; every pass
//! is specified on its own and the pipeline's contract is their
//! composition.

use vstd::prelude::*;

use crate::text::{
    chars_start_with, from_chars, is_ws_char, lemma_skip_ws_from_bounds, skip_ws_from, spec_trim,
    starts_with_at, sub_chars, to_chars, trim_chars, ws_char,
};

verus! {

/// The first index at or after `i` where `pat` occurs in `s`, or the end.
pub open spec fn find_sub(s: Seq<char>, i: int, pat: Seq<char>) -> int
    decreases s.len() - i when 0 <= i <= s.len()
{
    if i >= s.len() {
        i
    } else if starts_with_at(s, i, pat) {
        i
    } else {
        find_sub(s, i + 1, pat)
    }
}

pub proof fn lemma_find_sub_bounds(s: Seq<char>, i: int, pat: Seq<char>)
    requires
        0 <= i <= s.len(),
    ensures
        i <= find_sub(s, i, pat) <= s.len(),
    decreases s.len() - i,
{
    if i < s.len() && !starts_with_at(s, i, pat) {
        lemma_find_sub_bounds(s, i + 1, pat);
    }
}

/// A found occurrence really is one: the pattern fits there.
pub proof fn lemma_find_sub_found(s: Seq<char>, i: int, pat: Seq<char>)
    requires
        0 <= i <= s.len(),
    ensures
        find_sub(s, i, pat) < s.len() ==> starts_with_at(s, find_sub(s, i, pat), pat),
    decreases s.len() - i,
{
    if i < s.len() && !starts_with_at(s, i, pat) {
        lemma_find_sub_found(s, i + 1, pat);
    }
}

/// Finds the first occurrence of `pat` at or after `i`, as [`find_sub`]
/// states.
pub(crate) fn find_sub_from(cs: &Vec<char>, i: usize, pat: &str) -> (r: usize)
    requires
        i <= cs@.len(),
    ensures
        r as int == find_sub(cs@, i as int, pat@),
        i <= r <= cs@.len(),
{
    proof {
        lemma_find_sub_bounds(cs@, i as int, pat@);
    }
    find_sub_chars(cs, i, pat)
}

/// Finds the first occurrence of `pat` at or after `i`, as [`find_sub`]
/// states.
fn find_sub_chars(cs: &Vec<char>, i: usize, pat: &str) -> (r: usize)
    requires
        i <= cs@.len(),
    ensures
        r as int == find_sub(cs@, i as int, pat@),
{
    let ghost s = cs@;
    let n: usize = cs.len();
    proof {
        lemma_find_sub_bounds(s, i as int, pat@);
    }
    let mut j: usize = i;
    while j < n && !chars_start_with(cs, j, pat)
        invariant
            i <= j <= n,
            n == s.len(),
            cs@ == s,
            find_sub(s, i as int, pat@) == find_sub(s, j as int, pat@),
        decreases n - j,
    {
        j += 1;
    }
    j
}

/// One round of block-comment removal for the rescanning stripper: the
/// text with the first `/* ... */` span removed, or the text itself when
/// no complete span remains.
pub open spec fn sp_strip_block(s: Seq<char>) -> Seq<char>
    decreases s.len(),
{
    let a = find_sub(s, 0, "/*"@);
    proof {
        lemma_find_sub_bounds(s, 0, "/*"@);
    }
    if a >= s.len() {
        s
    } else {
        let b = find_sub(s, a, "*/"@);
        proof {
            lemma_find_sub_bounds(s, a, "*/"@);
        }
        if b + 2 > s.len() {
            s
        } else {
            sp_strip_block(s.take(a) + s.skip(b + 2))
        }
    }
}

/// Removes `/* ... */` spans, rescanning from the start after each
/// removal, as [`sp_strip_block`] states.
fn strip_block_chars(cs: Vec<char>) -> (r: Vec<char>)
    ensures
        r@ == sp_strip_block(cs@),
{
    let ghost g0 = cs@;
    let mut cs = cs;
    loop
        invariant
            sp_strip_block(g0) == sp_strip_block(cs@),
        ensures
            sp_strip_block(g0) == cs@,
        decreases cs@.len(),
    {
        let n: usize = cs.len();
        let a = find_sub_chars(&cs, 0, "/*");
        if a >= n {
            proof {
                assert(sp_strip_block(cs@) == cs@);
            }
            break;
        }
        let b = find_sub_chars(&cs, a, "*/");
        proof {
            lemma_find_sub_bounds(cs@, a as int, "*/"@);
        }
        if n - b < 2 {
            proof {
                assert(sp_strip_block(cs@) == cs@);
            }
            break;
        }
        let mut next = sub_chars(&cs, 0, a);
        let mut tail = sub_chars(&cs, b + 2, n);
        let ghost headv = next@;
        let ghost tailv = tail@;
        next.append(&mut tail);
        proof {
            assert(next@ =~= cs@.take(a as int) + cs@.skip(b + 2));
            assert(next@.len() < cs@.len());
        }
        cs = next;
    }
    cs
}

/// A line with everything from its first `//` on removed, and a trailing
/// carriage return dropped first (as line splitting does).
pub open spec fn sp_strip_line(line: Seq<char>) -> Seq<char> {
    let l = if line.len() > 0 && line.last() == '\r' {
        line.drop_last()
    } else {
        line
    };
    let f = find_sub(l, 0, "//"@);
    l.take(f)
}

/// The text split into lines, each stripped of its `//` comment, joined
/// back with newlines (a trailing newline is not restored).
pub open spec fn sp_strip_lines(s: Seq<char>) -> Seq<char>
    decreases s.len(),
{
    if s.len() == 0 {
        Seq::empty()
    } else {
        let e = find_char_nl(s, 0);
        proof {
            lemma_find_char_nl_bounds(s, 0);
        }
        if e >= s.len() {
            sp_strip_line(s)
        } else if e + 1 == s.len() {
            sp_strip_line(s.take(e))
        } else {
            sp_strip_line(s.take(e)) + seq!['\n'] + sp_strip_lines(s.skip(e + 1))
        }
    }
}

/// The first index at or after `i` holding a newline, or the end.
pub open spec fn find_char_nl(s: Seq<char>, i: int) -> int
    decreases s.len() - i when 0 <= i <= s.len()
{
    if i >= s.len() {
        i
    } else if s[i] == '\n' {
        i
    } else {
        find_char_nl(s, i + 1)
    }
}

pub proof fn lemma_find_char_nl_bounds(s: Seq<char>, i: int)
    requires
        0 <= i <= s.len(),
    ensures
        i <= find_char_nl(s, i) <= s.len(),
    decreases s.len() - i,
{
    if i < s.len() && s[i] != '\n' {
        lemma_find_char_nl_bounds(s, i + 1);
    }
}

/// Strips one line, as [`sp_strip_line`] states.
fn strip_line_chars(line: Vec<char>) -> (r: Vec<char>)
    ensures
        r@ == sp_strip_line(line@),
{
    let mut l = line;
    if l.len() > 0 && l[l.len() - 1] == '\r' {
        let keep: usize = l.len() - 1;
        let l2 = sub_chars(&l, 0, keep);
        proof {
            assert(l2@ =~= l@.drop_last());
        }
        l = l2;
    }
    let f = find_sub_chars(&l, 0, "//");
    proof {
        lemma_find_sub_bounds(l@, 0, "//"@);
    }
    sub_chars(&l, 0, f)
}

/// Strips every line, as [`sp_strip_lines`] states.
fn strip_lines_chars(cs: &Vec<char>, i: usize) -> (r: Vec<char>)
    requires
        i <= cs@.len(),
    ensures
        r@ == sp_strip_lines(cs@.skip(i as int)),
    decreases cs@.len() - i,
{
    let ghost rem = cs@.skip(i as int);
    let n: usize = cs.len();
    if i >= n {
        let r: Vec<char> = Vec::new();
        proof {
            assert(rem =~= Seq::<char>::empty());
        }
        return r;
    }
    let mut e: usize = i;
    proof {
        lemma_find_char_nl_bounds(rem, 0);
    }
    while e < n && cs[e] != '\n'
        invariant
            i <= e <= n,
            n == cs@.len(),
            rem == cs@.skip(i as int),
            find_char_nl(rem, 0) == find_char_nl(rem, e - i),
        decreases n - e,
    {
        e += 1;
        proof {
            assert(rem[e - 1 - i] == cs@[e - 1]);
        }
    }
    proof {
        if e < n {
            assert(rem[e - i] == cs@[e as int]);
        }
        assert((e - i) as int == find_char_nl(rem, 0));
    }
    if e >= n {
        let line = sub_chars(cs, i, n);
        proof {
            assert(line@ =~= rem);
        }
        strip_line_chars(line)
    } else if e + 1 == n {
        let line = sub_chars(cs, i, e);
        proof {
            assert(line@ =~= rem.take(e - i));
        }
        strip_line_chars(line)
    } else {
        let line = sub_chars(cs, i, e);
        proof {
            assert(line@ =~= rem.take(e - i));
        }
        let mut r = strip_line_chars(line);
        r.push('\n');
        let mut rest = strip_lines_chars(cs, e + 1);
        let ghost rv = r@;
        let ghost restv = rest@;
        r.append(&mut rest);
        proof {
            assert(cs@.skip(e + 1) =~= rem.skip(e - i + 1));
            assert(r@ =~= sp_strip_line(rem.take(e - i)) + seq!['\n'] + sp_strip_lines(
                rem.skip(e - i + 1)));
        }
        r
    }
}

/// Every maximal run of whitespace replaced by a single space.
pub open spec fn sp_collapse_ws(s: Seq<char>, i: int) -> Seq<char>
    decreases s.len() - i when 0 <= i <= s.len()
{
    if i >= s.len() {
        Seq::empty()
    } else if is_ws_char(s[i]) {
        proof {
            lemma_skip_ws_from_bounds(s, i + 1);
        }
        seq![' '] + sp_collapse_ws(s, skip_ws_from(s, i))
    } else {
        seq![s[i]] + sp_collapse_ws(s, i + 1)
    }
}

/// Collapses whitespace runs, as [`sp_collapse_ws`] states.
fn collapse_ws_chars(cs: &Vec<char>) -> (r: Vec<char>)
    ensures
        r@ == sp_collapse_ws(cs@, 0),
{
    let ghost s = cs@;
    let n: usize = cs.len();
    let mut out: Vec<char> = Vec::new();
    let mut i: usize = 0;
    proof {
        assert(Seq::<char>::empty() + sp_collapse_ws(s, 0) =~= sp_collapse_ws(s, 0));
    }
    while i < n
        invariant
            i <= n,
            n == s.len(),
            cs@ == s,
            sp_collapse_ws(s, 0) == out@ + sp_collapse_ws(s, i as int),
        decreases n - i,
    {
        let ghost ic = i as int;
        if ws_char(cs[i]) {
            out.push(' ');
            proof {
                lemma_skip_ws_from_bounds(s, ic);
            }
            while i < n && ws_char(cs[i])
                invariant
                    ic <= i <= n,
                    n == s.len(),
                    cs@ == s,
                    skip_ws_from(s, ic) == skip_ws_from(s, i as int),
                decreases n - i,
            {
                i += 1;
            }
            proof {
                assert(i as int == skip_ws_from(s, ic));
                assert(sp_collapse_ws(s, 0) == out@ + sp_collapse_ws(s, i as int));
            }
        } else {
            out.push(cs[i]);
            i += 1;
            proof {
                assert(sp_collapse_ws(s, 0) == out@ + sp_collapse_ws(s, i as int));
            }
        }
    }
    proof {
        assert(sp_collapse_ws(s, i as int) == Seq::<char>::empty());
        assert(out@ + Seq::<char>::empty() =~= out@);
    }
    out
}

/// Whitespace around any character of `ops` removed: a whitespace run
/// followed by such a character, itself possibly followed by another run,
/// becomes just the character.
pub open spec fn sp_strip_around(s: Seq<char>, i: int, ops: Seq<char>) -> Seq<char>
    decreases s.len() - i when 0 <= i <= s.len()
{
    if i >= s.len() {
        Seq::empty()
    } else {
        proof {
            lemma_skip_ws_from_bounds(s, i);
        }
        let q = skip_ws_from(s, i);
        if q < s.len() && ops.contains(s[q]) {
            proof {
                lemma_skip_ws_from_bounds(s, q + 1);
            }
            seq![s[q]] + sp_strip_around(s, skip_ws_from(s, q + 1), ops)
        } else {
            seq![s[i]] + sp_strip_around(s, i + 1, ops)
        }
    }
}

/// Strips whitespace around the given characters, as [`sp_strip_around`]
/// states.
fn strip_around_chars(cs: &Vec<char>, ops: &Vec<char>) -> (r: Vec<char>)
    ensures
        r@ == sp_strip_around(cs@, 0, ops@),
{
    let ghost s = cs@;
    let ghost opv = ops@;
    let n: usize = cs.len();
    let mut out: Vec<char> = Vec::new();
    let mut i: usize = 0;
    proof {
        assert(Seq::<char>::empty() + sp_strip_around(s, 0, opv) =~= sp_strip_around(s, 0, opv));
    }
    while i < n
        invariant
            i <= n,
            n == s.len(),
            cs@ == s,
            opv == ops@,
            sp_strip_around(s, 0, opv) == out@ + sp_strip_around(s, i as int, opv),
        decreases n - i,
    {
        let ghost ic = i as int;
        proof {
            lemma_skip_ws_from_bounds(s, ic);
        }
        let mut q: usize = i;
        while q < n && ws_char(cs[q])
            invariant
                ic <= q <= n,
                n == s.len(),
                cs@ == s,
                skip_ws_from(s, ic) == skip_ws_from(s, q as int),
            decreases n - q,
        {
            q += 1;
        }
        assert(q as int == skip_ws_from(s, ic));
        if q < n && crate::parser::char_in(ops, cs[q]) {
            out.push(cs[q]);
            proof {
                lemma_skip_ws_from_bounds(s, q + 1);
            }
            let mut r2: usize = q + 1;
            while r2 < n && ws_char(cs[r2])
                invariant
                    q + 1 <= r2 <= n,
                    n == s.len(),
                    cs@ == s,
                    skip_ws_from(s, q + 1) == skip_ws_from(s, r2 as int),
                decreases n - r2,
            {
                r2 += 1;
            }
            assert(r2 as int == skip_ws_from(s, q + 1));
            i = r2;
            proof {
                assert(sp_strip_around(s, 0, opv) == out@ + sp_strip_around(s, i as int, opv));
            }
        } else {
            out.push(cs[i]);
            i += 1;
            proof {
                assert(sp_strip_around(s, 0, opv) == out@ + sp_strip_around(s, i as int, opv));
            }
        }
    }
    proof {
        assert(sp_strip_around(s, i as int, opv) == Seq::<char>::empty());
        assert(out@ + Seq::<char>::empty() =~= out@);
    }
    out
}

/// A whitespace run directly before an opening parenthesis removed.
pub open spec fn sp_strip_before_paren(s: Seq<char>, i: int) -> Seq<char>
    decreases s.len() - i when 0 <= i <= s.len()
{
    if i >= s.len() {
        Seq::empty()
    } else if is_ws_char(s[i]) {
        proof {
            lemma_skip_ws_from_bounds(s, i);
        }
        let q = skip_ws_from(s, i);
        if q < s.len() && s[q] == '(' {
            seq!['('] + sp_strip_before_paren(s, q + 1)
        } else {
            seq![s[i]] + sp_strip_before_paren(s, i + 1)
        }
    } else {
        seq![s[i]] + sp_strip_before_paren(s, i + 1)
    }
}

/// Strips whitespace before `(`, as [`sp_strip_before_paren`] states.
fn strip_before_paren_chars(cs: &Vec<char>) -> (r: Vec<char>)
    ensures
        r@ == sp_strip_before_paren(cs@, 0),
{
    let ghost s = cs@;
    let n: usize = cs.len();
    let mut out: Vec<char> = Vec::new();
    let mut i: usize = 0;
    proof {
        assert(Seq::<char>::empty() + sp_strip_before_paren(s, 0) =~= sp_strip_before_paren(s, 0));
    }
    while i < n
        invariant
            i <= n,
            n == s.len(),
            cs@ == s,
            sp_strip_before_paren(s, 0) == out@ + sp_strip_before_paren(s, i as int),
        decreases n - i,
    {
        let ghost ic = i as int;
        if ws_char(cs[i]) {
            proof {
                lemma_skip_ws_from_bounds(s, ic);
            }
            let mut q: usize = i;
            while q < n && ws_char(cs[q])
                invariant
                    ic <= q <= n,
                    n == s.len(),
                    cs@ == s,
                    skip_ws_from(s, ic) == skip_ws_from(s, q as int),
                decreases n - q,
            {
                q += 1;
            }
            assert(q as int == skip_ws_from(s, ic));
            if q < n && cs[q] == '(' {
                out.push('(');
                i = q + 1;
            } else {
                out.push(cs[i]);
                i += 1;
            }
            proof {
                assert(sp_strip_before_paren(s, 0) == out@ + sp_strip_before_paren(s, i as int));
            }
        } else {
            out.push(cs[i]);
            i += 1;
            proof {
                assert(sp_strip_before_paren(s, 0) == out@ + sp_strip_before_paren(s, i as int));
            }
        }
    }
    proof {
        assert(sp_strip_before_paren(s, i as int) == Seq::<char>::empty());
        assert(out@ + Seq::<char>::empty() =~= out@);
    }
    out
}

/// The minified form of JavaScript text: block comments removed with
/// rescanning, line comments removed per line, whitespace collapsed,
/// whitespace around punctuation removed, whitespace before `(` removed,
/// and the ends trimmed.
pub open spec fn sp_minify_js(s: Seq<char>) -> Seq<char> {
    let ops = seq!['{', '}', ';', ',', '=', '+', '-', '*', '/', ':'];
    spec_trim(
        sp_strip_before_paren(
            sp_strip_around(sp_collapse_ws(sp_strip_lines(sp_strip_block(s)), 0), 0, ops),
            0,
        ),
    )
}

/// Comment spans between `op` and `cl` with no newline inside removed, a
/// single left-to-right scan (a span containing a newline, or left
/// unclosed, stays).
pub open spec fn sp_strip_inline(s: Seq<char>, i: int, op: Seq<char>, cl: Seq<char>) -> Seq<char>
    decreases s.len() - i when 0 <= i <= s.len() && op.len() >= 1 && cl.len() >= 1
{
    if i >= s.len() {
        Seq::empty()
    } else {
        proof {
            lemma_find_sub_bounds(s, i, op);
        }
        let p = find_sub(s, i, op);
        if p >= s.len() {
            s.subrange(i, s.len() as int)
        } else {
            proof {
                lemma_find_sub_found(s, i, op);
                lemma_find_sub_bounds(s, p + op.len(), cl);
                lemma_find_char_nl_bounds(s, p + op.len());
                lemma_find_sub_found(s, p + op.len(), cl);
            }
            let b = find_sub(s, p + op.len(), cl);
            let nl = find_char_nl(s, p + op.len());
            if b + cl.len() <= s.len() && nl >= b {
                s.subrange(i, p) + sp_strip_inline(s, b + cl.len(), op, cl)
            } else {
                s.subrange(i, p + 1) + sp_strip_inline(s, p + 1, op, cl)
            }
        }
    }
}

/// Strips single-line comment spans, as [`sp_strip_inline`] states.
fn strip_inline_chars(cs: &Vec<char>, op: &str, cl: &str) -> (r: Vec<char>)
    requires
        op@.len() >= 1,
        cl@.len() >= 1,
    ensures
        r@ == sp_strip_inline(cs@, 0, op@, cl@),
{
    let ghost s = cs@;
    let n: usize = cs.len();
    let opn: usize = op.unicode_len();
    let cln: usize = cl.unicode_len();
    let mut out: Vec<char> = Vec::new();
    let mut i: usize = 0;
    proof {
        assert(Seq::<char>::empty() + sp_strip_inline(s, 0, op@, cl@) =~= sp_strip_inline(
            s,
            0,
            op@,
            cl@,
        ));
    }
    while i < n
        invariant
            i <= n,
            n == s.len(),
            cs@ == s,
            opn == op@.len() >= 1,
            cln == cl@.len() >= 1,
            sp_strip_inline(s, 0, op@, cl@) == out@ + sp_strip_inline(s, i as int, op@, cl@),
        decreases n - i,
    {
        let ghost ic = i as int;
        let p = find_sub_chars(cs, i, op);
        proof {
            lemma_find_sub_bounds(s, ic, op@);
        }
        if p >= n {
            let mut rest = sub_chars(cs, i, n);
            let ghost outv = out@;
            out.append(&mut rest);
            i = n;
            proof {
                assert(sp_strip_inline(s, 0, op@, cl@) == out@ + sp_strip_inline(
                    s,
                    i as int,
                    op@,
                    cl@,
                ));
                assert(out@ + Seq::<char>::empty() =~= out@);
            }
        } else {
            proof {
                lemma_find_sub_found(s, ic, op@);
            }
            let b = find_sub_chars(cs, p + opn, cl);
            proof {
                lemma_find_sub_bounds(s, p + opn, cl@);
                lemma_find_char_nl_bounds(s, p + opn);
                lemma_find_sub_found(s, p + opn, cl@);
            }
            let mut nl: usize = p + opn;
            while nl < n && cs[nl] != '\n'
                invariant
                    p + opn <= nl <= n,
                    n == s.len(),
                    cs@ == s,
                    find_char_nl(s, p + opn) == find_char_nl(s, nl as int),
                decreases n - nl,
            {
                nl += 1;
            }
            assert(nl as int == find_char_nl(s, p + opn));
            if n - b >= cln && nl >= b {
                let mut keep = sub_chars(cs, i, p);
                out.append(&mut keep);
                i = b + cln;
            } else {
                let mut keep = sub_chars(cs, i, p + 1);
                out.append(&mut keep);
                i = p + 1;
            }
            proof {
                assert(sp_strip_inline(s, 0, op@, cl@) == out@ + sp_strip_inline(
                    s,
                    i as int,
                    op@,
                    cl@,
                ));
            }
        }
    }
    proof {
        assert(sp_strip_inline(s, i as int, op@, cl@) == Seq::<char>::empty());
        assert(out@ + Seq::<char>::empty() =~= out@);
    }
    out
}

/// The position just after the last newline of `s` (0 if there is none).
pub open spec fn after_last_nl(s: Seq<char>) -> int
    decreases s.len(),
{
    if s.len() == 0 {
        0
    } else if s.last() == '\n' {
        s.len() as int
    } else {
        after_last_nl(s.drop_last())
    }
}

pub proof fn lemma_after_last_nl_bounds(s: Seq<char>)
    ensures
        0 <= after_last_nl(s) <= s.len(),
    decreases s.len(),
{
    if s.len() > 0 && s.last() != '\n' {
        lemma_after_last_nl_bounds(s.drop_last());
    }
}

/// Everything from a `//` in the final line to the end of text removed
/// (a `//` on an earlier line stays).
pub open spec fn sp_strip_tail_comment(s: Seq<char>) -> Seq<char> {
    let p = find_sub(s, after_last_nl(s), "//"@);
    if p >= s.len() {
        s
    } else {
        s.take(p)
    }
}

/// Strips the final line's `//` comment, as [`sp_strip_tail_comment`]
/// states.
fn strip_tail_comment_chars(cs: &Vec<char>) -> (r: Vec<char>)
    ensures
        r@ == sp_strip_tail_comment(cs@),
{
    let ghost s = cs@;
    let n: usize = cs.len();
    proof {
        lemma_after_last_nl_bounds(s);
        assert(s.take(n as int) =~= s);
    }
    let mut k: usize = n;
    while k > 0 && cs[k - 1] != '\n'
        invariant
            k <= n,
            n == s.len(),
            cs@ == s,
            after_last_nl(s) == after_last_nl(s.take(k as int)),
            after_last_nl(s.take(k as int)) <= k,
        decreases k,
    {
        k -= 1;
        proof {
            assert(s.take(k + 1).drop_last() =~= s.take(k as int));
            lemma_after_last_nl_bounds(s.take(k as int));
        }
    }
    proof {
        if k > 0 {
            assert(s.take(k as int).last() == s[k - 1]);
        } else {
            assert(s.take(0) =~= Seq::<char>::empty());
        }
        assert(after_last_nl(s) == k as int);
    }
    let p = find_sub_chars(cs, k, "//");
    proof {
        lemma_find_sub_bounds(s, k as int, "//"@);
    }
    if p >= n {
        sub_chars(cs, 0, n)
    } else {
        sub_chars(cs, 0, p)
    }
}

/// Every `;}` replaced by `}`, left to right.
pub open spec fn sp_semi_brace(s: Seq<char>, i: int) -> Seq<char>
    decreases s.len() - i when 0 <= i <= s.len()
{
    if i >= s.len() {
        Seq::empty()
    } else if starts_with_at(s, i, ";}"@) {
        proof {
            reveal_strlit(";}");
        }
        seq!['}'] + sp_semi_brace(s, i + 2)
    } else {
        seq![s[i]] + sp_semi_brace(s, i + 1)
    }
}

/// Replaces `;}` by `}`, as [`sp_semi_brace`] states.
fn semi_brace_chars(cs: &Vec<char>) -> (r: Vec<char>)
    ensures
        r@ == sp_semi_brace(cs@, 0),
{
    let ghost s = cs@;
    let n: usize = cs.len();
    let mut out: Vec<char> = Vec::new();
    let mut i: usize = 0;
    proof {
        reveal_strlit(";}");
        assert(";}"@ =~= seq![';', '}']);
        assert(Seq::<char>::empty() + sp_semi_brace(s, 0) =~= sp_semi_brace(s, 0));
    }
    while i < n
        invariant
            i <= n,
            n == s.len(),
            cs@ == s,
            sp_semi_brace(s, 0) == out@ + sp_semi_brace(s, i as int),
        decreases n - i,
    {
        proof {
            reveal_strlit(";}");
            assert(";}"@ =~= seq![';', '}']);
        }
        if chars_start_with(cs, i, ";}") {
            out.push('}');
            i += 2;
        } else {
            out.push(cs[i]);
            i += 1;
        }
        proof {
            assert(sp_semi_brace(s, 0) == out@ + sp_semi_brace(s, i as int));
        }
    }
    proof {
        assert(sp_semi_brace(s, i as int) == Seq::<char>::empty());
        assert(out@ + Seq::<char>::empty() =~= out@);
    }
    out
}

/// A whitespace run between `>` and `<` removed.
pub open spec fn sp_tag_gap(s: Seq<char>, i: int) -> Seq<char>
    decreases s.len() - i when 0 <= i <= s.len()
{
    if i >= s.len() {
        Seq::empty()
    } else if s[i] == '>' {
        proof {
            lemma_skip_ws_from_bounds(s, i + 1);
        }
        let q = skip_ws_from(s, i + 1);
        if q > i + 1 && q < s.len() && s[q] == '<' {
            seq!['>', '<'] + sp_tag_gap(s, q + 1)
        } else {
            seq!['>'] + sp_tag_gap(s, i + 1)
        }
    } else {
        seq![s[i]] + sp_tag_gap(s, i + 1)
    }
}

/// Removes whitespace between tags, as [`sp_tag_gap`] states.
fn tag_gap_chars(cs: &Vec<char>) -> (r: Vec<char>)
    ensures
        r@ == sp_tag_gap(cs@, 0),
{
    let ghost s = cs@;
    let n: usize = cs.len();
    let mut out: Vec<char> = Vec::new();
    let mut i: usize = 0;
    proof {
        assert(Seq::<char>::empty() + sp_tag_gap(s, 0) =~= sp_tag_gap(s, 0));
    }
    while i < n
        invariant
            i <= n,
            n == s.len(),
            cs@ == s,
            sp_tag_gap(s, 0) == out@ + sp_tag_gap(s, i as int),
        decreases n - i,
    {
        let ghost ic = i as int;
        if cs[i] == '>' {
            proof {
                lemma_skip_ws_from_bounds(s, ic + 1);
            }
            let mut q: usize = i + 1;
            while q < n && ws_char(cs[q])
                invariant
                    ic + 1 <= q <= n,
                    n == s.len(),
                    cs@ == s,
                    skip_ws_from(s, ic + 1) == skip_ws_from(s, q as int),
                decreases n - q,
            {
                q += 1;
            }
            assert(q as int == skip_ws_from(s, ic + 1));
            if q > i + 1 && q < n && cs[q] == '<' {
                out.push('>');
                out.push('<');
                i = q + 1;
            } else {
                out.push('>');
                i += 1;
            }
        } else {
            out.push(cs[i]);
            i += 1;
        }
        proof {
            assert(sp_tag_gap(s, 0) == out@ + sp_tag_gap(s, i as int));
        }
    }
    proof {
        assert(sp_tag_gap(s, i as int) == Seq::<char>::empty());
        assert(out@ + Seq::<char>::empty() =~= out@);
    }
    out
}

/// Every whitespace run of two or more characters replaced by a single
/// space; a lone whitespace character stays as it is.
pub open spec fn sp_collapse_long_ws(s: Seq<char>, i: int) -> Seq<char>
    decreases s.len() - i when 0 <= i <= s.len()
{
    if i >= s.len() {
        Seq::empty()
    } else if is_ws_char(s[i]) {
        proof {
            lemma_skip_ws_from_bounds(s, i + 1);
        }
        let q = skip_ws_from(s, i);
        if q - i >= 2 {
            seq![' '] + sp_collapse_long_ws(s, q)
        } else {
            seq![s[i]] + sp_collapse_long_ws(s, i + 1)
        }
    } else {
        seq![s[i]] + sp_collapse_long_ws(s, i + 1)
    }
}

/// Collapses long whitespace runs, as [`sp_collapse_long_ws`] states.
fn collapse_long_ws_chars(cs: &Vec<char>) -> (r: Vec<char>)
    ensures
        r@ == sp_collapse_long_ws(cs@, 0),
{
    let ghost s = cs@;
    let n: usize = cs.len();
    let mut out: Vec<char> = Vec::new();
    let mut i: usize = 0;
    proof {
        assert(Seq::<char>::empty() + sp_collapse_long_ws(s, 0) =~= sp_collapse_long_ws(s, 0));
    }
    while i < n
        invariant
            i <= n,
            n == s.len(),
            cs@ == s,
            sp_collapse_long_ws(s, 0) == out@ + sp_collapse_long_ws(s, i as int),
        decreases n - i,
    {
        let ghost ic = i as int;
        if ws_char(cs[i]) {
            proof {
                lemma_skip_ws_from_bounds(s, ic);
                lemma_skip_ws_from_bounds(s, ic + 1);
            }
            let mut q: usize = i;
            while q < n && ws_char(cs[q])
                invariant
                    ic <= q <= n,
                    n == s.len(),
                    cs@ == s,
                    skip_ws_from(s, ic) == skip_ws_from(s, q as int),
                decreases n - q,
            {
                q += 1;
            }
            assert(q as int == skip_ws_from(s, ic));
            if q - i >= 2 {
                out.push(' ');
                i = q;
            } else {
                out.push(cs[i]);
                i += 1;
            }
        } else {
            out.push(cs[i]);
            i += 1;
        }
        proof {
            assert(sp_collapse_long_ws(s, 0) == out@ + sp_collapse_long_ws(s, i as int));
        }
    }
    proof {
        assert(sp_collapse_long_ws(s, i as int) == Seq::<char>::empty());
        assert(out@ + Seq::<char>::empty() =~= out@);
    }
    out
}

/// The minified form of CSS text: single-line block-comment spans
/// removed, a final-line `//` comment removed, whitespace collapsed,
/// whitespace around punctuation removed, `;}` reduced to `}`, and the
/// ends trimmed.
pub open spec fn sp_minify_css(s: Seq<char>) -> Seq<char> {
    let ops = seq!['{', '}', ':', ';', ','];
    spec_trim(
        sp_semi_brace(
            sp_strip_around(
                sp_collapse_ws(sp_strip_tail_comment(sp_strip_inline(s, 0, "/*"@, "*/"@)), 0),
                0,
                ops,
            ),
            0,
        ),
    )
}

/// The minified form of HTML text: single-line comment spans removed,
/// whitespace runs between tags removed, long whitespace runs collapsed,
/// and the ends trimmed.
pub open spec fn sp_minify_html(s: Seq<char>) -> Seq<char> {
    spec_trim(sp_collapse_long_ws(sp_tag_gap(sp_strip_inline(s, 0, "<!--"@, "-->"@), 0), 0))
}

/// The generic whitespace/comment minifiers.
pub struct Minifier;

impl Minifier {
    /// Minifies JavaScript/TypeScript code, as [`sp_minify_js`] states.
    pub fn minify_js(code: &str) -> (r: Result<String, crate::parser::ScssError>)
        ensures
            r matches Result::Ok(m) && m@ == sp_minify_js(code@),
    {
        let cs = to_chars(code);
        let pass1 = strip_block_chars(cs);
        let pass2 = strip_lines_chars(&pass1, 0);
        proof {
            assert(pass1@.skip(0) =~= pass1@);
        }
        let pass3 = collapse_ws_chars(&pass2);
        let ops: Vec<char> = vec!['{', '}', ';', ',', '=', '+', '-', '*', '/', ':'];
        proof {
            assert(ops@ =~= seq!['{', '}', ';', ',', '=', '+', '-', '*', '/', ':']);
        }
        let pass4 = strip_around_chars(&pass3, &ops);
        let pass5 = strip_before_paren_chars(&pass4);
        let pass6 = trim_chars(&pass5);
        Result::Ok(from_chars(&pass6))
    }

    /// Minifies CSS, as [`sp_minify_css`] states.
    pub fn minify_css(css: &str) -> (r: Result<String, crate::parser::ScssError>)
        ensures
            r matches Result::Ok(m) && m@ == sp_minify_css(css@),
    {
        let cs = to_chars(css);
        proof {
            reveal_strlit("/*");
            reveal_strlit("*/");
        }
        let pass1 = strip_inline_chars(&cs, "/*", "*/");
        let pass2 = strip_tail_comment_chars(&pass1);
        let pass3 = collapse_ws_chars(&pass2);
        let ops: Vec<char> = vec!['{', '}', ':', ';', ','];
        proof {
            assert(ops@ =~= seq!['{', '}', ':', ';', ',']);
        }
        let pass4 = strip_around_chars(&pass3, &ops);
        let pass5 = semi_brace_chars(&pass4);
        let pass6 = trim_chars(&pass5);
        Result::Ok(from_chars(&pass6))
    }

    /// Minifies HTML, as [`sp_minify_html`] states.
    pub fn minify_html(html: &str) -> (r: Result<String, crate::parser::ScssError>)
        ensures
            r matches Result::Ok(m) && m@ == sp_minify_html(html@),
    {
        let cs = to_chars(html);
        proof {
            reveal_strlit("<!--");
            reveal_strlit("-->");
        }
        let pass1 = strip_inline_chars(&cs, "<!--", "-->");
        let pass2 = tag_gap_chars(&pass1);
        let pass3 = collapse_long_ws_chars(&pass2);
        let pass4 = trim_chars(&pass3);
        Result::Ok(from_chars(&pass4))
    }
}

} // verus!

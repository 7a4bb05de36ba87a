//! The import-candidate resolver: given a bare import specifier, the
//! ordered list of file paths an orchestrator must probe, implementing the
//! "partial file" convention (a `_`-prefixed file importable by its
//! unprefixed name).  A pure computation: no path is probed here.

use vstd::prelude::*;

use crate::parser::str_views;
use crate::text::{from_chars, to_chars};

verus! {

/// `s` with every backslash replaced by a forward slash.
pub open spec fn sp_normalize(s: Seq<char>) -> Seq<char> {
    s.map_values(
        |c: char|
            if c == '\\' {
                '/'
            } else {
                c
            },
    )
}

/// Replaces every backslash in `cs` by a forward slash.
pub(crate) fn normalize_chars(cs: &Vec<char>) -> (r: Vec<char>)
    ensures
        r@ == sp_normalize(cs@),
{
    let n: usize = cs.len();
    let mut r: Vec<char> = Vec::new();
    let mut i: usize = 0;
    while i < n
        invariant
            i <= n,
            n == cs@.len(),
            r@ == sp_normalize(cs@).take(i as int),
        decreases n - i,
    {
        let c = cs[i];
        if c == '\\' {
            r.push('/');
        } else {
            r.push(c);
        }
        i += 1;
        proof {
            assert(r@ =~= sp_normalize(cs@).take(i as int));
        }
    }
    proof {
        assert(sp_normalize(cs@).take(n as int) =~= sp_normalize(cs@));
    }
    r
}

/// Whether `s` ends with `suffix`.
pub open spec fn ends_with(s: Seq<char>, suffix: Seq<char>) -> bool {
    s.len() >= suffix.len() && s.subrange(s.len() - suffix.len(), s.len() as int) == suffix
}

/// Executable test for [`ends_with`], with the suffix given as a string
/// slice.
pub(crate) fn chars_end_with(cs: &Vec<char>, suffix: &str) -> (r: bool)
    ensures
        r == ends_with(cs@, suffix@),
{
    let m: usize = suffix.unicode_len();
    let n: usize = cs.len();
    if n < m {
        return false;
    }
    let mut k: usize = 0;
    while k < m
        invariant
            k <= m,
            m == suffix@.len(),
            n == cs@.len(),
            m <= n,
            forall|t: int| 0 <= t < k ==> cs@[n - m + t] == suffix@[t],
        decreases m - k,
    {
        if cs[n - m + k] != suffix.get_char(k) {
            proof {
                assert(cs@.subrange(n - m, n as int)[k as int] != suffix@[k as int]);
            }
            return false;
        }
        k += 1;
    }
    proof {
        assert(cs@.subrange(n - m, n as int) =~= suffix@);
    }
    true
}

/// The position just after the last `/` of `p` (0 if there is none).
pub open spec fn after_last_slash(p: Seq<char>) -> int
    decreases p.len(),
{
    if p.len() == 0 {
        0
    } else if p.last() == '/' {
        p.len() as int
    } else {
        after_last_slash(p.drop_last())
    }
}

pub proof fn lemma_after_last_slash_bounds(p: Seq<char>)
    ensures
        0 <= after_last_slash(p) <= p.len(),
    decreases p.len(),
{
    if p.len() > 0 && p.last() != '/' {
        lemma_after_last_slash_bounds(p.drop_last());
    }
}

/// The "partial" form of a path: the file name in the same directory with
/// a `_` prefixed.
pub open spec fn sp_partialize(p: Seq<char>) -> Seq<char> {
    let k = after_last_slash(p);
    p.take(k) + seq!['_'] + p.skip(k)
}

/// Computes the partial form of a path, as [`sp_partialize`] states.
pub fn partialize(p: &str) -> (r: String)
    ensures
        r@ == sp_partialize(p@),
{
    let cs = to_chars(p);
    from_chars(&partialize_chars(&cs))
}

/// [`partialize`] over a character vector.
pub(crate) fn partialize_chars(cs: &Vec<char>) -> (r: Vec<char>)
    ensures
        r@ == sp_partialize(cs@),
{
    let ghost p = cs@;
    let n: usize = cs.len();
    proof {
        lemma_after_last_slash_bounds(p);
        assert(p.take(n as int) =~= p);
    }
    let mut k: usize = n;
    while k > 0 && cs[k - 1] != '/'
        invariant
            k <= n,
            n == p.len(),
            cs@ == p,
            after_last_slash(p) == after_last_slash(p.take(k as int)),
            after_last_slash(p.take(k as int)) <= k,
        decreases k,
    {
        k -= 1;
        proof {
            assert(p.take(k + 1).drop_last() =~= p.take(k as int));
            lemma_after_last_slash_bounds(p.take(k as int));
        }
    }
    proof {
        if k > 0 {
            assert(p.take(k as int).last() == p[k - 1]);
        } else {
            assert(p.take(0) =~= Seq::<char>::empty());
        }
        assert(after_last_slash(p) == k as int);
    }
    let mut r: Vec<char> = Vec::new();
    let mut i: usize = 0;
    while i < k
        invariant
            i <= k <= n,
            n == p.len(),
            cs@ == p,
            r@ == p.take(k as int).take(i as int),
        decreases k - i,
    {
        r.push(cs[i]);
        i += 1;
        proof {
            assert(r@ =~= p.take(k as int).take(i as int));
        }
    }
    r.push('_');
    let mut j: usize = k;
    while j < n
        invariant
            k <= j <= n,
            n == p.len(),
            cs@ == p,
            r@ == p.take(k as int) + seq!['_'] + p.skip(k as int).take(j - k),
        decreases n - j,
    {
        r.push(cs[j]);
        j += 1;
        proof {
            assert(r@ =~= p.take(k as int) + seq!['_'] + p.skip(k as int).take(j - k));
        }
    }
    proof {
        assert(p.take(k as int).take(k as int) =~= p.take(k as int));
        assert(p.skip(k as int).take(n - k) =~= p.skip(k as int));
        assert(r@ =~= sp_partialize(p));
    }
    r
}

/// Appends the characters of `b` to a copy of `a`.
pub(crate) fn concat_chars(a: &Vec<char>, b: &str) -> (r: Vec<char>)
    ensures
        r@ == a@ + b@,
{
    let m: usize = b.unicode_len();
    let mut r: Vec<char> = Vec::new();
    let mut i: usize = 0;
    let n: usize = a.len();
    while i < n
        invariant
            i <= n,
            n == a@.len(),
            r@ == a@.take(i as int),
        decreases n - i,
    {
        r.push(a[i]);
        i += 1;
        proof {
            assert(r@ =~= a@.take(i as int));
        }
    }
    proof {
        assert(a@.take(n as int) =~= a@);
    }
    let mut j: usize = 0;
    while j < m
        invariant
            j <= m,
            m == b@.len(),
            r@ == a@ + b@.take(j as int),
        decreases m - j,
    {
        r.push(b.get_char(j));
        j += 1;
        proof {
            assert(r@ =~= a@ + b@.take(j as int));
        }
    }
    proof {
        assert(a@ + b@.take(m as int) =~= a@ + b@);
    }
    r
}

/// The ordered candidate paths for an import specifier.  Separators are
/// normalized to `/`.  A specifier already carrying a stylesheet extension
/// yields the path as given and then its partial form; any other yields
/// `specifier.scss`, its partial, `specifier/index.scss`, and its partial,
/// in that fixed search priority.
pub open spec fn sp_import_candidates(s: Seq<char>) -> Seq<Seq<char>> {
    let raw = sp_normalize(s);
    if ends_with(raw, ".scss"@) || ends_with(raw, ".sass"@) || ends_with(raw, ".css"@) {
        seq![raw, sp_partialize(raw)]
    } else {
        seq![
            raw + ".scss"@,
            sp_partialize(raw + ".scss"@),
            raw + "/index.scss"@,
            sp_partialize(raw + "/index.scss"@),
        ]
    }
}

/// Enumerates the ordered candidate file paths for an import specifier, as
/// [`sp_import_candidates`] states.
pub fn import_candidates(path_str: &str) -> (r: Vec<String>)
    ensures
        str_views(r@) == sp_import_candidates(path_str@),
{
    let cs = to_chars(path_str);
    let raw = normalize_chars(&cs);
    let mut out: Vec<String> = Vec::new();
    if chars_end_with(&raw, ".scss") || chars_end_with(&raw, ".sass") || chars_end_with(
        &raw,
        ".css",
    ) {
        out.push(from_chars(&raw));
        out.push(from_chars(&partialize_chars(&raw)));
        proof {
            assert(str_views(out@) =~= sp_import_candidates(path_str@));
        }
    } else {
        let with_ext = concat_chars(&raw, ".scss");
        let with_index = concat_chars(&raw, "/index.scss");
        out.push(from_chars(&with_ext));
        out.push(from_chars(&partialize_chars(&with_ext)));
        out.push(from_chars(&with_index));
        out.push(from_chars(&partialize_chars(&with_index)));
        proof {
            assert(str_views(out@) =~= sp_import_candidates(path_str@));
        }
    }
    out
}

} // verus!

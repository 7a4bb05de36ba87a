//! The flat variable symbol table and textual interpolation: a name-to-text
//! mapping with last-write-wins semantics, and the single-pass resolver that
//! substitutes `$name` references inside value text, passing unbound names
//! through unchanged.

use vstd::prelude::*;

use crate::parser::{ident_end, lemma_ident_end_bounds};
use crate::text::{from_chars, ident_char, sub_chars, to_chars};

verus! {

/// The mapping a list of bindings denotes: later bindings override earlier
/// ones.
pub open spec fn map_of(s: Seq<(String, String)>) -> Map<Seq<char>, Seq<char>>
    decreases s.len(),
{
    if s.len() == 0 {
        Map::empty()
    } else {
        map_of(s.drop_last()).insert(s.last().0@, s.last().1@)
    }
}

/// If `idx` holds `key` and no later binding does, the table maps `key` to
/// the value at `idx`.
pub proof fn lemma_map_of_get(s: Seq<(String, String)>, key: Seq<char>, idx: int)
    requires
        0 <= idx < s.len(),
        s[idx].0@ == key,
        forall|t: int| idx < t < s.len() ==> s[t].0@ != key,
    ensures
        map_of(s).contains_key(key),
        map_of(s)[key] == s[idx].1@,
    decreases s.len(),
{
    if idx == s.len() - 1 {
    } else {
        assert(s.last().0@ != key);
        lemma_map_of_get(s.drop_last(), key, idx);
    }
}

/// If no binding holds `key`, the table has no entry for it.
pub proof fn lemma_map_of_absent(s: Seq<(String, String)>, key: Seq<char>)
    requires
        forall|t: int| 0 <= t < s.len() ==> s[t].0@ != key,
    ensures
        !map_of(s).contains_key(key),
    decreases s.len(),
{
    if s.len() > 0 {
        lemma_map_of_absent(s.drop_last(), key);
    }
}

/// The flat variable store: a mapping from variable name to its resolved
/// text, where a later binding of the same name overwrites the earlier one.
#[derive(Debug)]
pub struct Vars {
    bindings: Vec<(String, String)>,
}

impl View for Vars {
    type V = Map<Seq<char>, Seq<char>>;

    closed spec fn view(&self) -> Map<Seq<char>, Seq<char>> {
        map_of(self.bindings@)
    }
}

impl Vars {
    /// An empty table.
    pub fn new() -> (r: Vars)
        ensures
            r@ == Map::<Seq<char>, Seq<char>>::empty(),
    {
        let r = Vars { bindings: Vec::new() };
        proof {
            assert(r@ =~= Map::<Seq<char>, Seq<char>>::empty());
        }
        r
    }

    /// Binds `k` to `v`, overwriting any earlier binding of `k`.
    pub fn set(&mut self, k: &str, v: &str)
        ensures
            final(self)@ == old(self)@.insert(k@, v@),
    {
        let entry = (String::from_str(k), String::from_str(v));
        self.bindings.push(entry);
        proof {
            assert(self.bindings@.drop_last() =~= old(self).bindings@);
        }
    }

    /// The value bound to `k`, if any.
    pub fn get(&self, k: &str) -> (r: Option<&String>)
        ensures
            match r {
                Option::Some(v) => self@.contains_key(k@) && v@ == self@[k@],
                Option::None => !self@.contains_key(k@),
            },
    {
        let n: usize = self.bindings.len();
        let mut t: usize = n;
        while t > 0
            invariant
                t <= n,
                n == self.bindings@.len(),
                forall|u: int| t <= u < n ==> self.bindings@[u].0@ != k@,
            decreases t,
        {
            t -= 1;
            if crate::text::str_eq(self.bindings[t].0.as_str(), k) {
                proof {
                    lemma_map_of_get(self.bindings@, k@, t as int);
                }
                return Option::Some(&self.bindings[t].1);
            }
        }
        proof {
            lemma_map_of_absent(self.bindings@, k@);
        }
        Option::None
    }

    /// Substitutes `$name` references in `s` against the table, in a single
    /// pass, as [`sp_resolve`] states.
    pub fn resolve_value(&self, s: &str) -> (r: String)
        ensures
            r@ == sp_resolve(self@, s@, 0),
    {
        let cs = to_chars(s);
        let ghost g = cs@;
        let n: usize = cs.len();
        let mut out = String::new();
        let mut i: usize = 0;
        while i < n
            invariant
                i <= n,
                n == g.len(),
                cs@ == g,
                sp_resolve(self@, g, 0) == out@ + sp_resolve(self@, g, i as int),
            decreases n - i,
        {
            let ghost ic = i as int;
            let c = cs[i];
            if c == '$' {
                proof {
                    lemma_ident_end_bounds(g, ic + 1);
                }
                let mut e: usize = i + 1;
                while e < n && ident_char(cs[e])
                    invariant
                        ic + 1 <= e <= n,
                        n == g.len(),
                        cs@ == g,
                        ident_end(g, ic + 1) == ident_end(g, e as int),
                    decreases n - e,
                {
                    e += 1;
                }
                assert(e as int == ident_end(g, ic + 1));
                if e == i + 1 {
                    let one: Vec<char> = vec![c];
                    proof {
                        assert(one@ =~= seq![c]);
                    }
                    out.append(from_chars(&one).as_str());
                    i += 1;
                } else {
                    let name_cs = sub_chars(&cs, i + 1, e);
                    let name = from_chars(&name_cs);
                    match self.get(name.as_str()) {
                        Option::Some(v) => {
                            let vv = v.clone();
                            out.append(vv.as_str());
                        },
                        Option::None => {
                            out.append("$");
                            out.append(name.as_str());
                            proof {
                                reveal_strlit("$");
                                assert("$"@ =~= seq!['$']);
                            }
                        },
                    }
                    i = e;
                }
            } else {
                let one: Vec<char> = vec![c];
                proof {
                    assert(one@ =~= seq![c]);
                }
                out.append(from_chars(&one).as_str());
                i += 1;
            }
            proof {
                assert(sp_resolve(self@, g, 0) == out@ + sp_resolve(self@, g, i as int));
            }
        }
        proof {
            assert(sp_resolve(self@, g, i as int) == Seq::<char>::empty());
            assert(out@ + Seq::<char>::empty() =~= out@);
        }
        out
    }
}

/// The single-pass interpolation of `s` from position `i` against table
/// `m`: a `$` followed by a non-empty identifier is replaced by its bound
/// value, or passed through literally when unbound; replacement text is
/// not re-scanned.
pub open spec fn sp_resolve(m: Map<Seq<char>, Seq<char>>, s: Seq<char>, i: int) -> Seq<char>
    decreases s.len() - i when 0 <= i <= s.len()
{
    if i >= s.len() {
        Seq::empty()
    } else if s[i] == '$' {
        proof {
            lemma_ident_end_bounds(s, i + 1);
        }
        let e = ident_end(s, i + 1);
        if e == i + 1 {
            seq![s[i]] + sp_resolve(m, s, i + 1)
        } else {
            let name = s.subrange(i + 1, e);
            (if m.contains_key(name) {
                m[name]
            } else {
                seq!['$'] + name
            }) + sp_resolve(m, s, e)
        }
    } else {
        seq![s[i]] + sp_resolve(m, s, i + 1)
    }
}

/// Reads the maximal identifier run of `s` starting at `from`: the run and
/// the position just after it.
pub fn read_ident(s: &str, from: usize) -> (r: (String, usize))
    requires
        from <= s@.len(),
    ensures
        r.1 as int == ident_end(s@, from as int),
        r.0@ == s@.subrange(from as int, r.1 as int),
{
    let cs = to_chars(s);
    let n: usize = cs.len();
    proof {
        lemma_ident_end_bounds(cs@, from as int);
    }
    let mut e: usize = from;
    while e < n && ident_char(cs[e])
        invariant
            from <= e <= n,
            n == cs@.len(),
            cs@ == s@,
            ident_end(s@, from as int) == ident_end(s@, e as int),
        decreases n - e,
    {
        e += 1;
    }
    assert(e as int == ident_end(s@, from as int));
    (from_chars(&sub_chars(&cs, from, e)), e)
}

} // verus!

//! Emission of flat CSS from the expanded tree.  Nested rules are
//! flattened by descendant-combinator concatenation (parent selector,
//! space, child selector, one flattened rule per nesting path), written as
//! an isolated pass so another combination policy could replace it.  The
//! walk binds variable declarations and resolves value text in source
//! order against one flat table: a declaration sees exactly the bindings
//! that precede it.

use vstd::prelude::*;

use crate::ast::{
    at_needs_semi, join_sel, lemma_node_views_list, lemma_nodes_size_first, node_view,
    node_views_list, nodes_size, raw_at_needs_semi, views_of, Node, SpecNode,
};
use crate::parser::str_views;
use crate::text::from_chars;
use crate::value::{sp_resolve, Vars};

verus! {

/// One parent selector combined with each child selector by the
/// descendant combinator.
pub open spec fn sp_cross_one(p: Seq<char>, sels: Seq<Seq<char>>) -> Seq<Seq<char>>
    decreases sels.len(),
{
    if sels.len() == 0 {
        Seq::empty()
    } else {
        seq![p + " "@ + sels[0]] + sp_cross_one(p, sels.drop_first())
    }
}

/// Every parent selector combined with every child selector, parents
/// outermost; no parents leaves the child selectors as they are.
pub open spec fn sp_cross(parents: Seq<Seq<char>>, sels: Seq<Seq<char>>) -> Seq<Seq<char>> {
    if parents.len() == 0 {
        sels
    } else {
        sp_cross_ne(parents, sels)
    }
}

/// The cross product for a non-empty parent list.
pub open spec fn sp_cross_ne(parents: Seq<Seq<char>>, sels: Seq<Seq<char>>) -> Seq<Seq<char>>
    decreases parents.len(),
{
    if parents.len() == 0 {
        Seq::empty()
    } else {
        sp_cross_one(parents[0], sels) + sp_cross_ne(parents.drop_first(), sels)
    }
}

/// Combines parent and child selector lists, as [`sp_cross`] states.
fn cross_sel(parents: &Vec<String>, sels: &Vec<String>) -> (r: Vec<String>)
    ensures
        str_views(r@) == sp_cross(str_views(parents@), str_views(sels@)),
{
    if parents.len() == 0 {
        let r = copy_strings(sels);
        proof {
            assert(str_views(r@) =~= sp_cross(str_views(parents@), str_views(sels@)));
        }
        r
    } else {
        let mut r: Vec<String> = Vec::new();
        let np: usize = parents.len();
        let ns: usize = sels.len();
        let mut pi: usize = 0;
        proof {
            assert(str_views(r@) =~= Seq::<Seq<char>>::empty());
            assert(Seq::<Seq<char>>::empty() + sp_cross_ne(
                str_views(parents@).skip(0),
                str_views(sels@),
            ) =~= sp_cross_ne(str_views(parents@).skip(0), str_views(sels@)));
            assert(str_views(parents@).skip(0) =~= str_views(parents@));
        }
        while pi < np
            invariant
                pi <= np,
                np == parents@.len(),
                ns == sels@.len(),
                sp_cross_ne(str_views(parents@), str_views(sels@)) == str_views(r@) + sp_cross_ne(
                    str_views(parents@).skip(pi as int),
                    str_views(sels@),
                ),
            decreases np - pi,
        {
            let ghost r0 = r@;
            let mut si: usize = 0;
            proof {
                assert(str_views(r@) =~= str_views(r0) + str_views(r@).skip(r0.len() as int));
            }
            while si < ns
                invariant
                    si <= ns,
                    pi < np,
                    np == parents@.len(),
                    ns == sels@.len(),
                    str_views(r@) == str_views(r0) + sp_cross_one(
                        parents@[pi as int]@,
                        str_views(sels@).take(si as int),
                    ),
                decreases ns - si,
            {
                let mut one = parents[pi].clone();
                one.append(" ");
                one.append(sels[si].as_str());
                let ghost onev = one@;
                let ghost rbefore = r@;
                r.push(one);
                si += 1;
                proof {
                    let p = parents@[pi as int]@;
                    let prev = str_views(sels@).take(si - 1);
                    assert(onev == p + " "@ + sels@[si - 1]@);
                    lemma_cross_one_push(p, prev, sels@[si - 1]@);
                    assert(str_views(sels@).take(si as int) =~= prev.push(sels@[si - 1]@));
                    assert(r@ == rbefore.push(one));
                    assert(str_views(r@) =~= str_views(rbefore).push(onev));
                    assert(str_views(rbefore).push(onev) =~= (str_views(r0) + sp_cross_one(
                        p,
                        prev,
                    )) + seq![p + " "@ + sels@[si - 1]@]);
                    assert((str_views(r0) + sp_cross_one(p, prev)) + seq![p + " "@ + sels@[si - 1]@]
                        =~= str_views(r0) + (sp_cross_one(p, prev) + seq![
                        p + " "@ + sels@[si - 1]@,
                    ]));
                    assert(str_views(r@) =~= str_views(r0) + sp_cross_one(
                        p,
                        str_views(sels@).take(si as int),
                    ));
                }
            }
            pi += 1;
            proof {
                assert(str_views(sels@).take(ns as int) =~= str_views(sels@));
                assert(str_views(parents@).skip(pi - 1)[0] == parents@[pi - 1]@);
                assert(str_views(parents@).skip(pi - 1).drop_first() =~= str_views(
                    parents@,
                ).skip(pi as int));
                assert(str_views(r@) + sp_cross_ne(
                    str_views(parents@).skip(pi as int),
                    str_views(sels@),
                ) =~= str_views(r0) + sp_cross_ne(
                    str_views(parents@).skip(pi - 1),
                    str_views(sels@),
                ));
            }
        }
        proof {
            assert(str_views(parents@).skip(np as int) =~= Seq::<Seq<char>>::empty());
            assert(str_views(r@) + Seq::<Seq<char>>::empty() =~= str_views(r@));
        }
        r
    }
}

/// Extending a cross-one list by one more child selector.
proof fn lemma_cross_one_push(p: Seq<char>, sels: Seq<Seq<char>>, x: Seq<char>)
    ensures
        sp_cross_one(p, sels.push(x)) == sp_cross_one(p, sels) + seq![p + " "@ + x],
    decreases sels.len(),
{
    if sels.len() == 0 {
        assert(sels.push(x)[0] == x);
        assert(sels.push(x).drop_first() =~= Seq::<Seq<char>>::empty());
        assert(sp_cross_one(p, sels.push(x)) == seq![p + " "@ + sels.push(x)[0]] + sp_cross_one(
            p,
            sels.push(x).drop_first(),
        ));
        assert(sp_cross_one(p, Seq::<Seq<char>>::empty()) == Seq::<Seq<char>>::empty());
        assert(seq![p + " "@ + x] + Seq::<Seq<char>>::empty() =~= seq![p + " "@ + x]);
        assert(sp_cross_one(p, sels) == Seq::<Seq<char>>::empty());
        assert(sp_cross_one(p, sels) + seq![p + " "@ + x] =~= seq![p + " "@ + x]);
    } else {
        assert(sels.push(x)[0] == sels[0]);
        assert(sels.push(x).drop_first() =~= sels.drop_first().push(x));
        lemma_cross_one_push(p, sels.drop_first(), x);
        assert(sp_cross_one(p, sels.push(x)) == seq![p + " "@ + sels.push(x)[0]] + sp_cross_one(
            p,
            sels.push(x).drop_first(),
        ));
        assert(sp_cross_one(p, sels.drop_first().push(x)) == sp_cross_one(p, sels.drop_first())
            + seq![p + " "@ + x]);
        assert(seq![p + " "@ + sels[0]] + (sp_cross_one(p, sels.drop_first()) + seq![p + " "@ + x])
            =~= (seq![p + " "@ + sels[0]] + sp_cross_one(p, sels.drop_first())) + seq![
            p + " "@ + x,
        ]);
    }
}

/// A copy of a list of strings.
pub(crate) fn copy_strings(v: &Vec<String>) -> (r: Vec<String>)
    ensures
        str_views(r@) == str_views(v@),
        r@.len() == v@.len(),
{
    let n: usize = v.len();
    let mut r: Vec<String> = Vec::new();
    let mut i: usize = 0;
    while i < n
        invariant
            i <= n,
            n == v@.len(),
            r@.len() == i,
            forall|k: int| 0 <= k < i ==> r@[k]@ == v@[k]@,
        decreases n - i,
    {
        r.push(v[i].clone());
        i += 1;
    }
    proof {
        assert(str_views(r@) =~= str_views(v@));
    }
    r
}

/// Joins selectors with `,`, as [`join_sel`] states.
fn join_selectors(sels: &Vec<String>) -> (r: String)
    ensures
        r@ == join_sel(str_views(sels@)),
{
    let ghost sv = str_views(sels@);
    let mut out = String::new();
    let m: usize = sels.len();
    let mut k: usize = 0;
    proof {
        assert(out@ =~= join_sel(sv.take(0)));
    }
    while k < m
        invariant
            k <= m,
            m == sels@.len(),
            sv == str_views(sels@),
            out@ == join_sel(sv.take(k as int)),
        decreases m - k,
    {
        if k > 0 {
            out.append(",");
            proof {
                reveal_strlit(",");
                assert(","@ =~= seq![',']);
            }
        }
        out.append(sels[k].as_str());
        proof {
            assert(sv.take(k + 1) =~= sv.take(k as int).push(sv[k as int]));
            if k == 0 {
                assert(sv.take(1) =~= seq![sv[0]]);
                assert(join_sel(seq![sv[0]]) == sv[0]);
                assert(out@ =~= join_sel(sv.take(1)));
            } else {
                crate::ast::lemma_join_sel_push(sv.take(k as int), sv[k as int]);
                assert(out@ =~= join_sel(sv.take(k + 1)));
            }
        }
        k += 1;
    }
    proof {
        assert(sv.take(m as int) =~= sv);
    }
    out
}

/// The walk over a block body under combined parent selectors `sels`: the
/// declaration lines of the block itself, the flattened rules that follow
/// it, and the variable table after the block.  Variable declarations bind
/// in source order, each value resolved at binding time; declaration and
/// at-rule text is resolved against the bindings in scope at that point.
/// A rule with no direct declarations emits no selector block of its own.
pub open spec fn sp_walk(
    vars: Map<Seq<char>, Seq<char>>,
    nodes: Seq<SpecNode>,
    sels: Seq<Seq<char>>,
) -> (Seq<char>, Seq<char>, Map<Seq<char>, Seq<char>>)
    decreases nodes_size(nodes),
{
    if nodes.len() == 0 {
        (Seq::empty(), Seq::empty(), vars)
    } else {
        proof {
            lemma_nodes_size_first(nodes);
        }
        let rest = nodes.drop_first();
        match nodes[0] {
            SpecNode::VarDecl { name, value } => sp_walk(
                vars.insert(name, sp_resolve(vars, value, 0)),
                rest,
                sels,
            ),
            SpecNode::Decl { prop, value } => {
                let line = prop + seq![':'] + sp_resolve(vars, value, 0) + seq![';'];
                let r = sp_walk(vars, rest, sels);
                (line + r.0, r.1, r.2)
            },
            SpecNode::Rule { selectors, body } => {
                let combined = sp_cross(sels, selectors);
                let sub = sp_walk(vars, body, combined);
                let sub_css = (if sub.0.len() == 0 {
                    Seq::<char>::empty()
                } else {
                    join_sel(combined) + seq!['{'] + sub.0 + seq!['}']
                }) + sub.1;
                let r = sp_walk(sub.2, rest, sels);
                (r.0, sub_css + r.1, r.2)
            },
            SpecNode::RawAt { text } => {
                let rv = sp_resolve(vars, text, 0);
                let chunk = if at_needs_semi(rv) {
                    rv + seq![';']
                } else {
                    rv
                };
                let r = sp_walk(vars, rest, sels);
                (r.0, chunk + r.1, r.2)
            },
        }
    }
}

/// The flat CSS of a fully-expanded node list: its top-level declaration
/// lines followed by its flattened rules and at-rules, with the final
/// variable table.
pub open spec fn sp_emit(vars: Map<Seq<char>, Seq<char>>, nodes: Seq<SpecNode>) -> (
    Seq<char>,
    Map<Seq<char>, Seq<char>>,
) {
    let w = sp_walk(vars, nodes, Seq::empty());
    (w.0 + w.1, w.2)
}

/// Walks a block, as [`sp_walk`] states: returns the block's own
/// declaration lines and the flattened output that follows it, binding
/// variables into `vars` along the way.
fn emit_walk(vars: &mut Vars, nodes: Vec<Node>, sels: &Vec<String>) -> (r: (String, String))
    ensures
        ({
            let w = sp_walk(old(vars)@, views_of(nodes@), str_views(sels@));
            r.0@ == w.0 && r.1@ == w.1 && final(vars)@ == w.2
        }),
    decreases nodes_size(views_of(nodes@)),
{
    let mut nodes = nodes;
    if nodes.len() == 0 {
        proof {
            assert(views_of(nodes@) =~= Seq::<SpecNode>::empty());
        }
        return (String::new(), String::new());
    }
    let ghost all = views_of(nodes@);
    proof {
        lemma_nodes_size_first(all);
    }
    let node = nodes.remove(0);
    proof {
        assert(views_of(nodes@) =~= all.drop_first());
        assert(node_view(node) == all[0]);
    }
    match node {
        Node::VarDecl { name, value } => {
            let rv = vars.resolve_value(value.as_str());
            vars.set(name.as_str(), rv.as_str());
            emit_walk(vars, nodes, sels)
        },
        Node::Decl { prop, value } => {
            let rv = vars.resolve_value(value.as_str());
            let mut line = prop;
            line.append(":");
            line.append(rv.as_str());
            line.append(";");
            proof {
                reveal_strlit(":");
                reveal_strlit(";");
                assert(":"@ =~= seq![':']);
                assert(";"@ =~= seq![';']);
            }
            let r = emit_walk(vars, nodes, sels);
            let inner = line.concat(r.0.as_str());
            (inner, r.1)
        },
        Node::Rule { selectors, body } => {
            proof {
                lemma_node_views_list(body@);
            }
            let combined = cross_sel(sels, &selectors);
            let sub = emit_walk(vars, body, &combined);
            let mut sub_css = String::new();
            if sub.0.as_str().unicode_len() > 0 {
                sub_css.append(join_selectors(&combined).as_str());
                sub_css.append("{");
                sub_css.append(sub.0.as_str());
                sub_css.append("}");
                proof {
                    reveal_strlit("{");
                    reveal_strlit("}");
                    assert("{"@ =~= seq!['{']);
                    assert("}"@ =~= seq!['}']);
                }
            }
            sub_css.append(sub.1.as_str());
            let r = emit_walk(vars, nodes, sels);
            let after = sub_css.concat(r.1.as_str());
            proof {
                assert(Seq::new(selectors@.len(), |t: int| selectors@[t]@) =~= str_views(
                    selectors@));
            }
            (r.0, after)
        },
        Node::RawAt { text } => {
            let rv = vars.resolve_value(text.as_str());
            let mut chunk = rv;
            if raw_at_needs_semi(&chunk) {
                chunk.append(";");
                proof {
                    reveal_strlit(";");
                    assert(";"@ =~= seq![';']);
                }
            }
            let r = emit_walk(vars, nodes, sels);
            let after = chunk.concat(r.1.as_str());
            (r.0, after)
        },
    }
}

/// Emits flat CSS from a fully-expanded node list, as [`sp_emit`] states,
/// leaving the final variable table in `vars`.
pub fn emit_css(vars: &mut Vars, nodes: Vec<Node>) -> (r: String)
    ensures
        ({
            let e = sp_emit(old(vars)@, views_of(nodes@));
            r@ == e.0 && final(vars)@ == e.1
        }),
{
    let empty: Vec<String> = Vec::new();
    proof {
        assert(str_views(empty@) =~= Seq::<Seq<char>>::empty());
    }
    let w = emit_walk(vars, nodes, &empty);
    w.0.concat(w.1.as_str())
}

} // verus!

//! The abstract syntax tree of the stylesheet dialect: a tagged variant over
//! variable declarations, nested rules, plain declarations and at-rules, in
//! source order, together with the flattened textual rendering used when an
//! at-rule carries a nested block.

use vstd::prelude::*;

use crate::text::{rskip_ws_from, to_chars, ws_char};

verus! {

/// One statement of a block, in source order.
#[derive(Debug)]
pub enum Node {
    /// `$name: value;` — the value text is kept raw (unresolved).
    VarDecl { name: String, value: String },
    /// `selector[, selector...] { body }`.
    Rule { selectors: Vec<String>, body: Vec<Node> },
    /// `property: value;`.
    Decl { prop: String, value: String },
    /// `@...` carried as verbatim text, nested block already rendered.
    RawAt { text: String },
}

/// The mathematical shape of a [`Node`]: every text as a character sequence.
pub enum SpecNode {
    VarDecl { name: Seq<char>, value: Seq<char> },
    Rule { selectors: Seq<Seq<char>>, body: Seq<SpecNode> },
    Decl { prop: Seq<char>, value: Seq<char> },
    RawAt { text: Seq<char> },
}

/// The mathematical value of a node.
pub open spec fn node_view(n: Node) -> SpecNode
    decreases n,
{
    match n {
        Node::VarDecl { name, value } => SpecNode::VarDecl { name: name@, value: value@ },
        Node::Rule { selectors, body } => SpecNode::Rule {
            selectors: Seq::new(selectors@.len(), |i: int| selectors@[i]@),
            body: node_views_list(body@),
        },
        Node::Decl { prop, value } => SpecNode::Decl { prop: prop@, value: value@ },
        Node::RawAt { text } => SpecNode::RawAt { text: text@ },
    }
}

/// The views of a list of nodes, element by element.
pub open spec fn node_views_list(ns: Seq<Node>) -> Seq<SpecNode>
    decreases ns,
{
    if ns.len() == 0 {
        Seq::empty()
    } else {
        seq![node_view(ns[0])] + node_views_list(ns.drop_first())
    }
}

impl View for Node {
    type V = SpecNode;

    open spec fn view(&self) -> SpecNode {
        node_view(*self)
    }
}

/// The views of a sequence of nodes.
pub open spec fn views_of(ns: Seq<Node>) -> Seq<SpecNode> {
    Seq::new(ns.len(), |i: int| node_view(ns[i]))
}

/// [`node_views_list`] agrees with [`views_of`] on every sequence.
pub proof fn lemma_node_views_list(ns: Seq<Node>)
    ensures
        node_views_list(ns) == views_of(ns),
    decreases ns.len(),
{
    if ns.len() == 0 {
        assert(node_views_list(ns) =~= views_of(ns));
    } else {
        lemma_node_views_list(ns.drop_first());
        assert(node_views_list(ns) =~= views_of(ns));
    }
}

/// The root of a parse: the ordered top-level nodes.
#[derive(Debug)]
pub struct Ast {
    pub nodes: Vec<Node>,
}

impl View for Ast {
    type V = Seq<SpecNode>;

    open spec fn view(&self) -> Seq<SpecNode> {
        views_of(self.nodes@)
    }
}

/// Selectors joined with `,` between them.
pub open spec fn join_sel(sels: Seq<Seq<char>>) -> Seq<char>
    decreases sels.len(),
{
    if sels.len() == 0 {
        Seq::empty()
    } else if sels.len() == 1 {
        sels[0]
    } else {
        sels[0] + seq![','] + join_sel(sels.drop_first())
    }
}

/// Whether a rendered at-rule text needs a `;` appended: it does unless,
/// after trailing whitespace is dropped, it already ends in `;` or `}`.
pub open spec fn at_needs_semi(text: Seq<char>) -> bool {
    let b = rskip_ws_from(text, text.len() as int);
    !(b > 0 && (text[b - 1] == ';' || text[b - 1] == '}'))
}

/// The flat CSS-like rendering of one node: declarations as `prop:value;`,
/// rules as `selectors{...}`, variable declarations dropped, at-rule text
/// verbatim with a `;` appended when none is needed.
pub open spec fn ser_node(n: SpecNode) -> Seq<char>
    decreases n,
{
    match n {
        SpecNode::VarDecl { .. } => Seq::empty(),
        SpecNode::Decl { prop, value } => prop + seq![':'] + value + seq![';'],
        SpecNode::Rule { selectors, body } => join_sel(selectors) + seq!['{'] + ser_nodes(body)
            + seq!['}'],
        SpecNode::RawAt { text } => if at_needs_semi(text) {
            text + seq![';']
        } else {
            text
        },
    }
}

/// The concatenated rendering of a sequence of nodes.
pub open spec fn ser_nodes(ns: Seq<SpecNode>) -> Seq<char>
    decreases ns,
{
    if ns.len() == 0 {
        Seq::empty()
    } else {
        ser_node(ns[0]) + ser_nodes(ns.drop_first())
    }
}

pub proof fn lemma_ser_nodes_push(ns: Seq<SpecNode>, x: SpecNode)
    ensures
        ser_nodes(ns.push(x)) == ser_nodes(ns) + ser_node(x),
    decreases ns.len(),
{
    if ns.len() == 0 {
        assert(ns.push(x)[0] == x);
        assert(ns.push(x).drop_first() =~= Seq::<SpecNode>::empty());
        assert(ser_nodes(ns.push(x)) == ser_node(x) + ser_nodes(Seq::<SpecNode>::empty()));
        assert(ser_node(x) + Seq::<char>::empty() =~= ser_node(x));
        assert(ser_nodes(ns) + ser_node(x) =~= ser_node(x));
    } else {
        assert(ns.push(x).drop_first() =~= ns.drop_first().push(x));
        assert(ns.push(x)[0] == ns[0]);
        lemma_ser_nodes_push(ns.drop_first(), x);
        assert(ser_nodes(ns.push(x)) == ser_node(ns[0]) + (ser_nodes(ns.drop_first())
            + ser_node(x)));
        assert(ser_node(ns[0]) + (ser_nodes(ns.drop_first()) + ser_node(x)) =~= (ser_node(ns[0])
            + ser_nodes(ns.drop_first())) + ser_node(x));
    }
}

pub proof fn lemma_join_sel_push(sels: Seq<Seq<char>>, x: Seq<char>)
    requires
        sels.len() >= 1,
    ensures
        join_sel(sels.push(x)) == join_sel(sels) + seq![','] + x,
    decreases sels.len(),
{
    if sels.len() == 1 {
        assert(sels.push(x)[0] == sels[0]);
        assert(sels.push(x).drop_first() =~= seq![x]);
        assert(join_sel(seq![x]) == x);
        assert(join_sel(sels.push(x)) == sels[0] + seq![','] + x);
        assert(join_sel(sels) == sels[0]);
    } else {
        assert(sels.push(x)[0] == sels[0]);
        assert(sels.push(x).drop_first() =~= sels.drop_first().push(x));
        lemma_join_sel_push(sels.drop_first(), x);
        assert(join_sel(sels.push(x)) == sels[0] + seq![','] + (join_sel(sels.drop_first())
            + seq![','] + x));
        assert(sels[0] + seq![','] + (join_sel(sels.drop_first()) + seq![','] + x) =~= (sels[0]
            + seq![','] + join_sel(sels.drop_first())) + seq![','] + x);
    }
}

/// Whether the rendered at-rule text needs a trailing `;` (executable form
/// of [`at_needs_semi`]).
pub(crate) fn raw_at_needs_semi(text: &String) -> (r: bool)
    ensures
        r == at_needs_semi(text@),
{
    let cs = to_chars(text.as_str());
    proof {
        crate::text::lemma_rskip_ws_from_bounds(cs@, cs@.len() as int);
    }
    let n: usize = cs.len();
    let mut b: usize = n;
    while b > 0 && ws_char(cs[b - 1])
        invariant
            0 <= b <= n,
            n == cs@.len(),
            rskip_ws_from(cs@, n as int) == rskip_ws_from(cs@, b as int),
            rskip_ws_from(cs@, b as int) <= b,
        decreases b,
    {
        b -= 1;
        proof {
            crate::text::lemma_rskip_ws_from_bounds(cs@, b as int);
        }
    }
    assert(rskip_ws_from(cs@, n as int) == b as int);
    !(b > 0 && (cs[b - 1] == ';' || cs[b - 1] == '}'))
}

/// Renders `nodes` as flat CSS-like text, as [`ser_nodes`] states.
pub fn serialize_nodes_as_css_like(nodes: &Vec<Node>) -> (r: String)
    ensures
        r@ == ser_nodes(views_of(nodes@)),
    decreases nodes@,
{
    let mut out = String::new();
    let n: usize = nodes.len();
    let mut i: usize = 0;
    proof {
        assert(views_of(nodes@).take(0) =~= Seq::<SpecNode>::empty());
    }
    while i < n
        invariant
            i <= n,
            n == nodes@.len(),
            out@ == ser_nodes(views_of(nodes@).take(i as int)),
        decreases n - i,
    {
        proof {
            assert(views_of(nodes@).take(i + 1) =~= views_of(nodes@).take(i as int).push(
                nodes@[i as int]@));
            lemma_ser_nodes_push(views_of(nodes@).take(i as int), nodes@[i as int]@);
        }
        let node = &nodes[i];
        match node {
            Node::VarDecl { .. } => {
                proof {
                    assert(out@ =~= out@ + ser_node(nodes@[i as int]@));
                }
            },
            Node::Decl { prop, value } => {
                out.append(prop.as_str());
                out.append(":");
                out.append(value.as_str());
                out.append(";");
                proof {
                    reveal_strlit(":");
                    reveal_strlit(";");
                    assert(":"@ =~= seq![':']);
                    assert(";"@ =~= seq![';']);
                    assert(out@ =~= ser_nodes(views_of(nodes@).take(i as int)) + ser_node(
                        nodes@[i as int]@));
                }
            },
            Node::Rule { selectors, body } => {
                let ghost sel_views = Seq::new(selectors@.len(), |k: int| selectors@[k]@);
                let m: usize = selectors.len();
                let mut k: usize = 0;
                while k < m
                    invariant
                        k <= m,
                        m == selectors@.len(),
                        sel_views == Seq::new(selectors@.len(), |t: int| selectors@[t]@),
                        out@ == ser_nodes(views_of(nodes@).take(i as int)) + join_sel(
                            sel_views.take(k as int)),
                    decreases m - k,
                {
                    if k > 0 {
                        out.append(",");
                        proof {
                            reveal_strlit(",");
                            assert(","@ =~= seq![',']);
                        }
                    }
                    out.append(selectors[k].as_str());
                    proof {
                        assert(sel_views.take(k + 1) =~= sel_views.take(k as int).push(
                            sel_views[k as int]));
                        if k == 0 {
                            assert(sel_views.take(1) =~= seq![sel_views[0]]);
                            assert(join_sel(seq![sel_views[0]]) == sel_views[0]);
                            assert(out@ =~= ser_nodes(views_of(nodes@).take(i as int)) + join_sel(
                                sel_views.take(1)));
                        } else {
                            lemma_join_sel_push(sel_views.take(k as int), sel_views[k as int]);
                            assert(out@ =~= ser_nodes(views_of(nodes@).take(i as int)) + join_sel(
                                sel_views.take(k + 1)));
                        }
                    }
                    k += 1;
                }
                proof {
                    assert(sel_views.take(m as int) =~= sel_views);
                }
                out.append("{");
                let inner = serialize_nodes_as_css_like(body);
                out.append(inner.as_str());
                out.append("}");
                proof {
                    reveal_strlit("{");
                    reveal_strlit("}");
                    assert("{"@ =~= seq!['{']);
                    assert("}"@ =~= seq!['}']);
                    lemma_node_views_list(body@);
                    assert(out@ =~= ser_nodes(views_of(nodes@).take(i as int)) + ser_node(
                        nodes@[i as int]@));
                }
            },
            Node::RawAt { text } => {
                out.append(text.as_str());
                if raw_at_needs_semi(text) {
                    out.append(";");
                    proof {
                        reveal_strlit(";");
                        assert(";"@ =~= seq![';']);
                    }
                }
                proof {
                    assert(out@ =~= ser_nodes(views_of(nodes@).take(i as int)) + ser_node(
                        nodes@[i as int]@));
                }
            },
        }
        i += 1;
    }
    proof {
        assert(views_of(nodes@).take(n as int) =~= views_of(nodes@));
    }
    out
}


/// The size of a node: itself plus, for a rule, its body.
pub open spec fn node_size(n: SpecNode) -> nat
    decreases n,
{
    match n {
        SpecNode::Rule { selectors, body } => 1 + nodes_size(body),
        _ => 1,
    }
}

/// The total size of a list of nodes.
pub open spec fn nodes_size(ns: Seq<SpecNode>) -> nat
    decreases ns,
{
    if ns.len() == 0 {
        0
    } else {
        node_size(ns[0]) + nodes_size(ns.drop_first())
    }
}

/// Dropping the first node shrinks the size by that node's own size.
pub proof fn lemma_nodes_size_first(ns: Seq<SpecNode>)
    requires
        ns.len() > 0,
    ensures
        nodes_size(ns) == node_size(ns[0]) + nodes_size(ns.drop_first()),
        nodes_size(ns.drop_first()) < nodes_size(ns),
        node_size(ns[0]) <= nodes_size(ns),
{
}

} // verus!

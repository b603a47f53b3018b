//! How the output tokens become a token stream.
//!
//! The output is a flat run of tokens in which `Open` and `Close` mark
//! groups.  A stream nests them: every group is one tree that holds the trees
//! between its `Open` and its `Close`.  [`Node`] is that nesting, and
//! [`flatten`] turns it back into the flat run.
use vstd::prelude::*;
use proc_macro2::{Span, TokenStream, TokenTree};
use crate::bridge::{
    made_group, made_ident, made_punct, made_stream, new_group, new_ident, new_punct, tree_clone,
    trees_stream,
};
use crate::laws::{balanced, depth_after, lemma_depth_concat, lemma_depth_negative};
use crate::tokens::{Delim, OutToken, Sym, Word};

verus! {

/// One tree of the output, with its groups nested.
pub enum Node {
    /// The input tree at this position.
    Copy(usize),
    Ident(Word, Span),
    Punct(Sym, bool, Span),
    Group(Delim, Span, Seq<Node>),
}

/// The flat tokens of one node.
pub open spec fn flatten_node(n: Node) -> Seq<OutToken>
    decreases n,
{
    match n {
        Node::Copy(i) => seq![OutToken::Src(i)],
        Node::Ident(w, s) => seq![OutToken::Ident(w, s)],
        Node::Punct(c, joint, s) => seq![OutToken::Punct(c, joint, s)],
        Node::Group(d, s, kids) => seq![OutToken::Open(d, s)] + flatten(kids) + seq![OutToken::Close],
    }
}

/// The flat tokens of nodes, in order.
pub open spec fn flatten(nodes: Seq<Node>) -> Seq<OutToken>
    decreases nodes,
{
    if nodes.len() == 0 {
        Seq::empty()
    } else {
        flatten(nodes.subrange(0, nodes.len() - 1)) + flatten_node(nodes[nodes.len() - 1])
    }
}

/// The token tree of one node: a copy of an input tree, or a tree made of
/// the node's text, spacing, delimiter and span.
pub open spec fn node_tree(n: Node, t: Seq<TokenTree>) -> TokenTree
    decreases n,
{
    match n {
        Node::Copy(i) => t[i as int],
        Node::Ident(w, s) => made_ident(w.spec_text(), s),
        Node::Punct(c, joint, s) => made_punct(c.spec_char(), joint, s),
        Node::Group(d, s, kids) => made_group(d, node_trees(kids, t), s),
    }
}

/// The token trees of nodes, in order.
pub open spec fn node_trees(nodes: Seq<Node>, t: Seq<TokenTree>) -> Seq<TokenTree>
    decreases nodes,
{
    if nodes.len() == 0 {
        Seq::empty()
    } else {
        node_trees(nodes.subrange(0, nodes.len() - 1), t).push(node_tree(nodes[nodes.len() - 1], t))
    }
}

/// `s` is the stream of the output `out`: the stream of the trees of the
/// nodes whose flat tokens are `out`, input positions read in `t`.
pub open spec fn stream_of(out: Seq<OutToken>, t: Seq<TokenTree>, s: TokenStream) -> bool {
    exists|nodes: Seq<Node>| #[trigger] flatten(nodes) == out && s == made_stream(node_trees(nodes, t))
}

/// The tokens written before the groups still open are closed: for each open
/// group (its delimiter, span, and the nodes before it), those nodes' tokens
/// and the group's `Open`.
pub open spec fn pending_text(frames: Seq<(Delim, Span, Seq<Node>)>) -> Seq<OutToken>
    decreases frames.len(),
{
    if frames.len() == 0 {
        Seq::empty()
    } else {
        let f = frames[frames.len() - 1];
        pending_text(frames.drop_last()) + flatten(f.2) + seq![OutToken::Open(f.0, f.1)]
    }
}

proof fn lemma_push(nodes: Seq<Node>, n: Node, t: Seq<TokenTree>)
    ensures
        flatten(nodes.push(n)) == flatten(nodes) + flatten_node(n),
        node_trees(nodes.push(n), t) == node_trees(nodes, t).push(node_tree(n, t)),
{
    assert(nodes.push(n).subrange(0, nodes.len() as int) =~= nodes);
}

proof fn lemma_depth_one(tok: OutToken, d: int)
    requires
        d >= 0,
    ensures
        depth_after(seq![tok], d) == match tok {
            OutToken::Open(..) => d + 1,
            OutToken::Close => d - 1,
            _ => d,
        },
{
    reveal_with_fuel(depth_after, 2);
    assert(seq![tok].drop_first() =~= Seq::<OutToken>::empty());
}

proof fn lemma_empty(t: Seq<TokenTree>)
    ensures
        flatten(Seq::<Node>::empty()) == Seq::<OutToken>::empty(),
        node_trees(Seq::<Node>::empty(), t) == Seq::<TokenTree>::empty(),
{
}

proof fn lemma_last(nodes: Seq<Node>)
    requires
        nodes.len() > 0,
    ensures
        nodes == nodes.subrange(0, nodes.len() - 1).push(nodes[nodes.len() - 1]),
        flatten(nodes) == flatten(nodes.subrange(0, nodes.len() - 1)) + flatten_node(nodes[nodes.len() - 1]),
        flatten_node(nodes[nodes.len() - 1]).len() >= 1,
{
    assert(nodes =~= nodes.subrange(0, nodes.len() - 1).push(nodes[nodes.len() - 1]));
}

/// The flat tokens of nodes come back to the depth they start at.
proof fn lemma_flatten_depth(nodes: Seq<Node>, d: int)
    requires
        d >= 0,
    ensures
        depth_after(flatten(nodes), d) == d,
    decreases flatten(nodes).len(),
{
    if nodes.len() > 0 {
        lemma_last(nodes);
        let rest = nodes.subrange(0, nodes.len() - 1);
        let n = nodes[nodes.len() - 1];
        lemma_flatten_depth(rest, d);
        lemma_depth_concat(flatten(rest), flatten_node(n), d);
        match n {
            Node::Group(g, s, kids) => {
                lemma_depth_one(OutToken::Open(g, s), d);
                lemma_flatten_depth(kids, d + 1);
                lemma_depth_one(OutToken::Close, d + 1);
                lemma_depth_concat(seq![OutToken::Open(g, s)], flatten(kids), d);
                lemma_depth_concat(seq![OutToken::Open(g, s)] + flatten(kids), seq![OutToken::Close], d);
            },
            _ => {
                lemma_depth_one(flatten_node(n)[0], d);
                assert(flatten_node(n) =~= seq![flatten_node(n)[0]]);
            },
        }
    }
}

/// A group's text cannot end a group's text that is longer: the shorter
/// would close a group that the longer opened.
proof fn lemma_group_suffix(x: Seq<Node>, y: Seq<Node>, dx: Delim, sx: Span, dy: Delim, sy: Span)
    requires
        flatten_node(Node::Group(dx, sx, x)).len() < flatten_node(Node::Group(dy, sy, y)).len(),
    ensures
        flatten_node(Node::Group(dy, sy, y)).skip(
            flatten_node(Node::Group(dy, sy, y)).len() - flatten_node(Node::Group(dx, sx, x)).len(),
        ) != flatten_node(Node::Group(dx, sx, x)),
{
    let fx = flatten_node(Node::Group(dx, sx, x));
    let fy = flatten_node(Node::Group(dy, sy, y));
    let cut = fy.len() - fx.len();
    if fy.skip(cut) == fx {
        let ky = flatten(y);
        let kx = flatten(x);
        let p = ky.take(cut - 1);
        assert(ky =~= p + (seq![OutToken::Open(dx, sx)] + kx)) by {
            assert forall|j: int| 0 <= j < ky.len() implies ky[j] == (p + (seq![OutToken::Open(dx, sx)] + kx))[j] by {
                assert(ky[j] == fy[j + 1]);
                if j >= cut - 1 {
                    assert(fy[j + 1] == fy.skip(cut)[j + 1 - cut]);
                }
            }
        }
        lemma_flatten_depth(y, 0);
        lemma_depth_concat(p, seq![OutToken::Open(dx, sx)] + kx, 0);
        let e = depth_after(p, 0);
        if e < 0 {
            lemma_depth_negative(seq![OutToken::Open(dx, sx)] + kx, e);
        } else {
            lemma_depth_concat(seq![OutToken::Open(dx, sx)], kx, e);
            lemma_depth_one(OutToken::Open(dx, sx), e);
            lemma_flatten_depth(x, e + 1);
        }
    }
}

/// Nodes are determined by their flat tokens: two nestings of the same
/// tokens are the same nesting.  So the stream of an output is determined by
/// the output.
pub proof fn law_nesting_unique(a: Seq<Node>, b: Seq<Node>)
    requires
        flatten(a) == flatten(b),
    ensures
        a == b,
    decreases flatten(a).len(), 1int,
{
    if a.len() == 0 {
        if b.len() > 0 {
            lemma_last(b);
        }
        assert(a =~= b);
    } else if b.len() == 0 {
        lemma_last(a);
    } else {
        lemma_last(a);
        lemma_last(b);
        let ra = a.subrange(0, a.len() - 1);
        let rb = b.subrange(0, b.len() - 1);
        let x = a[a.len() - 1];
        let y = b[b.len() - 1];
        let fx = flatten_node(x);
        let fy = flatten_node(y);
        let whole = flatten(a);
        assert(whole.skip(whole.len() - fx.len()) =~= fx);
        assert(whole.skip(whole.len() - fy.len()) =~= fy);
        if fx.len() < fy.len() {
            assert(fy.skip(fy.len() - fx.len()) =~= fx);
            lemma_last_tokens_differ(x, y);
        } else if fy.len() < fx.len() {
            assert(fx.skip(fx.len() - fy.len()) =~= fy);
            lemma_last_tokens_differ(y, x);
        } else {
            assert(flatten(ra) =~= whole.take(whole.len() - fx.len()));
            assert(flatten(rb) =~= whole.take(whole.len() - fy.len()));
            law_nesting_unique(ra, rb);
            lemma_node_unique(x, y);
        }
    }
}

/// The text of one node is not a shorter tail of another node's text.
proof fn lemma_last_tokens_differ(x: Node, y: Node)
    requires
        flatten_node(x).len() < flatten_node(y).len(),
    ensures
        flatten_node(y).skip(flatten_node(y).len() - flatten_node(x).len()) != flatten_node(x),
{
    let fx = flatten_node(x);
    let fy = flatten_node(y);
    if fy.skip(fy.len() - fx.len()) == fx {
        assert(fx[fx.len() - 1] == fy[fy.len() - 1]);
        match (x, y) {
            (Node::Group(dx, sx, kx), Node::Group(dy, sy, ky)) => {
                lemma_group_suffix(kx, ky, dx, sx, dy, sy);
            },
            _ => {},
        }
    }
}

/// One node is determined by its flat tokens.
proof fn lemma_node_unique(x: Node, y: Node)
    requires
        flatten_node(x) == flatten_node(y),
    ensures
        x == y,
    decreases flatten_node(x).len(), 0int,
{
    let fx = flatten_node(x);
    assert(fx[0] == flatten_node(y)[0]);
    match x {
        Node::Group(dx, sx, kx) => {
            match y {
                Node::Group(dy, sy, ky) => {
                    assert(flatten(kx) =~= fx.subrange(1, fx.len() - 1));
                    assert(flatten(ky) =~= fx.subrange(1, fx.len() - 1));
                    law_nesting_unique(kx, ky);
                },
                _ => {},
            }
        },
        Node::Copy(i) => {
            assert(fx[0] == OutToken::Src(i));
        },
        Node::Ident(w, sp) => {
            assert(fx[0] == OutToken::Ident(w, sp));
        },
        Node::Punct(c, j, sp) => {
            assert(fx[0] == OutToken::Punct(c, j, sp));
        },
    }
}

/// An output has one stream: two streams of the same output, over the same
/// input trees, are the same stream.
pub proof fn law_stream_determined(out: Seq<OutToken>, t: Seq<TokenTree>, s1: TokenStream, s2: TokenStream)
    requires
        stream_of(out, t, s1),
        stream_of(out, t, s2),
    ensures
        s1 == s2,
{
    let a = choose|nodes: Seq<Node>| #[trigger] flatten(nodes) == out && s1 == made_stream(node_trees(nodes, t));
    let b = choose|nodes: Seq<Node>| #[trigger] flatten(nodes) == out && s2 == made_stream(node_trees(nodes, t));
    law_nesting_unique(a, b);
}

/// Turns balanced output tokens into a token stream: input positions are
/// copied from `t`, identifiers and punctuation are made at their spans, and
/// every `Open` .. `Close` becomes one group of the trees between them.
pub fn build_stream(t: &Vec<TokenTree>, out: &Vec<OutToken>) -> (r: TokenStream)
    requires
        balanced(out@),
        forall|k: int| 0 <= k < out@.len() ==> (#[trigger] out@[k] matches OutToken::Src(i) ==> i < t@.len()),
    ensures
        stream_of(out@, t@, r),
{
    let mut open: Vec<(Delim, Span, Vec<TokenTree>)> = Vec::new();
    let mut current: Vec<TokenTree> = Vec::new();
    let ghost mut frames: Seq<(Delim, Span, Seq<Node>)> = Seq::empty();
    let ghost mut cur: Seq<Node> = Seq::empty();
    let mut k: usize = 0;
    proof {
        lemma_empty(t@);
        assert(out@.take(0) =~= Seq::<OutToken>::empty());
    }
    while k < out.len()
        invariant
            k <= out@.len(),
            balanced(out@),
            forall|j: int| 0 <= j < out@.len() ==> (#[trigger] out@[j] matches OutToken::Src(i) ==> i < t@.len()),
            open@.len() == frames.len(),
            forall|j: int|
                0 <= j < frames.len() ==> {
                    &&& (#[trigger] open@[j]).0 == frames[j].0
                    &&& open@[j].1 == frames[j].1
                    &&& open@[j].2@ == node_trees(frames[j].2, t@)
                },
            current@ == node_trees(cur, t@),
            out@.take(k as int) == pending_text(frames) + flatten(cur),
            depth_after(out@.take(k as int), 0) == frames.len(),
        decreases out@.len() - k,
    {
        let ghost before = out@.take(k as int);
        proof {
            assert(out@.take(k as int + 1) =~= before + seq![out@[k as int]]);
            lemma_depth_concat(before, seq![out@[k as int]], 0);
            lemma_depth_one(out@[k as int], frames.len() as int);
            lemma_depth_concat(out@.take(k as int + 1), out@.skip(k as int + 1), 0);
            assert(out@.take(k as int + 1) + out@.skip(k as int + 1) =~= out@);
            assert(depth_after(out@, 0) == 0);
        }
        match out[k] {
            OutToken::Src(i) => {
                current.push(tree_clone(&t[i]));
                proof {
                    lemma_push(cur, Node::Copy(i), t@);
                    cur = cur.push(Node::Copy(i));
                }
            },
            OutToken::Ident(w, s) => {
                current.push(new_ident(w.text(), s));
                proof {
                    lemma_push(cur, Node::Ident(w, s), t@);
                    cur = cur.push(Node::Ident(w, s));
                }
            },
            OutToken::Punct(c, joint, s) => {
                current.push(new_punct(c.char(), joint, s));
                proof {
                    lemma_push(cur, Node::Punct(c, joint, s), t@);
                    cur = cur.push(Node::Punct(c, joint, s));
                }
            },
            OutToken::Open(d, s) => {
                let outer = current;
                open.push((d, s, outer));
                current = Vec::new();
                proof {
                    let pushed = frames.push((d, s, cur));
                    assert(pushed.drop_last() =~= frames);
                    frames = pushed;
                    cur = Seq::empty();
                    lemma_empty(t@);
                }
            },
            OutToken::Close => {
                proof {
                    if frames.len() == 0 {
                        lemma_depth_negative(out@.skip(k as int + 1), -1);
                    }
                }
                let (d, s, outer) = open.pop().unwrap();
                let group = new_group(d, current, s);
                current = outer;
                current.push(group);
                proof {
                    let f = frames[frames.len() - 1];
                    let node = Node::Group(d, s, cur);
                    lemma_push(f.2, node, t@);
                    cur = f.2.push(node);
                    frames = frames.drop_last();
                }
            },
        }
        k = k + 1;
    }
    proof {
        assert(out@.take(k as int) =~= out@);
        assert(frames.len() == 0);
        assert(flatten(cur) == out@);
    }
    trees_stream(current)
}

} // verus!

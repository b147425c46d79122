//! Typed access to the children of a syntax node: the n-th child node of a
//! syntactic class, the first token of a kind, and the raw text a node spans.

use vstd::prelude::*;
use crate::kinds::{is_expr_kind, is_attr_kind, expr_kind, attr_kind, NODE_ATTRPATH, NODE_INHERIT,
    NODE_ATTRPATH_VALUE, NODE_INHERIT_FROM, NODE_IDENT, NODE_PAT_BIND, NODE_PAT_ENTRY,
    NODE_PATTERN, NODE_IDENT_PARAM, TOKEN_CONCAT, TOKEN_UPDATE, TOKEN_ADD, TOKEN_SUB, TOKEN_MUL,
    TOKEN_DIV, TOKEN_AND_AND, TOKEN_EQUAL, TOKEN_IMPLICATION, TOKEN_LESS, TOKEN_LESS_OR_EQ,
    TOKEN_MORE, TOKEN_MORE_OR_EQ, TOKEN_NOT_EQUAL, TOKEN_OR_OR, TOKEN_PIPE_LEFT, TOKEN_PIPE_RIGHT,
    TOKEN_INVERT};
use crate::tree::{Tree, Elem, Token, GTree, GElem, GToken, view_elems, lemma_view_elems};

verus! {

/// A syntactic class of nodes, as the grammar's typed layer casts them.
#[derive(Clone, Copy, PartialEq, Eq, Structural, Debug)]
pub enum Cast {
    /// Any expression node.
    Expr,
    /// One segment of an attribute path: identifier, dynamic, or string.
    Attr,
    /// An attribute path.
    Attrpath,
    /// A binding entry: an inherit clause or an attrpath-value pair.
    Entry,
    /// An attrpath-value pair alone.
    AttrpathValue,
    /// An inherit clause alone.
    Inherit,
    /// The parenthesised source of a qualified inherit.
    InheritFrom,
    /// An identifier node.
    Ident,
    /// A lambda parameter: a destructuring pattern or a plain identifier.
    Param,
    /// A destructuring pattern's `@`-alias.
    PatBind,
    /// One entry of a destructuring pattern.
    PatEntry,
}

pub open spec fn casts(c: Cast, k: u16) -> bool {
    match c {
        Cast::Expr => is_expr_kind(k),
        Cast::Attr => is_attr_kind(k),
        Cast::Attrpath => k == NODE_ATTRPATH,
        Cast::Entry => k == NODE_INHERIT || k == NODE_ATTRPATH_VALUE,
        Cast::AttrpathValue => k == NODE_ATTRPATH_VALUE,
        Cast::Inherit => k == NODE_INHERIT,
        Cast::InheritFrom => k == NODE_INHERIT_FROM,
        Cast::Ident => k == NODE_IDENT,
        Cast::Param => k == NODE_PATTERN || k == NODE_IDENT_PARAM,
        Cast::PatBind => k == NODE_PAT_BIND,
        Cast::PatEntry => k == NODE_PAT_ENTRY,
    }
}

pub fn cast_ok(c: Cast, k: u16) -> (r: bool)
    ensures
        r == casts(c, k),
{
    match c {
        Cast::Expr => expr_kind(k),
        Cast::Attr => attr_kind(k),
        Cast::Attrpath => k == NODE_ATTRPATH,
        Cast::Entry => k == NODE_INHERIT || k == NODE_ATTRPATH_VALUE,
        Cast::AttrpathValue => k == NODE_ATTRPATH_VALUE,
        Cast::Inherit => k == NODE_INHERIT,
        Cast::InheritFrom => k == NODE_INHERIT_FROM,
        Cast::Ident => k == NODE_IDENT,
        Cast::Param => k == NODE_PATTERN || k == NODE_IDENT_PARAM,
        Cast::PatBind => k == NODE_PAT_BIND,
        Cast::PatEntry => k == NODE_PAT_ENTRY,
    }
}

/// The child nodes of a given class, in document order.
pub open spec fn g_nodes(s: Seq<GElem>, c: Cast) -> Seq<GTree>
    decreases s,
{
    if s.len() == 0 {
        Seq::empty()
    } else {
        let rest = g_nodes(s.drop_first(), c);
        match s[0] {
            GElem::Node(t) => if casts(c, t.kind) {
                seq![t] + rest
            } else {
                rest
            },
            GElem::Token(_) => rest,
        }
    }
}

pub proof fn lemma_g_nodes_snoc(s: Seq<GElem>, c: Cast, i: int)
    requires
        0 <= i < s.len(),
    ensures
        g_nodes(s.take(i + 1), c) == if s[i] is Node && casts(c, s[i]->Node_0.kind) {
            g_nodes(s.take(i), c).push(s[i]->Node_0)
        } else {
            g_nodes(s.take(i), c)
        },
    decreases i,
{
    if i == 0 {
        assert(s.take(1)[0] == s[0]);
        assert(s.take(1).drop_first() =~= s.take(0));
        assert(s.take(0) =~= Seq::<GElem>::empty());
        if s[0] is Node && casts(c, s[0]->Node_0.kind) {
            assert(g_nodes(s.take(1), c) =~= g_nodes(s.take(0), c).push(s[0]->Node_0));
        }
    } else {
        lemma_g_nodes_snoc(s.drop_first(), c, i - 1);
        assert(s.take(i + 1).drop_first() =~= s.drop_first().take(i));
        assert(s.take(i).drop_first() =~= s.drop_first().take(i - 1));
        assert(s.take(i + 1)[0] == s[0]);
        assert(s.take(i)[0] == s[0]);
        assert(s.drop_first()[i - 1] == s[i]);
        if s[i] is Node && casts(c, s[i]->Node_0.kind) {
            match s[0] {
                GElem::Node(t) => {
                    if casts(c, t.kind) {
                        assert(g_nodes(s.take(i + 1), c) =~= g_nodes(s.take(i), c).push(
                            s[i]->Node_0,
                        ));
                    }
                }
                GElem::Token(_) => {}
            }
        }
    }
}

/// The n-th child node of a class, if there is one.
pub open spec fn g_nth(s: Seq<GElem>, c: Cast, n: int) -> Option<GTree> {
    if 0 <= n < g_nodes(s, c).len() {
        Some(g_nodes(s, c)[n])
    } else {
        None
    }
}

/// The child nodes of a node that the given class casts, as references.
pub fn nodes<'a>(t: &'a Tree, c: Cast) -> (r: Vec<&'a Tree>)
    ensures
        r@.len() == g_nodes(t@.children, c).len(),
        forall|i: int| 0 <= i < r@.len() ==> r@[i]@ == g_nodes(t@.children, c)[i],
{
    let ghost cs = view_elems(t.children@);
    proof {
        lemma_view_elems(t.children@);
        assert(cs.take(0) =~= Seq::<GElem>::empty());
    }
    let n = t.children.len();
    let mut out: Vec<&'a Tree> = Vec::new();
    let mut i: usize = 0;
    while i < n
        invariant
            n == t.children@.len(),
            cs == view_elems(t.children@),
            cs.len() == n,
            cs == t@.children,
            i <= n,
            out@.len() == g_nodes(cs.take(i as int), c).len(),
            forall|j: int|
                0 <= j < out@.len() ==> out@[j]@ == g_nodes(cs.take(i as int), c)[j],
        decreases n - i,
    {
        proof {
            lemma_view_elems(t.children@);
            lemma_g_nodes_snoc(cs, c, i as int);
        }
        match &t.children[i] {
            Elem::Node(sub) => {
                if cast_ok(c, sub.kind) {
                    out.push(sub);
                }
            }
            Elem::Token(_) => {}
        }
        i = i + 1;
    }
    proof {
        assert(cs.take(n as int) =~= cs);
    }
    out
}

/// The n-th child node of a class.
pub fn nth_node<'a>(t: &'a Tree, c: Cast, n: usize) -> (r: Option<&'a Tree>)
    ensures
        match r {
            Some(sub) => g_nth(t@.children, c, n as int) == Some(sub@),
            None => g_nth(t@.children, c, n as int) is None,
        },
{
    let list = nodes(t, c);
    if n < list.len() {
        Some(list[n])
    } else {
        None
    }
}

/// The token kinds that stand for a binary operator.
pub open spec fn is_bin_op_token(k: u16) -> bool {
    ||| k == TOKEN_CONCAT
    ||| k == TOKEN_UPDATE
    ||| k == TOKEN_ADD
    ||| k == TOKEN_SUB
    ||| k == TOKEN_MUL
    ||| k == TOKEN_DIV
    ||| k == TOKEN_AND_AND
    ||| k == TOKEN_EQUAL
    ||| k == TOKEN_IMPLICATION
    ||| k == TOKEN_LESS
    ||| k == TOKEN_LESS_OR_EQ
    ||| k == TOKEN_MORE
    ||| k == TOKEN_MORE_OR_EQ
    ||| k == TOKEN_NOT_EQUAL
    ||| k == TOKEN_OR_OR
    ||| k == TOKEN_PIPE_RIGHT
    ||| k == TOKEN_PIPE_LEFT
}

pub fn bin_op_token(k: u16) -> (r: bool)
    ensures
        r == is_bin_op_token(k),
{
    (k == TOKEN_CONCAT || k == TOKEN_UPDATE || k == TOKEN_ADD || k == TOKEN_SUB || k == TOKEN_MUL
        || k == TOKEN_DIV || k == TOKEN_AND_AND || k == TOKEN_EQUAL || k == TOKEN_IMPLICATION || k
        == TOKEN_LESS || k == TOKEN_LESS_OR_EQ || k == TOKEN_MORE || k == TOKEN_MORE_OR_EQ || k
        == TOKEN_NOT_EQUAL || k == TOKEN_OR_OR || k == TOKEN_PIPE_RIGHT || k == TOKEN_PIPE_LEFT)
}

/// The token kinds that stand for a unary operator.
pub open spec fn is_unary_op_token(k: u16) -> bool {
    k == TOKEN_INVERT || k == TOKEN_SUB
}

pub fn unary_op_token(k: u16) -> (r: bool)
    ensures
        r == is_unary_op_token(k),
{
    k == TOKEN_INVERT || k == TOKEN_SUB
}

/// A class of tokens to search for among a node's direct children.
#[derive(Clone, Copy, PartialEq, Eq, Structural, Debug)]
pub enum TokClass {
    Kind(u16),
    BinOp,
    UnaryOp,
}

pub open spec fn tok_casts(c: TokClass, k: u16) -> bool {
    match c {
        TokClass::Kind(want) => k == want,
        TokClass::BinOp => is_bin_op_token(k),
        TokClass::UnaryOp => is_unary_op_token(k),
    }
}

pub fn tok_cast_ok(c: TokClass, k: u16) -> (r: bool)
    ensures
        r == tok_casts(c, k),
{
    match c {
        TokClass::Kind(want) => k == want,
        TokClass::BinOp => bin_op_token(k),
        TokClass::UnaryOp => unary_op_token(k),
    }
}

/// The first direct child token of a class, if there is one.
pub open spec fn g_first_token(s: Seq<GElem>, c: TokClass) -> Option<GToken>
    decreases s,
{
    if s.len() == 0 {
        None
    } else {
        match s[0] {
            GElem::Token(tok) => if tok_casts(c, tok.kind) {
                Some(tok)
            } else {
                g_first_token(s.drop_first(), c)
            },
            GElem::Node(_) => g_first_token(s.drop_first(), c),
        }
    }
}

pub fn first_token<'a>(t: &'a Tree, c: TokClass) -> (r: Option<&'a Token>)
    ensures
        match r {
            Some(tok) => g_first_token(t@.children, c) == Some(tok@),
            None => g_first_token(t@.children, c) is None,
        },
{
    let ghost cs = view_elems(t.children@);
    proof {
        lemma_view_elems(t.children@);
        assert(cs.skip(0) =~= cs);
    }
    let n = t.children.len();
    let mut i: usize = 0;
    let mut found: Option<&'a Token> = None;
    while i < n && found.is_none()
        invariant
            n == t.children@.len(),
            cs == view_elems(t.children@),
            cs.len() == n,
            cs == t@.children,
            i <= n,
            match found {
                Some(tok) => g_first_token(cs, c) == Some(tok@),
                None => g_first_token(cs, c) == g_first_token(cs.skip(i as int), c),
            },
        decreases n - i,
    {
        proof {
            lemma_view_elems(t.children@);
            assert(cs.skip(i as int)[0] == cs[i as int]);
            assert(cs.skip(i as int).drop_first() =~= cs.skip(i + 1));
        }
        match &t.children[i] {
            Elem::Token(tok) => {
                if tok_cast_ok(c, tok.kind) {
                    found = Some(tok);
                }
            }
            Elem::Node(_) => {}
        }
        i = i + 1;
    }
    proof {
        if found is None {
            assert(cs.skip(n as int) =~= Seq::<GElem>::empty());
        }
    }
    found
}

// ------------------------------------------------------------------
// The raw text a node spans.
// ------------------------------------------------------------------
/// The source text a node spans: the concatenation of its tokens' texts.
pub open spec fn g_text(t: GTree) -> Seq<char>
    decreases t,
{
    g_text_elems(t.children)
}

pub open spec fn g_text_elems(s: Seq<GElem>) -> Seq<char>
    decreases s,
{
    if s.len() == 0 {
        Seq::empty()
    } else {
        g_text_elem(s[0]) + g_text_elems(s.drop_first())
    }
}

pub open spec fn g_text_elem(e: GElem) -> Seq<char>
    decreases e,
{
    match e {
        GElem::Node(t) => g_text(t),
        GElem::Token(tok) => tok.text,
    }
}

pub proof fn lemma_g_text_elems_snoc(s: Seq<GElem>, i: int)
    requires
        0 <= i < s.len(),
    ensures
        g_text_elems(s.take(i + 1)) == g_text_elems(s.take(i)) + g_text_elem(s[i]),
    decreases i,
{
    if i == 0 {
        assert(s.take(1).drop_first() =~= Seq::<GElem>::empty());
        assert(s.take(1)[0] == s[0]);
        assert(s.take(0) =~= Seq::<GElem>::empty());
        assert(g_text_elems(s.take(1)) =~= g_text_elems(s.take(0)) + g_text_elem(s[0]));
    } else {
        lemma_g_text_elems_snoc(s.drop_first(), i - 1);
        assert(s.take(i + 1).drop_first() =~= s.drop_first().take(i));
        assert(s.take(i).drop_first() =~= s.drop_first().take(i - 1));
        assert(s.take(i + 1)[0] == s[0]);
        assert(s.take(i)[0] == s[0]);
        assert(s.drop_first()[i - 1] == s[i]);
        assert(g_text_elems(s.take(i + 1)) =~= g_text_elems(s.take(i)) + g_text_elem(s[i]));
    }
}

/// Appends the raw text of a node to the accumulator.
pub fn push_text(t: &Tree, out: &mut Vec<char>)
    ensures
        final(out)@ == old(out)@ + g_text(t@),
    decreases *t,
{
    let ghost cs = view_elems(t.children@);
    proof {
        lemma_view_elems(t.children@);
        assert(cs.take(0) =~= Seq::<GElem>::empty());
        assert(old(out)@ + g_text_elems(cs.take(0)) =~= old(out)@);
    }
    let n = t.children.len();
    let mut i: usize = 0;
    while i < n
        invariant
            n == t.children@.len(),
            cs == view_elems(t.children@),
            cs.len() == n,
            cs == t@.children,
            i <= n,
            out@ == old(out)@ + g_text_elems(cs.take(i as int)),
        decreases n - i,
    {
        proof {
            lemma_view_elems(t.children@);
            lemma_g_text_elems_snoc(cs, i as int);
        }
        match &t.children[i] {
            Elem::Node(sub) => {
                push_text(sub, out);
            }
            Elem::Token(tok) => {
                crate::strutil::push_str_chars(&tok.text, out);
            }
        }
        i = i + 1;
    }
    proof {
        assert(cs.take(n as int) =~= cs);
    }
}

/// The raw text of a node as a fresh character list.
pub fn node_text(t: &Tree) -> (r: Vec<char>)
    ensures
        r@ == g_text(t@),
{
    let mut out: Vec<char> = Vec::new();
    push_text(t, &mut out);
    out
}


// ------------------------------------------------------------------
// A size measure for termination of mutual recursion over the tree.
// ------------------------------------------------------------------
/// The number of elements a node holds, itself included.
pub open spec fn g_size(t: GTree) -> nat
    decreases t,
{
    1 + g_size_elems(t.children)
}

pub open spec fn g_size_elems(s: Seq<GElem>) -> nat
    decreases s,
{
    if s.len() == 0 {
        0
    } else {
        g_size_elem(s[0]) + g_size_elems(s.drop_first())
    }
}

pub open spec fn g_size_elem(e: GElem) -> nat
    decreases e,
{
    match e {
        GElem::Node(t) => g_size(t),
        GElem::Token(_) => 1,
    }
}

pub open spec fn g_size_trees(ts: Seq<GTree>) -> nat
    decreases ts,
{
    if ts.len() == 0 {
        0
    } else {
        g_size(ts[0]) + g_size_trees(ts.drop_first())
    }
}

/// The size of an optional node, an absent one counting nothing.
pub open spec fn g_size_opt(o: Option<GTree>) -> nat {
    match o {
        Some(t) => g_size(t),
        None => 0,
    }
}

/// Every element of a child list weighs no more than the list.
pub proof fn lemma_g_size_elems_index(s: Seq<GElem>, i: int)
    requires
        0 <= i < s.len(),
    ensures
        g_size_elem(s[i]) <= g_size_elems(s),
    decreases i,
{
    if i > 0 {
        lemma_g_size_elems_index(s.drop_first(), i - 1);
        assert(s.drop_first()[i - 1] == s[i]);
    }
}

/// Every element of a list of trees weighs no more than the list.
pub proof fn lemma_g_size_trees_index(ts: Seq<GTree>, i: int)
    requires
        0 <= i < ts.len(),
    ensures
        g_size(ts[i]) <= g_size_trees(ts),
    decreases i,
{
    if i > 0 {
        lemma_g_size_trees_index(ts.drop_first(), i - 1);
        assert(ts.drop_first()[i - 1] == ts[i]);
    }
}

/// The nodes of a class weigh no more than the children they come from.
pub proof fn lemma_g_nodes_size(s: Seq<GElem>, c: Cast)
    ensures
        g_size_trees(g_nodes(s, c)) <= g_size_elems(s),
    decreases s,
{
    if s.len() > 0 {
        lemma_g_nodes_size(s.drop_first(), c);
        assert(g_size_elems(s) == g_size_elem(s[0]) + g_size_elems(s.drop_first()));
        match s[0] {
            GElem::Node(t) => {
                if casts(c, t.kind) {
                    let w = g_nodes(s, c);
                    assert(w == seq![t] + g_nodes(s.drop_first(), c));
                    assert(w[0] == t);
                    assert(w.len() > 0);
                    assert(w.drop_first() =~= g_nodes(s.drop_first(), c));
                    assert(g_size_trees(w) == g_size(t) + g_size_trees(g_nodes(s.drop_first(), c)));
                }
            }
            GElem::Token(_) => {}
        }
    }
}

/// Any node of a class found among the children weighs less than the node
/// that holds them.
pub proof fn lemma_g_nth_size(s: Seq<GElem>, c: Cast, n: int)
    ensures
        g_size_opt(g_nth(s, c, n)) <= g_size_elems(s),
{
    if 0 <= n < g_nodes(s, c).len() {
        lemma_g_size_trees_index(g_nodes(s, c), n);
        lemma_g_nodes_size(s, c);
    }
}

/// A list of trees loses its first element's weight when dropped.
pub proof fn lemma_g_size_trees_drop(ts: Seq<GTree>)
    requires
        ts.len() > 0,
    ensures
        g_size_trees(ts.drop_first()) < g_size_trees(ts),
{
}

} // verus!


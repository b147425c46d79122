//! Locating a byte offset in the tree: the token it touches, the enclosing
//! expression, and how the position is classified — a plain position, a
//! segment of an attribute path, a name in an inherit clause, or a spot in a
//! destructuring parameter.  Nodes are addressed by paths of child indices
//! from the root, and a node's enclosing scope is the chain of its
//! expression ancestors.

use vstd::prelude::*;
use crate::kinds::{is_expr_kind, expr_kind, NODE_ROOT, NODE_ATTRPATH, NODE_INHERIT,
    NODE_PAT_ENTRY, NODE_PAT_BIND, TOKEN_IDENT, TOKEN_WHITESPACE};
use crate::node::{Cast, casts, cast_ok, g_nodes, lemma_g_nodes_snoc};
use crate::tree::{Tree, Elem, GTree, GElem, Span, view_elems, view_elem, lemma_view_elems};

verus! {

/// Whether a path of child indices names a node below `t`.
pub open spec fn valid_path(t: GTree, path: Seq<int>) -> bool
    decreases path.len(),
{
    path.len() == 0 || (0 <= path[0] < t.children.len() && t.children[path[0]] is Node
        && valid_path(t.children[path[0]]->Node_0, path.drop_first()))
}

/// The node a path names.
pub open spec fn node_at(t: GTree, path: Seq<int>) -> GTree
    decreases path.len(),
{
    if path.len() == 0 {
        t
    } else if 0 <= path[0] < t.children.len() && t.children[path[0]] is Node {
        node_at(t.children[path[0]]->Node_0, path.drop_first())
    } else {
        t
    }
}

pub open spec fn path_view(p: Seq<usize>) -> Seq<int> {
    p.map_values(|i: usize| i as int)
}

/// The node a path of child indices names, where the path is valid.
pub fn node_at_path<'a>(root: &'a Tree, path: &Vec<usize>) -> (r: Option<&'a Tree>)
    ensures
        match r {
            Some(t) => valid_path(root@, path_view(path@)) && t@ == node_at(
                root@,
                path_view(path@),
            ),
            None => !valid_path(root@, path_view(path@)),
        },
{
    proof {
        assert(path_view(path@).skip(0) =~= path_view(path@));
    }
    node_at_path_from(root, path, 0)
}

fn node_at_path_from<'a>(root: &'a Tree, path: &Vec<usize>, from: usize) -> (r: Option<&'a Tree>)
    requires
        from <= path@.len(),
    ensures
        match r {
            Some(t) => valid_path(root@, path_view(path@).skip(from as int)) && t@ == node_at(
                root@,
                path_view(path@).skip(from as int),
            ),
            None => !valid_path(root@, path_view(path@).skip(from as int)),
        },
    decreases path@.len() - from,
{
    let ghost rest = path_view(path@).skip(from as int);
    if from == path.len() {
        proof {
            assert(rest =~= Seq::<int>::empty());
        }
        return Some(root);
    }
    proof {
        assert(rest[0] == path@[from as int] as int);
        assert(rest.drop_first() =~= path_view(path@).skip(from + 1));
    }
    let i = path[from];
    if i >= root.children.len() {
        proof {
            lemma_view_elems(root.children@);
        }
        return None;
    }
    proof {
        lemma_view_elems(root.children@);
        assert(root@.children[i as int] == view_elem(root.children@[i as int]));
    }
    match &root.children[i] {
        Elem::Node(sub) => node_at_path_from(sub, path, from + 1),
        Elem::Token(_) => None,
    }
}

/// A shallow copy of an index path.
pub fn clone_path(p: &Vec<usize>) -> (r: Vec<usize>)
    ensures
        r@ == p@,
{
    let mut r: Vec<usize> = Vec::new();
    let n = p.len();
    let mut i: usize = 0;
    while i < n
        invariant
            n == p@.len(),
            i <= n,
            r@ == p@.take(i as int),
        decreases n - i,
    {
        r.push(p[i]);
        proof {
            assert(p@.take(i + 1) =~= p@.take(i as int).push(p@[i as int]));
        }
        i = i + 1;
    }
    proof {
        assert(p@.take(n as int) =~= p@);
    }
    r
}

// ------------------------------------------------------------------
// Ancestors.
// ------------------------------------------------------------------
/// The expression ancestors of a node, innermost first: the proper prefixes
/// of its path that name expression nodes, the file root excluded.
pub open spec fn g_ancestors(root: GTree, path: Seq<int>) -> Seq<Seq<int>>
    decreases path.len(),
{
    if path.len() == 0 {
        Seq::empty()
    } else {
        let p = path.drop_last();
        let rest = g_ancestors(root, p);
        if is_expr_kind(node_at(root, p).kind) && node_at(root, p).kind != NODE_ROOT {
            seq![p] + rest
        } else {
            rest
        }
    }
}

/// The expression ancestors of the node a path names, innermost first, as
/// paths; the file root is not among them.
pub fn ancestor_paths(root: &Tree, path: &Vec<usize>) -> (r: Vec<Vec<usize>>)
    requires
        valid_path(root@, path_view(path@)),
    ensures
        r@.len() == g_ancestors(root@, path_view(path@)).len(),
        forall|i: int|
            0 <= i < r@.len() ==> path_view(r@[i]@) == g_ancestors(root@, path_view(path@))[i],
    decreases path@.len(),
{
    let ghost gp = path_view(path@);
    if path.len() == 0 {
        proof {
            assert(gp =~= Seq::<int>::empty());
        }
        return Vec::new();
    }
    let mut shorter = clone_path(path);
    let _last = shorter.pop();
    proof {
        assert(path_view(shorter@) =~= gp.drop_last());
    }
    proof {
        lemma_valid_prefix(root@, gp);
    }
    let rest = ancestor_paths(root, &shorter);
    match node_at_path(root, &shorter) {
        Some(node) => {
            if expr_kind(node.kind) && node.kind != NODE_ROOT {
                let mut out: Vec<Vec<usize>> = Vec::new();
                out.push(shorter);
                let mut k: usize = 0;
                let n = rest.len();
                while k < n
                    invariant
                        n == rest@.len(),
                        k <= n,
                        out@.len() == k + 1,
                        path_view(out@[0]@) == gp.drop_last(),
                        forall|i: int| 1 <= i < out@.len() ==> out@[i]@ == rest@[i - 1]@,
                    decreases n - k,
                {
                    let item = clone_path(&rest[k]);
                    proof {
                        assert(item@ == rest@[k as int]@);
                    }
                    out.push(item);
                    k = k + 1;
                }
                proof {
                    let g = g_ancestors(root@, gp);
                    assert(g == seq![gp.drop_last()] + g_ancestors(root@, gp.drop_last()));
                    assert forall|i: int|
                        0 <= i < out@.len() implies path_view(out@[i]@) == g[i] by {
                        if i >= 1 {
                            assert(out@[i]@ == rest@[i - 1]@);
                            assert(g[i] == g_ancestors(root@, gp.drop_last())[i - 1]);
                        }
                    }
                }
                out
            } else {
                proof {
                    assert(g_ancestors(root@, gp) == g_ancestors(root@, gp.drop_last()));
                }
                rest
            }
        }
        None => {
            // a prefix of a valid path is itself valid, so this cannot arise
            proof {
                lemma_valid_prefix(root@, gp);
                assert(false);
            }
            Vec::new()
        }
    }
}

/// Every proper prefix of a valid path is valid.
pub proof fn lemma_valid_prefix(root: GTree, path: Seq<int>)
    requires
        path.len() > 0,
        valid_path(root, path),
    ensures
        valid_path(root, path.drop_last()),
    decreases path.len(),
{
    if path.len() == 1 {
        assert(path.drop_last() =~= Seq::<int>::empty());
    } else {
        assert(path.drop_last()[0] == path[0]);
        assert(path.drop_last().drop_first() =~= path.drop_first().drop_last());
        lemma_valid_prefix(root.children[path[0]]->Node_0, path.drop_first());
    }
}



/// Extending a valid path by a node child stays valid and lands on that
/// child.
pub proof fn lemma_path_extend(root: GTree, p: Seq<int>, i: int)
    requires
        valid_path(root, p),
        0 <= i < node_at(root, p).children.len(),
        node_at(root, p).children[i] is Node,
    ensures
        valid_path(root, p.push(i)),
        node_at(root, p.push(i)) == node_at(root, p).children[i]->Node_0,
    decreases p.len(),
{
    if p.len() == 0 {
        assert(p.push(i)[0] == i);
        assert(p.push(i).drop_first() =~= Seq::<int>::empty());
        assert(node_at(root, p) == root);
        assert(valid_path(root.children[i]->Node_0, p.push(i).drop_first()));
        assert(valid_path(root, p.push(i)));
        assert(node_at(root, p.push(i)) == node_at(root.children[i]->Node_0, p.push(i).drop_first()));
    } else {
        assert(p.push(i)[0] == p[0]);
        assert(p.push(i).drop_first() =~= p.drop_first().push(i));
        assert(node_at(root, p) == node_at(root.children[p[0]]->Node_0, p.drop_first()));
        lemma_path_extend(root.children[p[0]]->Node_0, p.drop_first(), i);
        assert(valid_path(root, p.push(i)));
        assert(node_at(root, p.push(i)) == node_at(root.children[p[0]]->Node_0, p.push(i).drop_first()));
    }
}

// ------------------------------------------------------------------
// Tokens at an offset.
// ------------------------------------------------------------------
/// A token touching the sought offset, with the path of the node that holds
/// it.
pub struct TokenAt {
    pub kind: u16,
    pub span: Span,
    pub text: String,
    pub parent: Vec<usize>,
}

/// Mathematical model of a found token.
#[verifier::ext_equal]
pub struct GTokenAt {
    pub kind: u16,
    pub span: Span,
    pub text: Seq<char>,
    pub parent: Seq<int>,
}

impl View for TokenAt {
    type V = GTokenAt;

    open spec fn view(&self) -> GTokenAt {
        GTokenAt {
            kind: self.kind,
            span: self.span,
            text: self.text@,
            parent: path_view(self.parent@),
        }
    }
}

pub open spec fn cands_view(s: Seq<TokenAt>) -> Seq<GTokenAt> {
    s.map_values(|c: TokenAt| c@)
}

/// Whether an offset touches a span: it lies inside it, or at either edge,
/// the way a cursor between two tokens touches both.
pub open spec fn touches(span: Span, off: int) -> bool {
    span.start <= off <= span.end
}

/// The tokens under a node that an offset touches, in document order, each
/// with the path of its holder.
pub open spec fn g_candidates(t: GTree, here: Seq<int>, off: int) -> Seq<GTokenAt>
    decreases crate::node::g_size(t), 1int,
{
    proof {
        assert(crate::node::g_size(t) == 1 + crate::node::g_size_elems(t.children));
    }
    g_cands_elems(t.children, here, 0, off)
}

pub open spec fn g_cands_elems(s: Seq<GElem>, here: Seq<int>, idx: int, off: int) -> Seq<GTokenAt>
    decreases crate::node::g_size_elems(s), 2int,
{
    if s.len() == 0 {
        Seq::empty()
    } else {
        proof {
            assert(crate::node::g_size_elems(s) == crate::node::g_size_elem(s[0])
                + crate::node::g_size_elems(s.drop_first()));
            match s[0] {
                GElem::Node(sub) => {
                    assert(crate::node::g_size_elem(s[0]) == crate::node::g_size(sub));
                    assert(crate::node::g_size(sub) >= 1);
                }
                GElem::Token(_) => {
                    assert(crate::node::g_size_elem(s[0]) == 1);
                }
            }
        }
        (match s[0] {
            GElem::Token(tok) => if touches(tok.span, off) {
                seq![GTokenAt { kind: tok.kind, span: tok.span, text: tok.text, parent: here }]
            } else {
                Seq::empty()
            },
            GElem::Node(sub) => g_candidates(sub, here.push(idx), off),
        }) + g_cands_elems(s.drop_first(), here, idx + 1, off)
    }
}

/// Collects the touched tokens under a subtree sitting at a valid path.
fn collect_candidates(
    root: &Tree,
    t: &Tree,
    here: &Vec<usize>,
    off: u32,
    out: &mut Vec<TokenAt>,
)
    requires
        valid_path(root@, path_view(here@)),
        node_at(root@, path_view(here@)) == t@,
    ensures
        cands_view(final(out)@) == cands_view(old(out)@) + g_candidates(
            t@,
            path_view(here@),
            off as int,
        ),
        old(out)@.len() <= final(out)@.len(),
        forall|i: int|
            old(out)@.len() <= i < final(out)@.len() ==> valid_path(
                root@,
                final(out)@[i]@.parent,
            ),
        forall|i: int| 0 <= i < old(out)@.len() ==> final(out)@[i] == old(out)@[i],
    decreases crate::node::g_size(t@), 1int,
{
    let ghost cs = view_elems(t.children@);
    proof {
        lemma_view_elems(t.children@);
        assert(cs == t@.children);
        assert(crate::node::g_size(t@) == 1 + crate::node::g_size_elems(cs));
        assert(cs.skip(0) =~= cs);
    }
    let n = t.children.len();
    let mut i: usize = 0;
    while i < n
        invariant
            n == t.children@.len(),
            cs == view_elems(t.children@),
            cs == t@.children,
            cs.len() == n,
            i <= n,
            valid_path(root@, path_view(here@)),
            node_at(root@, path_view(here@)) == t@,
            cands_view(out@) + g_cands_elems(cs.skip(i as int), path_view(here@), i as int, off as int)
                == cands_view(old(out)@) + g_cands_elems(cs, path_view(here@), 0, off as int),
            old(out)@.len() <= out@.len(),
            forall|k: int|
                old(out)@.len() <= k < out@.len() ==> valid_path(root@, out@[k]@.parent),
            forall|k: int| 0 <= k < old(out)@.len() ==> out@[k] == old(out)@[k],
        decreases n - i,
    {
        proof {
            lemma_view_elems(t.children@);
            assert(cs.skip(i as int)[0] == cs[i as int]);
            assert(cs.skip(i as int).drop_first() =~= cs.skip(i + 1));
        }
        match &t.children[i] {
            Elem::Token(tok) => {
                if tok.span.start <= off && off <= tok.span.end {
                    let ghost before = out@;
                    out.push(
                        TokenAt {
                            kind: tok.kind,
                            span: tok.span,
                            text: tok.text.clone(),
                            parent: clone_path(here),
                        },
                    );
                    proof {
                        assert(out@.last()@ == GTokenAt {
                            kind: cs[i as int]->Token_0.kind,
                            span: cs[i as int]->Token_0.span,
                            text: cs[i as int]->Token_0.text,
                            parent: path_view(here@),
                        });
                        assert(cands_view(out@) =~= cands_view(before).push(out@.last()@));
                        assert(cands_view(before).push(out@.last()@) + g_cands_elems(
                            cs.skip(i + 1),
                            path_view(here@),
                            i + 1,
                            off as int,
                        ) =~= cands_view(before) + (seq![out@.last()@] + g_cands_elems(
                            cs.skip(i + 1),
                            path_view(here@),
                            i + 1,
                            off as int,
                        )));
                    }
                } else {
                    proof {
                        assert(Seq::<GTokenAt>::empty() + g_cands_elems(
                            cs.skip(i + 1),
                            path_view(here@),
                            i + 1,
                            off as int,
                        ) =~= g_cands_elems(cs.skip(i + 1), path_view(here@), i + 1, off as int));
                    }
                }
            }
            Elem::Node(sub) => {
                let mut here2 = clone_path(here);
                here2.push(i);
                proof {
                    assert(path_view(here2@) =~= path_view(here@).push(i as int));
                    lemma_path_extend(root@, path_view(here@), i as int);
                    crate::node::lemma_g_size_elems_index(cs, i as int);
                    assert(crate::node::g_size_elem(cs[i as int]) == crate::node::g_size(sub@));
                    assert(crate::node::g_size(sub@) < crate::node::g_size(t@));
                }
                let ghost pre = out@;
                collect_candidates(root, sub, &here2, off, out);
                proof {
                    assert(cands_view(pre) + (g_candidates(
                        node_at(root@, path_view(here2@)),
                        path_view(here2@),
                        off as int,
                    ) + g_cands_elems(cs.skip(i + 1), path_view(here@), i + 1, off as int)) =~= (
                    cands_view(pre) + g_candidates(
                        node_at(root@, path_view(here2@)),
                        path_view(here2@),
                        off as int,
                    )) + g_cands_elems(cs.skip(i + 1), path_view(here@), i + 1, off as int));
                }
            }
        }
        i = i + 1;
    }
    proof {
        assert(cs.skip(n as int) =~= Seq::<GElem>::empty());
        assert(cands_view(out@) + Seq::<GTokenAt>::empty() =~= cands_view(out@));
        assert(g_candidates(t@, path_view(here@), off as int) == g_cands_elems(
            cs,
            path_view(here@),
            0,
            off as int,
        ));
    }
}

/// The preference class of a token under the cursor: identifiers are
/// preferred, whitespace comes last.
pub open spec fn tok_class(k: u16) -> int {
    if k == TOKEN_IDENT {
        2
    } else if k == TOKEN_WHITESPACE {
        0
    } else {
        1
    }
}

/// The preferred token among the candidates: the highest class, the last of
/// equals.
pub open spec fn g_pick(cands: Seq<GTokenAt>) -> Option<GTokenAt>
    decreases cands.len(),
{
    if cands.len() == 0 {
        None
    } else {
        match g_pick(cands.drop_last()) {
            None => Some(cands.last()),
            Some(b) => if tok_class(cands.last().kind) >= tok_class(b.kind) {
                Some(cands.last())
            } else {
                Some(b)
            },
        }
    }
}


/// How a located position is classified relative to its enclosing
/// expression.
pub enum LocationWithinExpr {
    /// An ordinary position inside the expression.
    Normal,
    /// On the n-th name of an inherit clause, given by its path.
    Inherit(Vec<usize>, usize),
    /// On the n-th segment of an attribute path, given by its path.
    Attrpath(Vec<usize>, usize),
    /// Inside one entry of a destructuring parameter.
    PatEntry,
    /// On a destructuring parameter's alias.
    PatBind,
}

/// Mathematical model of a classification.
#[verifier::ext_equal]
pub enum GLocationWithin {
    Normal,
    Inherit(Seq<int>, int),
    Attrpath(Seq<int>, int),
    PatEntry,
    PatBind,
}

impl View for LocationWithinExpr {
    type V = GLocationWithin;

    open spec fn view(&self) -> GLocationWithin {
        match self {
            LocationWithinExpr::Normal => GLocationWithin::Normal,
            LocationWithinExpr::Inherit(p, i) => GLocationWithin::Inherit(
                path_view(p@),
                *i as int,
            ),
            LocationWithinExpr::Attrpath(p, i) => GLocationWithin::Attrpath(
                path_view(p@),
                *i as int,
            ),
            LocationWithinExpr::PatEntry => GLocationWithin::PatEntry,
            LocationWithinExpr::PatBind => GLocationWithin::PatBind,
        }
    }
}

/// A located cursor: the touched token, the enclosing expression's path, and
/// the classification of the position.
pub struct TokenLocation {
    pub token_kind: u16,
    pub token_span: Span,
    pub token_text: String,
    pub expr: Vec<usize>,
    pub location_within: LocationWithinExpr,
}

/// Mathematical model of a located cursor.
#[verifier::ext_equal]
pub struct GTokenLocation {
    pub token_kind: u16,
    pub token_span: Span,
    pub token_text: Seq<char>,
    pub expr: Seq<int>,
    pub location_within: GLocationWithin,
}

impl View for TokenLocation {
    type V = GTokenLocation;

    open spec fn view(&self) -> GTokenLocation {
        GTokenLocation {
            token_kind: self.token_kind,
            token_span: self.token_span,
            token_text: self.token_text@,
            expr: path_view(self.expr@),
            location_within: self.location_within@,
        }
    }
}

/// The nearest enclosing expression: the longest prefix of the path naming
/// an expression node, the root counting as one.
pub open spec fn g_climb(root: GTree, path: Seq<int>) -> Seq<int>
    decreases path.len(),
{
    if is_expr_kind(node_at(root, path).kind) {
        path
    } else if path.len() == 0 {
        path
    } else {
        g_climb(root, path.drop_last())
    }
}

/// The position of the node child at index `i` among the children of its
/// class, where it is of that class.
pub open spec fn g_class_pos(s: Seq<GElem>, c: Cast, i: int) -> Option<int> {
    if 0 <= i < s.len() && s[i] is Node && casts(c, s[i]->Node_0.kind) {
        Some(g_nodes(s.take(i), c).len() as int)
    } else {
        None
    }
}

/// The classification of a climbed expression path: how the expression sits
/// in its own parent.
pub open spec fn g_classify(root: GTree, e0: Seq<int>) -> Option<GTokenLocation>
    recommends
        valid_path(root, e0),
{
    if e0.len() == 0 {
        Some(
            GTokenLocation {
                token_kind: 0,
                token_span: Span { start: 0, end: 0 },
                token_text: Seq::empty(),
                expr: e0,
                location_within: GLocationWithin::Normal,
            },
        )
    } else {
        let parent = e0.drop_last();
        let pk = node_at(root, parent).kind;
        let pcs = node_at(root, parent).children;
        if pk == NODE_ATTRPATH {
            match g_class_pos(pcs, Cast::Attr, e0.last()) {
                Some(k) => Some(
                    GTokenLocation {
                        token_kind: 0,
                        token_span: Span { start: 0, end: 0 },
                        token_text: Seq::empty(),
                        expr: g_climb(root, parent),
                        location_within: GLocationWithin::Attrpath(parent, k),
                    },
                ),
                None => None,
            }
        } else if pk == NODE_INHERIT {
            match g_class_pos(pcs, Cast::Attr, e0.last()) {
                Some(k) => Some(
                    GTokenLocation {
                        token_kind: 0,
                        token_span: Span { start: 0, end: 0 },
                        token_text: Seq::empty(),
                        expr: g_climb(root, parent),
                        location_within: GLocationWithin::Inherit(parent, k),
                    },
                ),
                None => None,
            }
        } else if pk == NODE_PAT_ENTRY {
            Some(
                GTokenLocation {
                    token_kind: 0,
                    token_span: Span { start: 0, end: 0 },
                    token_text: Seq::empty(),
                    expr: g_climb(root, parent),
                    location_within: GLocationWithin::PatEntry,
                },
            )
        } else if pk == NODE_PAT_BIND {
            Some(
                GTokenLocation {
                    token_kind: 0,
                    token_span: Span { start: 0, end: 0 },
                    token_text: Seq::empty(),
                    expr: g_climb(root, parent),
                    location_within: GLocationWithin::PatBind,
                },
            )
        } else {
            Some(
                GTokenLocation {
                    token_kind: 0,
                    token_span: Span { start: 0, end: 0 },
                    token_text: Seq::empty(),
                    expr: e0,
                    location_within: GLocationWithin::Normal,
                },
            )
        }
    }
}

/// Where an offset falls in the tree: the preferred touched token, the
/// enclosing expression, and the position's classification.  `None` where no
/// token touches the offset, or where a path segment cannot be placed among
/// its siblings.
pub open spec fn g_locate(root: GTree, off: int) -> Option<GTokenLocation> {
    match g_pick(g_candidates(root, Seq::empty(), off)) {
        None => None,
        Some(tok) => match g_classify(root, g_climb(root, tok.parent)) {
            None => None,
            Some(loc) => Some(
                GTokenLocation {
                    token_kind: tok.kind,
                    token_span: tok.span,
                    token_text: tok.text,
                    expr: loc.expr,
                    location_within: loc.location_within,
                },
            ),
        },
    }
}

/// A climbed path is a prefix of the one climbed from, stays valid, and
/// names an expression.
pub proof fn lemma_climb_valid(root: GTree, path: Seq<int>)
    requires
        valid_path(root, path),
        is_expr_kind(root.kind),
    ensures
        valid_path(root, g_climb(root, path)),
        is_expr_kind(node_at(root, g_climb(root, path)).kind),
    decreases path.len(),
{
    if is_expr_kind(node_at(root, path).kind) {
    } else if path.len() == 0 {
        assert(node_at(root, path) == root);
    } else {
        lemma_valid_prefix(root, path);
        lemma_climb_valid(root, path.drop_last());
    }
}

/// Climbs to the nearest enclosing expression node.
fn climb_expr(root: &Tree, path: Vec<usize>) -> (r: Vec<usize>)
    requires
        valid_path(root@, path_view(path@)),
        is_expr_kind(root@.kind),
    ensures
        path_view(r@) == g_climb(root@, path_view(path@)),
        valid_path(root@, path_view(r@)),
    decreases path@.len(),
{
    match node_at_path(root, &path) {
        Some(node) => {
            if expr_kind(node.kind) {
                path
            } else {
                if path.len() == 0 {
                    proof {
                        assert(node_at(root@, path_view(path@)) == root@);
                        assert(false);
                    }
                    path
                } else {
                    let mut shorter = path;
                    let _ = shorter.pop();
                    proof {
                        assert(path_view(shorter@) =~= path_view(path@).drop_last());
                        lemma_valid_prefix(root@, path_view(path@));
                    }
                    climb_expr(root, shorter)
                }
            }
        }
        None => {
            proof {
                assert(false);
            }
            path
        }
    }
}

/// Where a byte offset falls: the touched token (identifiers preferred over
/// other tokens, whitespace last), the enclosing expression, and how that
/// position is classified.  `None` where nothing touches the offset.
pub fn locate_cursor(root: &Tree, offset: u32) -> (r: Option<TokenLocation>)
    requires
        is_expr_kind(root@.kind),
    ensures
        match r {
            Some(loc) => g_locate(root@, offset as int) == Some(loc@) && valid_path(
                root@,
                loc@.expr,
            ) && (match loc@.location_within {
                GLocationWithin::Inherit(cl, _) => valid_path(root@, cl),
                GLocationWithin::Attrpath(ap, _) => valid_path(root@, ap),
                _ => true,
            }),
            None => g_locate(root@, offset as int) is None,
        },
{
    let empty_path: Vec<usize> = Vec::new();
    let mut cands: Vec<TokenAt> = Vec::new();
    proof {
        assert(path_view(empty_path@) =~= Seq::<int>::empty());
        assert(cands_view(cands@) =~= Seq::<GTokenAt>::empty());
    }
    collect_candidates(root, root, &empty_path, offset, &mut cands);
    let ghost gcands = g_candidates(root@, Seq::empty(), offset as int);
    proof {
        assert(cands_view(cands@) =~= Seq::<GTokenAt>::empty() + gcands);
        assert(cands_view(cands@) =~= gcands);
    }
    let n = cands.len();
    let mut best: Option<usize> = None;
    let mut i: usize = 0;
    proof {
        assert(gcands.take(0) =~= Seq::<GTokenAt>::empty());
    }
    while i < n
        invariant
            n == cands@.len(),
            cands_view(cands@) == gcands,
            gcands.len() == n,
            i <= n,
            match best {
                Some(b) => b < i && g_pick(gcands.take(i as int)) == Some(cands@[b as int]@),
                None => i == 0 && g_pick(gcands.take(i as int)) is None,
            },
        decreases n - i,
    {
        proof {
            assert(gcands.take(i + 1).drop_last() =~= gcands.take(i as int));
            assert(gcands.take(i + 1).last() == gcands[i as int]);
        }
        match best {
            None => {
                best = Some(i);
            }
            Some(b) => {
                let cb = tok_pref(cands[b].kind);
                let ci = tok_pref(cands[i].kind);
                if ci >= cb {
                    best = Some(i);
                }
            }
        }
        i = i + 1;
    }
    proof {
        assert(gcands.take(n as int) =~= gcands);
    }
    match best {
        None => None,
        Some(b) => {
            let tok = &cands[b];
            proof {
                assert(valid_path(root@, tok@.parent));
            }
            let e0 = climb_expr(root, clone_path(&tok.parent));
            match classify(root, e0) {
                None => None,
                Some((expr_path, within)) => {
                    Some(
                        TokenLocation {
                            token_kind: tok.kind,
                            token_span: tok.span,
                            token_text: tok.text.clone(),
                            expr: expr_path,
                            location_within: within,
                        },
                    )
                }
            }
        }
    }
}

/// The preference class of a token kind.
fn tok_pref(k: u16) -> (r: i32)
    ensures
        r as int == tok_class(k),
{
    if k == TOKEN_IDENT {
        2
    } else if k == TOKEN_WHITESPACE {
        0
    } else {
        1
    }
}

/// Classifies a climbed expression path against its parent node.
fn classify(root: &Tree, e0: Vec<usize>) -> (r: Option<(Vec<usize>, LocationWithinExpr)>)
    requires
        valid_path(root@, path_view(e0@)),
        is_expr_kind(root@.kind),
    ensures
        match r {
            Some(p) => g_classify(root@, path_view(e0@)) matches Some(loc) && loc.expr
                == path_view(p.0@) && loc.location_within == p.1@ && valid_path(
                root@,
                path_view(p.0@),
            ) && (match p.1@ {
                GLocationWithin::Inherit(cl, _) => valid_path(root@, cl),
                GLocationWithin::Attrpath(ap, _) => valid_path(root@, ap),
                _ => true,
            }),
            None => g_classify(root@, path_view(e0@)) is None,
        },
{
    let ghost ge = path_view(e0@);
    if e0.len() == 0 {
        proof {
            assert(ge =~= Seq::<int>::empty());
        }
        return Some((e0, LocationWithinExpr::Normal));
    }
    let mut parent = clone_path(&e0);
    let last = parent.pop().unwrap();
    proof {
        assert(path_view(parent@) =~= ge.drop_last());
        assert(ge.last() == last as int);
        lemma_valid_prefix(root@, ge);
    }
    let pnode = match node_at_path(root, &parent) {
        Some(x) => x,
        None => {
            proof {
                assert(false);
            }
            return None;
        }
    };
    if pnode.kind == NODE_ATTRPATH {
        match class_pos(pnode, Cast::Attr, last) {
            Some(k) => {
                let anchored = climb_expr(root, clone_path(&parent));
                Some((anchored, LocationWithinExpr::Attrpath(parent, k)))
            }
            None => None,
        }
    } else if pnode.kind == NODE_INHERIT {
        match class_pos(pnode, Cast::Attr, last) {
            Some(k) => {
                let anchored = climb_expr(root, clone_path(&parent));
                Some((anchored, LocationWithinExpr::Inherit(parent, k)))
            }
            None => None,
        }
    } else if pnode.kind == NODE_PAT_ENTRY {
        let anchored = climb_expr(root, parent);
        Some((anchored, LocationWithinExpr::PatEntry))
    } else if pnode.kind == NODE_PAT_BIND {
        let anchored = climb_expr(root, parent);
        Some((anchored, LocationWithinExpr::PatBind))
    } else {
        Some((e0, LocationWithinExpr::Normal))
    }
}

/// The position of the child at an index among the node children of a class.
fn class_pos(t: &Tree, c: Cast, i: usize) -> (r: Option<usize>)
    ensures
        match r {
            Some(k) => g_class_pos(t@.children, c, i as int) == Some(k as int),
            None => g_class_pos(t@.children, c, i as int) is None,
        },
{
    let ghost cs = view_elems(t.children@);
    proof {
        lemma_view_elems(t.children@);
        assert(cs == t@.children);
    }
    if i >= t.children.len() {
        return None;
    }
    let matches_class = match &t.children[i] {
        Elem::Node(sub) => cast_ok(c, sub.kind),
        Elem::Token(_) => false,
    };
    if !matches_class {
        proof {
            assert(g_class_pos(cs, c, i as int) is None);
        }
        return None;
    }
    let mut count: usize = 0;
    let mut j: usize = 0;
    proof {
        assert(g_nodes(cs.take(0), c) =~= Seq::<GTree>::empty());
    }
    while j < i
        invariant
            i < t.children@.len(),
            cs == view_elems(t.children@),
            cs == t@.children,
            cs.len() == t.children@.len(),
            j <= i,
            count <= j,
            count == g_nodes(cs.take(j as int), c).len(),
        decreases i - j,
    {
        proof {
            lemma_view_elems(t.children@);
            lemma_g_nodes_snoc(cs, c, j as int);
        }
        match &t.children[j] {
            Elem::Node(sub) => {
                if cast_ok(c, sub.kind) {
                    count = count + 1;
                }
            }
            Elem::Token(_) => {}
        }
        j = j + 1;
    }
    proof {
        lemma_view_elems(t.children@);
        assert(cs[i as int] is Node && casts(c, cs[i as int]->Node_0.kind));
    }
    Some(count)
}


/// Every ancestor path of a valid path is itself valid.
pub proof fn lemma_ancestors_valid(root: GTree, path: Seq<int>)
    requires
        valid_path(root, path),
    ensures
        forall|k: int|
            0 <= k < g_ancestors(root, path).len() ==> valid_path(
                root,
                #[trigger] g_ancestors(root, path)[k],
            ),
    decreases path.len(),
{
    if path.len() > 0 {
        lemma_valid_prefix(root, path);
        lemma_ancestors_valid(root, path.drop_last());
        let p = path.drop_last();
        let rest = g_ancestors(root, p);
        if is_expr_kind(node_at(root, p).kind) && node_at(root, p).kind != NODE_ROOT {
            assert(g_ancestors(root, path) == seq![p] + rest);
            assert forall|k: int|
                0 <= k < g_ancestors(root, path).len() implies valid_path(
                root,
                g_ancestors(root, path)[k],
            ) by {
                if k == 0 {
                    assert(g_ancestors(root, path)[0] == p);
                } else {
                    assert(g_ancestors(root, path)[k] == rest[k - 1]);
                }
            }
        }
    }
}

} // verus!




//! Walking an attribute set into a flat list of reachable subexpressions,
//! each tagged with the position it holds: the attribute path to it, list
//! indices, an application's argument, a lambda's or a let's body.

use vstd::prelude::*;
use crate::kinds::{NODE_APPLY, NODE_ATTR_SET, NODE_LIST, NODE_LAMBDA, NODE_LET_IN, NODE_DYNAMIC};
use crate::node::{Cast, g_nodes, g_nth, g_text, g_size, g_size_elems, g_size_trees,
    lemma_g_nth_size, lemma_g_nodes_size, lemma_g_size_trees_index, lemma_g_size_trees_drop,
    nodes, nth_node, node_text};
use crate::tree::{Tree, GTree, clone_tree};
use crate::strutil::chars_to_string;

verus! {

/// One step into a value: an attribute name, a list index, an application's
/// argument, a lambda's body, or a let's body.
#[derive(Clone, Debug, PartialEq, Eq)]
pub enum Subscript {
    Attr(String),
    ListItem(usize),
    Argument,
    LambdaBody,
    LetBody,
}

/// Mathematical model of a subscript.
#[verifier::ext_equal]
pub enum GSubscript {
    Attr(Seq<char>),
    ListItem(int),
    Argument,
    LambdaBody,
    LetBody,
}

impl View for Subscript {
    type V = GSubscript;

    open spec fn view(&self) -> GSubscript {
        match self {
            Subscript::Attr(s) => GSubscript::Attr(s@),
            Subscript::ListItem(i) => GSubscript::ListItem(*i as int),
            Subscript::Argument => GSubscript::Argument,
            Subscript::LambdaBody => GSubscript::LambdaBody,
            Subscript::LetBody => GSubscript::LetBody,
        }
    }
}

/// A subexpression found by the walk, with the position that reaches it.
pub struct Item {
    pub position: Vec<Subscript>,
    pub expr: Tree,
}

/// Mathematical model of an item.
#[verifier::ext_equal]
pub struct GItem {
    pub position: Seq<GSubscript>,
    pub expr: GTree,
}

impl View for Item {
    type V = GItem;

    open spec fn view(&self) -> GItem {
        GItem { position: subs_view(self.position@), expr: self.expr@ }
    }
}

pub open spec fn subs_view(s: Seq<Subscript>) -> Seq<GSubscript> {
    s.map_values(|x: Subscript| x@)
}

pub open spec fn items_view(s: Seq<Item>) -> Seq<GItem> {
    s.map_values(|x: Item| x@)
}

/// The names of an attribute path, each segment as its position step; a
/// dynamic segment has no static name and poisons the whole path.
pub open spec fn spec_attr_names(ts: Seq<GTree>) -> Option<Seq<GSubscript>>
    decreases ts,
{
    if ts.len() == 0 {
        Some(Seq::empty())
    } else if ts[0].kind == NODE_DYNAMIC {
        None
    } else {
        match spec_attr_names(ts.drop_first()) {
            None => None,
            Some(rest) => Some(seq![GSubscript::Attr(g_text(ts[0]))] + rest),
        }
    }
}

/// The items the walk finds under an expression placed at a position.
pub open spec fn spec_walk_expr(stack: Seq<GSubscript>, t: GTree) -> Seq<GItem>
    decreases g_size(t), 2int,
{
    let cs = t.children;
    proof {
        lemma_g_nth_size(cs, Cast::Expr, 0);
        lemma_g_nth_size(cs, Cast::Expr, 1);
        lemma_g_nodes_size(cs, Cast::Expr);
        assert(g_size(t) == 1 + g_size_elems(cs));
    }
    seq![GItem { position: stack, expr: t }] + if t.kind == NODE_APPLY {
        match g_nth(cs, Cast::Expr, 1) {
            Some(arg) => spec_walk_expr(stack.push(GSubscript::Argument), arg),
            None => Seq::empty(),
        }
    } else if t.kind == NODE_ATTR_SET {
        spec_walk_attrs(stack, t)
    } else if t.kind == NODE_LIST {
        spec_walk_list(stack, g_nodes(cs, Cast::Expr), 0)
    } else if t.kind == NODE_LAMBDA {
        match g_nth(cs, Cast::Expr, 0) {
            Some(body) => spec_walk_expr(stack.push(GSubscript::LambdaBody), body),
            None => Seq::empty(),
        }
    } else if t.kind == NODE_LET_IN {
        match g_nth(cs, Cast::Expr, 0) {
            Some(body) => spec_walk_expr(stack.push(GSubscript::LetBody), body),
            None => Seq::empty(),
        }
    } else {
        Seq::empty()
    }
}

/// The items of a list's elements, each at its index.
pub open spec fn spec_walk_list(stack: Seq<GSubscript>, ts: Seq<GTree>, idx: int) -> Seq<GItem>
    decreases g_size_trees(ts), 3int,
{
    proof {
        if ts.len() > 0 {
            lemma_g_size_trees_index(ts, 0);
            lemma_g_size_trees_drop(ts);
        }
    }
    if ts.len() == 0 {
        Seq::empty()
    } else {
        spec_walk_expr(stack.push(GSubscript::ListItem(idx)), ts[0]) + spec_walk_list(
            stack,
            ts.drop_first(),
            idx + 1,
        )
    }
}

/// The items under an attribute set's attrpath-value bindings.
pub open spec fn spec_walk_attrs(stack: Seq<GSubscript>, t: GTree) -> Seq<GItem>
    decreases g_size(t), 1int,
{
    proof {
        lemma_g_nodes_size(t.children, Cast::AttrpathValue);
        assert(g_size(t) == 1 + g_size_elems(t.children));
    }
    spec_walk_avs(stack, g_nodes(t.children, Cast::AttrpathValue))
}

/// The items under a list of attrpath-value bindings.
pub open spec fn spec_walk_avs(stack: Seq<GSubscript>, ts: Seq<GTree>) -> Seq<GItem>
    decreases g_size_trees(ts), 3int,
{
    proof {
        if ts.len() > 0 {
            lemma_g_size_trees_index(ts, 0);
            lemma_g_size_trees_drop(ts);
        }
    }
    if ts.len() == 0 {
        Seq::empty()
    } else {
        spec_walk_av(stack, ts[0]) + spec_walk_avs(stack, ts.drop_first())
    }
}

/// The items under one attrpath-value binding: its value walked at the
/// position its static attribute path names; bindings without a value, an
/// attribute path, or a fully static path contribute nothing.
pub open spec fn spec_walk_av(stack: Seq<GSubscript>, av: GTree) -> Seq<GItem>
    decreases g_size(av), 1int,
{
    let cs = av.children;
    proof {
        lemma_g_nth_size(cs, Cast::Expr, 0);
        assert(g_size(av) == 1 + g_size_elems(cs));
    }
    match g_nth(cs, Cast::Expr, 0) {
        None => Seq::empty(),
        Some(value) => match g_nth(cs, Cast::Attrpath, 0) {
            None => Seq::empty(),
            Some(path) => match spec_attr_names(g_nodes(path.children, Cast::Attr)) {
                None => Seq::empty(),
                Some(names) => spec_walk_expr(stack + names, value),
            },
        },
    }
}

// ------------------------------------------------------------------
// The executable walk.
// ------------------------------------------------------------------
/// Appends a copy of the stack with one more step.
fn stack_with(stack: &Vec<Subscript>, extra: Subscript) -> (r: Vec<Subscript>)
    ensures
        subs_view(r@) == subs_view(stack@).push(extra@),
{
    let mut r: Vec<Subscript> = Vec::new();
    let n = stack.len();
    let mut i: usize = 0;
    proof {
        assert(subs_view(r@) =~= subs_view(stack@.take(0)));
    }
    while i < n
        invariant
            n == stack@.len(),
            i <= n,
            subs_view(r@) == subs_view(stack@.take(i as int)),
        decreases n - i,
    {
        let ghost or = r@;
        let copy = match &stack[i] {
            Subscript::Attr(s) => Subscript::Attr(s.clone()),
            Subscript::ListItem(k) => Subscript::ListItem(*k),
            Subscript::Argument => Subscript::Argument,
            Subscript::LambdaBody => Subscript::LambdaBody,
            Subscript::LetBody => Subscript::LetBody,
        };
        proof {
            assert(copy@ == stack@[i as int]@);
        }
        r.push(copy);
        proof {
            let lhs = subs_view(r@);
            let rhs = subs_view(stack@.take(i + 1));
            assert(r@.len() == or.len() + 1);
            assert(subs_view(or).len() == or.len());
            assert(subs_view(stack@.take(i as int)).len() == stack@.take(i as int).len());
            assert(or.len() == i as int);
            assert(lhs.len() == r@.len());
            assert(stack@.take(i + 1).len() == i + 1);
            assert(rhs.len() == i + 1);
            assert(lhs.len() == rhs.len());
            assert forall|j: int| 0 <= j < lhs.len() implies lhs[j] == rhs[j] by {
                assert(lhs[j] == r@[j]@);
                assert(rhs[j] == stack@.take(i + 1)[j]@);
                assert(stack@.take(i + 1)[j] == stack@[j]);
                if j < i {
                    assert(r@[j] == or[j]);
                    assert(subs_view(or)[j] == or[j]@);
                    assert(subs_view(stack@.take(i as int))[j] == stack@.take(i as int)[j]@);
                    assert(stack@.take(i as int)[j] == stack@[j]);
                } else {
                    assert(r@[j] == copy);
                }
            }
            assert(lhs =~= rhs);
        }
        i = i + 1;
    }
    proof {
        assert(stack@.take(n as int) =~= stack@);
    }
    let ghost before = r@;
    r.push(extra);
    proof {
        assert(subs_view(r@) =~= subs_view(before).push(extra@));
    }
    r
}

/// The static names of an attribute path's segments.
fn attr_names(path: &Tree) -> (r: Option<Vec<Subscript>>)
    ensures
        match r {
            Some(v) => spec_attr_names(g_nodes(path@.children, Cast::Attr)) == Some(subs_view(v@)),
            None => spec_attr_names(g_nodes(path@.children, Cast::Attr)) is None,
        },
{
    let attrs = nodes(path, Cast::Attr);
    let ghost ts = g_nodes(path@.children, Cast::Attr);
    proof {
        assert(crate::render::views_of(attrs@) =~= ts);
    }
    let n = attrs.len();
    let mut out: Vec<Subscript> = Vec::new();
    let mut i: usize = 0;
    proof {
        assert(ts.skip(0) =~= ts);
        if spec_attr_names(ts) is Some {
            let rest = spec_attr_names(ts)->Some_0;
            assert(subs_view(out@) + rest =~= rest);
        }
    }
    while i < n
        invariant
            n == attrs@.len(),
            crate::render::views_of(attrs@) == ts,
            ts == g_nodes(path@.children, Cast::Attr),
            ts.len() == n,
            i <= n,
            spec_attr_names(ts) == match spec_attr_names(ts.skip(i as int)) {
                None => None::<Seq<GSubscript>>,
                Some(rest) => Some(subs_view(out@) + rest),
            },
        decreases n - i,
    {
        proof {
            assert(ts.skip(i as int)[0] == ts[i as int]);
            assert(ts.skip(i as int).drop_first() =~= ts.skip(i + 1));
        }
        let a = attrs[i];
        if a.kind == NODE_DYNAMIC {
            proof {
                assert(ts[i as int] == attrs@[i as int]@);
                assert(ts[i as int].kind == NODE_DYNAMIC);
                assert(spec_attr_names(ts.skip(i as int)) is None);
            }
            return None;
        }
        let text = node_text(a);
        let ghost before = out@;
        out.push(Subscript::Attr(chars_to_string(&text)));
        proof {
            assert(subs_view(out@) =~= subs_view(before).push(
                GSubscript::Attr(g_text(ts[i as int])),
            ));
            if spec_attr_names(ts.skip(i + 1)) is Some {
                let rest = spec_attr_names(ts.skip(i + 1))->Some_0;
                assert(subs_view(before) + (seq![GSubscript::Attr(g_text(ts[i as int]))] + rest)
                    =~= subs_view(out@) + rest);
            }
        }
        i = i + 1;
    }
    proof {
        assert(ts.skip(n as int) =~= Seq::<GTree>::empty());
        assert(subs_view(out@) + Seq::<GSubscript>::empty() =~= subs_view(out@));
    }
    Some(out)
}

/// Walks one expression, appending the items found under it.
fn walk_expr(stack: &Vec<Subscript>, t: &Tree, out: &mut Vec<Item>)
    ensures
        items_view(final(out)@) == items_view(old(out)@) + spec_walk_expr(subs_view(stack@), t@),
    decreases g_size(t@), 2int,
{
    let ghost cs = t@.children;
    proof {
        lemma_g_nth_size(cs, Cast::Expr, 0);
        lemma_g_nth_size(cs, Cast::Expr, 1);
        lemma_g_nodes_size(cs, Cast::Expr);
        assert(g_size(t@) == 1 + g_size_elems(cs));
    }
    let ghost at_entry = out@;
    let copy = clone_tree(t);
    let item = Item { position: stack_with_nothing(stack), expr: copy };
    proof {
        assert(item@ == GItem { position: subs_view(stack@), expr: t@ });
    }
    out.push(item);
    proof {
        assert(items_view(out@) =~= items_view(at_entry).push(
            GItem { position: subs_view(stack@), expr: t@ },
        ));
    }
    if t.kind == NODE_APPLY {
        match nth_node(t, Cast::Expr, 1) {
            Some(arg) => {
                let stack2 = stack_with(stack, Subscript::Argument);
                walk_expr(&stack2, arg, out);
            }
            None => {}
        }
    } else if t.kind == NODE_ATTR_SET {
        walk_attrs_onto(stack, t, out);
    } else if t.kind == NODE_LIST {
        let items = nodes(t, Cast::Expr);
        proof {
            assert(crate::render::views_of(items@) =~= g_nodes(cs, Cast::Expr));
        }
        let m = items.len();
        proof {
            assert(0 + items@.len() <= usize::MAX);
        }
        walk_list(stack, &items, 0, out);
    } else if t.kind == NODE_LAMBDA {
        match nth_node(t, Cast::Expr, 0) {
            Some(body) => {
                let stack2 = stack_with(stack, Subscript::LambdaBody);
                walk_expr(&stack2, body, out);
            }
            None => {}
        }
    } else if t.kind == NODE_LET_IN {
        match nth_node(t, Cast::Expr, 0) {
            Some(body) => {
                let stack2 = stack_with(stack, Subscript::LetBody);
                walk_expr(&stack2, body, out);
            }
            None => {}
        }
    }
    proof {
        assert(items_view(out@) =~= items_view(at_entry) + spec_walk_expr(subs_view(stack@), t@));
    }
}

/// A plain copy of the stack.
fn stack_with_nothing(stack: &Vec<Subscript>) -> (r: Vec<Subscript>)
    ensures
        subs_view(r@) == subs_view(stack@),
{
    let mut r: Vec<Subscript> = Vec::new();
    let n = stack.len();
    let mut i: usize = 0;
    proof {
        assert(subs_view(r@) =~= subs_view(stack@.take(0)));
    }
    while i < n
        invariant
            n == stack@.len(),
            i <= n,
            subs_view(r@) == subs_view(stack@.take(i as int)),
        decreases n - i,
    {
        let ghost or = r@;
        let copy = match &stack[i] {
            Subscript::Attr(s) => Subscript::Attr(s.clone()),
            Subscript::ListItem(k) => Subscript::ListItem(*k),
            Subscript::Argument => Subscript::Argument,
            Subscript::LambdaBody => Subscript::LambdaBody,
            Subscript::LetBody => Subscript::LetBody,
        };
        proof {
            assert(copy@ == stack@[i as int]@);
        }
        r.push(copy);
        proof {
            let lhs = subs_view(r@);
            let rhs = subs_view(stack@.take(i + 1));
            assert(r@.len() == or.len() + 1);
            assert(subs_view(or).len() == or.len());
            assert(subs_view(stack@.take(i as int)).len() == stack@.take(i as int).len());
            assert(or.len() == i as int);
            assert(lhs.len() == r@.len());
            assert(stack@.take(i + 1).len() == i + 1);
            assert(rhs.len() == i + 1);
            assert(lhs.len() == rhs.len());
            assert forall|j: int| 0 <= j < lhs.len() implies lhs[j] == rhs[j] by {
                assert(lhs[j] == r@[j]@);
                assert(rhs[j] == stack@.take(i + 1)[j]@);
                assert(stack@.take(i + 1)[j] == stack@[j]);
                if j < i {
                    assert(r@[j] == or[j]);
                    assert(subs_view(or)[j] == or[j]@);
                    assert(subs_view(stack@.take(i as int))[j] == stack@.take(i as int)[j]@);
                    assert(stack@.take(i as int)[j] == stack@[j]);
                } else {
                    assert(r@[j] == copy);
                }
            }
            assert(lhs =~= rhs);
        }
        i = i + 1;
    }
    proof {
        assert(stack@.take(n as int) =~= stack@);
    }
    r
}

/// Walks a list's elements.
fn walk_list(stack: &Vec<Subscript>, items: &Vec<&Tree>, start: usize, out: &mut Vec<Item>)
    requires
        start + items@.len() <= usize::MAX,
    ensures
        items_view(final(out)@) == items_view(old(out)@) + spec_walk_list(
            subs_view(stack@),
            crate::render::views_of(items@),
            start as int,
        ),
    decreases g_size_trees(crate::render::views_of(items@)), 3int,
{
    let ghost ts = crate::render::views_of(items@);
    if items.len() == 0 {
        proof {
            assert(items_view(out@) =~= items_view(out@) + spec_walk_list(
                subs_view(stack@),
                ts,
                start as int,
            ));
        }
        return ;
    }
    proof {
        lemma_g_size_trees_index(ts, 0);
        lemma_g_size_trees_drop(ts);
    }
    let first = items[0];
    let stack2 = stack_with(stack, Subscript::ListItem(start));
    walk_expr(&stack2, first, out);
    let mut rest: Vec<&Tree> = Vec::new();
    let n = items.len();
    let mut i: usize = 1;
    while i < n
        invariant
            n == items@.len(),
            1 <= i <= n,
            rest@ == items@.subrange(1, i as int),
        decreases n - i,
    {
        rest.push(items[i]);
        proof {
            assert(items@.subrange(1, i + 1) =~= items@.subrange(1, i as int).push(
                items@[i as int],
            ));
        }
        i = i + 1;
    }
    proof {
        assert(rest@ =~= items@.subrange(1, n as int));
        assert(crate::render::views_of(rest@) =~= ts.drop_first());
    }
    walk_list(stack, &rest, start + 1, out);
    proof {
        assert(items_view(out@) =~= items_view(old(out)@) + spec_walk_list(
            subs_view(stack@),
            ts,
            start as int,
        ));
    }
}

/// Walks the attrpath-value bindings of an attribute set.
fn walk_attrs_onto(stack: &Vec<Subscript>, t: &Tree, out: &mut Vec<Item>)
    ensures
        items_view(final(out)@) == items_view(old(out)@) + spec_walk_attrs(subs_view(stack@), t@),
    decreases g_size(t@), 1int,
{
    proof {
        lemma_g_nodes_size(t@.children, Cast::AttrpathValue);
        assert(g_size(t@) == 1 + g_size_elems(t@.children));
    }
    let avs = nodes(t, Cast::AttrpathValue);
    proof {
        assert(crate::render::views_of(avs@) =~= g_nodes(t@.children, Cast::AttrpathValue));
    }
    walk_avs(stack, &avs, out);
}

/// Walks a list of attrpath-value bindings.
fn walk_avs(stack: &Vec<Subscript>, avs: &Vec<&Tree>, out: &mut Vec<Item>)
    ensures
        items_view(final(out)@) == items_view(old(out)@) + spec_walk_avs(
            subs_view(stack@),
            crate::render::views_of(avs@),
        ),
    decreases g_size_trees(crate::render::views_of(avs@)), 3int,
{
    let ghost ts = crate::render::views_of(avs@);
    if avs.len() == 0 {
        proof {
            assert(items_view(out@) =~= items_view(out@) + spec_walk_avs(subs_view(stack@), ts));
        }
        return ;
    }
    proof {
        lemma_g_size_trees_index(ts, 0);
        lemma_g_size_trees_drop(ts);
    }
    walk_av(stack, avs[0], out);
    let mut rest: Vec<&Tree> = Vec::new();
    let n = avs.len();
    let mut i: usize = 1;
    while i < n
        invariant
            n == avs@.len(),
            1 <= i <= n,
            rest@ == avs@.subrange(1, i as int),
        decreases n - i,
    {
        rest.push(avs[i]);
        proof {
            assert(avs@.subrange(1, i + 1) =~= avs@.subrange(1, i as int).push(avs@[i as int]));
        }
        i = i + 1;
    }
    proof {
        assert(rest@ =~= avs@.subrange(1, n as int));
        assert(crate::render::views_of(rest@) =~= ts.drop_first());
    }
    walk_avs(stack, &rest, out);
    proof {
        assert(items_view(out@) =~= items_view(old(out)@) + spec_walk_avs(subs_view(stack@), ts));
    }
}

/// Walks one attrpath-value binding.
fn walk_av(stack: &Vec<Subscript>, av: &Tree, out: &mut Vec<Item>)
    ensures
        items_view(final(out)@) == items_view(old(out)@) + spec_walk_av(subs_view(stack@), av@),
    decreases g_size(av@), 1int,
{
    let ghost cs = av@.children;
    proof {
        lemma_g_nth_size(cs, Cast::Expr, 0);
        assert(g_size(av@) == 1 + g_size_elems(cs));
    }
    match nth_node(av, Cast::Expr, 0) {
        None => {
            proof {
                assert(items_view(out@) =~= items_view(out@) + spec_walk_av(
                    subs_view(stack@),
                    av@,
                ));
            }
        }
        Some(value) => {
            match nth_node(av, Cast::Attrpath, 0) {
                None => {
                    proof {
                        assert(items_view(out@) =~= items_view(out@) + spec_walk_av(
                            subs_view(stack@),
                            av@,
                        ));
                    }
                }
                Some(path) => {
                    match attr_names(path) {
                        None => {
                            proof {
                                assert(items_view(out@) =~= items_view(out@) + spec_walk_av(
                                    subs_view(stack@),
                                    av@,
                                ));
                            }
                        }
                        Some(names) => {
                            let mut stack2 = stack_with_nothing(stack);
                            let ghost names0 = names@;
                            let mut names = names;
                            stack2.append(&mut names);
                            proof {
                                assert(subs_view(stack2@) =~= subs_view(stack@) + subs_view(
                                    names0,
                                ));
                            }
                            walk_expr(&stack2, value, out);
                        }
                    }
                }
            }
        }
    }
}

/// Walks an attribute set into the flat list of its reachable
/// subexpressions, each with the position that reaches it.
pub fn walk_attrs(attrs: &Tree) -> (r: Vec<Item>)
    ensures
        items_view(r@) == spec_walk_attrs(Seq::empty(), attrs@),
{
    let stack: Vec<Subscript> = Vec::new();
    let mut out: Vec<Item> = Vec::new();
    proof {
        assert(subs_view(stack@) =~= Seq::<GSubscript>::empty());
        assert(items_view(out@) =~= Seq::<GItem>::empty());
    }
    walk_attrs_onto(&stack, attrs, &mut out);
    proof {
        assert(items_view(out@) =~= spec_walk_attrs(Seq::empty(), attrs@));
    }
    out
}


// ------------------------------------------------------------------
// Rendering a flake manifest's inputs.
// ------------------------------------------------------------------
/// Whether a walked item belongs to the manifest's inputs: its position
/// starts at the `inputs` attribute and runs through attribute names alone.
pub open spec fn g_flake_ok(item: GItem) -> bool {
    &&& item.position.len() >= 1
    &&& item.position[0] == GSubscript::Attr("inputs"@)
    &&& forall|i: int| 0 <= i < item.position.len() ==> (#[trigger] item.position[i]) is Attr
}

/// A position's attribute names joined by dots.
pub open spec fn g_join_names(ps: Seq<GSubscript>) -> Seq<char>
    decreases ps.len(),
{
    if ps.len() == 0 {
        Seq::empty()
    } else {
        let head: Seq<char> = match ps[0] {
            GSubscript::Attr(a) => a,
            _ => Seq::empty(),
        };
        if ps.len() == 1 {
            head
        } else {
            head + "."@ + g_join_names(ps.drop_first())
        }
    }
}

/// The rendered inputs bindings among the walked items, space separated.
pub open spec fn g_flake_body(items: Seq<GItem>, base: Seq<char>, first: bool) -> Seq<char>
    decreases items.len(),
{
    if items.len() == 0 {
        Seq::empty()
    } else if g_flake_ok(items[0]) {
        (if first {
            Seq::empty()
        } else {
            " "@
        }) + g_join_names(items[0].position) + " = "@ + crate::render::spec_stringify(
            items[0].expr,
            base,
        ) + ";"@ + g_flake_body(items.drop_first(), base, false)
    } else {
        g_flake_body(items.drop_first(), base, first)
    }
}

/// What a flake manifest's inputs render to: the attribute set of every
/// statically named binding under `inputs`, kept in walk order; anything
/// that is not an attribute set renders as the empty set.
pub open spec fn spec_stringify_flake(o: Option<GTree>, base: Seq<char>) -> Seq<char> {
    match o {
        Some(t) => if t.kind == NODE_ATTR_SET {
            "{ "@ + g_flake_body(spec_walk_attrs(Seq::empty(), t), base, true) + " }"@
        } else {
            "{}"@
        },
        None => "{}"@,
    }
}

fn flake_item_ok(item: &Item) -> (r: bool)
    ensures
        r == g_flake_ok(item@),
{
    if item.position.len() == 0 {
        return false;
    }
    let first_ok = match &item.position[0] {
        Subscript::Attr(a) => crate::strutil::str_eq_str(a.as_str(), "inputs"),
        _ => false,
    };
    proof {
        assert(subs_view(item.position@)[0] == item.position@[0]@);
    }
    if !first_ok {
        proof {
            assert(!(item@.position[0] == GSubscript::Attr("inputs"@)));
        }
        return false;
    }
    let n = item.position.len();
    let mut i: usize = 0;
    while i < n
        invariant
            n == item.position@.len(),
            i <= n,
            forall|j: int| 0 <= j < i ==> (#[trigger] subs_view(item.position@)[j]) is Attr,
        decreases n - i,
    {
        proof {
            assert(subs_view(item.position@)[i as int] == item.position@[i as int]@);
        }
        match &item.position[i] {
            Subscript::Attr(_) => {}
            _ => {
                proof {
                    assert(!((subs_view(item.position@)[i as int]) is Attr));
                }
                return false;
            }
        }
        i = i + 1;
    }
    true
}

fn push_join_names(item: &Item, out: &mut Vec<char>)
    ensures
        final(out)@ == old(out)@ + g_join_names(item@.position),
{
    let ghost ps = subs_view(item.position@);
    let n = item.position.len();
    let mut i: usize = 0;
    proof {
        assert(ps.skip(0) =~= ps);
        assert(out@ + g_join_names(ps) =~= old(out)@ + g_join_names(ps));
    }
    while i < n
        invariant
            n == item.position@.len(),
            ps == subs_view(item.position@),
            ps.len() == n,
            i <= n,
            out@ + g_join_names(ps.skip(i as int)) == old(out)@ + g_join_names(ps),
        decreases n - i,
    {
        proof {
            assert(ps.skip(i as int)[0] == ps[i as int]);
            assert(ps[i as int] == item.position@[i as int]@);
            assert(ps.skip(i as int).drop_first() =~= ps.skip(i + 1));
        }
        match &item.position[i] {
            Subscript::Attr(a) => {
                crate::strutil::push_str_chars(a.as_str(), out);
            }
            _ => {}
        }
        if i + 1 < n {
            crate::strutil::push_str_chars(".", out);
        }
        i = i + 1;
    }
    proof {
        assert(ps.skip(n as int) =~= Seq::<GSubscript>::empty());
        assert(out@ + Seq::<char>::empty() =~= out@);
    }
}

/// Renders the inputs of a flake manifest: every statically named binding
/// under `inputs`, replayed as one attribute set.
pub fn safe_stringify_flake(expr: Option<&Tree>, base_path: &str) -> (r: String)
    ensures
        r@ == spec_stringify_flake(crate::render::opt_view(expr), base_path@),
{
    match expr {
        Some(t) if t.kind == NODE_ATTR_SET => {
            let items = walk_attrs(t);
            let ghost gitems = spec_walk_attrs(Seq::empty(), t@);
            let mut out: Vec<char> = Vec::new();
            crate::strutil::push_str_chars("{ ", &mut out);
            let n = items.len();
            let mut i: usize = 0;
            let mut first = true;
            proof {
                assert(items_view(items@).skip(0) =~= items_view(items@));
            }
            while i < n
                invariant
                    n == items@.len(),
                    items_view(items@) == gitems,
                    gitems.len() == n,
                    i <= n,
                    out@ + g_flake_body(gitems.skip(i as int), base_path@, first) + " }"@ == "{ "@
                        + g_flake_body(gitems, base_path@, true) + " }"@,
                decreases n - i,
            {
                proof {
                    assert(gitems.skip(i as int)[0] == gitems[i as int]);
                    assert(gitems[i as int] == items@[i as int]@);
                    assert(gitems.skip(i as int).drop_first() =~= gitems.skip(i + 1));
                }
                let item = &items[i];
                if flake_item_ok(item) {
                    if !first {
                        crate::strutil::push_str_chars(" ", &mut out);
                    }
                    push_join_names(item, &mut out);
                    crate::strutil::push_str_chars(" = ", &mut out);
                    crate::render::push_stringify(&item.expr, base_path, &mut out);
                    crate::strutil::push_str_chars(";", &mut out);
                    first = false;
                }
                i = i + 1;
            }
            proof {
                assert(gitems.skip(n as int) =~= Seq::<GItem>::empty());
            }
            crate::strutil::push_str_chars(" }", &mut out);
            proof {
                assert(out@ =~= "{ "@ + g_flake_body(gitems, base_path@, true) + " }"@);
            }
            crate::strutil::chars_to_string(&out)
        }
        _ => {
            let mut out: Vec<char> = Vec::new();
            crate::strutil::push_str_chars("{}", &mut out);
            crate::strutil::chars_to_string(&out)
        }
    }
}

} // verus!


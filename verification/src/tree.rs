//! The library's own syntax tree, assembled from the parser's event stream
//! by verified code, and the basic accessors that every analysis uses.

use vstd::prelude::*;
use vstd::string::StringSliceAdditionalSpecFns;
use crate::events::{RawEvent, TAG_OPEN, TAG_TOKEN, parse_events, parse_events_of};
use crate::kinds::NODE_ROOT;

verus! {

/// A half-open byte range within the source text.
#[derive(Clone, Copy, PartialEq, Eq, Structural, Debug)]
pub struct Span {
    pub start: u32,
    pub end: u32,
}

/// A leaf of the tree: one token with its source text.
pub struct Token {
    pub kind: u16,
    pub span: Span,
    pub text: String,
}

/// A child of a node: either a nested node or a token.
pub enum Elem {
    Node(Tree),
    Token(Token),
}

/// A syntax node: its kind, its byte range, and its children in document
/// order, tokens included, so that the concatenation of the token texts of a
/// node is exactly the source text the node spans.
pub struct Tree {
    pub kind: u16,
    pub span: Span,
    pub children: Vec<Elem>,
}

/// Mathematical model of a token.
#[verifier::ext_equal]
pub struct GToken {
    pub kind: u16,
    pub span: Span,
    pub text: Seq<char>,
}

/// Mathematical model of a child.
#[verifier::ext_equal]
pub enum GElem {
    Node(GTree),
    Token(GToken),
}

/// Mathematical model of a node.
#[verifier::ext_equal]
pub struct GTree {
    pub kind: u16,
    pub span: Span,
    pub children: Seq<GElem>,
}

impl View for Token {
    type V = GToken;

    open spec fn view(&self) -> GToken {
        GToken { kind: self.kind, span: self.span, text: self.text@ }
    }
}

pub open spec fn view_tree(t: Tree) -> GTree
    decreases t,
{
    GTree { kind: t.kind, span: t.span, children: view_elems(t.children@) }
}

pub open spec fn view_elems(s: Seq<Elem>) -> Seq<GElem>
    decreases s,
{
    if s.len() == 0 {
        Seq::empty()
    } else {
        seq![view_elem(s[0])] + view_elems(s.drop_first())
    }
}

pub open spec fn view_elem(e: Elem) -> GElem
    decreases e,
{
    match e {
        Elem::Node(t) => GElem::Node(view_tree(t)),
        Elem::Token(tok) => GElem::Token(tok@),
    }
}

impl View for Elem {
    type V = GElem;

    open spec fn view(&self) -> GElem {
        view_elem(*self)
    }
}

impl View for Tree {
    type V = GTree;

    open spec fn view(&self) -> GTree {
        view_tree(*self)
    }
}

/// The model of a child list is the list of the children's models.
pub broadcast proof fn lemma_view_elems(s: Seq<Elem>)
    ensures
        (#[trigger] view_elems(s)).len() == s.len(),
        forall|i: int| 0 <= i < s.len() ==> view_elems(s)[i] == view_elem(s[i]),
    decreases s,
{
    if s.len() > 0 {
        lemma_view_elems(s.drop_first());
        assert forall|i: int| 0 <= i < s.len() implies view_elems(s)[i] == view_elem(s[i]) by {
            if i > 0 {
                assert(view_elems(s)[i] == view_elems(s.drop_first())[i - 1]);
                assert(s.drop_first()[i - 1] == s[i]);
            }
        }
    }
}

// ------------------------------------------------------------------
// Building the tree from the event stream.
// ------------------------------------------------------------------
/// A node still under construction while the event stream is read.
#[verifier::ext_equal]
pub struct GFrame {
    pub kind: u16,
    pub span: Span,
    pub children: Seq<GElem>,
}

pub open spec fn sentinel_frame() -> GFrame {
    GFrame { kind: NODE_ROOT, span: Span { start: 0, end: 0 }, children: Seq::empty() }
}

pub open spec fn empty_root() -> GTree {
    GTree { kind: NODE_ROOT, span: Span { start: 0, end: 0 }, children: Seq::empty() }
}

pub open spec fn frame_to_tree(f: GFrame) -> GTree {
    GTree { kind: f.kind, span: f.span, children: f.children }
}

/// One event applied to the stack of open nodes.  A close with nothing but
/// the sentinel left, like a token before any node opened, changes nothing:
/// the builder is total whatever the stream holds.
pub open spec fn build_step(st: Seq<GFrame>, e: RawEvent) -> Seq<GFrame> {
    if e.tag == TAG_OPEN {
        st.push(
            GFrame {
                kind: e.kind,
                span: Span { start: e.start, end: e.end },
                children: Seq::empty(),
            },
        )
    } else if e.tag == TAG_TOKEN {
        if st.len() >= 1 {
            let i = st.len() - 1;
            st.update(
                i as int,
                GFrame {
                    kind: st[i as int].kind,
                    span: st[i as int].span,
                    children: st[i as int].children.push(
                        GElem::Token(
                            GToken {
                                kind: e.kind,
                                span: Span { start: e.start, end: e.end },
                                text: e.text@,
                            },
                        ),
                    ),
                },
            )
        } else {
            st
        }
    } else {
        if st.len() >= 2 {
            let f = st.last();
            let i = st.len() - 2;
            st.drop_last().update(
                i as int,
                GFrame {
                    kind: st[i as int].kind,
                    span: st[i as int].span,
                    children: st[i as int].children.push(GElem::Node(frame_to_tree(f))),
                },
            )
        } else {
            st
        }
    }
}

pub open spec fn build_stack(events: Seq<RawEvent>) -> Seq<GFrame>
    decreases events.len(),
{
    if events.len() == 0 {
        seq![sentinel_frame()]
    } else {
        build_step(build_stack(events.drop_last()), events.last())
    }
}

/// Folds whatever nodes are still open into their parents, as if the missing
/// closes stood at the end of the stream.
pub open spec fn collapse(st: Seq<GFrame>) -> GFrame
    decreases st.len(),
{
    if st.len() == 0 {
        sentinel_frame()
    } else if st.len() == 1 {
        st[0]
    } else {
        let f = st.last();
        let i = st.len() - 2;
        collapse(
            st.drop_last().update(
                i as int,
                GFrame {
                    kind: st[i as int].kind,
                    span: st[i as int].span,
                    children: st[i as int].children.push(GElem::Node(frame_to_tree(f))),
                },
            ),
        )
    }
}

pub open spec fn first_node_of(children: Seq<GElem>) -> Option<GTree>
    decreases children.len(),
{
    if children.len() == 0 {
        None
    } else {
        match children[0] {
            GElem::Node(t) => Some(t),
            GElem::Token(_) => first_node_of(children.drop_first()),
        }
    }
}

/// The tree that the event stream denotes: the first node folded into the
/// sentinel, or an empty root where the stream held no node at all.
pub open spec fn spec_build(events: Seq<RawEvent>) -> GTree {
    match first_node_of(collapse(build_stack(events)).children) {
        Some(t) => t,
        None => empty_root(),
    }
}

/// Whether a source text fits the parser's 32-bit offset range.
pub open spec fn parse_fits(source: Seq<char>) -> bool {
    vstd::utf8::encode_utf8(source).len() < u32::MAX
}

/// The tree that the outside parser gives a source text; a text too long
/// for the parser's offset range yields the empty root instead.
pub open spec fn spec_parse(source: Seq<char>) -> GTree {
    if parse_fits(source) {
        spec_build(parse_events_of(source))
    } else {
        empty_root()
    }
}

struct Frame {
    kind: u16,
    span: Span,
    children: Vec<Elem>,
}

impl View for Frame {
    type V = GFrame;

    closed spec fn view(&self) -> GFrame {
        GFrame { kind: self.kind, span: self.span, children: view_elems(self.children@) }
    }
}

spec fn stack_view(st: Seq<Frame>) -> Seq<GFrame> {
    Seq::new(st.len(), |i: int| st[i]@)
}

/// Pushing a child commutes with taking the model.
pub proof fn lemma_view_elems_push(s: Seq<Elem>, e: Elem)
    ensures
        view_elems(s.push(e)) == view_elems(s).push(view_elem(e)),
{
    lemma_view_elems(s.push(e));
    lemma_view_elems(s);
    assert(view_elems(s.push(e)) =~= view_elems(s).push(view_elem(e)));
}

/// Assembles the event stream into a tree.
pub fn build_tree(events: Vec<RawEvent>) -> (r: Tree)
    ensures
        r@ == spec_build(events@),
{
    let ghost all = events@;
    let mut stack: Vec<Frame> = Vec::new();
    stack.push(Frame { kind: NODE_ROOT, span: Span { start: 0, end: 0 }, children: Vec::new() });
    proof {
        assert(view_elems(Seq::<Elem>::empty()) == Seq::<GElem>::empty());
        assert(stack_view(stack@) =~= build_stack(all.take(0)));
    }
    let n = events.len();
    let mut i: usize = 0;
    while i < n
        invariant
            n == all.len(),
            events@ == all,
            i <= n,
            stack@.len() >= 1,
            stack_view(stack@) == build_stack(all.take(i as int)),
        decreases n - i,
    {
        proof {
            assert(all.take(i + 1).drop_last() =~= all.take(i as int));
            assert(all.take(i + 1).last() == all[i as int]);
        }
        let ghost ov = stack_view(stack@);
        let ev = &events[i];
        if ev.tag == TAG_OPEN {
            stack.push(
                Frame {
                    kind: ev.kind,
                    span: Span { start: ev.start, end: ev.end },
                    children: Vec::new(),
                },
            );
            proof {
                assert(view_elems(Seq::<Elem>::empty()) == Seq::<GElem>::empty());
                assert(stack_view(stack@) =~= ov.push(
                    GFrame {
                        kind: all[i as int].kind,
                        span: Span { start: all[i as int].start, end: all[i as int].end },
                        children: Seq::empty(),
                    },
                ));
            }
        } else if ev.tag == TAG_TOKEN {
            let mut f = stack.pop().unwrap();
            let ghost fv = f@;
            let ghost oc = f.children@;
            f.children.push(
                Elem::Token(
                    Token {
                        kind: ev.kind,
                        span: Span { start: ev.start, end: ev.end },
                        text: ev.text.clone(),
                    },
                ),
            );
            stack.push(f);
            proof {
                let pushed = stack@.last().children@.last();
                assert(stack@.last().children@ == oc.push(pushed));
                lemma_view_elems_push(oc, pushed);
                assert(view_elem(pushed) == GElem::Token(
                    GToken {
                        kind: all[i as int].kind,
                        span: Span { start: all[i as int].start, end: all[i as int].end },
                        text: all[i as int].text@,
                    },
                ));
                assert(stack@.last()@ == GFrame {
                    kind: fv.kind,
                    span: fv.span,
                    children: fv.children.push(view_elem(pushed)),
                });
                assert(stack_view(stack@) =~= ov.update(ov.len() - 1, stack@.last()@));
                assert(ov.last() == fv);
                assert(stack_view(stack@) == build_step(ov, all[i as int]));
            }
        } else {
            if stack.len() >= 2 {
                let f = stack.pop().unwrap();
                let ghost fv = f@;
                let mut parent = stack.pop().unwrap();
                let ghost pv = parent@;
                let ghost oc = parent.children@;
                parent.children.push(
                    Elem::Node(Tree { kind: f.kind, span: f.span, children: f.children }),
                );
                stack.push(parent);
                proof {
                    let pushed = stack@.last().children@.last();
                    assert(stack@.last().children@ == oc.push(pushed));
                    lemma_view_elems_push(oc, pushed);
                    assert(view_elem(pushed) == GElem::Node(frame_to_tree(fv)));
                    assert(stack@.last()@ == GFrame {
                        kind: pv.kind,
                        span: pv.span,
                        children: pv.children.push(GElem::Node(frame_to_tree(fv))),
                    });
                    assert(stack_view(stack@) =~= ov.drop_last().update(
                        ov.len() - 2,
                        stack@.last()@,
                    ));
                    assert(ov.last() == fv);
                    assert(ov[ov.len() - 2] == pv);
                    assert(stack_view(stack@) == build_step(ov, all[i as int]));
                }
            }
        }
        i = i + 1;
    }
    proof {
        assert(all.take(n as int) =~= all);
    }
    while stack.len() > 1
        invariant
            stack@.len() >= 1,
            collapse(stack_view(stack@)) == collapse(build_stack(all)),
        decreases stack@.len(),
    {
        let ghost ov = stack_view(stack@);
        let f = stack.pop().unwrap();
        let ghost fv = f@;
        let mut parent = stack.pop().unwrap();
        let ghost pv = parent@;
        let ghost oc = parent.children@;
        parent.children.push(Elem::Node(Tree { kind: f.kind, span: f.span, children: f.children }));
        stack.push(parent);
        proof {
            let pushed = stack@.last().children@.last();
            assert(stack@.last().children@ == oc.push(pushed));
            lemma_view_elems_push(oc, pushed);
            assert(view_elem(pushed) == GElem::Node(frame_to_tree(fv)));
            assert(stack@.last()@ == GFrame {
                kind: pv.kind,
                span: pv.span,
                children: pv.children.push(GElem::Node(frame_to_tree(fv))),
            });
            assert(stack_view(stack@) =~= ov.drop_last().update(ov.len() - 2, stack@.last()@));
            assert(ov.last() == fv);
            assert(ov[ov.len() - 2] == pv);
            assert(collapse(ov) == collapse(stack_view(stack@)));
        }
    }
    proof {
        assert(collapse(stack_view(stack@)) == stack_view(stack@)[0]);
    }
    let sentinel = stack.pop().unwrap();
    proof {
        assert(sentinel@ == collapse(build_stack(all)));
    }
    let mut children = sentinel.children;
    let ghost cs = view_elems(children@);
    proof {
        lemma_view_elems(children@);
        assert(cs.skip(0) =~= cs);
    }
    let m = children.len();
    let mut j: usize = 0;
    let mut idx: Option<usize> = None;
    while j < m && idx.is_none()
        invariant
            m == children@.len(),
            cs == view_elems(children@),
            cs.len() == m,
            j <= m,
            match idx {
                Some(k) => k < j && cs[k as int] is Node && first_node_of(cs) == Some(
                    cs[k as int]->Node_0,
                ),
                None => first_node_of(cs) == first_node_of(cs.skip(j as int)),
            },
        decreases m - j,
    {
        proof {
            lemma_view_elems(children@);
            assert(cs.skip(j as int)[0] == cs[j as int]);
            assert(cs[j as int] == view_elem(children@[j as int]));
        }
        match &children[j] {
            Elem::Node(_) => {
                idx = Some(j);
            }
            Elem::Token(_) => {
                proof {
                    assert(cs.skip(j as int).drop_first() =~= cs.skip(j + 1));
                }
            }
        }
        j = j + 1;
    }
    match idx {
        Some(k) => {
            let ghost oc = children@;
            let c = children.remove(k);
            proof {
                lemma_view_elems(oc);
                assert(view_elem(c) == cs[k as int]);
            }
            match c {
                Elem::Node(t) => t,
                Elem::Token(_) => {
                    proof {
                        assert(false);
                    }
                    Tree { kind: NODE_ROOT, span: Span { start: 0, end: 0 }, children: Vec::new() }
                }
            }
        }
        None => {
            proof {
                assert(cs.skip(m as int) =~= Seq::<GElem>::empty());
            }
            Tree { kind: NODE_ROOT, span: Span { start: 0, end: 0 }, children: Vec::new() }
        }
    }
}

/// Parses a source text into the library's tree.  The result is the tree
/// that the outside parser's events denote; parsing never fails, whatever
/// the text holds — a text too long for the parser's offset range comes
/// back as the empty root.
pub fn parse(source: &str) -> (r: Tree)
    ensures
        r@ == spec_parse(source@),
{
    let byte_len = source.as_bytes().len();
    proof {
        broadcast use vstd::slice::axiom_spec_len;

        assert(byte_len == source.spec_bytes().len());
    }
    if byte_len < u32::MAX as usize {
        build_tree(parse_events(source))
    } else {
        Tree { kind: NODE_ROOT, span: Span { start: 0, end: 0 }, children: Vec::new() }
    }
}


/// A deep copy of a token: same kind, span and text.
pub fn clone_token(tok: &Token) -> (r: Token)
    ensures
        r@ == tok@,
{
    Token { kind: tok.kind, span: tok.span, text: tok.text.clone() }
}

/// A deep copy of a node, equal to the original in the model.
pub fn clone_tree(t: &Tree) -> (r: Tree)
    ensures
        r@ == t@,
    decreases *t,
{
    let ghost cs = view_elems(t.children@);
    proof {
        lemma_view_elems(t.children@);
        assert(cs.take(0) =~= Seq::<GElem>::empty());
    }
    let n = t.children.len();
    let mut children: Vec<Elem> = Vec::new();
    let mut i: usize = 0;
    while i < n
        invariant
            n == t.children@.len(),
            cs == view_elems(t.children@),
            cs.len() == n,
            i <= n,
            view_elems(children@).len() == i,
            view_elems(children@) == cs.take(i as int),
        decreases n - i,
    {
        proof {
            lemma_view_elems(t.children@);
            lemma_view_elems(children@);
        }
        let ghost oc = children@;
        match &t.children[i] {
            Elem::Node(sub) => {
                let copy = clone_tree(sub);
                children.push(Elem::Node(copy));
            }
            Elem::Token(tok) => {
                children.push(Elem::Token(clone_token(tok)));
            }
        }
        proof {
            lemma_view_elems_push(oc, children@.last());
            assert(view_elems(children@) =~= cs.take(i + 1));
        }
        i = i + 1;
    }
    proof {
        assert(cs.take(n as int) =~= cs);
    }
    let r = Tree { kind: t.kind, span: t.span, children };
    proof {
        assert(r@ =~= t@);
    }
    r
}

} // verus!


//! Static identifier resolution over the chain of enclosing expressions:
//! every name a position can see, and where a given name is bound.  Lambdas
//! bind their parameters, lets and recursive attribute sets bind their
//! entries, and a fixed set of built-in names is always in scope last.
//! Shadowing is innermost-binding-wins: the walk stops at the first
//! ancestor that defines the name.

use vstd::prelude::*;
use crate::kinds::{NODE_LAMBDA, NODE_LEGACY_LET, NODE_LET_IN, NODE_ATTR_SET, NODE_PATTERN,
    NODE_IDENT, TOKEN_REC};
use crate::node::{Cast, TokClass, g_nodes, g_nth, g_first_token, g_text, nodes, nth_node,
    first_token, node_text};
use crate::cursor::{node_at, valid_path, path_view, g_ancestors, ancestor_paths, node_at_path};
use crate::tree::{Tree, GTree, Span};
use crate::strutil::{push_str_chars, chars_to_string, str_eq_chars};

verus! {

/// The built-in names that are always in scope.
pub open spec fn builtin_names() -> Seq<Seq<char>> {
    seq![
        "abort"@,
        "baseNameOf"@,
        "break"@,
        "builtins"@,
        "derivation"@,
        "derivationStrict"@,
        "dirOf"@,
        "false"@,
        "fetchGit"@,
        "fetchMercurial"@,
        "fetchTarball"@,
        "fetchTree"@,
        "fromTOML"@,
        "import"@,
        "isNull"@,
        "map"@,
        "null"@,
        "placeholder"@,
        "removeAttrs"@,
        "scopedImport"@,
        "throw"@,
        "toString"@,
        "true"@,
    ]
}

/// Appends the built-in names to a name list.
pub fn push_builtin_names(out: &mut Vec<String>)
    ensures
        names_view(final(out)@) == names_view(old(out)@) + builtin_names(),
{
    out.push(str_owned("abort"));
    out.push(str_owned("baseNameOf"));
    out.push(str_owned("break"));
    out.push(str_owned("builtins"));
    out.push(str_owned("derivation"));
    out.push(str_owned("derivationStrict"));
    out.push(str_owned("dirOf"));
    out.push(str_owned("false"));
    out.push(str_owned("fetchGit"));
    out.push(str_owned("fetchMercurial"));
    out.push(str_owned("fetchTarball"));
    out.push(str_owned("fetchTree"));
    out.push(str_owned("fromTOML"));
    out.push(str_owned("import"));
    out.push(str_owned("isNull"));
    out.push(str_owned("map"));
    out.push(str_owned("null"));
    out.push(str_owned("placeholder"));
    out.push(str_owned("removeAttrs"));
    out.push(str_owned("scopedImport"));
    out.push(str_owned("throw"));
    out.push(str_owned("toString"));
    out.push(str_owned("true"));
    proof {
        assert(names_view(out@) =~= names_view(old(out)@) + builtin_names());
    }
}

fn str_owned(s: &str) -> (r: String)
    ensures
        r@ == s@,
{
    let mut v: Vec<char> = Vec::new();
    push_str_chars(s, &mut v);
    proof {
        assert(v@ =~= s@);
    }
    chars_to_string(&v)
}

pub open spec fn names_view(s: Seq<String>) -> Seq<Seq<char>> {
    s.map_values(|x: String| x@)
}

// ------------------------------------------------------------------
// The names one scope-bearing ancestor contributes.
// ------------------------------------------------------------------
/// The static name of an attribute-path segment: bare identifiers name
/// themselves; dynamic and string segments name nothing.
pub open spec fn g_attr_name(t: GTree) -> Option<Seq<char>> {
    if t.kind == NODE_IDENT {
        Some(g_text(t))
    } else {
        None
    }
}

/// The name an attrpath-value binding introduces: the static name of the
/// first segment of its attribute path.
pub open spec fn g_av_name(av: GTree) -> Option<Seq<char>> {
    match g_nth(av.children, Cast::Attrpath, 0) {
        None => None,
        Some(path) => match g_nth(path.children, Cast::Attr, 0) {
            None => None,
            Some(attr) => g_attr_name(attr),
        },
    }
}

/// The names a list of attrpath-value bindings introduces.
pub open spec fn g_av_names(avs: Seq<GTree>) -> Seq<Seq<char>>
    decreases avs.len(),
{
    if avs.len() == 0 {
        Seq::empty()
    } else {
        (match g_av_name(avs[0]) {
            Some(n) => seq![n],
            None => Seq::empty(),
        }) + g_av_names(avs.drop_first())
    }
}

/// The static names among a list of attribute-path segments.
pub open spec fn g_attr_names_of(attrs: Seq<GTree>) -> Seq<Seq<char>>
    decreases attrs.len(),
{
    if attrs.len() == 0 {
        Seq::empty()
    } else {
        (match g_attr_name(attrs[0]) {
            Some(n) => seq![n],
            None => Seq::empty(),
        }) + g_attr_names_of(attrs.drop_first())
    }
}

/// The names a list of inherit clauses introduces.
pub open spec fn g_inherit_names(ins: Seq<GTree>) -> Seq<Seq<char>>
    decreases ins.len(),
{
    if ins.len() == 0 {
        Seq::empty()
    } else {
        g_attr_names_of(g_nodes(ins[0].children, Cast::Attr)) + g_inherit_names(ins.drop_first())
    }
}

/// The names the bindings of a let or recursive attribute set introduce:
/// the attrpath-value names first, then the inherited ones.
pub open spec fn g_entry_names(t: GTree) -> Seq<Seq<char>> {
    g_av_names(g_nodes(t.children, Cast::AttrpathValue)) + g_inherit_names(
        g_nodes(t.children, Cast::Inherit),
    )
}

/// The names a destructuring pattern's entries introduce.
pub open spec fn g_pat_entry_names(es: Seq<GTree>) -> Seq<Seq<char>>
    decreases es.len(),
{
    if es.len() == 0 {
        Seq::empty()
    } else {
        (match g_nth(es[0].children, Cast::Ident, 0) {
            Some(id) => seq![g_text(id)],
            None => Seq::empty(),
        }) + g_pat_entry_names(es.drop_first())
    }
}

/// The names a lambda's parameter introduces: for a destructuring pattern,
/// its alias first and then each named entry; for a plain parameter, its
/// own name.
pub open spec fn g_param_names(o: Option<GTree>) -> Seq<Seq<char>> {
    match o {
        None => Seq::empty(),
        Some(p) => if p.kind == NODE_PATTERN {
            (match g_nth(p.children, Cast::PatBind, 0) {
                Some(bind) => match g_nth(bind.children, Cast::Ident, 0) {
                    Some(id) => seq![g_text(id)],
                    None => Seq::empty(),
                },
                None => Seq::empty(),
            }) + g_pat_entry_names(g_nodes(p.children, Cast::PatEntry))
        } else {
            seq![g_text(p)]
        },
    }
}

/// The names one enclosing expression contributes to the scope.
pub open spec fn g_scope_names(t: GTree) -> Seq<Seq<char>> {
    if t.kind == NODE_LAMBDA {
        g_param_names(g_nth(t.children, Cast::Param, 0))
    } else if t.kind == NODE_LEGACY_LET || t.kind == NODE_LET_IN {
        g_entry_names(t)
    } else if t.kind == NODE_ATTR_SET && g_first_token(
        t.children,
        TokClass::Kind(TOKEN_REC),
    ) is Some {
        g_entry_names(t)
    } else {
        Seq::empty()
    }
}

/// Every name visible at a node: each ancestor's names from the innermost
/// out, the built-in names last.
pub open spec fn g_variables(root: GTree, path: Seq<int>) -> Seq<Seq<char>> {
    g_scope_chain(root, g_ancestors(root, path)) + builtin_names()
}

pub open spec fn g_scope_chain(root: GTree, chain: Seq<Seq<int>>) -> Seq<Seq<char>>
    decreases chain.len(),
{
    if chain.len() == 0 {
        Seq::empty()
    } else {
        g_scope_names(node_at(root, chain[0])) + g_scope_chain(root, chain.drop_first())
    }
}

// ------------------------------------------------------------------
// Collecting the visible names.
// ------------------------------------------------------------------
fn push_attr_name(attr: &Tree, out: &mut Vec<String>)
    ensures
        names_view(final(out)@) == names_view(old(out)@) + (match g_attr_name(attr@) {
            Some(n) => seq![n],
            None => Seq::<Seq<char>>::empty(),
        }),
{
    if attr.kind == NODE_IDENT {
        let text = node_text(attr);
        out.push(chars_to_string(&text));
        proof {
            assert(names_view(out@) =~= names_view(old(out)@) + seq![g_text(attr@)]);
        }
    } else {
        proof {
            assert(names_view(out@) =~= names_view(old(out)@) + Seq::<Seq<char>>::empty());
        }
    }
}

fn push_av_names(avs: &Vec<&Tree>, out: &mut Vec<String>)
    ensures
        names_view(final(out)@) == names_view(old(out)@) + g_av_names(
            crate::render::views_of(avs@),
        ),
{
    let ghost ts = crate::render::views_of(avs@);
    let n = avs.len();
    let mut i: usize = 0;
    proof {
        assert(ts.skip(0) =~= ts);
        assert(names_view(out@) + g_av_names(ts) =~= names_view(old(out)@) + g_av_names(ts));
    }
    while i < n
        invariant
            n == avs@.len(),
            crate::render::views_of(avs@) == ts,
            ts.len() == n,
            i <= n,
            names_view(out@) + g_av_names(ts.skip(i as int)) == names_view(old(out)@) + g_av_names(
                ts,
            ),
        decreases n - i,
    {
        proof {
            assert(ts.skip(i as int)[0] == ts[i as int]);
            assert(ts.skip(i as int).drop_first() =~= ts.skip(i + 1));
        }
        let av = avs[i];
        let ghost pre = out@;
        match nth_node(av, Cast::Attrpath, 0) {
            Some(path) => {
                match nth_node(path, Cast::Attr, 0) {
                    Some(attr) => {
                        push_attr_name(attr, out);
                    }
                    None => {}
                }
            }
            None => {}
        }
        proof {
            assert(names_view(out@) + g_av_names(ts.skip(i + 1)) =~= names_view(pre) + g_av_names(
                ts.skip(i as int),
            ));
        }
        i = i + 1;
    }
    proof {
        assert(ts.skip(n as int) =~= Seq::<GTree>::empty());
        assert(names_view(out@) + Seq::<Seq<char>>::empty() =~= names_view(out@));
    }
}

fn push_attr_names_of(attrs: &Vec<&Tree>, out: &mut Vec<String>)
    ensures
        names_view(final(out)@) == names_view(old(out)@) + g_attr_names_of(
            crate::render::views_of(attrs@),
        ),
{
    let ghost ts = crate::render::views_of(attrs@);
    let n = attrs.len();
    let mut i: usize = 0;
    proof {
        assert(ts.skip(0) =~= ts);
    }
    while i < n
        invariant
            n == attrs@.len(),
            crate::render::views_of(attrs@) == ts,
            ts.len() == n,
            i <= n,
            names_view(out@) + g_attr_names_of(ts.skip(i as int)) == names_view(old(out)@)
                + g_attr_names_of(ts),
        decreases n - i,
    {
        proof {
            assert(ts.skip(i as int)[0] == ts[i as int]);
            assert(ts.skip(i as int).drop_first() =~= ts.skip(i + 1));
        }
        let ghost pre = out@;
        push_attr_name(attrs[i], out);
        proof {
            assert(names_view(out@) + g_attr_names_of(ts.skip(i + 1)) =~= names_view(pre)
                + g_attr_names_of(ts.skip(i as int)));
        }
        i = i + 1;
    }
    proof {
        assert(ts.skip(n as int) =~= Seq::<GTree>::empty());
        assert(names_view(out@) + Seq::<Seq<char>>::empty() =~= names_view(out@));
    }
}

fn push_inherit_names(ins: &Vec<&Tree>, out: &mut Vec<String>)
    ensures
        names_view(final(out)@) == names_view(old(out)@) + g_inherit_names(
            crate::render::views_of(ins@),
        ),
{
    let ghost ts = crate::render::views_of(ins@);
    let n = ins.len();
    let mut i: usize = 0;
    proof {
        assert(ts.skip(0) =~= ts);
    }
    while i < n
        invariant
            n == ins@.len(),
            crate::render::views_of(ins@) == ts,
            ts.len() == n,
            i <= n,
            names_view(out@) + g_inherit_names(ts.skip(i as int)) == names_view(old(out)@)
                + g_inherit_names(ts),
        decreases n - i,
    {
        proof {
            assert(ts.skip(i as int)[0] == ts[i as int]);
            assert(ts.skip(i as int).drop_first() =~= ts.skip(i + 1));
        }
        let ghost pre = out@;
        let attrs = nodes(ins[i], Cast::Attr);
        proof {
            assert(crate::render::views_of(attrs@) =~= g_nodes(ts[i as int].children, Cast::Attr));
        }
        push_attr_names_of(&attrs, out);
        proof {
            assert(names_view(out@) + g_inherit_names(ts.skip(i + 1)) =~= names_view(pre)
                + g_inherit_names(ts.skip(i as int)));
        }
        i = i + 1;
    }
    proof {
        assert(ts.skip(n as int) =~= Seq::<GTree>::empty());
        assert(names_view(out@) + Seq::<Seq<char>>::empty() =~= names_view(out@));
    }
}

fn push_entry_names(t: &Tree, out: &mut Vec<String>)
    ensures
        names_view(final(out)@) == names_view(old(out)@) + g_entry_names(t@),
{
    let avs = nodes(t, Cast::AttrpathValue);
    proof {
        assert(crate::render::views_of(avs@) =~= g_nodes(t@.children, Cast::AttrpathValue));
    }
    push_av_names(&avs, out);
    let ins = nodes(t, Cast::Inherit);
    proof {
        assert(crate::render::views_of(ins@) =~= g_nodes(t@.children, Cast::Inherit));
    }
    push_inherit_names(&ins, out);
    proof {
        assert(names_view(out@) =~= names_view(old(out)@) + g_entry_names(t@));
    }
}

fn push_pat_entry_names(es: &Vec<&Tree>, out: &mut Vec<String>)
    ensures
        names_view(final(out)@) == names_view(old(out)@) + g_pat_entry_names(
            crate::render::views_of(es@),
        ),
{
    let ghost ts = crate::render::views_of(es@);
    let n = es.len();
    let mut i: usize = 0;
    proof {
        assert(ts.skip(0) =~= ts);
    }
    while i < n
        invariant
            n == es@.len(),
            crate::render::views_of(es@) == ts,
            ts.len() == n,
            i <= n,
            names_view(out@) + g_pat_entry_names(ts.skip(i as int)) == names_view(old(out)@)
                + g_pat_entry_names(ts),
        decreases n - i,
    {
        proof {
            assert(ts.skip(i as int)[0] == ts[i as int]);
            assert(ts.skip(i as int).drop_first() =~= ts.skip(i + 1));
        }
        let ghost pre = out@;
        match nth_node(es[i], Cast::Ident, 0) {
            Some(id) => {
                let text = node_text(id);
                out.push(chars_to_string(&text));
            }
            None => {}
        }
        proof {
            assert(names_view(out@) + g_pat_entry_names(ts.skip(i + 1)) =~= names_view(pre)
                + g_pat_entry_names(ts.skip(i as int)));
        }
        i = i + 1;
    }
    proof {
        assert(ts.skip(n as int) =~= Seq::<GTree>::empty());
        assert(names_view(out@) + Seq::<Seq<char>>::empty() =~= names_view(out@));
    }
}

fn push_scope_names(t: &Tree, out: &mut Vec<String>)
    ensures
        names_view(final(out)@) == names_view(old(out)@) + g_scope_names(t@),
{
    if t.kind == NODE_LAMBDA {
        match nth_node(t, Cast::Param, 0) {
            None => {
                proof {
                    assert(names_view(out@) =~= names_view(out@) + g_scope_names(t@));
                }
            }
            Some(p) => {
                if p.kind == NODE_PATTERN {
                    match nth_node(p, Cast::PatBind, 0) {
                        Some(bind) => {
                            match nth_node(bind, Cast::Ident, 0) {
                                Some(id) => {
                                    let text = node_text(id);
                                    out.push(chars_to_string(&text));
                                }
                                None => {}
                            }
                        }
                        None => {}
                    }
                    let ghost mid = out@;
                    let es = nodes(p, Cast::PatEntry);
                    proof {
                        assert(crate::render::views_of(es@) =~= g_nodes(
                            p@.children,
                            Cast::PatEntry,
                        ));
                    }
                    push_pat_entry_names(&es, out);
                    proof {
                        assert(names_view(out@) =~= names_view(old(out)@) + g_scope_names(t@));
                    }
                } else {
                    let text = node_text(p);
                    out.push(chars_to_string(&text));
                    proof {
                        assert(names_view(out@) =~= names_view(old(out)@) + g_scope_names(t@));
                    }
                }
            }
        }
    } else if t.kind == NODE_LEGACY_LET || t.kind == NODE_LET_IN {
        push_entry_names(t, out);
        proof {
            assert(names_view(out@) =~= names_view(old(out)@) + g_scope_names(t@));
        }
    } else if t.kind == NODE_ATTR_SET {
        match first_token(t, TokClass::Kind(TOKEN_REC)) {
            Some(_) => {
                push_entry_names(t, out);
                proof {
                    assert(names_view(out@) =~= names_view(old(out)@) + g_scope_names(t@));
                }
            }
            None => {
                proof {
                    assert(names_view(out@) =~= names_view(out@) + g_scope_names(t@));
                }
            }
        }
    } else {
        proof {
            assert(names_view(out@) =~= names_view(out@) + g_scope_names(t@));
        }
    }
}

/// Every name visible at the node a path names: the enclosing lambdas' and
/// lets' names from the innermost scope outward, the built-in names last.
pub fn get_variables(root: &Tree, path: &Vec<usize>) -> (r: Vec<String>)
    requires
        valid_path(root@, path_view(path@)),
    ensures
        names_view(r@) == g_variables(root@, path_view(path@)),
{
    let chain = ancestor_paths(root, path);
    let ghost gchain = g_ancestors(root@, path_view(path@));
    let mut out: Vec<String> = Vec::new();
    let n = chain.len();
    let mut i: usize = 0;
    proof {
        assert(gchain.skip(0) =~= gchain);
        assert(names_view(out@) + g_scope_chain(root@, gchain) =~= g_scope_chain(root@, gchain));
    }
    while i < n
        invariant
            n == chain@.len(),
            gchain.len() == n,
            valid_path(root@, path_view(path@)),
            forall|k: int| 0 <= k < n ==> path_view(chain@[k]@) == gchain[k],
            gchain == g_ancestors(root@, path_view(path@)),
            i <= n,
            names_view(out@) + g_scope_chain(root@, gchain.skip(i as int)) == g_scope_chain(
                root@,
                gchain,
            ),
        decreases n - i,
    {
        proof {
            assert(gchain.skip(i as int)[0] == gchain[i as int]);
            assert(gchain.skip(i as int).drop_first() =~= gchain.skip(i + 1));
            crate::cursor::lemma_ancestors_valid(root@, path_view(path@));
        }
        let ghost pre = out@;
        match node_at_path(root, &chain[i]) {
            Some(node) => {
                push_scope_names(node, &mut out);
            }
            None => {
                proof {
                    assert(false);
                }
            }
        }
        proof {
            assert(names_view(out@) + g_scope_chain(root@, gchain.skip(i + 1)) =~= names_view(pre)
                + g_scope_chain(root@, gchain.skip(i as int)));
        }
        i = i + 1;
    }
    proof {
        assert(gchain.skip(n as int) =~= Seq::<Seq<int>>::empty());
        assert(names_view(out@) + Seq::<Seq<char>>::empty() =~= names_view(out@));
    }
    push_builtin_names(&mut out);
    proof {
        assert(names_view(out@) =~= g_variables(root@, path_view(path@)));
    }
    out
}


// ------------------------------------------------------------------
// Resolving one name.
// ------------------------------------------------------------------
/// Where a name was found: which binding form introduced it, with the span
/// of the binding so hover can report a definition site.
#[derive(Clone, Copy, PartialEq, Eq, Structural, Debug)]
pub enum FoundVariable {
    PatBind(Span),
    PatEntry(Span),
    IdentParam(Span),
    AttrpathValue(Span),
    Inherit(Span),
    Builtin,
}

/// The first attrpath-value binding of the name, by its span.
pub open spec fn g_find_av(avs: Seq<GTree>, name: Seq<char>) -> Option<Span>
    decreases avs.len(),
{
    if avs.len() == 0 {
        None
    } else if g_av_name(avs[0]) == Some(name) {
        Some(avs[0].span)
    } else {
        g_find_av(avs.drop_first(), name)
    }
}

/// Whether an inherit clause names the sought name among its attributes.
pub open spec fn g_inherit_has(attrs: Seq<GTree>, name: Seq<char>) -> bool
    decreases attrs.len(),
{
    if attrs.len() == 0 {
        false
    } else {
        g_attr_name(attrs[0]) == Some(name) || g_inherit_has(attrs.drop_first(), name)
    }
}

/// The first inherit clause naming the sought name, by its span.
pub open spec fn g_find_inherit(ins: Seq<GTree>, name: Seq<char>) -> Option<Span>
    decreases ins.len(),
{
    if ins.len() == 0 {
        None
    } else if g_inherit_has(g_nodes(ins[0].children, Cast::Attr), name) {
        Some(ins[0].span)
    } else {
        g_find_inherit(ins.drop_first(), name)
    }
}

/// Where a let or recursive attribute set binds the name: its
/// attrpath-value bindings first, its inherits after.
pub open spec fn g_search_entries(t: GTree, name: Seq<char>) -> Option<FoundVariable> {
    match g_find_av(g_nodes(t.children, Cast::AttrpathValue), name) {
        Some(sp) => Some(FoundVariable::AttrpathValue(sp)),
        None => match g_find_inherit(g_nodes(t.children, Cast::Inherit), name) {
            Some(sp) => Some(FoundVariable::Inherit(sp)),
            None => None,
        },
    }
}

/// The first pattern entry of the name, by its span.
pub open spec fn g_find_pat_entry(es: Seq<GTree>, name: Seq<char>) -> Option<Span>
    decreases es.len(),
{
    if es.len() == 0 {
        None
    } else if (match g_nth(es[0].children, Cast::Ident, 0) {
        Some(id) => g_text(id) == name,
        None => false,
    }) {
        Some(es[0].span)
    } else {
        g_find_pat_entry(es.drop_first(), name)
    }
}

/// Where one enclosing expression binds the name, if it does.
pub open spec fn g_find_in_scope(t: GTree, name: Seq<char>) -> Option<FoundVariable> {
    if t.kind == NODE_LAMBDA {
        match g_nth(t.children, Cast::Param, 0) {
            None => None,
            Some(p) => if p.kind == NODE_PATTERN {
                if (match g_nth(p.children, Cast::PatBind, 0) {
                    Some(bind) => match g_nth(bind.children, Cast::Ident, 0) {
                        Some(id) => g_text(id) == name,
                        None => false,
                    },
                    None => false,
                }) {
                    Some(FoundVariable::PatBind(g_nth(p.children, Cast::PatBind, 0)->Some_0.span))
                } else {
                    match g_find_pat_entry(g_nodes(p.children, Cast::PatEntry), name) {
                        Some(sp) => Some(FoundVariable::PatEntry(sp)),
                        None => None,
                    }
                }
            } else {
                match g_nth(p.children, Cast::Ident, 0) {
                    Some(id) => if g_text(id) == name {
                        Some(FoundVariable::IdentParam(p.span))
                    } else {
                        None
                    },
                    None => None,
                }
            },
        }
    } else if t.kind == NODE_LEGACY_LET || t.kind == NODE_LET_IN {
        g_search_entries(t, name)
    } else if t.kind == NODE_ATTR_SET && g_first_token(
        t.children,
        TokClass::Kind(TOKEN_REC),
    ) is Some {
        g_search_entries(t, name)
    } else {
        None
    }
}

/// The innermost binding of the name along an ancestor chain.
pub open spec fn g_find_chain(root: GTree, chain: Seq<Seq<int>>, name: Seq<char>) -> Option<
    FoundVariable,
>
    decreases chain.len(),
{
    if chain.len() == 0 {
        None
    } else {
        match g_find_in_scope(node_at(root, chain[0]), name) {
            Some(f) => Some(f),
            None => g_find_chain(root, chain.drop_first(), name),
        }
    }
}

/// Where a name is bound, seen from a node: the innermost static binding,
/// else a built-in name, else nothing.
pub open spec fn g_find_variable(root: GTree, path: Seq<int>, name: Seq<char>) -> Option<
    FoundVariable,
> {
    match g_find_chain(root, g_ancestors(root, path), name) {
        Some(f) => Some(f),
        None => if builtin_names().contains(name) {
            Some(FoundVariable::Builtin)
        } else {
            None
        },
    }
}

fn find_av(avs: &Vec<&Tree>, name: &Vec<char>) -> (r: Option<Span>)
    ensures
        r == g_find_av(crate::render::views_of(avs@), name@),
{
    let ghost ts = crate::render::views_of(avs@);
    let n = avs.len();
    let mut i: usize = 0;
    proof {
        assert(ts.skip(0) =~= ts);
    }
    while i < n
        invariant
            n == avs@.len(),
            crate::render::views_of(avs@) == ts,
            ts.len() == n,
            i <= n,
            g_find_av(ts, name@) == g_find_av(ts.skip(i as int), name@),
        decreases n - i,
    {
        proof {
            assert(ts.skip(i as int)[0] == ts[i as int]);
            assert(ts.skip(i as int).drop_first() =~= ts.skip(i + 1));
        }
        let av = avs[i];
        let matched = match nth_node(av, Cast::Attrpath, 0) {
            Some(path) => match nth_node(path, Cast::Attr, 0) {
                Some(attr) => {
                    if attr.kind == NODE_IDENT {
                        let text = node_text(attr);
                        crate::strutil::chars_eq(&text, name)
                    } else {
                        false
                    }
                }
                None => false,
            },
            None => false,
        };
        proof {
            assert(matched == (g_av_name(ts[i as int]) == Some(name@)));
        }
        if matched {
            return Some(av.span);
        }
        i = i + 1;
    }
    proof {
        assert(ts.skip(n as int) =~= Seq::<GTree>::empty());
    }
    None
}

fn inherit_has(attrs: &Vec<&Tree>, name: &Vec<char>) -> (r: bool)
    ensures
        r == g_inherit_has(crate::render::views_of(attrs@), name@),
{
    let ghost ts = crate::render::views_of(attrs@);
    let n = attrs.len();
    let mut i: usize = 0;
    proof {
        assert(ts.skip(0) =~= ts);
    }
    while i < n
        invariant
            n == attrs@.len(),
            crate::render::views_of(attrs@) == ts,
            ts.len() == n,
            i <= n,
            g_inherit_has(ts, name@) == g_inherit_has(ts.skip(i as int), name@),
        decreases n - i,
    {
        proof {
            assert(ts.skip(i as int)[0] == ts[i as int]);
            assert(ts.skip(i as int).drop_first() =~= ts.skip(i + 1));
        }
        let attr = attrs[i];
        if attr.kind == NODE_IDENT {
            let text = node_text(attr);
            if crate::strutil::chars_eq(&text, name) {
                return true;
            }
        }
        i = i + 1;
    }
    proof {
        assert(ts.skip(n as int) =~= Seq::<GTree>::empty());
    }
    false
}

fn find_inherit(ins: &Vec<&Tree>, name: &Vec<char>) -> (r: Option<Span>)
    ensures
        r == g_find_inherit(crate::render::views_of(ins@), name@),
{
    let ghost ts = crate::render::views_of(ins@);
    let n = ins.len();
    let mut i: usize = 0;
    proof {
        assert(ts.skip(0) =~= ts);
    }
    while i < n
        invariant
            n == ins@.len(),
            crate::render::views_of(ins@) == ts,
            ts.len() == n,
            i <= n,
            g_find_inherit(ts, name@) == g_find_inherit(ts.skip(i as int), name@),
        decreases n - i,
    {
        proof {
            assert(ts.skip(i as int)[0] == ts[i as int]);
            assert(ts.skip(i as int).drop_first() =~= ts.skip(i + 1));
        }
        let attrs = nodes(ins[i], Cast::Attr);
        proof {
            assert(crate::render::views_of(attrs@) =~= g_nodes(ts[i as int].children, Cast::Attr));
        }
        if inherit_has(&attrs, name) {
            return Some(ins[i].span);
        }
        i = i + 1;
    }
    proof {
        assert(ts.skip(n as int) =~= Seq::<GTree>::empty());
    }
    None
}

fn search_entries(t: &Tree, name: &Vec<char>) -> (r: Option<FoundVariable>)
    ensures
        r == g_search_entries(t@, name@),
{
    let avs = nodes(t, Cast::AttrpathValue);
    proof {
        assert(crate::render::views_of(avs@) =~= g_nodes(t@.children, Cast::AttrpathValue));
    }
    match find_av(&avs, name) {
        Some(sp) => Some(FoundVariable::AttrpathValue(sp)),
        None => {
            let ins = nodes(t, Cast::Inherit);
            proof {
                assert(crate::render::views_of(ins@) =~= g_nodes(t@.children, Cast::Inherit));
            }
            match find_inherit(&ins, name) {
                Some(sp) => Some(FoundVariable::Inherit(sp)),
                None => None,
            }
        }
    }
}

fn find_pat_entry(es: &Vec<&Tree>, name: &Vec<char>) -> (r: Option<Span>)
    ensures
        r == g_find_pat_entry(crate::render::views_of(es@), name@),
{
    let ghost ts = crate::render::views_of(es@);
    let n = es.len();
    let mut i: usize = 0;
    proof {
        assert(ts.skip(0) =~= ts);
    }
    while i < n
        invariant
            n == es@.len(),
            crate::render::views_of(es@) == ts,
            ts.len() == n,
            i <= n,
            g_find_pat_entry(ts, name@) == g_find_pat_entry(ts.skip(i as int), name@),
        decreases n - i,
    {
        proof {
            assert(ts.skip(i as int)[0] == ts[i as int]);
            assert(ts.skip(i as int).drop_first() =~= ts.skip(i + 1));
        }
        let matched = match nth_node(es[i], Cast::Ident, 0) {
            Some(id) => {
                let text = node_text(id);
                crate::strutil::chars_eq(&text, name)
            }
            None => false,
        };
        if matched {
            return Some(es[i].span);
        }
        i = i + 1;
    }
    proof {
        assert(ts.skip(n as int) =~= Seq::<GTree>::empty());
    }
    None
}

fn find_in_scope(t: &Tree, name: &Vec<char>) -> (r: Option<FoundVariable>)
    ensures
        r == g_find_in_scope(t@, name@),
{
    if t.kind == NODE_LAMBDA {
        match nth_node(t, Cast::Param, 0) {
            None => None,
            Some(p) => {
                if p.kind == NODE_PATTERN {
                    let bind_matches = match nth_node(p, Cast::PatBind, 0) {
                        Some(bind) => match nth_node(bind, Cast::Ident, 0) {
                            Some(id) => {
                                let text = node_text(id);
                                crate::strutil::chars_eq(&text, name)
                            }
                            None => false,
                        },
                        None => false,
                    };
                    if bind_matches {
                        match nth_node(p, Cast::PatBind, 0) {
                            Some(bind) => Some(FoundVariable::PatBind(bind.span)),
                            None => {
                                proof {
                                    assert(false);
                                }
                                None
                            }
                        }
                    } else {
                        let es = nodes(p, Cast::PatEntry);
                        proof {
                            assert(crate::render::views_of(es@) =~= g_nodes(
                                p@.children,
                                Cast::PatEntry,
                            ));
                        }
                        match find_pat_entry(&es, name) {
                            Some(sp) => Some(FoundVariable::PatEntry(sp)),
                            None => None,
                        }
                    }
                } else {
                    match nth_node(p, Cast::Ident, 0) {
                        Some(id) => {
                            let text = node_text(id);
                            if crate::strutil::chars_eq(&text, name) {
                                Some(FoundVariable::IdentParam(p.span))
                            } else {
                                None
                            }
                        }
                        None => None,
                    }
                }
            }
        }
    } else if t.kind == NODE_LEGACY_LET || t.kind == NODE_LET_IN {
        search_entries(t, name)
    } else if t.kind == NODE_ATTR_SET {
        match first_token(t, TokClass::Kind(TOKEN_REC)) {
            Some(_) => search_entries(t, name),
            None => None,
        }
    } else {
        None
    }
}

/// Whether a name is one of the built-in names.
pub fn is_builtin(name: &Vec<char>) -> (r: bool)
    ensures
        r == builtin_names().contains(name@),
{
    let mut bs: Vec<String> = Vec::new();
    push_builtin_names(&mut bs);
    proof {
        assert(names_view(bs@) =~= builtin_names());
    }
    let n = bs.len();
    let mut i: usize = 0;
    proof {
        assert(names_view(bs@).len() == builtin_names().len());
    }
    while i < n
        invariant
            n == bs@.len(),
            names_view(bs@) == builtin_names(),
            builtin_names().len() == n,
            i <= n,
            forall|k: int| 0 <= k < i ==> builtin_names()[k] != name@,
        decreases n - i,
    {
        if crate::strutil::str_eq_chars(bs[i].as_str(), name) {
            proof {
                assert(builtin_names()[i as int] == name@);
            }
            return true;
        }
        i = i + 1;
    }
    proof {
        assert(!builtin_names().contains(name@));
    }
    false
}

/// Where a name is bound, seen from the node a path names: the innermost
/// static binding wins; a name bound nowhere falls back to the built-ins.
pub fn find_variable(root: &Tree, path: &Vec<usize>, name: &Vec<char>) -> (r: Option<
    FoundVariable,
>)
    requires
        valid_path(root@, path_view(path@)),
    ensures
        r == g_find_variable(root@, path_view(path@), name@),
{
    let chain = ancestor_paths(root, path);
    let ghost gchain = g_ancestors(root@, path_view(path@));
    let n = chain.len();
    let mut i: usize = 0;
    proof {
        assert(gchain.skip(0) =~= gchain);
    }
    while i < n
        invariant
            n == chain@.len(),
            gchain.len() == n,
            valid_path(root@, path_view(path@)),
            gchain == g_ancestors(root@, path_view(path@)),
            forall|k: int| 0 <= k < n ==> path_view(chain@[k]@) == gchain[k],
            i <= n,
            g_find_chain(root@, gchain, name@) == g_find_chain(
                root@,
                gchain.skip(i as int),
                name@,
            ),
        decreases n - i,
    {
        proof {
            assert(gchain.skip(i as int)[0] == gchain[i as int]);
            assert(gchain.skip(i as int).drop_first() =~= gchain.skip(i + 1));
            crate::cursor::lemma_ancestors_valid(root@, path_view(path@));
        }
        match node_at_path(root, &chain[i]) {
            Some(node) => {
                match find_in_scope(node, name) {
                    Some(f) => {
                        return Some(f);
                    }
                    None => {}
                }
            }
            None => {
                proof {
                    assert(false);
                }
            }
        }
        i = i + 1;
    }
    proof {
        assert(gchain.skip(n as int) =~= Seq::<Seq<int>>::empty());
    }
    if is_builtin(name) {
        Some(FoundVariable::Builtin)
    } else {
        None
    }
}


// ------------------------------------------------------------------
// The shadowing law.
// ------------------------------------------------------------------
/// Along an ancestor chain, the innermost binding wins: where one ancestor
/// binds the name and every ancestor nearer the use leaves it unbound,
/// resolution returns exactly that ancestor's binding.
pub proof fn lemma_shadowing_chain(root: GTree, chain: Seq<Seq<int>>, name: Seq<char>, k: int)
    requires
        0 <= k < chain.len(),
        g_find_in_scope(node_at(root, chain[k]), name) is Some,
        forall|j: int|
            0 <= j < k ==> g_find_in_scope(node_at(root, #[trigger] chain[j]), name) is None,
    ensures
        g_find_chain(root, chain, name) == g_find_in_scope(node_at(root, chain[k]), name),
    decreases k,
{
    if k > 0 {
        assert(chain.drop_first()[k - 1] == chain[k]);
        assert forall|j: int|
            0 <= j < k - 1 implies g_find_in_scope(
            node_at(root, #[trigger] chain.drop_first()[j]),
            name,
        ) is None by {
            assert(chain.drop_first()[j] == chain[j + 1]);
        }
        lemma_shadowing_chain(root, chain.drop_first(), name, k - 1);
    }
}

/// Seen from a use site, the innermost enclosing binding of a name shadows
/// every outer one: resolution returns the binding of the nearest ancestor
/// that defines the name, whatever the ancestors above it define.
pub proof fn lemma_shadowing(root: GTree, path: Seq<int>, name: Seq<char>, k: int)
    requires
        0 <= k < g_ancestors(root, path).len(),
        g_find_in_scope(node_at(root, g_ancestors(root, path)[k]), name) is Some,
        forall|j: int|
            0 <= j < k ==> g_find_in_scope(
                node_at(root, #[trigger] g_ancestors(root, path)[j]),
                name,
            ) is None,
    ensures
        g_find_variable(root, path, name) == g_find_in_scope(
            node_at(root, g_ancestors(root, path)[k]),
            name,
        ),
{
    lemma_shadowing_chain(root, g_ancestors(root, path), name, k);
}

} // verus!



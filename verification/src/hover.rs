//! Hover strategy selection: what a hover request at an offset should show —
//! a resolved path, a schema description, or an expression for the evaluator
//! to describe — and where the hovered thing was defined.

use vstd::prelude::*;
use crate::kinds::{is_expr_kind, expr_kind, NODE_SELECT, NODE_ATTR_SET, NODE_PATH_ABS,
    NODE_PATH_REL, NODE_PATH_HOME, NODE_PATH_SEARCH};
use crate::node::{Cast, g_nodes, g_text, nodes, node_text};
use crate::cursor::{node_at, valid_path, path_view, g_locate, locate_cursor, GLocationWithin,
    LocationWithinExpr, node_at_path, clone_path};
use crate::context::{g_in_context_with_select, g_nth_child_index, g_first_with,
    in_context_with_select, nth_child_index, chain_view, in_context_custom};
use crate::cursor::{g_ancestors, ancestor_paths, lemma_ancestors_valid};
use crate::file_types::{FileInfo, spec_base_path};
use crate::render::{spec_stringify_attr, spec_join_path, safe_stringify_attr};
use crate::schema::{Schema, g_schema_at, g_descend, get_schema, get_schema_root, descend};
use crate::scopes::{FoundVariable, g_find_variable, find_variable};
use crate::tree::{Tree, GTree, Span, spec_parse, parse};
use crate::strutil::{push_str_chars, push_all, chars_to_string};
use crate::completion::g_schema_root_of;

verus! {

/// A definition site: a file and a position in it.
pub struct Position {
    pub line: u32,
    pub col: u32,
    pub path: String,
}

/// What hover shows: rendered markdown and, where known, a definition site.
pub struct HoverResult {
    pub md: String,
    pub position: Option<Position>,
}

/// Where the hovered thing came from, deciding what the shown position is.
pub enum HoverOrigin {
    /// A lambda parameter, by the span of its binding.
    Param(Span),
    /// A let, attribute-set or inherit binding, by its span.
    Binding(Span),
    /// A dynamic name from an enclosing with-expression.
    With(Span),
    /// A segment of a selection: the evaluator reports the site.
    Select,
    /// A built-in name.
    Builtin,
    /// A schema position, with the schema's description.
    Schema(Option<String>),
    /// A path literal, resolved against the file's directory.
    Path(String),
}

/// Mathematical model of a hover origin.
#[verifier::ext_equal]
pub enum GHoverOrigin {
    Param(Span),
    Binding(Span),
    With(Span),
    Select,
    Builtin,
    Schema(Option<Seq<char>>),
    Path(Seq<char>),
}

impl View for HoverOrigin {
    type V = GHoverOrigin;

    open spec fn view(&self) -> GHoverOrigin {
        match self {
            HoverOrigin::Param(sp) => GHoverOrigin::Param(*sp),
            HoverOrigin::Binding(sp) => GHoverOrigin::Binding(*sp),
            HoverOrigin::With(sp) => GHoverOrigin::With(*sp),
            HoverOrigin::Select => GHoverOrigin::Select,
            HoverOrigin::Builtin => GHoverOrigin::Builtin,
            HoverOrigin::Schema(d) => GHoverOrigin::Schema(
                match d {
                    Some(s) => Some(s@),
                    None => None,
                },
            ),
            HoverOrigin::Path(p) => GHoverOrigin::Path(p@),
        }
    }
}

/// What a hover request should do.
pub struct HoverStrategy {
    pub range: Span,
    pub expression: Option<String>,
    pub attr: Option<String>,
    pub origin: HoverOrigin,
}

/// Mathematical model of a hover strategy.
#[verifier::ext_equal]
pub struct GHoverStrategy {
    pub range: Span,
    pub expression: Option<Seq<char>>,
    pub attr: Option<Seq<char>>,
    pub origin: GHoverOrigin,
}

impl View for HoverStrategy {
    type V = GHoverStrategy;

    open spec fn view(&self) -> GHoverStrategy {
        GHoverStrategy {
            range: self.range,
            expression: match self.expression {
                Some(ref s) => Some(s@),
                None => None,
            },
            attr: match self.attr {
                Some(ref s) => Some(s@),
                None => None,
            },
            origin: self.origin@,
        }
    }
}

/// A path node's text with a leading `./` taken off.
pub open spec fn g_strip_dot_slash(p: Seq<char>) -> Seq<char> {
    if p.len() >= 2 && p.take(2) == "./"@ {
        p.skip(2)
    } else {
        p
    }
}

/// The file a path node points at: an absolute path stands as written, any
/// other is resolved against the file's directory, a leading `./` dropped.
pub open spec fn g_resolved_path(t: GTree, base: Seq<char>) -> Seq<char> {
    if t.kind == NODE_PATH_ABS {
        g_text(t)
    } else {
        spec_join_path(base, g_strip_dot_slash(g_text(t)))
    }
}

/// Where a name is hovered: its innermost binding's site with the context
/// that resolves it, or a deferred with-expression query, or nothing.
pub open spec fn g_hover_variable(
    root: GTree,
    fi: FileInfo,
    name: Seq<char>,
    path: Seq<int>,
    range: Span,
) -> Option<GHoverStrategy> {
    let ctx = crate::context::g_in_context(
        root,
        fi,
        seq![path] + g_ancestors(root, path),
        name,
    );
    match g_find_variable(root, path, name) {
        Some(found) => Some(
            GHoverStrategy {
                range,
                expression: Some(ctx),
                attr: None,
                origin: match found {
                    FoundVariable::PatBind(sp) => GHoverOrigin::Param(sp),
                    FoundVariable::PatEntry(sp) => GHoverOrigin::Param(sp),
                    FoundVariable::IdentParam(sp) => GHoverOrigin::Param(sp),
                    FoundVariable::AttrpathValue(sp) => GHoverOrigin::Binding(sp),
                    FoundVariable::Inherit(sp) => GHoverOrigin::Binding(sp),
                    FoundVariable::Builtin => GHoverOrigin::Builtin,
                },
            },
        ),
        None => match g_first_with(root, g_ancestors(root, path)) {
            None => None,
            Some(wp) => match g_nth_child_index(node_at(root, wp).children, Cast::Expr, 0) {
                None => None,
                Some(ci) => Some(
                    GHoverStrategy {
                        range,
                        expression: Some(
                            g_in_context_with_select(root, fi, wp.push(ci), Seq::empty()),
                        ),
                        attr: Some(name),
                        origin: GHoverOrigin::With(node_at(root, wp).span),
                    },
                ),
            },
        },
    }
}

/// The hover strategy for a source text and offset.
pub open spec fn g_hover_strategy(source: Seq<char>, fi: FileInfo, off: int) -> Option<
    GHoverStrategy,
> {
    let root = spec_parse(source);
    if !is_expr_kind(root.kind) {
        None
    } else {
        match g_locate(root, off) {
            None => None,
            Some(loc) => {
                let range = loc.token_span;
                let e = node_at(root, loc.expr);
                if e.kind == NODE_PATH_ABS || e.kind == NODE_PATH_REL || e.kind == NODE_PATH_HOME
                    || e.kind == NODE_PATH_SEARCH {
                    Some(
                        GHoverStrategy {
                            range,
                            expression: None,
                            attr: None,
                            origin: GHoverOrigin::Path(
                                g_resolved_path(e, spec_base_path(fi.path@)),
                            ),
                        },
                    )
                } else {
                    let schema = g_schema_at(root, g_schema_root_of(fi), loc.expr);
                    match loc.location_within {
                        GLocationWithin::Normal => g_hover_variable(
                            root,
                            fi,
                            loc.token_text,
                            loc.expr,
                            range,
                        ),
                        GLocationWithin::Inherit(cl, index) => {
                            match g_nth_child_index(
                                node_at(root, cl).children,
                                Cast::InheritFrom,
                                0,
                            ) {
                                Some(fidx) => {
                                    let fnode = node_at(root, cl.push(fidx));
                                    match g_nth_child_index(fnode.children, Cast::Expr, 0) {
                                        None => None,
                                        Some(ei) => {
                                            let attrs = g_nodes(
                                                node_at(root, cl).children,
                                                Cast::Attr,
                                            );
                                            if 0 <= index < attrs.len() {
                                                Some(
                                                    GHoverStrategy {
                                                        range,
                                                        expression: Some(
                                                            g_in_context_with_select(
                                                                root,
                                                                fi,
                                                                cl.push(fidx).push(ei),
                                                                Seq::empty(),
                                                            ),
                                                        ),
                                                        attr: Some(
                                                            spec_stringify_attr(
                                                                attrs[index],
                                                                spec_base_path(fi.path@),
                                                            ),
                                                        ),
                                                        origin: GHoverOrigin::Binding(
                                                            node_at(root, cl).span,
                                                        ),
                                                    },
                                                )
                                            } else {
                                                None
                                            }
                                        },
                                    }
                                },
                                None => g_hover_variable(
                                    root,
                                    fi,
                                    loc.token_text,
                                    loc.expr,
                                    range,
                                ),
                            }
                        },
                        GLocationWithin::Attrpath(ap, index) => {
                            let e2 = node_at(root, loc.expr);
                            let attrs = g_nodes(node_at(root, ap).children, Cast::Attr);
                            if e2.kind == NODE_SELECT {
                                match g_nth_child_index(e2.children, Cast::Expr, 0) {
                                    None => None,
                                    Some(sei) => {
                                        if 0 <= index < attrs.len() {
                                            Some(
                                                GHoverStrategy {
                                                    range,
                                                    expression: Some(
                                                        g_in_context_with_select(
                                                            root,
                                                            fi,
                                                            loc.expr.push(sei),
                                                            attrs.take(index),
                                                        ),
                                                    ),
                                                    attr: Some(
                                                        spec_stringify_attr(
                                                            attrs[index],
                                                            spec_base_path(fi.path@),
                                                        ),
                                                    ),
                                                    origin: GHoverOrigin::Select,
                                                },
                                            )
                                        } else {
                                            None
                                        }
                                    },
                                }
                            } else if e2.kind == NODE_ATTR_SET {
                                let pre = if index + 1 <= attrs.len() {
                                    attrs.take(index + 1)
                                } else {
                                    attrs
                                };
                                Some(
                                    GHoverStrategy {
                                        range,
                                        expression: None,
                                        attr: None,
                                        origin: GHoverOrigin::Schema(
                                            match g_descend(schema, pre) {
                                                None => None,
                                                Some(sch) => match sch.description {
                                                    Some(d) => Some(d@),
                                                    None => None,
                                                },
                                            },
                                        ),
                                    },
                                )
                            } else {
                                None
                            }
                        },
                        GLocationWithin::PatEntry => None,
                        GLocationWithin::PatBind => None,
                    }
                }
            },
        }
    }
}

fn hover_variable(
    root: &Tree,
    file_info: &FileInfo,
    name: &Vec<char>,
    path: &Vec<usize>,
    range: Span,
) -> (r: Option<HoverStrategy>)
    requires
        valid_path(root@, path_view(path@)),
    ensures
        match r {
            Some(st) => g_hover_variable(root@, *file_info, name@, path_view(path@), range)
                == Some(st@),
            None => g_hover_variable(root@, *file_info, name@, path_view(path@), range) is None,
        },
{
    let anc = ancestor_paths(root, path);
    let mut chain: Vec<Vec<usize>> = Vec::new();
    chain.push(clone_path(path));
    let m = anc.len();
    let mut k: usize = 0;
    while k < m
        invariant
            m == anc@.len(),
            k <= m,
            chain@.len() == k + 1,
            path_view(chain@[0]@) == path_view(path@),
            valid_path(root@, path_view(path@)),
            forall|j: int| 1 <= j < chain@.len() ==> chain@[j]@ == anc@[j - 1]@,
        decreases m - k,
    {
        chain.push(clone_path(&anc[k]));
        k = k + 1;
    }
    proof {
        lemma_ancestors_valid(root@, path_view(path@));
        assert forall|j: int| 0 <= j < chain@.len() implies valid_path(
            root@,
            path_view(chain@[j]@),
        ) by {
            if j >= 1 {
                assert(chain@[j]@ == anc@[j - 1]@);
                assert(path_view(anc@[j - 1]@) == g_ancestors(root@, path_view(path@))[j - 1]);
                assert(valid_path(root@, g_ancestors(root@, path_view(path@))[j - 1]));
            } else {
                assert(path_view(chain@[0]@) == path_view(path@));
            }
        }
        assert(chain_view(chain@) =~= seq![path_view(path@)] + g_ancestors(
            root@,
            path_view(path@),
        ));
    }
    let mut name_chars: Vec<char> = Vec::new();
    push_all(name, &mut name_chars);
    let ctx_chars = in_context_custom(root, name_chars, &chain, file_info);
    let ctx = chars_to_string(&ctx_chars);
    match find_variable(root, path, name) {
        Some(found) => {
            let origin = match found {
                FoundVariable::PatBind(sp) => HoverOrigin::Param(sp),
                FoundVariable::PatEntry(sp) => HoverOrigin::Param(sp),
                FoundVariable::IdentParam(sp) => HoverOrigin::Param(sp),
                FoundVariable::AttrpathValue(sp) => HoverOrigin::Binding(sp),
                FoundVariable::Inherit(sp) => HoverOrigin::Binding(sp),
                FoundVariable::Builtin => HoverOrigin::Builtin,
            };
            Some(HoverStrategy { range, expression: Some(ctx), attr: None, origin })
        }
        None => {
            match first_with_strategy(root, path, file_info, name, range) {
                Some(st) => Some(st),
                None => None,
            }
        }
    }
}

fn first_with_strategy(
    root: &Tree,
    path: &Vec<usize>,
    file_info: &FileInfo,
    name: &Vec<char>,
    range: Span,
) -> (r: Option<HoverStrategy>)
    requires
        valid_path(root@, path_view(path@)),
    ensures
        match g_first_with(root@, g_ancestors(root@, path_view(path@))) {
            None => r is None,
            Some(wp) => match g_nth_child_index(node_at(root@, wp).children, Cast::Expr, 0) {
                None => r is None,
                Some(ci) => r matches Some(st) && st@ == GHoverStrategy {
                    range,
                    expression: Some(
                        g_in_context_with_select(root@, *file_info, wp.push(ci), Seq::empty()),
                    ),
                    attr: Some(name@),
                    origin: GHoverOrigin::With(node_at(root@, wp).span),
                },
            },
        },
{
    let chain = ancestor_paths(root, path);
    let ghost gchain = g_ancestors(root@, path_view(path@));
    let n = chain.len();
    let mut i: usize = 0;
    proof {
        assert(gchain.skip(0) =~= gchain);
    }
    while i < n
        invariant
            n == chain@.len(),
            gchain.len() == n,
            valid_path(root@, path_view(path@)),
            gchain == g_ancestors(root@, path_view(path@)),
            forall|k: int| 0 <= k < n ==> path_view(chain@[k]@) == gchain[k],
            i <= n,
            g_first_with(root@, gchain) == g_first_with(root@, gchain.skip(i as int)),
        decreases n - i,
    {
        proof {
            assert(gchain.skip(i as int)[0] == gchain[i as int]);
            assert(gchain.skip(i as int).drop_first() =~= gchain.skip(i + 1));
            lemma_ancestors_valid(root@, path_view(path@));
            assert(valid_path(root@, g_ancestors(root@, path_view(path@))[i as int]));
        }
        let t = match node_at_path(root, &chain[i]) {
            Some(t) => t,
            None => {
                proof {
                    assert(false);
                }
                root
            }
        };
        if t.kind == crate::kinds::NODE_WITH {
            match nth_child_index(t, Cast::Expr, 0) {
                None => {
                    return None;
                }
                Some(ci) => {
                    let mut ns_path = clone_path(&chain[i]);
                    ns_path.push(ci);
                    proof {
                        assert(path_view(ns_path@) =~= gchain[i as int].push(ci as int));
                        crate::cursor::lemma_path_extend(root@, gchain[i as int], ci as int);
                    }
                    let attrs: Vec<&Tree> = Vec::new();
                    proof {
                        assert(crate::render::views_of(attrs@) =~= Seq::<GTree>::empty());
                    }
                    let text = in_context_with_select(root, &ns_path, &attrs, file_info);
                    let mut attr_chars: Vec<char> = Vec::new();
                    push_all(name, &mut attr_chars);
                    return Some(
                        HoverStrategy {
                            range,
                            expression: Some(text),
                            attr: Some(chars_to_string(&attr_chars)),
                            origin: HoverOrigin::With(t.span),
                        },
                    );
                }
            }
        }
        i = i + 1;
    }
    proof {
        assert(gchain.skip(n as int) =~= Seq::<Seq<int>>::empty());
    }
    None
}

/// Decides the hover strategy for a cursor position.
pub fn get_hover_strategy(source: &str, file_info: &FileInfo, offset: u32) -> (r: Option<
    HoverStrategy,
>)
    ensures
        match r {
            Some(st) => g_hover_strategy(source@, *file_info, offset as int) == Some(st@),
            None => g_hover_strategy(source@, *file_info, offset as int) is None,
        },
{
    let root = parse(source);
    if !expr_kind(root.kind) {
        return None;
    }
    let loc = match locate_cursor(&root, offset) {
        Some(loc) => loc,
        None => {
            return None;
        }
    };
    let range = loc.token_span;
    let e = match node_at_path(&root, &loc.expr) {
        Some(e) => e,
        None => {
            proof {
                assert(false);
            }
            &root
        }
    };
    if e.kind == NODE_PATH_ABS || e.kind == NODE_PATH_REL || e.kind == NODE_PATH_HOME || e.kind
        == NODE_PATH_SEARCH {
        let text = node_text(e);
        let base = file_info.base_path();
        let mut resolved: Vec<char> = Vec::new();
        if e.kind == NODE_PATH_ABS {
            push_all(&text, &mut resolved);
        } else {
            let stripped = strip_dot_slash(&text);
            let bn = base.as_str().unicode_len();
            if bn == 0 {
                push_all(&stripped, &mut resolved);
            } else if base.as_str().get_char(bn - 1) == '/' {
                push_str_chars(base.as_str(), &mut resolved);
                push_all(&stripped, &mut resolved);
            } else {
                push_str_chars(base.as_str(), &mut resolved);
                push_str_chars("/", &mut resolved);
                push_all(&stripped, &mut resolved);
            }
            proof {
                assert(resolved@ =~= spec_join_path(base@, stripped@));
            }
        }
        proof {
            assert(resolved@ == g_resolved_path(e@, spec_base_path(file_info.path@)));
        }
        return Some(
            HoverStrategy {
                range,
                expression: None,
                attr: None,
                origin: HoverOrigin::Path(chars_to_string(&resolved)),
            },
        );
    }
    let schema = get_schema(&root, &loc.expr, get_schema_root(file_info));
    match &loc.location_within {
        LocationWithinExpr::Normal => {
            let mut name: Vec<char> = Vec::new();
            push_str_chars(loc.token_text.as_str(), &mut name);
            proof {
                assert(name@ =~= loc.token_text@);
            }
            hover_variable(&root, file_info, &name, &loc.expr, range)
        }
        LocationWithinExpr::Inherit(cl, index) => {
            let clause = match node_at_path(&root, cl) {
                Some(c) => c,
                None => {
                    proof {
                        assert(false);
                    }
                    &root
                }
            };
            match nth_child_index(clause, Cast::InheritFrom, 0) {
                Some(fidx) => {
                    let mut fpath = clone_path(cl);
                    fpath.push(fidx);
                    proof {
                        assert(path_view(fpath@) =~= path_view(cl@).push(fidx as int));
                        crate::cursor::lemma_path_extend(root@, path_view(cl@), fidx as int);
                    }
                    let fnode = match node_at_path(&root, &fpath) {
                        Some(f) => f,
                        None => {
                            proof {
                                assert(false);
                            }
                            &root
                        }
                    };
                    match nth_child_index(fnode, Cast::Expr, 0) {
                        None => None,
                        Some(ei) => {
                            let attrs = nodes(clause, Cast::Attr);
                            proof {
                                assert(crate::render::views_of(attrs@) =~= g_nodes(
                                    clause@.children,
                                    Cast::Attr,
                                ));
                            }
                            if *index >= attrs.len() {
                                return None;
                            }
                            let mut epath = clone_path(&fpath);
                            epath.push(ei);
                            proof {
                                assert(path_view(epath@) =~= path_view(fpath@).push(ei as int));
                                crate::cursor::lemma_path_extend(
                                    root@,
                                    path_view(fpath@),
                                    ei as int,
                                );
                            }
                            let none_attrs: Vec<&Tree> = Vec::new();
                            proof {
                                assert(crate::render::views_of(none_attrs@)
                                    =~= Seq::<GTree>::empty());
                            }
                            let text = in_context_with_select(
                                &root,
                                &epath,
                                &none_attrs,
                                file_info,
                            );
                            let base = file_info.base_path();
                            let attr_text = safe_stringify_attr(attrs[*index], base.as_str());
                            Some(
                                HoverStrategy {
                                    range,
                                    expression: Some(text),
                                    attr: Some(attr_text),
                                    origin: HoverOrigin::Binding(clause.span),
                                },
                            )
                        }
                    }
                }
                None => {
                    let mut name: Vec<char> = Vec::new();
                    push_str_chars(loc.token_text.as_str(), &mut name);
                    proof {
                        assert(name@ =~= loc.token_text@);
                    }
                    hover_variable(&root, file_info, &name, &loc.expr, range)
                }
            }
        }
        LocationWithinExpr::Attrpath(ap, index) => {
            let apn = match node_at_path(&root, ap) {
                Some(a) => a,
                None => {
                    proof {
                        assert(false);
                    }
                    &root
                }
            };
            let attrs = nodes(apn, Cast::Attr);
            proof {
                assert(crate::render::views_of(attrs@) =~= g_nodes(apn@.children, Cast::Attr));
            }
            if e.kind == NODE_SELECT {
                match nth_child_index(e, Cast::Expr, 0) {
                    None => None,
                    Some(sei) => {
                        if *index >= attrs.len() {
                            return None;
                        }
                        let mut prefix: Vec<&Tree> = Vec::new();
                        let mut k: usize = 0;
                        while k < *index
                            invariant
                                *index <= attrs@.len(),
                                k <= *index,
                                prefix@ == attrs@.take(k as int),
                            decreases *index - k,
                        {
                            prefix.push(attrs[k]);
                            proof {
                                assert(attrs@.take(k + 1) =~= attrs@.take(k as int).push(
                                    attrs@[k as int],
                                ));
                            }
                            k = k + 1;
                        }
                        proof {
                            assert(crate::render::views_of(prefix@) =~= g_nodes(
                                apn@.children,
                                Cast::Attr,
                            ).take(*index as int));
                        }
                        let mut spath = clone_path(&loc.expr);
                        spath.push(sei);
                        proof {
                            assert(path_view(spath@) =~= path_view(loc.expr@).push(sei as int));
                            crate::cursor::lemma_path_extend(
                                root@,
                                path_view(loc.expr@),
                                sei as int,
                            );
                        }
                        let text = in_context_with_select(&root, &spath, &prefix, file_info);
                        let base = file_info.base_path();
                        let attr_text = safe_stringify_attr(attrs[*index], base.as_str());
                        Some(
                            HoverStrategy {
                                range,
                                expression: Some(text),
                                attr: Some(attr_text),
                                origin: HoverOrigin::Select,
                            },
                        )
                    }
                }
            } else if e.kind == NODE_ATTR_SET {
                let take_n = if *index < attrs.len() {
                    *index + 1
                } else {
                    attrs.len()
                };
                let mut prefix: Vec<&Tree> = Vec::new();
                let mut k: usize = 0;
                while k < take_n
                    invariant
                        take_n <= attrs@.len(),
                        k <= take_n,
                        prefix@ == attrs@.take(k as int),
                    decreases take_n - k,
                {
                    prefix.push(attrs[k]);
                    proof {
                        assert(attrs@.take(k + 1) =~= attrs@.take(k as int).push(
                            attrs@[k as int],
                        ));
                    }
                    k = k + 1;
                }
                let ghost gall = g_nodes(node_at(root@, path_view(ap@)).children, Cast::Attr);
                proof {
                    assert(crate::render::views_of(prefix@) =~= (if *index as int + 1
                        <= gall.len() {
                        gall.take(*index as int + 1)
                    } else {
                        gall
                    }));
                }
                let sub = descend(schema, &prefix);
                let desc = match sub {
                    None => None,
                    Some(sch) => match sch.description() {
                        Some(d) => {
                            let mut v: Vec<char> = Vec::new();
                            push_str_chars(d, &mut v);
                            Some(chars_to_string(&v))
                        }
                        None => None,
                    },
                };
                Some(
                    HoverStrategy {
                        range,
                        expression: None,
                        attr: None,
                        origin: HoverOrigin::Schema(desc),
                    },
                )
            } else {
                None
            }
        }
        LocationWithinExpr::PatEntry => None,
        LocationWithinExpr::PatBind => None,
    }
}

/// Strips a leading `./` from a path text.
fn strip_dot_slash(p: &Vec<char>) -> (r: Vec<char>)
    ensures
        r@ == g_strip_dot_slash(p@),
{
    if p.len() >= 2 && p[0] == '.' && p[1] == '/' {
        let mut out: Vec<char> = Vec::new();
        let n = p.len();
        let mut i: usize = 2;
        while i < n
            invariant
                n == p@.len(),
                n >= 2,
                2 <= i <= n,
                out@ == p@.subrange(2, i as int),
            decreases n - i,
        {
            out.push(p[i]);
            proof {
                assert(p@.subrange(2, i + 1) =~= p@.subrange(2, i as int).push(p@[i as int]));
            }
            i = i + 1;
        }
        proof {
            assert(out@ =~= p@.skip(2));
            assert(p@.take(2) =~= "./"@.take(0).push('.').push('/'));
            assert(p@.take(2) == "./"@) by {
                reveal_strlit("./");
                assert(p@.take(2) =~= "./"@);
            }
        }
        out
    } else {
        proof {
            if p@.len() >= 2 && p@.take(2) == "./"@ {
                reveal_strlit("./");
                assert(p@.take(2)[0] == '.');
                assert(p@.take(2)[1] == '/');
                assert(false);
            }
        }
        let mut out: Vec<char> = Vec::new();
        push_all(p, &mut out);
        out
    }
}


// ------------------------------------------------------------------
// Rendering the evaluator's answer as markdown.
// ------------------------------------------------------------------
/// Non-overlapping left-to-right replacement of one text by another.
pub open spec fn spec_replace_all(s: Seq<char>, from: Seq<char>, to: Seq<char>) -> Seq<char>
    decreases s.len(),
    when from.len() > 0
{
    if s.len() < from.len() {
        s
    } else if s.take(from.len() as int) == from {
        to + spec_replace_all(s.skip(from.len() as int), from, to)
    } else {
        seq![s[0]] + spec_replace_all(s.drop_first(), from, to)
    }
}

/// Replaces every occurrence of one text by another, left to right, without
/// re-scanning replacements.
pub fn replace_all(s: &Vec<char>, from: &Vec<char>, to: &Vec<char>) -> (r: Vec<char>)
    requires
        from@.len() >= 1,
    ensures
        r@ == spec_replace_all(s@, from@, to@),
{
    let n = s.len();
    let m = from.len();
    let mut out: Vec<char> = Vec::new();
    let mut i: usize = 0;
    proof {
        assert(s@.skip(0) =~= s@);
        assert(out@ + spec_replace_all(s@, from@, to@) =~= spec_replace_all(s@, from@, to@));
    }
    while i < n
        invariant
            n == s@.len(),
            m == from@.len(),
            m >= 1,
            i <= n,
            out@ + spec_replace_all(s@.skip(i as int), from@, to@) == spec_replace_all(
                s@,
                from@,
                to@,
            ),
        decreases n - i,
    {
        let ghost rest = s@.skip(i as int);
        proof {
            assert(rest[0] == s@[i as int]);
            assert(rest.drop_first() =~= s@.skip(i + 1));
        }
        let mut window_matches = i + (n - i).min(m) >= m && n - i >= m;
        if window_matches {
            let mut q: usize = 0;
            while q < m
                invariant
                    n == s@.len(),
                    m == from@.len(),
                    i + m <= n,
                    q <= m,
                    window_matches == (forall|w: int| 0 <= w < q ==> s@[i + w] == from@[w]),
                decreases m - q,
            {
                if s[i + q] != from[q] {
                    window_matches = false;
                    proof {
                        assert(s@[i + q] != from@[q as int]);
                    }
                }
                q = q + 1;
            }
        }
        if window_matches {
            proof {
                assert(rest.len() >= m);
                assert forall|w: int| 0 <= w < m implies rest.take(m as int)[w] == from@[w] by {
                    assert(rest.take(m as int)[w] == s@[i + w]);
                }
                assert(rest.take(m as int) =~= from@);
                assert(rest.skip(m as int) =~= s@.skip(i + m));
            }
            let ghost pre = out@;
            crate::strutil::push_all(to, &mut out);
            proof {
                assert(out@ + spec_replace_all(s@.skip(i + m), from@, to@) =~= pre + (to@
                    + spec_replace_all(s@.skip(i + m), from@, to@)));
            }
            i = i + m;
        } else {
            proof {
                if rest.len() >= m {
                    if rest.take(m as int) == from@ {
                        let w = choose|w: int| 0 <= w < m && s@[i + w] != from@[w];
                        assert(rest.take(m as int)[w] == s@[i + w]);
                        assert(false);
                    }
                }
            }
            let ghost pre = out@;
            out.push(s[i]);
            proof {
                assert(out@ + spec_replace_all(s@.skip(i + 1), from@, to@) =~= pre + (seq![
                    s@[i as int]] + spec_replace_all(s@.skip(i + 1), from@, to@)));
            }
            i = i + 1;
        }
    }
    proof {
        assert(s@.skip(n as int) =~= Seq::<char>::empty());
        assert(out@ + Seq::<char>::empty() =~= out@);
    }
    out
}

/// What hover shows for an evaluator answer: a primop's documentation has
/// its documentation-root marker rewritten to the manual's address and its
/// page suffixes dropped; everything else is shown as a typed code block.
pub open spec fn spec_hover_markdown(value_type: Seq<char>, value: Seq<char>) -> Seq<char> {
    if value_type == "primop"@ {
        spec_replace_all(
            spec_replace_all(value, "@docroot@"@, "https://nix.dev/manual/nix/2.25"@),
            ".md"@,
            Seq::empty(),
        )
    } else {
        "### "@ + value_type + "\n\n```nix\n"@ + value + "\n```"@
    }
}

/// Renders the evaluator's type and value as hover markdown.
pub fn hover_markdown(value_type: &str, value: &str) -> (r: String)
    ensures
        r@ == spec_hover_markdown(value_type@, value@),
{
    if crate::strutil::str_eq_str(value_type, "primop") {
        let mut v: Vec<char> = Vec::new();
        push_str_chars(value, &mut v);
        proof {
            assert(v@ =~= value@);
        }
        let mut from1: Vec<char> = Vec::new();
        push_str_chars("@docroot@", &mut from1);
        let mut to1: Vec<char> = Vec::new();
        push_str_chars("https://nix.dev/manual/nix/2.25", &mut to1);
        proof {
            reveal_strlit("@docroot@");
            assert(from1@ =~= "@docroot@"@);
            assert(from1@.len() >= 1);
        }
        let step1 = replace_all(&v, &from1, &to1);
        let mut from2: Vec<char> = Vec::new();
        push_str_chars(".md", &mut from2);
        let to2: Vec<char> = Vec::new();
        proof {
            reveal_strlit(".md");
            assert(from2@ =~= ".md"@);
            assert(from2@.len() >= 1);
            assert(to2@ =~= Seq::<char>::empty());
        }
        let step2 = replace_all(&step1, &from2, &to2);
        chars_to_string(&step2)
    } else {
        let mut out: Vec<char> = Vec::new();
        push_str_chars("### ", &mut out);
        push_str_chars(value_type, &mut out);
        push_str_chars("\n\n```nix\n", &mut out);
        push_str_chars(value, &mut out);
        push_str_chars("\n```", &mut out);
        proof {
            assert(out@ =~= spec_hover_markdown(value_type@, value@));
        }
        chars_to_string(&out)
    }
}

/// The definition site the evaluator reported, where it named a real file.
pub fn result_position(path: &str, row: u32, col: u32) -> (r: Option<Position>)
    ensures
        match r {
            Some(p) => path@.len() > 0 && path@ != "<<string>>"@ && p.path@ == path@ && p.line
                as int == (if row >= 1 { row - 1 } else { 0int }) && p.col as int == (if col >= 1 {
                col - 1
            } else {
                0int
            }),
            None => path@.len() == 0 || path@ == "<<string>>"@,
        },
{
    if path.unicode_len() == 0 {
        return None;
    }
    if crate::strutil::str_eq_str(path, "<<string>>") {
        return None;
    }
    let mut v: Vec<char> = Vec::new();
    push_str_chars(path, &mut v);
    proof {
        assert(v@ =~= path@);
    }
    Some(
        Position {
            line: if row >= 1 {
                row - 1
            } else {
                0
            },
            col: if col >= 1 {
                col - 1
            } else {
                0
            },
            path: chars_to_string(&v),
        },
    )
}

} // verus!


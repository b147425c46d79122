//! Completion strategy selection: from a source text and a cursor offset, a
//! pad is spliced in so the cursor always rests on an identifier, the
//! position is located and classified, and the classification decides what
//! is offered — an expression for the evaluator to list attributes of, a
//! static name list, or a schema's properties.

use vstd::prelude::*;
use vstd::multiset::Multiset;
use crate::kinds::{is_expr_kind, expr_kind, NODE_SELECT, NODE_ATTR_SET, NODE_LAMBDA, NODE_PATTERN,
    TOKEN_COLON};
use crate::node::{Cast, TokClass, g_nodes, g_nth, g_first_token, nodes, nth_node, first_token};
use crate::cursor::{node_at, path_view, g_locate, locate_cursor, GLocationWithin,
    LocationWithinExpr, node_at_path, clone_path};
use crate::context::{g_in_context_with_select, g_with_expression, g_lambda_arg, g_nth_child_index,
    in_context_with_select, with_expression, get_lambda_arg, nth_child_index};
use crate::file_types::{FileInfo, FileType};
use crate::schema::{Schema, g_props, g_schema_at, g_descend, get_schema, get_schema_root,
    opt_schema_view};
use crate::scopes::{g_variables, get_variables, names_view};
use crate::tree::{Tree, GTree, Span, spec_parse, parse};
use crate::strutil::{push_str_chars, chars_to_string, utf8_len, utf8_len_exec, char_pos_of_byte,
    lemma_char_pos_of_byte_bound};

verus! {

/// What a completion request should do: the byte range the completion
/// replaces, an expression whose attribute names the evaluator should list,
/// and statically known names.
pub struct CompletionStrategy {
    pub range: Span,
    pub attrs_expression: Option<String>,
    pub variables: Vec<String>,
}

/// Mathematical model of a completion strategy.
#[verifier::ext_equal]
pub struct GCompletionStrategy {
    pub range: Span,
    pub attrs_expression: Option<Seq<char>>,
    pub variables: Seq<Seq<char>>,
}

impl View for CompletionStrategy {
    type V = GCompletionStrategy;

    open spec fn view(&self) -> GCompletionStrategy {
        GCompletionStrategy {
            range: self.range,
            attrs_expression: match self.attrs_expression {
                Some(ref s) => Some(s@),
                None => None,
            },
            variables: names_view(self.variables@),
        }
    }
}

/// The schema root a classification prescribes, as a value.
pub open spec fn g_schema_root_of(fi: FileInfo) -> Option<Schema> {
    match fi.file_type {
        FileType::Other { nixpkgs_path: _, schema } => Some(*schema),
        FileType::Custom { lambda_arg: _, schema } => Some(*schema),
        FileType::Flake { locked: _, schema } => Some(*schema),
        FileType::Nixpkgs { nixpkgs_path: _, relative_path: _ } => None,
    }
}

/// The property names of a possibly absent schema.
pub open spec fn g_schema_props(s: Option<Schema>) -> Seq<Seq<char>>
    decreases g_props_len(s),
{
    match s {
        None => Seq::empty(),
        Some(sch) => prop_names(g_props(sch)),
    }
}

pub open spec fn g_props_len(s: Option<Schema>) -> nat {
    match s {
        None => 0,
        Some(sch) => g_props(sch).len(),
    }
}

pub open spec fn prop_names(props: Seq<crate::schema::SchemaProp>) -> Seq<Seq<char>>
    decreases props.len(),
{
    if props.len() == 0 {
        Seq::empty()
    } else {
        seq![props[0].name@] + prop_names(props.drop_first())
    }
}

/// The source text with the completion pad spliced in at the byte offset,
/// on the character boundary the offset falls at.
pub open spec fn g_padded(source: Seq<char>, off: int) -> Seq<char> {
    let k = crate::strutil::char_pos_of_byte(source, off);
    source.take(k) + "aaa"@ + source.skip(k)
}

/// The replaced range: the located token's span with the pad taken off its
/// end.
pub open spec fn g_pad_range(sp: Span) -> Span {
    Span { start: sp.start, end: if sp.end >= 3 { (sp.end - 3) as u32 } else { 0 } }
}

/// The completion strategy for a source text and offset: splice in the pad,
/// parse, locate, and dispatch on the classification.  `None` where nothing
/// is found or the position offers nothing.
pub open spec fn g_completion_strategy(source: Seq<char>, fi: FileInfo, off: int) -> Option<
    GCompletionStrategy,
> {
    let root = spec_parse(g_padded(source, off));
    if !is_expr_kind(root.kind) {
        None
    } else {
        match g_locate(root, off) {
            None => None,
            Some(loc) => {
                let range = g_pad_range(loc.token_span);
                let schema = g_schema_at(root, g_schema_root_of(fi), loc.expr);
                match loc.location_within {
                    GLocationWithin::Normal => Some(
                        GCompletionStrategy {
                            range,
                            attrs_expression: g_with_expression(root, loc.expr, fi),
                            variables: g_variables(root, loc.expr),
                        },
                    ),
                    GLocationWithin::Inherit(cl, _) => {
                        match g_nth_child_index(node_at(root, cl).children, Cast::InheritFrom, 0) {
                            Some(fidx) => {
                                let fnode = node_at(root, cl.push(fidx));
                                match g_nth_child_index(fnode.children, Cast::Expr, 0) {
                                    None => None,
                                    Some(ei) => Some(
                                        GCompletionStrategy {
                                            range,
                                            attrs_expression: Some(
                                                g_in_context_with_select(
                                                    root,
                                                    fi,
                                                    cl.push(fidx).push(ei),
                                                    Seq::empty(),
                                                ),
                                            ),
                                            variables: Seq::empty(),
                                        },
                                    ),
                                }
                            },
                            None => Some(
                                GCompletionStrategy {
                                    range,
                                    attrs_expression: None,
                                    variables: g_variables(root, loc.expr),
                                },
                            ),
                        }
                    },
                    GLocationWithin::Attrpath(ap, index) => {
                        let e = node_at(root, loc.expr);
                        let all = g_nodes(node_at(root, ap).children, Cast::Attr);
                        let prefix = if index <= all.len() {
                            all.take(index)
                        } else {
                            all
                        };
                        if e.kind == NODE_SELECT {
                            match g_nth_child_index(e.children, Cast::Expr, 0) {
                                None => None,
                                Some(sei) => Some(
                                    GCompletionStrategy {
                                        range,
                                        attrs_expression: Some(
                                            g_in_context_with_select(
                                                root,
                                                fi,
                                                loc.expr.push(sei),
                                                prefix,
                                            ),
                                        ),
                                        variables: Seq::empty(),
                                    },
                                ),
                            }
                        } else if e.kind == NODE_ATTR_SET {
                            Some(
                                GCompletionStrategy {
                                    range,
                                    attrs_expression: None,
                                    variables: g_schema_props(g_descend(schema, prefix)),
                                },
                            )
                        } else {
                            None
                        }
                    },
                    GLocationWithin::PatEntry => {
                        let lam = node_at(root, loc.expr);
                        if lam.kind != NODE_LAMBDA {
                            None
                        } else {
                            let sole_entry = g_first_token(
                                lam.children,
                                TokClass::Kind(TOKEN_COLON),
                            ) is None && (match g_nth(lam.children, Cast::Param, 0) {
                                Some(p) => p.kind == NODE_PATTERN && g_nodes(
                                    p.children,
                                    Cast::PatEntry,
                                ).len() == 1,
                                None => false,
                            });
                            if sole_entry {
                                Some(
                                    GCompletionStrategy {
                                        range,
                                        attrs_expression: None,
                                        variables: g_schema_props(schema),
                                    },
                                )
                            } else {
                                Some(
                                    GCompletionStrategy {
                                        range,
                                        attrs_expression: Some(g_lambda_arg(root, loc.expr, fi)),
                                        variables: Seq::empty(),
                                    },
                                )
                            }
                        }
                    },
                    GLocationWithin::PatBind => None,
                }
            },
        }
    }
}

/// The property names of a possibly absent schema, executable side.
pub fn schema_props(s: Option<&Schema>) -> (r: Vec<String>)
    ensures
        names_view(r@) == g_schema_props(opt_schema_view(s)),
{
    match s {
        None => {
            let r: Vec<String> = Vec::new();
            proof {
                assert(names_view(r@) =~= Seq::<Seq<char>>::empty());
            }
            r
        }
        Some(sch) => {
            let r = sch.properties();
            proof {
                lemma_prop_names(g_props(*sch));
                assert(names_view(r@) =~= prop_names(g_props(*sch)));
            }
            r
        }
    }
}

proof fn lemma_prop_names(props: Seq<crate::schema::SchemaProp>)
    ensures
        prop_names(props).len() == props.len(),
        forall|i: int| 0 <= i < props.len() ==> prop_names(props)[i] == props[i].name@,
    decreases props.len(),
{
    if props.len() > 0 {
        lemma_prop_names(props.drop_first());
        assert forall|i: int| 0 <= i < props.len() implies prop_names(props)[i]
            == props[i].name@ by {
            if i > 0 {
                assert(prop_names(props)[i] == prop_names(props.drop_first())[i - 1]);
                assert(props.drop_first()[i - 1] == props[i]);
            }
        }
    }
}

/// Splices the completion pad into the source at the byte offset.
fn pad_source(source: &str, offset: u32) -> (r: String)
    ensures
        r@ == g_padded(source@, offset as int),
{
    let mut v: Vec<char> = Vec::new();
    push_str_chars(source, &mut v);
    proof {
        assert(v@ =~= source@);
    }
    let n = v.len();
    // find the character boundary the byte offset falls at
    let ghost gk = char_pos_of_byte(source@, offset as int);
    let mut k: usize = 0;
    let mut consumed: u64 = 0;
    let mut stop = false;
    proof {
        assert(v@.skip(0) =~= v@);
        lemma_char_pos_of_byte_bound(source@, offset as int);
    }
    while k < n && !stop
        invariant
            n == v@.len(),
            v@ == source@,
            k <= n,
            consumed <= offset as u64,
            !stop ==> gk == k + char_pos_of_byte(v@.skip(k as int), offset as int - consumed as int),
            stop ==> gk == k as int,
        decreases n - k, (if stop { 0int } else { 1int }),
    {
        proof {
            assert(v@.skip(k as int)[0] == v@[k as int]);
            assert(v@.skip(k as int).drop_first() =~= v@.skip(k + 1));
        }
        let clen = utf8_len_exec(v[k]);
        if consumed + (clen as u64) <= offset as u64 {
            consumed = consumed + clen as u64;
            k = k + 1;
        } else {
            proof {
                assert((offset as int - consumed as int) < utf8_len(v@[k as int]));
                assert(char_pos_of_byte(v@.skip(k as int), offset as int - consumed as int) == 0);
            }
            stop = true;
        }
    }
    proof {
        if !stop {
            assert(v@.skip(k as int) =~= Seq::<char>::empty());
        }
        assert(gk == k as int);
    }
    let mut out: Vec<char> = Vec::new();
    let mut i: usize = 0;
    while i < k
        invariant
            n == v@.len(),
            v@ == source@,
            k <= n,
            i <= k,
            out@ == source@.take(i as int),
        decreases k - i,
    {
        out.push(v[i]);
        proof {
            assert(source@.take(i + 1) =~= source@.take(i as int).push(source@[i as int]));
        }
        i = i + 1;
    }
    push_str_chars("aaa", &mut out);
    let mut j: usize = k;
    while j < n
        invariant
            n == v@.len(),
            v@ == source@,
            k <= j <= n,
            out@ == source@.take(k as int) + "aaa"@ + source@.subrange(k as int, j as int),
        decreases n - j,
    {
        out.push(v[j]);
        proof {
            assert(source@.subrange(k as int, j + 1) =~= source@.subrange(
                k as int,
                j as int,
            ).push(source@[j as int]));
            assert(out@ =~= source@.take(k as int) + "aaa"@ + source@.subrange(k as int, j + 1));
        }
        j = j + 1;
    }
    proof {
        assert(source@.subrange(k as int, n as int) =~= source@.skip(k as int));
    }
    chars_to_string(&out)
}

/// Decides the completion strategy for a cursor position.
pub fn get_completion_strategy(source: &str, file_info: &FileInfo, offset: u32) -> (r: Option<
    CompletionStrategy,
>)
    ensures
        match r {
            Some(st) => g_completion_strategy(source@, *file_info, offset as int) == Some(st@),
            None => g_completion_strategy(source@, *file_info, offset as int) is None,
        },
{
    let padded = pad_source(source, offset);
    let root = parse(padded.as_str());
    if !expr_kind(root.kind) {
        return None;
    }
    let loc = match locate_cursor(&root, offset) {
        Some(loc) => loc,
        None => {
            return None;
        }
    };
    let range = Span {
        start: loc.token_span.start,
        end: if loc.token_span.end >= 3 {
            loc.token_span.end - 3
        } else {
            0
        },
    };
    let schema_root = get_schema_root(file_info);
    proof {
        assert(opt_schema_view(schema_root) == g_schema_root_of(*file_info));
    }
    let schema = get_schema(&root, &loc.expr, schema_root);
    match &loc.location_within {
        LocationWithinExpr::Normal => {
            let attrs_expression = with_expression(&root, &loc.expr, file_info);
            let variables = get_variables(&root, &loc.expr);
            Some(CompletionStrategy { range, attrs_expression, variables })
        }
        LocationWithinExpr::Inherit(cl, _) => {
            let clause = match node_at_path(&root, cl) {
                Some(c) => c,
                None => {
                    proof {
                        assert(false);
                    }
                    &root
                }
            };
            match nth_child_index(clause, Cast::InheritFrom, 0) {
                Some(fidx) => {
                    let mut fpath = clone_path(cl);
                    fpath.push(fidx);
                    proof {
                        assert(path_view(fpath@) =~= path_view(cl@).push(fidx as int));
                        crate::cursor::lemma_path_extend(root@, path_view(cl@), fidx as int);
                    }
                    let fnode = match node_at_path(&root, &fpath) {
                        Some(f) => f,
                        None => {
                            proof {
                                assert(false);
                            }
                            &root
                        }
                    };
                    match nth_child_index(fnode, Cast::Expr, 0) {
                        None => None,
                        Some(ei) => {
                            let mut epath = clone_path(&fpath);
                            epath.push(ei);
                            proof {
                                assert(path_view(epath@) =~= path_view(fpath@).push(ei as int));
                                crate::cursor::lemma_path_extend(
                                    root@,
                                    path_view(fpath@),
                                    ei as int,
                                );
                            }
                            let attrs: Vec<&Tree> = Vec::new();
                            proof {
                                assert(crate::render::views_of(attrs@) =~= Seq::<GTree>::empty());
                            }
                            let text = in_context_with_select(&root, &epath, &attrs, file_info);
                            let variables: Vec<String> = Vec::new();
                            proof {
                                assert(names_view(variables@) =~= Seq::<Seq<char>>::empty());
                            }
                            Some(
                                CompletionStrategy {
                                    range,
                                    attrs_expression: Some(text),
                                    variables,
                                },
                            )
                        }
                    }
                }
                None => {
                    let variables = get_variables(&root, &loc.expr);
                    Some(CompletionStrategy { range, attrs_expression: None, variables })
                }
            }
        }
        LocationWithinExpr::Attrpath(ap, index) => {
            let e = match node_at_path(&root, &loc.expr) {
                Some(e) => e,
                None => {
                    proof {
                        assert(false);
                    }
                    &root
                }
            };
            let apn = match node_at_path(&root, ap) {
                Some(a) => a,
                None => {
                    proof {
                        assert(false);
                    }
                    &root
                }
            };
            let all = nodes(apn, Cast::Attr);
            proof {
                assert(crate::render::views_of(all@) =~= g_nodes(apn@.children, Cast::Attr));
            }
            let take_n = if *index <= all.len() {
                *index
            } else {
                all.len()
            };
            let mut prefix: Vec<&Tree> = Vec::new();
            let mut k: usize = 0;
            while k < take_n
                invariant
                    take_n <= all@.len(),
                    k <= take_n,
                    prefix@ == all@.take(k as int),
                decreases take_n - k,
            {
                prefix.push(all[k]);
                proof {
                    assert(all@.take(k + 1) =~= all@.take(k as int).push(all@[k as int]));
                }
                k = k + 1;
            }
            let ghost gall = g_nodes(node_at(root@, path_view(ap@)).children, Cast::Attr);
            let ghost gprefix = if *index as int <= gall.len() {
                gall.take(*index as int)
            } else {
                gall
            };
            proof {
                assert(crate::render::views_of(prefix@) =~= gprefix);
            }
            if e.kind == NODE_SELECT {
                match nth_child_index(e, Cast::Expr, 0) {
                    None => None,
                    Some(sei) => {
                        let mut spath = clone_path(&loc.expr);
                        spath.push(sei);
                        proof {
                            assert(path_view(spath@) =~= path_view(loc.expr@).push(sei as int));
                            crate::cursor::lemma_path_extend(
                                root@,
                                path_view(loc.expr@),
                                sei as int,
                            );
                        }
                        let text = in_context_with_select(&root, &spath, &prefix, file_info);
                        let variables: Vec<String> = Vec::new();
                        proof {
                            assert(names_view(variables@) =~= Seq::<Seq<char>>::empty());
                        }
                        Some(
                            CompletionStrategy {
                                range,
                                attrs_expression: Some(text),
                                variables,
                            },
                        )
                    }
                }
            } else if e.kind == NODE_ATTR_SET {
                let sub = crate::schema::descend(schema, &prefix);
                let variables = schema_props(sub);
                Some(CompletionStrategy { range, attrs_expression: None, variables })
            } else {
                None
            }
        }
        LocationWithinExpr::PatEntry => {
            let lam = match node_at_path(&root, &loc.expr) {
                Some(l) => l,
                None => {
                    proof {
                        assert(false);
                    }
                    &root
                }
            };
            if lam.kind != NODE_LAMBDA {
                return None;
            }
            let colon_absent = match first_token(lam, TokClass::Kind(TOKEN_COLON)) {
                Some(_) => false,
                None => true,
            };
            let sole_entry = colon_absent && (match nth_node(lam, Cast::Param, 0) {
                Some(p) => {
                    if p.kind == NODE_PATTERN {
                        let es = nodes(p, Cast::PatEntry);
                        proof {
                            assert(crate::render::views_of(es@) =~= g_nodes(
                                p@.children,
                                Cast::PatEntry,
                            ));
                        }
                        es.len() == 1
                    } else {
                        false
                    }
                }
                None => false,
            });
            if sole_entry {
                let variables = schema_props(schema);
                Some(CompletionStrategy { range, attrs_expression: None, variables })
            } else {
                let arg = get_lambda_arg(&root, &loc.expr, file_info);
                let variables: Vec<String> = Vec::new();
                proof {
                    assert(names_view(variables@) =~= Seq::<Seq<char>>::empty());
                }
                Some(CompletionStrategy { range, attrs_expression: Some(arg), variables })
            }
        }
        LocationWithinExpr::PatBind => None,
    }
}


// ------------------------------------------------------------------
// Merging completion labels.
// ------------------------------------------------------------------
/// Lexicographic order on texts by character code.
pub open spec fn lex_leq(a: Seq<char>, b: Seq<char>) -> bool
    decreases a.len(),
{
    if a.len() == 0 {
        true
    } else if b.len() == 0 {
        false
    } else if (a[0] as u32) == (b[0] as u32) {
        lex_leq(a.drop_first(), b.drop_first())
    } else {
        (a[0] as u32) < (b[0] as u32)
    }
}

pub proof fn lemma_lex_refl(a: Seq<char>)
    ensures
        lex_leq(a, a),
    decreases a.len(),
{
    if a.len() > 0 {
        lemma_lex_refl(a.drop_first());
    }
}

pub proof fn lemma_lex_total(a: Seq<char>, b: Seq<char>)
    ensures
        lex_leq(a, b) || lex_leq(b, a),
    decreases a.len(),
{
    if a.len() > 0 && b.len() > 0 && (a[0] as u32) == (b[0] as u32) {
        lemma_lex_total(a.drop_first(), b.drop_first());
    }
}

pub proof fn lemma_lex_trans(a: Seq<char>, b: Seq<char>, c: Seq<char>)
    requires
        lex_leq(a, b),
        lex_leq(b, c),
    ensures
        lex_leq(a, c),
    decreases a.len(),
{
    if a.len() > 0 && b.len() > 0 && c.len() > 0 {
        if (a[0] as u32) == (b[0] as u32) && (b[0] as u32) == (c[0] as u32) {
            lemma_lex_trans(a.drop_first(), b.drop_first(), c.drop_first());
        }
    }
}

/// Compares two texts in the lexicographic order.
fn lex_leq_exec(a: &String, b: &String) -> (r: bool)
    ensures
        r == lex_leq(a@, b@),
{
    let mut av: Vec<char> = Vec::new();
    push_str_chars(a.as_str(), &mut av);
    let mut bv: Vec<char> = Vec::new();
    push_str_chars(b.as_str(), &mut bv);
    proof {
        assert(av@ =~= a@);
        assert(bv@ =~= b@);
    }
    let n = av.len();
    let m = bv.len();
    let mut i: usize = 0;
    proof {
        assert(av@.skip(0) =~= av@);
        assert(bv@.skip(0) =~= bv@);
    }
    while i < n && i < m
        invariant
            n == av@.len(),
            m == bv@.len(),
            av@ == a@,
            bv@ == b@,
            i <= n,
            i <= m,
            lex_leq(a@, b@) == lex_leq(av@.skip(i as int), bv@.skip(i as int)),
        decreases n - i,
    {
        proof {
            assert(av@.skip(i as int)[0] == av@[i as int]);
            assert(bv@.skip(i as int)[0] == bv@[i as int]);
            assert(av@.skip(i as int).drop_first() =~= av@.skip(i + 1));
            assert(bv@.skip(i as int).drop_first() =~= bv@.skip(i + 1));
        }
        if (av[i] as u32) != (bv[i] as u32) {
            return (av[i] as u32) < (bv[i] as u32);
        }
        i = i + 1;
    }
    proof {
        if i >= n {
            assert(av@.skip(i as int) =~= Seq::<char>::empty());
        } else {
            assert(bv@.skip(i as int) =~= Seq::<char>::empty());
            assert(av@.skip(i as int).len() > 0);
        }
    }
    i >= n
}

fn clone_names(src: &Vec<String>, out: &mut Vec<String>)
    ensures
        names_view(final(out)@) == names_view(old(out)@) + names_view(src@),
{
    let n = src.len();
    let mut i: usize = 0;
    proof {
        assert(names_view(out@) =~= names_view(out@) + names_view(src@.take(0)));
    }
    while i < n
        invariant
            n == src@.len(),
            i <= n,
            names_view(out@) == names_view(old(out)@) + names_view(src@.take(i as int)),
        decreases n - i,
    {
        let ghost pre = out@;
        out.push(src[i].clone());
        proof {
            assert(src@.take(i + 1) =~= src@.take(i as int).push(src@[i as int]));
            assert(names_view(out@) =~= names_view(pre).push(src@[i as int]@));
            assert(names_view(out@) =~= names_view(old(out)@) + names_view(src@.take(i + 1)));
        }
        i = i + 1;
    }
    proof {
        assert(src@.take(n as int) =~= src@);
    }
}

/// Merges the evaluator's attribute names with the statically visible ones
/// and sorts them: the result holds exactly the given names, in the
/// lexicographic order.
pub fn merge_completions(attrs: &Vec<String>, vars: &Vec<String>) -> (r: Vec<String>)
    ensures
        names_view(r@).to_multiset() == (names_view(attrs@) + names_view(vars@)).to_multiset(),
        forall|i: int, j: int|
            0 <= i < j < r@.len() ==> lex_leq(names_view(r@)[i], names_view(r@)[j]),
{
    broadcast use vstd::seq_lib::group_to_multiset_ensures;

    let mut pool: Vec<String> = Vec::new();
    clone_names(attrs, &mut pool);
    clone_names(vars, &mut pool);
    let ghost total = names_view(pool@).to_multiset();
    proof {
        assert(names_view(Seq::<String>::empty()) =~= Seq::<Seq<char>>::empty());
        assert(names_view(pool@) =~= names_view(attrs@) + names_view(vars@));
    }
    let mut out: Vec<String> = Vec::new();
    proof {
        assert(names_view(out@) =~= Seq::<Seq<char>>::empty());
        assert(names_view(out@).to_multiset().add(names_view(pool@).to_multiset()) =~= total);
    }
    while pool.len() > 0
        invariant
            names_view(out@).to_multiset().add(names_view(pool@).to_multiset()) == total,
            forall|i: int, j: int|
                0 <= i < j < out@.len() ==> lex_leq(names_view(out@)[i], names_view(out@)[j]),
            forall|i: int, j: int|
                0 <= i < out@.len() && 0 <= j < pool@.len() ==> lex_leq(
                    names_view(out@)[i],
                    names_view(pool@)[j],
                ),
        decreases pool@.len(),
    {
        let n = pool.len();
        let mut best: usize = 0;
        let mut k: usize = 1;
        proof {
            lemma_lex_refl(pool@[0]@);
        }
        while k < n
            invariant
                n == pool@.len(),
                n > 0,
                best < k,
                k <= n,
                forall|j: int| 0 <= j < k ==> lex_leq(names_view(pool@)[best as int], names_view(pool@)[j]),
            decreases n - k,
        {
            if !lex_leq_exec(&pool[best], &pool[k]) {
                proof {
                    lemma_lex_total(pool@[best as int]@, pool@[k as int]@);
                    assert forall|j: int| 0 <= j < k + 1 implies lex_leq(
                        names_view(pool@)[k as int],
                        names_view(pool@)[j],
                    ) by {
                        if j < k {
                            assert(names_view(pool@)[best as int] == pool@[best as int]@);
                            assert(names_view(pool@)[j] == pool@[j]@);
                            assert(lex_leq(names_view(pool@)[best as int], names_view(pool@)[j]));
                            assert(lex_leq(pool@[best as int]@, pool@[j]@));
                            lemma_lex_trans(
                                pool@[k as int]@,
                                pool@[best as int]@,
                                pool@[j]@,
                            );
                        } else {
                            lemma_lex_refl(pool@[k as int]@);
                        }
                    }
                }
                best = k;
            } else {
                proof {
                    assert(lex_leq(names_view(pool@)[best as int], names_view(pool@)[k as int]));
                }
            }
            k = k + 1;
        }
        let ghost opool = pool@;
        let x = pool.remove(best);
        let ghost oout = out@;
        out.push(x);
        proof {
            names_view(opool).to_multiset_ensures();
            names_view(oout).to_multiset_ensures();
            assert(names_view(pool@) =~= names_view(opool).remove(best as int));
            assert(names_view(out@) =~= names_view(oout).push(opool[best as int]@));
            assert(names_view(opool).remove(best as int).to_multiset() =~= names_view(
                opool,
            ).to_multiset().remove(names_view(opool)[best as int]));
            assert(names_view(oout).push(opool[best as int]@).to_multiset() =~= names_view(
                oout,
            ).to_multiset().insert(opool[best as int]@));
            assert(names_view(out@).to_multiset().add(names_view(pool@).to_multiset())
                =~= total);
            assert forall|i: int, j: int|
                0 <= i < j < out@.len() implies lex_leq(
                names_view(out@)[i],
                names_view(out@)[j],
            ) by {
                if j == out@.len() - 1 {
                    assert(names_view(out@)[j] == names_view(opool)[best as int]);
                    assert(lex_leq(names_view(oout)[i], names_view(opool)[best as int]));
                }
            }
            assert forall|i: int, j: int|
                0 <= i < out@.len() && 0 <= j < pool@.len() implies lex_leq(
                names_view(out@)[i],
                names_view(pool@)[j],
            ) by {
                let orig_j = if j < best { j } else { j + 1 };
                assert(names_view(pool@)[j] == names_view(opool)[orig_j]);
                if i < out@.len() - 1 {
                    assert(lex_leq(names_view(oout)[i], names_view(opool)[orig_j]));
                } else {
                    assert(lex_leq(names_view(opool)[best as int], names_view(opool)[orig_j]));
                }
            }
        }
    }
    proof {
        assert(names_view(pool@) =~= Seq::<Seq<char>>::empty());
        assert(names_view(pool@).to_multiset() =~= Multiset::<Seq<char>>::empty());
        assert(names_view(out@).to_multiset() =~= total);
    }
    out
}

} // verus!


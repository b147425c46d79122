//! The safe stringifier: renders any expression subtree — malformed ones
//! included — back to source text that is guaranteed to parse.  Missing
//! children come out as `null`, every operator is fully parenthesised, and
//! relative paths are resolved against a caller-supplied base directory.

use vstd::prelude::*;
use crate::kinds::{NODE_APPLY, NODE_ASSERT, NODE_ERROR, NODE_IF_ELSE, NODE_SELECT, NODE_STRING,
    NODE_PATH_ABS, NODE_PATH_REL, NODE_PATH_HOME, NODE_PATH_SEARCH, NODE_LITERAL, NODE_LAMBDA,
    NODE_LEGACY_LET, NODE_LET_IN, NODE_LIST, NODE_BIN_OP, NODE_PAREN, NODE_ROOT, NODE_ATTR_SET,
    NODE_UNARY_OP, NODE_IDENT, NODE_WITH, NODE_HAS_ATTR, NODE_CUR_POS, NODE_DYNAMIC,
    NODE_INHERIT, NODE_PATTERN, TOKEN_REC, TOKEN_INVERT, TOKEN_CONCAT, TOKEN_UPDATE, TOKEN_ADD,
    TOKEN_SUB, TOKEN_MUL, TOKEN_DIV, TOKEN_AND_AND, TOKEN_EQUAL, TOKEN_IMPLICATION, TOKEN_LESS,
    TOKEN_LESS_OR_EQ, TOKEN_MORE, TOKEN_MORE_OR_EQ, TOKEN_NOT_EQUAL, TOKEN_OR_OR,
    TOKEN_PIPE_RIGHT, TOKEN_PIPE_LEFT};
use crate::node::{Cast, TokClass, g_nodes, g_nth, g_first_token, g_text, g_size, g_size_opt,
    g_size_elems, g_size_trees, lemma_g_nth_size, lemma_g_nodes_size, lemma_g_size_trees_index,
    lemma_g_size_trees_drop, nodes, nth_node, first_token, push_text, node_text};
use crate::tree::{Tree, GTree};
use crate::strutil::{push_str_chars, push_all, chars_to_string};

verus! {

/// A relative path resolved against a base directory, textually: the base,
/// a separator where the base does not already end in one, then the path.
pub open spec fn spec_join_path(base: Seq<char>, text: Seq<char>) -> Seq<char> {
    if base.len() == 0 {
        text
    } else if base.last() == '/' {
        base + text
    } else {
        base + "/"@ + text
    }
}

/// The rendered text of a binary operator token.
pub open spec fn spec_op_text(k: u16) -> Seq<char> {
    if k == TOKEN_CONCAT {
        "++"@
    } else if k == TOKEN_UPDATE {
        "//"@
    } else if k == TOKEN_ADD {
        "+"@
    } else if k == TOKEN_SUB {
        "-"@
    } else if k == TOKEN_MUL {
        "*"@
    } else if k == TOKEN_DIV {
        "/"@
    } else if k == TOKEN_AND_AND {
        "&&"@
    } else if k == TOKEN_EQUAL {
        "=="@
    } else if k == TOKEN_IMPLICATION {
        "->"@
    } else if k == TOKEN_LESS {
        "<"@
    } else if k == TOKEN_LESS_OR_EQ {
        "<="@
    } else if k == TOKEN_MORE {
        ">"@
    } else if k == TOKEN_MORE_OR_EQ {
        ">="@
    } else if k == TOKEN_NOT_EQUAL {
        "!="@
    } else if k == TOKEN_OR_OR {
        "||"@
    } else if k == TOKEN_PIPE_RIGHT {
        "|>"@
    } else if k == TOKEN_PIPE_LEFT {
        "<|"@
    } else {
        "null"@
    }
}

/// Whether a destructuring-pattern entry names an identifier; entries that
/// lost theirs to a parse error are left out of the rendering.
pub open spec fn g_has_ident(t: GTree) -> bool {
    g_nth(t.children, Cast::Ident, 0) is Some
}

/// The entries of a destructuring pattern that name an identifier.
pub open spec fn g_entries_with_ident(ts: Seq<GTree>) -> Seq<GTree>
    decreases ts,
{
    if ts.len() == 0 {
        Seq::empty()
    } else {
        let rest = g_entries_with_ident(ts.drop_first());
        if g_has_ident(ts[0]) {
            seq![ts[0]] + rest
        } else {
            rest
        }
    }
}

/// A filtered list of trees weighs no more than the list it came from.
pub proof fn lemma_g_entries_with_ident_size(ts: Seq<GTree>)
    ensures
        g_size_trees(g_entries_with_ident(ts)) <= g_size_trees(ts),
    decreases ts,
{
    if ts.len() > 0 {
        lemma_g_entries_with_ident_size(ts.drop_first());
        if g_has_ident(ts[0]) {
            let w = g_entries_with_ident(ts);
            assert(w[0] == ts[0]);
            assert(w.len() > 0);
            assert(w.drop_first() =~= g_entries_with_ident(ts.drop_first()));
            assert(g_size_trees(w) == g_size(ts[0]) + g_size_trees(
                g_entries_with_ident(ts.drop_first()),
            ));
        }
    }
}

/// What a (possibly broken) expression node renders to.
pub open spec fn spec_stringify(t: GTree, base: Seq<char>) -> Seq<char>
    decreases g_size(t), 3int,
{
    let cs = t.children;
    proof {
        lemma_g_nth_size(cs, Cast::Expr, 0);
        lemma_g_nth_size(cs, Cast::Expr, 1);
        lemma_g_nth_size(cs, Cast::Expr, 2);
        lemma_g_nth_size(cs, Cast::Attrpath, 0);
        lemma_g_nth_size(cs, Cast::Param, 0);
        lemma_g_nodes_size(cs, Cast::Expr);
        assert(g_size(t) == 1 + g_size_elems(cs));
    }
    if t.kind == NODE_APPLY {
        "("@ + spec_stringify_opt(g_nth(cs, Cast::Expr, 0), base) + " "@ + spec_stringify_opt(
            g_nth(cs, Cast::Expr, 1),
            base,
        ) + ")"@
    } else if t.kind == NODE_ASSERT {
        "(assert "@ + spec_stringify_opt(g_nth(cs, Cast::Expr, 0), base) + "; "@
            + spec_stringify_opt(g_nth(cs, Cast::Expr, 1), base) + ")"@
    } else if t.kind == NODE_ERROR {
        "null"@
    } else if t.kind == NODE_IF_ELSE {
        "(if "@ + spec_stringify_opt(g_nth(cs, Cast::Expr, 0), base) + " then "@
            + spec_stringify_opt(g_nth(cs, Cast::Expr, 1), base) + " else "@ + spec_stringify_opt(
            g_nth(cs, Cast::Expr, 2),
            base,
        ) + ")"@
    } else if t.kind == NODE_SELECT {
        "("@ + spec_stringify_opt(g_nth(cs, Cast::Expr, 0), base) + "."@
            + spec_stringify_opt_attrpath(g_nth(cs, Cast::Attrpath, 0), base) + (match g_nth(
            cs,
            Cast::Expr,
            1,
        ) {
            Some(d) => " or "@ + spec_stringify(d, base),
            None => Seq::empty(),
        }) + ")"@
    } else if t.kind == NODE_STRING {
        g_text(t)
    } else if t.kind == NODE_PATH_ABS || t.kind == NODE_PATH_SEARCH {
        g_text(t)
    } else if t.kind == NODE_PATH_REL || t.kind == NODE_PATH_HOME {
        spec_join_path(base, g_text(t))
    } else if t.kind == NODE_LITERAL {
        g_text(t)
    } else if t.kind == NODE_LAMBDA {
        "("@ + spec_stringify_opt_param(g_nth(cs, Cast::Param, 0), base) + ": "@
            + spec_stringify_opt(g_nth(cs, Cast::Expr, 0), base) + ")"@
    } else if t.kind == NODE_LEGACY_LET {
        "(let { "@ + spec_stringify_bindings(t, base) + " })"@
    } else if t.kind == NODE_LET_IN {
        "(let "@ + spec_stringify_bindings(t, base) + " in "@ + spec_stringify_opt(
            g_nth(cs, Cast::Expr, 0),
            base,
        ) + ")"@
    } else if t.kind == NODE_LIST {
        "["@ + spec_join_exprs(g_nodes(cs, Cast::Expr), base) + "]"@
    } else if t.kind == NODE_BIN_OP {
        match g_first_token(cs, TokClass::BinOp) {
            None => "null"@,
            Some(op) => "("@ + spec_stringify_opt(g_nth(cs, Cast::Expr, 0), base) + " "@
                + spec_op_text(op.kind) + " "@ + spec_stringify_opt(g_nth(cs, Cast::Expr, 1), base)
                + ")"@,
        }
    } else if t.kind == NODE_PAREN {
        "("@ + spec_stringify_opt(g_nth(cs, Cast::Expr, 0), base) + ")"@
    } else if t.kind == NODE_ROOT {
        spec_stringify_opt(g_nth(cs, Cast::Expr, 0), base)
    } else if t.kind == NODE_ATTR_SET {
        (if g_first_token(cs, TokClass::Kind(TOKEN_REC)) is Some {
            "rec "@
        } else {
            Seq::empty()
        }) + "{ "@ + spec_stringify_bindings(t, base) + " }"@
    } else if t.kind == NODE_UNARY_OP {
        match g_first_token(cs, TokClass::UnaryOp) {
            None => spec_stringify_opt(g_nth(cs, Cast::Expr, 0), base),
            Some(op) => if op.kind == TOKEN_INVERT {
                "(!"@ + spec_stringify_opt(g_nth(cs, Cast::Expr, 0), base) + ")"@
            } else {
                "(-"@ + spec_stringify_opt(g_nth(cs, Cast::Expr, 0), base) + ")"@
            },
        }
    } else if t.kind == NODE_IDENT {
        g_text(t)
    } else if t.kind == NODE_WITH {
        "(with "@ + spec_stringify_opt(g_nth(cs, Cast::Expr, 0), base) + "; "@
            + spec_stringify_opt(g_nth(cs, Cast::Expr, 1), base) + ")"@
    } else if t.kind == NODE_HAS_ATTR {
        "("@ + spec_stringify_opt(g_nth(cs, Cast::Expr, 0), base) + " ? "@
            + spec_stringify_opt_attrpath(g_nth(cs, Cast::Attrpath, 0), base) + ")"@
    } else if t.kind == NODE_CUR_POS {
        g_text(t)
    } else {
        "null"@
    }
}

/// A missing expression renders as `null`.
pub open spec fn spec_stringify_opt(o: Option<GTree>, base: Seq<char>) -> Seq<char>
    decreases g_size_opt(o), 4int,
{
    match o {
        Some(t) => spec_stringify(t, base),
        None => "null"@,
    }
}

/// A missing attribute path renders as `null`.
pub open spec fn spec_stringify_opt_attrpath(o: Option<GTree>, base: Seq<char>) -> Seq<char>
    decreases g_size_opt(o), 4int,
{
    match o {
        Some(t) => spec_stringify_attrpath(t, base),
        None => "null"@,
    }
}

/// A missing parameter list renders as the open pattern `{...}`.
pub open spec fn spec_stringify_opt_param(o: Option<GTree>, base: Seq<char>) -> Seq<char>
    decreases g_size_opt(o), 4int,
{
    match o {
        Some(p) => if p.kind == NODE_PATTERN {
            spec_stringify_pattern(p, base)
        } else {
            g_text(p)
        },
        None => "{...}"@,
    }
}

/// An attribute path: its segments joined by dots, or `null` where the path
/// lost all of them.
pub open spec fn spec_stringify_attrpath(t: GTree, base: Seq<char>) -> Seq<char>
    decreases g_size(t), 1int,
{
    proof {
        lemma_g_nodes_size(t.children, Cast::Attr);
        assert(g_size(t) == 1 + g_size_elems(t.children));
    }
    let joined = spec_join_attrs(g_nodes(t.children, Cast::Attr), "."@, base);
    if joined.len() == 0 {
        "null"@
    } else {
        joined
    }
}

/// One attribute-path segment: a bare identifier, a dynamic interpolation,
/// or a string literal kept verbatim.
pub open spec fn spec_stringify_attr(t: GTree, base: Seq<char>) -> Seq<char>
    decreases g_size(t), 1int,
{
    proof {
        lemma_g_nth_size(t.children, Cast::Expr, 0);
        assert(g_size(t) == 1 + g_size_elems(t.children));
    }
    if t.kind == NODE_IDENT {
        if g_text(t).len() == 0 {
            "null"@
        } else {
            g_text(t)
        }
    } else if t.kind == NODE_DYNAMIC {
        "${"@ + spec_stringify_opt(g_nth(t.children, Cast::Expr, 0), base) + "}"@
    } else {
        g_text(t)
    }
}

/// The bindings of a let, a legacy let, or an attribute set, in their
/// original order, duplicates kept.
pub open spec fn spec_stringify_bindings(t: GTree, base: Seq<char>) -> Seq<char>
    decreases g_size(t), 2int,
{
    proof {
        lemma_g_nodes_size(t.children, Cast::Entry);
        assert(g_size(t) == 1 + g_size_elems(t.children));
    }
    spec_join_entries(g_nodes(t.children, Cast::Entry), base)
}

/// One binding: an inherit clause or an attrpath-value pair.
pub open spec fn spec_stringify_entry(t: GTree, base: Seq<char>) -> Seq<char>
    decreases g_size(t), 1int,
{
    let cs = t.children;
    proof {
        lemma_g_nth_size(cs, Cast::InheritFrom, 0);
        lemma_g_nth_size(cs, Cast::Attrpath, 0);
        lemma_g_nth_size(cs, Cast::Expr, 0);
        lemma_g_nodes_size(cs, Cast::Attr);
        assert(g_size(t) == 1 + g_size_elems(cs));
    }
    if t.kind == NODE_INHERIT {
        "inherit "@ + (match g_nth(cs, Cast::InheritFrom, 0) {
            Some(f) => {
                proof {
                    lemma_g_nth_size(f.children, Cast::Expr, 0);
                    assert(g_size(f) == 1 + g_size_elems(f.children));
                }
                "("@ + spec_stringify_opt(g_nth(f.children, Cast::Expr, 0), base) + ")"@
            },
            None => Seq::empty(),
        }) + " "@ + spec_join_attrs(g_nodes(cs, Cast::Attr), " "@, base) + ";"@
    } else {
        spec_stringify_opt_attrpath(g_nth(cs, Cast::Attrpath, 0), base) + " = "@
            + spec_stringify_opt(g_nth(cs, Cast::Expr, 0), base) + ";"@
    }
}

/// A destructuring parameter: its named entries with explicit defaults, an
/// ellipsis, and the `@`-alias where one is present.
pub open spec fn spec_stringify_pattern(t: GTree, base: Seq<char>) -> Seq<char>
    decreases g_size(t), 1int,
{
    let cs = t.children;
    proof {
        lemma_g_nodes_size(cs, Cast::PatEntry);
        lemma_g_entries_with_ident_size(g_nodes(cs, Cast::PatEntry));
        lemma_g_nth_size(cs, Cast::PatBind, 0);
        assert(g_size(t) == 1 + g_size_elems(cs));
    }
    let named = g_entries_with_ident(g_nodes(cs, Cast::PatEntry));
    let inner: Seq<char> = if named.len() == 0 {
        "{...}"@
    } else {
        "{"@ + spec_join_pat_entries(named, base) + ", ...}"@
    };
    match g_nth(cs, Cast::PatBind, 0) {
        Some(bind) => match g_nth(bind.children, Cast::Ident, 0) {
            Some(id) => inner + " @ "@ + g_text(id),
            None => inner,
        },
        None => inner,
    }
}

/// One pattern entry: its identifier with its default, `null` standing in
/// for a missing one.
pub open spec fn spec_stringify_pat_entry(t: GTree, base: Seq<char>) -> Seq<char>
    decreases g_size(t), 1int,
{
    let cs = t.children;
    proof {
        lemma_g_nth_size(cs, Cast::Ident, 0);
        lemma_g_nth_size(cs, Cast::Expr, 1);
        assert(g_size(t) == 1 + g_size_elems(cs));
    }
    (match g_nth(cs, Cast::Ident, 0) {
        Some(id) => g_text(id),
        None => Seq::empty(),
    }) + " ? "@ + spec_stringify_opt(g_nth(cs, Cast::Expr, 1), base)
}

/// Expressions joined by single spaces.
pub open spec fn spec_join_exprs(ts: Seq<GTree>, base: Seq<char>) -> Seq<char>
    decreases g_size_trees(ts), 4int,
{
    proof {
        if ts.len() > 0 {
            lemma_g_size_trees_index(ts, 0);
            lemma_g_size_trees_drop(ts);
        }
    }
    if ts.len() == 0 {
        Seq::empty()
    } else if ts.len() == 1 {
        spec_stringify(ts[0], base)
    } else {
        spec_stringify(ts[0], base) + " "@ + spec_join_exprs(ts.drop_first(), base)
    }
}

/// Attribute names joined by a separator.
pub open spec fn spec_join_attrs(ts: Seq<GTree>, sep: Seq<char>, base: Seq<char>) -> Seq<char>
    decreases g_size_trees(ts), 4int,
{
    proof {
        if ts.len() > 0 {
            lemma_g_size_trees_index(ts, 0);
            lemma_g_size_trees_drop(ts);
        }
    }
    if ts.len() == 0 {
        Seq::empty()
    } else if ts.len() == 1 {
        spec_stringify_attr(ts[0], base)
    } else {
        spec_stringify_attr(ts[0], base) + sep + spec_join_attrs(ts.drop_first(), sep, base)
    }
}

/// Bindings joined by single spaces.
pub open spec fn spec_join_entries(ts: Seq<GTree>, base: Seq<char>) -> Seq<char>
    decreases g_size_trees(ts), 4int,
{
    proof {
        if ts.len() > 0 {
            lemma_g_size_trees_index(ts, 0);
            lemma_g_size_trees_drop(ts);
        }
    }
    if ts.len() == 0 {
        Seq::empty()
    } else if ts.len() == 1 {
        spec_stringify_entry(ts[0], base)
    } else {
        spec_stringify_entry(ts[0], base) + " "@ + spec_join_entries(ts.drop_first(), base)
    }
}

/// Pattern entries joined by commas.
pub open spec fn spec_join_pat_entries(ts: Seq<GTree>, base: Seq<char>) -> Seq<char>
    decreases g_size_trees(ts), 4int,
{
    proof {
        if ts.len() > 0 {
            lemma_g_size_trees_index(ts, 0);
            lemma_g_size_trees_drop(ts);
        }
    }
    if ts.len() == 0 {
        Seq::empty()
    } else if ts.len() == 1 {
        spec_stringify_pat_entry(ts[0], base)
    } else {
        spec_stringify_pat_entry(ts[0], base) + ", "@ + spec_join_pat_entries(ts.drop_first(), base)
    }
}

// ------------------------------------------------------------------
// Join lemmas: what one more element adds to a join.
// ------------------------------------------------------------------
pub proof fn lemma_join_exprs_snoc(ts: Seq<GTree>, base: Seq<char>, i: int)
    requires
        0 <= i < ts.len(),
    ensures
        spec_join_exprs(ts.take(i + 1), base) == if i == 0 {
            spec_stringify(ts[0], base)
        } else {
            spec_join_exprs(ts.take(i), base) + " "@ + spec_stringify(ts[i], base)
        },
    decreases i,
{
    if i == 0 {
        assert(ts.take(1)[0] == ts[0]);
    } else {
        lemma_join_exprs_snoc(ts.drop_first(), base, i - 1);
        assert(ts.take(i + 1).drop_first() =~= ts.drop_first().take(i));
        assert(ts.take(i).drop_first() =~= ts.drop_first().take(i - 1));
        assert(ts.take(i + 1)[0] == ts[0]);
        assert(ts.take(i)[0] == ts[0]);
        assert(ts.drop_first()[i - 1] == ts[i]);
        assert(spec_join_exprs(ts.take(i + 1), base) =~= spec_join_exprs(ts.take(i), base) + " "@
            + spec_stringify(ts[i], base));
    }
}

pub proof fn lemma_join_attrs_snoc(ts: Seq<GTree>, sep: Seq<char>, base: Seq<char>, i: int)
    requires
        0 <= i < ts.len(),
    ensures
        spec_join_attrs(ts.take(i + 1), sep, base) == if i == 0 {
            spec_stringify_attr(ts[0], base)
        } else {
            spec_join_attrs(ts.take(i), sep, base) + sep + spec_stringify_attr(ts[i], base)
        },
    decreases i,
{
    if i == 0 {
        assert(ts.take(1)[0] == ts[0]);
    } else {
        lemma_join_attrs_snoc(ts.drop_first(), sep, base, i - 1);
        assert(ts.take(i + 1).drop_first() =~= ts.drop_first().take(i));
        assert(ts.take(i).drop_first() =~= ts.drop_first().take(i - 1));
        assert(ts.take(i + 1)[0] == ts[0]);
        assert(ts.take(i)[0] == ts[0]);
        assert(ts.drop_first()[i - 1] == ts[i]);
        assert(spec_join_attrs(ts.take(i + 1), sep, base) =~= spec_join_attrs(ts.take(i), sep, base)
            + sep + spec_stringify_attr(ts[i], base));
    }
}

pub proof fn lemma_join_entries_snoc(ts: Seq<GTree>, base: Seq<char>, i: int)
    requires
        0 <= i < ts.len(),
    ensures
        spec_join_entries(ts.take(i + 1), base) == if i == 0 {
            spec_stringify_entry(ts[0], base)
        } else {
            spec_join_entries(ts.take(i), base) + " "@ + spec_stringify_entry(ts[i], base)
        },
    decreases i,
{
    if i == 0 {
        assert(ts.take(1)[0] == ts[0]);
    } else {
        lemma_join_entries_snoc(ts.drop_first(), base, i - 1);
        assert(ts.take(i + 1).drop_first() =~= ts.drop_first().take(i));
        assert(ts.take(i).drop_first() =~= ts.drop_first().take(i - 1));
        assert(ts.take(i + 1)[0] == ts[0]);
        assert(ts.take(i)[0] == ts[0]);
        assert(ts.drop_first()[i - 1] == ts[i]);
        assert(spec_join_entries(ts.take(i + 1), base) =~= spec_join_entries(ts.take(i), base)
            + " "@ + spec_stringify_entry(ts[i], base));
    }
}

pub proof fn lemma_join_pat_entries_snoc(ts: Seq<GTree>, base: Seq<char>, i: int)
    requires
        0 <= i < ts.len(),
    ensures
        spec_join_pat_entries(ts.take(i + 1), base) == if i == 0 {
            spec_stringify_pat_entry(ts[0], base)
        } else {
            spec_join_pat_entries(ts.take(i), base) + ", "@ + spec_stringify_pat_entry(ts[i], base)
        },
    decreases i,
{
    if i == 0 {
        assert(ts.take(1)[0] == ts[0]);
    } else {
        lemma_join_pat_entries_snoc(ts.drop_first(), base, i - 1);
        assert(ts.take(i + 1).drop_first() =~= ts.drop_first().take(i));
        assert(ts.take(i).drop_first() =~= ts.drop_first().take(i - 1));
        assert(ts.take(i + 1)[0] == ts[0]);
        assert(ts.take(i)[0] == ts[0]);
        assert(ts.drop_first()[i - 1] == ts[i]);
        assert(spec_join_pat_entries(ts.take(i + 1), base) =~= spec_join_pat_entries(
            ts.take(i),
            base,
        ) + ", "@ + spec_stringify_pat_entry(ts[i], base));
    }
}

/// What one more pattern entry adds to the filtered entry list.
pub proof fn lemma_entries_with_ident_snoc(ts: Seq<GTree>, i: int)
    requires
        0 <= i < ts.len(),
    ensures
        g_entries_with_ident(ts.take(i + 1)) == if g_has_ident(ts[i]) {
            g_entries_with_ident(ts.take(i)).push(ts[i])
        } else {
            g_entries_with_ident(ts.take(i))
        },
    decreases i,
{
    if i == 0 {
        assert(ts.take(1)[0] == ts[0]);
        assert(ts.take(1).drop_first() =~= ts.take(0));
        assert(ts.take(0) =~= Seq::<GTree>::empty());
        if g_has_ident(ts[0]) {
            assert(g_entries_with_ident(ts.take(1)) =~= g_entries_with_ident(ts.take(0)).push(
                ts[0],
            ));
        }
    } else {
        lemma_entries_with_ident_snoc(ts.drop_first(), i - 1);
        assert(ts.take(i + 1).drop_first() =~= ts.drop_first().take(i));
        assert(ts.take(i).drop_first() =~= ts.drop_first().take(i - 1));
        assert(ts.take(i + 1)[0] == ts[0]);
        assert(ts.take(i)[0] == ts[0]);
        assert(ts.drop_first()[i - 1] == ts[i]);
        if g_has_ident(ts[i]) {
            assert(g_entries_with_ident(ts.take(i + 1)) =~= g_entries_with_ident(ts.take(i)).push(
                ts[i],
            ));
        }
    }
}

// ------------------------------------------------------------------
// The executable renderer.
// ------------------------------------------------------------------
/// The models of a list of node references.
pub open spec fn views_of(s: Seq<&Tree>) -> Seq<GTree> {
    s.map_values(|x: &Tree| x@)
}

/// The model of an optional node reference.
pub open spec fn opt_view(o: Option<&Tree>) -> Option<GTree> {
    match o {
        Some(t) => Some(t@),
        None => None,
    }
}

/// The expression kinds the first half of the renderer handles.
pub open spec fn is_group_a(k: u16) -> bool {
    ||| k == NODE_APPLY
    ||| k == NODE_ASSERT
    ||| k == NODE_ERROR
    ||| k == NODE_IF_ELSE
    ||| k == NODE_SELECT
    ||| k == NODE_STRING
    ||| k == NODE_PATH_ABS
    ||| k == NODE_PATH_SEARCH
    ||| k == NODE_LITERAL
    ||| k == NODE_IDENT
    ||| k == NODE_CUR_POS
    ||| k == NODE_PATH_REL
    ||| k == NODE_PATH_HOME
    ||| k == NODE_LAMBDA
    ||| k == NODE_LEGACY_LET
    ||| k == NODE_LET_IN
}

/// Renders an expression node into the accumulator.
pub fn push_stringify(t: &Tree, base: &str, out: &mut Vec<char>)
    ensures
        final(out)@ == old(out)@ + spec_stringify(t@, base@),
    decreases g_size(t@), 3int,
{
    if t.kind == NODE_APPLY || t.kind == NODE_ASSERT || t.kind == NODE_ERROR || t.kind
        == NODE_IF_ELSE || t.kind == NODE_SELECT || t.kind == NODE_STRING || t.kind
        == NODE_PATH_ABS || t.kind == NODE_PATH_SEARCH || t.kind == NODE_LITERAL || t.kind
        == NODE_IDENT || t.kind == NODE_CUR_POS || t.kind == NODE_PATH_REL || t.kind
        == NODE_PATH_HOME || t.kind == NODE_LAMBDA || t.kind == NODE_LEGACY_LET || t.kind
        == NODE_LET_IN {
        push_stringify_head(t, base, out);
    } else {
        push_stringify_tail(t, base, out);
    }
}

/// Renders the first half of the expression kinds.
#[verifier::rlimit(100)]
fn push_stringify_head(t: &Tree, base: &str, out: &mut Vec<char>)
    requires
        is_group_a(t@.kind),
    ensures
        final(out)@ == old(out)@ + spec_stringify(t@, base@),
    decreases g_size(t@), 2int,
{
    let ghost cs = t@.children;
    proof {
        lemma_g_nth_size(cs, Cast::Expr, 0);
        lemma_g_nth_size(cs, Cast::Expr, 1);
        lemma_g_nth_size(cs, Cast::Expr, 2);
        lemma_g_nth_size(cs, Cast::Attrpath, 0);
        lemma_g_nth_size(cs, Cast::Param, 0);
        lemma_g_nodes_size(cs, Cast::Expr);
        assert(g_size(t@) == 1 + g_size_elems(cs));
    }
    if t.kind == NODE_APPLY {
        push_str_chars("(", out);
        push_stringify_opt(nth_node(t, Cast::Expr, 0), base, out);
        push_str_chars(" ", out);
        push_stringify_opt(nth_node(t, Cast::Expr, 1), base, out);
        push_str_chars(")", out);
        proof {
            assert(out@ =~= old(out)@ + spec_stringify(t@, base@));
        }
    } else if t.kind == NODE_ASSERT {
        push_str_chars("(assert ", out);
        push_stringify_opt(nth_node(t, Cast::Expr, 0), base, out);
        push_str_chars("; ", out);
        push_stringify_opt(nth_node(t, Cast::Expr, 1), base, out);
        push_str_chars(")", out);
        proof {
            assert(out@ =~= old(out)@ + spec_stringify(t@, base@));
        }
    } else if t.kind == NODE_ERROR {
        push_str_chars("null", out);
        proof {
            assert(out@ =~= old(out)@ + spec_stringify(t@, base@));
        }
    } else if t.kind == NODE_IF_ELSE {
        push_str_chars("(if ", out);
        push_stringify_opt(nth_node(t, Cast::Expr, 0), base, out);
        push_str_chars(" then ", out);
        push_stringify_opt(nth_node(t, Cast::Expr, 1), base, out);
        push_str_chars(" else ", out);
        push_stringify_opt(nth_node(t, Cast::Expr, 2), base, out);
        push_str_chars(")", out);
        proof {
            assert(out@ =~= old(out)@ + spec_stringify(t@, base@));
        }
    } else if t.kind == NODE_SELECT {
        push_str_chars("(", out);
        push_stringify_opt(nth_node(t, Cast::Expr, 0), base, out);
        push_str_chars(".", out);
        push_stringify_opt_attrpath(nth_node(t, Cast::Attrpath, 0), base, out);
        match nth_node(t, Cast::Expr, 1) {
            Some(d) => {
                push_str_chars(" or ", out);
                push_stringify(d, base, out);
            }
            None => {}
        }
        push_str_chars(")", out);
        proof {
            assert(out@ =~= old(out)@ + spec_stringify(t@, base@));
        }
    } else if t.kind == NODE_STRING || t.kind == NODE_PATH_ABS || t.kind == NODE_PATH_SEARCH
        || t.kind == NODE_LITERAL || t.kind == NODE_IDENT || t.kind == NODE_CUR_POS {
        push_text(t, out);
        proof {
            assert(out@ =~= old(out)@ + spec_stringify(t@, base@));
        }
    } else if t.kind == NODE_PATH_REL || t.kind == NODE_PATH_HOME {
        push_join_path(base, t, out);
        proof {
            assert(out@ =~= old(out)@ + spec_stringify(t@, base@));
        }
    } else if t.kind == NODE_LAMBDA {
        push_str_chars("(", out);
        push_stringify_opt_param(nth_node(t, Cast::Param, 0), base, out);
        push_str_chars(": ", out);
        push_stringify_opt(nth_node(t, Cast::Expr, 0), base, out);
        push_str_chars(")", out);
        proof {
            assert(out@ =~= old(out)@ + spec_stringify(t@, base@));
        }
    } else if t.kind == NODE_LEGACY_LET {
        push_str_chars("(let { ", out);
        push_bindings(t, base, out);
        push_str_chars(" })", out);
        proof {
            assert(out@ =~= old(out)@ + spec_stringify(t@, base@));
        }
    } else if t.kind == NODE_LET_IN {
        push_str_chars("(let ", out);
        push_bindings(t, base, out);
        push_str_chars(" in ", out);
        push_stringify_opt(nth_node(t, Cast::Expr, 0), base, out);
        push_str_chars(")", out);
        proof {
            assert(out@ =~= old(out)@ + spec_stringify(t@, base@));
        }
    } else {
        push_stringify_opt(nth_node(t, Cast::Expr, 0), base, out);
        proof {
            assert(out@ =~= old(out)@ + spec_stringify(t@, base@));
        }
    }
}

/// Renders the second half of the expression kinds.
#[verifier::rlimit(100)]
fn push_stringify_tail(t: &Tree, base: &str, out: &mut Vec<char>)
    requires
        !is_group_a(t@.kind),
    ensures
        final(out)@ == old(out)@ + spec_stringify(t@, base@),
    decreases g_size(t@), 2int,
{
    let ghost cs = t@.children;
    proof {
        lemma_g_nth_size(cs, Cast::Expr, 0);
        lemma_g_nth_size(cs, Cast::Expr, 1);
        lemma_g_nth_size(cs, Cast::Attrpath, 0);
        lemma_g_nodes_size(cs, Cast::Expr);
        assert(g_size(t@) == 1 + g_size_elems(cs));
    }
    if t.kind == NODE_LIST {
        let items = nodes(t, Cast::Expr);
        proof {
            assert(views_of(items@) =~= g_nodes(cs, Cast::Expr));
        }
        push_str_chars("[", out);
        push_join_exprs(&items, base, out);
        push_str_chars("]", out);
        proof {
            assert(out@ =~= old(out)@ + spec_stringify(t@, base@));
        }
    } else if t.kind == NODE_BIN_OP {
        match first_token(t, TokClass::BinOp) {
            None => {
                push_str_chars("null", out);
            }
            Some(op) => {
                let opk = op.kind;
                push_str_chars("(", out);
                push_stringify_opt(nth_node(t, Cast::Expr, 0), base, out);
                push_str_chars(" ", out);
                push_op_text(opk, out);
                push_str_chars(" ", out);
                push_stringify_opt(nth_node(t, Cast::Expr, 1), base, out);
                push_str_chars(")", out);
            }
        }
        proof {
            assert(out@ =~= old(out)@ + spec_stringify(t@, base@));
        }
    } else if t.kind == NODE_PAREN {
        push_str_chars("(", out);
        push_stringify_opt(nth_node(t, Cast::Expr, 0), base, out);
        push_str_chars(")", out);
        proof {
            assert(out@ =~= old(out)@ + spec_stringify(t@, base@));
        }
    } else if t.kind == NODE_ROOT {
        push_stringify_opt(nth_node(t, Cast::Expr, 0), base, out);
        proof {
            assert(out@ =~= old(out)@ + spec_stringify(t@, base@));
        }
    } else if t.kind == NODE_ATTR_SET {
        match first_token(t, TokClass::Kind(TOKEN_REC)) {
            Some(_) => {
                push_str_chars("rec ", out);
            }
            None => {}
        }
        push_str_chars("{ ", out);
        push_bindings(t, base, out);
        push_str_chars(" }", out);
        proof {
            assert(out@ =~= old(out)@ + spec_stringify(t@, base@));
        }
    } else if t.kind == NODE_UNARY_OP {
        match first_token(t, TokClass::UnaryOp) {
            None => {
                push_stringify_opt(nth_node(t, Cast::Expr, 0), base, out);
            }
            Some(op) => {
                if op.kind == TOKEN_INVERT {
                    push_str_chars("(!", out);
                    push_stringify_opt(nth_node(t, Cast::Expr, 0), base, out);
                    push_str_chars(")", out);
                } else {
                    push_str_chars("(-", out);
                    push_stringify_opt(nth_node(t, Cast::Expr, 0), base, out);
                    push_str_chars(")", out);
                }
            }
        }
        proof {
            assert(out@ =~= old(out)@ + spec_stringify(t@, base@));
        }
    } else if t.kind == NODE_WITH {
        push_str_chars("(with ", out);
        push_stringify_opt(nth_node(t, Cast::Expr, 0), base, out);
        push_str_chars("; ", out);
        push_stringify_opt(nth_node(t, Cast::Expr, 1), base, out);
        push_str_chars(")", out);
        proof {
            assert(out@ =~= old(out)@ + spec_stringify(t@, base@));
        }
    } else if t.kind == NODE_HAS_ATTR {
        push_str_chars("(", out);
        push_stringify_opt(nth_node(t, Cast::Expr, 0), base, out);
        push_str_chars(" ? ", out);
        push_stringify_opt_attrpath(nth_node(t, Cast::Attrpath, 0), base, out);
        push_str_chars(")", out);
        proof {
            assert(out@ =~= old(out)@ + spec_stringify(t@, base@));
        }
    } else {
        push_str_chars("null", out);
        proof {
            assert(out@ =~= old(out)@ + spec_stringify(t@, base@));
        }
    }
}

/// Renders the operator token of a binary operation.
pub fn push_op_text(k: u16, out: &mut Vec<char>)
    ensures
        final(out)@ == old(out)@ + spec_op_text(k),
{
    if k == TOKEN_CONCAT {
        push_str_chars("++", out);
    } else if k == TOKEN_UPDATE {
        push_str_chars("//", out);
    } else if k == TOKEN_ADD {
        push_str_chars("+", out);
    } else if k == TOKEN_SUB {
        push_str_chars("-", out);
    } else if k == TOKEN_MUL {
        push_str_chars("*", out);
    } else if k == TOKEN_DIV {
        push_str_chars("/", out);
    } else if k == TOKEN_AND_AND {
        push_str_chars("&&", out);
    } else if k == TOKEN_EQUAL {
        push_str_chars("==", out);
    } else if k == TOKEN_IMPLICATION {
        push_str_chars("->", out);
    } else if k == TOKEN_LESS {
        push_str_chars("<", out);
    } else if k == TOKEN_LESS_OR_EQ {
        push_str_chars("<=", out);
    } else if k == TOKEN_MORE {
        push_str_chars(">", out);
    } else if k == TOKEN_MORE_OR_EQ {
        push_str_chars(">=", out);
    } else if k == TOKEN_NOT_EQUAL {
        push_str_chars("!=", out);
    } else if k == TOKEN_OR_OR {
        push_str_chars("||", out);
    } else if k == TOKEN_PIPE_RIGHT {
        push_str_chars("|>", out);
    } else if k == TOKEN_PIPE_LEFT {
        push_str_chars("<|", out);
    } else {
        push_str_chars("null", out);
    }
}

/// Renders a relative path node resolved against the base directory.
#[verifier::rlimit(100)]
fn push_join_path(base: &str, t: &Tree, out: &mut Vec<char>)
    ensures
        final(out)@ == old(out)@ + spec_join_path(base@, g_text(t@)),
{
    let n = base.unicode_len();
    if n == 0 {
        push_text(t, out);
        proof {
            assert(out@ =~= old(out)@ + spec_join_path(base@, g_text(t@)));
        }
    } else if base.get_char(n - 1) == '/' {
        push_str_chars(base, out);
        push_text(t, out);
        proof {
            assert(base@.last() == '/');
            assert(out@ =~= old(out)@ + spec_join_path(base@, g_text(t@)));
        }
    } else {
        push_str_chars(base, out);
        push_str_chars("/", out);
        push_text(t, out);
        proof {
            assert(base@.last() != '/');
            assert(out@ =~= old(out)@ + spec_join_path(base@, g_text(t@)));
        }
    }
}

/// Renders an optional expression, `null` standing in for a missing one.
pub fn push_stringify_opt(o: Option<&Tree>, base: &str, out: &mut Vec<char>)
    ensures
        final(out)@ == old(out)@ + spec_stringify_opt(opt_view(o), base@),
    decreases g_size_opt(opt_view(o)), 4int,
{
    match o {
        Some(t) => {
            push_stringify(t, base, out);
        }
        None => {
            push_str_chars("null", out);
        }
    }
}

/// Renders an optional attribute path, `null` standing in for a missing one.
pub fn push_stringify_opt_attrpath(o: Option<&Tree>, base: &str, out: &mut Vec<char>)
    ensures
        final(out)@ == old(out)@ + spec_stringify_opt_attrpath(opt_view(o), base@),
    decreases g_size_opt(opt_view(o)), 4int,
{
    match o {
        Some(t) => {
            push_stringify_attrpath(t, base, out);
        }
        None => {
            push_str_chars("null", out);
        }
    }
}

/// Renders an optional parameter, the open pattern standing in for a missing
/// one.
pub fn push_stringify_opt_param(o: Option<&Tree>, base: &str, out: &mut Vec<char>)
    ensures
        final(out)@ == old(out)@ + spec_stringify_opt_param(opt_view(o), base@),
    decreases g_size_opt(opt_view(o)), 4int,
{
    match o {
        Some(p) => {
            if p.kind == NODE_PATTERN {
                push_stringify_pattern(p, base, out);
            } else {
                push_text(p, out);
            }
        }
        None => {
            push_str_chars("{...}", out);
        }
    }
}

/// Renders an attribute path.
pub fn push_stringify_attrpath(t: &Tree, base: &str, out: &mut Vec<char>)
    ensures
        final(out)@ == old(out)@ + spec_stringify_attrpath(t@, base@),
    decreases g_size(t@), 1int,
{
    proof {
        lemma_g_nodes_size(t@.children, Cast::Attr);
        assert(g_size(t@) == 1 + g_size_elems(t@.children));
    }
    let attrs = nodes(t, Cast::Attr);
    proof {
        assert(views_of(attrs@) =~= g_nodes(t@.children, Cast::Attr));
    }
    let mut joined: Vec<char> = Vec::new();
    push_join_attrs(&attrs, ".", base, &mut joined);
    if joined.len() == 0 {
        push_str_chars("null", out);
    } else {
        push_all(&joined, out);
    }
    proof {
        assert(out@ =~= old(out)@ + spec_stringify_attrpath(t@, base@));
    }
}

/// Renders one attribute-path segment.
pub fn push_stringify_attr(t: &Tree, base: &str, out: &mut Vec<char>)
    ensures
        final(out)@ == old(out)@ + spec_stringify_attr(t@, base@),
    decreases g_size(t@), 1int,
{
    proof {
        lemma_g_nth_size(t@.children, Cast::Expr, 0);
        assert(g_size(t@) == 1 + g_size_elems(t@.children));
    }
    if t.kind == NODE_IDENT {
        let text = node_text(t);
        if text.len() == 0 {
            push_str_chars("null", out);
        } else {
            push_all(&text, out);
        }
        proof {
            assert(out@ =~= old(out)@ + spec_stringify_attr(t@, base@));
        }
    } else if t.kind == NODE_DYNAMIC {
        push_str_chars("${", out);
        push_stringify_opt(nth_node(t, Cast::Expr, 0), base, out);
        push_str_chars("}", out);
        proof {
            assert(out@ =~= old(out)@ + spec_stringify_attr(t@, base@));
        }
    } else {
        push_text(t, out);
        proof {
            assert(out@ =~= old(out)@ + spec_stringify_attr(t@, base@));
        }
    }
}

/// Renders the bindings of a binding-bearing node.
pub fn push_bindings(t: &Tree, base: &str, out: &mut Vec<char>)
    ensures
        final(out)@ == old(out)@ + spec_stringify_bindings(t@, base@),
    decreases g_size(t@), 1int,
{
    proof {
        lemma_g_nodes_size(t@.children, Cast::Entry);
        assert(g_size(t@) == 1 + g_size_elems(t@.children));
    }
    let entries = nodes(t, Cast::Entry);
    proof {
        assert(views_of(entries@) =~= g_nodes(t@.children, Cast::Entry));
    }
    push_join_entries(&entries, base, out);
}

/// Renders one binding.
#[verifier::rlimit(100)]
pub fn push_stringify_entry(t: &Tree, base: &str, out: &mut Vec<char>)
    ensures
        final(out)@ == old(out)@ + spec_stringify_entry(t@, base@),
    decreases g_size(t@), 1int,
{
    let ghost cs = t@.children;
    proof {
        lemma_g_nth_size(cs, Cast::InheritFrom, 0);
        lemma_g_nth_size(cs, Cast::Attrpath, 0);
        lemma_g_nth_size(cs, Cast::Expr, 0);
        lemma_g_nodes_size(cs, Cast::Attr);
        assert(g_size(t@) == 1 + g_size_elems(cs));
    }
    if t.kind == NODE_INHERIT {
        push_str_chars("inherit ", out);
        match nth_node(t, Cast::InheritFrom, 0) {
            Some(f) => {
                proof {
                    lemma_g_nth_size(f@.children, Cast::Expr, 0);
                    assert(g_size(f@) == 1 + g_size_elems(f@.children));
                }
                push_str_chars("(", out);
                push_stringify_opt(nth_node(f, Cast::Expr, 0), base, out);
                push_str_chars(")", out);
            }
            None => {}
        }
        push_str_chars(" ", out);
        let attrs = nodes(t, Cast::Attr);
        proof {
            assert(views_of(attrs@) =~= g_nodes(cs, Cast::Attr));
        }
        push_join_attrs(&attrs, " ", base, out);
        push_str_chars(";", out);
        proof {
            assert(out@ =~= old(out)@ + spec_stringify_entry(t@, base@));
        }
    } else {
        push_stringify_opt_attrpath(nth_node(t, Cast::Attrpath, 0), base, out);
        push_str_chars(" = ", out);
        push_stringify_opt(nth_node(t, Cast::Expr, 0), base, out);
        push_str_chars(";", out);
        proof {
            assert(out@ =~= old(out)@ + spec_stringify_entry(t@, base@));
        }
    }
}

/// Renders a destructuring parameter.
pub fn push_stringify_pattern(t: &Tree, base: &str, out: &mut Vec<char>)
    ensures
        final(out)@ == old(out)@ + spec_stringify_pattern(t@, base@),
    decreases g_size(t@), 1int,
{
    let ghost cs = t@.children;
    proof {
        lemma_g_nodes_size(cs, Cast::PatEntry);
        lemma_g_entries_with_ident_size(g_nodes(cs, Cast::PatEntry));
        lemma_g_nth_size(cs, Cast::PatBind, 0);
        assert(g_size(t@) == 1 + g_size_elems(cs));
    }
    let all_entries = nodes(t, Cast::PatEntry);
    proof {
        assert(views_of(all_entries@) =~= g_nodes(cs, Cast::PatEntry));
    }
    let ghost ts = g_nodes(cs, Cast::PatEntry);
    let mut named: Vec<&Tree> = Vec::new();
    let n = all_entries.len();
    let mut i: usize = 0;
    proof {
        assert(ts.take(0) =~= Seq::<GTree>::empty());
        assert(views_of(named@) =~= g_entries_with_ident(ts.take(0)));
    }
    while i < n
        invariant
            n == all_entries@.len(),
            views_of(all_entries@) == ts,
            ts.len() == n,
            i <= n,
            views_of(named@) == g_entries_with_ident(ts.take(i as int)),
        decreases n - i,
    {
        proof {
            lemma_entries_with_ident_snoc(ts, i as int);
        }
        let entry = all_entries[i];
        match nth_node(entry, Cast::Ident, 0) {
            Some(_) => {
                named.push(entry);
                proof {
                    assert(views_of(named@) =~= g_entries_with_ident(ts.take(i + 1)));
                }
            }
            None => {
                proof {
                    assert(views_of(named@) =~= g_entries_with_ident(ts.take(i + 1)));
                }
            }
        }
        i = i + 1;
    }
    proof {
        assert(ts.take(n as int) =~= ts);
    }
    if named.len() == 0 {
        push_str_chars("{...}", out);
    } else {
        let mut entries_text: Vec<char> = Vec::new();
        push_join_pat_entries(&named, base, &mut entries_text);
        push_str_chars("{", out);
        push_all(&entries_text, out);
        push_str_chars(", ...}", out);
    }
    match nth_node(t, Cast::PatBind, 0) {
        Some(bind) => {
            match nth_node(bind, Cast::Ident, 0) {
                Some(id) => {
                    push_str_chars(" @ ", out);
                    push_text(id, out);
                }
                None => {}
            }
        }
        None => {}
    }
    proof {
        assert(out@ =~= old(out)@ + spec_stringify_pattern(t@, base@));
    }
}

/// Renders one pattern entry.
#[verifier::rlimit(100)]
pub fn push_stringify_pat_entry(t: &Tree, base: &str, out: &mut Vec<char>)
    ensures
        final(out)@ == old(out)@ + spec_stringify_pat_entry(t@, base@),
    decreases g_size(t@), 1int,
{
    let ghost cs = t@.children;
    proof {
        lemma_g_nth_size(cs, Cast::Ident, 0);
        lemma_g_nth_size(cs, Cast::Expr, 1);
        assert(g_size(t@) == 1 + g_size_elems(cs));
    }
    match nth_node(t, Cast::Ident, 0) {
        Some(id) => {
            push_text(id, out);
        }
        None => {}
    }
    push_str_chars(" ? ", out);
    push_stringify_opt(nth_node(t, Cast::Expr, 1), base, out);
    proof {
        assert(out@ =~= old(out)@ + spec_stringify_pat_entry(t@, base@));
    }
}

/// Renders expressions joined by spaces.
pub fn push_join_exprs(list: &Vec<&Tree>, base: &str, out: &mut Vec<char>)
    ensures
        final(out)@ == old(out)@ + spec_join_exprs(views_of(list@), base@),
    decreases g_size_trees(views_of(list@)), 4int,
{
    let ghost ts = views_of(list@);
    let n = list.len();
    let mut i: usize = 0;
    proof {
        assert(ts.take(0) =~= Seq::<GTree>::empty());
        assert(out@ =~= old(out)@ + spec_join_exprs(ts.take(0), base@));
    }
    while i < n
        invariant
            n == list@.len(),
            ts == views_of(list@),
            ts.len() == n,
            i <= n,
            out@ == old(out)@ + spec_join_exprs(ts.take(i as int), base@),
        decreases n - i,
    {
        proof {
            lemma_join_exprs_snoc(ts, base@, i as int);
            lemma_g_size_trees_index(ts, i as int);
        }
        if i > 0 {
            push_str_chars(" ", out);
        }
        push_stringify(list[i], base, out);
        proof {
            assert(out@ =~= old(out)@ + spec_join_exprs(ts.take(i + 1), base@));
        }
        i = i + 1;
    }
    proof {
        assert(ts.take(n as int) =~= ts);
    }
}

/// Renders attribute names joined by a separator.
pub fn push_join_attrs(list: &Vec<&Tree>, sep: &str, base: &str, out: &mut Vec<char>)
    ensures
        final(out)@ == old(out)@ + spec_join_attrs(views_of(list@), sep@, base@),
    decreases g_size_trees(views_of(list@)), 4int,
{
    let ghost ts = views_of(list@);
    let n = list.len();
    let mut i: usize = 0;
    proof {
        assert(ts.take(0) =~= Seq::<GTree>::empty());
        assert(out@ =~= old(out)@ + spec_join_attrs(ts.take(0), sep@, base@));
    }
    while i < n
        invariant
            n == list@.len(),
            ts == views_of(list@),
            ts.len() == n,
            i <= n,
            out@ == old(out)@ + spec_join_attrs(ts.take(i as int), sep@, base@),
        decreases n - i,
    {
        proof {
            lemma_join_attrs_snoc(ts, sep@, base@, i as int);
            lemma_g_size_trees_index(ts, i as int);
        }
        if i > 0 {
            push_str_chars(sep, out);
        }
        push_stringify_attr(list[i], base, out);
        proof {
            assert(out@ =~= old(out)@ + spec_join_attrs(ts.take(i + 1), sep@, base@));
        }
        i = i + 1;
    }
    proof {
        assert(ts.take(n as int) =~= ts);
    }
}

/// Renders bindings joined by spaces.
pub fn push_join_entries(list: &Vec<&Tree>, base: &str, out: &mut Vec<char>)
    ensures
        final(out)@ == old(out)@ + spec_join_entries(views_of(list@), base@),
    decreases g_size_trees(views_of(list@)), 4int,
{
    let ghost ts = views_of(list@);
    let n = list.len();
    let mut i: usize = 0;
    proof {
        assert(ts.take(0) =~= Seq::<GTree>::empty());
        assert(out@ =~= old(out)@ + spec_join_entries(ts.take(0), base@));
    }
    while i < n
        invariant
            n == list@.len(),
            ts == views_of(list@),
            ts.len() == n,
            i <= n,
            out@ == old(out)@ + spec_join_entries(ts.take(i as int), base@),
        decreases n - i,
    {
        proof {
            lemma_join_entries_snoc(ts, base@, i as int);
            lemma_g_size_trees_index(ts, i as int);
        }
        if i > 0 {
            push_str_chars(" ", out);
        }
        push_stringify_entry(list[i], base, out);
        proof {
            assert(out@ =~= old(out)@ + spec_join_entries(ts.take(i + 1), base@));
        }
        i = i + 1;
    }
    proof {
        assert(ts.take(n as int) =~= ts);
    }
}

/// Renders pattern entries joined by commas.
pub fn push_join_pat_entries(list: &Vec<&Tree>, base: &str, out: &mut Vec<char>)
    ensures
        final(out)@ == old(out)@ + spec_join_pat_entries(views_of(list@), base@),
    decreases g_size_trees(views_of(list@)), 4int,
{
    let ghost ts = views_of(list@);
    let n = list.len();
    let mut i: usize = 0;
    proof {
        assert(ts.take(0) =~= Seq::<GTree>::empty());
        assert(out@ =~= old(out)@ + spec_join_pat_entries(ts.take(0), base@));
    }
    while i < n
        invariant
            n == list@.len(),
            ts == views_of(list@),
            ts.len() == n,
            i <= n,
            out@ == old(out)@ + spec_join_pat_entries(ts.take(i as int), base@),
        decreases n - i,
    {
        proof {
            lemma_join_pat_entries_snoc(ts, base@, i as int);
            lemma_g_size_trees_index(ts, i as int);
        }
        if i > 0 {
            push_str_chars(", ", out);
        }
        push_stringify_pat_entry(list[i], base, out);
        proof {
            assert(out@ =~= old(out)@ + spec_join_pat_entries(ts.take(i + 1), base@));
        }
        i = i + 1;
    }
    proof {
        assert(ts.take(n as int) =~= ts);
    }
}

// ------------------------------------------------------------------
// The public renderer.
// ------------------------------------------------------------------
/// Renders any expression node to guaranteed-valid source text, resolving
/// relative paths against the given base directory.
pub fn safe_stringify(expr: &Tree, base_path: &str) -> (r: String)
    ensures
        r@ == spec_stringify(expr@, base_path@),
{
    let mut out: Vec<char> = Vec::new();
    push_stringify(expr, base_path, &mut out);
    chars_to_string(&out)
}

/// Renders an optional expression, `null` standing in for a missing one.
pub fn safe_stringify_opt(expr: Option<&Tree>, base_path: &str) -> (r: String)
    ensures
        r@ == spec_stringify_opt(opt_view(expr), base_path@),
{
    let mut out: Vec<char> = Vec::new();
    push_stringify_opt(expr, base_path, &mut out);
    chars_to_string(&out)
}

/// Renders an optional lambda parameter.
pub fn safe_stringify_opt_param(param: Option<&Tree>, base_path: &str) -> (r: String)
    ensures
        r@ == spec_stringify_opt_param(opt_view(param), base_path@),
{
    let mut out: Vec<char> = Vec::new();
    push_stringify_opt_param(param, base_path, &mut out);
    chars_to_string(&out)
}

/// Renders a destructuring parameter.
pub fn safe_stringify_pattern(pattern: &Tree, base_path: &str) -> (r: String)
    ensures
        r@ == spec_stringify_pattern(pattern@, base_path@),
{
    let mut out: Vec<char> = Vec::new();
    push_stringify_pattern(pattern, base_path, &mut out);
    chars_to_string(&out)
}

/// Renders a string literal node: its source text, kept verbatim.
pub fn safe_stringify_str(str_node: &Tree, _base_path: &str) -> (r: String)
    ensures
        r@ == g_text(str_node@),
{
    let out = node_text(str_node);
    chars_to_string(&out)
}

/// Renders one attribute-path segment.
pub fn safe_stringify_attr(attr: &Tree, base_path: &str) -> (r: String)
    ensures
        r@ == spec_stringify_attr(attr@, base_path@),
{
    let mut out: Vec<char> = Vec::new();
    push_stringify_attr(attr, base_path, &mut out);
    chars_to_string(&out)
}

/// Renders the bindings of a let, legacy let, or attribute set.
pub fn safe_stringify_bindings(bindings: &Tree, base_path: &str) -> (r: String)
    ensures
        r@ == spec_stringify_bindings(bindings@, base_path@),
{
    let mut out: Vec<char> = Vec::new();
    push_bindings(bindings, base_path, &mut out);
    chars_to_string(&out)
}

/// Renders an attribute path.
pub fn safe_stringify_attrpath(expr: &Tree, base_path: &str) -> (r: String)
    ensures
        r@ == spec_stringify_attrpath(expr@, base_path@),
{
    let mut out: Vec<char> = Vec::new();
    push_stringify_attrpath(expr, base_path, &mut out);
    chars_to_string(&out)
}

/// Renders an optional attribute path.
pub fn safe_stringify_opt_attrpath(attrpath: Option<&Tree>, base_path: &str) -> (r: String)
    ensures
        r@ == spec_stringify_opt_attrpath(opt_view(attrpath), base_path@),
{
    let mut out: Vec<char> = Vec::new();
    push_stringify_opt_attrpath(attrpath, base_path, &mut out);
    chars_to_string(&out)
}

} // verus!

//! Context reconstruction: wrapping a stringified target expression in the
//! scope-bearing ancestors around it — lets, recursive attribute sets,
//! lambdas with synthesised arguments, and with-expressions — so that the
//! result is a self-contained expression whose evaluation reproduces the
//! target's value in its original scope.

use vstd::prelude::*;
use crate::kinds::{NODE_LAMBDA, NODE_LET_IN, NODE_ATTR_SET, NODE_WITH, TOKEN_REC};
use crate::node::{Cast, TokClass, g_nth, g_first_token, nth_node, first_token};
use crate::cursor::{node_at, valid_path, path_view, g_ancestors, ancestor_paths, node_at_path,
    clone_path, lemma_ancestors_valid};
use crate::file_types::{FileInfo, FileType, spec_base_path};
use crate::lambda_arg::g_root_lambda;
use crate::render::{spec_stringify, spec_stringify_opt, spec_stringify_attr,
    spec_stringify_bindings, spec_stringify_opt_param, push_stringify, push_stringify_opt,
    push_bindings, push_stringify_opt_param, push_stringify_attr};
use crate::tree::{Tree, GTree};
use crate::strutil::{push_str_chars, push_all, chars_to_string, str_eq_str};

verus! {

/// Whether any ancestor of the node is a lambda: a lambda with none is the
/// file's outermost one.
pub open spec fn g_has_lambda_ancestor(root: GTree, path: Seq<int>) -> bool {
    exists|k: int|
        0 <= k < g_ancestors(root, path).len() && node_at(
            root,
            #[trigger] g_ancestors(root, path)[k],
        ).kind == NODE_LAMBDA
}

/// Whether the lambda at a path is the file's outermost one.
pub open spec fn g_is_root_lambda(root: GTree, lam: Seq<int>) -> bool {
    !g_has_lambda_ancestor(root, lam)
}

/// Whether the node the path names is the outermost lambda of the file.
pub fn is_root_lambda(root: &Tree, lam: &Vec<usize>) -> (r: bool)
    requires
        valid_path(root@, path_view(lam@)),
    ensures
        r == g_is_root_lambda(root@, path_view(lam@)),
{
    let chain = ancestor_paths(root, lam);
    let ghost gchain = g_ancestors(root@, path_view(lam@));
    let n = chain.len();
    let mut i: usize = 0;
    while i < n
        invariant
            n == chain@.len(),
            gchain.len() == n,
            valid_path(root@, path_view(lam@)),
            gchain == g_ancestors(root@, path_view(lam@)),
            forall|k: int| 0 <= k < n ==> path_view(chain@[k]@) == gchain[k],
            i <= n,
            forall|k: int| 0 <= k < i ==> node_at(root@, gchain[k]).kind != NODE_LAMBDA,
        decreases n - i,
    {
        proof {
            lemma_ancestors_valid(root@, path_view(lam@));
        }
        match node_at_path(root, &chain[i]) {
            Some(node) => {
                if node.kind == NODE_LAMBDA {
                    proof {
                        assert(node_at(root@, gchain[i as int]).kind == NODE_LAMBDA);
                    }
                    return false;
                }
            }
            None => {
                proof {
                    assert(gchain[i as int] == g_ancestors(root@, path_view(lam@))[i as int]);
                    assert(valid_path(root@, g_ancestors(root@, path_view(lam@))[i as int]));
                    assert(false);
                }
            }
        }
        i = i + 1;
    }
    proof {
        if g_has_lambda_ancestor(root@, path_view(lam@)) {
            let k = choose|k: int|
                0 <= k < gchain.len() && node_at(root@, #[trigger] gchain[k]).kind == NODE_LAMBDA;
            assert(false);
        }
    }
    true
}

/// The argument synthesised for the lambda at a path: a source-tree member
/// gets its path-specific argument; the file's outermost lambda gets the
/// classification's root argument; a parameter named `system` gets the
/// current system; everything else gets an empty attribute set.
pub open spec fn g_lambda_arg(root: GTree, lam: Seq<int>, fi: FileInfo) -> Seq<char> {
    let t = node_at(root, lam);
    let param = g_nth(t.children, Cast::Param, 0);
    let nixpkgs_case: Option<Seq<char>> = match fi.file_type {
        FileType::Nixpkgs { nixpkgs_path, relative_path } => {
            if relative_path@ == "lib/default.nix"@ && spec_stringify_opt_param(
                param,
                nixpkgs_path@,
            ) == "self"@ {
                Some("(import "@ + nixpkgs_path@ + " {}).lib"@)
            } else if g_is_root_lambda(root, lam) {
                Some("(import "@ + nixpkgs_path@ + " {})"@)
            } else {
                None
            }
        },
        _ => None,
    };
    match nixpkgs_case {
        Some(s) => s,
        None => {
            if g_is_root_lambda(root, lam) && g_root_lambda(fi) is Some {
                g_root_lambda(fi)->Some_0
            } else if spec_stringify_opt_param(param, spec_base_path(fi.path@)) == "system"@ {
                "builtins.currentSystem"@
            } else {
                "{}"@
            }
        },
    }
}

/// The synthesised argument for the lambda at a path.
pub fn get_lambda_arg(root: &Tree, lam: &Vec<usize>, file_info: &FileInfo) -> (r: String)
    requires
        valid_path(root@, path_view(lam@)),
    ensures
        r@ == g_lambda_arg(root@, path_view(lam@), *file_info),
{
    let t = match node_at_path(root, lam) {
        Some(t) => t,
        None => {
            proof {
                assert(false);
            }
            root
        }
    };
    let param = nth_node(t, Cast::Param, 0);
    match &file_info.file_type {
        FileType::Nixpkgs { nixpkgs_path, relative_path } => {
            let rendered = crate::render::safe_stringify_opt_param(param, nixpkgs_path.as_str());
            if str_eq_str(relative_path.as_str(), "lib/default.nix") && str_eq_str(
                rendered.as_str(),
                "self",
            ) {
                let mut out: Vec<char> = Vec::new();
                push_str_chars("(import ", &mut out);
                push_str_chars(nixpkgs_path.as_str(), &mut out);
                push_str_chars(" {}).lib", &mut out);
                proof {
                    assert(out@ =~= "(import "@ + nixpkgs_path@ + " {}).lib"@);
                }
                return chars_to_string(&out);
            }
            if is_root_lambda(root, lam) {
                let mut out: Vec<char> = Vec::new();
                push_str_chars("(import ", &mut out);
                push_str_chars(nixpkgs_path.as_str(), &mut out);
                push_str_chars(" {})", &mut out);
                proof {
                    assert(out@ =~= "(import "@ + nixpkgs_path@ + " {})"@);
                }
                return chars_to_string(&out);
            }
            lambda_arg_generic(root, lam, t, file_info)
        }
        _ => lambda_arg_generic(root, lam, t, file_info),
    }
}

fn lambda_arg_generic(root: &Tree, lam: &Vec<usize>, t: &Tree, file_info: &FileInfo) -> (r:
    String)
    requires
        valid_path(root@, path_view(lam@)),
        t@ == node_at(root@, path_view(lam@)),
        match file_info.file_type {
            FileType::Nixpkgs { nixpkgs_path, relative_path } => !(relative_path@
                == "lib/default.nix"@ && spec_stringify_opt_param(
                g_nth(t@.children, Cast::Param, 0),
                nixpkgs_path@,
            ) == "self"@) && !g_is_root_lambda(root@, path_view(lam@)),
            _ => true,
        },
    ensures
        r@ == g_lambda_arg(root@, path_view(lam@), *file_info),
{
    if is_root_lambda(root, lam) {
        match crate::lambda_arg::get_root_lambda(file_info) {
            Some(rl) => {
                return rl;
            }
            None => {}
        }
    }
    let base = file_info.base_path();
    let rendered = crate::render::safe_stringify_opt_param(
        nth_node(t, Cast::Param, 0),
        base.as_str(),
    );
    if str_eq_str(rendered.as_str(), "system") {
        let mut out: Vec<char> = Vec::new();
        push_str_chars("builtins.currentSystem", &mut out);
        chars_to_string(&out)
    } else {
        let mut out: Vec<char> = Vec::new();
        push_str_chars("{}", &mut out);
        chars_to_string(&out)
    }
}

// ------------------------------------------------------------------
// Wrapping a target in its scope.
// ------------------------------------------------------------------
/// The text after wrapping an accumulated target in the scope-bearing
/// ancestors of a chain, innermost first: a let or a recursive attribute set
/// replays its bindings around the target, a lambda is applied to its
/// synthesised argument, a with-expression is replayed; everything else
/// passes through.
pub open spec fn g_in_context(
    root: GTree,
    fi: FileInfo,
    chain: Seq<Seq<int>>,
    acc: Seq<char>,
) -> Seq<char>
    decreases chain.len(),
{
    if chain.len() == 0 {
        acc
    } else {
        let t = node_at(root, chain[0]);
        let base = spec_base_path(fi.path@);
        let acc2 = if t.kind == NODE_LET_IN {
            "(let "@ + spec_stringify_bindings(t, base) + " in ("@ + acc + "))"@
        } else if t.kind == NODE_ATTR_SET && g_first_token(
            t.children,
            TokClass::Kind(TOKEN_REC),
        ) is Some {
            "(let "@ + spec_stringify_bindings(t, base) + " in ("@ + acc + "))"@
        } else if t.kind == NODE_LAMBDA {
            "(("@ + spec_stringify_opt_param(g_nth(t.children, Cast::Param, 0), base) + ": "@ + acc
                + ") "@ + g_lambda_arg(root, chain[0], fi) + ")"@
        } else if t.kind == NODE_WITH {
            "(with "@ + spec_stringify_opt(g_nth(t.children, Cast::Expr, 0), base) + "; "@ + acc
                + ")"@
        } else {
            acc
        };
        g_in_context(root, fi, chain.drop_first(), acc2)
    }
}

/// Wraps an already-stringified target in the scope of the ancestors given
/// by their paths, innermost first.
pub fn in_context_custom(
    root: &Tree,
    string_to_eval: Vec<char>,
    chain: &Vec<Vec<usize>>,
    file_info: &FileInfo,
) -> (r: Vec<char>)
    requires
        forall|k: int| 0 <= k < chain@.len() ==> valid_path(root@, path_view(chain@[k]@)),
    ensures
        r@ == g_in_context(root@, *file_info, chain_view(chain@), string_to_eval@),
{
    let ghost gchain = chain_view(chain@);
    let base = file_info.base_path();
    let n = chain.len();
    let mut acc = string_to_eval;
    let mut i: usize = 0;
    proof {
        assert(gchain.skip(0) =~= gchain);
    }
    while i < n
        invariant
            n == chain@.len(),
            gchain.len() == n,
            gchain == chain_view(chain@),
            base@ == spec_base_path(file_info.path@),
            forall|k: int| 0 <= k < n ==> valid_path(root@, path_view(chain@[k]@)),
            forall|k: int| 0 <= k < n ==> gchain[k] == path_view(chain@[k]@),
            i <= n,
            g_in_context(root@, *file_info, gchain.skip(i as int), acc@) == g_in_context(
                root@,
                *file_info,
                gchain,
                string_to_eval@,
            ),
        decreases n - i,
    {
        proof {
            assert(gchain.skip(i as int)[0] == gchain[i as int]);
            assert(gchain.skip(i as int).drop_first() =~= gchain.skip(i + 1));
        }
        let t = match node_at_path(root, &chain[i]) {
            Some(t) => t,
            None => {
                proof {
                    assert(false);
                }
                root
            }
        };
        if t.kind == NODE_LET_IN {
            let mut next: Vec<char> = Vec::new();
            push_str_chars("(let ", &mut next);
            push_bindings(t, base.as_str(), &mut next);
            push_str_chars(" in (", &mut next);
            push_all(&acc, &mut next);
            push_str_chars("))", &mut next);
            proof {
                assert(next@ =~= "(let "@ + spec_stringify_bindings(t@, base@) + " in ("@ + acc@
                    + "))"@);
            }
            acc = next;
        } else if t.kind == NODE_ATTR_SET {
            match first_token(t, TokClass::Kind(TOKEN_REC)) {
                Some(_) => {
                    let mut next: Vec<char> = Vec::new();
                    push_str_chars("(let ", &mut next);
                    push_bindings(t, base.as_str(), &mut next);
                    push_str_chars(" in (", &mut next);
                    push_all(&acc, &mut next);
                    push_str_chars("))", &mut next);
                    proof {
                        assert(next@ =~= "(let "@ + spec_stringify_bindings(t@, base@) + " in ("@
                            + acc@ + "))"@);
                    }
                    acc = next;
                }
                None => {}
            }
        } else if t.kind == NODE_LAMBDA {
            let arg = get_lambda_arg(root, &chain[i], file_info);
            let mut next: Vec<char> = Vec::new();
            push_str_chars("((", &mut next);
            push_stringify_opt_param(nth_node(t, Cast::Param, 0), base.as_str(), &mut next);
            push_str_chars(": ", &mut next);
            push_all(&acc, &mut next);
            push_str_chars(") ", &mut next);
            push_str_chars(arg.as_str(), &mut next);
            push_str_chars(")", &mut next);
            proof {
                assert(next@ =~= "(("@ + spec_stringify_opt_param(
                    g_nth(t@.children, Cast::Param, 0),
                    base@,
                ) + ": "@ + acc@ + ") "@ + g_lambda_arg(root@, gchain[i as int], *file_info)
                    + ")"@);
            }
            acc = next;
        } else if t.kind == NODE_WITH {
            let mut next: Vec<char> = Vec::new();
            push_str_chars("(with ", &mut next);
            push_stringify_opt(nth_node(t, Cast::Expr, 0), base.as_str(), &mut next);
            push_str_chars("; ", &mut next);
            push_all(&acc, &mut next);
            push_str_chars(")", &mut next);
            proof {
                assert(next@ =~= "(with "@ + spec_stringify_opt(
                    g_nth(t@.children, Cast::Expr, 0),
                    base@,
                ) + "; "@ + acc@ + ")"@);
            }
            acc = next;
        }
        i = i + 1;
    }
    proof {
        assert(gchain.skip(n as int) =~= Seq::<Seq<int>>::empty());
    }
    acc
}

pub open spec fn chain_view(s: Seq<Vec<usize>>) -> Seq<Seq<int>> {
    s.map_values(|p: Vec<usize>| path_view(p@))
}

/// The self-contained text that evaluates a target expression, with a
/// selection suffix, in the scope around the node at `path`: the stringified
/// target, each given attribute appended with a dot, then the inclusive
/// ancestor chain wrapped around it.
pub open spec fn g_in_context_with_select(
    root: GTree,
    fi: FileInfo,
    path: Seq<int>,
    attrs: Seq<GTree>,
) -> Seq<char> {
    let base = spec_base_path(fi.path@);
    let target = spec_stringify(node_at(root, path), base) + g_select_suffix(attrs, base);
    g_in_context(root, fi, seq![path] + g_ancestors(root, path), target)
}

pub open spec fn g_select_suffix(attrs: Seq<GTree>, base: Seq<char>) -> Seq<char>
    decreases attrs.len(),
{
    if attrs.len() == 0 {
        Seq::empty()
    } else {
        "."@ + spec_stringify_attr(attrs[0], base) + g_select_suffix(attrs.drop_first(), base)
    }
}

/// Builds the evaluation text for the node at a path with a selection
/// suffix of attribute segments.
pub fn in_context_with_select(
    root: &Tree,
    path: &Vec<usize>,
    attrs: &Vec<&Tree>,
    file_info: &FileInfo,
) -> (r: String)
    requires
        valid_path(root@, path_view(path@)),
    ensures
        r@ == g_in_context_with_select(
            root@,
            *file_info,
            path_view(path@),
            crate::render::views_of(attrs@),
        ),
{
    let base = file_info.base_path();
    let t = match node_at_path(root, path) {
        Some(t) => t,
        None => {
            proof {
                assert(false);
            }
            root
        }
    };
    let mut target: Vec<char> = Vec::new();
    push_stringify(t, base.as_str(), &mut target);
    let ghost ts = crate::render::views_of(attrs@);
    let n = attrs.len();
    let mut i: usize = 0;
    proof {
        assert(ts.skip(0) =~= ts);
    }
    while i < n
        invariant
            n == attrs@.len(),
            crate::render::views_of(attrs@) == ts,
            ts.len() == n,
            base@ == spec_base_path(file_info.path@),
            i <= n,
            target@ + g_select_suffix(ts.skip(i as int), base@) == target0(
                root@,
                path_view(path@),
                base@,
            ) + g_select_suffix(ts, base@),
            valid_path(root@, path_view(path@)),
        decreases n - i,
    {
        proof {
            assert(ts.skip(i as int)[0] == ts[i as int]);
            assert(ts.skip(i as int).drop_first() =~= ts.skip(i + 1));
        }
        let ghost pre = target@;
        push_str_chars(".", &mut target);
        push_stringify_attr(attrs[i], base.as_str(), &mut target);
        proof {
            assert(target@ + g_select_suffix(ts.skip(i + 1), base@) =~= pre + g_select_suffix(
                ts.skip(i as int),
                base@,
            ));
        }
        i = i + 1;
    }
    proof {
        assert(ts.skip(n as int) =~= Seq::<GTree>::empty());
        assert(target@ + Seq::<char>::empty() =~= target@);
    }
    let anc = ancestor_paths(root, path);
    let mut chain: Vec<Vec<usize>> = Vec::new();
    chain.push(clone_path(path));
    let m = anc.len();
    let mut k: usize = 0;
    while k < m
        invariant
            m == anc@.len(),
            k <= m,
            chain@.len() == k + 1,
            path_view(chain@[0]@) == path_view(path@),
            valid_path(root@, path_view(path@)),
            forall|j: int| 1 <= j < chain@.len() ==> chain@[j]@ == anc@[j - 1]@,
        decreases m - k,
    {
        chain.push(clone_path(&anc[k]));
        k = k + 1;
    }
    proof {
        lemma_ancestors_valid(root@, path_view(path@));
        assert forall|j: int| 0 <= j < chain@.len() implies valid_path(
            root@,
            path_view(chain@[j]@),
        ) by {
            if j >= 1 {
                assert(chain@[j]@ == anc@[j - 1]@);
                assert(path_view(anc@[j - 1]@) == g_ancestors(root@, path_view(path@))[j - 1]);
                assert(valid_path(root@, g_ancestors(root@, path_view(path@))[j - 1]));
            } else {
                assert(path_view(chain@[0]@) == path_view(path@));
            }
        }
        assert(chain_view(chain@) =~= seq![path_view(path@)] + g_ancestors(
            root@,
            path_view(path@),
        ));
    }
    let wrapped = in_context_custom(root, target, &chain, file_info);
    proof {
        assert(wrapped@ == g_in_context_with_select(
            root@,
            *file_info,
            path_view(path@),
            ts,
        ));
    }
    chars_to_string(&wrapped)
}

pub open spec fn target0(root: GTree, path: Seq<int>, base: Seq<char>) -> Seq<char> {
    spec_stringify(node_at(root, path), base)
}

/// The evaluation text for the node at a path alone.
pub fn in_context(root: &Tree, path: &Vec<usize>, file_info: &FileInfo) -> (r: String)
    requires
        valid_path(root@, path_view(path@)),
    ensures
        r@ == g_in_context_with_select(root@, *file_info, path_view(path@), Seq::empty()),
{
    let attrs: Vec<&Tree> = Vec::new();
    proof {
        assert(crate::render::views_of(attrs@) =~= Seq::<GTree>::empty());
    }
    in_context_with_select(root, path, &attrs, file_info)
}

/// The first enclosing with-expression's namespace, as a self-contained
/// evaluation text; `None` where no with-expression encloses the node.
pub open spec fn g_with_expression(root: GTree, path: Seq<int>, fi: FileInfo) -> Option<Seq<char>> {
    match g_first_with(root, g_ancestors(root, path)) {
        None => None,
        Some(wp) => match g_nth_child_index(node_at(root, wp).children, Cast::Expr, 0) {
            None => None,
            Some(ci) => Some(
                g_in_context_with_select(root, fi, wp.push(ci), Seq::empty()),
            ),
        },
    }
}

pub open spec fn g_first_with(root: GTree, chain: Seq<Seq<int>>) -> Option<Seq<int>>
    decreases chain.len(),
{
    if chain.len() == 0 {
        None
    } else if node_at(root, chain[0]).kind == NODE_WITH {
        Some(chain[0])
    } else {
        g_first_with(root, chain.drop_first())
    }
}

/// The child index of the n-th node of a class among a node's children.
pub open spec fn g_nth_child_index(s: Seq<crate::tree::GElem>, c: Cast, n: int) -> Option<int>
    decreases s.len(),
{
    if s.len() == 0 {
        None
    } else {
        match s[0] {
            crate::tree::GElem::Node(t) => if crate::node::casts(c, t.kind) {
                if n == 0 {
                    Some(0)
                } else {
                    match g_nth_child_index(s.drop_first(), c, n - 1) {
                        None => None,
                        Some(i) => Some(i + 1),
                    }
                }
            } else {
                match g_nth_child_index(s.drop_first(), c, n) {
                    None => None,
                    Some(i) => Some(i + 1),
                }
            },
            crate::tree::GElem::Token(_) => match g_nth_child_index(s.drop_first(), c, n) {
                None => None,
                Some(i) => Some(i + 1),
            },
        }
    }
}


/// The child index of the n-th node of a class, executable side.
pub fn nth_child_index(t: &Tree, c: Cast, n: usize) -> (r: Option<usize>)
    ensures
        match r {
            Some(i) => g_nth_child_index(t@.children, c, n as int) == Some(i as int) && (
            i < t@.children.len() && t@.children[i as int] is Node),
            None => g_nth_child_index(t@.children, c, n as int) is None,
        },
{
    let ghost cs = crate::tree::view_elems(t.children@);
    proof {
        crate::tree::lemma_view_elems(t.children@);
        assert(cs == t@.children);
    }
    let m = t.children.len();
    let mut i: usize = 0;
    let mut remaining = n;
    proof {
        assert(cs.skip(0) =~= cs);
    }
    while i < m
        invariant
            m == t.children@.len(),
            cs == crate::tree::view_elems(t.children@),
            cs == t@.children,
            cs.len() == m,
            i <= m,
            remaining <= n,
            match g_nth_child_index(cs.skip(i as int), c, remaining as int) {
                Some(rel) => g_nth_child_index(cs, c, n as int) == Some(rel + i),
                None => g_nth_child_index(cs, c, n as int) is None,
            },
        decreases m - i,
    {
        proof {
            crate::tree::lemma_view_elems(t.children@);
            assert(cs.skip(i as int)[0] == cs[i as int]);
            assert(cs.skip(i as int).drop_first() =~= cs.skip(i + 1));
        }
        match &t.children[i] {
            crate::tree::Elem::Node(sub) => {
                if crate::node::cast_ok(c, sub.kind) {
                    if remaining == 0 {
                        proof {
                            assert(g_nth_child_index(cs.skip(i as int), c, 0int) == Some(0int));
                        }
                        return Some(i);
                    }
                    remaining = remaining - 1;
                }
            }
            crate::tree::Elem::Token(_) => {}
        }
        i = i + 1;
    }
    proof {
        assert(cs.skip(m as int) =~= Seq::<crate::tree::GElem>::empty());
    }
    None
}

/// The first enclosing with-expression's namespace as a self-contained
/// evaluation text, where one encloses the node.
pub fn with_expression(root: &Tree, path: &Vec<usize>, file_info: &FileInfo) -> (r: Option<
    String,
>)
    requires
        valid_path(root@, path_view(path@)),
    ensures
        match r {
            Some(s) => g_with_expression(root@, path_view(path@), *file_info) == Some(s@),
            None => g_with_expression(root@, path_view(path@), *file_info) is None,
        },
{
    let chain = ancestor_paths(root, path);
    let ghost gchain = g_ancestors(root@, path_view(path@));
    let n = chain.len();
    let mut i: usize = 0;
    proof {
        assert(gchain.skip(0) =~= gchain);
    }
    while i < n
        invariant
            n == chain@.len(),
            gchain.len() == n,
            valid_path(root@, path_view(path@)),
            gchain == g_ancestors(root@, path_view(path@)),
            forall|k: int| 0 <= k < n ==> path_view(chain@[k]@) == gchain[k],
            i <= n,
            g_first_with(root@, gchain) == g_first_with(root@, gchain.skip(i as int)),
        decreases n - i,
    {
        proof {
            assert(gchain.skip(i as int)[0] == gchain[i as int]);
            assert(gchain.skip(i as int).drop_first() =~= gchain.skip(i + 1));
            lemma_ancestors_valid(root@, path_view(path@));
            assert(valid_path(root@, g_ancestors(root@, path_view(path@))[i as int]));
        }
        let t = match node_at_path(root, &chain[i]) {
            Some(t) => t,
            None => {
                proof {
                    assert(false);
                }
                root
            }
        };
        if t.kind == NODE_WITH {
            match nth_child_index(t, Cast::Expr, 0) {
                None => {
                    return None;
                }
                Some(ci) => {
                    let mut ns_path = clone_path(&chain[i]);
                    ns_path.push(ci);
                    proof {
                        assert(path_view(ns_path@) =~= gchain[i as int].push(ci as int));
                        crate::cursor::lemma_path_extend(root@, gchain[i as int], ci as int);
                    }
                    let text = in_context(root, &ns_path, file_info);
                    return Some(text);
                }
            }
        }
        i = i + 1;
    }
    proof {
        assert(gchain.skip(n as int) =~= Seq::<Seq<int>>::empty());
    }
    None
}

} // verus!


//! The option-schema tree: a recursive, immutable description of the
//! attribute names a configuration value may hold, with a description for
//! hover text and a fallback subschema for names not listed.

use vstd::prelude::*;
use crate::kinds::{NODE_IDENT, NODE_ATTR_SET, NODE_LET_IN, NODE_LAMBDA, NODE_WITH,
    NODE_ATTRPATH_VALUE};
use crate::node::{Cast, g_text, g_nth, g_nodes, nodes, nth_node};
use crate::cursor::{node_at, valid_path, path_view, g_ancestors, ancestor_paths, node_at_path,
    lemma_ancestors_valid};
use crate::file_types::{FileInfo, FileType};
use crate::tree::{Tree, Elem, GTree, GElem};
use crate::strutil::str_eq_chars;

verus! {

/// One named property of a schema.
pub struct SchemaProp {
    pub name: String,
    pub schema: Schema,
}

/// A schema node: an optional description, the named subschemas, and an
/// optional subschema applied to any name not listed.
pub struct Schema {
    pub description: Option<String>,
    pub properties: Option<Vec<SchemaProp>>,
    pub additional_properties: Option<Box<Schema>>,
}

impl Default for Schema {
    /// The empty schema: no description, no properties, no fallback.
    fn default() -> (r: Schema)
        ensures
            r.description is None,
            r.properties is None,
            r.additional_properties is None,
    {
        Schema { description: None, properties: None, additional_properties: None }
    }
}

/// The property list of a schema, an absent one counting as empty.
pub open spec fn g_props(s: Schema) -> Seq<SchemaProp> {
    match s.properties {
        Some(v) => v@,
        None => Seq::empty(),
    }
}

/// The first property of a given name.
pub open spec fn g_lookup_prop(props: Seq<SchemaProp>, name: Seq<char>) -> Option<SchemaProp>
    decreases props.len(),
{
    if props.len() == 0 {
        None
    } else if props[0].name@ == name {
        Some(props[0])
    } else {
        g_lookup_prop(props.drop_first(), name)
    }
}

/// The fallback subschema, where the schema has one.
pub open spec fn g_additional(s: Schema) -> Option<Schema> {
    match s.additional_properties {
        Some(b) => Some(*b),
        None => None,
    }
}

/// The subschema an attribute-path segment selects: the property of that
/// name where the segment is a bare identifier, else the fallback; `None`
/// stands for the empty schema.
pub open spec fn g_attr_subschema(s: Schema, attr: GTree) -> Option<Schema> {
    if attr.kind == NODE_IDENT {
        match g_lookup_prop(g_props(s), g_text(attr)) {
            Some(p) => Some(p.schema),
            None => g_additional(s),
        }
    } else {
        g_additional(s)
    }
}

impl Schema {
    /// The hover text of this schema node, where it has one.
    pub fn description(&self) -> (r: Option<&str>)
        ensures
            match r {
                Some(d) => self.description is Some && d@ == self.description->0@,
                None => self.description is None,
            },
    {
        match &self.description {
            Some(d) => Some(d.as_str()),
            None => None,
        }
    }

    /// The names of the listed properties, in their held order.
    pub fn properties(&self) -> (r: Vec<String>)
        ensures
            r@.len() == g_props(*self).len(),
            forall|i: int| 0 <= i < r@.len() ==> r@[i]@ == g_props(*self)[i].name@,
    {
        let mut out: Vec<String> = Vec::new();
        match &self.properties {
            None => out,
            Some(props) => {
                let n = props.len();
                let mut i: usize = 0;
                while i < n
                    invariant
                        n == props@.len(),
                        props@ == g_props(*self),
                        i <= n,
                        out@.len() == i,
                        forall|j: int| 0 <= j < i ==> out@[j]@ == g_props(*self)[j].name@,
                    decreases n - i,
                {
                    out.push(props[i].name.clone());
                    i = i + 1;
                }
                out
            }
        }
    }

    /// The subschema a path segment selects, `None` standing for the empty
    /// schema.
    pub fn attr_subschema(&self, attr: &Tree) -> (r: Option<&Schema>)
        ensures
            match r {
                Some(sub) => g_attr_subschema(*self, attr@) == Some(*sub),
                None => g_attr_subschema(*self, attr@) is None,
            },
    {
        if attr.kind == NODE_IDENT {
            let name = crate::node::node_text(attr);
            match &self.properties {
                Some(props) => {
                    let ghost ps = g_props(*self);
                    let n = props.len();
                    let mut i: usize = 0;
                    proof {
                        assert(ps.skip(0) =~= ps);
                    }
                    while i < n
                        invariant
                            n == props@.len(),
                            props@ == g_props(*self),
                            ps == g_props(*self),
                            i <= n,
                            attr@.kind == NODE_IDENT,
                            name@ == g_text(attr@),
                            g_lookup_prop(ps, name@) == g_lookup_prop(ps.skip(i as int), name@),
                        decreases n - i,
                    {
                        proof {
                            assert(ps.skip(i as int)[0] == ps[i as int]);
                            assert(ps.skip(i as int).drop_first() =~= ps.skip(i + 1));
                        }
                        if str_eq_chars(props[i].name.as_str(), &name) {
                            proof {
                                assert(g_lookup_prop(ps.skip(i as int), name@) == Some(
                                    ps[i as int],
                                ));
                                assert(g_attr_subschema(*self, attr@) == Some(
                                    ps[i as int].schema,
                                ));
                            }
                            return Some(&props[i].schema);
                        }
                        i = i + 1;
                    }
                    proof {
                        assert(ps.skip(n as int) =~= Seq::<SchemaProp>::empty());
                    }
                    match &self.additional_properties {
                        Some(b) => Some(b),
                        None => None,
                    }
                }
                None => {
                    proof {
                        assert(g_props(*self) =~= Seq::<SchemaProp>::empty());
                    }
                    match &self.additional_properties {
                        Some(b) => Some(b),
                        None => None,
                    }
                }
            }
        } else {
            match &self.additional_properties {
                Some(b) => Some(b),
                None => None,
            }
        }
    }
}


// ------------------------------------------------------------------
// Navigating the schema alongside the tree.
// ------------------------------------------------------------------
/// The schema root a file classification prescribes: a generic module's or
/// a custom classification's own schema, a flake manifest's manifest schema,
/// and nothing for a source-tree member.
pub fn get_schema_root<'a>(file_info: &'a FileInfo) -> (r: Option<&'a Schema>)
    ensures
        match file_info.file_type {
            FileType::Other { nixpkgs_path: _, schema } => r matches Some(s) && *s == *schema,
            FileType::Custom { lambda_arg: _, schema } => r matches Some(s) && *s == *schema,
            FileType::Flake { locked: _, schema } => r matches Some(s) && *s == *schema,
            FileType::Nixpkgs { nixpkgs_path: _, relative_path: _ } => r is None,
        },
{
    match &file_info.file_type {
        FileType::Other { nixpkgs_path: _, schema } => Some(&**schema),
        FileType::Custom { lambda_arg: _, schema } => Some(&**schema),
        FileType::Flake { locked: _, schema } => Some(&**schema),
        FileType::Nixpkgs { nixpkgs_path: _, relative_path: _ } => None,
    }
}

/// Descending through the subschemas named by a run of path segments; an
/// absent schema stays absent.
pub open spec fn g_descend(s: Option<Schema>, attrs: Seq<GTree>) -> Option<Schema>
    decreases attrs.len(),
{
    if attrs.len() == 0 {
        s
    } else {
        g_descend(
            match s {
                None => None,
                Some(sch) => g_attr_subschema(sch, attrs[0]),
            },
            attrs.drop_first(),
        )
    }
}

/// Whether the child chain element is exactly the value of an
/// attrpath-value binding of the parent, and which binding: the child path
/// must extend the parent's by the binding and its value.
pub open spec fn g_av_of_pair(root: GTree, parent: Seq<int>, child: Seq<int>) -> Option<GTree> {
    if child.len() == parent.len() + 2 && child.take(parent.len() as int) == parent {
        let j = child[parent.len() as int];
        let k = child[parent.len() + 1 as int];
        let pt = node_at(root, parent);
        if 0 <= j < pt.children.len() && pt.children[j] is Node {
            let av = pt.children[j]->Node_0;
            if av.kind == NODE_ATTRPATH_VALUE && crate::context::g_nth_child_index(
                av.children,
                Cast::Expr,
                0,
            ) == Some(k) {
                Some(av)
            } else {
                None
            }
        } else {
            None
        }
    } else {
        None
    }
}

/// The schema at the end of a chain of enclosing expressions, walked from
/// the innermost pair outward: attribute-set steps descend by the binding's
/// path segments, lets, lambdas and withs pass through, and anything else
/// ends the walk with the empty schema.
pub open spec fn g_schema_walk(root: GTree, s: Option<Schema>, chain: Seq<Seq<int>>) -> Option<
    Schema,
>
    decreases chain.len(),
{
    if chain.len() <= 1 {
        s
    } else {
        let child = chain[0];
        let parent = chain[1];
        let pt = node_at(root, parent);
        if pt.kind == NODE_ATTR_SET {
            match g_av_of_pair(root, parent, child) {
                None => None,
                Some(av) => {
                    let s2 = match g_nth(av.children, Cast::Attrpath, 0) {
                        None => s,
                        Some(path) => g_descend(s, g_nodes(path.children, Cast::Attr)),
                    };
                    g_schema_walk(root, s2, chain.drop_first())
                },
            }
        } else if pt.kind == NODE_LET_IN || pt.kind == NODE_LAMBDA || pt.kind == NODE_WITH {
            g_schema_walk(root, s, chain.drop_first())
        } else {
            None
        }
    }
}

/// The schema at a node: the classification's schema root walked down the
/// inclusive ancestor chain; `None` stands for the empty schema.
pub open spec fn g_schema_at(root: GTree, s: Option<Schema>, path: Seq<int>) -> Option<Schema> {
    g_schema_walk(root, s, seq![path] + g_ancestors(root, path))
}

pub fn descend<'a>(s: Option<&'a Schema>, attrs: &Vec<&Tree>) -> (r: Option<&'a Schema>)
    ensures
        opt_schema_view(r) == g_descend(opt_schema_view(s), crate::render::views_of(attrs@)),
{
    let ghost ts = crate::render::views_of(attrs@);
    let n = attrs.len();
    let mut cur = s;
    let mut i: usize = 0;
    proof {
        assert(ts.skip(0) =~= ts);
    }
    while i < n
        invariant
            n == attrs@.len(),
            crate::render::views_of(attrs@) == ts,
            ts.len() == n,
            i <= n,
            g_descend(opt_schema_view(cur), ts.skip(i as int)) == g_descend(
                opt_schema_view(s),
                ts,
            ),
        decreases n - i,
    {
        proof {
            assert(ts.skip(i as int)[0] == ts[i as int]);
            assert(ts.skip(i as int).drop_first() =~= ts.skip(i + 1));
        }
        cur = match cur {
            None => None,
            Some(sch) => sch.attr_subschema(attrs[i]),
        };
        i = i + 1;
    }
    proof {
        assert(ts.skip(n as int) =~= Seq::<GTree>::empty());
    }
    cur
}

pub open spec fn opt_schema_view(s: Option<&Schema>) -> Option<Schema> {
    match s {
        Some(x) => Some(*x),
        None => None,
    }
}

/// The child index of the first expression child of a node.
fn first_expr_child_index(t: &Tree) -> (r: Option<usize>)
    ensures
        match r {
            Some(i) => crate::context::g_nth_child_index(t@.children, Cast::Expr, 0) == Some(
                i as int,
            ),
            None => crate::context::g_nth_child_index(t@.children, Cast::Expr, 0) is None,
        },
{
    let ghost cs = crate::tree::view_elems(t.children@);
    proof {
        crate::tree::lemma_view_elems(t.children@);
        assert(cs == t@.children);
    }
    let n = t.children.len();
    let mut i: usize = 0;
    proof {
        assert(cs.skip(0) =~= cs);
    }
    while i < n
        invariant
            n == t.children@.len(),
            cs == crate::tree::view_elems(t.children@),
            cs == t@.children,
            cs.len() == n,
            i <= n,
            match crate::context::g_nth_child_index(cs.skip(i as int), Cast::Expr, 0) {
                Some(rel) => crate::context::g_nth_child_index(cs, Cast::Expr, 0) == Some(
                    rel + i,
                ),
                None => crate::context::g_nth_child_index(cs, Cast::Expr, 0) is None,
            },
        decreases n - i,
    {
        proof {
            crate::tree::lemma_view_elems(t.children@);
            assert(cs.skip(i as int)[0] == cs[i as int]);
            assert(cs.skip(i as int).drop_first() =~= cs.skip(i + 1));
        }
        match &t.children[i] {
            Elem::Node(sub) => {
                if crate::node::cast_ok(Cast::Expr, sub.kind) {
                    proof {
                        assert(crate::context::g_nth_child_index(cs.skip(i as int), Cast::Expr, 0)
                            == Some(0int));
                    }
                    return Some(i);
                }
            }
            Elem::Token(_) => {}
        }
        i = i + 1;
    }
    proof {
        assert(cs.skip(n as int) =~= Seq::<GElem>::empty());
    }
    None
}

/// The schema governing the node at a path: the classification's root
/// schema walked down the enclosing attribute-set bindings; `None` stands
/// for the empty schema, which offers nothing.
pub fn get_schema<'a>(
    root: &Tree,
    path: &Vec<usize>,
    schema_root: Option<&'a Schema>,
) -> (r: Option<&'a Schema>)
    requires
        valid_path(root@, path_view(path@)),
    ensures
        opt_schema_view(r) == g_schema_at(root@, opt_schema_view(schema_root), path_view(path@)),
{
    let anc = ancestor_paths(root, path);
    let ghost gchain = seq![path_view(path@)] + g_ancestors(root@, path_view(path@));
    let mut chain: Vec<Vec<usize>> = Vec::new();
    chain.push(crate::cursor::clone_path(path));
    let m = anc.len();
    let mut k: usize = 0;
    while k < m
        invariant
            m == anc@.len(),
            k <= m,
            chain@.len() == k + 1,
            path_view(chain@[0]@) == path_view(path@),
            forall|j: int| 1 <= j < chain@.len() ==> chain@[j]@ == anc@[j - 1]@,
        decreases m - k,
    {
        chain.push(crate::cursor::clone_path(&anc[k]));
        k = k + 1;
    }
    proof {
        lemma_ancestors_valid(root@, path_view(path@));
        assert(crate::context::chain_view(chain@) =~= gchain);
        assert forall|j: int| 0 <= j < chain@.len() implies valid_path(
            root@,
            path_view(chain@[j]@),
        ) by {
            if j >= 1 {
                assert(chain@[j]@ == anc@[j - 1]@);
                assert(path_view(anc@[j - 1]@) == g_ancestors(root@, path_view(path@))[j - 1]);
                assert(valid_path(root@, g_ancestors(root@, path_view(path@))[j - 1]));
            } else {
                assert(path_view(chain@[0]@) == path_view(path@));
            }
        }
    }
    let n = chain.len();
    let mut cur = schema_root;
    let mut i: usize = 0;
    proof {
        assert(gchain.skip(0) =~= gchain);
    }
    while i + 1 < n
        invariant
            n == chain@.len(),
            gchain.len() == n,
            gchain == crate::context::chain_view(chain@),
            gchain == seq![path_view(path@)] + g_ancestors(root@, path_view(path@)),
            valid_path(root@, path_view(path@)),
            forall|j: int| 0 <= j < n ==> valid_path(root@, path_view(chain@[j]@)),
            forall|j: int| 0 <= j < n ==> gchain[j] == path_view(chain@[j]@),
            n >= 1,
            i < n,
            g_schema_walk(root@, opt_schema_view(cur), gchain.skip(i as int)) == g_schema_walk(
                root@,
                opt_schema_view(schema_root),
                gchain,
            ),
        decreases n - i,
    {
        proof {
            assert(gchain.skip(i as int)[0] == gchain[i as int]);
            assert(gchain.skip(i as int)[1] == gchain[i + 1]);
            assert(gchain.skip(i as int).drop_first() =~= gchain.skip(i + 1));
        }
        let parent = match node_at_path(root, &chain[i + 1]) {
            Some(t) => t,
            None => {
                proof {
                    assert(false);
                }
                root
            }
        };
        if parent.kind == NODE_ATTR_SET {
            // the child must be the value of one of the parent's bindings
            let cp = &chain[i];
            let pp = &chain[i + 1];
            proof {
                assert(gchain[i as int] == path_view(cp@));
                assert(gchain[i + 1] == path_view(pp@));
                assert(gchain[i as int].len() == cp@.len());
                assert(gchain[i + 1].len() == pp@.len());
            }
            if !(cp.len() >= 2 && cp.len() - 2 == pp.len()) {
                proof {
                    assert(gchain[i as int].len() != gchain[i + 1].len() + 2);
                    assert(g_av_of_pair(root@, gchain[i + 1], gchain[i as int]) is None);
                    assert(gchain.skip(i as int).len() >= 2);
                    assert(g_schema_walk(root@, opt_schema_view(cur), gchain.skip(i as int)) is None);
                }
                return None;
            }
            proof {
                assert(gchain[i as int].len() == gchain[i + 1].len() + 2);
            }
            let mut prefix_ok = pp.len() < cp.len();
            let mut q: usize = 0;
            while q < pp.len()
                invariant
                    cp@.len() == pp@.len() + 2,
                    q <= pp@.len(),
                    prefix_ok == (pp@.len() < cp@.len() && (forall|w: int|
                        0 <= w < q ==> cp@[w] == pp@[w])),
                decreases pp@.len() - q,
            {
                if cp[q] != pp[q] {
                    prefix_ok = false;
                    proof {
                        assert(cp@[q as int] != pp@[q as int]);
                    }
                }
                q = q + 1;
            }
            if !prefix_ok {
                proof {
                    assert(exists|w: int| 0 <= w < pp@.len() && cp@[w] != pp@[w]);
                    let w = choose|w: int| 0 <= w < pp@.len() && cp@[w] != pp@[w];
                    assert(path_view(cp@).take(pp@.len() as int)[w] == cp@[w] as int);
                    assert(path_view(pp@)[w] == pp@[w] as int);
                    assert(path_view(cp@).take(pp@.len() as int)[w] != path_view(pp@)[w]);
                    assert(path_view(cp@).take(pp@.len() as int) != path_view(pp@));
                    assert(g_av_of_pair(root@, gchain[i + 1], gchain[i as int]) is None);
                }
                return None;
            }
            proof {
                assert forall|w: int| 0 <= w < pp@.len() implies path_view(cp@).take(
                    pp@.len() as int,
                )[w] == path_view(pp@)[w] by {
                    assert(cp@[w] == pp@[w]);
                }
                assert(path_view(cp@).take(pp@.len() as int) =~= path_view(pp@));
            }
            let j = cp[pp.len()];
            let kk = cp[pp.len() + 1];
            proof {
                assert(gchain[i as int][gchain[i + 1].len() as int] == j as int);
                assert(gchain[i as int][gchain[i + 1].len() + 1 as int] == kk as int);
                crate::tree::lemma_view_elems(parent.children@);
                assert(node_at(root@, gchain[i + 1]).children.len() == parent.children@.len());
            }
            if j >= parent.children.len() {
                proof {
                    assert(g_av_of_pair(root@, gchain[i + 1], gchain[i as int]) is None);
                    assert(gchain.skip(i as int).len() >= 2);
                    assert(g_schema_walk(root@, opt_schema_view(cur), gchain.skip(i as int)) is None);
                }
                return None;
            }
            proof {
                assert(node_at(root@, gchain[i + 1]).children[j as int] == crate::tree::view_elem(
                    parent.children@[j as int],
                ));
            }
            match &parent.children[j] {
                Elem::Node(av) => {
                    if av.kind != NODE_ATTRPATH_VALUE {
                        proof {
                            assert(g_av_of_pair(root@, gchain[i + 1], gchain[i as int]) is None);
                        }
                        return None;
                    }
                    let val_idx = first_expr_child_index(av);
                    let matches_value = match val_idx {
                        Some(vi) => vi == kk,
                        None => false,
                    };
                    if !matches_value {
                        proof {
                            assert(g_av_of_pair(root@, gchain[i + 1], gchain[i as int]) is None);
                        }
                        return None;
                    }
                    proof {
                        assert(g_av_of_pair(root@, gchain[i + 1], gchain[i as int]) == Some(av@));
                    }
                    match nth_node(av, Cast::Attrpath, 0) {
                        None => {}
                        Some(apath) => {
                            let attrs = nodes(apath, Cast::Attr);
                            proof {
                                assert(crate::render::views_of(attrs@) =~= g_nodes(
                                    apath@.children,
                                    Cast::Attr,
                                ));
                            }
                            cur = descend(cur, &attrs);
                        }
                    }
                }
                Elem::Token(_) => {
                    proof {
                        assert(g_av_of_pair(root@, gchain[i + 1], gchain[i as int]) is None);
                    }
                    return None;
                }
            }
        } else if parent.kind == NODE_LET_IN || parent.kind == NODE_LAMBDA || parent.kind
            == NODE_WITH {
        } else {
            return None;
        }
        i = i + 1;
    }
    proof {
        if n > 0 {
            assert(gchain.skip(i as int).len() <= 1);
        }
    }
    cur
}

} // verus!

//! A small evaluation core over interned values: parsed files, environments
//! of named values, and evaluation of the expression forms it supports —
//! integer literals, with an exact diagnostic when a literal does not fit
//! the value type, and parenthesised expressions.

use vstd::prelude::*;
use crate::kinds::{NODE_LITERAL, NODE_PAREN, TOKEN_INTEGER};
use crate::node::{Cast, TokClass, g_nth, g_first_token, g_size, g_size_opt, g_size_elems,
    lemma_g_nth_size, nth_node, first_token};
use crate::render::opt_view;
use crate::tree::{Tree, GTree, clone_tree, parse as parse_tree, spec_parse};
use crate::strutil::{push_str_chars, chars_to_string};

verus! {

/// A file under evaluation: its path and its source text.
pub struct FileId {
    pub path: String,
    pub contents: String,
}

/// A handle to an interned value.
#[derive(Clone, Copy, PartialEq, Eq, Structural, Debug)]
pub struct ValueId {
    pub id: usize,
}

/// A handle to an interned expression.
#[derive(Clone, Copy, PartialEq, Eq, Structural, Debug)]
pub struct ExprId {
    pub id: usize,
}

/// A handle to an interned environment.
#[derive(Clone, Copy, PartialEq, Eq, Structural, Debug)]
pub struct EnvId {
    pub id: usize,
}

/// A handle to an interned binding list.
#[derive(Clone, Copy, PartialEq, Eq, Structural, Debug)]
pub struct BindingsId {
    pub id: usize,
}

/// A value: an integer, a suspended expression in an environment, or an
/// error value.
#[derive(Clone, Copy, PartialEq, Eq, Structural, Debug)]
pub enum ValueKind {
    Int(i64),
    Thunk(ExprId, EnvId),
    Error,
}

/// An environment: its own bindings and the enclosing environment.
#[derive(Clone, Copy, PartialEq, Eq, Structural, Debug)]
pub struct Env {
    pub bindings: BindingsId,
    pub up: Option<EnvId>,
}

/// One evaluation problem found, at an expression, with its message.
pub struct Diagnostic {
    pub expr: ExprId,
    pub message: String,
}

impl Diagnostic {
    pub fn new(expr: ExprId, message: String) -> (r: Diagnostic)
        ensures
            r.expr == expr,
            r.message == message,
    {
        Diagnostic { expr, message }
    }
}

/// The evaluation database: interned values, expressions, environments and
/// binding lists.  Handles index into it; environments only point upward at
/// older environments, so a lookup always terminates.
pub struct Db {
    pub values: Vec<ValueKind>,
    pub exprs: Vec<Option<Tree>>,
    pub envs: Vec<Env>,
    pub bindings: Vec<Vec<(String, ValueId)>>,
}

/// Well-formedness: every upward pointer goes to an older environment and
/// every bindings handle is in range.
pub open spec fn db_wf(db: Db) -> bool {
    forall|i: int|
        0 <= i < db.envs@.len() ==> (#[trigger] db.envs@[i]).bindings.id < db.bindings@.len() && (
        match db.envs@[i].up {
            Some(e) => e.id < i,
            None => true,
        })
}

impl Db {
    /// An empty database.
    pub fn new() -> (r: Db)
        ensures
            r.values@.len() == 0,
            r.exprs@.len() == 0,
            r.envs@.len() == 0,
            r.bindings@.len() == 0,
            db_wf(r),
    {
        Db { values: Vec::new(), exprs: Vec::new(), envs: Vec::new(), bindings: Vec::new() }
    }

    /// Interns a value.
    pub fn intern_value(&mut self, v: ValueKind) -> (r: ValueId)
        ensures
            final(self).values@ == old(self).values@.push(v),
            final(self).exprs@ == old(self).exprs@,
            final(self).envs@ == old(self).envs@,
            final(self).bindings@ == old(self).bindings@,
            r.id == old(self).values@.len(),
    {
        let id = self.values.len();
        self.values.push(v);
        ValueId { id }
    }

    /// Interns a binding list.
    pub fn intern_bindings(&mut self, b: Vec<(String, ValueId)>) -> (r: BindingsId)
        ensures
            final(self).bindings@ == old(self).bindings@.push(b),
            final(self).values@ == old(self).values@,
            final(self).exprs@ == old(self).exprs@,
            final(self).envs@ == old(self).envs@,
            r.id == old(self).bindings@.len(),
    {
        let id = self.bindings.len();
        self.bindings.push(b);
        BindingsId { id }
    }

    /// Interns an environment; its parts must already be interned.
    pub fn intern_env(&mut self, bindings: BindingsId, up: Option<EnvId>) -> (r: EnvId)
        requires
            db_wf(*old(self)),
            bindings.id < old(self).bindings@.len(),
            match up {
                Some(e) => e.id < old(self).envs@.len(),
                None => true,
            },
        ensures
            final(self).envs@ == old(self).envs@.push(Env { bindings, up }),
            final(self).values@ == old(self).values@,
            final(self).exprs@ == old(self).exprs@,
            final(self).bindings@ == old(self).bindings@,
            r.id == old(self).envs@.len(),
            db_wf(*final(self)),
    {
        let id = self.envs.len();
        self.envs.push(Env { bindings, up });
        proof {
            assert forall|i: int|
                0 <= i < self.envs@.len() implies (#[trigger] self.envs@[i]).bindings.id
                < self.bindings@.len() && (match self.envs@[i].up {
                Some(e) => e.id < i,
                None => true,
            }) by {
                if i < old(self).envs@.len() {
                    assert(self.envs@[i] == old(self).envs@[i]);
                }
            }
        }
        EnvId { id }
    }

    /// The base environment: empty bindings, no parent.
    pub fn base_env(&mut self) -> (r: EnvId)
        requires
            db_wf(*old(self)),
        ensures
            db_wf(*final(self)),
            r.id < final(self).envs@.len(),
            final(self).values@ == old(self).values@,
            final(self).exprs@ == old(self).exprs@,
    {
        let b = self.intern_bindings(Vec::new());
        self.intern_env(b, None)
    }

    /// Parses a file and interns its outermost expression.
    pub fn parse(&mut self, file: &FileId) -> (r: ExprId)
        ensures
            final(self).exprs@.len() == old(self).exprs@.len() + 1,
            final(self).values@ == old(self).values@,
            final(self).envs@ == old(self).envs@,
            final(self).bindings@ == old(self).bindings@,
            r.id == old(self).exprs@.len(),
            opt_tree_view(final(self).exprs@[r.id as int]) == g_nth(
                spec_parse(file.contents@).children,
                Cast::Expr,
                0,
            ),
    {
        let root = parse_tree(file.contents.as_str());
        let expr: Option<Tree> = match nth_node(&root, Cast::Expr, 0) {
            Some(e) => Some(clone_tree(e)),
            None => None,
        };
        let id = self.exprs.len();
        self.exprs.push(expr);
        ExprId { id }
    }
}

/// The model of a stored optional expression.
pub open spec fn opt_tree_view(o: Option<Tree>) -> Option<GTree> {
    match o {
        Some(t) => Some(t@),
        None => None,
    }
}

// ------------------------------------------------------------------
// Integer literals.
// ------------------------------------------------------------------
pub open spec fn is_digit(c: char) -> bool {
    '0' <= c && c <= '9'
}

pub open spec fn digit_val(c: char) -> int {
    c as int - '0' as int
}

/// Scanning a digit string left to right with an accumulator, exactly as the
/// standard integer parser does: a non-digit fails at once, and an
/// accumulator outgrowing the value type fails with the overflow message.
pub open spec fn spec_scan_int(s: Seq<char>, acc: int) -> Result<int, Seq<char>>
    decreases s.len(),
{
    if s.len() == 0 {
        Ok(acc)
    } else if !is_digit(s[0]) {
        Err("invalid digit found in string"@)
    } else if acc * 10 + digit_val(s[0]) > i64::MAX {
        Err("number too large to fit in target type"@)
    } else {
        spec_scan_int(s.drop_first(), acc * 10 + digit_val(s[0]))
    }
}

/// What parsing an integer literal's text yields: the value, or the exact
/// message the standard parser gives.
pub open spec fn spec_parse_int(s: Seq<char>) -> Result<int, Seq<char>> {
    if s.len() == 0 {
        Err("cannot parse integer from empty string"@)
    } else {
        spec_scan_int(s, 0)
    }
}

/// Parses a digit string into a 64-bit integer, with the standard parser's
/// messages on failure.
pub fn parse_int(text: &Vec<char>) -> (r: Result<i64, String>)
    ensures
        match r {
            Ok(v) => spec_parse_int(text@) == Ok::<int, Seq<char>>(v as int),
            Err(m) => spec_parse_int(text@) matches Err(gm) && m@ == gm,
        },
{
    let n = text.len();
    if n == 0 {
        let mut v: Vec<char> = Vec::new();
        push_str_chars("cannot parse integer from empty string", &mut v);
        return Err(chars_to_string(&v));
    }
    let mut acc: i64 = 0;
    let mut i: usize = 0;
    proof {
        assert(text@.skip(0) =~= text@);
    }
    while i < n
        invariant
            n == text@.len(),
            i <= n,
            0 <= acc,
            spec_scan_int(text@, 0) == spec_scan_int(text@.skip(i as int), acc as int),
        decreases n - i,
    {
        proof {
            assert(text@.skip(i as int)[0] == text@[i as int]);
            assert(text@.skip(i as int).drop_first() =~= text@.skip(i + 1));
        }
        let c = text[i];
        if !(c >= '0' && c <= '9') {
            let mut v: Vec<char> = Vec::new();
            push_str_chars("invalid digit found in string", &mut v);
            return Err(chars_to_string(&v));
        }
        let d = (c as u32 - '0' as u32) as i64;
        proof {
            assert(d == digit_val(text@[i as int]));
            assert(0 <= d <= 9);
        }
        if acc > (i64::MAX - d) / 10 {
            proof {
                assert(acc * 10 + d > i64::MAX) by (nonlinear_arith)
                    requires
                        acc > (i64::MAX - d) / 10,
                        0 <= d <= 9,
                        acc >= 0,
                ;
            }
            let mut v: Vec<char> = Vec::new();
            push_str_chars("number too large to fit in target type", &mut v);
            return Err(chars_to_string(&v));
        }
        proof {
            assert(acc * 10 + d <= i64::MAX) by (nonlinear_arith)
                requires
                    acc <= (i64::MAX - d) / 10,
                    0 <= d <= 9,
                    acc >= 0,
            ;
            assert(acc * 10 >= 0) by (nonlinear_arith)
                requires
                    acc >= 0,
            ;
        }
        acc = acc * 10 + d;
        i = i + 1;
    }
    proof {
        assert(text@.skip(n as int) =~= Seq::<char>::empty());
    }
    Ok(acc)
}

// ------------------------------------------------------------------
// Evaluation.
// ------------------------------------------------------------------
/// The expression shapes this core evaluates: nothing at all, an integer
/// literal, or parentheses around an evaluable expression.
pub open spec fn g_evalable(o: Option<GTree>) -> bool
    decreases g_size_opt(o), 1int,
{
    match o {
        None => true,
        Some(t) => {
            proof {
                lemma_g_nth_size(t.children, Cast::Expr, 0);
                assert(g_size(t) == 1 + g_size_elems(t.children));
            }
            if t.kind == NODE_LITERAL {
                g_first_token(t.children, TokClass::Kind(TOKEN_INTEGER)) is Some
            } else if t.kind == NODE_PAREN {
                g_evalable(g_nth(t.children, Cast::Expr, 0))
            } else {
                false
            }
        },
    }
}

/// The outcome of evaluating a supported expression: an integer, or an
/// error, possibly with a diagnostic message.
pub enum GOutcome {
    Int(i64),
    Fail(Option<Seq<char>>),
}

pub open spec fn g_eval(o: Option<GTree>) -> GOutcome
    decreases g_size_opt(o), 1int,
{
    match o {
        None => GOutcome::Fail(None),
        Some(t) => {
            proof {
                lemma_g_nth_size(t.children, Cast::Expr, 0);
                assert(g_size(t) == 1 + g_size_elems(t.children));
            }
            if t.kind == NODE_LITERAL {
                match g_first_token(t.children, TokClass::Kind(TOKEN_INTEGER)) {
                    Some(tok) => match spec_parse_int(tok.text) {
                        Ok(v) => GOutcome::Int(v as i64),
                        Err(m) => GOutcome::Fail(Some(m)),
                    },
                    None => GOutcome::Fail(None),
                }
            } else if t.kind == NODE_PAREN {
                g_eval(g_nth(t.children, Cast::Expr, 0))
            } else {
                GOutcome::Fail(None)
            }
        },
    }
}

fn eval_tree(t: Option<&Tree>, diags_out: &mut Option<String>) -> (r: Result<i64, bool>)
    requires
        g_evalable(opt_view(t)),
        (*old(diags_out)) is None,
    ensures
        match g_eval(opt_view(t)) {
            GOutcome::Int(v) => r == Ok::<i64, bool>(v) && (*final(diags_out)) is None,
            GOutcome::Fail(m) => r is Err && (match m {
                Some(msg) => (*final(diags_out)) matches Some(s) && s@ == msg,
                None => (*final(diags_out)) is None,
            }),
        },
    decreases g_size_opt(opt_view(t)), 1int,
{
    match t {
        None => Err(false),
        Some(node) => {
            proof {
                lemma_g_nth_size(node@.children, Cast::Expr, 0);
                assert(g_size(node@) == 1 + g_size_elems(node@.children));
            }
            if node.kind == NODE_LITERAL {
                match first_token(node, TokClass::Kind(TOKEN_INTEGER)) {
                    Some(tok) => {
                        let mut text: Vec<char> = Vec::new();
                        push_str_chars(tok.text.as_str(), &mut text);
                        proof {
                            assert(text@ =~= tok.text@);
                        }
                        match parse_int(&text) {
                            Ok(v) => Ok(v),
                            Err(m) => {
                                *diags_out = Some(m);
                                Err(true)
                            }
                        }
                    }
                    None => {
                        proof {
                            assert(false);
                        }
                        Err(false)
                    }
                }
            } else {
                // parentheses: evaluate the inner expression
                eval_tree(nth_node(node, Cast::Expr, 0), diags_out)
            }
        }
    }
}

/// Evaluates a parsed expression in an environment: the supported shapes
/// yield their integer or error value, and an overflowing literal adds one
/// diagnostic with the standard parser's message.
pub fn eval(db: &mut Db, expr_id: ExprId, _env: EnvId, diags: &mut Vec<Diagnostic>) -> (r:
    ValueId)
    requires
        expr_id.id < old(db).exprs@.len(),
        g_evalable(opt_tree_view(old(db).exprs@[expr_id.id as int])),
    ensures
        final(db).values@.len() == old(db).values@.len() + 1,
        final(db).exprs@ == old(db).exprs@,
        final(db).envs@ == old(db).envs@,
        final(db).bindings@ == old(db).bindings@,
        r.id == old(db).values@.len(),
        match g_eval(opt_tree_view(old(db).exprs@[expr_id.id as int])) {
            GOutcome::Int(v) => final(db).values@.last() == ValueKind::Int(v) && final(diags)@
                == old(diags)@,
            GOutcome::Fail(m) => final(db).values@.last() == ValueKind::Error && (match m {
                Some(msg) => final(diags)@.len() == old(diags)@.len() + 1
                    && final(diags)@.last().expr == expr_id
                    && final(diags)@.last().message@ == msg
                    && final(diags)@.take(old(diags)@.len() as int) == old(diags)@,
                None => final(diags)@ == old(diags)@,
            }),
        },
{
    let mut message: Option<String> = None;
    let outcome = match &self_expr(db, expr_id) {
        Some(t) => eval_tree(Some(t), &mut message),
        None => eval_tree(None, &mut message),
    };
    match outcome {
        Ok(v) => db.intern_value(ValueKind::Int(v)),
        Err(_) => {
            match message {
                Some(m) => {
                    diags.push(Diagnostic::new(expr_id, m));
                    proof {
                        assert(diags@.take(old(diags)@.len() as int) =~= old(diags)@);
                    }
                }
                None => {}
            }
            db.intern_value(ValueKind::Error)
        }
    }
}

fn self_expr<'a>(db: &'a Db, expr_id: ExprId) -> (r: &'a Option<Tree>)
    requires
        expr_id.id < db.exprs@.len(),
    ensures
        *r == db.exprs@[expr_id.id as int],
{
    &db.exprs[expr_id.id]
}

// ------------------------------------------------------------------
// Environments.
// ------------------------------------------------------------------
/// The value a binding list holds for a key: the first entry of the name.
pub open spec fn g_lookup_bindings(bs: Seq<(String, ValueId)>, key: Seq<char>) -> Option<ValueId>
    decreases bs.len(),
{
    if bs.len() == 0 {
        None
    } else if bs[0].0@ == key {
        Some(bs[0].1)
    } else {
        g_lookup_bindings(bs.drop_first(), key)
    }
}

/// The value an environment chain holds for a key: the innermost
/// environment whose bindings name it.
pub open spec fn g_lookup_env(db: Db, env: EnvId, key: Seq<char>) -> Option<ValueId>
    decreases env.id,
{
    if env.id < db.envs@.len() && db_wf(db) {
        let e = db.envs@[env.id as int];
        match g_lookup_bindings(db.bindings@[e.bindings.id as int]@, key) {
            Some(v) => Some(v),
            None => match e.up {
                Some(up) => g_lookup_env(db, up, key),
                None => None,
            },
        }
    } else {
        None
    }
}

/// The first binding of the key in one binding list.
pub fn lookup_bindings(db: &Db, bindings_id: BindingsId, key: &Vec<char>) -> (r: Option<ValueId>)
    requires
        bindings_id.id < db.bindings@.len(),
    ensures
        r == g_lookup_bindings(db.bindings@[bindings_id.id as int]@, key@),
{
    let bs = &db.bindings[bindings_id.id];
    let ghost gbs = bs@;
    let n = bs.len();
    let mut i: usize = 0;
    proof {
        assert(gbs.skip(0) =~= gbs);
    }
    while i < n
        invariant
            n == bs@.len(),
            bs@ == gbs,
            gbs == db.bindings@[bindings_id.id as int]@,
            i <= n,
            g_lookup_bindings(gbs, key@) == g_lookup_bindings(gbs.skip(i as int), key@),
        decreases n - i,
    {
        proof {
            assert(gbs.skip(i as int)[0] == gbs[i as int]);
            assert(gbs.skip(i as int).drop_first() =~= gbs.skip(i + 1));
        }
        if crate::strutil::str_eq_chars(bs[i].0.as_str(), key) {
            return Some(bs[i].1);
        }
        i = i + 1;
    }
    proof {
        assert(gbs.skip(n as int) =~= Seq::<(String, ValueId)>::empty());
    }
    None
}

/// The innermost binding of the key along the environment chain.
pub fn lookup_env(db: &Db, env_id: EnvId, key: &Vec<char>) -> (r: Option<ValueId>)
    requires
        db_wf(*db),
        env_id.id < db.envs@.len(),
    ensures
        r == g_lookup_env(*db, env_id, key@),
    decreases env_id.id,
{
    let e = db.envs[env_id.id];
    match lookup_bindings(db, e.bindings, key) {
        Some(v) => Some(v),
        None => {
            match e.up {
                Some(up) => lookup_env(db, up, key),
                None => None,
            }
        }
    }
}

} // verus!

use std::sync::Arc;

use nix_analyzer::completion::{get_completion_strategy, merge_completions};
use nix_analyzer::context::in_context;
use nix_analyzer::cursor::locate_cursor;
use nix_analyzer::escape::{escape_attr, escape_string, EscapeStringFragment};
use nix_analyzer::eval::{eval, lookup_bindings, lookup_env, Db, FileId, ValueKind};
use nix_analyzer::fetcher::{process_input, BlockingFetcher, FetcherInput};
use nix_analyzer::file_types::{FileInfo, FileType};
use nix_analyzer::hover::{get_hover_strategy, hover_markdown, HoverOrigin};
use nix_analyzer::kinds::{NODE_ERROR, TOKEN_ERROR};
use nix_analyzer::lambda_arg::get_root_lambda;
use nix_analyzer::node::{nth_node, Cast};
use nix_analyzer::render::{safe_stringify, safe_stringify_opt};
use nix_analyzer::schema::{Schema, SchemaProp};
use nix_analyzer::scopes::{find_variable, FoundVariable};
use nix_analyzer::testing::parse_test_input;
use nix_analyzer::tree::{parse, Elem, Tree};
use nix_analyzer::walk_attrs::safe_stringify_flake;

fn empty_schema() -> Schema {
    Schema { description: None, properties: None, additional_properties: None }
}

fn test_file_info() -> FileInfo {
    FileInfo {
        file_type: FileType::Custom {
            lambda_arg: "{}".to_string(),
            schema: Arc::new(empty_schema()),
        },
        path: "/test/path".to_string(),
    }
}

fn tree_has_error(t: &Tree) -> bool {
    if t.kind == NODE_ERROR {
        return true;
    }
    for c in &t.children {
        match c {
            Elem::Node(sub) => {
                if tree_has_error(sub) {
                    return true;
                }
            }
            Elem::Token(tok) => {
                if tok.kind == TOKEN_ERROR {
                    return true;
                }
            }
        }
    }
    false
}

fn render(source: &str) -> String {
    let root = parse(source);
    safe_stringify_opt(nth_node(&root, Cast::Expr, 0), "/base_path")
}

fn check_idempotent(source: &str) {
    let once = render(source);
    let reparsed = parse(&once);
    assert!(!tree_has_error(&reparsed), "render produced unparseable text: {}", once);
    let twice = render(&once);
    assert_eq!(once, twice);
    let thrice = render(&twice);
    assert_eq!(twice, thrice);
}

#[test]
fn render_idempotent_sets_and_lists() {
    check_idempotent("{ x = y; y = z; }");
    check_idempotent("rec { a = 1; }");
    check_idempotent("[ a b c ]");
    check_idempotent("{ inherit a; inherit (x) b; }");
    check_idempotent("{ x = { y = [ 1 2 ]; }; }");
}

#[test]
fn render_reparses_without_errors() {
    // kinds that render inside their own parentheses are not stable under
    // repeated parse/render rounds (each round reads the written pair as a
    // parenthesis node and adds another), but one rendering always
    // reparses cleanly
    for source in [
        "x: y: x",
        "let x = {a=1;b=2;}; in x",
        "assert x; y",
        "a b c",
        "1 -> 2 && x",
        "x.a.b or c",
        "with pkgs; x",
        "-n - 1",
        "x ? a.b",
        "{}: a",
        "(hello)",
        "let { body = x; }",
        "1.5 -> 2 || -3 && 4 == 5 || 6 < 7 || 8 // !9 + 10 * 11 ++ 12 13 ? a // 1",
    ] {
        let once = render(source);
        let reparsed = parse(&once);
        assert!(!tree_has_error(&reparsed), "render produced unparseable text: {}", once);
    }
}

#[test]
fn render_legacy_let() {
    assert_eq!(render("let { body = x; }"), "(let { body = x; })");
}

#[test]
fn render_idempotent_atoms() {
    check_idempotent("hello");
    check_idempotent("123");
    check_idempotent("\"a string\"");
    check_idempotent("/etc/passwd");
    check_idempotent("");
}

#[test]
fn render_idempotent_broken_inputs() {
    check_idempotent("{ x.y = }");
    check_idempotent("/home/");
    check_idempotent("{ services.resolved. networking.useDHCP = false; }");
    check_idempotent("[ a b with c; d e]");
    check_idempotent("{ a = 1, b = 2}");
}

#[test]
fn shadowing_innermost_binding_wins() {
    let source = "let x = 1; in let x = 2; in x";
    let root = parse(source);
    let loc = locate_cursor(&root, 28).expect("cursor not located");
    let name: Vec<char> = "x".chars().collect();
    let found = find_variable(&root, &loc.expr, &name).expect("x not resolved");
    match found {
        FoundVariable::AttrpathValue(span) => {
            // the binding `x = 2;` starts at byte 18; `x = 1;` starts at 4
            assert_eq!(span.start, 18);
        }
        other => panic!("resolved to the wrong binding form: {:?}", other),
    }
}

#[test]
fn context_round_trip_let() {
    let source = "let x = {a=1;b=2;}; in x";
    let root = parse(source);
    let loc = locate_cursor(&root, 23).expect("cursor not located");
    let text = in_context(&root, &loc.expr, &test_file_info());
    assert_eq!(text, "(let x = { a = 1; b = 2; }; in (x))");
}

#[test]
fn completion_select_of_let() {
    // cursor on the `b` of `x.b`
    let source = "let x = {a = 2; \"your mom\" = 3;}; in x.b";
    let strategy = get_completion_strategy(source, &test_file_info(), 39)
        .expect("no completion strategy");
    assert_eq!(
        strategy.attrs_expression.as_deref(),
        Some("(let x = { a = 2; \"your mom\" = 3; }; in (x))")
    );
    assert_eq!(strategy.variables.len(), 0);
    // the evaluator reports the set's attribute names; merging and sorting
    // yields exactly them
    let from_eval = vec!["a".to_string(), "your mom".to_string()];
    let merged = merge_completions(&from_eval, &strategy.variables);
    assert_eq!(merged, vec!["a".to_string(), "your mom".to_string()]);
}

#[test]
fn eval_too_large_integer_literal() {
    let mut db = Db::new();
    let file = FileId {
        path: "/default.nix".to_string(),
        contents: "9999999999999999999999".to_string(),
    };
    let expr = db.parse(&file);
    let env = db.base_env();
    let mut diags = Vec::new();
    let v = eval(&mut db, expr, env, &mut diags);
    assert!(matches!(db.values[v.id], ValueKind::Error));
    assert_eq!(diags.len(), 1);
    assert_eq!(diags[0].message, "number too large to fit in target type");
    assert_eq!(diags[0].expr, expr);
}

#[test]
fn test_eval_int() {
    let mut db = Db::new();
    let file = FileId { path: "/default.nix".to_string(), contents: "2".to_string() };
    let expr = db.parse(&file);
    let env = db.base_env();
    let mut diags = Vec::new();
    let v = eval(&mut db, expr, env, &mut diags);
    assert!(matches!(db.values[v.id], ValueKind::Int(2)));
    assert_eq!(diags.len(), 0);
}

#[test]
fn test_eval_empty() {
    let mut db = Db::new();
    let file = FileId { path: "/default.nix".to_string(), contents: "".to_string() };
    let expr = db.parse(&file);
    let env = db.base_env();
    let mut diags = Vec::new();
    let v = eval(&mut db, expr, env, &mut diags);
    assert!(matches!(db.values[v.id], ValueKind::Error));
    assert_eq!(diags.len(), 0);
}

#[test]
fn test_bindings() {
    let mut db = Db::new();
    let a = db.intern_value(ValueKind::Int(10));
    let bindings = db.intern_bindings(vec![("Hello".to_string(), a)]);
    let key: Vec<char> = "Hello".chars().collect();
    let v = lookup_bindings(&db, bindings, &key);
    assert_eq!(v, Some(a));
}

#[test]
fn test_env_bindings() {
    let mut db = Db::new();
    let one = db.intern_value(ValueKind::Int(1));
    let two = db.intern_value(ValueKind::Int(2));
    let a = db.intern_bindings(vec![("x".to_string(), one)]);
    let b = db.intern_bindings(vec![("x".to_string(), two), ("y".to_string(), two)]);
    let envb = db.intern_env(b, None);
    let enva = db.intern_env(a, Some(envb));
    let x: Vec<char> = "x".chars().collect();
    let y: Vec<char> = "y".chars().collect();
    let z: Vec<char> = "z".chars().collect();
    assert_eq!(lookup_env(&db, enva, &x), Some(one));
    assert_eq!(lookup_env(&db, enva, &y), Some(two));
    assert_eq!(lookup_env(&db, enva, &z), None);
}

#[test]
fn completion_lambda_params() {
    let source = "{a, b} @ c: ";
    let strategy = get_completion_strategy(source, &test_file_info(), 12)
        .expect("no completion strategy");
    let merged = merge_completions(&Vec::new(), &strategy.variables);
    let expected: Vec<String> = [
        "a", "abort", "b", "baseNameOf", "break", "builtins", "c", "derivation",
        "derivationStrict", "dirOf", "false", "fetchGit", "fetchMercurial", "fetchTarball",
        "fetchTree", "fromTOML", "import", "isNull", "map", "null", "placeholder", "removeAttrs",
        "scopedImport", "throw", "toString", "true",
    ]
        .iter()
        .map(|s| s.to_string())
        .collect();
    assert_eq!(merged, expected);
}

#[test]
fn completion_inherit_without_source() {
    let source = "let aaa = 2; in { inherit ; }";
    let strategy = get_completion_strategy(source, &test_file_info(), 26)
        .expect("no completion strategy");
    assert!(strategy.attrs_expression.is_none());
    let merged = merge_completions(&Vec::new(), &strategy.variables);
    let expected: Vec<String> = [
        "aaa", "abort", "baseNameOf", "break", "builtins", "derivation", "derivationStrict",
        "dirOf", "false", "fetchGit", "fetchMercurial", "fetchTarball", "fetchTree", "fromTOML",
        "import", "isNull", "map", "null", "placeholder", "removeAttrs", "scopedImport", "throw",
        "toString", "true",
    ]
        .iter()
        .map(|s| s.to_string())
        .collect();
    assert_eq!(merged, expected);
}

#[test]
fn hover_relative_path_resolves() {
    let fi = FileInfo {
        file_type: FileType::Custom {
            lambda_arg: "{}".to_string(),
            schema: Arc::new(empty_schema()),
        },
        path: "/test/hello/world/whatever.nix".to_string(),
    };
    let strategy = get_hover_strategy("./other.nix\n", &fi, 4).expect("no hover strategy");
    match strategy.origin {
        HoverOrigin::Path(p) => assert_eq!(p, "/test/hello/world/other.nix"),
        _ => panic!("hover did not resolve the path"),
    }
}

#[test]
fn completion_schema_properties() {
    let schema = Schema {
        description: None,
        properties: Some(vec![
            SchemaProp {
                name: "abc".to_string(),
                schema: Schema {
                    description: None,
                    properties: Some(vec![SchemaProp {
                        name: "one".to_string(),
                        schema: empty_schema(),
                    }]),
                    additional_properties: None,
                },
            },
            SchemaProp { name: "xyz".to_string(), schema: empty_schema() },
        ]),
        additional_properties: None,
    };
    let fi = FileInfo {
        file_type: FileType::Custom { lambda_arg: "{}".to_string(), schema: Arc::new(schema) },
        path: "/test/path".to_string(),
    };
    // cursor in key position of the set: schema-based completion
    let source = "{ a = 1;  }";
    let strategy = get_completion_strategy(source, &fi, 9).expect("no completion strategy");
    assert!(strategy.attrs_expression.is_none());
    let merged = merge_completions(&Vec::new(), &strategy.variables);
    assert_eq!(merged, vec!["abc".to_string(), "xyz".to_string()]);
}

#[test]
fn escape_rules() {
    assert_eq!(escape_string("hello"), "\"hello\"");
    assert_eq!(escape_string("a\"b"), "\"a\\\"b\"");
    assert_eq!(escape_string("a\\b"), "\"a\\\\b\"");
    assert_eq!(escape_string("a\nb"), "\"a\\nb\"");
    assert_eq!(escape_string("a\tb"), "\"a\\tb\"");
    assert_eq!(escape_string("a${b}"), "\"a\\${b}\"");
    assert_eq!(escape_attr("services"), "services");
    assert_eq!(escape_attr("your mom"), "\"your mom\"");
    assert_eq!(escape_attr("x'y-z"), "x'y-z");
    assert_eq!(escape_attr("1abc"), "\"1abc\"");
}

#[test]
fn hover_markdown_shapes() {
    assert_eq!(hover_markdown("integer", "5"), "### integer\n\n```nix\n5\n```");
    assert_eq!(
        hover_markdown("primop", "see @docroot@/language/operators.md for more"),
        "see https://nix.dev/manual/nix/2.25/language/operators for more"
    );
}

#[test]
fn flake_inputs_rendering() {
    let source = "{ inputs.nixpkgs.url = \"github:nixos/nixpkgs\"; outputs = x: x; }";
    let root = parse(source);
    let expr = nth_node(&root, Cast::Expr, 0);
    assert_eq!(
        safe_stringify_flake(expr, "/"),
        "{ inputs.nixpkgs.url = \"github:nixos/nixpkgs\"; }"
    );
    assert_eq!(safe_stringify_flake(None, "/"), "{}");
}

#[test]
fn root_lambda_arguments() {
    let fi = FileInfo {
        file_type: FileType::Other {
            nixpkgs_path: "/nix/store/source".to_string(),
            schema: Arc::new(empty_schema()),
        },
        path: "/test/x.nix".to_string(),
    };
    assert_eq!(get_root_lambda(&fi).as_deref(), Some("(import /nix/store/source {})"));
    let custom = test_file_info();
    assert_eq!(get_root_lambda(&custom).as_deref(), Some("{  }"));
}

#[test]
fn fetcher_decisions() {
    let with_lock = FetcherInput {
        path: "/f/flake.nix".to_string(),
        source: "{ }".to_string(),
        old_lock_file: Some("{\"version\":7}".to_string()),
    };
    let out = process_input(with_lock).expect("fetch with a lock file must succeed");
    assert_eq!(out.path, "/f/flake.nix");
    assert_eq!(out.lock_file, "{\"version\":7}");

    let without_lock = FetcherInput {
        path: "/f/flake.nix".to_string(),
        source: "{ }".to_string(),
        old_lock_file: None,
    };
    let err = match process_input(without_lock) {
        Ok(_) => panic!("fetch without a lock file must fail"),
        Err(e) => e,
    };
    assert_eq!(err, "No lock file");

    let mut fetcher = BlockingFetcher::new();
    fetcher.send(FetcherInput {
        path: "/f/flake.nix".to_string(),
        source: "{ }".to_string(),
        old_lock_file: Some("lock".to_string()),
    });
    let first = match fetcher.try_recv().expect("one result queued") {
        Ok(out) => out,
        Err(_) => panic!("resolution kept the lock"),
    };
    assert_eq!(first.lock_file, "lock");
    assert!(fetcher.try_recv().is_none());
}

#[test]
fn stringify_rendered_value() {
    // the safe stringifier is total: a tree built from any text renders
    let root = parse("{ b = ");
    let text = safe_stringify(&root, "/base");
    assert_eq!(text, "{ b = null; }");
}

#[test]
fn completion_inside_pattern_uses_lambda_argument() {
    let fi = FileInfo {
        file_type: FileType::Custom {
            lambda_arg: "{test1 = 1; test2 = 1;}".to_string(),
            schema: Arc::new(empty_schema()),
        },
        path: "/test/path".to_string(),
    };
    // cursor inside the destructuring pattern, after the comma
    let source = "{aaaa, }: ";
    let strategy = get_completion_strategy(source, &fi, 7).expect("no completion strategy");
    assert_eq!(strategy.attrs_expression.as_deref(), Some("{ test1 = 1; test2 = 1; }"));
    assert_eq!(strategy.variables.len(), 0);
}

#[test]
fn hover_let_variable_strategy() {
    let source = "let x = 5; in x";
    let strategy = get_hover_strategy(source, &test_file_info(), 14).expect("no hover strategy");
    assert_eq!(strategy.expression.as_deref(), Some("(let x = 5; in (x))"));
    assert!(strategy.attr.is_none());
    match strategy.origin {
        HoverOrigin::Binding(span) => assert_eq!(span.start, 4),
        _ => panic!("hover resolved to the wrong origin"),
    }
}

#[test]
fn hover_with_namespace_fallback() {
    let source = "with {aaa = 1;}; aaa";
    let strategy = get_hover_strategy(source, &test_file_info(), 18).expect("no hover strategy");
    assert_eq!(strategy.attr.as_deref(), Some("aaa"));
    assert_eq!(
        strategy.expression.as_deref(),
        Some("(with { aaa = 1; }; { aaa = 1; })")
    );
    assert!(matches!(strategy.origin, HoverOrigin::With(_)));
}

#[test]
fn escape_fragment_rendering() {
    assert_eq!(EscapeStringFragment("a\"b\\c").render(), "a\\\"b\\\\c");
    assert_eq!(EscapeStringFragment("plain").render(), "plain");
}

#[test]
fn schema_getters() {
    let schema = Schema {
        description: Some("the port to listen on".to_string()),
        properties: Some(vec![
            SchemaProp { name: "port".to_string(), schema: empty_schema() },
            SchemaProp { name: "enable".to_string(), schema: empty_schema() },
        ]),
        additional_properties: None,
    };
    assert_eq!(schema.description(), Some("the port to listen on"));
    assert_eq!(schema.properties(), vec!["port".to_string(), "enable".to_string()]);
}

#[test]
fn test_parse_test_input() {
    let input = "## /test.nix\naaaaaaaaaaaaaaa\nbbbbbb\ncccccccc\n## /your mother.nix\naaaaaaaaaaaaaaaaaaaazzzzzzzzzzzzz\nxyz.$0cyz";
    let parsed = parse_test_input(input);
    assert_eq!(parsed.files.len(), 2);
    assert_eq!(parsed.files[0].0, "/test.nix");
    assert_eq!(parsed.files[0].1, "aaaaaaaaaaaaaaa\nbbbbbb\ncccccccc");
    assert_eq!(parsed.files[1].0, "/your mother.nix");
    assert_eq!(parsed.files[1].1, "aaaaaaaaaaaaaaaaaaaazzzzzzzzzzzzz\nxyz.cyz");
    let location = parsed.location.expect("the marker names a position");
    assert_eq!(location.path, "/your mother.nix");
    assert_eq!(location.line, 1);
    assert_eq!(location.col, 4);
}

#[test]
fn base_path_parent_rule() {
    let fi = |p: &str| FileInfo {
        file_type: FileType::Custom {
            lambda_arg: "{}".to_string(),
            schema: Arc::new(empty_schema()),
        },
        path: p.to_string(),
    };
    assert_eq!(fi("/test/hello/world/whatever.nix").base_path(), "/test/hello/world");
    assert_eq!(fi("/a/b/").base_path(), "/a");
    assert_eq!(fi("/a").base_path(), "/");
    assert_eq!(fi("/").base_path(), "/");
    assert_eq!(fi("").base_path(), "/");
    assert_eq!(fi("a.nix").base_path(), "");
    assert_eq!(fi("a/").base_path(), "");
    assert_eq!(fi("a//b").base_path(), "a");
}

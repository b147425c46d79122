use nix_analyzer::node::{nth_node, Cast};
use nix_analyzer::render::safe_stringify_opt;
use nix_analyzer::tree::parse;

fn check(source: &str, expected: &str) {
    let root = parse(source);
    let expr = nth_node(&root, Cast::Expr, 0);
    assert_eq!(safe_stringify_opt(expr, "/base_path"), expected);
}

#[test]
fn assert_expression() {
    check(r#"assert x; y"#, "(assert x; y)");
}

#[test]
fn attrs_dup1() {
    check(
        r#"{ x = 123; y = 456; x = 789; }"#,
        "{ x = 123; y = 456; x = 789; }",
    );
}

#[test]
fn attrs_dup2() {
    check(
        r#"{ services.ssh.port = 22; services.ssh.port = 23; }"#,
        "{ services.ssh.port = 22; services.ssh.port = 23; }",
    );
}

#[test]
fn attrs_dynamic() {
    check(r#"{ ${a} = b; }"#, "{ ${a} = b; }");
}

#[test]
fn attrs_empty() {
    check(r#"{ }"#, "{  }");
}

#[test]
fn attrs_mixed_nested() {
    check(
        r#"{
              services.ssh.enable = true;
              services.ssh = { port = 123; };
              services = {
                  httpd.enable = true;
              };
            }"#,
        "{ services.ssh.enable = true; services.ssh = { port = 123; }; services = { httpd.enable = true; }; }",
    );
}

#[test]
fn attrs_rec() {
    check(r#"rec {  }"#, "rec {  }");
}

#[test]
fn attrs_simple() {
    check(r#"{ x = y; y = z; }"#, "{ x = y; y = z; }");
}

#[test]
fn attrs_string() {
    check(r#"{ "a" = b; }"#, r#"{ "a" = b; }"#);
}

#[test]
fn attrs_typing1() {
    // Ideally this would be an attribute set not a lambda
    check(r#"{ x }"#, "({x ? null, ...}: null)");
}

#[test]
fn attrs_typing2() {
    check(r#"{ x. }"#, "{ x = null; }");
}

#[test]
fn attrs_typing3() {
    check(r#"{ x.y }"#, "{ x.y = null; }");
}

#[test]
fn attrs_typing4() {
    check(r#"{ x.y = }"#, "{ x.y = null; }");
}

#[test]
fn attrs_typing5() {
    check(r#"{ x.y = abc }"#, "{ x.y = abc; }");
}

#[test]
fn attrs_typing_before() {
    check(
        r#"{ services.resolved. networking.useDHCP = false; }"#,
        "{ services.resolved.networking.useDHCP = false; }",
    );
}

#[test]
fn call_basic() {
    check(r#"function a b c d"#, "((((function a) b) c) d)");
}

#[test]
fn comma_attrs() {
    check(r#"{a = 1, b = 2}"#, "{ a = 1; }");
}

#[test]
fn id() {
    check(r#"hello"#, "hello");
}

#[test]
fn if_not_allowed() {
    check(r#"a if b then c else d"#, "a");
}

#[test]
fn ind_string() {
    check(
        "\n            ''\n              abc\n              ${hello world}\n            ''",
        "''\n              abc\n              ${hello world}\n            ''",
    );
}

#[test]
fn inherit() {
    check(
        r#"{ inherit a; inherit (x) b; }"#,
        "{ inherit  a; inherit (x) b; }",
    );
}

#[test]
fn inherit_or() {
    check(r#"{ inherit or; }"#, "{ inherit  or; }");
}

#[test]
fn lambda_formals() {
    check(r#"{a, b}: a"#, "({a ? null, b ? null, ...}: a)");
}

#[test]
fn lambda_formals_arg() {
    check(r#"{a, b, ...} @ g: a"#, "({a ? null, b ? null, ...} @ g: a)");
}

#[test]
fn lambda_formals_arg_left() {
    check(r#"g@{a, b, ...}: a"#, "({a ? null, b ? null, ...} @ g: a)");
}

#[test]
fn lambda_formals_dup() {
    check(r#"{a, b, a}: a"#, "({a ? null, b ? null, a ? null, ...}: a)");
}

#[test]
fn lambda_formals_empty() {
    check(r#"{}: a"#, "({...}: a)");
}

#[test]
fn lambda_formals_one() {
    check(r#"{a}: a"#, "({a ? null, ...}: a)");
}

#[test]
fn lambda_regular() {
    check(r#"x: y: x"#, "(x: (y: x))");
}

#[test]
fn let_dynamic() {
    check(r#"let ${a} = b; in c"#, "(let ${a} = b; in c)");
}

#[test]
fn let_typing_missing_in() {
    // Not ideal
    check(r#"let a = 4; b"#, "(let a = 4; b = null; in null)");
}

#[test]
fn let_typing_missing_semicolon() {
    // Not ideal
    check(r#"let a = 4 in b"#, "(let a = 4; in null)");
}

#[test]
fn op_non_assoc() {
    check(r#"1 < 2 < 3"#, "(1 < 2)");
}

#[test]
fn op_prec() {
    check(
        r#"1.5 -> 2 || -3 && 4 == 5 || 6 < 7 || 8 // !9 + 10 * 11 ++ 12 13 ? a // 1"#,
        "(1.5 -> (((2 || ((-3) && (4 == 5))) || (6 < 7)) || (8 // ((!(9 + (10 * (11 ++ ((12 13) ? a))))) // 1))))",
    );
}

#[test]
fn path_absolute() {
    check(r#"/etc/passwd"#, "/etc/passwd");
}

#[test]
fn path_interpolated() {
    check(r#"/home/${username}/whatever"#, "/home/${username}/whatever");
}

#[test]
fn path_relative() {
    check(r#"./parse_assert.nix"#, "/base_path/./parse_assert.nix");
}

#[test]
fn path_trailing_slash() {
    check(r#"/home/"#, "null");
}

#[test]
fn select_dynamic() {
    check(r#"hello.${12}"#, "(hello.${12})");
}

#[test]
fn select_empty() {
    check(r#"hello.whatever."#, "(hello.whatever)");
}

#[test]
fn select_or() {
    check(r#"or.foo or foo"#, "(null.foo or foo)");
}

#[test]
fn select_parens() {
    check(
        r#"(import /nix/store/xif4dbqvi7bmcwfxiqqhq0nr7ax07liw-source)."#,
        "(((import /nix/store/xif4dbqvi7bmcwfxiqqhq0nr7ax07liw-source)).null)",
    );
}

#[test]
fn select_string() {
    check(r#"hello."abc"."x${yz}""#, r#"(hello."abc"."x${yz}")"#);
}

#[test]
fn string() {
    check(r#""hello ${abc} ${}""#, r#""hello ${abc} ${}""#);
}

#[test]
fn subtraction() {
    check(r#"- n - 1"#, "((-n) - 1)");
}

#[test]
fn with_in_list() {
    check(r#"[ a b with c; d e]"#, "[a b null c null d e]");
}

#[test]
fn with_missing() {
    check(r#"with pkgs;"#, "(with pkgs; null)");
}

#[test]
fn lambda_basic() {
    check(r#"x: x"#, "(x: x)");
}

#[test]
fn lambda_args() {
    check(r#"{a, b}: a"#, "({a ? null, b ? null, ...}: a)");
}

#[test]
fn lambda_default_args() {
    check(r#"{a ? 123, b}: a"#, "({a ? 123, b ? null, ...}: a)");
}

#[test]
fn lambda_bind() {
    check(r#"{a ? 123, b} @ args: a"#, "({a ? 123, b ? null, ...} @ args: a)");
}

#[test]
fn lambda_bind_2() {
    check(r#"args @ {a ? 123, b}: a"#, "({a ? 123, b ? null, ...} @ args: a)");
}

#[test]
fn empty_select() {
    check(r#"x."#, "(x.null)");
}

#[test]
fn select_containing_empty() {
    check(r#"x.a..b"#, "(x.a.b)");
}

#[test]
fn select_empty_end() {
    check(r#"x.a."#, "(x.a)");
}

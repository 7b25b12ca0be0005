use v_utils::nix::{
    classify_config, expr_to_json, pure_data_json, NixConfig, NixExpr, NixLiteral, NixUnary,
};
use v_utils::settings::Json;

fn show(j: &Option<Json>) -> String {
    format!("{:?}", j)
}

fn num(t: &str) -> Json {
    Json::Number(t.to_string())
}

fn obj(es: Vec<(&str, Json)>) -> Json {
    Json::Object(es.into_iter().map(|(k, v)| (k.to_string(), v)).collect())
}

#[test]
fn empty_attrset() {
    assert_eq!(show(&pure_data_json("{}")), show(&Some(obj(vec![]))));
}

#[test]
fn numbers_and_names() {
    let r = pure_data_json("{ a = 1; b = -3; t = true; f = false; n = null; big = 9223372036854775807; }");
    let want = obj(vec![
        ("a", num("1")),
        ("b", num("-3")),
        ("t", Json::Bool(true)),
        ("f", Json::Bool(false)),
        ("n", Json::Null),
        ("big", num("9223372036854775807")),
    ]);
    assert_eq!(show(&r), show(&Some(want)));
}

#[test]
fn floats_keep_their_text() {
    let r = pure_data_json("{ b = 1.0; d = -1.5; e = 1.0e10; }");
    let want = obj(vec![("b", num("1.0")), ("d", num("-1.5")), ("e", num("1.0e10"))]);
    assert_eq!(show(&r), show(&Some(want)));
}

#[test]
fn strings_are_unescaped() {
    let r = pure_data_json(r#"{ s = ""; tab = "a\tb"; q = "a\"b"; u = "ы 日本"; }"#);
    let want = obj(vec![
        ("s", Json::Str(String::new())),
        ("tab", Json::Str("a\tb".to_string())),
        ("q", Json::Str("a\"b".to_string())),
        ("u", Json::Str("ы 日本".to_string())),
    ]);
    assert_eq!(show(&r), show(&Some(want)));
}

#[test]
fn lists_nest() {
    let r = pure_data_json("{ l = []; m = [ 1 \"a\" [ null { k = 2; } ] ]; }");
    let want = obj(vec![
        ("l", Json::Array(vec![])),
        (
            "m",
            Json::Array(vec![
                num("1"),
                Json::Str("a".to_string()),
                Json::Array(vec![Json::Null, obj(vec![("k", num("2"))])]),
            ]),
        ),
    ]);
    assert_eq!(show(&r), show(&Some(want)));
}

#[test]
fn dotted_paths_merge() {
    let r = pure_data_json("{ a.b.c = 1; a.b.d = 2; a.e = 3; }");
    let want = obj(vec![("a", obj(vec![("b", obj(vec![("c", num("1")), ("d", num("2"))])), ("e", num("3"))]))]);
    assert_eq!(show(&r), show(&Some(want)));
    let merged = pure_data_json("{ a = { b = 1; }; a.c = 2; }");
    assert_eq!(show(&merged), show(&Some(obj(vec![("a", obj(vec![("b", num("1")), ("c", num("2"))]))]))));
    let twice = pure_data_json("{ a = { b = 1; }; a = { c = 2; }; }");
    assert_eq!(show(&twice), show(&merged));
}

#[test]
fn dotted_path_is_nesting() {
    assert_eq!(show(&pure_data_json("{ x.y.z = 4; }")), show(&pure_data_json("{ x = { y = { z = 4; }; }; }")));
}

#[test]
fn quoted_names() {
    let r = pure_data_json(r#"{ "with-dash" = 1; "a.b" = 2; "" = 3; }"#);
    let want = obj(vec![("with-dash", num("1")), ("a.b", num("2")), ("", num("3"))]);
    assert_eq!(show(&r), show(&Some(want)));
}

#[test]
fn language_is_delegated() {
    for src in [
        "{ lib, ... }: { a = 1; }",
        "let x = 1; in { a = x; }",
        "rec { a = 1; b = a; }",
        "let a = 1; in { inherit a; }",
        "{ a = { b = 1; } // { c = 2; }; }",
        "{ a = 1 + 2; }",
        "{ a = \"pre${builtins.getEnv \"PATH\"}post\"; }",
        "{ a = ''\n  hi\n''; }",
        "{ a = if true then 1 else 2; }",
        "{ a = (1); }",
        "with { x = 1; }; { a = x; }",
        "[ 1 2 ]",
    ] {
        assert!(pure_data_json(src).is_none(), "{src}");
    }
}

#[test]
fn collisions_and_errors_are_refused() {
    for src in ["{ a = 1; a = 2; }", "{ a.b = 1; a.b = 2; }", "{ a = 1; a.b = 2; }", "{ a = { b = 1; }; a = { b = 2; }; }", "{ a = 1;", "{ a = foo; }"] {
        assert!(pure_data_json(src).is_none(), "{src}");
    }
}

#[test]
fn negated_literal_by_hand() {
    let e = NixExpr::UnaryOp(Some(NixUnary::Negate), Some(Box::new(NixExpr::Literal(NixLiteral::Integer(Some(7))))));
    assert_eq!(show(&expr_to_json(&e)), show(&Some(num("-7"))));
    let inv = NixExpr::UnaryOp(Some(NixUnary::Invert), Some(Box::new(NixExpr::Literal(NixLiteral::Integer(Some(7))))));
    assert!(expr_to_json(&inv).is_none());
    assert!(expr_to_json(&NixExpr::Literal(NixLiteral::Uri)).is_none());
}

#[test]
fn empty_file_names_itself() {
    match classify_config("conf.nix", "  \n") {
        NixConfig::Empty(m) => assert!(m.contains("is empty") && m.contains("conf.nix"), "{m}"),
        other => panic!("{other:?}"),
    }
}

#[test]
fn config_classified() {
    assert!(matches!(classify_config("c.nix", "{ a = 1; }"), NixConfig::Data(_)));
    assert!(matches!(classify_config("c.nix", "let a = 1; in { inherit a; }"), NixConfig::Evaluate));
}

use v_utils::calendar::breakdown_secs;
use v_utils::llm::{extract_codeblocks, ApiContent, ApiConversation, ModelFamily, ApiResponse, ApiUsage, Conversation, Model, Role};
use v_utils::other::time::{time_to_units, Timelike};
use v_utils::primitives::large_number::{suffix_byte, Compact};
use v_utils::settings::{nix_module_bounded, schema_to_nix_module, Json, NixError};

#[test]
fn test_time_de() {
    let t = |s: &str| Timelike::from_text(&serde_json::from_str::<String>(s).unwrap());
    assert_eq!(t(r#""12:34""#).unwrap().inner(), 754);
    assert_eq!(t(r#""12:34:56""#).unwrap().inner(), 45296);
    assert_eq!(t(r#""34:56""#).unwrap().inner(), 2096);
    assert_eq!(Timelike(serde_json::from_str::<u32>("754").unwrap()).inner(), 754);
    assert_eq!(t(r#""34""#).unwrap().inner(), 34);
    assert!(t(r#""12:34:56:78""#).is_err());
}

#[test]
fn test_time_ser() {
    assert_eq!(Timelike(30).to_string(), "30");
    assert_eq!(Timelike(2096).to_string(), "34:56");
    assert_eq!(Timelike(3600).to_string(), "1:00:00");
    assert_eq!(serde_json::to_string(&Timelike(0).to_string()).unwrap(), "\"00\"");
    assert_eq!(serde_json::to_string(&Timelike(45296).to_string()).unwrap(), "\"12:34:56\"");
}

#[test]
fn time_errors() {
    assert_eq!(time_to_units("abc"), Err("Invalid time format: Could not parse 'abc' as seconds".to_owned()));
    assert_eq!(
        time_to_units("1:x"),
        Err("Invalid time format: Expected one of %H:%M, %H:%M:%S, or %M:%S, got '1:x'".to_owned())
    );
    assert_eq!(time_to_units("1:2:3"), Ok(3723));
    for n in [0u32, 5, 59, 60, 61, 3599, 3600, 86399, 360000] {
        assert_eq!(time_to_units(&Timelike(n).to_string()), Ok(n));
    }
}

#[test]
fn compact_layout() {
    assert_eq!(Compact::from_parts(false, 69, 0, 1, false).as_str(), "69K");
    assert_eq!(Compact::from_parts(false, 242, 2, 1, false).as_str(), "2.42K");
    assert_eq!(Compact::from_parts(false, 69, 0, 1, true).as_str(), "69");
    assert_eq!(Compact::from_parts(true, 196, 4, 0, false).as_str(), "-0.0196");
    assert_eq!(Compact::from_parts(false, 0, 0, 0, false).as_str(), "0");
    assert_eq!(Compact::from_parts(true, u64::MAX, 15, 5, false).as_str(), "-18446.744073709551615Q");
    assert_eq!(suffix_byte(0), None);
    assert_eq!(suffix_byte(2), Some(b'M'));
    assert_eq!(suffix_byte(5), Some(b'Q'));
}

#[test]
fn conversations() {
    let mut c = Conversation::new("be brief");
    c.add(Role::User, "hi");
    c.add_exchange("q", "a");
    assert_eq!(c.messages.len(), 4);
    assert_eq!(c.messages[3].role(), Role::Assistant);
    assert_eq!(c.messages[2].content(), "q");
    let cc = ApiConversation::new(&c);
    assert_eq!(cc.messages[0].role, "system");
    assert_eq!(cc.messages[1].role, "user");
    assert_eq!(cc.messages[3].content, "a");
}

#[test]
fn model_families() {
    assert_eq!(ModelFamily::from_general(Model::Fast), ModelFamily::Haiku);
    assert_eq!(ModelFamily::from_general(Model::Slow), ModelFamily::Opus);
    assert_eq!(ModelFamily::from_str("v3-SONNET-2024"), ModelFamily::Sonnet);
    assert_eq!(ModelFamily::try_from_str("gpt-4"), None);
    let r = ApiResponse {
        id: "id".to_owned(),
        response_type: "message".to_owned(),
        role: "assistant".to_owned(),
        content: vec![ApiContent { content_type: "text".to_owned(), text: "hello".to_owned() }],
        model: "haiku".to_owned(),
        stop_reason: "end_turn".to_owned(),
        stop_sequence: None,
        usage: ApiUsage { input_tokens: 1, output_tokens: 2 },
    };
    assert_eq!(r.text(), "hello");
}

#[test]
fn codeblocks() {
    let text = "intro ```rs\nfn main() {}\n``` mid ```sh\nls\n``` ```rs let x``` end";
    assert_eq!(extract_codeblocks(text, "rs"), vec!["\nfn main() {}\n".to_owned(), " let x".to_owned()]);
    assert_eq!(extract_codeblocks(text, "py"), Vec::<String>::new());
    assert_eq!(extract_codeblocks("````rs", "`rs"), vec!["".to_owned()]);
}

fn obj(entries: Vec<(&str, Json)>) -> Json {
    Json::Object(entries.into_iter().map(|(k, v)| (k.to_owned(), v)).collect())
}

fn s(t: &str) -> Json {
    Json::Str(t.to_owned())
}

#[test]
fn nix_module_from_schema() {
    let schema = obj(vec![
        ("$defs", obj(vec![("Mode", obj(vec![("type", s("string")), ("enum", Json::Array(vec![s("fast"), s("slow")]))]))])),
        (
            "properties",
            obj(vec![
                ("mode", obj(vec![("$ref", s("#/$defs/Mode"))])),
                ("name", obj(vec![("type", s("string")), ("description", s("the \"name\""))])),
                ("port", obj(vec![("type", Json::Array(vec![s("integer"), s("null")]))])),
                ("tags", obj(vec![("type", s("array")), ("items", obj(vec![("type", s("string"))]))])),
            ]),
        ),
        ("required", Json::Array(vec![s("mode"), s("name"), s("tags")])),
        ("type", s("object")),
    ]);
    let expected = "{ lib, ... }:\n{\n  options = {\n    mode = lib.mkOption { type = lib.types.enum [ \"fast\" \"slow\" ]; };\n    name = lib.mkOption { type = lib.types.str; description = \"the \\\"name\\\"\"; };\n    port = lib.mkOption { type = lib.types.nullOr lib.types.int; default = null; };\n    tags = lib.mkOption { type = lib.types.listOf lib.types.str; };\n  };\n}\n";
    assert_eq!(schema_to_nix_module(&schema), Ok(expected.to_owned()));
}

#[test]
fn nix_module_errors() {
    assert_eq!(schema_to_nix_module(&obj(vec![("type", s("array"))])), Err(NixError::NotObject));
    let bad_ref = obj(vec![("type", s("object")), ("properties", obj(vec![("a", obj(vec![("$ref", s("#/x"))]))]))]);
    assert_eq!(schema_to_nix_module(&bad_ref), Err(NixError::UnsupportedRef("#/x".to_owned())));
    let no_defs = obj(vec![("type", s("object")), ("properties", obj(vec![("a", obj(vec![("$ref", s("#/$defs/A"))]))]))]);
    assert_eq!(schema_to_nix_module(&no_defs), Err(NixError::NoDefs));
    let only_null = obj(vec![("type", s("object")), ("properties", obj(vec![("a", obj(vec![("type", Json::Array(vec![s("null")]))]))]))]);
    assert_eq!(schema_to_nix_module(&only_null), Err(NixError::OnlyNull));
    let weird = obj(vec![("type", s("object")), ("properties", obj(vec![("a", obj(vec![("type", s("tuple"))]))]))]);
    assert_eq!(schema_to_nix_module(&weird), Err(NixError::UnsupportedType(Some("tuple".to_owned()))));
    let empty = obj(vec![("type", s("object"))]);
    assert_eq!(schema_to_nix_module(&empty), Ok("{ lib, ... }:\n{\n  options = { };\n}\n".to_owned()));
    let map = obj(vec![
        ("type", s("object")),
        ("properties", obj(vec![("m", obj(vec![("type", s("object")), ("additionalProperties", obj(vec![("type", s("boolean"))]))]))])),
        ("required", Json::Array(vec![s("m")])),
    ]);
    assert_eq!(
        schema_to_nix_module(&map),
        Ok("{ lib, ... }:\n{\n  options = {\n    m = lib.mkOption { type = lib.types.attrsOf lib.types.bool; };\n  };\n}\n".to_owned())
    );
    let looping = obj(vec![
        ("$defs", obj(vec![("A", obj(vec![("$ref", s("#/$defs/A")), ("type", Json::Array(vec![s("object"), s("null")]))]))])),
        ("type", s("object")),
        ("properties", obj(vec![("a", obj(vec![("$ref", s("#/$defs/A"))]))])),
    ]);
    assert_eq!(nix_module_bounded(&looping, 10), None);
}

#[test]
fn calendar_breakdown() {
    assert_eq!(breakdown_secs(0), (1970, 1, 1, 0, 0, 0));
    assert_eq!(breakdown_secs(1_490_000_000), (2017, 3, 20, 8, 53, 20));
    assert_eq!(breakdown_secs(-1), (1969, 12, 31, 23, 59, 59));
    assert_eq!(breakdown_secs(951_782_400), (2000, 2, 29, 0, 0, 0));
    assert_eq!(breakdown_secs(4_107_542_400), (2100, 3, 1, 0, 0, 0));
    assert_eq!(breakdown_secs(-62_135_596_800), (1, 1, 1, 0, 0, 0));
    assert_eq!(breakdown_secs(253_402_300_799), (9999, 12, 31, 23, 59, 59));
}

#[test]
fn calendar_extremes() {
    let (y, m, d, h, mi, s) = breakdown_secs(i64::MIN);
    assert!((1..=12).contains(&m) && (1..=31).contains(&d) && h < 24 && mi < 60 && s < 60);
    assert!(y < -200_000_000_000);
    let (y, _, _, _, _, _) = breakdown_secs(i64::MAX);
    assert!(y > 200_000_000_000);
}

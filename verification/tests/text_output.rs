use hako::config::{LinuxCfg, NsEntry, OciProcess, OciSpec, RootFs, User};
use hako::json::{Json, JsonMember};
use hako::text::{config_text, json_text};

fn member(key: &str, val: Json) -> JsonMember {
    JsonMember { key: key.to_string(), val }
}

#[test]
fn scalars_as_text() {
    assert_eq!(json_text(&Json::Null), "null");
    assert_eq!(json_text(&Json::Bool(true)), "true");
    assert_eq!(json_text(&Json::Bool(false)), "false");
    assert_eq!(json_text(&Json::Num(0)), "0");
    assert_eq!(json_text(&Json::Num(18446744073709551615)), "18446744073709551615");
}

#[test]
fn strings_escaped() {
    assert_eq!(json_text(&Json::Str("plain".to_string())), "\"plain\"");
    assert_eq!(
        json_text(&Json::Str("a\"b\\c\nd\te\rf".to_string())),
        "\"a\\\"b\\\\c\\nd\\te\\rf\""
    );
    assert_eq!(json_text(&Json::Str("\u{8}\u{c}\u{1}".to_string())), "\"\\b\\f\\u0001\"");
}

#[test]
fn arrays_and_objects_as_text() {
    let arr = Json::Arr(vec![Json::Num(1), Json::Num(2), Json::Num(3)]);
    assert_eq!(json_text(&arr), "[1,2,3]");
    assert_eq!(json_text(&Json::Arr(vec![])), "[]");
    let obj = Json::Obj(vec![
        member("a", Json::Num(1)),
        member("b", Json::Arr(vec![Json::Null])),
    ]);
    assert_eq!(json_text(&obj), "{\"a\":1,\"b\":[null]}");
    assert_eq!(json_text(&Json::Obj(vec![])), "{}");
}

fn small_config() -> OciSpec {
    OciSpec {
        oci_version: "1.0.2".to_string(),
        root: RootFs { path: "/tmp/rootfs".to_string(), readonly: false },
        process: OciProcess {
            terminal: false,
            user: User { uid: 0, gid: 0, umask: None, additional_gids: None },
            cwd: "/".to_string(),
            env: None,
            args: vec!["/bin/true".to_string()],
        },
        hostname: None,
        domainname: None,
        mounts: None,
        linux: Some(LinuxCfg {
            namespaces: vec![NsEntry { ns_type: "pid".to_string() }],
        }),
    }
}

#[test]
fn config_as_text_exact() {
    let expected = "{\"ociVersion\":\"1.0.2\",\"root\":{\"path\":\"/tmp/rootfs\",\"readonly\":false},\"process\":{\"terminal\":false,\"user\":{\"uid\":0,\"gid\":0,\"umask\":null,\"additionalGids\":null},\"cwd\":\"/\",\"env\":null,\"args\":[\"/bin/true\"]},\"hostname\":null,\"domainname\":null,\"mounts\":null,\"linux\":{\"namespaces\":[{\"type\":\"pid\"}]}}";
    assert_eq!(config_text(&small_config()), expected);
}

#[test]
fn config_text_is_valid_json() {
    let text = config_text(&small_config());
    let v: serde_json::Value = serde_json::from_str(&text).expect("well-formed JSON");
    assert_eq!(v["ociVersion"].as_str(), Some("1.0.2"));
    assert_eq!(v["process"]["args"][0].as_str(), Some("/bin/true"));
    assert_eq!(v["process"]["user"]["uid"].as_u64(), Some(0));
    assert_eq!(v["linux"]["namespaces"][0]["type"].as_str(), Some("pid"));
    assert!(v["hostname"].is_null());
}

#[test]
fn escaped_text_parses_back() {
    let original = "a\"b\\c\nd\u{1}e";
    let text = json_text(&Json::Str(original.to_string()));
    let v: serde_json::Value = serde_json::from_str(&text).expect("well-formed JSON");
    assert_eq!(v.as_str(), Some(original));
}

#[test]
fn parse_scalars() {
    assert_eq!(hako::text::parse_text("null"), Some(Json::Null));
    assert_eq!(hako::text::parse_text("true"), Some(Json::Bool(true)));
    assert_eq!(hako::text::parse_text("false"), Some(Json::Bool(false)));
    assert_eq!(hako::text::parse_text("0"), Some(Json::Num(0)));
    assert_eq!(hako::text::parse_text(" 42\n"), Some(Json::Num(42)));
    assert_eq!(
        hako::text::parse_text("18446744073709551615"),
        Some(Json::Num(18446744073709551615))
    );
}

#[test]
fn parse_non_integer_numbers_kept_opaque() {
    assert_eq!(hako::text::parse_text("-5"), Some(Json::Other));
    assert_eq!(hako::text::parse_text("1.5"), Some(Json::Other));
    assert_eq!(hako::text::parse_text("2e10"), Some(Json::Other));
    assert_eq!(hako::text::parse_text("18446744073709551616"), Some(Json::Other));
}

#[test]
fn parse_rejects_malformed() {
    assert_eq!(hako::text::parse_text(""), None);
    assert_eq!(hako::text::parse_text("tru"), None);
    assert_eq!(hako::text::parse_text("{"), None);
    assert_eq!(hako::text::parse_text("[1,]"), None);
    assert_eq!(hako::text::parse_text("01"), None);
    assert_eq!(hako::text::parse_text("1 2"), None);
    assert_eq!(hako::text::parse_text("\"unterminated"), None);
}

#[test]
fn parse_strings_with_escapes() {
    assert_eq!(
        hako::text::parse_text("\"a\\\"b\\\\c\\nd\""),
        Some(Json::Str("a\"b\\c\nd".to_string()))
    );
    assert_eq!(
        hako::text::parse_text("\"\\u0041\\u000a\""),
        Some(Json::Str("A\n".to_string()))
    );
    assert_eq!(hako::text::parse_text("\"\\u0800\""), None);
}

#[test]
fn parse_nested_with_whitespace() {
    let text = " { \"a\" : [ 1 , 2 ] , \"b\" : { \"c\" : null } } ";
    let tree = hako::text::parse_text(text).expect("parses");
    match tree {
        Json::Obj(ms) => {
            assert_eq!(ms.len(), 2);
            assert_eq!(ms[0].key, "a");
            assert_eq!(ms[0].val, Json::Arr(vec![Json::Num(1), Json::Num(2)]));
            assert_eq!(ms[1].key, "b");
        },
        other => panic!("unexpected tree {:?}", other),
    }
}

#[test]
fn text_round_trip_through_parser() {
    let c = small_config();
    let text = config_text(&c);
    let tree = hako::text::parse_text(&text).expect("rendered text parses");
    let back = hako::extract::parse_config(&tree).expect("parsed tree extracts");
    assert_eq!(back, c);
}

#[test]
fn config_from_text_end_to_end() {
    let text = "{\n  \"ociVersion\": \"1.0.2\",\n  \"root\": { \"path\": \"/tmp/rootfs\" },\n  \"process\": {\n    \"user\": { \"uid\": 7, \"gid\": 8 },\n    \"cwd\": \"/\",\n    \"args\": [\"/bin/true\", \"x\"]\n  },\n  \"linux\": { \"namespaces\": [ { \"type\": \"pid\" }, { \"type\": \"foo\" } ] }\n}\n";
    let tree = hako::text::parse_text(text).expect("config text parses");
    let c = hako::extract::parse_config(&tree).expect("subset accepted");
    assert_eq!(c.process.user.uid, 7);
    assert_eq!(c.process.args.len(), 2);
    assert_eq!(c.linux.unwrap().namespaces[1].ns_type, "foo");
}

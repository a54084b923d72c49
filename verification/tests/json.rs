use velos::json::{pairs_at, parse, parse_bytes, set_member, str_at, strings_at, Json, Number};

#[test]
fn documents_are_read_whole() {
    let doc = parse(r#" {"a": [1, -2, 2.5, 18446744073709551615, 1e3], "b": {"c": null}, "d": true, "e": "x\u00e9"} "#)
        .unwrap();
    assert_eq!(
        doc.get("a"),
        Some(&Json::Array(vec![
            Json::Number(Number::PosInt(1)),
            Json::Number(Number::NegInt(-2)),
            Json::Number(Number::Float("2.5".to_string())),
            Json::Number(Number::PosInt(u64::MAX)),
            Json::Number(Number::Float("1000.0".to_string())),
        ]))
    );
    assert!(doc.at(&["b", "c"]).unwrap().is_null());
    assert_eq!(doc.get("d").unwrap().as_bool(), Some(true));
    assert_eq!(str_at(&doc, &["e"]), Some("xé"));
    assert_eq!(str_at(&doc, &["b", "c"]), None);
    assert!(doc.at(&["b", "x"]).is_none());
    assert!(doc.get("a").unwrap().get("c").is_none());
}

#[test]
fn numbers_read_as_the_integers_they_are() {
    let n = |text: &str| parse(text).unwrap();
    assert_eq!(n("7").as_i64(), Some(7));
    assert_eq!(n("-7").as_i64(), Some(-7));
    assert_eq!(n("9223372036854775808").as_i64(), None);
    assert_eq!(n("9223372036854775808").as_u64(), Some(9223372036854775808));
    assert_eq!(n("-7").as_u64(), None);
    assert_eq!(n("7.0").as_i64(), None);
    assert_eq!(n("\"7\"").as_u64(), None);
}

#[test]
fn what_is_no_json_is_an_error() {
    assert!(parse("").is_err());
    assert!(parse("{\"a\": }").unwrap_err().contains("line 1"));
    assert!(parse("[1] x").is_err());
    assert!(parse_bytes(b"\xff").is_err());
}

#[test]
fn bytes_come_back_with_their_compact_text() {
    let (doc, text) = parse_bytes(b" { \"b\" : [ 1 , 2.50 ] } ").unwrap();
    assert_eq!(text, "{\"b\":[1,2.5]}");
    assert_eq!(doc, parse("{\"b\": [1, 2.5]}").unwrap());
}

#[test]
fn members_are_set_and_filtered() {
    let doc = parse(r#"{"l": ["a", 1, "b"], "m": {"x": "1", "y": 2, "z": "3"}}"#).unwrap();
    assert_eq!(
        strings_at(&doc, &["l"]),
        vec!["a".to_string(), "b".to_string()]
    );
    assert!(strings_at(&doc, &["m"]).is_empty());
    assert_eq!(
        pairs_at(&doc, &["m"]),
        vec![
            ("x".to_string(), "1".to_string()),
            ("z".to_string(), "3".to_string())
        ]
    );
    let members = set_member(doc.as_object().unwrap(), "l", Json::Null);
    let after = Json::Object(members);
    assert!(after.get("l").unwrap().is_null());
    assert_eq!(after.get("m"), doc.get("m"));
    let added = Json::Object(set_member(&vec![], "k", Json::Bool(false)));
    assert_eq!(added.get("k").unwrap().as_bool(), Some(false));
    // The last member of a name counts.
    let twice = Json::Object(vec![
        ("k".to_string(), Json::Bool(false)),
        ("k".to_string(), Json::Bool(true)),
    ]);
    assert_eq!(twice.get("k").unwrap().as_bool(), Some(true));
}

use catalyzer::json::{parse, Json};
use catalyzer::model::{ModInfo, ParseError, StringOrVec};

#[test]
fn manifest_with_one_entry_is_read() {
    let text = r#"[{"ident":"alpha_mod","name":"Alpha","authors":["A","B"],
        "maintainers":"M","dependencies":["dda"],"description":"d","category":"content",
        "version":"1.0","obsolete":false,"extra":42}]"#;
    let info = ModInfo::from_manifest(text).unwrap();
    assert_eq!(info.name, "Alpha");
    assert_eq!(info.ident, Some("alpha_mod".to_string()));
    assert_eq!(info.id, None);
    assert_eq!(info.authors, Some(vec!["A".to_string(), "B".to_string()]));
    assert_eq!(info.maintainers, Some(vec!["M".to_string()]));
    assert_eq!(info.dependencies, Some(vec!["dda".to_string()]));
    assert_eq!(info.description, Some("d".to_string()));
    assert_eq!(info.category, Some("content".to_string()));
    assert_eq!(info.version, Some("1.0".to_string()));
    assert_eq!(info.obsolete, Some(false));
}

#[test]
fn absent_and_null_fields_are_absent() {
    let info = ModInfo::from_manifest(r#"[{"name":"Alpha","authors":null,"version":null}]"#)
        .unwrap();
    assert_eq!(info.name, "Alpha");
    assert_eq!(info.authors, None);
    assert_eq!(info.version, None);
    assert_eq!(info.description, None);
    assert_eq!(info.obsolete, None);
    assert_eq!(info.get_id(), None);
}

#[test]
fn identifier_prefers_ident() {
    let both = ModInfo::from_manifest(r#"[{"name":"A","ident":"x","id":"y"}]"#).unwrap();
    assert_eq!(both.get_id(), Some("x".to_string()));
    let only_id = ModInfo::from_manifest(r#"[{"name":"A","id":"y"}]"#).unwrap();
    assert_eq!(only_id.get_id(), Some("y".to_string()));
}

#[test]
fn each_parse_error_has_its_input() {
    assert_eq!(ModInfo::from_manifest("not json").unwrap_err(), ParseError::Syntax);
    assert_eq!(ModInfo::from_manifest(r#"{"name":"A"}"#).unwrap_err(), ParseError::NotAnArray);
    assert_eq!(ModInfo::from_manifest("[]").unwrap_err(), ParseError::EntryCount);
    assert_eq!(
        ModInfo::from_manifest(r#"[{"name":"A"},{"name":"B"}]"#).unwrap_err(),
        ParseError::EntryCount
    );
    assert_eq!(ModInfo::from_manifest(r#"[{"id":"a"}]"#).unwrap_err(), ParseError::BadEntry);
    assert_eq!(ModInfo::from_manifest(r#"[{"name":null}]"#).unwrap_err(), ParseError::BadEntry);
    assert_eq!(ModInfo::from_manifest(r#"[{"name":"A","authors":7}]"#).unwrap_err(), ParseError::BadEntry);
    assert_eq!(
        ModInfo::from_manifest(r#"[{"name":"A","authors":["x",1]}]"#).unwrap_err(),
        ParseError::BadEntry
    );
    assert_eq!(
        ModInfo::from_manifest(r#"[{"name":"A","obsolete":"yes"}]"#).unwrap_err(),
        ParseError::BadEntry
    );
    assert_eq!(ModInfo::from_manifest(r#"["Alpha"]"#).unwrap_err(), ParseError::BadEntry);
}

#[test]
fn parse_copies_every_kind_of_value() {
    let doc = parse(r#"{"b":[1,"two",null,true],"a":{"n":2.5}}"#).unwrap();
    match doc.get("b") {
        Some(Json::Array(items)) => {
            assert_eq!(items.len(), 4);
            assert!(matches!(&items[0], Json::Number(n) if n == "1"));
            assert!(matches!(&items[1], Json::Text(s) if s == "two"));
            assert!(matches!(&items[2], Json::Null));
            assert!(matches!(&items[3], Json::Bool(true)));
        }
        _ => panic!("b is an array"),
    }
    match doc.get("a") {
        Some(inner) => assert!(matches!(inner.get("n"), Some(Json::Number(n)) if n == "2.5")),
        None => panic!("a is a member"),
    }
    assert!(doc.get("c").is_none());
    assert!(parse("{").is_none());
    assert!(parse("").is_none());
}

#[test]
fn string_or_list_becomes_a_list() {
    assert_eq!(StringOrVec::String("x".to_string()).into_list(), vec!["x"]);
    assert_eq!(
        StringOrVec::Vec(vec!["x".to_string(), "y".to_string()]).into_list(),
        vec!["x", "y"]
    );
    let one = parse(r#""solo""#).unwrap();
    assert_eq!(StringOrVec::from_json(&one).unwrap().into_list(), vec!["solo"]);
    let none = parse("3").unwrap();
    assert!(StringOrVec::from_json(&none).is_none());
}

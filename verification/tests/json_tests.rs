use expression_trainer::json::{find_member, overlay_members, put_member, Json};

fn member(k: &str, v: Json) -> (String, Json) {
    (k.to_string(), v)
}

fn text(j: Option<&Json>) -> Option<String> {
    match j {
        Some(Json::Str(s)) => Some(s.clone()),
        _ => None,
    }
}

#[test]
fn put_then_get() {
    let mut fields = vec![member("a", Json::Str("1".to_string())), member("b", Json::Null)];
    put_member(&mut fields, "a", Json::Str("2".to_string()));
    put_member(&mut fields, "c", Json::Str("3".to_string()));
    assert_eq!(fields.len(), 3);
    assert_eq!(fields[0].0, "a");
    let obj = Json::Object(fields);
    assert_eq!(text(obj.get("a")), Some("2".to_string()));
    assert_eq!(text(obj.get("c")), Some("3".to_string()));
    assert!(matches!(obj.get("b"), Some(Json::Null)));
    assert!(obj.get("d").is_none());
}

#[test]
fn get_on_non_object_and_first_match() {
    assert!(Json::Array(vec![Json::Null]).get("a").is_none());
    let fields = vec![member("k", Json::Bool(true)), member("k", Json::Bool(false))];
    assert_eq!(find_member(&fields, "k"), Some(0));
    assert_eq!(find_member(&fields, "z"), None);
    assert!(matches!(Json::Object(fields).get("k"), Some(Json::Bool(true))));
}

#[test]
fn items_by_index() {
    let a = Json::Array(vec![Json::Str("x".to_string()), Json::Null]);
    assert_eq!(text(a.at(0)), Some("x".to_string()));
    assert!(matches!(a.at(1), Some(Json::Null)));
    assert!(a.at(2).is_none());
    assert!(Json::Null.at(0).is_none());
}

#[test]
fn overlay_sets_members_in_turn() {
    let mut base = vec![member("model", Json::Str("m".to_string())), member("apiKey", Json::Str(String::new()))];
    let top = vec![member("apiKey", Json::Str("k".to_string())), member("extra", Json::Bool(true))];
    overlay_members(&mut base, &top);
    let obj = Json::Object(base);
    assert_eq!(text(obj.get("model")), Some("m".to_string()));
    assert_eq!(text(obj.get("apiKey")), Some("k".to_string()));
    assert!(matches!(obj.get("extra"), Some(Json::Bool(true))));
}

#[test]
fn deep_clone_copies_nested_values() {
    let v = Json::Object(vec![member("list", Json::Array(vec![Json::Number("1.5".to_string())]))]);
    let c = v.deep_clone();
    match c.get("list") {
        Some(Json::Array(items)) => assert!(matches!(&items[0], Json::Number(n) if n == "1.5")),
        _ => panic!("the copy must hold the list"),
    }
}

use min::json::{Dict, Json};
use serde_json::Value;

fn parse(s: &str) -> Json {
    Json::parse_text(s).unwrap()
}

fn dict(s: &str) -> Dict {
    match parse(s) {
        Json::Dict(d) => d,
        _ => panic!("no object"),
    }
}

fn keys(d: &Dict) -> Vec<String> {
    (0..d.len()).map(|i| d.key(i).clone()).collect()
}

#[test]
fn parsing_text_gives_the_document() {
    let j = parse(r#"{"b":[1,null],"a":"x","c":true}"#);
    assert_eq!(j.get("a"), Some(&Json::text("x")));
    assert_eq!(j.get("c"), Some(&Json::Bool(true)));
    assert_eq!(j.at("b").head().as_u64(), Some(1));
    assert_eq!(j.get("d"), None);
}

#[test]
fn parsing_bytes_gives_the_document() {
    assert_eq!(Json::parse_bytes(b" [ \"\\u00fc\" ] "), Ok(Json::List(vec![Json::text("ü")])));
    assert_eq!(Json::parse_bytes(b"null"), Ok(Json::Null));
}

#[test]
fn parsing_errors_have_their_words() {
    let empty = "EOF while parsing a value at line 1 column 0";
    assert_eq!(Json::parse_text(""), Err(empty.to_string()));
    assert_eq!(Json::parse_bytes(b""), Err(empty.to_string()));
    let words = serde_json::from_slice::<Value>(b"[1,").unwrap_err().to_string();
    assert_eq!(Json::parse_bytes(b"[1,"), Err(words));
    let words = serde_json::from_str::<Value>("{\"a\" 1}").unwrap_err().to_string();
    assert_eq!(Json::parse_text("{\"a\" 1}"), Err(words));
    assert!(Json::parse_bytes(&[0x22, 0xff, 0x22]).is_err());
}

#[test]
fn parsing_yaml_gives_the_document() {
    let j = Json::parse_yaml("b: 2\na: [x, true]\n").unwrap();
    assert_eq!(j.to_text(), r#"{"a":["x",true],"b":2}"#);
    let words = serde_yaml::from_str::<Value>("a: [").unwrap_err().to_string();
    assert_eq!(Json::parse_yaml("a: ["), Err(words));
}

#[test]
fn text_is_compact_and_ordered() {
    let j = parse(r#" { "b" : [ 1 , 2.5 , -3 ] , "a" : "q\"\n" } "#);
    assert_eq!(j.to_text(), r#"{"a":"q\"\n","b":[1,2.5,-3]}"#);
    assert_eq!(j.to_bytes(), j.to_text().into_bytes());
    assert_eq!(Json::Null.to_text(), "null");
    assert_eq!(Json::Dict(Dict::new()).to_text(), "{}");
}

#[test]
fn values_go_in_and_out() {
    let v: Value = serde_json::from_str(r#"{"z":{"y":[]},"a":[null,false,"s",7]}"#).unwrap();
    let j = Json::from_value(v.clone());
    assert_eq!(j.at("z").get("y"), Some(&Json::List(vec![])));
    assert_eq!(j.to_value(), v);
}

#[test]
fn copies_are_equal() {
    let j = parse(r#"{"a":[1,2.5,{"b":null}],"c":"x"}"#);
    assert_eq!(j.clone(), j);
    let d = dict(r#"{"a":18446744073709551615}"#);
    assert_eq!(d.clone(), d);
}

#[test]
fn numbers_are_read_as_integers() {
    assert_eq!(parse("7").as_u64(), Some(7));
    assert_eq!(parse("18446744073709551615").as_u64(), Some(u64::MAX));
    assert_eq!(parse("-1").as_u64(), None);
    assert_eq!(parse("1.0").as_u64(), None);
    assert_eq!(parse("\"7\"").as_u64(), None);
}

#[test]
fn scalars_have_a_text() {
    assert_eq!(parse("\"x\"").scalar_text(), Some("x".to_string()));
    assert_eq!(parse("12").scalar_text(), Some("12".to_string()));
    assert_eq!(parse("1.5").scalar_text(), Some("1.5".to_string()));
    assert_eq!(parse("true").scalar_text(), Some("true".to_string()));
    assert_eq!(parse("false").scalar_text(), Some("false".to_string()));
    assert_eq!(parse("null").scalar_text(), None);
    assert_eq!(parse("[]").scalar_text(), None);
    assert_eq!(parse("{}").scalar_text(), None);
}

#[test]
fn what_is_missing_reads_as_null() {
    let j = parse(r#"{"a":1}"#);
    assert_eq!(j.at("b"), &Json::Null);
    assert_eq!(j.head(), &Json::Null);
    assert_eq!(parse("[]").head(), &Json::Null);
    assert_eq!(parse("[3,4]").head().as_u64(), Some(3));
    assert_eq!(parse("[1]").get("a"), None);
    assert_eq!(j.at("a").as_str(), None);
    assert_eq!(j.at("a").str_or_empty(), "");
    assert_eq!(parse("\"s\"").as_str(), Some("s"));
}

#[test]
fn putting_keeps_the_order() {
    let mut d = Dict::new();
    for k in ["b", "é", "a", "ab", "B", ""] {
        d.insert(k.to_string(), Json::text(k));
    }
    assert_eq!(keys(&d), vec!["", "B", "a", "ab", "b", "é"]);
    for k in ["b", "é", "a", "ab", "B", ""] {
        assert_eq!(d.get(k), Some(&Json::text(k)));
    }
    assert_eq!(d.get("c"), None);
    assert_eq!(d.value(2), &Json::text("a"));
}

#[test]
fn the_last_put_counts() {
    let mut d = dict(r#"{"a":1,"b":2}"#);
    d.insert("a".to_string(), Json::Null);
    d.insert("a".to_string(), Json::Bool(true));
    assert_eq!(Json::Dict(d).to_text(), r#"{"a":true,"b":2}"#);
}

#[test]
fn puts_of_different_keys_commute() {
    let mut x = dict(r#"{"m":0}"#);
    let mut y = dict(r#"{"m":0}"#);
    x.insert("k".to_string(), Json::Null);
    x.insert("z".to_string(), Json::Bool(true));
    y.insert("z".to_string(), Json::Bool(true));
    y.insert("k".to_string(), Json::Null);
    assert_eq!(x, y);
}

#[test]
fn removing_takes_one_member_out() {
    let mut d = dict(r#"{"a":1,"b":2,"c":3}"#);
    assert_eq!(d.remove("b").and_then(|j| j.as_u64()), Some(2));
    assert_eq!(d.remove("b"), None);
    assert_eq!(keys(&d), vec!["a", "c"]);
    assert_eq!(d.get("b"), None);
    assert_eq!(d.get("c").and_then(|j| j.as_u64()), Some(3));
}

use min::json::Json;
use min::query::{enc, getish, min_qs, qs, query_of, tool_dest};

fn parse(s: &str) -> Json {
    Json::parse_text(s).unwrap()
}

fn decoded(s: &str) -> String {
    let b = s.as_bytes();
    let mut out = Vec::new();
    let mut i = 0;
    while i < b.len() {
        if b[i] == b'%' {
            out.push(u8::from_str_radix(&s[i + 1..i + 3], 16).unwrap());
            i += 3;
        } else {
            out.push(b[i]);
            i += 1;
        }
    }
    String::from_utf8(out).unwrap()
}

#[test]
fn encoding_escapes_bytes() {
    assert_eq!(enc("a b"), "a%20b");
    assert_eq!(enc("ü"), "%C3%BC");
    assert_eq!(enc("&=%?/"), "%26%3D%25%3F%2F");
    assert_eq!(enc("\u{7f}\0"), "%7F%00");
    assert_eq!(enc(""), "");
}

#[test]
fn encoding_leaves_unreserved_characters() {
    let s = "AZaz09-_.~";
    assert_eq!(enc(s), s);
}

#[test]
fn encoding_can_be_undone() {
    for s in ["", "a b&c=d", "ünï", "100%", "中文", "%20"] {
        let e = enc(s);
        assert_eq!(decoded(&e), s);
        assert!(e.bytes().all(|b| b.is_ascii_alphanumeric() || b"-_.~%".contains(&b)));
    }
    assert_ne!(enc("%20"), enc(" "));
}

#[test]
fn queries_follow_the_keys() {
    let args = parse(r#"{"b":1,"a":"x y","d":[1,"z"],"e":true,"f":{}}"#);
    assert_eq!(qs(&args), "a=x%20y&b=1&d=%5B1%2C%22z%22%5D&e=true&f=%7B%7D");
}

#[test]
fn queries_skip_null() {
    assert_eq!(qs(&parse(r#"{"a":null,"b":"","c":null}"#)), "b=");
    assert_eq!(qs(&parse(r#"{"a":null}"#)), "");
    assert_eq!(qs(&parse("{}")), "");
}

#[test]
fn only_objects_make_queries() {
    assert_eq!(qs(&parse("[1]")), "");
    assert_eq!(qs(&parse("\"a\"")), "");
}

#[test]
fn queries_of_bytes() {
    assert_eq!(min_qs(br#"{"q":"a&b","n":2,"x":null}"#), b"n=2&q=a%26b");
    assert_eq!(min_qs(b"[1]"), b"");
    assert_eq!(min_qs(b"{"), b"");
    assert_eq!(query_of(&Ok(parse(r#"{"a":1}"#))), b"a=1");
    assert_eq!(query_of(&Err("odd".to_string())), b"");
}

#[test]
fn some_methods_carry_arguments_in_the_address() {
    for m in ["GET", "HEAD", "DELETE"] {
        assert!(getish(m));
    }
    for m in ["POST", "PUT", "PATCH", "get", ""] {
        assert!(!getish(m));
    }
}

#[test]
fn destinations_take_the_query() {
    let args = parse(r#"{"a":1}"#);
    assert_eq!(tool_dest("http://h/x", "GET", &args), "http://h/x?a=1");
    assert_eq!(tool_dest("http://h/x?k=v", "HEAD", &args), "http://h/x?k=v&a=1");
    assert_eq!(tool_dest("http://h/x", "DELETE", &parse("{}")), "http://h/x");
    assert_eq!(tool_dest("http://h/x", "GET", &parse("[1]")), "http://h/x");
    assert_eq!(tool_dest("http://h/x", "POST", &args), "http://h/x");
    assert_eq!(tool_dest("http://h/x", "get", &args), "http://h/x");
}

#[test]
fn encodings_add_up() {
    assert_eq!(enc("a ü&"), enc("a ") + &enc("ü&"));
    assert_eq!(enc("a ü&").len(), 1 + 3 + 6 + 3);
    assert_eq!(enc("~x").len(), 2);
}

#[test]
fn queries_split_back() {
    let q = qs(&parse(r#"{"a=b":"1&2","c":null,"d":"","e":[1]}"#));
    let read: Vec<(String, String)> = q
        .split('&')
        .map(|p| p.split_once('=').unwrap())
        .map(|(k, v)| (decoded(k), decoded(v)))
        .collect();
    let want = [("a=b", "1&2"), ("d", ""), ("e", "[1]")];
    assert_eq!(read, want.map(|(k, v)| (k.to_string(), v.to_string())));
}

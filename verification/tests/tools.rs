use min::json::Json;
use min::tools::{load_tools, peel_tools, plan_tool, tool_method, ToolRequest, Verb};

fn parse(s: &str) -> Json {
    Json::parse_text(s).unwrap()
}

fn request(verb: Verb, url: &str) -> ToolRequest {
    let body = if verb.carries_body() { Some(parse(r#"{"q":1}"#)) } else { None };
    ToolRequest { verb, url: url.to_string(), body }
}

const TOOLS: &str = r#"[
    {"type":"function","function":{"name":"find"},"method":"get","url":"/find"},
    {"function":{"name":"save"}},
    {"function":{},"method":"put","url":"/u"},
    "text"]"#;

#[test]
fn peeling_hides_the_routes() {
    let (seen, specs) = peel_tools(&parse(TOOLS));
    assert_eq!(
        seen.to_text(),
        r#"[{"function":{"name":"find"},"type":"function"},{"function":{"name":"save"}},{"function":{}},"text"]"#
    );
    assert_eq!(Json::Dict(specs).to_text(), r#"{"find":{"method":"get"},"save":{}}"#);
}

#[test]
fn loading_keeps_the_addresses() {
    let (seen, specs) = load_tools(&parse(TOOLS));
    assert_eq!(seen, peel_tools(&parse(TOOLS)).0);
    assert_eq!(
        Json::Dict(specs).to_text(),
        r#"{"find":{"method":"get","url":"/find"},"save":{}}"#
    );
}

#[test]
fn the_last_tool_of_a_name_counts() {
    let tools = parse(
        r#"[{"function":{"name":"a"},"method":"PUT"},{"function":{"name":"b"},"method":"HEAD"},
            {"function":{"name":"a"},"method":"GET"}]"#,
    );
    let (_, specs) = load_tools(&tools);
    assert_eq!(specs.get("a").map(|s| s.to_text()), Some(r#"{"method":"GET"}"#.to_string()));
    assert_eq!(specs.get("b").map(|s| s.to_text()), Some(r#"{"method":"HEAD"}"#.to_string()));
}

#[test]
fn what_is_no_list_stays() {
    for s in ["null", r#"{"method":"GET"}"#, "7"] {
        let (seen, specs) = peel_tools(&parse(s));
        assert_eq!(seen, parse(s));
        assert_eq!(specs.len(), 0);
    }
}

#[test]
fn methods_are_upper_case_and_default_to_post() {
    assert_eq!(tool_method(None), "POST");
    assert_eq!(tool_method(Some(&parse("{}"))), "POST");
    assert_eq!(tool_method(Some(&parse(r#"{"method":7}"#))), "POST");
    assert_eq!(tool_method(Some(&parse(r#"{"method":"patch"}"#))), "PATCH");
    assert_eq!(tool_method(Some(&parse(r#"{"method":""}"#))), "");
}

#[test]
fn every_method_has_its_verb() {
    let args = parse(r#"{"q":1}"#);
    let plan = |m: &str| plan_tool("http://h", Some(&parse(&format!("{{\"method\":\"{m}\"}}"))), &args);
    assert_eq!(plan("get"), request(Verb::Get, "http://h?q=1"));
    assert_eq!(plan("Head"), request(Verb::Head, "http://h?q=1"));
    assert_eq!(plan("DELETE"), request(Verb::Delete, "http://h?q=1"));
    assert_eq!(plan("put"), request(Verb::Put, "http://h"));
    assert_eq!(plan("patch"), request(Verb::Patch, "http://h"));
    assert_eq!(plan("post"), request(Verb::Post, "http://h"));
    assert_eq!(plan("brew"), request(Verb::Post, "http://h"));
    assert_eq!(plan_tool("http://h", None, &args), request(Verb::Post, "http://h"));
}

#[test]
fn addresses_are_resolved() {
    let args = parse(r#"{"q":"x"}"#);
    let plan = |u: &str| plan_tool("http://h/", Some(&parse(&format!("{{\"method\":\"GET\",\"url\":\"{u}\"}}"))), &args).url;
    assert_eq!(plan("/a"), "http://h/a?q=x");
    assert_eq!(plan("/a?b=1"), "http://h/a?b=1&q=x");
    assert_eq!(plan("https://o/a"), "https://o/a?q=x");
    assert_eq!(plan("httpish"), "httpish?q=x");
    assert_eq!(plan(""), "http://h/?q=x");
}

#[test]
fn three_verbs_carry_a_body() {
    for v in [Verb::Put, Verb::Patch, Verb::Post] {
        assert!(v.carries_body());
    }
    for v in [Verb::Get, Verb::Head, Verb::Delete] {
        assert!(!v.carries_body());
    }
}

#[test]
fn peeling_twice_is_peeling_once() {
    let once = peel_tools(&parse(TOOLS)).0;
    let (twice, specs) = peel_tools(&once);
    assert_eq!(twice, once);
    assert_eq!(Json::Dict(specs).to_text(), r#"{"find":{},"save":{}}"#);
}

#[test]
fn routes_differ_in_the_address_alone() {
    let (_, bare) = peel_tools(&parse(TOOLS));
    let (_, full) = load_tools(&parse(TOOLS));
    assert_eq!(bare.len(), full.len());
    for i in 0..full.len() {
        let mut d = match full.value(i) {
            Json::Dict(d) => d.clone(),
            _ => panic!("no object"),
        };
        let _ = d.remove("url");
        assert_eq!(bare.get(full.key(i)), Some(&Json::Dict(d)));
    }
}

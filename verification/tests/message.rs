use min::json::Json;
use min::message::{
    chars, compact, mask, measure, min_chars, min_compact, send, to_list, Msg,
};

fn parse(s: &str) -> Json {
    Json::parse_text(s).unwrap()
}

fn items(s: &str) -> Vec<Json> {
    match parse(s) {
        Json::List(v) => v,
        _ => panic!("no list"),
    }
}

fn text(v: Vec<Json>) -> String {
    Json::List(v).to_text()
}

fn tool(id: &str, out: &str) -> Msg {
    Msg {
        role: "tool".to_string(),
        content: Some(Json::text(out)),
        tool_calls: None,
        tool_call_id: Some(id.to_string()),
    }
}

fn history() -> Vec<Msg> {
    vec![
        Msg::plain("system", "be kind".to_string()),
        Msg::plain("user", "hi".to_string()),
        tool("1", "long"),
        Msg::plain("assistant", "ok".to_string()),
        tool("2", "short"),
    ]
}

#[test]
fn messages_write_what_they_have() {
    assert_eq!(
        Msg::plain("user", "hi".to_string()).to_json().to_text(),
        r#"{"content":"hi","role":"user"}"#
    );
    assert_eq!(
        tool("7", "out").to_json().to_text(),
        r#"{"content":"out","role":"tool","tool_call_id":"7"}"#
    );
    let m = Msg {
        role: "assistant".to_string(),
        content: None,
        tool_calls: Some(parse("[1]")),
        tool_call_id: None,
    };
    assert_eq!(m.to_json().to_text(), r#"{"role":"assistant","tool_calls":[1]}"#);
    assert_eq!(m.clone(), m);
    assert_eq!(to_list(&vec![]).to_text(), "[]");
}

#[test]
fn sending_blanks_old_outputs() {
    let out = send(2, 1, &history());
    let mut want = history();
    want[2].content = Some(Json::text(""));
    assert_eq!(out, want);
}

#[test]
fn sending_keeps_the_pinned_and_the_last() {
    assert_eq!(send(3, 0, &history())[2], history()[2]);
    assert_eq!(send(0, 5, &history()), history());
    assert_eq!(send(9, 0, &history()), history());
    let out = send(0, 0, &history());
    assert_eq!(out[4].content, Some(Json::text("")));
    assert_eq!(out[4].tool_call_id, Some("2".to_string()));
    assert_eq!(out[3], history()[3]);
}

#[test]
fn sending_drops_calls_of_a_tool() {
    let mut ms = history();
    ms[2].tool_calls = Some(parse("[1]"));
    ms[2].content = None;
    let out = send(0, 0, &ms);
    assert_eq!(out[2], tool("1", ""));
}

#[test]
fn sending_twice_is_sending_once() {
    let once = send(1, 1, &history());
    assert_eq!(send(1, 1, &once), once);
    assert_eq!(once.len(), history().len());
}

#[test]
fn masking_blanks_old_outputs() {
    let ms = items(
        r#"[{"role":"user","content":"a"},{"role":"tool","content":"b","x":1},
            {"role":"assistant"},{"role":"tool"},{"role":"tool","content":"c"}]"#,
    );
    assert_eq!(
        text(mask(1, 1, &ms)),
        [
            r#"[{"content":"a","role":"user"},{"content":"","role":"tool","x":1},"#,
            r#"{"role":"assistant"},{"content":"","role":"tool"},{"content":"c","role":"tool"}]"#,
        ]
        .concat()
    );
}

#[test]
fn masking_twice_is_masking_once() {
    let ms = items(r#"[{"role":"tool","content":"b"},3,{"role":"tool","content":[1]}]"#);
    let once = mask(0, 1, &ms);
    assert_eq!(mask(0, 1, &once), once);
    assert_eq!(once[1], ms[1]);
    assert_eq!(once[2], ms[2]);
    assert_eq!(mask(5, 0, &ms), ms);
    assert_eq!(mask(0, 3, &ms), ms);
}

#[test]
fn masking_the_list_is_listing_what_is_sent() {
    let list = match to_list(&history()) {
        Json::List(v) => v,
        _ => unreachable!(),
    };
    assert_eq!(Json::List(mask(1, 1, &list)), to_list(&send(1, 1, &history())));
}

#[test]
fn lengths_count_roles_and_documents() {
    assert_eq!(chars(&vec![]), 0);
    assert_eq!(chars(&vec![Msg::plain("user", "hi".to_string())]), 8);
    assert_eq!(chars(&vec![Msg::plain("user", "ü".to_string())]), 8);
    let m = Msg {
        role: "assistant".to_string(),
        content: None,
        tool_calls: Some(parse(r#"[{"id":"1"}]"#)),
        tool_call_id: Some("ignored".to_string()),
    };
    assert_eq!(chars(&vec![m, Msg::plain("a", String::new())]), 9 + 12 + 3);
}

#[test]
fn lengths_of_bytes() {
    assert_eq!(min_chars(br#"[{"role":"user","content":"hi"}]"#), 8);
    assert_eq!(min_chars(br#"[{"role":5,"content":null,"tool_calls":[1, 2]},7]"#), 9);
    assert_eq!(min_chars(b"[]"), 0);
    assert_eq!(min_chars(b"not json"), 8);
    assert_eq!(min_chars(br#"{"role":"user"}"#), 15);
}

#[test]
fn compacting_bytes() {
    let raw = br#"[ {"role":"user","content":"q"}, {"role":"tool","content":"b"}, 1 ]"#;
    assert_eq!(
        min_compact(raw, 1, 0),
        br#"[{"content":"q","role":"user"},{"content":"","role":"tool"},1]"#
    );
    assert_eq!(
        min_compact(raw, 1, 2),
        br#"[{"content":"q","role":"user"},{"content":"b","role":"tool"},1]"#
    );
    assert_eq!(min_compact(b"{ }", 0, 0), b"{ }");
    assert_eq!(min_compact(b"oops", 0, 0), b"oops");
}

#[test]
fn what_was_read_is_measured_and_compacted() {
    let list = Ok(parse(r#"[{"role":"tool","content":"b"}]"#));
    assert_eq!(measure(&list, 99), 7);
    assert_eq!(measure(&Ok(Json::Null), 99), 99);
    assert_eq!(measure(&Err("odd".to_string()), 99), 99);
    assert_eq!(compact(&list, b"raw", 0, 0), br#"[{"content":"","role":"tool"}]"#);
    assert_eq!(compact(&Ok(Json::Null), b"raw", 0, 0), b"raw");
    assert_eq!(compact(&Err("odd".to_string()), b"raw", 0, 0), b"raw");
}

#[test]
fn keeping_fewer_never_sends_more() {
    let ms = history();
    let mut last = 0;
    for keep in 0..7 {
        let n = chars(&send(1, keep, &ms));
        assert!(last <= n);
        assert!(n <= chars(&ms));
        last = n;
    }
    assert_eq!(chars(&ms) - chars(&send(1, 0, &ms)), 4 + 5);
    assert_eq!(chars(&vec![Msg::plain("a", "\"\n\u{1}".to_string())]), 1 + 2 + 2 + 2 + 6);
}

#[test]
fn sending_again_with_less_whole() {
    assert_eq!(send(1, 0, &send(3, 1, &history())), send(1, 0, &history()));
    let ms = items(r#"[{"role":"tool","content":"a"},{"role":"tool"},{"role":"tool","content":"b"}]"#);
    assert_eq!(mask(0, 0, &mask(1, 1, &ms)), mask(0, 0, &ms));
}

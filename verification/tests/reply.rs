use min::json::Json;
use min::reply::{
    answer_message, args_of, assistant_message, calls_tools, note_reply, note_tool, read_call, read_calls,
    reply_choice, reply_message, reply_used, tool_output,
};

fn parse(s: &str) -> Json {
    Json::parse_text(s).unwrap()
}

fn calling() -> Json {
    parse(
        r#"{"choices":[{"finish_reason":"stop","message":{"content":null,"tool_calls":[
            {"id":"c1","function":{"name":"find","arguments":"{\"q\": 1}"}},
            {"id":"c2","function":{"name":"save","arguments":{"x":2}}}]}}],
            "usage":{"prompt_tokens":41}}"#,
    )
}

#[test]
fn replies_are_taken_apart() {
    let v = calling();
    assert_eq!(reply_choice(&v).at("finish_reason").as_str(), Some("stop"));
    assert_eq!(reply_message(&v).get("content"), Some(&Json::Null));
    assert_eq!(reply_used(&v), Some(41));
    assert_eq!(reply_used(&parse(r#"{"usage":{"prompt_tokens":-1}}"#)), None);
    assert_eq!(reply_used(&parse("{}")), None);
    assert_eq!(reply_message(&parse(r#"{"choices":[]}"#)), &Json::Null);
}

#[test]
fn calls_are_seen_by_list_or_by_reason() {
    assert!(calls_tools(&calling()));
    assert!(calls_tools(&parse(r#"{"choices":[{"finish_reason":"tool_calls"}]}"#)));
    assert!(!calls_tools(&parse(r#"{"choices":[{"message":{"tool_calls":[]}}]}"#)));
    assert!(!calls_tools(&parse(r#"{"choices":[{"message":{"tool_calls":{"a":1}}}]}"#)));
    assert!(!calls_tools(&parse("{}")));
}

#[test]
fn calls_are_read_in_order() {
    let cs = read_calls(&calling());
    assert_eq!(cs.len(), 2);
    assert_eq!((cs[0].id.as_str(), cs[0].name.as_str()), ("c1", "find"));
    assert_eq!(cs[0].args.to_text(), r#"{"q":1}"#);
    assert_eq!((cs[1].id.as_str(), cs[1].name.as_str()), ("c2", "save"));
    assert_eq!(cs[1].args.to_text(), r#"{"x":2}"#);
    assert_eq!(read_calls(&parse("{}")), vec![]);
}

#[test]
fn broken_arguments_are_empty() {
    let c = read_call(&parse(r#"{"id":5,"function":{"arguments":"{oops"}}"#));
    assert_eq!((c.id.as_str(), c.name.as_str()), ("", ""));
    assert_eq!(c.args.to_text(), "{}");
    assert_eq!(read_call(&parse("{}")).args, Json::Null);
    assert_eq!(args_of(Err("odd".to_string())).to_text(), "{}");
    assert_eq!(args_of(Ok(parse("[1]"))).to_text(), "[1]");
    assert_eq!(read_call(&parse(r#"{"function":{"arguments":"[1]"}}"#)).args.to_text(), "[1]");
}

#[test]
fn replies_become_messages() {
    let v = calling();
    let m = assistant_message(&v, true);
    assert_eq!(m.role, "assistant");
    assert_eq!(m.content, Some(Json::Null));
    assert_eq!(m.tool_calls.as_ref(), Some(reply_message(&v).at("tool_calls")));
    assert_eq!(assistant_message(&v, false).tool_calls, None);
    assert_eq!(assistant_message(&parse("{}"), true).content, None);
    assert_eq!(assistant_message(&parse("{}"), true).tool_calls, Some(Json::Null));
}

#[test]
fn answers_name_their_call() {
    assert_eq!(
        answer_message("c1", "done").to_json().to_text(),
        r#"{"content":"done","role":"tool","tool_call_id":"c1"}"#
    );
}

#[test]
fn notes_have_their_form() {
    let v = parse(r#"{"choices":[{"finish_reason":"stop","message":{"content":"x"}}]}"#);
    assert_eq!(note_reply(&v), r#"chat finish=stop used=None {"content":"x"}"#);
    let v = parse(r#"{"usage":{"prompt_tokens":120}}"#);
    assert_eq!(note_reply(&v), "chat finish= used=Some(120) null");
    let c = &read_calls(&calling())[0];
    assert_eq!(note_tool(c, "ok"), r#"tool find {"q":1} -> ok"#);
}

#[test]
fn what_goes_wrong_is_the_output() {
    assert_eq!(tool_output(Ok("body".to_string())), "body");
    assert_eq!(tool_output(Err("timeout".to_string())), "tool error: timeout");
}

use min::config::{load_config, Cfg};
use min::json::Json;
use min::message::{to_list, Msg};
use min::talk::{turn, Deed, Next, Reply};
use min::tools::Verb;

fn cfg(more: &str) -> Cfg {
    let yaml = format!("url: http://m\nexec: http://e\nmodel: m\n{more}");
    let d = load_config("c", &yaml, &vec![]).unwrap_or_else(|e| panic!("{}", e.message()));
    d.complete_with("").unwrap_or_else(|e| panic!("{}", e.message()))
}

fn user(s: &str) -> Msg {
    Msg::plain("user", s.to_string())
}

fn got(s: &str) -> Reply {
    Reply::Got { reply: Json::parse_text(s).unwrap() }
}

fn says(s: &str) -> Reply {
    got(&format!(r#"{{"choices":[{{"finish_reason":"stop","message":{{"content":"{s}"}}}}]}}"#))
}

fn calls(tokens: u64) -> Reply {
    got(&format!(
        r#"{{"choices":[{{"finish_reason":"tool_calls","message":{{"content":null,"tool_calls":[
            {{"id":"1","function":{{"name":"find","arguments":"{{\"q\":\"x y\"}}"}}}},
            {{"id":"2","function":{{"name":"save","arguments":"{{}}"}}}}]}}}}],
            "usage":{{"prompt_tokens":{tokens}}}}}"#
    ))
}

const TOOLS: &str = "tools:\n- function:\n    name: find\n  method: get\n  url: /find\n";

struct World {
    replies: Vec<Reply>,
    outputs: Vec<&'static str>,
    inboxes: Vec<Vec<&'static str>>,
    deaf_from: usize,
}

struct Log {
    posts: Vec<String>,
    events: Vec<String>,
    asked: Vec<(String, Vec<(String, String)>)>,
    runs: Vec<(Verb, String, Option<String>)>,
    run_headers: Vec<Vec<(String, String)>>,
    notes: Vec<String>,
    pulls: usize,
    messages: Vec<Msg>,
    result: Result<String, String>,
}

fn play(cfg: &Cfg, mut next: Next, world: World) -> Log {
    let mut replies = world.replies.into_iter();
    let mut outputs = world.outputs.into_iter();
    let mut inboxes = world.inboxes.into_iter();
    let mut log = Log {
        posts: vec![],
        events: vec![],
        asked: vec![],
        runs: vec![],
        run_headers: vec![],
        notes: vec![],
        pulls: 0,
        messages: vec![],
        result: Ok(String::new()),
    };
    loop {
        log.notes.extend(next.notes);
        next = match next.deed {
            Deed::Post { url, headers, body, state } => {
                log.asked.push((url, headers));
                log.posts.push(body.to_text());
                let none = Reply::Failed { words: "no more".to_string() };
                state.resume(replies.next().unwrap_or(none))
            }
            Deed::Emit { event, state } => {
                log.events.push(event.to_text());
                let deaf = log.events.len() > world.deaf_from;
                state.resume(cfg, if deaf { Err("gone".to_string()) } else { Ok(()) })
            }
            Deed::Run { request, headers, state } => {
                let body = request.body.map(|j| j.to_text());
                log.runs.push((request.verb, request.url, body));
                log.run_headers.push(headers);
                state.resume(outputs.next().unwrap_or("").to_string())
            }
            Deed::Pull { state } => {
                log.pulls += 1;
                let ps = inboxes.next().unwrap_or_default();
                state.resume(cfg, ps.iter().map(|p| p.to_string()).collect())
            }
            Deed::Done { messages, result } => {
                log.messages = messages;
                log.result = result;
                return log;
            }
        };
    }
}

fn world(replies: Vec<Reply>) -> World {
    World { replies, outputs: vec!["found", "saved"], inboxes: vec![], deaf_from: usize::MAX }
}

fn extra() -> Vec<(String, String)> {
    vec![("X-Tool".to_string(), "t".to_string())]
}

fn once(c: &Cfg, w: World) -> Log {
    play(c, turn(c, vec![user("hi")], 1, extra(), false), w)
}

fn served(c: &Cfg, w: World) -> Log {
    play(c, turn(c, vec![user("hi")], 1, extra(), true), w)
}

#[test]
fn a_reply_ends_the_turn() {
    let c = cfg("temperature: 0\n");
    let l = once(&c, world(vec![says("hello")]));
    assert_eq!(
        l.posts,
        vec![r#"{"messages":[{"content":"hi","role":"user"}],"model":"m","temperature":0}"#]
    );
    assert_eq!(l.events, vec![r#"{"t":"say","x":"hello"}"#]);
    assert_eq!(
        l.notes,
        vec![r#"chat finish=stop used=None {"content":"hello"}"#, "out hello"]
    );
    assert_eq!(l.messages, vec![user("hi"), Msg::plain("assistant", "hello".to_string())]);
    assert_eq!(l.result, Ok("hello".to_string()));
}

#[test]
fn calls_are_run_and_answered_in_order() {
    let c = cfg(TOOLS);
    let l = once(&c, world(vec![calls(5), says("done")]));
    assert_eq!(
        l.runs,
        vec![
            (Verb::Get, "http://e/find?q=x%20y".to_string(), None),
            (Verb::Post, "http://e".to_string(), Some("{}".to_string())),
        ]
    );
    assert_eq!(
        l.events,
        vec![
            r#"{"a":{"q":"x y"},"n":"find","t":"call"}"#,
            r#"{"n":"find","t":"out","x":"found"}"#,
            r#"{"a":{},"n":"save","t":"call"}"#,
            r#"{"n":"save","t":"out","x":"saved"}"#,
            r#"{"t":"say","x":"done"}"#,
        ]
    );
    assert_eq!(l.notes[1], r#"tool find {"q":"x y"} -> found"#);
    let ids: Vec<_> = l.messages.iter().map(|m| m.tool_call_id.clone()).collect();
    let roles: Vec<_> = l.messages.iter().map(|m| m.role.as_str()).collect();
    assert_eq!(roles, vec!["user", "assistant", "tool", "tool", "assistant"]);
    assert_eq!(ids[2..4], [Some("1".to_string()), Some("2".to_string())]);
    assert_eq!(l.messages[3].content, Some(Json::text("saved")));
    assert_eq!(l.result, Ok("done".to_string()));
    let again = to_list(&l.messages[..4].to_vec()).to_text();
    assert!(l.posts[1].contains(&again));
}

#[test]
fn a_call_without_a_list_asks_again() {
    let c = cfg("");
    let empty = got(r#"{"choices":[{"finish_reason":"tool_calls","message":{"content":"c"}}]}"#);
    let l = once(&c, world(vec![empty, says("end")]));
    assert_eq!(l.runs, vec![]);
    assert_eq!(l.posts.len(), 2);
    assert_eq!(l.messages[1].tool_calls, Some(Json::Null));
}

#[test]
fn thoughts_are_told_first() {
    let c = cfg("");
    let v = r#"{"choices":[{"message":{"content":"a","reasoning_content":"hm"}}]}"#;
    let l = once(&c, world(vec![got(v)]));
    assert_eq!(l.events, vec![r#"{"t":"think","x":"hm"}"#, r#"{"t":"say","x":"a"}"#]);
    let v = r#"{"choices":[{"message":{"content":"a","reasoning_content":""}}]}"#;
    let l = once(&c, world(vec![got(v)]));
    assert_eq!(l.events, vec![r#"{"t":"say","x":"a"}"#]);
}

#[test]
fn errors_end_the_turn() {
    let c = cfg("");
    let l = once(&c, world(vec![Reply::Failed { words: "down".to_string() }]));
    assert_eq!(l.result, Err("chat: down".to_string()));
    assert_eq!(l.notes, vec!["chat fail down"]);
    let l = once(&c, world(vec![Reply::Garbled { words: "odd".to_string() }]));
    assert_eq!(l.result, Err("chat json: odd".to_string()));
    let l = once(&c, world(vec![got(r#"{"error":{"code":1}}"#)]));
    assert_eq!(l.result, Err(r#"api: {"code":1}"#.to_string()));
    let l = once(&c, world(vec![got(r#"{"error":null}"#)]));
    assert_eq!(l.result, Err("api: null".to_string()));
    assert_eq!(l.messages, vec![user("hi")]);
}

#[test]
fn a_reply_without_text_says_nothing() {
    let l = once(&cfg(""), world(vec![got("{}")]));
    assert_eq!(l.result, Ok(String::new()));
    assert_eq!(l.messages[1].content, None);
}

#[test]
fn the_steps_bound_the_replies() {
    let c = cfg("steps: 2\n");
    let l = once(&c, world(vec![calls(1), calls(1), calls(1)]));
    assert_eq!(l.posts.len(), 2);
    assert_eq!(l.result, Err("step limit".to_string()));
    let l = once(&cfg("steps: 0\n"), world(vec![says("x")]));
    assert_eq!(l.posts.len(), 0);
    assert_eq!(l.result, Err("step limit".to_string()));
    assert_eq!(l.messages, vec![user("hi")]);
}

#[test]
fn old_outputs_are_blanked_past_the_budget() {
    let c = cfg("budget: 100\nkeep: 1\n");
    let l = once(&c, world(vec![calls(101), says("x")]));
    assert!(l.posts[1].contains(r#"{"content":"","role":"tool","tool_call_id":"1"}"#));
    assert!(l.posts[1].contains(r#"{"content":"saved","role":"tool","tool_call_id":"2"}"#));
    assert_eq!(l.messages[2].content, Some(Json::text("found")));
    let l = once(&c, world(vec![calls(100), says("x")]));
    assert!(l.posts[1].contains(r#"{"content":"found","role":"tool","tool_call_id":"1"}"#));
}

#[test]
fn before_any_count_the_length_decides() {
    let old = |c: &Cfg| {
        let ms = vec![
            user("hi"),
            Msg {
                role: "tool".to_string(),
                content: Some(Json::text("abc")),
                tool_calls: None,
                tool_call_id: None,
            },
        ];
        play(c, turn(c, ms, 1, vec![], false), world(vec![says("x")])).posts[0].clone()
    };
    assert!(old(&cfg("budget: 24\nkeep: 0\n")).contains("abc"));
    assert!(!old(&cfg("budget: 22\nkeep: 0\n")).contains("abc"));
    assert!(old(&cfg("budget: 0\nkeep: 1\n")).contains("abc"));
}

#[test]
fn prompts_that_come_in_are_heard_after_the_tools() {
    let c = cfg("");
    let mut w = world(vec![calls(1), says("ok")]);
    w.inboxes = vec![vec!["more", "and more"]];
    let l = served(&c, w);
    assert_eq!(l.events[4], r#"{"t":"user","x":"more"}"#);
    assert_eq!(l.events[5], r#"{"t":"user","x":"and more"}"#);
    assert_eq!(l.messages[4..6], [user("more"), user("and more")]);
    assert_eq!(l.posts.len(), 2);
    assert_eq!(l.result, Ok("ok".to_string()));
}

#[test]
fn a_served_conversation_goes_on_while_prompts_come() {
    let c = cfg("steps: 1\n");
    let mut w = world(vec![says("one"), says("two")]);
    w.inboxes = vec![vec![], vec!["next"], vec![], vec![]];
    let l = served(&c, w);
    assert_eq!(l.posts.len(), 2);
    assert_eq!(l.pulls, 4);
    let roles: Vec<_> = l.messages.iter().map(|m| m.role.as_str()).collect();
    assert_eq!(roles, vec!["user", "assistant", "user", "assistant"]);
    assert_eq!(l.result, Ok("two".to_string()));
}

#[test]
fn a_prompt_at_the_end_of_a_turn_takes_a_step_of_it() {
    let c = cfg("steps: 1\n");
    let mut w = world(vec![says("one"), says("two")]);
    w.inboxes = vec![vec!["next"]];
    let l = served(&c, w);
    assert_eq!(l.posts.len(), 1);
    assert_eq!(l.events.last().unwrap(), r#"{"t":"err","x":"step limit"}"#);
    assert_eq!(l.messages.last().unwrap(), &user("next"));
    assert_eq!(l.result, Err("step limit".to_string()));
}

#[test]
fn a_client_is_told_of_errors() {
    let l = served(&cfg(""), world(vec![Reply::Failed { words: "down".to_string() }]));
    assert_eq!(l.events, vec![r#"{"t":"err","x":"chat: down"}"#]);
    assert_eq!(l.result, Err("chat: down".to_string()));
    assert_eq!(l.pulls, 0);
}

#[test]
fn a_client_that_is_gone_ends_the_conversation() {
    let mut w = world(vec![calls(1), says("x")]);
    w.deaf_from = 1;
    let l = served(&cfg(""), w);
    assert_eq!(l.runs.len(), 1);
    assert_eq!(l.events.len(), 3);
    assert_eq!(l.events[2], r#"{"t":"err","x":"gone"}"#);
    assert_eq!(l.result, Err("gone".to_string()));
    assert_eq!(l.messages.len(), 2);
}

#[test]
fn a_prompt_that_cannot_be_told_ends_the_conversation() {
    let mut w = world(vec![says("one")]);
    w.inboxes = vec![vec![], vec!["a", "b"]];
    w.deaf_from = 2;
    let l = served(&cfg(""), w);
    assert_eq!(l.events.last().unwrap(), r#"{"t":"user","x":"b"}"#);
    assert_eq!(l.messages.last().unwrap(), &user("a"));
    assert_eq!(l.result, Ok("one".to_string()));
}

#[test]
fn histories_only_grow() {
    let c = cfg("");
    let start = vec![Msg::plain("system", "s".to_string()), user("hi")];
    let l = play(&c, turn(&c, start.clone(), 2, vec![], true), world(vec![calls(1), says("x")]));
    assert_eq!(l.messages[..2], start);
    assert_eq!(l.messages.len(), 6);
}

#[test]
fn headers_go_where_they_belong() {
    let pair = |k: &str, v: &str| (k.to_string(), v.to_string());
    let c = cfg("headers:\n  X-Chat: c\n");
    let l = once(&c, world(vec![calls(1), says("x")]));
    let chat = vec![pair("X-Chat", "c"), pair("Content-Type", "application/json")];
    assert_eq!(l.asked, vec![("http://m/chat/completions".to_string(), chat); 2]);
    assert_eq!(l.run_headers, vec![extra(), extra()]);
}

#[test]
fn a_turn_without_an_answer_uses_its_steps() {
    let c = cfg("steps: 3\n");
    let l = served(&c, world(vec![calls(1), calls(1), calls(1), says("late")]));
    assert_eq!(l.posts.len(), 3);
    assert_eq!(l.events.last().unwrap(), r#"{"t":"err","x":"step limit"}"#);
    assert_eq!(l.messages.len(), 1 + 3 * 3);
    assert_eq!(l.result, Err("step limit".to_string()));
}

#[test]
fn prompts_behind_every_answer_use_the_steps() {
    let c = cfg("steps: 2\n");
    let mut w = world(vec![says("one"), says("two"), says("three")]);
    w.inboxes = vec![vec!["more"], vec!["and more"]];
    let l = once(&c, w);
    assert_eq!(l.posts.len(), 2);
    assert_eq!(l.result, Err("step limit".to_string()));
    assert_eq!(l.messages.last().unwrap(), &user("and more"));
}

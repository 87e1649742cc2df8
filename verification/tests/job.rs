use min::job::{begin, min_run, Step};
use min::json::Json;

const CALLS: &str = r#"{"choices":[{"message":{"content":"c","tool_calls":[
    {"id":"1","function":{"name":"find","arguments":"{\"q\":\"a b\"}"}},
    {"id":"2","function":{"name":"save","arguments":{"x":1}}}]}}],
    "usage":{"prompt_tokens":50}}"#;

const SAYS: &str = r#"{"choices":[{"finish_reason":"stop","message":{"content":"done"}}]}"#;

fn run(job: &str, answers: &[&str]) -> (Vec<String>, String) {
    let mut step = min_run(job.as_bytes());
    let mut requests = Vec::new();
    let mut answers = answers.iter();
    loop {
        step = match step {
            Step::Fetch { request, state } => {
                requests.push(String::from_utf8(request).unwrap());
                state.resume(answers.next().unwrap_or(&"").as_bytes())
            }
            Step::Done { out } => return (requests, String::from_utf8(out).unwrap()),
        };
    }
}

fn job(more: &str) -> String {
    format!(r#"{{"url":"http://m/","model":"m","prompt":"hi","exec":"http://e","key":"k"{more}}}"#)
}

fn parse(s: &str) -> Json {
    Json::parse_text(s).unwrap()
}

#[test]
fn a_job_asks_the_model() {
    let (requests, out) = run(&job(r#","agents":"be kind","extra":{"top":1}"#), &[SAYS]);
    assert_eq!(
        requests,
        vec![[
            r#"{"body":{"messages":[{"content":"be kind","role":"system"},"#,
            r#"{"content":"hi","role":"user"}],"model":"m","top":1},"#,
            r#""headers":{"Authorization":"Bearer k","Content-Type":"application/json"},"#,
            r#""method":"POST","url":"http://m/chat/completions"}"#,
        ]
        .concat()]
    );
    assert_eq!(out, "done");
}

#[test]
fn a_job_without_a_key_sends_none() {
    let (requests, _) = run(r#"{"url":"u","model":"m","prompt":"p"}"#, &[SAYS]);
    assert_eq!(parse(&requests[0]).at("headers").to_text(), r#"{"Content-Type":"application/json"}"#);
}

#[test]
fn extra_members_do_not_govern() {
    let more = r#","extra":{"stream":true,"messages":[1],"model":"other","n":2}"#;
    let (requests, _) = run(&job(more), &[SAYS]);
    assert_eq!(
        parse(&requests[0]).at("body").to_text(),
        r#"{"messages":[{"content":"hi","role":"user"}],"model":"m","n":2}"#
    );
}

#[test]
fn tools_are_described_and_reached() {
    let more = r#","tools":[{"function":{"name":"find"},"method":"get","url":"/x"}]"#;
    let (requests, out) = run(&job(more), &[CALLS, r#"{ "r": 1 }"#, "oops", SAYS]);
    assert_eq!(parse(&requests[0]).at("body").at("tools").to_text(), r#"[{"function":{"name":"find"}}]"#);
    assert_eq!(requests[1], r#"{"headers":{},"method":"GET","url":"http://e?q=a%20b"}"#);
    assert_eq!(
        requests[2],
        [
            r#"{"body":{"x":1},"headers":{"Content-Type":"application/json"},"#,
            r#""method":"POST","url":"http://e"}"#,
        ]
        .concat()
    );
    let messages = match parse(&requests[3]).at("body").at("messages") {
        Json::List(ms) => ms.iter().map(|m| m.to_text()).collect::<Vec<_>>(),
        _ => panic!("no list"),
    };
    assert_eq!(messages.len(), 4);
    assert_eq!(messages[2], r#"{"content":"{\"r\":1}","role":"tool","tool_call_id":"1"}"#);
    assert_eq!(
        messages[3],
        r#"{"content":"tool error: expected value at line 1 column 1","role":"tool","tool_call_id":"2"}"#
    );
    assert_eq!(out, "done");
}

#[test]
fn the_key_goes_to_the_model_alone() {
    let (requests, _) = run(&job(""), &[CALLS, "1", "2", SAYS]);
    let keyed: Vec<bool> = requests.iter().map(|r| r.contains("Bearer")).collect();
    assert_eq!(keyed, vec![true, false, false, true]);
}

#[test]
fn jobs_are_checked() {
    let words = "job needs url, model, prompt";
    assert_eq!(run("{}", &[]), (vec![], words.to_string()));
    assert_eq!(run(r#"{"url":"u","model":"m"}"#, &[]).1, words);
    assert_eq!(run(r#"{"url":"","model":"m","prompt":"p"}"#, &[]).1, words);
    assert_eq!(run(r#"{"url":"u","model":5,"prompt":"p"}"#, &[]).1, words);
    assert_eq!(run("[]", &[]).1, words);
    match begin(Err("odd".to_string())) {
        Step::Done { out } => assert_eq!(out, b"bad job: odd"),
        Step::Fetch { .. } => panic!("not done"),
    }
    assert_eq!(run("", &[]).1, "bad job: EOF while parsing a value at line 1 column 0");
}

#[test]
fn errors_end_a_job() {
    assert_eq!(run(&job(""), &[""]).1, "chat: EOF while parsing a value at line 1 column 0");
    assert_eq!(run(&job(""), &[r#"{"error":"no"}"#]).1, r#"api: "no""#);
    assert_eq!(run(&job(""), &["{}"]).1, "");
}

#[test]
fn answers_can_be_handed_over_as_documents() {
    let step = begin(Ok(parse(&job(""))));
    let step = match step {
        Step::Fetch { request: _, state } => state.take(Ok(parse(CALLS))),
        Step::Done { .. } => panic!("done"),
    };
    let step = match step {
        Step::Fetch { request: _, state } => state.take(Err("down".to_string())),
        Step::Done { .. } => panic!("done"),
    };
    let step = match step {
        Step::Fetch { request: _, state } => state.take(Ok(Json::Null)),
        Step::Done { .. } => panic!("done"),
    };
    match step {
        Step::Fetch { request, state } => {
            let sent = String::from_utf8(request).unwrap();
            assert!(sent.contains(r#""content":"tool error: down""#));
            assert!(sent.contains(r#""content":"null""#));
            match state.take(Err("down".to_string())) {
                Step::Done { out } => assert_eq!(out, b"chat: down"),
                Step::Fetch { .. } => panic!("not done"),
            }
        }
        Step::Done { .. } => panic!("done"),
    }
}

#[test]
fn the_steps_of_a_job_bound_its_replies() {
    let (requests, out) = run(&job(r#","steps":2"#), &[CALLS, "1", "2", CALLS, "3", "4", CALLS]);
    assert_eq!(requests.len(), 6);
    assert_eq!(out, "step limit");
    assert_eq!(run(&job(r#","steps":0"#), &[]), (vec![], "step limit".to_string()));
}

#[test]
fn old_outputs_of_a_job_are_blanked_past_the_budget() {
    let sent = |more: &str| run(&job(more), &[CALLS, r#""aa""#, r#""bb""#, SAYS]).0[3].clone();
    let past = sent(r#","budget":49,"keep":1"#);
    assert!(!past.contains("aa") && past.contains("bb"));
    let within = sent(r#","budget":50,"keep":1"#);
    assert!(within.contains("aa") && within.contains("bb"));
    let share = sent(r#","window":92,"keep":0"#);
    assert!(!share.contains("aa") && !share.contains("bb"));
}

#[test]
fn the_history_of_a_job_grows() {
    let (requests, _) = run(&job(""), &[CALLS, "1", "2", CALLS, "3", "4", SAYS]);
    let body = |i: usize| parse(&requests[i]).at("body").at("messages").to_text();
    let open = |s: String| s[..s.len() - 1].to_string();
    assert!(body(3).starts_with(&open(body(0))));
    assert!(body(6).starts_with(&open(body(3))));
}

use min::json::Json;
use min::message::Msg;
use min::session::{
    copy_pairs, first_messages, note_arrival, prepare, read_request, request_of, session_for,
    session_id, Refusal, Sessions,
};

fn pairs(ps: &[(&str, &str)]) -> Vec<(String, String)> {
    ps.iter().map(|(k, v)| (k.to_string(), v.to_string())).collect()
}

fn user(s: &str) -> Msg {
    Msg::plain("user", s.to_string())
}

fn system(s: &str) -> Msg {
    Msg::plain("system", s.to_string())
}

#[test]
fn identifiers_are_marked_as_random() {
    assert_eq!(session_id(&[0; 16]), "00000000-0000-4000-8000-000000000000");
    assert_eq!(session_id(&[0xff; 16]), "ffffffff-ffff-4fff-bfff-ffffffffffff");
    let b = [0, 1, 2, 3, 4, 5, 6, 7, 8, 9, 10, 11, 12, 13, 14, 15];
    assert_eq!(session_id(&b), "00010203-0405-4607-8809-0a0b0c0d0e0f");
    let id = session_id(&[0x5a; 16]);
    assert_eq!(id.len(), 36);
    assert_eq!(id.matches('-').count(), 4);
}

#[test]
fn requests_are_read() {
    let standing = pairs(&[("S", "1")]);
    let raw = r#"{"session":"s","prompt":"p","headers":{"B":"2","A":"","C":3,"D":"4"}}"#;
    let q = read_request(raw, &standing).unwrap();
    assert_eq!((q.session.as_str(), q.prompt.as_str()), ("s", "p"));
    assert_eq!(q.headers, pairs(&[("S", "1"), ("B", "2"), ("D", "4")]));
    let q = request_of(&Json::parse_text(r#"{"prompt":"p","session":1}"#).unwrap(), &standing);
    let q = q.unwrap();
    assert_eq!(q.session, "");
    assert_eq!(q.headers, copy_pairs(&standing));
}

#[test]
fn requests_are_turned_away() {
    for raw in ["{}", r#"{"prompt":""}"#, r#"{"prompt":1}"#, "[]"] {
        let e = read_request(raw, &vec![]).unwrap_err();
        assert_eq!(e, Refusal::NeedPrompt);
        assert_eq!(e.text(), "need prompt");
    }
    let e = read_request("", &vec![]).unwrap_err();
    assert_eq!(e, Refusal::BadJson("EOF while parsing a value at line 1 column 0".to_string()));
    assert_eq!(e.text(), "bad json: EOF while parsing a value at line 1 column 0");
    assert_eq!(Refusal::BadBody.text(), "bad body");
}

#[test]
fn a_session_is_made_with_its_instructions() {
    let mut s = Sessions::new();
    assert!(!s.contains("a"));
    assert!(!s.receive("a", "p", Some("be kind".to_string())));
    assert!(s.contains("a"));
    assert_eq!(s.take_messages("a"), vec![system("be kind")]);
    assert_eq!(s.take_messages("a"), vec![]);
    assert!(!s.receive("b", "p", None));
    assert_eq!(s.take_messages("b"), vec![]);
}

#[test]
fn prompts_wait_while_a_conversation_is_under_way() {
    let mut s = Sessions::new();
    assert!(!s.receive("a", "one", None));
    assert!(s.receive("a", "two", Some("ignored".to_string())));
    assert!(s.receive("a", "three", None));
    assert_eq!(s.take_messages("a"), vec![]);
    assert_eq!(s.take_inbox("a"), vec!["two", "three"]);
    assert_eq!(s.take_inbox("a"), Vec::<String>::new());
}

#[test]
fn prompts_outlive_a_conversation_that_rests() {
    let mut s = Sessions::new();
    s.receive("a", "one", None);
    s.receive("a", "two", None);
    s.settle("a", vec![user("one")]);
    assert!(!s.receive("a", "three", None));
    assert!(s.receive("a", "four", None));
    assert_eq!(s.take_messages("a"), vec![user("one")]);
    assert_eq!(s.take_inbox("a"), vec!["two", "four"]);
}

#[test]
fn sessions_do_not_touch_each_other() {
    let mut s = Sessions::new();
    s.receive("a", "one", None);
    s.receive("b", "x", Some("b only".to_string()));
    s.receive("b", "y", None);
    s.settle("a", vec![user("one")]);
    assert_eq!(s.take_inbox("a"), Vec::<String>::new());
    assert_eq!(s.take_inbox("b"), vec!["y"]);
    assert_eq!(s.take_messages("b"), vec![system("b only")]);
    assert_eq!(s.take_messages("a"), vec![user("one")]);
    assert!(s.receive("b", "z", None));
}

#[test]
fn unknown_sessions_hold_nothing() {
    let mut s = Sessions::new();
    assert_eq!(s.take_messages("a"), vec![]);
    assert_eq!(s.take_inbox("a"), Vec::<String>::new());
    s.settle("a", vec![user("x")]);
    assert!(!s.contains("a"));
}

#[test]
fn a_turn_begins_with_the_prompt() {
    assert_eq!(prepare(vec![], "p".to_string()), (vec![user("p")], 1));
    assert_eq!(
        prepare(vec![system("s")], "p".to_string()),
        (vec![system("s"), user("p")], 2)
    );
    assert_eq!(
        first_messages(Some("s".to_string()), "p".to_string()),
        vec![system("s"), user("p")]
    );
    assert_eq!(first_messages(None, "p".to_string()), vec![user("p")]);
}

#[test]
fn the_pin_stays_where_it_is() {
    for first in [vec![], vec![system("s")], vec![user("u")]] {
        let (ms, pin) = prepare(first, "p".to_string());
        let (more, again) = prepare(ms, "q".to_string());
        assert_eq!(again, pin);
        assert_eq!(prepare(more, "r".to_string()).1, pin);
    }
}

#[test]
fn arrivals_are_noted() {
    assert_eq!(note_arrival("id", "hi there", true), "session id queue hi there");
    assert_eq!(note_arrival("id", "hi there", false), "session id prompt hi there");
}

#[test]
fn a_served_request_leaves_its_session_idle() {
    let mut s = Sessions::new();
    assert!(!s.receive("a", "one", Some("be kind".to_string())));
    let (mut ms, pin) = prepare(s.take_messages("a"), "one".to_string());
    assert_eq!(pin, 2);
    assert!(s.receive("a", "two", None));
    let found = s.take_inbox("a");
    ms.push(user(&found[0]));
    assert!(s.receive("a", "three", None));
    s.settle("a", ms);
    assert!(!s.receive("a", "four", None));
    assert_eq!(s.take_messages("a"), vec![system("be kind"), user("one"), user("two")]);
    assert_eq!(s.take_inbox("a"), vec!["three"]);
}

#[test]
fn a_request_without_a_session_gets_a_new_one() {
    let named = read_request(r#"{"session":"s","prompt":"p"}"#, &vec![]).unwrap();
    assert_eq!(session_for(&named, &[0; 16]), "s");
    let bare = read_request(r#"{"prompt":"p"}"#, &vec![]).unwrap();
    assert_eq!(session_for(&bare, &[1; 16]), session_id(&[1; 16]));
}

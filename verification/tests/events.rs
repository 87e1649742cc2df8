use min::events::{
    chunk, chunk_event, stream_end, stream_head, tell, tell_call, tell_out, tell_queued,
    tell_start,
};
use min::json::Json;

#[test]
fn events_have_their_members() {
    assert_eq!(tell("say", "hi").to_text(), r#"{"t":"say","x":"hi"}"#);
    let args = Json::parse_text(r#"{"q":1}"#).unwrap();
    assert_eq!(tell_call("find", &args).to_text(), r#"{"a":{"q":1},"n":"find","t":"call"}"#);
    assert_eq!(tell_out("find", "r").to_text(), r#"{"n":"find","t":"out","x":"r"}"#);
    assert_eq!(tell_start("id").to_text(), r#"{"s":"id"}"#);
    assert_eq!(tell_queued("id"), r#"{"q":true,"s":"id"}"#);
}

#[test]
fn chunks_begin_with_their_size_in_bytes() {
    assert_eq!(chunk("ab\n"), "3\r\nab\n\r\n");
    assert_eq!(chunk(""), "0\r\n\r\n");
    assert_eq!(chunk("ü"), "2\r\nü\r\n");
    assert_eq!(chunk("abcdefghijklmnopqrstuvwxyz"), "1a\r\nabcdefghijklmnopqrstuvwxyz\r\n");
    assert_eq!(chunk_event(&tell_start("x")), "a\r\n{\"s\":\"x\"}\n\r\n");
}

#[test]
fn the_stream_is_framed() {
    assert!(stream_head().starts_with("HTTP/1.1 200 OK\r\n"));
    assert!(stream_head().ends_with("Transfer-Encoding: chunked\r\n\r\n"));
    assert_eq!(stream_end(), chunk(""));
}

//! What a client is told while its conversation is under way: events, and the
//! stream that carries them.

use vstd::prelude::*;
use vstd::string::*;
use vstd::utf8::*;

use crate::json::{put, put_then_lookup, Dict, Json};
use crate::message::text_len;
use crate::text::{
    cat, numeral, numeral_read_back, numeral_value, numerals_are_plain, to_numeral,
};
use crate::value::{tree_text, Tree};

verus! {

/// An event of the kind `t` with the text `x`.
pub open spec fn text_event(t: Seq<char>, x: Seq<char>) -> Tree {
    Tree::Dict(put(put(seq![], "t"@, Tree::Text(t)), "x"@, Tree::Text(x)))
}

/// The event of a call of the tool `n` with the arguments `a`.
pub open spec fn call_event(n: Seq<char>, a: Tree) -> Tree {
    Tree::Dict(
        put(put(put(seq![], "t"@, Tree::Text("call"@)), "n"@, Tree::Text(n)), "a"@, a),
    )
}

/// The event of the output `x` of the tool `n`.
pub open spec fn out_event(n: Seq<char>, x: Seq<char>) -> Tree {
    Tree::Dict(
        put(
            put(put(seq![], "t"@, Tree::Text("out"@)), "n"@, Tree::Text(n)),
            "x"@,
            Tree::Text(x),
        ),
    )
}

/// The event that opens the stream of a session.
pub open spec fn start_event(session: Seq<char>) -> Tree {
    Tree::Dict(put(seq![], "s"@, Tree::Text(session)))
}

/// The answer to a prompt that has to wait.
pub open spec fn queue_event(session: Seq<char>) -> Tree {
    Tree::Dict(put(put(seq![], "s"@, Tree::Text(session)), "q"@, Tree::Bool(true)))
}

/// A line as a chunk of a chunked stream: its size in bytes, and the line.
pub open spec fn chunked(line: Seq<char>) -> Seq<char> {
    numeral(text_len(line), 16) + "\r\n"@ + line + "\r\n"@
}

/// An event as a chunk: its JSON text on a line of its own.
pub open spec fn event_chunk(t: Tree) -> Seq<char> {
    chunked(tree_text(t) + "\n"@)
}

/// An event of the kind `t` with the text `x`.
pub fn tell(t: &str, x: &str) -> (r: Json)
    ensures
        r@ == text_event(t@, x@),
{
    let mut d = Dict::new();
    d.insert("t".to_string(), Json::text(t));
    d.insert("x".to_string(), Json::text(x));
    Json::Dict(d)
}

/// The event of a call of the tool `n` with the arguments `a`.
pub fn tell_call(n: &str, a: &Json) -> (r: Json)
    ensures
        r@ == call_event(n@, a@),
{
    let mut d = Dict::new();
    d.insert("t".to_string(), Json::text("call"));
    d.insert("n".to_string(), Json::text(n));
    d.insert("a".to_string(), a.clone());
    Json::Dict(d)
}

/// The event of the output `x` of the tool `n`.
pub fn tell_out(n: &str, x: &str) -> (r: Json)
    ensures
        r@ == out_event(n@, x@),
{
    let mut d = Dict::new();
    d.insert("t".to_string(), Json::text("out"));
    d.insert("n".to_string(), Json::text(n));
    d.insert("x".to_string(), Json::text(x));
    Json::Dict(d)
}

/// The event that opens the stream of a session.
pub fn tell_start(session: &str) -> (r: Json)
    ensures
        r@ == start_event(session@),
{
    let mut d = Dict::new();
    d.insert("s".to_string(), Json::text(session));
    Json::Dict(d)
}

/// The answer to a prompt that has to wait, as JSON text.
pub fn tell_queued(session: &str) -> (r: String)
    ensures
        r@ == tree_text(queue_event(session@)),
{
    let mut d = Dict::new();
    d.insert("s".to_string(), Json::text(session));
    d.insert("q".to_string(), Json::Bool(true));
    Json::Dict(d).to_text()
}

/// A line as a chunk of a chunked stream.
pub fn chunk(line: &str) -> (r: String)
    ensures
        r@ == chunked(line@),
{
    let n: usize = line.as_bytes().len();
    let mut r = to_numeral(n as u64, 16);
    r.append("\r\n");
    r.append(line);
    r.append("\r\n");
    r
}

/// An event as a chunk: its JSON text on a line of its own.
pub fn chunk_event(v: &Json) -> (r: String)
    ensures
        r@ == event_chunk(v@),
{
    chunk(&cat(&v.to_text(), "\n"))
}

/// What goes before the chunks of a stream.
pub fn stream_head() -> (r: String)
    ensures
        r@
            == "HTTP/1.1 200 OK\r\nContent-Type: application/x-ndjson\r\nCache-Control: no-cache\r\nTransfer-Encoding: chunked\r\n\r\n"@,
{
    "HTTP/1.1 200 OK\r\nContent-Type: application/x-ndjson\r\nCache-Control: no-cache\r\nTransfer-Encoding: chunked\r\n\r\n".to_string()
}

/// What goes behind the chunks of a stream: the chunk of size zero.
pub fn stream_end() -> (r: String)
    ensures
        r@ == "0\r\n\r\n"@,
{
    "0\r\n\r\n".to_string()
}

proof fn lemma_event_keys()
    ensures
        "t"@ != "x"@,
        "t"@ != "n"@,
        "t"@ != "a"@,
        "x"@ != "n"@,
        "n"@ != "a"@,
        "s"@ != "q"@,
{
    reveal_strlit("t");
    reveal_strlit("x");
    reveal_strlit("n");
    reveal_strlit("a");
    reveal_strlit("s");
    reveal_strlit("q");
    assert("t"@[0] != "x"@[0]);
    assert("t"@[0] != "n"@[0]);
    assert("t"@[0] != "a"@[0]);
    assert("x"@[0] != "n"@[0]);
    assert("n"@[0] != "a"@[0]);
    assert("s"@[0] != "q"@[0]);
}

/// An event tells what it is under `t`, and its text under `x`; that of a call tells
/// the tool under `n` and the arguments under `a`, and that of an output the tool
/// under `n` and the output under `x`. They tell nothing else.
pub proof fn events_tell_their_members(
    t: Seq<char>,
    x: Seq<char>,
    n: Seq<char>,
    a: Tree,
    k: Seq<char>,
)
    ensures
        text_event(t, x).get("t"@) == Some(Tree::Text(t)),
        text_event(t, x).get("x"@) == Some(Tree::Text(x)),
        k != "t"@ && k != "x"@ ==> text_event(t, x).get(k) is None,
        call_event(n, a).get("t"@) == Some(Tree::Text("call"@)),
        call_event(n, a).get("n"@) == Some(Tree::Text(n)),
        call_event(n, a).get("a"@) == Some(a),
        k != "t"@ && k != "n"@ && k != "a"@ ==> call_event(n, a).get(k) is None,
        out_event(n, x).get("t"@) == Some(Tree::Text("out"@)),
        out_event(n, x).get("n"@) == Some(Tree::Text(n)),
        out_event(n, x).get("x"@) == Some(Tree::Text(x)),
        k != "t"@ && k != "n"@ && k != "x"@ ==> out_event(n, x).get(k) is None,
{
    lemma_event_keys();
    lemma_event_lookup(t, x, n, a, "t"@);
    lemma_event_lookup(t, x, n, a, "x"@);
    lemma_event_lookup(t, x, n, a, "n"@);
    lemma_event_lookup(t, x, n, a, "a"@);
    lemma_event_lookup(t, x, n, a, k);
}

proof fn lemma_event_lookup(t: Seq<char>, x: Seq<char>, n: Seq<char>, a: Tree, k: Seq<char>)
    ensures
        text_event(t, x).get(k) == if k == "x"@ {
            Some(Tree::Text(x))
        } else if k == "t"@ {
            Some(Tree::Text(t))
        } else {
            None
        },
        call_event(n, a).get(k) == if k == "a"@ {
            Some(a)
        } else if k == "n"@ {
            Some(Tree::Text(n))
        } else if k == "t"@ {
            Some(Tree::Text("call"@))
        } else {
            None
        },
        out_event(n, x).get(k) == if k == "x"@ {
            Some(Tree::Text(x))
        } else if k == "n"@ {
            Some(Tree::Text(n))
        } else if k == "t"@ {
            Some(Tree::Text("out"@))
        } else {
            None
        },
{
    let none: Seq<(Seq<char>, Tree)> = seq![];
    let a1 = put(none, "t"@, Tree::Text(t));
    put_then_lookup(none, "t"@, Tree::Text(t), k);
    put_then_lookup(a1, "x"@, Tree::Text(x), k);
    let b1 = put(none, "t"@, Tree::Text("call"@));
    let b2 = put(b1, "n"@, Tree::Text(n));
    put_then_lookup(none, "t"@, Tree::Text("call"@), k);
    put_then_lookup(b1, "n"@, Tree::Text(n), k);
    put_then_lookup(b2, "a"@, a, k);
    let c1 = put(none, "t"@, Tree::Text("out"@));
    let c2 = put(c1, "n"@, Tree::Text(n));
    put_then_lookup(none, "t"@, Tree::Text("out"@), k);
    put_then_lookup(c1, "n"@, Tree::Text(n), k);
    put_then_lookup(c2, "x"@, Tree::Text(x), k);
}

/// A client is told its session under `s`, and under `q` that its prompt waits, where
/// it does.
pub proof fn sessions_are_told(session: Seq<char>)
    ensures
        start_event(session).get("s"@) == Some(Tree::Text(session)),
        start_event(session).get("q"@) is None,
        queue_event(session).get("s"@) == Some(Tree::Text(session)),
        queue_event(session).get("q"@) == Some(Tree::Bool(true)),
{
    lemma_event_keys();
    let none: Seq<(Seq<char>, Tree)> = seq![];
    let a = put(none, "s"@, Tree::Text(session));
    put_then_lookup(none, "s"@, Tree::Text(session), "s"@);
    put_then_lookup(none, "s"@, Tree::Text(session), "q"@);
    put_then_lookup(a, "q"@, Tree::Bool(true), "s"@);
    put_then_lookup(a, "q"@, Tree::Bool(true), "q"@);
}

/// A chunk is a hexadecimal number, a line break, the line, and a line break; the
/// number is that of the bytes of the line.
pub proof fn chunks_tell_their_size(line: Seq<char>)
    ensures
        ({
            let c = chunked(line);
            let n = c.len() - line.len() - 4;
            &&& n > 0
            &&& numeral_value(c.take(n), 16) == encode_utf8(line).len()
            &&& c.skip(n) == seq!['\r', '\n'] + line + seq!['\r', '\n']
        }),
{
    let size = encode_utf8(line).len();
    let h = numeral(size, 16);
    let c = chunked(line);
    reveal_strlit("\r\n");
    numeral_read_back(size, 16);
    numerals_are_plain(size, 16);
    assert(c.take(h.len() as int) =~= h);
    assert(c.skip(h.len() as int) =~= seq!['\r', '\n'] + line + seq!['\r', '\n']);
}

/// An event is sent as a chunk of its JSON text with a line feed behind it.
pub proof fn events_are_lines(t: Tree)
    ensures
        event_chunk(t) == chunked(tree_text(t) + seq!['\n']),
{
    reveal_strlit("\n");
    assert("\n"@ =~= seq!['\n']);
}

} // verus!

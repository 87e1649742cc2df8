//! What a model replies: the text that it says, or the tools that it calls.

use vstd::prelude::*;
use vstd::string::*;

use crate::json::{lemma_trees, lookup, put, put_then_lookup, reading, Dict, Json};
use crate::message::{messages_are_written, Message, Msg};
use crate::text::{cat, has_prefix, has_suffix, numeral, same, to_numeral};
use crate::value::{number_u64, read_text, tree_text, Tree};

verus! {

/// The first choice of a reply.
pub open spec fn choice(v: Tree) -> Tree {
    v.at("choices"@).head()
}

/// The message of a reply.
pub open spec fn message(v: Tree) -> Tree {
    choice(v).at("message"@)
}

/// The reason why a reply ended.
pub open spec fn finish(v: Tree) -> Seq<char> {
    choice(v).at("finish_reason"@).str_or_empty()
}

/// The number of prompt tokens that a reply reports.
pub open spec fn used(v: Tree) -> Option<u64> {
    v.at("usage"@).at("prompt_tokens"@).uint()
}

/// A reply calls tools: it says so, or its message holds calls.
pub open spec fn wants_tools(v: Tree) -> bool {
    finish(v) == "tool_calls"@ || message(v).at("tool_calls"@).items().len() > 0
}

/// A reply is no answer: it reports no error, and calls tools.
pub open spec fn no_answer(v: Tree) -> bool {
    v.get("error"@) is None && wants_tools(v)
}

/// The text that a reply says.
pub open spec fn said(v: Tree) -> Seq<char> {
    message(v).at("content"@).str_or_empty()
}

/// What a reply tells of its reasoning.
pub open spec fn thought(v: Tree) -> Seq<char> {
    message(v).at("reasoning_content"@).str_or_empty()
}

/// A call of a tool.
pub struct Invocation {
    pub id: Seq<char>,
    pub name: Seq<char>,
    pub args: Tree,
}

/// The arguments that were read; what could not be read counts as none.
pub open spec fn args_read(parsed: Result<Tree, Seq<char>>) -> Tree {
    match parsed {
        Ok(a) => a,
        Err(_) => Tree::Dict(seq![]),
    }
}

/// The arguments of a call: JSON text is read, and everything else is taken as it
/// stands.
pub open spec fn call_args(t: Tree) -> Tree {
    match t {
        Tree::Text(s) => args_read(read_text(s)),
        _ => t,
    }
}

/// The call that a document describes.
pub open spec fn invocation(c: Tree) -> Invocation {
    Invocation {
        id: c.at("id"@).str_or_empty(),
        name: c.at("function"@).at("name"@).str_or_empty(),
        args: call_args(c.at("function"@).at("arguments"@)),
    }
}

/// The calls of a reply, in their order.
pub open spec fn invocations(v: Tree) -> Seq<Invocation> {
    let cs = message(v).at("tool_calls"@).items();
    Seq::new(cs.len(), |i: int| invocation(cs[i]))
}

/// The message that a reply with calls adds to the conversation.
pub open spec fn calling_message(v: Tree) -> Message {
    Message {
        role: "assistant"@,
        content: message(v).get("content"@),
        tool_calls: Some(message(v).at("tool_calls"@)),
        tool_call_id: None,
    }
}

/// The message that a reply without calls adds to the conversation.
pub open spec fn saying_message(v: Tree) -> Message {
    Message {
        role: "assistant"@,
        content: message(v).get("content"@),
        tool_calls: None,
        tool_call_id: None,
    }
}

/// The message that answers the call `id` with the output `out`.
pub open spec fn answer(id: Seq<char>, out: Seq<char>) -> Message {
    Message {
        role: "tool"@,
        content: Some(Tree::Text(out)),
        tool_calls: None,
        tool_call_id: Some(id),
    }
}

/// An optional number as it stands in the log.
pub open spec fn count_text(n: Option<u64>) -> Seq<char> {
    match n {
        Some(n) => "Some("@ + numeral(n as nat, 10) + ")"@,
        None => "None"@,
    }
}

/// The line of the log on a reply.
pub open spec fn reply_note(v: Tree) -> Seq<char> {
    "chat finish="@ + finish(v) + " used="@ + count_text(used(v)) + " "@ + tree_text(message(v))
}

/// The line of the log on the output of a tool.
pub open spec fn tool_note(call: Invocation, out: Seq<char>) -> Seq<char> {
    "tool "@ + call.name + " "@ + tree_text(call.args) + " -> "@ + out
}

/// A call of a tool.
#[derive(Debug, PartialEq)]
pub struct ToolCall {
    pub id: String,
    pub name: String,
    pub args: Json,
}

impl ToolCall {
    /// What the call says.
    pub open spec fn view(&self) -> Invocation {
        Invocation { id: self.id@, name: self.name@, args: self.args@ }
    }

    /// What the calls say, one by one.
    pub open spec fn views(cs: Seq<ToolCall>) -> Seq<Invocation> {
        Seq::new(cs.len(), |i: int| cs[i]@)
    }
}

/// The first choice of a reply.
pub fn reply_choice(v: &Json) -> (r: &Json)
    ensures
        r@ == choice(v@),
{
    v.at("choices").head()
}

/// The message of a reply.
pub fn reply_message(v: &Json) -> (r: &Json)
    ensures
        r@ == message(v@),
{
    reply_choice(v).at("message")
}

/// The number of prompt tokens that a reply reports.
pub fn reply_used(v: &Json) -> (r: Option<u64>)
    ensures
        r == used(v@),
{
    v.at("usage").at("prompt_tokens").as_u64()
}

/// Whether a reply calls tools.
pub fn calls_tools(v: &Json) -> (r: bool)
    ensures
        r == wants_tools(v@),
{
    broadcast use lemma_trees;

    let has = match reply_message(v).at("tool_calls") {
        Json::List(cs) => cs.len() > 0,
        _ => false,
    };
    same(reply_choice(v).at("finish_reason").str_or_empty(), "tool_calls") || has
}

/// The arguments that were read; what could not be read counts as none.
pub fn args_of(parsed: Result<Json, String>) -> (r: Json)
    ensures
        r@ == args_read(reading(parsed)),
{
    match parsed {
        Ok(a) => a,
        Err(_) => Json::Dict(Dict::new()),
    }
}

/// The call that a document describes.
pub fn read_call(c: &Json) -> (r: ToolCall)
    ensures
        r@ == invocation(c@),
{
    let args = match c.at("function").at("arguments") {
        Json::Text(s) => args_of(Json::parse_text(s)),
        other => other.clone(),
    };
    ToolCall {
        id: c.at("id").str_or_empty().to_string(),
        name: c.at("function").at("name").str_or_empty().to_string(),
        args,
    }
}

/// The calls of a reply, in their order.
pub fn read_calls(v: &Json) -> (r: Vec<ToolCall>)
    ensures
        ToolCall::views(r@) == invocations(v@),
{
    let mut out: Vec<ToolCall> = Vec::new();
    match reply_message(v).at("tool_calls") {
        Json::List(cs) => {
            for i in 0..cs.len()
                invariant
                    out@.len() == i,
                    forall|j: int| 0 <= j < i ==> (#[trigger] out@[j])@ == invocation(cs@[j]@),
            {
                out.push(read_call(&cs[i]));
            }
            proof {
                broadcast use lemma_trees;
                assert(ToolCall::views(out@) =~= invocations(v@));
            }
        },
        _ => {
            assert(ToolCall::views(out@) =~= invocations(v@));
        },
    }
    out
}

/// The message that a reply adds to the conversation.
pub fn assistant_message(v: &Json, calls: bool) -> (r: Msg)
    ensures
        r@ == if calls {
            calling_message(v@)
        } else {
            saying_message(v@)
        },
{
    let m = reply_message(v);
    let content = match m.get("content") {
        Some(j) => Some(j.clone()),
        None => None,
    };
    let tool_calls = if calls {
        Some(m.at("tool_calls").clone())
    } else {
        None
    };
    Msg { role: "assistant".to_string(), content, tool_calls, tool_call_id: None }
}

/// The message that answers the call `id` with the output `out`.
pub fn answer_message(id: &str, out: &str) -> (r: Msg)
    ensures
        r@ == answer(id@, out@),
{
    Msg {
        role: "tool".to_string(),
        content: Some(Json::text(out)),
        tool_calls: None,
        tool_call_id: Some(id.to_string()),
    }
}

/// What a tool has to say: the body of its reply, or what went wrong.
pub open spec fn output(r: Result<Seq<char>, Seq<char>>) -> Seq<char> {
    match r {
        Ok(s) => s,
        Err(e) => "tool error: "@ + e,
    }
}

/// What a tool has to say: the body of its reply, or what went wrong.
pub fn tool_output(r: Result<String, String>) -> (s: String)
    ensures
        s@ == output(
            match r {
                Ok(b) => Ok(b@),
                Err(e) => Err(e@),
            },
        ),
{
    match r {
        Ok(b) => b,
        Err(e) => cat("tool error: ", &e),
    }
}

/// The line of the log on a reply.
pub fn note_reply(v: &Json) -> (r: String)
    ensures
        r@ == reply_note(v@),
{
    let mut s = cat("chat finish=", reply_choice(v).at("finish_reason").str_or_empty());
    s.append(" used=");
    match reply_used(v) {
        Some(n) => {
            let mut c = cat("Some(", &to_numeral(n, 10));
            c.append(")");
            s.append(&c);
        },
        None => s.append("None"),
    }
    s.append(" ");
    s.append(&reply_message(v).to_text());
    s
}

/// The line of the log on the output of a tool.
pub fn note_tool(call: &ToolCall, out: &str) -> (r: String)
    ensures
        r@ == tool_note(call@, out@),
{
    let mut s = cat("tool ", &call.name);
    s.append(" ");
    s.append(&call.args.to_text());
    s.append(" -> ");
    s.append(out);
    s
}

/// The reply is an object whose `choices` begin with an object with the members
/// `ces`, and the `message` of that is an object with the members `mes`.
pub open spec fn has_message(
    v: Tree,
    ces: Seq<(Seq<char>, Tree)>,
    mes: Seq<(Seq<char>, Tree)>,
) -> bool {
    &&& v matches Tree::Dict(ves)
    &&& lookup(ves, "choices"@) matches Some(Tree::List(cs))
    &&& cs.len() > 0
    &&& cs[0] == Tree::Dict(ces)
    &&& lookup(ces, "message"@) == Some(Tree::Dict(mes))
}

/// The message that a reply with calls adds to the conversation is written with what
/// the model said, as the model wrote it, and with its calls; that of a reply without
/// calls with what the model said alone.
pub proof fn replies_are_kept(
    v: Tree,
    ces: Seq<(Seq<char>, Tree)>,
    mes: Seq<(Seq<char>, Tree)>,
)
    requires
        has_message(v, ces, mes),
    ensures
        ({
            let t = calling_message(v).tree();
            &&& t.get("role"@) == Some(Tree::Text("assistant"@))
            &&& t.get("content"@) == lookup(mes, "content"@)
            &&& t.get("tool_calls"@) == match lookup(mes, "tool_calls"@) {
                Some(cs) => Some(cs),
                None => Some(Tree::Null),
            }
            &&& t.get("tool_call_id"@) is None
        }),
        ({
            let t = saying_message(v).tree();
            &&& t.get("role"@) == Some(Tree::Text("assistant"@))
            &&& t.get("content"@) == lookup(mes, "content"@)
            &&& t.get("tool_calls"@) is None
            &&& t.get("tool_call_id"@) is None
        }),
{
    messages_are_written(calling_message(v), "role"@);
    messages_are_written(saying_message(v), "role"@);
}

/// A reply calls tools where its choice ends for that reason, or where the calls of
/// its message are a list that is not empty, and in no other way.
pub proof fn calls_are_recognised(
    v: Tree,
    ces: Seq<(Seq<char>, Tree)>,
    mes: Seq<(Seq<char>, Tree)>,
)
    requires
        has_message(v, ces, mes),
    ensures
        lookup(ces, "finish_reason"@) == Some(Tree::Text("tool_calls"@)) ==> wants_tools(v),
        lookup(mes, "tool_calls"@) matches Some(Tree::List(cs)) ==> (cs.len() > 0 ==> wants_tools(
            v,
        )),
        wants_tools(v) ==> lookup(ces, "finish_reason"@) == Some(Tree::Text("tool_calls"@))
            || (lookup(mes, "tool_calls"@) matches Some(Tree::List(cs)) && cs.len() > 0),
{
    reveal_strlit("tool_calls");
    assert("tool_calls"@.len() == 10);
    assert(choice(v) == Tree::Dict(ces));
    assert(message(v) == Tree::Dict(mes));
}

/// A reply says the text under `content`, and thinks the text under
/// `reasoning_content`; where there is none, or it is no string, nothing.
pub proof fn replies_say_their_content(
    v: Tree,
    ces: Seq<(Seq<char>, Tree)>,
    mes: Seq<(Seq<char>, Tree)>,
)
    requires
        has_message(v, ces, mes),
    ensures
        lookup(mes, "content"@) matches Some(Tree::Text(s)) ==> said(v) == s,
        !(lookup(mes, "content"@) matches Some(Tree::Text(_))) ==> said(v).len() == 0,
        lookup(mes, "reasoning_content"@) matches Some(Tree::Text(s)) ==> thought(v) == s,
        !(lookup(mes, "reasoning_content"@) matches Some(Tree::Text(_))) ==> thought(v).len() == 0,
        lookup(ces, "finish_reason"@) matches Some(Tree::Text(s)) ==> finish(v) == s,
{
}

/// A reply without a message says nothing and calls nothing, unless its choice ends
/// for calls.
pub proof fn replies_without_a_message(v: Tree)
    requires
        !(v.get("choices"@) matches Some(Tree::List(_))),
    ensures
        said(v).len() == 0,
        thought(v).len() == 0,
        !wants_tools(v),
        invocations(v).len() == 0,
        calling_message(v).content is None,
        saying_message(v).content is None,
{
    reveal_strlit("tool_calls");
    assert("tool_calls"@.len() == 10);
    assert(choice(v) is Null);
    assert(finish(v).len() == 0);
}

/// The number of prompt tokens that a reply reports is the one under
/// `prompt_tokens` of its `usage`, whatever else that holds.
pub proof fn prompt_tokens_are_reported(
    ves: Seq<(Seq<char>, Tree)>,
    ues: Seq<(Seq<char>, Tree)>,
    k: Seq<char>,
    t: Tree,
)
    requires
        lookup(ves, "usage"@) == Some(Tree::Dict(ues)),
        k != "prompt_tokens"@,
    ensures
        lookup(ues, "prompt_tokens"@) matches Some(Tree::Number(n)) ==> used(Tree::Dict(ves))
            == number_u64(n),
        !(lookup(ues, "prompt_tokens"@) matches Some(Tree::Number(_))) ==> used(Tree::Dict(ves))
            is None,
        used(Tree::Dict(put(ves, "usage"@, Tree::Dict(put(ues, k, t))))) == used(Tree::Dict(ves)),
{
    let more = put(ues, k, t);
    put_then_lookup(ues, k, t, "prompt_tokens"@);
    put_then_lookup(ves, "usage"@, Tree::Dict(more), "usage"@);
}

/// A reply that is no object, or has no object for its `usage`, reports no tokens.
pub proof fn no_usage_no_tokens(v: Tree)
    requires
        !(v.get("usage"@) matches Some(Tree::Dict(_))),
    ensures
        used(v) is None,
{
}

/// A call has the identifier under `id`, and of its `function` the name and the
/// arguments: those that are a string are read as JSON, or count as none where that
/// fails, and all others are taken as they are.
pub proof fn calls_are_read(
    es: Seq<(Seq<char>, Tree)>,
    fes: Seq<(Seq<char>, Tree)>,
)
    requires
        lookup(es, "function"@) == Some(Tree::Dict(fes)),
    ensures
        ({
            let call = invocation(Tree::Dict(es));
            &&& lookup(es, "id"@) matches Some(Tree::Text(s)) ==> call.id == s
            &&& !(lookup(es, "id"@) matches Some(Tree::Text(_))) ==> call.id.len() == 0
            &&& lookup(fes, "name"@) matches Some(Tree::Text(s)) ==> call.name == s
            &&& !(lookup(fes, "name"@) matches Some(Tree::Text(_))) ==> call.name.len() == 0
            &&& match lookup(fes, "arguments"@) {
                Some(Tree::Text(s)) => match read_text(s) {
                    Ok(a) => call.args == a,
                    Err(_) => call.args is Dict && call.args.members().len() == 0,
                },
                Some(t) => call.args == t,
                None => call.args is Null,
            }
        }),
{
}

/// The calls of a reply are those of the list in its message, one by one.
pub proof fn calls_are_listed(
    v: Tree,
    ces: Seq<(Seq<char>, Tree)>,
    mes: Seq<(Seq<char>, Tree)>,
    cs: Seq<Tree>,
    i: int,
)
    requires
        has_message(v, ces, mes),
        lookup(mes, "tool_calls"@) == Some(Tree::List(cs)),
        0 <= i < cs.len(),
    ensures
        invocations(v).len() == cs.len(),
        invocations(v)[i] == invocation(cs[i]),
{
}

/// The answer to a call is written with the role of a tool, the output for its
/// content, and the identifier of the call.
pub proof fn answers_are_written(id: Seq<char>, out: Seq<char>)
    ensures
        ({
            let t = answer(id, out).tree();
            &&& t.get("role"@) == Some(Tree::Text("tool"@))
            &&& t.get("content"@) == Some(Tree::Text(out))
            &&& t.get("tool_call_id"@) == Some(Tree::Text(id))
            &&& t.get("tool_calls"@) is None
        }),
{
    messages_are_written(answer(id, out), "role"@);
}

/// What a tool says is its output, whole; what went wrong is told behind the words
/// `tool error: `.
pub proof fn outputs_are_told(s: Seq<char>)
    ensures
        output(Ok(s)) == s,
        output(Err(s)) == "tool error: "@ + s,
{
}

/// The lines of the log begin with what they are about, and end with what came of
/// it.
pub proof fn notes_are_readable(v: Tree, call: Invocation, out: Seq<char>)
    ensures
        has_prefix(tool_note(call, out), "tool "@ + call.name + " "@ + tree_text(call.args)),
        has_suffix(tool_note(call, out), " -> "@ + out),
        has_prefix(reply_note(v), "chat finish="@ + finish(v) + " used="@),
        has_suffix(reply_note(v), tree_text(v.at("choices"@).head().at("message"@))),
        used(v) is None ==> has_prefix(
            reply_note(v),
            "chat finish="@ + finish(v) + " used="@ + "None "@,
        ),
        used(v) matches Some(n) ==> has_prefix(
            reply_note(v),
            "chat finish="@ + finish(v) + " used="@ + "Some("@ + numeral(n as nat, 10) + ") "@,
        ),
{
    let t = tool_note(call, out);
    let a = "tool "@ + call.name + " "@ + tree_text(call.args);
    let b = " -> "@ + out;
    assert(t =~= a + b);
    assert(t.take(a.len() as int) =~= a);
    assert(t.skip(t.len() - b.len()) =~= b);
    let n = reply_note(v);
    let c = "chat finish="@ + finish(v) + " used="@;
    let d = tree_text(v.at("choices"@).head().at("message"@));
    assert(n.take(c.len() as int) =~= c);
    assert(n.skip(n.len() - d.len()) =~= d);
    reveal_strlit("None ");
    reveal_strlit("None");
    reveal_strlit(" ");
    reveal_strlit(")");
    reveal_strlit(") ");
    let e = match used(v) {
        None => c + "None "@,
        Some(k) => c + "Some("@ + numeral(k as nat, 10) + ") "@,
    };
    assert(n.take(e.len() as int) =~= e);
}

/// A choice that ends for calls calls tools, whatever its message; and calls that are
/// no list are none.
pub proof fn reasons_suffice(
    v: Tree,
    cs: Seq<Tree>,
    ces: Seq<(Seq<char>, Tree)>,
    mes: Seq<(Seq<char>, Tree)>,
)
    requires
        v.get("choices"@) == Some(Tree::List(cs)),
        cs.len() > 0,
        cs[0] == Tree::Dict(ces),
    ensures
        lookup(ces, "finish_reason"@) == Some(Tree::Text("tool_calls"@)) ==> wants_tools(v),
        has_message(v, ces, mes) && !(lookup(mes, "tool_calls"@) matches Some(Tree::List(_)))
            ==> invocations(v).len() == 0,
        lookup(ces, "message"@) is None ==> said(v).len() == 0 && invocations(v).len() == 0
            && calling_message(v).content is None,
{
}

/// A call says what its fields hold, and a list of calls what each of them does.
pub proof fn calls_say_their_fields(cs: Seq<ToolCall>, i: int)
    requires
        0 <= i < cs.len(),
    ensures
        ToolCall::views(cs).len() == cs.len(),
        ToolCall::views(cs)[i].id == cs[i].id@,
        ToolCall::views(cs)[i].name == cs[i].name@,
        ToolCall::views(cs)[i].args == cs[i].args@,
{
}

} // verus!

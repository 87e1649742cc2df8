//! The turns of a conversation: what to ask the model, which tools to run, and
//! what to tell the client, step by step.
//!
//! A turn goes from one act to the next. Whoever performs an act hands its
//! outcome to the state that came with it, and gets the next act.

use vstd::prelude::*;
use vstd::string::*;

use crate::config::{chat_headers, pairs, texts, typed, Cfg};
use crate::events::{call_event, out_event, tell, tell_call, tell_out, text_event};
use crate::json::{lookup, put, Dict, Json};
use crate::message::{chars, messages_len, send, sent, to_list, tree_in, Message, Msg};
use crate::reply::{
    answer, answer_message, assistant_message, calling_message, calls_tools, invocations,
    note_reply, note_tool, read_calls, reply_message, reply_note, reply_used, said,
    saying_message, thought, tool_note, used, wants_tools, Invocation, ToolCall,
};
use crate::query::destination;
use crate::session::copy_pairs;
use crate::text::cat;
use crate::tools::{address_of, body_of, method_of, plan_tool, verb_of, ToolRequest, Verb};
use crate::url::{chat_url, endpoint};
use crate::value::{tree_text, Tree};

verus! {

/// The settings that govern a turn: the address and the headers of the requests to
/// the model, how often it may be asked, how many messages stay whole, the budget
/// of prompt tokens, what every request carries along, and how tools are reached.
pub struct Rules {
    pub chat: Seq<char>,
    pub headers: Seq<(Seq<char>, Seq<char>)>,
    pub steps: u64,
    pub keep: usize,
    pub budget: u64,
    pub base: Seq<(Seq<char>, Tree)>,
    pub exec_url: Seq<char>,
    pub specs: Seq<(Seq<char>, Tree)>,
}

impl Cfg {
    /// The settings that govern a turn.
    pub open spec fn rules(&self) -> Rules {
        Rules {
            chat: endpoint(self.url@),
            headers: typed(pairs(self.headers@)),
            steps: self.steps,
            keep: self.keep,
            budget: self.budget,
            base: self.map@,
            exec_url: self.exec_url@,
            specs: self.specs@,
        }
    }
}

/// A conversation: its messages, how many of them are pinned, the prompt tokens
/// that the last reply reported, how many times the model may still be asked, the
/// headers of the requests to its tools, and whether it is served to a client who
/// may go on with it.
pub struct Course {
    pub messages: Seq<Message>,
    pub pin: int,
    pub used: Option<u64>,
    pub left: int,
    pub extra: Seq<(Seq<char>, Seq<char>)>,
    pub serve: bool,
}

/// What comes after an inbox has been looked into: the model is asked again, or
/// the turn ends with a text, or the conversation does.
pub enum Stage {
    Tools,
    Last { text: Seq<char> },
    Again { text: Seq<char> },
}

/// What comes after an event has been told.
pub enum After {
    Think { reply: Tree },
    Call { calls: Seq<Invocation>, at: int },
    Out { calls: Seq<Invocation>, at: int, out: Seq<char> },
    Say { text: Seq<char>, message: Message },
    User { prompts: Seq<Seq<char>>, at: int, stage: Stage },
    Report { words: Seq<char> },
}

/// The next thing to be done for a conversation.
#[allow(inconsistent_fields)]
pub enum Act {
    Post {
        url: Seq<char>,
        headers: Seq<(Seq<char>, Seq<char>)>,
        body: Tree,
        course: Course,
    },
    Emit { event: Tree, course: Course, after: After },
    Run {
        verb: Verb,
        url: Seq<char>,
        headers: Seq<(Seq<char>, Seq<char>)>,
        body: Option<Tree>,
        course: Course,
        calls: Seq<Invocation>,
        at: int,
    },
    Pull { course: Course, stage: Stage },
    Done { messages: Seq<Message>, result: Result<Seq<char>, Seq<char>> },
}

/// The next thing to be done, and the lines for the log before it.
pub struct Move {
    pub notes: Seq<Seq<char>>,
    pub act: Act,
}

/// What came of asking the model.
pub enum Outcome {
    Failed { words: Seq<char> },
    Garbled { words: Seq<char> },
    Got { reply: Tree },
}

/// Three quarters of the budget, reckoned in the range of a `u64`.
pub open spec fn three_quarters(budget: u64) -> int {
    (budget * 3) % 0x1_0000_0000_0000_0000 / 4
}

/// The conversation has grown too long to be sent whole: by the tokens that the
/// last reply reported, or, before any, by its length.
pub open spec fn too_long(r: Rules, c: Course) -> bool {
    match c.used {
        Some(n) => n > r.budget,
        None => messages_len(c.messages) as int % (usize::MAX + 1) > three_quarters(r.budget),
    }
}

/// The body of the request to the model.
pub open spec fn request(r: Rules, c: Course) -> Tree {
    let ms = if too_long(r, c) {
        sent(c.pin, r.keep as int, c.messages)
    } else {
        c.messages
    };
    Tree::Dict(put(r.base, "messages"@, Message::list(ms)))
}

/// The move without lines for the log.
pub open spec fn quiet(act: Act) -> Move {
    Move { notes: seq![], act }
}

/// The conversation with one more message.
pub open spec fn with(c: Course, m: Message) -> Course {
    Course { messages: c.messages.push(m), ..c }
}

/// The turn ends. A client is told of an error; else its inbox is looked into
/// once more.
pub open spec fn ended(c: Course, result: Result<Seq<char>, Seq<char>>) -> Act {
    if !c.serve {
        Act::Done { messages: c.messages, result }
    } else {
        match result {
            Ok(text) => Act::Pull { course: c, stage: Stage::Again { text } },
            Err(words) => Act::Emit {
                event: text_event("err"@, words),
                course: c,
                after: After::Report { words },
            },
        }
    }
}

/// The model is asked, if it may still be.
pub open spec fn ask(r: Rules, c: Course) -> Act {
    if c.left <= 0 {
        ended(c, Err("step limit"@))
    } else {
        Act::Post {
            url: r.chat,
            headers: r.headers,
            body: request(r, c),
            course: Course { left: c.left - 1, ..c },
        }
    }
}

/// The call at position `at` is made, or, behind the last, the inbox is looked
/// into.
pub open spec fn calling(c: Course, calls: Seq<Invocation>, at: int) -> Act {
    if at < calls.len() {
        Act::Emit {
            event: call_event(calls[at].name, calls[at].args),
            course: c,
            after: After::Call { calls, at },
        }
    } else {
        Act::Pull { course: c, stage: Stage::Tools }
    }
}

/// A reply is followed: its calls are made, or its text is told.
pub open spec fn follow(c: Course, v: Tree) -> Move {
    if wants_tools(v) {
        quiet(calling(with(c, calling_message(v)), invocations(v), 0))
    } else {
        Move {
            notes: seq!["out "@ + said(v)],
            act: Act::Emit {
                event: text_event("say"@, said(v)),
                course: c,
                after: After::Say { text: said(v), message: saying_message(v) },
            },
        }
    }
}

/// What comes after the model was asked.
pub open spec fn replied(c: Course, o: Outcome) -> Move {
    match o {
        Outcome::Failed { words } => Move {
            notes: seq!["chat fail "@ + words],
            act: ended(c, Err("chat: "@ + words)),
        },
        Outcome::Garbled { words } => quiet(ended(c, Err("chat json: "@ + words))),
        Outcome::Got { reply } => match reply.get("error"@) {
            Some(e) => quiet(ended(c, Err("api: "@ + tree_text(e)))),
            None => {
                let d = Course { used: used(reply), ..c };
                if thought(reply).len() > 0 {
                    Move {
                        notes: seq![reply_note(reply)],
                        act: Act::Emit {
                            event: text_event("think"@, thought(reply)),
                            course: d,
                            after: After::Think { reply },
                        },
                    }
                } else {
                    let m = follow(d, reply);
                    Move { notes: seq![reply_note(reply)] + m.notes, act: m.act }
                }
            },
        },
    }
}

/// What comes after the inbox was looked into, and `any` prompts were in it.
pub open spec fn pulled(r: Rules, c: Course, stage: Stage, any: bool) -> Act {
    match stage {
        Stage::Tools => ask(r, c),
        Stage::Last { text } => if any {
            ask(r, c)
        } else {
            ended(c, Ok(text))
        },
        Stage::Again { text } => if any {
            ask(r, Course { used: None, left: r.steps as int, ..c })
        } else {
            Act::Done { messages: c.messages, result: Ok(text) }
        },
    }
}

/// The prompt at position `at` is told.
pub open spec fn telling(c: Course, prompts: Seq<Seq<char>>, at: int, stage: Stage) -> Act {
    Act::Emit {
        event: text_event("user"@, prompts[at]),
        course: c,
        after: After::User { prompts, at, stage },
    }
}

/// What comes after the inbox was looked into.
pub open spec fn received(r: Rules, c: Course, stage: Stage, prompts: Seq<Seq<char>>) -> Act {
    if prompts.len() == 0 {
        pulled(r, c, stage, false)
    } else {
        telling(c, prompts, 0, stage)
    }
}

/// What comes after a tool was run.
pub open spec fn ran(c: Course, calls: Seq<Invocation>, at: int, out: Seq<char>) -> Move {
    Move {
        notes: seq![tool_note(calls[at], out)],
        act: Act::Emit {
            event: out_event(calls[at].name, out),
            course: c,
            after: After::Out { calls, at, out },
        },
    }
}

/// The route of the tool that a call names.
pub open spec fn call_route(r: Rules, call: Invocation) -> Option<Tree> {
    lookup(r.specs, call.name)
}

/// The tool of the call at position `at` is run.
pub open spec fn running(r: Rules, c: Course, calls: Seq<Invocation>, at: int) -> Act {
    let spec_ = call_route(r, calls[at]);
    Act::Run {
        verb: verb_of(method_of(spec_)),
        url: destination(address_of(r.exec_url, spec_), method_of(spec_), calls[at].args),
        headers: c.extra,
        body: body_of(verb_of(method_of(spec_)), calls[at].args),
        course: c,
        calls,
        at,
    }
}

/// What comes after an event was told, or could not be.
pub open spec fn emitted(
    r: Rules,
    c: Course,
    after: After,
    result: Result<(), Seq<char>>,
) -> Move {
    match result {
        Err(words) => quiet(
            match after {
                After::Report { words: e } => Act::Done { messages: c.messages, result: Err(e) },
                After::User { prompts, at, stage: Stage::Again { text } } => Act::Done {
                    messages: c.messages,
                    result: Ok(text),
                },
                _ => ended(c, Err(words)),
            },
        ),
        Ok(_) => match after {
            After::Think { reply } => follow(c, reply),
            After::Call { calls, at } => quiet(running(r, c, calls, at)),
            After::Out { calls, at, out } => quiet(
                calling(with(c, answer(calls[at].id, out)), calls, at + 1),
            ),
            After::Say { text, message } => quiet(
                Act::Pull { course: with(c, message), stage: Stage::Last { text } },
            ),
            After::User { prompts, at, stage } => {
                let d = with(c, Message::plain("user"@, prompts[at]));
                if at + 1 < prompts.len() {
                    quiet(telling(d, prompts, at + 1, stage))
                } else {
                    quiet(pulled(r, d, stage, true))
                }
            },
            After::Report { words } => quiet(
                Act::Done { messages: c.messages, result: Err(words) },
            ),
        },
    }
}

/// A conversation under way.
pub struct Talk {
    pub messages: Vec<Msg>,
    pub pin: usize,
    pub used: Option<u64>,
    pub left: u64,
    pub extra: Vec<(String, String)>,
    pub serve: bool,
}

impl Talk {
    /// The conversation.
    pub open spec fn view(&self) -> Course {
        Course {
            messages: Msg::views(self.messages@),
            pin: self.pin as int,
            used: self.used,
            left: self.left as int,
            extra: pairs(self.extra@),
            serve: self.serve,
        }
    }
}

/// What comes after an inbox has been looked into.
pub enum Phase {
    Tools,
    Last { text: String },
    Again { text: String },
}

impl Phase {
    /// What comes after an inbox has been looked into.
    pub open spec fn view(&self) -> Stage {
        match self {
            Phase::Tools => Stage::Tools,
            Phase::Last { text } => Stage::Last { text: text@ },
            Phase::Again { text } => Stage::Again { text: text@ },
        }
    }
}

/// What comes after an event has been told.
pub enum Then {
    Think { reply: Json },
    Call { calls: Vec<ToolCall>, at: usize },
    Out { calls: Vec<ToolCall>, at: usize, out: String },
    Say { text: String, message: Msg },
    User { prompts: Vec<String>, at: usize, phase: Phase },
    Report { words: String },
}

impl Then {
    /// What comes after an event has been told.
    pub open spec fn view(&self) -> After {
        match self {
            Then::Think { reply } => After::Think { reply: reply@ },
            Then::Call { calls, at } => After::Call {
                calls: ToolCall::views(calls@),
                at: *at as int,
            },
            Then::Out { calls, at, out } => After::Out {
                calls: ToolCall::views(calls@),
                at: *at as int,
                out: out@,
            },
            Then::Say { text, message } => After::Say { text: text@, message: message@ },
            Then::User { prompts, at, phase } => After::User {
                prompts: texts(prompts@),
                at: *at as int,
                stage: phase@,
            },
            Then::Report { words } => After::Report { words: words@ },
        }
    }

    /// The position is that of a call or a prompt.
    pub open spec fn sound(&self) -> bool {
        match self {
            Then::Call { calls, at } => *at < calls@.len(),
            Then::Out { calls, at, out } => *at < calls@.len(),
            Then::User { prompts, at, phase } => *at < prompts@.len(),
            _ => true,
        }
    }
}

/// A conversation that waits for the reply of the model.
pub struct AwaitReply {
    talk: Talk,
}

/// A conversation that waits for an event to be told.
pub struct AwaitEmit {
    talk: Talk,
    pending: Then,
}

/// A conversation that waits for the output of a tool.
pub struct AwaitTool {
    talk: Talk,
    calls: Vec<ToolCall>,
    at: usize,
}

/// A conversation that waits for what is in its inbox.
pub struct AwaitInbox {
    talk: Talk,
    phase: Phase,
}

impl AwaitReply {
    /// The conversation.
    pub closed spec fn course(&self) -> Course {
        self.talk@
    }
}

impl AwaitEmit {
    /// The conversation.
    pub closed spec fn course(&self) -> Course {
        self.talk@
    }

    /// What comes after the event has been told.
    pub closed spec fn after(&self) -> After {
        self.pending@
    }

    #[verifier::type_invariant]
    closed spec fn inv(self) -> bool {
        self.pending.sound()
    }
}

impl AwaitTool {
    /// The conversation.
    pub closed spec fn course(&self) -> Course {
        self.talk@
    }

    /// The calls, one of which is under way.
    pub closed spec fn calls(&self) -> Seq<Invocation> {
        ToolCall::views(self.calls@)
    }

    /// The position of the call that is under way.
    pub closed spec fn at(&self) -> int {
        self.at as int
    }

    #[verifier::type_invariant]
    closed spec fn inv(self) -> bool {
        self.at < self.calls@.len()
    }
}

impl AwaitInbox {
    /// The conversation.
    pub closed spec fn course(&self) -> Course {
        self.talk@
    }

    /// What comes after the inbox has been looked into.
    pub closed spec fn stage(&self) -> Stage {
        self.phase@
    }
}

/// The next thing to be done for a conversation, with the state that takes the
/// outcome.
#[allow(inconsistent_fields)]
pub enum Deed {
    Post { url: String, headers: Vec<(String, String)>, body: Json, state: AwaitReply },
    Emit { event: Json, state: AwaitEmit },
    Run { request: ToolRequest, headers: Vec<(String, String)>, state: AwaitTool },
    Pull { state: AwaitInbox },
    Done { messages: Vec<Msg>, result: Result<String, String> },
}

impl Deed {
    /// The next thing to be done.
    pub open spec fn view(&self) -> Act {
        match self {
            Deed::Post { url, headers, body, state } => Act::Post {
                url: url@,
                headers: pairs(headers@),
                body: body@,
                course: state.course(),
            },
            Deed::Emit { event, state } => Act::Emit {
                event: event@,
                course: state.course(),
                after: state.after(),
            },
            Deed::Run { request, headers, state } => Act::Run {
                verb: request.verb,
                url: request.url@,
                headers: pairs(headers@),
                body: tree_in(request.body),
                course: state.course(),
                calls: state.calls(),
                at: state.at(),
            },
            Deed::Pull { state } => Act::Pull { course: state.course(), stage: state.stage() },
            Deed::Done { messages, result } => Act::Done {
                messages: Msg::views(messages@),
                result: match result {
                    Ok(s) => Ok(s@),
                    Err(s) => Err(s@),
                },
            },
        }
    }
}

/// The next thing to be done, and the lines for the log before it.
pub struct Next {
    pub notes: Vec<String>,
    pub deed: Deed,
}

impl Next {
    /// The next thing to be done, and the lines for the log before it.
    pub open spec fn view(&self) -> Move {
        Move { notes: texts(self.notes@), act: self.deed@ }
    }
}

/// What came of asking the model: the request failed, its answer was no JSON, or
/// it is there.
pub enum Reply {
    Failed { words: String },
    Garbled { words: String },
    Got { reply: Json },
}

impl Reply {
    /// What came of asking the model.
    pub open spec fn view(&self) -> Outcome {
        match self {
            Reply::Failed { words } => Outcome::Failed { words: words@ },
            Reply::Garbled { words } => Outcome::Garbled { words: words@ },
            Reply::Got { reply } => Outcome::Got { reply: reply@ },
        }
    }
}

/// The result of telling an event, as texts.
pub open spec fn told(r: Result<(), String>) -> Result<(), Seq<char>> {
    match r {
        Ok(_) => Ok(()),
        Err(s) => Err(s@),
    }
}

fn still(deed: Deed) -> (r: Next)
    ensures
        r@ == quiet(deed@),
{
    let notes: Vec<String> = Vec::new();
    assert(texts(notes@) =~= seq![]);
    Next { notes, deed }
}

fn noted(note: String, deed: Deed) -> (r: Next)
    ensures
        r@ == (Move { notes: seq![note@], act: deed@ }),
{
    let mut notes: Vec<String> = Vec::new();
    notes.push(note);
    assert(texts(notes@) =~= seq![note@]);
    Next { notes, deed }
}

fn end(talk: Talk, result: Result<String, String>) -> (r: Deed)
    ensures
        r@ == ended(
            talk@,
            match result {
                Ok(s) => Ok(s@),
                Err(s) => Err(s@),
            },
        ),
{
    if !talk.serve {
        return Deed::Done { messages: talk.messages, result };
    }
    match result {
        Ok(text) => Deed::Pull { state: AwaitInbox { talk, phase: Phase::Again { text } } },
        Err(words) => {
            let event = tell("err", &words);
            Deed::Emit { event, state: AwaitEmit { talk, pending: Then::Report { words } } }
        },
    }
}

fn fat(cfg: &Cfg, talk: &Talk) -> (r: bool)
    ensures
        r == too_long(cfg.rules(), talk@),
{
    match talk.used {
        Some(n) => n > cfg.budget,
        None => chars(&talk.messages) as u64 > cfg.budget.wrapping_mul(3) / 4,
    }
}

fn ask_model(cfg: &Cfg, talk: Talk) -> (r: Deed)
    ensures
        r@ == ask(cfg.rules(), talk@),
{
    if talk.left == 0 {
        return end(talk, Err("step limit".to_string()));
    }
    let list = if fat(cfg, &talk) {
        to_list(&send(talk.pin, cfg.keep, &talk.messages))
    } else {
        to_list(&talk.messages)
    };
    let mut body = cfg.map.clone();
    body.insert("messages".to_string(), list);
    let next = Talk { left: talk.left - 1, ..talk };
    Deed::Post {
        url: chat_url(&cfg.url),
        headers: chat_headers(&cfg.headers),
        body: Json::Dict(body),
        state: AwaitReply { talk: next },
    }
}

fn make_call(talk: Talk, calls: Vec<ToolCall>, at: usize) -> (r: Deed)
    ensures
        r@ == calling(talk@, ToolCall::views(calls@), at as int),
{
    if at < calls.len() {
        let event = tell_call(&calls[at].name, &calls[at].args);
        Deed::Emit { event, state: AwaitEmit { talk, pending: Then::Call { calls, at } } }
    } else {
        Deed::Pull { state: AwaitInbox { talk, phase: Phase::Tools } }
    }
}

fn add_message(talk: Talk, m: Msg) -> (r: Talk)
    ensures
        r@ == with(talk@, m@),
{
    let mut messages = talk.messages;
    let ghost before = messages@;
    messages.push(m);
    assert(Msg::views(messages@) =~= Msg::views(before).push(m@));
    Talk { messages, ..talk }
}

fn follow_reply(talk: Talk, v: &Json) -> (r: Next)
    ensures
        r@ == follow(talk@, v@),
{
    if calls_tools(v) {
        let talk = add_message(talk, assistant_message(v, true));
        still(make_call(talk, read_calls(v), 0))
    } else {
        let text = reply_message(v).at("content").str_or_empty().to_string();
        let event = tell("say", &text);
        let note = cat("out ", &text);
        let pending = Then::Say { text, message: assistant_message(v, false) };
        noted(note, Deed::Emit { event, state: AwaitEmit { talk, pending } })
    }
}

fn after_pull(cfg: &Cfg, talk: Talk, phase: Phase, any: bool) -> (r: Deed)
    ensures
        r@ == pulled(cfg.rules(), talk@, phase@, any),
{
    match phase {
        Phase::Tools => ask_model(cfg, talk),
        Phase::Last { text } => if any {
            ask_model(cfg, talk)
        } else {
            end(talk, Ok(text))
        },
        Phase::Again { text } => if any {
            ask_model(cfg, Talk { used: None, left: cfg.steps, ..talk })
        } else {
            Deed::Done { messages: talk.messages, result: Ok(text) }
        },
    }
}

fn tell_prompt(talk: Talk, prompts: Vec<String>, at: usize, phase: Phase) -> (r: Deed)
    requires
        at < prompts@.len(),
    ensures
        r@ == telling(talk@, texts(prompts@), at as int, phase@),
{
    let event = tell("user", &prompts[at]);
    Deed::Emit { event, state: AwaitEmit { talk, pending: Then::User { prompts, at, phase } } }
}

/// A turn begins: the model is asked about the messages, the first `pin` of which
/// are always sent whole. The headers `extra` go along with requests to tools.
/// Where the conversation is served, it goes on while prompts come in.
pub fn turn(
    cfg: &Cfg,
    messages: Vec<Msg>,
    pin: usize,
    extra: Vec<(String, String)>,
    serve: bool,
) -> (r: Next)
    ensures
        r@ == quiet(
            ask(
                cfg.rules(),
                Course {
                    messages: Msg::views(messages@),
                    pin: pin as int,
                    used: None,
                    left: cfg.steps as int,
                    extra: pairs(extra@),
                    serve,
                },
            ),
        ),
{
    still(ask_model(cfg, Talk { messages, pin, used: None, left: cfg.steps, extra, serve }))
}

impl AwaitReply {
    /// What comes after the model was asked.
    pub fn resume(self, reply: Reply) -> (r: Next)
        ensures
            r@ == replied(self.course(), reply@),
    {
        let talk = self.talk;
        match reply {
            Reply::Failed { words } => {
                let note = cat("chat fail ", &words);
                noted(note, end(talk, Err(cat("chat: ", &words))))
            },
            Reply::Garbled { words } => still(end(talk, Err(cat("chat json: ", &words)))),
            Reply::Got { reply } => {
                match reply.get("error") {
                    Some(e) => {
                        let words = cat("api: ", &e.to_text());
                        return still(end(talk, Err(words)));
                    },
                    None => {},
                }
                let talk = Talk { used: reply_used(&reply), ..talk };
                let note = note_reply(&reply);
                let think = reply_message(&reply).at("reasoning_content").str_or_empty().to_string();
                if !think.as_str().is_empty() {
                    let event = tell("think", &think);
                    noted(
                        note,
                        Deed::Emit { event, state: AwaitEmit { talk, pending: Then::Think { reply } } },
                    )
                } else {
                    let next = follow_reply(talk, &reply);
                    let mut notes: Vec<String> = Vec::new();
                    notes.push(note);
                    let mut rest = next.notes;
                    let ghost tail = rest@;
                    notes.append(&mut rest);
                    assert(texts(notes@) =~= seq![note@] + texts(tail));
                    Next { notes, deed: next.deed }
                }
            },
        }
    }
}

impl AwaitTool {
    /// What comes after the tool was run.
    pub fn resume(self, out: String) -> (r: Next)
        ensures
            r@ == ran(self.course(), self.calls(), self.at(), out@),
    {
        proof {
            use_type_invariant(&self);
        }
        let note = note_tool(&self.calls[self.at], &out);
        let event = tell_out(&self.calls[self.at].name, &out);
        let pending = Then::Out { calls: self.calls, at: self.at, out };
        noted(note, Deed::Emit { event, state: AwaitEmit { talk: self.talk, pending } })
    }
}

impl AwaitInbox {
    /// What comes after the inbox was looked into.
    pub fn resume(self, cfg: &Cfg, prompts: Vec<String>) -> (r: Next)
        ensures
            r@ == quiet(received(cfg.rules(), self.course(), self.stage(), texts(prompts@))),
    {
        if prompts.len() == 0 {
            still(after_pull(cfg, self.talk, self.phase, false))
        } else {
            still(tell_prompt(self.talk, prompts, 0, self.phase))
        }
    }
}

impl AwaitEmit {
    /// What comes after the event was told, or could not be.
    pub fn resume(self, cfg: &Cfg, result: Result<(), String>) -> (r: Next)
        ensures
            r@ == emitted(cfg.rules(), self.course(), self.after(), told(result)),
    {
        proof {
            use_type_invariant(&self);
        }
        let talk = self.talk;
        match self.pending {
            Then::Report { words } => still(
                Deed::Done { messages: talk.messages, result: Err(words) },
            ),
            Then::User { prompts, at, phase } => match result {
                Ok(_) => {
                    let text = prompts[at].clone();
                    let talk = add_message(talk, Msg::plain("user", text));
                    let count: usize = prompts.len();
                    if at + 1 < count {
                        still(tell_prompt(talk, prompts, at + 1, phase))
                    } else {
                        still(after_pull(cfg, talk, phase, true))
                    }
                },
                Err(words) => match phase {
                    Phase::Again { text } => still(
                        Deed::Done { messages: talk.messages, result: Ok(text) },
                    ),
                    _ => still(end(talk, Err(words))),
                },
            },
            Then::Think { reply } => match result {
                Ok(_) => follow_reply(talk, &reply),
                Err(words) => still(end(talk, Err(words))),
            },
            Then::Call { calls, at } => match result {
                Ok(_) => {
                    let route = cfg.specs.get(&calls[at].name);
                    let request = plan_tool(&cfg.exec_url, route, &calls[at].args);
                    let headers = copy_pairs(&talk.extra);
                    still(Deed::Run { request, headers, state: AwaitTool { talk, calls, at } })
                },
                Err(words) => still(end(talk, Err(words))),
            },
            Then::Out { calls, at, out } => match result {
                Ok(_) => {
                    let talk = add_message(talk, answer_message(&calls[at].id, &out));
                    let count: usize = calls.len();
                    assert(at < count);
                    still(make_call(talk, calls, at + 1))
                },
                Err(words) => still(end(talk, Err(words))),
            },
            Then::Say { text, message } => match result {
                Ok(_) => {
                    let talk = add_message(talk, message);
                    let phase = Phase::Last { text };
                    still(Deed::Pull { state: AwaitInbox { talk, phase } })
                },
                Err(words) => still(end(talk, Err(words))),
            },
        }
    }
}

} // verus!

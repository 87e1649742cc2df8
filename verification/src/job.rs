//! A job: one prompt, carried through by the model and its tools, over a host
//! that fetches.
//!
//! A job goes from one fetch to the next. The host performs the fetch and hands
//! the answer to the state that came with it.

use vstd::prelude::*;
use vstd::string::*;
use vstd::utf8::*;

use crate::config::{budget_in, budget_of, number_in, number_or};
use crate::json::{
    lemma_trees, lookup, put, put_then_lookup, reading, without, without_keeps_order,
    without_then_lookup, Dict, Json,
};
use crate::message::{
    bytes_len, mask, masked, min_chars, plain_messages_are_written, tree_in, Message, Msg,
};
use crate::query::{destination, getish, in_address, tool_dest};
use crate::reply::{
    answer, answer_message, answers_are_written, assistant_message, calling_message,
    calls_are_listed, calls_are_recognised, calls_tools, has_message, invocations, no_answer,
    prompt_tokens_are_reported, read_calls, replies_are_kept, replies_say_their_content,
    reply_message, reply_used, said, used, wants_tools, Invocation, ToolCall,
};
use crate::talk::three_quarters;
use crate::text::cat;
use crate::tools::{method_of, peel_tools, peeled, routes, tool_method};
use crate::url::{job_endpoint, job_url};
use crate::value::{ascending, number_u64, read_bytes, tree_text, Tree};

verus! {

/// What a job sets: the chat endpoint, its key, the address of the tools, how
/// many messages stay whole, the budget of prompt tokens, what every request
/// carries along, and the routes of the tools.
pub struct Terms {
    pub chat: Seq<char>,
    pub key: Seq<char>,
    pub exec_url: Seq<char>,
    pub keep: usize,
    pub budget: u64,
    pub base: Seq<(Seq<char>, Tree)>,
    pub specs: Seq<(Seq<char>, Tree)>,
}

/// How far a job has come: its messages, how many of them are pinned, the prompt
/// tokens that the last reply reported, and how many times the model may still
/// be asked.
pub struct State {
    pub messages: Seq<Tree>,
    pub pin: int,
    pub used: Option<u64>,
    pub left: int,
}

/// What a job waits for: the reply of the model, or that of a tool.
pub enum Waits {
    Chat,
    Tool { calls: Seq<Invocation>, at: int },
}

/// The next thing that a job needs: an answer to a request, or nothing more.
pub enum Stride {
    Fetch { request: Tree, terms: Terms, state: State, waits: Waits },
    Done { out: Seq<char> },
}

/// The headers of a request.
pub open spec fn fetch_headers(key: Seq<char>, body: bool) -> Seq<(Seq<char>, Tree)> {
    let a = if key.len() > 0 {
        put(seq![], "Authorization"@, Tree::Text("Bearer "@ + key))
    } else {
        seq![]
    };
    if body {
        put(a, "Content-Type"@, Tree::Text("application/json"@))
    } else {
        a
    }
}

/// A request to the host, as a document.
pub open spec fn fetch_request(
    method: Seq<char>,
    url: Seq<char>,
    key: Seq<char>,
    body: Option<Tree>,
) -> Tree {
    let a = put(put(seq![], "method"@, Tree::Text(method)), "url"@, Tree::Text(url));
    let b = put(a, "headers"@, Tree::Dict(fetch_headers(key, body is Some)));
    Tree::Dict(
        match body {
            Some(t) => put(b, "body"@, t),
            None => b,
        },
    )
}

/// The messages with which a job begins.
pub open spec fn opening(inst: Seq<char>, prompt: Seq<char>) -> Seq<Tree> {
    let user = Message::plain("user"@, prompt).tree();
    if inst.len() > 0 {
        seq![Message::plain("system"@, inst).tree(), user]
    } else {
        seq![user]
    }
}

/// What every request of a job carries along: the extra members that it names,
/// its model, and its tools.
pub open spec fn job_base(t: Tree) -> Seq<(Seq<char>, Tree)> {
    let a = without(without(t.at("extra"@).members(), "stream"@), "messages"@);
    let b = put(a, "model"@, Tree::Text(t.at("model"@).str_or_empty()));
    if t.at("tools"@) is Null {
        b
    } else {
        put(b, "tools"@, peeled(t.at("tools"@)))
    }
}

/// A job says where to ask, which model, and what.
pub open spec fn job_valid(t: Tree) -> bool {
    &&& t.at("url"@).str_or_empty().len() > 0
    &&& t.at("model"@).str_or_empty().len() > 0
    &&& t.at("prompt"@).str_or_empty().len() > 0
}

/// What a job sets.
pub open spec fn job_terms(t: Tree) -> Terms {
    Terms {
        chat: job_endpoint(t.at("url"@).str_or_empty()),
        key: t.at("key"@).str_or_empty(),
        exec_url: t.at("exec"@).str_or_empty(),
        keep: number_or(t.get("keep"@), 9) as usize,
        budget: budget_of(t.get("budget"@), t.get("window"@)),
        base: job_base(t),
        specs: routes(t.at("tools"@).items(), false),
    }
}

/// The job before its first step.
pub open spec fn job_state(t: Tree) -> State {
    let ms = opening(t.at("agents"@).str_or_empty(), t.at("prompt"@).str_or_empty());
    State {
        messages: ms,
        pin: ms.len() as int,
        used: None,
        left: number_or(t.get("steps"@), 27) as int,
    }
}

/// The messages have grown too long to be sent whole: by the tokens that the last
/// reply reported, or, before any, by their length.
pub open spec fn job_too_long(terms: Terms, s: State) -> bool {
    match s.used {
        Some(n) => n > terms.budget,
        None => bytes_len(encode_utf8(tree_text(Tree::List(s.messages)))) > three_quarters(
            terms.budget,
        ),
    }
}

/// The body of the request to the model.
pub open spec fn job_body(terms: Terms, s: State) -> Tree {
    let ms = if job_too_long(terms, s) {
        masked(s.pin, terms.keep as int, s.messages)
    } else {
        s.messages
    };
    Tree::Dict(put(terms.base, "messages"@, Tree::List(ms)))
}

/// The model is asked, if it may still be.
pub open spec fn job_ask(terms: Terms, s: State) -> Stride {
    if s.left <= 0 {
        Stride::Done { out: "step limit"@ }
    } else {
        Stride::Fetch {
            request: fetch_request("POST"@, terms.chat, terms.key, Some(job_body(terms, s))),
            terms,
            state: State { left: s.left - 1, ..s },
            waits: Waits::Chat,
        }
    }
}

/// The job begins.
pub open spec fn job_begun(t: Tree) -> Stride {
    if job_valid(t) {
        job_ask(job_terms(t), job_state(t))
    } else {
        Stride::Done { out: "job needs url, model, prompt"@ }
    }
}

/// The job that was read begins.
pub open spec fn begun(parsed: Result<Tree, Seq<char>>) -> Stride {
    match parsed {
        Ok(t) => job_begun(t),
        Err(e) => Stride::Done { out: "bad job: "@ + e },
    }
}

/// The call at position `at` is made, or, behind the last, the model is asked.
pub open spec fn job_calling(
    terms: Terms,
    s: State,
    calls: Seq<Invocation>,
    at: int,
) -> Stride {
    if at < calls.len() {
        let method = method_of(lookup(terms.specs, calls[at].name));
        let args = calls[at].args;
        Stride::Fetch {
            request: fetch_request(
                method,
                destination(terms.exec_url, method, args),
                seq![],
                if in_address(method) {
                    None
                } else {
                    Some(args)
                },
            ),
            terms,
            state: s,
            waits: Waits::Tool { calls, at },
        }
    } else {
        job_ask(terms, s)
    }
}

/// The state with one more message.
pub open spec fn job_with(s: State, t: Tree) -> State {
    State { messages: s.messages.push(t), ..s }
}

/// What comes after the model has replied.
pub open spec fn job_replied(terms: Terms, s: State, reply: Result<Tree, Seq<char>>) -> Stride {
    match reply {
        Err(e) => Stride::Done { out: "chat: "@ + e },
        Ok(v) => match v.get("error"@) {
            Some(e) => Stride::Done { out: "api: "@ + tree_text(e) },
            None => if wants_tools(v) {
                let next = State { used: used(v), ..s };
                job_calling(
                    terms,
                    job_with(next, calling_message(v).tree()),
                    invocations(v),
                    0,
                )
            } else {
                Stride::Done { out: said(v) }
            },
        },
    }
}

/// What a tool has to say: its reply as JSON text, or what went wrong.
pub open spec fn tool_text(reply: Result<Tree, Seq<char>>) -> Seq<char> {
    match reply {
        Ok(v) => tree_text(v),
        Err(e) => "tool error: "@ + e,
    }
}

/// What comes after the answer to a request.
pub open spec fn resumed(
    terms: Terms,
    s: State,
    waits: Waits,
    reply: Result<Tree, Seq<char>>,
) -> Stride {
    match waits {
        Waits::Chat => job_replied(terms, s, reply),
        Waits::Tool { calls, at } => job_calling(
            terms,
            job_with(s, answer(calls[at].id, tool_text(reply)).tree()),
            calls,
            at + 1,
        ),
    }
}

struct Job {
    chat: String,
    key: String,
    exec_url: String,
    keep: usize,
    budget: u64,
    base: Dict,
    specs: Dict,
    messages: Vec<Json>,
    pin: usize,
    used: Option<u64>,
    left: u64,
}

impl Job {
    spec fn terms(&self) -> Terms {
        Terms {
            chat: self.chat@,
            key: self.key@,
            exec_url: self.exec_url@,
            keep: self.keep,
            budget: self.budget,
            base: self.base@,
            specs: self.specs@,
        }
    }

    spec fn state(&self) -> State {
        State {
            messages: Json::trees(self.messages@),
            pin: self.pin as int,
            used: self.used,
            left: self.left as int,
        }
    }
}

enum Wait {
    Chat,
    Tool { calls: Vec<ToolCall>, at: usize },
}

impl Wait {
    spec fn view(&self) -> Waits {
        match self {
            Wait::Chat => Waits::Chat,
            Wait::Tool { calls, at } => Waits::Tool {
                calls: ToolCall::views(calls@),
                at: *at as int,
            },
        }
    }
}

/// A job that waits for the answer to a request.
pub struct Waiting {
    job: Job,
    wait: Wait,
}

impl Waiting {
    /// What the job sets.
    pub closed spec fn terms(&self) -> Terms {
        self.job.terms()
    }

    /// How far the job has come.
    pub closed spec fn state(&self) -> State {
        self.job.state()
    }

    /// What the job waits for.
    pub closed spec fn waits(&self) -> Waits {
        self.wait@
    }

    #[verifier::type_invariant]
    closed spec fn inv(self) -> bool {
        match self.wait {
            Wait::Chat => true,
            Wait::Tool { calls, at } => at < calls@.len(),
        }
    }
}

/// The next thing that a job needs: the answer to a request, whose bytes these
/// are, or nothing more.
pub enum Step {
    Fetch { request: Vec<u8>, state: Waiting },
    Done { out: Vec<u8> },
}

impl Step {
    /// The step is the given stride, with its document or text as bytes.
    pub open spec fn is(self, s: Stride) -> bool {
        match (self, s) {
            (Step::Fetch { request, state }, Stride::Fetch { request: t, terms, state: u, waits }) => {
                &&& request@ == encode_utf8(tree_text(t))
                &&& state.terms() == terms
                &&& state.state() == u
                &&& state.waits() == waits
            },
            (Step::Done { out }, Stride::Done { out: s }) => out@ == encode_utf8(s),
            _ => false,
        }
    }
}

fn finish(s: &str) -> (r: Step)
    ensures
        r.is(Stride::Done { out: s@ }),
{
    Step::Done { out: s.as_bytes_vec() }
}

fn fetch(method: &str, url: &str, key: &str, body: Option<Json>) -> (r: Vec<u8>)
    ensures
        r@ == encode_utf8(
            tree_text(fetch_request(method@, url@, key@, tree_in(body))),
        ),
{
    let mut headers = Dict::new();
    if !key.is_empty() {
        headers.insert("Authorization".to_string(), Json::Text(cat("Bearer ", key)));
    }
    match &body {
        Some(_) => headers.insert("Content-Type".to_string(), Json::text("application/json")),
        None => {},
    }
    let mut req = Dict::new();
    req.insert("method".to_string(), Json::text(method));
    req.insert("url".to_string(), Json::text(url));
    req.insert("headers".to_string(), Json::Dict(headers));
    match body {
        Some(j) => req.insert("body".to_string(), j),
        None => {},
    }
    Json::Dict(req).to_bytes()
}

fn copy_list(v: &Vec<Json>) -> (r: Vec<Json>)
    ensures
        Json::trees(r@) == Json::trees(v@),
{
    let mut out: Vec<Json> = Vec::new();
    for i in 0..v.len()
        invariant
            out@.len() == i,
            forall|j: int| 0 <= j < i ==> (#[trigger] out@[j])@ == v@[j]@,
    {
        out.push(v[i].clone());
    }
    proof {
        broadcast use lemma_trees;
        assert(Json::trees(out@) =~= Json::trees(v@));
    }
    out
}

fn job_fat(job: &Job) -> (r: bool)
    ensures
        r == job_too_long(job.terms(), job.state()),
{
    match job.used {
        Some(n) => n > job.budget,
        None => {
            let packed = Json::List(copy_list(&job.messages)).to_bytes();
            min_chars(&packed) as u64 > job.budget.wrapping_mul(3) / 4
        },
    }
}

fn ask_model(job: Job) -> (r: Step)
    ensures
        r.is(job_ask(job.terms(), job.state())),
{
    if job.left == 0 {
        return finish("step limit");
    }
    let list = if job_fat(&job) {
        mask(job.pin, job.keep, &job.messages)
    } else {
        copy_list(&job.messages)
    };
    let mut body = job.base.clone();
    body.insert("messages".to_string(), Json::List(list));
    let request = fetch("POST", &job.chat, &job.key, Some(Json::Dict(body)));
    let next = Job { left: job.left - 1, ..job };
    Step::Fetch { request, state: Waiting { job: next, wait: Wait::Chat } }
}

fn make_call(job: Job, calls: Vec<ToolCall>, at: usize) -> (r: Step)
    ensures
        r.is(job_calling(job.terms(), job.state(), ToolCall::views(calls@), at as int)),
{
    if at < calls.len() {
        let method = tool_method(job.specs.get(&calls[at].name));
        let dest = tool_dest(&job.exec_url, &method, &calls[at].args);
        let body = if getish(&method) {
            None
        } else {
            Some(calls[at].args.clone())
        };
        proof {
            reveal_strlit("");
            assert(""@ =~= seq![]);
        }
        let request = fetch(&method, &dest, "", body);
        Step::Fetch { request, state: Waiting { job, wait: Wait::Tool { calls, at } } }
    } else {
        ask_model(job)
    }
}

fn add_message(job: Job, m: Msg) -> (r: Job)
    ensures
        r.terms() == job.terms(),
        r.state() == job_with(job.state(), m@.tree()),
{
    let mut messages = job.messages;
    let ghost before = messages@;
    messages.push(m.to_json());
    proof {
        broadcast use lemma_trees;
        assert(Json::trees(messages@) =~= Json::trees(before).push(m@.tree()));
    }
    Job { messages, ..job }
}

/// The job that a document describes begins.
fn open_job(job: &Json) -> (r: Step)
    ensures
        r.is(job_begun(job@)),
{
    let url = job.at("url").str_or_empty();
    let model = job.at("model").str_or_empty();
    let inst = job.at("agents").str_or_empty();
    let prompt = job.at("prompt").str_or_empty();
    if url.is_empty() || model.is_empty() || prompt.is_empty() {
        return finish("job needs url, model, prompt");
    }
    let (tools, specs) = peel_tools(job.at("tools"));
    let mut messages: Vec<Json> = Vec::new();
    if !inst.is_empty() {
        messages.push(Msg::plain("system", inst.to_string()).to_json());
    }
    messages.push(Msg::plain("user", prompt.to_string()).to_json());
    proof {
        broadcast use lemma_trees;
        assert(Json::trees(messages@) =~= opening(inst@, prompt@));
    }
    let mut base = match job.at("extra") {
        Json::Dict(d) => d.clone(),
        _ => Dict::new(),
    };
    let _ = base.remove("stream");
    let _ = base.remove("messages");
    base.insert("model".to_string(), Json::text(model));
    match tools {
        Json::Null => {},
        _ => base.insert("tools".to_string(), tools),
    }
    let pin: usize = messages.len();
    ask_model(
        Job {
            chat: job_url(url),
            key: job.at("key").str_or_empty().to_string(),
            exec_url: job.at("exec").str_or_empty().to_string(),
            keep: number_in(job.get("keep"), 9) as usize,
            budget: budget_in(job.get("budget"), job.get("window")),
            base,
            specs,
            messages,
            pin,
            used: None,
            left: number_in(job.get("steps"), 27),
        },
    )
}

/// The job that was read begins.
pub fn begin(parsed: Result<Json, String>) -> (r: Step)
    ensures
        r.is(begun(reading(parsed))),
{
    match parsed {
        Ok(job) => open_job(&job),
        Err(e) => finish(&cat("bad job: ", &e)),
    }
}

/// The job that the bytes spell begins.
pub fn min_run(raw: &[u8]) -> (r: Step)
    ensures
        r.is(begun(read_bytes(raw@))),
{
    begin(Json::parse_bytes(raw))
}

impl Waiting {
    /// What comes after the answer to a request, as a document or an error.
    pub fn take(self, reply: Result<Json, String>) -> (r: Step)
        ensures
            r.is(resumed(self.terms(), self.state(), self.waits(), reading(reply))),
    {
        proof {
            use_type_invariant(&self);
        }
        let job = self.job;
        match self.wait {
            Wait::Chat => match reply {
                Err(e) => finish(&cat("chat: ", &e)),
                Ok(v) => {
                    match v.get("error") {
                        Some(e) => {
                            return finish(&cat("api: ", &e.to_text()));
                        },
                        None => {},
                    }
                    if calls_tools(&v) {
                        let job = Job { used: reply_used(&v), ..job };
                        let job = add_message(job, assistant_message(&v, true));
                        make_call(job, read_calls(&v), 0)
                    } else {
                        finish(reply_message(&v).at("content").str_or_empty())
                    }
                },
            },
            Wait::Tool { calls, at } => {
                let text = match reply {
                    Ok(v) => v.to_text(),
                    Err(e) => cat("tool error: ", &e),
                };
                let job = add_message(job, answer_message(&calls[at].id, &text));
                let count: usize = calls.len();
                assert(at < count);
                make_call(job, calls, at + 1)
            },
        }
    }

    /// What comes after the answer to a request, as bytes.
    pub fn resume(self, raw: &[u8]) -> (r: Step)
        ensures
            r.is(resumed(self.terms(), self.state(), self.waits(), read_bytes(raw@))),
    {
        self.take(Json::parse_bytes(raw))
    }
}

/// The next stride, once the answer to a request is there.
pub open spec fn job_advance(s: Stride, reply: Result<Tree, Seq<char>>) -> Stride {
    match s {
        Stride::Fetch { request, terms, state, waits } => resumed(terms, state, waits, reply),
        Stride::Done { out } => s,
    }
}

/// The stride after all the answers.
pub open spec fn job_play(s: Stride, rs: Seq<Result<Tree, Seq<char>>>) -> Stride
    decreases rs.len(),
{
    if rs.len() == 0 {
        s
    } else {
        job_play(job_advance(s, rs[0]), rs.drop_first())
    }
}

/// The number of times that the model replies among all the answers.
pub open spec fn job_replies(s: Stride, rs: Seq<Result<Tree, Seq<char>>>) -> int
    decreases rs.len(),
{
    if rs.len() == 0 {
        0
    } else {
        let here: int = if s is Fetch && s->waits is Chat {
            1
        } else {
            0
        };
        here + job_replies(job_advance(s, rs[0]), rs.drop_first())
    }
}

/// How many replies of the model a job can still take.
pub open spec fn job_rounds(s: Stride) -> int {
    match s {
        Stride::Fetch { request, terms, state, waits } => match waits {
            Waits::Chat => state.left + 1,
            Waits::Tool { calls, at } => state.left,
        },
        Stride::Done { out } => 0,
    }
}

proof fn lemma_job_replies(s: Stride, rs: Seq<Result<Tree, Seq<char>>>)
    requires
        s is Fetch ==> s->state.left >= 0,
    ensures
        job_replies(s, rs) <= job_rounds(s),
    decreases rs.len(),
{
    if rs.len() > 0 {
        lemma_job_replies(job_advance(s, rs[0]), rs.drop_first());
    }
}

/// Whatever comes back, a job takes no more replies of the model than it has
/// steps.
pub proof fn job_steps_bound_replies(t: Tree, rs: Seq<Result<Tree, Seq<char>>>)
    ensures
        job_replies(job_begun(t), rs) <= number_or(t.get("steps"@), 27),
{
    lemma_job_replies(job_begun(t), rs);
}

/// The state begins with the messages `ms`.
pub open spec fn begins_with(s: Stride, ms: Seq<Tree>) -> bool {
    s is Fetch ==> ms.len() <= s->state.messages.len() && s->state.messages.take(ms.len() as int)
        == ms
}

/// Whatever comes back, a job keeps the messages that it has, and adds to them at
/// the end.
pub proof fn job_history_grows(s: Stride, rs: Seq<Result<Tree, Seq<char>>>)
    requires
        s is Fetch,
    ensures
        begins_with(job_play(s, rs), s->state.messages),
    decreases rs.len(),
{
    let ms = s->state.messages;
    if rs.len() == 0 {
        assert(ms.take(ms.len() as int) =~= ms);
    } else {
        let next = job_advance(s, rs[0]);
        let end = job_play(s, rs);
        if next is Fetch {
            let more = next->state.messages;
            assert(more.take(ms.len() as int) =~= ms);
            job_history_grows(next, rs.drop_first());
            if end is Fetch {
                let last = end->state.messages;
                assert(last.take(ms.len() as int) =~= last.take(more.len() as int).take(
                    ms.len() as int,
                ));
            }
        } else {
            lemma_done_stays(next, rs.drop_first());
        }
    }
}

proof fn lemma_done_stays(s: Stride, rs: Seq<Result<Tree, Seq<char>>>)
    requires
        s is Done,
    ensures
        job_play(s, rs) == s,
    decreases rs.len(),
{
    if rs.len() > 0 {
        lemma_done_stays(s, rs.drop_first());
    }
}

/// A job that is done stays done.
pub proof fn job_done_is_final(out: Seq<char>, rs: Seq<Result<Tree, Seq<char>>>)
    ensures
        job_play(Stride::Done { out }, rs) == (Stride::Done { out }),
{
    lemma_done_stays(Stride::Done { out }, rs);
}

/// The answers to the calls, as messages, from position `at` on.
pub open spec fn job_answers(
    calls: Seq<Invocation>,
    rs: Seq<Result<Tree, Seq<char>>>,
    at: int,
) -> Seq<Tree> {
    Seq::new(
        (calls.len() - at) as nat,
        |i: int| answer(calls[at + i].id, tool_text(rs[i])).tree(),
    )
}

proof fn lemma_job_answers(
    terms: Terms,
    s: State,
    calls: Seq<Invocation>,
    rs: Seq<Result<Tree, Seq<char>>>,
    at: int,
)
    requires
        0 <= at <= calls.len(),
        rs.len() == calls.len() - at,
    ensures
        job_play(job_calling(terms, s, calls, at), rs) == job_ask(
            terms,
            State { messages: s.messages + job_answers(calls, rs, at), ..s },
        ),
    decreases rs.len(),
{
    if rs.len() == 0 {
        assert(s.messages + job_answers(calls, rs, at) =~= s.messages);
    } else {
        let next = job_with(s, answer(calls[at].id, tool_text(rs[0])).tree());
        let rest = rs.drop_first();
        lemma_job_answers(terms, next, calls, rest, at + 1);
        assert(s.messages + job_answers(calls, rs, at) =~= next.messages + job_answers(
            calls,
            rest,
            at + 1,
        ));
    }
}

/// Every call of a reply is answered by one message of a tool, with its
/// identifier and in its order, before the model is asked again; what goes wrong
/// with a tool is its answer.
pub proof fn job_every_call_is_answered(
    terms: Terms,
    s: State,
    calls: Seq<Invocation>,
    rs: Seq<Result<Tree, Seq<char>>>,
)
    requires
        rs.len() == calls.len(),
    ensures
        job_play(job_calling(terms, s, calls, 0), rs) == job_ask(
            terms,
            State {
                messages: s.messages + Seq::new(
                    calls.len(),
                    |i: int| answer(calls[i].id, tool_text(rs[i])).tree(),
                ),
                ..s
            },
        ),
{
    lemma_job_answers(terms, s, calls, rs, 0);
    assert(job_answers(calls, rs, 0) =~= Seq::new(
        calls.len(),
        |i: int| answer(calls[i].id, tool_text(rs[i])).tree(),
    ));
}

/// All the answers go on without an end: the model calls tools whenever it
/// replies.
pub open spec fn job_unanswered(s: Stride, rs: Seq<Result<Tree, Seq<char>>>) -> bool
    decreases rs.len(),
{
    rs.len() == 0 || {
        &&& s is Fetch && s->waits is Chat ==> (rs[0] matches Ok(v) && no_answer(v))
        &&& job_unanswered(job_advance(s, rs[0]), rs.drop_first())
    }
}

proof fn lemma_job_unanswered(s: Stride, rs: Seq<Result<Tree, Seq<char>>>)
    requires
        job_unanswered(s, rs),
        s is Fetch ==> s->state.left >= 0,
        s is Done ==> s->out == "step limit"@,
    ensures
        job_replies(s, rs) + job_rounds(job_play(s, rs)) == job_rounds(s),
        job_play(s, rs) is Done ==> job_play(s, rs)->out == "step limit"@,
    decreases rs.len(),
{
    if rs.len() > 0 {
        lemma_job_unanswered(job_advance(s, rs[0]), rs.drop_first());
    }
}

/// A job that never gets an answer uses exactly its steps: each reply takes one of
/// them, and it ends, with the words on the limit, only when none is left.
pub proof fn unanswered_jobs_use_their_steps(t: Tree, rs: Seq<Result<Tree, Seq<char>>>)
    requires
        job_valid(t),
        job_unanswered(job_begun(t), rs),
    ensures
        ({
            let steps = number_or(t.get("steps"@), 27);
            let end = job_play(job_begun(t), rs);
            &&& job_replies(job_begun(t), rs) + job_rounds(end) == steps
            &&& end is Done ==> end->out == "step limit"@ && job_replies(job_begun(t), rs) == steps
        }),
{
    lemma_job_unanswered(job_begun(t), rs);
}

proof fn lemma_job_concat(
    s: Stride,
    x: Seq<Result<Tree, Seq<char>>>,
    y: Seq<Result<Tree, Seq<char>>>,
)
    ensures
        job_play(s, x + y) == job_play(job_play(s, x), y),
    decreases x.len(),
{
    if x.len() == 0 {
        assert(x + y =~= y);
    } else {
        assert((x + y).drop_first() =~= x.drop_first() + y);
        lemma_job_concat(job_advance(s, x[0]), x.drop_first(), y);
    }
}

/// The answers in rounds in which the model replies `vs`, and the tools that it
/// calls give `outs`.
pub open spec fn job_idle_rounds(
    vs: Seq<Tree>,
    outs: Seq<Seq<Result<Tree, Seq<char>>>>,
) -> Seq<Result<Tree, Seq<char>>>
    decreases vs.len(),
{
    if vs.len() == 0 {
        seq![]
    } else {
        seq![Ok(vs[0])] + (outs[0] + job_idle_rounds(vs.drop_first(), outs.drop_first()))
    }
}

/// Where the model does nothing but call tools, a job ends with the words on the
/// limit once the model has been asked as often as it may be.
pub proof fn endless_job_calls_end(
    terms: Terms,
    s: State,
    vs: Seq<Tree>,
    outs: Seq<Seq<Result<Tree, Seq<char>>>>,
)
    requires
        s.left == vs.len(),
        outs.len() == vs.len(),
        forall|i: int|
            0 <= i < vs.len() ==> no_answer(#[trigger] vs[i]) && outs[i].len() == invocations(
                vs[i],
            ).len(),
    ensures
        job_play(job_ask(terms, s), job_idle_rounds(vs, outs)) == (Stride::Done {
            out: "step limit"@,
        }),
    decreases vs.len(),
{
    if vs.len() > 0 {
        let v = vs[0];
        let calls = invocations(v);
        let ws = vs.drop_first();
        let os = outs.drop_first();
        let rest = job_idle_rounds(ws, os);
        let reply: Seq<Result<Tree, Seq<char>>> = seq![Ok(v)];
        let d = job_with(
            State { used: used(v), left: s.left - 1, ..s },
            calling_message(v).tree(),
        );
        let e = State { messages: d.messages + job_answers(calls, outs[0], 0), ..d };
        assert forall|i: int| 0 <= i < ws.len() implies no_answer(#[trigger] ws[i])
            && os[i].len() == invocations(ws[i]).len() by {
            assert(ws[i] == vs[i + 1]);
        }
        lemma_job_concat(job_ask(terms, s), reply, outs[0] + rest);
        assert(job_idle_rounds(vs, outs) == reply + (outs[0] + rest));
        assert(reply.drop_first() =~= seq![]);
        assert(job_play(job_ask(terms, s), reply) == job_calling(terms, d, calls, 0)) by {
            reveal_with_fuel(job_play, 2);
        }
        lemma_job_concat(job_calling(terms, d, calls, 0), outs[0], rest);
        lemma_job_answers(terms, d, calls, outs[0], 0);
        endless_job_calls_end(terms, e, ws, os);
    }
}

/// A request of a job names the model of the job, and neither asks for a stream
/// nor brings messages of its own, whatever extra members the job names.
pub proof fn job_base_is_governed(t: Tree)
    requires
        ascending(t.at("extra"@).members()),
    ensures
        lookup(job_base(t), "model"@) == Some(Tree::Text(t.at("model"@).str_or_empty())),
        lookup(job_base(t), "stream"@) is None,
        lookup(job_base(t), "messages"@) is None,
{
    reveal_strlit("model");
    reveal_strlit("stream");
    reveal_strlit("messages");
    reveal_strlit("tools");
    assert("model"@.len() != "stream"@.len());
    assert("model"@.len() != "messages"@.len());
    assert("stream"@.len() != "messages"@.len());
    assert("model"@[0] != "tools"@[0]);
    assert("stream"@.len() != "tools"@.len());
    assert("messages"@.len() != "tools"@.len());
    let extra = t.at("extra"@).members();
    let a = without(extra, "stream"@);
    let b = without(a, "messages"@);
    let model = Tree::Text(t.at("model"@).str_or_empty());
    let c = put(b, "model"@, model);
    let tools = peeled(t.at("tools"@));
    without_keeps_order(extra, "stream"@);
    without_then_lookup(extra, "stream"@, "stream"@);
    without_then_lookup(a, "messages"@, "stream"@);
    without_then_lookup(a, "messages"@, "messages"@);
    put_then_lookup(b, "model"@, model, "model"@);
    put_then_lookup(b, "model"@, model, "stream"@);
    put_then_lookup(b, "model"@, model, "messages"@);
    put_then_lookup(c, "tools"@, tools, "model"@);
    put_then_lookup(c, "tools"@, tools, "stream"@);
    put_then_lookup(c, "tools"@, tools, "messages"@);
}

/// The header that carries a key, where there is one.
pub open spec fn authorization(key: Seq<char>) -> Option<Tree> {
    if key.len() > 0 {
        Some(Tree::Text("Bearer "@ + key))
    } else {
        None
    }
}

proof fn lemma_authorization(
    method: Seq<char>,
    url: Seq<char>,
    key: Seq<char>,
    body: Option<Tree>,
)
    ensures
        fetch_request(method, url, key, body).at("headers"@).get("Authorization"@)
            == authorization(key),
{
    let none: Seq<(Seq<char>, Tree)> = seq![];
    let a = put(put(none, "method"@, Tree::Text(method)), "url"@, Tree::Text(url));
    let h = Tree::Dict(fetch_headers(key, body is Some));
    let bearer = Tree::Text("Bearer "@ + key);
    let auth = fetch_headers(key, false);
    reveal_strlit("headers");
    reveal_strlit("body");
    reveal_strlit("Authorization");
    reveal_strlit("Content-Type");
    assert("headers"@.len() != "body"@.len());
    assert("Authorization"@.len() != "Content-Type"@.len());
    put_then_lookup(a, "headers"@, h, "headers"@);
    put_then_lookup(none, "Authorization"@, bearer, "Authorization"@);
    if body is Some {
        put_then_lookup(put(a, "headers"@, h), "body"@, body->0, "headers"@);
        put_then_lookup(
            auth,
            "Content-Type"@,
            Tree::Text("application/json"@),
            "Authorization"@,
        );
    }
}

/// The request that a job waits for carries the key where the model answers it,
/// and none where a tool does.
pub open spec fn keyed(s: Stride, key: Seq<char>) -> bool {
    match s {
        Stride::Fetch { request, terms, state, waits } => {
            &&& terms.key == key
            &&& request.at("headers"@).get("Authorization"@) == match waits {
                Waits::Chat => authorization(key),
                Waits::Tool { calls, at } => None,
            }
        },
        Stride::Done { out } => true,
    }
}

proof fn lemma_asking_keyed(terms: Terms, s: State)
    ensures
        keyed(job_ask(terms, s), terms.key),
{
    lemma_authorization("POST"@, terms.chat, terms.key, Some(job_body(terms, s)));
}

proof fn lemma_calling_keyed(terms: Terms, s: State, calls: Seq<Invocation>, at: int)
    ensures
        keyed(job_calling(terms, s, calls, at), terms.key),
{
    if at < calls.len() {
        let method = method_of(lookup(terms.specs, calls[at].name));
        let args = calls[at].args;
        let body = if in_address(method) {
            None
        } else {
            Some(args)
        };
        lemma_authorization(method, destination(terms.exec_url, method, args), seq![], body);
    } else {
        lemma_asking_keyed(terms, s);
    }
}

proof fn lemma_keyed(s: Stride, rs: Seq<Result<Tree, Seq<char>>>, key: Seq<char>)
    requires
        keyed(s, key),
    ensures
        keyed(job_play(s, rs), key),
    decreases rs.len(),
{
    if rs.len() > 0 {
        match s {
            Stride::Fetch { request, terms, state, waits } => match waits {
                Waits::Chat => {
                    if rs[0] is Ok {
                        let v = rs[0]->Ok_0;
                        let next = State { used: used(v), ..state };
                        lemma_calling_keyed(
                            terms,
                            job_with(next, calling_message(v).tree()),
                            invocations(v),
                            0,
                        );
                    }
                },
                Waits::Tool { calls, at } => {
                    lemma_calling_keyed(
                        terms,
                        job_with(state, answer(calls[at].id, tool_text(rs[0])).tree()),
                        calls,
                        at + 1,
                    );
                },
            },
            Stride::Done { out } => {},
        }
        lemma_keyed(job_advance(s, rs[0]), rs.drop_first(), key);
    }
}

/// Whatever comes back, every request of a job to the model carries the key of the
/// job, where it has one, and no request to a tool carries any.
pub proof fn key_goes_to_the_model_alone(t: Tree, rs: Seq<Result<Tree, Seq<char>>>)
    ensures
        keyed(job_play(job_begun(t), rs), t.at("key"@).str_or_empty()),
{
    let terms = job_terms(t);
    if job_valid(t) {
        lemma_asking_keyed(terms, job_state(t));
    }
    lemma_keyed(job_begun(t), rs, terms.key);
}

proof fn lemma_request_lookup(
    method: Seq<char>,
    url: Seq<char>,
    key: Seq<char>,
    body: Option<Tree>,
    k: Seq<char>,
)
    ensures
        fetch_request(method, url, key, body).get(k) == if k == "body"@ && body is Some {
            body
        } else if k == "headers"@ {
            Some(Tree::Dict(fetch_headers(key, body is Some)))
        } else if k == "url"@ {
            Some(Tree::Text(url))
        } else if k == "method"@ {
            Some(Tree::Text(method))
        } else {
            None
        },
{
    let none: Seq<(Seq<char>, Tree)> = seq![];
    let h = Tree::Dict(fetch_headers(key, body is Some));
    let a = put(none, "method"@, Tree::Text(method));
    let b = put(a, "url"@, Tree::Text(url));
    let c = put(b, "headers"@, h);
    put_then_lookup(none, "method"@, Tree::Text(method), k);
    put_then_lookup(a, "url"@, Tree::Text(url), k);
    put_then_lookup(b, "headers"@, h, k);
    if body is Some {
        put_then_lookup(c, "body"@, body->0, k);
    }
}

proof fn lemma_request_keys()
    ensures
        "method"@ != "url"@,
        "method"@ != "headers"@,
        "method"@ != "body"@,
        "url"@ != "headers"@,
        "url"@ != "body"@,
        "headers"@ != "body"@,
        "Authorization"@ != "Content-Type"@,
{
    reveal_strlit("method");
    reveal_strlit("url");
    reveal_strlit("headers");
    reveal_strlit("body");
    reveal_strlit("Authorization");
    reveal_strlit("Content-Type");
    assert("method"@.len() == 6 && "url"@.len() == 3 && "headers"@.len() == 7 && "body"@.len()
        == 4);
    assert("Authorization"@.len() == 13 && "Content-Type"@.len() == 12);
}

/// A request to the host names its method and its address, has the body that it is
/// given, or none, and with a body, and only with one, the header that says that it is
/// JSON.
pub proof fn job_requests_are_written(
    method: Seq<char>,
    url: Seq<char>,
    key: Seq<char>,
    body: Option<Tree>,
)
    ensures
        ({
            let q = fetch_request(method, url, key, body);
            &&& q.get("method"@) == Some(Tree::Text(method))
            &&& q.get("url"@) == Some(Tree::Text(url))
            &&& q.get("body"@) == body
            &&& q.at("headers"@).get("Authorization"@) == if key.len() > 0 {
                Some(Tree::Text("Bearer "@ + key))
            } else {
                None
            }
            &&& q.at("headers"@).get("Content-Type"@) == if body is Some {
                Some(Tree::Text("application/json"@))
            } else {
                None
            }
        }),
{
    lemma_request_keys();
    lemma_request_lookup(method, url, key, body, "method"@);
    lemma_request_lookup(method, url, key, body, "url"@);
    lemma_request_lookup(method, url, key, body, "headers"@);
    lemma_request_lookup(method, url, key, body, "body"@);
    lemma_authorization(method, url, key, body);
    let none: Seq<(Seq<char>, Tree)> = seq![];
    let bearer = Tree::Text("Bearer "@ + key);
    let auth = fetch_headers(key, false);
    put_then_lookup(none, "Authorization"@, bearer, "Content-Type"@);
    put_then_lookup(
        auth,
        "Content-Type"@,
        Tree::Text("application/json"@),
        "Content-Type"@,
    );
}

/// A job begins with its instructions as a message of the system, where it has any,
/// and its prompt as a message of the user, all of them pinned.
pub proof fn jobs_open_with_the_prompt(inst: Seq<char>, prompt: Seq<char>)
    ensures
        ({
            let ms = opening(inst, prompt);
            &&& ms.len() == if inst.len() > 0 {
                2nat
            } else {
                1nat
            }
            &&& ms.last().get("role"@) == Some(Tree::Text("user"@))
            &&& ms.last().get("content"@) == Some(Tree::Text(prompt))
            &&& inst.len() > 0 ==> ms[0].get("role"@) == Some(Tree::Text("system"@))
            &&& inst.len() > 0 ==> ms[0].get("content"@) == Some(Tree::Text(inst))
        }),
{
    plain_messages_are_written("user"@, prompt);
    plain_messages_are_written("system"@, inst);
}

/// The requests of a job to the model carry the extra members that it names, as they
/// stand, but for those that the job sets itself; and its tools as the model sees
/// them, where it has any.
pub proof fn extra_members_travel(t: Tree, es: Seq<(Seq<char>, Tree)>, k: Seq<char>)
    requires
        t.get("extra"@) == Some(Tree::Dict(es)),
        ascending(es),
    ensures
        k != "stream"@ && k != "messages"@ && k != "model"@ && k != "tools"@ ==> lookup(
            job_base(t),
            k,
        ) == lookup(es, k),
        t.get("tools"@) matches Some(Tree::List(ts)) ==> lookup(job_base(t), "tools"@) == Some(
            peeled(Tree::List(ts)),
        ),
        t.get("tools"@) is None ==> lookup(job_base(t), "tools"@) == lookup(es, "tools"@),
        t.get("model"@) matches Some(Tree::Text(s)) ==> lookup(job_base(t), "model"@) == Some(
            Tree::Text(s),
        ),
{
    let a = without(es, "stream"@);
    let b = without(a, "messages"@);
    let model = Tree::Text(t.at("model"@).str_or_empty());
    let c = put(b, "model"@, model);
    let tools = peeled(t.at("tools"@));
    reveal_strlit("stream");
    reveal_strlit("messages");
    reveal_strlit("model");
    reveal_strlit("tools");
    assert("tools"@.len() == 5 && "model"@.len() == 5 && "stream"@.len() == 6 && "messages"@.len()
        == 8);
    assert("tools"@[0] != "model"@[0]);
    without_keeps_order(es, "stream"@);
    without_then_lookup(es, "stream"@, k);
    without_then_lookup(a, "messages"@, k);
    without_then_lookup(es, "stream"@, "tools"@);
    without_then_lookup(a, "messages"@, "tools"@);
    put_then_lookup(b, "model"@, model, k);
    put_then_lookup(b, "model"@, model, "tools"@);
    put_then_lookup(b, "model"@, model, "model"@);
    put_then_lookup(c, "tools"@, tools, k);
    put_then_lookup(c, "tools"@, tools, "tools"@);
    put_then_lookup(c, "tools"@, tools, "model"@);
}

/// A job needs a string that is not empty for each of its address, its model and its
/// prompt; without them it ends at once, saying so, as one that could not be read ends
/// with the reason.
pub proof fn jobs_need_three_things(t: Tree, words: Seq<char>)
    ensures
        job_valid(t) <==> {
            &&& t.get("url"@) matches Some(Tree::Text(u)) && u.len() > 0
            &&& t.get("model"@) matches Some(Tree::Text(m)) && m.len() > 0
            &&& t.get("prompt"@) matches Some(Tree::Text(p)) && p.len() > 0
        },
        !job_valid(t) ==> begun(Ok(t)) == (Stride::Done {
            out: "job needs url, model, prompt"@,
        }),
        job_valid(t) ==> begun(Ok(t)) == job_ask(job_terms(t), job_state(t)),
        begun(Err(words)) == (Stride::Done { out: "bad job: "@ + words }),
{
}

/// What a job sets is what it names under the names of its settings, or their
/// defaults.
pub proof fn job_settings_have_their_names(t: Tree, s: Seq<char>)
    ensures
        t.get("url"@) == Some(Tree::Text(s)) ==> job_terms(t).chat == job_endpoint(s),
        t.get("key"@) == Some(Tree::Text(s)) ==> job_terms(t).key == s,
        t.get("key"@) is None ==> job_terms(t).key.len() == 0,
        t.get("exec"@) == Some(Tree::Text(s)) ==> job_terms(t).exec_url == s,
        t.get("keep"@) is None ==> job_terms(t).keep == 9,
        t.get("keep"@) matches Some(Tree::Number(n)) ==> (number_u64(n) matches Some(k) ==> (k
            <= usize::MAX ==> job_terms(t).keep == k)),
        job_terms(t).budget == budget_of(t.get("budget"@), t.get("window"@)),
        t.get("tools"@) matches Some(Tree::List(ts)) ==> job_terms(t).specs == routes(ts, false),
        t.get("steps"@) is None ==> job_state(t).left == 27,
        t.get("steps"@) matches Some(Tree::Number(n)) ==> (number_u64(n) matches Some(k)
            ==> job_state(t).left == k),
        t.get("prompt"@) == Some(Tree::Text(s)) ==> job_state(t).messages.last().get("content"@)
            == Some(Tree::Text(s)),
        t.get("agents"@) == Some(Tree::Text(s)) && s.len() > 0 ==> {
            &&& job_state(t).messages.len() == 2
            &&& job_state(t).messages[0].get("content"@) == Some(Tree::Text(s))
            &&& job_state(t).messages[0].get("role"@) == Some(Tree::Text("system"@))
        },
        t.get("agents"@) is None ==> job_state(t).messages.len() == 1,
        job_state(t).pin == job_state(t).messages.len(),
        job_state(t).used is None,
        job_terms(t).keep == number_or(t.get("keep"@), 9) as usize,
        job_state(t).left == number_or(t.get("steps"@), 27),
        job_terms(t).base == job_base(t),
        !(t.get("exec"@) matches Some(Tree::Text(_))) ==> job_terms(t).exec_url.len() == 0,
        !(t.get("agents"@) matches Some(Tree::Text(_))) ==> job_state(t).messages.len() == 1,
{
    jobs_open_with_the_prompt(t.at("agents"@).str_or_empty(), t.at("prompt"@).str_or_empty());
}

/// The messages of a request of a job are blanked where the last reply reported more
/// tokens than the budget, and are whole where it did not; before any report, where
/// they are longer than three quarters of the budget. Everything else in the body is
/// what every request carries along.
pub proof fn job_budgets_decide(terms: Terms, s: State, k: Seq<char>)
    ensures
        s.used matches Some(n) ==> (n > terms.budget ==> job_body(terms, s).get("messages"@)
            == Some(Tree::List(masked(s.pin, terms.keep as int, s.messages)))),
        s.used matches Some(n) ==> (n <= terms.budget ==> job_body(terms, s).get("messages"@)
            == Some(Tree::List(s.messages))),
        s.used is None && terms.budget * 3 <= u64::MAX ==> {
            let n = bytes_len(encode_utf8(tree_text(Tree::List(s.messages))));
            &&& 4 * n > 3 * terms.budget ==> job_body(terms, s).get("messages"@) == Some(
                Tree::List(masked(s.pin, terms.keep as int, s.messages)),
            )
            &&& 4 * n <= 3 * terms.budget ==> job_body(terms, s).get("messages"@) == Some(
                Tree::List(s.messages),
            )
        },
        k != "messages"@ ==> job_body(terms, s).get(k) == lookup(terms.base, k),
{
    let ms = if job_too_long(terms, s) {
        masked(s.pin, terms.keep as int, s.messages)
    } else {
        s.messages
    };
    put_then_lookup(terms.base, "messages"@, Tree::List(ms), "messages"@);
    put_then_lookup(terms.base, "messages"@, Tree::List(ms), k);
}

/// While it may be, the model is asked by `POST` at the chat endpoint, which takes one
/// of the steps; after that the job ends with the words on the limit.
pub proof fn jobs_ask_the_model(terms: Terms, s: State)
    ensures
        s.left > 0 ==> {
            let a = job_ask(terms, s);
            &&& a is Fetch
            &&& a->request.get("method"@) == Some(Tree::Text("POST"@))
            &&& a->request.get("url"@) == Some(Tree::Text(terms.chat))
            &&& a->request.get("body"@) == Some(job_body(terms, s))
            &&& a->waits is Chat
            &&& a->terms == terms
            &&& a->state == (State { left: s.left - 1, ..s })
        },
        s.left <= 0 ==> job_ask(terms, s) == (Stride::Done { out: "step limit"@ }),
{
    job_requests_are_written("POST"@, terms.chat, terms.key, Some(job_body(terms, s)));
}

/// A reply to a job that could not be read, or that reports an error, ends it with
/// the reason; an answer ends it with what the model said.
pub proof fn replies_end_jobs(
    terms: Terms,
    s: State,
    words: Seq<char>,
    v: Tree,
    ces: Seq<(Seq<char>, Tree)>,
    mes: Seq<(Seq<char>, Tree)>,
    text: Seq<char>,
)
    ensures
        job_replied(terms, s, Err(words)) == (Stride::Done { out: "chat: "@ + words }),
        v.get("error"@) matches Some(e) ==> job_replied(terms, s, Ok(v)) == (Stride::Done {
            out: "api: "@ + tree_text(e),
        }),
        v.get("error"@) is None && has_message(v, ces, mes) && lookup(ces, "finish_reason"@) != Some(
            Tree::Text("tool_calls"@),
        ) && !(lookup(mes, "tool_calls"@) matches Some(Tree::List(_))) && lookup(mes, "content"@)
            == Some(Tree::Text(text)) ==> job_replied(terms, s, Ok(v)) == (Stride::Done {
            out: text,
        }),
{
    if has_message(v, ces, mes) {
        calls_are_recognised(v, ces, mes);
        replies_say_their_content(v, ces, mes);
    }
}

/// A tool of a job is asked by its own method at the common address: by `GET`, `HEAD`
/// or `DELETE` with the arguments in the address and no body, and by any other method
/// with the arguments for its body. What it replies is its answer as JSON text, and so
/// is what went wrong, in words.
pub proof fn jobs_ask_tools(
    terms: Terms,
    s: State,
    calls: Seq<Invocation>,
    at: int,
    v: Tree,
    words: Seq<char>,
)
    requires
        0 <= at < calls.len(),
    ensures
        ({
            let a = job_calling(terms, s, calls, at);
            let call = calls[at];
            let method = method_of(lookup(terms.specs, call.name));
            let get = method == "GET"@ || method == "HEAD"@ || method == "DELETE"@;
            &&& a is Fetch
            &&& a->request.get("method"@) == Some(Tree::Text(method))
            &&& a->request.get("url"@) == Some(
                Tree::Text(destination(terms.exec_url, method, call.args)),
            )
            &&& get ==> a->request.get("body"@) is None
            &&& !get ==> a->request.get("body"@) == Some(call.args)
            &&& a->waits == (Waits::Tool { calls, at })
            &&& a->state == s && a->terms == terms
        }),
        tool_text(Ok(v)) == tree_text(v),
        tool_text(Err(words)) == "tool error: "@ + words,
{
    let method = method_of(lookup(terms.specs, calls[at].name));
    let args = calls[at].args;
    let body = if in_address(method) {
        None
    } else {
        Some(args)
    };
    job_requests_are_written(method, destination(terms.exec_url, method, args), seq![], body);
}

/// After a reply that calls tools, and what the tools replied, the model is asked
/// again, with what it said and its calls as it wrote them, and an answer for each call
/// with its identifier, behind all that was there; and the tokens that the reply
/// reported are those that count.
pub proof fn jobs_run_tools_for_the_model(
    terms: Terms,
    s: State,
    v: Tree,
    ces: Seq<(Seq<char>, Tree)>,
    mes: Seq<(Seq<char>, Tree)>,
    cs: Seq<Tree>,
    rs: Seq<Result<Tree, Seq<char>>>,
    i: int,
)
    requires
        s.left > 1,
        has_message(v, ces, mes),
        v.get("error"@) is None,
        lookup(mes, "tool_calls"@) == Some(Tree::List(cs)),
        cs.len() > 0,
        rs.len() == cs.len(),
        0 <= i < cs.len(),
    ensures
        ({
            let a = job_play(job_ask(terms, s), seq![Ok(v)] + rs);
            let ms = a->state.messages;
            let n = s.messages.len() as int;
            &&& a is Fetch && a->waits is Chat
            &&& ms.len() == n + 1 + cs.len()
            &&& ms.take(n) == s.messages
            &&& ms[n].get("role"@) == Some(Tree::Text("assistant"@))
            &&& ms[n].get("content"@) == lookup(mes, "content"@)
            &&& ms[n].get("tool_calls"@) == Some(Tree::List(cs))
            &&& ms[n + 1 + i].get("role"@) == Some(Tree::Text("tool"@))
            &&& ms[n + 1 + i].get("content"@) == Some(
                Tree::Text(
                    match rs[i] {
                        Ok(w) => tree_text(w),
                        Err(words) => "tool error: "@ + words,
                    },
                ),
            )
            &&& cs[i].get("id"@) matches Some(Tree::Text(id)) ==> ms[n + 1 + i].get(
                "tool_call_id"@,
            ) == Some(Tree::Text(id))
            &&& v.get("usage"@) matches Some(Tree::Dict(ues)) ==> (lookup(
                ues,
                "prompt_tokens"@,
            ) matches Some(Tree::Number(x)) ==> a->state.used == number_u64(x))
        }),
{
    let calls = invocations(v);
    let reply: Seq<Result<Tree, Seq<char>>> = seq![Ok(v)];
    let d = job_with(State { used: used(v), left: s.left - 1, ..s }, calling_message(v).tree());
    let e = State { messages: d.messages + job_answers(calls, rs, 0), ..d };
    let n = s.messages.len() as int;
    calls_are_recognised(v, ces, mes);
    calls_are_listed(v, ces, mes, cs, i);
    replies_are_kept(v, ces, mes);
    lemma_job_concat(job_ask(terms, s), reply, rs);
    assert(reply.drop_first() =~= seq![]);
    assert(job_play(job_ask(terms, s), reply) == job_calling(terms, d, calls, 0)) by {
        reveal_with_fuel(job_play, 2);
    }
    lemma_job_answers(terms, d, calls, rs, 0);
    assert(job_play(job_ask(terms, s), reply + rs) == job_ask(terms, e));
    assert(e.messages.take(n) =~= s.messages);
    assert(e.messages[n] == calling_message(v).tree());
    assert(e.messages[n + 1 + i] == answer(calls[i].id, tool_text(rs[i])).tree());
    answers_are_written(calls[i].id, tool_text(rs[i]));
    match v.get("usage"@) {
        Some(Tree::Dict(ues)) => {
            reveal_strlit("prompt_tokens");
            assert("prompt_tokens"@ != Seq::<char>::empty());
            prompt_tokens_are_reported(v.members(), ues, Seq::<char>::empty(), Tree::Null);
        },
        _ => {},
    }
}

/// The tokens that count from a reply on are those that it reports; where it reports
/// none, none count, whatever was reported before.
pub proof fn old_reports_do_not_count_for_jobs(terms: Terms, s: State, v: Tree)
    requires
        v.get("error"@) is None,
    ensures
        job_replied(terms, s, Ok(v)) is Fetch ==> job_replied(terms, s, Ok(v))->state.used == used(
            v,
        ),
{
}

/// A step has the bytes of the request or of the text that the job has come to.
pub proof fn steps_have_their_bytes(s: Step, t: Stride)
    requires
        s.is(t),
    ensures
        s matches Step::Done { out } ==> (t matches Stride::Done { out: words } && out@
            == encode_utf8(words)),
        s matches Step::Fetch { request, state } ==> {
            &&& t is Fetch
            &&& request@ == encode_utf8(tree_text(t->request))
            &&& state.terms() == t->terms
            &&& state.state() == t->state
            &&& state.waits() == t->waits
        },
{
}

} // verus!

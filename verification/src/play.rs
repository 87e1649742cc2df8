//! What holds of every course that a conversation can take.

use vstd::arithmetic::div_mod::lemma_small_mod;
use vstd::prelude::*;

use crate::config::{pairs, typed, Cfg};
use crate::events::{events_tell_their_members, text_event};
use crate::json::{lookup, put, put_then_lookup, Json};
use crate::message::{messages_len, plain_messages_are_written, sent, Message, Msg};
use crate::query::destination;
use crate::reply::{
    answer, answers_are_written, calling_message, calls_are_listed, calls_are_recognised,
    has_message, invocations, no_answer, no_usage_no_tokens, prompt_tokens_are_reported, replies_are_kept,
    replies_say_their_content, reply_note, said, saying_message, thought, tool_note, used,
    wants_tools, Invocation,
};
use crate::session::{
    admitted, pinned, prompted, settled, without_inbox, without_messages, Holding,
};
use crate::talk::{
    ask, calling, emitted, ended, follow, pulled, ran, received, replied, request, running,
    telling, told, too_long, with, Act, After, Course, Deed, Outcome, Reply, Rules, Stage,
};
use crate::tools::{address_of, body_of, method_of, verb_of};
use crate::url::endpoint;
use crate::value::{number_u64, tree_text, Tree};

verus! {

/// What can happen to a conversation.
pub enum Happening {
    Reply { outcome: Outcome },
    Told { result: Result<(), Seq<char>> },
    Output { out: Seq<char> },
    Inbox { prompts: Seq<Seq<char>> },
}

/// The next act, once the outcome of an act is there. What is not the outcome of
/// the act leaves it as it is.
pub open spec fn advance(r: Rules, a: Act, h: Happening) -> Act {
    match (a, h) {
        (Act::Post { url, headers, body, course }, Happening::Reply { outcome }) => replied(course, outcome).act,
        (Act::Emit { event, course, after }, Happening::Told { result }) => emitted(
            r,
            course,
            after,
            result,
        ).act,
        (Act::Run { verb, url, headers, body, course, calls, at }, Happening::Output { out }) => ran(
            course,
            calls,
            at,
            out,
        ).act,
        (Act::Pull { course, stage }, Happening::Inbox { prompts }) => received(
            r,
            course,
            stage,
            prompts,
        ),
        _ => a,
    }
}

/// The act after all that has happened.
pub open spec fn play(r: Rules, a: Act, hs: Seq<Happening>) -> Act
    decreases hs.len(),
{
    if hs.len() == 0 {
        a
    } else {
        play(r, advance(r, a, hs[0]), hs.drop_first())
    }
}

/// The messages of the conversation at an act.
pub open spec fn history(a: Act) -> Seq<Message> {
    match a {
        Act::Post { url, headers, body, course } => course.messages,
        Act::Emit { event, course, after } => course.messages,
        Act::Run { verb, url, headers, body, course, calls, at } => course.messages,
        Act::Pull { course, stage } => course.messages,
        Act::Done { messages, result } => messages,
    }
}

/// The messages `new` begin with the messages `old`.
pub open spec fn grown(old_: Seq<Message>, new: Seq<Message>) -> bool {
    old_.len() <= new.len() && new.take(old_.len() as int) == old_
}

proof fn lemma_history_grows(r: Rules, a: Act, h: Happening)
    ensures
        grown(history(a), history(advance(r, a, h))),
{
    assert(history(advance(r, a, h)).take(history(a).len() as int) =~= history(a));
}

/// Whatever happens, a conversation keeps the messages that it has, and adds to
/// them at the end.
pub proof fn history_grows(r: Rules, a: Act, hs: Seq<Happening>)
    ensures
        grown(history(a), history(play(r, a, hs))),
    decreases hs.len(),
{
    if hs.len() == 0 {
        assert(history(a).take(history(a).len() as int) =~= history(a));
    } else {
        let b = advance(r, a, hs[0]);
        lemma_history_grows(r, a, hs[0]);
        history_grows(r, b, hs.drop_first());
        let x = history(a);
        let y = history(b);
        let z = history(play(r, a, hs));
        assert(z.take(x.len() as int) =~= z.take(y.len() as int).take(x.len() as int));
    }
}

/// The act belongs to a conversation that is not served, and so ends with its
/// turn.
pub open spec fn single(a: Act) -> bool {
    match a {
        Act::Post { url, headers, body, course } => !course.serve && course.left >= 0,
        Act::Emit { event, course, after } => {
            &&& !course.serve
            &&& course.left >= 0
            &&& match after {
                After::User { prompts, at, stage } => !(stage is Again),
                _ => true,
            }
        },
        Act::Run { verb, url, headers, body, course, calls, at } => !course.serve && course.left >= 0,
        Act::Pull { course, stage } => !course.serve && course.left >= 0 && !(stage is Again),
        Act::Done { messages, result } => true,
    }
}

/// How many replies a turn can still take.
pub open spec fn rounds(a: Act) -> int {
    match a {
        Act::Post { url, headers, body, course } => course.left + 1,
        Act::Emit { event, course, after } => course.left,
        Act::Run { verb, url, headers, body, course, calls, at } => course.left,
        Act::Pull { course, stage } => course.left,
        Act::Done { messages, result } => 0,
    }
}

/// The number of replies of the model among all that happens.
pub open spec fn replies(r: Rules, a: Act, hs: Seq<Happening>) -> int
    decreases hs.len(),
{
    if hs.len() == 0 {
        0
    } else {
        let here: int = if a is Post && hs[0] is Reply {
            1
        } else {
            0
        };
        here + replies(r, advance(r, a, hs[0]), hs.drop_first())
    }
}

proof fn lemma_rounds(r: Rules, a: Act, h: Happening)
    requires
        single(a),
    ensures
        single(advance(r, a, h)),
        0 <= rounds(advance(r, a, h)) <= rounds(a) - if a is Post && h is Reply {
            1int
        } else {
            0int
        },
{
}

proof fn lemma_replies(r: Rules, a: Act, hs: Seq<Happening>)
    requires
        single(a),
    ensures
        replies(r, a, hs) <= rounds(a),
    decreases hs.len(),
{
    if hs.len() > 0 {
        lemma_rounds(r, a, hs[0]);
        lemma_replies(r, advance(r, a, hs[0]), hs.drop_first());
    }
}

/// Whatever happens, a turn takes no more replies of the model than it has steps.
pub proof fn steps_bound_replies(r: Rules, c: Course, hs: Seq<Happening>)
    requires
        !c.serve,
        c.left == r.steps,
    ensures
        replies(r, ask(r, c), hs) <= r.steps,
{
    lemma_replies(r, ask(r, c), hs);
}

/// The inbox that is looked into behind the end of a turn holds prompts, so
/// another turn begins.
pub open spec fn renews(a: Act, h: Happening) -> bool {
    a is Pull && a->Pull_stage is Again && h is Inbox && h->prompts.len() > 0
}

/// The number of turns that begin among all that happens.
pub open spec fn renewals(r: Rules, a: Act, hs: Seq<Happening>) -> int
    decreases hs.len(),
{
    if hs.len() == 0 {
        0
    } else {
        let here: int = if renews(a, hs[0]) {
            1
        } else {
            0
        };
        here + renewals(r, advance(r, a, hs[0]), hs.drop_first())
    }
}

spec fn allowed(r: Rules, a: Act) -> int {
    match a {
        Act::Emit { event, course, after: After::User { prompts, at, stage: Stage::Again { text } } } =>
            course.left + r.steps,
        _ => rounds(a),
    }
}

spec fn counted(a: Act) -> bool {
    match a {
        Act::Post { url, headers, body, course } => course.left >= 0,
        Act::Emit { event, course, after } => course.left >= 0,
        Act::Run { verb, url, headers, body, course, calls, at } => course.left >= 0,
        Act::Pull { course, stage } => course.left >= 0,
        Act::Done { messages, result } => true,
    }
}

proof fn lemma_allowed(r: Rules, a: Act, h: Happening)
    requires
        counted(a),
    ensures
        counted(advance(r, a, h)),
        allowed(r, advance(r, a, h)) + (if a is Post && h is Reply {
            1int
        } else {
            0int
        }) <= allowed(r, a) + if renews(a, h) {
            r.steps as int
        } else {
            0int
        },
{
}

proof fn lemma_turns(r: Rules, a: Act, hs: Seq<Happening>)
    requires
        counted(a),
    ensures
        replies(r, a, hs) <= allowed(r, a) + r.steps * renewals(r, a, hs),
    decreases hs.len(),
{
    let steps = r.steps as int;
    if hs.len() > 0 {
        let b = advance(r, a, hs[0]);
        let rest = renewals(r, b, hs.drop_first());
        lemma_allowed(r, a, hs[0]);
        lemma_turns(r, b, hs.drop_first());
        assert(steps * (1 + rest) == steps + steps * rest) by (nonlinear_arith);
    } else {
        assert(steps * 0 == 0) by (nonlinear_arith);
    }
}

/// Whatever happens, a conversation takes no more replies of the model than it has
/// steps for each of its turns: the first, and one for every time that prompts
/// wait behind the end of a turn.
pub proof fn steps_bound_every_turn(r: Rules, c: Course, hs: Seq<Happening>)
    requires
        c.left == r.steps,
    ensures
        replies(r, ask(r, c), hs) <= r.steps * (1 + renewals(r, ask(r, c), hs)),
{
    let steps = r.steps as int;
    let n = renewals(r, ask(r, c), hs);
    lemma_turns(r, ask(r, c), hs);
    assert(steps * (1 + n) == steps + steps * n) by (nonlinear_arith);
}

/// What happens while tools are run and all goes well: each call is told, the
/// tool gives its output, and the output is told.
pub open spec fn tool_round(outs: Seq<Seq<char>>) -> Seq<Happening>
    decreases outs.len(),
{
    if outs.len() == 0 {
        seq![]
    } else {
        seq![
            Happening::Told { result: Ok(()) },
            Happening::Output { out: outs[0] },
            Happening::Told { result: Ok(()) },
        ] + tool_round(outs.drop_first())
    }
}

/// The answers to the calls, from position `at` on.
pub open spec fn answers(calls: Seq<Invocation>, outs: Seq<Seq<char>>, at: int) -> Seq<Message> {
    Seq::new(
        (calls.len() - at) as nat,
        |i: int| answer(calls[at + i].id, outs[i]),
    )
}

proof fn lemma_play_step(r: Rules, a: Act, hs: Seq<Happening>)
    requires
        hs.len() > 0,
    ensures
        play(r, a, hs) == play(r, advance(r, a, hs[0]), hs.drop_first()),
{
}

proof fn lemma_tool_round(
    r: Rules,
    c: Course,
    calls: Seq<Invocation>,
    outs: Seq<Seq<char>>,
    at: int,
)
    requires
        0 <= at <= calls.len(),
        outs.len() == calls.len() - at,
    ensures
        play(r, calling(c, calls, at), tool_round(outs)) == (Act::Pull {
            course: Course { messages: c.messages + answers(calls, outs, at), ..c },
            stage: Stage::Tools,
        }),
    decreases outs.len(),
{
    if outs.len() == 0 {
        assert(c.messages + answers(calls, outs, at) =~= c.messages);
    } else {
        let hs = tool_round(outs);
        let rest = outs.drop_first();
        let d = with(c, answer(calls[at].id, outs[0]));
        let hs1 = hs.drop_first();
        let hs2 = hs1.drop_first();
        let a0 = calling(c, calls, at);
        let a1 = advance(r, a0, hs[0]);
        let a2 = advance(r, a1, hs1[0]);
        assert(a1 == running(r, c, calls, at));
        assert(a2 == ran(c, calls, at, outs[0]).act);
        assert(advance(r, a2, hs2[0]) == calling(d, calls, at + 1));
        assert(hs2.drop_first() =~= tool_round(rest));
        lemma_play_step(r, a0, hs);
        lemma_play_step(r, a1, hs1);
        lemma_play_step(r, a2, hs2);
        lemma_tool_round(r, d, calls, rest, at + 1);
        assert(c.messages + answers(calls, outs, at) =~= d.messages + answers(calls, rest, at + 1));
    }
}

/// Where all goes well, every call of a reply is answered by one message of a
/// tool, with its identifier and in its order, before the model is asked again.
pub proof fn every_call_is_answered(
    r: Rules,
    c: Course,
    calls: Seq<Invocation>,
    outs: Seq<Seq<char>>,
)
    requires
        outs.len() == calls.len(),
    ensures
        play(r, calling(c, calls, 0), tool_round(outs)) == (Act::Pull {
            course: Course {
                messages: c.messages + Seq::new(
                    calls.len(),
                    |i: int| answer(calls[i].id, outs[i]),
                ),
                ..c
            },
            stage: Stage::Tools,
        }),
{
    lemma_tool_round(r, c, calls, outs, 0);
    assert(answers(calls, outs, 0) =~= Seq::new(
        calls.len(),
        |i: int| answer(calls[i].id, outs[i]),
    ));
}

/// `n` events are told, and all goes well.
pub open spec fn all_told(n: nat) -> Seq<Happening> {
    Seq::new(n, |i: int| Happening::Told { result: Ok(()) })
}

/// The prompts as messages, from position `at` on.
pub open spec fn heard(prompts: Seq<Seq<char>>, at: int) -> Seq<Message> {
    Seq::new(
        (prompts.len() - at) as nat,
        |i: int| Message::plain("user"@, prompts[at + i]),
    )
}

proof fn lemma_heard(r: Rules, c: Course, prompts: Seq<Seq<char>>, at: int, stage: Stage)
    requires
        0 <= at < prompts.len(),
    ensures
        play(r, telling(c, prompts, at, stage), all_told((prompts.len() - at) as nat)) == pulled(
            r,
            Course { messages: c.messages + heard(prompts, at), ..c },
            stage,
            true,
        ),
    decreases prompts.len() - at,
{
    let hs = all_told((prompts.len() - at) as nat);
    let d = with(c, Message::plain("user"@, prompts[at]));
    assert(hs.drop_first() =~= all_told((prompts.len() - at - 1) as nat));
    if at + 1 < prompts.len() {
        lemma_heard(r, d, prompts, at + 1, stage);
        assert(c.messages + heard(prompts, at) =~= d.messages + heard(prompts, at + 1));
    } else {
        assert(c.messages + heard(prompts, at) =~= d.messages);
        reveal_with_fuel(play, 2);
    }
}

/// Where all goes well, every prompt that waits becomes a message of the user, in
/// the order in which they came.
pub proof fn every_prompt_is_heard(r: Rules, c: Course, prompts: Seq<Seq<char>>, stage: Stage)
    requires
        prompts.len() > 0,
    ensures
        play(r, received(r, c, stage, prompts), all_told(prompts.len())) == pulled(
            r,
            Course {
                messages: c.messages + Seq::new(
                    prompts.len(),
                    |i: int| Message::plain("user"@, prompts[i]),
                ),
                ..c
            },
            stage,
            true,
        ),
{
    lemma_heard(r, c, prompts, 0, stage);
    assert(heard(prompts, 0) =~= Seq::new(
        prompts.len(),
        |i: int| Message::plain("user"@, prompts[i]),
    ));
}

/// A request carries a message for each one of the conversation, those that are
/// pinned and the last ones as they are; and the rest of its members are those
/// of the settings.
pub proof fn request_carries_history(r: Rules, c: Course, i: int, k: Seq<char>)
    requires
        0 <= c.pin,
    ensures
        request(r, c).at("messages"@).items().len() == c.messages.len(),
        0 <= i < c.messages.len() && (i < c.pin || i >= c.messages.len() - r.keep) ==> request(
            r,
            c,
        ).at("messages"@).items()[i] == c.messages[i].tree(),
        k != "messages"@ ==> request(r, c).get(k) == lookup(r.base, k),
{
    let ms = if too_long(r, c) {
        sent(c.pin, r.keep as int, c.messages)
    } else {
        c.messages
    };
    put_then_lookup(r.base, "messages"@, Message::list(ms), "messages"@);
    put_then_lookup(r.base, "messages"@, Message::list(ms), k);
}

/// An error that ends a turn reaches the one who asked: as the result, or as an
/// event before the conversation ends.
pub proof fn errors_are_reported(r: Rules, c: Course, words: Seq<char>, told: Result<(), Seq<char>>)
    ensures
        !c.serve ==> ended(c, Err(words)) == (Act::Done {
            messages: c.messages,
            result: Err(words),
        }),
        c.serve ==> {
            let a = ended(c, Err(words));
            &&& a is Emit
            &&& a->event == text_event("err"@, words)
            &&& advance(r, a, Happening::Told { result: told }) == (Act::Done {
                messages: c.messages,
                result: Err(words),
            })
        },
{
}

/// The act belongs to a conversation that is served, and is not its last.
pub open spec fn served(a: Act) -> bool {
    match a {
        Act::Post { url, headers, body, course } => course.serve,
        Act::Emit { event, course, after } => course.serve,
        Act::Run { verb, url, headers, body, course, calls, at } => course.serve,
        Act::Pull { course, stage } => course.serve,
        Act::Done { messages, result } => false,
    }
}

/// A conversation that is served ends in three ways alone: its inbox was empty
/// when it was looked into behind the end of a turn, an error was told of, or a
/// prompt found there could not be told of.
pub proof fn served_conversations_end(r: Rules, a: Act, h: Happening)
    requires
        served(a),
    ensures
        !served(advance(r, a, h)) ==> {
            ||| a is Pull && a->Pull_stage is Again && h is Inbox && h->prompts.len() == 0
            ||| a is Emit && a->after is Report
            ||| a is Emit && a->after is User && a->after->User_stage is Again && h is Told
                && h->result is Err
        },
{
}

/// The requests at an act go where they belong: one to the model to the chat
/// endpoint with the headers of the settings, one to a tool with the headers `extra`.
pub open spec fn addressed(r: Rules, a: Act, extra: Seq<(Seq<char>, Seq<char>)>) -> bool {
    match a {
        Act::Post { url, headers, body, course } => {
            &&& url == r.chat
            &&& headers == r.headers
            &&& course.extra == extra
        },
        Act::Emit { event, course, after } => course.extra == extra,
        Act::Run { verb, url, headers, body, course, calls, at } => {
            &&& headers == extra
            &&& course.extra == extra
        },
        Act::Pull { course, stage } => course.extra == extra,
        Act::Done { messages, result } => true,
    }
}

proof fn lemma_addressed(
    r: Rules,
    a: Act,
    hs: Seq<Happening>,
    extra: Seq<(Seq<char>, Seq<char>)>,
)
    requires
        addressed(r, a, extra),
    ensures
        addressed(r, play(r, a, hs), extra),
    decreases hs.len(),
{
    if hs.len() > 0 {
        lemma_addressed(r, advance(r, a, hs[0]), hs.drop_first(), extra);
    }
}

/// Whatever happens, every request to the model goes to the chat endpoint with the
/// headers of the settings and no others, and every request to a tool carries the
/// headers of the conversation and no others.
pub proof fn headers_stay_apart(r: Rules, c: Course, hs: Seq<Happening>)
    ensures
        addressed(r, play(r, ask(r, c), hs), c.extra),
{
    lemma_addressed(r, ask(r, c), hs, c.extra);
}

/// What happens does not let the turn come to an end: the model replies without an
/// error, events can be told, and behind an answer there are prompts in the inbox.
pub open spec fn goes_on(a: Act, h: Happening) -> bool {
    match (a, h) {
        (Act::Post { url, headers, body, course }, Happening::Reply { outcome }) =>
            outcome matches Outcome::Got { reply } && reply.get("error"@) is None,
        (Act::Emit { event, course, after }, Happening::Told { result }) => result is Ok,
        (Act::Pull { course, stage }, Happening::Inbox { prompts }) => stage is Last
            ==> prompts.len() > 0,
        _ => true,
    }
}

/// Nothing that happens lets the turn come to an end.
pub open spec fn unfinished(r: Rules, a: Act, hs: Seq<Happening>) -> bool
    decreases hs.len(),
{
    hs.len() == 0 || (goes_on(a, hs[0]) && unfinished(r, advance(r, a, hs[0]), hs.drop_first()))
}

spec fn seeking(a: Act) -> bool {
    match a {
        Act::Post { url, headers, body, course } => course.left >= 0,
        Act::Emit { event, course, after } => match after {
            After::Think { reply } => course.left >= 0,
            After::Call { calls, at } => course.left >= 0,
            After::Out { calls, at, out } => course.left >= 0,
            After::Say { text, message } => course.left >= 0,
            After::User { prompts, at, stage } => course.left >= 0 && !(stage is Again),
            After::Report { words } => course.left == 0 && words == "step limit"@,
        },
        Act::Run { verb, url, headers, body, course, calls, at } => course.left >= 0,
        Act::Pull { course, stage } => course.left >= 0 && !(stage is Again),
        Act::Done { messages, result } => result == Err::<Seq<char>, Seq<char>>("step limit"@),
    }
}

proof fn lemma_seeking(r: Rules, a: Act, hs: Seq<Happening>)
    requires
        seeking(a),
        unfinished(r, a, hs),
    ensures
        seeking(play(r, a, hs)),
        replies(r, a, hs) + rounds(play(r, a, hs)) == rounds(a),
    decreases hs.len(),
{
    if hs.len() > 0 {
        lemma_seeking(r, advance(r, a, hs[0]), hs.drop_first());
    }
}

/// A turn that nothing lets come to an end, since the model calls tools or prompts
/// wait behind its answers, uses exactly its steps: each reply takes one of them,
/// and it ends, with the words on the limit, only when none is left.
pub proof fn unfinished_turns_use_their_steps(r: Rules, c: Course, hs: Seq<Happening>)
    requires
        c.left == r.steps,
        unfinished(r, ask(r, c), hs),
    ensures
        ({
            let end = play(r, ask(r, c), hs);
            &&& replies(r, ask(r, c), hs) + rounds(end) == r.steps
            &&& end is Done ==> {
                &&& end->result == Err::<Seq<char>, Seq<char>>("step limit"@)
                &&& replies(r, ask(r, c), hs) == r.steps
            }
        }),
{
    lemma_seeking(r, ask(r, c), hs);
}

proof fn lemma_play_concat(r: Rules, a: Act, x: Seq<Happening>, y: Seq<Happening>)
    ensures
        play(r, a, x + y) == play(r, play(r, a, x), y),
    decreases x.len(),
{
    if x.len() == 0 {
        assert(x + y =~= y);
    } else {
        assert((x + y).drop_first() =~= x.drop_first() + y);
        lemma_play_concat(r, advance(r, a, x[0]), x.drop_first(), y);
    }
}

/// What happens in a round without an answer where all goes well and no prompt
/// waits: the model replies `v`, and the tools that it calls give `outs`.
pub open spec fn idle_round(v: Tree, outs: Seq<Seq<char>>) -> Seq<Happening> {
    let reply = seq![Happening::Reply { outcome: Outcome::Got { reply: v } }];
    let think = if thought(v).len() > 0 {
        seq![Happening::Told { result: Ok(()) }]
    } else {
        seq![]
    };
    reply + (think + (tool_round(outs) + seq![Happening::Inbox { prompts: seq![] }]))
}

/// The conversation after such a round.
pub open spec fn idled(c: Course, v: Tree, outs: Seq<Seq<char>>) -> Course {
    Course {
        messages: c.messages.push(calling_message(v)) + answers(invocations(v), outs, 0),
        used: used(v),
        left: c.left - 1,
        ..c
    }
}

proof fn lemma_idle_round(r: Rules, c: Course, v: Tree, outs: Seq<Seq<char>>)
    requires
        c.left > 0,
        no_answer(v),
        outs.len() == invocations(v).len(),
    ensures
        play(r, ask(r, c), idle_round(v, outs)) == ask(r, idled(c, v, outs)),
{
    let reply = seq![Happening::Reply { outcome: Outcome::Got { reply: v } }];
    let think = if thought(v).len() > 0 {
        seq![Happening::Told { result: Ok(()) }]
    } else {
        seq![]
    };
    let look = seq![Happening::Inbox { prompts: seq![] }];
    let rest = tool_round(outs) + look;
    let d = Course { used: used(v), left: c.left - 1, ..c };
    let e = with(d, calling_message(v));
    let calls = invocations(v);
    let a0 = ask(r, c);
    let a1 = advance(r, a0, reply[0]);
    lemma_play_concat(r, a0, reply, think + rest);
    lemma_play_step(r, a0, reply);
    assert(reply.drop_first() =~= seq![]);
    assert(play(r, a0, reply) == a1);
    lemma_play_concat(r, a1, think, rest);
    if thought(v).len() > 0 {
        lemma_play_step(r, a1, think);
        assert(think.drop_first() =~= seq![]);
    }
    assert(play(r, a1, think) == calling(e, calls, 0));
    lemma_play_concat(r, calling(e, calls, 0), tool_round(outs), look);
    lemma_tool_round(r, e, calls, outs, 0);
    let p = play(r, calling(e, calls, 0), tool_round(outs));
    lemma_play_step(r, p, look);
    assert(look.drop_first() =~= seq![]);
}

/// What happens in such rounds, one after the other.
pub open spec fn idle_rounds(vs: Seq<Tree>, outs: Seq<Seq<Seq<char>>>) -> Seq<Happening>
    decreases vs.len(),
{
    if vs.len() == 0 {
        seq![]
    } else {
        idle_round(vs[0], outs[0]) + idle_rounds(vs.drop_first(), outs.drop_first())
    }
}

/// The conversation after such rounds.
pub open spec fn idled_all(c: Course, vs: Seq<Tree>, outs: Seq<Seq<Seq<char>>>) -> Course
    decreases vs.len(),
{
    if vs.len() == 0 {
        c
    } else {
        idled_all(idled(c, vs[0], outs[0]), vs.drop_first(), outs.drop_first())
    }
}

/// Where the model does nothing but call tools, and all goes well, the conversation
/// ends with the words on the limit once it has been asked as often as it may be,
/// with every call and every output among its messages.
pub proof fn endless_calls_end(
    r: Rules,
    c: Course,
    vs: Seq<Tree>,
    outs: Seq<Seq<Seq<char>>>,
)
    requires
        c.left == vs.len(),
        outs.len() == vs.len(),
        forall|i: int|
            0 <= i < vs.len() ==> no_answer(#[trigger] vs[i]) && outs[i].len() == invocations(
                vs[i],
            ).len(),
    ensures
        play(r, ask(r, c), idle_rounds(vs, outs)) == ended(
            idled_all(c, vs, outs),
            Err("step limit"@),
        ),
    decreases vs.len(),
{
    if vs.len() > 0 {
        let next = idled(c, vs[0], outs[0]);
        let ws = vs.drop_first();
        let os = outs.drop_first();
        lemma_idle_round(r, c, vs[0], outs[0]);
        lemma_play_concat(r, ask(r, c), idle_round(vs[0], outs[0]), idle_rounds(ws, os));
        assert forall|i: int| 0 <= i < ws.len() implies no_answer(#[trigger] ws[i])
            && os[i].len() == invocations(ws[i]).len() by {
            assert(ws[i] == vs[i + 1]);
        }
        endless_calls_end(r, next, ws, os);
    }
}

/// What can occur while a request is served: a prompt comes for its session, or
/// something happens to its conversation.
pub enum Occurrence {
    Prompt { text: Seq<char> },
    Step { happening: Happening },
}

/// The act of the conversation and what its session holds, once something has
/// occurred. Where the inbox is looked into, what the session holds in it is found.
pub open spec fn occurred(r: Rules, a: Act, h: Holding, o: Occurrence) -> (Act, Holding) {
    match o {
        Occurrence::Prompt { text } => (a, admitted(h, text)),
        Occurrence::Step { happening } => if a is Pull {
            (advance(r, a, Happening::Inbox { prompts: h.inbox }), without_inbox(h))
        } else {
            (advance(r, a, happening), h)
        },
    }
}

/// The act and the session after all that has occurred.
pub open spec fn visit(r: Rules, a: Act, h: Holding, os: Seq<Occurrence>) -> (Act, Holding)
    decreases os.len(),
{
    if os.len() == 0 {
        (a, h)
    } else {
        let (b, k) = occurred(r, a, h, os[0]);
        visit(r, b, k, os.drop_first())
    }
}

/// The prompts that come for the session.
pub open spec fn arrivals(os: Seq<Occurrence>) -> Seq<Seq<char>>
    decreases os.len(),
{
    if os.len() == 0 {
        seq![]
    } else {
        let here = match os[0] {
            Occurrence::Prompt { text } => seq![text],
            Occurrence::Step { happening } => seq![],
        };
        here + arrivals(os.drop_first())
    }
}

/// The prompts that the conversation finds in its inbox.
pub open spec fn found(r: Rules, a: Act, h: Holding, os: Seq<Occurrence>) -> Seq<Seq<char>>
    decreases os.len(),
{
    if os.len() == 0 {
        seq![]
    } else {
        let here = if os[0] is Step && a is Pull {
            h.inbox
        } else {
            seq![]
        };
        let (b, k) = occurred(r, a, h, os[0]);
        here + found(r, b, k, os.drop_first())
    }
}

proof fn lemma_visit(r: Rules, a: Act, h: Holding, os: Seq<Occurrence>)
    requires
        h.busy,
    ensures
        visit(r, a, h, os).1.busy,
        visit(r, a, h, os).1.messages == h.messages,
        grown(history(a), history(visit(r, a, h, os).0)),
        found(r, a, h, os) + visit(r, a, h, os).1.inbox == h.inbox + arrivals(os),
    decreases os.len(),
{
    if os.len() == 0 {
        assert(history(a).take(history(a).len() as int) =~= history(a));
        assert(found(r, a, h, os) + h.inbox =~= h.inbox + arrivals(os));
    } else {
        let (b, k) = occurred(r, a, h, os[0]);
        let rest = os.drop_first();
        let end = visit(r, a, h, os);
        lemma_visit(r, b, k, rest);
        match os[0] {
            Occurrence::Prompt { text } => {
                assert(found(r, a, h, os) =~= found(r, b, k, rest));
                assert(h.inbox + arrivals(os) =~= k.inbox + arrivals(rest));
            },
            Occurrence::Step { happening } => {
                let x = if a is Pull {
                    Happening::Inbox { prompts: h.inbox }
                } else {
                    happening
                };
                lemma_history_grows(r, a, x);
                let y = history(a);
                let z = history(b);
                assert(history(end.0).take(y.len() as int) =~= history(end.0).take(
                    z.len() as int,
                ).take(y.len() as int));
                assert(arrivals(os) =~= arrivals(rest));
                if a is Pull {
                    assert(k.inbox + arrivals(rest) =~= arrivals(rest));
                    assert(found(r, a, h, os) + end.1.inbox =~= h.inbox + (found(r, b, k, rest)
                        + end.1.inbox));
                } else {
                    assert(found(r, a, h, os) =~= found(r, b, k, rest));
                }
            },
        }
    }
}

/// The conversation with which a prompt for an idle session is served.
pub open spec fn opened(
    r: Rules,
    h: Holding,
    prompt: Seq<char>,
    extra: Seq<(Seq<char>, Seq<char>)>,
) -> Course {
    Course {
        messages: prompted(h.messages, prompt),
        pin: pinned(h.messages),
        used: None,
        left: r.steps as int,
        extra,
        serve: true,
    }
}

/// A prompt for an idle session takes its messages out, and makes it busy until it
/// comes to rest, whatever occurs. At rest, at any point, even before anything
/// occurred, the session is idle again, and holds the messages that it had, the
/// prompt, and what the conversation added. Every prompt that came meanwhile was
/// found in the inbox, or is still there, in the order in which they came.
pub proof fn served_requests_come_to_rest(
    r: Rules,
    h: Holding,
    prompt: Seq<char>,
    extra: Seq<(Seq<char>, Seq<char>)>,
    os: Seq<Occurrence>,
)
    requires
        !h.busy,
    ensures
        ({
            let begun = without_messages(admitted(h, prompt));
            let first = ask(r, opened(r, h, prompt, extra));
            let (a, k) = visit(r, first, begun, os);
            let rest = settled(k, history(a));
            &&& begun.busy
            &&& k.busy
            &&& !rest.busy
            &&& rest.messages == history(a)
            &&& grown(prompted(h.messages, prompt), rest.messages)
            &&& os.len() == 0 ==> rest.messages == prompted(h.messages, prompt)
            &&& found(r, first, begun, os) + rest.inbox == h.inbox + arrivals(os)
        }),
{
    let begun = without_messages(admitted(h, prompt));
    let first = ask(r, opened(r, h, prompt, extra));
    lemma_visit(r, first, begun, os);
}

/// A turn is governed by the settings of the same names: the model is asked at the
/// endpoint of its address with its headers, and tools are reached at theirs.
pub proof fn settings_govern_turns(cfg: Cfg)
    ensures
        cfg.rules().chat == endpoint(cfg.url@),
        cfg.rules().headers == typed(pairs(cfg.headers@)),
        cfg.rules().steps == cfg.steps,
        cfg.rules().keep == cfg.keep,
        cfg.rules().budget == cfg.budget,
        cfg.rules().base == cfg.map@,
        cfg.rules().exec_url == cfg.exec_url@,
        cfg.rules().specs == cfg.specs@,
{
}

/// The messages of a request are blanked where the last reply reported more tokens
/// than the budget, and are whole where it did not; before any report, where their
/// length is above three quarters of the budget.
pub proof fn budgets_decide(r: Rules, c: Course)
    ensures
        c.used matches Some(n) ==> (n > r.budget ==> request(r, c).get("messages"@) == Some(
            Message::list(sent(c.pin, r.keep as int, c.messages)),
        )),
        c.used matches Some(n) ==> (n <= r.budget ==> request(r, c).get("messages"@) == Some(
            Message::list(c.messages),
        )),
        c.used is None && r.budget * 3 <= u64::MAX && messages_len(c.messages) <= usize::MAX ==> {
            &&& 4 * (messages_len(c.messages) as int) > 3 * r.budget ==> request(r, c).get(
                "messages"@,
            ) == Some(Message::list(sent(c.pin, r.keep as int, c.messages)))
            &&& 4 * (messages_len(c.messages) as int) <= 3 * r.budget ==> request(r, c).get(
                "messages"@,
            ) == Some(Message::list(c.messages))
        },
{
    let ms = if too_long(r, c) {
        sent(c.pin, r.keep as int, c.messages)
    } else {
        c.messages
    };
    put_then_lookup(r.base, "messages"@, Message::list(ms), "messages"@);
    if messages_len(c.messages) <= usize::MAX {
        lemma_small_mod(messages_len(c.messages), (usize::MAX + 1) as nat);
    }
}

/// The conversation at an act.
pub open spec fn course_at(a: Act) -> Course {
    match a {
        Act::Post { url, headers, body, course } => course,
        Act::Emit { event, course, after } => course,
        Act::Run { verb, url, headers, body, course, calls, at } => course,
        Act::Pull { course, stage } => course,
        Act::Done { messages, result } => Course {
            messages,
            pin: 0,
            used: None,
            left: 0,
            extra: seq![],
            serve: false,
        },
    }
}

/// The tokens that a reply reports under `prompt_tokens` of its `usage` are what counts
/// from it on, whatever else the usage holds.
pub proof fn reported_tokens_count(
    c: Course,
    ves: Seq<(Seq<char>, Tree)>,
    ues: Seq<(Seq<char>, Tree)>,
    n: serde_json::Number,
    k: Seq<char>,
    t: Tree,
)
    requires
        lookup(ves, "error"@) is None,
        lookup(ves, "usage"@) == Some(Tree::Dict(ues)),
        lookup(ues, "prompt_tokens"@) == Some(Tree::Number(n)),
        k != "prompt_tokens"@,
    ensures
        ({
            let v = Tree::Dict(ves);
            let w = Tree::Dict(put(ves, "usage"@, Tree::Dict(put(ues, k, t))));
            let a = replied(c, Outcome::Got { reply: v }).act;
            let b = replied(c, Outcome::Got { reply: w }).act;
            &&& !(a is Done) && course_at(a).used == number_u64(n)
            &&& !(b is Done) && course_at(b).used == number_u64(n)
            &&& course_at(a).left == c.left && course_at(a).pin == c.pin
            &&& course_at(a).extra == c.extra && course_at(a).serve == c.serve
        }),
{
    prompt_tokens_are_reported(ves, ues, k, t);
    let ws = put(ues, k, t);
    put_then_lookup(ves, "usage"@, Tree::Dict(ws), "error"@);
    reveal_strlit("usage");
    reveal_strlit("error");
    assert("usage"@[0] != "error"@[0]);
}

/// After a reply that calls tools, and their outputs, the model is asked again. The
/// request shows what the model said and its calls as the model wrote them, and an
/// answer for each call with its output, behind all that was there; unless the tokens
/// that the reply reported are above the budget: then outputs are blanked.
pub proof fn tools_are_run_for_the_model(
    r: Rules,
    c: Course,
    v: Tree,
    ces: Seq<(Seq<char>, Tree)>,
    mes: Seq<(Seq<char>, Tree)>,
    cs: Seq<Tree>,
    outs: Seq<Seq<char>>,
    i: int,
)
    requires
        c.left > 1,
        has_message(v, ces, mes),
        v.get("error"@) is None,
        lookup(mes, "tool_calls"@) == Some(Tree::List(cs)),
        cs.len() > 0,
        outs.len() == cs.len(),
        0 <= i < cs.len(),
    ensures
        ({
            let a = play(r, ask(r, c), idle_round(v, outs));
            let ms = history(a);
            let n = c.messages.len() as int;
            let said = ms[n].tree();
            let told = ms[n + 1 + i].tree();
            &&& a is Post
            &&& ms.len() == n + 1 + cs.len()
            &&& ms.take(n) == c.messages
            &&& said.get("role"@) == Some(Tree::Text("assistant"@))
            &&& said.get("content"@) == lookup(mes, "content"@)
            &&& said.get("tool_calls"@) == Some(Tree::List(cs))
            &&& told.get("role"@) == Some(Tree::Text("tool"@))
            &&& told.get("content"@) == Some(Tree::Text(outs[i]))
            &&& cs[i].get("id"@) matches Some(Tree::Text(id)) ==> told.get("tool_call_id"@) == Some(
                Tree::Text(id),
            )
            &&& match v.get("usage"@) {
                Some(Tree::Dict(ues)) => match lookup(ues, "prompt_tokens"@) {
                    Some(Tree::Number(x)) => match number_u64(x) {
                        Some(tokens) => a->Post_body.get("messages"@) == Some(
                            if tokens > r.budget {
                                Message::list(sent(c.pin, r.keep as int, ms))
                            } else {
                                Message::list(ms)
                            },
                        ),
                        None => true,
                    },
                    _ => true,
                },
                _ => true,
            }
        }),
{
    calls_are_recognised(v, ces, mes);
    calls_are_listed(v, ces, mes, cs, i);
    replies_are_kept(v, ces, mes);
    lemma_idle_round(r, c, v, outs);
    let d = idled(c, v, outs);
    let n = c.messages.len() as int;
    let a = ask(r, d);
    assert(history(a) == d.messages);
    assert(d.messages.take(n) =~= c.messages);
    assert(d.messages[n] == calling_message(v));
    assert(d.messages[n + 1 + i] == answer(invocations(v)[i].id, outs[i]));
    answers_are_written(invocations(v)[i].id, outs[i]);
    budgets_decide(r, d);
    match v.get("usage"@) {
        Some(Tree::Dict(ues)) => {
            let ves = v.members();
            reveal_strlit("prompt_tokens");
            assert("prompt_tokens"@ != Seq::<char>::empty());
            prompt_tokens_are_reported(ves, ues, Seq::<char>::empty(), Tree::Null);
        },
        _ => {},
    }
}

/// What happens to the end of a turn where all goes well: the model answers `v`, which
/// is told, and no prompt waits.
pub open spec fn answer_round(v: Tree) -> Seq<Happening> {
    let reply = seq![Happening::Reply { outcome: Outcome::Got { reply: v } }];
    let think = if thought(v).len() > 0 {
        seq![Happening::Told { result: Ok(()) }]
    } else {
        seq![]
    };
    reply + (think + seq![
        Happening::Told { result: Ok(()) },
        Happening::Inbox { prompts: seq![] },
    ])
}

/// An answer ends a turn with what the model said for its result, and stands behind
/// the other messages as the model wrote it. Where the conversation is served, the
/// inbox is looked into once more.
pub proof fn answers_end_turns(
    r: Rules,
    c: Course,
    v: Tree,
    ces: Seq<(Seq<char>, Tree)>,
    mes: Seq<(Seq<char>, Tree)>,
    text: Seq<char>,
)
    requires
        c.left > 0,
        has_message(v, ces, mes),
        v.get("error"@) is None,
        lookup(ces, "finish_reason"@) != Some(Tree::Text("tool_calls"@)),
        !(lookup(mes, "tool_calls"@) matches Some(Tree::List(_))),
        lookup(mes, "content"@) == Some(Tree::Text(text)),
    ensures
        ({
            let a = play(r, ask(r, c), answer_round(v));
            let b = if c.serve {
                advance(r, a, Happening::Inbox { prompts: seq![] })
            } else {
                a
            };
            let n = c.messages.len() as int;
            &&& c.serve ==> a is Pull
            &&& b is Done
            &&& b->result == Ok::<Seq<char>, Seq<char>>(text)
            &&& b->messages.len() == n + 1
            &&& b->messages.take(n) == c.messages
            &&& b->messages[n].tree().get("role"@) == Some(Tree::Text("assistant"@))
            &&& b->messages[n].tree().get("content"@) == Some(Tree::Text(text))
            &&& b->messages[n].tree().get("tool_calls"@) is None
        }),
{
    let reply = seq![Happening::Reply { outcome: Outcome::Got { reply: v } }];
    let think = if thought(v).len() > 0 {
        seq![Happening::Told { result: Ok(()) }]
    } else {
        seq![]
    };
    let told = Happening::Told { result: Ok(()) };
    let look = Happening::Inbox { prompts: seq![] };
    let rest = seq![told, look];
    let d = Course { used: used(v), left: c.left - 1, ..c };
    let e = with(d, saying_message(v));
    calls_are_recognised(v, ces, mes);
    replies_say_their_content(v, ces, mes);
    replies_are_kept(v, ces, mes);
    assert(!wants_tools(v));
    let a0 = ask(r, c);
    let a1 = advance(r, a0, reply[0]);
    lemma_play_concat(r, a0, reply, think + rest);
    lemma_play_step(r, a0, reply);
    assert(reply.drop_first() =~= seq![]);
    assert(play(r, a0, reply) == a1);
    lemma_play_concat(r, a1, think, rest);
    if thought(v).len() > 0 {
        lemma_play_step(r, a1, think);
        assert(think.drop_first() =~= seq![]);
    }
    let a2 = follow(d, v).act;
    assert(play(r, a1, think) == a2);
    let a3 = advance(r, a2, told);
    assert(a3 == (Act::Pull { course: e, stage: Stage::Last { text } }));
    lemma_play_step(r, a2, rest);
    assert(rest.drop_first() =~= seq![look]);
    lemma_play_step(r, a3, seq![look]);
    assert(seq![look].drop_first() =~= seq![]);
    assert(e.messages.take(c.messages.len() as int) =~= c.messages);
}

/// What goes wrong when the model is asked is told in words of its own: that the
/// request failed, that the answer was no JSON, or the error that the model reported.
pub proof fn failures_have_their_words(c: Course, words: Seq<char>, v: Tree, e: Tree)
    requires
        v.get("error"@) == Some(e),
    ensures
        replied(c, Outcome::Failed { words }).act == ended(c, Err("chat: "@ + words)),
        replied(c, Outcome::Failed { words }).notes == seq!["chat fail "@ + words],
        replied(c, Outcome::Garbled { words }).act == ended(c, Err("chat json: "@ + words)),
        replied(c, Outcome::Got { reply: v }).act == ended(c, Err("api: "@ + tree_text(e))),
{
}

/// The model is asked while it may be, which takes one of the steps; after that the
/// turn ends with the words on the limit. A turn that ends well ends with its text,
/// or, where it is served, with a look into the inbox.
pub proof fn steps_are_taken(r: Rules, c: Course, text: Seq<char>)
    ensures
        c.left > 0 ==> ask(r, c) is Post && course_at(ask(r, c)) == (Course {
            left: c.left - 1,
            ..c
        }),
        c.left <= 0 ==> ask(r, c) == ended(c, Err("step limit"@)),
        !c.serve ==> ended(c, Ok(text)) == (Act::Done { messages: c.messages, result: Ok(text) }),
        c.serve ==> ended(c, Ok(text)) == (Act::Pull { course: c, stage: Stage::Again { text } }),
{
}

/// What a reply thinks is told first, then what it says; the log has the reply, and
/// what it says.
pub proof fn replies_are_told(c: Course, v: Tree)
    requires
        v.get("error"@) is None,
    ensures
        ({
            let m = replied(c, Outcome::Got { reply: v });
            &&& m.notes.len() > 0 && m.notes[0] == reply_note(v)
            &&& thought(v).len() > 0 ==> {
                &&& m.act is Emit && m.act->after == (After::Think { reply: v })
                &&& m.act->event.get("t"@) == Some(Tree::Text("think"@))
                &&& m.act->event.get("x"@) == Some(Tree::Text(thought(v)))
            }
            &&& thought(v).len() == 0 && !wants_tools(v) ==> {
                &&& m.act is Emit && m.act->after is Say
                &&& m.act->event.get("t"@) == Some(Tree::Text("say"@))
                &&& m.act->event.get("x"@) == Some(Tree::Text(said(v)))
                &&& m.notes == seq![reply_note(v), "out "@ + said(v)]
            }
        }),
{
    let d = Course { used: used(v), ..c };
    events_tell_their_members("think"@, thought(v), seq![], v, seq![]);
    events_tell_their_members("say"@, said(v), seq![], v, seq![]);
    let m = follow(d, v);
    if thought(v).len() == 0 && !wants_tools(v) {
        assert(seq![reply_note(v)] + m.notes =~= seq![reply_note(v), "out "@ + said(v)]);
    }
}

/// A call is told with the name of the tool and the arguments; then the tool is run
/// by its own method, at its own address, with the headers of the conversation; its
/// output is told with its name; and the answer stands behind the other messages.
pub proof fn calls_are_carried_out(
    r: Rules,
    c: Course,
    calls: Seq<Invocation>,
    at: int,
    out: Seq<char>,
)
    requires
        0 <= at < calls.len(),
    ensures
        ({
            let told = Happening::Told { result: Ok(()) };
            let call = calls[at];
            let path = lookup(r.specs, call.name);
            let method = method_of(path);
            let a = calling(c, calls, at);
            let b = advance(r, a, told);
            let d = advance(r, b, Happening::Output { out });
            let e = advance(r, d, told);
            &&& a is Emit
            &&& a->event.get("t"@) == Some(Tree::Text("call"@))
            &&& a->event.get("n"@) == Some(Tree::Text(call.name))
            &&& a->event.get("a"@) == Some(call.args)
            &&& b is Run
            &&& b->verb == verb_of(method)
            &&& b->Run_url == destination(address_of(r.exec_url, path), method, call.args)
            &&& b->Run_headers == c.extra
            &&& b->Run_body == body_of(verb_of(method), call.args)
            &&& d is Emit
            &&& d->event.get("t"@) == Some(Tree::Text("out"@))
            &&& d->event.get("n"@) == Some(Tree::Text(call.name))
            &&& d->event.get("x"@) == Some(Tree::Text(out))
            &&& ran(c, calls, at, out).notes == seq![tool_note(call, out)]
            &&& history(e) == c.messages.push(answer(call.id, out))
            &&& at + 1 == calls.len() ==> e is Pull && e->Pull_stage is Tools
            &&& at + 1 < calls.len() ==> e is Emit && e->event.get("n"@) == Some(
                Tree::Text(calls[at + 1].name),
            )
        }),
{
    events_tell_their_members("call"@, out, calls[at].name, calls[at].args, seq![]);
    if at + 1 < calls.len() {
        events_tell_their_members("call"@, out, calls[at + 1].name, calls[at + 1].args, seq![]);
    }
}

/// An event that cannot be told ends the turn with the reason, but for that of an
/// error, and for that of a prompt found behind the end of a turn, which end the
/// conversation.
pub proof fn untold_events_end_turns(
    r: Rules,
    event: Tree,
    c: Course,
    after: After,
    words: Seq<char>,
)
    ensures
        ({
            let a = advance(
                r,
                Act::Emit { event, course: c, after },
                Happening::Told { result: Err(words) },
            );
            &&& after is Think || after is Call || after is Out || after is Say ==> a == ended(
                c,
                Err(words),
            )
            &&& after is User && !(after->User_stage is Again) ==> a == ended(c, Err(words))
            &&& after is Report ==> a == (Act::Done {
                messages: c.messages,
                result: Err(after->Report_words),
            })
            &&& after matches After::User { prompts, at, stage: Stage::Again { text } } ==> a == (
            Act::Done { messages: c.messages, result: Ok(text) })
        }),
{
}

/// After tools have run, the model is asked again, whether or not prompts wait; behind
/// an answer only where they do; and behind the end of a turn another one begins
/// where they do, with all of its steps and no tokens reported. Each prompt is told
/// and becomes a message of the user.
pub proof fn prompts_go_on(
    r: Rules,
    c: Course,
    stage: Stage,
    prompts: Seq<Seq<char>>,
    at: int,
    text: Seq<char>,
)
    requires
        0 <= at < prompts.len(),
    ensures
        pulled(r, c, Stage::Tools, true) == ask(r, c),
        pulled(r, c, Stage::Tools, false) == ask(r, c),
        pulled(r, c, Stage::Last { text }, true) == ask(r, c),
        pulled(r, c, Stage::Last { text }, false) == ended(c, Ok(text)),
        pulled(r, c, Stage::Again { text }, false) == (Act::Done {
            messages: c.messages,
            result: Ok(text),
        }),
        pulled(r, c, Stage::Again { text }, true) == ask(
            r,
            Course { used: None, left: r.steps as int, ..c },
        ),
        received(r, c, stage, seq![]) == pulled(r, c, stage, false),
        ({
            let a = telling(c, prompts, at, stage);
            let b = advance(r, a, Happening::Told { result: Ok(()) });
            &&& received(r, c, stage, prompts) == telling(c, prompts, 0, stage)
            &&& a is Emit
            &&& a->event.get("t"@) == Some(Tree::Text("user"@))
            &&& a->event.get("x"@) == Some(Tree::Text(prompts[at]))
            &&& history(b).len() == c.messages.len() + 1
            &&& history(b).last().tree().get("role"@) == Some(Tree::Text("user"@))
            &&& history(b).last().tree().get("content"@) == Some(Tree::Text(prompts[at]))
        }),
{
    events_tell_their_members("user"@, prompts[at], seq![], Tree::Null, seq![]);
    plain_messages_are_written("user"@, prompts[at]);
}

/// The tokens that count from a reply on are those that it reports; where it reports
/// none, none count, whatever was reported before.
pub proof fn old_reports_do_not_count(c: Course, v: Tree)
    requires
        v.get("error"@) is None,
    ensures
        ({
            let a = replied(c, Outcome::Got { reply: v }).act;
            &&& !(a is Done)
            &&& course_at(a).used == used(v)
            &&& !(v.get("usage"@) matches Some(Tree::Dict(_))) ==> course_at(a).used is None
        }),
{
    if !(v.get("usage"@) matches Some(Tree::Dict(_))) {
        no_usage_no_tokens(v);
    }
}

/// What came of asking the model, or of telling an event, is what it says.
pub proof fn outcomes_say_what_came(words: String, reply: Json)
    ensures
        (Reply::Failed { words })@ == (Outcome::Failed { words: words@ }),
        (Reply::Garbled { words })@ == (Outcome::Garbled { words: words@ }),
        (Reply::Got { reply })@ == (Outcome::Got { reply: reply@ }),
        told(Ok(())) is Ok,
        told(Err(words)) == Err::<(), Seq<char>>(words@),
{
}

/// What is to be done is what it says: where a request goes and with what, what is to
/// be told, and what has come out.
pub proof fn deeds_say_what_to_do(d: Deed)
    ensures
        d matches Deed::Post { url, headers, body, state } ==> d@ == (Act::Post {
            url: url@,
            headers: pairs(headers@),
            body: body@,
            course: state.course(),
        }),
        d matches Deed::Emit { event, state } ==> d@ == (Act::Emit {
            event: event@,
            course: state.course(),
            after: state.after(),
        }),
        d matches Deed::Run { request, headers, state } ==> {
            &&& d@ is Run
            &&& d@->verb == request.verb
            &&& d@->Run_url == request.url@
            &&& d@->Run_headers == pairs(headers@)
            &&& request.body matches Some(j) ==> d@->Run_body == Some(j@)
            &&& request.body is None ==> d@->Run_body is None
        },
        d matches Deed::Pull { state } ==> d@ == (Act::Pull {
            course: state.course(),
            stage: state.stage(),
        }),
        d matches Deed::Done { messages, result } ==> {
            &&& d@ is Done
            &&& d@->messages == Msg::views(messages@)
            &&& result matches Ok(s) ==> d@->result == Ok::<Seq<char>, Seq<char>>(s@)
            &&& result matches Err(s) ==> d@->result == Err::<Seq<char>, Seq<char>>(s@)
        },
{
}

} // verus!

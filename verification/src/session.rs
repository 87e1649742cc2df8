//! Sessions: their identifiers, the requests that name them, and what each of
//! them holds while its conversation is idle or under way.

use vstd::hash_map::StringHashMap;
use vstd::prelude::*;
use vstd::string::*;

use crate::config::{pairs, texts};
use crate::json::{lookup, Dict, Json};
use crate::message::{plain_messages_are_written, text_in, Message, Msg};
use crate::text::{cat, digit, digit_char, has_prefix, has_suffix, same};
use crate::value::{read_text, Tree};

verus! {

/// The byte at position `i` of an identifier made from the random bytes `b`: two
/// bytes carry the marks of a random identifier.
pub open spec fn id_byte(b: Seq<u8>, i: int) -> u8 {
    if i == 6 {
        (b[6] & 0x0f) | 0x40
    } else if i == 8 {
        (b[8] & 0x3f) | 0x80
    } else {
        b[i]
    }
}

/// A byte as two hexadecimal digits.
pub open spec fn two_digits(x: u8) -> Seq<char> {
    seq![digit(x as int / 16), digit(x as int % 16)]
}

/// The first `n` bytes of an identifier as text, with hyphens between its groups.
pub open spec fn id_text(b: Seq<u8>, n: int) -> Seq<char>
    decreases n,
{
    if n <= 0 {
        seq![]
    } else {
        let i = n - 1;
        let head = if i == 4 || i == 6 || i == 8 || i == 10 {
            id_text(b, i).push('-')
        } else {
            id_text(b, i)
        };
        head + two_digits(id_byte(b, i))
    }
}

/// The session identifier that the random bytes make.
pub fn session_id(b: &[u8; 16]) -> (r: String)
    ensures
        r@ == id_text(b@, 16),
{
    let mut out = String::new();
    for i in 0..16
        invariant
            out@ == id_text(b@, i as int),
    {
        if i == 4 || i == 6 || i == 8 || i == 10 {
            out.push('-');
        }
        let x: u8 = if i == 6 {
            (b[6] & 0x0f) | 0x40
        } else if i == 8 {
            (b[8] & 0x3f) | 0x80
        } else {
            b[i]
        };
        let ghost head = out@;
        out.push(digit_char(x / 16));
        out.push(digit_char(x % 16));
        assert(out@ =~= head + two_digits(x));
    }
    out
}

/// An identifier has 36 characters, with hyphens at four places; its version is
/// 4, and its variant one of 8, 9, a and b.
pub proof fn id_shape(b: Seq<u8>)
    requires
        b.len() == 16,
    ensures
        id_text(b, 16).len() == 36,
        id_text(b, 16)[8] == '-',
        id_text(b, 16)[13] == '-',
        id_text(b, 16)[18] == '-',
        id_text(b, 16)[23] == '-',
        id_text(b, 16)[14] == '4',
        id_text(b, 16)[19] == '8' || id_text(b, 16)[19] == '9' || id_text(b, 16)[19] == 'a'
            || id_text(b, 16)[19] == 'b',
{
    reveal_with_fuel(id_text, 17);
    let x = b[6];
    let y = b[8];
    assert(((x & 0x0f) | 0x40) / 16 == 4) by (bit_vector);
    assert(8 <= ((y & 0x3f) | 0x80) / 16 <= 11) by (bit_vector);
}

/// Why a request is turned away.
#[derive(Debug, PartialEq)]
pub enum Refusal {
    BadBody,
    BadJson(String),
    NeedPrompt,
}

impl Refusal {
    /// What the answer says.
    pub open spec fn words(self) -> Seq<char> {
        match self {
            Refusal::BadBody => "bad body"@,
            Refusal::BadJson(e) => "bad json: "@ + e@,
            Refusal::NeedPrompt => "need prompt"@,
        }
    }

    /// What the answer says.
    pub fn text(&self) -> (r: String)
        ensures
            r@ == self.words(),
    {
        match self {
            Refusal::BadBody => "bad body".to_string(),
            Refusal::BadJson(e) => cat("bad json: ", e),
            Refusal::NeedPrompt => "need prompt".to_string(),
        }
    }
}

/// A request for the next turn of a conversation. An empty session stands for a
/// new one.
#[derive(Debug, PartialEq)]
pub struct ChatRequest {
    pub session: String,
    pub prompt: String,
    pub headers: Vec<(String, String)>,
}

/// The headers that a request adds: its members that are texts, but not empty.
pub open spec fn added_headers(es: Seq<(Seq<char>, Tree)>) -> Seq<(Seq<char>, Seq<char>)>
    decreases es.len(),
{
    if es.len() == 0 {
        seq![]
    } else {
        let head = added_headers(es.drop_last());
        match es.last().1 {
            Tree::Text(s) => if s.len() > 0 {
                head.push((es.last().0, s))
            } else {
                head
            },
            _ => head,
        }
    }
}

fn add_headers(d: &Dict, headers: &mut Vec<(String, String)>)
    ensures
        pairs(final(headers)@) == pairs(old(headers)@) + added_headers(d@),
{
    let n: usize = d.len();
    let ghost start = pairs(headers@);
    assert(start + added_headers(d@.take(0)) =~= start);
    for i in 0..n
        invariant
            n == d@.len(),
            pairs(headers@) == start + added_headers(d@.take(i as int)),
    {
        assert(d@.take(i + 1).drop_last() =~= d@.take(i as int));
        match d.value(i) {
            Json::Text(s) => if !s.as_str().is_empty() {
                let ghost before = headers@;
                headers.push((d.key(i).clone(), s.clone()));
                assert(pairs(headers@) =~= pairs(before).push((d@[i as int].0, s@)));
                assert(pairs(headers@) =~= start + added_headers(d@.take(i + 1)));
            },
            _ => {},
        }
    }
    assert(d@.take(n as int) =~= d@);
}

/// The copy of a list of pairs.
pub fn copy_pairs(v: &Vec<(String, String)>) -> (r: Vec<(String, String)>)
    ensures
        pairs(r@) == pairs(v@),
{
    let mut out: Vec<(String, String)> = Vec::new();
    for i in 0..v.len()
        invariant
            out@.len() == i,
            forall|j: int| 0 <= j < i ==> pairs(out@)[j] == #[trigger] pairs(v@)[j],
    {
        let ghost before = out@;
        out.push((v[i].0.clone(), v[i].1.clone()));
        assert forall|j: int| 0 <= j < i + 1 implies pairs(out@)[j] == #[trigger] pairs(v@)[j] by {
            if j < i {
                assert(pairs(before)[j] == pairs(v@)[j]);
            }
        }
    }
    assert(pairs(out@) =~= pairs(v@));
    out
}

impl ChatRequest {
    /// The request is the one that the document asks for, where the headers
    /// `standing` go along with every request.
    pub open spec fn reads(self, t: Tree, standing: Seq<(Seq<char>, Seq<char>)>) -> bool {
        &&& self.session@ == t.at("session"@).str_or_empty()
        &&& self.prompt@ == t.at("prompt"@).str_or_empty()
        &&& pairs(self.headers@) == standing + added_headers(t.at("headers"@).members())
    }
}

/// The request that a document asks for; one without a prompt is turned away.
pub fn request_of(v: &Json, standing: &Vec<(String, String)>) -> (r: Result<ChatRequest, Refusal>)
    ensures
        match r {
            Ok(q) => v@.at("prompt"@).str_or_empty().len() > 0 && q.reads(v@, pairs(standing@)),
            Err(e) => v@.at("prompt"@).str_or_empty().len() == 0 && e is NeedPrompt,
        },
{
    let session = v.at("session").str_or_empty().to_string();
    let prompt = v.at("prompt").str_or_empty().to_string();
    if prompt.as_str().is_empty() {
        return Err(Refusal::NeedPrompt);
    }
    let mut headers = copy_pairs(standing);
    let ghost base = pairs(headers@);
    match v.at("headers") {
        Json::Dict(d) => add_headers(d, &mut headers),
        _ => {
            assert(base + added_headers(seq![]) =~= base);
        },
    }
    Ok(ChatRequest { session, prompt, headers })
}

/// The request that the body of a request asks for.
pub fn read_request(raw: &str, standing: &Vec<(String, String)>) -> (r: Result<
    ChatRequest,
    Refusal,
>)
    ensures
        match read_text(raw@) {
            Err(e) => r matches Err(Refusal::BadJson(s)) && s@ == e,
            Ok(t) => match r {
                Ok(q) => t.at("prompt"@).str_or_empty().len() > 0 && q.reads(t, pairs(standing@)),
                Err(e) => t.at("prompt"@).str_or_empty().len() == 0 && e is NeedPrompt,
            },
        },
{
    match Json::parse_text(raw) {
        Ok(v) => request_of(&v, standing),
        Err(e) => Err(Refusal::BadJson(e)),
    }
}

/// The session that a request is for: the one that it names, or a new one, whose
/// identifier the random bytes make.
pub fn session_for(asked: &ChatRequest, b: &[u8; 16]) -> (r: String)
    ensures
        r@ == if asked.session@.len() > 0 {
            asked.session@
        } else {
            id_text(b@, 16)
        },
{
    if asked.session.as_str().is_empty() {
        session_id(b)
    } else {
        asked.session.clone()
    }
}

/// What a session holds: its messages while it is idle, the prompts that wait,
/// and whether its conversation is under way.
pub struct Holding {
    pub messages: Seq<Message>,
    pub inbox: Seq<Seq<char>>,
    pub busy: bool,
}

struct Sess {
    messages: Vec<Msg>,
    inbox: Vec<String>,
    busy: bool,
}

impl Sess {
    spec fn view(&self) -> Holding {
        Holding {
            messages: Msg::views(self.messages@),
            inbox: texts(self.inbox@),
            busy: self.busy,
        }
    }
}

/// The sessions, by their identifiers.
pub struct Sessions {
    index: StringHashMap<usize>,
    slots: Vec<Sess>,
}

impl Sessions {
    /// What each session holds.
    pub closed spec fn view(&self) -> Map<Seq<char>, Holding> {
        holdings(self.index@, self.slots@)
    }

    #[verifier::type_invariant]
    closed spec fn inv(self) -> bool {
        indexed(self.index@, self.slots@.len())
    }
}

spec fn holdings(index: Map<Seq<char>, usize>, slots: Seq<Sess>) -> Map<Seq<char>, Holding> {
    Map::new(|k: Seq<char>| index.contains_key(k), |k: Seq<char>| slots[index[k] as int].view())
}

/// Every identifier has a slot of its own.
spec fn indexed(index: Map<Seq<char>, usize>, n: nat) -> bool {
    &&& forall|k: Seq<char>| #[trigger] index.contains_key(k) ==> index[k] < n
    &&& forall|j: Seq<char>, k: Seq<char>|
        index.contains_key(j) && index.contains_key(k) && #[trigger] index[j] == #[trigger] index[k]
            ==> j == k
}

/// A session before its first turn: with the instructions, where there are any.
pub open spec fn fresh(inst: Option<Seq<char>>) -> Holding {
    Holding {
        messages: match inst {
            Some(s) => seq![Message::plain("system"@, s)],
            None => seq![],
        },
        inbox: seq![],
        busy: false,
    }
}

/// What a session holds once a prompt has come: a busy one has it in its inbox,
/// and an idle one is busy with it.
pub open spec fn admitted(h: Holding, prompt: Seq<char>) -> Holding {
    if h.busy {
        Holding { inbox: h.inbox.push(prompt), ..h }
    } else {
        Holding { busy: true, ..h }
    }
}

/// What a session holds, or what a new one would.
pub open spec fn held(
    m: Map<Seq<char>, Holding>,
    id: Seq<char>,
    inst: Option<Seq<char>>,
) -> Holding {
    if m.contains_key(id) {
        m[id]
    } else {
        fresh(inst)
    }
}

/// What a session holds once its messages have been taken out.
pub open spec fn without_messages(h: Holding) -> Holding {
    Holding { messages: seq![], ..h }
}

/// What a session holds once the prompts that waited have been taken out.
pub open spec fn without_inbox(h: Holding) -> Holding {
    Holding { inbox: seq![], ..h }
}

/// What a session holds once its conversation has come to rest.
pub open spec fn settled(h: Holding, messages: Seq<Message>) -> Holding {
    Holding { messages, busy: false, ..h }
}

impl Sessions {
    /// No sessions.
    pub fn new() -> (r: Sessions)
        ensures
            r@ == Map::<Seq<char>, Holding>::empty(),
    {
        let r = Sessions { index: StringHashMap::new(), slots: Vec::new() };
        assert(r@ =~= Map::empty());
        r
    }

    /// Whether there is a session with this identifier.
    pub fn contains(&self, id: &str) -> (r: bool)
        ensures
            r == self@.contains_key(id@),
    {
        self.index.contains_key(id)
    }

    /// Takes in a prompt for a session, which is made where there is none, with
    /// the instructions `inst`; says whether the prompt has to wait.
    pub fn receive(&mut self, id: &str, prompt: &str, inst: Option<String>) -> (r: bool)
        ensures
            final(self)@ == old(self)@.insert(
                id@,
                admitted(
                    held(old(self)@, id@, text_in(inst)),
                    prompt@,
                ),
            ),
            r == held(old(self)@, id@, text_in(inst)).busy,
    {
        proof {
            use_type_invariant(&*self);
        }
        let ghost start = *self;
        let mut index: StringHashMap<usize> = StringHashMap::new();
        let mut slots: Vec<Sess> = Vec::new();
        std::mem::swap(&mut index, &mut self.index);
        std::mem::swap(&mut slots, &mut self.slots);
        let ghost was = holdings(index@, slots@);
        assert(was == start@);
        let at: usize = match index.get(id) {
            Some(i) => *i,
            None => {
                let mut messages: Vec<Msg> = Vec::new();
                match inst {
                    Some(s) => messages.push(Msg::plain("system", s)),
                    None => {},
                }
                let n: usize = slots.len();
                let s = Sess { messages, inbox: Vec::new(), busy: false };
                proof {
                    assert(s@.inbox =~= seq![]);
                    assert(s@.messages =~= fresh(text_in(inst)).messages);
                }
                slots.push(s);
                index.insert(id.to_string(), n);
                n
            },
        };
        let ghost mid = holdings(index@, slots@);
        assert(mid =~= was.insert(id@, held(was, id@, text_in(inst))));
        let busy = slots[at].busy;
        if busy {
            let ghost before = slots@[at as int].inbox@;
            slots[at].inbox.push(prompt.to_string());
            assert(texts(slots@[at as int].inbox@) =~= texts(before).push(prompt@));
        } else {
            slots[at].busy = true;
        }
        assert(holdings(index@, slots@) =~= start@.insert(
            id@,
            admitted(held(start@, id@, text_in(inst)), prompt@),
        ));
        *self = Sessions { index, slots };
        busy
    }

    /// Takes the messages out of a session, for its conversation to go on with.
    pub fn take_messages(&mut self, id: &str) -> (r: Vec<Msg>)
        ensures
            old(self)@.contains_key(id@) ==> Msg::views(r@) == old(self)@[id@].messages
                && final(self)@ == old(self)@.insert(
                id@,
                without_messages(old(self)@[id@]),
            ),
            !old(self)@.contains_key(id@) ==> r@.len() == 0 && final(self)@ == old(self)@,
    {
        proof {
            use_type_invariant(&*self);
        }
        let ghost start = *self;
        let mut out: Vec<Msg> = Vec::new();
        let at: usize = match self.index.get(id) {
            Some(i) => *i,
            None => return out,
        };
        let mut slots: Vec<Sess> = Vec::new();
        let mut index: StringHashMap<usize> = StringHashMap::new();
        std::mem::swap(&mut index, &mut self.index);
        std::mem::swap(&mut slots, &mut self.slots);
        std::mem::swap(&mut out, &mut slots[at].messages);
        assert(slots@[at as int]@.messages =~= seq![]);
        assert(holdings(index@, slots@) =~= start@.insert(
            id@,
            without_messages(start@[id@]),
        ));
        *self = Sessions { index, slots };
        out
    }

    /// Takes the prompts that wait out of a session, in the order in which they
    /// came.
    pub fn take_inbox(&mut self, id: &str) -> (r: Vec<String>)
        ensures
            old(self)@.contains_key(id@) ==> texts(r@) == old(self)@[id@].inbox && final(self)@
                == old(self)@.insert(id@, without_inbox(old(self)@[id@])),
            !old(self)@.contains_key(id@) ==> r@.len() == 0 && final(self)@ == old(self)@,
    {
        proof {
            use_type_invariant(&*self);
        }
        let ghost start = *self;
        let mut out: Vec<String> = Vec::new();
        let at: usize = match self.index.get(id) {
            Some(i) => *i,
            None => return out,
        };
        let mut slots: Vec<Sess> = Vec::new();
        let mut index: StringHashMap<usize> = StringHashMap::new();
        std::mem::swap(&mut index, &mut self.index);
        std::mem::swap(&mut slots, &mut self.slots);
        std::mem::swap(&mut out, &mut slots[at].inbox);
        assert(slots@[at as int]@.inbox =~= seq![]);
        assert(holdings(index@, slots@) =~= start@.insert(
            id@,
            without_inbox(start@[id@]),
        ));
        *self = Sessions { index, slots };
        out
    }

    /// Gives a session its messages back; its conversation is no longer under
    /// way.
    pub fn settle(&mut self, id: &str, messages: Vec<Msg>)
        ensures
            final(self)@ == if old(self)@.contains_key(id@) {
                old(self)@.insert(
                    id@,
                    settled(old(self)@[id@], Msg::views(messages@)),
                )
            } else {
                old(self)@
            },
    {
        proof {
            use_type_invariant(&*self);
        }
        let ghost start = *self;
        let at: usize = match self.index.get(id) {
            Some(i) => *i,
            None => return,
        };
        let mut slots: Vec<Sess> = Vec::new();
        let mut index: StringHashMap<usize> = StringHashMap::new();
        std::mem::swap(&mut index, &mut self.index);
        std::mem::swap(&mut slots, &mut self.slots);
        slots[at].messages = messages;
        slots[at].busy = false;
        assert(holdings(index@, slots@) =~= start@.insert(
            id@,
            settled(start@[id@], Msg::views(messages@)),
        ));
        *self = Sessions { index, slots };
    }
}

/// The messages with which a turn begins: those of the session and the prompt.
pub open spec fn prompted(ms: Seq<Message>, prompt: Seq<char>) -> Seq<Message> {
    ms.push(Message::plain("user"@, prompt))
}

/// The number of messages that are pinned: the first prompt, and the
/// instructions where the conversation begins with them.
pub open spec fn pinned(ms: Seq<Message>) -> int {
    if ms.len() > 0 && ms[0].role == "system"@ {
        2
    } else {
        1
    }
}

/// The messages with which a turn begins, and how many of them are pinned.
pub fn prepare(messages: Vec<Msg>, prompt: String) -> (r: (Vec<Msg>, usize))
    ensures
        Msg::views(r.0@) == prompted(Msg::views(messages@), prompt@),
        r.1 == pinned(Msg::views(messages@)),
        r.1 <= r.0@.len(),
{
    let pin: usize = if messages.len() > 0 && same(&messages[0].role, "system") {
        2
    } else {
        1
    };
    let mut out = messages;
    let ghost before = out@;
    out.push(Msg::plain("user", prompt));
    assert(Msg::views(out@) =~= Msg::views(before).push(out@[before.len() as int]@));
    (out, pin)
}

/// The messages with which a conversation of one turn begins, all of them pinned:
/// the instructions, where there are any, and the prompt.
pub fn first_messages(inst: Option<String>, prompt: String) -> (r: Vec<Msg>)
    ensures
        Msg::views(r@) == prompted(fresh(text_in(inst)).messages, prompt@),
{
    let mut out: Vec<Msg> = Vec::new();
    match inst {
        Some(s) => out.push(Msg::plain("system", s)),
        None => {},
    }
    out.push(Msg::plain("user", prompt));
    assert(Msg::views(out@) =~= prompted(fresh(text_in(inst)).messages, prompt@));
    out
}

/// The line of the log on a prompt that came for a session: it has to wait, or is
/// taken up.
pub open spec fn arrival_note(session: Seq<char>, prompt: Seq<char>, queued: bool) -> Seq<char> {
    if queued {
        "session "@ + session + " queue "@ + prompt
    } else {
        "session "@ + session + " prompt "@ + prompt
    }
}

/// The line of the log on a prompt that came for a session.
pub fn note_arrival(session: &str, prompt: &str, queued: bool) -> (r: String)
    ensures
        r@ == arrival_note(session@, prompt@, queued),
{
    let mut r = cat("session ", session);
    if queued {
        r.append(" queue ");
    } else {
        r.append(" prompt ");
    }
    r.append(prompt);
    r
}

/// While the conversation of a session is under way, it takes no other prompt up:
/// what comes waits, in the order in which it comes.
pub proof fn prompts_wait_their_turn(h: Holding, prompt: Seq<char>, next: Seq<char>)
    ensures
        admitted(h, prompt).busy,
        admitted(admitted(h, prompt), next).inbox == admitted(h, prompt).inbox.push(next),
        admitted(admitted(h, prompt), next).messages == h.messages,
{
}

/// What a session holds once the prompts have come, one after the other.
pub open spec fn admitted_all(h: Holding, prompts: Seq<Seq<char>>) -> Holding
    decreases prompts.len(),
{
    if prompts.len() == 0 {
        h
    } else {
        admitted(admitted_all(h, prompts.drop_last()), prompts.last())
    }
}

proof fn lemma_admitted_all(h: Holding, prompts: Seq<Seq<char>>)
    requires
        h.busy,
    ensures
        admitted_all(h, prompts) == (Holding { inbox: h.inbox + prompts, ..h }),
    decreases prompts.len(),
{
    if prompts.len() == 0 {
        assert(h.inbox + prompts =~= h.inbox);
    } else {
        lemma_admitted_all(h, prompts.drop_last());
        assert((h.inbox + prompts.drop_last()).push(prompts.last()) =~= h.inbox + prompts);
    }
}

/// The prompts that come while a conversation is under way are all there, in
/// their order, when its inbox is looked into; and they are still there if the
/// conversation comes to rest before that, beside its messages.
pub proof fn nothing_is_lost(
    h: Holding,
    prompt: Seq<char>,
    later: Seq<Seq<char>>,
    messages: Seq<Message>,
)
    requires
        !h.busy,
    ensures
        ({
            let under_way = admitted_all(without_messages(admitted(h, prompt)), later);
            let rest = settled(under_way, messages);
            &&& under_way.inbox == h.inbox + later
            &&& without_inbox(under_way).inbox.len() == 0
            &&& rest.inbox == h.inbox + later
            &&& rest.messages == messages
            &&& !rest.busy
        }),
{
    let begun = without_messages(admitted(h, prompt));
    lemma_admitted_all(begun, later);
}

/// What becomes of one session leaves every other as it is.
pub proof fn sessions_are_apart(
    m: Map<Seq<char>, Holding>,
    id: Seq<char>,
    h: Holding,
    other: Seq<char>,
)
    requires
        other != id,
    ensures
        m.insert(id, h).contains_key(other) == m.contains_key(other),
        m.contains_key(other) ==> m.insert(id, h)[other] == m[other],
{
}

/// How many messages are pinned is settled with the first of them: what is added
/// to a conversation does not change it.
pub proof fn pin_is_steady(ms: Seq<Message>, prompt: Seq<char>, more: Seq<Message>)
    ensures
        pinned(prompted(ms, prompt)) == pinned(ms),
        pinned(prompted(ms, prompt) + more) == pinned(ms),
{
    reveal_strlit("user");
    reveal_strlit("system");
    assert("user"@.len() != "system"@.len());
}

/// Where the digits of the byte at position `i` stand in an identifier.
pub open spec fn digits_at(i: int) -> int {
    2 * i + if i < 4 {
        0int
    } else if i < 6 {
        1
    } else if i < 8 {
        2
    } else if i < 10 {
        3
    } else {
        4
    }
}

proof fn lemma_id_len(b: Seq<u8>, n: int)
    requires
        1 <= n <= 16,
    ensures
        id_text(b, n).len() == digits_at(n - 1) + 2,
    decreases n,
{
    if n > 1 {
        lemma_id_len(b, n - 1);
    } else {
        assert(id_text(b, 0).len() == 0);
    }
}

proof fn lemma_id_digits(b: Seq<u8>, n: int, i: int)
    requires
        0 <= i < n <= 16,
    ensures
        digits_at(i) + 1 < id_text(b, n).len(),
        id_text(b, n)[digits_at(i)] == digit(id_byte(b, i) as int / 16),
        id_text(b, n)[digits_at(i) + 1] == digit(id_byte(b, i) as int % 16),
    decreases n,
{
    lemma_id_len(b, n);
    if i == n - 1 {
        if n > 1 {
            lemma_id_len(b, n - 1);
        } else {
            assert(id_text(b, 0).len() == 0);
        }
    } else {
        lemma_id_digits(b, n - 1, i);
        lemma_id_len(b, n - 1);
    }
}

/// An identifier spells the random bytes in hexadecimal digits, two for each and in
/// their order; of the two bytes that carry marks, the bits that carry none are the
/// random ones.
pub proof fn ids_spell_their_bytes(b: Seq<u8>, i: int)
    requires
        b.len() == 16,
        0 <= i < 16,
    ensures
        ({
            let id = id_text(b, 16);
            let high = id[digits_at(i)];
            let low = id[digits_at(i) + 1];
            &&& i != 6 && i != 8 ==> high == "0123456789abcdef"@[b[i] as int / 16]
            &&& low == "0123456789abcdef"@[b[i] as int % 16]
            &&& i == 6 ==> high == '4'
            &&& i == 8 ==> high == "89ab"@[b[i] as int / 16 % 4]
        }),
{
    lemma_id_digits(b, 16, i);
    reveal_strlit("0123456789abcdef");
    reveal_strlit("89ab");
    let x = b[6];
    let y = b[8];
    assert(((x & 0x0f) | 0x40) % 16 == x % 16) by (bit_vector);
    assert(((y & 0x3f) | 0x80) % 16 == y % 16) by (bit_vector);
    assert(((x & 0x0f) | 0x40) / 16 == 4) by (bit_vector);
    assert(((y & 0x3f) | 0x80) / 16 == 8 + y / 16 % 4) by (bit_vector);
}

/// A request is turned away in words of its own for each reason.
pub proof fn refusals_have_their_words(e: String)
    ensures
        Refusal::BadBody.words() == "bad body"@,
        Refusal::BadJson(e).words() == "bad json: "@ + e@,
        Refusal::NeedPrompt.words() == "need prompt"@,
{
}

/// The headers that a request adds are those of its members that are strings, but
/// not empty, in their order, with their names.
pub proof fn headers_are_added_one_by_one(es: Seq<(Seq<char>, Tree)>, k: Seq<char>, t: Tree)
    ensures
        added_headers(seq![]).len() == 0,
        t matches Tree::Text(s) ==> added_headers(es.push((k, t))) == if s.len() > 0 {
            added_headers(es).push((k, s))
        } else {
            added_headers(es)
        },
        !(t is Text) ==> added_headers(es.push((k, t))) == added_headers(es),
{
    assert(es.push((k, t)).drop_last() =~= es);
}

/// A request names its session under `session` and its prompt under `prompt`, where
/// they are strings; its headers come behind those that stand for every request.
pub proof fn requests_are_read(
    q: ChatRequest,
    es: Seq<(Seq<char>, Tree)>,
    standing: Seq<(Seq<char>, Seq<char>)>,
)
    requires
        q.reads(Tree::Dict(es), standing),
    ensures
        lookup(es, "session"@) matches Some(Tree::Text(s)) ==> q.session@ == s,
        !(lookup(es, "session"@) matches Some(Tree::Text(_))) ==> q.session@.len() == 0,
        lookup(es, "prompt"@) matches Some(Tree::Text(s)) ==> q.prompt@ == s,
        !(lookup(es, "prompt"@) matches Some(Tree::Text(_))) ==> q.prompt@.len() == 0,
        pairs(q.headers@).take(standing.len() as int) == standing,
        lookup(es, "headers"@) matches Some(Tree::Dict(hs)) ==> pairs(q.headers@).skip(
            standing.len() as int,
        ) == added_headers(hs),
        !(lookup(es, "headers"@) matches Some(Tree::Dict(_))) ==> pairs(q.headers@) == standing,
{
    let hs = pairs(q.headers@);
    let more = added_headers(Tree::Dict(es).at("headers"@).members());
    assert(hs.take(standing.len() as int) =~= standing);
    assert(hs.skip(standing.len() as int) =~= more);
    if !(lookup(es, "headers"@) matches Some(Tree::Dict(_))) {
        assert(more.len() == 0);
        assert(hs =~= standing);
    }
}

/// A new session holds the instructions as a message of the system, where there are
/// any, and nothing else; it is idle.
pub proof fn new_sessions_hold_instructions(s: Seq<char>)
    ensures
        fresh(None).messages.len() == 0,
        fresh(Some(s)).messages.len() == 1,
        fresh(Some(s)).messages[0].tree().get("role"@) == Some(Tree::Text("system"@)),
        fresh(Some(s)).messages[0].tree().get("content"@) == Some(Tree::Text(s)),
        fresh(None).inbox.len() == 0 && fresh(Some(s)).inbox.len() == 0,
        !fresh(None).busy && !fresh(Some(s)).busy,
{
    plain_messages_are_written("system"@, s);
}

/// A prompt for an idle session makes it busy and nothing more; one for a busy
/// session waits behind the others, and nothing else changes.
pub proof fn prompts_are_taken_in(h: Holding, prompt: Seq<char>)
    ensures
        admitted(h, prompt).busy,
        admitted(h, prompt).messages == h.messages,
        !h.busy ==> admitted(h, prompt).inbox == h.inbox,
        h.busy ==> admitted(h, prompt).inbox == h.inbox.push(prompt),
{
}

/// Taking the messages out leaves the rest, taking the prompts out leaves the rest,
/// and coming to rest gives the messages back and leaves the prompts.
pub proof fn sessions_change_by_parts(h: Holding, ms: Seq<Message>)
    ensures
        without_messages(h).messages.len() == 0,
        without_messages(h).inbox == h.inbox,
        without_messages(h).busy == h.busy,
        without_inbox(h).inbox.len() == 0,
        without_inbox(h).messages == h.messages,
        without_inbox(h).busy == h.busy,
        settled(h, ms).messages == ms,
        settled(h, ms).inbox == h.inbox,
        !settled(h, ms).busy,
{
}

/// A session that is known is held as it is, whatever the instructions; one that is
/// not is a new one with them.
pub proof fn known_sessions_are_held(
    m: Map<Seq<char>, Holding>,
    id: Seq<char>,
    inst: Option<Seq<char>>,
)
    ensures
        m.contains_key(id) ==> held(m, id, inst) == m[id],
        !m.contains_key(id) ==> held(m, id, inst) == fresh(inst),
{
}

/// A turn begins with the messages of the session and, behind them, the prompt as a
/// message of the user; the first of them are pinned: two where the first is of the
/// system, and else one.
pub proof fn turns_begin_with_the_prompt(ms: Seq<Message>, prompt: Seq<char>)
    ensures
        ({
            let all = prompted(ms, prompt);
            &&& all.len() == ms.len() + 1
            &&& all.take(ms.len() as int) == ms
            &&& all.last().tree().get("role"@) == Some(Tree::Text("user"@))
            &&& all.last().tree().get("content"@) == Some(Tree::Text(prompt))
            &&& all.last().tree().get("tool_calls"@) is None
        }),
        ms.len() > 0 && ms[0].role == "system"@ ==> pinned(ms) == 2,
        ms.len() == 0 || ms[0].role != "system"@ ==> pinned(ms) == 1,
{
    assert(prompted(ms, prompt).take(ms.len() as int) =~= ms);
    plain_messages_are_written("user"@, prompt);
}

/// The log tells the session, what became of the prompt, and the prompt.
pub proof fn arrivals_are_told(session: Seq<char>, prompt: Seq<char>)
    ensures
        has_prefix(arrival_note(session, prompt, true), "session "@ + session + " queue "@),
        has_prefix(arrival_note(session, prompt, false), "session "@ + session + " prompt "@),
        has_suffix(arrival_note(session, prompt, true), prompt),
        has_suffix(arrival_note(session, prompt, false), prompt),
{
    let a = "session "@ + session + " queue "@;
    let b = "session "@ + session + " prompt "@;
    let x = arrival_note(session, prompt, true);
    let y = arrival_note(session, prompt, false);
    assert(x.take(a.len() as int) =~= a);
    assert(y.take(b.len() as int) =~= b);
    assert(x.skip(x.len() - prompt.len()) =~= prompt);
    assert(y.skip(y.len() - prompt.len()) =~= prompt);
}

} // verus!

//! The messages of a conversation: what is sent of them, and how long they are.

use vstd::arithmetic::div_mod::{
    lemma_add_mod_noop_right, lemma_mod_add_multiples_vanish, lemma_mod_twice, lemma_small_mod,
};
use vstd::prelude::*;
use vstd::slice::slice_to_vec;
use vstd::string::*;
use vstd::utf8::*;

use crate::json::{
    lemma_trees, lookup, put, put_commutes, put_then_lookup, put_twice, reading, Dict, Json,
};
use crate::text::same;
use crate::value::{quoted, read_bytes, tree_text, Tree};

verus! {

/// What a message says.
pub struct Message {
    pub role: Seq<char>,
    pub content: Option<Tree>,
    pub tool_calls: Option<Tree>,
    pub tool_call_id: Option<Seq<char>>,
}

/// A message of a conversation.
#[derive(Debug, PartialEq)]
pub struct Msg {
    pub role: String,
    pub content: Option<Json>,
    pub tool_calls: Option<Json>,
    pub tool_call_id: Option<String>,
}

/// The document in an optional field.
pub open spec fn tree_in(j: Option<Json>) -> Option<Tree> {
    match j {
        Some(j) => Some(j@),
        None => None,
    }
}

/// The text in an optional field.
pub open spec fn text_in(s: Option<String>) -> Option<Seq<char>> {
    match s {
        Some(s) => Some(s@),
        None => None,
    }
}

impl Msg {
    /// What the message says.
    pub open spec fn view(&self) -> Message {
        Message {
            role: self.role@,
            content: tree_in(self.content),
            tool_calls: tree_in(self.tool_calls),
            tool_call_id: text_in(self.tool_call_id),
        }
    }

    /// What the messages say, one by one.
    pub open spec fn views(ms: Seq<Msg>) -> Seq<Message> {
        Seq::new(ms.len(), |i: int| ms[i]@)
    }
}

impl Clone for Msg {
    fn clone(&self) -> (r: Msg)
        ensures
            r@ == self@,
    {
        let content = match &self.content {
            Some(j) => Some(j.clone()),
            None => None,
        };
        let tool_calls = match &self.tool_calls {
            Some(j) => Some(j.clone()),
            None => None,
        };
        let tool_call_id = match &self.tool_call_id {
            Some(s) => Some(s.clone()),
            None => None,
        };
        Msg { role: self.role.clone(), content, tool_calls, tool_call_id }
    }
}

impl Message {
    /// A message that holds a text alone.
    pub open spec fn plain(role: Seq<char>, text: Seq<char>) -> Message {
        Message { role, content: Some(Tree::Text(text)), tool_calls: None, tool_call_id: None }
    }

    /// The message as a member of the list of messages of a request: an object
    /// with the fields that are there.
    pub open spec fn tree(self) -> Tree {
        let a = put(seq![], "role"@, Tree::Text(self.role));
        let b = match self.content {
            Some(t) => put(a, "content"@, t),
            None => a,
        };
        let c = match self.tool_calls {
            Some(t) => put(b, "tool_calls"@, t),
            None => b,
        };
        let d = match self.tool_call_id {
            Some(s) => put(c, "tool_call_id"@, Tree::Text(s)),
            None => c,
        };
        Tree::Dict(d)
    }

    /// The messages as the list of messages of a request.
    pub open spec fn list(ms: Seq<Message>) -> Tree {
        Tree::List(Seq::new(ms.len(), |i: int| ms[i].tree()))
    }
}

impl Msg {
    /// A message that holds a text alone.
    pub fn plain(role: &str, text: String) -> (r: Msg)
        ensures
            r@ == Message::plain(role@, text@),
    {
        Msg {
            role: role.to_string(),
            content: Some(Json::Text(text)),
            tool_calls: None,
            tool_call_id: None,
        }
    }

    /// The message as a JSON object.
    pub fn to_json(&self) -> (r: Json)
        ensures
            r@ == self@.tree(),
    {
        let mut d = Dict::new();
        d.insert("role".to_string(), Json::Text(self.role.clone()));
        match &self.content {
            Some(j) => d.insert("content".to_string(), j.clone()),
            None => {},
        }
        match &self.tool_calls {
            Some(j) => d.insert("tool_calls".to_string(), j.clone()),
            None => {},
        }
        match &self.tool_call_id {
            Some(s) => d.insert("tool_call_id".to_string(), Json::Text(s.clone())),
            None => {},
        }
        Json::Dict(d)
    }
}

/// The messages as a JSON list.
pub fn to_list(ms: &Vec<Msg>) -> (r: Json)
    ensures
        r@ == Message::list(Msg::views(ms@)),
{
    let mut out: Vec<Json> = Vec::new();
    for i in 0..ms.len()
        invariant
            out@.len() == i,
            forall|j: int| 0 <= j < i ==> (#[trigger] out@[j])@ == ms@[j]@.tree(),
    {
        out.push(ms[i].to_json());
    }
    proof {
        broadcast use lemma_trees;
        assert(Json::trees(out@) =~= Message::list(Msg::views(ms@))->List_0);
    }
    Json::List(out)
}

/// The message of a tool with its output left out.
pub open spec fn blanked(m: Message) -> Message {
    Message {
        role: "tool"@,
        content: Some(Tree::Text(seq![])),
        tool_calls: None,
        tool_call_id: m.tool_call_id,
    }
}

/// The messages that are sent when the conversation has grown long: all but the
/// first `pin` and the last `keep` go without the output of tools.
pub open spec fn sent(pin: int, keep: int, ms: Seq<Message>) -> Seq<Message> {
    Seq::new(
        ms.len(),
        |i: int|
            if pin <= i < ms.len() - keep && ms[i].role == "tool"@ {
                blanked(ms[i])
            } else {
                ms[i]
            },
    )
}

/// The messages that are sent when the conversation has grown long.
pub fn send(pin: usize, keep: usize, msgs: &Vec<Msg>) -> (r: Vec<Msg>)
    ensures
        Msg::views(r@) == sent(pin as int, keep as int, Msg::views(msgs@)),
{
    let tail: usize = if msgs.len() > keep {
        msgs.len() - keep
    } else {
        0
    };
    let mut out: Vec<Msg> = Vec::new();
    for i in 0..msgs.len()
        invariant
            tail == if msgs@.len() > keep {
                msgs@.len() - keep
            } else {
                0
            },
            out@.len() == i,
            forall|j: int|
                0 <= j < i ==> (#[trigger] out@[j])@ == sent(
                    pin as int,
                    keep as int,
                    Msg::views(msgs@),
                )[j],
    {
        if pin <= i && i < tail && same(&msgs[i].role, "tool") {
            let tool_call_id = match &msgs[i].tool_call_id {
                Some(s) => Some(s.clone()),
                None => None,
            };
            out.push(
                Msg {
                    role: "tool".to_string(),
                    content: Some(Json::Text(String::new())),
                    tool_calls: None,
                    tool_call_id,
                },
            );
        } else {
            out.push(msgs[i].clone());
        }
    }
    assert(Msg::views(out@) =~= sent(pin as int, keep as int, Msg::views(msgs@)));
    out
}

/// A message in the form of a document, with its content left out where its role
/// is that of a tool.
pub open spec fn masked_one(t: Tree) -> Tree {
    match t {
        Tree::Dict(es) => if lookup(es, "role"@) == Some(Tree::Text("tool"@)) {
            Tree::Dict(put(es, "content"@, Tree::Text(seq![])))
        } else {
            t
        },
        _ => t,
    }
}

/// The messages, in the form of documents, that are sent when the conversation
/// has grown long: all but the first `pin` and the last `keep` go without the
/// output of tools.
pub open spec fn masked(pin: int, keep: int, ts: Seq<Tree>) -> Seq<Tree> {
    Seq::new(
        ts.len(),
        |i: int|
            if pin <= i < ts.len() - keep {
                masked_one(ts[i])
            } else {
                ts[i]
            },
    )
}

fn mask_one(m: &Json) -> (r: Json)
    ensures
        r@ == masked_one(m@),
{
    match m {
        Json::Dict(d) => {
            let tool = match d.get("role") {
                Some(Json::Text(s)) => same(s, "tool"),
                _ => false,
            };
            if tool {
                let mut o = d.clone();
                o.insert("content".to_string(), Json::Text(String::new()));
                Json::Dict(o)
            } else {
                m.clone()
            }
        },
        _ => m.clone(),
    }
}

/// The messages, in the form of documents, that are sent when the conversation
/// has grown long.
pub fn mask(pin: usize, keep: usize, msgs: &Vec<Json>) -> (r: Vec<Json>)
    ensures
        Json::trees(r@) == masked(pin as int, keep as int, Json::trees(msgs@)),
{
    let tail: usize = if msgs.len() > keep {
        msgs.len() - keep
    } else {
        0
    };
    let mut out: Vec<Json> = Vec::new();
    for i in 0..msgs.len()
        invariant
            tail == if msgs@.len() > keep {
                msgs@.len() - keep
            } else {
                0
            },
            out@.len() == i,
            forall|j: int|
                0 <= j < i ==> (#[trigger] out@[j])@ == masked(
                    pin as int,
                    keep as int,
                    Json::trees(msgs@),
                )[j],
    {
        broadcast use lemma_trees;

        if pin <= i && i < tail {
            out.push(mask_one(&msgs[i]));
        } else {
            out.push(msgs[i].clone());
        }
    }
    proof {
        broadcast use lemma_trees;
        assert(Json::trees(out@) =~= masked(pin as int, keep as int, Json::trees(msgs@)));
    }
    out
}

/// The number of bytes of the text of an optional document.
pub open spec fn tree_len(t: Option<Tree>) -> nat {
    match t {
        Some(t) => encode_utf8(tree_text(t)).len(),
        None => 0,
    }
}

/// The number of bytes of a text.
pub open spec fn text_len(s: Seq<char>) -> nat {
    encode_utf8(s).len()
}

/// The length of a message: its role, its content and its tool calls.
pub open spec fn message_len(m: Message) -> nat {
    text_len(m.role) + tree_len(m.content) + tree_len(m.tool_calls)
}

/// The length of the messages together.
pub open spec fn messages_len(ms: Seq<Message>) -> nat
    decreases ms.len(),
{
    if ms.len() == 0 {
        0
    } else {
        messages_len(ms.drop_last()) + message_len(ms.last())
    }
}

/// The sum, in the range of a `usize`.
fn wrapped_sum(a: usize, b: usize) -> (r: usize)
    ensures
        r as int == (a + b) % (usize::MAX + 1),
{
    proof {
        let m = usize::MAX + 1;
        if a + b < m {
            lemma_small_mod((a + b) as nat, m as nat);
        } else {
            lemma_small_mod((a + b - m) as nat, m as nat);
            lemma_mod_add_multiples_vanish(a + b - m, m);
        }
    }
    a.wrapping_add(b)
}

/// The length `n` of what came before, with three more lengths.
fn lengthen(n: usize, a: usize, b: usize, c: usize) -> (r: usize)
    ensures
        forall|x: int|
            #![trigger x % (usize::MAX + 1)]
            n as int == x % (usize::MAX + 1) ==> r as int == (x + a + b + c) % (usize::MAX + 1),
{
    let r = wrapped_sum(wrapped_sum(wrapped_sum(n, a), b), c);
    proof {
        let m = usize::MAX + 1;
        assert forall|x: int| #![trigger x % m] n as int == x % m implies r as int == (x + a + b
            + c) % m by {
            lemma_add_mod_noop_right(a as int, x, m);
            lemma_add_mod_noop_right(b as int, x + a, m);
            lemma_add_mod_noop_right(c as int, x + a + b, m);
        }
    }
    r
}

fn text_size(j: Option<&Json>) -> (r: usize)
    ensures
        j matches Some(j) ==> (j@ matches Tree::Text(s) ==> quoted(s, tree_text(j@))),
        r == tree_len(
            match j {
                Some(j) => Some(j@),
                None => None,
            },
        ),
{
    match j {
        Some(j) => j.to_text().as_str().as_bytes().len(),
        None => 0,
    }
}

/// A content that is a string takes the room of a JSON string.
pub open spec fn weighed(m: Message) -> bool {
    m.content matches Some(Tree::Text(s)) ==> quoted(s, tree_text(Tree::Text(s)))
}

/// The contents that are strings take the room of JSON strings.
pub open spec fn all_weighed(ms: Seq<Message>) -> bool {
    forall|i: int| 0 <= i < ms.len() ==> weighed(#[trigger] ms[i])
}

/// The length of the messages together, in the range of a `usize`.
pub fn chars(msgs: &Vec<Msg>) -> (r: usize)
    ensures
        r as int == messages_len(Msg::views(msgs@)) as int % (usize::MAX + 1),
        all_weighed(Msg::views(msgs@)),
{
    let ghost ms = Msg::views(msgs@);
    let mut n: usize = 0;
    proof {
        lemma_small_mod(0, (usize::MAX + 1) as nat);
    }
    for i in 0..msgs.len()
        invariant
            ms == Msg::views(msgs@),
            n as int == messages_len(ms.take(i as int)) as int % (usize::MAX + 1),
            forall|j: int| 0 <= j < i ==> weighed(#[trigger] ms[j]),
    {
        let m = &msgs[i];
        assert(ms.take(i + 1).drop_last() =~= ms.take(i as int));
        let role: usize = m.role.as_str().as_bytes().len();
        let content: usize = text_size(m.content.as_ref());
        let calls: usize = text_size(m.tool_calls.as_ref());
        n = lengthen(n, role, content, calls);
    }
    assert(ms.take(msgs@.len() as int) =~= ms);
    n
}

/// The length of a message in the form of a document: its role, its content and
/// its tool calls.
pub open spec fn document_len(t: Tree) -> nat {
    text_len(t.at("role"@).str_or_empty()) + tree_len(t.get("content"@)) + tree_len(
        t.get("tool_calls"@),
    )
}

/// The length of the messages, in the form of documents, together.
pub open spec fn documents_len(ts: Seq<Tree>) -> nat
    decreases ts.len(),
{
    if ts.len() == 0 {
        0
    } else {
        documents_len(ts.drop_last()) + document_len(ts.last())
    }
}

/// The length of the list of messages that was read from `size` bytes, or, where
/// no list was read, of the bytes themselves; in the range of a `u32`.
pub open spec fn read_len(parsed: Result<Tree, Seq<char>>, size: int) -> int {
    match parsed {
        Ok(Tree::List(ts)) => documents_len(ts) as int % 0x1_0000_0000,
        _ => size % 0x1_0000_0000,
    }
}

/// The length of the list of messages that the bytes spell, or, where they spell
/// no list, of the bytes themselves; in the range of a `u32`.
pub open spec fn bytes_len(raw: Seq<u8>) -> int {
    read_len(read_bytes(raw), raw.len() as int)
}

/// The low 32 bits.
fn low_half(n: usize) -> (r: u32)
    ensures
        r as int == n as int % 0x1_0000_0000,
{
    let w: u64 = n as u64;
    proof {
        assert(w as u32 == w % 0x1_0000_0000) by (bit_vector);
    }
    w as u32
}

proof fn lemma_low_half(x: int)
    requires
        x >= 0,
    ensures
        x % (usize::MAX + 1) % 0x1_0000_0000 == x % 0x1_0000_0000,
{
    let m = usize::MAX + 1;
    let q = x / m;
    if m == 0x1_0000_0000 {
        lemma_mod_twice(x, m);
    } else {
        assert(m == 0x1_0000_0000_0000_0000);
        assert(x % 0x1_0000_0000_0000_0000int % 0x1_0000_0000int == x % 0x1_0000_0000int);
    }
}

fn documents_size(arr: &Vec<Json>) -> (r: usize)
    ensures
        r as int == documents_len(Json::trees(arr@)) as int % (usize::MAX + 1),
{
    let ghost ts = Json::trees(arr@);
    let mut n: usize = 0;
    proof {
        lemma_small_mod(0, (usize::MAX + 1) as nat);
    }
    for i in 0..arr.len()
        invariant
            ts == Json::trees(arr@),
            n as int == documents_len(ts.take(i as int)) as int % (usize::MAX + 1),
    {
        broadcast use lemma_trees;

        let m = &arr[i];
        assert(ts.take(i + 1).drop_last() =~= ts.take(i as int));
        let role: usize = m.at("role").str_or_empty().as_bytes().len();
        let content: usize = text_size(m.get("content"));
        let calls: usize = text_size(m.get("tool_calls"));
        n = lengthen(n, role, content, calls);
    }
    proof {
        broadcast use lemma_trees;
        assert(ts.take(arr@.len() as int) =~= ts);
    }
    n
}

/// The length of the list of messages that was read from `size` bytes, or, where
/// no list was read, of the bytes themselves.
pub fn measure(parsed: &Result<Json, String>, size: usize) -> (r: u32)
    ensures
        r as int == read_len(reading(*parsed), size as int),
{
    match parsed {
        Ok(Json::List(arr)) => {
            let n = documents_size(arr);
            proof {
                lemma_low_half(documents_len(Json::trees(arr@)) as int);
            }
            low_half(n)
        },
        _ => low_half(size),
    }
}

/// The length of the list of messages that the bytes spell, or, where they spell
/// no list, of the bytes themselves.
pub fn min_chars(raw: &[u8]) -> (r: u32)
    ensures
        r as int == bytes_len(raw@),
{
    measure(&Json::parse_bytes(raw), raw.len())
}

/// The bytes of the list of messages that was read from `raw`, masked; where no
/// list was read, `raw` itself.
pub open spec fn compacted(
    parsed: Result<Tree, Seq<char>>,
    raw: Seq<u8>,
    pin: int,
    keep: int,
) -> Seq<u8> {
    match parsed {
        Ok(Tree::List(ts)) => encode_utf8(tree_text(Tree::List(masked(pin, keep, ts)))),
        _ => raw,
    }
}

/// The list of messages that was read from `raw`, without the output of tools but
/// in the first `pin` and the last `keep` messages; where no list was read, `raw`
/// itself.
pub fn compact(parsed: &Result<Json, String>, raw: &[u8], pin: u32, keep: u32) -> (r: Vec<u8>)
    ensures
        r@ == compacted(reading(*parsed), raw@, pin as int, keep as int),
{
    match parsed {
        Ok(Json::List(arr)) => Json::List(mask(pin as usize, keep as usize, arr)).to_bytes(),
        _ => slice_to_vec(raw),
    }
}

/// The list of messages that the bytes spell, without the output of tools but in
/// the first `pin` and the last `keep` messages.
pub fn min_compact(raw: &[u8], pin: u32, keep: u32) -> (r: Vec<u8>)
    ensures
        r@ == compacted(read_bytes(raw@), raw@, pin as int, keep as int),
{
    compact(&Json::parse_bytes(raw), raw, pin, keep)
}

/// Masking keeps the number of messages, the first `pin` and the last `keep`.
pub proof fn masking_keeps_ends(pin: int, keep: int, ts: Seq<Tree>)
    requires
        0 <= pin,
        0 <= keep,
    ensures
        masked(pin, keep, ts).len() == ts.len(),
        forall|i: int|
            0 <= i < ts.len() && (i < pin || i >= ts.len() - keep) ==> #[trigger] masked(
                pin,
                keep,
                ts,
            )[i] == ts[i],
{
}

/// Masking changes nothing of a message but the content of a tool's message,
/// which becomes empty.
pub proof fn masking_changes_content_only(pin: int, keep: int, ts: Seq<Tree>, i: int, k: Seq<char>)
    requires
        0 <= i < ts.len(),
    ensures
        k != "content"@ ==> masked(pin, keep, ts)[i].get(k) == ts[i].get(k),
        ts[i].get("role"@) != Some(Tree::Text("tool"@)) ==> masked(pin, keep, ts)[i] == ts[i],
        pin <= i < ts.len() - keep && ts[i].get("role"@) == Some(Tree::Text("tool"@)) ==> masked(
            pin,
            keep,
            ts,
        )[i].get("content"@) == Some(Tree::Text(seq![])),
{
    match ts[i] {
        Tree::Dict(es) => {
            put_then_lookup(es, "content"@, Tree::Text(seq![]), k);
            put_then_lookup(es, "content"@, Tree::Text(seq![]), "content"@);
        },
        _ => {},
    }
}

proof fn lemma_mask_one_twice(t: Tree)
    ensures
        masked_one(masked_one(t)) == masked_one(t),
{
    match t {
        Tree::Dict(es) => {
            put_twice(es, "content"@, Tree::Text(seq![]), Tree::Text(seq![]));
        },
        _ => {},
    }
}

/// Masking what is masked changes nothing.
pub proof fn masking_idempotent(pin: int, keep: int, ts: Seq<Tree>)
    ensures
        masked(pin, keep, masked(pin, keep, ts)) == masked(pin, keep, ts),
{
    let once = masked(pin, keep, ts);
    let twice = masked(pin, keep, once);
    assert forall|i: int| 0 <= i < ts.len() implies twice[i] == once[i] by {
        lemma_mask_one_twice(ts[i]);
    }
    assert(twice =~= once);
}

/// Masking again with fewer messages left whole is masking with those alone.
pub proof fn masking_again(pin: int, keep: int, less: int, fewer: int, ts: Seq<Tree>)
    requires
        less <= pin,
        fewer <= keep,
    ensures
        masked(less, fewer, masked(pin, keep, ts)) == masked(less, fewer, ts),
{
    let once = masked(pin, keep, ts);
    let twice = masked(less, fewer, once);
    assert forall|i: int| 0 <= i < ts.len() implies twice[i] == masked(less, fewer, ts)[i] by {
        lemma_mask_one_twice(ts[i]);
    }
    assert(twice =~= masked(less, fewer, ts));
}

/// Sending again with fewer messages left whole is sending with those alone.
pub proof fn sending_again(pin: int, keep: int, less: int, fewer: int, ms: Seq<Message>)
    requires
        less <= pin,
        fewer <= keep,
    ensures
        sent(less, fewer, sent(pin, keep, ms)) == sent(less, fewer, ms),
{
    assert(sent(less, fewer, sent(pin, keep, ms)) =~= sent(less, fewer, ms));
}

/// What is sent has the same number of messages, with the same roles and call
/// identifiers; the first `pin` and the last `keep` are as they were.
pub proof fn sending_keeps_shape(pin: int, keep: int, ms: Seq<Message>)
    requires
        0 <= pin,
        0 <= keep,
    ensures
        sent(pin, keep, ms).len() == ms.len(),
        forall|i: int|
            0 <= i < ms.len() ==> (#[trigger] sent(pin, keep, ms)[i]).role == ms[i].role && sent(
                pin,
                keep,
                ms,
            )[i].tool_call_id == ms[i].tool_call_id,
        forall|i: int|
            0 <= i < ms.len() && (i < pin || i >= ms.len() - keep) ==> #[trigger] sent(
                pin,
                keep,
                ms,
            )[i] == ms[i],
{
}

/// What was sent once is sent unchanged.
pub proof fn sending_idempotent(pin: int, keep: int, ms: Seq<Message>)
    ensures
        sent(pin, keep, sent(pin, keep, ms)) == sent(pin, keep, ms),
{
    assert(sent(pin, keep, sent(pin, keep, ms)) =~= sent(pin, keep, ms));
}

proof fn lemma_lengths(a: Seq<Message>, b: Seq<Message>)
    requires
        a.len() == b.len(),
        forall|i: int|
            0 <= i < a.len() ==> #[trigger] message_len(a[i]) <= #[trigger] message_len(b[i]),
    ensures
        messages_len(a) <= messages_len(b),
    decreases a.len(),
{
    if a.len() > 0 {
        assert forall|i: int| 0 <= i < a.len() - 1 implies #[trigger] message_len(a.drop_last()[i])
            <= #[trigger] message_len(b.drop_last()[i]) by {
            assert(message_len(a[i]) <= message_len(b[i]));
        }
        lemma_lengths(a.drop_last(), b.drop_last());
        assert(message_len(a[a.len() - 1]) <= message_len(b[b.len() - 1]));
    }
}

/// Every message of a tool has a string for its content.
pub open spec fn outputs_are_texts(ms: Seq<Message>) -> bool {
    forall|i: int|
        0 <= i < ms.len() && (#[trigger] ms[i]).role == "tool"@ ==> ms[i].content matches Some(
            Tree::Text(_),
        )
}

/// Keeping fewer messages whole never sends more, and sending never sends more than
/// there is; reckoned in the range of a `usize` too, where the messages fit into it.
/// What is known of the contents is what `chars` finds when it measures them.
pub proof fn keeping_fewer_sends_less(pin: int, fewer: int, keep: int, ms: Seq<Message>)
    requires
        fewer <= keep,
        outputs_are_texts(ms),
        all_weighed(ms),
        all_weighed(sent(pin, fewer, ms)),
    ensures
        messages_len(sent(pin, fewer, ms)) <= messages_len(sent(pin, keep, ms)),
        messages_len(sent(pin, fewer, ms)) <= messages_len(ms),
        messages_len(ms) <= usize::MAX ==> messages_len(sent(pin, fewer, ms)) as int % (usize::MAX
            + 1) <= messages_len(ms) as int % (usize::MAX + 1),
        messages_len(sent(pin, keep, ms)) <= usize::MAX ==> messages_len(
            sent(pin, fewer, ms),
        ) as int % (usize::MAX + 1) <= messages_len(sent(pin, keep, ms)) as int % (usize::MAX + 1),
{
    let a = sent(pin, fewer, ms);
    let b = sent(pin, keep, ms);
    assert forall|i: int| 0 <= i < ms.len() implies message_len(a[i]) <= message_len(ms[i])
        && message_len(a[i]) <= message_len(b[i]) by {
        if pin <= i < ms.len() - fewer && ms[i].role == "tool"@ {
            assert(weighed(ms[i]));
            assert(weighed(a[i]));
        }
    }
    lemma_lengths(a, b);
    lemma_lengths(a, ms);
    if messages_len(ms) <= usize::MAX {
        lemma_small_mod(messages_len(ms), (usize::MAX + 1) as nat);
        lemma_small_mod(messages_len(a), (usize::MAX + 1) as nat);
    }
    if messages_len(b) <= usize::MAX {
        lemma_small_mod(messages_len(b), (usize::MAX + 1) as nat);
        lemma_small_mod(messages_len(a), (usize::MAX + 1) as nat);
    }
}

proof fn lemma_tool_keys()
    ensures
        "content"@ != "role"@,
        "content"@ != "tool_call_id"@,
        "content"@ != "tool_calls"@,
        "role"@ != "tool_call_id"@,
        "role"@ != "tool_calls"@,
        "tool_calls"@ != "tool_call_id"@,
{
    reveal_strlit("content");
    reveal_strlit("role");
    reveal_strlit("tool_call_id");
    reveal_strlit("tool_calls");
    assert("content"@[0] != "role"@[0]);
    assert("content"@[0] != "tool_call_id"@[0]);
    assert("content"@[0] != "tool_calls"@[0]);
    assert("role"@[0] != "tool_call_id"@[0]);
    assert("role"@[0] != "tool_calls"@[0]);
    assert("tool_calls"@.len() != "tool_call_id"@.len());
}

proof fn lemma_role_in_tree(m: Message)
    ensures
        m.tree().get("role"@) == Some(Tree::Text(m.role)),
{
    lemma_tool_keys();
    let none: Seq<(Seq<char>, Tree)> = seq![];
    let a = put(none, "role"@, Tree::Text(m.role));
    put_then_lookup(none, "role"@, Tree::Text(m.role), "role"@);
    let b = match m.content {
        Some(t) => put(a, "content"@, t),
        None => a,
    };
    if m.content is Some {
        put_then_lookup(a, "content"@, m.content->0, "role"@);
    }
    let c = match m.tool_calls {
        Some(t) => put(b, "tool_calls"@, t),
        None => b,
    };
    if m.tool_calls is Some {
        put_then_lookup(b, "tool_calls"@, m.tool_calls->0, "role"@);
    }
    if m.tool_call_id is Some {
        put_then_lookup(c, "tool_call_id"@, Tree::Text(m.tool_call_id->0), "role"@);
    }
}

/// Masking the list of messages of a request is making the list of the messages
/// that are sent, where no message of a tool carries tool calls.
pub proof fn masking_is_sending(pin: int, keep: int, ms: Seq<Message>)
    requires
        forall|i: int|
            0 <= i < ms.len() && (#[trigger] ms[i]).role == "tool"@ ==> ms[i].tool_calls is None,
    ensures
        Message::list(sent(pin, keep, ms)) == Tree::List(
            masked(pin, keep, Message::list(ms)->List_0),
        ),
{
    let ts = Message::list(ms)->List_0;
    let left = Message::list(sent(pin, keep, ms))->List_0;
    let right = masked(pin, keep, ts);
    assert forall|i: int| 0 <= i < ms.len() implies left[i] == right[i] by {
        let m = ms[i];
        lemma_role_in_tree(m);
        assert(ts[i] == m.tree());
        if pin <= i < ms.len() - keep && m.role == "tool"@ {
            lemma_tool_keys();
            let none: Seq<(Seq<char>, Tree)> = seq![];
            let e = Tree::Text(Seq::<char>::empty());
            let a = put(none, "role"@, Tree::Text(m.role));
            let b = match m.content {
                Some(t) => put(a, "content"@, t),
                None => a,
            };
            assert(put(b, "content"@, e) == put(a, "content"@, e)) by {
                if m.content is Some {
                    put_twice(a, "content"@, m.content->0, e);
                }
            }
            if m.tool_call_id is Some {
                put_commutes(b, "tool_call_id"@, Tree::Text(m.tool_call_id->0), "content"@, e);
            }
        }
    }
    assert(left =~= right);
}

/// A message is written as an object with its role, with its content, calls and
/// call identifier where it has them, and with nothing else.
pub proof fn messages_are_written(m: Message, k: Seq<char>)
    ensures
        m.tree() is Dict,
        m.tree().get("role"@) == Some(Tree::Text(m.role)),
        m.tree().get("content"@) == m.content,
        m.tree().get("tool_calls"@) == m.tool_calls,
        m.tool_call_id matches Some(s) ==> m.tree().get("tool_call_id"@) == Some(Tree::Text(s)),
        m.tool_call_id is None ==> m.tree().get("tool_call_id"@) is None,
        k != "role"@ && k != "content"@ && k != "tool_calls"@ && k != "tool_call_id"@
            ==> m.tree().get(k) is None,
{
    lemma_tool_keys();
    lemma_message_lookup(m, "role"@);
    lemma_message_lookup(m, "content"@);
    lemma_message_lookup(m, "tool_calls"@);
    lemma_message_lookup(m, "tool_call_id"@);
    lemma_message_lookup(m, k);
}

proof fn lemma_message_lookup(m: Message, k: Seq<char>)
    ensures
        m.tree().get(k) == if k == "tool_call_id"@ && m.tool_call_id is Some {
            Some(Tree::Text(m.tool_call_id->0))
        } else if k == "tool_calls"@ && m.tool_calls is Some {
            m.tool_calls
        } else if k == "content"@ && m.content is Some {
            m.content
        } else if k == "role"@ {
            Some(Tree::Text(m.role))
        } else {
            None
        },
{
    let none: Seq<(Seq<char>, Tree)> = seq![];
    let a = put(none, "role"@, Tree::Text(m.role));
    put_then_lookup(none, "role"@, Tree::Text(m.role), k);
    let b = match m.content {
        Some(t) => put(a, "content"@, t),
        None => a,
    };
    if m.content is Some {
        put_then_lookup(a, "content"@, m.content->0, k);
    }
    let c = match m.tool_calls {
        Some(t) => put(b, "tool_calls"@, t),
        None => b,
    };
    if m.tool_calls is Some {
        put_then_lookup(b, "tool_calls"@, m.tool_calls->0, k);
    }
    if m.tool_call_id is Some {
        put_then_lookup(c, "tool_call_id"@, Tree::Text(m.tool_call_id->0), k);
    }
}

/// A list of messages has one item for each, in their order.
pub proof fn lists_are_written(ms: Seq<Message>, i: int)
    requires
        0 <= i < ms.len(),
    ensures
        Message::list(ms).items().len() == ms.len(),
        Message::list(ms).items()[i] == ms[i].tree(),
{
}

/// A message that holds a text alone is written with its role and this text.
pub proof fn plain_messages_are_written(role: Seq<char>, text: Seq<char>)
    ensures
        ({
            let t = Message::plain(role, text).tree();
            &&& t.get("role"@) == Some(Tree::Text(role))
            &&& t.get("content"@) == Some(Tree::Text(text))
            &&& t.get("tool_calls"@) is None
            &&& t.get("tool_call_id"@) is None
        }),
{
    messages_are_written(Message::plain(role, text), "role"@);
}

/// Between the first `pin` and the last `keep` messages, what is sent of a message of
/// a tool is its role and its call identifier, with an empty content; every other
/// message is sent as it is.
pub proof fn sending_blanks_outputs(pin: int, keep: int, ms: Seq<Message>, i: int)
    requires
        0 <= i < ms.len(),
        pin <= i < ms.len() - keep,
    ensures
        ms[i].role == "tool"@ ==> {
            let m = sent(pin, keep, ms)[i];
            &&& m.role == "tool"@
            &&& m.content == Some(Tree::Text(seq![]))
            &&& m.tool_calls is None
            &&& m.tool_call_id == ms[i].tool_call_id
        },
        ms[i].role != "tool"@ ==> sent(pin, keep, ms)[i] == ms[i],
{
}

/// The length of messages is the sum of their lengths; that of one message is the
/// number of bytes of its role and of the JSON texts of its content and its calls.
pub proof fn lengths_add_up(ms: Seq<Message>, m: Message)
    ensures
        messages_len(seq![]) == 0,
        messages_len(ms.push(m)) == messages_len(ms) + messages_len(seq![m]),
        messages_len(seq![m]) == encode_utf8(m.role).len() + (match m.content {
            Some(t) => encode_utf8(tree_text(t)).len(),
            None => 0,
        }) + (match m.tool_calls {
            Some(t) => encode_utf8(tree_text(t)).len(),
            None => 0,
        }),
{
    assert(ms.push(m).drop_last() =~= ms);
    assert(seq![m].drop_last() =~= seq![]);
    assert(messages_len(seq![]) == 0);
    assert(messages_len(seq![m].drop_last()) == 0);
}

/// The length of a list of documents is the sum of their lengths; that of one is the
/// number of bytes of its role, where that is a string, and of the JSON texts of its
/// content and its calls.
pub proof fn document_lengths_add_up(ts: Seq<Tree>, t: Tree)
    ensures
        documents_len(seq![]) == 0,
        documents_len(ts.push(t)) == documents_len(ts) + documents_len(seq![t]),
        documents_len(seq![t]) == (match t.get("role"@) {
            Some(Tree::Text(s)) => encode_utf8(s).len(),
            _ => 0,
        }) + (match t.get("content"@) {
            Some(u) => encode_utf8(tree_text(u)).len(),
            None => 0,
        }) + (match t.get("tool_calls"@) {
            Some(u) => encode_utf8(tree_text(u)).len(),
            None => 0,
        }),
{
    assert(ts.push(t).drop_last() =~= ts);
    assert(seq![t].drop_last() =~= seq![]);
    assert(documents_len(seq![]) == 0);
    assert(documents_len(seq![t].drop_last()) == 0);
    assert(encode_utf8(seq![]).len() == 0);
}

/// Messages in the form of documents are as long as the messages themselves.
pub proof fn lengths_agree(ms: Seq<Message>)
    ensures
        documents_len(Message::list(ms).items()) == messages_len(ms),
    decreases ms.len(),
{
    let ts = Message::list(ms).items();
    if ms.len() > 0 {
        lengths_agree(ms.drop_last());
        assert(ts.drop_last() =~= Message::list(ms.drop_last()).items());
        messages_are_written(ms.last(), "role"@);
        assert(ts.last() == ms.last().tree());
        assert(document_len(ts.last()) == message_len(ms.last()));
    }
}

/// What was read as a list has the length of its messages, and everything else that
/// of its bytes, as long as a `u32` can hold it.
pub proof fn reading_decides_the_length(t: Tree, words: Seq<char>, size: int)
    requires
        0 <= size < 0x1_0000_0000,
    ensures
        t matches Tree::List(ts) ==> (documents_len(ts) < 0x1_0000_0000 ==> read_len(Ok(t), size)
            == documents_len(ts)),
        !(t is List) ==> read_len(Ok(t), size) == size,
        read_len(Err(words), size) == size,
{
}

/// What was read as a list is written anew, masked; everything else stays byte by
/// byte.
pub proof fn compacting_lists_alone(t: Tree, words: Seq<char>, raw: Seq<u8>, pin: int, keep: int)
    ensures
        t matches Tree::List(ts) ==> compacted(Ok(t), raw, pin, keep) == encode_utf8(
            tree_text(Tree::List(masked(pin, keep, ts))),
        ),
        !(t is List) ==> compacted(Ok(t), raw, pin, keep) == raw,
        compacted(Err(words), raw, pin, keep) == raw,
{
}

/// A message says what its fields hold.
pub proof fn messages_say_their_fields(ms: Seq<Msg>, i: int)
    requires
        0 <= i < ms.len(),
    ensures
        Msg::views(ms).len() == ms.len(),
        Msg::views(ms)[i].role == ms[i].role@,
        ms[i].content matches Some(j) ==> Msg::views(ms)[i].content == Some(j@),
        ms[i].content is None ==> Msg::views(ms)[i].content is None,
        ms[i].tool_calls matches Some(j) ==> Msg::views(ms)[i].tool_calls == Some(j@),
        ms[i].tool_calls is None ==> Msg::views(ms)[i].tool_calls is None,
        ms[i].tool_call_id matches Some(s) ==> Msg::views(ms)[i].tool_call_id == Some(s@),
        ms[i].tool_call_id is None ==> Msg::views(ms)[i].tool_call_id is None,
{
}

/// Bytes are measured by what they are read as.
pub proof fn bytes_are_measured(raw: Seq<u8>)
    ensures
        bytes_len(raw) == read_len(read_bytes(raw), raw.len() as int),
{
}

} // verus!

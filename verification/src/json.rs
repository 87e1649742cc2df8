//! JSON documents as plain data, with the operations on their members.

use vstd::prelude::*;

use crate::order::{before, before_irreflexive, before_total, before_transitive, place, Place};
use crate::text::same;
use crate::value::{
    ascending, close, json_error_to_string, number_as_u64, number_clone, number_text,
    number_to_string, number_u64, open, quoted, read_bytes, read_text, read_yaml, tree_text,
    value_from_slice, value_from_str, value_from_yaml, value_to_string, value_to_vec, value_tree,
    yaml_error_to_string, Layer, Tree,
};

verus! {

/// The member of `es` under the key `k`.
pub open spec fn lookup(es: Seq<(Seq<char>, Tree)>, k: Seq<char>) -> Option<Tree>
    decreases es.len(),
{
    if es.len() == 0 {
        None
    } else if es[0].0 == k {
        Some(es[0].1)
    } else {
        lookup(es.drop_first(), k)
    }
}

/// `es` with `t` under the key `k`, at the place that the order gives it.
pub open spec fn put(es: Seq<(Seq<char>, Tree)>, k: Seq<char>, t: Tree) -> Seq<(Seq<char>, Tree)>
    decreases es.len(),
{
    if es.len() == 0 {
        seq![(k, t)]
    } else if es[0].0 == k {
        seq![(k, t)] + es.drop_first()
    } else if before(es[0].0, k) {
        seq![es[0]] + put(es.drop_first(), k, t)
    } else {
        seq![(k, t)] + es
    }
}

/// `es` without the member under the key `k`.
pub open spec fn without(es: Seq<(Seq<char>, Tree)>, k: Seq<char>) -> Seq<(Seq<char>, Tree)>
    decreases es.len(),
{
    if es.len() == 0 {
        es
    } else if es[0].0 == k {
        es.drop_first()
    } else {
        seq![es[0]] + without(es.drop_first(), k)
    }
}

impl Tree {
    /// The member under the key `k`, where this is an object that has one.
    pub open spec fn get(self, k: Seq<char>) -> Option<Tree> {
        match self {
            Tree::Dict(es) => lookup(es, k),
            _ => None,
        }
    }

    /// The member under the key `k`, or null.
    pub open spec fn at(self, k: Seq<char>) -> Tree {
        match self.get(k) {
            Some(t) => t,
            None => Tree::Null,
        }
    }

    /// The first element, where this is a list that has one, or null.
    pub open spec fn head(self) -> Tree {
        match self {
            Tree::List(ts) => if ts.len() > 0 {
                ts[0]
            } else {
                Tree::Null
            },
            _ => Tree::Null,
        }
    }

    /// The text, where this is a string.
    pub open spec fn str(self) -> Option<Seq<char>> {
        match self {
            Tree::Text(s) => Some(s),
            _ => None,
        }
    }

    /// The text, where this is a string, and else the empty text.
    pub open spec fn str_or_empty(self) -> Seq<char> {
        match self {
            Tree::Text(s) => s,
            _ => seq![],
        }
    }

    /// The elements, where this is a list, and else none.
    pub open spec fn items(self) -> Seq<Tree> {
        match self {
            Tree::List(ts) => ts,
            _ => seq![],
        }
    }

    /// The members, where this is an object, and else none.
    pub open spec fn members(self) -> Seq<(Seq<char>, Tree)> {
        match self {
            Tree::Dict(es) => es,
            _ => seq![],
        }
    }

    /// The scalar as text, where this is a string, a number or a truth value.
    pub open spec fn scalar(self) -> Option<Seq<char>> {
        match self {
            Tree::Text(s) => Some(s),
            Tree::Number(n) => Some(number_text(n)),
            Tree::Bool(b) => Some(
                if b {
                    "true"@
                } else {
                    "false"@
                },
            ),
            _ => None,
        }
    }

    /// The number, where this is one that a `u64` can hold.
    pub open spec fn uint(self) -> Option<u64> {
        match self {
            Tree::Number(n) => number_u64(n),
            _ => None,
        }
    }
}

/// A JSON document.
#[derive(Debug, PartialEq)]
pub enum Json {
    Null,
    Bool(bool),
    Number(serde_json::Number),
    Text(String),
    List(Vec<Json>),
    Dict(Dict),
}

/// The members of a JSON object, in the order of their keys.
#[derive(Debug, PartialEq)]
pub struct Dict {
    entries: Vec<(String, Json)>,
}

/// What came of reading a document: the document, or the words of the error.
pub open spec fn reading(r: Result<Json, String>) -> Result<Tree, Seq<char>> {
    match r {
        Ok(j) => Ok(j@),
        Err(e) => Err(e@),
    }
}

impl Json {
    /// The document.
    pub open spec fn view(&self) -> Tree
        decreases self,
    {
        match self {
            Json::Null => Tree::Null,
            Json::Bool(b) => Tree::Bool(*b),
            Json::Number(n) => Tree::Number(*n),
            Json::Text(s) => Tree::Text(s@),
            Json::List(vs) => Tree::List(Json::trees(vs@)),
            Json::Dict(d) => Tree::Dict(d.view()),
        }
    }

    /// The documents of a sequence, one by one.
    pub open spec fn trees(vs: Seq<Json>) -> Seq<Tree>
        decreases vs,
    {
        Seq::new(
            vs.len(),
            |i: int|
                if 0 <= i < vs.len() {
                    vs[i].view()
                } else {
                    Tree::Null
                },
        )
    }
}

impl Dict {
    /// The members, in the order of their keys.
    pub closed spec fn view(&self) -> Seq<(Seq<char>, Tree)>
        decreases self,
    {
        Dict::members(self.entries@)
    }

    closed spec fn members(es: Seq<(String, Json)>) -> Seq<(Seq<char>, Tree)>
        decreases es,
    {
        Seq::new(
            es.len(),
            |i: int|
                if 0 <= i < es.len() {
                    (es[i].0@, es[i].1.view())
                } else {
                    (seq![], Tree::Null)
                },
        )
    }

    #[verifier::type_invariant]
    closed spec fn inv(self) -> bool {
        ascending(self.view())
    }
}

/// The documents of a sequence are those of its elements.
pub broadcast proof fn lemma_trees(vs: Seq<Json>)
    ensures
        #![trigger Json::trees(vs)]
        Json::trees(vs).len() == vs.len(),
        forall|i: int| 0 <= i < vs.len() ==> #[trigger] Json::trees(vs)[i] == vs[i]@,
{
}

broadcast proof fn lemma_members(es: Seq<(String, Json)>)
    ensures
        #![trigger Dict::members(es)]
        Dict::members(es).len() == es.len(),
        forall|i: int|
            0 <= i < es.len() ==> #[trigger] Dict::members(es)[i] == (es[i].0@, es[i].1@),
{
}

/// Putting a member in keeps the order of the keys.
pub proof fn put_keeps_order(es: Seq<(Seq<char>, Tree)>, k: Seq<char>, t: Tree)
    requires
        ascending(es),
    ensures
        ascending(put(es, k, t)),
    decreases es.len(),
{
    if es.len() == 0 {
    } else if es[0].0 == k {
        let r = put(es, k, t);
        assert forall|i: int, j: int| 0 <= i < j < r.len() implies before(
            #[trigger] r[i].0,
            #[trigger] r[j].0,
        ) by {
            assert(r[i].0 == es[i].0);
            assert(r[j].0 == es[j].0);
        }
    } else if before(es[0].0, k) {
        let rest = es.drop_first();
        assert(ascending(rest)) by {
            assert forall|i: int, j: int| 0 <= i < j < rest.len() implies before(
                #[trigger] rest[i].0,
                #[trigger] rest[j].0,
            ) by {
                assert(rest[i].0 == es[i + 1].0);
                assert(rest[j].0 == es[j + 1].0);
            }
        }
        put_keeps_order(rest, k, t);
        let tail = put(rest, k, t);
        let r = put(es, k, t);
        assert forall|i: int, j: int| 0 <= i < j < r.len() implies before(
            #[trigger] r[i].0,
            #[trigger] r[j].0,
        ) by {
            assert(r[j] == tail[j - 1]);
            if i == 0 {
                lemma_put_keys(rest, k, t, j - 1);
                if tail[j - 1].0 != k {
                    let m = choose|m: int| 0 <= m < rest.len() && rest[m].0 == tail[j - 1].0;
                    assert(rest[m].0 == es[m + 1].0);
                    assert(before(es[0].0, es[m + 1].0));
                }
            } else {
                assert(r[i] == tail[i - 1]);
            }
        }
    } else {
        before_total(es[0].0, k);
        let r = put(es, k, t);
        assert forall|i: int, j: int| 0 <= i < j < r.len() implies before(
            #[trigger] r[i].0,
            #[trigger] r[j].0,
        ) by {
            assert(r[j] == es[j - 1]);
            if i == 0 {
                if j > 1 {
                    assert(before(es[0].0, es[j - 1].0));
                    before_transitive(k, es[0].0, es[j - 1].0);
                }
            } else {
                assert(r[i] == es[i - 1]);
            }
        }
    }
}

proof fn lemma_put_keys(es: Seq<(Seq<char>, Tree)>, k: Seq<char>, t: Tree, i: int)
    requires
        0 <= i < put(es, k, t).len(),
    ensures
        put(es, k, t)[i].0 == k || exists|m: int| 0 <= m < es.len() && es[m].0 == put(es, k, t)[i].0,
    decreases es.len(),
{
    let r = put(es, k, t);
    if es.len() == 0 {
    } else if es[0].0 == k {
        if i > 0 {
            assert(r[i] == es[i]);
        }
    } else if before(es[0].0, k) {
        if i == 0 {
            assert(r[0] == es[0]);
        } else {
            let rest = es.drop_first();
            assert(r[i] == put(rest, k, t)[i - 1]);
            lemma_put_keys(rest, k, t, i - 1);
            if r[i].0 != k {
                let m = choose|m: int| 0 <= m < rest.len() && rest[m].0 == r[i].0;
                assert(es[m + 1].0 == r[i].0);
            }
        }
    } else if i > 0 {
        assert(r[i] == es[i - 1]);
    }
}

/// What was put in is found, and every other member is found as it was.
pub proof fn put_then_lookup(es: Seq<(Seq<char>, Tree)>, k: Seq<char>, t: Tree, j: Seq<char>)
    ensures
        lookup(put(es, k, t), j) == if j == k {
            Some(t)
        } else {
            lookup(es, j)
        },
    decreases es.len(),
{
    let r = put(es, k, t);
    if es.len() == 0 {
        assert(r.drop_first() =~= es);
    } else if es[0].0 == k {
        assert(r.drop_first() =~= es.drop_first());
    } else if before(es[0].0, k) {
        assert(r[0] == es[0]);
        put_then_lookup(es.drop_first(), k, t, j);
        assert(r.drop_first() =~= put(es.drop_first(), k, t));
    } else {
        assert(r.drop_first() =~= es);
    }
}

/// What was put in twice under a key is as if only the second had been put in.
pub proof fn put_twice(es: Seq<(Seq<char>, Tree)>, k: Seq<char>, s: Tree, t: Tree)
    ensures
        put(put(es, k, s), k, t) == put(es, k, t),
    decreases es.len(),
{
    let r = put(es, k, s);
    if es.len() == 0 {
        assert(r.drop_first() =~= seq![]);
        assert(put(r, k, t) =~= put(es, k, t));
    } else if es[0].0 == k {
        assert(r.drop_first() =~= es.drop_first());
    } else if before(es[0].0, k) {
        put_twice(es.drop_first(), k, s, t);
        assert(r.drop_first() =~= put(es.drop_first(), k, s));
    } else {
        assert(r.drop_first() =~= es);
    }
}

proof fn lemma_before_asymmetric(a: Seq<char>, b: Seq<char>)
    requires
        before(a, b),
    ensures
        !before(b, a),
        a != b,
{
    before_irreflexive(a);
    if before(b, a) {
        before_transitive(a, b, a);
    }
}

/// Members under different keys can be put in in either order.
pub proof fn put_commutes(
    es: Seq<(Seq<char>, Tree)>,
    j: Seq<char>,
    s: Tree,
    k: Seq<char>,
    t: Tree,
)
    requires
        j != k,
    ensures
        put(put(es, j, s), k, t) == put(put(es, k, t), j, s),
    decreases es.len(),
{
    before_total(j, k);
    if before(j, k) {
        lemma_before_asymmetric(j, k);
    } else {
        lemma_before_asymmetric(k, j);
    }
    let a = put(es, j, s);
    let b = put(es, k, t);
    if es.len() == 0 {
        assert(a.drop_first() =~= es);
        assert(b.drop_first() =~= es);
        assert(put(a, k, t) =~= put(b, j, s));
    } else {
        let f = es[0].0;
        let rest = es.drop_first();
        before_total(f, j);
        before_total(f, k);
        if before(f, j) {
            lemma_before_asymmetric(f, j);
            if before(k, f) {
                before_transitive(k, f, j);
            }
        }
        if before(f, k) {
            lemma_before_asymmetric(f, k);
            if before(j, f) {
                before_transitive(j, f, k);
            }
        }
        if before(j, f) {
            lemma_before_asymmetric(j, f);
        }
        if before(k, f) {
            lemma_before_asymmetric(k, f);
        }
        put_commutes(rest, j, s, k, t);
        if f == j {
            assert(a.drop_first() =~= rest);
        } else if before(f, j) {
            assert(a.drop_first() =~= put(rest, j, s));
        } else {
            assert(a.drop_first() =~= es);
        }
        if f == k {
            assert(b.drop_first() =~= rest);
        } else if before(f, k) {
            assert(b.drop_first() =~= put(rest, k, t));
        } else {
            assert(b.drop_first() =~= es);
        }
        assert(put(a, k, t) =~= put(b, j, s));
    }
}

/// Taking a member out keeps the order of the keys.
pub proof fn without_keeps_order(es: Seq<(Seq<char>, Tree)>, k: Seq<char>)
    requires
        ascending(es),
    ensures
        ascending(without(es, k)),
{
    lemma_without(es, k);
    let r = without(es, k);
    if r.len() < es.len() {
        let p = choose|p: int| 0 <= p < es.len() && r == es.remove(p);
        assert forall|i: int, j: int| 0 <= i < j < r.len() implies before(
            #[trigger] r[i].0,
            #[trigger] r[j].0,
        ) by {
            let m = if i < p {
                i
            } else {
                i + 1
            };
            let n = if j < p {
                j
            } else {
                j + 1
            };
            assert(r[i].0 == es[m].0);
            assert(r[j].0 == es[n].0);
        }
    }
}

proof fn lemma_without(es: Seq<(Seq<char>, Tree)>, k: Seq<char>)
    ensures
        without(es, k) == es || exists|p: int|
            0 <= p < es.len() && without(es, k) == #[trigger] es.remove(p),
    decreases es.len(),
{
    if es.len() == 0 {
    } else if es[0].0 == k {
        assert(es.drop_first() =~= es.remove(0));
    } else {
        let rest = es.drop_first();
        lemma_without(rest, k);
        if without(rest, k) == rest {
            assert(without(es, k) =~= es);
        } else {
            let p = choose|p: int| 0 <= p < rest.len() && without(rest, k) == #[trigger] rest.remove(p);
            assert(without(es, k) =~= es.remove(p + 1));
        }
    }
}

/// What was taken out is not found, and every other member is found as it was.
pub proof fn without_then_lookup(es: Seq<(Seq<char>, Tree)>, k: Seq<char>, j: Seq<char>)
    requires
        ascending(es),
    ensures
        lookup(without(es, k), j) == if j == k {
            None
        } else {
            lookup(es, j)
        },
    decreases es.len(),
{
    if es.len() > 0 {
        let rest = es.drop_first();
        assert(ascending(rest)) by {
            assert forall|a: int, b: int| 0 <= a < b < rest.len() implies before(
                #[trigger] rest[a].0,
                #[trigger] rest[b].0,
            ) by {
                assert(rest[a].0 == es[a + 1].0);
                assert(rest[b].0 == es[b + 1].0);
            }
        }
        if es[0].0 == k {
            if j == k {
                if lookup(rest, k) is Some {
                    lemma_lookup_index(rest, k);
                    let m = choose|m: int| 0 <= m < rest.len() && rest[m].0 == k;
                    assert(es[m + 1].0 == k);
                    before_irreflexive(k);
                }
            }
        } else {
            without_then_lookup(rest, k, j);
            assert(without(es, k).drop_first() =~= without(rest, k));
        }
    }
}

proof fn lemma_lookup_index(es: Seq<(Seq<char>, Tree)>, k: Seq<char>)
    requires
        lookup(es, k) is Some,
    ensures
        exists|m: int| 0 <= m < es.len() && es[m].0 == k,
    decreases es.len(),
{
    if es[0].0 != k {
        let rest = es.drop_first();
        lemma_lookup_index(rest, k);
        let m = choose|m: int| 0 <= m < rest.len() && rest[m].0 == k;
        assert(es[m + 1].0 == k);
    }
}

impl Clone for Json {
    fn clone(&self) -> (r: Json)
        ensures
            r@ == self@,
        decreases self,
    {
        match self {
            Json::Null => Json::Null,
            Json::Bool(b) => Json::Bool(*b),
            Json::Number(n) => Json::Number(number_clone(n)),
            Json::Text(s) => Json::Text(s.clone()),
            Json::List(vs) => {
                let mut out: Vec<Json> = Vec::new();
                for i in 0..vs.len()
                    invariant
                        out@.len() == i,
                        decreases_to!(self => vs@),
                        forall|j: int| 0 <= j < i ==> (#[trigger] out@[j])@ == vs@[j]@,
                {
                    out.push(vs[i].clone());
                }
                proof {
                    broadcast use lemma_trees;
                    assert(Json::trees(out@) =~= Json::trees(vs@));
                }
                Json::List(out)
            },
            Json::Dict(d) => Json::Dict(d.clone()),
        }
    }
}

impl Clone for Dict {
    fn clone(&self) -> (r: Dict)
        ensures
            r@ == self@,
        decreases self,
    {
        proof {
            use_type_invariant(self);
        }
        let mut out: Vec<(String, Json)> = Vec::new();
        for i in 0..self.entries.len()
            invariant
                out@.len() == i,
                forall|j: int| 0 <= j < i ==> (#[trigger] out@[j]).0@ == self.entries@[j].0@,
                forall|j: int| 0 <= j < i ==> (#[trigger] out@[j]).1@ == self.entries@[j].1@,
        {
            let k = self.entries[i].0.clone();
            let v = self.entries[i].1.clone();
            out.push((k, v));
        }
        proof {
            broadcast use lemma_members;
            assert(Dict::members(out@) =~= Dict::members(self.entries@));
        }
        Dict { entries: out }
    }
}

/// A lookup in the first members that does not find the key goes on in the rest.
proof fn lemma_lookup_skip(es: Seq<(Seq<char>, Tree)>, k: Seq<char>, i: int)
    requires
        0 <= i <= es.len(),
        forall|j: int| 0 <= j < i ==> (#[trigger] es[j]).0 != k,
    ensures
        lookup(es, k) == lookup(es.skip(i), k),
    decreases i,
{
    if i == 0 {
        assert(es.skip(0) =~= es);
    } else {
        let rest = es.drop_first();
        assert forall|j: int| 0 <= j < i - 1 implies (#[trigger] rest[j]).0 != k by {
            assert(rest[j] == es[j + 1]);
        }
        assert(es[0].0 != k);
        lemma_lookup_skip(rest, k, i - 1);
        assert(rest.skip(i - 1) =~= es.skip(i));
    }
}

proof fn lemma_without_skip(es: Seq<(Seq<char>, Tree)>, k: Seq<char>, i: int)
    requires
        0 <= i <= es.len(),
        forall|j: int| 0 <= j < i ==> (#[trigger] es[j]).0 != k,
    ensures
        without(es, k) == es.take(i) + without(es.skip(i), k),
    decreases i,
{
    if i == 0 {
        assert(es.skip(0) =~= es);
        assert(es.take(0) + without(es, k) =~= without(es, k));
    } else {
        let rest = es.drop_first();
        assert forall|j: int| 0 <= j < i - 1 implies (#[trigger] rest[j]).0 != k by {
            assert(rest[j] == es[j + 1]);
        }
        assert(es[0].0 != k);
        lemma_without_skip(rest, k, i - 1);
        assert(rest.skip(i - 1) =~= es.skip(i));
        assert(without(es, k) =~= es.take(i) + without(es.skip(i), k));
    }
}

proof fn lemma_put_skip(es: Seq<(Seq<char>, Tree)>, k: Seq<char>, t: Tree, i: int)
    requires
        0 <= i <= es.len(),
        forall|j: int| 0 <= j < i ==> before((#[trigger] es[j]).0, k),
    ensures
        put(es, k, t) == es.take(i) + put(es.skip(i), k, t),
    decreases i,
{
    if i == 0 {
        assert(es.skip(0) =~= es);
        assert(es.take(0) + put(es, k, t) =~= put(es, k, t));
    } else {
        let rest = es.drop_first();
        assert forall|j: int| 0 <= j < i - 1 implies before((#[trigger] rest[j]).0, k) by {
            assert(rest[j] == es[j + 1]);
        }
        assert(before(es[0].0, k));
        before_irreflexive(k);
        lemma_put_skip(rest, k, t, i - 1);
        assert(rest.skip(i - 1) =~= es.skip(i));
        assert(put(es, k, t) =~= es.take(i) + put(es.skip(i), k, t));
    }
}

impl Dict {
    /// An object without members.
    pub fn new() -> (r: Dict)
        ensures
            r@ == Seq::<(Seq<char>, Tree)>::empty(),
    {
        let entries: Vec<(String, Json)> = Vec::new();
        proof {
            broadcast use lemma_members;
            assert(Dict::members(entries@) =~= seq![]);
        }
        Dict { entries }
    }

    /// The members stand in the order of their keys, so no key occurs twice.
    pub fn ordered(&self)
        ensures
            ascending(self@),
    {
        proof {
            use_type_invariant(self);
        }
    }

    /// The number of members.
    pub fn len(&self) -> (r: usize)
        ensures
            r == self@.len(),
    {
        proof {
            broadcast use lemma_members;
        }
        self.entries.len()
    }

    /// The key of the member at position `i`.
    pub fn key(&self, i: usize) -> (r: &String)
        requires
            i < self@.len(),
        ensures
            r@ == self@[i as int].0,
    {
        proof {
            broadcast use lemma_members;
        }
        &self.entries[i].0
    }

    /// The value of the member at position `i`.
    pub fn value(&self, i: usize) -> (r: &Json)
        requires
            i < self@.len(),
        ensures
            r@ == self@[i as int].1,
    {
        proof {
            broadcast use lemma_members;
        }
        &self.entries[i].1
    }

    /// The member under the key `k`.
    pub fn get(&self, k: &str) -> (r: Option<&Json>)
        ensures
            match r {
                Some(j) => lookup(self@, k@) == Some(j@),
                None => lookup(self@, k@) is None,
            },
    {
        proof {
            broadcast use lemma_members;
        }
        for i in 0..self.entries.len()
            invariant
                forall|j: int| 0 <= j < i ==> (#[trigger] self@[j]).0 != k@,
                self@ == Dict::members(self.entries@),
        {
            proof {
                broadcast use lemma_members;
            }
            if same(&self.entries[i].0, k) {
                proof {
                    lemma_lookup_skip(self@, k@, i as int);
                    assert(self@.skip(i as int)[0] == self@[i as int]);
                }
                return Some(&self.entries[i].1);
            }
        }
        proof {
            lemma_lookup_skip(self@, k@, self@.len() as int);
        }
        None
    }

    /// The position at which the key `k` stands or would stand, and whether it
    /// stands there.
    fn spot(entries: &Vec<(String, Json)>, k: &str) -> (r: (usize, bool))
        ensures
            r.0 <= entries@.len(),
            forall|j: int| 0 <= j < r.0 ==> before((#[trigger] Dict::members(entries@)[j]).0, k@),
            r.1 ==> r.0 < entries@.len() && Dict::members(entries@)[r.0 as int].0 == k@,
            !r.1 && r.0 < entries@.len() ==> before(k@, Dict::members(entries@)[r.0 as int].0),
    {
        let ghost es = Dict::members(entries@);
        for i in 0..entries.len()
            invariant
                es == Dict::members(entries@),
                forall|j: int| 0 <= j < i ==> before((#[trigger] es[j]).0, k@),
        {
            proof {
                broadcast use lemma_members;
            }
            match place(&entries[i].0, k) {
                Place::Before => {},
                Place::Same => {
                    return (i, true);
                },
                Place::After => {
                    return (i, false);
                },
            }
        }
        (entries.len(), false)
    }

    /// Puts `v` under the key `k`, in place of what stood there.
    pub fn insert(&mut self, k: String, v: Json)
        ensures
            final(self)@ == put(old(self)@, k@, v@),
    {
        proof {
            use_type_invariant(&*self);
            broadcast use lemma_members;
        }
        let ghost es = self@;
        let mut entries: Vec<(String, Json)> = Vec::new();
        std::mem::swap(&mut entries, &mut self.entries);
        assert(es == Dict::members(entries@));
        let (i, found) = Dict::spot(&entries, &k);
        let ghost ov = v@;
        proof {
            put_keeps_order(es, k@, ov);
            lemma_put_skip(es, k@, ov, i as int);
            if i < es.len() {
                assert(es.skip(i as int)[0] == es[i as int]);
                before_irreflexive(k@);
                if before(k@, es[i as int].0) && before(es[i as int].0, k@) {
                    before_transitive(k@, es[i as int].0, k@);
                }
            }
        }
        if found {
            entries[i].1 = v;
            proof {
                broadcast use lemma_members;
                assert(Dict::members(entries@) =~= put(es, k@, ov));
            }
        } else {
            let ghost kv = k@;
            entries.insert(i, (k, v));
            proof {
                broadcast use lemma_members;
                assert(Dict::members(entries@) =~= put(es, kv, ov));
            }
        }
        self.entries = entries;
    }

    /// Takes out the member under the key `k`.
    pub fn remove(&mut self, k: &str) -> (r: Option<Json>)
        ensures
            final(self)@ == without(old(self)@, k@),
            match r {
                Some(j) => lookup(old(self)@, k@) == Some(j@),
                None => lookup(old(self)@, k@) is None,
            },
    {
        proof {
            use_type_invariant(&*self);
            broadcast use lemma_members;
        }
        let ghost es = self@;
        let mut entries: Vec<(String, Json)> = Vec::new();
        std::mem::swap(&mut entries, &mut self.entries);
        let mut i: usize = 0;
        while i < entries.len() && !same(&entries[i].0, k)
            invariant
                i <= entries@.len(),
                es == Dict::members(entries@),
                forall|j: int| 0 <= j < i ==> (#[trigger] es[j]).0 != k@,
            decreases entries@.len() - i,
        {
            proof {
                broadcast use lemma_members;
            }
            i = i + 1;
        }
        proof {
            broadcast use lemma_members;
            lemma_without_skip(es, k@, i as int);
            lemma_lookup_skip(es, k@, i as int);
            without_keeps_order(es, k@);
        }
        let r = if i < entries.len() {
            proof {
                assert(es.skip(i as int)[0] == es[i as int]);
            }
            let e = entries.remove(i);
            Some(e.1)
        } else {
            None
        };
        proof {
            broadcast use lemma_members;
            assert(Dict::members(entries@) =~= without(es, k@));
        }
        self.entries = entries;
        r
    }
}

impl Json {
    /// The string with the given text.
    pub fn text(s: &str) -> (r: Json)
        ensures
            r@ == Tree::Text(s@),
    {
        Json::Text(s.to_string())
    }

    /// The member under the key `k`, where this is an object that has one.
    pub fn get(&self, k: &str) -> (r: Option<&Json>)
        ensures
            match r {
                Some(j) => self@.get(k@) == Some(j@),
                None => self@.get(k@) is None,
            },
    {
        match self {
            Json::Dict(d) => d.get(k),
            _ => None,
        }
    }

    /// The member under the key `k`, or null.
    pub fn at(&self, k: &str) -> (r: &Json)
        ensures
            r@ == self@.at(k@),
    {
        match self.get(k) {
            Some(j) => j,
            None => &Json::Null,
        }
    }

    /// The first element, where this is a list that has one, or null.
    pub fn head(&self) -> (r: &Json)
        ensures
            r@ == self@.head(),
    {
        broadcast use lemma_trees;

        match self {
            Json::List(vs) => if vs.len() > 0 {
                &vs[0]
            } else {
                &Json::Null
            },
            _ => &Json::Null,
        }
    }

    /// The text, where this is a string.
    pub fn as_str(&self) -> (r: Option<&str>)
        ensures
            match r {
                Some(s) => self@.str() == Some(s@),
                None => self@.str() is None,
            },
    {
        match self {
            Json::Text(s) => Some(s.as_str()),
            _ => None,
        }
    }

    /// The text, where this is a string, and else the empty text.
    pub fn str_or_empty(&self) -> (r: &str)
        ensures
            r@ == self@.str_or_empty(),
    {
        match self {
            Json::Text(s) => s.as_str(),
            _ => {
                proof {
                    reveal_strlit("");
                    assert(""@ =~= seq![]);
                }
                ""
            },
        }
    }

    /// The number, where this is one that a `u64` can hold.
    pub fn as_u64(&self) -> (r: Option<u64>)
        ensures
            r == self@.uint(),
    {
        match self {
            Json::Number(n) => number_as_u64(n),
            _ => None,
        }
    }

    /// The document that a `serde_json` value holds.
    pub fn from_value(v: serde_json::Value) -> (r: Json)
        ensures
            r@ == value_tree(v),
        decreases value_tree(v),
    {
        let ghost t = value_tree(v);
        match open(v) {
            Layer::Null => Json::Null,
            Layer::Bool(b) => Json::Bool(b),
            Layer::Number(n) => Json::Number(n),
            Layer::Text(s) => Json::Text(s),
            Layer::List(vs) => {
                let ghost items = t->List_0;
                let mut out: Vec<Json> = Vec::new();
                for w in it: vs
                    invariant
                        t == value_tree(v),
                        t == Tree::List(items),
                        items == Seq::new(vs@.len(), |i: int| value_tree(vs@[i])),
                        it.seq() == vs@,
                        out@.len() == it.index(),
                        forall|j: int| 0 <= j < out@.len() ==> (#[trigger] out@[j])@ == items[j],
                {
                    assert(items[it.index() as int] == value_tree(w));
                    assert(decreases_to!(t => t->List_0));
                    assert(decreases_to!(items => items[it.index() as int]));
                    out.push(Json::from_value(w));
                }
                proof {
                    broadcast use lemma_trees;
                    assert(Json::trees(out@) =~= items);
                }
                Json::List(out)
            },
            Layer::Dict(es) => {
                let ghost mems = t->Dict_0;
                let mut out: Vec<(String, Json)> = Vec::new();
                for e in it: es
                    invariant
                        t == value_tree(v),
                        t == Tree::Dict(mems),
                        mems == Seq::new(es@.len(), |i: int| (es@[i].0@, value_tree(es@[i].1))),
                        it.seq() == es@,
                        out@.len() == it.index(),
                        forall|j: int| 0 <= j < out@.len() ==> (#[trigger] out@[j]).0@ == mems[j].0,
                        forall|j: int| 0 <= j < out@.len() ==> (#[trigger] out@[j]).1@ == mems[j].1,
                {
                    assert(mems[it.index() as int] == (e.0@, value_tree(e.1)));
                    assert(decreases_to!(t => t->Dict_0));
                    assert(decreases_to!(mems => mems[it.index() as int]));
                    assert(decreases_to!(mems[it.index() as int] => mems[it.index() as int].1));
                    out.push((e.0, Json::from_value(e.1)));
                }
                proof {
                    broadcast use lemma_members;
                    assert(Dict::members(out@) =~= mems);
                }
                Json::Dict(Dict { entries: out })
            },
        }
    }

    /// The document as a `serde_json` value.
    pub fn to_value(&self) -> (r: serde_json::Value)
        ensures
            value_tree(r) == self@,
        decreases self,
    {
        broadcast use lemma_trees;

        match self {
            Json::Null => close(Layer::Null),
            Json::Bool(b) => close(Layer::Bool(*b)),
            Json::Number(n) => close(Layer::Number(number_clone(n))),
            Json::Text(s) => close(Layer::Text(s.clone())),
            Json::List(vs) => {
                let mut out: Vec<serde_json::Value> = Vec::new();
                for i in 0..vs.len()
                    invariant
                        out@.len() == i,
                        decreases_to!(self => vs@),
                        forall|j: int| 0 <= j < i ==> value_tree(#[trigger] out@[j]) == vs@[j]@,
                {
                    out.push(vs[i].to_value());
                }
                let l = Layer::List(out);
                proof {
                    assert(l.tree()->List_0 =~= Json::trees(vs@));
                }
                close(l)
            },
            Json::Dict(d) => d.to_value(),
        }
    }
}

impl Dict {
    fn to_value(&self) -> (r: serde_json::Value)
        ensures
            value_tree(r) == Tree::Dict(self@),
        decreases self,
    {
        proof {
            use_type_invariant(self);
        }
        let mut out: Vec<(String, serde_json::Value)> = Vec::new();
        for i in 0..self.entries.len()
            invariant
                out@.len() == i,
                forall|j: int| 0 <= j < i ==> (#[trigger] out@[j]).0@ == self.entries@[j].0@,
                forall|j: int|
                    0 <= j < i ==> value_tree((#[trigger] out@[j]).1) == self.entries@[j].1@,
        {
            let k = self.entries[i].0.clone();
            out.push((k, self.entries[i].1.to_value()));
        }
        let l = Layer::Dict(out);
        proof {
            broadcast use lemma_members;
            assert(l.tree()->Dict_0 =~= Dict::members(self.entries@));
        }
        close(l)
    }
}

impl Json {
    /// The compact JSON text of the document.
    pub fn to_text(&self) -> (r: String)
        ensures
            r@ == tree_text(self@),
            self@ matches Tree::Text(s) ==> quoted(s, r@),
    {
        value_to_string(&self.to_value())
    }

    /// The bytes of the compact JSON text of the document.
    pub fn to_bytes(&self) -> (r: Vec<u8>)
        ensures
            r@ == vstd::utf8::encode_utf8(tree_text(self@)),
    {
        match value_to_vec(&self.to_value()) {
            Ok(b) => b,
            Err(_) => Vec::new(),
        }
    }

    /// The document that the bytes spell, or the text of the error.
    pub fn parse_bytes(raw: &[u8]) -> (r: Result<Json, String>)
        ensures
            match r {
                Ok(j) => read_bytes(raw@) == Ok::<Tree, Seq<char>>(j@),
                Err(e) => read_bytes(raw@) == Err::<Tree, Seq<char>>(e@),
            },
    {
        match value_from_slice(raw) {
            Ok(v) => Ok(Json::from_value(v)),
            Err(e) => Err(json_error_to_string(&e)),
        }
    }

    /// The document that the text spells, or the text of the error.
    pub fn parse_text(s: &str) -> (r: Result<Json, String>)
        ensures
            match r {
                Ok(j) => read_text(s@) == Ok::<Tree, Seq<char>>(j@),
                Err(e) => read_text(s@) == Err::<Tree, Seq<char>>(e@),
            },
    {
        match value_from_str(s) {
            Ok(v) => Ok(Json::from_value(v)),
            Err(e) => Err(json_error_to_string(&e)),
        }
    }

    /// The document that the YAML text spells, or the text of the error.
    pub fn parse_yaml(s: &str) -> (r: Result<Json, String>)
        ensures
            match r {
                Ok(j) => read_yaml(s@) == Ok::<Tree, Seq<char>>(j@),
                Err(e) => read_yaml(s@) == Err::<Tree, Seq<char>>(e@),
            },
    {
        match value_from_yaml(s) {
            Ok(v) => Ok(Json::from_value(v)),
            Err(e) => Err(yaml_error_to_string(&e)),
        }
    }

    /// The scalar as text, where this is a string, a number or a truth value.
    pub fn scalar_text(&self) -> (r: Option<String>)
        ensures
            match r {
                Some(s) => self@.scalar() == Some(s@),
                None => self@.scalar() is None,
            },
    {
        match self {
            Json::Text(s) => Some(s.clone()),
            Json::Number(n) => Some(number_to_string(n)),
            Json::Bool(b) => if *b {
                Some("true".to_string())
            } else {
                Some("false".to_string())
            },
            _ => None,
        }
    }
}

/// A member of an object is found under its key, and nothing is found under a key
/// that no member has.
pub proof fn lookup_finds_members(es: Seq<(Seq<char>, Tree)>, i: int, k: Seq<char>)
    requires
        ascending(es),
        0 <= i < es.len(),
    ensures
        lookup(es, es[i].0) == Some(es[i].1),
        (forall|j: int| 0 <= j < es.len() ==> (#[trigger] es[j]).0 != k) ==> lookup(es, k) is None,
    decreases es.len(),
{
    let rest = es.drop_first();
    assert forall|a: int, b: int| 0 <= a < b < rest.len() implies before(
        #[trigger] rest[a].0,
        #[trigger] rest[b].0,
    ) by {
        assert(rest[a].0 == es[a + 1].0);
        assert(rest[b].0 == es[b + 1].0);
    }
    if i > 0 {
        before_irreflexive(es[i].0);
        assert(before(es[0].0, es[i].0));
        lookup_finds_members(rest, i - 1, k);
    }
    if forall|j: int| 0 <= j < es.len() ==> (#[trigger] es[j]).0 != k {
        lemma_lookup_skip(es, k, es.len() as int);
        assert(es.skip(es.len() as int) =~= seq![]);
    }
}

/// Only an object has members; a member that is missing reads as null.
pub proof fn members_of_documents(t: Tree, k: Seq<char>)
    ensures
        t matches Tree::Dict(es) ==> t.get(k) == lookup(es, k) && t.members() == es,
        !(t is Dict) ==> t.get(k) is None && t.members().len() == 0,
        t.get(k) matches Some(u) ==> t.at(k) == u,
        t.get(k) is None ==> t.at(k) is Null,
{
}

/// A string reads as its text, a list as its items, and a number as `serde_json`
/// reads it; each of them has nothing of the others.
pub proof fn values_of_documents(t: Tree)
    ensures
        t matches Tree::Text(s) ==> t.str() == Some(s) && t.str_or_empty() == s && t.scalar()
            == Some(s),
        !(t is Text) ==> t.str() is None && t.str_or_empty().len() == 0,
        t matches Tree::List(ts) ==> t.items() == ts && (ts.len() > 0 ==> t.head() == ts[0]),
        !(t is List) ==> t.items().len() == 0,
        t.items().len() == 0 ==> t.head() is Null,
        t matches Tree::Number(n) ==> t.uint() == number_u64(n) && t.scalar() == Some(
            number_text(n),
        ),
        !(t is Number) ==> t.uint() is None,
        t matches Tree::Bool(b) ==> t.scalar() == Some(
            if b {
                "true"@
            } else {
                "false"@
            },
        ),
        t is Null || t is List || t is Dict ==> t.scalar() is None,
{
}

/// What came of reading is the document that was read, or the words of the error.
pub proof fn readings_are_kept(j: Json, e: String)
    ensures
        reading(Ok(j)) == Ok::<Tree, Seq<char>>(j@),
        reading(Err(e)) == Err::<Tree, Seq<char>>(e@),
{
}

/// A document of plain data says what it holds.
pub proof fn documents_say_what_they_hold(b: bool, n: serde_json::Number, s: String, d: Dict)
    ensures
        Json::Null@ is Null,
        Json::Bool(b)@ == Tree::Bool(b),
        Json::Number(n)@ == Tree::Number(n),
        Json::Text(s)@ == Tree::Text(s@),
        Json::Dict(d)@ == Tree::Dict(d@),
{
}

} // verus!

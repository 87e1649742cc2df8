//! JSON documents as values of `serde_json`, and the functions of `serde_json`
//! and `serde_yaml` that read and write them.

use vstd::prelude::*;
use vstd::utf8::*;

use crate::order::before;

verus! {

/// A JSON document.
///
/// A number is kept as `serde_json` holds it. The members of an object stand in
/// the order of their keys.
pub enum Tree {
    Null,
    Bool(bool),
    Number(serde_json::Number),
    Text(Seq<char>),
    List(Seq<Tree>),
    Dict(Seq<(Seq<char>, Tree)>),
}

/// The keys of the members stand in strictly ascending order, so none occurs
/// twice.
pub open spec fn ascending(es: Seq<(Seq<char>, Tree)>) -> bool {
    forall|i: int, j: int| 0 <= i < j < es.len() ==> before(#[trigger] es[i].0, #[trigger] es[j].0)
}

/// `serde_json::Value`, carried as a whole.
#[verifier::external_type_specification]
#[verifier::external_body]
pub struct ExValue(serde_json::Value);

/// `serde_json::Number`, carried as a whole.
#[verifier::external_type_specification]
#[verifier::external_body]
pub struct ExNumber(serde_json::Number);

/// `serde_json::Error`, carried as a whole.
#[verifier::external_type_specification]
#[verifier::external_body]
pub struct ExJsonError(serde_json::Error);

/// `serde_yaml::Error`, carried as a whole.
#[verifier::external_type_specification]
#[verifier::external_body]
pub struct ExYamlError(serde_yaml::Error);

/// The document that a `serde_json::Value` holds.
pub uninterp spec fn value_tree(v: serde_json::Value) -> Tree;

/// What `serde_json::from_slice` makes of the bytes: the document, or the text
/// of the error.
pub uninterp spec fn read_bytes(raw: Seq<u8>) -> Result<Tree, Seq<char>>;

/// What `serde_json::from_str` makes of the text: the document, or the text of
/// the error.
pub uninterp spec fn read_text(s: Seq<char>) -> Result<Tree, Seq<char>>;

/// What `serde_yaml::from_str` makes of the text: the document, or the text of
/// the error.
pub uninterp spec fn read_yaml(s: Seq<char>) -> Result<Tree, Seq<char>>;

/// The compact JSON text that `serde_json` writes for the document.
pub uninterp spec fn tree_text(t: Tree) -> Seq<char>;

/// The number as a `u64`, if it is an integer in that range.
pub uninterp spec fn number_u64(n: serde_json::Number) -> Option<u64>;

/// The text that `serde_json` prints for the number.
pub uninterp spec fn number_text(n: serde_json::Number) -> Seq<char>;

/// The text that `serde_json` prints for the error.
pub uninterp spec fn json_error_text(e: serde_json::Error) -> Seq<char>;

/// The text that `serde_yaml` prints for the error.
pub uninterp spec fn yaml_error_text(e: serde_yaml::Error) -> Seq<char>;

/// One layer of a document: a scalar, or the values directly below it.
pub enum Layer {
    Null,
    Bool(bool),
    Number(serde_json::Number),
    Text(String),
    List(Vec<serde_json::Value>),
    Dict(Vec<(String, serde_json::Value)>),
}

impl Layer {
    /// The document whose top layer this is.
    pub open spec fn tree(self) -> Tree {
        match self {
            Layer::Null => Tree::Null,
            Layer::Bool(b) => Tree::Bool(b),
            Layer::Number(n) => Tree::Number(n),
            Layer::Text(s) => Tree::Text(s@),
            Layer::List(vs) => Tree::List(Seq::new(vs@.len(), |i: int| value_tree(vs@[i]))),
            Layer::Dict(es) => Tree::Dict(
                Seq::new(es@.len(), |i: int| (es@[i].0@, value_tree(es@[i].1))),
            ),
        }
    }

    /// The members of an object stand in the order of their keys.
    pub open spec fn ordered(self) -> bool {
        match self.tree() {
            Tree::Dict(es) => ascending(es),
            _ => true,
        }
    }
}

/// Takes a `serde_json::Value` apart by its variant. Its map is a `BTreeMap` (the
/// feature `preserve_order` is off), whose members come in the order of their
/// keys, each key once.
#[verifier::external_body]
pub(crate) fn open(v: serde_json::Value) -> (r: Layer)
    ensures
        r.tree() == value_tree(v),
        r.ordered(),
{
    match v {
        serde_json::Value::Null => Layer::Null,
        serde_json::Value::Bool(b) => Layer::Bool(b),
        serde_json::Value::Number(n) => Layer::Number(n),
        serde_json::Value::String(s) => Layer::Text(s),
        serde_json::Value::Array(vs) => Layer::List(vs),
        serde_json::Value::Object(m) => Layer::Dict(m.into_iter().collect()),
    }
}

/// Puts a `serde_json::Value` together from its variant. The map collects all the
/// members, since their keys differ.
#[verifier::external_body]
pub(crate) fn close(l: Layer) -> (r: serde_json::Value)
    requires
        l.ordered(),
    ensures
        value_tree(r) == l.tree(),
{
    match l {
        Layer::Null => serde_json::Value::Null,
        Layer::Bool(b) => serde_json::Value::Bool(b),
        Layer::Number(n) => serde_json::Value::Number(n),
        Layer::Text(s) => serde_json::Value::String(s),
        Layer::List(vs) => serde_json::Value::Array(vs),
        Layer::Dict(es) => serde_json::Value::Object(es.into_iter().collect()),
    }
}

/// `serde_json::from_slice`: the document that the bytes spell, or an error.
#[verifier::external_body]
pub(crate) fn value_from_slice(raw: &[u8]) -> (r: Result<serde_json::Value, serde_json::Error>)
    ensures
        match r {
            Ok(v) => read_bytes(raw@) == Ok::<Tree, Seq<char>>(value_tree(v)),
            Err(e) => read_bytes(raw@) == Err::<Tree, Seq<char>>(json_error_text(e)),
        },
{
    serde_json::from_slice(raw)
}

/// `serde_json::from_str`: the document that the text spells, or an error.
#[verifier::external_body]
pub(crate) fn value_from_str(s: &str) -> (r: Result<serde_json::Value, serde_json::Error>)
    ensures
        match r {
            Ok(v) => read_text(s@) == Ok::<Tree, Seq<char>>(value_tree(v)),
            Err(e) => read_text(s@) == Err::<Tree, Seq<char>>(json_error_text(e)),
        },
{
    serde_json::from_str(s)
}

/// `serde_yaml::from_str`: the document that the text spells, or an error.
#[verifier::external_body]
pub(crate) fn value_from_yaml(s: &str) -> (r: Result<serde_json::Value, serde_yaml::Error>)
    ensures
        match r {
            Ok(v) => read_yaml(s@) == Ok::<Tree, Seq<char>>(value_tree(v)),
            Err(e) => read_yaml(s@) == Err::<Tree, Seq<char>>(yaml_error_text(e)),
        },
{
    serde_yaml::from_str(s)
}

/// The room that the text `s` takes as a JSON string `r`: two quotes, and for each
/// byte of it at least one.
pub open spec fn quoted(s: Seq<char>, r: Seq<char>) -> bool {
    &&& encode_utf8(r).len() >= encode_utf8(s).len() + 2
    &&& s.len() == 0 ==> encode_utf8(r).len() == 2
}

/// `Display` of `serde_json::Value`: the compact JSON text of the document. A
/// string is written between two quotes, its bytes as they are or, escaped, as
/// more of them.
#[verifier::external_body]
pub(crate) fn value_to_string(v: &serde_json::Value) -> (r: String)
    ensures
        r@ == tree_text(value_tree(*v)),
        value_tree(*v) matches Tree::Text(s) ==> quoted(s, r@),
{
    v.to_string()
}

/// `serde_json::to_vec` of a `serde_json::Value`: the bytes of the compact JSON
/// text. Every document can be written, since its keys are strings.
#[verifier::external_body]
pub(crate) fn value_to_vec(v: &serde_json::Value) -> (r: Result<Vec<u8>, serde_json::Error>)
    ensures
        r is Ok,
        r->Ok_0@ == encode_utf8(tree_text(value_tree(*v))),
{
    serde_json::to_vec(v)
}

/// `serde_json::Number::as_u64`: the number, if it is an integer that a `u64`
/// can hold.
#[verifier::external_body]
pub(crate) fn number_as_u64(n: &serde_json::Number) -> (r: Option<u64>)
    ensures
        r == number_u64(*n),
{
    n.as_u64()
}

/// `Display` of `serde_json::Number`: the text of the number.
#[verifier::external_body]
pub(crate) fn number_to_string(n: &serde_json::Number) -> (r: String)
    ensures
        r@ == number_text(*n),
{
    n.to_string()
}

/// `Clone` of `serde_json::Number`: an equal number.
#[verifier::external_body]
pub(crate) fn number_clone(n: &serde_json::Number) -> (r: serde_json::Number)
    ensures
        r == *n,
{
    n.clone()
}

/// `Display` of `serde_json::Error`: the text of the error.
#[verifier::external_body]
pub(crate) fn json_error_to_string(e: &serde_json::Error) -> (r: String)
    ensures
        r@ == json_error_text(*e),
{
    e.to_string()
}

/// `Display` of `serde_yaml::Error`: the text of the error.
#[verifier::external_body]
pub(crate) fn yaml_error_to_string(e: &serde_yaml::Error) -> (r: String)
    ensures
        r@ == yaml_error_text(*e),
{
    e.to_string()
}

} // verus!

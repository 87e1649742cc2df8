//! The settings: the command line, the configuration file, and the text that
//! stands in it for environment variables.

use vstd::prelude::*;
use vstd::string::*;
use vstd::utf8::*;

use crate::json::{
    lookup, put, put_then_lookup, reading, without, without_keeps_order, without_then_lookup, Dict,
    Json,
};
use crate::message::{text_in, tree_in};
use crate::text::{
    cat, has_prefix, join, joined, lemma_encoding_concat, lower, same, same_ignoring_case,
    starts_with,
};
use crate::tools::{load_tools, peeled, routes, tree_at};
use crate::value::{ascending, number_text, number_u64, read_text, read_yaml, Tree};

verus! {

/// What pairs of strings say.
pub open spec fn pairs(v: Seq<(String, String)>) -> Seq<(Seq<char>, Seq<char>)> {
    Seq::new(v.len(), |i: int| (v[i].0@, v[i].1@))
}

/// The value of the variable `name`: that of the first pair with this name, or
/// nothing.
pub open spec fn value_of(env: Seq<(Seq<char>, Seq<char>)>, name: Seq<char>) -> Seq<char>
    decreases env.len(),
{
    if env.len() == 0 {
        seq![]
    } else if env[0].0 == name {
        env[0].1
    } else {
        value_of(env.drop_first(), name)
    }
}

/// The bytes that the name of a variable can hold: letters, digits and `_`.
pub open spec fn name_byte(b: u8) -> bool {
    ||| 65 <= b <= 90
    ||| 97 <= b <= 122
    ||| 48 <= b <= 57
    ||| b == 95
}

/// The length of the name at the start of the bytes.
pub open spec fn name_len(b: Seq<u8>) -> int
    decreases b.len(),
{
    if b.len() > 0 && name_byte(b[0]) {
        1 + name_len(b.drop_first())
    } else {
        0
    }
}

/// The bytes as characters, each on its own.
pub open spec fn as_chars(b: Seq<u8>) -> Seq<char> {
    Seq::new(b.len(), |i: int| b[i] as char)
}

/// The bytes as characters, with the value of a variable in place of each `$`
/// with its name behind it.
pub open spec fn expanded_bytes(b: Seq<u8>, env: Seq<(Seq<char>, Seq<char>)>) -> Seq<char>
    decreases b.len(),
{
    if b.len() == 0 {
        seq![]
    } else {
        let n = name_len(b.drop_first());
        if b[0] == 36 && 0 < n < b.len() {
            value_of(env, as_chars(b.subrange(1, 1 + n))) + expanded_bytes(b.skip(1 + n), env)
        } else {
            seq![b[0] as char] + expanded_bytes(b.drop_first(), env)
        }
    }
}

/// The text with the values of variables in place of their names.
pub open spec fn expanded(s: Seq<char>, env: Seq<(Seq<char>, Seq<char>)>) -> Seq<char> {
    expanded_bytes(encode_utf8(s), env)
}

fn find_value(env: &Vec<(String, String)>, name: &str) -> (r: String)
    ensures
        r@ == value_of(pairs(env@), name@),
{
    let ghost es = pairs(env@);
    assert(es.skip(0) =~= es);
    for i in 0..env.len()
        invariant
            es == pairs(env@),
            value_of(es.skip(i as int), name@) == value_of(es, name@),
    {
        assert(es.skip(i as int)[0] == es[i as int]);
        assert(es.skip(i as int).drop_first() =~= es.skip(i + 1));
        if same(&env[i].0, name) {
            return env[i].1.clone();
        }
    }
    String::new()
}

/// The text with the values of variables in place of their names.
pub fn expand(s: &str, env: &Vec<(String, String)>) -> (r: String)
    ensures
        r@ == expanded(s@, pairs(env@)),
{
    let b = s.as_bytes();
    let ghost es = pairs(env@);
    let mut out = String::new();
    let mut i: usize = 0;
    assert(b@.skip(0) =~= b@);
    assert(out@ + expanded_bytes(b@, es) =~= expanded_bytes(b@, es));
    while i < b.len()
        invariant
            i <= b@.len(),
            es == pairs(env@),
            out@ + expanded_bytes(b@.skip(i as int), es) == expanded_bytes(b@, es),
        decreases b@.len() - i,
    {
        let ghost rest = b@.skip(i as int);
        proof {
            assert(rest.drop_first() =~= b@.skip(i + 1));
            assert(rest[0] == b@[i as int]);
        }
        let mut done = false;
        if b[i] == 36 {
            let start: usize = i + 1;
            let mut j: usize = start;
            let mut name = String::new();
            assert(name@ =~= as_chars(b@.subrange(start as int, start as int)));
            while j < b.len() && ((65 <= b[j] && b[j] <= 90) || (97 <= b[j] && b[j] <= 122) || (48
                <= b[j] && b[j] <= 57) || b[j] == 95)
                invariant
                    i < start <= j <= b@.len(),
                    start == i + 1,
                    name@ == as_chars(b@.subrange(start as int, j as int)),
                    name_len(b@.skip(start as int)) == (j - start) + name_len(b@.skip(j as int)),
                decreases b@.len() - j,
            {
                assert(b@.skip(j as int)[0] == b@[j as int]);
                assert(b@.skip(j as int).drop_first() =~= b@.skip(j + 1));
                assert(as_chars(b@.subrange(start as int, j + 1)) =~= as_chars(
                    b@.subrange(start as int, j as int),
                ).push(b@[j as int] as char));
                name.push(b[j] as char);
                j = j + 1;
            }
            assert(name_len(b@.skip(j as int)) == 0) by {
                if j < b@.len() {
                    assert(b@.skip(j as int)[0] == b@[j as int]);
                }
            }
            if j > start {
                let ghost before = out@;
                let v = find_value(env, &name);
                out.append(&v);
                proof {
                    assert(rest.subrange(1, 1 + (j - start)) =~= b@.subrange(
                        start as int,
                        j as int,
                    ));
                    assert(rest.skip(1 + (j - start)) =~= b@.skip(j as int));
                    assert(out@ + expanded_bytes(b@.skip(j as int), es) =~= before + (v@
                        + expanded_bytes(b@.skip(j as int), es)));
                }
                i = j;
                done = true;
            }
        }
        if !done {
            let ghost before = out@;
            out.push(b[i] as char);
            proof {
                let tail = expanded_bytes(b@.skip(i + 1), es);
                assert(out@ + tail =~= before + (seq![b@[i as int] as char] + tail));
            }
            i = i + 1;
        }
    }
    assert(b@.skip(i as int) =~= seq![]);
    assert(out@ + expanded_bytes(b@.skip(i as int), es) =~= out@);
    out
}

/// An ASCII text without `$` stands for itself.
pub proof fn expanding_plain_text(s: Seq<char>, env: Seq<(Seq<char>, Seq<char>)>)
    requires
        is_ascii_chars(s),
        !s.contains('$'),
    ensures
        expanded(s, env) == s,
{
    is_ascii_chars_encode_utf8(s);
    let b = encode_utf8(s);
    assert forall|i: int| 0 <= i < b.len() implies #[trigger] b[i] != 36 by {
        assert(b[i] == s[i] as u8);
        assert(s.contains(s[i]));
    }
    lemma_expand_plain(b, env);
    assert forall|i: int| 0 <= i < s.len() implies as_chars(b)[i] == s[i] by {
        assert(b[i] == s[i] as u8);
        assert(s[i] <= '\u{7f}');
    }
    assert(as_chars(b) =~= s);
}

proof fn lemma_name_len(b: Seq<u8>)
    requires
        forall|i: int| 0 <= i < b.len() ==> name_byte(#[trigger] b[i]),
    ensures
        name_len(b) == b.len(),
    decreases b.len(),
{
    if b.len() > 0 {
        let rest = b.drop_first();
        assert forall|i: int| 0 <= i < rest.len() implies name_byte(#[trigger] rest[i]) by {
            assert(rest[i] == b[i + 1]);
        }
        lemma_name_len(rest);
    }
}

/// A `$` with a name behind it stands for the value of the variable.
pub proof fn expanding_variable(name: Seq<char>, env: Seq<(Seq<char>, Seq<char>)>)
    requires
        name.len() > 0,
        is_ascii_chars(name),
        forall|i: int| 0 <= i < name.len() ==> name_byte((#[trigger] name[i]) as u8),
    ensures
        expanded(seq!['$'] + name, env) == value_of(env, name),
{
    let s = seq!['$'] + name;
    assert forall|i: int| 0 <= i < s.len() implies '\0' <= (#[trigger] s[i]) <= '\u{7f}' by {
        if i > 0 {
            assert(s[i] == name[i - 1]);
        }
    }
    is_ascii_chars_encode_utf8(s);
    let b = encode_utf8(s);
    let rest = b.drop_first();
    assert(b[0] == s[0] as u8);
    assert forall|i: int| 0 <= i < rest.len() implies name_byte(#[trigger] rest[i]) && rest[i]
        == name[i] as u8 by {
        assert(rest[i] == b[i + 1]);
        assert(b[i + 1] == s[i + 1] as u8);
        assert(s[i + 1] == name[i]);
    }
    lemma_name_len(rest);
    let found = as_chars(b.subrange(1, 1 + rest.len() as int));
    assert forall|i: int| 0 <= i < name.len() implies found[i] == name[i] by {
        assert(rest[i] == name[i] as u8);
        assert(b[i + 1] == rest[i]);
        assert(name[i] <= '\u{7f}');
    }
    assert(found =~= name);
    assert(b.skip(1 + rest.len() as int) =~= seq![]);
    assert(value_of(env, name) + expanded_bytes(seq![], env) =~= value_of(env, name));
}

/// The bytes end in a `$` with nothing but bytes of a name behind it.
pub open spec fn open_ended(b: Seq<u8>) -> bool
    decreases b.len(),
{
    b.len() > 0 && (b.last() == 36 || (name_byte(b.last()) && open_ended(b.drop_last())))
}

proof fn lemma_open_ended(a: Seq<u8>, b: Seq<u8>)
    requires
        open_ended(b),
    ensures
        open_ended(a + b),
    decreases b.len(),
{
    assert((a + b).drop_last() =~= a + b.drop_last());
    if b.last() != 36 {
        lemma_open_ended(a, b.drop_last());
    }
}

proof fn lemma_open_name(b: Seq<u8>)
    requires
        b.len() > 0,
        b[0] == 36,
        forall|i: int| 1 <= i < b.len() ==> name_byte(#[trigger] b[i]),
    ensures
        open_ended(b),
    decreases b.len(),
{
    if b.len() > 1 {
        assert(name_byte(b[b.len() - 1]));
        lemma_open_name(b.drop_last());
    }
}

proof fn lemma_name_prefix(b: Seq<u8>)
    ensures
        0 <= name_len(b) <= b.len(),
        forall|i: int| 0 <= i < name_len(b) ==> name_byte(#[trigger] b[i]),
        name_len(b) < b.len() ==> !name_byte(b[name_len(b)]),
    decreases b.len(),
{
    if b.len() > 0 && name_byte(b[0]) {
        let rest = b.drop_first();
        lemma_name_prefix(rest);
        assert forall|i: int| 0 <= i < name_len(b) implies name_byte(#[trigger] b[i]) by {
            if i > 0 {
                assert(b[i] == rest[i - 1]);
            }
        }
        if name_len(b) < b.len() {
            assert(b[name_len(b)] == rest[name_len(rest)]);
        }
    }
}

proof fn lemma_name_len_is(b: Seq<u8>, n: int)
    requires
        0 <= n <= b.len(),
        forall|i: int| 0 <= i < n ==> name_byte(#[trigger] b[i]),
        n < b.len() ==> !name_byte(b[n]),
    ensures
        name_len(b) == n,
{
    lemma_name_prefix(b);
    let m = name_len(b);
    if m < n {
        assert(name_byte(b[m]));
    }
}

proof fn lemma_expand_concat(x: Seq<u8>, y: Seq<u8>, env: Seq<(Seq<char>, Seq<char>)>)
    requires
        open_ended(x) ==> y.len() == 0 || !name_byte(y[0]),
    ensures
        expanded_bytes(x + y, env) == expanded_bytes(x, env) + expanded_bytes(y, env),
    decreases x.len(),
{
    let s = x + y;
    if x.len() == 0 {
        assert(s =~= y);
        assert(expanded_bytes(x, env) + expanded_bytes(y, env) =~= expanded_bytes(y, env));
    } else {
        let rest = x.drop_first();
        let n = name_len(rest);
        assert(s.drop_first() =~= rest + y);
        lemma_name_prefix(rest);
        if x[0] == 36 {
            if n == rest.len() {
                assert forall|i: int| 1 <= i < x.len() implies name_byte(#[trigger] x[i]) by {
                    assert(x[i] == rest[i - 1]);
                }
                lemma_open_name(x);
            }
            assert forall|i: int| 0 <= i < n implies name_byte(#[trigger] (rest + y)[i]) by {
                assert(name_byte(rest[i]));
            }
            lemma_name_len_is(rest + y, n);
        }
        if x[0] == 36 && n > 0 {
            let tail = x.skip(1 + n);
            assert(x =~= x.take(1 + n) + tail);
            if open_ended(tail) {
                lemma_open_ended(x.take(1 + n), tail);
            }
            lemma_expand_concat(tail, y, env);
            assert(s.skip(1 + n) =~= tail + y);
            assert(s.subrange(1, 1 + n) =~= x.subrange(1, 1 + n));
            assert(expanded_bytes(s, env) =~= expanded_bytes(x, env) + expanded_bytes(y, env));
        } else {
            assert(x =~= seq![x[0]] + rest);
            if open_ended(rest) {
                lemma_open_ended(seq![x[0]], rest);
            }
            lemma_expand_concat(rest, y, env);
            assert(expanded_bytes(s, env) =~= expanded_bytes(x, env) + expanded_bytes(y, env));
        }
    }
}

/// Two texts one after the other stand for what each of them stands for, unless
/// the second goes on with a name that the first has begun.
pub proof fn expanding_two_parts(
    a: Seq<char>,
    b: Seq<char>,
    env: Seq<(Seq<char>, Seq<char>)>,
)
    requires
        open_ended(encode_utf8(a)) ==> encode_utf8(b).len() == 0 || !name_byte(encode_utf8(b)[0]),
    ensures
        expanded(a + b, env) == expanded(a, env) + expanded(b, env),
{
    lemma_encoding_concat(a, b);
    lemma_expand_concat(encode_utf8(a), encode_utf8(b), env);
}

proof fn lemma_expand_plain(b: Seq<u8>, env: Seq<(Seq<char>, Seq<char>)>)
    requires
        forall|i: int| 0 <= i < b.len() ==> #[trigger] b[i] != 36,
    ensures
        expanded_bytes(b, env) == as_chars(b),
    decreases b.len(),
{
    if b.len() > 0 {
        let rest = b.drop_first();
        assert forall|i: int| 0 <= i < rest.len() implies #[trigger] rest[i] != 36 by {
            assert(rest[i] == b[i + 1]);
        }
        lemma_expand_plain(rest, env);
        assert(expanded_bytes(b, env) =~= as_chars(b));
    }
}

/// What is wrong with a configuration.
#[derive(Debug, Clone, Copy, PartialEq, Eq)]
pub enum ConfigError {
    NotMap,
    NeedsUrl,
    HeadersNotMap,
    HeaderNotText,
    ExecHeadersNotMap,
    ExecHeaderNotText,
    NeedsExec,
    NeedsModel,
}

impl ConfigError {
    /// The error in words.
    pub open spec fn words(self) -> Seq<char> {
        match self {
            ConfigError::NotMap => "config must be a yaml map"@,
            ConfigError::NeedsUrl => "config needs url"@,
            ConfigError::HeadersNotMap => "headers must be a yaml map"@,
            ConfigError::HeaderNotText => "header values must be strings"@,
            ConfigError::ExecHeadersNotMap => "exec_headers must be a yaml map"@,
            ConfigError::ExecHeaderNotText => "exec_headers values must be strings"@,
            ConfigError::NeedsExec => "config needs exec"@,
            ConfigError::NeedsModel => "config needs model"@,
        }
    }

    /// The error in words.
    pub fn message(&self) -> (r: String)
        ensures
            r@ == self.words(),
    {
        let s = match self {
            ConfigError::NotMap => "config must be a yaml map",
            ConfigError::NeedsUrl => "config needs url",
            ConfigError::HeadersNotMap => "headers must be a yaml map",
            ConfigError::HeaderNotText => "header values must be strings",
            ConfigError::ExecHeadersNotMap => "exec_headers must be a yaml map",
            ConfigError::ExecHeaderNotText => "exec_headers values must be strings",
            ConfigError::NeedsExec => "config needs exec",
            ConfigError::NeedsModel => "config needs model",
        };
        s.to_string()
    }
}

/// The text of a header value: a string with its variables expanded, and where
/// `scalars` count, a number or a truth value as it prints.
pub open spec fn header_value(
    t: Tree,
    scalars: bool,
    env: Seq<(Seq<char>, Seq<char>)>,
) -> Option<Seq<char>> {
    match t {
        Tree::Text(s) => Some(expanded(s, env)),
        _ => if scalars {
            t.scalar()
        } else {
            None
        },
    }
}

/// Every member has a header value.
pub open spec fn all_headers(
    es: Seq<(Seq<char>, Tree)>,
    scalars: bool,
    env: Seq<(Seq<char>, Seq<char>)>,
) -> bool {
    forall|i: int| 0 <= i < es.len() ==> header_value((#[trigger] es[i]).1, scalars, env) is Some
}

/// The headers that a setting names, in the order of their names; none where it
/// is missing.
pub open spec fn header_list(
    t: Option<Tree>,
    scalars: bool,
    env: Seq<(Seq<char>, Seq<char>)>,
) -> Seq<(Seq<char>, Seq<char>)> {
    match t {
        Some(Tree::Dict(es)) => Seq::new(
            es.len(),
            |i: int| (es[i].0, header_value(es[i].1, scalars, env)->0),
        ),
        _ => seq![],
    }
}

enum HeaderError {
    NotMap,
    NotText,
}

fn headers_from(t: Option<&Json>, scalars: bool, env: &Vec<(String, String)>) -> (r: Result<
    Vec<(String, String)>,
    HeaderError,
>)
    ensures
        match r {
            Ok(hs) => {
                &&& match t {
                    Some(j) => j@ is Dict && all_headers(j@.members(), scalars, pairs(env@)),
                    None => true,
                }
                &&& pairs(hs@) == header_list(tree_at(t), scalars, pairs(env@))
            },
            Err(HeaderError::NotMap) => t is Some && !(t->0@ is Dict),
            Err(HeaderError::NotText) => t is Some && t->0@ is Dict && !all_headers(
                t->0@.members(),
                scalars,
                pairs(env@),
            ),
        },
{
    let mut out: Vec<(String, String)> = Vec::new();
    match t {
        None => {
            assert(pairs(out@) =~= seq![]);
            Ok(out)
        },
        Some(Json::Dict(d)) => {
            let n: usize = d.len();
            let ghost es = pairs(env@);
            for i in 0..n
                invariant
                    n == d@.len(),
                    es == pairs(env@),
                    t is Some,
                    t->0@ == Tree::Dict(d@),
                    out@.len() == i,
                    forall|j: int|
                        0 <= j < i ==> header_value((#[trigger] d@[j]).1, scalars, es) == Some(
                            out@[j].1@,
                        ),
                    forall|j: int| 0 <= j < i ==> (#[trigger] out@[j]).0@ == d@[j].0,
            {
                let v = match d.value(i) {
                    Json::Text(s) => Some(expand(s, env)),
                    other => if scalars {
                        other.scalar_text()
                    } else {
                        None
                    },
                };
                match v {
                    Some(s) => {
                        out.push((d.key(i).clone(), s));
                    },
                    None => {
                        assert(header_value(d@[i as int].1, scalars, es) is None);
                        return Err(HeaderError::NotText);
                    },
                }
            }
            assert(pairs(out@) =~= header_list(Some(Tree::Dict(d@)), scalars, es)) by {
                assert forall|j: int| 0 <= j < n implies pairs(out@)[j] == header_list(
                    Some(Tree::Dict(d@)),
                    scalars,
                    es,
                )[j] by {
                    assert(header_value(d@[j].1, scalars, es) == Some(out@[j].1@));
                }
            }
            Ok(out)
        },
        Some(_) => Err(HeaderError::NotMap),
    }
}

/// The scalar under the key `k`, as text.
pub open spec fn scalar_at(es: Seq<(Seq<char>, Tree)>, k: Seq<char>) -> Option<Seq<char>> {
    match lookup(es, k) {
        Some(t) => t.scalar(),
        None => None,
    }
}

/// The number in an optional document, or the given default.
pub open spec fn number_or(t: Option<Tree>, default: u64) -> u64 {
    match t {
        Some(t) => match t.uint() {
            Some(n) => n,
            None => default,
        },
        None => default,
    }
}

/// The share of the window that the prompt may take: 54 hundredths, reckoned in
/// the range of a `u64`.
pub open spec fn share(window: u64) -> u64 {
    ((window * 54) % 0x1_0000_0000_0000_0000 / 100) as u64
}

/// The budget of prompt tokens: the one given, or a share of the window.
pub open spec fn budget_of(budget: Option<Tree>, window: Option<Tree>) -> u64 {
    number_or(budget, share(number_or(window, 1_000_000)))
}

fn scalar_of(d: &Dict, k: &str) -> (r: Option<String>)
    ensures
        match r {
            Some(s) => scalar_at(d@, k@) == Some(s@),
            None => scalar_at(d@, k@) is None,
        },
{
    match d.get(k) {
        Some(j) => j.scalar_text(),
        None => None,
    }
}

/// The number in an optional document, or the given default.
pub fn number_in(j: Option<&Json>, default: u64) -> (r: u64)
    ensures
        r == number_or(tree_at(j), default),
{
    match j {
        Some(j) => match j.as_u64() {
            Some(n) => n,
            None => default,
        },
        None => default,
    }
}

/// The budget of prompt tokens: the one given, or a share of the window.
pub fn budget_in(budget: Option<&Json>, window: Option<&Json>) -> (r: u64)
    ensures
        r == budget_of(tree_at(budget), tree_at(window)),
{
    let w: u64 = number_in(window, 1_000_000);
    number_in(budget, share_of(w))
}

fn share_of(window: u64) -> (r: u64)
    ensures
        r == share(window),
{
    window.wrapping_mul(54) / 100
}

/// `es` without the members under any of the keys.
pub open spec fn without_all(es: Seq<(Seq<char>, Tree)>, ks: Seq<Seq<char>>) -> Seq<
    (Seq<char>, Tree),
>
    decreases ks.len(),
{
    if ks.len() == 0 {
        es
    } else {
        without(without_all(es, ks.drop_last()), ks.last())
    }
}

/// The keys that are settings of this program, and two that it sets itself.
pub open spec fn setting_keys() -> Seq<Seq<char>> {
    seq![
        "url"@,
        "key"@,
        "headers"@,
        "exec_headers"@,
        "steps"@,
        "keep"@,
        "window"@,
        "budget"@,
        "exec"@,
        "log"@,
        "listen"@,
        "agents.md"@,
        "tools"@,
        "stream"@,
        "messages"@,
    ]
}

/// The configuration without the settings: what every request carries along.
/// `agents` is a setting only where `agents.md` names no file.
pub open spec fn request_base(es: Seq<(Seq<char>, Tree)>) -> Seq<(Seq<char>, Tree)> {
    let rest = without_all(es, setting_keys());
    if scalar_at(es, "agents.md"@) is Some {
        rest
    } else {
        without(rest, "agents"@)
    }
}

/// Where the description of the tools is to be found.
#[derive(Debug, PartialEq)]
pub enum Tools {
    Absent,
    File(String),
    Inline(Json),
}

/// The settings of a configuration before the tools are loaded.
pub struct Draft {
    pub url: String,
    pub headers: Vec<(String, String)>,
    pub exec_headers: Vec<(String, String)>,
    pub steps: u64,
    pub keep: usize,
    pub budget: u64,
    pub exec_url: String,
    pub log: Option<String>,
    pub listen: Option<String>,
    pub inst: Option<String>,
    pub map: Dict,
    pub tools: Tools,
}

/// The first thing that is wrong with the configuration, tools and model aside.
pub open spec fn draft_fault(es: Seq<(Seq<char>, Tree)>, env: Seq<(Seq<char>, Seq<char>)>) -> Option<
    ConfigError,
> {
    let headers = lookup(es, "headers"@);
    let exec_headers = lookup(es, "exec_headers"@);
    if scalar_at(es, "url"@) is None {
        Some(ConfigError::NeedsUrl)
    } else if headers is Some && !(headers->0 is Dict) {
        Some(ConfigError::HeadersNotMap)
    } else if headers is Some && !all_headers(headers->0.members(), true, env) {
        Some(ConfigError::HeaderNotText)
    } else if exec_headers is Some && !(exec_headers->0 is Dict) {
        Some(ConfigError::ExecHeadersNotMap)
    } else if exec_headers is Some && !all_headers(exec_headers->0.members(), false, env) {
        Some(ConfigError::ExecHeaderNotText)
    } else if scalar_at(es, "exec"@) is None {
        Some(ConfigError::NeedsExec)
    } else {
        None
    }
}

impl Draft {
    /// The settings are those of the configuration `es`.
    pub open spec fn reads(
        self,
        es: Seq<(Seq<char>, Tree)>,
        env: Seq<(Seq<char>, Seq<char>)>,
    ) -> bool {
        &&& Some(self.url@) == scalar_at(es, "url"@)
        &&& pairs(self.headers@) == header_list(lookup(es, "headers"@), true, env)
        &&& pairs(self.exec_headers@) == header_list(lookup(es, "exec_headers"@), false, env)
        &&& self.steps == number_or(lookup(es, "steps"@), 27)
        &&& self.keep == number_or(lookup(es, "keep"@), 9) as usize
        &&& self.budget == budget_of(lookup(es, "budget"@), lookup(es, "window"@))
        &&& Some(self.exec_url@) == scalar_at(es, "exec"@)
        &&& text_in(self.log) == scalar_at(es, "log"@)
        &&& text_in(self.listen) == scalar_at(es, "listen"@)
        &&& text_in(self.inst) == match scalar_at(es, "agents.md"@) {
            Some(s) => Some(s),
            None => scalar_at(es, "agents"@),
        }
        &&& self.map@ == request_base(es)
        &&& match self.tools {
            Tools::Absent => lookup(es, "tools"@) is None,
            Tools::File(p) => lookup(es, "tools"@) == Some(Tree::Text(p@)),
            Tools::Inline(j) => lookup(es, "tools"@) == Some(j@) && !(j@ is Text),
        }
    }
}

fn drop_settings(d: &mut Dict, agents: bool)
    ensures
        final(d)@ == if agents {
            without(without_all(old(d)@, setting_keys()), "agents"@)
        } else {
            without_all(old(d)@, setting_keys())
        },
{
    let keys: Vec<&str> =
        vec![
        "url",
        "key",
        "headers",
        "exec_headers",
        "steps",
        "keep",
        "window",
        "budget",
        "exec",
        "log",
        "listen",
        "agents.md",
        "tools",
        "stream",
        "messages",
    ];
    let ghost ks = setting_keys();
    let ghost start = d@;
    assert(keys@.len() == ks.len());
    assert forall|i: int| 0 <= i < ks.len() implies (#[trigger] keys@[i])@ == ks[i] by {}
    for i in 0..keys.len()
        invariant
            keys@.len() == ks.len(),
            forall|j: int| 0 <= j < ks.len() ==> (#[trigger] keys@[j])@ == ks[j],
            d@ == without_all(start, ks.take(i as int)),
    {
        assert(ks.take(i + 1).drop_last() =~= ks.take(i as int));
        let _ = d.remove(keys[i]);
    }
    assert(ks.take(ks.len() as int) =~= ks);
    if agents {
        let _ = d.remove("agents");
    }
}

/// The members of the configuration, where it is a map.
pub fn config_map(raw: Json) -> (r: Result<Dict, ConfigError>)
    ensures
        match r {
            Ok(d) => raw@ == Tree::Dict(d@),
            Err(e) => e == ConfigError::NotMap && !(raw@ is Dict),
        },
{
    match raw {
        Json::Dict(d) => Ok(d),
        _ => Err(ConfigError::NotMap),
    }
}

/// The settings of a configuration; `env` holds the environment variables.
pub fn read_config(map: Dict, env: &Vec<(String, String)>) -> (r: Result<Draft, ConfigError>)
    ensures
        match r {
            Ok(d) => draft_fault(map@, pairs(env@)) is None && d.reads(map@, pairs(env@)),
            Err(e) => draft_fault(map@, pairs(env@)) == Some(e),
        },
{
    let url = match scalar_of(&map, "url") {
        Some(s) => s,
        None => return Err(ConfigError::NeedsUrl),
    };
    let headers = match headers_from(map.get("headers"), true, env) {
        Ok(hs) => hs,
        Err(HeaderError::NotMap) => return Err(ConfigError::HeadersNotMap),
        Err(HeaderError::NotText) => return Err(ConfigError::HeaderNotText),
    };
    let exec_headers = match headers_from(map.get("exec_headers"), false, env) {
        Ok(hs) => hs,
        Err(HeaderError::NotMap) => return Err(ConfigError::ExecHeadersNotMap),
        Err(HeaderError::NotText) => return Err(ConfigError::ExecHeaderNotText),
    };
    let steps: u64 = number_in(map.get("steps"), 27);
    let keep: usize = number_in(map.get("keep"), 9) as usize;
    let budget: u64 = budget_in(map.get("budget"), map.get("window"));
    let exec_url = match scalar_of(&map, "exec") {
        Some(s) => s,
        None => return Err(ConfigError::NeedsExec),
    };
    let log = scalar_of(&map, "log");
    let listen = scalar_of(&map, "listen");
    let named = scalar_of(&map, "agents.md");
    let agents = named.is_none();
    let inst = match named {
        Some(s) => Some(s),
        None => scalar_of(&map, "agents"),
    };
    let tools = match map.get("tools") {
        None => Tools::Absent,
        Some(Json::Text(p)) => Tools::File(p.clone()),
        Some(j) => Tools::Inline(j.clone()),
    };
    let mut map = map;
    drop_settings(&mut map, agents);
    Ok(
        Draft {
            url,
            headers,
            exec_headers,
            steps,
            keep,
            budget,
            exec_url,
            log,
            listen,
            inst,
            map,
            tools,
        },
    )
}

/// The settings of the program.
pub struct Cfg {
    pub url: String,
    pub headers: Vec<(String, String)>,
    pub steps: u64,
    pub keep: usize,
    pub budget: u64,
    pub exec_url: String,
    pub log: Option<String>,
    pub map: Dict,
    pub specs: Dict,
    pub inst: Option<String>,
    pub listen: Option<String>,
    pub exec_headers: Vec<(String, String)>,
}

/// What every request carries along, once the tools are known.
pub open spec fn with_tools(base: Seq<(Seq<char>, Tree)>, tools: Option<Tree>) -> Seq<
    (Seq<char>, Tree),
> {
    match tools {
        Some(t) => put(base, "tools"@, peeled(t)),
        None => base,
    }
}

/// A request names its model.
pub open spec fn names_model(base: Seq<(Seq<char>, Tree)>) -> bool {
    Tree::Dict(base).at("model"@).str_or_empty().len() > 0
}

impl Draft {
    /// The settings `r` are those of the draft with the tools, or say what is wrong
    /// with them.
    pub open spec fn completes(self, tools: Option<Tree>, r: Result<Cfg, ConfigError>) -> bool {
        let base = with_tools(self.map@, tools);
        match r {
            Err(e) => e == ConfigError::NeedsModel && !names_model(base),
            Ok(c) => {
                &&& names_model(base)
                &&& c.map@ == base
                &&& c.specs@ == match tools {
                    Some(t) => routes(t.items(), true),
                    None => seq![],
                }
                &&& c.url == self.url
                &&& c.headers == self.headers
                &&& c.steps == self.steps
                &&& c.keep == self.keep
                &&& c.budget == self.budget
                &&& c.exec_url == self.exec_url
                &&& c.log == self.log
                &&& c.inst == self.inst
                &&& c.listen == self.listen
                &&& c.exec_headers == self.exec_headers
            },
        }
    }

    /// The settings with the tools, whose description is what the draft names or
    /// holds.
    pub fn complete(self, tools: Option<Json>) -> (r: Result<Cfg, ConfigError>)
        ensures
            self.completes(tree_in(tools), r),
    {
        let mut map = self.map;
        let specs = match &tools {
            Some(j) => {
                let (cleaned, specs) = load_tools(j);
                map.insert("tools".to_string(), cleaned);
                specs
            },
            None => Dict::new(),
        };
        let named = match map.get("model") {
            Some(Json::Text(s)) => !s.as_str().is_empty(),
            _ => false,
        };
        if !named {
            return Err(ConfigError::NeedsModel);
        }
        Ok(
            Cfg {
                url: self.url,
                headers: self.headers,
                steps: self.steps,
                keep: self.keep,
                budget: self.budget,
                exec_url: self.exec_url,
                log: self.log,
                map,
                specs,
                inst: self.inst,
                listen: self.listen,
                exec_headers: self.exec_headers,
            },
        )
    }
}

/// Why settings cannot be loaded: a file cannot be read as a document, or the
/// configuration is wrong.
#[derive(Debug, PartialEq)]
pub enum LoadError {
    Unreadable { path: String, words: String },
    Fault(ConfigError),
}

impl LoadError {
    /// The error in words.
    pub open spec fn words(self) -> Seq<char> {
        match self {
            LoadError::Unreadable { path, words } => path@ + ": "@ + words@,
            LoadError::Fault(e) => e.words(),
        }
    }

    /// The error in words.
    pub fn message(&self) -> (r: String)
        ensures
            r@ == self.words(),
    {
        match self {
            LoadError::Unreadable { path, words } => {
                let mut r = cat(path, ": ");
                r.append(words);
                r
            },
            LoadError::Fault(e) => e.message(),
        }
    }

    /// The error says that the file `path` cannot be read, for the reason `words`.
    pub open spec fn unreadable(self, path: Seq<char>, words: Seq<char>) -> bool {
        self matches LoadError::Unreadable { path: p, words: w } && p@ == path && w@ == words
    }
}

/// What was read from the file `path` makes the settings `r`, or the error.
pub open spec fn loads(
    path: Seq<char>,
    parsed: Result<Tree, Seq<char>>,
    env: Seq<(Seq<char>, Seq<char>)>,
    r: Result<Draft, LoadError>,
) -> bool {
    match parsed {
        Err(words) => r matches Err(e) && e.unreadable(path, words),
        Ok(Tree::Dict(es)) => match r {
            Ok(d) => draft_fault(es, env) is None && d.reads(es, env),
            Err(e) => e matches LoadError::Fault(f) && draft_fault(es, env) == Some(f),
        },
        Ok(_) => r matches Err(LoadError::Fault(f)) && f == ConfigError::NotMap,
    }
}

/// The settings in what was read from the configuration file `path`.
pub fn config_of(
    path: &str,
    parsed: Result<Json, String>,
    env: &Vec<(String, String)>,
) -> (r: Result<Draft, LoadError>)
    ensures
        loads(path@, reading(parsed), pairs(env@), r),
{
    let raw = match parsed {
        Ok(j) => j,
        Err(words) => return Err(LoadError::Unreadable { path: path.to_string(), words }),
    };
    let map = match config_map(raw) {
        Ok(d) => d,
        Err(e) => return Err(LoadError::Fault(e)),
    };
    match read_config(map, env) {
        Ok(d) => Ok(d),
        Err(e) => Err(LoadError::Fault(e)),
    }
}

/// The settings in the configuration file `path`, which holds the text.
pub fn load_config(path: &str, text: &str, env: &Vec<(String, String)>) -> (r: Result<
    Draft,
    LoadError,
>)
    ensures
        loads(path@, read_yaml(text@), pairs(env@), r),
{
    config_of(path, Json::parse_yaml(text), env)
}

/// The description of the tools, where `file` is what was read from the file that
/// a draft may name.
pub open spec fn tools_found(tools: Tools, file: Result<Tree, Seq<char>>) -> Result<
    Option<Tree>,
    Seq<char>,
> {
    match tools {
        Tools::Absent => Ok(None),
        Tools::Inline(j) => Ok(Some(j@)),
        Tools::File(_) => match file {
            Ok(t) => Ok(Some(t)),
            Err(e) => Err(e),
        },
    }
}

impl Draft {
    /// The settings with the tools that the draft holds or names, where `file` is
    /// the text of the file that it names.
    pub fn complete_with(self, file: &str) -> (r: Result<Cfg, LoadError>)
        ensures
            match tools_found(self.tools, read_text(file@)) {
                Ok(tools) => match r {
                    Ok(c) => self.completes(tools, Ok(c)),
                    Err(e) => e matches LoadError::Fault(f) && self.completes(tools, Err(f)),
                },
                Err(words) => r matches Err(e) && e.unreadable(self.tools->File_0@, words),
            },
    {
        let mut draft = self;
        let mut found = Tools::Absent;
        std::mem::swap(&mut found, &mut draft.tools);
        let tools = match found {
            Tools::Absent => None,
            Tools::Inline(j) => Some(j),
            Tools::File(path) => match Json::parse_text(file) {
                Ok(j) => Some(j),
                Err(words) => return Err(LoadError::Unreadable { path, words }),
            },
        };
        match draft.complete(tools) {
            Ok(c) => Ok(c),
            Err(e) => Err(LoadError::Fault(e)),
        }
    }
}

proof fn lemma_without_all(es: Seq<(Seq<char>, Tree)>, ks: Seq<Seq<char>>, k: Seq<char>)
    requires
        ascending(es),
    ensures
        ascending(without_all(es, ks)),
        lookup(without_all(es, ks), k) == if ks.contains(k) {
            None
        } else {
            lookup(es, k)
        },
    decreases ks.len(),
{
    if ks.len() > 0 {
        let rest = ks.drop_last();
        lemma_without_all(es, rest, k);
        without_keeps_order(without_all(es, rest), ks.last());
        without_then_lookup(without_all(es, rest), ks.last(), k);
        if ks.contains(k) {
            let i = choose|i: int| 0 <= i < ks.len() && ks[i] == k;
            if i < rest.len() {
                assert(rest[i] == k);
            }
        } else {
            if rest.contains(k) {
                let i = choose|i: int| 0 <= i < rest.len() && rest[i] == k;
                assert(ks[i] == k);
            }
            assert(ks[ks.len() - 1] != k);
        }
    }
}

/// No setting travels along with a request, and every other member of the
/// configuration does, as it stands.
pub proof fn settings_stay_behind(es: Seq<(Seq<char>, Tree)>, k: Seq<char>)
    requires
        ascending(es),
    ensures
        setting_keys().contains(k) ==> lookup(request_base(es), k) is None,
        !setting_keys().contains(k) && k != "agents"@ ==> lookup(request_base(es), k) == lookup(
            es,
            k,
        ),
{
    lemma_without_all(es, setting_keys(), k);
    without_then_lookup(without_all(es, setting_keys()), "agents"@, k);
}

/// What the command line asks for.
pub enum Command {
    Run { config: Seq<char>, prompt: Seq<char> },
    Help,
    Fault { words: Seq<char> },
}

/// What the command line asks for.
#[derive(Debug, PartialEq)]
pub enum Cli {
    Run { config: String, prompt: String },
    Help,
    Fault { words: String },
}

impl Cli {
    /// What the command line asks for.
    pub open spec fn view(&self) -> Command {
        match self {
            Cli::Run { config, prompt } => Command::Run { config: config@, prompt: prompt@ },
            Cli::Help => Command::Help,
            Cli::Fault { words } => Command::Fault { words: words@ },
        }
    }
}

/// What the arguments ask for, given the configuration file and the words of the
/// prompt so far.
pub open spec fn command(
    args: Seq<Seq<char>>,
    config: Seq<char>,
    words: Seq<Seq<char>>,
) -> Command
    decreases args.len(),
{
    if args.len() == 0 {
        Command::Run { config, prompt: joined(words, " "@) }
    } else if args[0] == "-c"@ {
        if args.len() == 1 {
            Command::Fault { words: "-c needs a file"@ }
        } else {
            command(args.skip(2), args[1], words)
        }
    } else if args[0] == "-h"@ || args[0] == "--help"@ {
        Command::Help
    } else if has_prefix(args[0], "-"@) {
        Command::Fault { words: "unknown flag "@ + args[0] }
    } else {
        command(args.skip(1), config, words.push(args[0]))
    }
}

/// What strings say, one by one.
pub open spec fn texts(v: Seq<String>) -> Seq<Seq<char>> {
    v.map_values(|s: String| s@)
}

/// What the arguments of the program ask for.
pub fn parse_args(args: &Vec<String>) -> (r: Cli)
    ensures
        r@ == command(texts(args@), "min.yaml"@, seq![]),
{
    let ghost all = texts(args@);
    let mut config = "min.yaml".to_string();
    let mut words: Vec<String> = Vec::new();
    let mut n: usize = 0;
    assert(all.skip(0) =~= all);
    assert(texts(words@) =~= seq![]);
    while n < args.len()
        invariant
            n <= args@.len(),
            all == texts(args@),
            command(all.skip(n as int), config@, texts(words@)) == command(
                all,
                "min.yaml"@,
                seq![],
            ),
        decreases args@.len() - n,
    {
        let a = &args[n];
        let ghost rest = all.skip(n as int);
        proof {
            assert(rest[0] == a@);
            assert(rest.skip(1) =~= all.skip(n + 1));
        }
        if same(a, "-c") {
            n = n + 1;
            if n >= args.len() {
                return Cli::Fault { words: "-c needs a file".to_string() };
            }
            config = args[n].clone();
            proof {
                assert(rest[1] == args@[n as int]@);
                assert(rest.skip(2) =~= all.skip(n + 1));
            }
        } else if same(a, "-h") || same(a, "--help") {
            return Cli::Help;
        } else if starts_with(a, "-") {
            return Cli::Fault { words: cat("unknown flag ", a) };
        } else {
            let ghost before = texts(words@);
            words.push(a.clone());
            assert(texts(words@) =~= before.push(a@));
        }
        n = n + 1;
    }
    assert(all.skip(n as int) =~= seq![]);
    Cli::Run { config, prompt: join(&words, " ") }
}

/// What there is to do: serve sessions at an address, or put one prompt, or
/// explain the usage where there is none.
#[derive(Debug, PartialEq)]
pub enum Errand {
    Serve { addr: String },
    Once,
    Usage,
}

/// What there is to do for the prompt of the command line; where the settings name
/// an address to listen on, the prompt does not count.
pub fn errand(cfg: &Cfg, prompt: &str) -> (r: Errand)
    ensures
        match r {
            Errand::Serve { addr } => text_in(cfg.listen) == Some(addr@),
            Errand::Once => cfg.listen is None && prompt@.len() > 0,
            Errand::Usage => cfg.listen is None && prompt@.len() == 0,
        },
{
    match &cfg.listen {
        Some(addr) => Errand::Serve { addr: addr.clone() },
        None => if prompt.is_empty() {
            Errand::Usage
        } else {
            Errand::Once
        },
    }
}

/// A header sets the type of the content.
pub open spec fn sets_type(hs: Seq<(Seq<char>, Seq<char>)>) -> bool {
    exists|i: int| 0 <= i < hs.len() && lower((#[trigger] hs[i]).0) == "content-type"@
}

/// The headers of a request to the model: those of the settings, with a type of
/// the content where they set none.
pub open spec fn typed(hs: Seq<(Seq<char>, Seq<char>)>) -> Seq<(Seq<char>, Seq<char>)> {
    if sets_type(hs) {
        hs
    } else {
        hs.push(("Content-Type"@, "application/json"@))
    }
}

/// The headers of a request to the model.
pub fn chat_headers(headers: &Vec<(String, String)>) -> (r: Vec<(String, String)>)
    ensures
        pairs(r@) == typed(pairs(headers@)),
{
    let mut out: Vec<(String, String)> = Vec::new();
    let mut present = false;
    let ghost hs = pairs(headers@);
    proof {
        lemma_content_type();
    }
    for i in 0..headers.len()
        invariant
            hs == pairs(headers@),
            lower("content-type"@) == "content-type"@,
            out@.len() == i,
            forall|j: int| 0 <= j < i ==> #[trigger] pairs(out@)[j] == hs[j],
            present == exists|j: int| 0 <= j < i && lower((#[trigger] hs[j]).0) == "content-type"@,
    {
        assert(hs[i as int].0 == headers@[i as int].0@);
        if same_ignoring_case(&headers[i].0, "content-type") {
            present = true;
        }
        let ghost before = out@;
        out.push((headers[i].0.clone(), headers[i].1.clone()));
        assert forall|j: int| 0 <= j < i + 1 implies #[trigger] pairs(out@)[j] == hs[j] by {
            if j < i {
                assert(pairs(before)[j] == hs[j]);
            }
        }
    }
    assert(pairs(out@) =~= hs);
    if !present {
        let ghost before = out@;
        out.push(("Content-Type".to_string(), "application/json".to_string()));
        assert(pairs(out@) =~= pairs(before).push(("Content-Type"@, "application/json"@)));
    }
    out
}

proof fn lemma_content_type()
    ensures
        lower("content-type"@) == "content-type"@,
        lower("Content-Type"@) == "content-type"@,
{
    reveal_strlit("content-type");
    reveal_strlit("Content-Type");
    assert(lower("content-type"@) =~= "content-type"@);
    assert(lower("Content-Type"@) =~= "content-type"@);
}

/// A request to the model always sets the type of its content, and headers that
/// set it are sent as they are.
pub proof fn type_is_set(hs: Seq<(Seq<char>, Seq<char>)>)
    ensures
        sets_type(typed(hs)),
        typed(typed(hs)) == typed(hs),
        typed(hs).take(hs.len() as int) == hs,
{
    lemma_content_type();
    if !sets_type(hs) {
        assert(typed(hs)[hs.len() as int].0 == "Content-Type"@);
    }
    assert(typed(hs).take(hs.len() as int) =~= hs);
}

/// A list of pairs says what its strings say, one by one.
pub proof fn pairs_say_their_strings(v: Seq<(String, String)>, i: int)
    requires
        0 <= i < v.len(),
    ensures
        pairs(v).len() == v.len(),
        pairs(v)[i].0 == v[i].0@,
        pairs(v)[i].1 == v[i].1@,
{
}

/// A variable has the value of the first pair with its name, and none without one.
pub proof fn first_value_counts(
    env: Seq<(Seq<char>, Seq<char>)>,
    name: Seq<char>,
    value: Seq<char>,
    rest: Seq<(Seq<char>, Seq<char>)>,
)
    requires
        forall|i: int| 0 <= i < env.len() ==> (#[trigger] env[i]).0 != name,
    ensures
        value_of(env + seq![(name, value)] + rest, name) == value,
        value_of(env, name).len() == 0,
    decreases env.len(),
{
    let all = env + seq![(name, value)] + rest;
    if env.len() > 0 {
        let tail = env.drop_first();
        assert forall|i: int| 0 <= i < tail.len() implies (#[trigger] tail[i]).0 != name by {
            assert(tail[i] == env[i + 1]);
        }
        assert(env[0].0 != name);
        assert(all[0] == env[0]);
        first_value_counts(tail, name, value, rest);
        assert(all.drop_first() =~= tail + seq![(name, value)] + rest);
    } else {
        assert(all[0] == (name, value));
    }
}

/// The characters of the name of a variable: letters, digits and `_`.
pub open spec fn name_char(c: char) -> bool {
    ||| 'A' <= c <= 'Z'
    ||| 'a' <= c <= 'z'
    ||| '0' <= c <= '9'
    ||| c == '_'
}

/// A `$` with a name behind it stands for the value of the variable, up to the first
/// character that no name can hold; what follows stands for what it would stand for
/// alone.
pub proof fn variables_end_with_their_names(
    name: Seq<char>,
    c: char,
    rest: Seq<char>,
    env: Seq<(Seq<char>, Seq<char>)>,
)
    requires
        name.len() > 0,
        forall|i: int| 0 <= i < name.len() ==> name_char(#[trigger] name[i]),
        c <= '\u{7f}',
        !name_char(c),
    ensures
        expanded(seq!['$'] + name, env) == value_of(env, name),
        expanded(seq!['$'] + name + (seq![c] + rest), env) == value_of(env, name) + expanded(
            seq![c] + rest,
            env,
        ),
{
    assert forall|i: int| 0 <= i < name.len() implies '\0' <= (#[trigger] name[i]) <= '\u{7f}' by {
        assert(name_char(name[i]));
    }
    assert forall|i: int| 0 <= i < name.len() implies name_byte((#[trigger] name[i]) as u8) by {
        assert(name_char(name[i]));
    }
    expanding_variable(name, env);
    is_ascii_chars_encode_utf8(seq![c]);
    lemma_encoding_concat(seq![c], rest);
    assert(encode_utf8(seq![c])[0] == c as u8);
    assert(encode_utf8(seq![c] + rest)[0] == c as u8);
    expanding_two_parts(seq!['$'] + name, seq![c] + rest, env);
}

/// A `$` with no name behind it stands for itself, and so does every other ASCII
/// character; what follows stands for what it would stand for alone.
pub proof fn other_characters_stand_for_themselves(
    c: char,
    rest: Seq<char>,
    env: Seq<(Seq<char>, Seq<char>)>,
)
    requires
        c <= '\u{7f}',
        c == '$' ==> rest.len() == 0 || (rest[0] <= '\u{7f}' && !name_char(rest[0])),
    ensures
        expanded(seq![c] + rest, env) == seq![c] + expanded(rest, env),
{
    lemma_encoding_concat(seq![c], rest);
    is_ascii_chars_encode_utf8(seq![c]);
    assert(encode_utf8(seq![c]) =~= seq![c as u8]);
    let b = encode_utf8(seq![c] + rest);
    assert(b[0] == c as u8);
    assert(b.drop_first() =~= encode_utf8(rest));
    if c == '$' && rest.len() > 0 {
        assert(rest =~= seq![rest[0]] + rest.drop_first());
        lemma_first_byte(rest[0], rest.drop_first());
    }
    assert(rest.len() == 0 ==> encode_utf8(rest).len() == 0);
    assert(seq![b[0] as char] + expanded(rest, env) =~= seq![c] + expanded(rest, env));
}

proof fn lemma_first_byte(c: char, rest: Seq<char>)
    requires
        c <= '\u{7f}',
    ensures
        encode_utf8(seq![c] + rest).len() > 0,
        encode_utf8(seq![c] + rest)[0] == c as u8,
        !name_char(c) ==> !name_byte(c as u8),
{
    is_ascii_chars_encode_utf8(seq![c]);
    lemma_encoding_concat(seq![c], rest);
    assert(encode_utf8(seq![c])[0] == c as u8);
}

/// A text without `$` has one character for each of its bytes, with its number.
pub proof fn text_without_variables(s: Seq<char>, env: Seq<(Seq<char>, Seq<char>)>)
    requires
        forall|i: int| 0 <= i < encode_utf8(s).len() ==> #[trigger] encode_utf8(s)[i] != 36,
    ensures
        expanded(s, env).len() == encode_utf8(s).len(),
        forall|i: int|
            0 <= i < encode_utf8(s).len() ==> #[trigger] expanded(s, env)[i] as int == encode_utf8(
                s,
            )[i] as int,
{
    lemma_expand_plain(encode_utf8(s), env);
}

/// Each fault of a configuration has words of its own.
pub proof fn faults_have_their_words(e: ConfigError, path: String, words: String)
    ensures
        ConfigError::NotMap.words() == "config must be a yaml map"@,
        ConfigError::NeedsUrl.words() == "config needs url"@,
        ConfigError::HeadersNotMap.words() == "headers must be a yaml map"@,
        ConfigError::HeaderNotText.words() == "header values must be strings"@,
        ConfigError::ExecHeadersNotMap.words() == "exec_headers must be a yaml map"@,
        ConfigError::ExecHeaderNotText.words() == "exec_headers values must be strings"@,
        ConfigError::NeedsExec.words() == "config needs exec"@,
        ConfigError::NeedsModel.words() == "config needs model"@,
        LoadError::Fault(e).words() == e.words(),
        (LoadError::Unreadable { path, words }).words() == path@ + ": "@ + words@,
{
}

/// The headers that a setting names have its members, in their order: a string with
/// its variables expanded, and, for the model alone, a number or a truth value as it
/// prints.
pub proof fn headers_have_their_values(
    es: Seq<(Seq<char>, Tree)>,
    i: int,
    env: Seq<(Seq<char>, Seq<char>)>,
)
    requires
        0 <= i < es.len(),
    ensures
        ({
            let hs = header_list(Some(Tree::Dict(es)), true, env);
            let xs = header_list(Some(Tree::Dict(es)), false, env);
            &&& hs.len() == es.len() && xs.len() == es.len()
            &&& hs[i].0 == es[i].0 && xs[i].0 == es[i].0
            &&& es[i].1 matches Tree::Text(s) ==> hs[i].1 == expanded(s, env) && xs[i].1 == expanded(
                s,
                env,
            )
            &&& es[i].1 matches Tree::Number(n) ==> hs[i].1 == number_text(n)
            &&& es[i].1 == Tree::Bool(true) ==> hs[i].1 == "true"@
            &&& es[i].1 == Tree::Bool(false) ==> hs[i].1 == "false"@
        }),
        header_list(None, true, env).len() == 0,
        header_list(None, false, env).len() == 0,
        all_headers(es, false, env) ==> es[i].1 is Text,
        all_headers(es, true, env) ==> es[i].1 is Text || es[i].1 is Number || es[i].1 is Bool,
{
    if all_headers(es, false, env) {
        assert(header_value(es[i].1, false, env) is Some);
    }
    if all_headers(es, true, env) {
        assert(header_value(es[i].1, true, env) is Some);
    }
}

/// Members that are all strings make headers of either sort; for the model, numbers
/// and truth values do too.
pub proof fn strings_make_headers(
    es: Seq<(Seq<char>, Tree)>,
    env: Seq<(Seq<char>, Seq<char>)>,
)
    ensures
        (forall|i: int| 0 <= i < es.len() ==> (#[trigger] es[i]).1 is Text) ==> all_headers(
            es,
            false,
            env,
        ),
        (forall|i: int|
            0 <= i < es.len() ==> ((#[trigger] es[i]).1 is Text || es[i].1 is Number || es[i].1
                is Bool)) ==> all_headers(es, true, env),
{
}

/// A number that a `u64` can hold is taken, and the default in every other case.
pub proof fn numbers_or_defaults(t: Tree, default: u64)
    ensures
        number_or(None, default) == default,
        t matches Tree::Number(n) ==> (number_u64(n) matches Some(k) ==> number_or(
            Some(t),
            default,
        ) == k),
        t matches Tree::Number(n) ==> (number_u64(n) is None ==> number_or(Some(t), default)
            == default),
        !(t is Number) ==> number_or(Some(t), default) == default,
{
}

/// The budget is the one given, or 54 hundredths of the window, rounded down, where
/// the window is a million if none is given.
pub proof fn budgets_are_shares(b: serde_json::Number, w: serde_json::Number)
    ensures
        number_u64(b) matches Some(n) ==> budget_of(Some(Tree::Number(b)), Some(Tree::Number(w)))
            == n && budget_of(Some(Tree::Number(b)), None) == n,
        number_u64(w) matches Some(n) ==> (n * 54 <= u64::MAX ==> {
            let share = budget_of(None, Some(Tree::Number(w))) as int;
            100 * share <= 54 * n < 100 * (share + 1)
        }),
        budget_of(None, None) == 540_000,
{
}

/// The settings of a configuration are what it names under their names, or their
/// defaults.
pub proof fn settings_have_their_names(
    d: Draft,
    es: Seq<(Seq<char>, Tree)>,
    env: Seq<(Seq<char>, Seq<char>)>,
)
    requires
        d.reads(es, env),
    ensures
        lookup(es, "url"@) matches Some(Tree::Text(s)) ==> d.url@ == s,
        lookup(es, "exec"@) matches Some(Tree::Text(s)) ==> d.exec_url@ == s,
        lookup(es, "url"@) matches Some(Tree::Number(n)) ==> d.url@ == number_text(n),
        lookup(es, "exec"@) matches Some(Tree::Number(n)) ==> d.exec_url@ == number_text(n),
        lookup(es, "steps"@) is None ==> d.steps == 27,
        lookup(es, "steps"@) matches Some(Tree::Number(n)) ==> (number_u64(n) matches Some(k)
            ==> d.steps == k),
        lookup(es, "keep"@) is None ==> d.keep == 9,
        lookup(es, "keep"@) matches Some(Tree::Number(n)) ==> (number_u64(n) matches Some(k)
            ==> (k <= usize::MAX ==> d.keep == k)),
        d.budget == budget_of(lookup(es, "budget"@), lookup(es, "window"@)),
        lookup(es, "log"@) matches Some(Tree::Text(s)) ==> text_in(d.log) == Some(s),
        lookup(es, "log"@) is None ==> d.log is None,
        lookup(es, "listen"@) matches Some(Tree::Text(s)) ==> text_in(d.listen) == Some(s),
        lookup(es, "listen"@) is None ==> d.listen is None,
        lookup(es, "agents.md"@) matches Some(Tree::Text(s)) ==> text_in(d.inst) == Some(s),
        lookup(es, "agents.md"@) is None ==> (lookup(es, "agents"@) matches Some(Tree::Text(s))
            ==> text_in(d.inst) == Some(s)),
        lookup(es, "agents.md"@) is None && lookup(es, "agents"@) is None ==> d.inst is None,
        lookup(es, "headers"@) is None ==> d.headers@.len() == 0,
        lookup(es, "exec_headers"@) is None ==> d.exec_headers@.len() == 0,
        lookup(es, "headers"@) matches Some(Tree::Dict(hs)) ==> pairs(d.headers@) == header_list(
            Some(Tree::Dict(hs)),
            true,
            env,
        ),
        lookup(es, "exec_headers"@) matches Some(Tree::Dict(hs)) ==> pairs(d.exec_headers@)
            == header_list(Some(Tree::Dict(hs)), false, env),
        lookup(es, "tools"@) is None ==> d.tools is Absent,
        lookup(es, "tools"@) matches Some(Tree::Text(s)) ==> (d.tools matches Tools::File(p)
            && p@ == s),
        lookup(es, "tools"@) matches Some(t) ==> (!(t is Text) ==> (d.tools matches Tools::Inline(
            j,
        ) && j@ == t)),
        d.map@ == request_base(es),
        d.steps == number_or(lookup(es, "steps"@), 27),
        d.keep == number_or(lookup(es, "keep"@), 9) as usize,
        Some(d.url@) == scalar_at(es, "url"@),
        Some(d.exec_url@) == scalar_at(es, "exec"@),
        text_in(d.log) == scalar_at(es, "log"@),
        text_in(d.listen) == scalar_at(es, "listen"@),
        scalar_at(es, "agents.md"@) is Some ==> text_in(d.inst) == scalar_at(es, "agents.md"@),
        scalar_at(es, "agents.md"@) is None ==> text_in(d.inst) == scalar_at(es, "agents"@),
{
    assert(pairs(d.headers@).len() == d.headers@.len());
    assert(pairs(d.exec_headers@).len() == d.exec_headers@.len());
}

/// A configuration is without fault, tools and model aside, exactly where it has a
/// string, a number or a truth value for `url` and for `exec`, and its headers, where
/// it has any, are objects of values that make headers.
pub proof fn sound_configurations(
    es: Seq<(Seq<char>, Tree)>,
    env: Seq<(Seq<char>, Seq<char>)>,
)
    ensures
        draft_fault(es, env) is None <==> {
            &&& lookup(es, "url"@) matches Some(u) && (u is Text || u is Number || u is Bool)
            &&& lookup(es, "exec"@) matches Some(x) && (x is Text || x is Number || x is Bool)
            &&& lookup(es, "headers"@) matches Some(h) ==> h is Dict && all_headers(
                h.members(),
                true,
                env,
            )
            &&& lookup(es, "exec_headers"@) matches Some(h) ==> h is Dict && all_headers(
                h.members(),
                false,
                env,
            )
        },
        lookup(es, "url"@) is None ==> draft_fault(es, env) == Some(ConfigError::NeedsUrl),
        draft_fault(es, env) == Some(ConfigError::HeadersNotMap) ==> {
            lookup(es, "headers"@) matches Some(h) && !(h is Dict)
        },
        draft_fault(es, env) == Some(ConfigError::HeaderNotText) ==> {
            lookup(es, "headers"@) matches Some(h) && h is Dict
        },
        draft_fault(es, env) == Some(ConfigError::ExecHeadersNotMap) ==> {
            lookup(es, "exec_headers"@) matches Some(h) && !(h is Dict)
        },
        draft_fault(es, env) == Some(ConfigError::ExecHeaderNotText) ==> {
            lookup(es, "exec_headers"@) matches Some(h) && h is Dict
        },
        draft_fault(es, env) == Some(ConfigError::NeedsUrl) ==> !(lookup(es, "url"@) matches Some(
            Tree::Text(_),
        )),
        draft_fault(es, env) == Some(ConfigError::NeedsExec) ==> !(lookup(es, "exec"@) matches Some(
            Tree::Text(_),
        )),
        draft_fault(es, env) != Some(ConfigError::NotMap),
        draft_fault(es, env) != Some(ConfigError::NeedsModel),
{
}

/// Every member of a configuration that is none of the settings travels along with
/// the requests, under its key and as it stands; a setting never does, but for
/// `agents` where `agents.md` names the instructions.
pub proof fn other_members_travel(es: Seq<(Seq<char>, Tree)>, k: Seq<char>)
    requires
        ascending(es),
    ensures
        k != "url"@ && k != "key"@ && k != "headers"@ && k != "exec_headers"@ && k != "steps"@ && k
            != "keep"@ && k != "window"@ && k != "budget"@ && k != "exec"@ && k != "log"@ && k
            != "listen"@ && k != "agents.md"@ && k != "agents"@ && k != "tools"@ && k != "stream"@
            && k != "messages"@ ==> lookup(request_base(es), k) == lookup(es, k),
        k == "url"@ || k == "key"@ || k == "headers"@ || k == "exec_headers"@ || k == "steps"@ || k
            == "keep"@ || k == "window"@ || k == "budget"@ || k == "exec"@ || k == "log"@ || k
            == "listen"@ || k == "agents.md"@ || k == "tools"@ || k == "stream"@ || k
            == "messages"@ ==> lookup(request_base(es), k) is None,
        lookup(es, "agents.md"@) is None ==> lookup(request_base(es), "agents"@) is None,
        scalar_at(es, "agents.md"@) is None ==> lookup(request_base(es), "agents"@) is None,
        scalar_at(es, "agents.md"@) is Some ==> lookup(request_base(es), "agents"@) == lookup(
            es,
            "agents"@,
        ),
        lookup(es, "agents.md"@) matches Some(Tree::Text(_)) ==> lookup(
            request_base(es),
            "agents"@,
        ) == lookup(es, "agents"@),
{
    let ks = setting_keys();
    settings_stay_behind(es, k);
    assert(ks[0] == "url"@ && ks[1] == "key"@ && ks[2] == "headers"@);
    assert(ks[3] == "exec_headers"@ && ks[4] == "steps"@ && ks[5] == "keep"@);
    assert(ks[6] == "window"@ && ks[7] == "budget"@ && ks[8] == "exec"@);
    assert(ks[9] == "log"@ && ks[10] == "listen"@ && ks[11] == "agents.md"@);
    assert(ks[12] == "tools"@ && ks[13] == "stream"@ && ks[14] == "messages"@);
    lemma_without_all(es, ks, "agents"@);
    without_then_lookup(without_all(es, ks), "agents"@, "agents"@);
    lemma_agents_key();
}

proof fn lemma_agents_key()
    ensures
        !setting_keys().contains("agents"@),
{
    reveal_strlit("agents");
    reveal_strlit("url");
    reveal_strlit("key");
    reveal_strlit("headers");
    reveal_strlit("exec_headers");
    reveal_strlit("steps");
    reveal_strlit("keep");
    reveal_strlit("window");
    reveal_strlit("budget");
    reveal_strlit("exec");
    reveal_strlit("log");
    reveal_strlit("listen");
    reveal_strlit("agents.md");
    reveal_strlit("tools");
    reveal_strlit("stream");
    reveal_strlit("messages");
    let ks = setting_keys();
    assert forall|i: int| 0 <= i < ks.len() implies ks[i] != "agents"@ by {
        if ks[i].len() == "agents"@.len() {
            assert(ks[i][0] == 'w' || ks[i][0] == 'b' || ks[i][0] == 'l' || ks[i][0] == 's');
        }
    }
}

/// The tools go along with every request as the model sees them, and nothing else
/// changes; without tools, nothing does.
pub proof fn tools_travel(base: Seq<(Seq<char>, Tree)>, t: Tree, k: Seq<char>)
    ensures
        lookup(with_tools(base, Some(t)), "tools"@) == Some(peeled(t)),
        k != "tools"@ ==> lookup(with_tools(base, Some(t)), k) == lookup(base, k),
        with_tools(base, None) == base,
{
    put_then_lookup(base, "tools"@, peeled(t), "tools"@);
    put_then_lookup(base, "tools"@, peeled(t), k);
}

/// A request names its model exactly where there is a string under `model` that is
/// not empty.
pub proof fn models_are_named(base: Seq<(Seq<char>, Tree)>)
    ensures
        names_model(base) <==> (lookup(base, "model"@) matches Some(Tree::Text(s)) && s.len() > 0),
{
}

/// The settings of the program are those of the draft, with the routes of the tools
/// and what every request carries along.
pub proof fn drafts_become_settings(d: Draft, c: Cfg, t: Tree)
    ensures
        d.completes(Some(t), Ok(c)) ==> {
            &&& lookup(c.map@, "tools"@) == Some(peeled(t))
            &&& c.specs@ == routes(t.items(), true)
        },
        d.completes(None, Ok(c)) ==> c.map@ == d.map@ && c.specs@.len() == 0,
        d.completes(Some(t), Ok(c)) || d.completes(None, Ok(c)) ==> {
            &&& c.url@ == d.url@
            &&& c.headers@ == d.headers@
            &&& c.exec_headers@ == d.exec_headers@
            &&& c.steps == d.steps
            &&& c.keep == d.keep
            &&& c.budget == d.budget
            &&& c.exec_url@ == d.exec_url@
            &&& c.log == d.log
            &&& c.inst == d.inst
            &&& c.listen == d.listen
            &&& lookup(c.map@, "model"@) matches Some(Tree::Text(s)) && s.len() > 0
        },
{
    tools_travel(d.map@, t, "model"@);
}

/// Tools are those at hand, or those read from the file that is named.
pub proof fn tools_are_found(j: Json, p: String, file: Tree, words: Seq<char>)
    ensures
        tools_found(Tools::Absent, Ok(file)) == Ok::<Option<Tree>, Seq<char>>(None),
        tools_found(Tools::Absent, Err(words)) == Ok::<Option<Tree>, Seq<char>>(None),
        tools_found(Tools::Inline(j), Ok(file)) == Ok::<Option<Tree>, Seq<char>>(Some(j@)),
        tools_found(Tools::Inline(j), Err(words)) == Ok::<Option<Tree>, Seq<char>>(Some(j@)),
        tools_found(Tools::File(p), Ok(file)) == Ok::<Option<Tree>, Seq<char>>(Some(file)),
        tools_found(Tools::File(p), Err(words)) == Err::<Option<Tree>, Seq<char>>(words),
{
}

/// What was read from a configuration file makes settings exactly where it is an
/// object without fault, and the error says otherwise what was wrong.
pub proof fn files_make_settings(
    path: Seq<char>,
    es: Seq<(Seq<char>, Tree)>,
    t: Tree,
    words: Seq<char>,
    env: Seq<(Seq<char>, Seq<char>)>,
    r: Result<Draft, LoadError>,
)
    ensures
        loads(path, Err(words), env, r) ==> (r matches Err(LoadError::Unreadable {
            path: p,
            words: w,
        }) && p@ == path && w@ == words),
        !(t is Dict) ==> (loads(path, Ok(t), env, r) ==> r == Err::<Draft, LoadError>(
            LoadError::Fault(ConfigError::NotMap),
        )),
        loads(path, Ok(Tree::Dict(es)), env, r) ==> (draft_fault(es, env) matches Some(f) ==> r
            == Err::<Draft, LoadError>(LoadError::Fault(f))),
        loads(path, Ok(Tree::Dict(es)), env, r) ==> (draft_fault(es, env) is None ==> (r matches Ok(
            d,
        ) && d.reads(es, env))),
{
}

/// Words on the command line that begin with no `-` make up the prompt, in their
/// order; `-c` names the configuration file by the word behind it, wherever it stands;
/// `-h` and `--help` ask for help; and any other word with `-` in front is a fault.
pub proof fn arguments_are_read(
    a: Seq<char>,
    rest: Seq<Seq<char>>,
    config: Seq<char>,
    words: Seq<Seq<char>>,
)
    ensures
        command(seq![], config, words) == (Command::Run { config, prompt: joined(words, " "@) }),
        a.len() == 0 || a[0] != '-' ==> command(seq![a] + rest, config, words) == command(
            rest,
            config,
            words.push(a),
        ),
        command(seq!["-c"@, a] + rest, config, words) == command(rest, a, words),
        command(seq!["-c"@], config, words) == (Command::Fault { words: "-c needs a file"@ }),
        command(seq!["-h"@] + rest, config, words) is Help,
        command(seq!["--help"@] + rest, config, words) is Help,
        a.len() > 0 && a[0] == '-' && a != "-c"@ && a != "-h"@ && a != "--help"@ ==> command(
            seq![a] + rest,
            config,
            words,
        ) == (Command::Fault { words: "unknown flag "@ + a }),
{
    reveal_strlit("-");
    reveal_strlit("-c");
    reveal_strlit("-h");
    reveal_strlit("--help");
    assert("-c"@[0] == '-' && "-h"@[0] == '-' && "--help"@[0] == '-');
    assert("-c"@[1] != "-h"@[1]);
    assert("-c"@.len() != "--help"@.len());
    assert((seq![a] + rest).skip(1) =~= rest);
    assert((seq!["-c"@, a] + rest).skip(2) =~= rest);
    assert((seq!["-c"@, a] + rest)[1] == a);
    if a.len() > 0 {
        assert(a.take(1) =~= seq![a[0]]);
        assert("-"@ =~= seq!['-']);
        if a[0] == '-' {
            assert(has_prefix(a, "-"@));
        } else {
            assert(a.take(1)[0] != "-"@[0]);
        }
    }
}

/// Headers that set no type of the content get one behind them, that of JSON; headers
/// that set one, in whatever case, are sent as they are.
pub proof fn content_is_json(hs: Seq<(Seq<char>, Seq<char>)>, i: int)
    ensures
        (forall|j: int| 0 <= j < hs.len() ==> lower((#[trigger] hs[j]).0) != "content-type"@)
            ==> typed(hs) == hs.push(("Content-Type"@, "application/json"@)),
        0 <= i < hs.len() && lower(hs[i].0) == "content-type"@ ==> typed(hs) == hs,
{
}

/// Strings say what they say, one by one.
pub proof fn texts_say_their_strings(v: Seq<String>, i: int)
    requires
        0 <= i < v.len(),
    ensures
        texts(v).len() == v.len(),
        texts(v)[i] == v[i]@,
{
}

/// What the command line asks for is what its parts say.
pub proof fn commands_say_their_parts(config: String, prompt: String, words: String)
    ensures
        (Cli::Run { config, prompt })@ == (Command::Run { config: config@, prompt: prompt@ }),
        Cli::Help@ is Help,
        (Cli::Fault { words })@ == (Command::Fault { words: words@ }),
{
}

/// A string, a number or a truth value under a key is read as its text; everything
/// else, and nothing, as none.
pub proof fn scalars_are_read(es: Seq<(Seq<char>, Tree)>, k: Seq<char>)
    ensures
        lookup(es, k) matches Some(Tree::Text(s)) ==> scalar_at(es, k) == Some(s),
        lookup(es, k) matches Some(Tree::Number(n)) ==> scalar_at(es, k) == Some(number_text(n)),
        lookup(es, k) == Some(Tree::Bool(true)) ==> scalar_at(es, k) == Some("true"@),
        lookup(es, k) == Some(Tree::Bool(false)) ==> scalar_at(es, k) == Some("false"@),
        lookup(es, k) is None ==> scalar_at(es, k) is None,
        lookup(es, k) matches Some(t) ==> (t is Null || t is List || t is Dict ==> scalar_at(es, k)
            is None),
{
}

} // verus!

//! Query strings: percent encoding, and the members of an object as a query.

use vstd::prelude::*;
use vstd::string::*;
use vstd::utf8::*;

use crate::json::{reading, Dict, Json};
use crate::text::{
    has_char, has_prefix, join, joined, lemma_encoding_concat, lemma_encoding_injective, same,
};
use crate::value::{read_bytes, tree_text, Tree};

verus! {

/// The bytes that stand for themselves: letters, digits, `-`, `_`, `.` and `~`.
pub open spec fn unreserved(b: u8) -> bool {
    ||| 65 <= b <= 90
    ||| 97 <= b <= 122
    ||| 48 <= b <= 57
    ||| b == 45
    ||| b == 95
    ||| b == 46
    ||| b == 126
}

/// The digit for `d`, which is below sixteen, with letters in upper case.
pub open spec fn upper_digit(d: u8) -> char {
    if d < 10 {
        ((48 + d) as u8) as char
    } else {
        ((55 + d) as u8) as char
    }
}

/// One byte as it stands in a query.
pub open spec fn encoded_byte(b: u8) -> Seq<char> {
    if unreserved(b) {
        seq![b as char]
    } else {
        seq!['%', upper_digit(b / 16), upper_digit(b % 16)]
    }
}

/// The bytes as they stand in a query, one after the other.
pub open spec fn encoded_bytes(bytes: Seq<u8>) -> Seq<char>
    decreases bytes.len(),
{
    if bytes.len() == 0 {
        seq![]
    } else {
        encoded_bytes(bytes.drop_last()) + encoded_byte(bytes.last())
    }
}

/// The text as it stands in a query: its UTF-8 bytes, percent-encoded.
pub open spec fn encoded(s: Seq<char>) -> Seq<char> {
    encoded_bytes(encode_utf8(s))
}

/// The text of `s`, percent-encoded.
pub fn enc(s: &str) -> (r: String)
    ensures
        r@ == encoded(s@),
{
    let bytes = s.as_bytes();
    let mut out = String::new();
    for i in 0..bytes.len()
        invariant
            bytes@ == encode_utf8(s@),
            out@ == encoded_bytes(bytes@.take(i as int)),
    {
        let b = bytes[i];
        assert(bytes@.take(i + 1).drop_last() =~= bytes@.take(i as int));
        let ghost start = out@;
        if (65 <= b && b <= 90) || (97 <= b && b <= 122) || (48 <= b && b <= 57) || b == 45 || b
            == 95 || b == 46 || b == 126 {
            out.push(b as char);
            assert(out@ =~= start + encoded_byte(b));
        } else {
            out.push('%');
            out.push(upper_digit_char(b / 16));
            out.push(upper_digit_char(b % 16));
            assert(out@ =~= start + encoded_byte(b));
        }
    }
    assert(bytes@.take(bytes@.len() as int) =~= bytes@);
    out
}

fn upper_digit_char(d: u8) -> (r: char)
    requires
        d < 16,
    ensures
        r == upper_digit(d),
{
    if d < 10 {
        (48 + d) as char
    } else {
        (55 + d) as char
    }
}

/// A value as it stands in a query: a string as it is, everything else as JSON.
pub open spec fn argument(t: Tree) -> Seq<char> {
    match t {
        Tree::Text(s) => s,
        _ => tree_text(t),
    }
}

/// A member as a part of a query.
pub open spec fn query_part(e: (Seq<char>, Tree)) -> Seq<char> {
    encoded(e.0) + "="@ + encoded(argument(e.1))
}

/// The members that are not null, each as `key=value`, in their order.
pub open spec fn query_parts(es: Seq<(Seq<char>, Tree)>) -> Seq<Seq<char>>
    decreases es.len(),
{
    if es.len() == 0 {
        seq![]
    } else {
        let parts = query_parts(es.drop_last());
        if es.last().1 is Null {
            parts
        } else {
            parts.push(query_part(es.last()))
        }
    }
}

/// The query that carries the members of the document; what is no object has
/// none.
pub open spec fn query(t: Tree) -> Seq<char> {
    joined(query_parts(t.members()), "&"@)
}

/// The methods whose arguments travel in the address.
pub open spec fn in_address(method: Seq<char>) -> bool {
    method == "GET"@ || method == "HEAD"@ || method == "DELETE"@
}

/// `url` with the query `q`, behind the query that it may have.
pub open spec fn with_query(url: Seq<char>, q: Seq<char>) -> Seq<char> {
    if q.len() == 0 {
        url
    } else if url.contains('?') {
        url + "&"@ + q
    } else {
        url + "?"@ + q
    }
}

/// The address to which a call with these arguments goes.
pub open spec fn destination(url: Seq<char>, method: Seq<char>, args: Tree) -> Seq<char> {
    if in_address(method) {
        with_query(url, query(args))
    } else {
        url
    }
}

/// The query that carries the members of the document that was read; where none
/// was, nothing.
pub open spec fn query_read(parsed: Result<Tree, Seq<char>>) -> Seq<char> {
    match parsed {
        Ok(t) => query(t),
        Err(_) => seq![],
    }
}

fn argument_text(j: &Json) -> (r: String)
    ensures
        r@ == argument(j@),
{
    match j {
        Json::Text(s) => s.clone(),
        _ => j.to_text(),
    }
}

fn dict_parts(d: &Dict) -> (r: Vec<String>)
    ensures
        r@.map_values(|p: String| p@) == query_parts(d@),
{
    let mut parts: Vec<String> = Vec::new();
    let n: usize = d.len();
    for i in 0..n
        invariant
            n == d@.len(),
            parts@.map_values(|p: String| p@) == query_parts(d@.take(i as int)),
    {
        assert(d@.take(i + 1).drop_last() =~= d@.take(i as int));
        let j = d.value(i);
        match j {
            Json::Null => {},
            _ => {
                let mut part = enc(d.key(i));
                part.append("=");
                part.append(&enc(&argument_text(j)));
                let ghost start = parts@;
                parts.push(part);
                assert(parts@.map_values(|p: String| p@) =~= start.map_values(
                    |p: String| p@,
                ).push(part@));
            },
        }
    }
    assert(d@.take(d@.len() as int) =~= d@);
    parts
}

/// The query that carries the members of `args`.
pub fn qs(args: &Json) -> (r: String)
    ensures
        r@ == query(args@),
{
    match args {
        Json::Dict(d) => join(&dict_parts(d), "&"),
        _ => String::new(),
    }
}

/// Whether the arguments of a call with this method travel in the address.
pub fn getish(method: &str) -> (r: bool)
    ensures
        r == in_address(method@),
{
    same(method, "GET") || same(method, "HEAD") || same(method, "DELETE")
}

/// The address to which a call of `exec` with these arguments goes.
pub fn tool_dest(exec: &str, method: &str, args: &Json) -> (r: String)
    ensures
        r@ == destination(exec@, method@, args@),
{
    if !getish(method) {
        return exec.to_string();
    }
    let q = qs(args);
    if q.as_str().is_empty() {
        return exec.to_string();
    }
    let mut r = exec.to_string();
    if has_char(exec, '?') {
        r.append("&");
    } else {
        r.append("?");
    }
    r.append(&q);
    r
}

/// The bytes of the query that carries the members of the object that was read;
/// none where no object was.
pub fn query_of(parsed: &Result<Json, String>) -> (r: Vec<u8>)
    ensures
        r@ == encode_utf8(query_read(reading(*parsed))),
{
    let q = match parsed {
        Ok(v) => qs(v),
        Err(_) => String::new(),
    };
    q.as_str().as_bytes_vec()
}

/// The bytes of the query that carries the members of the object that `raw`
/// spells; none where it spells no object.
pub fn min_qs(raw: &[u8]) -> (r: Vec<u8>)
    ensures
        r@ == encode_utf8(query_read(read_bytes(raw@))),
{
    query_of(&Json::parse_bytes(raw))
}

/// The bytes that a percent-encoded text spells.
pub open spec fn decoded(s: Seq<char>) -> Seq<u8>
    decreases s.len(),
{
    if s.len() == 0 {
        seq![]
    } else if s[0] == '%' && s.len() >= 3 {
        seq![(16 * upper_digit_value(s[1]) + upper_digit_value(s[2])) as u8] + decoded(s.skip(3))
    } else {
        seq![s[0] as u8] + decoded(s.skip(1))
    }
}

/// The value of an upper-case hexadecimal digit.
pub open spec fn upper_digit_value(c: char) -> int {
    if c <= '9' {
        c as int - 48
    } else {
        c as int - 55
    }
}

proof fn lemma_encoded_concat(a: Seq<u8>, b: Seq<u8>)
    ensures
        encoded_bytes(a + b) == encoded_bytes(a) + encoded_bytes(b),
    decreases b.len(),
{
    if b.len() == 0 {
        assert(a + b =~= a);
        assert(encoded_bytes(a) + encoded_bytes(b) =~= encoded_bytes(a));
    } else {
        assert((a + b).drop_last() =~= a + b.drop_last());
        lemma_encoded_concat(a, b.drop_last());
        assert(encoded_bytes(a + b) =~= encoded_bytes(a) + encoded_bytes(b));
    }
}

proof fn lemma_decode_bytes(bytes: Seq<u8>)
    ensures
        decoded(encoded_bytes(bytes)) == bytes,
    decreases bytes.len(),
{
    if bytes.len() > 0 {
        let b = bytes[0];
        let rest = bytes.drop_first();
        lemma_decode_bytes(rest);
        assert(bytes =~= seq![b] + rest);
        lemma_encoded_concat(seq![b], rest);
        let none: Seq<u8> = seq![];
        assert(seq![b].drop_last() =~= none);
        assert(encoded_bytes(none) =~= seq![]);
        assert(encoded_bytes(seq![b]) =~= encoded_byte(b));
        let e = encoded_byte(b) + encoded_bytes(rest);
        assert(e == encoded_bytes(bytes));
        if unreserved(b) {
            assert(e.skip(1) =~= encoded_bytes(rest));
        } else {
            assert(e.skip(3) =~= encoded_bytes(rest));
        }
    }
}

/// Decoding undoes the encoding: it gives back the bytes of the text.
pub proof fn encoding_undone(s: Seq<char>)
    ensures
        decoded(encoded(s)) == encode_utf8(s),
{
    lemma_decode_bytes(encode_utf8(s));
}

/// Different texts have different encodings.
pub proof fn encoding_injective(a: Seq<char>, b: Seq<char>)
    requires
        encoded(a) == encoded(b),
    ensures
        a == b,
{
    encoding_undone(a);
    encoding_undone(b);
    lemma_encoding_injective(a, b);
}

/// A character that an encoded text can hold.
pub open spec fn query_safe(c: char) -> bool {
    c == '%' || ((c as u32) < 128 && unreserved(c as u8))
}

proof fn lemma_safe_bytes(bytes: Seq<u8>)
    ensures
        forall|i: int| 0 <= i < encoded_bytes(bytes).len() ==> query_safe(#[trigger] encoded_bytes(bytes)[i]),
    decreases bytes.len(),
{
    if bytes.len() > 0 {
        lemma_safe_bytes(bytes.drop_last());
        let head = encoded_bytes(bytes.drop_last());
        let b = bytes.last();
        assert forall|i: int| 0 <= i < encoded_bytes(bytes).len() implies query_safe(
            #[trigger] encoded_bytes(bytes)[i],
        ) by {
            if i < head.len() {
                assert(encoded_bytes(bytes)[i] == head[i]);
            } else {
                assert(encoded_bytes(bytes)[i] == encoded_byte(b)[i - head.len()]);
            }
        }
    }
}

/// An encoded text holds letters, digits, `-`, `_`, `.`, `~` and `%` alone; so
/// none of the characters that set the parts of an address apart.
pub proof fn encoding_safe(s: Seq<char>)
    ensures
        forall|i: int| 0 <= i < encoded(s).len() ==> query_safe(#[trigger] encoded(s)[i]),
        !encoded(s).contains('&'),
        !encoded(s).contains('='),
        !encoded(s).contains('?'),
        !encoded(s).contains('#'),
        !encoded(s).contains('/'),
{
    lemma_safe_bytes(encode_utf8(s));
}

proof fn lemma_safe_is_ascii(c: char)
    requires
        query_safe(c),
    ensures
        '\0' <= c <= '\u{7f}',
{
}

/// A text of unreserved ASCII characters is its own encoding.
pub proof fn encoding_of_unreserved(s: Seq<char>)
    requires
        forall|i: int| 0 <= i < s.len() ==> (#[trigger] s[i]) != '%' && query_safe(s[i]),
    ensures
        encoded(s) == s,
{
    assert forall|i: int| 0 <= i < s.len() implies '\0' <= (#[trigger] s[i]) <= '\u{7f}' by {
        lemma_safe_is_ascii(s[i]);
    }
    is_ascii_chars_encode_utf8(s);
    let e = encode_utf8(s);
    assert forall|i: int| 0 <= i < e.len() implies unreserved(#[trigger] e[i]) by {
        assert(e[i] == s[i] as u8);
    }
    lemma_unreserved(e);
    assert forall|i: int| 0 <= i < s.len() implies encoded(s)[i] == s[i] by {
        assert(e[i] == s[i] as u8);
    }
    assert(encoded(s) =~= s);
}

proof fn lemma_unreserved(bytes: Seq<u8>)
    requires
        forall|i: int| 0 <= i < bytes.len() ==> unreserved(#[trigger] bytes[i]),
    ensures
        encoded_bytes(bytes).len() == bytes.len(),
        forall|i: int| 0 <= i < bytes.len() ==> #[trigger] encoded_bytes(bytes)[i] == bytes[i] as char,
    decreases bytes.len(),
{
    if bytes.len() > 0 {
        let rest = bytes.drop_last();
        assert forall|i: int| 0 <= i < rest.len() implies unreserved(#[trigger] rest[i]) by {
            assert(rest[i] == bytes[i]);
        }
        lemma_unreserved(rest);
        assert(unreserved(bytes[bytes.len() - 1]));
        assert forall|i: int| 0 <= i < bytes.len() implies #[trigger] encoded_bytes(bytes)[i]
            == bytes[i] as char by {
            if i < rest.len() {
                assert(encoded_bytes(bytes)[i] == encoded_bytes(rest)[i]);
                assert(rest[i] == bytes[i]);
            }
        }
    }
}

/// A null member does not show in the query.
pub proof fn query_skips_null(es: Seq<(Seq<char>, Tree)>, k: Seq<char>, rest: Seq<(Seq<char>, Tree)>)
    ensures
        query(Tree::Dict(es + seq![(k, Tree::Null)] + rest)) == query(Tree::Dict(es + rest)),
{
    lemma_parts_skip_null(es, k, rest);
}

proof fn lemma_parts_skip_null(
    es: Seq<(Seq<char>, Tree)>,
    k: Seq<char>,
    rest: Seq<(Seq<char>, Tree)>,
)
    ensures
        query_parts(es + seq![(k, Tree::Null)] + rest) == query_parts(es + rest),
    decreases rest.len(),
{
    let full = es + seq![(k, Tree::Null)] + rest;
    if rest.len() == 0 {
        assert(full.drop_last() =~= es);
        assert(es + rest =~= es);
    } else {
        lemma_parts_skip_null(es, k, rest.drop_last());
        assert(full.drop_last() =~= es + seq![(k, Tree::Null)] + rest.drop_last());
        assert((es + rest).drop_last() =~= es + rest.drop_last());
    }
}

/// The address comes first in every destination, whatever the arguments.
pub proof fn destination_begins_with_address(url: Seq<char>, method: Seq<char>, args: Tree)
    ensures
        has_prefix(destination(url, method, args), url),
{
    let d = destination(url, method, args);
    assert(d.take(url.len() as int) =~= url);
}

/// The encoding of two texts one after the other is that of the first, and then
/// that of the second.
pub proof fn encoding_of_two_parts(a: Seq<char>, b: Seq<char>)
    ensures
        encoded(a + b) == encoded(a) + encoded(b),
{
    lemma_encoding_concat(a, b);
    lemma_encoded_concat(encode_utf8(a), encode_utf8(b));
}

/// The number of bytes that do not stand for themselves.
pub open spec fn reserved_count(bytes: Seq<u8>) -> nat
    decreases bytes.len(),
{
    if bytes.len() == 0 {
        0
    } else {
        reserved_count(bytes.drop_last()) + if unreserved(bytes.last()) {
            0nat
        } else {
            1nat
        }
    }
}

proof fn lemma_encoded_len(bytes: Seq<u8>)
    ensures
        encoded_bytes(bytes).len() == bytes.len() + 2 * reserved_count(bytes),
        reserved_count(bytes) <= bytes.len(),
    decreases bytes.len(),
{
    if bytes.len() > 0 {
        lemma_encoded_len(bytes.drop_last());
    }
}

/// An encoding has one character for each byte that stands for itself, and three
/// for every other.
pub proof fn encoding_len(s: Seq<char>)
    ensures
        encoded(s).len() == encode_utf8(s).len() + 2 * reserved_count(encode_utf8(s)),
        encode_utf8(s).len() <= encoded(s).len() <= 3 * encode_utf8(s).len(),
{
    lemma_encoded_len(encode_utf8(s));
}

/// The pieces of `s` between the occurrences of `c`.
pub open spec fn split(s: Seq<char>, c: char) -> Seq<Seq<char>>
    decreases s.len(),
{
    if s.len() == 0 {
        seq![seq![]]
    } else {
        let head = split(s.drop_last(), c);
        if s.last() == c {
            head.push(seq![])
        } else {
            head.drop_last().push(head.last().push(s.last()))
        }
    }
}

proof fn lemma_split_len(s: Seq<char>, c: char)
    ensures
        split(s, c).len() > 0,
    decreases s.len(),
{
    if s.len() > 0 {
        lemma_split_len(s.drop_last(), c);
    }
}

proof fn lemma_split_whole(s: Seq<char>, c: char)
    requires
        !s.contains(c),
    ensures
        split(s, c) == seq![s],
    decreases s.len(),
{
    if s.len() == 0 {
        assert(s =~= seq![]);
    } else {
        let head = s.drop_last();
        assert(s.contains(s[s.len() - 1]));
        assert forall|i: int| 0 <= i < head.len() implies head[i] != c by {
            assert(s.contains(s[i]));
        }
        lemma_split_whole(head, c);
        assert(head.push(s.last()) =~= s);
        assert(split(s, c) =~= seq![s]);
    }
}

proof fn lemma_split_last(a: Seq<char>, c: char, b: Seq<char>)
    requires
        !b.contains(c),
    ensures
        split(a + seq![c] + b, c) == split(a, c).push(b),
    decreases b.len(),
{
    let s = a + seq![c] + b;
    if b.len() == 0 {
        assert(s.last() == c);
        assert(s.drop_last() =~= a);
        assert(b =~= seq![]);
    } else {
        let head = b.drop_last();
        assert(b.contains(b[b.len() - 1]));
        assert forall|i: int| 0 <= i < head.len() implies head[i] != c by {
            assert(b.contains(b[i]));
        }
        lemma_split_last(a, c, head);
        assert(s.drop_last() =~= a + seq![c] + head);
        assert(s.last() == b.last());
        assert(head.push(b.last()) =~= b);
        assert(split(a, c).push(head).drop_last() =~= split(a, c));
    }
}

proof fn lemma_split_joined(parts: Seq<Seq<char>>)
    requires
        parts.len() > 0,
        forall|i: int| 0 <= i < parts.len() ==> !(#[trigger] parts[i]).contains('&'),
    ensures
        split(joined(parts, "&"@), '&') == parts,
    decreases parts.len(),
{
    assert(!parts[parts.len() - 1].contains('&'));
    if parts.len() == 1 {
        lemma_split_whole(parts[0], '&');
        assert(seq![parts[0]] =~= parts);
    } else {
        let head = parts.drop_last();
        assert forall|i: int| 0 <= i < head.len() implies !(#[trigger] head[i]).contains('&') by {
            assert(head[i] == parts[i]);
        }
        lemma_split_joined(head);
        reveal_strlit("&");
        assert("&"@ =~= seq!['&']);
        lemma_split_last(joined(head, "&"@), '&', parts.last());
        assert(head.push(parts.last()) =~= parts);
    }
}

/// The members that are not null, in their order.
pub open spec fn kept(es: Seq<(Seq<char>, Tree)>) -> Seq<(Seq<char>, Tree)>
    decreases es.len(),
{
    if es.len() == 0 {
        seq![]
    } else if es.last().1 is Null {
        kept(es.drop_last())
    } else {
        kept(es.drop_last()).push(es.last())
    }
}

proof fn lemma_parts_kept(es: Seq<(Seq<char>, Tree)>)
    ensures
        query_parts(es).len() == kept(es).len(),
        forall|i: int|
            0 <= i < kept(es).len() ==> #[trigger] query_parts(es)[i] == query_part(kept(es)[i]),
    decreases es.len(),
{
    if es.len() > 0 {
        lemma_parts_kept(es.drop_last());
    }
}

proof fn lemma_part_splits(e: (Seq<char>, Tree))
    ensures
        !query_part(e).contains('&'),
        split(query_part(e), '=') == seq![encoded(e.0), encoded(argument(e.1))],
{
    let k = encoded(e.0);
    let v = encoded(argument(e.1));
    let p = query_part(e);
    encoding_safe(e.0);
    encoding_safe(argument(e.1));
    reveal_strlit("=");
    assert("="@ =~= seq!['=']);
    lemma_split_whole(k, '=');
    lemma_split_last(k, '=', v);
    assert(seq![k].push(v) =~= seq![k, v]);
    assert forall|i: int| 0 <= i < p.len() implies p[i] != '&' by {
        if i < k.len() {
            assert(k.contains(k[i]));
        } else if i > k.len() {
            assert(v.contains(v[i - k.len() - 1]));
        }
    }
}

/// A query splits back into the members that it carries: at each `&` into parts,
/// and a part at its only `=` into a key and a value, whose decoding gives back the
/// bytes of the key and of what the value stands for.
pub proof fn query_splits_back(es: Seq<(Seq<char>, Tree)>)
    ensures
        kept(es).len() == 0 ==> query(Tree::Dict(es)).len() == 0,
        kept(es).len() > 0 ==> {
            let parts = split(query(Tree::Dict(es)), '&');
            &&& parts.len() == kept(es).len()
            &&& forall|i: int|
                0 <= i < parts.len() ==> {
                    let pair = split(#[trigger] parts[i], '=');
                    &&& pair.len() == 2
                    &&& decoded(pair[0]) == encode_utf8(kept(es)[i].0)
                    &&& decoded(pair[1]) == encode_utf8(argument(kept(es)[i].1))
                }
        },
{
    let parts = query_parts(es);
    lemma_parts_kept(es);
    assert forall|i: int| 0 <= i < parts.len() implies !(#[trigger] parts[i]).contains('&')
        && split(parts[i], '=') == seq![
        encoded(kept(es)[i].0),
        encoded(argument(kept(es)[i].1)),
    ] && decoded(encoded(kept(es)[i].0)) == encode_utf8(kept(es)[i].0) && decoded(
        encoded(argument(kept(es)[i].1)),
    ) == encode_utf8(argument(kept(es)[i].1)) by {
        lemma_part_splits(kept(es)[i]);
        encoding_undone(kept(es)[i].0);
        encoding_undone(argument(kept(es)[i].1));
    }
    if parts.len() > 0 {
        lemma_split_joined(parts);
    }
}

/// The characters that stand for themselves, named one by one: letters, digits,
/// `-`, `_`, `.` and `~`.
pub open spec fn plain_char(c: char) -> bool {
    ||| 'A' <= c <= 'Z'
    ||| 'a' <= c <= 'z'
    ||| '0' <= c <= '9'
    ||| c == '-'
    ||| c == '_'
    ||| c == '.'
    ||| c == '~'
}

proof fn lemma_encoded_single(b: u8)
    ensures
        encoded_bytes(seq![b]) == encoded_byte(b),
{
    let none: Seq<u8> = seq![];
    assert(seq![b].drop_last() =~= none);
    assert(encoded_bytes(none) + encoded_byte(b) =~= encoded_byte(b));
}

/// Of the ASCII characters, those that are plain stand for themselves, and every
/// other one for `%` with its number in two digits behind it, letters in capitals.
pub proof fn encoding_of_one_character(c: char)
    requires
        c <= '\u{7f}',
    ensures
        plain_char(c) ==> encoded(seq![c]) == seq![c],
        !plain_char(c) ==> encoded(seq![c]) == seq![
            '%',
            "0123456789ABCDEF"@[c as int / 16],
            "0123456789ABCDEF"@[c as int % 16],
        ],
{
    is_ascii_chars_encode_utf8(seq![c]);
    assert(encode_utf8(seq![c]) =~= seq![c as u8]);
    lemma_encoded_single(c as u8);
    reveal_strlit("0123456789ABCDEF");
}

/// A byte beyond ASCII stands for `%` with its number in two digits behind it,
/// letters in capitals, wherever it stands.
pub proof fn encoding_beyond_ascii(a: Seq<u8>, b: u8)
    requires
        b >= 128,
    ensures
        encoded_bytes(a.push(b)) == encoded_bytes(a) + seq![
            '%',
            "0123456789ABCDEF"@[b as int / 16],
            "0123456789ABCDEF"@[b as int % 16],
        ],
{
    assert(a.push(b).drop_last() =~= a);
    reveal_strlit("0123456789ABCDEF");
}

/// A text is encoded by its bytes, each on its own.
pub proof fn encoding_goes_by_bytes(s: Seq<char>, a: Seq<u8>, b: Seq<u8>)
    requires
        encode_utf8(s) == a + b,
    ensures
        encoded(s) == encoded_bytes(a) + encoded_bytes(b),
{
    lemma_encoded_concat(a, b);
}

/// A query carries a string as it is, and every other value but null as its JSON
/// text: the parts of the query decode to the bytes of the keys and of these.
pub proof fn queries_carry_values(es: Seq<(Seq<char>, Tree)>, i: int)
    requires
        0 <= i < kept(es).len(),
    ensures
        ({
            let parts = split(query(Tree::Dict(es)), '&');
            let pair = split(parts[i], '=');
            let (k, t) = kept(es)[i];
            &&& parts.len() == kept(es).len()
            &&& pair.len() == 2
            &&& decoded(pair[0]) == encode_utf8(k)
            &&& t matches Tree::Text(s) ==> decoded(pair[1]) == encode_utf8(s)
            &&& !(t is Text) ==> decoded(pair[1]) == encode_utf8(tree_text(t))
        }),
{
    query_splits_back(es);
    let parts = split(query(Tree::Dict(es)), '&');
    let pair = split(parts[i], '=');
    assert(pair.len() == 2);
}

/// The query of one member more is the query with one part more, at its end, unless
/// the member is null; the part is the key, `=`, and the value, both encoded.
pub proof fn queries_grow_by_members(es: Seq<(Seq<char>, Tree)>, k: Seq<char>, t: Tree)
    ensures
        t is Null ==> query(Tree::Dict(es.push((k, t)))) == query(Tree::Dict(es)),
        !(t is Null) ==> {
            let one = query(Tree::Dict(seq![(k, t)]));
            let all = query(Tree::Dict(es.push((k, t))));
            &&& query(Tree::Dict(es)).len() == 0 ==> all == one
            &&& query(Tree::Dict(es)).len() > 0 ==> all == query(Tree::Dict(es)) + "&"@ + one
        },
        t matches Tree::Text(s) ==> query(Tree::Dict(seq![(k, t)])) == encoded(k) + "="@ + encoded(
            s,
        ),
        !(t is Null) && !(t is Text) ==> query(Tree::Dict(seq![(k, t)])) == encoded(k) + "="@
            + encoded(tree_text(t)),
{
    let more = es.push((k, t));
    let one = seq![(k, t)];
    let parts = query_parts(es);
    assert(more.drop_last() =~= es);
    assert(one.drop_last() =~= seq![]);
    assert(query_parts(seq![]) =~= seq![]);
    if !(t is Null) {
        assert(query_parts(one) =~= seq![query_part((k, t))]);
        if parts.len() > 0 {
            lemma_query_not_empty(es);
            assert(parts.push(query_part((k, t))).drop_last() =~= parts);
        } else {
            assert(parts =~= seq![]);
        }
    }
}

proof fn lemma_query_not_empty(es: Seq<(Seq<char>, Tree)>)
    requires
        query_parts(es).len() > 0,
    ensures
        query(Tree::Dict(es)).len() > 0,
{
    let parts = query_parts(es);
    lemma_parts_kept(es);
    assert(parts[parts.len() - 1] == query_part(kept(es)[parts.len() - 1]));
    reveal_strlit("=");
    assert(parts.last().len() > 0);
}

/// What is no object has no query, and what could not be read has none either.
pub proof fn queries_need_objects(t: Tree, words: Seq<char>)
    ensures
        !(t is Dict) ==> query(t).len() == 0,
        query_read(Err(words)).len() == 0,
        query_read(Ok(t)) == query(t),
{
}

/// Of a request by `GET`, `HEAD` or `DELETE` the query goes behind the address, set
/// off by `?`, or by `&` where there is one already; without a query, and by any
/// other method, the address stays.
pub proof fn destinations_by_method(url: Seq<char>, method: Seq<char>, args: Tree)
    ensures
        ({
            let d = destination(url, method, args);
            let q = query(args);
            let get = method == "GET"@ || method == "HEAD"@ || method == "DELETE"@;
            &&& get && q.len() > 0 && url.contains('?') ==> d == url + "&"@ + q
            &&& get && q.len() > 0 && !url.contains('?') ==> d == url + "?"@ + q
            &&& !get || q.len() == 0 ==> d == url
        }),
{
}

} // verus!

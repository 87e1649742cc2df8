//! The order of object keys: byte by byte, as strings are ordered.

use vstd::prelude::*;
use vstd::string::*;
use vstd::utf8::*;

use crate::text::{lemma_encoding_concat, lemma_encoding_injective};

verus! {

/// `a` comes before `b` byte by byte; a proper prefix comes first.
pub open spec fn bytes_before(a: Seq<u8>, b: Seq<u8>) -> bool
    decreases a.len(),
{
    if b.len() == 0 {
        false
    } else if a.len() == 0 {
        true
    } else if a[0] == b[0] {
        bytes_before(a.drop_first(), b.drop_first())
    } else {
        a[0] < b[0]
    }
}

/// `a` comes before `b` in the order of their UTF-8 encodings.
pub open spec fn before(a: Seq<char>, b: Seq<char>) -> bool {
    bytes_before(encode_utf8(a), encode_utf8(b))
}

proof fn lemma_bytes_irreflexive(a: Seq<u8>)
    ensures
        !bytes_before(a, a),
    decreases a.len(),
{
    if a.len() > 0 {
        lemma_bytes_irreflexive(a.drop_first());
    }
}

proof fn lemma_bytes_transitive(a: Seq<u8>, b: Seq<u8>, c: Seq<u8>)
    requires
        bytes_before(a, b),
        bytes_before(b, c),
    ensures
        bytes_before(a, c),
    decreases a.len(),
{
    if a.len() > 0 && a[0] == b[0] && b[0] == c[0] {
        lemma_bytes_transitive(a.drop_first(), b.drop_first(), c.drop_first());
    }
}

proof fn lemma_bytes_total(a: Seq<u8>, b: Seq<u8>)
    ensures
        bytes_before(a, b) || a == b || bytes_before(b, a),
    decreases a.len(),
{
    if a.len() > 0 && b.len() > 0 && a[0] == b[0] {
        lemma_bytes_total(a.drop_first(), b.drop_first());
        if a.drop_first() == b.drop_first() {
            assert(a =~= seq![a[0]] + a.drop_first());
            assert(b =~= seq![b[0]] + b.drop_first());
        }
    } else if a.len() == 0 && b.len() == 0 {
        assert(a =~= b);
    }
}

/// No string comes before itself.
pub proof fn before_irreflexive(a: Seq<char>)
    ensures
        !before(a, a),
{
    lemma_bytes_irreflexive(encode_utf8(a));
}

/// What comes before something that comes before `c` comes before `c`.
pub proof fn before_transitive(a: Seq<char>, b: Seq<char>, c: Seq<char>)
    requires
        before(a, b),
        before(b, c),
    ensures
        before(a, c),
{
    lemma_bytes_transitive(encode_utf8(a), encode_utf8(b), encode_utf8(c));
}

/// Of two different strings one comes before the other.
pub proof fn before_total(a: Seq<char>, b: Seq<char>)
    ensures
        before(a, b) || a == b || before(b, a),
{
    lemma_bytes_total(encode_utf8(a), encode_utf8(b));
    if encode_utf8(a) == encode_utf8(b) {
        lemma_encoding_injective(a, b);
    }
}

/// Where one string stands relative to another.
pub enum Place {
    Before,
    Same,
    After,
}

/// Where `a` stands relative to `b`.
pub fn place(a: &str, b: &str) -> (r: Place)
    ensures
        match r {
            Place::Before => before(a@, b@),
            Place::Same => a@ == b@,
            Place::After => before(b@, a@),
        },
{
    let x = a.as_bytes();
    let y = b.as_bytes();
    let mut i: usize = 0;
    assert(x@.skip(0) =~= x@);
    assert(y@.skip(0) =~= y@);
    while i < x.len() && i < y.len() && x[i] == y[i]
        invariant
            i <= x@.len(),
            i <= y@.len(),
            x@.take(i as int) == y@.take(i as int),
            bytes_before(x@, y@) == bytes_before(x@.skip(i as int), y@.skip(i as int)),
            bytes_before(y@, x@) == bytes_before(y@.skip(i as int), x@.skip(i as int)),
        decreases x@.len() - i,
    {
        assert(x@.skip(i as int).drop_first() =~= x@.skip(i + 1));
        assert(y@.skip(i as int).drop_first() =~= y@.skip(i + 1));
        assert(x@.take(i + 1) =~= x@.take(i as int).push(x@[i as int]));
        assert(y@.take(i + 1) =~= y@.take(i as int).push(y@[i as int]));
        i = i + 1;
    }
    if i == x.len() {
        if i == y.len() {
            assert(x@ =~= x@.take(i as int));
            assert(y@ =~= y@.take(i as int));
            proof {
                lemma_encoding_injective(a@, b@);
            }
            Place::Same
        } else {
            Place::Before
        }
    } else if i == y.len() {
        Place::After
    } else if x[i] < y[i] {
        Place::Before
    } else {
        Place::After
    }
}

proof fn lemma_first_difference(p: Seq<u8>, x: u8, u: Seq<u8>, y: u8, v: Seq<u8>)
    requires
        x < y,
    ensures
        bytes_before(p + seq![x] + u, p + seq![y] + v),
    decreases p.len(),
{
    let a = p + seq![x] + u;
    let b = p + seq![y] + v;
    if p.len() > 0 {
        assert(a.drop_first() =~= p.drop_first() + seq![x] + u);
        assert(b.drop_first() =~= p.drop_first() + seq![y] + v);
        lemma_first_difference(p.drop_first(), x, u, y, v);
    }
}

proof fn lemma_prefix_first(p: Seq<u8>, u: Seq<u8>)
    requires
        u.len() > 0,
    ensures
        bytes_before(p, p + u),
    decreases p.len(),
{
    if p.len() > 0 {
        assert((p + u).drop_first() =~= p.drop_first() + u);
        lemma_prefix_first(p.drop_first(), u);
    }
}

/// The first difference decides: the text with the lesser ASCII character there
/// comes first, whatever follows.
pub proof fn first_difference_decides(
    p: Seq<char>,
    x: char,
    u: Seq<char>,
    y: char,
    v: Seq<char>,
)
    requires
        x < y <= '\u{7f}',
    ensures
        before(p + seq![x] + u, p + seq![y] + v),
{
    lemma_encoding_concat(p + seq![x], u);
    lemma_encoding_concat(p, seq![x]);
    lemma_encoding_concat(p + seq![y], v);
    lemma_encoding_concat(p, seq![y]);
    is_ascii_chars_encode_utf8(seq![x]);
    is_ascii_chars_encode_utf8(seq![y]);
    assert(encode_utf8(seq![x]) =~= seq![x as u8]);
    assert(encode_utf8(seq![y]) =~= seq![y as u8]);
    lemma_first_difference(encode_utf8(p), x as u8, encode_utf8(u), y as u8, encode_utf8(v));
}

/// A text comes before every longer text that begins with it.
pub proof fn prefixes_come_first(p: Seq<char>, c: char)
    requires
        c <= '\u{7f}',
    ensures
        before(p, p + seq![c]),
{
    lemma_encoding_concat(p, seq![c]);
    is_ascii_chars_encode_utf8(seq![c]);
    lemma_prefix_first(encode_utf8(p), encode_utf8(seq![c]));
}

} // verus!

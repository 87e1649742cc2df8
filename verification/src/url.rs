//! Addresses: the chat endpoint, tool addresses, and the addresses to listen on.

use vstd::prelude::*;
use vstd::string::*;

use crate::text::{
    cat, ends_with, from_chars, has_prefix, has_suffix, same, starts_with, to_chars, trim_end,
    trimmed_end,
};

verus! {

/// The address of the chat endpoint under `base`.
pub open spec fn endpoint(base: Seq<char>) -> Seq<char> {
    let b = trimmed_end(base, '/');
    if has_suffix(b, "/chat/completions"@) {
        b
    } else {
        b + "/chat/completions"@
    }
}

/// The address of the chat endpoint under `base`; one that is an endpoint
/// already is left as it stands, with its slashes.
pub open spec fn job_endpoint(url: Seq<char>) -> Seq<char> {
    let b = trimmed_end(url, '/');
    if has_suffix(b, "/chat/completions"@) {
        url
    } else {
        b + "/chat/completions"@
    }
}

/// `path` itself where it is a full address, and else `path` behind `base`.
pub open spec fn resolved(base: Seq<char>, path: Seq<char>) -> Seq<char> {
    if has_prefix(path, "http://"@) || has_prefix(path, "https://"@) {
        path
    } else {
        trimmed_end(base, '/') + path
    }
}

/// The last position of `c` in `s`, or -1.
pub open spec fn last_at(s: Seq<char>, c: char) -> int
    decreases s.len(),
{
    if s.len() == 0 {
        -1
    } else if s.last() == c {
        s.len() - 1
    } else {
        last_at(s.drop_last(), c)
    }
}

pub open spec fn is_bracket(c: char) -> bool {
    c == '[' || c == ']'
}

/// `s` without the brackets at its start.
pub open spec fn unbracketed_start(s: Seq<char>) -> Seq<char>
    decreases s.len(),
{
    if s.len() > 0 && is_bracket(s[0]) {
        unbracketed_start(s.drop_first())
    } else {
        s
    }
}

/// `s` without the brackets at its end.
pub open spec fn unbracketed_end(s: Seq<char>) -> Seq<char>
    decreases s.len(),
{
    if s.len() > 0 && is_bracket(s.last()) {
        unbracketed_end(s.drop_last())
    } else {
        s
    }
}

/// The host names that stand for this machine.
pub open spec fn is_loopback(host: Seq<char>) -> bool {
    host == "127.0.0.1"@ || host == "localhost"@ || host == "::1"@
}

/// The addresses to listen on for `addr`: a loopback host stands for both its
/// forms, and everything else for itself.
pub open spec fn binds(addr: Seq<char>) -> Seq<Seq<char>> {
    let i = last_at(addr, ':');
    if i >= 0 && is_loopback(unbracketed_end(unbracketed_start(addr.take(i)))) {
        let port = addr.skip(i + 1);
        seq!["127.0.0.1:"@ + port, "[::1]:"@ + port]
    } else {
        seq![addr]
    }
}

/// The address of the chat endpoint under `base`.
pub fn chat_url(base: &str) -> (r: String)
    ensures
        r@ == endpoint(base@),
{
    let b = trim_end(base, '/');
    if ends_with(&b, "/chat/completions") {
        b
    } else {
        cat(&b, "/chat/completions")
    }
}

/// The address of the chat endpoint that a job with the address `url` uses.
pub fn job_url(url: &str) -> (r: String)
    ensures
        r@ == job_endpoint(url@),
{
    let b = trim_end(url, '/');
    if ends_with(&b, "/chat/completions") {
        url.to_string()
    } else {
        cat(&b, "/chat/completions")
    }
}

/// `path` itself where it is a full address, and else `path` behind `base`.
pub fn join_url(base: &str, path: &str) -> (r: String)
    ensures
        r@ == resolved(base@, path@),
{
    if starts_with(path, "http://") || starts_with(path, "https://") {
        return path.to_string();
    }
    cat(&trim_end(base, '/'), path)
}

fn bracket(c: char) -> (r: bool)
    ensures
        r == is_bracket(c),
{
    c == '[' || c == ']'
}

/// The addresses to listen on for `addr`.
pub fn listen_binds(addr: &str) -> (r: Vec<String>)
    ensures
        r@.map_values(|s: String| s@) == binds(addr@),
{
    let a = to_chars(addr);
    let mut n: usize = a.len();
    assert(a@.take(n as int) =~= addr@);
    while n > 0 && a[n - 1] != ':'
        invariant
            n <= a@.len(),
            a@ == addr@,
            last_at(a@.take(n as int), ':') == last_at(addr@, ':'),
        decreases n,
    {
        assert(a@.take(n as int).drop_last() =~= a@.take(n - 1));
        n = n - 1;
    }
    if n > 0 {
        let i: usize = n - 1;
        let mut lo: usize = 0;
        let ghost host = a@.take(i as int);
        assert(a@.subrange(0, i as int) =~= host);
        while lo < i && bracket(a[lo])
            invariant
                lo <= i < a@.len(),
                host == a@.take(i as int),
                unbracketed_start(a@.subrange(lo as int, i as int)) == unbracketed_start(host),
            decreases i - lo,
        {
            assert(a@.subrange(lo as int, i as int).drop_first() =~= a@.subrange(
                lo + 1,
                i as int,
            ));
            lo = lo + 1;
        }
        let mut hi: usize = i;
        while hi > lo && bracket(a[hi - 1])
            invariant
                lo <= hi <= i < a@.len(),
                unbracketed_end(a@.subrange(lo as int, hi as int)) == unbracketed_end(
                    unbracketed_start(host),
                ),
            decreases hi,
        {
            assert(a@.subrange(lo as int, hi as int).drop_last() =~= a@.subrange(
                lo as int,
                hi - 1,
            ));
            hi = hi - 1;
        }
        let name = from_chars(&a, lo, hi);
        if same(&name, "127.0.0.1") || same(&name, "localhost") || same(&name, "::1") {
            let port = from_chars(&a, i + 1, a.len());
            let mut r: Vec<String> = Vec::new();
            r.push(cat("127.0.0.1:", &port));
            r.push(cat("[::1]:", &port));
            assert(a@.subrange(i + 1, a@.len() as int) =~= addr@.skip(i + 1));
            assert(r@.map_values(|s: String| s@) =~= binds(addr@));
            return r;
        }
    }
    let mut r: Vec<String> = Vec::new();
    r.push(addr.to_string());
    assert(r@.map_values(|s: String| s@) =~= binds(addr@));
    r
}

/// An endpoint ends as every chat endpoint does.
pub proof fn endpoint_suffix(base: Seq<char>)
    ensures
        has_suffix(endpoint(base), "/chat/completions"@),
{
    let b = trimmed_end(base, '/');
    let tail = "/chat/completions"@;
    if !has_suffix(b, tail) {
        assert((b + tail).skip(b.len() as int) =~= tail);
    }
}

/// The endpoint of an endpoint is the endpoint itself.
pub proof fn endpoint_idempotent(base: Seq<char>)
    ensures
        endpoint(endpoint(base)) == endpoint(base),
{
    let e = endpoint(base);
    let tail = "/chat/completions"@;
    endpoint_suffix(base);
    reveal_strlit("/chat/completions");
    assert(e.skip(e.len() - tail.len()).last() == tail.last());
    assert(tail.last() == 's');
    assert(trimmed_end(e, '/') == e);
}

/// Slashes at the end of the base do not change the endpoint.
pub proof fn endpoint_ignores_slashes(base: Seq<char>)
    ensures
        endpoint(base.push('/')) == endpoint(base),
{
    assert(base.push('/').drop_last() =~= base);
}

/// A full address stands as it is, whatever the base.
pub proof fn resolved_full(base: Seq<char>, other: Seq<char>, path: Seq<char>)
    requires
        has_prefix(path, "http://"@) || has_prefix(path, "https://"@),
    ensures
        resolved(base, path) == path,
        resolved(base, path) == resolved(other, path),
{
}

proof fn lemma_last_at(a: Seq<char>, p: Seq<char>)
    requires
        !p.contains(':'),
    ensures
        last_at(a + seq![':'] + p, ':') == a.len(),
    decreases p.len(),
{
    let s = a + seq![':'] + p;
    if p.len() == 0 {
        assert(s.last() == ':');
    } else {
        assert(p.contains(p[p.len() - 1]));
        assert(s.last() == p.last());
        assert(s.drop_last() =~= a + seq![':'] + p.drop_last());
        assert(!p.drop_last().contains(':')) by {
            assert forall|i: int| 0 <= i < p.len() - 1 implies p.drop_last()[i] != ':' by {
                assert(p.contains(p[i]));
            }
        }
        lemma_last_at(a, p.drop_last());
    }
}

proof fn lemma_binds(host: Seq<char>, port: Seq<char>)
    requires
        !port.contains(':'),
        is_loopback(unbracketed_end(unbracketed_start(host))),
    ensures
        binds(host + seq![':'] + port) == seq!["127.0.0.1:"@ + port, "[::1]:"@ + port],
{
    let addr = host + seq![':'] + port;
    lemma_last_at(host, port);
    assert(addr.take(host.len() as int) =~= host);
    assert(addr.skip(host.len() as int + 1) =~= port);
}

/// Whichever way this machine is spelled, with or without brackets, the same two
/// addresses are listened on: one for each of the two forms of the loopback
/// address, both at the given port.
pub proof fn loopback_spellings(port: Seq<char>)
    requires
        !port.contains(':'),
    ensures
        ({
            let both = seq!["127.0.0.1:"@ + port, "[::1]:"@ + port];
            &&& binds("127.0.0.1"@ + seq![':'] + port) == both
            &&& binds("localhost"@ + seq![':'] + port) == both
            &&& binds("::1"@ + seq![':'] + port) == both
            &&& binds("[::1]"@ + seq![':'] + port) == both
        }),
{
    reveal_strlit("127.0.0.1");
    reveal_strlit("localhost");
    reveal_strlit("::1");
    reveal_strlit("[::1]");
    assert(unbracketed_start("127.0.0.1"@) == "127.0.0.1"@);
    assert(unbracketed_end("127.0.0.1"@) == "127.0.0.1"@);
    lemma_binds("127.0.0.1"@, port);
    assert(unbracketed_start("localhost"@) == "localhost"@);
    assert(unbracketed_end("localhost"@) == "localhost"@);
    lemma_binds("localhost"@, port);
    assert(unbracketed_start("::1"@) == "::1"@);
    assert(unbracketed_end("::1"@) == "::1"@);
    lemma_binds("::1"@, port);
    let b = "[::1]"@;
    let c = b.drop_first();
    assert(unbracketed_start(b) == c) by {
        reveal_with_fuel(unbracketed_start, 2);
    }
    assert(c.drop_last() =~= "::1"@);
    assert(unbracketed_end(c) == "::1"@) by {
        reveal_with_fuel(unbracketed_end, 2);
    }
    lemma_binds(b, port);
}

/// An address without a colon stands for itself.
pub proof fn binds_without_port(addr: Seq<char>)
    requires
        !addr.contains(':'),
    ensures
        binds(addr) == seq![addr],
{
    lemma_no_colon(addr);
}

proof fn lemma_no_colon(s: Seq<char>)
    requires
        !s.contains(':'),
    ensures
        last_at(s, ':') == -1,
    decreases s.len(),
{
    if s.len() > 0 {
        assert(s.contains(s[s.len() - 1]));
        assert forall|i: int| 0 <= i < s.len() - 1 implies s.drop_last()[i] != ':' by {
            assert(s.contains(s[i]));
        }
        lemma_no_colon(s.drop_last());
    }
}

proof fn lemma_last_at_bounds(s: Seq<char>, c: char)
    ensures
        -1 <= last_at(s, c) < s.len(),
        !s.skip(last_at(s, c) + 1).contains(c),
    decreases s.len(),
{
    if s.len() > 0 && s.last() != c {
        let head = s.drop_last();
        let i = last_at(head, c);
        lemma_last_at_bounds(head, c);
        let tail = s.skip(i + 1);
        assert forall|j: int| 0 <= j < tail.len() implies tail[j] != c by {
            if j < tail.len() - 1 {
                assert(tail[j] == head.skip(i + 1)[j]);
                assert(head.skip(i + 1).contains(head.skip(i + 1)[j]));
            }
        }
    }
}

/// Every address that is listened on stands for the same addresses.
pub proof fn binds_of_binds(addr: Seq<char>, i: int)
    requires
        0 <= i < binds(addr).len(),
    ensures
        binds(binds(addr)[i]) == binds(addr),
{
    let at = last_at(addr, ':');
    lemma_last_at_bounds(addr, ':');
    if at >= 0 && is_loopback(unbracketed_end(unbracketed_start(addr.take(at)))) {
        let port = addr.skip(at + 1);
        loopback_spellings(port);
        reveal_strlit("127.0.0.1:");
        reveal_strlit("[::1]:");
        reveal_strlit("127.0.0.1");
        reveal_strlit("[::1]");
        assert("127.0.0.1:"@ + port =~= "127.0.0.1"@ + seq![':'] + port);
        assert("[::1]:"@ + port =~= "[::1]"@ + seq![':'] + port);
    }
}

/// A path that is no full address comes behind the base: all of the base stays, and
/// all of the path; but slashes at the end of the base do not count.
pub proof fn joining_keeps_base_and_path(base: Seq<char>, path: Seq<char>)
    requires
        !has_prefix(path, "http://"@),
        !has_prefix(path, "https://"@),
    ensures
        base.len() == 0 || base.last() != '/' ==> {
            let r = resolved(base, path);
            &&& r == base + path
            &&& has_prefix(r, base)
            &&& has_suffix(r, path)
            &&& r.len() == base.len() + path.len()
        },
        resolved(base.push('/'), path) == resolved(base, path),
{
    let r = resolved(base, path);
    assert(base.push('/').drop_last() =~= base);
    if base.len() == 0 || base.last() != '/' {
        assert(r.take(base.len() as int) =~= base);
        assert(r.skip(r.len() - path.len()) =~= path);
    }
}

/// The endpoint under a base is the base with `/chat/completions` behind it, all of
/// the base included; a base that ends so already is its own endpoint.
pub proof fn endpoints_keep_their_base(base: Seq<char>)
    requires
        base.len() == 0 || base.last() != '/',
    ensures
        !has_suffix(base, "/chat/completions"@) ==> endpoint(base) == base + "/chat/completions"@
            && job_endpoint(base) == base + "/chat/completions"@,
        has_suffix(base, "/chat/completions"@) ==> endpoint(base) == base && job_endpoint(base)
            == base,
{
}

/// For a job, slashes behind a base do not count, and slashes behind an endpoint
/// stay.
pub proof fn job_endpoints_keep_slashes(url: Seq<char>)
    ensures
        has_suffix(trimmed_end(url, '/'), "/chat/completions"@) ==> job_endpoint(url.push('/'))
            == url.push('/'),
        !has_suffix(trimmed_end(url, '/'), "/chat/completions"@) ==> job_endpoint(url.push('/'))
            == job_endpoint(url),
{
    assert(url.push('/').drop_last() =~= url);
}

/// An address of another machine stands for itself.
pub proof fn other_hosts_stand_for_themselves(host: Seq<char>, port: Seq<char>)
    requires
        !port.contains(':'),
        host != "127.0.0.1"@,
        host != "localhost"@,
        host != "::1"@,
        host.len() > 0 ==> host[0] != '[' && host[0] != ']' && host.last() != '[' && host.last()
            != ']',
    ensures
        binds(host + seq![':'] + port) == seq![host + seq![':'] + port],
{
    let addr = host + seq![':'] + port;
    lemma_last_at(host, port);
    assert(addr.take(host.len() as int) =~= host);
}

/// Brackets at either end of a host do not count.
pub proof fn brackets_do_not_count(host: Seq<char>, port: Seq<char>, b: char)
    requires
        b == '[' || b == ']',
        !port.contains(':'),
    ensures
        binds(host + seq![':'] + port).len() == 2 ==> binds(seq![b] + host + seq![':'] + port)
            == binds(host + seq![':'] + port) && binds(host + seq![b] + seq![':'] + port) == binds(
            host + seq![':'] + port,
        ),
        binds(host + seq![':'] + port).len() != 2 ==> binds(
            seq![b] + host + seq![':'] + port,
        ).len() == 1 && binds(host + seq![b] + seq![':'] + port).len() == 1,
{
    let front = seq![b] + host;
    let back = host + seq![b];
    lemma_binds_host(host, port);
    lemma_binds_host(front, port);
    lemma_binds_host(back, port);
    assert(front.drop_first() =~= host);
    assert(unbracketed_start(front) == unbracketed_start(host));
    lemma_bracket_behind(host, b);
}

proof fn lemma_binds_host(host: Seq<char>, port: Seq<char>)
    requires
        !port.contains(':'),
    ensures
        binds(host + seq![':'] + port) == if is_loopback(
            unbracketed_end(unbracketed_start(host)),
        ) {
            seq!["127.0.0.1:"@ + port, "[::1]:"@ + port]
        } else {
            seq![host + seq![':'] + port]
        },
{
    let addr = host + seq![':'] + port;
    lemma_last_at(host, port);
    assert(addr.take(host.len() as int) =~= host);
    assert(addr.skip(host.len() as int + 1) =~= port);
}

proof fn lemma_bracket_behind(s: Seq<char>, b: char)
    requires
        b == '[' || b == ']',
    ensures
        unbracketed_end(unbracketed_start(s + seq![b])) == unbracketed_end(unbracketed_start(s)),
    decreases s.len(),
{
    let t = s + seq![b];
    if s.len() == 0 {
        assert(t.drop_first() =~= seq![]);
        assert(s =~= seq![]);
        assert(unbracketed_start(t) == unbracketed_start(t.drop_first()));
    } else if is_bracket(s[0]) {
        assert(t.drop_first() =~= s.drop_first() + seq![b]);
        lemma_bracket_behind(s.drop_first(), b);
    } else {
        assert(t.drop_last() =~= s);
    }
}

} // verus!

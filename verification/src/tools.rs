//! Tools: their descriptions as a model sees them, the routes that stay behind,
//! and the requests that calls of them become.

use vstd::prelude::*;
use vstd::string::*;

use crate::json::{
    lemma_trees, lookup, put, put_then_lookup, without, without_keeps_order, without_then_lookup,
    Dict, Json,
};
use crate::message::tree_in;
use crate::order::before;
use crate::query::{destination, in_address, tool_dest};
use crate::text::{has_prefix, same, starts_with, to_upper, upper};
use crate::url::{join_url, joining_keeps_base_and_path, resolved};
use crate::value::{ascending, Tree};

verus! {

/// A tool as the model sees it: without its method and its address.
pub open spec fn peeled_one(t: Tree) -> Tree {
    match t {
        Tree::Dict(es) => Tree::Dict(without(without(es, "method"@), "url"@)),
        _ => t,
    }
}

/// The tools as the model sees them; what is no list stays as it is.
pub open spec fn peeled(t: Tree) -> Tree {
    match t {
        Tree::List(ts) => Tree::List(Seq::new(ts.len(), |i: int| peeled_one(ts[i]))),
        _ => t,
    }
}

/// The name under which the model calls a tool.
pub open spec fn tool_name(t: Tree) -> Seq<char> {
    t.at("function"@).at("name"@).str_or_empty()
}

/// How a tool is reached: its method, and its address where addresses count.
pub open spec fn route(t: Tree, addresses: bool) -> Tree {
    let a = match t.get("method"@) {
        Some(m) => put(seq![], "method"@, m),
        None => seq![],
    };
    let b = match t.get("url"@) {
        Some(u) => if addresses {
            put(a, "url"@, u)
        } else {
            a
        },
        None => a,
    };
    Tree::Dict(b)
}

/// The routes of the tools, by name; the last tool of a name counts, and one
/// without a name has none.
pub open spec fn routes(ts: Seq<Tree>, addresses: bool) -> Seq<(Seq<char>, Tree)>
    decreases ts.len(),
{
    if ts.len() == 0 {
        seq![]
    } else {
        let before = routes(ts.drop_last(), addresses);
        let t = ts.last();
        if t is Dict && tool_name(t).len() > 0 {
            put(before, tool_name(t), route(t, addresses))
        } else {
            before
        }
    }
}

fn peel_one(item: &Json, addresses: bool, specs: &mut Dict) -> (r: Json)
    ensures
        r@ == peeled_one(item@),
        final(specs)@ == if item@ is Dict && tool_name(item@).len() > 0 {
            put(old(specs)@, tool_name(item@), route(item@, addresses))
        } else {
            old(specs)@
        },
{
    match item {
        Json::Dict(d) => {
            let mut o = d.clone();
            let name = item.at("function").at("name").str_or_empty().to_string();
            let url = item.get("url");
            let method = item.get("method");
            let _ = o.remove("method");
            let _ = o.remove("url");
            if !name.as_str().is_empty() {
                let mut s = Dict::new();
                match method {
                    Some(m) => s.insert("method".to_string(), m.clone()),
                    None => {},
                }
                if addresses {
                    match url {
                        Some(u) => s.insert("url".to_string(), u.clone()),
                        None => {},
                    }
                }
                specs.insert(name, Json::Dict(s));
            }
            Json::Dict(o)
        },
        _ => item.clone(),
    }
}

fn peel(v: &Json, addresses: bool) -> (r: (Json, Dict))
    ensures
        r.0@ == peeled(v@),
        r.1@ == routes(v@.items(), addresses),
{
    let mut specs = Dict::new();
    match v {
        Json::List(items) => {
            let ghost ts = Json::trees(items@);
            let mut out: Vec<Json> = Vec::new();
            for i in 0..items.len()
                invariant
                    ts == Json::trees(items@),
                    out@.len() == i,
                    forall|j: int| 0 <= j < i ==> (#[trigger] out@[j])@ == peeled_one(ts[j]),
                    specs@ == routes(ts.take(i as int), addresses),
            {
                broadcast use lemma_trees;

                assert(ts.take(i + 1).drop_last() =~= ts.take(i as int));
                let cleaned = peel_one(&items[i], addresses, &mut specs);
                out.push(cleaned);
            }
            proof {
                broadcast use lemma_trees;
                assert(ts.take(items@.len() as int) =~= ts);
                assert(Json::trees(out@) =~= peeled(v@)->List_0);
            }
            (Json::List(out), specs)
        },
        _ => (v.clone(), specs),
    }
}

/// The tools as the model sees them, and their methods by name.
pub fn peel_tools(v: &Json) -> (r: (Json, Dict))
    ensures
        r.0@ == peeled(v@),
        r.1@ == routes(v@.items(), false),
{
    peel(v, false)
}

/// The tools as the model sees them, and their methods and addresses by name.
pub fn load_tools(v: &Json) -> (r: (Json, Dict))
    ensures
        r.0@ == peeled(v@),
        r.1@ == routes(v@.items(), true),
{
    peel(v, true)
}

/// The methods of requests.
#[derive(Debug, Clone, Copy, PartialEq, Eq)]
pub enum Verb {
    Get,
    Head,
    Delete,
    Put,
    Patch,
    Post,
}

/// The verb for a method; one without a verb of its own is posted.
pub open spec fn verb_of(method: Seq<char>) -> Verb {
    if method == "GET"@ {
        Verb::Get
    } else if method == "HEAD"@ {
        Verb::Head
    } else if method == "DELETE"@ {
        Verb::Delete
    } else if method == "PUT"@ {
        Verb::Put
    } else if method == "PATCH"@ {
        Verb::Patch
    } else {
        Verb::Post
    }
}

/// The method of a tool with the route `spec`, in upper case.
pub open spec fn method_of(spec: Option<Tree>) -> Seq<char> {
    match spec {
        Some(t) => match t.at("method"@) {
            Tree::Text(s) => upper(s),
            _ => "POST"@,
        },
        None => "POST"@,
    }
}

/// The address of a tool with the route `spec`, before any arguments.
pub open spec fn address_of(exec: Seq<char>, spec: Option<Tree>) -> Seq<char> {
    let path = match spec {
        Some(t) => t.at("url"@).str_or_empty(),
        None => seq![],
    };
    if path.len() == 0 {
        exec
    } else if has_prefix(path, "http"@) {
        path
    } else {
        resolved(exec, path)
    }
}

/// A request with this verb has a body.
pub open spec fn has_body(verb: Verb) -> bool {
    verb is Put || verb is Patch || verb is Post
}

/// The body of a request with this verb: the arguments, or none.
pub open spec fn body_of(verb: Verb, args: Tree) -> Option<Tree> {
    if has_body(verb) {
        Some(args)
    } else {
        None
    }
}

impl Verb {
    /// Whether a request with this verb has a body.
    pub fn carries_body(&self) -> (r: bool)
        ensures
            r == has_body(*self),
    {
        match self {
            Verb::Put | Verb::Patch | Verb::Post => true,
            Verb::Get | Verb::Head | Verb::Delete => false,
        }
    }
}

/// The request that a tool call becomes.
#[derive(Debug, PartialEq)]
pub struct ToolRequest {
    pub verb: Verb,
    pub url: String,
    pub body: Option<Json>,
}

fn verb_for(method: &str) -> (r: Verb)
    ensures
        r == verb_of(method@),
{
    if same(method, "GET") {
        Verb::Get
    } else if same(method, "HEAD") {
        Verb::Head
    } else if same(method, "DELETE") {
        Verb::Delete
    } else if same(method, "PUT") {
        Verb::Put
    } else if same(method, "PATCH") {
        Verb::Patch
    } else {
        Verb::Post
    }
}

/// The document that an optional reference points to.
pub open spec fn tree_at(j: Option<&Json>) -> Option<Tree> {
    match j {
        Some(j) => Some(j@),
        None => None,
    }
}

/// The method of a tool with the route `spec`, in upper case.
pub fn tool_method(spec: Option<&Json>) -> (r: String)
    ensures
        r@ == method_of(tree_at(spec)),
{
    match spec {
        Some(t) => match t.at("method") {
            Json::Text(s) => to_upper(s),
            _ => "POST".to_string(),
        },
        None => "POST".to_string(),
    }
}

/// The request that a call of a tool with the route `spec` becomes.
pub fn plan_tool(exec: &str, spec: Option<&Json>, arguments: &Json) -> (r: ToolRequest)
    ensures
        r.verb == verb_of(method_of(tree_at(spec))),
        r.url@ == destination(
            address_of(exec@, tree_at(spec)),
            method_of(tree_at(spec)),
            arguments@,
        ),
        tree_in(r.body) == body_of(r.verb, arguments@),
{
    let method = tool_method(spec);
    let path = match spec {
        Some(t) => t.at("url").str_or_empty(),
        None => {
            proof {
                reveal_strlit("");
                assert(""@ =~= seq![]);
            }
            ""
        },
    };
    let url = if path.is_empty() {
        exec.to_string()
    } else if starts_with(path, "http") {
        path.to_string()
    } else {
        join_url(exec, path)
    };
    let verb = verb_for(&method);
    let body = if verb.carries_body() {
        Some(arguments.clone())
    } else {
        None
    };
    ToolRequest { verb, url: tool_dest(&url, &method, arguments), body }
}

/// The tools that the model sees are as many, and none has a method or an
/// address of its own; everything else about them is as it was.
pub proof fn peeling_hides_routes(ts: Seq<Tree>, i: int, k: Seq<char>)
    requires
        0 <= i < ts.len(),
        ts[i] matches Tree::Dict(es) ==> ascending(es),
    ensures
        peeled(Tree::List(ts)).items().len() == ts.len(),
        peeled(Tree::List(ts)).items()[i].get("method"@) is None,
        peeled(Tree::List(ts)).items()[i].get("url"@) is None,
        k != "method"@ && k != "url"@ ==> peeled(Tree::List(ts)).items()[i].get(k) == ts[i].get(k),
{
    match ts[i] {
        Tree::Dict(es) => {
            let a = without(es, "method"@);
            without_keeps_order(es, "method"@);
            without_then_lookup(es, "method"@, k);
            without_then_lookup(a, "url"@, k);
            without_then_lookup(es, "method"@, "method"@);
            without_then_lookup(a, "url"@, "url"@);
            if "method"@ != "url"@ {
                without_then_lookup(a, "url"@, "method"@);
            }
        },
        _ => {},
    }
}

/// The last tool of a name has its route under that name.
pub proof fn route_of_last(ts: Seq<Tree>, addresses: bool, t: Tree)
    requires
        t is Dict,
        tool_name(t).len() > 0,
    ensures
        lookup(routes(ts.push(t), addresses), tool_name(t)) == Some(route(t, addresses)),
{
    assert(ts.push(t).drop_last() =~= ts);
    put_then_lookup(routes(ts, addresses), tool_name(t), route(t, addresses), tool_name(t));
}

/// A tool with another name does not change how a tool is reached.
pub proof fn route_of_other(ts: Seq<Tree>, addresses: bool, t: Tree, name: Seq<char>)
    requires
        tool_name(t) != name,
    ensures
        lookup(routes(ts.push(t), addresses), name) == lookup(routes(ts, addresses), name),
{
    assert(ts.push(t).drop_last() =~= ts);
    put_then_lookup(routes(ts, addresses), tool_name(t), route(t, addresses), name);
}

/// The arguments travel in the address exactly where the request has no body.
pub proof fn body_or_address(method: Seq<char>)
    ensures
        in_address(method) <==> !has_body(verb_of(method)),
{
}

proof fn lemma_without_absent(es: Seq<(Seq<char>, Tree)>, k: Seq<char>)
    requires
        lookup(es, k) is None,
    ensures
        without(es, k) == es,
    decreases es.len(),
{
    if es.len() > 0 {
        lemma_without_absent(es.drop_first(), k);
        assert(seq![es[0]] + es.drop_first() =~= es);
    }
}

/// Peeling tools that are peeled changes nothing.
pub proof fn peeling_idempotent(t: Tree)
    requires
        forall|i: int|
            0 <= i < t.items().len() ==> ascending((#[trigger] t.items()[i]).members()),
    ensures
        peeled(peeled(t)) == peeled(t),
{
    match t {
        Tree::List(ts) => {
            let once = peeled(t).items();
            assert forall|i: int| 0 <= i < ts.len() implies peeled_one(once[i]) == once[i] by {
                assert(t.items()[i] == ts[i]);
                peeling_hides_routes(ts, i, "method"@);
                match once[i] {
                    Tree::Dict(es) => {
                        lemma_without_absent(es, "method"@);
                        lemma_without_absent(es, "url"@);
                    },
                    _ => {},
                }
            }
            assert(peeled(peeled(t)).items() =~= once);
        },
        _ => {},
    }
}

proof fn lemma_route_keys()
    ensures
        "method"@ != "url"@,
{
    reveal_strlit("method");
    reveal_strlit("url");
    assert("method"@.len() != "url"@.len());
}

proof fn lemma_route_without_address(t: Tree)
    ensures
        route(t, false) == Tree::Dict(without(route(t, true).members(), "url"@)),
        route(t, false).get("method"@) == route(t, true).get("method"@),
        route(t, false).get("url"@) is None,
{
    lemma_route_keys();
    let none: Seq<(Seq<char>, Tree)> = seq![];
    let a = route(t, false).members();
    if t.get("method"@) is Some {
        put_then_lookup(none, "method"@, t.get("method"@)->0, "url"@);
    }
    assert(lookup(a, "url"@) is None);
    if t.get("url"@) is Some {
        let u = t.get("url"@)->0;
        put_then_lookup(a, "url"@, u, "method"@);
        lemma_put_then_without(a, "url"@, u);
    } else {
        lemma_without_absent(a, "url"@);
    }
}

proof fn lemma_put_then_without(es: Seq<(Seq<char>, Tree)>, k: Seq<char>, t: Tree)
    requires
        lookup(es, k) is None,
    ensures
        without(put(es, k, t), k) == es,
    decreases es.len(),
{
    let r = put(es, k, t);
    if es.len() > 0 && before(es[0].0, k) {
        lemma_put_then_without(es.drop_first(), k, t);
        assert(r.drop_first() =~= put(es.drop_first(), k, t));
        assert(seq![es[0]] + es.drop_first() =~= es);
    } else {
        assert(r.drop_first() =~= es);
    }
}

/// Whether or not addresses count, the same tools have routes, with the same
/// methods; where they do not, a route is the one with the address taken out.
pub proof fn routes_agree_but_for_addresses(ts: Seq<Tree>, name: Seq<char>)
    ensures
        match lookup(routes(ts, true), name) {
            Some(full) => {
                let bare = Tree::Dict(without(full.members(), "url"@));
                &&& lookup(routes(ts, false), name) == Some(bare)
                &&& bare.get("method"@) == full.get("method"@)
                &&& bare.get("url"@) is None
            },
            None => lookup(routes(ts, false), name) is None,
        },
    decreases ts.len(),
{
    if ts.len() > 0 {
        let rest = ts.drop_last();
        let t = ts.last();
        routes_agree_but_for_addresses(rest, name);
        if t is Dict && tool_name(t).len() > 0 {
            put_then_lookup(routes(rest, true), tool_name(t), route(t, true), name);
            put_then_lookup(routes(rest, false), tool_name(t), route(t, false), name);
            lemma_route_without_address(t);
        }
    }
}

/// A tool that is no object, and tools that are no list, are shown as they are.
pub proof fn peeling_leaves_the_rest(ts: Seq<Tree>, i: int, t: Tree)
    requires
        0 <= i < ts.len(),
    ensures
        !(ts[i] is Dict) ==> peeled(Tree::List(ts)).items()[i] == ts[i],
        !(t is List) ==> peeled(t) == t,
{
}

/// A tool is called by the name of its function.
pub proof fn tools_are_named(es: Seq<(Seq<char>, Tree)>, fes: Seq<(Seq<char>, Tree)>)
    requires
        lookup(es, "function"@) == Some(Tree::Dict(fes)),
    ensures
        lookup(fes, "name"@) matches Some(Tree::Text(s)) ==> tool_name(Tree::Dict(es)) == s,
        !(lookup(fes, "name"@) matches Some(Tree::Text(_))) ==> tool_name(Tree::Dict(es)).len()
            == 0,
{
}

/// The route of a tool has its method and, where addresses count, its address, as
/// they were, and nothing else.
pub proof fn routes_hold_methods_and_addresses(es: Seq<(Seq<char>, Tree)>, k: Seq<char>)
    ensures
        ({
            let full = route(Tree::Dict(es), true);
            let bare = route(Tree::Dict(es), false);
            &&& full.get("method"@) == lookup(es, "method"@)
            &&& full.get("url"@) == lookup(es, "url"@)
            &&& bare.get("method"@) == lookup(es, "method"@)
            &&& bare.get("url"@) is None
            &&& k != "method"@ && k != "url"@ ==> full.get(k) is None && bare.get(k) is None
        }),
{
    lemma_route_keys();
    lemma_route_lookup(Tree::Dict(es), "method"@);
    lemma_route_lookup(Tree::Dict(es), "url"@);
    lemma_route_lookup(Tree::Dict(es), k);
}

proof fn lemma_route_lookup(t: Tree, k: Seq<char>)
    ensures
        route(t, false).get(k) == if k == "method"@ {
            t.get("method"@)
        } else {
            None
        },
        route(t, true).get(k) == if k == "url"@ && t.get("url"@) is Some {
            t.get("url"@)
        } else if k == "method"@ {
            t.get("method"@)
        } else {
            None
        },
{
    let none: Seq<(Seq<char>, Tree)> = seq![];
    let a = route(t, false).members();
    if t.get("method"@) is Some {
        put_then_lookup(none, "method"@, t.get("method"@)->0, k);
    }
    if t.get("url"@) is Some {
        put_then_lookup(a, "url"@, t.get("url"@)->0, k);
    }
}

/// Without tools there are no routes, and a tool without a name, or that is no
/// object, adds none.
pub proof fn nameless_tools_have_no_route(ts: Seq<Tree>, t: Tree, addresses: bool)
    requires
        !(t is Dict) || tool_name(t).len() == 0,
    ensures
        routes(seq![], addresses).len() == 0,
        routes(ts.push(t), addresses) == routes(ts, addresses),
{
    assert(ts.push(t).drop_last() =~= ts);
}

/// The method of a route is written in capitals, letter by letter; a route without a
/// method that is a string, or no route at all, is reached by `POST`.
pub proof fn methods_are_capitals(t: Tree, s: Seq<char>, i: int)
    ensures
        method_of(None) == "POST"@,
        !(t.get("method"@) matches Some(Tree::Text(_))) ==> method_of(Some(t)) == "POST"@,
        t.get("method"@) == Some(Tree::Text(s)) ==> {
            let m = method_of(Some(t));
            &&& m.len() == s.len()
            &&& 0 <= i < s.len() && 'a' <= s[i] <= 'z' ==> m[i] as int == s[i] as int - 32
            &&& 0 <= i < s.len() && !('a' <= s[i] <= 'z') ==> m[i] == s[i]
        },
{
}

/// Each method has the verb of its name; every other one is a `Post`.
pub proof fn verbs_have_their_names(method: Seq<char>)
    ensures
        verb_of(method) is Get <==> method == "GET"@,
        verb_of(method) is Head <==> method == "HEAD"@,
        verb_of(method) is Delete <==> method == "DELETE"@,
        verb_of(method) is Put <==> method == "PUT"@,
        verb_of(method) is Patch <==> method == "PATCH"@,
{
    reveal_strlit("GET");
    reveal_strlit("HEAD");
    reveal_strlit("DELETE");
    reveal_strlit("PUT");
    reveal_strlit("PATCH");
    assert("GET"@.len() == 3 && "PUT"@.len() == 3 && "HEAD"@.len() == 4);
    assert("DELETE"@.len() == 6 && "PATCH"@.len() == 5);
    assert("GET"@[0] != "PUT"@[0]);
}

/// A request that puts, patches or posts has the arguments for its body, whole; any
/// other has none.
pub proof fn bodies_are_the_arguments(verb: Verb, args: Tree)
    ensures
        verb is Put || verb is Patch || verb is Post ==> body_of(verb, args) == Some(args),
        verb is Get || verb is Head || verb is Delete ==> body_of(verb, args) is None,
{
}

/// A tool is reached at its own address, where it has one: one that begins with
/// `http` stands alone, and any other comes behind the common address, all of it;
/// a tool without an address is reached at the common address.
pub proof fn tools_are_reached(exec: Seq<char>, t: Tree, path: Seq<char>)
    ensures
        address_of(exec, None) == exec,
        !(t.get("url"@) matches Some(Tree::Text(_))) ==> address_of(exec, Some(t)) == exec,
        t.get("url"@) == Some(Tree::Text(path)) ==> {
            let a = address_of(exec, Some(t));
            &&& path.len() == 0 ==> a == exec
            &&& path.len() > 0 && has_prefix(path, "http"@) ==> a == path
            &&& path.len() > 0 && !has_prefix(path, "http"@) && (exec.len() == 0 || exec.last()
                != '/') ==> a == exec + path
            &&& path.len() > 0 && !has_prefix(path, "http"@) ==> address_of(
                exec.push('/'),
                Some(t),
            ) == a
        },
{
    if t.get("url"@) == Some(Tree::Text(path)) && path.len() > 0 && !has_prefix(path, "http"@) {
        reveal_strlit("http");
        reveal_strlit("http://");
        reveal_strlit("https://");
        if has_prefix(path, "http://"@) {
            assert(path.take(4) =~= path.take(7).take(4));
            assert("http://"@.take(4) =~= "http"@);
        }
        if has_prefix(path, "https://"@) {
            assert(path.take(4) =~= path.take(8).take(4));
            assert("https://"@.take(4) =~= "http"@);
        }
        joining_keeps_base_and_path(exec, path);
    }
}

} // verus!

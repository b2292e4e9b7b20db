//! The routing tables and the resolution of a request.

use crate::request::HttpRequest;
use crate::response::{not_found, not_found_view, HttpResponse};
use crate::utils::starts_with;
use vstd::prelude::*;
use vstd::string::*;

verus! {

/// Whether some entry of `table` has the key `key`.
spec fn has_key<T>(table: Seq<(String, T)>, key: Seq<char>) -> bool {
    exists|i: int| 0 <= i < table.len() && (#[trigger] table[i]).0@ == key
}

/// An index at which `table` holds `key`.
spec fn key_index<T>(table: Seq<(String, T)>, key: Seq<char>) -> int {
    choose|i: int| 0 <= i < table.len() && (#[trigger] table[i]).0@ == key
}

/// No key stands twice in `table`.
spec fn unique_keys<T>(table: Seq<(String, T)>) -> bool {
    forall|i: int, j: int|
        0 <= i < j < table.len() ==> (#[trigger] table[i]).0@ != (#[trigger] table[j]).0@
}

/// The mapping that `table` stands for.
spec fn table_map<T>(table: Seq<(String, T)>) -> Map<Seq<char>, T> {
    Map::new(|k: Seq<char>| has_key(table, k), |k: Seq<char>| table[key_index(table, k)].1)
}

proof fn lemma_lookup<T>(table: Seq<(String, T)>, i: int)
    requires
        unique_keys(table),
        0 <= i < table.len(),
    ensures
        has_key(table, table[i].0@),
        table_map(table).dom().contains(table[i].0@),
        table_map(table)[table[i].0@] == table[i].1,
{
    let k = table[i].0@;
    let j = key_index(table, k);
    assert(has_key(table, k));
    if j < i {
        assert(table[j].0@ != table[i].0@);
    } else if i < j {
        assert(table[i].0@ != table[j].0@);
    }
}

/// The index of `key` in `table`, if it is there.
fn table_find<T>(table: &Vec<(String, T)>, key: &String) -> (found: Option<usize>)
    ensures
        found matches Some(i) ==> i < table@.len() && table@[i as int].0@ == key@,
        found is None ==> !has_key(table@, key@),
{
    let n: usize = table.len();
    let mut i: usize = 0;
    while i < n
        invariant
            n == table@.len(),
            i <= n,
            forall|j: int| 0 <= j < i ==> (#[trigger] table@[j]).0@ != key@,
        decreases n - i,
    {
        if table[i].0 == *key {
            return Some(i);
        }
        i += 1;
    }
    None
}

/// Sets `key` to `value`: a key that is there gets the new value.
fn table_insert<T>(table: &mut Vec<(String, T)>, key: &str, value: T)
    requires
        unique_keys(old(table)@),
    ensures
        unique_keys(final(table)@),
        table_map(final(table)@) == table_map(old(table)@).insert(key@, value),
        forall|j: int|
            0 <= j < final(table)@.len() ==> (#[trigger] final(table)@[j]).1 == value || exists|
                i: int,
            | 0 <= i < old(table)@.len() && (#[trigger] old(table)@[i]).1 == final(table)@[j].1,
{
    let ghost before = table@;
    let owned = String::from_str(key);
    let found = table_find(table, &owned);
    let entry = (owned, value);
    let ghost at: int;
    match found {
        Some(i) => {
            table.set(i, entry);
            proof {
                at = i as int;
            }
        },
        None => {
            table.push(entry);
            proof {
                at = before.len() as int;
            }
        },
    }
    proof {
        let after = table@;
        assert(after[at].0@ == key@ && after[at].1 == value);
        assert(forall|j: int| 0 <= j < before.len() && j != at ==> after[j] == before[j]);
        assert(forall|j: int| 0 <= j < before.len() && j != at ==> before[j].0@ != key@);
        assert forall|a: int, b: int| 0 <= a < b < after.len() implies (#[trigger] after[a]).0@ != (
        #[trigger] after[b]).0@ by {
            if a != at && b != at {
                assert(before[a].0@ != before[b].0@);
            }
        }
        assert forall|j: int| 0 <= j < after.len() implies (#[trigger] after[j]).1 == value
            || exists|i: int| 0 <= i < before.len() && (#[trigger] before[i]).1 == after[j].1 by {
            if j != at {
                assert(before[j].1 == after[j].1);
            }
        }
        assert forall|k: Seq<char>| has_key(after, k) <==> (k == key@ || has_key(before, k)) by {
            if has_key(after, k) {
                let j = key_index(after, k);
                if k != key@ {
                    assert(before[j].0@ == k);
                }
            }
            if has_key(before, k) && k != key@ {
                let j = key_index(before, k);
                assert(after[j].0@ == k);
            }
        }
        let want = table_map(before).insert(key@, value);
        assert forall|k: Seq<char>| has_key(after, k) implies table_map(after)[k] == want[k] by {
            let j = key_index(after, k);
            lemma_lookup(after, j);
            if k != key@ {
                assert(before[j] == after[j]);
                lemma_lookup(before, j);
            } else {
                assert(j == at);
            }
        }
        assert(table_map(after) =~= want);
    }
}

/// `handler` may be called with any request.
pub open spec fn takes_every_request<H: Fn(HttpRequest) -> HttpResponse>(handler: H) -> bool {
    forall|r: HttpRequest| call_requires(handler, (r,))
}

/// Where a request goes.
pub enum Dispatch<'a, S> {
    /// The response is at hand.
    Respond(HttpResponse),
    /// The static handler is to be asked for `sub_path`.
    Delegate { handler: &'a S, sub_path: String },
}

/// Two tables: exact paths with their handlers, and path prefixes with
/// the handlers that serve what lies below them.
pub struct Router<H, S> {
    routes: Vec<(String, H)>,
    static_routes: Vec<(String, S)>,
}

/// `prefix` is the longest key of `table` that `target` starts with.
pub open spec fn is_longest_prefix<S>(
    table: Map<Seq<char>, S>,
    target: Seq<char>,
    prefix: Seq<char>,
) -> bool {
    &&& table.dom().contains(prefix)
    &&& prefix.is_prefix_of(target)
    &&& forall|q: Seq<char>| #[trigger]
        table.dom().contains(q) && q.is_prefix_of(target) ==> q.len() <= prefix.len()
}

/// Some key of `table` is a prefix of `target`.
pub open spec fn some_prefix<S>(table: Map<Seq<char>, S>, target: Seq<char>) -> bool {
    exists|q: Seq<char>| #[trigger] table.dom().contains(q) && q.is_prefix_of(target)
}

impl<H: Fn(HttpRequest) -> HttpResponse, S> Router<H, S> {
    /// The exact-match table.
    pub closed spec fn exact(&self) -> Map<Seq<char>, H> {
        table_map(self.routes@)
    }

    /// The prefix table.
    pub closed spec fn prefixes(&self) -> Map<Seq<char>, S> {
        table_map(self.static_routes@)
    }

    /// No key stands twice in a table, and every handler of the exact
    /// table takes every request.
    pub closed spec fn wf(&self) -> bool {
        &&& unique_keys(self.routes@)
        &&& unique_keys(self.static_routes@)
        &&& forall|i: int|
            0 <= i < self.routes@.len() ==> takes_every_request((#[trigger] self.routes@[i]).1)
    }

    /// `out` is what `request` resolves to: the response of the handler
    /// registered for the very target; else a delegation to the handler
    /// of the longest registered prefix; else the fixed `404 Not Found`.
    pub open spec fn resolves(&self, request: HttpRequest, out: Dispatch<'_, S>) -> bool {
        if self.exact().dom().contains(request.uri@) {
            out matches Dispatch::Respond(r) && call_ensures(
                self.exact()[request.uri@],
                (request,),
                r,
            )
        } else if some_prefix(self.prefixes(), request.uri@) {
            out matches Dispatch::Delegate { handler, sub_path } && delegates_to(
                self.prefixes(),
                request.uri@,
                *handler,
                sub_path@,
            )
        } else {
            out matches Dispatch::Respond(r) && r@ == not_found_view()
        }
    }

    /// A router without routes.
    pub fn new() -> (router: Self)
        ensures
            router.wf(),
            router.exact() == Map::<Seq<char>, H>::empty(),
            router.prefixes() == Map::<Seq<char>, S>::empty(),
    {
        let router = Router { routes: Vec::new(), static_routes: Vec::new() };
        proof {
            assert(router.exact() =~= Map::<Seq<char>, H>::empty());
            assert(router.prefixes() =~= Map::<Seq<char>, S>::empty());
        }
        router
    }

    /// Registers `handler` for the exact path `path`. A handler that was
    /// there for `path` is replaced.
    pub fn add_route(&mut self, path: &str, handler: H)
        requires
            old(self).wf(),
            takes_every_request(handler),
        ensures
            final(self).wf(),
            final(self).exact() == old(self).exact().insert(path@, handler),
            final(self).prefixes() == old(self).prefixes(),
    {
        table_insert(&mut self.routes, path, handler);
        proof {
            assert forall|i: int| 0 <= i < self.routes@.len() implies takes_every_request(
                (#[trigger] self.routes@[i]).1,
            ) by {
                if self.routes@[i].1 != handler {
                    let j = choose|j: int|
                        0 <= j < old(self).routes@.len() && (#[trigger] old(self).routes@[j]).1
                            == self.routes@[i].1;
                    assert(takes_every_request(old(self).routes@[j].1));
                }
            }
        }
    }

    /// Registers `handler` for the targets that start with `prefix`. A
    /// handler that was there for `prefix` is replaced.
    pub fn add_static_route(&mut self, prefix: &str, handler: S)
        requires
            old(self).wf(),
        ensures
            final(self).wf(),
            final(self).prefixes() == old(self).prefixes().insert(prefix@, handler),
            final(self).exact() == old(self).exact(),
    {
        table_insert(&mut self.static_routes, prefix, handler);
    }

    /// The index of the longest registered prefix of `target`.
    fn longest_prefix(&self, target: &str) -> (found: Option<usize>)
        requires
            self.wf(),
        ensures
            found is Some <==> some_prefix(self.prefixes(), target@),
            found matches Some(i) ==> {
                &&& i < self.static_routes@.len()
                &&& is_longest_prefix(self.prefixes(), target@, self.static_routes@[i as int].0@)
                &&& self.prefixes()[self.static_routes@[i as int].0@]
                    == self.static_routes@[i as int].1
            },
    {
        let n: usize = self.static_routes.len();
        let mut best: Option<usize> = None;
        let mut best_len: usize = 0;
        let mut i: usize = 0;
        while i < n
            invariant
                n == self.static_routes@.len(),
                i <= n,
                best is None ==> forall|j: int|
                    0 <= j < i ==> !(#[trigger] self.static_routes@[j]).0@.is_prefix_of(target@),
                best matches Some(b) ==> {
                    &&& b < i
                    &&& self.static_routes@[b as int].0@.is_prefix_of(target@)
                    &&& best_len == self.static_routes@[b as int].0@.len()
                    &&& forall|j: int|
                        0 <= j < i && (#[trigger] self.static_routes@[j]).0@.is_prefix_of(target@)
                            ==> self.static_routes@[j].0@.len() <= best_len
                },
            decreases n - i,
        {
            let prefix = self.static_routes[i].0.as_str();
            if starts_with(target, prefix) {
                let len: usize = prefix.unicode_len();
                if best.is_none() || len > best_len {
                    best = Some(i);
                    best_len = len;
                }
            }
            i += 1;
        }
        proof {
            let table = self.static_routes@;
            match best {
                Some(b) => {
                    lemma_lookup(table, b as int);
                    assert forall|q: Seq<char>| #[trigger]
                        self.prefixes().dom().contains(q) && q.is_prefix_of(
                            target@,
                        ) implies q.len() <= table[b as int].0@.len() by {
                        let j = key_index(table, q);
                        assert(table[j].0@ == q);
                    }
                    assert(self.prefixes().dom().contains(table[b as int].0@));
                },
                None => {
                    assert forall|q: Seq<char>| #[trigger]
                        self.prefixes().dom().contains(q) implies !q.is_prefix_of(target@) by {
                        let j = key_index(table, q);
                        assert(table[j].0@ == q);
                    }
                },
            }
        }
        best
    }

    /// Resolves `request`. A handler registered for the very target
    /// answers it, whatever the prefix table holds. Else the handler of
    /// the longest registered prefix of the target is to be asked for the
    /// rest of the target. Else the answer is the fixed `404 Not Found`.
    pub fn handle_request(&self, request: HttpRequest) -> (out: Dispatch<'_, S>)
        requires
            self.wf(),
        ensures
            self.resolves(request, out),
    {
        match table_find(&self.routes, &request.uri) {
            Some(i) => {
                proof {
                    lemma_lookup(self.routes@, i as int);
                }
                let handler = &self.routes[i].1;
                return Dispatch::Respond(handler(request));
            },
            None => {},
        }
        let target = request.uri.as_str();
        match self.longest_prefix(target) {
            Some(i) => {
                let entry = &self.static_routes[i];
                let from: usize = entry.0.as_str().unicode_len();
                let to: usize = target.unicode_len();
                let sub_path = String::from_str(target.substring_char(from, to));
                proof {
                    assert(target@.subrange(0, target@.len() - sub_path@.len()) =~= entry.0@);
                }
                Dispatch::Delegate { handler: &entry.1, sub_path }
            },
            None => Dispatch::Respond(not_found()),
        }
    }
}

/// `handler` belongs to the longest key of `table` that `target` starts
/// with, and `sub_path` is what follows that key in `target`.
pub open spec fn delegates_to<S>(
    table: Map<Seq<char>, S>,
    target: Seq<char>,
    handler: S,
    sub_path: Seq<char>,
) -> bool {
    &&& sub_path.is_suffix_of(target)
    &&& is_longest_prefix(table, target, target.subrange(0, target.len() - sub_path.len()))
    &&& table[target.subrange(0, target.len() - sub_path.len())] == handler
}

/// An exact route wins: once `handler` is registered for `path`, a request
/// for `path` gets that handler's response, also where `path` is a
/// registered prefix.
pub proof fn lemma_exact_route_wins<H: Fn(HttpRequest) -> HttpResponse, S>(
    before: Router<H, S>,
    after: Router<H, S>,
    path: Seq<char>,
    handler: H,
    request: HttpRequest,
    out: Dispatch<'_, S>,
)
    requires
        after.exact() == before.exact().insert(path, handler),
        request.uri@ == path,
        after.resolves(request, out),
    ensures
        out matches Dispatch::Respond(r) && call_ensures(handler, (request,), r),
{
}

/// A target that is no exact route and starts with no registered prefix
/// gets `404 Not Found`, as status and as body.
pub proof fn lemma_unregistered_is_not_found<H: Fn(HttpRequest) -> HttpResponse, S>(
    router: Router<H, S>,
    request: HttpRequest,
    out: Dispatch<'_, S>,
)
    requires
        !router.exact().dom().contains(request.uri@),
        forall|p: Seq<char>| #[trigger]
            router.prefixes().dom().contains(p) ==> !p.is_prefix_of(request.uri@),
        router.resolves(request, out),
    ensures
        out matches Dispatch::Respond(r) && r@.status == "404 Not Found"@ && r@.body
            == "404 Not Found"@,
{
}

/// The empty target is not the root: it is found only where the empty
/// path or the empty prefix is registered.
pub proof fn lemma_empty_target<H: Fn(HttpRequest) -> HttpResponse, S>(
    router: Router<H, S>,
    request: HttpRequest,
    out: Dispatch<'_, S>,
)
    requires
        request.uri@.len() == 0,
        !router.exact().dom().contains(Seq::<char>::empty()),
        !router.prefixes().dom().contains(Seq::<char>::empty()),
        router.resolves(request, out),
    ensures
        out matches Dispatch::Respond(r) && r@ == not_found_view(),
{
    assert(request.uri@ =~= Seq::<char>::empty());
    assert forall|p: Seq<char>| #[trigger]
        router.prefixes().dom().contains(p) implies !p.is_prefix_of(request.uri@) by {
        if p.is_prefix_of(request.uri@) {
            assert(p =~= Seq::<char>::empty());
        }
    }
}

/// A delegation hands on what follows the prefix: prefix and sub-path
/// together are the target.
pub proof fn lemma_delegation_splits_target<S>(
    table: Map<Seq<char>, S>,
    target: Seq<char>,
    handler: S,
    sub_path: Seq<char>,
)
    requires
        delegates_to(table, target, handler, sub_path),
    ensures
        exists|prefix: Seq<char>| #[trigger]
            is_longest_prefix(table, target, prefix) && prefix + sub_path == target
                && table[prefix] == handler,
{
    let prefix = target.subrange(0, target.len() - sub_path.len());
    assert(prefix + sub_path =~= target);
}

} // verus!

//! The route table: a finite map from (method, canonical path) to an
//! absolute filesystem path, with two binding modes.
//!
//! Single bind inserts only if the key is absent (first writer wins).
//! Recursive bind permits overwrite throughout — a deliberate
//! asymmetry between the two operations: it walks an in-memory
//! directory tree, (re)binds one GET route per descendant, and then
//! always (re)binds the root key itself. The surrounding application
//! walks the real directory and hands the tree in as plain values.

use vstd::prelude::*;
use vstd::string::StrSliceExecFns;
use vstd::string::StringExecFns;

use crate::method::HTTPMethod;
use crate::route::Route;
use crate::route::route_key;
use crate::text::str_eq;

verus! {

broadcast use vstd::std_specs::vec::axiom_vec_index_decreases;

/// The key of one stored entry.
pub open spec fn entry_key(e: (Route, String)) -> (HTTPMethod, Seq<char>) {
    (e.0.0, e.0.1@)
}

/// The finite map a sequence of entries denotes (later entries would
/// win, but a well-formed table has no duplicate keys).
pub open spec fn map_of(s: Seq<(Route, String)>) -> Map<(HTTPMethod, Seq<char>), Seq<char>>
    decreases s.len(),
{
    if s.len() == 0 {
        Map::empty()
    } else {
        map_of(s.drop_last()).insert(entry_key(s.last()), s.last().1@)
    }
}

/// No two entries share a key.
pub open spec fn entries_wf(s: Seq<(Route, String)>) -> bool {
    forall|i: int, j: int|
        0 <= i < j < s.len() ==> entry_key(#[trigger] s[i]) != entry_key(#[trigger] s[j])
}

/// Every entry is visible in the map, with its own value when the
/// table is well formed.
proof fn lemma_map_of_index(s: Seq<(Route, String)>, i: int)
    requires
        entries_wf(s),
        0 <= i < s.len(),
    ensures
        map_of(s).contains_key(entry_key(s[i])),
        map_of(s)[entry_key(s[i])] == s[i].1@,
    decreases s.len(),
{
    if i == s.len() - 1 {
    } else {
        assert(entries_wf(s.drop_last()));
        assert(s.drop_last()[i] == s[i]);
        lemma_map_of_index(s.drop_last(), i);
        assert(entry_key(s[i]) != entry_key(s.last()));
    }
}

/// A key held by no entry is not in the map.
proof fn lemma_map_of_absent(s: Seq<(Route, String)>, k: (HTTPMethod, Seq<char>))
    requires
        forall|i: int| 0 <= i < s.len() ==> entry_key(#[trigger] s[i]) != k,
    ensures
        !map_of(s).contains_key(k),
    decreases s.len(),
{
    if s.len() > 0 {
        assert forall|i: int| 0 <= i < s.drop_last().len() implies entry_key(
            #[trigger] s.drop_last()[i],
        ) != k by {
            assert(s.drop_last()[i] == s[i]);
        }
        lemma_map_of_absent(s.drop_last(), k);
        assert(entry_key(s.last()) != k);
    }
}

/// Updating the entry that holds key `k` updates the map at `k`.
proof fn lemma_map_of_update(s: Seq<(Route, String)>, i: int, e: (Route, String))
    requires
        entries_wf(s),
        0 <= i < s.len(),
        entry_key(e) == entry_key(s[i]),
    ensures
        map_of(s.update(i, e)) =~= map_of(s).insert(entry_key(e), e.1@),
    decreases s.len(),
{
    let t = s.update(i, e);
    if i == s.len() - 1 {
        assert(t.drop_last() =~= s.drop_last());
        assert(t.last() == e);
    } else {
        assert(t.drop_last() =~= s.drop_last().update(i, e));
        assert(t.last() == s.last());
        assert(entries_wf(s.drop_last()));
        assert(s.drop_last()[i] == s[i]);
        lemma_map_of_update(s.drop_last(), i, e);
        assert(entry_key(s[i]) != entry_key(s.last()));
    }
}

/// Removing the entry that holds key `k` removes `k` from the map.
proof fn lemma_map_of_remove(s: Seq<(Route, String)>, i: int)
    requires
        entries_wf(s),
        0 <= i < s.len(),
    ensures
        map_of(s.remove(i)) =~= map_of(s).remove(entry_key(s[i])),
    decreases s.len(),
{
    let k = entry_key(s[i]);
    let t = s.remove(i);
    if i == s.len() - 1 {
        assert(t =~= s.drop_last());
        assert forall|j: int| 0 <= j < s.drop_last().len() implies entry_key(
            #[trigger] s.drop_last()[j],
        ) != k by {
            assert(s.drop_last()[j] == s[j]);
        }
        lemma_map_of_absent(s.drop_last(), k);
    } else {
        assert(t.drop_last() =~= s.drop_last().remove(i));
        assert(t.last() == s.last());
        assert(entries_wf(s.drop_last()));
        assert(s.drop_last()[i] == s[i]);
        lemma_map_of_remove(s.drop_last(), i);
        assert(entry_key(s[i]) != entry_key(s.last()));
    }
}

/// One node of an in-memory directory tree: the entry's file or
/// directory name, its absolute path, and its children (empty for a
/// plain file).
pub struct DirEntry {
    pub name: String,
    pub abs_path: String,
    pub children: Vec<DirEntry>,
}

/// Join a canonical-path prefix and a child name with a single `/`.
pub open spec fn spec_join(prefix: Seq<char>, name: Seq<char>) -> Seq<char> {
    if prefix.len() > 0 && prefix.last() == '/' {
        prefix + name
    } else {
        prefix + "/"@ + name
    }
}

/// The single-bind rule: first writer wins, re-binding an existing
/// key changes nothing.
pub open spec fn spec_single_bind(
    m: Map<(HTTPMethod, Seq<char>), Seq<char>>,
    k: (HTTPMethod, Seq<char>),
    v: Seq<char>,
) -> Map<(HTTPMethod, Seq<char>), Seq<char>> {
    if m.contains_key(k) {
        m
    } else {
        m.insert(k, v)
    }
}

/// Bind one tree node: a GET route for the node itself, overwriting
/// any prior binding (recursive bind permits overwrite), then its
/// children depth-first.
pub open spec fn spec_bind_entry(
    m: Map<(HTTPMethod, Seq<char>), Seq<char>>,
    prefix: Seq<char>,
    e: DirEntry,
) -> Map<(HTTPMethod, Seq<char>), Seq<char>>
    decreases e, 0int,
{
    let np = spec_join(prefix, e.name@);
    let m1 = m.insert((HTTPMethod::GET, np), e.abs_path@);
    spec_bind_children(m1, np, e.children, 0)
}

/// Bind the nodes `v[i..]` in order, each under its own subtree.
pub open spec fn spec_bind_children(
    m: Map<(HTTPMethod, Seq<char>), Seq<char>>,
    prefix: Seq<char>,
    v: Vec<DirEntry>,
    i: int,
) -> Map<(HTTPMethod, Seq<char>), Seq<char>>
    decreases v, v.len() - i
    when 0 <= i
{
    if i >= v.len() {
        m
    } else {
        let m1 = spec_bind_entry(m, prefix, v[i]);
        spec_bind_children(m1, prefix, v, i + 1)
    }
}

/// The walk only ever adds or rebinds routes: every key bound before
/// it is still bound after it (possibly to a descendant's path, since
/// recursive bind permits overwrite).
pub proof fn lemma_bind_entry_monotone(
    m: Map<(HTTPMethod, Seq<char>), Seq<char>>,
    prefix: Seq<char>,
    e: DirEntry,
    k: (HTTPMethod, Seq<char>),
)
    requires
        m.contains_key(k),
    ensures
        spec_bind_entry(m, prefix, e).contains_key(k),
    decreases e, 0int,
{
    let np = spec_join(prefix, e.name@);
    let m1 = m.insert((HTTPMethod::GET, np), e.abs_path@);
    lemma_bind_children_monotone(m1, np, e.children, 0, k);
}

/// See [`lemma_bind_entry_monotone`].
pub proof fn lemma_bind_children_monotone(
    m: Map<(HTTPMethod, Seq<char>), Seq<char>>,
    prefix: Seq<char>,
    v: Vec<DirEntry>,
    i: int,
    k: (HTTPMethod, Seq<char>),
)
    requires
        m.contains_key(k),
        0 <= i,
    ensures
        spec_bind_children(m, prefix, v, i).contains_key(k),
    decreases v, v.len() - i,
{
    if i < v.len() {
        let m1 = spec_bind_entry(m, prefix, v[i]);
        lemma_bind_entry_monotone(m, prefix, v[i], k);
        lemma_bind_children_monotone(m1, prefix, v, i + 1, k);
    }
}

/// After binding a tree node, the GET route synthesized for the node
/// itself is bound: each child is bound exactly once by the walk.
pub proof fn lemma_bind_entry_binds(
    m: Map<(HTTPMethod, Seq<char>), Seq<char>>,
    prefix: Seq<char>,
    e: DirEntry,
)
    ensures
        spec_bind_entry(m, prefix, e).contains_key(
            (HTTPMethod::GET, spec_join(prefix, e.name@)),
        ),
{
    let np = spec_join(prefix, e.name@);
    let m1 = m.insert((HTTPMethod::GET, np), e.abs_path@);
    lemma_bind_children_monotone(m1, np, e.children, 0, (HTTPMethod::GET, np));
}

/// The route table. Shared read/write access across connection
/// handlers belongs to the transport layer; the table itself is a
/// plain value.
#[derive(Debug, Clone)]
pub struct Router {
    route_map: Vec<(Route, String)>,
}

impl View for Router {
    type V = Map<(HTTPMethod, Seq<char>), Seq<char>>;

    closed spec fn view(&self) -> Map<(HTTPMethod, Seq<char>), Seq<char>> {
        map_of(self.route_map@)
    }
}

impl Router {
    /// No two stored entries share a key.
    pub closed spec fn wf(self) -> bool {
        entries_wf(self.route_map@)
    }

    /// The empty table.
    pub fn new() -> (r: Self)
        ensures
            r@ =~= Map::<(HTTPMethod, Seq<char>), Seq<char>>::empty(),
            r.wf(),
    {
        Self { route_map: Vec::new() }
    }

    /// The position of the entry holding `route`'s key, if any.
    fn find_index(&self, method: HTTPMethod, path: &str) -> (r: Option<usize>)
        ensures
            match r {
                Some(i) => i < self.route_map@.len() && entry_key(self.route_map@[i as int])
                    == (method, path@),
                None => forall|j: int|
                    0 <= j < self.route_map@.len() ==> entry_key(#[trigger] self.route_map@[j])
                        != (method, path@),
            },
    {
        let n = self.route_map.len();
        let mut i: usize = 0;
        #[verifier::loop_isolation(false)]
        while i < n
            invariant
                0 <= i <= n,
                n == self.route_map@.len(),
                forall|j: int|
                    0 <= j < i ==> entry_key(#[trigger] self.route_map@[j]) != (method, path@),
            decreases n - i,
        {
            let e = &self.route_map[i];
            if e.0.0 == method && str_eq(e.0.1.as_str(), path) {
                return Some(i);
            }
            i = i + 1;
        }
        None
    }

    /// Bind `canonical_route` to `absolute_path` only if the key is
    /// absent: the first writer wins and re-binding is a silent no-op.
    pub fn connect_single_route(&mut self, canonical_route: Route, absolute_path: String)
        requires
            old(self).wf(),
        ensures
            final(self).wf(),
            final(self)@ =~= spec_single_bind(
                old(self)@,
                route_key(canonical_route),
                absolute_path@,
            ),
    {
        let ghost k = route_key(canonical_route);
        match self.find_index(canonical_route.0, canonical_route.1.as_str()) {
            Some(i) => {
                proof {
                    lemma_map_of_index(self.route_map@, i as int);
                }
            },
            None => {
                proof {
                    lemma_map_of_absent(self.route_map@, k);
                }
                let ghost prev = self.route_map@;
                self.route_map.push((canonical_route, absolute_path));
                proof {
                    assert(self.route_map@.drop_last() =~= prev);
                    assert(self.route_map@.last() == self.route_map@[prev.len() as int]);
                    assert forall|a: int, b: int|
                        0 <= a < b < self.route_map@.len() implies entry_key(
                        #[trigger] self.route_map@[a],
                    ) != entry_key(#[trigger] self.route_map@[b]) by {
                        if b < prev.len() {
                            assert(self.route_map@[a] == prev[a]);
                            assert(self.route_map@[b] == prev[b]);
                        } else {
                            assert(self.route_map@[a] == prev[a]);
                            assert(entry_key(prev[a]) != k);
                        }
                    }
                }
            },
        }
    }

    /// Bind `canonical_route`'s key to `absolute_path`, overwriting
    /// any prior binding.
    fn bind_overwrite(&mut self, canonical_route: Route, absolute_path: String)
        requires
            old(self).wf(),
        ensures
            final(self).wf(),
            final(self)@ =~= old(self)@.insert(route_key(canonical_route), absolute_path@),
    {
        let ghost k = route_key(canonical_route);
        match self.find_index(canonical_route.0, canonical_route.1.as_str()) {
            Some(i) => {
                let ghost prev = self.route_map@;
                self.route_map.set(i, (canonical_route, absolute_path));
                proof {
                    lemma_map_of_update(prev, i as int, self.route_map@[i as int]);
                    assert forall|a: int, b: int|
                        0 <= a < b < self.route_map@.len() implies entry_key(
                        #[trigger] self.route_map@[a],
                    ) != entry_key(#[trigger] self.route_map@[b]) by {
                        assert(entry_key(self.route_map@[a]) == entry_key(prev[a]));
                        assert(entry_key(self.route_map@[b]) == entry_key(prev[b]));
                    }
                }
            },
            None => {
                proof {
                    lemma_map_of_absent(self.route_map@, k);
                }
                let ghost prev = self.route_map@;
                self.route_map.push((canonical_route, absolute_path));
                proof {
                    assert(self.route_map@.drop_last() =~= prev);
                    assert forall|a: int, b: int|
                        0 <= a < b < self.route_map@.len() implies entry_key(
                        #[trigger] self.route_map@[a],
                    ) != entry_key(#[trigger] self.route_map@[b]) by {
                        if b < prev.len() {
                            assert(self.route_map@[a] == prev[a]);
                            assert(self.route_map@[b] == prev[b]);
                        } else {
                            assert(self.route_map@[a] == prev[a]);
                            assert(entry_key(prev[a]) != k);
                        }
                    }
                }
            },
        }
    }

    /// Bind one tree node and, depth-first, everything below it,
    /// overwriting prior bindings (recursive bind permits overwrite).
    fn bind_entry(&mut self, prefix: &str, e: &DirEntry)
        requires
            old(self).wf(),
        ensures
            final(self).wf(),
            final(self)@ =~= spec_bind_entry(old(self)@, prefix@, *e),
        decreases *e, 0int,
    {
        let np = join_path(prefix, e.name.as_str());
        self.bind_overwrite(
            Route(HTTPMethod::GET, np.clone()),
            e.abs_path.clone(),
        );
        let n = e.children.len();
        let mut i: usize = 0;
        #[verifier::loop_isolation(false)]
        while i < n
            invariant
                0 <= i <= n,
                n == e.children@.len(),
                self.wf(),
                spec_bind_entry(old(self)@, prefix@, *e) =~= spec_bind_children(
                    self@,
                    np@,
                    e.children,
                    i as int,
                ),
            decreases n - i,
        {
            let ghost before = self@;
            self.bind_entry(np.as_str(), &e.children[i]);
            proof {
                assert(spec_bind_children(before, np@, e.children, i as int)
                    =~= spec_bind_children(self@, np@, e.children, i + 1));
            }
            i = i + 1;
        }
    }

    /// Recursive bind: synthesize a GET route for every node of the
    /// given directory tree (each child is bound exactly once, and any
    /// prior binding of its key is overwritten), then always (re)bind
    /// the root key itself, again overwriting — the deliberate
    /// asymmetry with single bind. The caller supplies the tree: the
    /// children of the target directory, or of the target file's
    /// containing directory.
    pub fn connect_recursive_routes(
        &mut self,
        canonical_route: Route,
        absolute_path: String,
        entries: &Vec<DirEntry>,
    )
        requires
            old(self).wf(),
        ensures
            final(self).wf(),
            final(self)@ =~= spec_bind_children(
                old(self)@,
                canonical_route.1@,
                *entries,
                0,
            ).insert(route_key(canonical_route), absolute_path@),
    {
        let n = entries.len();
        let mut i: usize = 0;
        #[verifier::loop_isolation(false)]
        while i < n
            invariant
                0 <= i <= n,
                n == entries@.len(),
                self.wf(),
                spec_bind_children(old(self)@, canonical_route.1@, *entries, 0)
                    =~= spec_bind_children(self@, canonical_route.1@, *entries, i as int),
            decreases n - i,
        {
            let ghost before = self@;
            self.bind_entry(canonical_route.1.as_str(), &entries[i]);
            proof {
                assert(spec_bind_children(before, canonical_route.1@, *entries, i as int)
                    =~= spec_bind_children(self@, canonical_route.1@, *entries, i + 1));
            }
            i = i + 1;
        }
        self.bind_overwrite(canonical_route, absolute_path);
    }

    /// Resolve a route to its bound absolute path: a pure lookup, with
    /// an explicit "no route" result.
    pub fn get_abs_path(&self, route: Route) -> (r: Option<&str>)
        requires
            self.wf(),
        ensures
            match r {
                Some(s) => self@.contains_key(route_key(route)) && s@ == self@[route_key(route)],
                None => !self@.contains_key(route_key(route)),
            },
    {
        match self.find_index(route.0, route.1.as_str()) {
            Some(i) => {
                proof {
                    lemma_map_of_index(self.route_map@, i as int);
                }
                Some(self.route_map[i].1.as_str())
            },
            None => {
                proof {
                    lemma_map_of_absent(self.route_map@, route_key(route));
                }
                None
            },
        }
    }

    /// Unbind a route, returning the path it was bound to, if any.
    pub fn disconnect_route(&mut self, route: &Route) -> (r: Option<String>)
        requires
            old(self).wf(),
        ensures
            final(self).wf(),
            final(self)@ =~= old(self)@.remove(route_key(*route)),
            match r {
                Some(v) => old(self)@.contains_key(route_key(*route)) && v@ == old(self)@[route_key(
                    *route,
                )],
                None => !old(self)@.contains_key(route_key(*route)),
            },
    {
        let ghost k = route_key(*route);
        match self.find_index(route.0, route.1.as_str()) {
            Some(i) => {
                let ghost prev = self.route_map@;
                proof {
                    lemma_map_of_index(prev, i as int);
                    lemma_map_of_remove(prev, i as int);
                }
                let (_, v) = self.route_map.remove(i);
                proof {
                    assert forall|a: int, b: int|
                        0 <= a < b < self.route_map@.len() implies entry_key(
                        #[trigger] self.route_map@[a],
                    ) != entry_key(#[trigger] self.route_map@[b]) by {
                        let pa = if a < i as int {
                            a
                        } else {
                            a + 1
                        };
                        let pb = if b < i as int {
                            b
                        } else {
                            b + 1
                        };
                        assert(self.route_map@[a] == prev[pa]);
                        assert(self.route_map@[b] == prev[pb]);
                    }
                }
                Some(v)
            },
            None => {
                proof {
                    lemma_map_of_absent(self.route_map@, k);
                    assert(old(self)@.remove(k) =~= old(self)@);
                }
                None
            },
        }
    }
}

impl Default for Router {
    /// The empty table.
    fn default() -> (r: Self)
        ensures
            r@ =~= Map::<(HTTPMethod, Seq<char>), Seq<char>>::empty(),
            r.wf(),
    {
        Router::new()
    }
}

/// Join a canonical-path prefix and a child name with a single `/`.
fn join_path(prefix: &str, name: &str) -> (r: String)
    ensures
        r@ == spec_join(prefix@, name@),
{
    let n = prefix.unicode_len();
    let mut out = prefix.to_owned();
    if !(n > 0 && prefix.get_char(n - 1) == '/') {
        out.append("/");
        proof {
            reveal_strlit("/");
            assert(prefix@.last() == prefix@[n - 1]) by {
                assert(n > 0 ==> prefix@.last() == prefix@[n - 1]);
            }
        }
    }
    out.append(name);
    proof {
        if prefix@.len() > 0 && prefix@.last() == '/' {
            assert(out@ =~= prefix@ + name@);
        } else {
            assert(out@ =~= prefix@ + "/"@ + name@);
        }
    }
    out
}

} // verus!

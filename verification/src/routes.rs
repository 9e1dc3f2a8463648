//! A plain path-keyed route map: an earlier, method-less variant of
//! the route table that maps a canonical HTML path straight to an
//! absolute filesystem path. Unlike the single-bind rule of the full
//! table, `connect` here always overwrites.

use vstd::prelude::*;

use crate::text::str_eq;

verus! {

/// The finite map a sequence of path pairs denotes.
pub open spec fn path_map_of(s: Seq<(String, String)>) -> Map<Seq<char>, Seq<char>>
    decreases s.len(),
{
    if s.len() == 0 {
        Map::empty()
    } else {
        path_map_of(s.drop_last()).insert(s.last().0@, s.last().1@)
    }
}

/// No two entries share a key.
pub open spec fn path_entries_wf(s: Seq<(String, String)>) -> bool {
    forall|i: int, j: int| 0 <= i < j < s.len() ==> (#[trigger] s[i]).0@ != (#[trigger] s[j]).0@
}

proof fn lemma_path_map_index(s: Seq<(String, String)>, i: int)
    requires
        path_entries_wf(s),
        0 <= i < s.len(),
    ensures
        path_map_of(s).contains_key(s[i].0@),
        path_map_of(s)[s[i].0@] == s[i].1@,
    decreases s.len(),
{
    if i < s.len() - 1 {
        assert(path_entries_wf(s.drop_last()));
        assert(s.drop_last()[i] == s[i]);
        lemma_path_map_index(s.drop_last(), i);
        assert(s[i].0@ != s.last().0@);
    }
}

proof fn lemma_path_map_absent(s: Seq<(String, String)>, k: Seq<char>)
    requires
        forall|i: int| 0 <= i < s.len() ==> (#[trigger] s[i]).0@ != k,
    ensures
        !path_map_of(s).contains_key(k),
    decreases s.len(),
{
    if s.len() > 0 {
        assert forall|i: int| 0 <= i < s.drop_last().len() implies (#[trigger] s.drop_last()[
            i
        ]).0@ != k by {
            assert(s.drop_last()[i] == s[i]);
        }
        lemma_path_map_absent(s.drop_last(), k);
    }
}

proof fn lemma_path_map_update(s: Seq<(String, String)>, i: int, e: (String, String))
    requires
        path_entries_wf(s),
        0 <= i < s.len(),
        e.0@ == s[i].0@,
    ensures
        path_map_of(s.update(i, e)) =~= path_map_of(s).insert(e.0@, e.1@),
    decreases s.len(),
{
    let t = s.update(i, e);
    if i == s.len() - 1 {
        assert(t.drop_last() =~= s.drop_last());
        assert(t.last() == e);
    } else {
        assert(t.drop_last() =~= s.drop_last().update(i, e));
        assert(t.last() == s.last());
        assert(path_entries_wf(s.drop_last()));
        assert(s.drop_last()[i] == s[i]);
        lemma_path_map_update(s.drop_last(), i, e);
        assert(s[i].0@ != s.last().0@);
    }
}

proof fn lemma_path_map_remove(s: Seq<(String, String)>, i: int)
    requires
        path_entries_wf(s),
        0 <= i < s.len(),
    ensures
        path_map_of(s.remove(i)) =~= path_map_of(s).remove(s[i].0@),
    decreases s.len(),
{
    let k = s[i].0@;
    let t = s.remove(i);
    if i == s.len() - 1 {
        assert(t =~= s.drop_last());
        assert forall|j: int| 0 <= j < s.drop_last().len() implies (#[trigger] s.drop_last()[
            j
        ]).0@ != k by {
            assert(s.drop_last()[j] == s[j]);
        }
        lemma_path_map_absent(s.drop_last(), k);
    } else {
        assert(t.drop_last() =~= s.drop_last().remove(i));
        assert(t.last() == s.last());
        assert(path_entries_wf(s.drop_last()));
        assert(s.drop_last()[i] == s[i]);
        lemma_path_map_remove(s.drop_last(), i);
        assert(s[i].0@ != s.last().0@);
    }
}

/// The path-keyed route map.
pub struct Route {
    route_map: Vec<(String, String)>,
}

impl View for Route {
    type V = Map<Seq<char>, Seq<char>>;

    closed spec fn view(&self) -> Map<Seq<char>, Seq<char>> {
        path_map_of(self.route_map@)
    }
}

impl Route {
    /// No two stored entries share a key.
    pub closed spec fn wf(self) -> bool {
        path_entries_wf(self.route_map@)
    }

    /// The empty map.
    pub fn new() -> (r: Self)
        ensures
            r@ =~= Map::<Seq<char>, Seq<char>>::empty(),
            r.wf(),
    {
        Self { route_map: Vec::new() }
    }

    fn find_index(&self, html_path: &str) -> (r: Option<usize>)
        ensures
            match r {
                Some(i) => i < self.route_map@.len() && self.route_map@[i as int].0@
                    == html_path@,
                None => forall|j: int|
                    0 <= j < self.route_map@.len() ==> (#[trigger] self.route_map@[j]).0@
                        != html_path@,
            },
    {
        let n = self.route_map.len();
        let mut i: usize = 0;
        #[verifier::loop_isolation(false)]
        while i < n
            invariant
                0 <= i <= n,
                n == self.route_map@.len(),
                forall|j: int| 0 <= j < i ==> (#[trigger] self.route_map@[j]).0@ != html_path@,
            decreases n - i,
        {
            if str_eq(self.route_map[i].0.as_str(), html_path) {
                return Some(i);
            }
            i = i + 1;
        }
        None
    }

    /// Bind `html_path` to `abs_path`, overwriting any prior binding.
    pub fn connect(&mut self, html_path: &str, abs_path: String)
        requires
            old(self).wf(),
        ensures
            final(self).wf(),
            final(self)@ =~= old(self)@.insert(html_path@, abs_path@),
    {
        match self.find_index(html_path) {
            Some(i) => {
                let ghost prev = self.route_map@;
                self.route_map.set(i, (html_path.to_owned(), abs_path));
                proof {
                    lemma_path_map_update(prev, i as int, self.route_map@[i as int]);
                    assert forall|a: int, b: int|
                        0 <= a < b < self.route_map@.len() implies (#[trigger] self.route_map@[
                        a
                    ]).0@ != (#[trigger] self.route_map@[b]).0@ by {
                        assert(self.route_map@[a].0@ == prev[a].0@);
                        assert(self.route_map@[b].0@ == prev[b].0@);
                    }
                }
            },
            None => {
                proof {
                    lemma_path_map_absent(self.route_map@, html_path@);
                }
                let ghost prev = self.route_map@;
                self.route_map.push((html_path.to_owned(), abs_path));
                proof {
                    assert(self.route_map@.drop_last() =~= prev);
                    assert forall|a: int, b: int|
                        0 <= a < b < self.route_map@.len() implies (#[trigger] self.route_map@[
                        a
                    ]).0@ != (#[trigger] self.route_map@[b]).0@ by {
                        if b < prev.len() {
                            assert(self.route_map@[a] == prev[a]);
                            assert(self.route_map@[b] == prev[b]);
                        } else {
                            assert(self.route_map@[a] == prev[a]);
                            assert(prev[a].0@ != html_path@);
                        }
                    }
                }
            },
        }
    }

    /// Resolve a canonical path to its bound filesystem path.
    pub fn match_path(&self, html_path: &str) -> (r: Option<&str>)
        requires
            self.wf(),
        ensures
            match r {
                Some(s) => self@.contains_key(html_path@) && s@ == self@[html_path@],
                None => !self@.contains_key(html_path@),
            },
    {
        match self.find_index(html_path) {
            Some(i) => {
                proof {
                    lemma_path_map_index(self.route_map@, i as int);
                }
                Some(self.route_map[i].1.as_str())
            },
            None => {
                proof {
                    lemma_path_map_absent(self.route_map@, html_path@);
                }
                None
            },
        }
    }

    /// Unbind a canonical path, returning what it was bound to.
    pub fn disconnect(&mut self, html_path: &str) -> (r: Option<String>)
        requires
            old(self).wf(),
        ensures
            final(self).wf(),
            final(self)@ =~= old(self)@.remove(html_path@),
            match r {
                Some(v) => old(self)@.contains_key(html_path@) && v@ == old(self)@[html_path@],
                None => !old(self)@.contains_key(html_path@),
            },
    {
        match self.find_index(html_path) {
            Some(i) => {
                let ghost prev = self.route_map@;
                proof {
                    lemma_path_map_index(prev, i as int);
                    lemma_path_map_remove(prev, i as int);
                }
                let (_, v) = self.route_map.remove(i);
                proof {
                    assert forall|a: int, b: int|
                        0 <= a < b < self.route_map@.len() implies (#[trigger] self.route_map@[
                        a
                    ]).0@ != (#[trigger] self.route_map@[b]).0@ by {
                        let pa = if a < i as int {
                            a
                        } else {
                            a + 1
                        };
                        let pb = if b < i as int {
                            b
                        } else {
                            b + 1
                        };
                        assert(self.route_map@[a] == prev[pa]);
                        assert(self.route_map@[b] == prev[pb]);
                    }
                }
                Some(v)
            },
            None => {
                proof {
                    lemma_path_map_absent(self.route_map@, html_path@);
                    assert(old(self)@.remove(html_path@) =~= old(self)@);
                }
                None
            },
        }
    }
}

} // verus!

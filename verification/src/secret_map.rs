//! Secrets by key, in the order of their keys.

use vstd::prelude::*;
use crate::text::{
    before, increasing, lemma_before_irreflexive, lemma_before_total, lemma_before_transitive,
    same_text, text_before, texts,
};

verus! {

/// Keys with their values, over texts.
pub open spec fn pairs(s: Seq<(String, String)>) -> Seq<(Seq<char>, Seq<char>)> {
    s.map_values(|e: (String, String)| (e.0@, e.1@))
}

/// Each key stands before all that follow it.
pub open spec fn ordered(p: Seq<(Seq<char>, Seq<char>)>) -> bool {
    forall|i: int, j: int| 0 <= i < j < p.len() ==> before(#[trigger] p[i].0, #[trigger] p[j].0)
}

/// Whether a key is among the pairs.
pub open spec fn has_key(p: Seq<(Seq<char>, Seq<char>)>, key: Seq<char>) -> bool {
    exists|i: int| 0 <= i < p.len() && #[trigger] p[i].0 == key
}

/// A position at which a key stands.
pub open spec fn key_index(p: Seq<(Seq<char>, Seq<char>)>, key: Seq<char>) -> int {
    choose|i: int| 0 <= i < p.len() && #[trigger] p[i].0 == key
}

/// The map that the pairs describe.
pub open spec fn map_of(p: Seq<(Seq<char>, Seq<char>)>) -> Map<Seq<char>, Seq<char>> {
    Map::new(|key: Seq<char>| has_key(p, key), |key: Seq<char>| p[key_index(p, key)].1)
}

/// Whether `keys` lists the keys of a map, each once and in order.
pub open spec fn lists_keys(keys: Seq<Seq<char>>, m: Map<Seq<char>, Seq<char>>) -> bool {
    &&& increasing(keys)
    &&& forall|k: Seq<char>| #[trigger] keys.contains(k) <==> m.contains_key(k)
}

/// In ordered pairs a key occurs once, and the map gives the value beside it.
pub proof fn lemma_map_of(p: Seq<(Seq<char>, Seq<char>)>, i: int)
    requires
        ordered(p),
        0 <= i < p.len(),
    ensures
        map_of(p).contains_key(p[i].0),
        map_of(p)[p[i].0] == p[i].1,
{
    let key = p[i].0;
    let c = key_index(p, key);
    assert(p[i].0 == key);
    assert(has_key(p, key));
    if c != i {
        lemma_before_irreflexive(key);
    }
}

/// Two increasing lists of the same texts are the same list.
proof fn lemma_increasing_unique(a: Seq<Seq<char>>, b: Seq<Seq<char>>)
    requires
        increasing(a),
        increasing(b),
        forall|k: Seq<char>| #[trigger] a.contains(k) <==> b.contains(k),
    ensures
        a == b,
    decreases a.len(),
{
    if a.len() == 0 {
        if b.len() > 0 {
            assert(b.contains(b[0]));
            assert(a.contains(b[0]));
        }
        assert(a =~= b);
    } else {
        assert(a.contains(a.last()));
        assert(b.contains(a.last()));
        assert(b.contains(b.last()));
        assert(a.contains(b.last()));
        let x = a.index_of(b.last());
        let y = b.index_of(a.last());
        assert(a[x] == b.last());
        assert(b[y] == a.last());
        if a.last() != b.last() {
            assert(before(a[x], a[a.len() - 1]));
            assert(before(b[y], b[b.len() - 1]));
            lemma_before_transitive(a.last(), b.last(), a.last());
            lemma_before_irreflexive(a.last());
        }
        let c = a.drop_last();
        let d = b.drop_last();
        assert forall|k: Seq<char>| #[trigger] c.contains(k) <==> d.contains(k) by {
            assert(a.contains(k) <==> b.contains(k));
            lemma_increasing_drop_last(a, k);
            lemma_increasing_drop_last(b, k);
        }
        assert(increasing(c)) by {
            assert forall|i: int, j: int| 0 <= i < j < c.len() implies #[trigger] before(
                c[i],
                #[trigger] c[j],
            ) by {
                assert(before(a[i], a[j]));
            }
        }
        assert(increasing(d)) by {
            assert forall|i: int, j: int| 0 <= i < j < d.len() implies #[trigger] before(
                d[i],
                #[trigger] d[j],
            ) by {
                assert(before(b[i], b[j]));
            }
        }
        lemma_increasing_unique(c, d);
        assert(a =~= c.push(a.last()));
        assert(b =~= d.push(b.last()));
    }
}

proof fn lemma_increasing_drop_last(a: Seq<Seq<char>>, k: Seq<char>)
    requires
        increasing(a),
        a.len() > 0,
    ensures
        a.drop_last().contains(k) <==> a.contains(k) && k != a.last(),
{
    let c = a.drop_last();
    if c.contains(k) {
        let i = c.index_of(k);
        assert(a[i] == k);
        assert(before(a[i], a[a.len() - 1]));
        lemma_before_irreflexive(k);
    }
    if a.contains(k) && k != a.last() {
        let i = a.index_of(k);
        assert(c[i] == k);
    }
}

/// There is one way to list the keys of a map in order.
pub proof fn law_listing_is_unique(
    a: Seq<Seq<char>>,
    b: Seq<Seq<char>>,
    m: Map<Seq<char>, Seq<char>>,
)
    requires
        lists_keys(a, m),
        lists_keys(b, m),
    ensures
        a == b,
{
    lemma_increasing_unique(a, b);
}

/// Secrets by key. The entries are kept in the order of their keys.
pub struct SecretMap {
    entries: Vec<(String, String)>,
}

impl View for SecretMap {
    type V = Map<Seq<char>, Seq<char>>;

    closed spec fn view(&self) -> Map<Seq<char>, Seq<char>> {
        map_of(pairs(self.entries@))
    }
}

impl SecretMap {
    /// The entries stand in the order of their keys.
    pub closed spec fn wf(&self) -> bool {
        ordered(pairs(self.entries@))
    }

    /// A map without secrets.
    pub fn new() -> (r: Self)
        ensures
            r.wf(),
            r@ == Map::<Seq<char>, Seq<char>>::empty(),
    {
        let r = SecretMap { entries: Vec::new() };
        assert(r@ =~= Map::<Seq<char>, Seq<char>>::empty());
        r
    }

    /// The map of entries that are in order.
    pub fn from_entries(entries: Vec<(String, String)>) -> (r: Self)
        requires
            ordered(pairs(entries@)),
        ensures
            r.wf(),
            r@ == map_of(pairs(entries@)),
    {
        SecretMap { entries }
    }

    /// The entries, in the order of their keys.
    pub fn entries(&self) -> (r: &Vec<(String, String)>)
        requires
            self.wf(),
        ensures
            ordered(pairs(r@)),
            map_of(pairs(r@)) == self@,
    {
        &self.entries
    }

    /// Whether there are no secrets.
    pub fn is_empty(&self) -> (r: bool)
        ensures
            r == (self@ == Map::<Seq<char>, Seq<char>>::empty()),
    {
        proof {
            let p = pairs(self.entries@);
            if p.len() > 0 {
                assert(p[0].0 == p[0].0);
                assert(has_key(p, p[0].0));
                assert(self@.contains_key(p[0].0));
            } else {
                assert(self@ =~= Map::<Seq<char>, Seq<char>>::empty());
            }
        }
        self.entries.len() == 0
    }

    /// The position of the first entry whose key does not stand before `key`.
    fn locate(&self, key: &str) -> (r: usize)
        requires
            self.wf(),
        ensures
            r <= self.entries.len(),
            forall|j: int| 0 <= j < r ==> before(#[trigger] pairs(self.entries@)[j].0, key@),
            forall|j: int|
                r <= j < self.entries.len() ==> !before(
                    #[trigger] pairs(self.entries@)[j].0,
                    key@,
                ),
    {
        let ghost p = pairs(self.entries@);
        let mut i: usize = 0;
        while i < self.entries.len() && text_before(self.entries[i].0.as_str(), key)
            invariant
                i <= self.entries.len(),
                p == pairs(self.entries@),
                forall|j: int| 0 <= j < i ==> before(#[trigger] p[j].0, key@),
            decreases self.entries.len() - i,
        {
            i += 1;
        }
        proof {
            assert forall|j: int| i <= j < p.len() implies !before(#[trigger] p[j].0, key@) by {
                if before(p[j].0, key@) && j > i {
                    lemma_before_transitive(p[i as int].0, p[j].0, key@);
                }
            }
        }
        i
    }

    /// Whether the entry at position `at` has this key.
    fn key_at(&self, at: usize, key: &str) -> (r: bool)
        ensures
            r == (at < self.entries.len() && self.entries@[at as int].0@ == key@),
    {
        at < self.entries.len() && same_text(self.entries[at].0.as_str(), key)
    }

    /// The value of a key.
    pub fn get(&self, key: &str) -> (r: Option<&String>)
        requires
            self.wf(),
        ensures
            match r {
                Some(v) => self@.contains_key(key@) && self@[key@] == v@,
                None => !self@.contains_key(key@),
            },
    {
        let at = self.locate(key);
        let found = self.key_at(at, key);
        proof {
            self.lemma_found(at as int, key@);
        }
        if found {
            Some(&self.entries[at].1)
        } else {
            None
        }
    }

    /// A key is in the map exactly when it stands at its place.
    proof fn lemma_found(&self, at: int, key: Seq<char>)
        requires
            self.wf(),
            0 <= at <= self.entries.len(),
            forall|j: int| 0 <= j < at ==> before(#[trigger] pairs(self.entries@)[j].0, key),
            forall|j: int|
                at <= j < self.entries.len() ==> !before(#[trigger] pairs(self.entries@)[j].0, key),
        ensures
            self@.contains_key(key) <==> at < self.entries.len() && pairs(self.entries@)[at].0
                == key,
            self@.contains_key(key) ==> self@[key] == pairs(self.entries@)[at].1,
            at < self.entries.len() && pairs(self.entries@)[at].0 != key ==> before(
                key,
                pairs(self.entries@)[at].0,
            ),
    {
        let p = pairs(self.entries@);
        lemma_before_irreflexive(key);
        if at < p.len() {
            lemma_before_total(p[at].0, key);
            if p[at].0 == key {
                lemma_map_of(p, at);
            }
        }
        if has_key(p, key) {
            let i = choose|i: int| 0 <= i < p.len() && #[trigger] p[i].0 == key;
            if at < p.len() && i > at && p[at].0 != key {
                lemma_before_transitive(p[at].0, p[i].0, key);
            }
        }
    }

    /// Stores a value under a key, in place of the value that it had.
    pub fn insert(&mut self, key: String, value: String)
        requires
            old(self).wf(),
        ensures
            final(self).wf(),
            final(self)@ == old(self)@.insert(key@, value@),
    {
        let at = self.locate(key.as_str());
        let found = self.key_at(at, key.as_str());
        let ghost p = pairs(self.entries@);
        let ghost k = key@;
        let ghost v = value@;
        proof {
            self.lemma_found(at as int, k);
        }
        if found {
            self.entries.set(at, (key, value));
            proof {
                let q = pairs(self.entries@);
                assert(q =~= p.update(at as int, (k, v)));
                assert forall|i: int, j: int| 0 <= i < j < q.len() implies before(
                    #[trigger] q[i].0,
                    #[trigger] q[j].0,
                ) by {
                    assert(before(p[i].0, p[j].0));
                }
                lemma_inserted(p, q, at as int, k, v);
            }
        } else {
            self.entries.insert(at, (key, value));
            proof {
                let q = pairs(self.entries@);
                assert(q =~= p.insert(at as int, (k, v)));
                assert forall|i: int, j: int| 0 <= i < j < q.len() implies before(
                    #[trigger] q[i].0,
                    #[trigger] q[j].0,
                ) by {
                    if j < at {
                        assert(before(p[i].0, p[j].0));
                    } else if j == at {
                        assert(before(p[i].0, k));
                    } else if i < at {
                        assert(before(p[i].0, p[j - 1].0));
                    } else if i > at {
                        assert(before(p[i - 1].0, p[j - 1].0));
                    } else {
                        assert(before(k, p[at as int].0));
                        if j - 1 > at {
                            assert(before(p[at as int].0, p[j - 1].0));
                            lemma_before_transitive(k, p[at as int].0, p[j - 1].0);
                        }
                    }
                }
                lemma_inserted(p, q, at as int, k, v);
            }
        }
    }

    /// Removes a key and its value; `false` if the key is not there.
    pub fn remove(&mut self, key: &str) -> (r: bool)
        requires
            old(self).wf(),
        ensures
            final(self).wf(),
            r == old(self)@.contains_key(key@),
            final(self)@ == old(self)@.remove(key@),
    {
        let at = self.locate(key);
        let found = self.key_at(at, key);
        let ghost p = pairs(self.entries@);
        let ghost m = self@;
        proof {
            self.lemma_found(at as int, key@);
        }
        if found {
            let _ = self.entries.remove(at);
            proof {
                let q = pairs(self.entries@);
                assert(q =~= p.remove(at as int));
                assert forall|i: int, j: int| 0 <= i < j < q.len() implies before(
                    #[trigger] q[i].0,
                    #[trigger] q[j].0,
                ) by {
                    let a = if i < at {
                        i
                    } else {
                        i + 1
                    };
                    let b = if j < at {
                        j
                    } else {
                        j + 1
                    };
                    assert(before(p[a].0, p[b].0));
                }
                lemma_removed(p, q, at as int);
            }
            true
        } else {
            assert(m.remove(key@) =~= m);
            false
        }
    }

    /// The keys in order.
    pub fn keys(&self) -> (r: Vec<String>)
        requires
            self.wf(),
        ensures
            lists_keys(texts(r@), self@),
    {
        let ghost p = pairs(self.entries@);
        let mut r: Vec<String> = Vec::new();
        let mut i: usize = 0;
        while i < self.entries.len()
            invariant
                i <= self.entries.len(),
                p == pairs(self.entries@),
                r.len() == i,
                forall|j: int| 0 <= j < i ==> #[trigger] texts(r@)[j] == p[j].0,
            decreases self.entries.len() - i,
        {
            let ghost before_push = r@;
            r.push(self.entries[i].0.clone());
            proof {
                assert(texts(r@) =~= texts(before_push).push(p[i as int].0));
            }
            i += 1;
        }
        proof {
            let keys = texts(r@);
            assert(increasing(keys)) by {
                assert forall|i: int, j: int| 0 <= i < j < keys.len() implies #[trigger] before(
                    keys[i],
                    #[trigger] keys[j],
                ) by {
                    assert(before(p[i].0, p[j].0));
                }
            }
            assert forall|k: Seq<char>| #[trigger] keys.contains(k) <==> self@.contains_key(k) by {
                if keys.contains(k) {
                    let j = keys.index_of(k);
                    assert(p[j].0 == k);
                }
                if has_key(p, k) {
                    let j = choose|j: int| 0 <= j < p.len() && #[trigger] p[j].0 == k;
                    assert(keys[j] == k);
                }
            }
        }
        r
    }
}

/// Pairs with one pair put in place or added describe the map with that key set.
proof fn lemma_inserted(
    p: Seq<(Seq<char>, Seq<char>)>,
    q: Seq<(Seq<char>, Seq<char>)>,
    at: int,
    k: Seq<char>,
    v: Seq<char>,
)
    requires
        ordered(p),
        ordered(q),
        0 <= at <= p.len(),
        (at < p.len() && p[at].0 == k && q == p.update(at, (k, v))) || q == p.insert(at, (k, v)),
    ensures
        map_of(q) == map_of(p).insert(k, v),
{
    let a = map_of(q);
    let b = map_of(p).insert(k, v);
    let shift: int = if q.len() == p.len() {
        0
    } else {
        1
    };
    assert(q[at] == (k, v));
    lemma_map_of(q, at);
    assert forall|x: Seq<char>| a.contains_key(x) <==> b.contains_key(x) by {
        if has_key(q, x) && x != k {
            let i = choose|i: int| 0 <= i < q.len() && #[trigger] q[i].0 == x;
            if i < at {
                assert(p[i].0 == x);
            } else {
                assert(p[i - shift].0 == x);
            }
        }
        if has_key(p, x) && x != k {
            let i = choose|i: int| 0 <= i < p.len() && #[trigger] p[i].0 == x;
            if i < at {
                assert(q[i].0 == x);
            } else {
                assert(q[i + shift].0 == x);
            }
        }
    }
    assert forall|x: Seq<char>| a.contains_key(x) implies #[trigger] a[x] == b[x] by {
        if x != k {
            let i = choose|i: int| 0 <= i < q.len() && #[trigger] q[i].0 == x;
            lemma_map_of(q, i);
            if i < at {
                assert(p[i] == q[i]);
                lemma_map_of(p, i);
            } else {
                assert(p[i - shift] == q[i]);
                lemma_map_of(p, i - shift);
            }
        }
    }
    assert(a =~= b);
}

/// Pairs with one pair taken out describe the map without that key.
proof fn lemma_removed(
    p: Seq<(Seq<char>, Seq<char>)>,
    q: Seq<(Seq<char>, Seq<char>)>,
    at: int,
)
    requires
        ordered(p),
        ordered(q),
        0 <= at < p.len(),
        q == p.remove(at),
    ensures
        map_of(q) == map_of(p).remove(p[at].0),
{
    let k = p[at].0;
    let a = map_of(q);
    let b = map_of(p).remove(k);
    assert forall|x: Seq<char>| a.contains_key(x) <==> b.contains_key(x) by {
        if has_key(q, x) {
            let i = choose|i: int| 0 <= i < q.len() && #[trigger] q[i].0 == x;
            let j = if i < at {
                i
            } else {
                i + 1
            };
            assert(p[j].0 == x);
            if x == k {
                lemma_before_irreflexive(k);
                if j < at {
                    assert(before(p[j].0, p[at].0));
                } else {
                    assert(before(p[at].0, p[j].0));
                }
            }
        }
        if has_key(p, x) && x != k {
            let i = choose|i: int| 0 <= i < p.len() && #[trigger] p[i].0 == x;
            if i < at {
                assert(q[i].0 == x);
            } else {
                assert(q[i - 1].0 == x);
            }
        }
    }
    assert forall|x: Seq<char>| a.contains_key(x) implies #[trigger] a[x] == b[x] by {
        let i = choose|i: int| 0 <= i < q.len() && #[trigger] q[i].0 == x;
        lemma_map_of(q, i);
        if i < at {
            assert(p[i] == q[i]);
            lemma_map_of(p, i);
        } else {
            assert(p[i + 1] == q[i]);
            lemma_map_of(p, i + 1);
        }
    }
    assert(a =~= b);
}

/// Entries are kept whole and in order, and the map that entries in order describe has the key of
/// each with the value beside it, and no other key.
pub proof fn law_entries_are_the_map(s: Seq<(String, String)>, key: Seq<char>, i: int)
    ensures
        pairs(s).len() == s.len(),
        0 <= i < s.len() ==> pairs(s)[i].0 == s[i].0@ && pairs(s)[i].1 == s[i].1@,
        ordered(pairs(s)) && 0 <= i < s.len() ==> map_of(pairs(s)).contains_key(s[i].0@) && map_of(
            pairs(s),
        )[s[i].0@] == s[i].1@,
        map_of(pairs(s)).contains_key(key) ==> exists|j: int|
            0 <= j < s.len() && (#[trigger] s[j]).0@ == key,
{
    let p = pairs(s);
    if ordered(p) && 0 <= i < s.len() {
        lemma_map_of(p, i);
    }
    if map_of(p).contains_key(key) {
        assert(has_key(p, key));
        let j = choose|j: int| 0 <= j < p.len() && #[trigger] p[j].0 == key;
        assert(s[j].0@ == key);
    }
}

/// A listing of keys holds every key of the map and nothing else, none twice, and each before those
/// that are greater.
pub proof fn law_listing(keys: Seq<Seq<char>>, m: Map<Seq<char>, Seq<char>>, i: int, j: int)
    requires
        lists_keys(keys, m),
    ensures
        forall|k: Seq<char>| #[trigger] m.contains_key(k) ==> keys.contains(k),
        0 <= i < keys.len() ==> m.contains_key(keys[i]),
        0 <= i < j < keys.len() ==> before(keys[i], keys[j]) && keys[i] != keys[j],
{
    assert forall|k: Seq<char>| #[trigger] m.contains_key(k) implies keys.contains(k) by {}
    if 0 <= i < keys.len() {
        assert(keys.contains(keys[i]));
        lemma_before_irreflexive(keys[i]);
    }
}

} // verus!

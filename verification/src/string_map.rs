use vstd::prelude::*;
use crate::text::{lex_lt, lemma_lex_lt_irreflexive, lemma_lex_lt_transitive, lemma_lex_lt_total, lemma_lex_lt_asymmetric, str_eq, str_lt};

verus! {

/// A key/value pair of strings, as plain character sequences.
pub type Pair = (Seq<char>, Seq<char>);

/// The pairs of a vector of string pairs, taken by their views.
pub open spec fn pairs_of(v: Seq<(String, String)>) -> Seq<Pair> {
    v.map_values(|p: (String, String)| (p.0@, p.1@))
}

/// No key occurs twice.
pub open spec fn distinct_keys(s: Seq<Pair>) -> bool {
    forall|i: int, j: int| 0 <= i < j < s.len() ==> s[i].0 != s[j].0
}

/// The keys are in strictly increasing lexicographic order.
pub open spec fn strictly_sorted(s: Seq<Pair>) -> bool {
    forall|i: int, j: int| 0 <= i < j < s.len() ==> lex_lt(#[trigger] s[i].0, #[trigger] s[j].0)
}

/// The map that a list of pairs describes, later pairs overriding earlier ones.
pub open spec fn map_of(s: Seq<Pair>) -> Map<Seq<char>, Seq<char>>
    decreases s.len(),
{
    if s.len() == 0 {
        Map::empty()
    } else {
        map_of(s.drop_last()).insert(s.last().0, s.last().1)
    }
}

/// The listing of a map by increasing key.
pub open spec fn sorted_listing(m: Map<Seq<char>, Seq<char>>) -> Seq<Pair> {
    choose|s: Seq<Pair>| strictly_sorted(s) && map_of(s) == m
}

/// A key is in the map of a list exactly when some pair carries it, and then
/// (where keys are distinct) the map gives that pair's value.
pub proof fn lemma_map_of(s: Seq<Pair>)
    ensures
        map_of(s).dom().finite(),
        forall|k: Seq<char>|
            #[trigger] map_of(s).contains_key(k) <==> exists|i: int| 0 <= i < s.len() && s[i].0 == k,
        distinct_keys(s) ==> map_of(s).len() == s.len(),
        distinct_keys(s) ==> forall|i: int| 0 <= i < s.len() ==> #[trigger] map_of(s)[s[i].0] == s[i].1,
    decreases s.len(),
{
    if s.len() > 0 {
        let t = s.drop_last();
        lemma_map_of(t);
        assert forall|k: Seq<char>| #[trigger] map_of(s).contains_key(k) implies exists|i: int|
            0 <= i < s.len() && s[i].0 == k by {
            if k != s.last().0 {
                let i = choose|i: int| 0 <= i < t.len() && t[i].0 == k;
                assert(s[i] == t[i]);
            }
        }
        assert forall|k: Seq<char>| (exists|i: int| 0 <= i < s.len() && s[i].0 == k) implies
            #[trigger] map_of(s).contains_key(k) by {
            let i = choose|i: int| 0 <= i < s.len() && s[i].0 == k;
            if i < s.len() - 1 {
                assert(t[i] == s[i]);
            }
        }
        if distinct_keys(s) {
            assert(distinct_keys(t));
            assert(!map_of(t).contains_key(s.last().0)) by {
                if map_of(t).contains_key(s.last().0) {
                    let i = choose|i: int| 0 <= i < t.len() && t[i].0 == s.last().0;
                    assert(s[i].0 == s[s.len() - 1].0);
                }
            }
            assert forall|i: int| 0 <= i < s.len() implies #[trigger] map_of(s)[s[i].0] == s[i].1 by {
                if i < s.len() - 1 {
                    assert(t[i] == s[i]);
                    assert(s[i].0 != s[s.len() - 1].0);
                }
            }
        }
    }
}

/// Two lists of pairs with distinct keys that hold the same pairs, in any
/// order, describe the same map.
proof fn lemma_map_of_same_pairs(s: Seq<Pair>, t: Seq<Pair>)
    requires
        distinct_keys(s),
        distinct_keys(t),
        forall|i: int| 0 <= i < s.len() ==> #[trigger] t.contains(s[i]),
        forall|j: int| 0 <= j < t.len() ==> #[trigger] s.contains(t[j]),
    ensures
        map_of(s) == map_of(t),
{
    lemma_map_of(s);
    lemma_map_of(t);
    assert forall|k: Seq<char>| #[trigger] map_of(s).contains_key(k) implies map_of(t).contains_key(k)
        && map_of(t)[k] == map_of(s)[k] by {
        let i = choose|i: int| 0 <= i < s.len() && s[i].0 == k;
        assert(t.contains(s[i]));
        let j = choose|j: int| 0 <= j < t.len() && t[j] == s[i];
        assert(map_of(t)[t[j].0] == t[j].1);
        assert(map_of(s)[s[i].0] == s[i].1);
    }
    assert forall|k: Seq<char>| #[trigger] map_of(t).contains_key(k) implies map_of(s).contains_key(k) by {
        let j = choose|j: int| 0 <= j < t.len() && t[j].0 == k;
        assert(s.contains(t[j]));
        let i = choose|i: int| 0 <= i < s.len() && s[i] == t[j];
        assert(s[i].0 == k);
    }
    assert(map_of(s) =~= map_of(t));
}

/// A strictly sorted list holds distinct keys.
pub proof fn lemma_sorted_distinct(s: Seq<Pair>)
    requires
        strictly_sorted(s),
    ensures
        distinct_keys(s),
{
    assert forall|i: int, j: int| 0 <= i < j < s.len() implies s[i].0 != s[j].0 by {
        assert(lex_lt(s[i].0, s[j].0));
        lemma_lex_lt_irreflexive(s[i].0);
    }
}

/// Two strictly sorted lists that describe the same map are the same list.
pub proof fn lemma_sorted_listing_unique(s: Seq<Pair>, t: Seq<Pair>)
    requires
        strictly_sorted(s),
        strictly_sorted(t),
        map_of(s) == map_of(t),
    ensures
        s == t,
    decreases s.len(),
{
    lemma_sorted_distinct(s);
    lemma_sorted_distinct(t);
    lemma_map_of(s);
    lemma_map_of(t);
    if s.len() == 0 {
        if t.len() > 0 {
            assert(map_of(t).contains_key(t[0].0));
        }
        assert(s =~= t);
    } else if t.len() == 0 {
        assert(map_of(s).contains_key(s[0].0));
    } else {
        let ks = s.last().0;
        let kt = t.last().0;
        assert(map_of(s).contains_key(s[s.len() - 1].0));
        assert(map_of(t).contains_key(t[t.len() - 1].0));
        if ks != kt {
            let j = choose|j: int| 0 <= j < t.len() && t[j].0 == ks;
            let i = choose|i: int| 0 <= i < s.len() && s[i].0 == kt;
            assert(j != t.len() - 1);
            assert(i != s.len() - 1);
            assert(lex_lt(t[j].0, t[t.len() - 1].0));
            assert(lex_lt(s[i].0, s[s.len() - 1].0));
            lemma_lex_lt_asymmetric(ks, kt);
        }
        assert(map_of(s)[s[s.len() - 1].0] == s.last().1);
        assert(map_of(t)[t[t.len() - 1].0] == t.last().1);
        let s2 = s.drop_last();
        let t2 = t.drop_last();
        lemma_map_of(s2);
        lemma_map_of(t2);
        assert(!map_of(s2).contains_key(ks)) by {
            if map_of(s2).contains_key(ks) {
                let i = choose|i: int| 0 <= i < s2.len() && s2[i].0 == ks;
                assert(s[i].0 == s[s.len() - 1].0);
            }
        }
        assert(!map_of(t2).contains_key(kt)) by {
            if map_of(t2).contains_key(kt) {
                let i = choose|i: int| 0 <= i < t2.len() && t2[i].0 == kt;
                assert(t[i].0 == t[t.len() - 1].0);
            }
        }
        assert(map_of(s2) =~= map_of(s).remove(ks));
        assert(map_of(t2) =~= map_of(t).remove(kt));
        assert(strictly_sorted(s2));
        assert(strictly_sorted(t2));
        lemma_sorted_listing_unique(s2, t2);
        assert(s =~= s2.push(s.last()));
        assert(t =~= t2.push(t.last()));
    }
}

/// The sorted listing of a map is strictly sorted and describes the map,
/// whenever some list does.
pub proof fn lemma_sorted_listing(s: Seq<Pair>)
    requires
        strictly_sorted(s),
    ensures
        sorted_listing(map_of(s)) == s,
        strictly_sorted(sorted_listing(map_of(s))),
        map_of(sorted_listing(map_of(s))) == map_of(s),
{
    let m = map_of(s);
    assert(strictly_sorted(s) && map_of(s) == m);
    let c = sorted_listing(m);
    lemma_sorted_listing_unique(c, s);
}

/// The list with `e` put in its place by key.
pub open spec fn sorted_insert(t: Seq<Pair>, e: Pair) -> Seq<Pair>
    decreases t.len(),
{
    if t.len() == 0 {
        seq![e]
    } else if lex_lt(e.0, t[0].0) {
        seq![e] + t
    } else {
        seq![t[0]] + sorted_insert(t.drop_first(), e)
    }
}

/// The pairs of a list, put in order of key one after another.
pub open spec fn insertion_sorted(s: Seq<Pair>) -> Seq<Pair>
    decreases s.len(),
{
    if s.len() == 0 {
        s
    } else {
        sorted_insert(insertion_sorted(s.drop_last()), s.last())
    }
}

proof fn lemma_sorted_insert(t: Seq<Pair>, e: Pair)
    requires
        strictly_sorted(t),
        forall|i: int| 0 <= i < t.len() ==> t[i].0 != e.0,
    ensures
        strictly_sorted(sorted_insert(t, e)),
        sorted_insert(t, e).len() == t.len() + 1,
        sorted_insert(t, e).contains(e),
        forall|i: int| 0 <= i < t.len() ==> #[trigger] sorted_insert(t, e).contains(t[i]),
        forall|j: int|
            0 <= j < sorted_insert(t, e).len() ==> #[trigger] sorted_insert(t, e)[j] == e || t.contains(
                sorted_insert(t, e)[j],
            ),
    decreases t.len(),
{
    let r = sorted_insert(t, e);
    if t.len() == 0 {
        assert(r[0] == e);
    } else if lex_lt(e.0, t[0].0) {
        assert(r[0] == e);
        assert forall|i: int| 0 <= i < t.len() implies #[trigger] r.contains(t[i]) by {
            assert(r[i + 1] == t[i]);
        }
        assert forall|x: int, y: int| 0 <= x < y < r.len() implies lex_lt(#[trigger] r[x].0, #[trigger] r[y].0) by {
            if x == 0 {
                if y > 1 {
                    assert(lex_lt(t[0].0, t[y - 1].0));
                    lemma_lex_lt_transitive(e.0, t[0].0, t[y - 1].0);
                }
            } else {
                assert(lex_lt(t[x - 1].0, t[y - 1].0));
            }
        }
        assert forall|j: int| 0 <= j < r.len() implies #[trigger] r[j] == e || t.contains(r[j]) by {
            if j > 0 {
                assert(r[j] == t[j - 1]);
            }
        }
    } else {
        let t2 = t.drop_first();
        assert(strictly_sorted(t2)) by {
            assert forall|x: int, y: int| 0 <= x < y < t2.len() implies lex_lt(#[trigger] t2[x].0, #[trigger] t2[y].0) by {
                assert(lex_lt(t[x + 1].0, t[y + 1].0));
            }
        }
        assert forall|i: int| 0 <= i < t2.len() implies t2[i].0 != e.0 by {
            assert(t2[i] == t[i + 1]);
        }
        lemma_sorted_insert(t2, e);
        let r2 = sorted_insert(t2, e);
        assert(r == seq![t[0]] + r2);
        assert(lex_lt(t[0].0, e.0)) by {
            assert(t[0].0 != e.0);
            lemma_lex_lt_total(t[0].0, e.0);
        }
        assert forall|x: int, y: int| 0 <= x < y < r.len() implies lex_lt(#[trigger] r[x].0, #[trigger] r[y].0) by {
            if x == 0 {
                assert(r[y] == r2[y - 1]);
                if r2[y - 1] != e {
                    assert(t2.contains(r2[y - 1]));
                    let k = choose|k: int| 0 <= k < t2.len() && t2[k] == r2[y - 1];
                    assert(lex_lt(t[0].0, t[k + 1].0));
                }
            } else {
                assert(r[x] == r2[x - 1]);
                assert(r[y] == r2[y - 1]);
            }
        }
        assert(r.contains(e)) by {
            let k = choose|k: int| 0 <= k < r2.len() && r2[k] == e;
            assert(r[k + 1] == e);
        }
        assert forall|i: int| 0 <= i < t.len() implies #[trigger] r.contains(t[i]) by {
            if i == 0 {
                assert(r[0] == t[0]);
            } else {
                assert(t2[i - 1] == t[i]);
                assert(r2.contains(t2[i - 1]));
                let k = choose|k: int| 0 <= k < r2.len() && r2[k] == t[i];
                assert(r[k + 1] == t[i]);
            }
        }
        assert forall|j: int| 0 <= j < r.len() implies #[trigger] r[j] == e || t.contains(r[j]) by {
            if j == 0 {
                assert(t[0] == r[0]);
            } else {
                assert(r[j] == r2[j - 1]);
                if r2[j - 1] != e {
                    assert(t2.contains(r2[j - 1]));
                    let k = choose|k: int| 0 <= k < t2.len() && t2[k] == r2[j - 1];
                    assert(t[k + 1] == r[j]);
                }
            }
        }
    }
}

proof fn lemma_insertion_sorted(s: Seq<Pair>)
    requires
        distinct_keys(s),
    ensures
        strictly_sorted(insertion_sorted(s)),
        insertion_sorted(s).len() == s.len(),
        forall|i: int| 0 <= i < s.len() ==> #[trigger] insertion_sorted(s).contains(s[i]),
        forall|j: int| 0 <= j < insertion_sorted(s).len() ==> #[trigger] s.contains(insertion_sorted(s)[j]),
    decreases s.len(),
{
    if s.len() > 0 {
        let s2 = s.drop_last();
        assert(distinct_keys(s2));
        lemma_insertion_sorted(s2);
        let t = insertion_sorted(s2);
        let e = s.last();
        assert forall|i: int| 0 <= i < t.len() implies t[i].0 != e.0 by {
            assert(s2.contains(t[i]));
            let k = choose|k: int| 0 <= k < s2.len() && s2[k] == t[i];
            assert(s[k].0 != s[s.len() - 1].0);
        }
        lemma_sorted_insert(t, e);
        let r = insertion_sorted(s);
        assert forall|i: int| 0 <= i < s.len() implies #[trigger] r.contains(s[i]) by {
            if i < s.len() - 1 {
                assert(s2[i] == s[i]);
                assert(t.contains(s2[i]));
                let k = choose|k: int| 0 <= k < t.len() && t[k] == s[i];
                assert(r.contains(t[k]));
            }
        }
        assert forall|j: int| 0 <= j < r.len() implies #[trigger] s.contains(r[j]) by {
            if r[j] == e {
                assert(s[s.len() - 1] == e);
            } else {
                assert(t.contains(r[j]));
                let k = choose|k: int| 0 <= k < t.len() && t[k] == r[j];
                assert(s2.contains(t[k]));
                let a = choose|a: int| 0 <= a < s2.len() && s2[a] == t[k];
                assert(s[a] == r[j]);
            }
        }
    }
}

/// Every finite map is described by some list of pairs with distinct keys.
proof fn lemma_finite_map_has_list(m: Map<Seq<char>, Seq<char>>)
    requires
        m.dom().finite(),
    ensures
        exists|s: Seq<Pair>| distinct_keys(s) && map_of(s) == m,
    decreases m.dom().len(),
{
    if m.dom().len() == 0 {
        assert(m =~= Map::<Seq<char>, Seq<char>>::empty());
        assert(map_of(Seq::<Pair>::empty()) == m);
        assert(distinct_keys(Seq::<Pair>::empty()));
    } else {
        let k = m.dom().choose();
        let m2 = m.remove(k);
        assert(m2.dom() =~= m.dom().remove(k));
        lemma_finite_map_has_list(m2);
        let s2 = choose|s: Seq<Pair>| distinct_keys(s) && map_of(s) == m2;
        let s = s2.push((k, m[k]));
        lemma_map_of(s2);
        assert(s.drop_last() =~= s2);
        assert(distinct_keys(s)) by {
            assert forall|i: int, j: int| 0 <= i < j < s.len() implies s[i].0 != s[j].0 by {
                if j == s.len() - 1 {
                    assert(s[i] == s2[i]);
                    assert(map_of(s2).contains_key(s2[i].0));
                } else {
                    assert(s[i] == s2[i]);
                    assert(s[j] == s2[j]);
                }
            }
        }
        assert(map_of(s) =~= m);
    }
}

/// Every finite string map has exactly one listing by increasing key, and
/// that listing describes the map.
pub proof fn lemma_sorted_listing_of_map(m: Map<Seq<char>, Seq<char>>)
    requires
        m.dom().finite(),
    ensures
        strictly_sorted(sorted_listing(m)),
        map_of(sorted_listing(m)) == m,
        sorted_listing(m).len() == m.len(),
        forall|t: Seq<Pair>| strictly_sorted(t) && map_of(t) == m ==> t == sorted_listing(m),
{
    lemma_finite_map_has_list(m);
    let s = choose|s: Seq<Pair>| distinct_keys(s) && map_of(s) == m;
    lemma_insertion_sorted(s);
    let t = insertion_sorted(s);
    lemma_sorted_distinct(t);
    lemma_map_of_same_pairs(t, s);
    lemma_sorted_listing(t);
    lemma_map_of(t);
    assert forall|u: Seq<Pair>| strictly_sorted(u) && map_of(u) == m implies u == sorted_listing(m) by {
        lemma_sorted_listing_unique(u, t);
    }
}

/// A string map's view is finite, and a value set under a key is read back
/// under that key while other keys keep theirs.
pub proof fn lemma_read_after_insert(m: Map<Seq<char>, Seq<char>>, k: Seq<char>, v: Seq<char>, other: Seq<char>)
    ensures
        m.insert(k, v).contains_key(k),
        m.insert(k, v)[k] == v,
        other != k ==> m.insert(k, v).contains_key(other) == m.contains_key(other),
        other != k && m.contains_key(other) ==> m.insert(k, v)[other] == m[other],
{
}

/// A map from strings to strings, as a list of pairs in which no key occurs
/// twice.
#[derive(Debug)]
pub struct StringMap {
    entries: Vec<(String, String)>,
}

impl StringMap {
    /// The pairs in the order they are held.
    pub closed spec fn pairs(&self) -> Seq<Pair> {
        pairs_of(self.entries@)
    }

    #[verifier::type_invariant]
    spec fn keys_distinct(&self) -> bool {
        distinct_keys(self.pairs())
    }

    /// An empty map.
    pub fn new() -> (m: Self)
        ensures
            m@ == Map::<Seq<char>, Seq<char>>::empty(),
    {
        let m = StringMap { entries: Vec::new() };
        assert(m.pairs() =~= Seq::<Pair>::empty());
        m
    }

    /// The position of `key`, if some pair carries it.
    fn find(&self, key: &str) -> (r: Option<usize>)
        ensures
            match r {
                Some(j) => j < self.pairs().len() && self.pairs()[j as int].0 == key@,
                None => forall|i: int| 0 <= i < self.pairs().len() ==> self.pairs()[i].0 != key@,
            },
    {
        let mut i: usize = 0;
        while i < self.entries.len()
            invariant
                i <= self.entries@.len(),
                forall|k: int| 0 <= k < i ==> self.pairs()[k].0 != key@,
            decreases self.entries@.len() - i,
        {
            if str_eq(self.entries[i].0.as_str(), key) {
                return Some(i);
            }
            i = i + 1;
        }
        None
    }

    /// The number of keys.
    pub fn len(&self) -> (n: usize)
        ensures
            n == self@.len(),
            self@.dom().finite(),
    {
        proof {
            use_type_invariant(self);
            lemma_map_of(self.pairs());
        }
        self.entries.len()
    }

    /// The value of `key`, if the map holds the key.
    pub fn get(&self, key: &str) -> (r: Option<&String>)
        ensures
            r is Some <==> self@.contains_key(key@),
            r is Some ==> r->0@ == self@[key@],
    {
        proof {
            use_type_invariant(self);
            lemma_map_of(self.pairs());
        }
        match self.find(key) {
            Some(j) => {
                proof {
                    assert(self.pairs()[j as int].0 == key@);
                }
                Some(&self.entries[j].1)
            },
            None => None,
        }
    }

    /// Sets the value of `key`, and gives back the value it replaced, if any.
    pub fn insert(&mut self, key: String, value: String) -> (r: Option<String>)
        ensures
            final(self)@ == old(self)@.insert(key@, value@),
            final(self)@.dom().finite(),
            r is Some <==> old(self)@.contains_key(key@),
            r is Some ==> r->0@ == old(self)@[key@],
    {
        proof {
            use_type_invariant(&*self);
            lemma_map_of(self.pairs());
            lemma_map_of(self.pairs().push((key@, value@)));
        }
        let ghost old_pairs = self.pairs();
        match self.find(key.as_str()) {
            Some(j) => {
                let previous = self.entries[j].1.clone();
                let ghost new_pairs = old_pairs.update(j as int, (key@, value@));
                proof {
                    assert(distinct_keys(new_pairs));
                    lemma_map_of(new_pairs);
                    assert forall|i: int| 0 <= i < old_pairs.len() implies #[trigger] new_pairs.contains(
                        old_pairs[i]) || old_pairs[i].0 == key@ by {
                        if i != j {
                            assert(new_pairs[i] == old_pairs[i]);
                        }
                    }
                    assert(map_of(new_pairs) =~= map_of(old_pairs).insert(key@, value@)) by {
                        assert forall|k: Seq<char>| #[trigger] map_of(new_pairs).contains_key(k)
                            <==> map_of(old_pairs).insert(key@, value@).contains_key(k) by {
                            if map_of(new_pairs).contains_key(k) && k != key@ {
                                let i = choose|i: int| 0 <= i < new_pairs.len() && new_pairs[i].0 == k;
                                assert(old_pairs[i] == new_pairs[i]);
                            }
                            if map_of(old_pairs).contains_key(k) && k != key@ {
                                let i = choose|i: int| 0 <= i < old_pairs.len() && old_pairs[i].0 == k;
                                assert(old_pairs[i] == new_pairs[i]);
                            }
                            assert(new_pairs[j as int].0 == key@);
                        }
                        assert forall|k: Seq<char>| #[trigger] map_of(new_pairs).contains_key(k) implies
                            map_of(new_pairs)[k] == map_of(old_pairs).insert(key@, value@)[k] by {
                            let i = choose|i: int| 0 <= i < new_pairs.len() && new_pairs[i].0 == k;
                            if i != j {
                                assert(old_pairs[i] == new_pairs[i]);
                            }
                        }
                    }
                }
                let mut entries: Vec<(String, String)> = Vec::new();
                std::mem::swap(&mut entries, &mut self.entries);
                entries.set(j, (key, value));
                assert(pairs_of(entries@) =~= new_pairs);
                self.entries = entries;
                Some(previous)
            },
            None => {
                let mut entries: Vec<(String, String)> = Vec::new();
                std::mem::swap(&mut entries, &mut self.entries);
                entries.push((key, value));
                proof {
                    assert(pairs_of(entries@) =~= old_pairs.push((key@, value@)));
                    assert(pairs_of(entries@).drop_last() =~= old_pairs);
                    assert(distinct_keys(pairs_of(entries@)));
                }
                self.entries = entries;
                None
            },
        }
    }

    /// The pairs in increasing order of key.
    pub fn sorted_pairs(&self) -> (r: Vec<(String, String)>)
        ensures
            pairs_of(r@) == sorted_listing(self@),
            strictly_sorted(pairs_of(r@)),
            map_of(pairs_of(r@)) == self@,
    {
        proof {
            use_type_invariant(self);
        }
        let ghost all = self.pairs();
        let mut out: Vec<(String, String)> = Vec::new();
        let mut i: usize = 0;
        while i < self.entries.len()
            invariant
                all == self.pairs(),
                distinct_keys(all),
                i <= all.len(),
                out@.len() == i,
                strictly_sorted(pairs_of(out@)),
                forall|a: int| 0 <= a < i ==> #[trigger] pairs_of(out@).contains(all[a]),
                forall|b: int| 0 <= b < out@.len() ==> #[trigger] all.take(i as int).contains(
                    pairs_of(out@)[b]),
            decreases all.len() - i,
        {
            let key = self.entries[i].0.clone();
            let value = self.entries[i].1.clone();
            let ghost e = all[i as int];
            let ghost before = pairs_of(out@);
            assert(e == (key@, value@));
            let mut p: usize = 0;
            while p < out.len() && !str_lt(key.as_str(), out[p].0.as_str())
                invariant
                    p <= out@.len(),
                    before == pairs_of(out@),
                    e == (key@, value@),
                    forall|q: int| 0 <= q < p ==> !lex_lt(e.0, #[trigger] before[q].0),
                decreases out@.len() - p,
            {
                p = p + 1;
            }
            proof {
                // the new key is not among the keys placed so far
                assert forall|q: int| 0 <= q < before.len() implies #[trigger] before[q].0 != e.0 by {
                    assert(all.take(i as int).contains(before[q]));
                    let a = choose|a: int| 0 <= a < i && all.take(i as int)[a] == before[q];
                    assert(all[a] == before[q]);
                }
            }
            out.insert(p, (key, value));
            let ghost after = pairs_of(out@);
            proof {
                assert(after =~= before.insert(p as int, e));
                assert forall|x: int, y: int| 0 <= x < y < after.len() implies lex_lt(
                    #[trigger] after[x].0,
                    #[trigger] after[y].0,
                ) by {
                    if y < p {
                        assert(lex_lt(before[x].0, before[y].0));
                    } else if y == p {
                        assert(!lex_lt(e.0, before[x].0));
                        assert(before[x].0 != e.0);
                        lemma_lex_lt_total(before[x].0, e.0);
                    } else if x == p {
                        assert(after[y] == before[y - 1]);
                        if p < before.len() {
                            assert(lex_lt(e.0, before[p as int].0));
                            if y - 1 > p {
                                assert(lex_lt(before[p as int].0, before[y - 1].0));
                                lemma_lex_lt_transitive(e.0, before[p as int].0, before[y - 1].0);
                            }
                        }
                    } else if x < p {
                        assert(lex_lt(before[x].0, before[y - 1].0));
                    } else {
                        assert(lex_lt(before[x - 1].0, before[y - 1].0));
                    }
                }
                assert forall|a: int| 0 <= a < i + 1 implies #[trigger] after.contains(all[a]) by {
                    if a == i {
                        assert(after[p as int] == e);
                    } else {
                        assert(before.contains(all[a]));
                        let b = choose|b: int| 0 <= b < before.len() && before[b] == all[a];
                        if b < p {
                            assert(after[b] == before[b]);
                        } else {
                            assert(after[b + 1] == before[b]);
                        }
                    }
                }
                assert forall|b: int| 0 <= b < after.len() implies #[trigger] all.take(i + 1).contains(
                    after[b]) by {
                    if b == p {
                        assert(all.take(i + 1)[i as int] == e);
                    } else {
                        let b0 = if b < p { b } else { b - 1 };
                        assert(after[b] == before[b0]);
                        assert(all.take(i as int).contains(before[b0]));
                        let a = choose|a: int| 0 <= a < i && all.take(i as int)[a] == before[b0];
                        assert(all.take(i + 1)[a] == before[b0]);
                    }
                }
            }
            i = i + 1;
        }
        proof {
            let res = pairs_of(out@);
            assert(all.take(all.len() as int) =~= all);
            lemma_sorted_distinct(res);
            lemma_map_of_same_pairs(res, all);
            lemma_sorted_listing(res);
            lemma_map_of(all);
        }
        out
    }
}

impl View for StringMap {
    type V = Map<Seq<char>, Seq<char>>;

    closed spec fn view(&self) -> Map<Seq<char>, Seq<char>> {
        map_of(self.pairs())
    }
}

impl Clone for StringMap {
    fn clone(&self) -> (r: Self)
        ensures
            r@ == self@,
    {
        proof {
            use_type_invariant(self);
        }
        let mut entries: Vec<(String, String)> = Vec::new();
        let mut i: usize = 0;
        while i < self.entries.len()
            invariant
                i <= self.entries@.len(),
                entries@.len() == i,
                pairs_of(entries@) == self.pairs().take(i as int),
            decreases self.entries@.len() - i,
        {
            let k = self.entries[i].0.clone();
            let v = self.entries[i].1.clone();
            entries.push((k, v));
            proof {
                assert(entries@.len() == i + 1);
                assert(entries@[i as int] == (k, v));
                assert(k == self.entries@[i as int].0);
                assert(v == self.entries@[i as int].1);
                assert(pairs_of(entries@)[i as int] == self.pairs()[i as int]);
                assert(pairs_of(entries@) =~= self.pairs().take(i + 1));
            }
            i = i + 1;
        }
        proof {
            assert(self.pairs().take(self.pairs().len() as int) =~= self.pairs());
        }
        StringMap { entries }
    }
}

} // verus!

//! A map from addresses to values, kept sorted in key order, as the
//! contract's storage keeps its per-address records.

use vstd::prelude::*;
use crate::order::{compare_keys, key_lt, lemma_key_order, KeyOrder};

verus! {

/// The keys of a sequence of entries are strictly increasing.
pub open spec fn sorted_entries<V>(s: Seq<(String, V)>) -> bool {
    forall|i: int, j: int| 0 <= i < j < s.len() ==> key_lt(#[trigger] s[i].0@, #[trigger] s[j].0@)
}

/// Some entry of `s` has key `k`.
pub open spec fn has_key<V>(s: Seq<(String, V)>, k: Seq<char>) -> bool {
    exists|i: int| 0 <= i < s.len() && #[trigger] s[i].0@ == k
}

/// The map that a sequence of entries stands for.
pub open spec fn entries_map<V>(s: Seq<(String, V)>) -> Map<Seq<char>, V> {
    Map::new(
        |k: Seq<char>| has_key(s, k),
        |k: Seq<char>| s[choose|i: int| 0 <= i < s.len() && #[trigger] s[i].0@ == k].1,
    )
}

/// In sorted entries, the entry at `i` is what the map holds at its key.
pub proof fn lemma_entries_map_at<V>(s: Seq<(String, V)>, i: int)
    requires
        sorted_entries(s),
        0 <= i < s.len(),
    ensures
        entries_map(s).contains_key(s[i].0@),
        entries_map(s)[s[i].0@] == s[i].1,
{
    let k = s[i].0@;
    assert(has_key(s, k));
    let j = choose|j: int| 0 <= j < s.len() && #[trigger] s[j].0@ == k;
    lemma_key_order(k, k, k);
    if j < i {
        assert(key_lt(s[j].0@, s[i].0@));
    } else if j > i {
        assert(key_lt(s[i].0@, s[j].0@));
    }
}

/// A page of entries: up to `limit` entries whose keys come after `start`
/// (all keys when `start` is `None`), in increasing key order, with no key
/// skipped.
pub open spec fn is_page<V>(
    m: Map<Seq<char>, V>,
    start: Option<Seq<char>>,
    limit: nat,
    page: Seq<(String, V)>,
) -> bool {
    &&& sorted_entries(page)
    &&& page.len() <= limit
    &&& forall|i: int|
        0 <= i < page.len() ==> {
            &&& m.contains_key(#[trigger] page[i].0@)
            &&& m[page[i].0@] == page[i].1
            &&& after(start, page[i].0@)
        }
    &&& forall|k: Seq<char>|
        #![trigger m.contains_key(k)]
        m.contains_key(k) && after(start, k) && (page.len() < limit || (page.len() > 0
            && !key_lt(page.last().0@, k))) ==> has_key(page, k)
}

/// `k` comes after the optional exclusive bound `start`.
pub open spec fn after(start: Option<Seq<char>>, k: Seq<char>) -> bool {
    match start {
        None => true,
        Some(s) => key_lt(s, k),
    }
}

/// The entries of `m` at keys that do not come after `bound`.
pub open spec fn up_to<V>(m: Map<Seq<char>, V>, bound: Seq<char>) -> Map<Seq<char>, V> {
    m.restrict(Set::new(|k: Seq<char>| !key_lt(bound, k)))
}

/// A map from addresses to values, sorted by key.
pub struct AddrMap<V> {
    entries: Vec<(String, V)>,
}

impl<V> AddrMap<V> {
    #[verifier::type_invariant]
    spec fn sorted(&self) -> bool {
        sorted_entries(self.entries@)
    }

    /// The contents of the map.
    pub closed spec fn view(&self) -> Map<Seq<char>, V> {
        entries_map(self.entries@)
    }

    /// An empty map.
    pub fn new() -> (m: Self)
        ensures
            m@ == Map::<Seq<char>, V>::empty(),
    {
        let m = AddrMap { entries: Vec::new() };
        assert(m@ =~= Map::<Seq<char>, V>::empty());
        m
    }

    /// The number of keys.
    pub fn len(&self) -> (n: usize)
        ensures
            n == self@.len(),
            self@.dom().finite(),
    {
        proof {
            use_type_invariant(self);
            self.lemma_dom_len();
        }
        self.entries.len()
    }

    proof fn lemma_dom_len(&self)
        requires
            sorted_entries(self.entries@),
        ensures
            self@.dom().finite(),
            self@.len() == self.entries@.len(),
    {
        let s = self.entries@;
        let keys = s.map_values(|e: (String, V)| e.0@);
        assert forall|i: int, j: int| 0 <= i < j < keys.len() implies keys[i] != keys[j] by {
            lemma_key_order(s[i].0@, s[j].0@, s[j].0@);
            assert(key_lt(s[i].0@, s[j].0@));
        }
        assert(keys.no_duplicates());
        assert(self@.dom() =~= keys.to_set()) by {
            assert forall|k: Seq<char>| self@.dom().contains(k) implies keys.to_set().contains(k) by {
                let i = choose|i: int| 0 <= i < s.len() && #[trigger] s[i].0@ == k;
                assert(keys[i] == k);
            }
            assert forall|k: Seq<char>| keys.to_set().contains(k) implies self@.dom().contains(k) by {
                let i = choose|i: int| 0 <= i < keys.len() && keys[i] == k;
                assert(s[i].0@ == k);
            }
        }
        keys.unique_seq_to_set();
    }

    /// The position at which `key` stands or would stand, and whether it is there.
    fn find(&self, key: &String) -> (r: (usize, bool))
        ensures
            r.0 <= self.entries@.len(),
            forall|i: int| 0 <= i < r.0 ==> key_lt(#[trigger] self.entries@[i].0@, key@),
            r.1 ==> r.0 < self.entries@.len() && self.entries@[r.0 as int].0@ == key@,
            !r.1 ==> forall|i: int|
                r.0 <= i < self.entries@.len() ==> key_lt(key@, #[trigger] self.entries@[i].0@),
    {
        proof {
            use_type_invariant(self);
        }
        let n = self.entries.len();
        let mut i: usize = 0;
        while i < n
            invariant
                n == self.entries@.len(),
                sorted_entries(self.entries@),
                i <= n,
                forall|j: int| 0 <= j < i ==> key_lt(#[trigger] self.entries@[j].0@, key@),
            decreases n - i,
        {
            match compare_keys(&self.entries[i].0, key) {
                KeyOrder::Less => {},
                KeyOrder::Equal => {
                    return (i, true);
                },
                KeyOrder::Greater => {
                    proof {
                        assert forall|j: int| i <= j < n implies key_lt(
                            key@,
                            #[trigger] self.entries@[j].0@,
                        ) by {
                            if j > i {
                                assert(key_lt(self.entries@[i as int].0@, self.entries@[j].0@));
                                lemma_key_order(key@, self.entries@[i as int].0@, self.entries@[j].0@);
                            }
                        }
                    }
                    return (i, false);
                },
            }
            i = i + 1;
        }
        (i, false)
    }

    proof fn lemma_not_found(&self, key: Seq<char>, p: int)
        requires
            sorted_entries(self.entries@),
            0 <= p <= self.entries@.len(),
            forall|i: int| 0 <= i < p ==> key_lt(#[trigger] self.entries@[i].0@, key),
            forall|i: int| p <= i < self.entries@.len() ==> key_lt(key, #[trigger] self.entries@[i].0@),
        ensures
            !self@.contains_key(key),
    {
        if self@.contains_key(key) {
            let i = choose|i: int| 0 <= i < self.entries@.len() && #[trigger] self.entries@[i].0@ == key;
            lemma_key_order(key, key, key);
            if i < p {
                assert(key_lt(self.entries@[i].0@, key));
            } else {
                assert(key_lt(key, self.entries@[i].0@));
            }
        }
    }

    /// The value at `key`, if any.
    pub fn get(&self, key: &String) -> (r: Option<&V>)
        ensures
            r.is_some() == self@.contains_key(key@),
            r matches Some(v) ==> *v == self@[key@],
    {
        proof {
            use_type_invariant(self);
        }
        let (p, found) = self.find(key);
        if found {
            proof {
                lemma_entries_map_at(self.entries@, p as int);
            }
            Some(&self.entries[p].1)
        } else {
            proof {
                self.lemma_not_found(key@, p as int);
            }
            None
        }
    }

    /// Sets the value at `key`.
    pub fn insert(&mut self, key: String, value: V)
        ensures
            final(self)@ == old(self)@.insert(key@, value),
    {
        proof {
            use_type_invariant(&*self);
        }
        let (p, found) = self.find(&key);
        let ghost old_entries = self.entries@;
        let ghost k = key@;
        let mut entries: Vec<(String, V)> = Vec::new();
        std::mem::swap(&mut entries, &mut self.entries);
        if found {
            let _ = entries.remove(p);
        }
        entries.insert(p, (key, value));
        proof {
            let s = entries@;
            assert(s.len() == if found { old_entries.len() } else { old_entries.len() + 1 });
            assert forall|i: int| 0 <= i < s.len() && i != p implies (#[trigger] s[i]) == (if i < p {
                old_entries[i]
            } else if found {
                old_entries[i]
            } else {
                old_entries[i - 1]
            }) by {}
            assert(sorted_entries(s)) by {
                assert forall|i: int, j: int| 0 <= i < j < s.len() implies key_lt(
                    #[trigger] s[i].0@,
                    #[trigger] s[j].0@,
                ) by {
                    if i == p {
                        if found {
                            assert(key_lt(old_entries[p as int].0@, old_entries[j].0@));
                        }
                    } else if j == p {
                    } else {
                        let oi = if i < p || found { i } else { i - 1 };
                        let oj = if j < p || found { j } else { j - 1 };
                        assert(key_lt(old_entries[oi].0@, old_entries[oj].0@));
                    }
                }
            }
            assert(entries_map(s) =~= entries_map(old_entries).insert(k, value)) by {
                assert(s[p as int].0@ == k);
                assert forall|q: Seq<char>| #[trigger] entries_map(s).contains_key(q) == entries_map(
                    old_entries,
                ).insert(k, value).contains_key(q) by {
                    if has_key(s, q) {
                        let i = choose|i: int| 0 <= i < s.len() && #[trigger] s[i].0@ == q;
                        if i != p {
                            let oi = if i < p || found { i } else { i - 1 };
                            assert(old_entries[oi].0@ == q);
                        }
                    }
                    if has_key(old_entries, q) {
                        let oi = choose|i: int| 0 <= i < old_entries.len() && #[trigger] old_entries[i].0@ == q;
                        if !(found && oi == p) {
                            let i = if oi < p || found { oi } else { oi + 1 };
                            assert(s[i].0@ == q);
                        }
                    }
                }
                assert forall|q: Seq<char>| #[trigger] entries_map(s).contains_key(q) implies entries_map(
                    s,
                )[q] == entries_map(old_entries).insert(k, value)[q] by {
                    let i = choose|i: int| 0 <= i < s.len() && #[trigger] s[i].0@ == q;
                    lemma_entries_map_at(s, i);
                    if i != p {
                        let oi = if i < p || found { i } else { i - 1 };
                        lemma_entries_map_at(old_entries, oi);
                        lemma_key_order(q, k, k);
                        if oi < p {
                            assert(key_lt(old_entries[oi].0@, k));
                        } else {
                            assert(key_lt(k, old_entries[oi].0@) || (found && oi == p));
                        }
                    }
                }
            }
        }
        self.entries = entries;
    }

    /// Removes the value at `key`, returning it.
    pub fn remove(&mut self, key: &String) -> (r: Option<V>)
        ensures
            final(self)@ == old(self)@.remove(key@),
            r.is_some() == old(self)@.contains_key(key@),
            r matches Some(v) ==> v == old(self)@[key@],
    {
        proof {
            use_type_invariant(&*self);
        }
        let (p, found) = self.find(key);
        let ghost old_entries = self.entries@;
        if found {
            proof {
                lemma_entries_map_at(old_entries, p as int);
            }
            let mut entries: Vec<(String, V)> = Vec::new();
            std::mem::swap(&mut entries, &mut self.entries);
            let (_, v) = entries.remove(p);
            proof {
                let s = entries@;
                let k = key@;
                assert forall|i: int| 0 <= i < s.len() implies (#[trigger] s[i]) == (if i < p {
                    old_entries[i]
                } else {
                    old_entries[i + 1]
                }) by {}
                assert(sorted_entries(s)) by {
                    assert forall|i: int, j: int| 0 <= i < j < s.len() implies key_lt(
                        #[trigger] s[i].0@,
                        #[trigger] s[j].0@,
                    ) by {
                        let oi = if i < p { i } else { i + 1 };
                        let oj = if j < p { j } else { j + 1 };
                        assert(key_lt(old_entries[oi].0@, old_entries[oj].0@));
                    }
                }
                assert(entries_map(s) =~= entries_map(old_entries).remove(k)) by {
                    assert forall|q: Seq<char>| #[trigger] entries_map(s).contains_key(q) == entries_map(
                        old_entries,
                    ).remove(k).contains_key(q) by {
                        if has_key(s, q) {
                            let i = choose|i: int| 0 <= i < s.len() && #[trigger] s[i].0@ == q;
                            let oi = if i < p { i } else { i + 1 };
                            assert(old_entries[oi].0@ == q);
                            lemma_key_order(q, k, k);
                            if oi < p {
                                assert(key_lt(old_entries[oi].0@, old_entries[p as int].0@));
                            } else {
                                assert(key_lt(old_entries[p as int].0@, old_entries[oi].0@));
                            }
                        }
                        if has_key(old_entries, q) && q != k {
                            let oi = choose|i: int| 0 <= i < old_entries.len() && #[trigger] old_entries[i].0@ == q;
                            let i = if oi < p { oi } else { oi - 1 };
                            assert(s[i].0@ == q);
                        }
                    }
                    assert forall|q: Seq<char>| #[trigger] entries_map(s).contains_key(q) implies entries_map(
                        s,
                    )[q] == entries_map(old_entries).remove(k)[q] by {
                        let i = choose|i: int| 0 <= i < s.len() && #[trigger] s[i].0@ == q;
                        lemma_entries_map_at(s, i);
                        let oi = if i < p { i } else { i + 1 };
                        lemma_entries_map_at(old_entries, oi);
                    }
                }
            }
            self.entries = entries;
            Some(v)
        } else {
            proof {
                self.lemma_not_found(key@, p as int);
                assert(self@ =~= old(self)@.remove(key@));
            }
            None
        }
    }

    /// Keeps only the keys that do not come after `bound`.
    pub fn retain_up_to(&mut self, bound: &String)
        ensures
            final(self)@ == up_to(old(self)@, bound@),
    {
        proof {
            use_type_invariant(&*self);
        }
        let n = self.entries.len();
        let (p, found) = self.find(bound);
        let q = if found { p + 1 } else { p };
        let ghost old_entries = self.entries@;
        let mut entries: Vec<(String, V)> = Vec::new();
        std::mem::swap(&mut entries, &mut self.entries);
        entries.truncate(q);
        proof {
            let s = entries@;
            let b = bound@;
            assert(s =~= old_entries.subrange(0, q as int));
            assert(entries_map(s) =~= up_to(entries_map(old_entries), b)) by {
                assert forall|k: Seq<char>| #[trigger] entries_map(s).contains_key(k) == up_to(
                    entries_map(old_entries),
                    b,
                ).contains_key(k) by {
                    if has_key(s, k) {
                        let i = choose|i: int| 0 <= i < s.len() && #[trigger] s[i].0@ == k;
                        assert(old_entries[i].0@ == k);
                        lemma_key_order(k, b, k);
                        if i < p {
                            assert(key_lt(k, b));
                        }
                    }
                    if has_key(old_entries, k) && !key_lt(b, k) {
                        let i = choose|i: int| 0 <= i < old_entries.len() && #[trigger] old_entries[i].0@ == k;
                        if i >= q {
                            if found {
                                assert(key_lt(old_entries[p as int].0@, old_entries[i].0@));
                            } else {
                                assert(key_lt(b, old_entries[i].0@));
                            }
                        }
                        assert(s[i].0@ == k);
                    }
                }
                assert forall|k: Seq<char>| #[trigger] entries_map(s).contains_key(k) implies entries_map(
                    s,
                )[k] == up_to(entries_map(old_entries), b)[k] by {
                    let i = choose|i: int| 0 <= i < s.len() && #[trigger] s[i].0@ == k;
                    lemma_entries_map_at(s, i);
                    lemma_entries_map_at(old_entries, i);
                }
            }
        }
        self.entries = entries;
    }

    /// Removes every key.
    pub fn clear(&mut self)
        ensures
            final(self)@ == Map::<Seq<char>, V>::empty(),
    {
        self.entries = Vec::new();
        assert(self@ =~= Map::<Seq<char>, V>::empty());
    }

    /// The first position whose key comes after `start`.
    fn first_after(&self, start: &Option<String>) -> (q: usize)
        ensures
            q <= self.entries@.len(),
            forall|i: int| 0 <= i < q ==> !after(bound_of(*start), #[trigger] self.entries@[i].0@),
            forall|i: int|
                q <= i < self.entries@.len() ==> after(bound_of(*start), #[trigger] self.entries@[i].0@),
    {
        proof {
            use_type_invariant(self);
        }
        match start {
            None => 0,
            Some(s) => {
                let n = self.entries.len();
                let (p, found) = self.find(s);
                proof {
                    assert forall|i: int| 0 <= i < p implies !key_lt(s@, #[trigger] self.entries@[i].0@) by {
                        lemma_key_order(self.entries@[i].0@, s@, s@);
                    }
                    if found {
                        lemma_key_order(s@, s@, s@);
                        assert forall|i: int| p < i < self.entries@.len() implies key_lt(
                            s@,
                            #[trigger] self.entries@[i].0@,
                        ) by {
                            assert(key_lt(self.entries@[p as int].0@, self.entries@[i].0@));
                        }
                    }
                }
                if found {
                    p + 1
                } else {
                    p
                }
            },
        }
    }

    /// All entries, in increasing key order.
    pub fn into_entries(self) -> (r: Vec<(String, V)>)
        ensures
            sorted_entries(r@),
            entries_map(r@) == self@,
    {
        proof {
            use_type_invariant(&self);
        }
        self.entries
    }
}

/// The exclusive lower bound that an optional address stands for.
pub open spec fn bound_of(start: Option<String>) -> Option<Seq<char>> {
    match start {
        None => None,
        Some(s) => Some(s@),
    }
}

impl<V: Copy> AddrMap<V> {
    /// Up to `limit` entries after `start`, in increasing key order.
    pub fn page(&self, start: &Option<String>, limit: usize) -> (r: Vec<(String, V)>)
        ensures
            is_page(self@, bound_of(*start), limit as nat, r@),
    {
        proof {
            use_type_invariant(self);
        }
        let n = self.entries.len();
        let q = self.first_after(start);
        let mut out: Vec<(String, V)> = Vec::new();
        let mut i: usize = q;
        while i < n && out.len() < limit
            invariant
                n == self.entries@.len(),
                sorted_entries(self.entries@),
                q <= i <= n,
                out@ =~= self.entries@.subrange(q as int, i as int),
                out@.len() <= limit,
            decreases n - i,
        {
            let k = self.entries[i].0.clone();
            let v = self.entries[i].1;
            out.push((k, v));
            i = i + 1;
        }
        proof {
            let m = self@;
            let e = self.entries@;
            let st = bound_of(*start);
            assert forall|j: int| 0 <= j < out@.len() implies {
                &&& m.contains_key(#[trigger] out@[j].0@)
                &&& m[out@[j].0@] == out@[j].1
                &&& after(st, out@[j].0@)
            } by {
                assert(out@[j] == e[q + j]);
                lemma_entries_map_at(e, q + j);
            }
            assert forall|k: Seq<char>|
                #![trigger m.contains_key(k)]
                m.contains_key(k) && after(st, k) && (out@.len() < limit || (out@.len() > 0
                    && !key_lt(out@.last().0@, k))) implies has_key(out@, k) by {
                let x = choose|x: int| 0 <= x < e.len() && #[trigger] e[x].0@ == k;
                if out@.len() < limit {
                    assert(i == n);
                } else {
                    if x >= i {
                        assert(key_lt(e[i - 1].0@, e[x].0@));
                    }
                }
                assert(out@[x - q].0@ == k);
            }
        }
        out
    }
}

} // verus!

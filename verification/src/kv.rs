//! The key-value store that committed commands are applied to.
use vstd::prelude::*;

verus! {

/// A map from string keys to string values, kept as a list of pairs in which
/// no key occurs twice.
#[derive(Debug)]
pub struct KvStore {
    entries: Vec<(String, String)>,
}

/// No key occurs twice in the list.
pub open spec fn keys_distinct(s: Seq<(String, String)>) -> bool {
    forall|i: int, j: int| 0 <= i < j < s.len() ==> #[trigger] s[i].0@ != #[trigger] s[j].0@
}

/// The map that a list of pairs with distinct keys stands for.
pub open spec fn pairs_map(s: Seq<(String, String)>) -> Map<Seq<char>, Seq<char>> {
    Map::new(
        |k: Seq<char>| exists|i: int| 0 <= i < s.len() && #[trigger] s[i].0@ == k,
        |k: Seq<char>| s[choose|i: int| 0 <= i < s.len() && #[trigger] s[i].0@ == k].1@,
    )
}

proof fn lemma_pairs_map_at(s: Seq<(String, String)>, i: int)
    requires
        keys_distinct(s),
        0 <= i < s.len(),
    ensures
        pairs_map(s).contains_key(s[i].0@),
        pairs_map(s)[s[i].0@] == s[i].1@,
{
    let k = s[i].0@;
    assert(exists|j: int| 0 <= j < s.len() && #[trigger] s[j].0@ == k);
    let c = choose|j: int| 0 <= j < s.len() && #[trigger] s[j].0@ == k;
    if c != i {
        if c < i {
            assert(s[c].0@ != s[i].0@);
        } else {
            assert(s[i].0@ != s[c].0@);
        }
    }
}

/// A list of pairs with distinct keys stands for the map `m` where `m` holds
/// exactly its keys, each with its value.
proof fn lemma_pairs_map_is(s: Seq<(String, String)>, m: Map<Seq<char>, Seq<char>>)
    requires
        keys_distinct(s),
        forall|i: int|
            0 <= i < s.len() ==> #[trigger] m.contains_key(s[i].0@) && m[s[i].0@] == s[i].1@,
        forall|k: Seq<char>|
            #[trigger] m.contains_key(k) ==> exists|i: int| 0 <= i < s.len() && #[trigger] s[i].0@
                == k,
    ensures
        pairs_map(s) == m,
{
    assert forall|k: Seq<char>| #[trigger] pairs_map(s).contains_key(k) implies m.contains_key(k)
        && pairs_map(s)[k] == m[k] by {
        let i = choose|i: int| 0 <= i < s.len() && #[trigger] s[i].0@ == k;
        lemma_pairs_map_at(s, i);
        assert(m.contains_key(s[i].0@));
    }
    assert forall|k: Seq<char>| #[trigger] m.contains_key(k) implies pairs_map(s).contains_key(k) by {
        let i = choose|i: int| 0 <= i < s.len() && #[trigger] s[i].0@ == k;
        lemma_pairs_map_at(s, i);
    }
    assert(pairs_map(s) =~= m);
}

impl KvStore {
    #[verifier::type_invariant]
    spec fn inv(self) -> bool {
        keys_distinct(self.entries@)
    }
}

impl View for KvStore {
    type V = Map<Seq<char>, Seq<char>>;

    closed spec fn view(&self) -> Map<Seq<char>, Seq<char>> {
        pairs_map(self.entries@)
    }
}

impl KvStore {
    /// An empty store.
    pub fn new() -> (s: KvStore)
        ensures
            s@ == Map::<Seq<char>, Seq<char>>::empty(),
    {
        let s = KvStore { entries: Vec::new() };
        assert(s@ =~= Map::<Seq<char>, Seq<char>>::empty());
        s
    }

    /// The position of `key` in the list, if it is there.
    fn find(&self, key: &String) -> (r: Option<usize>)
        ensures
            match r {
                Some(i) => i < self.entries@.len() && self.entries@[i as int].0@ == key@,
                None => forall|i: int|
                    0 <= i < self.entries@.len() ==> #[trigger] self.entries@[i].0@ != key@,
            },
    {
        let mut i: usize = 0;
        while i < self.entries.len()
            invariant
                i <= self.entries@.len(),
                forall|j: int| 0 <= j < i ==> #[trigger] self.entries@[j].0@ != key@,
            decreases self.entries@.len() - i,
        {
            if self.entries[i].0 == *key {
                return Some(i);
            }
            i = i + 1;
        }
        None
    }

    /// The value stored under `key`, if any.
    pub fn get(&self, key: &str) -> (r: Option<String>)
        ensures
            r is Some <==> self@.contains_key(key@),
            r matches Some(v) ==> v@ == self@[key@],
    {
        proof {
            use_type_invariant(self);
        }
        let k = key.to_owned();
        match self.find(&k) {
            Some(i) => {
                proof {
                    lemma_pairs_map_at(self.entries@, i as int);
                }
                Some(self.entries[i].1.clone())
            },
            None => {
                assert(!self@.contains_key(key@));
                None
            },
        }
    }

    /// Stores `value` under `key`, replacing what was there.
    pub fn insert(&mut self, key: String, value: String)
        ensures
            final(self)@ == old(self)@.insert(key@, value@),
    {
        proof {
            use_type_invariant(&*self);
        }
        let ghost old_entries = self.entries@;
        let ghost m = pairs_map(old_entries).insert(key@, value@);
        let found = self.find(&key);
        let mut entries: Vec<(String, String)> = Vec::new();
        std::mem::swap(&mut entries, &mut self.entries);
        let ghost k = key@;
        let ghost v = value@;
        match found {
            Some(i) => {
                entries.set(i, (key, value));
            },
            None => {
                entries.push((key, value));
            },
        }
        proof {
            let s = entries@;
            assert forall|a: int, b: int| 0 <= a < b < s.len() implies #[trigger] s[a].0@
                != #[trigger] s[b].0@ by {
                if b < old_entries.len() {
                    assert(old_entries[a].0@ != old_entries[b].0@);
                }
            }
            assert forall|j: int| 0 <= j < s.len() implies #[trigger] m.contains_key(s[j].0@)
                && m[s[j].0@] == s[j].1@ by {
                if j < old_entries.len() && s[j] == old_entries[j] {
                    lemma_pairs_map_at(old_entries, j);
                }
            }
            assert forall|q: Seq<char>| #[trigger] m.contains_key(q) implies exists|j: int|
                0 <= j < s.len() && #[trigger] s[j].0@ == q by {
                if q == k {
                    match found {
                        Some(i) => assert(s[i as int].0@ == q),
                        None => assert(s[old_entries.len() as int].0@ == q),
                    }
                } else {
                    let j = choose|j: int|
                        0 <= j < old_entries.len() && #[trigger] old_entries[j].0@ == q;
                    assert(s[j].0@ == q);
                }
            }
            lemma_pairs_map_is(s, m);
        }
        self.entries = entries;
    }

    /// Removes `key` and what was stored under it.
    pub fn remove(&mut self, key: &str)
        ensures
            final(self)@ == old(self)@.remove(key@),
    {
        proof {
            use_type_invariant(&*self);
        }
        let ghost old_entries = self.entries@;
        let ghost m = pairs_map(old_entries).remove(key@);
        let k = key.to_owned();
        match self.find(&k) {
            Some(i) => {
                let mut entries: Vec<(String, String)> = Vec::new();
                std::mem::swap(&mut entries, &mut self.entries);
                entries.remove(i);
                proof {
                    let s = entries@;
                    assert forall|j: int| 0 <= j < s.len() implies #[trigger] s[j] == (if j < i {
                        old_entries[j]
                    } else {
                        old_entries[j + 1]
                    }) by {}
                    assert forall|a: int, b: int| 0 <= a < b < s.len() implies #[trigger] s[a].0@
                        != #[trigger] s[b].0@ by {
                        let oa = if a < i { a } else { a + 1 };
                        let ob = if b < i { b } else { b + 1 };
                        assert(old_entries[oa].0@ != old_entries[ob].0@);
                    }
                    assert forall|j: int| 0 <= j < s.len() implies #[trigger] m.contains_key(
                        s[j].0@,
                    ) && m[s[j].0@] == s[j].1@ by {
                        let oj = if j < i { j } else { j + 1 };
                        lemma_pairs_map_at(old_entries, oj);
                        if oj < i {
                            assert(old_entries[oj].0@ != old_entries[i as int].0@);
                        } else {
                            assert(old_entries[i as int].0@ != old_entries[oj].0@);
                        }
                    }
                    assert forall|q: Seq<char>| #[trigger] m.contains_key(q) implies exists|j: int|
                        0 <= j < s.len() && #[trigger] s[j].0@ == q by {
                        let oj = choose|j: int|
                            0 <= j < old_entries.len() && #[trigger] old_entries[j].0@ == q;
                        if oj < i {
                            assert(s[oj].0@ == q);
                        } else {
                            assert(s[oj - 1].0@ == q);
                        }
                    }
                    lemma_pairs_map_is(s, m);
                }
                self.entries = entries;
            },
            None => {
                proof {
                    assert(pairs_map(old_entries) =~= m);
                }
            },
        }
    }
}

} // verus!

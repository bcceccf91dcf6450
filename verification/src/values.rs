use vstd::prelude::*;

verus! {

/// The names of a sequence of (name, value) pairs, in order.
pub open spec fn pair_keys(pairs: Seq<(Seq<char>, Seq<char>)>) -> Seq<Seq<char>> {
    pairs.map_values(|p: (Seq<char>, Seq<char>)| p.0)
}

/// No name occurs in two pairs.
pub open spec fn distinct_keys(pairs: Seq<(Seq<char>, Seq<char>)>) -> bool {
    pair_keys(pairs).no_duplicates()
}

/// The map that a sequence of (name, value) pairs stands for. Where no name
/// occurs twice, every pair of the sequence is an entry of the map.
pub open spec fn pairs_to_map(pairs: Seq<(Seq<char>, Seq<char>)>) -> Map<Seq<char>, Seq<char>> {
    Map::new(
        |k: Seq<char>| pair_keys(pairs).contains(k),
        |k: Seq<char>| pairs[pair_keys(pairs).index_of(k)].1,
    )
}

/// The pairs after `k` is set to `v`: the pair named `k` is replaced in place,
/// or a new pair is appended.
pub open spec fn pairs_insert(pairs: Seq<(Seq<char>, Seq<char>)>, k: Seq<char>, v: Seq<char>) -> Seq<
    (Seq<char>, Seq<char>),
> {
    if pair_keys(pairs).contains(k) {
        pairs.update(pair_keys(pairs).index_of(k), (k, v))
    } else {
        pairs.push((k, v))
    }
}

/// With distinct names, the map of a sequence of pairs has exactly the pairs
/// as its entries, and as many entries as there are pairs.
pub proof fn lemma_pairs_to_map(pairs: Seq<(Seq<char>, Seq<char>)>)
    requires
        distinct_keys(pairs),
    ensures
        pairs_to_map(pairs).dom().finite(),
        pairs_to_map(pairs).len() == pairs.len(),
        forall|i: int|
            0 <= i < pairs.len() ==> #[trigger] pairs_to_map(pairs).contains_key(pairs[i].0)
                && pairs_to_map(pairs)[pairs[i].0] == pairs[i].1,
        forall|k: Seq<char>| #[trigger]
            pairs_to_map(pairs).contains_key(k) ==> 0 <= pair_keys(pairs).index_of(k) < pairs.len()
                && pairs[pair_keys(pairs).index_of(k)] == (k, pairs_to_map(pairs)[k]),
{
    let keys = pair_keys(pairs);
    let m = pairs_to_map(pairs);
    assert(m.dom() =~= keys.to_set());
    keys.unique_seq_to_set();
    vstd::seq_lib::seq_to_set_is_finite(keys);
    assert forall|i: int| 0 <= i < pairs.len() implies #[trigger] m.contains_key(pairs[i].0) && m[pairs[i].0]
        == pairs[i].1 by {
        assert(keys[i] == pairs[i].0);
        assert(keys.contains(pairs[i].0));
        let j = keys.index_of(pairs[i].0);
        assert(keys[j] == keys[i]);
    }
    assert forall|k: Seq<char>| #[trigger] m.contains_key(k) implies 0 <= keys.index_of(k) < pairs.len()
        && pairs[keys.index_of(k)] == (k, m[k]) by {
        let j = keys.index_of(k);
        assert(keys[j] == k);
    }
}

/// Setting a name keeps the names distinct and sets that name in the map.
pub proof fn lemma_pairs_insert(pairs: Seq<(Seq<char>, Seq<char>)>, k: Seq<char>, v: Seq<char>)
    requires
        distinct_keys(pairs),
    ensures
        distinct_keys(pairs_insert(pairs, k, v)),
        pairs_to_map(pairs_insert(pairs, k, v)) == pairs_to_map(pairs).insert(k, v),
{
    let keys = pair_keys(pairs);
    let after = pairs_insert(pairs, k, v);
    let keys_after = pair_keys(after);
    if keys.contains(k) {
        let i = keys.index_of(k);
        assert(keys[i] == k);
        assert(keys_after =~= keys);
    } else {
        assert(keys_after =~= keys.push(k));
    }
    lemma_pairs_to_map(pairs);
    lemma_pairs_to_map(after);
    let m = pairs_to_map(pairs).insert(k, v);
    let n = pairs_to_map(after);
    assert forall|x: Seq<char>| m.contains_key(x) <==> n.contains_key(x) by {
        if keys.contains(x) {
            let j = keys.index_of(x);
            assert(keys[j] == x);
            assert(keys_after[j] == x);
        }
        if keys_after.contains(x) && x != k {
            let j = keys_after.index_of(x);
            assert(keys_after[j] == x);
            assert(keys[j] == x);
        }
        if x == k {
            if keys.contains(k) {
                assert(keys_after[keys.index_of(k)] == k);
            } else {
                assert(keys_after[pairs.len() as int] == k);
            }
        }
    }
    assert forall|x: Seq<char>| m.contains_key(x) implies m[x] == n[x] by {
        let j = keys_after.index_of(x);
        assert(keys_after[j] == x);
        if x != k {
            assert(keys[j] == x);
            assert(pairs[j] == (x, pairs_to_map(pairs)[x]));
        }
    }
    assert(m =~= n);
}

/// An attribute bag: field names with the values observed for them.
/// A name occurs at most once; entries keep the order in which their names
/// were first inserted.
#[derive(Debug)]
pub struct ValueMap {
    entries: Vec<(String, String)>,
}

impl View for ValueMap {
    type V = Map<Seq<char>, Seq<char>>;

    open spec fn view(&self) -> Map<Seq<char>, Seq<char>> {
        pairs_to_map(self.pairs())
    }
}

impl ValueMap {
    /// The entries as (name, value) pairs, in insertion order.
    pub closed spec fn pairs(&self) -> Seq<(Seq<char>, Seq<char>)> {
        self.entries@.map_values(|e: (String, String)| (e.0@, e.1@))
    }

    #[verifier::type_invariant]
    spec fn names_are_distinct(&self) -> bool {
        distinct_keys(self.pairs())
    }

    /// An empty bag.
    pub fn new() -> (m: Self)
        ensures
            m.pairs() == Seq::<(Seq<char>, Seq<char>)>::empty(),
            m@ == Map::<Seq<char>, Seq<char>>::empty(),
    {
        let m = ValueMap { entries: Vec::new() };
        assert(m.pairs() =~= Seq::<(Seq<char>, Seq<char>)>::empty());
        assert(m@ =~= Map::<Seq<char>, Seq<char>>::empty());
        m
    }

    /// The number of entries. As in every bag, no two of them have the same
    /// name.
    pub fn len(&self) -> (n: usize)
        ensures
            n == self.pairs().len(),
            n == self@.len(),
            distinct_keys(self.pairs()),
    {
        proof {
            use_type_invariant(self);
            lemma_pairs_to_map(self.pairs());
        }
        self.entries.len()
    }

    /// The name of the entry at position `i`.
    pub fn key_at(&self, i: usize) -> (k: &String)
        requires
            i < self.pairs().len(),
        ensures
            k@ == self.pairs()[i as int].0,
            self@.contains_key(k@),
    {
        proof {
            use_type_invariant(self);
            lemma_pairs_to_map(self.pairs());
        }
        &self.entries[i].0
    }

    /// The value of the entry at position `i`.
    pub fn value_at(&self, i: usize) -> (v: &String)
        requires
            i < self.pairs().len(),
        ensures
            v@ == self.pairs()[i as int].1,
            v@ == self@[self.pairs()[i as int].0],
    {
        proof {
            use_type_invariant(self);
            lemma_pairs_to_map(self.pairs());
        }
        &self.entries[i].1
    }

    /// The position of the entry named `key`, if there is one.
    fn position(&self, key: &String) -> (r: Option<usize>)
        ensures
            match r {
                Some(i) => i < self.pairs().len() && self.pairs()[i as int].0 == key@,
                None => !pair_keys(self.pairs()).contains(key@),
            },
    {
        let mut i: usize = 0;
        while i < self.entries.len()
            invariant
                i <= self.entries.len(),
                forall|j: int| 0 <= j < i ==> pair_keys(self.pairs())[j] != key@,
            decreases self.entries.len() - i,
        {
            if self.entries[i].0 == *key {
                return Some(i);
            }
            i += 1;
        }
        None
    }

    /// The value stored under `key`, if any.
    pub fn get(&self, key: &String) -> (r: Option<&String>)
        ensures
            match r {
                Some(v) => self@.contains_key(key@) && v@ == self@[key@],
                None => !self@.contains_key(key@),
            },
    {
        proof {
            use_type_invariant(self);
            lemma_pairs_to_map(self.pairs());
        }
        match self.position(key) {
            Some(i) => {
                assert(self@.contains_key(self.pairs()[i as int].0));
                Some(&self.entries[i].1)
            },
            None => None,
        }
    }

    /// Sets `key` to `value`: replaces the value of an entry of that name, or
    /// appends a new entry.
    pub fn insert(&mut self, key: String, value: String)
        ensures
            final(self).pairs() == pairs_insert(old(self).pairs(), key@, value@),
            final(self)@ == old(self)@.insert(key@, value@),
    {
        proof {
            use_type_invariant(&*self);
            lemma_pairs_insert(self.pairs(), key@, value@);
        }
        let ghost before = self.pairs();
        let found = self.position(&key);
        let mut entries: Vec<(String, String)> = Vec::new();
        std::mem::swap(&mut entries, &mut self.entries);
        match found {
            Some(i) => {
                proof {
                    assert(pair_keys(before)[i as int] == key@);
                    assert(pair_keys(before).index_of(key@) == i);
                }
                entries.set(i, (key, value));
            },
            None => {
                entries.push((key, value));
            },
        }
        assert(entries@.map_values(|e: (String, String)| (e.0@, e.1@)) =~= pairs_insert(
            before,
            key@,
            value@,
        ));
        self.entries = entries;
    }
}

impl Clone for ValueMap {
    /// A bag with the same entries in the same order.
    fn clone(&self) -> (copy: Self)
        ensures
            copy.pairs() == self.pairs(),
            copy@ == self@,
    {
        proof {
            use_type_invariant(self);
        }
        let n = self.entries.len();
        let mut entries: Vec<(String, String)> = Vec::new();
        let mut i: usize = 0;
        while i < n
            invariant
                i <= n,
                n == self.entries.len(),
                entries.len() == i,
                forall|j: int|
                    0 <= j < i ==> (#[trigger] entries[j]).0@ == self.entries[j].0@ && entries[j].1@
                        == self.entries[j].1@,
            decreases n - i,
        {
            let name = self.entries[i].0.clone();
            let value = self.entries[i].1.clone();
            entries.push((name, value));
            i += 1;
        }
        assert(entries@.map_values(|e: (String, String)| (e.0@, e.1@)) =~= self.pairs());
        ValueMap { entries }
    }
}

} // verus!

use vstd::prelude::*;

verus! {

/// The members of `dom` below `n`, in rising order.
pub open spec fn keys_below(dom: Set<u16>, n: nat) -> Seq<u16>
    decreases n,
{
    if n == 0 {
        Seq::empty()
    } else if dom.contains((n - 1) as u16) {
        keys_below(dom, (n - 1) as nat).push((n - 1) as u16)
    } else {
        keys_below(dom, (n - 1) as nat)
    }
}

/// The members of `dom` in rising order.
pub open spec fn sorted_keys(dom: Set<u16>) -> Seq<u16> {
    keys_below(dom, 65536)
}

/// Whether each element of `s` is greater than the one before it.
pub open spec fn increasing(s: Seq<u16>) -> bool {
    forall|i: int, j: int| 0 <= i < j < s.len() ==> s[i] < s[j]
}

/// `keys_below` lists, in rising order, exactly the members below `n`.
pub proof fn lemma_keys_below(dom: Set<u16>, n: nat)
    requires
        n <= 65536,
    ensures
        increasing(keys_below(dom, n)),
        keys_below(dom, n).len() <= n,
        forall|k: u16| #[trigger] keys_below(dom, n).contains(k) <==> k < n && dom.contains(k),
    decreases n,
{
    if n > 0 {
        let m = (n - 1) as nat;
        lemma_keys_below(dom, m);
        let before = keys_below(dom, m);
        let now = keys_below(dom, n);
        assert forall|k: u16| #[trigger] now.contains(k) <==> k < n && dom.contains(k) by {
            if dom.contains(m as u16) {
                if now.contains(k) {
                    let i = choose|i: int| 0 <= i < now.len() && now[i] == k;
                    if i < before.len() {
                        assert(before[i] == k);
                        assert(before.contains(k));
                    }
                }
                if k < n && dom.contains(k) {
                    if k == m {
                        assert(now[before.len() as int] == k);
                    } else {
                        assert(before.contains(k));
                        let i = choose|i: int| 0 <= i < before.len() && before[i] == k;
                        assert(now[i] == k);
                    }
                }
            }
        }
        if dom.contains(m as u16) {
            assert forall|i: int, j: int| 0 <= i < j < now.len() implies now[i] < now[j] by {
                assert(before.contains(now[i]));
                if j < before.len() {
                    assert(before[i] < before[j]);
                }
            }
        }
    }
}

/// The sorted keys of a set list, in rising order, exactly its members.
pub proof fn lemma_sorted_keys(dom: Set<u16>)
    ensures
        increasing(sorted_keys(dom)),
        sorted_keys(dom).len() <= 65536,
        forall|k: u16| #[trigger] sorted_keys(dom).contains(k) <==> dom.contains(k),
        forall|i: int| 0 <= i < sorted_keys(dom).len() ==> dom.contains(#[trigger] sorted_keys(dom)[i]),
{
    lemma_keys_below(dom, 65536);
    assert forall|i: int| 0 <= i < sorted_keys(dom).len() implies dom.contains(
        #[trigger] sorted_keys(dom)[i],
    ) by {
        assert(sorted_keys(dom).contains(sorted_keys(dom)[i]));
    }
}

/// Two rising sequences with the same elements are the same sequence.
pub proof fn lemma_increasing_unique(a: Seq<u16>, b: Seq<u16>)
    requires
        increasing(a),
        increasing(b),
        forall|k: u16| a.contains(k) <==> b.contains(k),
    ensures
        a == b,
    decreases a.len(),
{
    if a.len() == 0 {
        if b.len() > 0 {
            assert(b.contains(b[0]));
        }
        assert(a =~= b);
    } else {
        assert(a.contains(a.last()));
        assert(b.contains(a.last()));
        assert(b.contains(b.last()));
        assert(a.contains(b.last()));
        let ia = choose|i: int| 0 <= i < a.len() && a[i] == b.last();
        let ib = choose|i: int| 0 <= i < b.len() && b[i] == a.last();
        assert(a.last() == b.last());
        let a0 = a.drop_last();
        let b0 = b.drop_last();
        assert forall|k: u16| a0.contains(k) <==> b0.contains(k) by {
            if a0.contains(k) {
                let i = choose|i: int| 0 <= i < a0.len() && a0[i] == k;
                assert(a[i] == k);
                assert(a.contains(k));
                let j = choose|j: int| 0 <= j < b.len() && b[j] == k;
                assert(k < a.last());
                assert(b0[j] == k);
            }
            if b0.contains(k) {
                let i = choose|i: int| 0 <= i < b0.len() && b0[i] == k;
                assert(b[i] == k);
                assert(b.contains(k));
                let j = choose|j: int| 0 <= j < a.len() && a[j] == k;
                assert(k < b.last());
                assert(a0[j] == k);
            }
        }
        lemma_increasing_unique(a0, b0);
        assert(a =~= a0.push(a.last()));
        assert(b =~= b0.push(b.last()));
    }
}

/// One key of an `IdMap` with its value.
#[derive(Clone, Debug)]
pub struct IdEntry<V> {
    key: u16,
    value: V,
}

/// A map from 16-bit keys to values that is walked in the order of its keys.
#[derive(Debug)]
pub struct IdMap<V> {
    entries: Vec<IdEntry<V>>,
}

spec fn keys_of<V>(es: Seq<IdEntry<V>>) -> Seq<u16> {
    Seq::new(es.len(), |i: int| es[i].key)
}

spec fn has_key<V>(es: Seq<IdEntry<V>>, k: u16) -> bool {
    exists|i: int| 0 <= i < es.len() && #[trigger] es[i].key == k
}

spec fn slot<V>(es: Seq<IdEntry<V>>, k: u16) -> int {
    choose|i: int| 0 <= i < es.len() && #[trigger] es[i].key == k
}

spec fn map_of<V: View>(es: Seq<IdEntry<V>>) -> Map<u16, V::V> {
    Map::new(|k: u16| has_key(es, k), |k: u16| es[slot(es, k)].value@)
}

proof fn lemma_entries<V: View>(es: Seq<IdEntry<V>>)
    requires
        increasing(keys_of(es)),
    ensures
        keys_of(es) == sorted_keys(map_of(es).dom()),
        es.len() <= 65536,
        forall|i: int|
            0 <= i < es.len() ==> map_of(es).contains_key(#[trigger] es[i].key) && map_of(
                es,
            )[es[i].key] == es[i].value@,
        forall|k: u16| map_of(es).contains_key(k) <==> has_key(es, k),
{
    let keys = keys_of(es);
    let m = map_of(es);
    assert forall|i: int| 0 <= i < es.len() implies m.contains_key(#[trigger] es[i].key) && m[es[i].key]
        == es[i].value@ by {
        let k = es[i].key;
        assert(has_key(es, k));
        let j = slot(es, k);
        assert(keys[j] == keys[i]);
        assert(i == j);
    }
    lemma_sorted_keys(m.dom());
    assert forall|k: u16| keys.contains(k) <==> sorted_keys(m.dom()).contains(k) by {
        if keys.contains(k) {
            let i = choose|i: int| 0 <= i < keys.len() && keys[i] == k;
            assert(es[i].key == k);
        }
        if m.dom().contains(k) {
            let i = slot(es, k);
            assert(keys[i] == k);
        }
    }
    lemma_increasing_unique(keys, sorted_keys(m.dom()));
}

/// Whether `i` is where `key` stands, or would stand, among `es`.
spec fn is_lower_bound<V>(es: Seq<IdEntry<V>>, key: u16, i: int) -> bool {
    &&& 0 <= i <= es.len()
    &&& forall|j: int| 0 <= j < i ==> es[j].key < key
    &&& forall|j: int| i <= j < es.len() ==> es[j].key >= key
}

proof fn lemma_lookup<V: View>(es: Seq<IdEntry<V>>, key: u16, i: int)
    requires
        increasing(keys_of(es)),
        is_lower_bound(es, key, i),
    ensures
        map_of(es).contains_key(key) <==> (i < es.len() && es[i].key == key),
        map_of(es).contains_key(key) ==> map_of(es)[key] == es[i].value@,
{
    lemma_entries(es);
    if has_key(es, key) {
        let j = slot(es, key);
        assert(es[j].key == key);
        if j > i {
            assert(keys_of(es)[i] < keys_of(es)[j]);
        }
    }
}

proof fn lemma_remove<V: View>(es: Seq<IdEntry<V>>, key: u16, i: int)
    requires
        increasing(keys_of(es)),
        is_lower_bound(es, key, i),
        i < es.len(),
        es[i].key == key,
    ensures
        increasing(keys_of(es.remove(i))),
        map_of(es.remove(i)) == map_of(es).remove(key),
        is_lower_bound(es.remove(i), key, i),
        i < es.remove(i).len() ==> es.remove(i)[i].key != key,
{
    let after = es.remove(i);
    assert forall|a: int, b: int| 0 <= a < b < keys_of(after).len() implies keys_of(after)[a]
        < keys_of(after)[b] by {
        let a0 = if a < i { a } else { a + 1 };
        let b0 = if b < i { b } else { b + 1 };
        assert(keys_of(es)[a0] < keys_of(es)[b0]);
    }
    assert forall|j: int| i <= j < after.len() implies after[j].key > key by {
        assert(keys_of(es)[i] < keys_of(es)[j + 1]);
    }
    lemma_entries(es);
    lemma_entries(after);
    let want = map_of(es).remove(key);
    assert forall|k: u16| map_of(after).contains_key(k) <==> want.contains_key(k) by {
        if map_of(after).contains_key(k) {
            let s = slot(after, k);
            let s0 = if s < i { s } else { s + 1 };
            assert(es[s0].key == k);
        }
        if want.contains_key(k) {
            let s = slot(es, k);
            assert(es[s].key == k);
            let s0 = if s < i { s } else { s - 1 };
            assert(after[s0].key == k);
        }
    }
    assert forall|k: u16| map_of(after).contains_key(k) implies map_of(after)[k] == want[k] by {
        let s = slot(after, k);
        let s0 = if s < i { s } else { s + 1 };
        assert(es[s0].key == k);
    }
    assert(map_of(after) =~= want);
}

proof fn lemma_insert<V: View>(es: Seq<IdEntry<V>>, i: int, e: IdEntry<V>)
    requires
        increasing(keys_of(es)),
        is_lower_bound(es, e.key, i),
        i < es.len() ==> es[i].key != e.key,
    ensures
        increasing(keys_of(es.insert(i, e))),
        map_of(es.insert(i, e)) == map_of(es).insert(e.key, e.value@),
{
    let after = es.insert(i, e);
    assert forall|a: int, b: int| 0 <= a < b < keys_of(after).len() implies keys_of(after)[a]
        < keys_of(after)[b] by {
        let a0 = if a < i { a } else { a - 1 };
        let b0 = if b < i { b } else { b - 1 };
        if a != i && b != i {
            assert(keys_of(es)[a0] < keys_of(es)[b0]);
        } else if a == i {
            assert(es[b0].key == after[b].key);
            if b0 > i {
                assert(keys_of(es)[i] < keys_of(es)[b0]);
            }
        } else {
            assert(es[a0].key == after[a].key);
        }
    }
    lemma_entries(es);
    lemma_entries(after);
    let want = map_of(es).insert(e.key, e.value@);
    assert forall|k: u16| map_of(after).contains_key(k) <==> want.contains_key(k) by {
        if map_of(after).contains_key(k) {
            let s = slot(after, k);
            if s != i {
                let s0 = if s < i { s } else { s - 1 };
                assert(es[s0].key == k);
            }
        }
        if want.contains_key(k) && k != e.key {
            let s = slot(es, k);
            assert(es[s].key == k);
            let s1 = if s < i { s } else { s + 1 };
            assert(after[s1].key == k);
        }
        if k == e.key {
            assert(after[i].key == k);
        }
    }
    assert forall|k: u16| map_of(after).contains_key(k) implies map_of(after)[k] == want[k] by {
        let s = slot(after, k);
        if s != i {
            let s0 = if s < i { s } else { s - 1 };
            assert(es[s0].key == k);
            assert(keys_of(after)[s] == k);
            if k == e.key {
                assert(keys_of(after)[i] == k);
                if s < i {
                    assert(keys_of(after)[s] < keys_of(after)[i]);
                } else {
                    assert(keys_of(after)[i] < keys_of(after)[s]);
                }
            }
        } else {
            assert(after[i].key == e.key);
        }
    }
    assert(map_of(after) =~= want);
}

impl<V: View> View for IdMap<V> {
    type V = Map<u16, V::V>;

    closed spec fn view(&self) -> Map<u16, V::V> {
        map_of(self.entries@)
    }
}

impl<V> IdMap<V> {
    #[verifier::type_invariant]
    spec fn well_formed(&self) -> bool {
        increasing(keys_of(self.entries@))
    }
}

impl<V: Clone> Clone for IdMap<V> {
    /// A map of the same keys, each with a clone of its value.
    fn clone(&self) -> (r: Self)
        ensures
            r.keys() == self.keys(),
    {
        proof {
            use_type_invariant(self);
        }
        let mut entries: Vec<IdEntry<V>> = Vec::with_capacity(self.entries.len());
        let mut i: usize = 0;
        while i < self.entries.len()
            invariant
                i <= self.entries@.len(),
                entries@.len() == i,
                forall|j: int| 0 <= j < i ==> entries@[j].key == self.entries@[j].key,
            decreases self.entries@.len() - i,
        {
            let e = &self.entries[i];
            entries.push(IdEntry { key: e.key, value: e.value.clone() });
            i = i + 1;
        }
        proof {
            assert forall|a: int, b: int| 0 <= a < b < keys_of(entries@).len() implies keys_of(
                entries@,
            )[a] < keys_of(entries@)[b] by {
                assert(keys_of(self.entries@)[a] < keys_of(self.entries@)[b]);
            }
            assert(keys_of(entries@) =~= keys_of(self.entries@));
        }
        Self { entries }
    }
}

impl<V> IdMap<V> {
    /// The keys, in rising order.
    pub closed spec fn keys(&self) -> Seq<u16> {
        keys_of(self.entries@)
    }
}

impl<V: View> IdMap<V> {
    pub fn new() -> (r: Self)
        ensures
            r@ == Map::<u16, V::V>::empty(),
    {
        let r = Self { entries: Vec::new() };
        assert(r@ =~= Map::<u16, V::V>::empty());
        r
    }

    /// The number of keys.
    pub fn len(&self) -> (n: usize)
        ensures
            n == sorted_keys(self@.dom()).len(),
            n <= 65536,
            self.keys() == sorted_keys(self@.dom()),
    {
        proof {
            use_type_invariant(self);
            lemma_entries(self.entries@);
        }
        self.entries.len()
    }

    pub fn is_empty(&self) -> (b: bool)
        ensures
            b == (sorted_keys(self@.dom()).len() == 0),
            b == (self@ == Map::<u16, V::V>::empty()),
    {
        proof {
            use_type_invariant(self);
            lemma_entries(self.entries@);
            if self.entries@.len() == 0 {
                assert(self@ =~= Map::<u16, V::V>::empty());
            } else {
                assert(self@.contains_key(self.entries@[0].key));
            }
        }
        self.entries.len() == 0
    }

    pub fn clear(&mut self)
        ensures
            final(self)@ == Map::<u16, V::V>::empty(),
    {
        self.entries = Vec::new();
        assert(self@ =~= Map::<u16, V::V>::empty());
    }

    /// The `i`-th key in rising order.
    pub fn key_at(&self, i: usize) -> (k: u16)
        requires
            i < sorted_keys(self@.dom()).len(),
        ensures
            k == sorted_keys(self@.dom())[i as int],
            self@.contains_key(k),
    {
        proof {
            use_type_invariant(self);
            lemma_entries(self.entries@);
            assert(keys_of(self.entries@)[i as int] == self.entries@[i as int].key);
        }
        self.entries[i].key
    }

    /// The value of the `i`-th key in rising order.
    pub fn value_at(&self, i: usize) -> (v: &V)
        requires
            i < sorted_keys(self@.dom()).len(),
        ensures
            v@ == self@[sorted_keys(self@.dom())[i as int]],
    {
        proof {
            use_type_invariant(self);
            lemma_entries(self.entries@);
            assert(keys_of(self.entries@)[i as int] == self.entries@[i as int].key);
        }
        &self.entries[i].value
    }

    /// The index of the first entry whose key is not below `key`.
    fn lower_bound(&self, key: u16) -> (i: usize)
        ensures
            is_lower_bound(self.entries@, key, i as int),
    {
        proof {
            use_type_invariant(self);
        }
        let mut i: usize = 0;
        while i < self.entries.len() && self.entries[i].key < key
            invariant
                i <= self.entries@.len(),
                forall|j: int| 0 <= j < i ==> self.entries@[j].key < key,
            decreases self.entries@.len() - i,
        {
            i = i + 1;
        }
        proof {
            assert forall|j: int| i <= j < self.entries@.len() implies self.entries@[j].key
                >= key by {
                if j > i {
                    assert(keys_of(self.entries@)[i as int] < keys_of(self.entries@)[j]);
                }
            }
        }
        i
    }

    pub fn contains_key(&self, key: u16) -> (b: bool)
        ensures
            b == self@.contains_key(key),
    {
        proof {
            use_type_invariant(self);
        }
        let i = self.lower_bound(key);
        proof {
            lemma_lookup(self.entries@, key, i as int);
        }
        i < self.entries.len() && self.entries[i].key == key
    }

    pub fn get(&self, key: u16) -> (r: Option<&V>)
        ensures
            match r {
                Some(v) => self@.contains_key(key) && self@[key] == v@,
                None => !self@.contains_key(key),
            },
    {
        proof {
            use_type_invariant(self);
        }
        let i = self.lower_bound(key);
        proof {
            lemma_lookup(self.entries@, key, i as int);
        }
        if i < self.entries.len() && self.entries[i].key == key {
            Some(&self.entries[i].value)
        } else {
            None
        }
    }

    /// The greatest key, if there is any key.
    pub fn max_key(&self) -> (r: Option<u16>)
        ensures
            match r {
                Some(k) => self@.contains_key(k) && forall|j: u16|
                    self@.contains_key(j) ==> j <= k,
                None => self@ == Map::<u16, V::V>::empty(),
            },
    {
        proof {
            use_type_invariant(self);
            lemma_entries(self.entries@);
        }
        let n = self.entries.len();
        if n == 0 {
            assert(self@ =~= Map::<u16, V::V>::empty());
            None
        } else {
            let k = self.entries[n - 1].key;
            proof {
                assert forall|j: u16| self@.contains_key(j) implies j <= k by {
                    let i = slot(self.entries@, j);
                    if i < n - 1 {
                        assert(keys_of(self.entries@)[i] < keys_of(self.entries@)[n - 1]);
                    }
                }
            }
            Some(k)
        }
    }

    /// Sets the value of `key`, whether or not it had one.
    pub fn insert(&mut self, key: u16, value: V)
        ensures
            final(self)@ == old(self)@.insert(key, value@),
    {
        proof {
            use_type_invariant(&*self);
        }
        let i = self.lower_bound(key);
        let mut entries: Vec<IdEntry<V>> = Vec::new();
        core::mem::swap(&mut self.entries, &mut entries);
        let ghost before = entries@;
        if i < entries.len() && entries[i].key == key {
            entries.remove(i);
            proof {
                lemma_remove(before, key, i as int);
            }
        }
        let ghost mid = entries@;
        let entry = IdEntry { key, value };
        entries.insert(i, entry);
        proof {
            lemma_insert(mid, i as int, entry);
            assert(map_of(before).remove(key).insert(key, entry.value@) =~= map_of(before).insert(
                key,
                entry.value@,
            ));
        }
        core::mem::swap(&mut self.entries, &mut entries);
    }

    /// Takes `key` and its value out, and returns the value if there was one.
    pub fn remove(&mut self, key: u16) -> (r: Option<V>)
        ensures
            final(self)@ == old(self)@.remove(key),
            match r {
                Some(v) => old(self)@.contains_key(key) && old(self)@[key] == v@,
                None => !old(self)@.contains_key(key),
            },
    {
        proof {
            use_type_invariant(&*self);
        }
        let i = self.lower_bound(key);
        proof {
            lemma_lookup(self.entries@, key, i as int);
        }
        if i < self.entries.len() && self.entries[i].key == key {
            let mut entries: Vec<IdEntry<V>> = Vec::new();
            core::mem::swap(&mut self.entries, &mut entries);
            let ghost before = entries@;
            let gone = entries.remove(i);
            proof {
                lemma_remove(before, key, i as int);
            }
            core::mem::swap(&mut self.entries, &mut entries);
            Some(gone.value)
        } else {
            proof {
                assert(self@ =~= self@.remove(key));
            }
            None
        }
    }
}

} // verus!

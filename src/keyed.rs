use vstd::prelude::*;

verus! {

/// The characters of each string.
pub open spec fn key_views(keys: Seq<String>) -> Seq<Seq<char>> {
    Seq::new(keys.len(), |i: int| keys[i]@)
}

/// No key occurs twice.
pub open spec fn keys_unique(keys: Seq<Seq<char>>) -> bool {
    forall|i: int, j: int| 0 <= i < j < keys.len() ==> #[trigger] keys[i] != #[trigger] keys[j]
}

/// The map that binds each key to the value at the same position.
pub open spec fn to_map<T>(keys: Seq<Seq<char>>, vals: Seq<T>) -> Map<Seq<char>, T>
    decreases keys.len(),
{
    if keys.len() == 0 || vals.len() == 0 {
        Map::empty()
    } else {
        to_map(keys.drop_last(), vals.drop_last()).insert(keys.last(), vals.last())
    }
}

proof fn lemma_to_map_index<T>(keys: Seq<Seq<char>>, vals: Seq<T>)
    requires
        keys.len() == vals.len(),
        keys_unique(keys),
    ensures
        forall|i: int| 0 <= i < keys.len() ==> #[trigger] to_map(keys, vals).contains_key(keys[i])
            && to_map(keys, vals)[keys[i]] == vals[i],
        forall|k: Seq<char>| #[trigger] to_map(keys, vals).contains_key(k) ==> exists|i: int|
            0 <= i < keys.len() && keys[i] == k,
    decreases keys.len(),
{
    if keys.len() > 0 {
        let pk = keys.drop_last();
        let pv = vals.drop_last();
        assert(keys_unique(pk)) by {
            assert forall|a: int, b: int| 0 <= a < b < pk.len() implies #[trigger] pk[a] != #[trigger] pk[b] by {
                assert(pk[a] == keys[a] && pk[b] == keys[b]);
            }
        }
        lemma_to_map_index(pk, pv);
        let m = to_map(pk, pv);
        assert(to_map(keys, vals) == m.insert(keys.last(), vals.last()));
        assert forall|i: int| 0 <= i < keys.len() implies #[trigger] to_map(keys, vals).contains_key(keys[i])
            && to_map(keys, vals)[keys[i]] == vals[i] by {
            if i < keys.len() - 1 {
                assert(pk[i] == keys[i]);
                assert(pv[i] == vals[i]);
                assert(m.contains_key(pk[i]));
                assert(keys[i] != keys[keys.len() - 1]);
            }
        }
        assert forall|k: Seq<char>| #[trigger] to_map(keys, vals).contains_key(k) implies exists|i: int|
            0 <= i < keys.len() && keys[i] == k by {
            if k != keys.last() {
                assert(m.contains_key(k));
                let i = choose|i: int| 0 <= i < pk.len() && pk[i] == k;
                assert(keys[i] == k);
            } else {
                assert(keys[keys.len() - 1] == k);
            }
        }
    }
}

proof fn lemma_to_map_remove<T>(keys: Seq<Seq<char>>, vals: Seq<T>, i: int)
    requires
        keys.len() == vals.len(),
        keys_unique(keys),
        0 <= i < keys.len(),
    ensures
        to_map(keys.remove(i), vals.remove(i)) == to_map(keys, vals).remove(keys[i]),
    decreases keys.len(),
{
    let n = keys.len();
    let pk = keys.drop_last();
    let pv = vals.drop_last();
    if i == n - 1 {
        assert(keys.remove(i) =~= pk);
        assert(vals.remove(i) =~= pv);
        lemma_to_map_index(pk, pv);
        assert(!to_map(pk, pv).contains_key(keys[i]));
        assert(to_map(pk, pv) =~= to_map(keys, vals).remove(keys[i]));
    } else {
        lemma_to_map_remove(pk, pv, i);
        let rk = keys.remove(i);
        let rv = vals.remove(i);
        assert(rk.drop_last() =~= pk.remove(i));
        assert(rv.drop_last() =~= pv.remove(i));
        assert(rk.last() == keys.last());
        assert(rv.last() == vals.last());
        assert(keys[i] != keys[n - 1]);
        assert(to_map(rk, rv) =~= to_map(keys, vals).remove(keys[i]));
    }
}

/// Values under unique string keys.
pub struct Keyed<T> {
    keys: Vec<String>,
    vals: Vec<T>,
}

impl<T> View for Keyed<T> {
    type V = Map<Seq<char>, T>;

    closed spec fn view(&self) -> Map<Seq<char>, T> {
        to_map(key_views(self.keys@), self.vals@)
    }
}

impl<T> Keyed<T> {
    /// Keys and values line up and no key occurs twice.
    pub closed spec fn wf(&self) -> bool {
        self.keys@.len() == self.vals@.len() && keys_unique(key_views(self.keys@))
    }

    /// The stored values, in storage order.
    pub closed spec fn values_view(&self) -> Seq<T> {
        self.vals@
    }

    /// The keys, in storage order, lined up with `values_view`.
    pub closed spec fn keys_view(&self) -> Seq<Seq<char>> {
        key_views(self.keys@)
    }

    /// The value at each position is bound to the key at that position, and
    /// every bound key is stored at some position.
    pub proof fn lemma_values(&self)
        requires
            self.wf(),
        ensures
            self.keys_view().len() == self.values_view().len(),
            forall|i: int| 0 <= i < self.keys_view().len() ==> #[trigger] self@.contains_key(self.keys_view()[i])
                && self@[self.keys_view()[i]] == self.values_view()[i],
            forall|k: Seq<char>| #[trigger] self@.contains_key(k) ==> exists|i: int|
                0 <= i < self.keys_view().len() && self.keys_view()[i] == k,
    {
        let ks = key_views(self.keys@);
        lemma_to_map_index(ks, self.vals@);
        assert forall|k: Seq<char>| #[trigger] self@.contains_key(k) implies exists|i: int|
            0 <= i < self.keys_view().len() && self.keys_view()[i] == k by {
            let i = choose|i: int| 0 <= i < ks.len() && ks[i] == k;
            assert(self.keys_view()[i] == k);
        }
    }

    /// No key is stored at two positions.
    pub proof fn lemma_keys_unique(&self)
        requires
            self.wf(),
        ensures
            keys_unique(self.keys_view()),
    {
    }

    /// Nothing stored.
    pub fn new() -> (r: Keyed<T>)
        ensures
            r.wf(),
            r@ == Map::<Seq<char>, T>::empty(),
            r.values_view().len() == 0,
    {
        let r = Keyed { keys: Vec::new(), vals: Vec::new() };
        assert(key_views(r.keys@) =~= Seq::<Seq<char>>::empty());
        r
    }

    fn index_of(&self, k: &String) -> (r: Option<usize>)
        requires
            self.wf(),
        ensures
            match r {
                Some(i) => i < self.keys@.len() && self.keys@[i as int]@ == k@,
                None => !self@.contains_key(k@),
            },
    {
        let mut i: usize = 0;
        while i < self.keys.len()
            invariant
                i <= self.keys@.len(),
                forall|j: int| 0 <= j < i ==> self.keys@[j]@ != k@,
            decreases self.keys@.len() - i,
        {
            if self.keys[i] == *k {
                return Some(i);
            }
            i = i + 1;
        }
        proof {
            lemma_to_map_index(key_views(self.keys@), self.vals@);
            if self@.contains_key(k@) {
                let j = choose|j: int| 0 <= j < self.keys@.len() && key_views(self.keys@)[j] == k@;
                assert(self.keys@[j]@ == k@);
            }
        }
        None
    }

    /// The value under `k`, if any.
    pub fn get(&self, k: &String) -> (r: Option<&T>)
        requires
            self.wf(),
        ensures
            r is Some <==> self@.contains_key(k@),
            r is Some ==> r->Some_0 == self@[k@],
    {
        match self.index_of(k) {
            Some(i) => {
                proof {
                    lemma_to_map_index(key_views(self.keys@), self.vals@);
                    assert(key_views(self.keys@)[i as int] == k@);
                    assert(to_map(key_views(self.keys@), self.vals@).contains_key(key_views(self.keys@)[i as int]));
                }
                Some(&self.vals[i])
            },
            None => None,
        }
    }

    /// The stored values, in storage order.
    pub fn values(&self) -> (r: &Vec<T>)
        ensures
            r@ == self.values_view(),
    {
        &self.vals
    }

    /// Removes and returns the value under `k`, if any.
    pub fn take(&mut self, k: &String) -> (r: Option<T>)
        requires
            old(self).wf(),
        ensures
            final(self).wf(),
            r is Some <==> old(self)@.contains_key(k@),
            r is Some ==> r->Some_0 == old(self)@[k@],
            final(self)@ == old(self)@.remove(k@),
    {
        match self.index_of(k) {
            Some(i) => {
                let ghost ok = key_views(self.keys@);
                let ghost ov = self.vals@;
                proof {
                    lemma_to_map_index(ok, ov);
                    lemma_to_map_remove(ok, ov, i as int);
                    assert(ok[i as int] == k@);
                    assert(to_map(ok, ov).contains_key(ok[i as int]));
                }
                self.keys.remove(i);
                let v = self.vals.remove(i);
                assert(key_views(self.keys@) =~= ok.remove(i as int));
                assert forall|a: int, b: int| 0 <= a < b < key_views(self.keys@).len() implies
                    #[trigger] key_views(self.keys@)[a] != #[trigger] key_views(self.keys@)[b] by {
                    let a2 = if a < i { a } else { a + 1 };
                    let b2 = if b < i { b } else { b + 1 };
                    assert(key_views(self.keys@)[a] == ok[a2]);
                    assert(key_views(self.keys@)[b] == ok[b2]);
                }
                Some(v)
            },
            None => {
                assert(self@ =~= old(self)@.remove(k@));
                None
            },
        }
    }

    /// Binds `v` to `k`, in place of any value `k` had.
    pub fn put(&mut self, k: String, v: T)
        requires
            old(self).wf(),
        ensures
            final(self).wf(),
            final(self)@ == old(self)@.insert(k@, v),
    {
        let _ = self.take(&k);
        let ghost mid = self@;
        let ghost ok = key_views(self.keys@);
        proof {
            lemma_to_map_index(ok, self.vals@);
        }
        let ghost kv = k@;
        let ghost mv = self.vals@;
        self.keys.push(k);
        self.vals.push(v);
        assert(key_views(self.keys@) =~= ok.push(kv));
        assert(key_views(self.keys@).drop_last() =~= ok);
        assert(self.vals@.drop_last() =~= mv);
        assert(self@ == mid.insert(kv, v));
        assert forall|a: int, b: int| 0 <= a < b < key_views(self.keys@).len() implies
            #[trigger] key_views(self.keys@)[a] != #[trigger] key_views(self.keys@)[b] by {
            if b == ok.len() {
                assert(key_views(self.keys@)[a] == ok[a]);
                assert(mid.contains_key(ok[a]));
            } else {
                assert(key_views(self.keys@)[a] == ok[a]);
                assert(key_views(self.keys@)[b] == ok[b]);
            }
        }
        assert(self@ =~= old(self)@.insert(kv, v));
    }
}

} // verus!

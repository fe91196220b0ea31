//! A map keyed by strings, kept as a vector of distinct keys beside a vector
//! of values. It stands where the routing tables keep a `HashMap<String, _>`;
//! its order of entries is its own and stands for the hash map's order of
//! iteration.
use vstd::prelude::*;
use crate::text::str_eq;

verus! {

/// The character sequences of a sequence of strings.
pub open spec fn strs_view(v: Seq<String>) -> Seq<Seq<char>> {
    v.map_values(|s: String| s@)
}

/// The set of character sequences in a vector of strings.
pub open spec fn str_set(v: Seq<String>) -> Set<Seq<char>> {
    strs_view(v).to_set()
}

/// Whether `needle` occurs in `v`.
pub fn contains_str(v: &Vec<String>, needle: &str) -> (b: bool)
    ensures
        b == str_set(v@).contains(needle@),
{
    let mut i: usize = 0;
    while i < v.len()
        invariant
            i <= v@.len(),
            forall|j: int| 0 <= j < i ==> v@[j]@ != needle@,
        decreases v@.len() - i,
    {
        if str_eq(v[i].as_str(), needle) {
            assert(strs_view(v@)[i as int] == needle@);
            return true;
        }
        i = i + 1;
    }
    assert(!strs_view(v@).contains(needle@));
    false
}

/// Copies a vector of strings.
pub fn clone_strs(v: &Vec<String>) -> (r: Vec<String>)
    ensures
        strs_view(r@) == strs_view(v@),
{
    let mut r: Vec<String> = Vec::new();
    let mut i: usize = 0;
    while i < v.len()
        invariant
            i <= v@.len(),
            strs_view(r@) == strs_view(v@).take(i as int),
        decreases v@.len() - i,
    {
        let c = v[i].clone();
        let ghost r0 = r@;
        r.push(c);
        proof {
            assert(r@ == r0.push(c));
            assert(strs_view(r@) =~= strs_view(r0).push(c@));
            assert(strs_view(v@).take(i + 1) =~= strs_view(v@).take(i as int).push(v@[i as int]@));
        }
        i = i + 1;
    }
    assert(strs_view(v@).take(v@.len() as int) =~= strs_view(v@));
    r
}

/// No two strings of `s` hold the same characters.
pub open spec fn distinct_views(s: Seq<String>) -> bool {
    forall|i: int, j: int| #![trigger s[i], s[j]] 0 <= i < s.len() && 0 <= j < s.len() && i != j ==> s[i]@ != s[j]@
}

pub struct StrMap<V> {
    keys: Vec<String>,
    vals: Vec<V>,
}

impl<V> View for StrMap<V> {
    type V = Map<Seq<char>, V>;

    closed spec fn view(&self) -> Map<Seq<char>, V> {
        Map::new(
            |k: Seq<char>| exists|i: int| 0 <= i < self.keys@.len() && self.keys@[i]@ == k,
            |k: Seq<char>| self.vals@[choose|i: int| 0 <= i < self.keys@.len() && self.keys@[i]@ == k],
        )
    }
}

impl<V> StrMap<V> {
    /// The keys in the map's own order of entries.
    pub closed spec fn key_seq(&self) -> Seq<Seq<char>> {
        strs_view(self.keys@)
    }

    /// Well-formed: one value per key, no key twice.
    pub closed spec fn wf(&self) -> bool {
        &&& self.keys@.len() == self.vals@.len()
        &&& distinct_views(self.keys@)
    }

    proof fn lemma_view(&self)
        requires
            self.wf(),
        ensures
            forall|i: int| 0 <= i < self.keys@.len() ==> #[trigger] self@.contains_key(self.keys@[i]@) && self@[self.keys@[i]@] == self.vals@[i],
            forall|k: Seq<char>| #[trigger] self@.contains_key(k) <==> self.key_seq().contains(k),
            self.key_seq().no_duplicates(),
            self.key_seq().len() == self.vals@.len(),
            self@.dom().finite(),
    {
        assert forall|i: int| 0 <= i < self.keys@.len() implies #[trigger] self@.contains_key(self.keys@[i]@) && self@[self.keys@[i]@] == self.vals@[i] by {
            let k = self.keys@[i]@;
            assert(self@.dom().contains(k));
            let j = choose|j: int| 0 <= j < self.keys@.len() && self.keys@[j]@ == k;
            if j != i {
                assert(self.keys@[j]@ != self.keys@[i]@);
            }
        }
        assert forall|k: Seq<char>| #[trigger] self@.contains_key(k) <==> self.key_seq().contains(k) by {
            if self@.contains_key(k) {
                let j = choose|j: int| 0 <= j < self.keys@.len() && self.keys@[j]@ == k;
                assert(self.key_seq()[j] == k);
            }
            if self.key_seq().contains(k) {
                let j = choose|j: int| 0 <= j < self.key_seq().len() && self.key_seq()[j] == k;
                assert(self.keys@[j]@ == k);
            }
        }
        assert forall|i: int, j: int| 0 <= i < self.key_seq().len() && 0 <= j < self.key_seq().len() && i != j implies self.key_seq()[i] != self.key_seq()[j] by {
            assert(self.keys@[i]@ != self.keys@[j]@);
        }
        assert(self@.dom() =~= self.key_seq().to_set());
    }

    /// The keys of a well-formed map are exactly its domain, each once.
    pub proof fn lemma_key_seq(&self)
        requires
            self.wf(),
        ensures
            self.key_seq().no_duplicates(),
            self.key_seq().to_set() == self@.dom(),
            self@.dom().finite(),
    {
        self.lemma_view();
        assert(self.key_seq().to_set() =~= self@.dom());
    }

    pub fn new() -> (m: Self)
        ensures
            m.wf(),
            m@ == Map::<Seq<char>, V>::empty(),
            m.key_seq() == Seq::<Seq<char>>::empty(),
    {
        let m = StrMap { keys: Vec::new(), vals: Vec::new() };
        assert(m@ =~= Map::<Seq<char>, V>::empty());
        assert(m.key_seq() =~= Seq::<Seq<char>>::empty());
        m
    }

    pub fn len(&self) -> (n: usize)
        requires
            self.wf(),
        ensures
            n == self@.len(),
            n == self.key_seq().len(),
    {
        proof {
            self.lemma_key_seq();
            self.key_seq().unique_seq_to_set();
        }
        self.keys.len()
    }

    pub fn is_empty(&self) -> (b: bool)
        requires
            self.wf(),
        ensures
            b == self@.is_empty(),
    {
        proof {
            self.lemma_view();
            if self.keys@.len() > 0 {
                assert(self@.contains_key(self.keys@[0]@));
                assert(self@.dom().contains(self.keys@[0]@));
            } else {
                assert forall|k: Seq<char>| !self@.dom().contains(k) by {
                    assert(!self.key_seq().contains(k));
                }
                assert(self@.dom() =~= Set::<Seq<char>>::empty());
            }
        }
        self.keys.len() == 0
    }

    fn find(&self, key: &str) -> (r: Option<usize>)
        requires
            self.wf(),
        ensures
            match r {
                Some(i) => i < self.keys@.len() && self.keys@[i as int]@ == key@,
                None => !self@.contains_key(key@),
            },
    {
        let mut i: usize = 0;
        while i < self.keys.len()
            invariant
                self.wf(),
                i <= self.keys@.len(),
                forall|j: int| 0 <= j < i ==> self.keys@[j]@ != key@,
            decreases self.keys@.len() - i,
        {
            if str_eq(self.keys[i].as_str(), key) {
                return Some(i);
            }
            i = i + 1;
        }
        None
    }

    /// The value under `key`, if any.
    pub fn get(&self, key: &str) -> (r: Option<&V>)
        requires
            self.wf(),
        ensures
            r is Some <==> self@.contains_key(key@),
            r matches Some(v) ==> *v == self@[key@],
    {
        proof {
            self.lemma_view();
        }
        match self.find(key) {
            Some(i) => Some(&self.vals[i]),
            None => None,
        }
    }

    /// Sets the value under `key`; a new key goes after the others.
    pub fn insert(&mut self, key: String, val: V)
        requires
            old(self).wf(),
        ensures
            final(self).wf(),
            final(self)@ == old(self)@.insert(key@, val),
    {
        proof {
            self.lemma_view();
        }
        match self.find(key.as_str()) {
            Some(i) => {
                assert(old(self)@.contains_key(old(self).keys@[i as int]@));
                self.vals.set(i, val);
                proof {
                    assert(self.keys@ == old(self).keys@);
                    old(self).lemma_view();
                    self.lemma_view();
                    assert(self.key_seq() == old(self).key_seq());
                    assert(old(self)@.contains_key(key@));
                    assert forall|k: Seq<char>| #[trigger] self@.contains_key(k) <==> old(self)@.contains_key(k) by {
                        assert(self@.contains_key(k) <==> self.key_seq().contains(k));
                        assert(old(self)@.contains_key(k) <==> old(self).key_seq().contains(k));
                    }
                    assert(old(self)@.insert(key@, val).dom() =~= old(self)@.dom());
                    assert forall|k: Seq<char>| #[trigger] self@.contains_key(k) implies self@[k] == old(self)@.insert(key@, val)[k] by {
                        let j = choose|j: int| 0 <= j < self.key_seq().len() && self.key_seq()[j] == k;
                        assert(self.keys@[j]@ == k);
                    }
                    assert(self@ =~= old(self)@.insert(key@, val));
                }
            },
            None => {
                self.keys.push(key);
                self.vals.push(val);
                proof {
                    assert(self.wf());
                    old(self).lemma_view();
                    self.lemma_view();
                    assert(self.key_seq() =~= old(self).key_seq().push(key@));
                    assert forall|k: Seq<char>| #[trigger] self@.contains_key(k) <==> old(self)@.insert(key@, val).contains_key(k) by {
                        assert(self@.contains_key(k) <==> self.key_seq().contains(k));
                        assert(old(self)@.contains_key(k) <==> old(self).key_seq().contains(k));
                        if self.key_seq().contains(k) && k != key@ {
                            let j = choose|j: int| 0 <= j < self.key_seq().len() && self.key_seq()[j] == k;
                            assert(old(self).key_seq()[j] == k);
                        }
                        if old(self).key_seq().contains(k) {
                            let j = choose|j: int| 0 <= j < old(self).key_seq().len() && old(self).key_seq()[j] == k;
                            assert(self.key_seq()[j] == k);
                        }
                        if k == key@ {
                            assert(self.key_seq()[old(self).key_seq().len() as int] == k);
                        }
                    }
                    assert forall|k: Seq<char>| #[trigger] self@.contains_key(k) implies self@[k] == old(self)@.insert(key@, val)[k] by {
                        let j = choose|j: int| 0 <= j < self.key_seq().len() && self.key_seq()[j] == k;
                        assert(self.keys@[j]@ == k);
                        if j < old(self).keys@.len() {
                            assert(old(self).keys@[j]@ == k);
                        }
                    }
                    assert(self@ =~= old(self)@.insert(key@, val));
                }
            },
        }
    }

    /// Removes the entry under `key`, if any.
    pub fn remove(&mut self, key: &str)
        requires
            old(self).wf(),
        ensures
            final(self).wf(),
            final(self)@ == old(self)@.remove(key@),
    {
        proof {
            self.lemma_view();
        }
        match self.find(key) {
            Some(i) => {
                let ghost old_keys = self.keys@;
                let ghost old_vals = self.vals@;
                let _ = self.keys.remove(i);
                let _ = self.vals.remove(i);
                proof {
                    assert forall|a: int, b: int| 0 <= a < self.keys@.len() && 0 <= b < self.keys@.len() && a != b implies self.keys@[a]@ != self.keys@[b]@ by {
                        let a0 = if a < i { a } else { a + 1 };
                        let b0 = if b < i { b } else { b + 1 };
                        assert(self.keys@[a] == old_keys[a0]);
                        assert(self.keys@[b] == old_keys[b0]);
                    }
                    self.lemma_view();
                    assert forall|k: Seq<char>| #[trigger] self@.contains_key(k) <==> old(self)@.remove(key@).contains_key(k) by {
                        if self@.contains_key(k) {
                            let j = choose|j: int| 0 <= j < self.key_seq().len() && self.key_seq()[j] == k;
                            let j0 = if j < i { j } else { j + 1 };
                            assert(self.keys@[j] == old_keys[j0]);
                            assert(old(self)@.contains_key(old_keys[j0]@));
                            if k == key@ {
                                assert(old_keys[j0]@ != old_keys[i as int]@);
                            }
                        }
                        if old(self)@.remove(key@).contains_key(k) {
                            let j = choose|j: int| 0 <= j < old(self).key_seq().len() && old(self).key_seq()[j] == k;
                            assert(j != i);
                            let j1 = if j < i { j } else { j - 1 };
                            assert(self.keys@[j1] == old_keys[j]);
                            assert(self.key_seq()[j1] == k);
                        }
                    }
                    assert forall|k: Seq<char>| #[trigger] self@.contains_key(k) implies self@[k] == old(self)@.remove(key@)[k] by {
                        let j = choose|j: int| 0 <= j < self.key_seq().len() && self.key_seq()[j] == k;
                        let j0 = if j < i { j } else { j + 1 };
                        assert(self.keys@[j] == old_keys[j0]);
                        assert(self.vals@[j] == old_vals[j0]);
                        assert(self.keys@[j]@ == k);
                    }
                    assert(self@ =~= old(self)@.remove(key@));
                }
            },
            None => {
                assert(self@ =~= old(self)@.remove(key@));
            },
        }
    }

    /// The keys whose entry is marked in `mask` (entry `i` by `mask[i]`).
    closed spec fn marked_keys(&self, mask: Seq<bool>) -> Set<Seq<char>> {
        Set::new(|k: Seq<char>| exists|i: int| 0 <= i < self.keys@.len() && self.keys@[i]@ == k && mask[i])
    }

    /// Keeps the entries marked in `mask`.
    fn retain_marked(&mut self, mask: &Vec<bool>)
        requires
            old(self).wf(),
            mask@.len() == old(self).keys@.len(),
        ensures
            final(self).wf(),
            final(self)@ == old(self)@.restrict(old(self).marked_keys(mask@)),
    {
        let ghost old_map = self@;
        let ghost valid_set = self.marked_keys(mask@);
        proof {
            self.lemma_view();
        }
        let mut keys: Vec<String> = Vec::new();
        let mut vals: Vec<V> = Vec::new();
        std::mem::swap(&mut keys, &mut self.keys);
        std::mem::swap(&mut vals, &mut self.vals);
        let ghost old_keys = keys@;
        let ghost old_vals = vals@;
        proof {
            assert forall|b: int| 0 <= b < old_keys.len() implies (valid_set.contains(#[trigger] old_keys[b]@) <==> mask@[b]) by {
                if valid_set.contains(old_keys[b]@) {
                    let i = choose|i: int| 0 <= i < old_keys.len() && old_keys[i]@ == old_keys[b]@ && mask@[i];
                    if i != b {
                        assert(old_keys[i]@ != old_keys[b]@);
                    }
                }
            }
        }
        let mut new_keys: Vec<String> = Vec::new();
        let mut new_vals: Vec<V> = Vec::new();
        while keys.len() > 0
            invariant
                mask@.len() == old_keys.len(),
                forall|b: int| 0 <= b < old_keys.len() ==> (valid_set.contains(#[trigger] old_keys[b]@) <==> mask@[b]),
                old_keys.len() == old_vals.len(),
                keys@.len() <= old_keys.len(),
                keys@ == old_keys.take(keys@.len() as int),
                vals@ == old_vals.take(keys@.len() as int),
                new_keys@.len() == new_vals@.len(),
                distinct_views(old_keys),
                distinct_views(new_keys@),
                forall|b: int| 0 <= b < old_keys.len() ==> #[trigger] old_map.contains_key(old_keys[b]@) && old_map[old_keys[b]@] == old_vals[b],
                forall|a: int| #![trigger new_keys@[a]] 0 <= a < new_keys@.len() ==> {
                    &&& valid_set.contains(new_keys@[a]@)
                    &&& old_map.contains_key(new_keys@[a]@)
                    &&& old_map[new_keys@[a]@] == new_vals@[a]
                    &&& exists|b: int| keys@.len() <= b < old_keys.len() && #[trigger] old_keys[b]@ == new_keys@[a]@
                },
                forall|b: int| #![trigger old_keys[b]] keys@.len() <= b < old_keys.len() && valid_set.contains(old_keys[b]@) ==>
                    exists|a: int| 0 <= a < new_keys@.len() && #[trigger] new_keys@[a]@ == old_keys[b]@,
            decreases keys@.len(),
        {
            let ghost m = keys@.len() - 1;
            let k = keys.pop().unwrap();
            let v = vals.pop().unwrap();
            assert(k == old_keys[m]);
            assert(v == old_vals[m]);
            assert(keys@ =~= old_keys.take(m));
            assert(vals@ =~= old_vals.take(m));
            let keep = mask[keys.len()];
            assert(keep == valid_set.contains(k@));
            if keep {
                let ghost nk = new_keys@;
                let ghost nv = new_vals@;
                proof {
                    assert forall|a: int| 0 <= a < nk.len() implies #[trigger] nk[a]@ != k@ by {
                        let b = choose|b: int| m < b < old_keys.len() && #[trigger] old_keys[b]@ == nk[a]@;
                        assert(old_keys[b]@ != old_keys[m]@);
                    }
                    assert(old_map.contains_key(old_keys[m]@));
                }
                new_keys.push(k);
                new_vals.push(v);
                proof {
                    assert(new_keys@[nk.len() as int] == k);
                    assert forall|a: int| #![trigger new_keys@[a]] 0 <= a < new_keys@.len() implies {
                        &&& valid_set.contains(new_keys@[a]@)
                        &&& old_map.contains_key(new_keys@[a]@)
                        &&& old_map[new_keys@[a]@] == new_vals@[a]
                        &&& exists|b: int| keys@.len() <= b < old_keys.len() && #[trigger] old_keys[b]@ == new_keys@[a]@
                    } by {
                        if a < nk.len() {
                            assert(new_keys@[a] == nk[a]);
                            assert(new_vals@[a] == nv[a]);
                            assert(nk[a] == nk[a]);
                            let b = choose|b: int| m + 1 <= b < old_keys.len() && #[trigger] old_keys[b]@ == nk[a]@;
                            assert(old_keys[b]@ == new_keys@[a]@);
                        } else {
                            assert(old_keys[m]@ == new_keys@[a]@);
                        }
                    }
                    assert forall|b: int| #![trigger old_keys[b]] keys@.len() <= b < old_keys.len() && valid_set.contains(old_keys[b]@) implies
                        exists|a: int| 0 <= a < new_keys@.len() && #[trigger] new_keys@[a]@ == old_keys[b]@ by {
                        if b == m {
                            assert(new_keys@[nk.len() as int]@ == old_keys[b]@);
                        } else {
                            let a = choose|a: int| 0 <= a < nk.len() && #[trigger] nk[a]@ == old_keys[b]@;
                            assert(new_keys@[a] == nk[a]);
                        }
                    }
                }
            } else {
                proof {
                    assert forall|b: int| #![trigger old_keys[b]] keys@.len() <= b < old_keys.len() && valid_set.contains(old_keys[b]@) implies
                        exists|a: int| 0 <= a < new_keys@.len() && #[trigger] new_keys@[a]@ == old_keys[b]@ by {
                        if b == m {
                            assert(!valid_set.contains(k@));
                        } else {
                            assert(old_keys[b] == old_keys[b]);
                        }
                    }
                }
            }
        }
        self.keys = new_keys;
        self.vals = new_vals;
        proof {
            self.lemma_view();
            let target = old_map.restrict(old(self).marked_keys(mask@));
            assert forall|k: Seq<char>| #[trigger] self@.contains_key(k) <==> target.contains_key(k) by {
                if target.contains_key(k) {
                    let b = choose|b: int| 0 <= b < old(self).key_seq().len() && old(self).key_seq()[b] == k;
                    assert(old_keys[b]@ == k);
                    let a = choose|a: int| 0 <= a < self.keys@.len() && #[trigger] self.keys@[a]@ == old_keys[b]@;
                    assert(self.key_seq()[a] == k);
                }
                if self@.contains_key(k) {
                    let a = choose|a: int| 0 <= a < self.key_seq().len() && self.key_seq()[a] == k;
                    assert(self.keys@[a]@ == k);
                }
            }
            assert forall|k: Seq<char>| #[trigger] self@.contains_key(k) implies self@[k] == target[k] by {
                let a = choose|a: int| 0 <= a < self.key_seq().len() && self.key_seq()[a] == k;
                assert(self.keys@[a]@ == k);
            }
            assert(self@ =~= target);
        }
    }

    /// Keeps only the entries whose key occurs in `valid`.
    pub fn retain_keys_in(&mut self, valid: &Vec<String>)
        requires
            old(self).wf(),
        ensures
            final(self).wf(),
            final(self)@ == old(self)@.restrict(str_set(valid@)),
    {
        let mut mask: Vec<bool> = Vec::new();
        let mut i: usize = 0;
        while i < self.keys.len()
            invariant
                i <= self.keys@.len(),
                mask@.len() == i,
                forall|j: int| 0 <= j < i ==> mask@[j] == str_set(valid@).contains(#[trigger] self.keys@[j]@),
            decreases self.keys@.len() - i,
        {
            let keep = contains_str(valid, self.keys[i].as_str());
            mask.push(keep);
            i = i + 1;
        }
        proof {
            self.lemma_view();
            let ks = self.marked_keys(mask@);
            assert forall|k: Seq<char>| self@.contains_key(k) implies (ks.contains(k) <==> str_set(valid@).contains(k)) by {
                let j = choose|j: int| 0 <= j < self.key_seq().len() && self.key_seq()[j] == k;
                assert(self.keys@[j]@ == k);
                if ks.contains(k) {
                    let i = choose|i: int| 0 <= i < self.keys@.len() && self.keys@[i]@ == k && mask@[i];
                    if i != j {
                        assert(self.keys@[i]@ != self.keys@[j]@);
                    }
                }
            }
            assert(self@.restrict(ks) =~= self@.restrict(str_set(valid@)));
        }
        self.retain_marked(&mask);
    }

    /// Takes the map apart into its keys and values, entry by entry.
    pub fn into_entries(self) -> (r: (Vec<String>, Vec<V>))
        requires
            self.wf(),
        ensures
            strs_view(r.0@) == self.key_seq(),
            distinct_views(r.0@),
            r.1@.len() == r.0@.len(),
            forall|i: int| 0 <= i < r.0@.len() ==> #[trigger] self@[r.0@[i]@] == r.1@[i],
    {
        proof {
            self.lemma_view();
        }
        (self.keys, self.vals)
    }

    /// Builds a map from distinct keys and their values.
    pub fn from_entries(keys: Vec<String>, vals: Vec<V>) -> (m: Self)
        requires
            distinct_views(keys@),
            keys@.len() == vals@.len(),
        ensures
            m.wf(),
            m.key_seq() == strs_view(keys@),
            forall|i: int| 0 <= i < keys@.len() ==> #[trigger] m@.contains_key(keys@[i]@) && m@[keys@[i]@] == vals@[i],
            forall|k: Seq<char>| #[trigger] m@.contains_key(k) <==> strs_view(keys@).contains(k),
    {
        let m = StrMap { keys, vals };
        proof {
            m.lemma_view();
        }
        m
    }

    /// The keys, in the map's order of entries.
    pub fn keys(&self) -> (r: Vec<String>)
        requires
            self.wf(),
        ensures
            strs_view(r@) == self.key_seq(),
    {
        clone_strs(&self.keys)
    }
}

/// The keys of `m` whose value occurs in `valid`.
pub open spec fn keys_valued_in(m: Map<Seq<char>, String>, valid: Set<Seq<char>>) -> Set<Seq<char>> {
    m.dom().filter(|k: Seq<char>| valid.contains(m[k]@))
}

/// The keys of `m` whose value differs from `value`.
pub open spec fn keys_valued_other_than(m: Map<Seq<char>, String>, value: Seq<char>) -> Set<Seq<char>> {
    m.dom().filter(|k: Seq<char>| m[k]@ != value)
}

impl StrMap<String> {
    /// A copy of the map: the same keys, values with the same text.
    pub fn duplicate(&self) -> (m: Self)
        requires
            self.wf(),
        ensures
            m.wf(),
            m@.dom() == self@.dom(),
            forall|k: Seq<char>| #[trigger] m@.contains_key(k) ==> m@[k]@ == self@[k]@,
    {
        proof {
            self.lemma_view();
        }
        let keys = clone_strs(&self.keys);
        let vals = clone_strs(&self.vals);
        proof {
            assert(strs_view(vals@).len() == vals@.len());
            assert(strs_view(self.vals@).len() == self.vals@.len());
            assert(strs_view(keys@).len() == keys@.len());
            assert(strs_view(self.keys@).len() == self.keys@.len());
            assert forall|i: int| 0 <= i < keys@.len() implies #[trigger] keys@[i]@ == self.keys@[i]@ by {
                assert(strs_view(keys@)[i] == strs_view(self.keys@)[i]);
            }
            assert forall|i: int| 0 <= i < vals@.len() implies #[trigger] vals@[i]@ == self.vals@[i]@ by {
                assert(strs_view(vals@)[i] == strs_view(self.vals@)[i]);
            }
        }
        let m = StrMap { keys, vals };
        proof {
            assert(distinct_views(m.keys@));
            m.lemma_view();
            assert forall|k: Seq<char>| #[trigger] m@.contains_key(k) <==> self@.contains_key(k) by {
                assert(m.key_seq() =~= self.key_seq());
            }
            assert(m@.dom() =~= self@.dom());
            assert forall|k: Seq<char>| #[trigger] m@.contains_key(k) implies m@[k]@ == self@[k]@ by {
                let j = choose|j: int| 0 <= j < m.key_seq().len() && m.key_seq()[j] == k;
                assert(m.keys@[j]@ == k);
                assert(self.keys@[j]@ == k);
            }
        }
        m
    }

    /// Keeps only the entries whose value occurs in `valid`.
    pub fn retain_values_in(&mut self, valid: &Vec<String>)
        requires
            old(self).wf(),
        ensures
            final(self).wf(),
            final(self)@ == old(self)@.restrict(keys_valued_in(old(self)@, str_set(valid@))),
    {
        let mut mask: Vec<bool> = Vec::new();
        let mut i: usize = 0;
        while i < self.vals.len()
            invariant
                self.wf(),
                i <= self.vals@.len(),
                mask@.len() == i,
                forall|j: int| 0 <= j < i ==> mask@[j] == str_set(valid@).contains(#[trigger] self.vals@[j]@),
            decreases self.vals@.len() - i,
        {
            let keep = contains_str(valid, self.vals[i].as_str());
            mask.push(keep);
            i = i + 1;
        }
        proof {
            self.lemma_view();
            let ks = self.marked_keys(mask@);
            let target = keys_valued_in(self@, str_set(valid@));
            assert forall|k: Seq<char>| self@.contains_key(k) implies (ks.contains(k) <==> target.contains(k)) by {
                let j = choose|j: int| 0 <= j < self.key_seq().len() && self.key_seq()[j] == k;
                assert(self.keys@[j]@ == k);
                assert(self.vals@[j] == self@[k]);
                if ks.contains(k) {
                    let i = choose|i: int| 0 <= i < self.keys@.len() && self.keys@[i]@ == k && mask@[i];
                    if i != j {
                        assert(self.keys@[i]@ != self.keys@[j]@);
                    }
                }
            }
            assert(self@.restrict(ks) =~= self@.restrict(target));
        }
        self.retain_marked(&mask);
    }

    /// Removes every entry whose value is `value`.
    pub fn remove_entries_valued(&mut self, value: &str)
        requires
            old(self).wf(),
        ensures
            final(self).wf(),
            final(self)@ == old(self)@.restrict(keys_valued_other_than(old(self)@, value@)),
    {
        let mut mask: Vec<bool> = Vec::new();
        let mut i: usize = 0;
        while i < self.vals.len()
            invariant
                self.wf(),
                i <= self.vals@.len(),
                mask@.len() == i,
                forall|j: int| 0 <= j < i ==> mask@[j] == (#[trigger] self.vals@[j]@ != value@),
            decreases self.vals@.len() - i,
        {
            let keep = !str_eq(self.vals[i].as_str(), value);
            mask.push(keep);
            i = i + 1;
        }
        proof {
            self.lemma_view();
            let ks = self.marked_keys(mask@);
            let target = keys_valued_other_than(self@, value@);
            assert forall|k: Seq<char>| self@.contains_key(k) implies (ks.contains(k) <==> target.contains(k)) by {
                let j = choose|j: int| 0 <= j < self.key_seq().len() && self.key_seq()[j] == k;
                assert(self.keys@[j]@ == k);
                assert(self.vals@[j] == self@[k]);
                if ks.contains(k) {
                    let i = choose|i: int| 0 <= i < self.keys@.len() && self.keys@[i]@ == k && mask@[i];
                    if i != j {
                        assert(self.keys@[i]@ != self.keys@[j]@);
                    }
                }
            }
            assert(self@.restrict(ks) =~= self@.restrict(target));
        }
        self.retain_marked(&mask);
    }
}

/// The values listed under `order`, one list after another.
pub open spec fn flatten_lists(m: Map<Seq<char>, Vec<String>>, order: Seq<Seq<char>>) -> Seq<Seq<char>>
    decreases order.len(),
{
    if order.len() == 0 {
        Seq::empty()
    } else {
        flatten_lists(m, order.drop_last()) + strs_view(m[order.last()]@)
    }
}

impl StrMap<Vec<String>> {
    /// A copy of the map: the same keys, lists with the same strings.
    pub fn duplicate(&self) -> (m: Self)
        requires
            self.wf(),
        ensures
            m.wf(),
            m@.dom() == self@.dom(),
            forall|k: Seq<char>| #[trigger] m@.contains_key(k) ==> strs_view(m@[k]@) == strs_view(self@[k]@),
    {
        proof {
            self.lemma_view();
        }
        let keys = clone_strs(&self.keys);
        let mut vals: Vec<Vec<String>> = Vec::new();
        let mut i: usize = 0;
        while i < self.vals.len()
            invariant
                self.wf(),
                i <= self.vals@.len(),
                vals@.len() == i,
                forall|j: int| 0 <= j < i ==> strs_view(#[trigger] vals@[j]@) == strs_view(self.vals@[j]@),
            decreases self.vals@.len() - i,
        {
            vals.push(clone_strs(&self.vals[i]));
            i = i + 1;
        }
        proof {
            assert forall|i: int| 0 <= i < keys@.len() implies #[trigger] keys@[i]@ == self.keys@[i]@ by {
                assert(strs_view(keys@)[i] == strs_view(self.keys@)[i]);
            }
        }
        let m = StrMap { keys, vals };
        proof {
            assert(strs_view(m.keys@).len() == m.keys@.len());
            assert(distinct_views(m.keys@));
            m.lemma_view();
            assert forall|k: Seq<char>| #[trigger] m@.contains_key(k) <==> self@.contains_key(k) by {
                assert(m.key_seq() =~= self.key_seq());
            }
            assert(m@.dom() =~= self@.dom());
            assert forall|k: Seq<char>| #[trigger] m@.contains_key(k) implies strs_view(m@[k]@) == strs_view(self@[k]@) by {
                let j = choose|j: int| 0 <= j < m.key_seq().len() && m.key_seq()[j] == k;
                assert(m.keys@[j]@ == k);
                assert(self.keys@[j]@ == k);
            }
        }
        m
    }

    /// All strings of all lists, list by list in the map's order of entries.
    pub fn flat_values(&self) -> (r: Vec<String>)
        requires
            self.wf(),
        ensures
            strs_view(r@) == flatten_lists(self@, self.key_seq()),
    {
        proof {
            self.lemma_view();
        }
        let mut r: Vec<String> = Vec::new();
        let mut i: usize = 0;
        while i < self.vals.len()
            invariant
                self.wf(),
                i <= self.vals@.len(),
                forall|j: int| 0 <= j < self.keys@.len() ==> #[trigger] self@.contains_key(self.keys@[j]@) && self@[self.keys@[j]@] == self.vals@[j],
                strs_view(r@) == flatten_lists(self@, self.key_seq().take(i as int)),
            decreases self.vals@.len() - i,
        {
            let ghost r0 = strs_view(r@);
            let list = clone_strs(&self.vals[i]);
            let mut list = list;
            r.append(&mut list);
            proof {
                assert(self.key_seq().take(i + 1).drop_last() =~= self.key_seq().take(i as int));
                assert(self.key_seq().take(i + 1).last() == self.keys@[i as int]@);
                assert(self@.contains_key(self.keys@[i as int]@));
                assert(strs_view(r@) =~= r0 + strs_view(self.vals@[i as int]@));
            }
            i = i + 1;
        }
        assert(self.key_seq().take(self.vals@.len() as int) =~= self.key_seq());
        r
    }
}

} // verus!

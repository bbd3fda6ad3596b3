//! A map from 64-bit ids to values, kept as a vector of key-value pairs with
//! distinct keys. Besides the usual map view it exposes the order of its
//! keys: a key moves to the back whenever it is inserted, so the front key is
//! always the least recently inserted one. The block cache uses that order
//! for recency-based eviction; the dirty tracker, inode table and store
//! model use the map view alone.

use vstd::prelude::*;
use vstd::assert_seqs_equal;

verus! {

/// The map that a pair sequence denotes; a later pair wins over an earlier
/// one with the same key (with distinct keys the question does not arise).
pub open spec fn map_of<V>(s: Seq<(u64, V)>) -> Map<u64, V>
    decreases s.len(),
{
    if s.len() == 0 {
        Map::empty()
    } else {
        map_of(s.drop_last()).insert(s.last().0, s.last().1)
    }
}

/// The keys of a pair sequence, in order.
pub open spec fn keys_of<V>(s: Seq<(u64, V)>) -> Seq<u64> {
    s.map_values(|p: (u64, V)| p.0)
}

proof fn lemma_map_of_contains<V>(s: Seq<(u64, V)>, k: u64)
    ensures
        map_of(s).contains_key(k) <==> keys_of(s).contains(k),
    decreases s.len(),
{
    if s.len() == 0 {
    } else {
        lemma_map_of_contains(s.drop_last(), k);
        if keys_of(s).contains(k) {
            let i = choose|i: int| 0 <= i < s.len() && keys_of(s)[i] == k;
            if i == s.len() - 1 {
                assert(map_of(s).contains_key(k));
            } else {
                assert(keys_of(s.drop_last())[i] == k);
                assert(keys_of(s.drop_last()).contains(k));
            }
        }
        if map_of(s).contains_key(k) {
            if k == s.last().0 {
                assert(keys_of(s)[s.len() - 1] == k);
            } else {
                let i = choose|i: int| 0 <= i < s.len() - 1 && keys_of(s.drop_last())[i] == k;
                assert(keys_of(s)[i] == k);
            }
        }
    }
}

proof fn lemma_keys_drop_last<V>(s: Seq<(u64, V)>)
    requires
        s.len() > 0,
    ensures
        keys_of(s.drop_last()) == keys_of(s).drop_last(),
{
    assert_seqs_equal!(keys_of(s.drop_last()) == keys_of(s).drop_last(), i => {
        assert(s.drop_last()[i] == s[i]);
    });
}

proof fn lemma_no_dup_drop_last(q: Seq<u64>)
    requires
        q.len() > 0,
        q.no_duplicates(),
    ensures
        q.drop_last().no_duplicates(),
        !q.drop_last().contains(q.last()),
{
    assert forall|a: int, b: int|
        0 <= a < b < q.drop_last().len() implies q.drop_last()[a] != q.drop_last()[b] by {
        assert(q.drop_last()[a] == q[a]);
        assert(q.drop_last()[b] == q[b]);
    }
    if q.drop_last().contains(q.last()) {
        let a = choose|a: int| 0 <= a < q.drop_last().len() && q.drop_last()[a] == q.last();
        assert(q[a] == q[q.len() - 1]);
        assert(false);
    }
}

proof fn lemma_map_of_index<V>(s: Seq<(u64, V)>, i: int)
    requires
        keys_of(s).no_duplicates(),
        0 <= i < s.len(),
    ensures
        map_of(s).contains_key(s[i].0),
        map_of(s)[s[i].0] == s[i].1,
    decreases s.len(),
{
    lemma_map_of_contains(s, s[i].0);
    assert(keys_of(s)[i] == s[i].0);
    if i == s.len() - 1 {
    } else {
        assert(keys_of(s)[s.len() - 1] == s.last().0);
        assert(s[i].0 != s.last().0);
        lemma_keys_drop_last(s);
        lemma_no_dup_drop_last(keys_of(s));
        assert(s.drop_last()[i] == s[i]);
        lemma_map_of_index(s.drop_last(), i);
    }
}

proof fn lemma_map_of_remove<V>(s: Seq<(u64, V)>, i: int)
    requires
        keys_of(s).no_duplicates(),
        0 <= i < s.len(),
    ensures
        map_of(s.remove(i)) == map_of(s).remove(s[i].0),
    decreases s.len(),
{
    keys_of(s).remove_ensures(i);
    s.remove_ensures(i);
    lemma_map_of_contains(s.drop_last(), s[i].0);
    lemma_keys_drop_last(s);
    lemma_no_dup_drop_last(keys_of(s));
    if i == s.len() - 1 {
        assert_seqs_equal!(s.remove(i) == s.drop_last());
        assert(!keys_of(s.drop_last()).contains(s[i].0)) by {
            assert(keys_of(s)[i] == s[i].0);
            assert(s[i].0 == keys_of(s).last());
        }
        let m1 = map_of(s.drop_last());
        let m2 = map_of(s).remove(s[i].0);
        assert(m1 =~= m2);
    } else {
        lemma_map_of_remove(s.drop_last(), i);
        assert_seqs_equal!(s.remove(i).drop_last() == s.drop_last().remove(i));
        assert(s.remove(i).last() == s.last());
        assert(map_of(s.remove(i)) == map_of(s.drop_last().remove(i)).insert(
            s.last().0,
            s.last().1,
        ));
        assert(s[i].0 != s.last().0) by {
            assert(keys_of(s)[i] == s[i].0);
            assert(keys_of(s)[s.len() - 1] == s.last().0);
        }
        let m1 = map_of(s.drop_last()).remove(s[i].0).insert(s.last().0, s.last().1);
        let m2 = map_of(s.drop_last()).insert(s.last().0, s.last().1).remove(s[i].0);
        assert(m1 =~= m2);
    }
}

proof fn lemma_keys_of_remove<V>(s: Seq<(u64, V)>, i: int)
    requires
        0 <= i < s.len(),
    ensures
        keys_of(s.remove(i)) == keys_of(s).remove(i),
{
    s.remove_ensures(i);
    keys_of(s).remove_ensures(i);
    assert_seqs_equal!(keys_of(s.remove(i)) == keys_of(s).remove(i));
}

/// A bounded-free map from `u64` ids to values, with distinct keys and an
/// observable key order (front = least recently inserted).
pub struct VecMap<V> {
    pairs: Vec<(u64, V)>,
}

impl<V> View for VecMap<V> {
    type V = Map<u64, V>;

    closed spec fn view(&self) -> Map<u64, V> {
        map_of(self.pairs@)
    }
}

impl<V> VecMap<V> {
    /// The keys, least recently inserted first.
    pub closed spec fn order(&self) -> Seq<u64> {
        keys_of(self.pairs@)
    }

    #[verifier::type_invariant]
    spec fn wf(&self) -> bool {
        keys_of(self.pairs@).no_duplicates()
    }

    /// The key order never repeats a key, and it carries exactly the keys of
    /// the map. Every operation reports this of the map it leaves behind, so
    /// callers always have it of the maps they hold.
    pub open spec fn sound(&self) -> bool {
        &&& self.order().no_duplicates()
        &&& self@.dom() == self.order().to_set()
        &&& self@.dom().len() == self.order().len()
    }

    proof fn lemma_sound(s: Seq<(u64, V)>)
        requires
            keys_of(s).no_duplicates(),
        ensures
            map_of(s).dom() == keys_of(s).to_set(),
            map_of(s).dom().len() == keys_of(s).len(),
    {
        assert forall|k: u64|
            map_of(s).dom().contains(k) <==> keys_of(s).to_set().contains(k) by {
            lemma_map_of_contains(s, k);
        }
        assert(map_of(s).dom() =~= keys_of(s).to_set());
        keys_of(s).unique_seq_to_set();
    }

    pub fn new() -> (r: Self)
        ensures
            r@ == Map::<u64, V>::empty(),
            r.order() == Seq::<u64>::empty(),
            r.sound(),
    {
        let r = VecMap { pairs: Vec::new() };
        proof {
            assert(keys_of(r.pairs@) =~= Seq::<u64>::empty());
            Self::lemma_sound(r.pairs@);
        }
        r
    }

    pub fn len(&self) -> (n: usize)
        ensures
            n == self.order().len(),
            self.sound(),
    {
        proof {
            use_type_invariant(self);
            Self::lemma_sound(self.pairs@);
        }
        self.pairs.len()
    }

    /// The index of the pair holding `k`, if any.
    fn find(&self, k: u64) -> (r: Option<usize>)
        ensures
            match r {
                Some(i) => i < self.pairs@.len() && self.pairs@[i as int].0 == k
                    && keys_of(self.pairs@).index_of_first(k) == Some(i as int),
                None => !self@.contains_key(k),
            },
    {
        proof {
            use_type_invariant(self);
        }
        let n = self.pairs.len();
        let mut i: usize = 0;
        while i < n
            invariant
                n == self.pairs@.len(),
                i <= n,
                forall|j: int| 0 <= j < i ==> self.pairs@[j].0 != k,
            decreases n - i,
        {
            if self.pairs[i].0 == k {
                proof {
                    let ks = keys_of(self.pairs@);
                    ks.index_of_first_ensures(k);
                    assert(ks[i as int] == k);
                    assert(ks.contains(k));
                    let f = ks.index_of_first(k)->Some_0;
                    assert(forall|j: int| 0 <= j < i ==> ks[j] != k);
                    assert(f == i as int);
                }
                return Some(i);
            }
            i = i + 1;
        }
        proof {
            assert(forall|j: int| 0 <= j < self.pairs@.len() ==> keys_of(self.pairs@)[j] != k);
            assert(!keys_of(self.pairs@).contains(k));
            lemma_map_of_contains(self.pairs@, k);
        }
        None
    }

    pub fn contains_key(&self, k: u64) -> (r: bool)
        ensures
            r == self@.contains_key(k),
            self.sound(),
    {
        proof {
            use_type_invariant(self);
            Self::lemma_sound(self.pairs@);
        }
        match self.find(k) {
            Some(i) => {
                proof {
                    lemma_map_of_index(self.pairs@, i as int);
                }
                true
            },
            None => false,
        }
    }

    pub fn get(&self, k: u64) -> (r: Option<&V>)
        ensures
            match r {
                Some(v) => self@.contains_key(k) && *v == self@[k],
                None => !self@.contains_key(k),
            },
            self.sound(),
    {
        proof {
            use_type_invariant(self);
            Self::lemma_sound(self.pairs@);
        }
        match self.find(k) {
            Some(i) => {
                proof {
                    lemma_map_of_index(self.pairs@, i as int);
                }
                Some(&self.pairs[i].1)
            },
            None => None,
        }
    }

    /// Insert `k`, replacing any pair it already had, and move it to the
    /// back of the order.
    pub fn insert(&mut self, k: u64, v: V)
        ensures
            final(self)@ == old(self)@.insert(k, v),
            final(self).order() == old(self).order().remove_value(k).push(k),
            final(self).sound(),
            old(self).sound(),
    {
        proof {
            use_type_invariant(&*self);
            Self::lemma_sound(self.pairs@);
        }
        let ghost s0 = self.pairs@;
        match self.find(k) {
            Some(i) => {
                proof {
                    keys_of(s0).index_of_first_ensures(k);
                    lemma_map_of_remove(s0, i as int);
                    lemma_keys_of_remove(s0, i as int);
                }
                let mut pairs: Vec<(u64, V)> = Vec::new();
                core::mem::swap(&mut pairs, &mut self.pairs);
                pairs.remove(i);
                pairs.push((k, v));
                proof {
                    assert(pairs@.drop_last() =~= s0.remove(i as int));
                    assert(map_of(pairs@) == map_of(s0.remove(i as int)).insert(k, v));
                    assert(map_of(pairs@) =~= map_of(s0).insert(k, v));
                    assert(keys_of(pairs@) =~= keys_of(s0).remove(i as int).push(k));
                    keys_of(s0).remove_ensures(i as int);
                    assert(keys_of(s0).remove(i as int).no_duplicates());
                    assert(!keys_of(s0).remove(i as int).contains(k)) by {
                        if keys_of(s0).remove(i as int).contains(k) {
                            let j = choose|j: int|
                                0 <= j < keys_of(s0).remove(i as int).len()
                                    && keys_of(s0).remove(i as int)[j] == k;
                            if j < i {
                                assert(keys_of(s0)[j] == k);
                            } else {
                                assert(keys_of(s0)[j + 1] == k);
                            }
                            assert(keys_of(s0)[i as int] == k);
                            assert(false);
                        }
                    }
                    assert(keys_of(pairs@).no_duplicates());
                    Self::lemma_sound(pairs@);
                }
                self.pairs = pairs;
            },
            None => {
                proof {
                    keys_of(s0).index_of_first_ensures(k);
                    lemma_map_of_contains(s0, k);
                    assert(!keys_of(s0).contains(k));
                }
                let mut pairs: Vec<(u64, V)> = Vec::new();
                core::mem::swap(&mut pairs, &mut self.pairs);
                pairs.push((k, v));
                proof {
                    assert(pairs@.drop_last() =~= s0);
                    assert(map_of(pairs@) =~= map_of(s0).insert(k, v));
                    assert(keys_of(pairs@) =~= keys_of(s0).push(k));
                    assert(keys_of(s0).remove_value(k) == keys_of(s0));
                    assert(keys_of(pairs@).no_duplicates());
                    Self::lemma_sound(pairs@);
                }
                self.pairs = pairs;
            },
        }
    }

    /// Remove `k` if present.
    pub fn remove(&mut self, k: u64)
        ensures
            final(self)@ == old(self)@.remove(k),
            final(self).order() == old(self).order().remove_value(k),
            final(self).sound(),
            old(self).sound(),
    {
        proof {
            use_type_invariant(&*self);
            Self::lemma_sound(self.pairs@);
        }
        let ghost s0 = self.pairs@;
        match self.find(k) {
            Some(i) => {
                proof {
                    keys_of(s0).index_of_first_ensures(k);
                    lemma_map_of_remove(s0, i as int);
                    lemma_keys_of_remove(s0, i as int);
                    keys_of(s0).remove_ensures(i as int);
                }
                let mut pairs: Vec<(u64, V)> = Vec::new();
                core::mem::swap(&mut pairs, &mut self.pairs);
                pairs.remove(i);
                proof {
                    assert(keys_of(pairs@) =~= keys_of(s0).remove(i as int));
                    assert(keys_of(pairs@).no_duplicates());
                    assert(map_of(pairs@) == map_of(s0.remove(i as int)));
                    Self::lemma_sound(pairs@);
                }
                self.pairs = pairs;
            },
            None => {
                proof {
                    keys_of(s0).index_of_first_ensures(k);
                    lemma_map_of_contains(s0, k);
                    assert(!keys_of(s0).contains(k));
                    assert(map_of(s0) =~= map_of(s0).remove(k));
                }
            },
        }
    }

    /// Remove `k` and hand its value out, if present.
    pub fn take(&mut self, k: u64) -> (r: Option<V>)
        ensures
            match r {
                Some(v) => old(self)@.contains_key(k) && v == old(self)@[k],
                None => !old(self)@.contains_key(k),
            },
            final(self)@ == old(self)@.remove(k),
            final(self).order() == old(self).order().remove_value(k),
            final(self).sound(),
            old(self).sound(),
    {
        proof {
            use_type_invariant(&*self);
            Self::lemma_sound(self.pairs@);
        }
        let ghost s0 = self.pairs@;
        match self.find(k) {
            Some(i) => {
                proof {
                    keys_of(s0).index_of_first_ensures(k);
                    lemma_map_of_remove(s0, i as int);
                    lemma_keys_of_remove(s0, i as int);
                    keys_of(s0).remove_ensures(i as int);
                    lemma_map_of_index(s0, i as int);
                }
                let mut pairs: Vec<(u64, V)> = Vec::new();
                core::mem::swap(&mut pairs, &mut self.pairs);
                let pair = pairs.remove(i);
                proof {
                    assert(keys_of(pairs@) =~= keys_of(s0).remove(i as int));
                    assert(keys_of(pairs@).no_duplicates());
                    assert(map_of(pairs@) == map_of(s0.remove(i as int)));
                    Self::lemma_sound(pairs@);
                }
                self.pairs = pairs;
                Some(pair.1)
            },
            None => {
                proof {
                    keys_of(s0).index_of_first_ensures(k);
                    lemma_map_of_contains(s0, k);
                    assert(!keys_of(s0).contains(k));
                    assert(map_of(s0) =~= map_of(s0).remove(k));
                }
                None
            },
        }
    }

    /// The front of the order: the least recently inserted key.
    pub fn first_key(&self) -> (r: Option<u64>)
        ensures
            match r {
                Some(k) => self.order().len() > 0 && k == self.order()[0],
                None => self.order().len() == 0,
            },
            self.sound(),
    {
        proof {
            use_type_invariant(self);
            Self::lemma_sound(self.pairs@);
        }
        if self.pairs.len() == 0 {
            None
        } else {
            Some(self.pairs[0].0)
        }
    }

    /// All keys, least recently inserted first.
    pub fn keys(&self) -> (r: Vec<u64>)
        ensures
            r@ == self.order(),
            self.sound(),
    {
        proof {
            use_type_invariant(self);
            Self::lemma_sound(self.pairs@);
        }
        let n = self.pairs.len();
        let mut r: Vec<u64> = Vec::new();
        let mut i: usize = 0;
        while i < n
            invariant
                n == self.pairs@.len(),
                i <= n,
                r@ == keys_of(self.pairs@).subrange(0, i as int),
            decreases n - i,
        {
            r.push(self.pairs[i].0);
            proof {
                assert(r@ =~= keys_of(self.pairs@).subrange(0, i + 1 as int));
            }
            i = i + 1;
        }
        proof {
            assert(r@ =~= keys_of(self.pairs@));
        }
        r
    }
}

} // verus!

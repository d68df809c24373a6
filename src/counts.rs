//! Tallies of string keys.
use vstd::multiset::Multiset;
use vstd::prelude::*;

use crate::keyed::{
    find_key, has_key, keyed_map, lemma_keyed_dom, lemma_keyed_lookup, lemma_keyed_update,
    lemma_keyed_value, lemma_push_unique, unique_keys,
};

verus! {

/// How a stored tally reads as a natural number.
pub open spec fn tally_value() -> spec_fn(u64) -> nat {
    |c: u64| c as nat
}

/// The tally of `k` in `m`, zero where `m` has none.
pub open spec fn count_of(m: Map<Seq<char>, nat>, k: Seq<char>) -> nat {
    if m.contains_key(k) {
        m[k]
    } else {
        0
    }
}

/// `m` with `n` more occurrences of `k`.
pub open spec fn add_count(m: Map<Seq<char>, nat>, k: Seq<char>, n: nat) -> Map<Seq<char>, nat> {
    m.insert(k, count_of(m, k) + n)
}

/// Key-wise sum of two tallies.
pub open spec fn sum_counts(a: Map<Seq<char>, nat>, b: Map<Seq<char>, nat>) -> Map<Seq<char>, nat> {
    Map::new(|k: Seq<char>| a.contains_key(k) || b.contains_key(k), |k: Seq<char>| count_of(a, k) + count_of(b, k))
}

/// Every key-wise sum of `a` and `b` fits in a `u64`.
pub open spec fn sum_fits(a: Map<Seq<char>, nat>, b: Map<Seq<char>, nat>) -> bool {
    forall|k: Seq<char>| #[trigger] b.contains_key(k) ==> count_of(a, k) + b[k] <= u64::MAX
}

/// `m` after one more occurrence of each key of `keys`, in order.
pub open spec fn tally_all(m: Map<Seq<char>, nat>, keys: Seq<Seq<char>>) -> Map<Seq<char>, nat>
    decreases keys.len(),
{
    if keys.len() == 0 {
        m
    } else {
        add_count(tally_all(m, keys.drop_last()), keys.last(), 1)
    }
}

/// Each key's tally in `m`, with its occurrences in `keys` added, fits in a `u64`.
pub open spec fn tally_fits(m: Map<Seq<char>, nat>, keys: Seq<Seq<char>>) -> bool {
    forall|k: Seq<char>| count_of(m, k) + #[trigger] keys.to_multiset().count(k) <= u64::MAX
}

/// Tallying `keys` adds to each key the number of times it occurs there.
pub proof fn lemma_tally_all(m: Map<Seq<char>, nat>, keys: Seq<Seq<char>>, k: Seq<char>)
    ensures
        count_of(tally_all(m, keys), k) == count_of(m, k) + keys.to_multiset().count(k),
        tally_all(m, keys).contains_key(k) <==> (m.contains_key(k) || keys.to_multiset().count(k) > 0),
    decreases keys.len(),
{
    broadcast use vstd::seq_lib::group_to_multiset_ensures;

    if keys.len() == 0 {
        assert(keys.to_multiset() =~= Multiset::<Seq<char>>::empty());
    } else {
        let p = keys.drop_last();
        lemma_tally_all(m, p, k);
        assert(keys =~= p.push(keys.last()));
        assert(keys.to_multiset() =~= p.to_multiset().insert(keys.last()));
    }
}

/// One more key keeps the tally within bounds exactly when that key's tally so far has
/// room for one more.
pub proof fn lemma_tally_fits_push(m: Map<Seq<char>, nat>, keys: Seq<Seq<char>>, x: Seq<char>)
    requires
        tally_fits(m, keys),
    ensures
        tally_fits(m, keys.push(x)) <==> count_of(tally_all(m, keys), x) + 1 <= u64::MAX,
        tally_all(m, keys.push(x)) == add_count(tally_all(m, keys), x, 1),
{
    broadcast use vstd::seq_lib::group_to_multiset_ensures;

    let t = keys.push(x);
    assert(t.drop_last() =~= keys);
    assert(t.to_multiset() =~= keys.to_multiset().insert(x));
    lemma_tally_all(m, keys, x);
    if count_of(tally_all(m, keys), x) + 1 <= u64::MAX {
        assert forall|k: Seq<char>| count_of(m, k) + #[trigger] t.to_multiset().count(k) <= u64::MAX by {
            if k != x {
                assert(count_of(m, k) + keys.to_multiset().count(k) <= u64::MAX);
            }
        }
    } else {
        assert(count_of(m, x) + t.to_multiset().count(x) > u64::MAX);
    }
}

/// Tallying keys onto `m` is adding their tally from nothing to `m`, and it fits exactly
/// when both that tally and the sum fit.
pub proof fn lemma_tally_split(m: Map<Seq<char>, nat>, keys: Seq<Seq<char>>)
    requires
        forall|k: Seq<char>| count_of(m, k) <= u64::MAX,
    ensures
        tally_fits(m, keys) <==> (tally_fits(Map::empty(), keys) && sum_fits(m, tally_all(Map::empty(), keys))),
        tally_all(m, keys) == sum_counts(m, tally_all(Map::empty(), keys)),
{
    let e = Map::<Seq<char>, nat>::empty();
    let t = tally_all(e, keys);
    assert forall|k: Seq<char>| #[trigger] count_of(t, k) == keys.to_multiset().count(k) by {
        lemma_tally_all(e, keys, k);
    }
    if tally_fits(m, keys) {
        assert forall|k: Seq<char>| count_of(e, k) + #[trigger] keys.to_multiset().count(k) <= u64::MAX by {
            assert(count_of(m, k) + keys.to_multiset().count(k) <= u64::MAX);
        }
        assert forall|k: Seq<char>| #[trigger] t.contains_key(k) implies count_of(m, k) + t[k] <= u64::MAX by {
            assert(count_of(t, k) == keys.to_multiset().count(k));
            assert(count_of(m, k) + keys.to_multiset().count(k) <= u64::MAX);
        }
    }
    if tally_fits(e, keys) && sum_fits(m, t) {
        assert forall|k: Seq<char>| count_of(m, k) + #[trigger] keys.to_multiset().count(k) <= u64::MAX by {
            lemma_tally_all(e, keys, k);
            if keys.to_multiset().count(k) > 0 {
                assert(t.contains_key(k));
            }
        }
    }
    assert forall|k: Seq<char>| #[trigger] tally_all(m, keys).contains_key(k) == sum_counts(m, t).contains_key(k) by {
        lemma_tally_all(m, keys, k);
        lemma_tally_all(e, keys, k);
    }
    assert forall|k: Seq<char>| #[trigger] tally_all(m, keys).contains_key(k) implies tally_all(m, keys)[k]
        == sum_counts(m, t)[k] by {
        lemma_tally_all(m, keys, k);
        lemma_tally_all(e, keys, k);
    }
    assert(tally_all(m, keys) =~= sum_counts(m, t));
}

/// A tally of string keys, each occurring at most once, in order of first insertion.
pub struct Counts {
    pub entries: Vec<(String, u64)>,
}

impl View for Counts {
    type V = Map<Seq<char>, nat>;

    open spec fn view(&self) -> Map<Seq<char>, nat> {
        keyed_map(self.entries@, tally_value())
    }
}

proof fn lemma_sum_insert(a: Map<Seq<char>, nat>, b: Map<Seq<char>, nat>, k: Seq<char>, v: nat)
    requires
        !b.contains_key(k),
    ensures
        sum_counts(a, b.insert(k, v)) == add_count(sum_counts(a, b), k, v),
{
    assert(sum_counts(a, b.insert(k, v)) =~= add_count(sum_counts(a, b), k, v));
}

impl Counts {
    pub open spec fn wf(&self) -> bool {
        unique_keys(self.entries@)
    }

    /// Whether each key is held once.
    pub fn check_wf(&self) -> (r: bool)
        ensures
            r == self.wf(),
    {
        let mut i: usize = 0;
        while i < self.entries.len()
            invariant
                i <= self.entries@.len(),
                forall|a: int, b: int|
                    0 <= a < i && 0 <= b < self.entries@.len() && a != b ==> #[trigger] crate::keyed::key_at(
                        self.entries@,
                        a,
                    ) != #[trigger] crate::keyed::key_at(self.entries@, b),
            decreases self.entries@.len() - i,
        {
            let mut j: usize = 0;
            while j < self.entries.len()
                invariant
                    i < self.entries@.len(),
                    j <= self.entries@.len(),
                    forall|b: int|
                        0 <= b < j && b != i ==> crate::keyed::key_at(self.entries@, i as int)
                            != #[trigger] crate::keyed::key_at(self.entries@, b),
                decreases self.entries@.len() - j,
            {
                if j != i && self.entries[i].0 == self.entries[j].0 {
                    proof {
                        assert(crate::keyed::key_at(self.entries@, i as int) == crate::keyed::key_at(
                            self.entries@,
                            j as int,
                        ));
                    }
                    return false;
                }
                j = j + 1;
            }
            i = i + 1;
        }
        true
    }

    /// Every stored tally fits in a `u64`.
    pub proof fn lemma_bounded(&self)
        requires
            self.wf(),
        ensures
            forall|k: Seq<char>| count_of(self@, k) <= u64::MAX,
    {
        assert forall|k: Seq<char>| count_of(self@, k) <= u64::MAX by {
            if self@.contains_key(k) {
                lemma_keyed_lookup(self.entries@, tally_value(), k);
            }
        }
    }

    /// Every stored tally fits in a `u64`, so an empty sequence of keys always fits.
    pub proof fn lemma_fits_empty(&self)
        requires
            self.wf(),
        ensures
            tally_fits(self@, Seq::empty()),
    {
        broadcast use vstd::seq_lib::group_to_multiset_ensures;

        assert(Seq::<Seq<char>>::empty().to_multiset() =~= Multiset::<Seq<char>>::empty());
        assert forall|k: Seq<char>| count_of(self@, k) + #[trigger] Seq::<Seq<char>>::empty().to_multiset().count(k)
            <= u64::MAX by {
            if self@.contains_key(k) {
                lemma_keyed_lookup(self.entries@, tally_value(), k);
            }
        }
    }

    pub fn new() -> (r: Counts)
        ensures
            r.wf(),
            r@ == Map::<Seq<char>, nat>::empty(),
    {
        Counts { entries: Vec::new() }
    }

    /// The tally of `key`.
    pub fn get(&self, key: &String) -> (r: u64)
        requires
            self.wf(),
        ensures
            r == count_of(self@, key@),
    {
        match find_key(&self.entries, key) {
            Some(i) => {
                proof {
                    lemma_keyed_value(self.entries@, tally_value(), i as int);
                }
                self.entries[i].1
            },
            None => {
                proof {
                    lemma_keyed_dom(self.entries@, tally_value(), key@);
                }
                0
            },
        }
    }

    /// The tally of the given pairs, in their order; none where two pairs share a key.
    pub fn from_pairs(pairs: Vec<(String, u64)>) -> (r: Option<Counts>)
        ensures
            match r {
                Some(c) => c.wf() && c.entries@ == pairs@,
                None => !unique_keys(pairs@),
            },
    {
        let mut i: usize = 0;
        while i < pairs.len()
            invariant
                i <= pairs@.len(),
                forall|a: int, b: int|
                    0 <= a < i && 0 <= b < pairs@.len() && a != b ==> #[trigger] crate::keyed::key_at(pairs@, a)
                        != #[trigger] crate::keyed::key_at(pairs@, b),
            decreases pairs@.len() - i,
        {
            let mut j: usize = 0;
            while j < pairs.len()
                invariant
                    i < pairs@.len(),
                    j <= pairs@.len(),
                    forall|b: int|
                        0 <= b < j && b != i ==> crate::keyed::key_at(pairs@, i as int)
                            != #[trigger] crate::keyed::key_at(pairs@, b),
                decreases pairs@.len() - j,
            {
                if j != i && pairs[i].0 == pairs[j].0 {
                    proof {
                        assert(crate::keyed::key_at(pairs@, i as int) == crate::keyed::key_at(pairs@, j as int));
                    }
                    return None;
                }
                j = j + 1;
            }
            i = i + 1;
        }
        Some(Counts { entries: pairs })
    }

    /// Sets the tally of `key` to `n`.
    pub fn set(&mut self, key: String, n: u64)
        requires
            old(self).wf(),
        ensures
            final(self).wf(),
            final(self)@ == old(self)@.insert(key@, n as nat),
    {
        match find_key(&self.entries, &key) {
            Some(i) => {
                proof {
                    lemma_keyed_update(self.entries@, tally_value(), i as int, (key, n));
                }
                self.entries.set(i, (key, n));
            },
            None => {
                proof {
                    lemma_push_unique(self.entries@, (key, n));
                }
                let ghost prev = self.entries@;
                self.entries.push((key, n));
                proof {
                    assert(self.entries@.drop_last() =~= prev);
                }
            },
        }
    }

    /// Adds `n` occurrences of `key`; false, with nothing changed, where the tally would
    /// not fit in a `u64`.
    pub fn add(&mut self, key: String, n: u64) -> (r: bool)
        requires
            old(self).wf(),
        ensures
            final(self).wf(),
            r == (count_of(old(self)@, key@) + n <= u64::MAX),
            r ==> final(self)@ == add_count(old(self)@, key@, n as nat),
            !r ==> *final(self) == *old(self),
    {
        match find_key(&self.entries, &key) {
            Some(i) => {
                proof {
                    lemma_keyed_value(self.entries@, tally_value(), i as int);
                }
                let cur = self.entries[i].1;
                if cur > u64::MAX - n {
                    return false;
                }
                proof {
                    lemma_keyed_update(self.entries@, tally_value(), i as int, (key, (cur + n) as u64));
                }
                self.entries.set(i, (key, cur + n));
                true
            },
            None => {
                proof {
                    lemma_keyed_dom(self.entries@, tally_value(), key@);
                    lemma_push_unique(self.entries@, (key, n));
                }
                let ghost prev = self.entries@;
                self.entries.push((key, n));
                proof {
                    assert(self.entries@.drop_last() =~= prev);
                }
                true
            },
        }
    }

    /// Whether every tally of `other` can be added to this one within a `u64`.
    pub fn fits_with(&self, other: &Counts) -> (r: bool)
        requires
            self.wf(),
            other.wf(),
        ensures
            r == sum_fits(self@, other@),
    {
        let mut i: usize = 0;
        while i < other.entries.len()
            invariant
                self.wf(),
                other.wf(),
                i <= other.entries@.len(),
                forall|j: int|
                    0 <= j < i ==> count_of(self@, #[trigger] other.entries@[j].0@) + other.entries@[j].1
                        <= u64::MAX,
            decreases other.entries@.len() - i,
        {
            let n = other.entries[i].1;
            if self.get(&other.entries[i].0) > u64::MAX - n {
                proof {
                    let k = other.entries@[i as int].0@;
                    lemma_keyed_value(other.entries@, tally_value(), i as int);
                    assert(other@.contains_key(k));
                }
                return false;
            }
            i = i + 1;
        }
        proof {
            assert forall|k: Seq<char>| #[trigger] other@.contains_key(k) implies count_of(self@, k) + other@[k]
                <= u64::MAX by {
                let j = lemma_keyed_lookup(other.entries@, tally_value(), k);
                assert(count_of(self@, other.entries@[j].0@) + other.entries@[j].1 <= u64::MAX);
            }
        }
        true
    }

    /// Adds every tally of `other`; false where one of the sums would not fit in a `u64`.
    pub fn merge_from(&mut self, other: &Counts) -> (r: bool)
        requires
            old(self).wf(),
            other.wf(),
        ensures
            final(self).wf(),
            r == sum_fits(old(self)@, other@),
            r ==> final(self)@ == sum_counts(old(self)@, other@),
    {
        let ghost start = self@;
        let mut i: usize = 0;
        while i < other.entries.len()
            invariant
                self.wf(),
                other.wf(),
                start == old(self)@,
                i <= other.entries@.len(),
                self@ == sum_counts(start, keyed_map(other.entries@.take(i as int), tally_value())),
                sum_fits(start, keyed_map(other.entries@.take(i as int), tally_value())),
            decreases other.entries@.len() - i,
        {
            let ghost pre = other.entries@.take(i as int);
            let ghost post = other.entries@.take(i + 1);
            let key = other.entries[i].0.clone();
            let n = other.entries[i].1;
            proof {
                assert(post.drop_last() =~= pre);
                let k = other.entries@[i as int].0@;
                assert(!has_key(pre, k)) by {
                    if has_key(pre, k) {
                        let j = choose|j: int| 0 <= j < pre.len() && #[trigger] crate::keyed::key_at(pre, j) == k;
                        assert(crate::keyed::key_at(other.entries@, j) == crate::keyed::key_at(other.entries@, i as int));
                    }
                }
                lemma_keyed_dom(pre, tally_value(), k);
                lemma_sum_insert(start, keyed_map(pre, tally_value()), k, n as nat);
            }
            let ok = self.add(key, n);
            if !ok {
                proof {
                    let k = other.entries@[i as int].0@;
                    lemma_keyed_value(other.entries@, tally_value(), i as int);
                    assert(count_of(start, k) + other@[k] > u64::MAX);
                    assert(other@.contains_key(k));
                    assert(!sum_fits(start, other@));
                }
                return false;
            }
            proof {
                let pm = keyed_map(pre, tally_value());
                let k = other.entries@[i as int].0@;
                assert forall|q: Seq<char>| #[trigger] pm.insert(k, n as nat).contains_key(q) implies count_of(start, q) + pm.insert(k, n as nat)[q] <= u64::MAX by {
                    if q != k {
                        assert(pm.contains_key(q));
                    }
                }
            }
            i = i + 1;
        }
        proof {
            assert(other.entries@.take(i as int) =~= other.entries@);
        }
        true
    }
}

} // verus!

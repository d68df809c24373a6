//! Sequences of named values read as maps from names.
use vstd::prelude::*;

verus! {

/// The keys of a sequence of `(name, value)` pairs, as character sequences.
pub open spec fn key_at<V>(s: Seq<(String, V)>, i: int) -> Seq<char> {
    s[i].0@
}

/// No two pairs share a key.
pub open spec fn unique_keys<V>(s: Seq<(String, V)>) -> bool {
    forall|i: int, j: int|
        0 <= i < s.len() && 0 <= j < s.len() && i != j ==> #[trigger] key_at(s, i) != #[trigger] key_at(
            s,
            j,
        )
}

/// Some pair carries the key `k`.
pub open spec fn has_key<V>(s: Seq<(String, V)>, k: Seq<char>) -> bool {
    exists|i: int| 0 <= i < s.len() && #[trigger] key_at(s, i) == k
}

/// The map that a sequence of pairs stands for: a later pair overrides an earlier one.
pub open spec fn keyed_map<V, W>(s: Seq<(String, V)>, f: spec_fn(V) -> W) -> Map<Seq<char>, W>
    decreases s.len(),
{
    if s.len() == 0 {
        Map::empty()
    } else {
        keyed_map(s.drop_last(), f).insert(s.last().0@, f(s.last().1))
    }
}

pub proof fn lemma_keyed_dom<V, W>(s: Seq<(String, V)>, f: spec_fn(V) -> W, k: Seq<char>)
    ensures
        keyed_map(s, f).contains_key(k) <==> has_key(s, k),
    decreases s.len(),
{
    if s.len() > 0 {
        lemma_keyed_dom(s.drop_last(), f, k);
        let p = s.drop_last();
        if has_key(p, k) {
            let i = choose|i: int| 0 <= i < p.len() && #[trigger] key_at(p, i) == k;
            assert(key_at(s, i) == k);
        }
        if has_key(s, k) && s.last().0@ != k {
            let i = choose|i: int| 0 <= i < s.len() && #[trigger] key_at(s, i) == k;
            assert(key_at(p, i) == k);
        }
        assert(key_at(s, s.len() - 1) == s.last().0@);
    }
}

pub proof fn lemma_keyed_value<V, W>(s: Seq<(String, V)>, f: spec_fn(V) -> W, i: int)
    requires
        unique_keys(s),
        0 <= i < s.len(),
    ensures
        keyed_map(s, f).contains_key(s[i].0@),
        keyed_map(s, f)[s[i].0@] == f(s[i].1),
    decreases s.len(),
{
    let p = s.drop_last();
    if i < s.len() - 1 {
        assert(key_at(s, i) != key_at(s, s.len() - 1));
        assert forall|a: int, b: int|
            0 <= a < p.len() && 0 <= b < p.len() && a != b implies #[trigger] key_at(p, a)
            != #[trigger] key_at(p, b) by {
            assert(key_at(s, a) != key_at(s, b));
        }
        lemma_keyed_value(p, f, i);
    }
}

/// Every key of the map is carried by a unique pair whose value it maps to.
pub proof fn lemma_keyed_lookup<V, W>(s: Seq<(String, V)>, f: spec_fn(V) -> W, k: Seq<char>) -> (i: int)
    requires
        unique_keys(s),
        keyed_map(s, f).contains_key(k),
    ensures
        0 <= i < s.len(),
        s[i].0@ == k,
        keyed_map(s, f)[k] == f(s[i].1),
{
    lemma_keyed_dom(s, f, k);
    let i = choose|i: int| 0 <= i < s.len() && #[trigger] key_at(s, i) == k;
    lemma_keyed_value(s, f, i);
    i
}

/// Replacing the value of one pair replaces the value at its key.
pub proof fn lemma_keyed_update<V, W>(s: Seq<(String, V)>, f: spec_fn(V) -> W, i: int, x: (String, V))
    requires
        unique_keys(s),
        0 <= i < s.len(),
        x.0@ == s[i].0@,
    ensures
        unique_keys(s.update(i, x)),
        keyed_map(s.update(i, x), f) == keyed_map(s, f).insert(x.0@, f(x.1)),
{
    let t = s.update(i, x);
    assert forall|a: int, b: int|
        0 <= a < t.len() && 0 <= b < t.len() && a != b implies #[trigger] key_at(t, a) != #[trigger] key_at(
        t,
        b,
    ) by {
        assert(key_at(s, a) != key_at(s, b));
    }
    let m1 = keyed_map(t, f);
    let m2 = keyed_map(s, f).insert(x.0@, f(x.1));
    assert forall|k: Seq<char>| m1.contains_key(k) <==> m2.contains_key(k) by {
        lemma_keyed_dom(t, f, k);
        lemma_keyed_dom(s, f, k);
        assert(key_at(s, i) == x.0@);
        assert(key_at(t, i) == x.0@);
        if has_key(s, k) {
            let j = choose|j: int| 0 <= j < s.len() && #[trigger] key_at(s, j) == k;
            assert(key_at(t, j) == k);
        }
        if has_key(t, k) {
            let j = choose|j: int| 0 <= j < t.len() && #[trigger] key_at(t, j) == k;
            assert(key_at(s, j) == k);
        }
    }
    assert forall|k: Seq<char>| m1.contains_key(k) implies m1[k] == m2[k] by {
        let j = lemma_keyed_lookup(t, f, k);
        if j == i {
            lemma_keyed_value(t, f, i);
        } else {
            lemma_keyed_value(s, f, j);
            assert(key_at(t, j) != key_at(t, i));
        }
    }
    assert(m1 =~= m2);
}

/// Appending a pair with a fresh key keeps the keys unique.
pub proof fn lemma_push_unique<V>(s: Seq<(String, V)>, x: (String, V))
    requires
        unique_keys(s),
        !has_key(s, x.0@),
    ensures
        unique_keys(s.push(x)),
{
    let t = s.push(x);
    assert forall|a: int, b: int|
        0 <= a < t.len() && 0 <= b < t.len() && a != b implies #[trigger] key_at(t, a) != #[trigger] key_at(
        t,
        b,
    ) by {
        if a < s.len() && b < s.len() {
            assert(key_at(s, a) != key_at(s, b));
        } else if a < s.len() {
            assert(key_at(s, a) == key_at(t, a));
        } else {
            assert(key_at(s, b) == key_at(t, b));
        }
    }
}

/// The position of the pair whose key is `key`, if there is one.
pub fn find_key<V>(entries: &Vec<(String, V)>, key: &String) -> (r: Option<usize>)
    ensures
        match r {
            Some(i) => i < entries@.len() && entries@[i as int].0@ == key@ && forall|j: int|
                0 <= j < i ==> #[trigger] key_at(entries@, j) != key@,
            None => !has_key(entries@, key@),
        },
{
    let mut i: usize = 0;
    while i < entries.len()
        invariant
            i <= entries@.len(),
            forall|j: int| 0 <= j < i ==> #[trigger] key_at(entries@, j) != key@,
        decreases entries@.len() - i,
    {
        if entries[i].0 == *key {
            return Some(i);
        }
        i = i + 1;
    }
    None
}

} // verus!

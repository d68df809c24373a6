//! JSON values and reading members of objects.
use vstd::prelude::*;

use crate::keyed::{find_key, has_key, key_at};

verus! {

/// A JSON value. A number keeps the exact text it was written with.
#[derive(Debug)]
pub enum Json {
    Null,
    Bool(bool),
    Number(String),
    Str(String),
    Array(Vec<Json>),
    Object(Vec<(String, Json)>),
}

/// `i` is the first position whose key is `k`.
pub open spec fn first_key_at<V>(s: Seq<(String, V)>, k: Seq<char>, i: int) -> bool {
    0 <= i < s.len() && key_at(s, i) == k && forall|j: int| 0 <= j < i ==> #[trigger] key_at(s, j) != k
}

/// The value of the first member named `k`.
pub open spec fn lookup(s: Seq<(String, Json)>, k: Seq<char>) -> Option<Json> {
    if has_key(s, k) {
        let i = choose|i: int| first_key_at(s, k, i);
        Some(s[i].1)
    } else {
        None
    }
}

pub proof fn lemma_first_key(s: Seq<(String, Json)>, k: Seq<char>, i: int)
    requires
        first_key_at(s, k, i),
    ensures
        lookup(s, k) == Some(s[i].1),
{
    assert(key_at(s, i) == k);
    let j = choose|j: int| first_key_at(s, k, j);
    if j < i {
        assert(key_at(s, j) != k);
    } else if j > i {
        assert(key_at(s, i) != k);
    }
}

/// The member of an object named `name`; the first one where several share it.
pub fn member<'a>(fields: &'a Vec<(String, Json)>, name: &String) -> (r: Option<&'a Json>)
    ensures
        match lookup(fields@, name@) {
            Some(v) => r == Some(&v),
            None => r is None,
        },
{
    let mut i: usize = 0;
    while i < fields.len()
        invariant
            i <= fields@.len(),
            forall|j: int| 0 <= j < i ==> #[trigger] key_at(fields@, j) != name@,
        decreases fields@.len() - i,
    {
        if fields[i].0 == *name {
            proof {
                lemma_first_key(fields@, name@, i as int);
            }
            return Some(&fields[i].1);
        }
        i = i + 1;
    }
    proof {
        if has_key(fields@, name@) {
            let j = choose|j: int| 0 <= j < fields@.len() && #[trigger] key_at(fields@, j) == name@;
        }
    }
    None
}

/// `r` is object `ms` with member `name` set to `v`: the first member of that name
/// takes the value, or a new last member is added where there is none.
pub open spec fn member_set(ms: Seq<(String, Json)>, name: Seq<char>, v: Json, r: Seq<(String, Json)>) -> bool {
    if has_key(ms, name) {
        exists|i: int|
            first_key_at(ms, name, i) && r.len() == ms.len() && r[i].0@ == name && r[i].1 == v && forall|j: int|
                0 <= j < ms.len() && j != i ==> #[trigger] r[j] == ms[j]
    } else {
        r.len() == ms.len() + 1 && r.drop_last() == ms && r.last().0@ == name && r.last().1 == v
    }
}

/// Sets member `name` of an object to `v`: the first member of that name where there is
/// one, a new last member where not.
pub fn set_member(ms: &mut Vec<(String, Json)>, name: String, v: Json)
    ensures
        member_set(old(ms)@, name@, v, final(ms)@),
{
    match find_key(ms, &name) {
        Some(i) => {
            let ghost before = ms@;
            let (k, _) = ms.remove(i);
            ms.insert(i, (k, v));
            proof {
                assert(ms@ =~= before.update(i as int, (before[i as int].0, v)));
                assert(first_key_at(before, name@, i as int));
                assert(ms@[i as int].1 == v);
            }
        },
        None => {
            let ghost before = ms@;
            ms.push((name, v));
            proof {
                assert(ms@.drop_last() =~= before);
            }
        },
    }
}

/// The text of a member that is a JSON string.
pub open spec fn str_member(s: Seq<(String, Json)>, k: Seq<char>) -> Option<Seq<char>> {
    match lookup(s, k) {
        Some(Json::Str(t)) => Some(t@),
        _ => None,
    }
}

/// The text of the member named `name`, where it is a JSON string.
pub fn str_member_of<'a>(fields: &'a Vec<(String, Json)>, name: &String) -> (r: Option<&'a String>)
    ensures
        match str_member(fields@, name@) {
            Some(t) => r is Some && r->0@ == t,
            None => r is None,
        },
{
    match member(fields, name) {
        Some(Json::Str(t)) => Some(t),
        _ => None,
    }
}

} // verus!

//! The aggregate state: one summary per field, and combining two states.
use vstd::prelude::*;

use crate::entry::{merge_result, merged_entry, AggEntry, EntryView, Scalar};
use crate::error::{ErrView, StatsError};
use crate::keyed::{
    find_key, has_key, key_at, keyed_map, lemma_keyed_dom, lemma_keyed_update, lemma_keyed_value,
    lemma_push_unique, unique_keys,
};

verus! {

/// How a stored entry reads.
pub open spec fn entry_view<R: Scalar>() -> spec_fn(AggEntry<R>) -> EntryView<R> {
    |e: AggEntry<R>| e@
}

/// The summary of field `k` after summary `e` is merged into `m`: adopted where `m` has
/// none for `k`.
pub open spec fn merge_into<R: Scalar>(m: Map<Seq<char>, EntryView<R>>, k: Seq<char>, e: EntryView<R>) -> Result<
    Map<Seq<char>, EntryView<R>>,
    ErrView,
> {
    if m.contains_key(k) {
        match merge_result(k, m[k], e) {
            Ok(v) => Ok(m.insert(k, v)),
            Err(x) => Err(x),
        }
    } else {
        Ok(m.insert(k, e))
    }
}

/// `m` after each `(field, summary)` of `s` is merged into it, in order; the first
/// refusal ends it.
pub open spec fn merge_all<R: Scalar>(m: Map<Seq<char>, EntryView<R>>, s: Seq<(Seq<char>, EntryView<R>)>) -> Result<
    Map<Seq<char>, EntryView<R>>,
    ErrView,
>
    decreases s.len(),
{
    if s.len() == 0 {
        Ok(m)
    } else {
        match merge_into(m, s[0].0, s[0].1) {
            Ok(m2) => merge_all(m2, s.drop_first()),
            Err(x) => Err(x),
        }
    }
}

/// The `(field, summary)` pairs of a sequence of stored entries.
pub open spec fn entry_pairs<R: Scalar>(s: Seq<(String, AggEntry<R>)>) -> Seq<(Seq<char>, EntryView<R>)> {
    s.map_values(|p: (String, AggEntry<R>)| (p.0@, p.1@))
}

/// The aggregate state: one running summary per field name, in order of first
/// appearance.
pub struct StatsState<R> {
    pub entries: Vec<(String, AggEntry<R>)>,
}

impl<R: Scalar> View for StatsState<R> {
    type V = Map<Seq<char>, EntryView<R>>;

    open spec fn view(&self) -> Map<Seq<char>, EntryView<R>> {
        keyed_map(self.entries@, entry_view())
    }
}

impl<R: Scalar> StatsState<R> {
    pub open spec fn wf(&self) -> bool {
        &&& unique_keys(self.entries@)
        &&& forall|i: int| 0 <= i < self.entries@.len() ==> (#[trigger] self.entries@[i]).1.wf()
    }

    /// A state with no fields.
    pub fn new() -> (r: Self)
        ensures
            r.wf(),
            r@ == Map::<Seq<char>, EntryView<R>>::empty(),
    {
        StatsState { entries: Vec::new() }
    }

    /// The state of the given summaries, in their order; none where two share a field
    /// name or a summary's tallies share a key.
    pub fn from_entries(entries: Vec<(String, AggEntry<R>)>) -> (r: Option<Self>)
        ensures
            match r {
                Some(s) => s.wf() && s.entries@ == entries@,
                None => !(unique_keys(entries@) && forall|i: int|
                    0 <= i < entries@.len() ==> (#[trigger] entries@[i]).1.wf()),
            },
    {
        let mut i: usize = 0;
        while i < entries.len()
            invariant
                i <= entries@.len(),
                forall|a: int| 0 <= a < i ==> (#[trigger] entries@[a]).1.wf(),
                forall|a: int, b: int|
                    0 <= a < i && 0 <= b < entries@.len() && a != b ==> #[trigger] key_at(entries@, a)
                        != #[trigger] key_at(entries@, b),
            decreases entries@.len() - i,
        {
            if !entries[i].1.check_wf() {
                return None;
            }
            let mut j: usize = 0;
            while j < entries.len()
                invariant
                    i < entries@.len(),
                    j <= entries@.len(),
                    forall|b: int|
                        0 <= b < j && b != i ==> key_at(entries@, i as int) != #[trigger] key_at(entries@, b),
                decreases entries@.len() - j,
            {
                if j != i && entries[i].0 == entries[j].0 {
                    proof {
                        assert(key_at(entries@, i as int) == key_at(entries@, j as int));
                    }
                    return None;
                }
                j = j + 1;
            }
            i = i + 1;
        }
        Some(StatsState { entries })
    }

    /// The number of fields.
    pub fn len(&self) -> (r: usize)
        requires
            self.wf(),
        ensures
            r == self@.len(),
    {
        proof {
            lemma_len_of(self.entries@);
        }
        self.entries.len()
    }

    /// The summary of field `key`, if it has one.
    pub fn get(&self, key: &String) -> (r: Option<&AggEntry<R>>)
        requires
            self.wf(),
        ensures
            match r {
                Some(e) => self@.contains_key(key@) && self@[key@] == e@ && e.wf(),
                None => !self@.contains_key(key@),
            },
    {
        match find_key(&self.entries, key) {
            Some(i) => {
                proof {
                    lemma_keyed_value(self.entries@, entry_view::<R>(), i as int);
                }
                Some(&self.entries[i].1)
            },
            None => {
                proof {
                    lemma_keyed_dom(self.entries@, entry_view::<R>(), key@);
                }
                None
            },
        }
    }

    /// Merges summary `incoming` of field `key` into the state: into the field's summary
    /// where it has one, as the field's summary where not. A refused merge leaves the
    /// state as it was.
    pub fn merge_entry(&mut self, key: String, incoming: AggEntry<R>) -> (r: Result<(), StatsError>)
        requires
            old(self).wf(),
            incoming.wf(),
        ensures
            final(self).wf(),
            match r {
                Ok(()) => merge_into(old(self)@, key@, incoming@) == Ok::<
                    Map<Seq<char>, EntryView<R>>,
                    ErrView,
                >(final(self)@),
                Err(e) => merge_into(old(self)@, key@, incoming@) == Err::<
                    Map<Seq<char>, EntryView<R>>,
                    ErrView,
                >(e@) && final(self).entries@ == old(self).entries@,
            },
    {
        match find_key(&self.entries, &key) {
            Some(i) => {
                proof {
                    lemma_keyed_value(self.entries@, entry_view::<R>(), i as int);
                    assert(self.entries@[i as int].1.wf());
                }
                let ghost before = self.entries@;
                let (k, cur) = self.entries.remove(i);
                match merged_entry(cur, incoming, &k) {
                    Ok(m) => {
                        proof {
                            lemma_keyed_update(before, entry_view::<R>(), i as int, (k, m));
                        }
                        self.entries.insert(i, (k, m));
                        proof {
                            assert(self.entries@ =~= before.update(i as int, (k, m)));
                            assert forall|j: int| 0 <= j < self.entries@.len() implies (
                            #[trigger] self.entries@[j]).1.wf() by {
                                if j != i {
                                    assert(self.entries@[j] == before[j]);
                                }
                            }
                        }
                        Ok(())
                    },
                    Err((back, e)) => {
                        self.entries.insert(i, (k, back));
                        proof {
                            assert(self.entries@ =~= before);
                        }
                        Err(e)
                    },
                }
            },
            None => {
                proof {
                    lemma_keyed_dom(self.entries@, entry_view::<R>(), key@);
                    lemma_push_unique(self.entries@, (key, incoming));
                }
                let ghost before = self.entries@;
                self.entries.push((key, incoming));
                proof {
                    assert(self.entries@.drop_last() =~= before);
                    assert forall|j: int| 0 <= j < self.entries@.len() implies (
                    #[trigger] self.entries@[j]).1.wf() by {
                        if j < before.len() {
                            assert(self.entries@[j] == before[j]);
                        }
                    }
                }
                Ok(())
            },
        }
    }

    /// Folds another worker's state into this one, field by field, in the other state's
    /// order. The other state is consumed.
    pub fn combine(&mut self, other: StatsState<R>) -> (r: Result<(), StatsError>)
        requires
            old(self).wf(),
            other.wf(),
        ensures
            match r {
                Ok(()) => final(self).wf() && merge_all(old(self)@, entry_pairs(other.entries@))
                    == Ok::<Map<Seq<char>, EntryView<R>>, ErrView>(final(self)@),
                Err(e) => merge_all(old(self)@, entry_pairs(other.entries@)) == Err::<
                    Map<Seq<char>, EntryView<R>>,
                    ErrView,
                >(e@),
            },
    {
        let ghost all = entry_pairs(other.entries@);
        let mut rest = other.entries;
        while rest.len() > 0
            invariant
                self.wf(),
                all == entry_pairs(other.entries@),
                forall|i: int| 0 <= i < rest@.len() ==> (#[trigger] rest@[i]).1.wf(),
                merge_all(old(self)@, all) == merge_all(self@, entry_pairs(rest@)),
            decreases rest@.len(),
        {
            let ghost before = rest@;
            let (key, entry) = rest.remove(0);
            proof {
                assert(before[0].1.wf());
                assert(entry_pairs(rest@) =~= entry_pairs(before).drop_first());
                assert forall|i: int| 0 <= i < rest@.len() implies (#[trigger] rest@[i]).1.wf() by {
                    assert(rest@[i] == before[i + 1]);
                }
                assert(entry_pairs(before)[0] == (key@, entry@));
            }
            match self.merge_entry(key, entry) {
                Ok(()) => {},
                Err(e) => {
                    return Err(e);
                },
            }
        }
        Ok(())
    }
}

proof fn lemma_len_of<R: Scalar>(s: Seq<(String, AggEntry<R>)>)
    requires
        unique_keys(s),
    ensures
        keyed_map(s, entry_view::<R>()).len() == s.len(),
        keyed_map(s, entry_view::<R>()).dom().finite(),
    decreases s.len(),
{
    if s.len() > 0 {
        let q = s.drop_last();
        assert forall|a: int, b: int|
            0 <= a < q.len() && 0 <= b < q.len() && a != b implies #[trigger] key_at(q, a) != #[trigger] key_at(
            q,
            b,
        ) by {
            assert(key_at(s, a) != key_at(s, b));
        }
        lemma_len_of(q);
        lemma_keyed_dom(q, entry_view::<R>(), s.last().0@);
        if has_key(q, s.last().0@) {
            let j = choose|j: int| 0 <= j < q.len() && #[trigger] key_at(q, j) == s.last().0@;
            assert(key_at(s, j) == key_at(s, s.len() - 1));
        }
    }
}

} // verus!

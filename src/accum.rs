//! Folding rows of typed stats into the aggregate state.
use vstd::prelude::*;
use vstd::string::*;

use crate::counts::{
    add_count, count_of, lemma_tally_fits_push, lemma_tally_split, tally_all, tally_fits, Counts,
};
use crate::entry::{
    is_numeric, max_opt, min_opt, num_view, opt_view, tally_view, AggEntry, AggKind, EntryView,
    NumFields, Scalar,
};
use crate::error::{ErrView, InvalidReason, StatsError};
use crate::json::{lookup, member, str_member, str_member_of, Json};
use crate::keyed::{
    find_key, lemma_keyed_dom, lemma_keyed_update, lemma_keyed_value, lemma_push_unique,
};
use crate::state::{entry_view, StatsState};
use crate::text::{array_text_items, is_negative_number, number_is_negative, split_array_text, text_less};

verus! {

/// The type of an input stat.
#[derive(PartialEq, Eq, Structural, Clone, Copy, Debug)]
pub enum StatKind {
    Int,
    Float,
    Dec2,
    Nat,
    Str,
    Bool,
    Arr,
    Date,
}

/// The stat type that a tag names.
pub open spec fn stat_kind_of(t: Seq<char>) -> Option<StatKind> {
    if t == "int"@ {
        Some(StatKind::Int)
    } else if t == "float"@ {
        Some(StatKind::Float)
    } else if t == "dec2"@ {
        Some(StatKind::Dec2)
    } else if t == "nat"@ {
        Some(StatKind::Nat)
    } else if t == "str"@ {
        Some(StatKind::Str)
    } else if t == "bool"@ {
        Some(StatKind::Bool)
    } else if t == "arr"@ {
        Some(StatKind::Arr)
    } else if t == "date"@ {
        Some(StatKind::Date)
    } else {
        None
    }
}

/// The summary type that a stat type accumulates into.
pub open spec fn agg_kind_of(k: StatKind) -> AggKind {
    match k {
        StatKind::Int => AggKind::IntAgg,
        StatKind::Float => AggKind::FloatAgg,
        StatKind::Dec2 => AggKind::Dec2Agg,
        StatKind::Nat => AggKind::NatAgg,
        StatKind::Str => AggKind::StrAgg,
        StatKind::Bool => AggKind::BoolAgg,
        StatKind::Arr => AggKind::ArrAgg,
        StatKind::Date => AggKind::DateAgg,
    }
}

/// The stat type that `t` names, if any.
pub fn parse_stat_kind(t: &String) -> (r: Option<StatKind>)
    ensures
        r == stat_kind_of(t@),
{
    if *t == String::from_str("int") {
        Some(StatKind::Int)
    } else if *t == String::from_str("float") {
        Some(StatKind::Float)
    } else if *t == String::from_str("dec2") {
        Some(StatKind::Dec2)
    } else if *t == String::from_str("nat") {
        Some(StatKind::Nat)
    } else if *t == String::from_str("str") {
        Some(StatKind::Str)
    } else if *t == String::from_str("bool") {
        Some(StatKind::Bool)
    } else if *t == String::from_str("arr") {
        Some(StatKind::Arr)
    } else if *t == String::from_str("date") {
        Some(StatKind::Date)
    } else {
        None
    }
}

pub open spec fn bool_text(b: bool) -> Seq<char> {
    if b {
        "true"@
    } else {
        "false"@
    }
}

/// The category key of a JSON value: a string stands for itself, a number for its text,
/// a boolean for `true` or `false`; other values have none.
pub open spec fn atom_key(v: Json) -> Option<Seq<char>> {
    match v {
        Json::Str(s) => Some(s@),
        Json::Number(t) => Some(t@),
        Json::Bool(b) => Some(bool_text(b)),
        _ => None,
    }
}

pub open spec fn value_key(v: Option<Json>) -> Option<Seq<char>> {
    match v {
        Some(j) => atom_key(j),
        None => None,
    }
}

/// The category keys of the elements of an array, elements without one left out.
pub open spec fn atom_keys(s: Seq<Json>) -> Seq<Seq<char>>
    decreases s.len(),
{
    if s.len() == 0 {
        Seq::empty()
    } else {
        let r = atom_keys(s.drop_last());
        match atom_key(s.last()) {
            Some(k) => r.push(k),
            None => r,
        }
    }
}

/// The elements of an array stat's value: those of a JSON array, or the items of the
/// text form `{a,b,c}`; none for any other value.
pub open spec fn arr_items(v: Option<Json>) -> Seq<Seq<char>> {
    match v {
        Some(Json::Array(items)) => atom_keys(items@),
        Some(Json::Str(s)) => array_text_items(s@),
        _ => Seq::empty(),
    }
}

pub open spec fn views(s: Seq<String>) -> Seq<Seq<char>> {
    s.map_values(|x: String| x@)
}

/// The `value` member of a stat.
pub open spec fn value_of(stat: Seq<(String, Json)>) -> Option<Json> {
    lookup(stat, "value"@)
}

pub open spec fn invalid<R: Scalar>(key: Seq<char>, reason: InvalidReason) -> Result<EntryView<R>, ErrView> {
    Err(ErrView::InvalidValue(key, reason))
}

/// The value of an array stat can be read: a JSON array, or text.
pub open spec fn has_arr_value(v: Option<Json>) -> bool {
    v matches Some(Json::Array(_)) || v matches Some(Json::Str(_))
}

/// The summary that a first stat of type `kind` for field `key` starts.
pub open spec fn init_result<R: Scalar>(key: Seq<char>, kind: StatKind, stat: Seq<(String, Json)>) -> Result<
    EntryView<R>,
    ErrView,
> {
    let v = value_of(stat);
    let empty = Map::<Seq<char>, nat>::empty();
    match kind {
        StatKind::Int | StatKind::Float | StatKind::Dec2 | StatKind::Nat => match v {
            Some(Json::Number(t)) => if kind == StatKind::Nat && is_negative_number(t@) {
                invalid(key, InvalidReason::NegativeNat)
            } else {
                Ok(num_view(agg_kind_of(kind), NumFields::spec_init(R::spec_from_text(t))))
            },
            _ => invalid(key, InvalidReason::NotANumber),
        },
        StatKind::Str | StatKind::Bool => match value_key(v) {
            Some(s) => Ok(tally_view(agg_kind_of(kind), 0, add_count(empty, s, 1))),
            None => invalid(key, InvalidReason::MissingValue),
        },
        StatKind::Arr => if !has_arr_value(v) {
            invalid(key, InvalidReason::MissingValue)
        } else if tally_fits(empty, arr_items(v)) {
            Ok(tally_view(AggKind::ArrAgg, 1, tally_all(empty, arr_items(v))))
        } else {
            invalid(key, InvalidReason::CountOverflow)
        },
        StatKind::Date => match v {
            Some(Json::Str(s)) => Ok(
                EntryView {
                    kind: AggKind::DateAgg,
                    count: 0,
                    counts: add_count(empty, s@, 1),
                    min: Some(s@),
                    max: Some(s@),
                    moments: None,
                },
            ),
            _ => invalid(key, InvalidReason::NotAString),
        },
    }
}

/// What a further stat of type `kind` for field `key` makes of its summary `e`; a stat
/// whose type is not the summary's is refused.
pub open spec fn update_result<R: Scalar>(
    key: Seq<char>,
    e: EntryView<R>,
    kind: StatKind,
    stat: Seq<(String, Json)>,
) -> Result<EntryView<R>, ErrView> {
    let v = value_of(stat);
    if agg_kind_of(kind) != e.kind {
        Err(ErrView::TypeMismatch(key, e.kind, agg_kind_of(kind)))
    } else if is_numeric(e.kind) {
        match v {
            Some(Json::Number(t)) => if e.kind == AggKind::NatAgg && is_negative_number(t@) {
                invalid(key, InvalidReason::NegativeNat)
            } else if e.count + 1 > u64::MAX {
                invalid(key, InvalidReason::CountOverflow)
            } else {
                Ok(
                    EntryView {
                        count: e.count + 1,
                        moments: match e.moments {
                            Some(f) => Some(f.spec_updated(R::spec_from_text(t))),
                            None => None,
                        },
                        ..e
                    },
                )
            },
            _ => invalid(key, InvalidReason::NotANumber),
        }
    } else if e.kind == AggKind::StrAgg || e.kind == AggKind::BoolAgg {
        match value_key(v) {
            Some(s) => if count_of(e.counts, s) + 1 > u64::MAX {
                invalid(key, InvalidReason::CountOverflow)
            } else {
                Ok(EntryView { counts: add_count(e.counts, s, 1), ..e })
            },
            None => invalid(key, InvalidReason::MissingValue),
        }
    } else if e.kind == AggKind::ArrAgg {
        if !has_arr_value(v) {
            invalid(key, InvalidReason::MissingValue)
        } else if e.count + 1 > u64::MAX || !tally_fits(e.counts, arr_items(v)) {
            invalid(key, InvalidReason::CountOverflow)
        } else {
            Ok(EntryView { count: e.count + 1, counts: tally_all(e.counts, arr_items(v)), ..e })
        }
    } else {
        match v {
            Some(Json::Str(s)) => if count_of(e.counts, s@) + 1 > u64::MAX {
                invalid(key, InvalidReason::CountOverflow)
            } else {
                Ok(
                    EntryView {
                        counts: add_count(e.counts, s@, 1),
                        min: min_opt(e.min, Some(s@)),
                        max: max_opt(e.max, Some(s@)),
                        ..e
                    },
                )
            },
            _ => invalid(key, InvalidReason::NotAString),
        }
    }
}

/// The state after the stat `stat` of field `key`: the reserved key `type`, a stat
/// that is not an object and one without a string `type` are passed over.
pub open spec fn accum_field<R: Scalar>(m: Map<Seq<char>, EntryView<R>>, key: Seq<char>, stat: Json) -> Result<
    Map<Seq<char>, EntryView<R>>,
    ErrView,
> {
    if key == "type"@ {
        Ok(m)
    } else {
        match stat {
            Json::Object(fields) => match str_member(fields@, "type"@) {
                None => Ok(m),
                Some(t) => match stat_kind_of(t) {
                    None => Err(ErrView::UnknownStatType(t)),
                    Some(kind) => {
                        let r = if m.contains_key(key) {
                            update_result(key, m[key], kind, fields@)
                        } else {
                            init_result(key, kind, fields@)
                        };
                        match r {
                            Ok(e) => Ok(m.insert(key, e)),
                            Err(x) => Err(x),
                        }
                    },
                },
            },
            _ => Ok(m),
        }
    }
}

/// The state after each field of a row, in order; the first refusal ends it.
pub open spec fn accum_fields<R: Scalar>(m: Map<Seq<char>, EntryView<R>>, s: Seq<(String, Json)>) -> Result<
    Map<Seq<char>, EntryView<R>>,
    ErrView,
>
    decreases s.len(),
{
    if s.len() == 0 {
        Ok(m)
    } else {
        match accum_field(m, s[0].0@, s[0].1) {
            Ok(m2) => accum_fields(m2, s.drop_first()),
            Err(x) => Err(x),
        }
    }
}

/// The state after one row; a row that is not an object leaves it as it is.
pub open spec fn accum_row<R: Scalar>(m: Map<Seq<char>, EntryView<R>>, row: Json) -> Result<Map<Seq<char>, EntryView<R>>, ErrView> {
    match row {
        Json::Object(fields) => accum_fields(m, fields@),
        _ => Ok(m),
    }
}

/// The category key of a JSON value, if it has one.
fn atom_to_key(v: &Json) -> (r: Option<String>)
    ensures
        opt_view(r) == atom_key(*v),
{
    match v {
        Json::Str(s) => Some(s.clone()),
        Json::Number(t) => Some(t.clone()),
        Json::Bool(b) => if *b {
            Some(String::from_str("true"))
        } else {
            Some(String::from_str("false"))
        },
        _ => None,
    }
}

/// The `value` of a stat as a category key.
pub fn value_to_string(stat: &Vec<(String, Json)>) -> (r: Option<String>)
    ensures
        opt_view(r) == value_key(value_of(stat@)),
{
    match member(stat, &String::from_str("value")) {
        Some(v) => atom_to_key(v),
        None => None,
    }
}

/// The category keys of the elements of an array.
fn atom_keys_of(items: &Vec<Json>) -> (r: Vec<String>)
    ensures
        views(r@) == atom_keys(items@),
{
    let mut out: Vec<String> = Vec::new();
    let mut i: usize = 0;
    while i < items.len()
        invariant
            i <= items@.len(),
            views(out@) == atom_keys(items@.take(i as int)),
        decreases items@.len() - i,
    {
        proof {
            assert(items@.take(i + 1).drop_last() =~= items@.take(i as int));
        }
        match atom_to_key(&items[i]) {
            Some(k) => {
                let ghost before = out@;
                out.push(k);
                proof {
                    assert(views(out@) =~= views(before).push(k@));
                }
            },
            None => {},
        }
        i = i + 1;
    }
    proof {
        assert(items@.take(i as int) =~= items@);
    }
    out
}

/// The elements of an array stat's value.
fn arr_items_of(stat: &Vec<(String, Json)>) -> (r: Vec<String>)
    ensures
        views(r@) == arr_items(value_of(stat@)),
{
    match member(stat, &String::from_str("value")) {
        Some(Json::Array(items)) => atom_keys_of(items),
        Some(Json::Str(s)) => {
            let r = split_array_text(s);
            proof {
                assert(views(r@) =~= array_text_items(s@));
            }
            r
        },
        _ => {
            let r: Vec<String> = Vec::new();
            proof {
                assert(views(r@) =~= Seq::<Seq<char>>::empty());
            }
            r
        },
    }
}

proof fn lemma_tally_fits_prefix(m: Map<Seq<char>, nat>, s: Seq<Seq<char>>, i: int)
    requires
        0 <= i <= s.len(),
        tally_fits(m, s),
    ensures
        tally_fits(m, s.take(i)),
    decreases s.len(),
{
    broadcast use vstd::seq_lib::group_to_multiset_ensures;

    if i < s.len() {
        let p = s.drop_last();
        assert(s =~= p.push(s.last()));
        assert(s.to_multiset() =~= p.to_multiset().insert(s.last()));
        assert forall|k: Seq<char>| count_of(m, k) + #[trigger] p.to_multiset().count(k) <= u64::MAX by {
            assert(count_of(m, k) + s.to_multiset().count(k) <= u64::MAX);
        }
        assert(p.take(i) =~= s.take(i));
        lemma_tally_fits_prefix(m, p, i);
    } else {
        assert(s.take(i) =~= s);
    }
}

impl Counts {
    /// Adds one occurrence of each key of `keys`; false where a tally would no longer fit
    /// in a `u64`.
    pub fn add_all(&mut self, keys: &Vec<String>) -> (r: bool)
        requires
            old(self).wf(),
        ensures
            final(self).wf(),
            r == tally_fits(old(self)@, views(keys@)),
            r ==> final(self)@ == tally_all(old(self)@, views(keys@)),
    {
        let ghost start = self@;
        let ghost all = views(keys@);
        let mut i: usize = 0;
        proof {
            assert(all.take(0) =~= Seq::<Seq<char>>::empty());
            self.lemma_fits_empty();
        }
        while i < keys.len()
            invariant
                self.wf(),
                start == old(self)@,
                all == views(keys@),
                i <= keys@.len(),
                self@ == tally_all(start, all.take(i as int)),
                tally_fits(start, all.take(i as int)),
            decreases keys@.len() - i,
        {
            let k = keys[i].clone();
            proof {
                assert(all.take(i + 1) =~= all.take(i as int).push(k@));
                lemma_tally_fits_push(start, all.take(i as int), k@);
            }
            if !self.add(k, 1) {
                proof {
                    if tally_fits(start, all) {
                        lemma_tally_fits_prefix(start, all, i + 1);
                    }
                }
                return false;
            }
            i = i + 1;
        }
        proof {
            assert(all.take(i as int) =~= all);
        }
        true
    }
}

/// Tallies the elements of an array stat's value into `counts`; false, with `counts`
/// untouched, where a tally would no longer fit in a `u64`.
pub fn collect_arr_counts(stat: &Vec<(String, Json)>, counts: &mut Counts) -> (r: bool)
    requires
        old(counts).wf(),
    ensures
        final(counts).wf(),
        r == tally_fits(old(counts)@, arr_items(value_of(stat@))),
        r ==> final(counts)@ == tally_all(old(counts)@, arr_items(value_of(stat@))),
        !r ==> *final(counts) == *old(counts),
{
    let items = arr_items_of(stat);
    let mut fresh = Counts::new();
    proof {
        counts.lemma_bounded();
        lemma_tally_split(counts@, views(items@));
    }
    if !fresh.add_all(&items) {
        return false;
    }
    if !counts.fits_with(&fresh) {
        return false;
    }
    counts.merge_from(&fresh);
    true
}

/// The numeric `value` of a stat, as its JSON text.
fn number_of(stat: &Vec<(String, Json)>) -> (r: Option<&String>)
    ensures
        match value_of(stat@) {
            Some(Json::Number(t)) => r == Some(&t),
            _ => r is None,
        },
{
    match member(stat, &String::from_str("value")) {
        Some(Json::Number(t)) => Some(t),
        _ => None,
    }
}

/// The string `value` of a stat.
fn text_of(stat: &Vec<(String, Json)>) -> (r: Option<&String>)
    ensures
        match value_of(stat@) {
            Some(Json::Str(t)) => r == Some(&t),
            _ => r is None,
        },
{
    match member(stat, &String::from_str("value")) {
        Some(Json::Str(t)) => Some(t),
        _ => None,
    }
}

/// Whether an array stat's value can be read.
fn arr_value_present(stat: &Vec<(String, Json)>) -> (r: bool)
    ensures
        r == has_arr_value(value_of(stat@)),
{
    match member(stat, &String::from_str("value")) {
        Some(Json::Array(_)) => true,
        Some(Json::Str(_)) => true,
        _ => false,
    }
}

fn invalid_value(key: &String, reason: InvalidReason) -> (r: StatsError)
    ensures
        r@ == ErrView::InvalidValue(key@, reason),
{
    StatsError::InvalidValue { key: key.clone(), reason }
}

/// The summary type that a stat type accumulates into.
pub fn agg_kind_for(kind: StatKind) -> (r: AggKind)
    ensures
        r == agg_kind_of(kind),
{
    match kind {
        StatKind::Int => AggKind::IntAgg,
        StatKind::Float => AggKind::FloatAgg,
        StatKind::Dec2 => AggKind::Dec2Agg,
        StatKind::Nat => AggKind::NatAgg,
        StatKind::Str => AggKind::StrAgg,
        StatKind::Bool => AggKind::BoolAgg,
        StatKind::Arr => AggKind::ArrAgg,
        StatKind::Date => AggKind::DateAgg,
    }
}

/// Starts the summary of field `key` from its first stat, of type `kind`: numeric
/// moments of the one value, a tally of the one key, the array's element tally, or the
/// date as its own bounds.
pub fn init_entry<R: Scalar>(stat: &Vec<(String, Json)>, kind: StatKind, key: &String) -> (r: Result<
    AggEntry<R>,
    StatsError,
>)
    ensures
        match r {
            Ok(e) => e.wf() && init_result::<R>(key@, kind, stat@) == Ok::<EntryView<R>, ErrView>(e@),
            Err(e) => init_result::<R>(key@, kind, stat@) == Err::<EntryView<R>, ErrView>(e@),
        },
{
    match kind {
        StatKind::Int | StatKind::Float | StatKind::Dec2 | StatKind::Nat => {
            let t = match number_of(stat) {
                Some(t) => t,
                None => {
                    return Err(invalid_value(key, InvalidReason::NotANumber));
                },
            };
            if kind == StatKind::Nat && number_is_negative(t) {
                return Err(invalid_value(key, InvalidReason::NegativeNat));
            }
            let f = NumFields::init(R::from_number_text(t));
            let e = match kind {
                StatKind::Int => AggEntry::IntAgg(f),
                StatKind::Float => AggEntry::FloatAgg(f),
                StatKind::Dec2 => AggEntry::Dec2Agg(f),
                _ => AggEntry::NatAgg(f),
            };
            Ok(e)
        },
        StatKind::Str | StatKind::Bool => {
            let s = match value_to_string(stat) {
                Some(s) => s,
                None => {
                    return Err(invalid_value(key, InvalidReason::MissingValue));
                },
            };
            let mut counts = Counts::new();
            counts.add(s, 1);
            if kind == StatKind::Str {
                Ok(AggEntry::StrAgg { counts })
            } else {
                Ok(AggEntry::BoolAgg { counts })
            }
        },
        StatKind::Arr => {
            if !arr_value_present(stat) {
                return Err(invalid_value(key, InvalidReason::MissingValue));
            }
            let mut counts = Counts::new();
            if !collect_arr_counts(stat, &mut counts) {
                return Err(invalid_value(key, InvalidReason::CountOverflow));
            }
            Ok(AggEntry::ArrAgg { count: 1, counts })
        },
        StatKind::Date => {
            let s = match text_of(stat) {
                Some(s) => s,
                None => {
                    return Err(invalid_value(key, InvalidReason::NotAString));
                },
            };
            let mut counts = Counts::new();
            counts.add(s.clone(), 1);
            Ok(AggEntry::DateAgg { counts, min_date: Some(s.clone()), max_date: Some(s.clone()) })
        },
    }
}

/// The numeric summary of type `kind` with moments `f`.
fn entry_of<R: Scalar>(kind: AggKind, f: NumFields<R>) -> (r: AggEntry<R>)
    requires
        is_numeric(kind),
    ensures
        r@ == num_view(kind, f),
        r.wf(),
        kind == AggKind::IntAgg ==> r == AggEntry::IntAgg(f),
        kind == AggKind::FloatAgg ==> r == AggEntry::FloatAgg(f),
        kind == AggKind::Dec2Agg ==> r == AggEntry::Dec2Agg(f),
        kind == AggKind::NatAgg ==> r == AggEntry::NatAgg(f),
{
    match kind {
        AggKind::IntAgg => AggEntry::IntAgg(f),
        AggKind::FloatAgg => AggEntry::FloatAgg(f),
        AggKind::Dec2Agg => AggEntry::Dec2Agg(f),
        _ => AggEntry::NatAgg(f),
    }
}

/// The later of a bound and a new date.
fn later_date(cur: Option<String>, s: &String) -> (r: Option<String>)
    ensures
        opt_view(r) == max_opt(opt_view(cur), Some(s@)),
{
    match cur {
        Some(c) => if text_less(&c, s) {
            Some(s.clone())
        } else {
            Some(c)
        },
        None => Some(s.clone()),
    }
}

/// The earlier of a bound and a new date.
fn earlier_date(cur: Option<String>, s: &String) -> (r: Option<String>)
    ensures
        opt_view(r) == min_opt(opt_view(cur), Some(s@)),
{
    match cur {
        Some(c) => if text_less(s, &c) {
            Some(s.clone())
        } else {
            Some(c)
        },
        None => Some(s.clone()),
    }
}

/// Folds one more stat, of type `kind`, of field `key` into its summary: the Welford
/// update of numeric moments, one more occurrence of a key, an array's elements, or a
/// date that may widen the bounds. A stat of another type than the summary's is
/// refused, and a refused stat leaves the summary as it was.
pub fn update_entry<R: Scalar>(
    entry: &mut AggEntry<R>,
    stat: &Vec<(String, Json)>,
    kind: StatKind,
    key: &String,
) -> (r: Result<(), StatsError>)
    requires
        old(entry).wf(),
    ensures
        match r {
            Ok(()) => final(entry).wf() && update_result(key@, old(entry)@, kind, stat@) == Ok::<
                EntryView<R>,
                ErrView,
            >(final(entry)@),
            Err(e) => update_result(key@, old(entry)@, kind, stat@) == Err::<EntryView<R>, ErrView>(e@)
                && *final(entry) == *old(entry),
        },
{
    let mut cur: AggEntry<R> = AggEntry::StrAgg { counts: Counts::new() };
    std::mem::swap(entry, &mut cur);
    match updated_entry(cur, stat, kind, key) {
        Ok(u) => {
            *entry = u;
            Ok(())
        },
        Err((back, e)) => {
            *entry = back;
            Err(e)
        },
    }
}

/// The summary that one more stat, of type `kind`, of field `key` makes of `entry`;
/// where the stat is refused, `entry` comes back unchanged with the error.
pub fn updated_entry<R: Scalar>(
    entry: AggEntry<R>,
    stat: &Vec<(String, Json)>,
    kind: StatKind,
    key: &String,
) -> (r: Result<AggEntry<R>, (AggEntry<R>, StatsError)>)
    requires
        entry.wf(),
    ensures
        match r {
            Ok(e) => e.wf() && update_result(key@, entry@, kind, stat@) == Ok::<EntryView<R>, ErrView>(e@),
            Err((back, e)) => back == entry && update_result(key@, entry@, kind, stat@) == Err::<
                EntryView<R>,
                ErrView,
            >(e@),
        },
{
    let ek = entry.kind();
    let sk = agg_kind_for(kind);
    if sk != ek {
        return Err((entry, StatsError::TypeMismatch { key: key.clone(), existing: ek, incoming: sk }));
    }
    let num = number_of(stat);
    if ek == AggKind::IntAgg || ek == AggKind::FloatAgg || ek == AggKind::Dec2Agg || ek == AggKind::NatAgg {
        let t = match num {
            Some(t) => t,
            None => {
                return Err((entry, invalid_value(key, InvalidReason::NotANumber)));
            },
        };
        if ek == AggKind::NatAgg && number_is_negative(t) {
            return Err((entry, invalid_value(key, InvalidReason::NegativeNat)));
        }
        if entry.row_count() == u64::MAX {
            return Err((entry, invalid_value(key, InvalidReason::CountOverflow)));
        }
    }
    match entry {
        AggEntry::IntAgg(mut f) | AggEntry::FloatAgg(mut f) | AggEntry::Dec2Agg(mut f) | AggEntry::NatAgg(
            mut f,
        ) => {
            let t = match num {
                Some(t) => t,
                None => {
                    return Err((entry_of(ek, f), invalid_value(key, InvalidReason::NotANumber)));
                },
            };
            f.update(R::from_number_text(t));
            Ok(entry_of(ek, f))
        },
        AggEntry::StrAgg { mut counts } => {
            let s = match value_to_string(stat) {
                Some(s) => s,
                None => {
                    return Err((AggEntry::StrAgg { counts }, invalid_value(key, InvalidReason::MissingValue)));
                },
            };
            if !counts.add(s, 1) {
                return Err((AggEntry::StrAgg { counts }, invalid_value(key, InvalidReason::CountOverflow)));
            }
            Ok(AggEntry::StrAgg { counts })
        },
        AggEntry::BoolAgg { mut counts } => {
            let s = match value_to_string(stat) {
                Some(s) => s,
                None => {
                    return Err((AggEntry::BoolAgg { counts }, invalid_value(key, InvalidReason::MissingValue)));
                },
            };
            if !counts.add(s, 1) {
                return Err((AggEntry::BoolAgg { counts }, invalid_value(key, InvalidReason::CountOverflow)));
            }
            Ok(AggEntry::BoolAgg { counts })
        },
        AggEntry::ArrAgg { count, mut counts } => {
            if !arr_value_present(stat) {
                return Err((AggEntry::ArrAgg { count, counts }, invalid_value(key, InvalidReason::MissingValue)));
            }
            if count == u64::MAX {
                return Err((AggEntry::ArrAgg { count, counts }, invalid_value(key, InvalidReason::CountOverflow)));
            }
            if !collect_arr_counts(stat, &mut counts) {
                return Err((AggEntry::ArrAgg { count, counts }, invalid_value(key, InvalidReason::CountOverflow)));
            }
            Ok(AggEntry::ArrAgg { count: count + 1, counts })
        },
        AggEntry::DateAgg { mut counts, min_date, max_date } => {
            let s = match text_of(stat) {
                Some(s) => s,
                None => {
                    return Err(
                        (
                            AggEntry::DateAgg { counts, min_date, max_date },
                            invalid_value(key, InvalidReason::NotAString),
                        ),
                    );
                },
            };
            if !counts.add(s.clone(), 1) {
                return Err(
                    (
                        AggEntry::DateAgg { counts, min_date, max_date },
                        invalid_value(key, InvalidReason::CountOverflow),
                    ),
                );
            }
            Ok(
                AggEntry::DateAgg {
                    counts,
                    min_date: earlier_date(min_date, s),
                    max_date: later_date(max_date, s),
                },
            )
        },
    }
}

impl<R: Scalar> StatsState<R> {
    /// Folds the stat `stat` of field `key` into the state; a refused stat leaves the
    /// state as it was.
    pub fn accumulate_field(&mut self, key: &String, stat: &Json) -> (r: Result<(), StatsError>)
        requires
            old(self).wf(),
        ensures
            final(self).wf(),
            match r {
                Ok(()) => accum_field(old(self)@, key@, *stat) == Ok::<
                    Map<Seq<char>, EntryView<R>>,
                    ErrView,
                >(final(self)@),
                Err(e) => accum_field(old(self)@, key@, *stat) == Err::<
                    Map<Seq<char>, EntryView<R>>,
                    ErrView,
                >(e@) && final(self).entries@ == old(self).entries@,
            },
    {
        let type_key = String::from_str("type");
        if *key == type_key {
            return Ok(());
        }
        let fields = match stat {
            Json::Object(fields) => fields,
            _ => {
                return Ok(());
            },
        };
        let t = match str_member_of(fields, &type_key) {
            Some(t) => t,
            None => {
                return Ok(());
            },
        };
        let kind = match parse_stat_kind(t) {
            Some(kind) => kind,
            None => {
                return Err(StatsError::UnknownStatType(t.clone()));
            },
        };
        match find_key(&self.entries, key) {
            Some(i) => {
                proof {
                    lemma_keyed_value(self.entries@, entry_view::<R>(), i as int);
                    assert(self.entries@[i as int].1.wf());
                }
                let ghost before = self.entries@;
                let (k, cur) = self.entries.remove(i);
                match updated_entry(cur, fields, kind, &k) {
                    Ok(m) => {
                        proof {
                            lemma_keyed_update(before, entry_view::<R>(), i as int, (k, m));
                        }
                        self.entries.insert(i, (k, m));
                        proof {
                            assert(self.entries@ =~= before.update(i as int, (k, m)));
                            assert forall|j: int| 0 <= j < self.entries@.len() implies (
                            #[trigger] self.entries@[j]).1.wf() by {
                                if j != i {
                                    assert(self.entries@[j] == before[j]);
                                }
                            }
                        }
                        Ok(())
                    },
                    Err((back, e)) => {
                        self.entries.insert(i, (k, back));
                        proof {
                            assert(self.entries@ =~= before);
                        }
                        Err(e)
                    },
                }
            },
            None => {
                proof {
                    lemma_keyed_dom(self.entries@, entry_view::<R>(), key@);
                }
                let e = init_entry(fields, kind, key)?;
                let k = key.clone();
                proof {
                    lemma_push_unique(self.entries@, (k, e));
                }
                let ghost before = self.entries@;
                self.entries.push((k, e));
                proof {
                    assert(self.entries@.drop_last() =~= before);
                    assert forall|j: int| 0 <= j < self.entries@.len() implies (
                    #[trigger] self.entries@[j]).1.wf() by {
                        if j < before.len() {
                            assert(self.entries@[j] == before[j]);
                        }
                    }
                }
                Ok(())
            },
        }
    }

    /// Folds one row of stats into the state, field by field, in the row's order. A row
    /// that is not an object leaves the state as it is.
    pub fn accumulate(&mut self, stats: &Json) -> (r: Result<(), StatsError>)
        requires
            old(self).wf(),
        ensures
            final(self).wf(),
            match r {
                Ok(()) => accum_row(old(self)@, *stats) == Ok::<
                    Map<Seq<char>, EntryView<R>>,
                    ErrView,
                >(final(self)@),
                Err(e) => accum_row(old(self)@, *stats) == Err::<Map<Seq<char>, EntryView<R>>, ErrView>(
                    e@,
                ),
            },
    {
        let fields = match stats {
            Json::Object(fields) => fields,
            _ => {
                return Ok(());
            },
        };
        let mut i: usize = 0;
        proof {
            assert(fields@.skip(0) =~= fields@);
        }
        while i < fields.len()
            invariant
                self.wf(),
                *stats == Json::Object(*fields),
                i <= fields@.len(),
                accum_fields(old(self)@, fields@) == accum_fields(self@, fields@.skip(i as int)),
            decreases fields@.len() - i,
        {
            proof {
                assert(fields@.skip(i as int).drop_first() =~= fields@.skip(i + 1));
                assert(fields@.skip(i as int)[0] == fields@[i as int]);
            }
            self.accumulate_field(&fields[i].0, &fields[i].1)?;
            i = i + 1;
        }
        Ok(())
    }
}

} // verus!

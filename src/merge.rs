//! Reading summary objects back and merging them into the aggregate state.
use vstd::prelude::*;

use crate::counts::Counts;
use crate::entry::{kind_of_tag, num_view, tally_view, AggEntry, AggKind, EntryView, NumFields, Scalar};
use crate::error::{ErrView, StatsError};
use crate::json::{lookup, member, str_member, str_member_of, Json};
use crate::keyed::keyed_map;
use crate::state::{merge_into, StatsState};
use crate::text::{parse_whole_text, whole_count};

verus! {

/// A tally written in JSON: a number that writes an unsigned integer (digits, possibly
/// with a fraction of zeros); anything else counts as zero.
pub open spec fn json_count(j: Json) -> nat {
    match j {
        Json::Number(t) => match whole_count(t@) {
            Some(n) => n,
            None => 0,
        },
        _ => 0,
    }
}

pub open spec fn json_count_fn() -> spec_fn(Json) -> nat {
    |j: Json| json_count(j)
}

/// The tally of member `name`, zero where there is none.
pub open spec fn count_member(obj: Seq<(String, Json)>, name: Seq<char>) -> nat {
    match lookup(obj, name) {
        Some(j) => json_count(j),
        None => 0,
    }
}

/// The `counts` member of a summary, read as a tally; a later key overrides an earlier
/// one, and a summary without such an object has none.
pub open spec fn parsed_counts(obj: Seq<(String, Json)>) -> Map<Seq<char>, nat> {
    match lookup(obj, "counts"@) {
        Some(Json::Object(es)) => keyed_map(es@, json_count_fn()),
        _ => Map::empty(),
    }
}

/// The `type` member of a summary; empty where there is none.
pub open spec fn agg_tag(obj: Seq<(String, Json)>) -> Seq<char> {
    match str_member(obj, "type"@) {
        Some(t) => t,
        None => Seq::empty(),
    }
}

/// The real value of member `name`: the value its number text writes; zero where it
/// is not a number.
pub open spec fn real_of<R: Scalar>(obj: Seq<(String, Json)>, name: Seq<char>) -> R {
    match lookup(obj, name) {
        Some(Json::Number(t)) => R::spec_from_text(t),
        _ => R::spec_zero(),
    }
}

/// The numeric moments that a JSON summary object writes.
pub open spec fn parsed_moments<R: Scalar>(obj: Seq<(String, Json)>) -> NumFields<R> {
    NumFields {
        count: count_member(obj, "count"@) as u64,
        sum: real_of(obj, "sum"@),
        min: real_of(obj, "min"@),
        max: real_of(obj, "max"@),
        mean: real_of(obj, "mean"@),
        sum_sq_diff: real_of(obj, "sum_sq_diff"@),
    }
}

/// The summary that a JSON summary object stands for.
pub open spec fn parse_result<R: Scalar>(obj: Seq<(String, Json)>) -> Result<EntryView<R>, ErrView> {
    match kind_of_tag(agg_tag(obj)) {
        None => Err(ErrView::UnknownAggType(agg_tag(obj))),
        Some(kind) => Ok(
            if kind == AggKind::IntAgg || kind == AggKind::FloatAgg || kind == AggKind::Dec2Agg || kind
                == AggKind::NatAgg {
                num_view(kind, parsed_moments(obj))
            } else if kind == AggKind::ArrAgg {
                tally_view(kind, count_member(obj, "count"@), parsed_counts(obj))
            } else if kind == AggKind::DateAgg {
                EntryView {
                    kind,
                    count: 0,
                    counts: parsed_counts(obj),
                    min: str_member(obj, "min"@),
                    max: str_member(obj, "max"@),
                    moments: None,
                }
            } else {
                tally_view(kind, 0, parsed_counts(obj))
            },
        ),
    }
}

/// A tally written in JSON.
fn count_value(j: &Json) -> (r: u64)
    ensures
        r == json_count(*j),
{
    match j {
        Json::Number(t) => match parse_whole_text(t) {
            Some(n) => n,
            None => 0,
        },
        _ => 0,
    }
}

fn count_member_of(obj: &Vec<(String, Json)>, name: &str) -> (r: u64)
    ensures
        r == count_member(obj@, name@),
{
    match member(obj, &String::from_str(name)) {
        Some(j) => count_value(j),
        None => 0,
    }
}

/// The real value of member `name`; zero where it is not a number.
fn real_member<R: Scalar>(obj: &Vec<(String, Json)>, name: &str) -> (r: R)
    ensures
        r == real_of::<R>(obj@, name@),
{
    match member(obj, &String::from_str(name)) {
        Some(Json::Number(t)) => R::from_number_text(t),
        _ => R::zero(),
    }
}

/// The numeric moments of a JSON summary.
pub fn parse_num_fields<R: Scalar>(obj: &Vec<(String, Json)>) -> (r: NumFields<R>)
    ensures
        r == parsed_moments::<R>(obj@),
{
    NumFields {
        count: count_member_of(obj, "count"),
        sum: real_member(obj, "sum"),
        min: real_member(obj, "min"),
        max: real_member(obj, "max"),
        mean: real_member(obj, "mean"),
        sum_sq_diff: real_member(obj, "sum_sq_diff"),
    }
}

/// The `counts` member of a JSON summary, read as a tally.
pub fn parse_counts(obj: &Vec<(String, Json)>) -> (r: Counts)
    ensures
        r.wf(),
        r@ == parsed_counts(obj@),
{
    let mut out = Counts::new();
    match member(obj, &String::from_str("counts")) {
        Some(Json::Object(es)) => {
            let mut i: usize = 0;
            while i < es.len()
                invariant
                    out.wf(),
                    i <= es@.len(),
                    out@ == keyed_map(es@.take(i as int), json_count_fn()),
                decreases es@.len() - i,
            {
                proof {
                    assert(es@.take(i + 1).drop_last() =~= es@.take(i as int));
                }
                let n = count_value(&es[i].1);
                out.set(es[i].0.clone(), n);
                i = i + 1;
            }
            proof {
                assert(es@.take(i as int) =~= es@);
            }
        },
        _ => {},
    }
    out
}

/// Reads a JSON summary object back into a summary entry, by its `type` tag.
pub fn parse_agg_entry<R: Scalar>(obj: &Vec<(String, Json)>) -> (r: Result<AggEntry<R>, StatsError>)
    ensures
        match r {
            Ok(e) => e.wf() && parse_result::<R>(obj@) == Ok::<EntryView<R>, ErrView>(e@),
            Err(e) => parse_result::<R>(obj@) == Err::<EntryView<R>, ErrView>(e@),
        },
{
    let tag = match str_member_of(obj, &String::from_str("type")) {
        Some(t) => t.clone(),
        None => String::new(),
    };
    let kind = match AggKind::from_tag(tag.as_str()) {
        Some(k) => k,
        None => {
            return Err(StatsError::UnknownAggType(tag));
        },
    };
    let min_name = String::from_str("min");
    let max_name = String::from_str("max");
    match kind {
        AggKind::IntAgg => Ok(AggEntry::IntAgg(parse_num_fields(obj))),
        AggKind::FloatAgg => Ok(AggEntry::FloatAgg(parse_num_fields(obj))),
        AggKind::Dec2Agg => Ok(AggEntry::Dec2Agg(parse_num_fields(obj))),
        AggKind::NatAgg => Ok(AggEntry::NatAgg(parse_num_fields(obj))),
        AggKind::StrAgg => Ok(AggEntry::StrAgg { counts: parse_counts(obj) }),
        AggKind::BoolAgg => Ok(AggEntry::BoolAgg { counts: parse_counts(obj) }),
        AggKind::ArrAgg => Ok(
            AggEntry::ArrAgg { count: count_member_of(obj, "count"), counts: parse_counts(obj) },
        ),
        AggKind::DateAgg => {
            let min_date = match str_member_of(obj, &min_name) {
                Some(s) => Some(s.clone()),
                None => None,
            };
            let max_date = match str_member_of(obj, &max_name) {
                Some(s) => Some(s.clone()),
                None => None,
            };
            Ok(AggEntry::DateAgg { counts: parse_counts(obj), min_date, max_date })
        },
    }
}

/// The state after the JSON summary `summary` of field `key` is merged into it: the
/// reserved key `type` and a summary that is not an object are passed over.
pub open spec fn merge_json_field<R: Scalar>(m: Map<Seq<char>, EntryView<R>>, key: Seq<char>, summary: Json) -> Result<
    Map<Seq<char>, EntryView<R>>,
    ErrView,
> {
    if key == "type"@ {
        Ok(m)
    } else {
        match summary {
            Json::Object(fs) => match parse_result(fs@) {
                Ok(e) => merge_into(m, key, e),
                Err(x) => Err(x),
            },
            _ => Ok(m),
        }
    }
}

pub open spec fn merge_json_fields<R: Scalar>(m: Map<Seq<char>, EntryView<R>>, s: Seq<(String, Json)>) -> Result<
    Map<Seq<char>, EntryView<R>>,
    ErrView,
>
    decreases s.len(),
{
    if s.len() == 0 {
        Ok(m)
    } else {
        match merge_json_field(m, s[0].0@, s[0].1) {
            Ok(m2) => merge_json_fields(m2, s.drop_first()),
            Err(x) => Err(x),
        }
    }
}

/// The state after a JSON summary object is merged into it, field by field; a value
/// that is not an object leaves the state as it is.
pub open spec fn merge_json<R: Scalar>(m: Map<Seq<char>, EntryView<R>>, agg: Json) -> Result<Map<Seq<char>, EntryView<R>>, ErrView> {
    match agg {
        Json::Object(fs) => merge_json_fields(m, fs@),
        _ => Ok(m),
    }
}

impl<R: Scalar> StatsState<R> {
    /// Merges a JSON summary object (`stats_agg`) into the state, field by field.
    pub fn merge_from_json(&mut self, agg: &Json) -> (r: Result<(), StatsError>)
        requires
            old(self).wf(),
        ensures
            match r {
                Ok(()) => final(self).wf() && merge_json(old(self)@, *agg) == Ok::<
                    Map<Seq<char>, EntryView<R>>,
                    ErrView,
                >(final(self)@),
                Err(e) => merge_json(old(self)@, *agg) == Err::<Map<Seq<char>, EntryView<R>>, ErrView>(
                    e@,
                ),
            },
    {
        let fields = match agg {
            Json::Object(fields) => fields,
            _ => {
                return Ok(());
            },
        };
        let type_key = String::from_str("type");
        let mut i: usize = 0;
        proof {
            assert(fields@.skip(0) =~= fields@);
        }
        while i < fields.len()
            invariant
                self.wf(),
                *agg == Json::Object(*fields),
                type_key@ == "type"@,
                i <= fields@.len(),
                merge_json_fields(old(self)@, fields@) == merge_json_fields(self@, fields@.skip(i as int)),
            decreases fields@.len() - i,
        {
            proof {
                assert(fields@.skip(i as int).drop_first() =~= fields@.skip(i + 1));
                assert(fields@.skip(i as int)[0] == fields@[i as int]);
            }
            let key = &fields[i].0;
            if *key != type_key {
                match &fields[i].1 {
                    Json::Object(obj) => {
                        let incoming = parse_agg_entry(obj)?;
                        self.merge_entry(key.clone(), incoming)?;
                    },
                    _ => {},
                }
            }
            i = i + 1;
        }
        Ok(())
    }
}

} // verus!

//! Writing the aggregate state out as a summary object.
use vstd::prelude::*;

use crate::counts::Counts;
use crate::entry::{kind_tag, two_decimals, AggEntry, NumFields, Scalar};
use crate::json::Json;
use crate::state::StatsState;
use crate::text::{decimal, decimal_text};

verus! {

/// `j` is the JSON string `t`.
pub open spec fn is_text(j: Json, t: Seq<char>) -> bool {
    match j {
        Json::Str(s) => s@ == t,
        _ => false,
    }
}

/// `j` is the JSON number written `t`.
pub open spec fn is_number_text(j: Json, t: Seq<char>) -> bool {
    match j {
        Json::Number(s) => s@ == t,
        _ => false,
    }
}

/// `j` is the object of the tallies of `c`, one member per key, in the tally's order,
/// each count written in decimal.
pub open spec fn emits_counts(j: Json, c: Counts) -> bool {
    match j {
        Json::Object(es) => es@.len() == c.entries@.len() && forall|i: int|
            0 <= i < es@.len() ==> #[trigger] es@[i].0@ == c.entries@[i].0@ && is_number_text(
                es@[i].1,
                decimal(c.entries@[i].1 as nat),
            ),
        _ => false,
    }
}

/// The names of the members of a finalized numeric summary, in order.
pub open spec fn final_num_names() -> Seq<Seq<char>> {
    seq![
        "type"@,
        "count"@,
        "sum"@,
        "min"@,
        "max"@,
        "mean"@,
        "sum_sq_diff"@,
        "variance"@,
        "stddev"@,
        "coefficient_of_variation_pct"@,
    ]
}

/// The names of the members of a running numeric summary, in order.
pub open spec fn raw_num_names() -> Seq<Seq<char>> {
    seq!["type"@, "count"@, "sum"@, "min"@, "max"@, "mean"@, "sum_sq_diff"@]
}

/// `ms` has the member names `names`, in order.
pub open spec fn has_names(ms: Seq<(String, Json)>, names: Seq<Seq<char>>) -> bool {
    ms.len() == names.len() && forall|i: int| 0 <= i < ms.len() ==> #[trigger] ms[i].0@ == names[i]
}

/// `j` is the number text of `x`, or null where JSON has no number for it.
pub open spec fn num_member<R: Scalar>(j: Json, x: R) -> bool {
    match x.spec_number_text() {
        Some(t) => is_number_text(j, t@),
        None => j is Null,
    }
}

/// `j` is `x` rounded to two decimals where `x` is finite, in the two-decimal shape;
/// null otherwise.
pub open spec fn rounded_or_null<R: Scalar>(j: Json, x: R) -> bool {
    if x.spec_finite() {
        is_number_text(j, x.spec_rounded()@) && two_decimals(x.spec_rounded()@)
    } else {
        j is Null
    }
}

/// The sample variance of moments `f`: the spread over one less than the row count.
pub open spec fn variance_of<R: Scalar>(f: NumFields<R>) -> R {
    f.sum_sq_diff.spec_div(R::spec_from_count(f.count).spec_minus(R::spec_from_count(1)))
}

/// `v`, `sd` and `cv` are the derived statistics of moments `f`: for two rows or more,
/// the variance, its square root where the variance is not below zero, and the standard
/// deviation over the mean in percent where the mean is not zero, each rounded where
/// finite and null otherwise; for fewer rows, all three null.
pub open spec fn derived_members<R: Scalar>(f: NumFields<R>, v: Json, sd: Json, cv: Json) -> bool {
    if f.count > 1 {
        let var = variance_of(f);
        &&& rounded_or_null(v, var)
        &&& if var.spec_less(R::spec_zero()) {
            sd is Null && cv is Null
        } else {
            let s = var.spec_sqrt();
            &&& rounded_or_null(sd, s)
            &&& if f.mean.spec_is_zero() {
                cv is Null
            } else {
                rounded_or_null(cv, s.spec_div(f.mean).spec_times(R::spec_from_count(100)))
            }
        }
    } else {
        v is Null && sd is Null && cv is Null
    }
}

/// `j` is numeric summary `f` of type `tag`: type and count exact, sum, min and max as
/// their number text; running, the mean and spread as their number text too; finalized,
/// the mean and spread rounded to two decimals, then the derived statistics.
pub open spec fn emits_num<R: Scalar>(j: Json, tag: Seq<char>, f: NumFields<R>, finalized: bool) -> bool {
    match j {
        Json::Object(ms) => {
            let m = ms@;
            &&& has_names(m, if finalized { final_num_names() } else { raw_num_names() })
            &&& is_text(m[0].1, tag)
            &&& is_number_text(m[1].1, decimal(f.count as nat))
            &&& num_member(m[2].1, f.sum) && num_member(m[3].1, f.min) && num_member(m[4].1, f.max)
            &&& !finalized ==> num_member(m[5].1, f.mean) && num_member(m[6].1, f.sum_sq_diff)
            &&& finalized ==> is_number_text(m[5].1, f.mean.spec_rounded()@) && is_number_text(
                m[6].1,
                f.sum_sq_diff.spec_rounded()@,
            )
            &&& finalized ==> (f.mean.spec_finite() ==> two_decimals(f.mean.spec_rounded()@)) && (
            f.sum_sq_diff.spec_finite() ==> two_decimals(f.sum_sq_diff.spec_rounded()@))
            &&& finalized ==> derived_members(f, m[7].1, m[8].1, m[9].1)
        },
        _ => false,
    }
}

/// The optional date bounds of a date summary, as `(name, date)` members.
pub open spec fn date_bounds(min: Option<String>, max: Option<String>) -> Seq<(Seq<char>, Seq<char>)> {
    let lo = match min {
        Some(s) => seq![("min"@, s@)],
        None => Seq::empty(),
    };
    let hi = match max {
        Some(s) => seq![("max"@, s@)],
        None => Seq::empty(),
    };
    lo + hi
}

/// `j` is the JSON form of summary `e`: numeric summaries as `emits_num` says, the
/// others verbatim.
pub open spec fn emits_entry<R: Scalar>(j: Json, e: AggEntry<R>, finalized: bool) -> bool {
    let tag = kind_tag(e@.kind);
    match e {
        AggEntry::IntAgg(f) => emits_num(j, tag, f, finalized),
        AggEntry::FloatAgg(f) => emits_num(j, tag, f, finalized),
        AggEntry::Dec2Agg(f) => emits_num(j, tag, f, finalized),
        AggEntry::NatAgg(f) => emits_num(j, tag, f, finalized),
        AggEntry::StrAgg { counts } | AggEntry::BoolAgg { counts } => match j {
            Json::Object(ms) => {
                &&& has_names(ms@, seq!["type"@, "counts"@])
                &&& is_text(ms@[0].1, tag)
                &&& emits_counts(ms@[1].1, counts)
            },
            _ => false,
        },
        AggEntry::ArrAgg { count, counts } => match j {
            Json::Object(ms) => {
                &&& has_names(ms@, seq!["type"@, "count"@, "counts"@])
                &&& is_text(ms@[0].1, tag)
                &&& is_number_text(ms@[1].1, decimal(count as nat))
                &&& emits_counts(ms@[2].1, counts)
            },
            _ => false,
        },
        AggEntry::DateAgg { counts, min_date, max_date } => match j {
            Json::Object(ms) => {
                let b = date_bounds(min_date, max_date);
                &&& ms@.len() == 2 + b.len()
                &&& ms@[0].0@ == "type"@ && is_text(ms@[0].1, tag)
                &&& ms@[1].0@ == "counts"@ && emits_counts(ms@[1].1, counts)
                &&& forall|i: int|
                    0 <= i < b.len() ==> #[trigger] ms@[2 + i].0@ == b[i].0 && is_text(
                        ms@[2 + i].1,
                        b[i].1,
                    )
            },
            _ => false,
        },
    }
}

/// `j` is the summary object of state `s`: the tag `stats_agg`, then one member per
/// field, in the state's order.
pub open spec fn emits_state<R: Scalar>(j: Json, s: StatsState<R>, finalized: bool) -> bool {
    match j {
        Json::Object(ms) => {
            &&& ms@.len() == s.entries@.len() + 1
            &&& ms@[0].0@ == "type"@ && is_text(ms@[0].1, "stats_agg"@)
            &&& forall|i: int|
                0 <= i < s.entries@.len() ==> #[trigger] ms@[i + 1].0@ == s.entries@[i].0@
                    && emits_entry(ms@[i + 1].1, s.entries@[i].1, finalized)
        },
        _ => false,
    }
}

fn named(name: &str, v: Json) -> (r: (String, Json))
    ensures
        r.0@ == name@,
        r.1 == v,
{
    (String::from_str(name), v)
}

fn text(s: &str) -> (r: Json)
    ensures
        is_text(r, s@),
{
    Json::Str(String::from_str(s))
}

fn count_json(n: u64) -> (r: Json)
    ensures
        is_number_text(r, decimal(n as nat)),
{
    Json::Number(decimal_text(n))
}

/// A real as a JSON number, or null where JSON has none for it.
fn num_value<R: Scalar>(v: R) -> (r: Json)
    ensures
        num_member(r, v),
{
    match v.number_text() {
        Some(t) => Json::Number(t),
        None => Json::Null,
    }
}

/// A real rounded to two decimals, as a JSON number.
fn round2<R: Scalar>(v: R) -> (r: Json)
    ensures
        is_number_text(r, v.spec_rounded()@),
        v.spec_finite() ==> two_decimals(v.spec_rounded()@),
{
    Json::Number(v.rounded_text())
}

/// A real rounded to two decimals where it is finite; null otherwise.
fn round2_finite<R: Scalar>(v: R) -> (r: Json)
    ensures
        rounded_or_null(r, v),
{
    if v.is_finite() {
        round2(v)
    } else {
        Json::Null
    }
}

/// The tallies of `c` as a JSON object.
pub fn counts_json(c: &Counts) -> (r: Json)
    ensures
        emits_counts(r, *c),
{
    let mut ms: Vec<(String, Json)> = Vec::new();
    let mut i: usize = 0;
    while i < c.entries.len()
        invariant
            i <= c.entries@.len(),
            ms@.len() == i,
            forall|j: int|
                0 <= j < i ==> #[trigger] ms@[j].0@ == c.entries@[j].0@ && is_number_text(
                    ms@[j].1,
                    decimal(c.entries@[j].1 as nat),
                ),
        decreases c.entries@.len() - i,
    {
        ms.push((c.entries[i].0.clone(), count_json(c.entries[i].1)));
        i = i + 1;
    }
    Json::Object(ms)
}

/// The JSON form of a numeric summary. Finalized, it carries the mean and spread
/// rounded to two decimals and the derived statistics: for two rows or more the sample
/// variance, its square root and the coefficient of variation in percent, each rounded
/// where finite and null otherwise; for fewer rows all three are null.
pub fn finalize_num_entry<R: Scalar>(type_tag: &str, f: &NumFields<R>, finalized: bool) -> (r: Json)
    ensures
        emits_num(r, type_tag@, *f, finalized),
{
    let mut ms: Vec<(String, Json)> = Vec::new();
    ms.push(named("type", text(type_tag)));
    ms.push(named("count", count_json(f.count)));
    ms.push(named("sum", num_value(f.sum)));
    ms.push(named("min", num_value(f.min)));
    ms.push(named("max", num_value(f.max)));
    if !finalized {
        ms.push(named("mean", num_value(f.mean)));
        ms.push(named("sum_sq_diff", num_value(f.sum_sq_diff)));
        proof {
            assert(has_names(ms@, raw_num_names()));
        }
        return Json::Object(ms);
    }
    ms.push(named("mean", round2(f.mean)));
    ms.push(named("sum_sq_diff", round2(f.sum_sq_diff)));
    if f.count > 1 {
        let n = R::from_count(f.count).minus(R::from_count(1));
        let var = f.sum_sq_diff.divided_by(n);
        ms.push(named("variance", round2_finite(var)));
        if var.less_than(R::zero()) {
            ms.push(named("stddev", Json::Null));
            ms.push(named("coefficient_of_variation_pct", Json::Null));
        } else {
            let sd = var.square_root();
            ms.push(named("stddev", round2_finite(sd)));
            if f.mean.is_zero() {
                ms.push(named("coefficient_of_variation_pct", Json::Null));
            } else {
                let cv = sd.divided_by(f.mean).times(R::from_count(100));
                ms.push(named("coefficient_of_variation_pct", round2_finite(cv)));
            }
        }
    } else {
        ms.push(named("variance", Json::Null));
        ms.push(named("stddev", Json::Null));
        ms.push(named("coefficient_of_variation_pct", Json::Null));
    }
    proof {
        assert(has_names(ms@, final_num_names()));
    }
    Json::Object(ms)
}

/// The JSON form of one summary entry.
pub fn entry_json<R: Scalar>(e: &AggEntry<R>, finalized: bool) -> (r: Json)
    ensures
        emits_entry(r, *e, finalized),
{
    let tag = e.type_tag();
    match e {
        AggEntry::IntAgg(f) | AggEntry::FloatAgg(f) | AggEntry::Dec2Agg(f) | AggEntry::NatAgg(f) => {
            finalize_num_entry(tag, f, finalized)
        },
        AggEntry::StrAgg { counts } | AggEntry::BoolAgg { counts } => {
            let mut ms: Vec<(String, Json)> = Vec::new();
            ms.push(named("type", text(tag)));
            ms.push(named("counts", counts_json(counts)));
            proof {
                assert(has_names(ms@, seq!["type"@, "counts"@]));
            }
            Json::Object(ms)
        },
        AggEntry::ArrAgg { count, counts } => {
            let mut ms: Vec<(String, Json)> = Vec::new();
            ms.push(named("type", text(tag)));
            ms.push(named("count", count_json(*count)));
            ms.push(named("counts", counts_json(counts)));
            proof {
                assert(has_names(ms@, seq!["type"@, "count"@, "counts"@]));
            }
            Json::Object(ms)
        },
        AggEntry::DateAgg { counts, min_date, max_date } => {
            let mut ms: Vec<(String, Json)> = Vec::new();
            ms.push(named("type", text(tag)));
            ms.push(named("counts", counts_json(counts)));
            match min_date {
                Some(s) => ms.push(named("min", Json::Str(s.clone()))),
                None => {},
            }
            match max_date {
                Some(s) => ms.push(named("max", Json::Str(s.clone()))),
                None => {},
            }
            proof {
                let b = date_bounds(*min_date, *max_date);
                assert forall|i: int| 0 <= i < b.len() implies #[trigger] ms@[2 + i].0@ == b[i].0
                    && is_text(ms@[2 + i].1, b[i].1) by {
                    if min_date is Some {
                        assert(b[0] == ("min"@, min_date->0@));
                    }
                }
            }
            Json::Object(ms)
        },
    }
}

impl<R: Scalar> StatsState<R> {
    fn to_json(&self, finalized: bool) -> (r: Json)
        ensures
            emits_state(r, *self, finalized),
    {
        let mut ms: Vec<(String, Json)> = Vec::new();
        ms.push(named("type", text("stats_agg")));
        let mut i: usize = 0;
        while i < self.entries.len()
            invariant
                i <= self.entries@.len(),
                ms@.len() == i + 1,
                ms@[0].0@ == "type"@ && is_text(ms@[0].1, "stats_agg"@),
                forall|j: int|
                    0 <= j < i ==> #[trigger] ms@[j + 1].0@ == self.entries@[j].0@ && emits_entry(
                        ms@[j + 1].1,
                        self.entries@[j].1,
                        finalized,
                    ),
            decreases self.entries@.len() - i,
        {
            let v = entry_json(&self.entries[i].1, finalized);
            ms.push((self.entries[i].0.clone(), v));
            i = i + 1;
        }
        Json::Object(ms)
    }

    /// The summary object (`stats_agg`): each field's summary in JSON, the numeric ones
    /// with their derived statistics and rounding.
    pub fn finalize(&self) -> (r: Json)
        ensures
            emits_state(r, *self, true),
    {
        self.to_json(true)
    }

    /// The running state as JSON, at full precision and without derived statistics.
    pub fn running_json(&self) -> (r: Json)
        ensures
            emits_state(r, *self, false),
    {
        self.to_json(false)
    }
}

} // verus!

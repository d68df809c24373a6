//! Per-field summaries: numeric moments, tallies and date bounds, and how two merge.
use vstd::prelude::*;

use crate::counts::{sum_counts, sum_fits, Counts};
use crate::error::{ErrView, InvalidReason, StatsError};
use crate::text::{all_digits, str_less, text_less};

verus! {

/// The real numbers that the numeric summaries are kept in.
///
/// Each operation's result is a function of its arguments alone, named by the spec
/// function of the same name with `spec_` before it (an implementation defines that one
/// by calling the operation); how the operations compute and round belongs to the type
/// that implements them.
pub trait Scalar: Copy + Sized {
    spec fn spec_from_text(text: String) -> Self;

    spec fn spec_from_count(n: u64) -> Self;

    spec fn spec_zero() -> Self;

    spec fn spec_plus(self, other: Self) -> Self;

    spec fn spec_minus(self, other: Self) -> Self;

    spec fn spec_times(self, other: Self) -> Self;

    spec fn spec_div(self, other: Self) -> Self;

    spec fn spec_sqrt(self) -> Self;

    spec fn spec_less(self, other: Self) -> bool;

    spec fn spec_is_zero(self) -> bool;

    spec fn spec_finite(self) -> bool;

    spec fn spec_number_text(self) -> Option<String>;

    spec fn spec_rounded(self) -> String;

    /// The value that a JSON number's text writes.
    fn from_number_text(text: &String) -> (r: Self)
        ensures
            r == Self::spec_from_text(*text),
    ;

    fn from_count(n: u64) -> (r: Self)
        ensures
            r == Self::spec_from_count(n),
    ;

    fn zero() -> (r: Self)
        ensures
            r == Self::spec_zero(),
    ;

    fn plus(self, other: Self) -> (r: Self)
        ensures
            r == self.spec_plus(other),
    ;

    fn minus(self, other: Self) -> (r: Self)
        ensures
            r == self.spec_minus(other),
    ;

    fn times(self, other: Self) -> (r: Self)
        ensures
            r == self.spec_times(other),
    ;

    fn divided_by(self, other: Self) -> (r: Self)
        ensures
            r == self.spec_div(other),
    ;

    fn square_root(self) -> (r: Self)
        ensures
            r == self.spec_sqrt(),
    ;

    fn less_than(self, other: Self) -> (r: bool)
        ensures
            r == self.spec_less(other),
    ;

    fn is_zero(self) -> (r: bool)
        ensures
            r == self.spec_is_zero(),
    ;

    fn is_finite(self) -> (r: bool)
        ensures
            r == self.spec_finite(),
    ;

    /// The JSON number text of the value, written as an integer where it is one;
    /// none where JSON has no number for it.
    fn number_text(self) -> (r: Option<String>)
        ensures
            r == self.spec_number_text(),
    ;

    /// The JSON number text of the value rounded to two decimals: for a finite value, an
    /// optional minus sign, digits, a point and exactly two digits.
    fn rounded_text(self) -> (r: String)
        ensures
            r == self.spec_rounded(),
            self.spec_finite() ==> two_decimals(r@),
    ;
}

/// Decimal text with exactly two digits after the point: `-?[0-9]+\.[0-9]{2}`.
pub open spec fn two_decimals(s: Seq<char>) -> bool {
    let b = if s.len() > 0 && s[0] == '-' {
        s.drop_first()
    } else {
        s
    };
    &&& b.len() >= 4
    &&& b[b.len() - 3] == '.'
    &&& all_digits(b.take(b.len() - 3))
    &&& all_digits(b.skip(b.len() - 2))
}

/// Running moments of a numeric field (Welford's online algorithm).
pub struct NumFields<R> {
    pub count: u64,
    pub sum: R,
    pub min: R,
    pub max: R,
    pub mean: R,
    pub sum_sq_diff: R,
}

impl<R: Scalar> NumFields<R> {
    /// The moments of a single value.
    pub open spec fn spec_init(val: R) -> NumFields<R> {
        NumFields { count: 1, sum: val, min: val, max: val, mean: val, sum_sq_diff: R::spec_zero() }
    }

    /// The moments after one more value (Welford): with `d = val - mean`, the mean moves
    /// by `d / count'` and the spread grows by `d * (val - mean')`.
    pub open spec fn spec_updated(self, val: R) -> NumFields<R> {
        let n = (self.count + 1) as u64;
        let d = val.spec_minus(self.mean);
        let mean = self.mean.spec_plus(d.spec_div(R::spec_from_count(n)));
        NumFields {
            count: n,
            sum: self.sum.spec_plus(val),
            min: if val.spec_less(self.min) {
                val
            } else {
                self.min
            },
            max: if self.max.spec_less(val) {
                val
            } else {
                self.max
            },
            mean,
            sum_sq_diff: self.sum_sq_diff.spec_plus(d.spec_times(val.spec_minus(mean))),
        }
    }

    /// The moments of the union of two disjoint sets of values (Chan et al.): with
    /// `d = other.mean - mean`, the mean moves by `d * n_b / n` and the spread is
    /// `ssd_a + ssd_b + d * d * n_a * n_b / n`.
    pub open spec fn spec_merged(self, other: NumFields<R>) -> NumFields<R> {
        let ca = R::spec_from_count(self.count);
        let cb = R::spec_from_count(other.count);
        let total = ca.spec_plus(cb);
        let d = other.mean.spec_minus(self.mean);
        NumFields {
            count: (self.count + other.count) as u64,
            sum: self.sum.spec_plus(other.sum),
            min: if other.min.spec_less(self.min) {
                other.min
            } else {
                self.min
            },
            max: if self.max.spec_less(other.max) {
                other.max
            } else {
                self.max
            },
            mean: self.mean.spec_plus(d.spec_times(cb).spec_div(total)),
            sum_sq_diff: self.sum_sq_diff.spec_plus(
                other.sum_sq_diff.spec_plus(d.spec_times(d).spec_times(ca).spec_times(cb).spec_div(total)),
            ),
        }
    }

    /// The moments of a single value.
    pub fn init(val: R) -> (r: Self)
        ensures
            r == Self::spec_init(val),
    {
        NumFields { count: 1, sum: val, min: val, max: val, mean: val, sum_sq_diff: R::zero() }
    }

    /// Welford update with one more value.
    pub fn update(&mut self, val: R)
        requires
            old(self).count < u64::MAX,
        ensures
            *final(self) == old(self).spec_updated(val),
    {
        self.count = self.count + 1;
        let delta = val.minus(self.mean);
        self.mean = self.mean.plus(delta.divided_by(R::from_count(self.count)));
        self.sum_sq_diff = self.sum_sq_diff.plus(delta.times(val.minus(self.mean)));
        self.sum = self.sum.plus(val);
        if val.less_than(self.min) {
            self.min = val;
        }
        if self.max.less_than(val) {
            self.max = val;
        }
    }

    /// Pairwise merge of the moments of two disjoint sets of values (Chan et al.).
    pub fn merge(&mut self, other: &NumFields<R>)
        requires
            old(self).count + other.count <= u64::MAX,
        ensures
            *final(self) == old(self).spec_merged(*other),
    {
        let ca = R::from_count(self.count);
        let cb = R::from_count(other.count);
        let total = ca.plus(cb);
        let delta = other.mean.minus(self.mean);
        self.mean = self.mean.plus(delta.times(cb).divided_by(total));
        self.sum_sq_diff = self.sum_sq_diff.plus(
            other.sum_sq_diff.plus(delta.times(delta).times(ca).times(cb).divided_by(total)),
        );
        self.count = self.count + other.count;
        self.sum = self.sum.plus(other.sum);
        if other.min.less_than(self.min) {
            self.min = other.min;
        }
        if self.max.less_than(other.max) {
            self.max = other.max;
        }
    }
}

/// The type of a summary entry.
#[derive(PartialEq, Eq, Structural, Clone, Copy, Debug)]
pub enum AggKind {
    IntAgg,
    FloatAgg,
    Dec2Agg,
    NatAgg,
    StrAgg,
    BoolAgg,
    ArrAgg,
    DateAgg,
}

/// The tag that names a summary type in JSON.
pub open spec fn kind_tag(k: AggKind) -> Seq<char> {
    match k {
        AggKind::IntAgg => "int_agg"@,
        AggKind::FloatAgg => "float_agg"@,
        AggKind::Dec2Agg => "dec2_agg"@,
        AggKind::NatAgg => "nat_agg"@,
        AggKind::StrAgg => "str_agg"@,
        AggKind::BoolAgg => "bool_agg"@,
        AggKind::ArrAgg => "arr_agg"@,
        AggKind::DateAgg => "date_agg"@,
    }
}

/// The summary type that a tag names.
pub open spec fn kind_of_tag(t: Seq<char>) -> Option<AggKind> {
    if t == "int_agg"@ {
        Some(AggKind::IntAgg)
    } else if t == "float_agg"@ {
        Some(AggKind::FloatAgg)
    } else if t == "dec2_agg"@ {
        Some(AggKind::Dec2Agg)
    } else if t == "nat_agg"@ {
        Some(AggKind::NatAgg)
    } else if t == "str_agg"@ {
        Some(AggKind::StrAgg)
    } else if t == "bool_agg"@ {
        Some(AggKind::BoolAgg)
    } else if t == "arr_agg"@ {
        Some(AggKind::ArrAgg)
    } else if t == "date_agg"@ {
        Some(AggKind::DateAgg)
    } else {
        None
    }
}

pub open spec fn is_numeric(k: AggKind) -> bool {
    k == AggKind::IntAgg || k == AggKind::FloatAgg || k == AggKind::Dec2Agg || k == AggKind::NatAgg
}

impl AggKind {
    /// The tag that names this summary type in JSON.
    pub fn tag(self) -> (r: &'static str)
        ensures
            r@ == kind_tag(self),
    {
        match self {
            AggKind::IntAgg => "int_agg",
            AggKind::FloatAgg => "float_agg",
            AggKind::Dec2Agg => "dec2_agg",
            AggKind::NatAgg => "nat_agg",
            AggKind::StrAgg => "str_agg",
            AggKind::BoolAgg => "bool_agg",
            AggKind::ArrAgg => "arr_agg",
            AggKind::DateAgg => "date_agg",
        }
    }

    /// The summary type that `t` names, if any.
    pub fn from_tag(t: &str) -> (r: Option<AggKind>)
        ensures
            r == kind_of_tag(t@),
    {
        let s = String::from_str(t);
        if s == String::from_str("int_agg") {
            Some(AggKind::IntAgg)
        } else if s == String::from_str("float_agg") {
            Some(AggKind::FloatAgg)
        } else if s == String::from_str("dec2_agg") {
            Some(AggKind::Dec2Agg)
        } else if s == String::from_str("nat_agg") {
            Some(AggKind::NatAgg)
        } else if s == String::from_str("str_agg") {
            Some(AggKind::StrAgg)
        } else if s == String::from_str("bool_agg") {
            Some(AggKind::BoolAgg)
        } else if s == String::from_str("arr_agg") {
            Some(AggKind::ArrAgg)
        } else if s == String::from_str("date_agg") {
            Some(AggKind::DateAgg)
        } else {
            None
        }
    }
}

/// The running summary of one field.
pub enum AggEntry<R> {
    IntAgg(NumFields<R>),
    FloatAgg(NumFields<R>),
    Dec2Agg(NumFields<R>),
    NatAgg(NumFields<R>),
    StrAgg { counts: Counts },
    BoolAgg { counts: Counts },
    /// `count` is the number of rows; `counts` tallies their elements.
    ArrAgg { count: u64, counts: Counts },
    DateAgg { counts: Counts, min_date: Option<String>, max_date: Option<String> },
}

/// What a summary entry says: its type, its number of rows (numeric and array entries;
/// zero otherwise), its tallies (empty for numeric entries), its date bounds (none but
/// for date entries) and its numeric moments (none but for numeric entries).
pub struct EntryView<R> {
    pub kind: AggKind,
    pub count: nat,
    pub counts: Map<Seq<char>, nat>,
    pub min: Option<Seq<char>>,
    pub max: Option<Seq<char>>,
    pub moments: Option<NumFields<R>>,
}

pub open spec fn opt_view(o: Option<String>) -> Option<Seq<char>> {
    match o {
        Some(s) => Some(s@),
        None => None,
    }
}

/// The view of a numeric summary of type `kind` with moments `f`.
pub open spec fn num_view<R>(kind: AggKind, f: NumFields<R>) -> EntryView<R> {
    EntryView { kind, count: f.count as nat, counts: Map::empty(), min: None, max: None, moments: Some(f) }
}

/// The view of a tally summary of type `kind`.
pub open spec fn tally_view<R>(kind: AggKind, count: nat, counts: Map<Seq<char>, nat>) -> EntryView<R> {
    EntryView { kind, count, counts, min: None, max: None, moments: None }
}

impl<R: Scalar> View for AggEntry<R> {
    type V = EntryView<R>;

    open spec fn view(&self) -> EntryView<R> {
        match self {
            AggEntry::IntAgg(f) => num_view(AggKind::IntAgg, *f),
            AggEntry::FloatAgg(f) => num_view(AggKind::FloatAgg, *f),
            AggEntry::Dec2Agg(f) => num_view(AggKind::Dec2Agg, *f),
            AggEntry::NatAgg(f) => num_view(AggKind::NatAgg, *f),
            AggEntry::StrAgg { counts } => tally_view(AggKind::StrAgg, 0, counts@),
            AggEntry::BoolAgg { counts } => tally_view(AggKind::BoolAgg, 0, counts@),
            AggEntry::ArrAgg { count, counts } => tally_view(AggKind::ArrAgg, *count as nat, counts@),
            AggEntry::DateAgg { counts, min_date, max_date } => EntryView {
                kind: AggKind::DateAgg,
                count: 0,
                counts: counts@,
                min: opt_view(*min_date),
                max: opt_view(*max_date),
                moments: None,
            },
        }
    }
}

/// The earlier of two optional dates; an absent one gives way to the other.
pub open spec fn min_opt(a: Option<Seq<char>>, b: Option<Seq<char>>) -> Option<Seq<char>> {
    match (a, b) {
        (Some(x), Some(y)) => if str_less(y, x) {
            Some(y)
        } else {
            Some(x)
        },
        (None, _) => b,
        (_, None) => a,
    }
}

/// The later of two optional dates; an absent one gives way to the other.
pub open spec fn max_opt(a: Option<Seq<char>>, b: Option<Seq<char>>) -> Option<Seq<char>> {
    match (a, b) {
        (Some(x), Some(y)) => if str_less(x, y) {
            Some(y)
        } else {
            Some(x)
        },
        (None, _) => b,
        (_, None) => a,
    }
}

/// The moments of two merged summaries: the pairwise merge where both have moments.
pub open spec fn merge_moments<R: Scalar>(a: Option<NumFields<R>>, b: Option<NumFields<R>>) -> Option<NumFields<R>> {
    match (a, b) {
        (Some(x), Some(y)) => Some(x.spec_merged(y)),
        _ => a,
    }
}

/// What merging summary `b` into summary `a` of field `key` gives.
pub open spec fn merge_result<R: Scalar>(key: Seq<char>, a: EntryView<R>, b: EntryView<R>) -> Result<EntryView<R>, ErrView> {
    let overflow = Err(ErrView::InvalidValue(key, InvalidReason::CountOverflow));
    if a.kind != b.kind {
        Err(ErrView::TypeMismatch(key, a.kind, b.kind))
    } else if a.count + b.count > u64::MAX {
        overflow
    } else if !sum_fits(a.counts, b.counts) {
        overflow
    } else {
        Ok(
            EntryView {
                kind: a.kind,
                count: a.count + b.count,
                counts: sum_counts(a.counts, b.counts),
                min: min_opt(a.min, b.min),
                max: max_opt(a.max, b.max),
                moments: merge_moments(a.moments, b.moments),
            },
        )
    }
}

impl<R: Scalar> AggEntry<R> {
    pub open spec fn wf(&self) -> bool {
        match self {
            AggEntry::StrAgg { counts } => counts.wf(),
            AggEntry::BoolAgg { counts } => counts.wf(),
            AggEntry::ArrAgg { counts, .. } => counts.wf(),
            AggEntry::DateAgg { counts, .. } => counts.wf(),
            _ => true,
        }
    }

    /// Whether the entry's tallies hold each key once.
    pub fn check_wf(&self) -> (r: bool)
        ensures
            r == self.wf(),
    {
        match self {
            AggEntry::StrAgg { counts } => counts.check_wf(),
            AggEntry::BoolAgg { counts } => counts.check_wf(),
            AggEntry::ArrAgg { counts, .. } => counts.check_wf(),
            AggEntry::DateAgg { counts, .. } => counts.check_wf(),
            _ => true,
        }
    }

    /// The entry's number of rows: that of a numeric or array summary, zero otherwise.
    pub fn row_count(&self) -> (r: u64)
        ensures
            r == self@.count,
    {
        match self {
            AggEntry::IntAgg(f) | AggEntry::FloatAgg(f) | AggEntry::Dec2Agg(f) | AggEntry::NatAgg(f) => f.count,
            AggEntry::ArrAgg { count, .. } => *count,
            _ => 0,
        }
    }

    pub fn kind(&self) -> (r: AggKind)
        ensures
            r == self@.kind,
    {
        match self {
            AggEntry::IntAgg(_) => AggKind::IntAgg,
            AggEntry::FloatAgg(_) => AggKind::FloatAgg,
            AggEntry::Dec2Agg(_) => AggKind::Dec2Agg,
            AggEntry::NatAgg(_) => AggKind::NatAgg,
            AggEntry::StrAgg { .. } => AggKind::StrAgg,
            AggEntry::BoolAgg { .. } => AggKind::BoolAgg,
            AggEntry::ArrAgg { .. } => AggKind::ArrAgg,
            AggEntry::DateAgg { .. } => AggKind::DateAgg,
        }
    }

    /// The tag that names this entry's type in JSON.
    pub fn type_tag(&self) -> (r: &'static str)
        ensures
            r@ == kind_tag(self@.kind),
    {
        self.kind().tag()
    }
}

/// The earlier of two optional dates.
fn min_date_of(a: Option<String>, b: Option<String>) -> (r: Option<String>)
    ensures
        opt_view(r) == min_opt(opt_view(a), opt_view(b)),
{
    match (a, b) {
        (Some(x), Some(y)) => if text_less(&y, &x) {
            Some(y)
        } else {
            Some(x)
        },
        (None, b) => b,
        (a, None) => a,
    }
}

/// The later of two optional dates.
fn max_date_of(a: Option<String>, b: Option<String>) -> (r: Option<String>)
    ensures
        opt_view(r) == max_opt(opt_view(a), opt_view(b)),
{
    match (a, b) {
        (Some(x), Some(y)) => if text_less(&x, &y) {
            Some(y)
        } else {
            Some(x)
        },
        (None, b) => b,
        (a, None) => a,
    }
}

/// Merges summary `incoming` into `existing`, the summary of field `key`: numeric
/// moments by the pairwise merge, tallies key by key, row counts summed, date bounds
/// widened. Summaries of different types are refused, and a refused merge leaves
/// `existing` as it was.
pub fn merge_agg_entries<R: Scalar>(existing: &mut AggEntry<R>, incoming: AggEntry<R>, key: &String) -> (r: Result<(), StatsError>)
    requires
        old(existing).wf(),
        incoming.wf(),
    ensures
        match r {
            Ok(()) => final(existing).wf() && merge_result(key@, old(existing)@, incoming@) == Ok::<
                EntryView<R>,
                ErrView,
            >(final(existing)@),
            Err(e) => merge_result(key@, old(existing)@, incoming@) == Err::<EntryView<R>, ErrView>(e@)
                && *final(existing) == *old(existing),
        },
{
    let mut cur: AggEntry<R> = AggEntry::StrAgg { counts: Counts::new() };
    std::mem::swap(existing, &mut cur);
    match merged_entry(cur, incoming, key) {
        Ok(m) => {
            *existing = m;
            Ok(())
        },
        Err((back, e)) => {
            *existing = back;
            Err(e)
        },
    }
}

/// The summary that merging `incoming` into `existing`, the summary of field `key`,
/// gives; where the merge is refused, `existing` comes back unchanged with the error.
pub fn merged_entry<R: Scalar>(existing: AggEntry<R>, incoming: AggEntry<R>, key: &String) -> (r: Result<
    AggEntry<R>,
    (AggEntry<R>, StatsError),
>)
    requires
        existing.wf(),
        incoming.wf(),
    ensures
        match r {
            Ok(e) => e.wf() && merge_result(key@, existing@, incoming@) == Ok::<EntryView<R>, ErrView>(e@),
            Err((back, e)) => back == existing && merge_result(key@, existing@, incoming@) == Err::<
                EntryView<R>,
                ErrView,
            >(e@),
        },
{
    let ek = existing.kind();
    let ik = incoming.kind();
    if ek != ik {
        return Err((existing, StatsError::TypeMismatch { key: key.clone(), existing: ek, incoming: ik }));
    }
    let overflow = StatsError::InvalidValue { key: key.clone(), reason: InvalidReason::CountOverflow };
    proof {
        let e = Map::<Seq<char>, nat>::empty();
        assert(sum_counts(e, e) =~= e);
    }
    match (existing, incoming) {
        (AggEntry::IntAgg(mut a), AggEntry::IntAgg(b)) => {
            if a.count > u64::MAX - b.count {
                return Err((AggEntry::IntAgg(a), overflow));
            }
            a.merge(&b);
            Ok(AggEntry::IntAgg(a))
        },
        (AggEntry::FloatAgg(mut a), AggEntry::FloatAgg(b)) => {
            if a.count > u64::MAX - b.count {
                return Err((AggEntry::FloatAgg(a), overflow));
            }
            a.merge(&b);
            Ok(AggEntry::FloatAgg(a))
        },
        (AggEntry::Dec2Agg(mut a), AggEntry::Dec2Agg(b)) => {
            if a.count > u64::MAX - b.count {
                return Err((AggEntry::Dec2Agg(a), overflow));
            }
            a.merge(&b);
            Ok(AggEntry::Dec2Agg(a))
        },
        (AggEntry::NatAgg(mut a), AggEntry::NatAgg(b)) => {
            if a.count > u64::MAX - b.count {
                return Err((AggEntry::NatAgg(a), overflow));
            }
            a.merge(&b);
            Ok(AggEntry::NatAgg(a))
        },
        (AggEntry::StrAgg { counts: mut ca }, AggEntry::StrAgg { counts: cb }) => {
            if !ca.fits_with(&cb) {
                return Err((AggEntry::StrAgg { counts: ca }, overflow));
            }
            ca.merge_from(&cb);
            Ok(AggEntry::StrAgg { counts: ca })
        },
        (AggEntry::BoolAgg { counts: mut ca }, AggEntry::BoolAgg { counts: cb }) => {
            if !ca.fits_with(&cb) {
                return Err((AggEntry::BoolAgg { counts: ca }, overflow));
            }
            ca.merge_from(&cb);
            Ok(AggEntry::BoolAgg { counts: ca })
        },
        (AggEntry::ArrAgg { count: na, counts: mut ca }, AggEntry::ArrAgg { count: nb, counts: cb }) => {
            if na > u64::MAX - nb || !ca.fits_with(&cb) {
                return Err((AggEntry::ArrAgg { count: na, counts: ca }, overflow));
            }
            ca.merge_from(&cb);
            Ok(AggEntry::ArrAgg { count: na + nb, counts: ca })
        },
        (
            AggEntry::DateAgg { counts: mut ca, min_date: min_a, max_date: max_a },
            AggEntry::DateAgg { counts: cb, min_date: min_b, max_date: max_b },
        ) => {
            if !ca.fits_with(&cb) {
                return Err((AggEntry::DateAgg { counts: ca, min_date: min_a, max_date: max_a }, overflow));
            }
            ca.merge_from(&cb);
            Ok(
                AggEntry::DateAgg {
                    counts: ca,
                    min_date: min_date_of(min_a, min_b),
                    max_date: max_date_of(max_a, max_b),
                },
            )
        },
        (a, _) => Err((a, StatsError::TypeMismatch { key: key.clone(), existing: ek, incoming: ik })),
    }
}

} // verus!

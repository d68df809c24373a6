use jsonb_stats::agg::{
    jsonb_stats_accum, jsonb_stats_accum_sfunc, jsonb_stats_combine, jsonb_stats_final,
    jsonb_stats_final_internal, jsonb_stats_merge, jsonb_stats_merge_sfunc, state_from_json,
};
use jsonb_stats::accum::{init_entry, update_entry, StatKind};
use jsonb_stats::entry::{merge_agg_entries, AggEntry, AggKind, NumFields, Scalar};
use jsonb_stats::merge::parse_agg_entry;
use jsonb_stats::error::{InvalidReason, StatsError};
use jsonb_stats::json::Json;
use jsonb_stats::state::StatsState;

#[derive(Clone, Copy, Debug, PartialEq)]
struct Real(f64);

impl Scalar for Real {
    fn spec_from_text(text: String) -> Self {
        Self::from_number_text(&text)
    }
    fn spec_from_count(n: u64) -> Self {
        Self::from_count(n)
    }
    fn spec_zero() -> Self {
        Self::zero()
    }
    fn spec_plus(self, o: Self) -> Self {
        self.plus(o)
    }
    fn spec_minus(self, o: Self) -> Self {
        self.minus(o)
    }
    fn spec_times(self, o: Self) -> Self {
        self.times(o)
    }
    fn spec_div(self, o: Self) -> Self {
        self.divided_by(o)
    }
    fn spec_sqrt(self) -> Self {
        self.square_root()
    }
    fn spec_less(self, o: Self) -> bool {
        self.less_than(o)
    }
    fn spec_is_zero(self) -> bool {
        self.is_zero()
    }
    fn spec_finite(self) -> bool {
        self.is_finite()
    }
    fn spec_number_text(self) -> Option<String> {
        self.number_text()
    }
    fn spec_rounded(self) -> String {
        self.rounded_text()
    }
    fn from_number_text(text: &String) -> Self {
        Real(text.parse::<f64>().unwrap_or(0.0))
    }
    fn from_count(n: u64) -> Self {
        Real(n as f64)
    }
    fn zero() -> Self {
        Real(0.0)
    }
    fn plus(self, o: Self) -> Self {
        Real(self.0 + o.0)
    }
    fn minus(self, o: Self) -> Self {
        Real(self.0 - o.0)
    }
    fn times(self, o: Self) -> Self {
        Real(self.0 * o.0)
    }
    fn divided_by(self, o: Self) -> Self {
        Real(self.0 / o.0)
    }
    fn square_root(self) -> Self {
        Real(self.0.sqrt())
    }
    fn less_than(self, o: Self) -> bool {
        self.0 < o.0
    }
    fn is_zero(self) -> bool {
        self.0 == 0.0
    }
    fn is_finite(self) -> bool {
        self.0.is_finite()
    }
    fn number_text(self) -> Option<String> {
        let v = self.0;
        if v.fract() == 0.0 && v.abs() < (i64::MAX as f64) {
            Some((v as i64).to_string())
        } else if v.is_finite() {
            Some(v.to_string())
        } else {
            None
        }
    }
    fn rounded_text(self) -> String {
        format!("{:.2}", self.0)
    }
}

fn text(t: &str) -> Json {
    Json::Str(t.to_string())
}

fn num(t: &str) -> Json {
    Json::Number(t.to_string())
}

fn obj(ms: Vec<(&str, Json)>) -> Json {
    Json::Object(ms.into_iter().map(|(k, v)| (k.to_string(), v)).collect())
}

fn stat(ty: &str, v: Json) -> Json {
    obj(vec![("type", text(ty)), ("value", v)])
}

fn row(key: &str, ty: &str, v: Json) -> Json {
    obj(vec![(key, stat(ty, v))])
}

fn get<'a>(j: &'a Json, k: &str) -> &'a Json {
    match j {
        Json::Object(ms) => &ms.iter().find(|(n, _)| n == k).unwrap_or_else(|| panic!("no member {} in {:?}", k, j)).1,
        _ => panic!("not an object: {:?}", j),
    }
}

fn has(j: &Json, k: &str) -> bool {
    match j {
        Json::Object(ms) => ms.iter().any(|(n, _)| n == k),
        _ => false,
    }
}

fn number(j: &Json) -> &str {
    match j {
        Json::Number(t) => t,
        _ => panic!("not a number: {:?}", j),
    }
}

fn string(j: &Json) -> &str {
    match j {
        Json::Str(t) => t,
        _ => panic!("not a string: {:?}", j),
    }
}

fn is_null(j: &Json) -> bool {
    matches!(j, Json::Null)
}

fn accumulate(rows: &[Json]) -> StatsState<Real> {
    let mut s = StatsState::new();
    for r in rows {
        s.accumulate(r).unwrap();
    }
    s
}

fn int_agg(count: &str, sum: &str, min: &str, max: &str, mean: &str, ssd: &str) -> Json {
    obj(vec![
        ("type", text("int_agg")),
        ("count", num(count)),
        ("sum", num(sum)),
        ("min", num(min)),
        ("max", num(max)),
        ("mean", num(mean)),
        ("sum_sq_diff", num(ssd)),
    ])
}

fn rounded_shape(t: &str) -> bool {
    let body = t.strip_prefix('-').unwrap_or(t);
    match body.split_once('.') {
        Some((whole, frac)) => {
            !whole.is_empty() && whole.chars().all(|c| c.is_ascii_digit()) && frac.len() == 2
                && frac.chars().all(|c| c.is_ascii_digit())
        }
        None => false,
    }
}

#[test]
fn int_stats_accumulate_and_finalize() {
    let s = accumulate(&[row("num", "int", num("150")), row("num", "int", num("50"))]);
    let out = s.finalize();
    assert_eq!(string(get(&out, "type")), "stats_agg");
    let n = get(&out, "num");
    assert_eq!(string(get(n, "type")), "int_agg");
    assert_eq!(number(get(n, "count")), "2");
    assert_eq!(number(get(n, "sum")), "200");
    assert_eq!(number(get(n, "min")), "50");
    assert_eq!(number(get(n, "max")), "150");
    assert_eq!(number(get(n, "mean")), "100.00");
    assert_eq!(number(get(n, "sum_sq_diff")), "5000.00");
    assert_eq!(number(get(n, "variance")), "5000.00");
    assert_eq!(number(get(n, "stddev")), "70.71");
    assert_eq!(number(get(n, "coefficient_of_variation_pct")), "70.71");
}

#[test]
fn str_stats_count_categories() {
    let s = accumulate(&[
        row("ind", "str", text("tech")),
        row("ind", "str", text("tech")),
        row("ind", "str", text("finance")),
    ]);
    let out = s.finalize();
    let ind = get(&out, "ind");
    assert_eq!(string(get(ind, "type")), "str_agg");
    let counts = get(ind, "counts");
    assert_eq!(number(get(counts, "tech")), "2");
    assert_eq!(number(get(counts, "finance")), "1");
}

#[test]
fn merge_int_summaries() {
    let a = obj(vec![("num", int_agg("2", "200", "50", "150", "100", "5000"))]);
    let b = obj(vec![("num", int_agg("1", "2500", "2500", "2500", "2500", "0"))]);
    let s = jsonb_stats_merge_sfunc::<Real>(None, Some(&a)).unwrap();
    let s = jsonb_stats_merge_sfunc(Some(s), Some(&b)).unwrap();
    let out = s.finalize();
    let n = get(&out, "num");
    assert_eq!(number(get(n, "count")), "3");
    assert_eq!(number(get(n, "sum")), "2700");
    assert_eq!(number(get(n, "min")), "50");
    assert_eq!(number(get(n, "max")), "2500");
    // The pairwise merge gives the mean of the three rows, 2700 / 3.
    assert_eq!(number(get(n, "mean")), "900.00");
    assert_eq!(number(get(n, "sum_sq_diff")), "3845000.00");
}

#[test]
fn date_stats_track_bounds() {
    let s = accumulate(&[
        row("founded", "date", text("2024-01-15")),
        row("founded", "date", text("2023-06-01")),
    ]);
    let out = s.finalize();
    let f = get(&out, "founded");
    assert_eq!(string(get(f, "type")), "date_agg");
    assert_eq!(string(get(f, "min")), "2023-06-01");
    assert_eq!(string(get(f, "max")), "2024-01-15");
    let counts = get(f, "counts");
    assert_eq!(number(get(counts, "2024-01-15")), "1");
    assert_eq!(number(get(counts, "2023-06-01")), "1");
}

#[test]
fn merge_rejects_type_mismatch() {
    let a = obj(vec![("x", int_agg("1", "5", "5", "5", "5", "0"))]);
    let b = obj(vec![("x", obj(vec![("type", text("str_agg")), ("counts", obj(vec![("a", num("1"))]))]))]);
    let s = jsonb_stats_merge_sfunc::<Real>(None, Some(&a)).unwrap();
    match jsonb_stats_merge_sfunc(Some(s), Some(&b)) {
        Err(StatsError::TypeMismatch { key, existing, incoming }) => {
            assert_eq!(key, "x");
            assert_eq!(existing, AggKind::IntAgg);
            assert_eq!(incoming, AggKind::StrAgg);
        }
        other => panic!("expected a type mismatch, got {:?}", other.map(|_| ())),
    }
}

#[test]
fn nat_rejects_negative() {
    let mut s = StatsState::<Real>::new();
    match s.accumulate(&row("headcount", "nat", num("-1"))) {
        Err(StatsError::InvalidValue { key, reason }) => {
            assert_eq!(key, "headcount");
            assert_eq!(reason, InvalidReason::NegativeNat);
        }
        other => panic!("expected an invalid value, got {:?}", other),
    }
}

#[test]
fn nat_rejects_negative_update() {
    let mut s = accumulate(&[row("headcount", "nat", num("10"))]);
    let r = s.accumulate(&row("headcount", "nat", num("-0.5")));
    assert!(matches!(r, Err(StatsError::InvalidValue { reason: InvalidReason::NegativeNat, .. })));
}

#[test]
fn nat_accepts_zero_and_negative_zero() {
    let s = accumulate(&[row("n", "nat", num("0")), row("n", "nat", num("-0.0"))]);
    let out = s.finalize();
    assert_eq!(string(get(get(&out, "n"), "type")), "nat_agg");
    assert_eq!(number(get(get(&out, "n"), "count")), "2");
}

#[test]
fn category_counts_ignore_row_order() {
    let vals = ["b", "a", "c", "a", "b", "a"];
    let forward: Vec<Json> = vals.iter().map(|v| row("k", "str", text(v))).collect();
    let backward: Vec<Json> = vals.iter().rev().map(|v| row("k", "str", text(v))).collect();
    let s1 = accumulate(&forward);
    let s2 = accumulate(&backward);
    let o1 = s1.finalize();
    let o2 = s2.finalize();
    for key in ["a", "b", "c"] {
        assert_eq!(number(get(get(get(&o1, "k"), "counts"), key)), number(get(get(get(&o2, "k"), "counts"), key)));
    }
    assert_eq!(number(get(get(get(&o1, "k"), "counts"), "a")), "3");
}

#[test]
fn array_counts_ignore_row_order() {
    let r1 = row("tags", "arr", text("{x, y}"));
    let r2 = row("tags", "arr", Json::Array(vec![text("y"), num("7"), Json::Bool(true), Json::Null]));
    let s1 = accumulate(&[r1, r2]);
    let r1 = row("tags", "arr", text("{x, y}"));
    let r2 = row("tags", "arr", Json::Array(vec![text("y"), num("7"), Json::Bool(true), Json::Null]));
    let s2 = accumulate(&[r2, r1]);
    for s in [s1, s2] {
        let out = s.finalize();
        let t = get(&out, "tags");
        assert_eq!(number(get(t, "count")), "2");
        let c = get(t, "counts");
        assert_eq!(number(get(c, "x")), "1");
        assert_eq!(number(get(c, "y")), "2");
        assert_eq!(number(get(c, "7")), "1");
        assert_eq!(number(get(c, "true")), "1");
    }
}

#[test]
fn array_text_form_is_split_and_trimmed() {
    let s = accumulate(&[row("tags", "arr", text("{ a ,b,a }"))]);
    let out = s.finalize();
    let c = get(get(&out, "tags"), "counts");
    assert_eq!(number(get(c, "a")), "2");
    assert_eq!(number(get(c, "b")), "1");
}

#[test]
fn empty_array_text_has_no_items() {
    let s = accumulate(&[row("tags", "arr", text("{}"))]);
    let out = s.finalize();
    let t = get(&out, "tags");
    assert_eq!(number(get(t, "count")), "1");
    assert!(matches!(get(t, "counts"), Json::Object(ms) if ms.is_empty()));
}

#[test]
fn bool_stats_accept_booleans() {
    let s = accumulate(&[row("b", "bool", Json::Bool(true)), row("b", "bool", text("true")), row("b", "bool", Json::Bool(false))]);
    let out = s.finalize();
    let c = get(get(&out, "b"), "counts");
    assert_eq!(number(get(c, "true")), "2");
    assert_eq!(number(get(c, "false")), "1");
}

#[test]
fn finalized_summary_reads_back_the_same() {
    let s = accumulate(&[
        row("num", "float", num("1.5")),
        row("num", "float", num("2.25")),
        row("ind", "str", text("tech")),
        row("tags", "arr", text("{a,b}")),
        row("d", "date", text("2020-02-02")),
    ]);
    let out = s.finalize();
    let back: StatsState<Real> = state_from_json(&out).unwrap();
    let again = back.finalize();
    // Everything but the statistics derived from the rounded mean and spread reads back
    // exactly.
    let derived = ["variance", "stddev", "coefficient_of_variation_pct"];
    let strip = |j: &Json| -> String {
        match j {
            Json::Object(ms) => ms
                .iter()
                .map(|(k, v)| match v {
                    Json::Object(fs) => format!(
                        "{}={:?}",
                        k,
                        fs.iter().filter(|(n, _)| !derived.contains(&n.as_str())).collect::<Vec<_>>()
                    ),
                    other => format!("{}={:?}", k, other),
                })
                .collect::<Vec<_>>()
                .join(";"),
            other => format!("{:?}", other),
        }
    };
    assert_eq!(strip(&again), strip(&out));
    assert_eq!(number(get(get(&again, "num"), "mean")), "1.88");
    assert_eq!(number(get(get(&again, "num"), "sum")), "3.75");
}

#[test]
fn merging_with_an_empty_state_changes_nothing() {
    let s = accumulate(&[row("num", "int", num("3")), row("ind", "str", text("x"))]);
    let expected = format!("{:?}", s.finalize());
    let left = jsonb_stats_combine(Some(s), Some(StatsState::new())).unwrap();
    assert_eq!(format!("{:?}", left.finalize()), expected);
    let right = jsonb_stats_combine(Some(StatsState::new()), Some(left)).unwrap();
    assert_eq!(format!("{:?}", right.finalize()), expected);
}

#[test]
fn single_row_has_no_spread() {
    let s = accumulate(&[row("num", "int", num("42"))]);
    let out = s.finalize();
    let n = get(&out, "num");
    assert_eq!(number(get(n, "count")), "1");
    assert_eq!(number(get(n, "sum")), "42");
    assert_eq!(number(get(n, "min")), "42");
    assert_eq!(number(get(n, "max")), "42");
    assert_eq!(number(get(n, "mean")), "42.00");
    assert_eq!(number(get(n, "sum_sq_diff")), "0.00");
    assert!(is_null(get(n, "variance")));
    assert!(is_null(get(n, "stddev")));
    assert!(is_null(get(n, "coefficient_of_variation_pct")));
}

#[test]
fn rounded_fields_have_two_decimals() {
    let s = accumulate(&[row("n", "float", num("-1.005")), row("n", "float", num("3")), row("n", "float", num("7.123"))]);
    let out = s.finalize();
    let n = get(&out, "n");
    for k in ["mean", "sum_sq_diff", "variance", "stddev", "coefficient_of_variation_pct"] {
        assert!(rounded_shape(number(get(n, k))), "{} = {:?}", k, get(n, k));
    }
}

#[test]
fn zero_mean_has_no_coefficient_of_variation() {
    let s = accumulate(&[row("n", "int", num("-5")), row("n", "int", num("5"))]);
    let out = s.finalize();
    let n = get(&out, "n");
    assert_eq!(number(get(n, "variance")), "50.00");
    assert!(is_null(get(n, "coefficient_of_variation_pct")));
}

#[test]
fn unknown_stat_type_is_refused() {
    let mut s = StatsState::<Real>::new();
    match s.accumulate(&row("x", "complex", num("1"))) {
        Err(StatsError::UnknownStatType(t)) => assert_eq!(t, "complex"),
        other => panic!("{:?}", other),
    }
}

#[test]
fn unknown_agg_type_is_refused() {
    let a = obj(vec![("x", obj(vec![("type", text("mystery_agg"))]))]);
    match jsonb_stats_merge_sfunc::<Real>(None, Some(&a)) {
        Err(StatsError::UnknownAggType(t)) => assert_eq!(t, "mystery_agg"),
        other => panic!("{:?}", other.map(|_| ())),
    }
}

#[test]
fn missing_str_value_is_refused() {
    let mut s = StatsState::<Real>::new();
    let r = s.accumulate(&obj(vec![("x", obj(vec![("type", text("str"))]))]));
    assert!(matches!(r, Err(StatsError::InvalidValue { reason: InvalidReason::MissingValue, .. })));
}

#[test]
fn date_with_number_value_is_refused() {
    let mut s = StatsState::<Real>::new();
    let r = s.accumulate(&row("d", "date", num("20240101")));
    assert!(matches!(r, Err(StatsError::InvalidValue { reason: InvalidReason::NotAString, .. })));
}

#[test]
fn numeric_stat_needs_a_number() {
    let mut s = StatsState::<Real>::new();
    let r = s.accumulate(&row("n", "int", text("5")));
    assert!(matches!(r, Err(StatsError::InvalidValue { reason: InvalidReason::NotANumber, .. })));
}

#[test]
fn count_overflow_is_refused() {
    let a = obj(vec![("c", obj(vec![("type", text("str_agg")), ("counts", obj(vec![("a", num("18446744073709551615"))]))]))]);
    let mut s = jsonb_stats_merge_sfunc::<Real>(None, Some(&a)).unwrap();
    let r = s.accumulate(&row("c", "str", text("a")));
    assert!(matches!(r, Err(StatsError::InvalidValue { reason: InvalidReason::CountOverflow, .. })));
}

#[test]
fn reserved_and_malformed_members_are_passed_over() {
    let r = obj(vec![
        ("type", text("stats")),
        ("plain", num("3")),
        ("untyped", obj(vec![("value", num("1"))])),
        ("ok", stat("int", num("1"))),
    ]);
    let s = accumulate(&[r, Json::Null]);
    assert_eq!(s.len(), 1);
    let out = s.finalize();
    assert!(has(&out, "ok"));
    assert!(!has(&out, "plain"));
}

#[test]
fn stat_of_another_type_is_refused() {
    let mut s = accumulate(&[row("k", "str", text("a"))]);
    let r = s.accumulate(&row("k", "int", num("5")));
    assert!(matches!(r, Err(StatsError::TypeMismatch { existing: AggKind::StrAgg, incoming: AggKind::IntAgg, .. })));
    let r = s.accumulate(&row("k", "date", num("5")));
    assert!(matches!(r, Err(StatsError::TypeMismatch { existing: AggKind::StrAgg, incoming: AggKind::DateAgg, .. })));
    let out = s.finalize();
    assert_eq!(number(get(get(get(&out, "k"), "counts"), "a")), "1");
    assert!(!has(get(get(&out, "k"), "counts"), "5"));
}

#[test]
fn array_stat_needs_a_value() {
    let mut s = StatsState::<Real>::new();
    let r = s.accumulate(&row("tags", "arr", num("3")));
    assert!(matches!(r, Err(StatsError::InvalidValue { reason: InvalidReason::MissingValue, .. })));
    let mut s = accumulate(&[row("tags", "arr", text("{a}"))]);
    let r = s.accumulate(&obj(vec![("tags", obj(vec![("type", text("arr"))]))]));
    assert!(matches!(r, Err(StatsError::InvalidValue { reason: InvalidReason::MissingValue, .. })));
    assert_eq!(number(get(get(&s.finalize(), "tags"), "count")), "1");
}

#[test]
fn refused_stat_leaves_the_state_as_it_was() {
    let mut s = accumulate(&[row("n", "nat", num("4")), row("n", "nat", num("6"))]);
    let before = format!("{:?}", s.finalize());
    assert!(s.accumulate(&row("n", "nat", num("-1"))).is_err());
    assert_eq!(format!("{:?}", s.finalize()), before);
}

#[test]
fn accum_sfunc_starts_an_empty_state() {
    let s = jsonb_stats_accum_sfunc::<Real>(None, &row("n", "int", num("1"))).unwrap();
    let s = jsonb_stats_accum_sfunc(Some(s), &row("n", "int", num("3"))).unwrap();
    let out = jsonb_stats_final_internal(Some(&s));
    assert_eq!(number(get(get(&out, "n"), "mean")), "2.00");
}

#[test]
fn final_of_no_state_is_bare_tag() {
    let out = jsonb_stats_final_internal::<Real>(None);
    match &out {
        Json::Object(ms) => assert_eq!(ms.len(), 1),
        _ => panic!(),
    }
    assert_eq!(string(get(&out, "type")), "stats_agg");
}

#[test]
fn combine_matches_sequential_accumulation() {
    let a = accumulate(&[row("n", "int", num("150")), row("t", "str", text("x"))]);
    let b = accumulate(&[row("n", "int", num("50")), row("t", "str", text("x")), row("d", "date", text("2001-01-01"))]);
    let s = jsonb_stats_combine(Some(a), Some(b)).unwrap();
    let out = s.finalize();
    let n = get(&out, "n");
    assert_eq!(number(get(n, "count")), "2");
    assert_eq!(number(get(n, "mean")), "100.00");
    assert_eq!(number(get(n, "sum_sq_diff")), "5000.00");
    assert_eq!(number(get(get(get(&out, "t"), "counts"), "x")), "2");
    assert_eq!(string(get(get(&out, "d"), "min")), "2001-01-01");
}

#[test]
fn combine_reports_type_mismatch() {
    let a = accumulate(&[row("k", "int", num("1"))]);
    let b = accumulate(&[row("k", "date", text("2000-01-01"))]);
    let r = jsonb_stats_combine(Some(a), Some(b));
    assert!(matches!(r, Err(StatsError::TypeMismatch { existing: AggKind::IntAgg, incoming: AggKind::DateAgg, .. })));
}

#[test]
fn json_state_path_matches_native_path() {
    let empty = obj(vec![]);
    let j1 = jsonb_stats_accum::<Real>(&empty, &row("n", "int", num("150"))).unwrap();
    let j2 = jsonb_stats_accum::<Real>(&j1, &row("n", "int", num("50"))).unwrap();
    let out = jsonb_stats_final::<Real>(&j2).unwrap();
    let n = get(&out, "n");
    assert_eq!(number(get(n, "mean")), "100.00");
    assert_eq!(number(get(n, "variance")), "5000.00");
    let merged = jsonb_stats_merge::<Real>(&j2, &j2).unwrap();
    let out = jsonb_stats_final::<Real>(&merged).unwrap();
    assert_eq!(number(get(get(&out, "n"), "count")), "4");
}

fn num_fields(e: &AggEntry<Real>) -> &NumFields<Real> {
    match e {
        AggEntry::IntAgg(f)
        | AggEntry::FloatAgg(f)
        | AggEntry::Dec2Agg(f)
        | AggEntry::NatAgg(f) => f,
        _ => panic!("not numeric"),
    }
}

#[test]
fn welford_sequential_matches_tree_merge() {
    let vals = [3.5, -2.0, 10.25, 7.0, 0.5, 100.0, 42.0, -13.75];
    let mut seq = NumFields::init(Real(vals[0]));
    for v in &vals[1..] {
        seq.update(Real(*v));
    }
    // ((v0 v1) (v2 v3 v4)) ((v5) (v6 v7))
    let leaf = |xs: &[f64]| {
        let mut f = NumFields::init(Real(xs[0]));
        for v in &xs[1..] {
            f.update(Real(*v));
        }
        f
    };
    let mut a = leaf(&vals[0..2]);
    a.merge(&leaf(&vals[2..5]));
    let mut b = leaf(&vals[5..6]);
    b.merge(&leaf(&vals[6..8]));
    a.merge(&b);
    assert_eq!(a.count, seq.count);
    assert!((a.mean.0 - seq.mean.0).abs() < 1e-9);
    assert!((a.sum_sq_diff.0 - seq.sum_sq_diff.0).abs() < 1e-6);
    assert_eq!(a.min, Real(-13.75));
    assert_eq!(a.max, Real(100.0));
    assert_eq!(a.sum, seq.sum);
}

#[test]
fn num_fields_init_takes_the_value() {
    let f = NumFields::init(Real(7.5));
    assert_eq!(f.count, 1);
    assert_eq!((f.sum, f.min, f.max, f.mean, f.sum_sq_diff), (Real(7.5), Real(7.5), Real(7.5), Real(7.5), Real(0.0)));
}

#[test]
fn merge_agg_entries_merges_in_place() {
    let a = match int_agg("2", "200", "50", "150", "100", "5000") {
        Json::Object(ms) => ms,
        _ => unreachable!(),
    };
    let b = match int_agg("1", "2500", "2500", "2500", "2500", "0") {
        Json::Object(ms) => ms,
        _ => unreachable!(),
    };
    let mut e: AggEntry<Real> = parse_agg_entry(&a).unwrap();
    let incoming: AggEntry<Real> = parse_agg_entry(&b).unwrap();
    assert_eq!(e.type_tag(), "int_agg");
    merge_agg_entries(&mut e, incoming, &"num".to_string()).unwrap();
    let f = num_fields(&e);
    assert_eq!(f.count, 3);
    assert_eq!(f.sum, Real(2700.0));
    assert!((f.mean.0 - 900.0).abs() < 1e-9);
    assert!((f.sum_sq_diff.0 - 3_845_000.0).abs() < 1e-6);
}

#[test]
fn merge_agg_entries_widens_date_bounds() {
    let mk = |lo: &str, hi: &str| match obj(vec![
        ("type", text("date_agg")),
        ("counts", obj(vec![(lo, num("1")), (hi, num("1"))])),
        ("min", text(lo)),
        ("max", text(hi)),
    ]) {
        Json::Object(ms) => ms,
        _ => unreachable!(),
    };
    let mut e: AggEntry<Real> = parse_agg_entry(&mk("2001-05-05", "2003-01-01")).unwrap();
    let incoming: AggEntry<Real> = parse_agg_entry(&mk("1999-12-31", "2002-02-02")).unwrap();
    merge_agg_entries(&mut e, incoming, &"d".to_string()).unwrap();
    match &e {
        AggEntry::DateAgg { counts, min_date, max_date } => {
            assert_eq!(min_date.as_deref(), Some("1999-12-31"));
            assert_eq!(max_date.as_deref(), Some("2003-01-01"));
            assert_eq!(counts.entries.len(), 4);
        }
        _ => panic!(),
    }
}

#[test]
fn update_entry_applies_welford_and_restores_on_error() {
    let key = "k".to_string();
    let first = match stat("int", num("150")) {
        Json::Object(ms) => ms,
        _ => unreachable!(),
    };
    let second = match stat("int", num("50")) {
        Json::Object(ms) => ms,
        _ => unreachable!(),
    };
    let wrong = match stat("str", text("x")) {
        Json::Object(ms) => ms,
        _ => unreachable!(),
    };
    let mut e = init_entry::<Real>(&first, StatKind::Int, &key).unwrap();
    update_entry(&mut e, &second, StatKind::Int, &key).unwrap();
    let f = num_fields(&e);
    assert_eq!((f.count, f.sum, f.min, f.max, f.mean, f.sum_sq_diff), (2, Real(200.0), Real(50.0), Real(150.0), Real(100.0), Real(5000.0)));
    let r = update_entry(&mut e, &wrong, StatKind::Str, &key);
    assert!(matches!(r, Err(StatsError::TypeMismatch { .. })));
    let f = num_fields(&e);
    assert_eq!((f.count, f.sum), (2, Real(200.0)));
}

#[test]
fn merge_agg_entries_restores_on_mismatch() {
    let a = match int_agg("2", "200", "50", "150", "100", "5000") {
        Json::Object(ms) => ms,
        _ => unreachable!(),
    };
    let b = match obj(vec![("type", text("str_agg")), ("counts", obj(vec![]))]) {
        Json::Object(ms) => ms,
        _ => unreachable!(),
    };
    let mut e: AggEntry<Real> = parse_agg_entry(&a).unwrap();
    let incoming: AggEntry<Real> = parse_agg_entry(&b).unwrap();
    assert!(merge_agg_entries(&mut e, incoming, &"num".to_string()).is_err());
    let f = num_fields(&e);
    assert_eq!((f.count, f.sum, f.mean), (2, Real(200.0), Real(100.0)));
}

#[test]
fn array_text_trims_unicode_spaces() {
    let s = accumulate(&[row("tags", "arr", text("{\u{a0}a\u{b},\u{3000}b }"))]);
    let out = s.finalize();
    let c = get(get(&out, "tags"), "counts");
    assert_eq!(number(get(c, "a")), "1");
    assert_eq!(number(get(c, "b")), "1");
}

#[test]
fn summary_counts_written_with_zero_fraction_are_read() {
    let a = obj(vec![("num", int_agg("2.0", "200", "50", "150", "100", "5000"))]);
    let s = jsonb_stats_merge_sfunc::<Real>(None, Some(&a)).unwrap();
    assert_eq!(number(get(get(&s.finalize(), "num"), "count")), "2");
}

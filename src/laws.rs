//! Properties of the aggregates as a whole.
use vstd::multiset::Multiset;
use vstd::prelude::*;

use crate::accum::{
    accum_field, accum_fields, accum_row, arr_items, init_result, update_result, value_key, value_of,
    StatKind,
};
use crate::counts::{count_of, lemma_tally_all, sum_counts, tally_value, Counts};
use crate::entry::{kind_of_tag, kind_tag, merge_result, num_view, AggEntry, AggKind, EntryView, NumFields, Scalar};
use crate::error::ErrView;
use crate::final_fn::{
    date_bounds, emits_counts, emits_entry, emits_num, emits_state, is_number_text, num_member,
};
use crate::json::{lemma_first_key, lookup, str_member, Json};
use crate::keyed::{has_key, key_at, keyed_map, lemma_keyed_dom, lemma_keyed_value, unique_keys};
use crate::merge::{
    agg_tag, count_member, json_count, json_count_fn, merge_json, merge_json_field, merge_json_fields,
    parse_result, parsed_counts,
};
use crate::state::{entry_pairs, entry_view, merge_all, merge_into, StatsState};
use crate::text::{decimal, lemma_decimal_round_trip};

verus! {

proof fn lemma_prefix_unique<V>(s: Seq<(String, V)>, i: int)
    requires
        unique_keys(s),
        0 <= i <= s.len(),
    ensures
        unique_keys(s.take(i)),
{
    let t = s.take(i);
    assert forall|a: int, b: int|
        0 <= a < t.len() && 0 <= b < t.len() && a != b implies #[trigger] key_at(t, a) != #[trigger] key_at(
        t,
        b,
    ) by {
        assert(key_at(s, a) != key_at(s, b));
    }
}

/// Merging the entries of a state, from its `i`-th on, into the map of its first `i`
/// entries gives the state's map.
proof fn lemma_merge_rest<R: Scalar>(s: StatsState<R>, i: int)
    requires
        s.wf(),
        0 <= i <= s.entries@.len(),
    ensures
        merge_all(keyed_map(s.entries@.take(i), entry_view::<R>()), entry_pairs(s.entries@).skip(i))
            == Ok::<Map<Seq<char>, EntryView<R>>, ErrView>(s@),
    decreases s.entries@.len() - i,
{
    let e = s.entries@;
    let rest = entry_pairs(e).skip(i);
    if i == e.len() {
        assert(e.take(i) =~= e);
        assert(rest.len() == 0);
    } else {
        let m = keyed_map(e.take(i), entry_view::<R>());
        let k = e[i].0@;
        lemma_prefix_unique(e, i);
        lemma_keyed_dom(e.take(i), entry_view::<R>(), k);
        if has_key(e.take(i), k) {
            let j = choose|j: int| 0 <= j < e.take(i).len() && #[trigger] key_at(e.take(i), j) == k;
            assert(key_at(e, j) == key_at(e, i));
        }
        assert(rest[0] == (k, e[i].1@));
        assert(e.take(i + 1).drop_last() =~= e.take(i));
        assert(merge_into(m, k, e[i].1@) == Ok::<Map<Seq<char>, EntryView<R>>, ErrView>(
            keyed_map(e.take(i + 1), entry_view::<R>()),
        ));
        assert(rest.drop_first() =~= entry_pairs(e).skip(i + 1));
        lemma_merge_rest(s, i + 1);
    }
}

/// Merging a state into an empty state gives the state itself, and merging an empty
/// state into any state leaves that state as it is.
pub proof fn law_merge_identity<R: Scalar>(s: StatsState<R>, empty: StatsState<R>)
    requires
        s.wf(),
        empty.wf(),
        empty.entries@.len() == 0,
    ensures
        merge_all(empty@, entry_pairs(s.entries@)) == Ok::<Map<Seq<char>, EntryView<R>>, ErrView>(s@),
        merge_all(s@, entry_pairs(empty.entries@)) == Ok::<Map<Seq<char>, EntryView<R>>, ErrView>(s@),
{
    lemma_merge_rest(s, 0);
    assert(s.entries@.take(0) =~= empty.entries@);
    assert(entry_pairs(s.entries@).skip(0) =~= entry_pairs(s.entries@));
    assert(entry_pairs(empty.entries@).len() == 0);
}

proof fn lemma_kind_tag_round_trip(k: AggKind)
    ensures
        kind_of_tag(kind_tag(k)) == Some(k),
{
    reveal_strlit("int_agg");
    reveal_strlit("float_agg");
    reveal_strlit("dec2_agg");
    reveal_strlit("nat_agg");
    reveal_strlit("str_agg");
    reveal_strlit("bool_agg");
    reveal_strlit("arr_agg");
    reveal_strlit("date_agg");
    assert("int_agg"@[0] != "nat_agg"@[0]);
    assert("int_agg"@[0] != "str_agg"@[0]);
    assert("int_agg"@[0] != "arr_agg"@[0]);
    assert("nat_agg"@[0] != "str_agg"@[0]);
    assert("nat_agg"@[0] != "arr_agg"@[0]);
    assert("str_agg"@[0] != "arr_agg"@[0]);
    assert("dec2_agg"@[0] != "bool_agg"@[0]);
    assert("dec2_agg"@[1] != "date_agg"@[1]);
    assert("bool_agg"@[0] != "date_agg"@[0]);
}

/// The member names that a summary is read back by are distinct.
proof fn lemma_member_names()
    ensures
        "type"@ != "count"@,
        "type"@ != "counts"@,
        "count"@ != "counts"@,
        "type"@ != "min"@,
        "counts"@ != "min"@,
        "type"@ != "max"@,
        "counts"@ != "max"@,
        "min"@ != "max"@,
{
    reveal_strlit("type");
    reveal_strlit("count");
    reveal_strlit("counts");
    reveal_strlit("min");
    reveal_strlit("max");
    assert("type"@.len() == 4);
    assert("count"@.len() == 5);
    assert("counts"@.len() == 6);
    assert("min"@.len() == 3);
    assert("max"@.len() == 3);
    assert("min"@[1] != "max"@[1]);
}

/// `ms` has a member named `name` at `i`, and none before it.
proof fn lemma_lookup_at(ms: Seq<(String, Json)>, name: Seq<char>, i: int)
    requires
        0 <= i < ms.len(),
        ms[i].0@ == name,
        forall|j: int| 0 <= j < i ==> ms[j].0@ != name,
    ensures
        lookup(ms, name) == Some(ms[i].1),
{
    assert forall|j: int| 0 <= j < i implies #[trigger] key_at(ms, j) != name by {
        assert(ms[j].0@ != name);
    }
    lemma_first_key(ms, name, i);
}

/// `ms` has no member named `name`.
proof fn lemma_lookup_none(ms: Seq<(String, Json)>, name: Seq<char>)
    requires
        forall|j: int| 0 <= j < ms.len() ==> ms[j].0@ != name,
    ensures
        lookup(ms, name) is None,
{
    if has_key(ms, name) {
        let j = choose|j: int| 0 <= j < ms.len() && #[trigger] key_at(ms, j) == name;
        assert(ms[j].0@ != name);
    }
}

/// Two sequences of pairs with the same keys, position by position, and values that read
/// the same stand for the same map.
proof fn lemma_keyed_congruent<V1, V2, W>(
    s1: Seq<(String, V1)>,
    f1: spec_fn(V1) -> W,
    s2: Seq<(String, V2)>,
    f2: spec_fn(V2) -> W,
)
    requires
        s1.len() == s2.len(),
        forall|i: int|
            #![trigger s1[i]]
            0 <= i < s1.len() ==> s1[i].0@ == s2[i].0@ && f1(s1[i].1) == f2(s2[i].1),
    ensures
        keyed_map(s1, f1) == keyed_map(s2, f2),
    decreases s1.len(),
{
    if s1.len() > 0 {
        let n = s1.len() - 1;
        let _ = s1[n];
        assert forall|i: int| 0 <= i < s1.drop_last().len() implies #[trigger] s1.drop_last()[i] == s1[i] by {}
        assert forall|i: int|
            #![trigger s1.drop_last()[i]]
            0 <= i < s1.drop_last().len() implies s1.drop_last()[i].0@ == s2.drop_last()[i].0@ && f1(
            s1.drop_last()[i].1,
        ) == f2(s2.drop_last()[i].1) by {
            let _ = s1[i];
        }
        lemma_keyed_congruent(s1.drop_last(), f1, s2.drop_last(), f2);
    }
}

/// The tallies written by `emits_counts` read back as the tally they were written from.
proof fn lemma_counts_round_trip(j: Json, c: Counts)
    requires
        emits_counts(j, c),
    ensures
        j matches Json::Object(es) && keyed_map(es@, json_count_fn()) == c@,
{
    if let Json::Object(es) = j {
        assert forall|i: int|
            #![trigger es@[i]]
            0 <= i < es@.len() implies es@[i].0@ == c.entries@[i].0@ && json_count_fn()(es@[i].1)
                == tally_value()(c.entries@[i].1) by {
            assert(es@[i].0@ == c.entries@[i].0@);
            let n = c.entries@[i].1 as nat;
            assert(crate::final_fn::is_number_text(es@[i].1, decimal(n)));
            lemma_decimal_round_trip(n);
            assert(json_count(es@[i].1) == n);
        }
        lemma_keyed_congruent(es@, json_count_fn(), c.entries@, tally_value());
    }
}

/// A numeric summary written by `emits_num` reads back as its type and row count.
proof fn lemma_num_round_trip<R: Scalar>(j: Json, k: AggKind, f: NumFields<R>, finalized: bool)
    requires
        emits_num(j, kind_tag(k), f, finalized),
        k == AggKind::IntAgg || k == AggKind::FloatAgg || k == AggKind::Dec2Agg || k == AggKind::NatAgg,
    ensures
        j matches Json::Object(ms) && parse_result::<R>(ms@) is Ok && shape(parse_result::<R>(ms@)->Ok_0)
            == shape(num_view(k, f)),
{
    let count = f.count;
    if let Json::Object(ms) = j {
        let m = ms@;
        lemma_member_names();
        lemma_kind_tag_round_trip(k);
        let names = if finalized {
            crate::final_fn::final_num_names()
        } else {
            crate::final_fn::raw_num_names()
        };
        assert(m[0].0@ == names[0]);
        assert(m[1].0@ == names[1]);
        lemma_lookup_at(m, "type"@, 0);
        lemma_lookup_at(m, "count"@, 1);
        lemma_decimal_round_trip(count as nat);
        assert(agg_tag(m) == kind_tag(k));
        assert(count_member(m, "count"@) == count as nat);
        assert(shape(parse_result::<R>(m)->Ok_0) =~= shape(num_view(k, f)));
    }
}

/// What a summary says apart from its real-valued moments.
pub open spec fn shape<R>(v: EntryView<R>) -> EntryView<R> {
    EntryView { moments: None, ..v }
}

/// The shapes of the summaries of a state.
pub open spec fn shapes<R>(m: Map<Seq<char>, EntryView<R>>) -> Map<Seq<char>, EntryView<R>> {
    m.map_values(|v: EntryView<R>| shape(v))
}

/// Any summary entry written by `emits_entry` reads back as a summary of the same shape;
/// tally, array and date summaries read back exactly.
pub proof fn lemma_entry_round_trip<R: Scalar>(j: Json, e: AggEntry<R>, finalized: bool)
    requires
        emits_entry(j, e, finalized),
        e.wf(),
    ensures
        j matches Json::Object(ms) && parse_result::<R>(ms@) is Ok && shape(parse_result::<R>(ms@)->Ok_0)
            == shape(e@),
        !(e@.moments is Some) ==> (j matches Json::Object(ms) && parse_result::<R>(ms@) == Ok::<
            EntryView<R>,
            ErrView,
        >(e@)),
{
    lemma_member_names();
    lemma_kind_tag_round_trip(e@.kind);
    match e {
        AggEntry::IntAgg(f) => lemma_num_round_trip(j, AggKind::IntAgg, f, finalized),
        AggEntry::FloatAgg(f) => lemma_num_round_trip(j, AggKind::FloatAgg, f, finalized),
        AggEntry::Dec2Agg(f) => lemma_num_round_trip(j, AggKind::Dec2Agg, f, finalized),
        AggEntry::NatAgg(f) => lemma_num_round_trip(j, AggKind::NatAgg, f, finalized),
        AggEntry::StrAgg { counts } | AggEntry::BoolAgg { counts } => {
            if let Json::Object(ms) = j {
                let m = ms@;
                assert(m[0].0@ == "type"@);
                assert(m[1].0@ == "counts"@);
                lemma_lookup_at(m, "type"@, 0);
                lemma_lookup_at(m, "counts"@, 1);
                lemma_counts_round_trip(m[1].1, counts);
                assert(parsed_counts(m) == counts@);
                assert(agg_tag(m) == kind_tag(e@.kind));
            }
        },
        AggEntry::ArrAgg { count, counts } => {
            if let Json::Object(ms) = j {
                let m = ms@;
                assert(m[0].0@ == "type"@);
                assert(m[1].0@ == "count"@);
                assert(m[2].0@ == "counts"@);
                lemma_lookup_at(m, "type"@, 0);
                lemma_lookup_at(m, "count"@, 1);
                lemma_lookup_at(m, "counts"@, 2);
                lemma_counts_round_trip(m[2].1, counts);
                lemma_decimal_round_trip(count as nat);
                assert(parsed_counts(m) == counts@);
                assert(agg_tag(m) == kind_tag(e@.kind));
            }
        },
        AggEntry::DateAgg { counts, min_date, max_date } => {
            if let Json::Object(ms) = j {
                let m = ms@;
                let b = date_bounds(min_date, max_date);
                lemma_lookup_at(m, "type"@, 0);
                lemma_lookup_at(m, "counts"@, 1);
                lemma_counts_round_trip(m[1].1, counts);
                assert(parsed_counts(m) == counts@);
                assert(agg_tag(m) == kind_tag(e@.kind));
                match min_date {
                    Some(lo) => {
                        assert(b[0] == ("min"@, lo@));
                        assert(m[2int + 0].0@ == b[0].0);
                        lemma_lookup_at(m, "min"@, 2);
                        assert(str_member(m, "min"@) == Some(lo@));
                        match max_date {
                            Some(hi) => {
                                assert(b[1] == ("max"@, hi@));
                                assert(m[2int + 1].0@ == b[1].0);
                                lemma_lookup_at(m, "max"@, 3);
                                assert(str_member(m, "max"@) == Some(hi@));
                            },
                            None => {
                                lemma_lookup_none(m, "max"@);
                            },
                        }
                    },
                    None => {
                        assert forall|i: int| 0 <= i < m.len() implies m[i].0@ != "min"@ by {
                            if i >= 2 {
                                assert(m[2 + (i - 2)].0@ == b[i - 2].0);
                            }
                        }
                        lemma_lookup_none(m, "min"@);
                        match max_date {
                            Some(hi) => {
                                assert(b[0] == ("max"@, hi@));
                                assert(m[2int + 0].0@ == b[0].0);
                                lemma_lookup_at(m, "max"@, 2);
                                assert(str_member(m, "max"@) == Some(hi@));
                            },
                            None => {
                                lemma_lookup_none(m, "max"@);
                            },
                        }
                    },
                }
            }
        },
    }
}

/// Reading the members of a summary object from the `i`-th field on, into a map shaped
/// as the first `i` fields, gives a map shaped as the whole state.
proof fn lemma_json_rest<R: Scalar>(
    j: Json,
    s: StatsState<R>,
    finalized: bool,
    i: int,
    m: Map<Seq<char>, EntryView<R>>,
)
    requires
        emits_state(j, s, finalized),
        s.wf(),
        !s@.contains_key("type"@),
        0 <= i <= s.entries@.len(),
        shapes(m) == shapes(keyed_map(s.entries@.take(i), entry_view::<R>())),
    ensures
        j matches Json::Object(ms) && merge_json_fields(m, ms@.skip(i + 1)) is Ok && shapes(
            merge_json_fields(m, ms@.skip(i + 1))->Ok_0,
        ) == shapes(s@),
    decreases s.entries@.len() - i,
{
    if let Json::Object(ms) = j {
        let e = s.entries@;
        let rest = ms@.skip(i + 1);
        if i == e.len() {
            assert(e.take(i) =~= e);
            assert(rest.len() == 0);
        } else {
            let k = e[i].0@;
            let t = keyed_map(e.take(i), entry_view::<R>());
            assert(ms@[i + 1].0@ == e[i].0@ && emits_entry(ms@[i + 1].1, e[i].1, finalized));
            assert(e[i].1.wf());
            lemma_entry_round_trip(ms@[i + 1].1, e[i].1, finalized);
            lemma_keyed_value(e, entry_view::<R>(), i);
            assert(k != "type"@);
            lemma_prefix_unique(e, i);
            lemma_keyed_dom(e.take(i), entry_view::<R>(), k);
            if has_key(e.take(i), k) {
                let q = choose|q: int| 0 <= q < e.take(i).len() && #[trigger] key_at(e.take(i), q) == k;
                assert(key_at(e, q) == key_at(e, i));
            }
            assert(!shapes(t).contains_key(k));
            assert(!m.contains_key(k)) by {
                assert(shapes(m).dom() == m.dom());
            }
            let p = match ms@[i + 1].1 {
                Json::Object(fs) => parse_result::<R>(fs@)->Ok_0,
                _ => arbitrary(),
            };
            assert(rest[0] == ms@[i + 1]);
            assert(merge_json_field(m, k, ms@[i + 1].1) == Ok::<Map<Seq<char>, EntryView<R>>, ErrView>(
                m.insert(k, p),
            ));
            assert(e.take(i + 1).drop_last() =~= e.take(i));
            let t2 = keyed_map(e.take(i + 1), entry_view::<R>());
            assert(t2 == t.insert(k, e[i].1@));
            assert(shapes(m.insert(k, p)) =~= shapes(m).insert(k, shape(p)));
            assert(shapes(t2) =~= shapes(t).insert(k, shape(e[i].1@)));
            assert(rest.drop_first() =~= ms@.skip(i + 2));
            lemma_json_rest(j, s, finalized, i + 1, m.insert(k, p));
        }
    }
}

/// Reading a summary object back member by member, as the merge aggregate does, gives a
/// state with the same fields, each with the same type, row count, tallies and date
/// bounds; only the real-valued moments pass through their text. This holds of the
/// finalized summary and of the running one.
pub proof fn law_summary_round_trip<R: Scalar>(j: Json, s: StatsState<R>, finalized: bool)
    requires
        emits_state(j, s, finalized),
        s.wf(),
        !s@.contains_key("type"@),
    ensures
        merge_json::<R>(Map::empty(), j) is Ok,
        shapes(merge_json::<R>(Map::empty(), j)->Ok_0) == shapes(s@),
{
    let e0 = Map::<Seq<char>, EntryView<R>>::empty();
    assert(s.entries@.take(0) =~= Seq::<(String, AggEntry<R>)>::empty());
    assert(shapes(e0) =~= shapes(keyed_map(s.entries@.take(0), entry_view::<R>())));
    lemma_json_rest(j, s, finalized, 0, e0);
    if let Json::Object(ms) = j {
        assert(ms@.skip(1) =~= ms@.drop_first());
        assert(ms@[0].0@ == "type"@);
    }
}

/// After a single numeric stat, the field's summary has one row whose sum, minimum,
/// maximum and mean are the value and whose spread is zero; its finalized form writes
/// count `1`, the value as sum, minimum and maximum, the value and zero rounded as mean
/// and spread, and null variance, standard deviation and coefficient of variation.
pub proof fn law_single_numeric_row<R: Scalar>(
    key: Seq<char>,
    kind: StatKind,
    stat: Seq<(String, Json)>,
    out: Json,
    tag: Seq<char>,
)
    requires
        kind == StatKind::Int || kind == StatKind::Float || kind == StatKind::Dec2 || kind == StatKind::Nat,
        init_result::<R>(key, kind, stat) is Ok,
        emits_num(out, tag, init_result::<R>(key, kind, stat)->Ok_0.moments->0, true),
    ensures
        ({
            let e = init_result::<R>(key, kind, stat)->Ok_0;
            let f = e.moments->0;
            let v = R::spec_from_text(value_of(stat)->0->Number_0);
            &&& e.count == 1 && e.moments is Some
            &&& f.count == 1 && f.sum == v && f.min == v && f.max == v && f.mean == v
            &&& f.sum_sq_diff == R::spec_zero()
            &&& out matches Json::Object(ms) && is_number_text(ms@[1].1, "1"@) && num_member(ms@[2].1, v)
                && num_member(ms@[3].1, v) && num_member(ms@[4].1, v) && is_number_text(
                ms@[5].1,
                v.spec_rounded()@,
            ) && is_number_text(ms@[6].1, R::spec_zero().spec_rounded()@) && ms@[7].1 is Null
                && ms@[8].1 is Null && ms@[9].1 is Null
        }),
{
    reveal_strlit("1");
    assert(decimal(1) =~= "1"@);
}

/// The summary of field `key` after each stat of `stats`, in order, is folded into `e`.
pub open spec fn update_all<R: Scalar>(
    key: Seq<char>,
    e: EntryView<R>,
    kind: StatKind,
    stats: Seq<Seq<(String, Json)>>,
) -> Result<
    EntryView<R>,
    ErrView,
>
    decreases stats.len(),
{
    if stats.len() == 0 {
        Ok(e)
    } else {
        match update_all(key, e, kind, stats.drop_last()) {
            Ok(e2) => update_result(key, e2, kind, stats.last()),
            Err(x) => Err(x),
        }
    }
}

/// The keys that one stat adds to a summary of type `kind`: the elements of an array
/// stat, or the single category key of any other.
pub open spec fn stat_keys(kind: AggKind, stat: Seq<(String, Json)>) -> Multiset<Seq<char>> {
    if kind == AggKind::ArrAgg {
        arr_items(value_of(stat)).to_multiset()
    } else {
        match value_key(value_of(stat)) {
            Some(k) => Multiset::singleton(k),
            None => Multiset::empty(),
        }
    }
}

/// The keys that a sequence of stats adds, all together.
pub open spec fn all_keys(kind: AggKind, stats: Seq<Seq<(String, Json)>>) -> Multiset<Seq<char>>
    decreases stats.len(),
{
    if stats.len() == 0 {
        Multiset::empty()
    } else {
        all_keys(kind, stats.drop_last()).add(stat_keys(kind, stats.last()))
    }
}

proof fn lemma_update_all_counts<R: Scalar>(key: Seq<char>, e: EntryView<R>, kind: StatKind, stats: Seq<Seq<(String, Json)>>)
    requires
        e.kind == AggKind::StrAgg || e.kind == AggKind::BoolAgg || e.kind == AggKind::ArrAgg,
        update_all(key, e, kind, stats) is Ok,
    ensures
        ({
            let r = update_all(key, e, kind, stats)->Ok_0;
            &&& r.kind == e.kind
            &&& e.kind == AggKind::ArrAgg ==> r.count == e.count + stats.len()
            &&& forall|k: Seq<char>|
                #![trigger r.counts.contains_key(k)]
                #![trigger all_keys(e.kind, stats).count(k)]
                count_of(r.counts, k) == count_of(e.counts, k) + all_keys(e.kind, stats).count(k) && (
                r.counts.contains_key(k) <==> (e.counts.contains_key(k) || all_keys(e.kind, stats).count(
                    k,
                ) > 0))
        }),
    decreases stats.len(),
{
    if stats.len() == 0 {
        assert forall|k: Seq<char>| #[trigger] all_keys(e.kind, stats).count(k) == 0 by {}
    } else {
        let p = stats.drop_last();
        let st = stats.last();
        lemma_update_all_counts(key, e, kind, p);
        let r2 = update_all(key, e, kind, p)->Ok_0;
        let r = update_all(key, e, kind, stats)->Ok_0;
        let ks = stat_keys(e.kind, st);
        if e.kind == AggKind::ArrAgg {
            assert forall|k: Seq<char>|
                #![trigger r.counts.contains_key(k)]
                #![trigger all_keys(e.kind, stats).count(k)]
                count_of(r.counts, k) == count_of(e.counts, k) + all_keys(e.kind, stats).count(k) && (
                r.counts.contains_key(k) <==> (e.counts.contains_key(k) || all_keys(e.kind, stats).count(
                    k,
                ) > 0)) by {
                lemma_tally_all(r2.counts, arr_items(value_of(st)), k);
                assert(count_of(r2.counts, k) == count_of(e.counts, k) + all_keys(e.kind, p).count(k));
                assert(r2.counts.contains_key(k) <==> (e.counts.contains_key(k) || all_keys(e.kind, p).count(k) > 0));
            }
        } else {
            let kk = value_key(value_of(st))->0;
            assert forall|k: Seq<char>|
                #![trigger r.counts.contains_key(k)]
                #![trigger all_keys(e.kind, stats).count(k)]
                count_of(r.counts, k) == count_of(e.counts, k) + all_keys(e.kind, stats).count(k) && (
                r.counts.contains_key(k) <==> (e.counts.contains_key(k) || all_keys(e.kind, stats).count(
                    k,
                ) > 0)) by {
                assert(count_of(r2.counts, k) == count_of(e.counts, k) + all_keys(e.kind, p).count(k));
                assert(r2.counts.contains_key(k) <==> (e.counts.contains_key(k) || all_keys(e.kind, p).count(k) > 0));
                assert(ks.count(k) == if k == kk { 1nat } else { 0nat });
            }
        }
    }
}

/// Taking out any one stat and adding its keys back gives the keys of the whole sequence.
proof fn lemma_all_keys_remove(kind: AggKind, s: Seq<Seq<(String, Json)>>, j: int)
    requires
        0 <= j < s.len(),
    ensures
        all_keys(kind, s) == all_keys(kind, s.remove(j)).add(stat_keys(kind, s[j])),
    decreases s.len(),
{
    if j == s.len() - 1 {
        assert(s.remove(j) =~= s.drop_last());
    } else {
        let d = s.drop_last();
        lemma_all_keys_remove(kind, d, j);
        assert(s.remove(j).drop_last() =~= d.remove(j));
        assert(s.remove(j).last() == s.last());
        assert(all_keys(kind, s) =~= all_keys(kind, s.remove(j)).add(stat_keys(kind, s[j])));
    }
}

/// Two sequences that hold the same stats equally often add the same keys.
proof fn lemma_all_keys_permutation(kind: AggKind, s1: Seq<Seq<(String, Json)>>, s2: Seq<Seq<(String, Json)>>)
    requires
        s1.to_multiset() == s2.to_multiset(),
    ensures
        all_keys(kind, s1) == all_keys(kind, s2),
    decreases s1.len(),
{
    broadcast use vstd::seq_lib::group_to_multiset_ensures;

    if s1.len() == 0 {
        assert(s2.to_multiset().len() == 0);
        assert(s2.len() == 0);
        assert(all_keys(kind, s1) =~= all_keys(kind, s2));
    } else {
        let x = s1.last();
        let d = s1.drop_last();
        assert(s1 =~= d.push(x));
        assert(s1.to_multiset() =~= d.to_multiset().insert(x));
        assert(s2.to_multiset().count(x) > 0);
        assert(s2.contains(x));
        let j = choose|j: int| 0 <= j < s2.len() && s2[j] == x;
        let t = s2.remove(j);
        assert(t.to_multiset() =~= s2.to_multiset().remove(x));
        assert(d.to_multiset() =~= d.to_multiset().insert(x).remove(x));
        lemma_all_keys_permutation(kind, d, t);
        lemma_all_keys_remove(kind, s2, j);
    }
}

/// The tallies of a category or array summary do not depend on the order in which stats
/// are folded into it: folding the same stats in any two orders that both succeed gives
/// the same tallies (and, for arrays, the same row count).
pub proof fn law_counts_order_free<R: Scalar>(
    key: Seq<char>,
    e: EntryView<R>,
    kind: StatKind,
    s1: Seq<Seq<(String, Json)>>,
    s2: Seq<Seq<(String, Json)>>,
)
    requires
        e.kind == AggKind::StrAgg || e.kind == AggKind::BoolAgg || e.kind == AggKind::ArrAgg,
        s1.to_multiset() == s2.to_multiset(),
        update_all(key, e, kind, s1) is Ok,
        update_all(key, e, kind, s2) is Ok,
    ensures
        update_all(key, e, kind, s1)->Ok_0.counts == update_all(key, e, kind, s2)->Ok_0.counts,
        update_all(key, e, kind, s1)->Ok_0.count == update_all(key, e, kind, s2)->Ok_0.count,
{
    broadcast use vstd::seq_lib::group_to_multiset_ensures;

    lemma_update_all_counts(key, e, kind, s1);
    lemma_update_all_counts(key, e, kind, s2);
    lemma_all_keys_permutation(e.kind, s1, s2);
    let r1 = update_all(key, e, kind, s1)->Ok_0;
    let r2 = update_all(key, e, kind, s2)->Ok_0;
    assert forall|k: Seq<char>| #[trigger] r1.counts.contains_key(k) == r2.counts.contains_key(k) by {
        assert(all_keys(e.kind, s1).count(k) == all_keys(e.kind, s2).count(k));
    }
    assert forall|k: Seq<char>| #[trigger] r1.counts.contains_key(k) implies r1.counts[k] == r2.counts[k] by {
        assert(all_keys(e.kind, s1).count(k) == all_keys(e.kind, s2).count(k));
    }
    assert(r1.counts =~= r2.counts);
    assert(s1.len() == s1.to_multiset().len());
    assert(s2.len() == s2.to_multiset().len());
    if e.kind != AggKind::ArrAgg {
        lemma_update_all_count_kept(key, e, kind, s1);
        lemma_update_all_count_kept(key, e, kind, s2);
    }
}

proof fn lemma_update_all_count_kept<R: Scalar>(key: Seq<char>, e: EntryView<R>, kind: StatKind, stats: Seq<Seq<(String, Json)>>)
    requires
        e.kind == AggKind::StrAgg || e.kind == AggKind::BoolAgg,
        update_all(key, e, kind, stats) is Ok,
    ensures
        update_all(key, e, kind, stats)->Ok_0.count == e.count,
        update_all(key, e, kind, stats)->Ok_0.kind == e.kind,
    decreases stats.len(),
{
    if stats.len() > 0 {
        lemma_update_all_count_kept(key, e, kind, stats.drop_last());
    }
}

proof fn lemma_accum_fields_no_type<R: Scalar>(m: Map<Seq<char>, EntryView<R>>, s: Seq<(String, Json)>)
    requires
        !m.contains_key("type"@),
        accum_fields(m, s) is Ok,
    ensures
        !accum_fields(m, s)->Ok_0.contains_key("type"@),
    decreases s.len(),
{
    if s.len() > 0 {
        let m2 = accum_field(m, s[0].0@, s[0].1)->Ok_0;
        lemma_accum_fields_no_type(m2, s.drop_first());
    }
}

proof fn lemma_merge_json_fields_no_type<R: Scalar>(m: Map<Seq<char>, EntryView<R>>, s: Seq<(String, Json)>)
    requires
        !m.contains_key("type"@),
        merge_json_fields(m, s) is Ok,
    ensures
        !merge_json_fields(m, s)->Ok_0.contains_key("type"@),
    decreases s.len(),
{
    if s.len() > 0 {
        let m2 = merge_json_field(m, s[0].0@, s[0].1)->Ok_0;
        lemma_merge_json_fields_no_type(m2, s.drop_first());
    }
}

proof fn lemma_merge_all_no_type<R: Scalar>(m: Map<Seq<char>, EntryView<R>>, s: Seq<(Seq<char>, EntryView<R>)>)
    requires
        !m.contains_key("type"@),
        forall|i: int| 0 <= i < s.len() ==> (#[trigger] s[i]).0 != "type"@,
        merge_all(m, s) is Ok,
    ensures
        !merge_all(m, s)->Ok_0.contains_key("type"@),
    decreases s.len(),
{
    if s.len() > 0 {
        let m2 = merge_into(m, s[0].0, s[0].1)->Ok_0;
        assert forall|i: int| 0 <= i < s.drop_first().len() implies (#[trigger] s.drop_first()[i]).0 != "type"@ by {
            assert(s.drop_first()[i] == s[i + 1]);
        }
        lemma_merge_all_no_type(m2, s.drop_first());
    }
}

/// No state that the aggregates build has a field named `type`, the name that summary
/// objects reserve for their own tag: folding rows, merging summary objects and
/// combining states all keep it out.
pub proof fn law_type_field_stays_reserved<R: Scalar>(
    m: Map<Seq<char>, EntryView<R>>,
    row: Json,
    agg: Json,
    other: StatsState<R>,
)
    requires
        !m.contains_key("type"@),
        other.wf(),
        !other@.contains_key("type"@),
    ensures
        accum_row(m, row) is Ok ==> !accum_row(m, row)->Ok_0.contains_key("type"@),
        merge_json(m, agg) is Ok ==> !merge_json(m, agg)->Ok_0.contains_key("type"@),
        merge_all(m, entry_pairs(other.entries@)) is Ok ==> !merge_all(m, entry_pairs(other.entries@))->Ok_0.contains_key(
            "type"@,
        ),
{
    if let Json::Object(fs) = row {
        if accum_row(m, row) is Ok {
            lemma_accum_fields_no_type(m, fs@);
        }
    }
    if let Json::Object(fs) = agg {
        if merge_json(m, agg) is Ok {
            lemma_merge_json_fields_no_type(m, fs@);
        }
    }
    let ps = entry_pairs(other.entries@);
    assert forall|i: int| 0 <= i < ps.len() implies (#[trigger] ps[i]).0 != "type"@ by {
        lemma_keyed_value(other.entries@, entry_view::<R>(), i);
    }
    if merge_all(m, ps) is Ok {
        lemma_merge_all_no_type(m, ps);
    }
}

/// Merging two summaries in either order gives the same tallies and row count: a
/// roll-up's counts do not depend on the order in which partial summaries arrive.
pub proof fn law_merge_counts_order_free<R: Scalar>(key: Seq<char>, a: EntryView<R>, b: EntryView<R>)
    requires
        merge_result(key, a, b) is Ok,
        forall|k: Seq<char>| count_of(a.counts, k) <= u64::MAX,
    ensures
        merge_result(key, b, a) is Ok,
        merge_result(key, a, b)->Ok_0.counts == merge_result(key, b, a)->Ok_0.counts,
        merge_result(key, a, b)->Ok_0.count == merge_result(key, b, a)->Ok_0.count,
{
    assert forall|k: Seq<char>| #[trigger] a.counts.contains_key(k) implies count_of(b.counts, k) + a.counts[k]
        <= u64::MAX by {
        if b.counts.contains_key(k) {
            assert(count_of(a.counts, k) + b.counts[k] <= u64::MAX);
        } else {
            assert(count_of(a.counts, k) <= u64::MAX);
        }
    }
    assert(sum_counts(a.counts, b.counts) =~= sum_counts(b.counts, a.counts));
}

} // verus!

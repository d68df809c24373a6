//! The aggregate protocol: per-row steps, combine and final functions of both aggregates.
use vstd::prelude::*;

use crate::accum::accum_row;
use crate::entry::{EntryView, Scalar};
use crate::error::{ErrView, StatsError};
use crate::final_fn::{emits_state, is_text};
use crate::json::Json;
use crate::merge::merge_json;
use crate::state::{entry_pairs, merge_all, StatsState};

verus! {

/// The per-row step of `jsonb_stats_agg`: folds one row of stats into the state, which
/// starts empty on the group's first row.
pub fn jsonb_stats_accum_sfunc<R: Scalar>(state: Option<StatsState<R>>, stats: &Json) -> (r: Result<
    StatsState<R>,
    StatsError,
>)
    requires
        state matches Some(s) ==> s.wf(),
    ensures
        ({
            let before = match state {
                Some(s) => s@,
                None => Map::empty(),
            };
            match r {
                Ok(s) => s.wf() && accum_row(before, *stats) == Ok::<Map<Seq<char>, EntryView<R>>, ErrView>(s@),
                Err(e) => accum_row(before, *stats) == Err::<Map<Seq<char>, EntryView<R>>, ErrView>(e@),
            }
        }),
{
    let mut s = match state {
        Some(s) => s,
        None => StatsState::new(),
    };
    s.accumulate(stats)?;
    Ok(s)
}

/// The per-row step of `jsonb_stats_merge_agg`: merges one summary object into the
/// state, which starts empty; a missing summary leaves the state as it is.
pub fn jsonb_stats_merge_sfunc<R: Scalar>(state: Option<StatsState<R>>, agg: Option<&Json>) -> (r: Result<
    StatsState<R>,
    StatsError,
>)
    requires
        state matches Some(s) ==> s.wf(),
    ensures
        ({
            let before = match state {
                Some(s) => s@,
                None => Map::empty(),
            };
            let expected = match agg {
                Some(a) => merge_json(before, *a),
                None => Ok(before),
            };
            match r {
                Ok(s) => s.wf() && expected == Ok::<Map<Seq<char>, EntryView<R>>, ErrView>(s@),
                Err(e) => expected == Err::<Map<Seq<char>, EntryView<R>>, ErrView>(e@),
            }
        }),
{
    let mut s = match state {
        Some(s) => s,
        None => StatsState::new(),
    };
    match agg {
        Some(a) => {
            s.merge_from_json(a)?;
        },
        None => {},
    }
    Ok(s)
}

/// Combines the partial states of two workers; either may be missing. The second state
/// is consumed.
pub fn jsonb_stats_combine<R: Scalar>(state1: Option<StatsState<R>>, state2: Option<StatsState<R>>) -> (r: Result<
    StatsState<R>,
    StatsError,
>)
    requires
        state1 matches Some(s) ==> s.wf(),
        state2 matches Some(s) ==> s.wf(),
    ensures
        ({
            let a = match state1 {
                Some(s) => s@,
                None => Map::empty(),
            };
            let expected = match state2 {
                Some(s) => merge_all(a, entry_pairs(s.entries@)),
                None => Ok(a),
            };
            match r {
                Ok(s) => s.wf() && expected == Ok::<Map<Seq<char>, EntryView<R>>, ErrView>(s@),
                Err(e) => expected == Err::<Map<Seq<char>, EntryView<R>>, ErrView>(e@),
            }
        }),
{
    match (state1, state2) {
        (None, None) => Ok(StatsState::new()),
        (Some(p), None) => Ok(p),
        (None, Some(q)) => {
            let mut s = StatsState::new();
            s.combine(q)?;
            Ok(s)
        },
        (Some(mut p), Some(q)) => {
            p.combine(q)?;
            Ok(p)
        },
    }
}

/// The final step of both aggregates: the summary object of the state; for a group
/// without rows, the bare `{"type": "stats_agg"}`.
pub fn jsonb_stats_final_internal<R: Scalar>(state: Option<&StatsState<R>>) -> (r: Json)
    ensures
        match state {
            Some(s) => emits_state(r, *s, true),
            None => r matches Json::Object(ms) && ms@.len() == 1 && ms@[0].0@ == "type"@ && is_text(
                ms@[0].1,
                "stats_agg"@,
            ),
        },
{
    match state {
        Some(s) => s.finalize(),
        None => {
            let mut ms: Vec<(String, Json)> = Vec::new();
            ms.push((String::from_str("type"), Json::Str(String::from_str("stats_agg"))));
            Json::Object(ms)
        },
    }
}

/// The state that a running summary object stands for: each member merged into an empty
/// state; a value that is not an object stands for the empty state.
pub fn state_from_json<R: Scalar>(j: &Json) -> (r: Result<StatsState<R>, StatsError>)
    ensures
        match r {
            Ok(s) => s.wf() && merge_json::<R>(Map::empty(), *j) == Ok::<Map<Seq<char>, EntryView<R>>, ErrView>(
                s@,
            ),
            Err(e) => merge_json::<R>(Map::empty(), *j) == Err::<Map<Seq<char>, EntryView<R>>, ErrView>(e@),
        },
{
    let mut s = StatsState::new();
    s.merge_from_json(j)?;
    Ok(s)
}

/// Folds one row of stats into a running summary object, and gives the new running
/// summary object.
pub fn jsonb_stats_accum<R: Scalar>(state: &Json, stats: &Json) -> (r: Result<Json, StatsError>)
    ensures
        match r {
            Ok(j) => exists|s: StatsState<R>|
                #![trigger emits_state(j, s, false)]
                emits_state(j, s, false) && s.wf() && (match merge_json::<R>(Map::empty(), *state) {
                    Ok(m) => accum_row(m, *stats) == Ok::<Map<Seq<char>, EntryView<R>>, ErrView>(s@),
                    Err(_) => false,
                }),
            Err(e) => match merge_json::<R>(Map::empty(), *state) {
                Ok(m) => accum_row(m, *stats) == Err::<Map<Seq<char>, EntryView<R>>, ErrView>(e@),
                Err(x) => x == e@,
            },
        },
{
    let mut s: StatsState<R> = state_from_json(state)?;
    s.accumulate(stats)?;
    Ok(s.running_json())
}

/// Merges summary object `b` into running summary object `a`, and gives the merged
/// running summary object.
pub fn jsonb_stats_merge<R: Scalar>(a: &Json, b: &Json) -> (r: Result<Json, StatsError>)
    ensures
        match r {
            Ok(j) => exists|s: StatsState<R>|
                #![trigger emits_state(j, s, false)]
                emits_state(j, s, false) && s.wf() && (match merge_json::<R>(Map::empty(), *a) {
                    Ok(m) => merge_json(m, *b) == Ok::<Map<Seq<char>, EntryView<R>>, ErrView>(s@),
                    Err(_) => false,
                }),
            Err(e) => match merge_json::<R>(Map::empty(), *a) {
                Ok(m) => merge_json(m, *b) == Err::<Map<Seq<char>, EntryView<R>>, ErrView>(e@),
                Err(x) => x == e@,
            },
        },
{
    let mut s: StatsState<R> = state_from_json(a)?;
    s.merge_from_json(b)?;
    Ok(s.running_json())
}

/// The summary object of a running summary object.
pub fn jsonb_stats_final<R: Scalar>(state: &Json) -> (r: Result<Json, StatsError>)
    ensures
        match r {
            Ok(j) => exists|s: StatsState<R>|
                #![trigger emits_state(j, s, true)]
                emits_state(j, s, true) && s.wf() && merge_json::<R>(Map::empty(), *state) == Ok::<
                    Map<Seq<char>, EntryView<R>>,
                    ErrView,
                >(s@),
            Err(e) => merge_json::<R>(Map::empty(), *state) == Err::<Map<Seq<char>, EntryView<R>>, ErrView>(
                e@,
            ),
        },
{
    let s: StatsState<R> = state_from_json(state)?;
    Ok(s.finalize())
}

} // verus!

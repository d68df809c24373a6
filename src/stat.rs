//! Stamping host scalars as typed stats and building stats objects.
use vstd::prelude::*;

use crate::final_fn::{is_number_text, is_text};
use crate::json::{member_set, set_member, Json};
use crate::keyed::has_key;
use crate::text::{decimal, decimal_text};

verus! {

/// A scalar value of the host database, as the stat stamper sees it.
#[derive(Debug)]
pub enum HostValue {
    /// A 4-byte integer.
    Int4(i32),
    /// An 8-byte float, as its JSON number text; none where it is not finite.
    Float8(Option<String>),
    Bool(bool),
    /// Text or varchar.
    Text(String),
    /// A date, as its ISO text; none where the host gave no date.
    Date(Option<String>),
    /// An arbitrary-precision number, as its decimal text; none where the host gave no
    /// number.
    Numeric(Option<String>),
    /// Any other type, as its text.
    Other(String),
}

/// Whether serde_json reads `s` as a number: one JSON number, with whitespace around it
/// allowed (and, with exact number text kept, serde_json's own one-member object form of
/// a number).
pub uninterp spec fn is_json_number(s: Seq<char>) -> bool;

/// Relies on serde_json::from_str reading a serde_json::Number: whether the text, apart
/// from whitespace around it, is one JSON number.
#[verifier::external_body]
fn json_number_accepts(s: &String) -> (r: bool)
    ensures
        r == is_json_number(s@),
{
    serde_json::from_str::<serde_json::Number>(s).is_ok()
}

/// Decimal text of an integer, with a minus sign below zero.
pub open spec fn int_text(v: int) -> Seq<char> {
    if v < 0 {
        seq!['-'] + decimal((-v) as nat)
    } else {
        decimal(v as nat)
    }
}

fn int_json(v: i32) -> (r: Json)
    ensures
        is_number_text(r, int_text(v as int)),
{
    if v < 0 {
        let m = (-(v as i64)) as u64;
        let mut t = String::from_str("-");
        let d = decimal_text(m);
        t.append(d.as_str());
        proof {
            assert(seq!['-'] =~= "-"@) by {
                reveal_strlit("-");
            }
        }
        Json::Number(t)
    } else {
        Json::Number(decimal_text(v as u64))
    }
}

/// The stat tag that a host value is stamped with.
pub open spec fn host_tag(v: HostValue) -> Seq<char> {
    match v {
        HostValue::Int4(_) => "int"@,
        HostValue::Float8(_) => "float"@,
        HostValue::Bool(_) => "bool"@,
        HostValue::Text(_) => "str"@,
        HostValue::Date(_) => "date"@,
        HostValue::Numeric(_) => "dec2"@,
        HostValue::Other(_) => "str"@,
    }
}

/// `j` is the JSON value that host value `v` is stamped with, where `numeric_number`
/// says whether a numeric's text reads as a JSON number.
pub open spec fn host_json(j: Json, v: HostValue, numeric_number: bool) -> bool {
    match v {
        HostValue::Int4(i) => is_number_text(j, int_text(i as int)),
        HostValue::Float8(Some(t)) => is_number_text(j, t@),
        HostValue::Float8(None) => j is Null,
        HostValue::Bool(b) => j == Json::Bool(b),
        HostValue::Text(s) => is_text(j, s@),
        HostValue::Date(Some(s)) => is_text(j, s@),
        HostValue::Date(None) => j is Null,
        HostValue::Numeric(Some(s)) => if numeric_number {
            is_number_text(j, s@)
        } else {
            is_text(j, s@)
        },
        HostValue::Numeric(None) => j is Null,
        HostValue::Other(s) => is_text(j, s@),
    }
}

/// `j` is the stat `{"type": tag, "value": value}` of host value `v`.
pub open spec fn is_stat_of(j: Json, v: HostValue, numeric_number: bool) -> bool {
    match j {
        Json::Object(ms) => {
            &&& ms@.len() == 2
            &&& ms@[0].0@ == "type"@ && is_text(ms@[0].1, host_tag(v))
            &&& ms@[1].0@ == "value"@ && host_json(ms@[1].1, v, numeric_number)
        },
        _ => false,
    }
}

/// The typed stat of a host value, where `numeric_number` says whether a numeric's text
/// reads as a JSON number: a numeric keeps its exact text, as a number where it reads as
/// one and as a string where not.
pub fn stat_json(value: &HostValue, numeric_number: bool) -> (r: Json)
    ensures
        is_stat_of(r, *value, numeric_number),
{
    let (tag, v) = match value {
        HostValue::Int4(i) => ("int", int_json(*i)),
        HostValue::Float8(Some(t)) => ("float", Json::Number(t.clone())),
        HostValue::Float8(None) => ("float", Json::Null),
        HostValue::Bool(b) => ("bool", Json::Bool(*b)),
        HostValue::Text(s) => ("str", Json::Str(s.clone())),
        HostValue::Date(Some(s)) => ("date", Json::Str(s.clone())),
        HostValue::Date(None) => ("date", Json::Null),
        HostValue::Numeric(Some(s)) => if numeric_number {
            ("dec2", Json::Number(s.clone()))
        } else {
            ("dec2", Json::Str(s.clone()))
        },
        HostValue::Numeric(None) => ("dec2", Json::Null),
        HostValue::Other(s) => ("str", Json::Str(s.clone())),
    };
    let mut ms: Vec<(String, Json)> = Vec::new();
    ms.push((String::from_str("type"), Json::Str(String::from_str(tag))));
    ms.push((String::from_str("value"), v));
    Json::Object(ms)
}

/// The typed stat `{"type": tag, "value": value}` of a host value.
pub fn stat(value: &HostValue) -> (r: Json)
    ensures
        is_stat_of(
            r,
            *value,
            match value {
                HostValue::Numeric(Some(s)) => is_json_number(s@),
                _ => false,
            },
        ),
{
    let numeric_number = match value {
        HostValue::Numeric(Some(s)) => json_number_accepts(s),
        _ => false,
    };
    stat_json(value, numeric_number)
}

/// Stamps `"type": "stats"` onto an object; any other value is returned as it is.
pub fn stats_from_jsonb(input: Json) -> (r: Json)
    ensures
        match input {
            Json::Object(ms) => r matches Json::Object(rs) && exists|t: Json|
                is_text(t, "stats"@) && #[trigger] member_set(ms@, "type"@, t, rs@),
            _ => r == input,
        },
{
    match input {
        Json::Object(mut ms) => {
            let t = Json::Str(String::from_str("stats"));
            let ghost before = ms@;
            let ghost tg = t;
            set_member(&mut ms, String::from_str("type"), t);
            proof {
                assert(is_text(tg, "stats"@) && member_set(before, "type"@, tg, ms@));
            }
            let r = Json::Object(ms);
            proof {
                assert(input matches Json::Object(ms0) && ms0@ == before);
                assert(r matches Json::Object(rs) && rs@ == ms@);
            }
            r
        },
        other => other,
    }
}

/// The members of an object; none for any other value.
pub open spec fn object_members(j: Json) -> Seq<(String, Json)> {
    match j {
        Json::Object(ms) => ms@,
        _ => Seq::empty(),
    }
}

/// The per-row step of the pairs aggregate: sets member `code` of the object to
/// `stat_val` (a value that is not an object counts as an empty one), then stamps
/// `"type": "stats"` where the object has no `type`.
pub fn jsonb_stats_sfunc(state: Json, code: String, stat_val: Json) -> (r: Json)
    ensures
        ({
            let ms = object_members(state);
            r matches Json::Object(rs) && exists|mid: Seq<(String, Json)>|
                #[trigger] member_set(ms, code@, stat_val, mid) && (if has_key(mid, "type"@) {
                    rs@ == mid
                } else {
                    rs@.drop_last() == mid && rs@.len() == mid.len() + 1 && rs@.last().0@ == "type"@
                        && is_text(rs@.last().1, "stats"@)
                })
        }),
{
    let ghost ms0 = object_members(state);
    let mut ms = match state {
        Json::Object(ms) => ms,
        _ => Vec::new(),
    };
    let ghost before = ms@;
    let ghost sv = stat_val;
    set_member(&mut ms, code, stat_val);
    let ghost mid = ms@;
    proof {
        assert(member_set(before, code@, sv, mid));
    }
    let type_key = String::from_str("type");
    match crate::keyed::find_key(&ms, &type_key) {
        Some(i) => {
            proof {
                assert(crate::keyed::key_at(mid, i as int) == "type"@);
            }
        },
        None => {
            ms.push((type_key, Json::Str(String::from_str("stats"))));
            proof {
                assert(ms@.drop_last() =~= mid);
            }
        },
    }
    let r = Json::Object(ms);
    proof {
        assert(ms0 == before);
        assert(r matches Json::Object(rs) && rs@ == ms@);
    }
    r
}

} // verus!

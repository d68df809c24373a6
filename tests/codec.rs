use jsonb_stats::counts::Counts;
use jsonb_stats::json::Json;
use jsonb_stats::stat::{jsonb_stats_sfunc, stat, stat_json, stats_from_jsonb, HostValue};
use jsonb_stats::text::{
    decimal_text, number_is_negative, parse_count_text, parse_whole_text, split_array_text, text_less,
};

fn get<'a>(j: &'a Json, k: &str) -> &'a Json {
    match j {
        Json::Object(ms) => &ms.iter().find(|(n, _)| n == k).unwrap_or_else(|| panic!("no member {} in {:?}", k, j)).1,
        _ => panic!("not an object: {:?}", j),
    }
}

fn members(j: &Json) -> Vec<String> {
    match j {
        Json::Object(ms) => ms.iter().map(|(n, _)| n.clone()).collect(),
        _ => panic!("not an object: {:?}", j),
    }
}

fn tag(j: &Json) -> String {
    match get(j, "type") {
        Json::Str(s) => s.clone(),
        other => panic!("{:?}", other),
    }
}

#[test]
fn decimal_text_writes_digits() {
    assert_eq!(decimal_text(0), "0");
    assert_eq!(decimal_text(7), "7");
    assert_eq!(decimal_text(1050), "1050");
    assert_eq!(decimal_text(u64::MAX), "18446744073709551615");
}

#[test]
fn parse_count_text_reads_digits_only() {
    assert_eq!(parse_count_text(&"42".to_string()), Some(42));
    assert_eq!(parse_count_text(&"18446744073709551615".to_string()), Some(u64::MAX));
    assert_eq!(parse_count_text(&"18446744073709551616".to_string()), None);
    assert_eq!(parse_count_text(&"".to_string()), None);
    assert_eq!(parse_count_text(&"-1".to_string()), None);
    assert_eq!(parse_count_text(&"2.0".to_string()), None);
}

#[test]
fn number_sign_is_read_from_text() {
    assert!(number_is_negative(&"-1".to_string()));
    assert!(number_is_negative(&"-0.001".to_string()));
    assert!(!number_is_negative(&"-0".to_string()));
    assert!(!number_is_negative(&"-0.0e5".to_string()));
    assert!(!number_is_negative(&"3".to_string()));
    assert!(number_is_negative(&"-2e-3".to_string()));
}

#[test]
fn array_text_splits_on_commas() {
    assert_eq!(split_array_text(&"{a,b,c}".to_string()), vec!["a", "b", "c"]);
    assert_eq!(split_array_text(&"{ x , y }".to_string()), vec!["x", "y"]);
    assert_eq!(split_array_text(&"a,,b".to_string()), vec!["a", "", "b"]);
    assert!(split_array_text(&"{}".to_string()).is_empty());
    assert!(split_array_text(&"".to_string()).is_empty());
    assert_eq!(split_array_text(&"{solo}".to_string()), vec!["solo"]);
}

#[test]
fn dates_compare_as_text() {
    assert!(text_less(&"2023-06-01".to_string(), &"2024-01-15".to_string()));
    assert!(!text_less(&"2024-01-15".to_string(), &"2023-06-01".to_string()));
    assert!(!text_less(&"2024-01-15".to_string(), &"2024-01-15".to_string()));
    assert!(text_less(&"2024".to_string(), &"2024-01".to_string()));
}

#[test]
fn counts_from_pairs_refuses_repeated_keys() {
    assert!(Counts::from_pairs(vec![("a".to_string(), 1), ("a".to_string(), 2)]).is_none());
    let c = Counts::from_pairs(vec![("a".to_string(), 1), ("b".to_string(), 2)]).unwrap();
    assert_eq!(c.get(&"b".to_string()), 2);
    assert_eq!(c.get(&"z".to_string()), 0);
}

#[test]
fn counts_add_refuses_overflow() {
    let mut c = Counts::new();
    assert!(c.add("k".to_string(), u64::MAX));
    assert!(!c.add("k".to_string(), 1));
    assert_eq!(c.get(&"k".to_string()), u64::MAX);
}

#[test]
fn stat_stamps_integers() {
    let j = stat(&HostValue::Int4(-42));
    assert_eq!(members(&j), vec!["type", "value"]);
    assert_eq!(tag(&j), "int");
    assert!(matches!(get(&j, "value"), Json::Number(t) if t == "-42"));
    let j = stat(&HostValue::Int4(i32::MIN));
    assert!(matches!(get(&j, "value"), Json::Number(t) if t == "-2147483648"));
}

#[test]
fn stat_keeps_numeric_text() {
    let j = stat(&HostValue::Numeric(Some("12.50".to_string())));
    assert_eq!(tag(&j), "dec2");
    assert!(matches!(get(&j, "value"), Json::Number(t) if t == "12.50"));
}

#[test]
fn stat_writes_unreadable_numeric_as_text() {
    let j = stat(&HostValue::Numeric(Some("NaN".to_string())));
    assert_eq!(tag(&j), "dec2");
    assert!(matches!(get(&j, "value"), Json::Str(t) if t == "NaN"));
}

#[test]
fn stat_of_other_scalars() {
    assert_eq!(tag(&stat(&HostValue::Bool(true))), "bool");
    assert!(matches!(get(&stat(&HostValue::Bool(true)), "value"), Json::Bool(true)));
    assert_eq!(tag(&stat(&HostValue::Text("hi".to_string()))), "str");
    assert_eq!(tag(&stat(&HostValue::Date(Some("2024-01-15".to_string())))), "date");
    assert_eq!(tag(&stat(&HostValue::Other("(1,2)".to_string()))), "str");
    assert!(matches!(get(&stat(&HostValue::Float8(None)), "value"), Json::Null));
    assert!(matches!(get(&stat(&HostValue::Numeric(None)), "value"), Json::Null));
    assert_eq!(tag(&stat(&HostValue::Date(None))), "date");
    assert!(matches!(get(&stat_json(&HostValue::Float8(Some("2.5".to_string())), false), "value"), Json::Number(t) if t == "2.5"));
}

#[test]
fn stats_stamps_the_type() {
    let j = stats_from_jsonb(Json::Object(vec![("a".to_string(), Json::Null)]));
    assert_eq!(members(&j), vec!["a", "type"]);
    assert_eq!(tag(&j), "stats");
    let j = stats_from_jsonb(Json::Object(vec![("type".to_string(), Json::Null), ("b".to_string(), Json::Null)]));
    assert_eq!(members(&j), vec!["type", "b"]);
    assert_eq!(tag(&j), "stats");
    assert!(matches!(stats_from_jsonb(Json::Bool(false)), Json::Bool(false)));
}

#[test]
fn pairs_sfunc_builds_a_stats_object() {
    let s = jsonb_stats_sfunc(Json::Object(vec![]), "n".to_string(), stat(&HostValue::Int4(3)));
    assert_eq!(members(&s), vec!["n", "type"]);
    let s = jsonb_stats_sfunc(s, "m".to_string(), stat(&HostValue::Bool(false)));
    assert_eq!(members(&s), vec!["n", "type", "m"]);
    let s = jsonb_stats_sfunc(s, "n".to_string(), stat(&HostValue::Int4(4)));
    assert!(matches!(get(get(&s, "n"), "value"), Json::Number(t) if t == "4"));
    assert_eq!(tag(&s), "stats");
}

#[test]
fn whole_counts_allow_a_zero_fraction() {
    assert_eq!(parse_whole_text(&"2.0".to_string()), Some(2));
    assert_eq!(parse_whole_text(&"17.000".to_string()), Some(17));
    assert_eq!(parse_whole_text(&"17".to_string()), Some(17));
    assert_eq!(parse_whole_text(&"2.5".to_string()), None);
    assert_eq!(parse_whole_text(&"2.".to_string()), None);
    assert_eq!(parse_whole_text(&".0".to_string()), None);
    assert_eq!(parse_whole_text(&"-2.0".to_string()), None);
}

#[test]
fn array_text_trims_like_str_trim() {
    assert_eq!(split_array_text(&"{\u{a0}x\u{2003}, y\u{b}}".to_string()), vec!["x", "y"]);
}

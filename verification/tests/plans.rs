use neko_message_plane::binary::{apply_binary_op, dedupe_key};
use neko_message_plane::decimal::Decimal;
use neko_message_plane::event::{field_value, Event};
use neko_message_plane::json::{array, member, object, Json};
use neko_message_plane::order::{sort_events, sort_key_of, Order};
use neko_message_plane::pattern::maybe_match_regex;
use neko_message_plane::plan::{clamp_limit, eval_plan, eval_plan_to};
use neko_message_plane::store::Store;
use neko_message_plane::unary::apply_unary_op;
use std::sync::Arc;

fn ob(members: Vec<(&str, Json)>) -> Json {
    object(members.into_iter().map(|(k, v)| member(k, v)).collect())
}

fn tx(s: &str) -> Json {
    Json::text(s)
}

fn filled() -> Store {
    let mut s = Store::new(100, 10);
    let rows: Vec<(&str, Vec<(&str, Json)>)> = vec![
        ("t", vec![("plugin_id", tx("alpha")), ("priority", Json::Int(1)), ("content", tx("hello world")), ("id", tx("x1")), ("n", Json::Int(10))]),
        ("t", vec![("plugin_id", tx("beta")), ("priority", Json::Int(5)), ("content", tx("goodbye")), ("id", tx("x2")), ("n", Json::Int(9))]),
        ("t", vec![("plugin_id", tx("alpha")), ("priority", Json::Int(9)), ("kind", tx("k")), ("id", tx("x1")), ("n", tx("9"))]),
        ("u", vec![("plugin_id", tx("gamma")), ("priority", tx("7")), ("tags", array(vec![tx("a")])), ("n", Json::Null)]),
        ("u", vec![("plugin_id", tx("beta")), ("timestamp", Json::Float("5.5".to_string())), ("id", tx("x2"))]),
    ];
    for (i, (topic, p)) in rows.into_iter().enumerate() {
        s.publish_at("messages", topic, ob(p), Decimal::from_secs_nanos(100 + i as u64, 0));
    }
    s
}

fn ids(events: &[Arc<Event>]) -> Vec<u64> {
    events.iter().map(|e| e.seq).collect()
}

fn all(s: &Store) -> Vec<Arc<Event>> {
    let mut v = s.buffer("t");
    v.extend(s.buffer("u"));
    v
}

fn run(s: &Store, op: &str, params: Vec<(&str, Json)>) -> Vec<u64> {
    ids(&apply_unary_op(all(s), op, &ob(params)).unwrap())
}

#[test]
fn fields_are_looked_up_in_index_payload_and_event() {
    let s = filled();
    let e = &s.buffer("t")[0];
    assert_eq!(e.field("plugin_id").unwrap().as_str(), Some("alpha"));
    assert_eq!(e.field("content").unwrap().as_str(), Some("hello world"));
    assert_eq!(e.field("seq").unwrap().as_i64(), Some(1));
    assert_eq!(e.field("store").unwrap().as_str(), Some("messages"));
    assert_eq!(e.field("topic").unwrap().as_str(), Some("t"));
    assert!(e.field("ts").unwrap().as_decimal().unwrap().same(&Decimal::from_secs_nanos(100, 0)));
    assert!(e.field("nothing").is_none());
    assert_eq!(field_value(e, "plugin_id").unwrap().as_str(), Some("alpha"));
    assert!(field_value(e, "nothing").is_none());
    assert_eq!(e.field("priority").unwrap().as_i64(), Some(1));
    let f = &s.buffer("u")[0];
    assert_eq!(f.field("priority").unwrap().as_i64(), Some(7));
    assert!(f.field("kind").unwrap().is_null());
}

#[test]
fn limit_takes_the_head() {
    let s = filled();
    assert_eq!(run(&s, "limit", vec![("n", Json::Int(2))]), vec![1, 2]);
    assert_eq!(run(&s, "limit", vec![("n", Json::Int(99))]), vec![1, 2, 3, 4, 5]);
    assert_eq!(run(&s, "limit", vec![("n", Json::Int(0))]), Vec::<u64>::new());
    assert_eq!(run(&s, "limit", vec![("n", Json::Int(-1))]), Vec::<u64>::new());
    assert_eq!(run(&s, "limit", vec![]), Vec::<u64>::new());
    assert_eq!(run(&s, "limit", vec![("n", tx("2"))]), Vec::<u64>::new());
    assert!(apply_unary_op(all(&s), "unknown", &ob(vec![])).is_none());
    assert!(apply_unary_op(all(&s), "", &ob(vec![])).is_none());
}

#[test]
fn sort_keys_put_numbers_first_and_null_last() {
    assert_eq!(sort_key_of(&Some(Json::Int(10))), (0, "10".to_string()));
    assert_eq!(sort_key_of(&Some(Json::Float("1700000000.5".to_string()))), (0, "1700000000.5".to_string()));
    assert_eq!(sort_key_of(&Some(Json::Float("5e0".to_string()))), (0, "5".to_string()));
    assert_eq!(sort_key_of(&Some(tx("abc"))), (1, "abc".to_string()));
    assert_eq!(sort_key_of(&Some(Json::Bool(true))), (1, "true".to_string()));
    assert_eq!(sort_key_of(&Some(array(vec![Json::Int(1)]))), (1, "[1]".to_string()));
    assert_eq!(sort_key_of(&Some(Json::Null)), (2, String::new()));
    assert_eq!(sort_key_of(&None), (2, String::new()));
}

#[test]
fn sort_orders_by_fields_and_is_stable() {
    let s = filled();
    assert_eq!(run(&s, "sort", vec![("by", tx("plugin_id"))]), vec![1, 3, 2, 5, 4]);
    assert_eq!(run(&s, "sort", vec![("by", tx("plugin_id")), ("reverse", Json::Bool(true))]), vec![4, 2, 5, 1, 3]);
    assert_eq!(run(&s, "sort", vec![("by", array(vec![tx("plugin_id"), tx("seq")])), ("reverse", Json::Bool(true))]), vec![4, 5, 2, 3, 1]);
    assert_eq!(run(&s, "sort", vec![("by", tx("n"))]), vec![1, 2, 3, 4, 5]);
    assert_eq!(run(&s, "sort", vec![("by", tx("priority"))]), vec![5, 1, 2, 4, 3]);
    assert_eq!(run(&s, "sort", vec![("by", tx("no_such_field"))]), vec![1, 2, 3, 4, 5]);
    assert_eq!(run(&s, "sort", vec![("by", tx("store"))]), vec![1, 2, 3, 4, 5]);
    assert_eq!(run(&s, "sort", vec![("by", Json::Int(3))]), vec![1, 2, 3, 4, 5]);
    assert_eq!(run(&s, "sort", vec![]), vec![1, 2, 3, 4, 5]);
    assert_eq!(run(&s, "sort", vec![("reverse", Json::Bool(true))]), vec![5, 4, 3, 2, 1]);
    assert_eq!(run(&s, "sort", vec![("by", tx("ts"))]), vec![1, 2, 3, 4, 5]);
    assert_eq!(run(&s, "sort", vec![("by", tx("timestamp"))]), vec![1, 2, 3, 4, 5]);
    let events = all(&s);
    assert_eq!(ids(&sort_events(&events, &Order::SeqDescending)), vec![5, 4, 3, 2, 1]);
    assert_eq!(ids(&sort_events(&events, &Order::SeqAscending)), vec![1, 2, 3, 4, 5]);
    assert_eq!(ids(&sort_events(&events, &Order::Fields { names: vec![], reverse: false })), vec![1, 2, 3, 4, 5]);
}

#[test]
fn filter_by_equality_and_numbers() {
    let s = filled();
    assert_eq!(run(&s, "filter", vec![]), vec![1, 2, 3, 4, 5]);
    assert_eq!(run(&s, "filter", vec![("plugin_id", tx("alpha"))]), vec![1, 3]);
    assert_eq!(run(&s, "filter", vec![("plugin_id", tx("alpha")), ("kind", tx("k"))]), vec![3]);
    assert_eq!(run(&s, "filter", vec![("kind", Json::Null)]), vec![1, 2, 4, 5]);
    assert_eq!(run(&s, "filter", vec![("flt", ob(vec![("plugin_id", tx("beta"))])), ("plugin_id", tx("alpha"))]), vec![2, 5]);
    assert_eq!(run(&s, "filter", vec![("priority_min", Json::Int(5))]), vec![2, 3, 4]);
    assert_eq!(run(&s, "filter", vec![("priority_min", tx("8"))]), vec![3]);
    assert_eq!(run(&s, "filter", vec![("priority_min", tx("high"))]), Vec::<u64>::new());
    assert_eq!(run(&s, "filter", vec![("priority_min", tx("high")), ("strict", Json::Bool(false))]), vec![1, 2, 3, 4, 5]);
    assert_eq!(run(&s, "filter", vec![("since_ts", Json::Int(102))]), vec![3, 4]);
    assert_eq!(run(&s, "filter", vec![("until_ts", Json::Float("101.5".to_string()))]), vec![1, 2, 5]);
    assert_eq!(run(&s, "filter", vec![("since_ts", tx("5.5")), ("until_ts", tx("100"))]), vec![1, 5]);
    assert_eq!(run(&s, "filter", vec![("since_ts", Json::Bool(true))]), Vec::<u64>::new());
    assert_eq!(run(&s, "filter", vec![("since_ts", Json::Bool(true)), ("strict", Json::Bool(false))]), vec![1, 2, 3, 4, 5]);
}

#[test]
fn filter_by_patterns() {
    let s = filled();
    assert_eq!(run(&s, "filter", vec![("plugin_id_re", tx("^a"))]), vec![1, 3]);
    assert_eq!(run(&s, "filter", vec![("plugin_id_re", tx("a$"))]), vec![1, 2, 3, 4, 5]);
    assert_eq!(run(&s, "filter", vec![("plugin_id_re", tx("et")), ("content_re", tx("good"))]), vec![2]);
    assert_eq!(run(&s, "filter", vec![("content_re", tx("o"))]), vec![1, 2]);
    assert_eq!(run(&s, "filter", vec![("kind_re", tx("."))]), vec![1, 2, 3, 4, 5]);
    assert_eq!(run(&s, "filter", vec![("kind_re", tx("^k$"))]), vec![3]);
    assert_eq!(run(&s, "filter", vec![("plugin_id_re", tx("("))]), Vec::<u64>::new());
    assert_eq!(run(&s, "filter", vec![("plugin_id_re", tx("(")), ("strict", Json::Bool(false))]), vec![1, 2, 3, 4, 5]);
    assert_eq!(run(&s, "filter", vec![("plugin_id_re", tx(""))]), vec![1, 2, 3, 4, 5]);
    let long = "a".repeat(129);
    assert_eq!(run(&s, "filter", vec![("plugin_id_re", tx(&long))]), Vec::<u64>::new());
    assert_eq!(run(&s, "filter", vec![("plugin_id_re", tx(&long)), ("strict", Json::Bool(false))]), vec![1, 2, 3, 4, 5]);
}

#[test]
fn patterns_and_their_verdicts() {
    let v = tx("abc");
    assert_eq!(maybe_match_regex("", Some(&v), true), None);
    assert_eq!(maybe_match_regex("b", Some(&v), true), Some(true));
    assert_eq!(maybe_match_regex("^b", Some(&v), true), Some(false));
    assert_eq!(maybe_match_regex("b", None, true), Some(false));
    assert_eq!(maybe_match_regex("(", None, false), Some(false));
    assert_eq!(maybe_match_regex("(", Some(&v), true), Some(false));
    assert_eq!(maybe_match_regex("(", Some(&v), false), None);
    assert_eq!(maybe_match_regex(&"a".repeat(128), Some(&v), true), Some(false));
    assert_eq!(maybe_match_regex(&"é".repeat(128), Some(&v), true), Some(false));
    assert_eq!(maybe_match_regex(&"a".repeat(129), Some(&v), true), Some(false));
    assert_eq!(maybe_match_regex(&"a".repeat(129), Some(&v), false), None);
    assert_eq!(maybe_match_regex("^5$", Some(&Json::Int(5)), true), Some(true));
    assert_eq!(maybe_match_regex("^null$", Some(&Json::Null), true), Some(true));
    let long = tx(&format!("{}z", "y".repeat(1024)));
    assert_eq!(maybe_match_regex("z", Some(&long), true), Some(false));
    assert_eq!(maybe_match_regex("y$", Some(&long), true), Some(true));
    let edge = tx(&format!("{}z", "y".repeat(1023)));
    assert_eq!(maybe_match_regex("z", Some(&edge), true), Some(true));
}

#[test]
fn the_where_family() {
    let s = filled();
    assert_eq!(run(&s, "where_eq", vec![("field", tx("plugin_id")), ("value", tx("beta"))]), vec![2, 5]);
    assert_eq!(run(&s, "where_eq", vec![("field", tx(" plugin_id ")), ("value", tx("beta"))]), vec![2, 5]);
    assert_eq!(run(&s, "where_eq", vec![("field", tx("priority")), ("value", Json::Int(5))]), vec![2]);
    assert_eq!(run(&s, "where_eq", vec![("field", tx("tags")), ("value", array(vec![tx("a")]))]), vec![4]);
    assert_eq!(run(&s, "where_eq", vec![("field", tx("")), ("value", tx("beta"))]), vec![1, 2, 3, 4, 5]);
    assert_eq!(run(&s, "where_eq", vec![("value", tx("beta"))]), vec![1, 2, 3, 4, 5]);
    assert_eq!(run(&s, "where_eq", vec![("field", tx("content"))]), vec![3, 4, 5]);
    assert_eq!(run(&s, "where_eq", vec![("field", tx("content")), ("value", Json::Null)]), Vec::<u64>::new());
    assert_eq!(run(&s, "where_in", vec![("field", tx("plugin_id")), ("values", array(vec![tx("alpha"), tx("gamma")]))]), vec![1, 3, 4]);
    assert_eq!(run(&s, "where_in", vec![("field", tx("n")), ("values", array(vec![Json::Int(9)]))]), vec![2, 3]);
    assert_eq!(run(&s, "where_in", vec![("field", tx("n")), ("values", array(vec![tx("null")]))]), vec![4, 5]);
    assert_eq!(run(&s, "where_in", vec![("field", tx("n")), ("values", array(vec![]))]), Vec::<u64>::new());
    assert_eq!(run(&s, "where_in", vec![("field", tx("n")), ("values", tx("9"))]), vec![1, 2, 3, 4, 5]);
    assert_eq!(run(&s, "where_in", vec![("values", array(vec![]))]), vec![1, 2, 3, 4, 5]);
    assert_eq!(run(&s, "where_contains", vec![("field", tx("content")), ("value", tx("o w"))]), vec![1]);
    assert_eq!(run(&s, "where_contains", vec![("field", tx("content")), ("value", tx("l"))]), vec![1, 3, 4, 5]);
    assert_eq!(run(&s, "where_contains", vec![("field", tx("tags")), ("value", tx("\"a\""))]), vec![4]);
    assert_eq!(run(&s, "where_contains", vec![("field", tx("content")), ("value", tx(""))]), vec![1, 2, 3, 4, 5]);
    assert_eq!(run(&s, "where_contains", vec![("field", tx("content")), ("value", Json::Int(1))]), vec![1, 2, 3, 4, 5]);
    assert_eq!(run(&s, "where_regex", vec![("field", tx("content")), ("pattern", tx("^hello"))]), vec![1]);
    assert_eq!(run(&s, "where_regex", vec![("field", tx("plugin_id")), ("pattern", tx("a$"))]), vec![1, 2, 3, 4, 5]);
    assert_eq!(run(&s, "where_regex", vec![("field", tx("content")), ("pattern", tx("("))]), Vec::<u64>::new());
    assert_eq!(run(&s, "where_regex", vec![("field", tx("content")), ("pattern", tx("(")), ("strict", Json::Bool(false))]), vec![1, 2, 3, 4, 5]);
    assert_eq!(run(&s, "where_regex", vec![("field", tx("content")), ("pattern", tx(""))]), vec![1, 2, 3, 4, 5]);
    assert_eq!(run(&s, "where_regex", vec![("pattern", tx("x"))]), vec![1, 2, 3, 4, 5]);
    assert_eq!(run(&s, "where_regex", vec![("field", tx("n")), ("pattern", tx("^9$"))]), vec![2, 3]);
}

#[test]
fn events_are_told_apart_by_id_or_seq() {
    let s = filled();
    let t = s.buffer("t");
    let u = s.buffer("u");
    assert_eq!(dedupe_key(&t[0]), ("id".to_string(), "x1".to_string()));
    assert_eq!(dedupe_key(&t[2]), ("id".to_string(), "x1".to_string()));
    assert_eq!(dedupe_key(&u[0]), ("seq".to_string(), "4".to_string()));
}

#[test]
fn merge_intersection_and_difference() {
    let s = filled();
    let t = || s.buffer("t");
    let u = || s.buffer("u");
    let op = |l: Vec<Arc<Event>>, r: Vec<Arc<Event>>, name: &str| ids(&apply_binary_op(l, r, name).unwrap());
    assert_eq!(op(t(), u(), "merge"), vec![4, 2, 1]);
    assert_eq!(op(u(), t(), "merge"), vec![5, 4, 1]);
    assert_eq!(op(t(), t(), "merge"), vec![2, 1]);
    assert_eq!(op(t(), vec![], "merge"), vec![2, 1]);
    assert_eq!(op(t(), u(), "intersection"), vec![2]);
    assert_eq!(op(u(), t(), "intersection"), vec![5]);
    assert_eq!(op(t(), u(), "difference"), vec![1]);
    assert_eq!(op(u(), t(), "difference"), vec![4]);
    assert_eq!(op(t(), t(), "difference"), Vec::<u64>::new());
    assert_eq!(op(t(), t(), "intersection"), vec![2, 1]);
    assert!(apply_binary_op(t(), u(), "union").is_none());
    let both: Vec<u64> = op(t(), u(), "intersection");
    let only: Vec<u64> = op(t(), u(), "difference");
    assert!(both.iter().all(|x| !only.contains(x)));
    assert!(both.iter().all(|x| ids(&t()).contains(x)));
}

fn get(params: Vec<(&str, Json)>) -> Json {
    ob(vec![("kind", tx("get")), ("params", ob(vec![("params", ob(params))]))])
}

#[test]
fn plans_are_evaluated() {
    let mut s = filled();
    assert_eq!(ids(&eval_plan(&mut s, &get(vec![("topic", tx("t"))]), 1000).unwrap()), vec![1, 2, 3]);
    assert_eq!(ids(&eval_plan(&mut s, &get(vec![("topic", tx("t")), ("limit", Json::Int(2))]), 1000).unwrap()), vec![2, 3]);
    assert_eq!(ids(&eval_plan(&mut s, &get(vec![("topic", tx("t")), ("max_count", Json::Int(1)), ("limit", Json::Int(2))]), 1000).unwrap()), vec![3]);
    assert_eq!(ids(&eval_plan(&mut s, &get(vec![("topic", tx("t")), ("limit", Json::Int(50))]), 2).unwrap()), vec![2, 3]);
    assert_eq!(ids(&eval_plan(&mut s, &get(vec![("topic", tx("t")), ("priority_min", Json::Int(5))]), 1000).unwrap()), vec![3, 2]);
    assert_eq!(ids(&eval_plan(&mut s, &get(vec![("topic", tx("t")), ("plugin_id", tx("alpha")), ("limit", Json::Int(1))]), 1000).unwrap()), vec![3]);
    assert!(eval_plan(&mut s, &get(vec![]), 1000).unwrap().is_empty());
    assert!(eval_plan(&mut s, &ob(vec![("kind", tx("get"))]), 1000).unwrap().is_empty());
    let both = ob(vec![("kind", tx("binary")), ("op", tx("merge")), ("left", get(vec![("topic", tx("t"))])), ("right", get(vec![("topic", tx("u"))]))]);
    assert_eq!(ids(&eval_plan(&mut s, &both, 1000).unwrap()), vec![4, 2, 1]);
    let top = ob(vec![("kind", tx("unary")), ("op", tx("limit")), ("params", ob(vec![("n", Json::Int(2))])), ("child", both.duplicate())]);
    assert_eq!(ids(&eval_plan(&mut s, &top, 1000).unwrap()), vec![4, 2]);
    for bad in [
        Json::Null,
        ob(vec![]),
        ob(vec![("kind", tx("walk"))]),
        ob(vec![("kind", tx("unary")), ("op", tx("limit"))]),
        ob(vec![("kind", tx("unary")), ("op", tx("stretch")), ("child", get(vec![]))]),
        ob(vec![("kind", tx("binary")), ("op", tx("merge")), ("left", get(vec![]))]),
        ob(vec![("kind", tx("binary")), ("op", tx("merge")), ("right", get(vec![]))]),
        ob(vec![("kind", tx("binary")), ("op", tx("glue")), ("left", get(vec![])), ("right", get(vec![]))]),
        ob(vec![("kind", tx("unary")), ("op", tx("limit")), ("child", Json::Int(1))]),
    ] {
        assert!(eval_plan(&mut s, &bad, 1000).is_none());
    }
    assert!(eval_plan_to(&mut s, &top, 1000, 2).is_none());
    assert!(eval_plan_to(&mut s, &top, 1000, 3).is_some());
    assert!(eval_plan_to(&mut s, &get(vec![]), 1000, 0).is_none());
}

#[test]
fn limits_are_clamped() {
    assert_eq!(clamp_limit(50, 1000), 50);
    assert_eq!(clamp_limit(5000, 1000), 1000);
    assert_eq!(clamp_limit(0, 1000), 200);
    assert_eq!(clamp_limit(-3, 1000), 200);
    assert_eq!(clamp_limit(5, 0), 200);
    assert_eq!(clamp_limit(i64::MAX, usize::MAX), i64::MAX as usize);
}

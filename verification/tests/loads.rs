use neko_message_plane::binary::apply_binary_op;
use neko_message_plane::decimal::Decimal;
use neko_message_plane::filter::{search, Criteria};
use neko_message_plane::json::{member, object, Json};
use neko_message_plane::order::{sort_events, Order};
use neko_message_plane::plan::{eval_plan, PLAN_DEPTH};
use neko_message_plane::store::Store;
use neko_message_plane::unary::apply_unary_op;

fn wrap(depth: usize, leaf: Json) -> Json {
    let mut node = leaf;
    for _ in 0..depth {
        node = object(vec![
            member("kind", Json::text("unary")),
            member("op", Json::text("limit")),
            member("params", object(vec![member("n", Json::Int(5))])),
            member("child", node),
        ]);
    }
    node
}

fn leaf_of(topic: &str) -> Json {
    object(vec![
        member("kind", Json::text("get")),
        member("params", object(vec![member("params", object(vec![member("topic", Json::text(topic))]))])),
    ])
}

fn busy(n: u64) -> Store {
    let mut s = Store::new(100_000, 100);
    for i in 0..n {
        let p = object(vec![
            member("plugin_id", Json::text(if i % 3 == 0 { "a" } else { "b" })),
            member("priority", Json::Int((i % 10) as i64)),
            member("id", Json::text(&format!("id-{}", i % 700))),
        ]);
        s.publish_at("messages", if i % 2 == 0 { "even" } else { "odd" }, p, Decimal::from_secs_nanos(i, 0));
    }
    s
}

#[test]
fn plans_are_evaluated_to_a_depth() {
    assert_eq!(PLAN_DEPTH, 1024);
    let mut s = busy(10);
    let deep = wrap(1023, leaf_of("even"));
    assert_eq!(eval_plan(&mut s, &deep, 1000).unwrap().len(), 5);
    let deeper = wrap(1024, leaf_of("even"));
    assert!(eval_plan(&mut s, &deeper, 1000).is_none());
}

#[test]
fn many_events_are_sorted_and_searched() {
    let s = busy(20_000);
    let all = s.scan(None);
    assert_eq!(all.len(), 20_000);
    let down = sort_events(&all, &Order::SeqDescending);
    assert!(down.windows(2).all(|w| w[0].seq > w[1].seq));
    assert_eq!(down[0].seq, 20_000);
    let up = sort_events(&down, &Order::SeqAscending);
    assert!(up.windows(2).all(|w| w[0].seq < w[1].seq));
    let by_field = sort_events(&all, &Order::Fields { names: vec!["priority".to_string()], reverse: false });
    let mut want: Vec<(i64, usize)> = all.iter().enumerate().map(|(i, e)| (e.index.get("priority").unwrap().as_i64().unwrap(), i)).collect();
    want.sort();
    let got: Vec<u64> = by_field.iter().map(|e| e.seq).collect();
    let expected: Vec<u64> = want.iter().map(|(_, i)| all[*i].seq).collect();
    assert_eq!(got, expected);
    let c = Criteria::parse(&object(vec![member("plugin_id", Json::text("a")), member("priority_min", Json::Int(9))]));
    let found = search(&all, &c, 10);
    assert_eq!(found.len(), 10);
    assert!(found.windows(2).all(|w| w[0].seq > w[1].seq));
    assert!(found.iter().all(|e| (e.seq - 1) % 3 == 0 && (e.seq - 1) % 10 == 9));
}

#[test]
fn many_events_are_told_apart() {
    let s = busy(4_000);
    let even = s.buffer("even");
    let odd = s.buffer("odd");
    let merged = apply_binary_op(even.clone(), odd.clone(), "merge").unwrap();
    assert_eq!(merged.len(), 700);
    assert!(merged.windows(2).all(|w| w[0].seq > w[1].seq));
    let both = apply_binary_op(even.clone(), odd.clone(), "intersection").unwrap();
    let only = apply_binary_op(even.clone(), odd, "difference").unwrap();
    assert_eq!(both.len() + only.len(), 350);
    let kept = apply_unary_op(even, "where_in", &object(vec![
        member("field", Json::text("priority")),
        member("values", neko_message_plane::json::array((0..5).map(Json::Int).collect())),
    ])).unwrap();
    assert_eq!(kept.len(), 1200);
}

use neko_message_plane::codec::{decode_msgpack, encode_msgpack};
use neko_message_plane::config::{Config, ValidateMode};
use neko_message_plane::decimal::{parse_decimal, Decimal};
use neko_message_plane::handlers::{handle_at, handle_rpc, handle_rpc_mp};
use neko_message_plane::json::{array, json_of_items, member, object, Json};
use neko_message_plane::state::MpState;
use neko_message_plane::transport::{decode_request, response_frames, serve, serve_at, split_request};

fn o(members: Vec<(&str, Json)>) -> Json {
    object(members.into_iter().map(|(k, v)| member(k, v)).collect())
}

fn t(s: &str) -> Json {
    Json::text(s)
}

fn cfg(mode: ValidateMode) -> Config {
    Config {
        validate_mode: mode,
        topic_name_max_len: 128,
        payload_max_bytes: 262144,
        validate_payload_bytes: true,
        pub_enabled: true,
        get_recent_max_limit: 1000,
    }
}

fn strict() -> Config {
    cfg(ValidateMode::Strict)
}

fn now() -> Decimal {
    parse_decimal("1700000000.25").unwrap()
}

fn request(req_id: &str, op: &str, args: Json) -> Json {
    o(vec![("v", Json::Int(1)), ("req_id", t(req_id)), ("op", t(op)), ("args", args)])
}

fn publish(state: &mut MpState, c: &Config, topic: &str, payload: Json) -> Json {
    let req = request("p", "bus.publish", o(vec![("store", t("messages")), ("topic", t(topic)), ("payload", payload)]));
    handle_at(&req, state, c, now(), true).0
}

fn error_of(resp: &Json) -> (String, String) {
    let e = resp.get("error").unwrap();
    (e.get("code").unwrap().as_str().unwrap().to_string(), e.get("message").unwrap().as_str().unwrap().to_string())
}

fn items_of(resp: &Json) -> Vec<Json> {
    json_of_items(resp.get("result").unwrap().get("items").unwrap())
}

fn seq_of(item: &Json) -> i64 {
    item.get("seq").unwrap().as_i64().unwrap()
}

#[test]
fn health_is_answered_with_the_time() {
    let mut st = MpState::new(100, 10);
    let req = request("r1", "ping", o(vec![]));
    let (resp, frame) = handle_at(&req, &mut st, &strict(), now(), true);
    assert!(frame.is_none());
    assert_eq!(resp.get("v").unwrap().as_i64(), Some(1));
    assert_eq!(resp.get("req_id").unwrap().as_str(), Some("r1"));
    assert_eq!(resp.get("ok").unwrap().as_bool(), Some(true));
    assert!(resp.get("error").is_none());
    let result = resp.get("result").unwrap();
    assert_eq!(result.get("ok").unwrap().as_bool(), Some(true));
    assert!(matches!(result.get("ts").unwrap(), Json::Float(_)));
    assert!(result.get("ts").unwrap().as_decimal().unwrap().same(&now()));
    let same = handle_at(&request("r1", "health", o(vec![])), &mut st, &strict(), now(), true).0;
    assert!(same.same(&resp));
    let text = handle_at(&req, &mut st, &strict(), now(), false).0;
    assert!(text.get("error").unwrap().is_null());
    assert_eq!(text.get("ok").unwrap().as_bool(), Some(true));
}

#[test]
fn a_request_without_version_is_refused_when_strict() {
    let mut st = MpState::new(100, 10);
    let req = o(vec![("req_id", t("r2")), ("op", t("ping")), ("args", o(vec![]))]);
    let (resp, _) = handle_at(&req, &mut st, &strict(), now(), true);
    assert_eq!(resp.get("ok").unwrap().as_bool(), Some(false));
    assert_eq!(resp.get("req_id").unwrap().as_str(), Some("r2"));
    assert!(resp.get("result").is_none());
    assert_eq!(error_of(&resp), ("BAD_VERSION".to_string(), "missing protocol version".to_string()));
    assert!(resp.get("error").unwrap().get("details").is_none());
    let text = handle_at(&req, &mut st, &strict(), now(), false).0;
    assert!(text.get("result").unwrap().is_null());
    assert!(text.get("error").unwrap().get("details").unwrap().is_null());
    assert_eq!(error_of(&text), ("BAD_VERSION".to_string(), "missing protocol version".to_string()));
    for mode in [ValidateMode::Warn, ValidateMode::Off] {
        let (resp, _) = handle_at(&req, &mut st, &cfg(mode), now(), true);
        assert_eq!(resp.get("ok").unwrap().as_bool(), Some(true));
    }
}

#[test]
fn other_versions_are_refused() {
    let mut st = MpState::new(100, 10);
    let req = o(vec![("v", Json::Int(2)), ("req_id", t("r")), ("op", t("ping"))]);
    for mode in [ValidateMode::Strict, ValidateMode::Warn, ValidateMode::Off] {
        let (resp, _) = handle_at(&req, &mut st, &cfg(mode), now(), true);
        assert_eq!(error_of(&resp), ("BAD_VERSION".to_string(), "unsupported protocol version: 2".to_string()));
    }
    let odd = o(vec![("v", t("1")), ("op", t("ping"))]);
    let (resp, _) = handle_at(&odd, &mut st, &strict(), now(), true);
    assert_eq!(error_of(&resp), ("BAD_VERSION".to_string(), "unsupported protocol version: -1".to_string()));
    let (resp, _) = handle_at(&odd, &mut st, &cfg(ValidateMode::Warn), now(), true);
    assert_eq!(resp.get("ok").unwrap().as_bool(), Some(true));
}

#[test]
fn unknown_operations_and_bad_requests() {
    let mut st = MpState::new(100, 10);
    let (resp, _) = handle_at(&request("u", "bus.nothing", o(vec![])), &mut st, &strict(), now(), true);
    assert_eq!(error_of(&resp), ("UNKNOWN_OP".to_string(), "unknown op: bus.nothing".to_string()));
    let (resp, _) = handle_at(&Json::Null, &mut st, &strict(), now(), false);
    assert_eq!(error_of(&resp), ("BAD_REQ".to_string(), "invalid request".to_string()));
    assert_eq!(resp.get("req_id").unwrap().as_str(), Some(""));
    let (resp, _) = handle_at(&array(vec![]), &mut st, &cfg(ValidateMode::Off), now(), false);
    assert_eq!(error_of(&resp).0, "BAD_REQ");
}

#[test]
fn publish_then_get_recent() {
    let mut st = MpState::new(100, 10);
    let payload = o(vec![("plugin_id", t("A")), ("priority", Json::Int(5)), ("content", t("hi"))]);
    let req = request("p1", "bus.publish", o(vec![("store", t("messages")), ("topic", t("chat")), ("payload", payload)]));
    let (resp, frame) = handle_at(&req, &mut st, &strict(), now(), true);
    assert_eq!(resp.get("ok").unwrap().as_bool(), Some(true));
    assert_eq!(resp.get("req_id").unwrap().as_str(), Some("p1"));
    let result = resp.get("result").unwrap();
    assert_eq!(result.get("accepted").unwrap().as_bool(), Some(true));
    let event = result.get("event").unwrap();
    let seq = seq_of(event);
    assert_eq!(seq, 1);
    assert_eq!(event.get("store").unwrap().as_str(), Some("messages"));
    assert!(event.get("ts").unwrap().as_decimal().unwrap().same(&now()));
    let frame = frame.unwrap();
    assert_eq!(frame.topic, b"messages.chat".to_vec());
    assert_eq!(frame.body, encode_msgpack(event));
    let sent = decode_msgpack(&frame.body).unwrap();
    for k in ["seq", "ts", "store", "topic", "payload", "index"] {
        assert!(sent.get(k).is_some(), "{}", k);
    }

    let get = request("g1", "bus.get_recent", o(vec![("store", t("messages")), ("topic", t("chat")), ("limit", Json::Int(10))]));
    let (resp, frame) = handle_at(&get, &mut st, &strict(), now(), true);
    assert!(frame.is_none());
    let result = resp.get("result").unwrap();
    assert_eq!(result.get("store").unwrap().as_str(), Some("messages"));
    assert_eq!(result.get("topic").unwrap().as_str(), Some("chat"));
    assert_eq!(result.get("light").unwrap().as_bool(), Some(false));
    let items = items_of(&resp);
    assert_eq!(items.len(), 1);
    assert_eq!(items[0].get("topic").unwrap().as_str(), Some("chat"));
    assert_eq!(items[0].get("index").unwrap().get("plugin_id").unwrap().as_str(), Some("A"));
    assert_eq!(items[0].get("index").unwrap().get("priority").unwrap().as_i64(), Some(5));
    assert_eq!(items[0].get("payload").unwrap().get("content").unwrap().as_str(), Some("hi"));
    assert_eq!(seq_of(&items[0]), seq);
}

#[test]
fn the_light_form_leaves_the_payload_out() {
    let mut st = MpState::new(100, 10);
    publish(&mut st, &strict(), "chat", o(vec![("content", t("hi"))]));
    let full = request("g", "bus.get_recent", o(vec![("topic", t("chat"))]));
    let light = request("g", "bus.get_recent", o(vec![("topic", t("chat")), ("light", Json::Bool(true))]));
    let a = items_of(&handle_at(&full, &mut st, &strict(), now(), true).0);
    let b = items_of(&handle_at(&light, &mut st, &strict(), now(), true).0);
    assert_eq!((a.len(), b.len()), (1, 1));
    assert!(a[0].get("payload").is_some());
    assert!(b[0].get("payload").is_none());
    for k in ["seq", "ts", "store", "topic", "index"] {
        assert!(a[0].get(k).unwrap().same(b[0].get(k).unwrap()), "{}", k);
    }
    let shorn: Vec<_> = neko_message_plane::utils::json_obj(&a[0])
        .unwrap()
        .iter()
        .filter(|m| m.key != "payload")
        .map(|m| member(&m.key, m.value.duplicate()))
        .collect();
    assert!(object(shorn).same(&b[0]));
}

#[test]
fn the_third_topic_is_one_too_many() {
    let mut st = MpState::new(100, 2);
    let c = strict();
    for topic in ["t1", "t2"] {
        let resp = publish(&mut st, &c, topic, o(vec![]));
        assert_eq!(resp.get("ok").unwrap().as_bool(), Some(true));
    }
    let before = st.store("messages").unwrap().next_seq;
    for binary in [true, false] {
        let req = request("p", "bus.publish", o(vec![("topic", t("t3")), ("payload", o(vec![]))]));
        let (resp, frame) = handle_at(&req, &mut st, &c, now(), binary);
        assert_eq!(error_of(&resp), ("BAD_ARGS".to_string(), "too many topics".to_string()));
        assert!(frame.is_none());
    }
    assert_eq!(st.store("messages").unwrap().topic_count(), 2);
    assert_eq!(st.store("messages").unwrap().next_seq, before);
    let again = publish(&mut st, &c, "t1", o(vec![]));
    assert_eq!(again.get("ok").unwrap().as_bool(), Some(true));
}

#[test]
fn publish_refuses_what_it_cannot_store() {
    let mut st = MpState::new(100, 10);
    let mut c = strict();
    c.topic_name_max_len = 4;
    c.payload_max_bytes = 16;
    let r = |args: Json, st: &mut MpState, c: &Config| error_of(&handle_at(&request("p", "bus.publish", args), st, c, now(), true).0);
    assert_eq!(r(o(vec![]), &mut st, &c), ("BAD_ARGS".to_string(), "topic is required".to_string()));
    assert_eq!(r(o(vec![("topic", t(""))]), &mut st, &c).1, "topic is required");
    assert_eq!(r(o(vec![("topic", Json::Int(3))]), &mut st, &c).1, "topic is required");
    assert_eq!(r(o(vec![("topic", t("12345"))]), &mut st, &c).1, "topic too long");
    assert_eq!(r(o(vec![("topic", t("ééé"))]), &mut st, &c).1, "topic too long");
    let fits = handle_at(&request("p", "bus.publish", o(vec![("topic", t("éé"))])), &mut st, &c, now(), true).0;
    assert_eq!(fits.get("ok").unwrap().as_bool(), Some(true));
    assert_eq!(r(o(vec![("topic", t("t")), ("payload", t("a text that is longer than sixteen bytes"))]), &mut st, &c).1, "payload too large");
    assert_eq!(r(o(vec![("topic", t("t")), ("store", t("nowhere"))]), &mut st, &c), ("BAD_STORE".to_string(), "invalid store".to_string()));
    c.validate_payload_bytes = false;
    let (resp, _) = handle_at(&request("p", "bus.publish", o(vec![("topic", t("t")), ("payload", t("a text that is longer than sixteen bytes"))])), &mut st, &c, now(), true);
    assert_eq!(resp.get("ok").unwrap().as_bool(), Some(true));
    c.pub_enabled = false;
    let (resp, frame) = handle_at(&request("p", "bus.publish", o(vec![("topic", t("t"))])), &mut st, &c, now(), true);
    assert_eq!(resp.get("ok").unwrap().as_bool(), Some(true));
    assert!(frame.is_none());
}

#[test]
fn a_bare_payload_is_wrapped_on_the_text_path() {
    let mut st = MpState::new(100, 10);
    let req = request("p", "bus.publish", o(vec![("topic", t("t")), ("payload", Json::Int(7))]));
    let (text, _) = handle_at(&req, &mut st, &strict(), now(), false);
    let event = text.get("result").unwrap().get("event").unwrap();
    assert_eq!(event.get("payload").unwrap().get("value").unwrap().as_i64(), Some(7));
    let (binary, _) = handle_at(&req, &mut st, &strict(), now(), true);
    let event = binary.get("result").unwrap().get("event").unwrap();
    assert_eq!(event.get("payload").unwrap().as_i64(), Some(7));
    let none = request("p", "bus.publish", o(vec![("topic", t("t"))]));
    let (text, _) = handle_at(&none, &mut st, &strict(), now(), false);
    assert!(text.get("result").unwrap().get("event").unwrap().get("payload").unwrap().get("value").unwrap().is_null());
}

#[test]
fn get_recent_limits_and_stores() {
    let mut st = MpState::new(100, 10);
    let mut c = strict();
    c.get_recent_max_limit = 3;
    for i in 0..5 {
        publish(&mut st, &c, "all", o(vec![("priority", Json::Int(i))]));
    }
    let g = |args: Json, st: &mut MpState, c: &Config| handle_at(&request("g", "bus.get_recent", args), st, c, now(), true).0;
    let seqs = |resp: &Json| items_of(resp).iter().map(seq_of).collect::<Vec<_>>();
    assert_eq!(seqs(&g(o(vec![]), &mut st, &c)), vec![3, 4, 5]);
    assert_eq!(seqs(&g(o(vec![("limit", Json::Int(2))]), &mut st, &c)), vec![4, 5]);
    assert_eq!(seqs(&g(o(vec![("limit", Json::Int(0))]), &mut st, &c)), Vec::<i64>::new());
    assert_eq!(seqs(&g(o(vec![("limit", Json::Int(-4))]), &mut st, &c)), vec![3, 4, 5]);
    assert_eq!(seqs(&g(o(vec![("limit", t("2"))]), &mut st, &c)), vec![3, 4, 5]);
    assert_eq!(seqs(&g(o(vec![("topic", t("none"))]), &mut st, &c)), Vec::<i64>::new());
    assert_eq!(error_of(&g(o(vec![("store", t("nowhere"))]), &mut st, &c)), ("BAD_STORE".to_string(), "invalid store".to_string()));
    let other = g(o(vec![("store", t("events"))]), &mut st, &c);
    assert_eq!(other.get("result").unwrap().get("store").unwrap().as_str(), Some("events"));
    assert!(items_of(&other).is_empty());
}

#[test]
fn a_query_filters_by_priority() {
    let mut st = MpState::new(100, 10);
    let c = strict();
    for (topic, p) in [("a", 1), ("b", 5), ("a", 9)] {
        publish(&mut st, &c, topic, o(vec![("priority", Json::Int(p))]));
    }
    let req = request("q", "bus.query", o(vec![("store", t("messages")), ("topic", t("*")), ("priority_min", Json::Int(5)), ("limit", Json::Int(10))]));
    let (resp, frame) = handle_at(&req, &mut st, &c, now(), true);
    assert!(frame.is_none());
    let items = items_of(&resp);
    let got: Vec<(i64, i64)> = items.iter().map(|i| (seq_of(i), i.get("index").unwrap().get("priority").unwrap().as_i64().unwrap())).collect();
    assert_eq!(got, vec![(3, 9), (2, 5)]);
    assert_eq!(resp.get("result").unwrap().get("topic").unwrap().as_str(), Some("*"));
    let by_text = request("q", "bus.query", o(vec![("priority_min", t("5"))]));
    assert_eq!(items_of(&handle_at(&by_text, &mut st, &c, now(), true).0).len(), 2);
    let one = request("q", "bus.query", o(vec![("topic", t("a"))]));
    assert_eq!(items_of(&handle_at(&one, &mut st, &c, now(), true).0).iter().map(seq_of).collect::<Vec<_>>(), vec![3, 1]);
    let capped = request("q", "bus.query", o(vec![("limit", Json::Int(1))]));
    assert_eq!(items_of(&handle_at(&capped, &mut st, &c, now(), true).0).iter().map(seq_of).collect::<Vec<_>>(), vec![3]);
    let nowhere = request("q", "bus.query", o(vec![("store", t("nowhere"))]));
    let resp = handle_at(&nowhere, &mut st, &c, now(), true).0;
    assert_eq!(resp.get("ok").unwrap().as_bool(), Some(true));
    assert!(items_of(&resp).is_empty());
}

#[test]
fn a_query_filters_by_text_and_time() {
    let mut st = MpState::new(100, 10);
    let c = strict();
    publish(&mut st, &c, "t", o(vec![("plugin_id", t("A")), ("kind", t("x")), ("timestamp", Json::Int(100))]));
    publish(&mut st, &c, "t", o(vec![("plugin_id", t("B")), ("type", t("y")), ("timestamp", Json::Float("200.5".to_string()))]));
    publish(&mut st, &c, "t", o(vec![("plugin_id", t("A")), ("source", t("s")), ("timestamp", t("300"))]));
    let q = |args: Vec<(&str, Json)>, st: &mut MpState| items_of(&handle_at(&request("q", "bus.query", o(args)), st, &strict(), now(), true).0).iter().map(seq_of).collect::<Vec<_>>();
    assert_eq!(q(vec![("plugin_id", t("A"))], &mut st), vec![3, 1]);
    assert_eq!(q(vec![("plugin_id", t(""))], &mut st), vec![3, 2, 1]);
    assert_eq!(q(vec![("kind", t("x"))], &mut st), vec![1]);
    assert_eq!(q(vec![("type", t("y"))], &mut st), vec![2]);
    assert_eq!(q(vec![("source", t("s")), ("plugin_id", t("A"))], &mut st), vec![3]);
    assert_eq!(q(vec![("source", t("s")), ("plugin_id", t("B"))], &mut st), Vec::<i64>::new());
    assert_eq!(q(vec![("since_ts", Json::Int(200))], &mut st), vec![3, 2]);
    assert_eq!(q(vec![("since_ts", t("200.5"))], &mut st), vec![3, 2]);
    assert_eq!(q(vec![("since_ts", Json::Float("200.6".to_string()))], &mut st), vec![3]);
    assert_eq!(q(vec![("until_ts", Json::Int(200))], &mut st), vec![1]);
    assert_eq!(q(vec![("since_ts", Json::Int(150)), ("until_ts", t("250"))], &mut st), vec![2]);
    assert_eq!(q(vec![("since_ts", t("soon"))], &mut st), vec![3, 2, 1]);
}

#[test]
fn a_query_checks_its_arguments() {
    let mut st = MpState::new(100, 10);
    publish(&mut st, &strict(), "t", o(vec![]));
    let q = |args: Vec<(&str, Json)>, mode: ValidateMode, st: &mut MpState| handle_at(&request("q", "bus.query", o(args)), st, &cfg(mode), now(), true).0;
    assert_eq!(error_of(&q(vec![("limit", Json::Int(0))], ValidateMode::Strict, &mut st)), ("BAD_ARGS".to_string(), "invalid args: limit<=0".to_string()));
    assert_eq!(error_of(&q(vec![("limit", Json::Int(-1))], ValidateMode::Strict, &mut st)).0, "BAD_ARGS");
    assert_eq!(items_of(&q(vec![("limit", Json::Int(0))], ValidateMode::Warn, &mut st)).len(), 1);
    assert_eq!(error_of(&q(vec![("topic", t(""))], ValidateMode::Strict, &mut st)), ("BAD_ARGS".to_string(), "invalid args: empty topic".to_string()));
    let lax = q(vec![("topic", t(""))], ValidateMode::Off, &mut st);
    assert_eq!(lax.get("result").unwrap().get("topic").unwrap().as_str(), Some("*"));
    assert_eq!(items_of(&lax).len(), 1);
    assert_eq!(items_of(&q(vec![("topic", t(" * "))], ValidateMode::Strict, &mut st)).len(), 1);
}

fn leaf(params: Vec<(&str, Json)>) -> Json {
    o(vec![("kind", t("get")), ("params", o(vec![("params", o(params))]))])
}

#[test]
fn a_plan_is_replayed() {
    let mut st = MpState::new(100, 10);
    let c = strict();
    for i in 0..3 {
        publish(&mut st, &c, "chat", o(vec![("priority", Json::Int(i))]));
    }
    let plan = o(vec![
        ("kind", t("unary")),
        ("op", t("limit")),
        ("params", o(vec![("n", Json::Int(1))])),
        ("child", o(vec![("kind", t("unary")), ("op", t("sort")), ("params", o(vec![("by", t("seq")), ("reverse", Json::Bool(true))])), ("child", leaf(vec![("topic", t("chat")), ("limit", Json::Int(100))]))])),
    ]);
    let req = request("r", "bus.replay", o(vec![("store", t("messages")), ("plan", plan)]));
    let (resp, frame) = handle_at(&req, &mut st, &c, now(), true);
    assert!(frame.is_none());
    assert_eq!(resp.get("result").unwrap().get("store").unwrap().as_str(), Some("messages"));
    assert_eq!(items_of(&resp).iter().map(seq_of).collect::<Vec<_>>(), vec![3]);

    let first = o(vec![("kind", t("unary")), ("op", t("limit")), ("params", o(vec![("n", Json::Int(1))])), ("child", leaf(vec![("topic", t("chat")), ("limit", Json::Int(100))]))]);
    let req = request("r", "bus.replay", o(vec![("store", t("messages")), ("plan", first.duplicate())]));
    assert_eq!(items_of(&handle_at(&req, &mut st, &c, now(), true).0).iter().map(seq_of).collect::<Vec<_>>(), vec![1]);

    let mut single = MpState::new(100, 10);
    let sent = publish(&mut single, &c, "chat", o(vec![("content", t("only"))]));
    let req = request("r", "bus.replay", o(vec![("store", t("messages")), ("plan", first)]));
    let got = items_of(&handle_at(&req, &mut single, &c, now(), true).0);
    assert_eq!(got.len(), 1);
    assert!(got[0].same(sent.get("result").unwrap().get("event").unwrap()));
}

#[test]
fn replay_checks_its_arguments() {
    let mut st = MpState::new(100, 10);
    let r = |args: Vec<(&str, Json)>, mode: ValidateMode, st: &mut MpState| handle_at(&request("r", "bus.replay", o(args)), st, &cfg(mode), now(), true).0;
    let plan = leaf(vec![]);
    assert_eq!(error_of(&r(vec![("plan", plan.duplicate())], ValidateMode::Strict, &mut st)).1, "invalid args: missing store");
    assert_eq!(error_of(&r(vec![("store", t("messages"))], ValidateMode::Strict, &mut st)).1, "invalid args: missing/invalid plan");
    assert_eq!(error_of(&r(vec![("store", t("messages")), ("plan", t("x"))], ValidateMode::Strict, &mut st)).1, "invalid args: missing/invalid plan");
    assert_eq!(error_of(&r(vec![], ValidateMode::Warn, &mut st)), ("BAD_ARGS".to_string(), "plan is required".to_string()));
    assert_eq!(error_of(&r(vec![("store", t("nowhere")), ("plan", plan.duplicate())], ValidateMode::Strict, &mut st)), ("BAD_STORE".to_string(), "invalid store".to_string()));
    assert_eq!(error_of(&r(vec![("store", t("messages")), ("plan", o(vec![("kind", t("other"))]))], ValidateMode::Strict, &mut st)), ("BAD_ARGS".to_string(), "unsupported plan".to_string()));
    assert_eq!(error_of(&r(vec![("store", t("messages")), ("plan", o(vec![]))], ValidateMode::Strict, &mut st)).1, "unsupported plan");
    let ok = r(vec![("bus", t("messages")), ("trace", plan.duplicate())], ValidateMode::Strict, &mut st);
    assert_eq!(ok.get("ok").unwrap().as_bool(), Some(true));
    let lax = r(vec![("plan", plan)], ValidateMode::Off, &mut st);
    assert_eq!(lax.get("result").unwrap().get("store").unwrap().as_str(), Some("messages"));
}

#[test]
fn a_leaf_and_a_query_find_the_same_events() {
    let mut st = MpState::new(100, 10);
    let c = strict();
    for i in 0..6 {
        publish(&mut st, &c, "chat", o(vec![("priority", Json::Int(i)), ("plugin_id", t(if i % 2 == 0 { "A" } else { "B" }))]));
    }
    publish(&mut st, &c, "other", o(vec![("priority", Json::Int(9))]));
    for filters in [vec![], vec![("priority_min", Json::Int(2))], vec![("plugin_id", t("A"))], vec![("until_ts", Json::Int(2000000000)), ("since_ts", t("1700000000.25"))]] {
        for limit in [1, 3, 100] {
            let mut args = vec![("topic", t("chat")), ("limit", Json::Int(limit))];
            for (k, v) in filters.iter() {
                args.push((k, v.duplicate()));
            }
            let plan_args: Vec<(&str, Json)> = args.iter().map(|(k, v)| (*k, v.duplicate())).collect();
            let q = handle_at(&request("q", "bus.query", o(args)), &mut st, &c, now(), true).0;
            let r = handle_at(&request("r", "bus.replay", o(vec![("store", t("messages")), ("plan", leaf(plan_args))])), &mut st, &c, now(), true).0;
            let mut a: Vec<i64> = items_of(&q).iter().map(seq_of).collect();
            let mut b: Vec<i64> = items_of(&r).iter().map(seq_of).collect();
            a.sort();
            b.sort();
            assert_eq!(a, b);
            assert!(!a.is_empty());
        }
    }
}

#[test]
fn requests_are_served_from_bytes() {
    let mut st = MpState::new(100, 10);
    let c = strict();
    let body = encode_msgpack(&request("r1", "ping", o(vec![])));
    let (bytes, frame) = serve_at(&body, &mut st, &c, now());
    assert!(frame.is_none());
    let resp = decode_msgpack(&bytes).unwrap();
    assert_eq!(resp.get("ok").unwrap().as_bool(), Some(true));
    assert!(resp.get("error").is_none());
    let direct: serde_json::Value = rmp_serde::from_slice(&bytes).unwrap();
    assert_eq!(direct["req_id"], "r1");
    assert_eq!(direct["result"]["ok"], true);
    assert_eq!(direct["result"]["ts"].as_f64(), Some(1700000000.25));

    let text = b"{\"v\":1,\"req_id\":\"j\",\"op\":\"bus.publish\",\"args\":{\"topic\":\"t\",\"payload\":3.5}}";
    let (bytes, frame) = serve_at(text, &mut st, &c, now());
    assert!(frame.is_some());
    let direct: serde_json::Value = rmp_serde::from_slice(&bytes).unwrap();
    assert_eq!(direct["ok"], true);
    assert!(direct["error"].is_null());
    assert_eq!(direct["result"]["event"]["payload"]["value"].as_f64(), Some(3.5));
    assert_eq!(direct["result"]["event"]["seq"], 1);

    let (bytes, _) = serve_at(b"not a request", &mut st, &c, now());
    let direct: serde_json::Value = rmp_serde::from_slice(&bytes).unwrap();
    assert_eq!(direct["error"]["code"], "BAD_REQ");
    let (bytes, _) = serve(&encode_msgpack(&request("r", "health", o(vec![]))), &mut st, &c);
    let direct: serde_json::Value = rmp_serde::from_slice(&bytes).unwrap();
    assert!(direct["result"]["ts"].as_f64().unwrap() > 1.6e9);
    assert!(decode_request(&encode_msgpack(&o(vec![]))).1);
    assert!(!decode_request(&encode_msgpack(&Json::Int(1))).1);
    assert!(decode_request(b"[1]").0.is_array());
    assert!(decode_request(b"\xc1").0.is_null());
}

#[test]
fn the_handlers_read_the_clock() {
    let mut st = MpState::new(100, 10);
    let (resp, _) = handle_rpc(&request("r", "ping", o(vec![])), &mut st, &strict());
    assert!(resp.get("error").unwrap().is_null());
    assert!(parse_decimal("1600000000").unwrap().lt(&resp.get("result").unwrap().get("ts").unwrap().as_decimal().unwrap()));
    let (bytes, frame) = handle_rpc_mp(&request("p", "bus.publish", o(vec![("topic", t("t"))])), &mut st, &strict());
    let resp = decode_msgpack(&bytes).unwrap();
    assert_eq!(resp.get("ok").unwrap().as_bool(), Some(true));
    assert_eq!(frame.unwrap().topic, b"messages.t".to_vec());
}

#[test]
fn frames_are_split_and_joined() {
    assert!(split_request(vec![]).is_none());
    assert!(split_request(vec![vec![1]]).is_none());
    let (envelope, body) = split_request(vec![vec![1], vec![], vec![2, 3]]).unwrap();
    assert_eq!(envelope, vec![vec![1], vec![]]);
    assert_eq!(body, vec![2, 3]);
    assert_eq!(response_frames(envelope, vec![9]), vec![vec![1], vec![], vec![9]]);
    assert_eq!(response_frames(vec![], vec![9]), vec![vec![9]]);
}

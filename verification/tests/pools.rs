use neko_message_plane::buffer_pool::{BufferPool, EnvelopePool};
use neko_message_plane::codec::{encode_msgpack, encoded_len, to_wire};
use neko_message_plane::config::{Config, ValidateMode};
use neko_message_plane::decimal::Decimal;
use neko_message_plane::handlers::handle_at;
use neko_message_plane::json::{array, member, object, Json};
use neko_message_plane::rpc::{rpc_err, rpc_ok, EventView, RpcEnvelope, RpcError, RpcGetSinceResult};
use neko_message_plane::state::MpState;
use neko_message_plane::store::Store;

#[test]
fn a_buffer_pool_hands_out_empty_buffers() {
    let pool = BufferPool::new(2, 16);
    let a = pool.get();
    assert!(a.is_empty());
    assert!(a.capacity() >= 16);
    let mut b = pool.get();
    b.extend_from_slice(b"some bytes");
    let room = b.capacity();
    let c = pool.get();
    assert!(c.is_empty());
    pool.put(b);
    let again = pool.get();
    assert!(again.is_empty());
    assert_eq!(again.capacity(), room);
    let other = pool.clone_ref();
    pool.put(again);
    assert_eq!(other.get().capacity(), room);
    let big: Vec<u8> = Vec::with_capacity(16 * 4 + 1000);
    pool.put(big);
    assert!(pool.get().capacity() < 16 * 4 + 1000);
    for _ in 0..5 {
        pool.put(Vec::new());
    }
    assert!(pool.get().is_empty());
}

#[test]
fn an_envelope_pool_hands_out_empty_lists() {
    let pool = EnvelopePool::new(3);
    let mut env = pool.get();
    assert!(env.is_empty());
    env.push(vec![1, 2, 3]);
    pool.put(env);
    for _ in 0..4 {
        assert!(pool.get().is_empty());
    }
    let wide: Vec<Vec<u8>> = Vec::with_capacity(64);
    pool.put(wide);
    assert!(pool.clone_ref().get().capacity() < 64);
}

#[test]
fn a_pool_keeps_no_more_than_it_was_made_for() {
    let pool = BufferPool::new(1, 8);
    let first = pool.get();
    assert!(first.capacity() >= 8);
    pool.put(Vec::with_capacity(20));
    pool.put(Vec::with_capacity(30));
    assert_eq!(pool.get().capacity(), 20);
    assert!(pool.get().capacity() < 20);
    let lists = EnvelopePool::new(2);
    let other = lists.clone_ref();
    lists.get();
    lists.get();
    lists.put(Vec::with_capacity(5));
    other.put(Vec::with_capacity(6));
    lists.put(Vec::with_capacity(7));
    assert_eq!(other.get().capacity(), 5);
    assert_eq!(lists.get().capacity(), 6);
    assert_eq!(other.get().capacity(), 4);
}

#[test]
fn the_clock_reads_seconds_and_nanoseconds() {
    let a = neko_message_plane::clock::now_ts();
    let b = neko_message_plane::clock::now_ts();
    assert!(!a.neg && a.exp == -9);
    assert!(a.mant > 1_600_000_000 * 1_000_000_000);
    assert!(!b.lt(&a));
    let same = Decimal::from_secs_nanos(1_700_000_000, 5);
    assert_eq!((same.mant, same.exp), (1_700_000_000_000_000_005, -9));
}

fn nested(depth: usize) -> Json {
    let mut v = Json::Null;
    for _ in 0..depth {
        v = array(vec![v]);
    }
    v
}

#[test]
fn the_size_of_what_is_encoded() {
    assert_eq!(encoded_len(&nested(10)), Some(11));
    assert_eq!(encoded_len(&nested(1100)), Some(1101));
    assert_eq!(to_wire(&nested(2)), vec![0x91, 0x91, 0xc0]);
    assert_eq!(encode_msgpack(&nested(2)), vec![0x91, 0x91, 0xc0]);
    assert_eq!(encoded_len(&Json::text("abc")), Some(4));
    let mut st = MpState::new(10, 10);
    let mut cfg = Config {
        validate_mode: ValidateMode::Strict,
        topic_name_max_len: 128,
        payload_max_bytes: 11,
        validate_payload_bytes: true,
        pub_enabled: true,
        get_recent_max_limit: 1000,
    };
    let req = |payload: Json| {
        object(vec![
            member("v", Json::Int(1)),
            member("op", Json::text("bus.publish")),
            member("args", object(vec![member("topic", Json::text("t")), member("payload", payload)])),
        ])
    };
    let (resp, frame) = handle_at(&req(nested(11)), &mut st, &cfg, Decimal::from_secs_nanos(1, 0), true);
    assert!(frame.is_none());
    assert_eq!(resp.get("error").unwrap().get("message").unwrap().as_str(), Some("payload too large"));
    let (resp, frame) = handle_at(&req(nested(10)), &mut st, &cfg, Decimal::from_secs_nanos(1, 0), true);
    assert!(frame.is_some());
    assert_eq!(resp.get("ok").unwrap().as_bool(), Some(true));
    cfg.payload_max_bytes = 0;
    let (resp, _) = handle_at(&req(Json::Null), &mut st, &cfg, Decimal::from_secs_nanos(1, 0), true);
    assert_eq!(resp.get("ok").unwrap().as_bool(), Some(false));
}

#[test]
fn envelopes_are_encoded() {
    let ok: serde_json::Value = rmp_serde::from_slice(&rpc_ok("a", Json::Int(1))).unwrap();
    assert_eq!(ok.as_object().unwrap().len(), 4);
    assert_eq!(ok["v"], 1);
    assert_eq!(ok["req_id"], "a");
    assert_eq!(ok["ok"], true);
    assert_eq!(ok["result"], 1);
    let err: serde_json::Value = rmp_serde::from_slice(&rpc_err("b", "BAD_ARGS", "no", None)).unwrap();
    assert_eq!(err.as_object().unwrap().len(), 4);
    assert_eq!(err["ok"], false);
    assert_eq!(err["error"]["code"], "BAD_ARGS");
    assert_eq!(err["error"]["message"], "no");
    assert!(err["error"].get("details").is_none());
    let full: serde_json::Value = rmp_serde::from_slice(&rpc_err("b", "BAD_REQ", "no", Some(Json::Int(3)))).unwrap();
    assert_eq!(full["error"]["details"], 3);
    let env = RpcEnvelope { v: 1, req_id: "c".to_string(), ok: true, result: Some(Json::Bool(true)), error: None };
    assert!(env.to_json(true).get("error").unwrap().is_null());
    let bad = RpcEnvelope {
        v: 1,
        req_id: "c".to_string(),
        ok: false,
        result: None,
        error: Some(RpcError { code: "UNKNOWN_OP".to_string(), message: "m".to_string(), details: None }),
    };
    let j = bad.to_json(false);
    assert!(j.get("result").is_none());
    assert_eq!(j.get("error").unwrap().get("code").unwrap().as_str(), Some("UNKNOWN_OP"));
    let since = RpcGetSinceResult { store: "s".to_string(), topic: "t".to_string(), items: vec![Json::Int(1)], after_seq: 7 };
    let j = since.to_json();
    assert_eq!(j.get("after_seq").unwrap().as_i64(), Some(7));
    assert!(j.get("items").unwrap().is_array());
}

#[test]
fn an_event_as_it_is_sent() {
    let mut s = Store::new(10, 10);
    let ev = s.publish_at("messages", "t", object(vec![member("content", Json::text("hi"))]), Decimal::from_secs_nanos(5, 0));
    let full = EventView::of(&ev, false);
    assert!(full.payload.is_some());
    assert!(full.to_json().same(&ev.to_json(false)));
    let light = EventView::of(&ev, true);
    assert!(light.payload.is_none());
    assert_eq!((light.seq, light.store.as_str(), light.topic.as_str()), (1, "messages", "t"));
    assert!(light.to_json().same(&ev.to_json(true)));
    assert!(ev.to_json(true).get("payload").is_none());
    let frame = ev.frame();
    assert_eq!(frame.topic, b"messages.t".to_vec());
    assert_eq!(frame.body, to_wire(&ev.to_json(false)));
}

use neko_message_plane::codec::{
    decode_json, decode_msgpack, decode_msgpack_value, encode_msgpack, text_for,
};
use neko_message_plane::decimal::parse_decimal;
use neko_message_plane::index::extract_index;
use neko_message_plane::json::{array, member, object, Json};
use neko_message_plane::utils::{json_obj, mp_get, mp_get_bool, mp_get_i64, mp_get_str};

fn obj(members: Vec<(&str, Json)>) -> Json {
    object(members.into_iter().map(|(k, v)| member(k, v)).collect())
}

fn text(s: &str) -> Json {
    Json::text(s)
}

fn sample() -> Json {
    obj(vec![
        ("a", Json::Int(1)),
        ("b", text("two")),
        ("c", array(vec![Json::Null, Json::Bool(true), Json::Float("1.5".to_string())])),
        ("d", obj(vec![("e", Json::Int(-3))])),
    ])
}

#[test]
fn values_are_read_by_kind() {
    let v = sample();
    assert!(v.is_object());
    assert_eq!(v.get("a").unwrap().as_i64(), Some(1));
    assert_eq!(v.get("a").unwrap().as_u64(), Some(1));
    assert_eq!(v.get("b").unwrap().as_str(), Some("two"));
    assert_eq!(v.get("b").unwrap().as_text(), Some("two"));
    assert_eq!(text("").as_text(), None);
    assert_eq!(text("").as_str(), Some(""));
    assert!(v.get("c").unwrap().is_array());
    assert!(v.get("missing").is_none());
    assert!(Json::Int(1).get("a").is_none());
    assert_eq!(Json::Int(-1).as_u64(), None);
    assert_eq!(Json::UInt(u64::MAX).as_u64(), Some(u64::MAX));
    assert_eq!(Json::UInt(u64::MAX).as_i64(), None);
    assert!(Json::UInt(u64::MAX).as_decimal().unwrap().same(&parse_decimal("18446744073709551615").unwrap()));
    assert_eq!(Json::Float("18446744073709551615".to_string()).as_u64(), None);
    assert_eq!(Json::Float("1.5".to_string()).as_u64(), None);
    assert_eq!(Json::Float("1.5".to_string()).as_i64(), None);
    assert!(Json::Float("1.5".to_string()).is_number());
    assert!(Json::Int(2).as_decimal().unwrap().same(&parse_decimal("2.0").unwrap()));
    assert!(Json::Float("garbage".to_string()).as_decimal().is_none());
    assert_eq!(Json::Bool(true).as_bool(), Some(true));
    assert!(Json::Null.is_null());
    assert!(matches!(Json::from_u64(5), Json::Int(5)));
    assert!(matches!(Json::from_u64(u64::MAX), Json::UInt(u64::MAX)));
    assert_eq!(Json::from_u64(u64::MAX).as_u64(), Some(u64::MAX));
}

#[test]
fn the_first_entry_of_a_name_is_found() {
    let v = obj(vec![("k", Json::Int(1)), ("k", Json::Int(2))]);
    assert_eq!(v.get("k").unwrap().as_i64(), Some(1));
    assert_eq!(mp_get_i64(&v, "k"), Some(1));
    assert!(mp_get(&v, "x").is_none());
    assert_eq!(mp_get_str(&sample(), "b"), Some("two"));
    assert_eq!(mp_get_str(&sample(), "a"), None);
    assert_eq!(mp_get_bool(&obj(vec![("f", Json::Bool(false))]), "f"), Some(false));
    assert_eq!(json_obj(&sample()).map(|m| m.len()), Some(4));
    assert!(json_obj(&Json::Null).is_none());
}

#[test]
fn equality_and_copies() {
    let v = sample();
    let w = v.duplicate();
    assert!(v.same(&w));
    assert!(!v.same(&Json::Null));
    assert!(Json::Float("1.50".to_string()).same(&Json::Float("15e-1".to_string())));
    assert!(!Json::Float("1.5".to_string()).same(&Json::Float("1.6".to_string())));
    assert!(!Json::Int(1).same(&Json::Float("1.0".to_string())));
    assert!(!array(vec![Json::Int(1)]).same(&array(vec![Json::Int(1), Json::Int(2)])));
    assert!(!obj(vec![("a", Json::Int(1))]).same(&obj(vec![("b", Json::Int(1))])));
    assert!(text("x").same(&text("x")));
    assert!(!text("x").same(&text("y")));
}

#[test]
fn msgpack_bytes_are_those_of_the_encoder() {
    assert_eq!(encode_msgpack(&Json::Int(5)), vec![0x05]);
    assert_eq!(encode_msgpack(&Json::Null), vec![0xc0]);
    assert_eq!(encode_msgpack(&Json::Bool(true)), vec![0xc3]);
    assert_eq!(encode_msgpack(&text("hi")), vec![0xa2, b'h', b'i']);
    assert_eq!(encode_msgpack(&Json::Int(-1)), vec![0xff]);
    let mut want = vec![0xcb];
    want.extend_from_slice(&1.5f64.to_be_bytes());
    assert_eq!(encode_msgpack(&Json::Float("1.5".to_string())), want);
    assert_eq!(encode_msgpack(&Json::Float("15e-1".to_string())), want);
    let mut big = vec![0xcf];
    big.extend_from_slice(&u64::MAX.to_be_bytes());
    assert_eq!(encode_msgpack(&Json::UInt(u64::MAX)), big);
    let mut whole = vec![0xcb];
    whole.extend_from_slice(&5f64.to_be_bytes());
    assert_eq!(encode_msgpack(&Json::Float("5".to_string())), whole);
    assert_eq!(encode_msgpack(&Json::Float("no number".to_string())), vec![0xc0]);
    let direct = rmp_serde::to_vec_named(&serde_json::Value::from(vec![1, 2, 3])).unwrap();
    assert_eq!(encode_msgpack(&array(vec![Json::Int(1), Json::Int(2), Json::Int(3)])), direct);
    assert_eq!(encode_msgpack(&obj(vec![("a", Json::Int(1))])), vec![0x81, 0xa1, b'a', 0x01]);
}

#[test]
fn values_come_back_from_their_bytes() {
    let v = sample();
    let bytes = encode_msgpack(&v);
    let back = decode_msgpack(&bytes).unwrap();
    assert!(back.same(&v));
    let tree = decode_msgpack_value(&bytes).unwrap();
    assert!(tree.same(&v));
    assert!(decode_msgpack(&[0xc1]).is_none());
    assert!(decode_msgpack_value(&[]).is_none());
    assert!(decode_msgpack_value(&[0xc4, 0x01, 0x00]).is_none());
    let t = decode_json(b"{\"a\": 1, \"f\": 1.5e3, \"s\": \"x\", \"n\": null, \"l\": [true]}").unwrap();
    assert_eq!(t.get("a").unwrap().as_i64(), Some(1));
    assert!(matches!(t.get("f").unwrap(), Json::Float(_)));
    assert!(t.get("f").unwrap().as_decimal().unwrap().same(&parse_decimal("1500").unwrap()));
    assert_eq!(t.get("s").unwrap().as_str(), Some("x"));
    assert!(t.get("n").unwrap().is_null());
    assert!(decode_json(b"{oops").is_none());
    let huge = decode_json(b"18446744073709551615").unwrap();
    assert_eq!(huge.as_u64(), Some(u64::MAX));
    assert_eq!(huge.as_i64(), None);
}

#[test]
fn a_time_survives_the_trip_through_bytes() {
    let ts = neko_message_plane::decimal::Decimal::from_secs_nanos(1700000000, 123456789);
    let bytes = encode_msgpack(&Json::from_decimal(&ts));
    let mut want = vec![0xcb];
    want.extend_from_slice(&1700000000.123456789f64.to_be_bytes());
    assert_eq!(bytes, want);
    let back = decode_msgpack(&bytes).unwrap().as_decimal().unwrap();
    let f: f64 = back.plain().parse().unwrap();
    assert_eq!(f, 1700000000.123456789f64);
}

#[test]
fn text_that_stands_for_a_value() {
    assert_eq!(text_for(&Json::Int(5)), "5");
    assert_eq!(text_for(&array(vec![text("a\"b")])), "[\"a\\\"b\"]");
    assert_eq!(text_for(&Json::Bool(false)), "false");
    assert_eq!(text_for(&Json::Float("5e0".to_string())), "5.0");
    assert_eq!(text_for(&Json::UInt(u64::MAX)), "18446744073709551615");
    assert_eq!(text_for(&array(vec![Json::Int(1), text("x")])), "[1,\"x\"]");
    assert_eq!(text_for(&obj(vec![("b", Json::Int(1)), ("a", Json::Int(2))])), "{\"a\":2,\"b\":1}");
    assert_eq!(text_for(&text("plain")), "plain");
    assert_eq!(text_for(&Json::Int(7)), "7");
    assert_eq!(text_for(&Json::Null), "null");
}

fn ts() -> neko_message_plane::decimal::Decimal {
    parse_decimal("1700000000.5").unwrap()
}

#[test]
fn the_index_of_a_full_payload() {
    let p = obj(vec![
        ("plugin_id", text("A")),
        ("source", text("src")),
        ("priority", Json::Int(5)),
        ("kind", text("k")),
        ("type", text("t")),
        ("timestamp", Json::Int(12)),
        ("message_id", text("m1")),
        ("content", text("hi")),
    ]);
    let idx = extract_index(&p, &ts());
    assert_eq!(json_obj(&idx).unwrap().len(), 7);
    assert_eq!(idx.get("plugin_id").unwrap().as_str(), Some("A"));
    assert_eq!(idx.get("source").unwrap().as_str(), Some("src"));
    assert_eq!(idx.get("priority").unwrap().as_i64(), Some(5));
    assert_eq!(idx.get("kind").unwrap().as_str(), Some("k"));
    assert_eq!(idx.get("type").unwrap().as_str(), Some("t"));
    assert!(idx.get("timestamp").unwrap().as_decimal().unwrap().same(&parse_decimal("12").unwrap()));
    assert!(matches!(idx.get("timestamp").unwrap(), Json::Float(_)));
    assert_eq!(idx.get("id").unwrap().as_str(), Some("m1"));
}

#[test]
fn the_index_of_a_payload_that_says_little() {
    for p in [Json::Null, Json::Int(3), text("x"), array(vec![]), obj(vec![])] {
        let idx = extract_index(&p, &ts());
        for k in ["plugin_id", "source", "kind", "type", "id"] {
            assert!(idx.get(k).unwrap().is_null(), "{}", k);
        }
        assert_eq!(idx.get("priority").unwrap().as_i64(), Some(0));
        assert!(idx.get("timestamp").unwrap().as_decimal().unwrap().same(&ts()));
    }
}

#[test]
fn the_index_reads_numbers_from_strings_and_falls_back() {
    let p = obj(vec![
        ("plugin_id", text("")),
        ("priority", text("42")),
        ("message_type", text("mt")),
        ("time", text("17.25")),
        ("message_id", text("")),
        ("event_id", Json::Int(9)),
        ("id", text("the-id")),
        ("run_id", text("later")),
    ]);
    let idx = extract_index(&p, &ts());
    assert!(idx.get("plugin_id").unwrap().is_null());
    assert_eq!(idx.get("priority").unwrap().as_i64(), Some(42));
    assert_eq!(idx.get("type").unwrap().as_str(), Some("mt"));
    assert!(idx.get("timestamp").unwrap().as_decimal().unwrap().same(&parse_decimal("17.25").unwrap()));
    assert_eq!(idx.get("id").unwrap().as_str(), Some("the-id"));

    let q = obj(vec![
        ("priority", text("high")),
        ("type", text("")),
        ("timestamp", text("soon")),
        ("time", Json::Int(3)),
        ("task_id", text("t9")),
    ]);
    let idx = extract_index(&q, &ts());
    assert_eq!(idx.get("priority").unwrap().as_i64(), Some(0));
    assert!(idx.get("type").unwrap().is_null());
    assert!(idx.get("timestamp").unwrap().as_decimal().unwrap().same(&ts()));
    assert_eq!(idx.get("id").unwrap().as_str(), Some("t9"));

    let r = obj(vec![("priority", Json::Float("2.5".to_string())), ("timestamp", Json::Null)]);
    let idx = extract_index(&r, &ts());
    assert_eq!(idx.get("priority").unwrap().as_i64(), Some(0));
    assert!(idx.get("timestamp").unwrap().as_decimal().unwrap().same(&ts()));
}

#[test]
fn the_index_is_the_same_for_the_same_input() {
    let p = sample();
    let a = extract_index(&p, &ts());
    let b = extract_index(&p.duplicate(), &ts());
    assert!(a.same(&b));
    assert_eq!(encode_msgpack(&a), encode_msgpack(&b));
}

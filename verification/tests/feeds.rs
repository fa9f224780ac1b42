use neko_message_plane::codec::{decode_msgpack, encode_msgpack};
use neko_message_plane::config::{
    choose_workers, is_truthy, parse_usize, poll_timeout_ms, Cli, Config, Environment,
    ValidateMode, PUB_BATCH, SEND_BATCH,
};
use neko_message_plane::decimal::Decimal;
use neko_message_plane::ingest::{handle_delta_batch, handle_ingest, handle_snapshot};
use neko_message_plane::json::{array, member, object, Json};
use neko_message_plane::state::MpState;
use neko_message_plane::transport::{ingest, ingest_at};

fn jo(members: Vec<(&str, Json)>) -> Json {
    object(members.into_iter().map(|(k, v)| member(k, v)).collect())
}

fn js(s: &str) -> Json {
    Json::text(s)
}

fn conf() -> Config {
    Config {
        validate_mode: ValidateMode::Strict,
        topic_name_max_len: 16,
        payload_max_bytes: 64,
        validate_payload_bytes: true,
        pub_enabled: true,
        get_recent_max_limit: 1000,
    }
}

fn when() -> Decimal {
    Decimal::from_secs_nanos(1700000000, 0)
}

fn seqs_in(st: &MpState, store: &str, topic: &str) -> Vec<u64> {
    st.store(store).unwrap().buffer(topic).iter().map(|e| e.seq).collect()
}

#[test]
fn a_batch_is_applied_record_by_record() {
    let mut st = MpState::new(100, 2);
    let msg = jo(vec![(
        "items",
        array(vec![
            jo(vec![("topic", js("a")), ("payload", jo(vec![("priority", Json::Int(1))]))]),
            Json::Int(5),
            jo(vec![("store", js("events")), ("payload", Json::Int(7))]),
            jo(vec![("bus", js("events")), ("topic", js("b"))]),
            jo(vec![("topic", js("")), ("payload", jo(vec![]))]),
            jo(vec![("topic", js("a-topic-name-that-is-too-long"))]),
            jo(vec![("store", js("nowhere")), ("topic", js("a"))]),
            jo(vec![("topic", js("a")), ("payload", js(&"x".repeat(100)))]),
            jo(vec![("topic", js("b"))]),
            jo(vec![("topic", js("c"))]),
            jo(vec![("topic", js("a"))]),
        ]),
    )]);
    let frames = handle_delta_batch(&mut st, &msg, &conf(), when());
    assert_eq!(seqs_in(&st, "messages", "a"), vec![1, 3]);
    assert_eq!(seqs_in(&st, "messages", "b"), vec![2]);
    assert!(seqs_in(&st, "messages", "c").is_empty());
    assert_eq!(seqs_in(&st, "events", "all"), vec![1]);
    assert_eq!(seqs_in(&st, "events", "b"), vec![2]);
    let keys: Vec<String> = frames.iter().map(|f| String::from_utf8(f.topic.clone()).unwrap()).collect();
    assert_eq!(keys, vec!["messages.a", "events.all", "events.b", "messages.b", "messages.a"]);
    let wrapped = &st.store("events").unwrap().buffer("all")[0];
    assert_eq!(wrapped.payload.get("value").unwrap().as_i64(), Some(7));
    let body = decode_msgpack(&frames[1].body).unwrap();
    assert_eq!(body.get("payload").unwrap().get("value").unwrap().as_i64(), Some(7));
    assert_eq!(body.get("topic").unwrap().as_str(), Some("all"));
    assert_eq!(body.get("seq").unwrap().as_i64(), Some(1));
}

#[test]
fn a_batch_without_items_changes_nothing() {
    let mut st = MpState::new(100, 2);
    for msg in [jo(vec![]), jo(vec![("items", js("x"))]), jo(vec![("items", array(vec![]))])] {
        assert!(handle_delta_batch(&mut st, &msg, &conf(), when()).is_empty());
        assert!(handle_ingest(&mut st, &msg, &conf(), when()).is_empty());
    }
    assert!(handle_ingest(&mut st, &Json::Null, &conf(), when()).is_empty());
    assert!(handle_ingest(&mut st, &array(vec![jo(vec![])]), &conf(), when()).is_empty());
    assert_eq!(st.store("messages").unwrap().next_seq, 1);
}

fn snapshot(topic: Option<&str>, mode: Option<&str>, items: Vec<Json>) -> Json {
    let mut m = vec![("kind", js("snapshot")), ("store", js("runs")), ("items", array(items))];
    if let Some(t) = topic {
        m.push(("topic", js(t)));
    }
    if let Some(x) = mode {
        m.push(("mode", js(x)));
    }
    jo(m)
}

#[test]
fn a_snapshot_replaces_or_appends() {
    let mut st = MpState::new(100, 2000);
    let c = conf();
    let three = || vec![jo(vec![("n", Json::Int(1))]), js("skipped"), jo(vec![("n", Json::Int(2))]), jo(vec![("big", js(&"x".repeat(100)))])];
    let frames = handle_ingest(&mut st, &snapshot(Some("s"), None, three()), &c, when());
    assert_eq!(frames.len(), 2);
    assert_eq!(frames[0].topic, b"runs.s".to_vec());
    assert_eq!(seqs_in(&st, "runs", "s"), vec![1, 2]);
    handle_snapshot(&mut st, &snapshot(Some("s"), Some("replace"), three()), &c, when());
    assert_eq!(seqs_in(&st, "runs", "s"), vec![3, 4]);
    handle_snapshot(&mut st, &snapshot(Some("s"), Some("append"), three()), &c, when());
    assert_eq!(seqs_in(&st, "runs", "s"), vec![3, 4, 5, 6]);
    handle_snapshot(&mut st, &snapshot(Some("s"), Some("anything"), vec![]), &c, when());
    assert!(seqs_in(&st, "runs", "s").is_empty());
    handle_snapshot(&mut st, &snapshot(None, None, three()), &c, when());
    assert_eq!(seqs_in(&st, "runs", "snapshot.all"), vec![7, 8]);
    let mut quiet = c;
    quiet.pub_enabled = false;
    assert!(handle_snapshot(&mut st, &snapshot(Some("s"), None, three()), &quiet, when()).is_empty());
    assert_eq!(seqs_in(&st, "runs", "s"), vec![9, 10]);
    let mut open = c;
    open.validate_payload_bytes = false;
    handle_snapshot(&mut st, &snapshot(Some("s"), None, three()), &open, when());
    assert_eq!(seqs_in(&st, "runs", "s"), vec![11, 12, 13]);
}

#[test]
fn a_snapshot_is_dropped_as_a_whole() {
    let mut st = MpState::new(100, 2000);
    let c = conf();
    let one = || vec![jo(vec![])];
    assert!(handle_snapshot(&mut st, &snapshot(Some(""), None, one()), &c, when()).is_empty());
    assert!(handle_snapshot(&mut st, &snapshot(Some("a-topic-name-that-is-too-long"), None, one()), &c, when()).is_empty());
    let other = jo(vec![("kind", js("snapshot")), ("store", js("nowhere")), ("items", array(one()))]);
    assert!(handle_snapshot(&mut st, &other, &c, when()).is_empty());
    assert_eq!(st.store("runs").unwrap().topic_count(), 0);
    for i in 0..200 {
        handle_snapshot(&mut st, &snapshot(Some(&format!("t{}", i)), None, one()), &c, when());
    }
    assert_eq!(st.store("runs").unwrap().topic_count(), 200);
    assert!(handle_snapshot(&mut st, &snapshot(Some("one-more"), None, one()), &c, when()).is_empty());
    assert_eq!(st.store("runs").unwrap().topic_count(), 200);
    assert_eq!(handle_snapshot(&mut st, &snapshot(Some("t5"), None, one()), &c, when()).len(), 1);
}

#[test]
fn messages_are_applied_from_bytes() {
    let mut st = MpState::new(100, 10);
    let msg = jo(vec![("kind", js("delta_batch")), ("items", array(vec![jo(vec![("topic", js("a"))])]))]);
    let frames = ingest_at(&encode_msgpack(&msg), &mut st, &conf(), when());
    assert_eq!(frames.len(), 1);
    assert!(ingest_at(&[0xc1], &mut st, &conf(), when()).is_empty());
    assert_eq!(ingest(&encode_msgpack(&msg), &mut st, &conf()).len(), 1);
    assert_eq!(seqs_in(&st, "messages", "a"), vec![1, 2]);
}

fn no_env() -> Environment {
    Environment {
        rpc_endpoint: None,
        ingest_endpoint: None,
        pub_endpoint: None,
        store_maxlen: None,
        topic_max: None,
        topic_name_max_len: None,
        payload_max_bytes: None,
        validate_mode: None,
        validate_payload_bytes: None,
        pub_enabled: None,
        get_recent_max_limit: None,
        workers: None,
    }
}

#[test]
fn the_defaults_of_the_options() {
    let c = Cli::defaults();
    assert_eq!(c.rpc_endpoint, "tcp://127.0.0.1:38865");
    assert_eq!(c.ingest_endpoint, "tcp://127.0.0.1:38867");
    assert_eq!(c.pub_endpoint, "tcp://127.0.0.1:38866");
    assert_eq!((c.store_maxlen, c.topic_max, c.topic_name_max_len, c.payload_max_bytes), (20000, 2000, 128, 262144));
    assert_eq!(c.validate_mode, "strict");
    assert!(c.validate_payload_bytes && c.pub_enabled);
    assert_eq!((c.get_recent_max_limit, c.workers), (1000, 0));
    let k = c.config();
    assert_eq!(k.validate_mode, ValidateMode::Strict);
    assert_eq!((k.topic_name_max_len, k.payload_max_bytes, k.get_recent_max_limit), (128, 262144, 1000));
}

#[test]
fn the_environment_counts_for_options_at_their_default() {
    let mut env = no_env();
    env.rpc_endpoint = Some("tcp://0.0.0.0:1".to_string());
    env.store_maxlen = Some("500".to_string());
    env.topic_max = Some("many".to_string());
    env.validate_mode = Some("WARN".to_string());
    env.validate_payload_bytes = Some("no".to_string());
    env.pub_enabled = Some("On".to_string());
    env.workers = Some("+3".to_string());
    env.payload_max_bytes = Some("-1".to_string());
    let mut c = Cli::defaults();
    c.apply_env_overrides(&env);
    assert_eq!(c.rpc_endpoint, "tcp://0.0.0.0:1");
    assert_eq!(c.ingest_endpoint, "tcp://127.0.0.1:38867");
    assert_eq!(c.store_maxlen, 500);
    assert_eq!(c.topic_max, 2000);
    assert_eq!(c.validate_mode, "warn");
    assert!(!c.validate_payload_bytes);
    assert!(c.pub_enabled);
    assert_eq!(c.workers, 3);
    assert_eq!(c.payload_max_bytes, 262144);
    assert_eq!(c.config().validate_mode, ValidateMode::Warn);

    let mut given = Cli::defaults();
    given.rpc_endpoint = "tcp://10.0.0.1:9".to_string();
    given.store_maxlen = 7;
    given.validate_mode = "off".to_string();
    given.validate_payload_bytes = false;
    given.workers = 2;
    env.validate_payload_bytes = Some("true".to_string());
    given.apply_env_overrides(&env);
    assert_eq!(given.rpc_endpoint, "tcp://10.0.0.1:9");
    assert_eq!(given.store_maxlen, 7);
    assert_eq!(given.validate_mode, "off");
    assert!(!given.validate_payload_bytes);
    assert_eq!(given.workers, 2);
    assert_eq!(given.get_workers(), 2);
}

#[test]
fn modes_switches_and_sizes_are_read_from_text() {
    assert_eq!(ValidateMode::parse("strict"), ValidateMode::Strict);
    assert_eq!(ValidateMode::parse("STRICT"), ValidateMode::Strict);
    assert_eq!(ValidateMode::parse("Warn"), ValidateMode::Warn);
    assert_eq!(ValidateMode::parse("off"), ValidateMode::Off);
    assert_eq!(ValidateMode::parse("else"), ValidateMode::Off);
    for s in ["true", "TRUE", "1", "yes", "on", "On"] {
        assert!(is_truthy(s), "{}", s);
    }
    for s in ["false", "0", "no", "off", "", " true"] {
        assert!(!is_truthy(s), "{}", s);
    }
    for s in ["0", "12", "+12", "0012", "18446744073709551615"] {
        assert_eq!(parse_usize(s), s.parse::<usize>().ok(), "{}", s);
        assert!(parse_usize(s).is_some());
    }
    for s in ["", "+", "-0", "-1", "1.0", " 1", "18446744073709551616", "x"] {
        assert_eq!(parse_usize(s), None, "{}", s);
        assert_eq!(s.parse::<usize>().ok(), None, "{}", s);
    }
}

#[test]
fn workers_and_waits() {
    assert_eq!(choose_workers(0, 1), 4);
    assert_eq!(choose_workers(0, 4), 4);
    assert_eq!(choose_workers(0, 16), 16);
    assert_eq!(choose_workers(1, 16), 1);
    assert_eq!(choose_workers(9, 2), 9);
    assert!(Cli::defaults().get_workers() >= 4);
    assert_eq!(poll_timeout_ms(1), 1);
    assert_eq!(poll_timeout_ms(0), 100);
    assert_eq!(poll_timeout_ms(4), 100);
    assert_eq!((SEND_BATCH, PUB_BATCH), (100, 256));
}

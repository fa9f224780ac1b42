//! Configuration: the options of the command line, what the environment may
//! put in their place, and what the handlers read of them.

use vstd::prelude::*;
use crate::text::{all_digits, chars_of, digits_to_u64, digits_value, scan_digits, str_eq};

verus! {

/// How strictly requests are held to the protocol.
#[derive(Clone, Copy, Debug, PartialEq, Eq, Structural)]
pub enum ValidateMode {
    /// A request that is not well formed is answered with an error.
    Strict,
    /// It is served with defaults in place of what is wrong, and the caller
    /// is expected to log a warning.
    Warn,
    /// It is served with defaults in place of what is wrong.
    Off,
}

/// What `str::to_lowercase` makes of a text.
pub uninterp spec fn lowercase(s: Seq<char>) -> Seq<char>;

/// `str::to_lowercase`: the lowercase equivalent of the text.
#[verifier::external_body]
fn to_lower(s: &str) -> (r: String)
    ensures
        r@ == lowercase(s@),
{
    s.to_lowercase()
}

/// `num_cpus::get`: the number of logical processors that the process may
/// use, which is at least 1. It depends on the machine.
#[verifier::external_body]
fn cpu_count() -> (n: usize)
    ensures
        n >= 1,
{
    num_cpus::get()
}

/// The mode that a text names, whatever its case: `strict`, `warn`, and
/// `off` for any other text.
pub open spec fn mode_of(text: Seq<char>) -> ValidateMode {
    if lowercase(text) == "strict"@ {
        ValidateMode::Strict
    } else if lowercase(text) == "warn"@ {
        ValidateMode::Warn
    } else {
        ValidateMode::Off
    }
}

/// Whether a text switches an option on: `true`, `1`, `yes` or `on`,
/// whatever its case.
pub open spec fn truthy(text: Seq<char>) -> bool {
    let t = lowercase(text);
    t == "true"@ || t == "1"@ || t == "yes"@ || t == "on"@
}

/// The size that a text writes: an optional `+`, then one digit or more,
/// with a value that fits.
pub open spec fn usize_of_text(s: Seq<char>) -> Option<usize> {
    let body = if s.len() > 0 && s[0] == '+' {
        s.skip(1)
    } else {
        s
    };
    if body.len() > 0 && all_digits(body) && digits_value(body) <= usize::MAX {
        Some(digits_value(body) as usize)
    } else {
        None
    }
}

impl ValidateMode {
    /// The mode that `text` names.
    pub fn parse(text: &str) -> (m: ValidateMode)
        ensures
            m == mode_of(text@),
    {
        let t = to_lower(text);
        if str_eq(t.as_str(), "strict") {
            ValidateMode::Strict
        } else if str_eq(t.as_str(), "warn") {
            ValidateMode::Warn
        } else {
            ValidateMode::Off
        }
    }
}

/// Whether `text` switches an option on.
pub fn is_truthy(text: &str) -> (r: bool)
    ensures
        r == truthy(text@),
{
    let t = to_lower(text);
    str_eq(t.as_str(), "true") || str_eq(t.as_str(), "1") || str_eq(t.as_str(), "yes") || str_eq(
        t.as_str(),
        "on",
    )
}

/// The size that `text` writes.
pub fn parse_usize(text: &str) -> (r: Option<usize>)
    ensures
        r == usize_of_text(text@),
{
    let v = chars_of(text);
    let start: usize = if v.len() > 0 && v[0] == '+' {
        1
    } else {
        0
    };
    let end = scan_digits(&v, start);
    proof {
        let body = if start == 1 {
            v@.skip(1)
        } else {
            v@
        };
        assert(body =~= v@.subrange(start as int, v.len() as int));
        if end < v.len() {
            assert(body[end - start] == v@[end as int]);
            assert(!all_digits(body));
        }
    }
    if end != v.len() || end == start {
        return None;
    }
    match digits_to_u64(&v, start, end) {
        Some(n) => {
            if n <= usize::MAX as u64 {
                Some(n as usize)
            } else {
                None
            }
        },
        None => None,
    }
}

/// What the handlers read of the configuration.
#[derive(Clone, Copy, Debug)]
pub struct Config {
    pub validate_mode: ValidateMode,
    /// Longest topic name, in bytes.
    pub topic_name_max_len: usize,
    /// Largest encoded payload, in bytes.
    pub payload_max_bytes: usize,
    /// Whether payloads are held to `payload_max_bytes`.
    pub validate_payload_bytes: bool,
    /// Whether publications are fanned out.
    pub pub_enabled: bool,
    /// Most events in one answer to `bus.get_recent` and `bus.replay`.
    pub get_recent_max_limit: usize,
}

/// The options of the command line.
#[derive(Debug)]
pub struct Cli {
    pub rpc_endpoint: String,
    pub ingest_endpoint: String,
    pub pub_endpoint: String,
    pub store_maxlen: usize,
    pub topic_max: usize,
    pub topic_name_max_len: usize,
    pub payload_max_bytes: usize,
    pub validate_mode: String,
    pub validate_payload_bytes: bool,
    pub pub_enabled: bool,
    pub get_recent_max_limit: usize,
    pub workers: usize,
}

/// The values of the environment variables that stand behind the options,
/// each as it was found, or `None` where it is not set.
pub struct Environment {
    pub rpc_endpoint: Option<String>,
    pub ingest_endpoint: Option<String>,
    pub pub_endpoint: Option<String>,
    pub store_maxlen: Option<String>,
    pub topic_max: Option<String>,
    pub topic_name_max_len: Option<String>,
    pub payload_max_bytes: Option<String>,
    pub validate_mode: Option<String>,
    pub validate_payload_bytes: Option<String>,
    pub pub_enabled: Option<String>,
    pub get_recent_max_limit: Option<String>,
    pub workers: Option<String>,
}

/// The mathematical value of a [`Cli`].
pub ghost struct CliModel {
    pub rpc_endpoint: Seq<char>,
    pub ingest_endpoint: Seq<char>,
    pub pub_endpoint: Seq<char>,
    pub store_maxlen: usize,
    pub topic_max: usize,
    pub topic_name_max_len: usize,
    pub payload_max_bytes: usize,
    pub validate_mode: Seq<char>,
    pub validate_payload_bytes: bool,
    pub pub_enabled: bool,
    pub get_recent_max_limit: usize,
    pub workers: usize,
}

/// The text of an optional string.
pub open spec fn opt_text(s: Option<String>) -> Option<Seq<char>> {
    match s {
        Some(t) => Some(t@),
        None => None,
    }
}

impl View for Cli {
    type V = CliModel;

    open spec fn view(&self) -> CliModel {
        CliModel {
            rpc_endpoint: self.rpc_endpoint@,
            ingest_endpoint: self.ingest_endpoint@,
            pub_endpoint: self.pub_endpoint@,
            store_maxlen: self.store_maxlen,
            topic_max: self.topic_max,
            topic_name_max_len: self.topic_name_max_len,
            payload_max_bytes: self.payload_max_bytes,
            validate_mode: self.validate_mode@,
            validate_payload_bytes: self.validate_payload_bytes,
            pub_enabled: self.pub_enabled,
            get_recent_max_limit: self.get_recent_max_limit,
            workers: self.workers,
        }
    }
}

/// The options with which the program starts where none is given.
pub open spec fn default_cli() -> CliModel {
    CliModel {
        rpc_endpoint: "tcp://127.0.0.1:38865"@,
        ingest_endpoint: "tcp://127.0.0.1:38867"@,
        pub_endpoint: "tcp://127.0.0.1:38866"@,
        store_maxlen: 20000,
        topic_max: 2000,
        topic_name_max_len: 128,
        payload_max_bytes: 262144,
        validate_mode: "strict"@,
        validate_payload_bytes: true,
        pub_enabled: true,
        get_recent_max_limit: 1000,
        workers: 0,
    }
}

/// A text option after the environment had its say: where the option still
/// has its default and the variable is set, the variable's value.
pub open spec fn text_option(current: Seq<char>, default: Seq<char>, env: Option<Seq<char>>) -> Seq<
    char,
> {
    if current == default && env is Some {
        env->0
    } else {
        current
    }
}

/// A size option after the environment had its say: where the option still
/// has its default and the variable writes a size, that size.
pub open spec fn size_option(current: usize, default: usize, env: Option<Seq<char>>) -> usize {
    if current == default && env is Some && usize_of_text(env->0) is Some {
        usize_of_text(env->0)->0
    } else {
        current
    }
}

/// A switch after the environment had its say: where it is still on and the
/// variable is set, whether the variable's value switches it on.
pub open spec fn switch_option(current: bool, env: Option<Seq<char>>) -> bool {
    if current && env is Some {
        truthy(env->0)
    } else {
        current
    }
}

/// The options after the environment had its say. A variable counts only
/// for an option that still has its default.
pub open spec fn overridden(
    c: CliModel,
    rpc_endpoint: Option<Seq<char>>,
    ingest_endpoint: Option<Seq<char>>,
    pub_endpoint: Option<Seq<char>>,
    store_maxlen: Option<Seq<char>>,
    topic_max: Option<Seq<char>>,
    topic_name_max_len: Option<Seq<char>>,
    payload_max_bytes: Option<Seq<char>>,
    validate_mode: Option<Seq<char>>,
    validate_payload_bytes: Option<Seq<char>>,
    pub_enabled: Option<Seq<char>>,
    get_recent_max_limit: Option<Seq<char>>,
    workers: Option<Seq<char>>,
) -> CliModel {
    let d = default_cli();
    CliModel {
        rpc_endpoint: text_option(c.rpc_endpoint, d.rpc_endpoint, rpc_endpoint),
        ingest_endpoint: text_option(c.ingest_endpoint, d.ingest_endpoint, ingest_endpoint),
        pub_endpoint: text_option(c.pub_endpoint, d.pub_endpoint, pub_endpoint),
        store_maxlen: size_option(c.store_maxlen, d.store_maxlen, store_maxlen),
        topic_max: size_option(c.topic_max, d.topic_max, topic_max),
        topic_name_max_len: size_option(
            c.topic_name_max_len,
            d.topic_name_max_len,
            topic_name_max_len,
        ),
        payload_max_bytes: size_option(c.payload_max_bytes, d.payload_max_bytes, payload_max_bytes),
        validate_mode: if c.validate_mode == d.validate_mode && validate_mode is Some {
            lowercase(validate_mode->0)
        } else {
            c.validate_mode
        },
        validate_payload_bytes: switch_option(c.validate_payload_bytes, validate_payload_bytes),
        pub_enabled: switch_option(c.pub_enabled, pub_enabled),
        get_recent_max_limit: size_option(
            c.get_recent_max_limit,
            d.get_recent_max_limit,
            get_recent_max_limit,
        ),
        workers: size_option(c.workers, d.workers, workers),
    }
}

/// The number of workers to start for the option `workers` on a machine
/// with `cpus` processors: the option where it is not 0, else as many as
/// there are processors and four at least.
pub open spec fn workers_for(workers: usize, cpus: usize) -> usize {
    if workers != 0 {
        workers
    } else if cpus > 4 {
        cpus
    } else {
        4
    }
}

/// Milliseconds that the receiver waits for a request before it turns to
/// the answers: 1 with a single worker, 100 otherwise.
pub open spec fn poll_timeout_for(workers: usize) -> i64 {
    if workers == 1 {
        1
    } else {
        100
    }
}

/// Most answers that the sender writes between two waits of the receiver.
pub const SEND_BATCH: usize = 100;

/// Most frames that the broadcaster sends between two messages of the
/// ingest channel.
pub const PUB_BATCH: usize = 256;

fn pick_text(current: &String, default: &str, env: &Option<String>) -> (r: String)
    ensures
        r@ == text_option(current@, default@, opt_text(*env)),
{
    if str_eq(current.as_str(), default) {
        match env {
            Some(v) => v.clone(),
            None => current.clone(),
        }
    } else {
        current.clone()
    }
}

fn pick_size(current: usize, default: usize, env: &Option<String>) -> (r: usize)
    ensures
        r == size_option(current, default, opt_text(*env)),
{
    if current == default {
        match env {
            Some(v) => match parse_usize(v.as_str()) {
                Some(n) => n,
                None => current,
            },
            None => current,
        }
    } else {
        current
    }
}

fn pick_switch(current: bool, env: &Option<String>) -> (r: bool)
    ensures
        r == switch_option(current, opt_text(*env)),
{
    if current {
        match env {
            Some(v) => is_truthy(v.as_str()),
            None => current,
        }
    } else {
        current
    }
}

/// The number of workers for the option `workers` and `cpus` processors.
pub fn choose_workers(workers: usize, cpus: usize) -> (n: usize)
    ensures
        n == workers_for(workers, cpus),
{
    if workers != 0 {
        workers
    } else if cpus > 4 {
        cpus
    } else {
        4
    }
}

/// Milliseconds that the receiver waits for a request.
pub fn poll_timeout_ms(workers: usize) -> (t: i64)
    ensures
        t == poll_timeout_for(workers),
{
    if workers == 1 {
        1
    } else {
        100
    }
}

impl Cli {
    /// The options with which the program starts where none is given.
    pub fn defaults() -> (c: Cli)
        ensures
            c@ == default_cli(),
    {
        Cli {
            rpc_endpoint: String::from_str("tcp://127.0.0.1:38865"),
            ingest_endpoint: String::from_str("tcp://127.0.0.1:38867"),
            pub_endpoint: String::from_str("tcp://127.0.0.1:38866"),
            store_maxlen: 20000,
            topic_max: 2000,
            topic_name_max_len: 128,
            payload_max_bytes: 262144,
            validate_mode: String::from_str("strict"),
            validate_payload_bytes: true,
            pub_enabled: true,
            get_recent_max_limit: 1000,
            workers: 0,
        }
    }

    /// Lets the environment have its say: each option that still has its
    /// default takes the value of its variable, where that is set and can be
    /// read.
    pub fn apply_env_overrides(&mut self, env: &Environment)
        ensures
            final(self)@ == overridden(
                old(self)@,
                opt_text(env.rpc_endpoint),
                opt_text(env.ingest_endpoint),
                opt_text(env.pub_endpoint),
                opt_text(env.store_maxlen),
                opt_text(env.topic_max),
                opt_text(env.topic_name_max_len),
                opt_text(env.payload_max_bytes),
                opt_text(env.validate_mode),
                opt_text(env.validate_payload_bytes),
                opt_text(env.pub_enabled),
                opt_text(env.get_recent_max_limit),
                opt_text(env.workers),
            ),
    {
        let rpc = pick_text(&self.rpc_endpoint, "tcp://127.0.0.1:38865", &env.rpc_endpoint);
        let ingest = pick_text(&self.ingest_endpoint, "tcp://127.0.0.1:38867", &env.ingest_endpoint);
        let fan = pick_text(&self.pub_endpoint, "tcp://127.0.0.1:38866", &env.pub_endpoint);
        let mode = if str_eq(self.validate_mode.as_str(), "strict") {
            match &env.validate_mode {
                Some(v) => to_lower(v.as_str()),
                None => self.validate_mode.clone(),
            }
        } else {
            self.validate_mode.clone()
        };
        self.rpc_endpoint = rpc;
        self.ingest_endpoint = ingest;
        self.pub_endpoint = fan;
        self.validate_mode = mode;
        self.store_maxlen = pick_size(self.store_maxlen, 20000, &env.store_maxlen);
        self.topic_max = pick_size(self.topic_max, 2000, &env.topic_max);
        self.topic_name_max_len = pick_size(self.topic_name_max_len, 128, &env.topic_name_max_len);
        self.payload_max_bytes = pick_size(self.payload_max_bytes, 262144, &env.payload_max_bytes);
        self.validate_payload_bytes = pick_switch(
            self.validate_payload_bytes,
            &env.validate_payload_bytes,
        );
        self.pub_enabled = pick_switch(self.pub_enabled, &env.pub_enabled);
        self.get_recent_max_limit = pick_size(
            self.get_recent_max_limit,
            1000,
            &env.get_recent_max_limit,
        );
        self.workers = pick_size(self.workers, 0, &env.workers);
    }

    /// The number of workers to start: the option where it is not 0, else
    /// as many as the machine has processors, and four at least.
    pub fn get_workers(&self) -> (n: usize)
        ensures
            exists|cpus: usize| cpus >= 1 && n == #[trigger] workers_for(self.workers, cpus),
            self.workers != 0 ==> n == self.workers,
            self.workers == 0 ==> n >= 4,
    {
        choose_workers(self.workers, cpu_count())
    }

    /// What the handlers read of the options.
    pub fn config(&self) -> (c: Config)
        ensures
            c.validate_mode == mode_of(self@.validate_mode),
            c.topic_name_max_len == self.topic_name_max_len,
            c.payload_max_bytes == self.payload_max_bytes,
            c.validate_payload_bytes == self.validate_payload_bytes,
            c.pub_enabled == self.pub_enabled,
            c.get_recent_max_limit == self.get_recent_max_limit,
    {
        Config {
            validate_mode: ValidateMode::parse(self.validate_mode.as_str()),
            topic_name_max_len: self.topic_name_max_len,
            payload_max_bytes: self.payload_max_bytes,
            validate_payload_bytes: self.validate_payload_bytes,
            pub_enabled: self.pub_enabled,
            get_recent_max_limit: self.get_recent_max_limit,
        }
    }
}

} // verus!

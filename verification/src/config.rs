//! The daemon's settings, resolved from the values of its environment
//! variables. The application reads the variables and hands the values over.

use vstd::prelude::*;

use crate::arena::DEFAULT_ARENA_BYTES;
use crate::constants::SHUTDOWN_DRAIN_TIMEOUT;
use crate::text::{
    absent, char_parts, chars_are, chars_of, dec, is_digit, lemma_dec_parses, lemma_split_first,
    lemma_split_whole, numbers_are_read, parse_uint, parsed_uint, same_text, split_at_char,
    split_char, text_of, text_opt, texts, trim, trimmed,
};
use crate::wire::DEFAULT_RING_DEPTH;

verus! {

/// How a ring's consumer waits for work.
#[derive(Debug, Clone, Copy, PartialEq, Eq, Structural)]
pub enum WaitStrategy {
    /// Park until signalled.
    Block,
    /// Spin on the ring.
    BusySpin,
}

/// The values of the environment variables that shape the daemon; `None` where
/// a variable is unset.
#[derive(Debug, Clone)]
pub struct DaemonEnv {
    /// `WMBT_KV_DAEMON_SHM_PREFIX`
    pub shm_prefix: Option<String>,
    /// `WMBT_KV_TCP`
    pub tcp: Option<String>,
    /// `WMBT_KV_HTTP`
    pub http: Option<String>,
    /// `WMBT_KV_DAEMON_SHM_DEPTH`
    pub shm_depth: Option<String>,
    /// `WMBT_KV_DAEMON_SHM_WAIT_STRATEGY`
    pub wait_strategy: Option<String>,
    /// `WMBT_KV_TCP_TPC_THREADS`
    pub tcp_tpc_threads: Option<String>,
    /// `WMBT_KV_TCP_DISPATCH_WORKERS`
    pub tcp_dispatch_workers: Option<String>,
    /// `WMBT_KV_HTTP_TPC_THREADS`
    pub http_tpc_threads: Option<String>,
    /// `WMBT_KV_HTTP_DISPATCH_WORKERS`
    pub http_dispatch_workers: Option<String>,
    /// `WMBT_KV_PUFFER_DIR`
    pub puffer_dir: Option<String>,
    /// `WMBT_KV_PUFFER_RAM_BYTES`
    pub puffer_ram_bytes: Option<String>,
    /// `WMBT_KV_PUFFER_DISK_BYTES`
    pub puffer_disk_bytes: Option<String>,
    /// `WMBT_KV_PUFFER_BLOCK_SIZE_BYTES`
    pub puffer_block_size_bytes: Option<String>,
    /// `WMBT_KV_S3_PREFIX`
    pub s3_prefix: Option<String>,
    /// `WMBT_KV_SLATEDB_PATH`
    pub slatedb_path: Option<String>,
    /// `WMBT_KV_NAMESPACE`
    pub namespace: Option<String>,
    /// `WMBT_KV_NAMESPACE_MAX_BYTES`
    pub namespace_max_bytes: Option<String>,
    /// `WMBT_KV_EVICTION_INTERVAL_SECS`
    pub eviction_interval_secs: Option<String>,
    /// `WMBT_KV_QUIET_BANNER`
    pub quiet_banner: Option<String>,
    /// `WMBT_KV_DAEMON_SHM_TRACE_DAEMON`
    pub trace_daemon: Option<String>,
    /// `WMBT_KV_PREFETCH_DRY_RUN`
    pub prefetch_dry_run: Option<String>,
}

/// The resolved settings of the daemon.
#[derive(Debug, Clone)]
pub struct DaemonConfig {
    /// Shared-memory prefixes to serve.
    pub shm_prefixes: Vec<String>,
    /// TCP listener addresses.
    pub tcp_addrs: Vec<String>,
    /// HTTP listener addresses.
    pub http_addrs: Vec<String>,
    /// Depth of the rings.
    pub shm_depth: usize,
    /// How a ring's consumer waits.
    pub wait_strategy: WaitStrategy,
    /// Accepting threads of a TCP listener.
    pub tcp_tpc_threads: usize,
    /// Dispatching threads of a TCP listener.
    pub tcp_dispatch_workers: usize,
    /// Accepting threads of an HTTP listener.
    pub http_tpc_threads: usize,
    /// Dispatching threads of an HTTP listener.
    pub http_dispatch_workers: usize,
    /// Directory of the cache's disk tier.
    pub puffer_dir: String,
    /// Byte budget of the cache's memory tier.
    pub puffer_ram_bytes: Option<u64>,
    /// Byte budget of the cache's disk tier.
    pub puffer_disk_bytes: Option<u64>,
    /// Block size of the cache.
    pub puffer_block_size_bytes: Option<u64>,
    /// Object-key prefix of the served blocks.
    pub s3_prefix: String,
    /// Root of the metadata index.
    pub slatedb_path: String,
    /// Logical namespace.
    pub namespace: String,
    /// Byte cap per namespace; none where eviction is off.
    pub namespace_max_bytes: Option<u64>,
    /// Interval of the eviction worker, in seconds.
    pub eviction_interval: u64,
    /// Whether the banner is suppressed.
    pub quiet_banner: bool,
    /// Whether requests are traced.
    pub trace_daemon: bool,
    /// Whether prefetching only logs.
    pub prefetch_dry_run: bool,
}

// ---- single values ----

/// A number in a variable, if it is set and reads as one of at most `max`.
pub open spec fn env_number(value: Option<Seq<char>>, max: nat) -> Option<nat> {
    match value {
        Some(text) => parsed_uint(text, max),
        None => None,
    }
}

/// The number as a machine value.
pub open spec fn as_u64(number: Option<nat>) -> Option<u64> {
    match number {
        Some(n) => Some(n as u64),
        None => None,
    }
}

/// Read a 64-bit number from a variable; none if it is unset or not a number.
pub fn env_parse(value: &Option<String>) -> (number: Option<u64>)
    ensures
        number == as_u64(env_number(text_opt(*value), u64::MAX as nat)),
{
    match value {
        Some(text) => {
            let chars = chars_of(text);
            match parse_uint(&chars, u64::MAX as u128) {
                Some(n) => Some(n as u64),
                None => None,
            }
        },
        None => None,
    }
}

/// The number in a variable, or a default.
pub open spec fn env_number_or(value: Option<Seq<char>>, max: nat, default: nat) -> nat {
    match env_number(value, max) {
        Some(n) => n,
        None => default,
    }
}

/// Read a machine-sized number from a variable, with a default.
pub fn env_usize_or(value: &Option<String>, default: usize) -> (number: usize)
    ensures
        number == env_number_or(text_opt(*value), usize::MAX as nat, default as nat),
{
    match value {
        Some(text) => {
            let chars = chars_of(text);
            match parse_uint(&chars, usize::MAX as u128) {
                Some(n) => n as usize,
                None => default,
            }
        },
        None => default,
    }
}

/// Read a 64-bit number from a variable, with a default.
pub fn env_u64_or(value: &Option<String>, default: u64) -> (number: u64)
    ensures
        number == env_number_or(text_opt(*value), u64::MAX as nat, default as nat),
{
    match env_parse(value) {
        Some(n) => n,
        None => default,
    }
}

/// Whether a value of a variable counts as true.
pub open spec fn is_truthy(value: Option<Seq<char>>) -> bool {
    match value {
        Some(v) => v == "1"@ || v == "true"@ || v == "True"@ || v == "TRUE"@ || v == "yes"@ || v
            == "Yes"@ || v == "YES"@ || v == "on"@ || v == "On"@ || v == "ON"@,
        None => false,
    }
}

/// Whether a variable is set to a true value.
pub fn env_truthy(value: &Option<String>) -> (truthy: bool)
    ensures
        truthy == is_truthy(text_opt(*value)),
{
    match value {
        Some(v) => same_text(v, "1") || same_text(v, "true") || same_text(v, "True") || same_text(
            v,
            "TRUE",
        ) || same_text(v, "yes") || same_text(v, "Yes") || same_text(v, "YES") || same_text(v, "on")
            || same_text(v, "On") || same_text(v, "ON"),
        None => false,
    }
}

/// What a wait-strategy setting means, if it is one of the known words.
pub open spec fn known_strategy(value: Seq<char>) -> Option<WaitStrategy> {
    if value == "busyspin"@ || value == "BusySpin"@ || value == "spin"@ {
        Some(WaitStrategy::BusySpin)
    } else if value == "block"@ || value == "Block"@ || value == "park"@ {
        Some(WaitStrategy::Block)
    } else {
        None
    }
}

/// The wait strategy that a setting selects: the trimmed word's if it is known,
/// else `Block`.
pub open spec fn strategy_of(value: Option<Seq<char>>) -> WaitStrategy {
    match value {
        Some(text) => match known_strategy(trimmed(text)) {
            Some(strategy) => strategy,
            None => WaitStrategy::Block,
        },
        None => WaitStrategy::Block,
    }
}

/// Whether a setting names no strategy although it says something.
pub open spec fn strategy_unknown(value: Option<Seq<char>>) -> bool {
    match value {
        Some(text) => trimmed(text).len() > 0 && known_strategy(trimmed(text)) is None,
        None => false,
    }
}

/// Select the wait strategy. The second result tells that the setting was not
/// understood and the default stands in for it.
pub fn wait_strategy_from_env(value: &Option<String>) -> (chosen: (WaitStrategy, bool))
    ensures
        chosen.0 == strategy_of(text_opt(*value)),
        chosen.1 == strategy_unknown(text_opt(*value)),
{
    match value {
        Some(text) => {
            let word = trim(&chars_of(text));
            if chars_are(&word, "busyspin") || chars_are(&word, "BusySpin") || chars_are(
                &word,
                "spin",
            ) {
                (WaitStrategy::BusySpin, false)
            } else if chars_are(&word, "block") || chars_are(&word, "Block") || chars_are(
                &word,
                "park",
            ) {
                (WaitStrategy::Block, false)
            } else {
                (WaitStrategy::Block, word.len() > 0)
            }
        },
        None => (WaitStrategy::Block, false),
    }
}

/// The value of a variable that is set and not empty.
pub open spec fn non_empty(value: Option<Seq<char>>) -> Option<Seq<char>> {
    match value {
        Some(text) => if text.len() > 0 {
            Some(text)
        } else {
            None
        },
        None => None,
    }
}

/// The value of a variable, or a default where it is unset or empty.
pub open spec fn non_empty_or(value: Option<Seq<char>>, default: Seq<char>) -> Seq<char> {
    match non_empty(value) {
        Some(text) => text,
        None => default,
    }
}

fn text_or(value: &Option<String>, default: &str) -> (text: String)
    ensures
        text@ == non_empty_or(text_opt(*value), default@),
{
    match value {
        Some(text) => if text.as_str().is_empty() {
            default.to_owned()
        } else {
            text.clone()
        },
        None => default.to_owned(),
    }
}

/// The trimmed parts that are not empty.
pub open spec fn kept_parts(parts: Seq<Seq<char>>) -> Seq<Seq<char>>
    decreases parts.len(),
{
    if parts.len() == 0 {
        Seq::empty()
    } else {
        let before = kept_parts(parts.drop_last());
        let part = trimmed(parts.last());
        if part.len() > 0 {
            before.push(part)
        } else {
            before
        }
    }
}

/// The addresses in a comma-separated variable.
pub open spec fn addresses(value: Option<Seq<char>>) -> Seq<Seq<char>> {
    match value {
        Some(text) => kept_parts(split_char(text, ',')),
        None => Seq::empty(),
    }
}

/// Split a comma-separated list of addresses, without blanks and empty parts.
pub fn address_list(value: &Option<String>) -> (list: Vec<String>)
    ensures
        texts(list@) == addresses(text_opt(*value)),
{
    let mut list: Vec<String> = Vec::new();
    assert(texts(list@) =~= Seq::<Seq<char>>::empty());
    match value {
        None => {},
        Some(text) => {
            let parts = split_at_char(&chars_of(text), ',');
            let ghost all = char_parts(parts@);
            let mut i: usize = 0;
            assert(kept_parts(all.take(0)) =~= Seq::<Seq<char>>::empty());
            while i < parts.len()
                invariant
                    i <= parts@.len(),
                    all == char_parts(parts@),
                    texts(list@) == kept_parts(all.take(i as int)),
                decreases parts@.len() - i,
            {
                let part = trim(&parts[i]);
                let ghost before = list@;
                proof {
                    assert(all.take(i + 1).drop_last() =~= all.take(i as int));
                    assert(all.take(i + 1).last() == parts@[i as int]@);
                }
                if part.len() > 0 {
                    let item = text_of(&part);
                    list.push(item);
                    assert(texts(list@) =~= texts(before).push(item@));
                }
                i = i + 1;
            }
            assert(all.take(i as int) =~= all);
        },
    }
    list
}

// ---- paths ----

/// A relative path below a directory.
pub open spec fn joined(dir: Seq<char>, name: Seq<char>) -> Seq<char> {
    if dir.len() == 0 || dir.last() == '/' {
        dir + name
    } else {
        dir + "/"@ + name
    }
}

/// Append a relative path to a directory.
pub fn join_path(dir: &str, name: &str) -> (path: String)
    ensures
        path@ == joined(dir@, name@),
{
    let chars = chars_of(dir);
    let mut path = dir.to_owned();
    if chars.len() > 0 && chars[chars.len() - 1] != '/' {
        path.push_str("/");
    }
    path.push_str(name);
    path
}

/// Where the cache lives by default: below the home directory, if there is one.
pub open spec fn home_puffer_dir(home: Option<Seq<char>>) -> Option<Seq<char>> {
    match non_empty(home) {
        Some(dir) => Some(joined(joined(dir, ".wombatkv"@), "puffer"@)),
        None => None,
    }
}

/// The directory below the home directory that the cache would use by default;
/// none where there is no home directory. The application tries to create it.
pub fn puffer_dir_candidate(home: &Option<String>) -> (dir: Option<String>)
    ensures
        text_opt(dir) == home_puffer_dir(text_opt(*home)),
{
    match home {
        Some(h) => if h.as_str().is_empty() {
            None
        } else {
            Some(join_path(&join_path(h, ".wombatkv"), "puffer"))
        },
        None => None,
    }
}

/// The default directory of the cache: the candidate if it could be created,
/// else a fixed directory for temporary files.
pub fn default_daemon_puffer_dir(candidate: Option<String>, created: bool) -> (dir: String)
    ensures
        dir@ == match candidate {
            Some(d) => if created {
                d@
            } else {
                "/tmp/wombatkv-puffer-shm-foyer"@
            },
            None => "/tmp/wombatkv-puffer-shm-foyer"@,
        },
{
    match candidate {
        Some(d) => if created {
            d
        } else {
            "/tmp/wombatkv-puffer-shm-foyer".to_owned()
        },
        None => "/tmp/wombatkv-puffer-shm-foyer".to_owned(),
    }
}

// ---- the whole ----

/// At least one of something.
pub open spec fn at_least_one(n: nat) -> nat {
    if n == 0 {
        1
    } else {
        n
    }
}

fn count_or(value: &Option<String>, default: usize) -> (count: usize)
    requires
        default >= 1,
    ensures
        count == at_least_one(
            env_number_or(text_opt(*value), usize::MAX as nat, default as nat),
        ),
{
    let n: usize = env_usize_or(value, default);
    if n == 0 {
        1
    } else {
        n
    }
}

impl DaemonConfig {
    /// The settings of a daemon whose variables are all unset.
    pub fn with_puffer_dir(puffer_dir: String) -> (cfg: Self)
        ensures
            cfg.shm_prefixes@.len() == 0,
            cfg.tcp_addrs@.len() == 0,
            cfg.http_addrs@.len() == 0,
            cfg.shm_depth == DEFAULT_RING_DEPTH,
            cfg.wait_strategy == WaitStrategy::Block,
            cfg.tcp_tpc_threads == 2,
            cfg.tcp_dispatch_workers == 8,
            cfg.http_tpc_threads == 2,
            cfg.http_dispatch_workers == 8,
            cfg.puffer_dir == puffer_dir,
            cfg.puffer_ram_bytes is None,
            cfg.puffer_disk_bytes is None,
            cfg.puffer_block_size_bytes is None,
            cfg.s3_prefix@ == "kv/puffer-shm"@,
            cfg.slatedb_path@ == joined(puffer_dir@, "slatedb"@),
            cfg.namespace@ == "default"@,
            cfg.namespace_max_bytes is None,
            cfg.eviction_interval == 30,
            !cfg.quiet_banner,
            !cfg.trace_daemon,
            !cfg.prefetch_dry_run,
    {
        let slatedb_path = join_path(&puffer_dir, "slatedb");
        DaemonConfig {
            shm_prefixes: Vec::new(),
            tcp_addrs: Vec::new(),
            http_addrs: Vec::new(),
            shm_depth: DEFAULT_RING_DEPTH,
            wait_strategy: WaitStrategy::Block,
            tcp_tpc_threads: 2,
            tcp_dispatch_workers: 8,
            http_tpc_threads: 2,
            http_dispatch_workers: 8,
            puffer_dir,
            puffer_ram_bytes: None,
            puffer_disk_bytes: None,
            puffer_block_size_bytes: None,
            s3_prefix: "kv/puffer-shm".to_owned(),
            slatedb_path,
            namespace: "default".to_owned(),
            namespace_max_bytes: None,
            eviction_interval: 30,
            quiet_banner: false,
            trace_daemon: false,
            prefetch_dry_run: false,
        }
    }

    /// Resolve the settings: each variable that is set and understood replaces
    /// its default. The index lives below the cache directory unless it has a
    /// path of its own.
    pub fn from_env(env: &DaemonEnv, puffer_dir: String) -> (cfg: Self)
        ensures
            texts(cfg.shm_prefixes@) == match non_empty(text_opt(env.shm_prefix)) {
                Some(prefix) => seq![prefix],
                None => Seq::empty(),
            },
            texts(cfg.tcp_addrs@) == addresses(text_opt(env.tcp)),
            texts(cfg.http_addrs@) == addresses(text_opt(env.http)),
            cfg.shm_depth == env_number_or(
                text_opt(env.shm_depth),
                usize::MAX as nat,
                DEFAULT_RING_DEPTH as nat,
            ),
            cfg.wait_strategy == strategy_of(text_opt(env.wait_strategy)),
            cfg.tcp_tpc_threads == at_least_one(
                env_number_or(text_opt(env.tcp_tpc_threads), usize::MAX as nat, 2),
            ),
            cfg.tcp_dispatch_workers == at_least_one(
                env_number_or(text_opt(env.tcp_dispatch_workers), usize::MAX as nat, 8),
            ),
            cfg.http_tpc_threads == at_least_one(
                env_number_or(text_opt(env.http_tpc_threads), usize::MAX as nat, 2),
            ),
            cfg.http_dispatch_workers == at_least_one(
                env_number_or(text_opt(env.http_dispatch_workers), usize::MAX as nat, 8),
            ),
            cfg.puffer_dir@ == non_empty_or(text_opt(env.puffer_dir), puffer_dir@),
            cfg.puffer_ram_bytes == as_u64(
                env_number(text_opt(env.puffer_ram_bytes), u64::MAX as nat),
            ),
            cfg.puffer_disk_bytes == as_u64(
                env_number(text_opt(env.puffer_disk_bytes), u64::MAX as nat),
            ),
            cfg.puffer_block_size_bytes == as_u64(
                env_number(text_opt(env.puffer_block_size_bytes), u64::MAX as nat),
            ),
            cfg.s3_prefix@ == non_empty_or(text_opt(env.s3_prefix), "kv/puffer-shm"@),
            cfg.slatedb_path@ == non_empty_or(
                text_opt(env.slatedb_path),
                joined(non_empty_or(text_opt(env.puffer_dir), puffer_dir@), "slatedb"@),
            ),
            cfg.namespace@ == non_empty_or(text_opt(env.namespace), "default"@),
            cfg.namespace_max_bytes == as_u64(
                env_number(text_opt(env.namespace_max_bytes), u64::MAX as nat),
            ),
            cfg.eviction_interval == env_number_or(
                text_opt(env.eviction_interval_secs),
                u64::MAX as nat,
                30,
            ),
            cfg.quiet_banner == is_truthy(text_opt(env.quiet_banner)),
            cfg.trace_daemon == env.trace_daemon is Some,
            cfg.prefetch_dry_run == is_truthy(text_opt(env.prefetch_dry_run)),
    {
        let mut cfg = DaemonConfig::with_puffer_dir(text_or(&env.puffer_dir, &puffer_dir));
        if let Some(prefix) = &env.shm_prefix {
            if !prefix.as_str().is_empty() {
                cfg.shm_prefixes.push(prefix.clone());
            }
        }
        assert(texts(cfg.shm_prefixes@) =~= match non_empty(text_opt(env.shm_prefix)) {
            Some(prefix) => seq![prefix],
            None => Seq::empty(),
        });
        cfg.tcp_addrs = address_list(&env.tcp);
        cfg.http_addrs = address_list(&env.http);
        cfg.shm_depth = env_usize_or(&env.shm_depth, DEFAULT_RING_DEPTH);
        cfg.wait_strategy = wait_strategy_from_env(&env.wait_strategy).0;
        cfg.tcp_tpc_threads = count_or(&env.tcp_tpc_threads, 2);
        cfg.tcp_dispatch_workers = count_or(&env.tcp_dispatch_workers, 8);
        cfg.http_tpc_threads = count_or(&env.http_tpc_threads, 2);
        cfg.http_dispatch_workers = count_or(&env.http_dispatch_workers, 8);
        cfg.puffer_ram_bytes = env_parse(&env.puffer_ram_bytes);
        cfg.puffer_disk_bytes = env_parse(&env.puffer_disk_bytes);
        cfg.puffer_block_size_bytes = env_parse(&env.puffer_block_size_bytes);
        cfg.s3_prefix = text_or(&env.s3_prefix, "kv/puffer-shm");
        let slatedb_path = text_or(&env.slatedb_path, &cfg.slatedb_path);
        cfg.slatedb_path = slatedb_path;
        cfg.namespace = text_or(&env.namespace, "default");
        cfg.namespace_max_bytes = env_parse(&env.namespace_max_bytes);
        cfg.eviction_interval = env_u64_or(&env.eviction_interval_secs, 30);
        cfg.quiet_banner = env_truthy(&env.quiet_banner);
        cfg.trace_daemon = env.trace_daemon.is_some();
        cfg.prefetch_dry_run = env_truthy(&env.prefetch_dry_run);
        cfg
    }

    /// Whether eviction is on, an experimental feature that users are told of.
    pub fn eviction_enabled(&self) -> (on: bool)
        ensures
            on == (self.namespace_max_bytes matches Some(n) && n > 0),
    {
        match self.namespace_max_bytes {
            Some(n) => n > 0,
            None => false,
        }
    }
}

// ---- settings read where they are used ----

/// How long a side waits for the other's segments by default, in seconds.
pub const ATTACH_TIMEOUT: u64 = 30;

/// A positive number in a variable, or a default.
pub open spec fn positive_or(value: Option<Seq<char>>, max: nat, default: nat) -> nat {
    match env_number(value, max) {
        Some(n) => if n >= 1 {
            n
        } else {
            default
        },
        None => default,
    }
}

/// How long to wait for the other side's segments, in seconds:
/// `WMBT_KV_DAEMON_SHM_ATTACH_TIMEOUT_SECS` if it is a positive number.
pub fn effective_attach_timeout(value: &Option<String>) -> (secs: u64)
    ensures
        secs == positive_or(text_opt(*value), u64::MAX as nat, ATTACH_TIMEOUT as nat),
        secs >= 1,
{
    match env_parse(value) {
        Some(n) => if n >= 1 {
            n
        } else {
            ATTACH_TIMEOUT
        },
        None => ATTACH_TIMEOUT,
    }
}

/// A number of seconds in milliseconds, or the default of a stopping daemon.
pub open spec fn drain_millis(value: Option<Seq<char>>) -> nat {
    match env_number(value, u64::MAX as nat) {
        Some(n) => if n >= 1 {
            n * 1000
        } else {
            SHUTDOWN_DRAIN_TIMEOUT as nat
        },
        None => SHUTDOWN_DRAIN_TIMEOUT as nat,
    }
}

/// How long a stopping daemon waits for background puts, in milliseconds:
/// `WMBT_KV_DAEMON_SHUTDOWN_DRAIN_TIMEOUT_SECS` if it is a positive number.
pub fn effective_shutdown_drain_timeout(value: &Option<String>) -> (millis: u128)
    ensures
        millis == drain_millis(text_opt(*value)),
{
    match env_parse(value) {
        Some(n) => if n >= 1 {
            n as u128 * 1000
        } else {
            SHUTDOWN_DRAIN_TIMEOUT as u128
        },
        None => SHUTDOWN_DRAIN_TIMEOUT as u128,
    }
}

/// How often a prefix may fail to open: `WMBT_KV_DAEMON_MAX_OPEN_RETRIES` if it
/// is a positive number, else twenty times.
pub fn max_open_retries(value: &Option<String>) -> (retries: u32)
    ensures
        retries == positive_or(text_opt(*value), u32::MAX as nat, 20),
        retries >= 1,
{
    match value {
        Some(text) => {
            let chars = chars_of(text);
            match parse_uint(&chars, u32::MAX as u128) {
                Some(n) => if n >= 1 {
                    n as u32
                } else {
                    20
                },
                None => 20,
            }
        },
        None => 20,
    }
}

/// Whether puts are acknowledged before they are stored:
/// `WMBT_KV_DAEMON_SHM_ASYNC_PUT`.
pub fn async_put_enabled(value: &Option<String>) -> (enabled: bool)
    ensures
        enabled == (text_opt(*value) matches Some(v) && (v == "1"@ || v == "true"@ || v == "yes"@
            || v == "on"@)),
{
    match value {
        Some(v) => same_text(v, "1") || same_text(v, "true") || same_text(v, "yes") || same_text(
            v,
            "on",
        ),
        None => false,
    }
}

/// The smallest payload that goes to the arena by default.
pub const DEFAULT_ARENA_MIN_BYTES: usize = 1_048_576;

/// Where the arena is, how large it is, and from which payload size on it is
/// used.
#[derive(Debug, Clone)]
pub struct ArenaSettings {
    pub path: String,
    pub size: u64,
    pub min_bytes: usize,
}

/// The arena's settings from `WMBT_KV_DAEMON_SHM_ARENA_PATH`,
/// `WMBT_KV_DAEMON_SHM_ARENA_BYTES` and `WMBT_KV_DAEMON_SHM_ARENA_MIN_BYTES`;
/// none where the path is unset or empty.
pub fn arena_settings(
    path: &Option<String>,
    bytes: &Option<String>,
    min_bytes: &Option<String>,
) -> (settings: Option<ArenaSettings>)
    ensures
        match settings {
            Some(s) => {
                &&& non_empty(text_opt(*path)) == Some(s.path@)
                &&& s.size == env_number_or(
                    text_opt(*bytes),
                    u64::MAX as nat,
                    DEFAULT_ARENA_BYTES as nat,
                )
                &&& s.min_bytes == env_number_or(
                    text_opt(*min_bytes),
                    usize::MAX as nat,
                    DEFAULT_ARENA_MIN_BYTES as nat,
                )
            },
            None => non_empty(text_opt(*path)) is None,
        },
{
    match path {
        Some(p) => if p.as_str().is_empty() {
            None
        } else {
            Some(
                ArenaSettings {
                    path: p.clone(),
                    size: env_u64_or(bytes, DEFAULT_ARENA_BYTES),
                    min_bytes: env_usize_or(min_bytes, DEFAULT_ARENA_MIN_BYTES),
                },
            )
        },
        None => None,
    }
}

/// A host's name from its variables: the first of the two that is set, unless
/// it is empty.
pub open spec fn host_of(hostname: Option<Seq<char>>, computername: Option<Seq<char>>) -> Seq<
    char,
> {
    non_empty_or(
        if hostname is Some {
            hostname
        } else {
            computername
        },
        "default-node"@,
    )
}

/// The host's name from `HOSTNAME` or `COMPUTERNAME`, or `default-node`.
pub fn daemon_hostname_or_default(
    hostname: &Option<String>,
    computername: &Option<String>,
) -> (name: String)
    ensures
        name@ == host_of(text_opt(*hostname), text_opt(*computername)),
{
    match hostname {
        Some(_) => text_or(hostname, "default-node"),
        None => text_or(computername, "default-node"),
    }
}

/// The node's name in the metadata index: `MYELON_NODE_ID`, or the host's name.
pub fn node_id(
    id: &Option<String>,
    hostname: &Option<String>,
    computername: &Option<String>,
) -> (name: String)
    ensures
        name@ == non_empty_or(
            text_opt(*id),
            host_of(text_opt(*hostname), text_opt(*computername)),
        ),
{
    let host = daemon_hostname_or_default(hostname, computername);
    text_or(id, &host)
}

// ---- laws ----

/// A numeric setting is the number that its variable shows, if that is a number that
/// fits, and otherwise the default.
pub proof fn number_settings_are_read(value: Option<Seq<char>>, n: nat, max: nat, default: nat)
    requires
        n <= max,
    ensures
        env_number_or(None, max, default) == default,
        env_number_or(Some(dec(n)), max, default) == n,
        env_number_or(Some(seq!['+'] + dec(n)), max, default) == n,
        env_number_or(Some(dec(max + 1)), max, default) == default,
        env_number_or(Some(Seq::empty()), max, default) == default,
        (value matches Some(text) && exists|i: int|
            0 < i < text.len() && !('0' <= #[trigger] text[i] <= '9')) ==> env_number_or(
            value,
            max,
            default,
        ) == default,
        env_number(None, max) is None,
        env_number(Some(dec(n)), max) == Some(n),
        positive_or(Some(dec(n)), max, default) == if n == 0 {
            default
        } else {
            n
        },
        positive_or(None, max, default) == default,
{
    numbers_are_read(n, max);
    numbers_are_read(0, max);
    lemma_dec_parses(n, max);
    if let Some(text) = value {
        if exists|i: int| 0 < i < text.len() && !('0' <= #[trigger] text[i] <= '9') {
            let i = choose|i: int| 0 < i < text.len() && !('0' <= #[trigger] text[i] <= '9');
            let digits = if text[0] == '+' {
                text.drop_first()
            } else {
                text
            };
            if text[0] == '+' {
                assert(digits[i - 1] == text[i]);
                assert(!is_digit(digits[i - 1]));
            } else {
                assert(!is_digit(digits[i]));
            }
        }
    }
}

/// A stopping daemon waits as many seconds as its variable shows, and the default where
/// that is zero or no number.
pub proof fn drain_timeout_is_in_seconds(secs: nat)
    requires
        secs <= u64::MAX,
    ensures
        secs >= 1 ==> drain_millis(Some(dec(secs))) == 1000 * secs,
        drain_millis(Some(dec(0))) == SHUTDOWN_DRAIN_TIMEOUT,
        drain_millis(None) == SHUTDOWN_DRAIN_TIMEOUT,
{
    lemma_dec_parses(secs, u64::MAX as nat);
    lemma_dec_parses(0, u64::MAX as nat);
}

/// A switch is on only for `1`, `true`, `yes` and `on`, the words also with a capital
/// or in capitals.
pub proof fn switches_are_on_where_told(value: Option<Seq<char>>)
    ensures
        is_truthy(value) <==> (value matches Some(v) && (v == "1"@ || v == "true"@ || v == "True"@
            || v == "TRUE"@ || v == "yes"@ || v == "Yes"@ || v == "YES"@ || v == "on"@ || v
            == "On"@ || v == "ON"@)),
{
}

/// A consumer spins only where the setting, white space aside, is one of the words for
/// that; any other setting makes it park, and one that is no word at all is told of.
pub proof fn consumer_spins_where_told(value: Option<Seq<char>>)
    ensures
        strategy_of(value) == WaitStrategy::BusySpin <==> (value matches Some(text) && (trimmed(
            text,
        ) == "busyspin"@ || trimmed(text) == "BusySpin"@ || trimmed(text) == "spin"@)),
        strategy_unknown(value) <==> (value matches Some(text) && trimmed(text).len() > 0
            && trimmed(text) != "busyspin"@ && trimmed(text) != "BusySpin"@ && trimmed(text)
            != "spin"@ && trimmed(text) != "block"@ && trimmed(text) != "Block"@ && trimmed(text)
            != "park"@),
{
    reveal_strlit("busyspin");
    reveal_strlit("BusySpin");
    reveal_strlit("spin");
    reveal_strlit("block");
    reveal_strlit("Block");
    reveal_strlit("park");
}

/// A variable that is set to something decides; one that is unset or empty leaves the
/// default.
pub proof fn empty_settings_leave_the_default(value: Option<Seq<char>>, default: Seq<char>)
    ensures
        (value matches Some(text) && text.len() > 0) ==> non_empty_or(value, default) == value->0
            && non_empty(value) == value,
        (value matches Some(text) ==> text.len() == 0) ==> non_empty_or(value, default) == default
            && non_empty(value) is None,
{
}

/// A list of addresses is read part by part: what stands before the first comma, white
/// space aside, is the first address unless nothing is left of it.
pub proof fn addresses_are_read_in_turn(first: Seq<char>, rest: Seq<char>)
    requires
        forall|i: int| 0 <= i < first.len() ==> #[trigger] first[i] != ',',
    ensures
        addresses(None) == Seq::<Seq<char>>::empty(),
        addresses(Some(first)) == if trimmed(first).len() > 0 {
            seq![trimmed(first)]
        } else {
            Seq::empty()
        },
        addresses(Some(first + seq![','] + rest)) == addresses(Some(first)) + addresses(Some(rest)),
{
    assert(absent(first, ','));
    lemma_split_whole(first, ',');
    lemma_split_first(first, ',', rest);
    assert(seq![first].drop_last() =~= Seq::<Seq<char>>::empty());
    assert(kept_parts(Seq::<Seq<char>>::empty()) == Seq::<Seq<char>>::empty());
    assert(kept_parts(seq![first]) =~= if trimmed(first).len() > 0 {
        seq![trimmed(first)]
    } else {
        Seq::empty()
    });
    lemma_kept_parts(seq![first], split_char(rest, ','));
}

proof fn lemma_kept_parts(a: Seq<Seq<char>>, b: Seq<Seq<char>>)
    ensures
        kept_parts(a + b) == kept_parts(a) + kept_parts(b),
    decreases b.len(),
{
    if b.len() == 0 {
        assert(a + b =~= a);
        assert(kept_parts(a) + kept_parts(b) =~= kept_parts(a));
    } else {
        lemma_kept_parts(a, b.drop_last());
        assert((a + b).drop_last() =~= a + b.drop_last());
        assert((a + b).last() == b.last());
        assert(kept_parts(a + b) =~= kept_parts(a) + kept_parts(b));
    }
}

/// A path below a directory starts with the directory and ends with the name, with one
/// slash between them unless the directory is empty or ends in one.
pub proof fn path_lies_below_its_directory(dir: Seq<char>, name: Seq<char>)
    ensures
        dir.is_prefix_of(joined(dir, name)),
        name.is_suffix_of(joined(dir, name)),
        joined(dir, name).len() == dir.len() + name.len() + if dir.len() == 0 || dir.last() == '/' {
            0int
        } else {
            1
        },
        dir.len() > 0 ==> joined(dir, name)[if dir.last() == '/' {
            dir.len() - 1
        } else {
            dir.len() as int
        }] == '/',
{
    reveal_strlit("/");
    let whole = joined(dir, name);
    assert(dir =~= whole.subrange(0, dir.len() as int));
    assert(name =~= whole.subrange(whole.len() - name.len(), whole.len() as int));
}

/// A host is known by its first name that is set, and by a fixed name where that is
/// empty or none is set.
pub proof fn host_goes_by_its_first_name(
    hostname: Option<Seq<char>>,
    computername: Option<Seq<char>>,
)
    ensures
        hostname matches Some(name) ==> host_of(hostname, computername) == if name.len() > 0 {
            name
        } else {
            "default-node"@
        },
        hostname is None ==> (computername matches Some(name) ==> host_of(hostname, computername)
            == if name.len() > 0 {
            name
        } else {
            "default-node"@
        }),
        hostname is None && computername is None ==> host_of(hostname, computername)
            == "default-node"@,
        home_puffer_dir(None) is None,
        (hostname matches Some(home) && home.len() > 0 && home.last() != '/') ==> home_puffer_dir(
            hostname,
        ) == Some(hostname->0 + "/.wombatkv/puffer"@),
{
    if let Some(home) = hostname {
        if home.len() > 0 && home.last() != '/' {
            reveal_strlit("/");
            reveal_strlit(".wombatkv");
            reveal_strlit("puffer");
            reveal_strlit("/.wombatkv/puffer");
            assert(home + "/"@ + ".wombatkv"@ + "/"@ + "puffer"@ =~= home + "/.wombatkv/puffer"@);
        }
    }
}

/// Of a thing that is needed there is at least one, and otherwise as many as were asked
/// for.
pub proof fn counts_are_at_least_one(n: nat)
    ensures
        at_least_one(n) >= 1,
        at_least_one(n) >= n,
        at_least_one(n) == n || at_least_one(n) == 1,
{
}

/// Each variable sets the setting that is named for it: a number in it becomes that
/// setting and a text that is not empty stands as it is; where all are unset, each
/// setting has its default.
pub proof fn variables_set_their_own(
    env: DaemonEnv,
    puffer_dir: String,
    cfg: DaemonConfig,
    n: nat,
    text: Seq<char>,
)
    requires
        call_ensures(DaemonConfig::from_env, (&env, puffer_dir), cfg),
        1 <= n <= usize::MAX,
        n <= u64::MAX,
        text.len() > 0,
    ensures
        text_opt(env.shm_depth) == Some(dec(n)) ==> cfg.shm_depth == n,
        text_opt(env.tcp_tpc_threads) == Some(dec(n)) ==> cfg.tcp_tpc_threads == n,
        text_opt(env.tcp_dispatch_workers) == Some(dec(n)) ==> cfg.tcp_dispatch_workers == n,
        text_opt(env.http_tpc_threads) == Some(dec(n)) ==> cfg.http_tpc_threads == n,
        text_opt(env.http_dispatch_workers) == Some(dec(n)) ==> cfg.http_dispatch_workers == n,
        text_opt(env.puffer_ram_bytes) == Some(dec(n)) ==> cfg.puffer_ram_bytes == Some(n as u64),
        text_opt(env.puffer_disk_bytes) == Some(dec(n)) ==> cfg.puffer_disk_bytes == Some(n as u64),
        text_opt(env.puffer_block_size_bytes) == Some(dec(n)) ==> cfg.puffer_block_size_bytes
            == Some(n as u64),
        text_opt(env.namespace_max_bytes) == Some(dec(n)) ==> cfg.namespace_max_bytes == Some(
            n as u64,
        ),
        text_opt(env.eviction_interval_secs) == Some(dec(n)) ==> cfg.eviction_interval == n,
        text_opt(env.shm_prefix) == Some(text) ==> texts(cfg.shm_prefixes@) == seq![text],
        text_opt(env.puffer_dir) == Some(text) ==> cfg.puffer_dir@ == text,
        text_opt(env.s3_prefix) == Some(text) ==> cfg.s3_prefix@ == text,
        text_opt(env.slatedb_path) == Some(text) ==> cfg.slatedb_path@ == text,
        text_opt(env.namespace) == Some(text) ==> cfg.namespace@ == text,
        env.shm_depth is None ==> cfg.shm_depth == DEFAULT_RING_DEPTH,
        env.tcp_tpc_threads is None ==> cfg.tcp_tpc_threads == 2,
        env.tcp_dispatch_workers is None ==> cfg.tcp_dispatch_workers == 8,
        env.http_tpc_threads is None ==> cfg.http_tpc_threads == 2,
        env.http_dispatch_workers is None ==> cfg.http_dispatch_workers == 8,
        env.puffer_ram_bytes is None ==> cfg.puffer_ram_bytes is None,
        env.puffer_disk_bytes is None ==> cfg.puffer_disk_bytes is None,
        env.puffer_block_size_bytes is None ==> cfg.puffer_block_size_bytes is None,
        env.namespace_max_bytes is None ==> cfg.namespace_max_bytes is None,
        env.eviction_interval_secs is None ==> cfg.eviction_interval == 30,
        env.shm_prefix is None ==> cfg.shm_prefixes@.len() == 0,
        env.puffer_dir is None ==> cfg.puffer_dir@ == puffer_dir@,
        env.s3_prefix is None ==> cfg.s3_prefix@ == "kv/puffer-shm"@,
        env.slatedb_path is None ==> cfg.slatedb_path@ == joined(cfg.puffer_dir@, "slatedb"@),
        env.namespace is None ==> cfg.namespace@ == "default"@,
        env.quiet_banner is None ==> !cfg.quiet_banner,
        text_opt(env.quiet_banner) == Some("1"@) ==> cfg.quiet_banner,
        cfg.trace_daemon <==> env.trace_daemon is Some,
        env.prefetch_dry_run is None ==> !cfg.prefetch_dry_run,
        text_opt(env.prefetch_dry_run) == Some("1"@) ==> cfg.prefetch_dry_run,
{
    lemma_dec_parses(n, usize::MAX as nat);
    lemma_dec_parses(n, u64::MAX as nat);
    assert(texts(cfg.shm_prefixes@).len() == cfg.shm_prefixes@.len());
}

/// A client finds the arena where the daemon's settings put it: a path makes one, its
/// size and the smallest payload for it are read from their own variables.
pub proof fn arena_is_where_its_path_says(
    path: Option<String>,
    bytes: Option<String>,
    min_bytes: Option<String>,
    settings: Option<ArenaSettings>,
    size: nat,
    smallest: nat,
)
    requires
        call_ensures(arena_settings, (&path, &bytes, &min_bytes), settings),
        size <= u64::MAX,
        smallest <= usize::MAX,
        text_opt(bytes) == Some(dec(size)),
        text_opt(min_bytes) == Some(dec(smallest)),
    ensures
        match settings {
            Some(s) => path matches Some(p) && p@.len() > 0 && s.path@ == p@ && s.size == size
                && s.min_bytes == smallest,
            None => path matches Some(p) ==> p@.len() == 0,
        },
{
    lemma_dec_parses(size, u64::MAX as nat);
    lemma_dec_parses(smallest, usize::MAX as nat);
}

} // verus!

//! The daemon's own course: its command line, the loop that serves a prefix,
//! and the way it stops.

use vstd::prelude::*;

use crate::config::DaemonConfig;
use crate::constants::{SHM_INNER_LOOP_BACKOFF, SHUTDOWN_POLL_INTERVAL};
use crate::lifecycle::ReopenReason;
use crate::op;
use crate::segment::{budget_text, validate_segment_name_budget};
use crate::text::{byte_len, dec, push_dec, same_text, texts};
use crate::wire::{WireCodecError, WireFault};

verus! {

// ---- the command line ----

/// What the command line asks for.
#[derive(Debug)]
pub enum CliChoice {
    /// Run with these settings; the flag switches the shared-memory transport
    /// to one runtime per shard.
    Run { config: DaemonConfig, tpc: bool },
    /// Show how the daemon is called.
    Help,
    /// The command line is wrong.
    Refused(String),
}

/// What a command line comes to.
pub enum CliFate {
    Run {
        prefixes: Seq<Seq<char>>,
        tcp_addrs: Seq<Seq<char>>,
        http_addrs: Seq<Seq<char>>,
        tpc: bool,
    },
    Help,
    Refused(Seq<char>),
}

/// What the arguments come to, beside what is asked for already. The first
/// argument that ends the reading decides.
pub open spec fn cli_fate(
    args: Seq<Seq<char>>,
    prefixes: Seq<Seq<char>>,
    tcp_addrs: Seq<Seq<char>>,
    http_addrs: Seq<Seq<char>>,
    tpc: bool,
) -> CliFate
    decreases args.len(),
{
    if args.len() == 0 {
        CliFate::Run { prefixes, tcp_addrs, http_addrs, tpc }
    } else if args[0] == "--prefix"@ {
        if args.len() < 2 {
            CliFate::Refused("--prefix requires a value"@)
        } else {
            cli_fate(args.skip(2), prefixes.push(args[1]), tcp_addrs, http_addrs, tpc)
        }
    } else if args[0] == "--tpc"@ {
        cli_fate(args.skip(1), prefixes, tcp_addrs, http_addrs, true)
    } else if args[0] == "--tcp"@ {
        if args.len() < 2 {
            CliFate::Refused("--tcp requires an address (e.g. 0.0.0.0:7878)"@)
        } else {
            cli_fate(args.skip(2), prefixes, tcp_addrs.push(args[1]), http_addrs, tpc)
        }
    } else if args[0] == "--http"@ {
        if args.len() < 2 {
            CliFate::Refused("--http requires an address (e.g. 0.0.0.0:7879)"@)
        } else {
            cli_fate(args.skip(2), prefixes, tcp_addrs, http_addrs.push(args[1]), tpc)
        }
    } else if args[0] == "-h"@ || args[0] == "--help"@ {
        CliFate::Help
    } else {
        CliFate::Refused("unknown arg: "@ + args[0])
    }
}

/// Whether two settings differ at most in their prefixes and addresses.
pub open spec fn same_but_listeners(a: DaemonConfig, b: DaemonConfig) -> bool {
    &&& a.shm_depth == b.shm_depth
    &&& a.wait_strategy == b.wait_strategy
    &&& a.tcp_tpc_threads == b.tcp_tpc_threads
    &&& a.tcp_dispatch_workers == b.tcp_dispatch_workers
    &&& a.http_tpc_threads == b.http_tpc_threads
    &&& a.http_dispatch_workers == b.http_dispatch_workers
    &&& a.puffer_dir == b.puffer_dir
    &&& a.puffer_ram_bytes == b.puffer_ram_bytes
    &&& a.puffer_disk_bytes == b.puffer_disk_bytes
    &&& a.puffer_block_size_bytes == b.puffer_block_size_bytes
    &&& a.s3_prefix == b.s3_prefix
    &&& a.slatedb_path == b.slatedb_path
    &&& a.namespace == b.namespace
    &&& a.namespace_max_bytes == b.namespace_max_bytes
    &&& a.eviction_interval == b.eviction_interval
    &&& a.quiet_banner == b.quiet_banner
    &&& a.trace_daemon == b.trace_daemon
    &&& a.prefetch_dry_run == b.prefetch_dry_run
}

/// Whether a choice is what a command line comes to.
pub open spec fn cli_chosen(choice: CliChoice, fate: CliFate, config: DaemonConfig) -> bool {
    match fate {
        CliFate::Run { prefixes, tcp_addrs, http_addrs, tpc } => {
            &&& choice matches CliChoice::Run { config: c, tpc: t }
            &&& texts(c.shm_prefixes@) == prefixes
            &&& texts(c.tcp_addrs@) == tcp_addrs
            &&& texts(c.http_addrs@) == http_addrs
            &&& same_but_listeners(c, config)
            &&& t == tpc
        },
        CliFate::Help => choice is Help,
        CliFate::Refused(text) => choice matches CliChoice::Refused(t) && t@ == text,
    }
}

fn append(list: &mut Vec<String>, item: String)
    ensures
        texts(final(list)@) == texts(old(list)@).push(item@),
{
    list.push(item);
    assert(texts(list@) =~= texts(old(list)@).push(item@));
}

/// Read the command line (without the program's name). Its prefixes and
/// addresses come in addition to those of the settings.
pub fn parse_args(config: DaemonConfig, args: &[String]) -> (choice: CliChoice)
    ensures
        cli_chosen(
            choice,
            cli_fate(
                texts(args@),
                texts(config.shm_prefixes@),
                texts(config.tcp_addrs@),
                texts(config.http_addrs@),
                false,
            ),
            config,
        ),
{
    let ghost all = texts(args@);
    let ghost fate = cli_fate(
        all,
        texts(config.shm_prefixes@),
        texts(config.tcp_addrs@),
        texts(config.http_addrs@),
        false,
    );
    let mut cfg = config;
    let mut tpc: bool = false;
    let mut i: usize = 0;
    assert(all.skip(0) =~= all);
    while i < args.len()
        invariant
            i <= args@.len(),
            all == texts(args@),
            same_but_listeners(cfg, config),
            fate == cli_fate(
                all,
                texts(config.shm_prefixes@),
                texts(config.tcp_addrs@),
                texts(config.http_addrs@),
                false,
            ),
            fate == cli_fate(
                all.skip(i as int),
                texts(cfg.shm_prefixes@),
                texts(cfg.tcp_addrs@),
                texts(cfg.http_addrs@),
                tpc,
            ),
        decreases args@.len() - i,
    {
        let arg = &args[i];
        let ghost rest = all.skip(i as int);
        assert(rest[0] == arg@);
        assert(rest.skip(1) =~= all.skip(i + 1));
        let has_value: bool = args.len() - i >= 2;
        proof {
            if has_value {
                assert(rest[1] == args@[i + 1]@);
                assert(rest.skip(2) =~= all.skip(i + 2));
            }
        }
        if same_text(arg, "--prefix") {
            if !has_value {
                return CliChoice::Refused("--prefix requires a value".to_owned());
            }
            append(&mut cfg.shm_prefixes, args[i + 1].clone());
            i = i + 2;
        } else if same_text(arg, "--tpc") {
            tpc = true;
            i = i + 1;
        } else if same_text(arg, "--tcp") {
            if !has_value {
                return CliChoice::Refused(
                    "--tcp requires an address (e.g. 0.0.0.0:7878)".to_owned(),
                );
            }
            append(&mut cfg.tcp_addrs, args[i + 1].clone());
            i = i + 2;
        } else if same_text(arg, "--http") {
            if !has_value {
                return CliChoice::Refused(
                    "--http requires an address (e.g. 0.0.0.0:7879)".to_owned(),
                );
            }
            append(&mut cfg.http_addrs, args[i + 1].clone());
            i = i + 2;
        } else if same_text(arg, "-h") || same_text(arg, "--help") {
            return CliChoice::Help;
        } else {
            let mut text = String::new();
            text.push_str("unknown arg: ");
            text.push_str(arg);
            assert(text@ =~= "unknown arg: "@ + rest[0]);
            return CliChoice::Refused(text);
        }
    }
    assert(all.skip(i as int).len() == 0);
    CliChoice::Run { config: cfg, tpc }
}

/// The prefixes that are served: `default` where nothing at all is asked for.
pub open spec fn served_prefixes(
    prefixes: Seq<Seq<char>>,
    tcp_addrs: Seq<Seq<char>>,
    http_addrs: Seq<Seq<char>>,
) -> Seq<Seq<char>> {
    if prefixes.len() == 0 && tcp_addrs.len() == 0 && http_addrs.len() == 0 {
        seq!["default"@]
    } else {
        prefixes
    }
}

/// The first prefix whose segment names are too long.
pub open spec fn first_long_prefix(prefixes: Seq<Seq<char>>, from: nat) -> Option<Seq<char>>
    decreases prefixes.len() - from,
{
    if from >= prefixes.len() {
        None
    } else if byte_len(prefixes[from as int]) > 14 {
        Some(prefixes[from as int])
    } else {
        first_long_prefix(prefixes, from + 1)
    }
}

/// Settle which prefixes are served. A prefix whose segment names would be too
/// long is refused.
pub fn settle_prefixes(config: DaemonConfig) -> (settled: Result<DaemonConfig, WireCodecError>)
    ensures
        ({
            let served = served_prefixes(
                texts(config.shm_prefixes@),
                texts(config.tcp_addrs@),
                texts(config.http_addrs@),
            );
            match settled {
                Ok(c) => {
                    &&& first_long_prefix(served, 0) is None
                    &&& texts(c.shm_prefixes@) == served
                    &&& c.tcp_addrs == config.tcp_addrs
                    &&& c.http_addrs == config.http_addrs
                    &&& same_but_listeners(c, config)
                },
                Err(error) => first_long_prefix(served, 0) matches Some(prefix) && error@
                    == WireFault::SegmentNameBudget(budget_text(prefix)),
            }
        }),
{
    let mut cfg = config;
    if cfg.shm_prefixes.len() == 0 && cfg.tcp_addrs.len() == 0 && cfg.http_addrs.len() == 0 {
        cfg.shm_prefixes.push("default".to_owned());
        assert(texts(cfg.shm_prefixes@) =~= seq!["default"@]);
    }
    let ghost served = texts(cfg.shm_prefixes@);
    let mut i: usize = 0;
    while i < cfg.shm_prefixes.len()
        invariant
            i <= cfg.shm_prefixes@.len(),
            served == texts(cfg.shm_prefixes@),
            served == served_prefixes(
                texts(config.shm_prefixes@),
                texts(config.tcp_addrs@),
                texts(config.http_addrs@),
            ),
            first_long_prefix(served, 0) == first_long_prefix(served, i as nat),
        decreases cfg.shm_prefixes@.len() - i,
    {
        assert(served[i as int] == cfg.shm_prefixes@[i as int]@);
        match validate_segment_name_budget(&cfg.shm_prefixes[i]) {
            Ok(()) => {},
            Err(error) => {
                return Err(error);
            },
        }
        i = i + 1;
    }
    Ok(cfg)
}

/// Whether the daemon serves sockets only and its main thread just waits.
pub fn remote_only(config: &DaemonConfig) -> (only: bool)
    ensures
        only == (config.shm_prefixes@.len() == 0 && (config.tcp_addrs@.len() > 0
            || config.http_addrs@.len() > 0)),
{
    config.shm_prefixes.len() == 0 && (config.tcp_addrs.len() > 0 || config.http_addrs.len() > 0)
}

// ---- attaching ----

/// Whether an attach is tried again: until the timeout has passed.
pub fn attach_again(waited_millis: u128, timeout_secs: u64) -> (again: bool)
    ensures
        again == (waited_millis < timeout_secs * 1000),
{
    waited_millis < timeout_secs as u128 * 1000
}

/// What is said of an attach that was given up.
pub fn attach_failed(segment: &str, error: &str, tries: u64) -> (text: String)
    ensures
        text@ == "attach "@ + segment@ + ": "@ + error@ + " (after "@ + dec(tries as nat)
            + " retries)"@,
{
    let mut text = String::new();
    text.push_str("attach ");
    text.push_str(segment);
    text.push_str(": ");
    text.push_str(error);
    text.push_str(" (after ");
    push_dec(&mut text, tries as u128);
    text.push_str(" retries)");
    assert(text@ =~= "attach "@ + segment@ + ": "@ + error@ + " (after "@ + dec(tries as nat)
        + " retries)"@);
    text
}

// ---- serving a prefix ----

/// What the server of a prefix waits for.
#[derive(Debug, Clone, Copy, PartialEq, Eq, Structural)]
pub enum ServeStage {
    /// Whether the daemon is stopping.
    Starting,
    /// The rings.
    Opening,
    /// The client's end of the response ring.
    Discovering,
    /// Requests.
    Processing,
    /// A look at the client's heartbeat.
    Polling,
    /// Nothing more.
    Done,
}

/// The server of a prefix.
#[derive(Debug, Clone, Copy)]
pub struct PrefixServer {
    pub stage: ServeStage,
    /// How often opening has failed in a row.
    pub open_retries: u32,
    /// How often it may.
    pub max_open_retries: u32,
}

/// What came of the server's last action.
#[derive(Debug)]
pub enum ServeEvent {
    /// Whether the daemon is stopping.
    Started { stopping: bool },
    /// The rings were opened, or not.
    Opened(Result<(), String>),
    /// Whether the client's end was found.
    Discovered(bool),
    /// Requests were served: how many, whether one of them closed the client,
    /// and whether the daemon is stopping.
    Processed { delivered: usize, closing: bool, stopping: bool },
    /// What the heartbeat said.
    Polled(Option<ReopenReason>),
}

/// What the server of a prefix does next.
#[derive(Debug)]
pub enum ServeAction {
    /// Look whether the daemon is stopping, after a pause of that many
    /// milliseconds.
    Start { pause_millis: u64 },
    /// Remove the prefix's segments, if so asked, and start over.
    Restart { cleanup: bool },
    /// Open the rings.
    Open,
    /// Find the client's end of the response ring within that many seconds.
    Discover { timeout_secs: u64 },
    /// Begin to watch the client's heartbeat and serve requests.
    Attach,
    /// Serve what requests there are, after a pause of that many microseconds.
    Process { pause_micros: u64 },
    /// Look at the client's heartbeat.
    Poll,
    /// Remove the prefix's segments and end.
    Finish,
    /// End with an error.
    Fail(String),
}

/// How long the client's end of the response ring is sought, in seconds.
pub const DISCOVER_TIMEOUT_SECS: u64 = 30;

/// What is said of a prefix that could not be opened.
pub open spec fn open_failed_text(prefix: Seq<char>, retries: nat, error: Seq<char>) -> Seq<char> {
    "open_daemon for prefix '"@ + prefix + "' failed "@ + dec(retries) + " times; last error: "@
        + error
        + ". Likely causes: SHM name budget exceeded (macOS POSIX-SHM is 31 chars including null; the disruptor-mp `_producer_seq` suffix adds 13 chars, so the daemon prefix is capped at 14 chars on macOS, see `validate_segment_name_budget` for the exact math); stale segments lingering after a prior crash (the daemon runs cleanup_prefix_segments at startup; if that's still not enough, set `WMBT_KV_DAEMON_SHM_TRACE_UNLINK=1` to log every shm_unlink call); insufficient permissions on the SHM namespace. The earlier retry-forever behavior is replaced by this fail-loud surface (see RFC 0011 P10)."@
}

impl PrefixServer {
    /// Opening fails less often than it may.
    pub open spec fn well_formed(&self) -> bool {
        self.open_retries < self.max_open_retries
    }

    /// Whether an event is the one that the stage waits for.
    pub open spec fn awaits(&self, event: ServeEvent) -> bool {
        match self.stage {
            ServeStage::Starting => event is Started,
            ServeStage::Opening => event is Opened,
            ServeStage::Discovering => event is Discovered,
            ServeStage::Processing => event is Processed,
            ServeStage::Polling => event is Polled,
            ServeStage::Done => false,
        }
    }

    /// A server that is about to start.
    pub fn new(max_open_retries: u32) -> (server: Self)
        requires
            max_open_retries >= 1,
        ensures
            server.well_formed(),
            server.stage == ServeStage::Starting,
            server.open_retries == 0,
            server.max_open_retries == max_open_retries,
    {
        PrefixServer { stage: ServeStage::Starting, open_retries: 0, max_open_retries }
    }

    /// How the server goes on.
    pub open spec fn goes_on(
        self,
        prefix: Seq<char>,
        event: ServeEvent,
        after: PrefixServer,
        action: ServeAction,
    ) -> bool {
        match event {
            ServeEvent::Started { stopping } => if stopping {
                after == (PrefixServer { stage: ServeStage::Done, ..self }) && action is Finish
            } else {
                after == (PrefixServer { stage: ServeStage::Opening, ..self }) && action is Open
            },
            ServeEvent::Opened(Ok(_)) => {
                &&& after == (PrefixServer {
                    stage: ServeStage::Discovering,
                    open_retries: 0,
                    ..self
                })
                &&& action == (ServeAction::Discover { timeout_secs: DISCOVER_TIMEOUT_SECS })
            },
            ServeEvent::Opened(Err(error)) => if self.open_retries + 1 >= self.max_open_retries {
                &&& after.stage == ServeStage::Done
                &&& action matches ServeAction::Fail(text)
                &&& text@ == open_failed_text(prefix, self.max_open_retries as nat, error@)
            } else {
                &&& after == (PrefixServer {
                    stage: ServeStage::Starting,
                    open_retries: (self.open_retries + 1) as u32,
                    ..self
                })
                &&& action == (ServeAction::Start { pause_millis: SHUTDOWN_POLL_INTERVAL })
            },
            ServeEvent::Discovered(found) => if found {
                after == (PrefixServer { stage: ServeStage::Processing, ..self })
                    && action is Attach
            } else {
                after == (PrefixServer { stage: ServeStage::Starting, ..self }) && action == (
                ServeAction::Start { pause_millis: SHUTDOWN_POLL_INTERVAL })
            },
            ServeEvent::Processed { delivered, closing, stopping } => if closing {
                after == (PrefixServer { stage: ServeStage::Starting, ..self }) && action == (
                ServeAction::Restart { cleanup: true })
            } else if stopping {
                after == (PrefixServer { stage: ServeStage::Done, ..self }) && action is Finish
            } else if delivered == 0 {
                after == (PrefixServer { stage: ServeStage::Polling, ..self }) && action is Poll
            } else {
                after == self && action == (ServeAction::Process { pause_micros: 0 })
            },
            ServeEvent::Polled(Some(reason)) => {
                &&& after == (PrefixServer { stage: ServeStage::Starting, ..self })
                &&& action == (ServeAction::Restart { cleanup: !(reason is Replaced) })
            },
            ServeEvent::Polled(None) => {
                &&& after == (PrefixServer { stage: ServeStage::Processing, ..self })
                &&& action == (ServeAction::Process { pause_micros: SHM_INNER_LOOP_BACKOFF })
            },
        }
    }

    /// Go on after an event.
    pub fn advance(&mut self, prefix: &str, event: ServeEvent) -> (action: ServeAction)
        requires
            old(self).well_formed(),
            old(self).awaits(event),
        ensures
            final(self).well_formed(),
            old(self).goes_on(prefix@, event, *final(self), action),
    {
        match event {
            ServeEvent::Started { stopping } => {
                if stopping {
                    self.stage = ServeStage::Done;
                    ServeAction::Finish
                } else {
                    self.stage = ServeStage::Opening;
                    ServeAction::Open
                }
            },
            ServeEvent::Opened(opened) => match opened {
                Ok(()) => {
                    self.stage = ServeStage::Discovering;
                    self.open_retries = 0;
                    ServeAction::Discover { timeout_secs: DISCOVER_TIMEOUT_SECS }
                },
                Err(error) => {
                    if self.open_retries + 1 >= self.max_open_retries {
                        self.stage = ServeStage::Done;
                        let mut text = String::new();
                        text.push_str("open_daemon for prefix '");
                        text.push_str(prefix);
                        text.push_str("' failed ");
                        push_dec(&mut text, self.max_open_retries as u128);
                        text.push_str(" times; last error: ");
                        text.push_str(&error);
                        text.push_str(
                            ". Likely causes: SHM name budget exceeded (macOS POSIX-SHM is 31 chars including null; the disruptor-mp `_producer_seq` suffix adds 13 chars, so the daemon prefix is capped at 14 chars on macOS, see `validate_segment_name_budget` for the exact math); stale segments lingering after a prior crash (the daemon runs cleanup_prefix_segments at startup; if that's still not enough, set `WMBT_KV_DAEMON_SHM_TRACE_UNLINK=1` to log every shm_unlink call); insufficient permissions on the SHM namespace. The earlier retry-forever behavior is replaced by this fail-loud surface (see RFC 0011 P10).",
                        );
                        assert(text@ =~= open_failed_text(
                            prefix@,
                            self.max_open_retries as nat,
                            error@,
                        ));
                        ServeAction::Fail(text)
                    } else {
                        self.open_retries = self.open_retries + 1;
                        self.stage = ServeStage::Starting;
                        ServeAction::Start { pause_millis: SHUTDOWN_POLL_INTERVAL }
                    }
                },
            },
            ServeEvent::Discovered(found) => {
                if found {
                    self.stage = ServeStage::Processing;
                    ServeAction::Attach
                } else {
                    self.stage = ServeStage::Starting;
                    ServeAction::Start { pause_millis: SHUTDOWN_POLL_INTERVAL }
                }
            },
            ServeEvent::Processed { delivered, closing, stopping } => {
                if closing {
                    self.stage = ServeStage::Starting;
                    ServeAction::Restart { cleanup: true }
                } else if stopping {
                    self.stage = ServeStage::Done;
                    ServeAction::Finish
                } else if delivered == 0 {
                    self.stage = ServeStage::Polling;
                    ServeAction::Poll
                } else {
                    ServeAction::Process { pause_micros: 0 }
                }
            },
            ServeEvent::Polled(polled) => match polled {
                Some(reason) => {
                    self.stage = ServeStage::Starting;
                    ServeAction::Restart { cleanup: reason.requires_segment_cleanup() }
                },
                None => {
                    self.stage = ServeStage::Processing;
                    ServeAction::Process { pause_micros: SHM_INNER_LOOP_BACKOFF }
                },
            },
        }
    }
}

/// Whether a request closes its client.
pub fn closes(op_code: u8) -> (closing: bool)
    ensures
        closing == (op_code == op::CLOSE),
{
    op_code == op::CLOSE
}

/// How many times in a row opening may be tried from a state until it must have
/// been given up.
pub open spec fn attempts_left(server: PrefixServer) -> int {
    server.max_open_retries - server.open_retries
}

/// A prefix that never opens is given up: each failure either ends the server
/// or leaves it with fewer attempts, and an attempt that succeeds restores
/// them.
pub proof fn open_failures_end(
    before: PrefixServer,
    prefix: Seq<char>,
    opened: Result<(), String>,
    after: PrefixServer,
    action: ServeAction,
)
    requires
        before.well_formed(),
        before.goes_on(prefix, ServeEvent::Opened(opened), after, action),
    ensures
        opened is Err ==> (action is Fail <==> attempts_left(before) <= 1),
        opened is Err && !(action is Fail) ==> attempts_left(after) == attempts_left(before) - 1,
        opened is Ok ==> attempts_left(after) == before.max_open_retries,
{
}

/// A stopping daemon serves no further request: whatever the server of a prefix
/// was told last, it ends, unless a client just left, and then it ends at the
/// next look.
pub proof fn stopping_ends_service(
    before: PrefixServer,
    prefix: Seq<char>,
    delivered: usize,
    closing: bool,
    after: PrefixServer,
    action: ServeAction,
)
    requires
        before.goes_on(
            prefix,
            ServeEvent::Processed { delivered, closing, stopping: true },
            after,
            action,
        ),
    ensures
        after.stage == ServeStage::Done || after.stage == ServeStage::Starting,
        forall|later: PrefixServer, then: ServeAction|
            after.stage == ServeStage::Starting && #[trigger] after.goes_on(
                prefix,
                ServeEvent::Started { stopping: true },
                later,
                then,
            ) ==> later.stage == ServeStage::Done && then is Finish,
{
}

/// Arguments are read one after the other: a prefix, a socket address or a web address
/// comes behind those that are there already, each in the list of its kind; a flag
/// switches the runtimes; a call for help or an unknown word ends the reading, and so
/// does a word whose value is missing.
pub proof fn arguments_add_up(
    value: Seq<char>,
    rest: Seq<Seq<char>>,
    prefixes: Seq<Seq<char>>,
    tcp_addrs: Seq<Seq<char>>,
    http_addrs: Seq<Seq<char>>,
    tpc: bool,
)
    ensures
        cli_fate(Seq::empty(), prefixes, tcp_addrs, http_addrs, tpc) == (CliFate::Run {
            prefixes,
            tcp_addrs,
            http_addrs,
            tpc,
        }),
        cli_fate(seq!["--prefix"@, value] + rest, prefixes, tcp_addrs, http_addrs, tpc) == cli_fate(
            rest,
            prefixes.push(value),
            tcp_addrs,
            http_addrs,
            tpc,
        ),
        cli_fate(seq!["--tcp"@, value] + rest, prefixes, tcp_addrs, http_addrs, tpc) == cli_fate(
            rest,
            prefixes,
            tcp_addrs.push(value),
            http_addrs,
            tpc,
        ),
        cli_fate(seq!["--http"@, value] + rest, prefixes, tcp_addrs, http_addrs, tpc) == cli_fate(
            rest,
            prefixes,
            tcp_addrs,
            http_addrs.push(value),
            tpc,
        ),
        cli_fate(seq!["--tpc"@] + rest, prefixes, tcp_addrs, http_addrs, tpc) == cli_fate(
            rest,
            prefixes,
            tcp_addrs,
            http_addrs,
            true,
        ),
        cli_fate(seq!["-h"@] + rest, prefixes, tcp_addrs, http_addrs, tpc) == CliFate::Help,
        cli_fate(seq!["--help"@] + rest, prefixes, tcp_addrs, http_addrs, tpc) == CliFate::Help,
        cli_fate(seq!["--prefix"@], prefixes, tcp_addrs, http_addrs, tpc) is Refused,
        cli_fate(seq!["--tcp"@], prefixes, tcp_addrs, http_addrs, tpc) is Refused,
        cli_fate(seq!["--http"@], prefixes, tcp_addrs, http_addrs, tpc) is Refused,
        value != "--prefix"@ && value != "--tcp"@ && value != "--http"@ && value != "--tpc"@
            && value != "-h"@ && value != "--help"@ ==> cli_fate(
            seq![value] + rest,
            prefixes,
            tcp_addrs,
            http_addrs,
            tpc,
        ) == CliFate::Refused("unknown arg: "@ + value),
{
    reveal_strlit("--prefix");
    reveal_strlit("--tpc");
    reveal_strlit("--tcp");
    reveal_strlit("--http");
    reveal_strlit("-h");
    reveal_strlit("--help");
    assert("--prefix"@[2] == 'p' && "--tpc"@[3] == 'p' && "--tcp"@[3] == 'c' && "--http"@[2] == 'h'
        && "--help"@[3] == 'e' && "--http"@[3] == 't' && "--help"@[2] == 'h' && "--tpc"@[2] == 't'
        && "--tcp"@[2] == 't');
    assert("-h"@.len() == 2 && "--prefix"@.len() == 8 && "--tpc"@.len() == 5 && "--tcp"@.len() == 5
        && "--http"@.len() == 6);
    assert((seq!["--prefix"@, value] + rest).skip(2) =~= rest);
    assert((seq!["--tcp"@, value] + rest).skip(2) =~= rest);
    assert((seq!["--http"@, value] + rest).skip(2) =~= rest);
    assert((seq!["--tpc"@] + rest).skip(1) =~= rest);
}

/// The prefixes that were asked for are served, and the one named `default` only where
/// no prefix and no address was asked for.
pub proof fn default_prefix_stands_in(
    prefixes: Seq<Seq<char>>,
    tcp_addrs: Seq<Seq<char>>,
    http_addrs: Seq<Seq<char>>,
)
    ensures
        prefixes.len() + tcp_addrs.len() + http_addrs.len() > 0 ==> served_prefixes(
            prefixes,
            tcp_addrs,
            http_addrs,
        ) == prefixes,
        prefixes.len() + tcp_addrs.len() + http_addrs.len() == 0 ==> served_prefixes(
            prefixes,
            tcp_addrs,
            http_addrs,
        ) == seq!["default"@],
{
}

/// The prefix that is refused is the first of more than fourteen bytes, and none is
/// where there is no such prefix.
pub proof fn first_long_prefix_is_refused(prefixes: Seq<Seq<char>>, from: nat)
    ensures
        match first_long_prefix(prefixes, from) {
            Some(prefix) => exists|i: int|
                from <= i < prefixes.len() && #[trigger] prefixes[i] == prefix && byte_len(prefix)
                    > 14 && forall|j: int|
                    from <= j < i ==> byte_len(#[trigger] prefixes[j]) <= 14,
            None => forall|i: int|
                from <= i < prefixes.len() ==> byte_len(#[trigger] prefixes[i]) <= 14,
        },
    decreases prefixes.len() - from,
{
    if from < prefixes.len() && byte_len(prefixes[from as int]) <= 14 {
        first_long_prefix_is_refused(prefixes, from + 1);
        if let Some(prefix) = first_long_prefix(prefixes, from + 1) {
            let i = choose|i: int|
                from + 1 <= i < prefixes.len() && #[trigger] prefixes[i] == prefix && byte_len(
                    prefix,
                ) > 14 && forall|j: int|
                    from + 1 <= j < i ==> byte_len(#[trigger] prefixes[j]) <= 14;
            assert(prefixes[i] == prefix);
            assert forall|j: int| from <= j < i implies byte_len(#[trigger] prefixes[j]) <= 14 by {}
        }
    } else if from < prefixes.len() {
        let i = from as int;
        assert(prefixes[i] == prefixes[from as int]);
    }
}

/// What the server of a prefix does next is called for by what happened: it opens the
/// rings unless the daemon stops, seeks its client once they are open, serves once the
/// client is found, looks at the heartbeat whenever there was nothing to serve, starts
/// over when its client closes or is given up, removing the segments unless another
/// client has made its own, and ends only with the daemon or when opening has failed
/// too often.
pub proof fn server_acts_on_what_happened(
    before: PrefixServer,
    prefix: Seq<char>,
    event: ServeEvent,
    after: PrefixServer,
    action: ServeAction,
)
    requires
        before.well_formed(),
        before.goes_on(prefix, event, after, action),
    ensures
        action is Open <==> event == (ServeEvent::Started { stopping: false }),
        action is Discover <==> (event matches ServeEvent::Opened(opened) && opened is Ok),
        action is Attach <==> event == ServeEvent::Discovered(true),
        action is Poll <==> event == (ServeEvent::Processed {
            delivered: 0,
            closing: false,
            stopping: false,
        }),
        action is Finish <==> event == (ServeEvent::Started { stopping: true }) || (
        event matches ServeEvent::Processed { delivered, closing, stopping } && stopping
            && !closing),
        action is Fail <==> (event matches ServeEvent::Opened(opened) && opened is Err
            && before.open_retries + 1 >= before.max_open_retries),
        action matches ServeAction::Restart { cleanup } ==> match event {
            ServeEvent::Processed { delivered, closing, stopping } => closing && cleanup,
            ServeEvent::Polled(Some(reason)) => cleanup <==> !(reason is Replaced),
            _ => false,
        },
        event matches ServeEvent::Processed { delivered, closing, stopping } ==> (closing
            ==> action is Restart),
        event matches ServeEvent::Polled(Some(reason)) ==> action is Restart,
        event matches ServeEvent::Polled(None) ==> action is Process,
        event matches ServeEvent::Processed { delivered, closing, stopping } ==> (delivered > 0
            && !closing && !stopping ==> action == (ServeAction::Process { pause_micros: 0 })),
        event == ServeEvent::Discovered(false) ==> action is Start,
        after.max_open_retries == before.max_open_retries || action is Fail,
        !(event is Opened) ==> after.open_retries == before.open_retries,
        match action {
            ServeAction::Start { .. } => after.stage == ServeStage::Starting,
            ServeAction::Restart { .. } => after.stage == ServeStage::Starting,
            ServeAction::Open => after.stage == ServeStage::Opening,
            ServeAction::Discover { .. } => after.stage == ServeStage::Discovering,
            ServeAction::Attach => after.stage == ServeStage::Processing,
            ServeAction::Process { .. } => event is Polled || event is Processed,
            ServeAction::Poll => after.stage == ServeStage::Polling,
            ServeAction::Finish => after.stage == ServeStage::Done,
            ServeAction::Fail(_) => after.stage == ServeStage::Done,
        },
        before.stage == ServeStage::Processing || event is Polled ==> (action is Process
            ==> after.stage == ServeStage::Processing),
{
}

// ---- stopping ----

/// How the wait for background puts goes on.
#[derive(Debug, Clone, Copy, PartialEq, Eq, Structural)]
pub enum DrainStep {
    /// All puts are through.
    Drained,
    /// The time is up.
    TimedOut,
    /// Look again after that many milliseconds.
    Wait { pause_millis: u64 },
}

/// Decide how the wait for background puts goes on.
pub fn drain_step(inflight: usize, waited_millis: u128, budget_millis: u128) -> (step: DrainStep)
    ensures
        step == (if inflight == 0 {
            DrainStep::Drained
        } else if waited_millis >= budget_millis {
            DrainStep::TimedOut
        } else {
            DrainStep::Wait { pause_millis: 25 }
        }),
{
    if inflight == 0 {
        DrainStep::Drained
    } else if waited_millis >= budget_millis {
        DrainStep::TimedOut
    } else {
        DrainStep::Wait { pause_millis: 25 }
    }
}

/// The command line changes nothing of the settings but the prefixes and addresses to
/// listen on, and what it adds to those goes behind what the settings have.
pub proof fn command_line_keeps_the_settings(
    config: DaemonConfig,
    value: String,
    choice: CliChoice,
    args: Seq<Seq<char>>,
)
    requires
        cli_chosen(
            choice,
            cli_fate(
                args,
                texts(config.shm_prefixes@),
                texts(config.tcp_addrs@),
                texts(config.http_addrs@),
                false,
            ),
            config,
        ),
    ensures
        choice matches CliChoice::Run { config: c, tpc: _ } ==> {
            &&& c.shm_depth == config.shm_depth
            &&& c.wait_strategy == config.wait_strategy
            &&& c.tcp_tpc_threads == config.tcp_tpc_threads
            &&& c.tcp_dispatch_workers == config.tcp_dispatch_workers
            &&& c.http_tpc_threads == config.http_tpc_threads
            &&& c.http_dispatch_workers == config.http_dispatch_workers
            &&& c.puffer_dir == config.puffer_dir
            &&& c.puffer_ram_bytes == config.puffer_ram_bytes
            &&& c.puffer_disk_bytes == config.puffer_disk_bytes
            &&& c.puffer_block_size_bytes == config.puffer_block_size_bytes
            &&& c.s3_prefix == config.s3_prefix
            &&& c.slatedb_path == config.slatedb_path
            &&& c.namespace == config.namespace
            &&& c.namespace_max_bytes == config.namespace_max_bytes
            &&& c.eviction_interval == config.eviction_interval
            &&& c.quiet_banner == config.quiet_banner
            &&& c.trace_daemon == config.trace_daemon
            &&& c.prefetch_dry_run == config.prefetch_dry_run
        },
        args == seq!["--prefix"@, value@] ==> (choice matches CliChoice::Run { config: c, tpc }
            && !tpc && texts(c.shm_prefixes@) == texts(config.shm_prefixes@).push(value@) && texts(
            c.tcp_addrs@,
        ) == texts(config.tcp_addrs@) && texts(c.http_addrs@) == texts(config.http_addrs@)),
        args == seq!["--tcp"@, value@] ==> (choice matches CliChoice::Run { config: c, tpc }
            && !tpc && texts(c.tcp_addrs@) == texts(config.tcp_addrs@).push(value@) && texts(
            c.shm_prefixes@,
        ) == texts(config.shm_prefixes@) && texts(c.http_addrs@) == texts(config.http_addrs@)),
        args == seq!["--http"@, value@] ==> (choice matches CliChoice::Run { config: c, tpc }
            && !tpc && texts(c.http_addrs@) == texts(config.http_addrs@).push(value@) && texts(
            c.shm_prefixes@,
        ) == texts(config.shm_prefixes@) && texts(c.tcp_addrs@) == texts(config.tcp_addrs@)),
        args == seq!["--tpc"@] ==> (choice matches CliChoice::Run { config: c, tpc } && tpc),
{
    let (prefixes, tcp, http) = (
        texts(config.shm_prefixes@),
        texts(config.tcp_addrs@),
        texts(config.http_addrs@),
    );
    arguments_add_up(value@, Seq::empty(), prefixes, tcp, http, false);
    arguments_add_up(value@, Seq::empty(), prefixes.push(value@), tcp, http, false);
    arguments_add_up(value@, Seq::empty(), prefixes, tcp.push(value@), http, false);
    arguments_add_up(value@, Seq::empty(), prefixes, tcp, http.push(value@), false);
    arguments_add_up(value@, Seq::empty(), prefixes, tcp, http, true);
    assert(seq!["--prefix"@, value@] + Seq::<Seq<char>>::empty() =~= seq!["--prefix"@, value@]);
    assert(seq!["--tcp"@, value@] + Seq::<Seq<char>>::empty() =~= seq!["--tcp"@, value@]);
    assert(seq!["--http"@, value@] + Seq::<Seq<char>>::empty() =~= seq!["--http"@, value@]);
    assert(seq!["--tpc"@] + Seq::<Seq<char>>::empty() =~= seq!["--tpc"@]);
}

} // verus!

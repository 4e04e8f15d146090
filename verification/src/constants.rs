//! Timings and budgets of the daemon that no setting changes.

use vstd::prelude::*;

verus! {

/// How long a stopping daemon waits for background puts, in milliseconds.
pub const SHUTDOWN_DRAIN_TIMEOUT: u64 = 10_000;

/// Interval between looks at the shutdown flag, in milliseconds.
pub const SHUTDOWN_POLL_INTERVAL: u64 = 250;

/// Interval between looks at a client's heartbeat, in milliseconds.
pub const HEARTBEAT_POLL_INTERVAL: u64 = 250;

/// Pause of an idle request loop, in microseconds.
pub const SHM_INNER_LOOP_BACKOFF: u64 = 100;

/// Pause after a failed accept on a TCP listener, in milliseconds.
pub const TCP_ACCEPT_RETRY_BACKOFF: u64 = 50;

/// Pause after a failed accept on an HTTP listener, in milliseconds.
pub const HTTP_ACCEPT_RETRY_BACKOFF: u64 = 20;

/// Stack of a worker thread of the shared-memory transport, in bytes.
pub const SHM_THREAD_STACK_BYTES: usize = 134_217_728;

/// A worker's stack holds at least thirty-two frames.
pub proof fn stack_holds_frames()
    ensures
        SHM_THREAD_STACK_BYTES >= 32 * crate::wire::FRAME_DATA_BYTES,
{
}

} // verus!

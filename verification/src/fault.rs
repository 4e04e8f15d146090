//! The fault model: what can go wrong, and the deterministic schedule that says
//! when.

use vstd::prelude::*;

use crate::dst_rng::{
    in_range, nth_draw, phase_state, wrapped_product, xorshift, XorShift64, PHASE_MIX,
};
use crate::text::{
    debug_of, debug_text, dec, hex_padded, lemma_hex_padded_len, push_dec, push_hex_padded,
};

verus! {

/// How an envelope is broken.
#[derive(Debug, Clone, Copy, PartialEq, Eq, Structural)]
pub enum WireEnvelopeBadKind {
    BadMagic,
    BadVersion,
    BadCRC,
    OversizedLen,
    TruncatedBody,
}

/// The name of a [`WireEnvelopeBadKind`].
pub open spec fn bad_kind_text(kind: WireEnvelopeBadKind) -> Seq<char> {
    match kind {
        WireEnvelopeBadKind::BadMagic => "BadMagic"@,
        WireEnvelopeBadKind::BadVersion => "BadVersion"@,
        WireEnvelopeBadKind::BadCRC => "BadCRC"@,
        WireEnvelopeBadKind::OversizedLen => "OversizedLen"@,
        WireEnvelopeBadKind::TruncatedBody => "TruncatedBody"@,
    }
}

fn bad_kind_name(kind: WireEnvelopeBadKind) -> (name: &'static str)
    ensures
        name@ == bad_kind_text(kind),
{
    match kind {
        WireEnvelopeBadKind::BadMagic => "BadMagic",
        WireEnvelopeBadKind::BadVersion => "BadVersion",
        WireEnvelopeBadKind::BadCRC => "BadCRC",
        WireEnvelopeBadKind::OversizedLen => "OversizedLen",
        WireEnvelopeBadKind::TruncatedBody => "TruncatedBody",
    }
}

/// Which object has an older version.
#[derive(Debug, Clone, Copy, PartialEq, Eq, Structural)]
pub enum OldVersionKind {
    SidecarV3,
    BlockV1,
}

/// The name of a [`OldVersionKind`].
pub open spec fn old_version_text(kind: OldVersionKind) -> Seq<char> {
    match kind {
        OldVersionKind::SidecarV3 => "SidecarV3"@,
        OldVersionKind::BlockV1 => "BlockV1"@,
    }
}

fn old_version_name(kind: OldVersionKind) -> (name: &'static str)
    ensures
        name@ == old_version_text(kind),
{
    match kind {
        OldVersionKind::SidecarV3 => "SidecarV3",
        OldVersionKind::BlockV1 => "BlockV1",
    }
}

/// How the metadata index fails.
#[derive(Debug, Clone, Copy, PartialEq, Eq, Structural)]
pub enum SlateDbFaultKind {
    WriteFailure,
    StaleSnapshot,
    CorruptManifest,
}

/// The name of a [`SlateDbFaultKind`].
pub open spec fn index_fault_text(kind: SlateDbFaultKind) -> Seq<char> {
    match kind {
        SlateDbFaultKind::WriteFailure => "WriteFailure"@,
        SlateDbFaultKind::StaleSnapshot => "StaleSnapshot"@,
        SlateDbFaultKind::CorruptManifest => "CorruptManifest"@,
    }
}

fn index_fault_name(kind: SlateDbFaultKind) -> (name: &'static str)
    ensures
        name@ == index_fault_text(kind),
{
    match kind {
        SlateDbFaultKind::WriteFailure => "WriteFailure",
        SlateDbFaultKind::StaleSnapshot => "StaleSnapshot",
        SlateDbFaultKind::CorruptManifest => "CorruptManifest",
    }
}

/// How the object store fails.
#[derive(Debug, Clone, Copy, PartialEq, Eq, Structural)]
pub enum S3ErrorKind {
    NotFound,
    InternalError,
    ServiceUnavail,
    Throttling,
    NetworkTimeout,
}

/// The name of a [`S3ErrorKind`].
pub open spec fn store_error_text(kind: S3ErrorKind) -> Seq<char> {
    match kind {
        S3ErrorKind::NotFound => "NotFound"@,
        S3ErrorKind::InternalError => "InternalError"@,
        S3ErrorKind::ServiceUnavail => "ServiceUnavail"@,
        S3ErrorKind::Throttling => "Throttling"@,
        S3ErrorKind::NetworkTimeout => "NetworkTimeout"@,
    }
}

fn store_error_name(kind: S3ErrorKind) -> (name: &'static str)
    ensures
        name@ == store_error_text(kind),
{
    match kind {
        S3ErrorKind::NotFound => "NotFound",
        S3ErrorKind::InternalError => "InternalError",
        S3ErrorKind::ServiceUnavail => "ServiceUnavail",
        S3ErrorKind::Throttling => "Throttling",
        S3ErrorKind::NetworkTimeout => "NetworkTimeout",
    }
}

impl S3ErrorKind {
    /// Whether the failed operation is worth another try: all but a missing
    /// object.
    pub fn is_retryable(self) -> (retryable: bool)
        ensures
            retryable == (self != S3ErrorKind::NotFound),
    {
        match self {
            S3ErrorKind::NotFound => false,
            S3ErrorKind::InternalError => true,
            S3ErrorKind::ServiceUnavail => true,
            S3ErrorKind::Throttling => true,
            S3ErrorKind::NetworkTimeout => true,
        }
    }
}

/// A single fault.
#[derive(Debug, Clone)]
pub enum WombatKvFaultEvent {
    /// The next object-store get takes that much longer.
    S3GetLatency { ms: u64 },
    /// The next object-store get fails.
    S3GetFailure { error_kind: S3ErrorKind },
    /// The next object-store get returns other bytes.
    S3GetCorrupt,
    /// The next object-store put takes that much longer.
    S3PutLatency { ms: u64 },
    /// The next object-store put fails.
    S3PutFailure { error_kind: S3ErrorKind },
    /// The saving worker dies before it publishes the chain head.
    KillBeforeChainHead,
    /// The saving worker dies before it stores the sidecar.
    KillBeforeSidecar,
    /// A block is evicted during its next lease.
    EvictBlockMidLease { block_hash_prefix: String },
    /// The daemon restarts some operations from now.
    DaemonRestart { after_n_ops: u32 },
    /// A connection drops.
    TransportConnectionDrop,
    /// A read returns that many bytes.
    TransportPartialRead { return_n: u32 },
    /// A write pauses that long between bytes.
    TransportSlowWrite { ms: u64 },
    /// A response carries a broken envelope.
    WireBadEnvelope { kind: WireEnvelopeBadKind },
    /// An object has an older version.
    OldVersionInBucket { which: OldVersionKind },
    /// The metadata index fails.
    SlateDbFault { kind: SlateDbFaultKind },
    /// A second engine takes a live prefix.
    MultiEnginePrefixConflict,
    /// No local client attaches.
    DaemonTpcOnlyNoShmClient,
    /// The limit of open files drops.
    ResourceFdLimitTighten { soft_limit: u64 },
    /// Every so many allocations one fails.
    ResourceMemoryPressure { fail_every_nth_alloc: u32 },
    /// Writes fail after that many bytes.
    ResourceDiskFull { fail_after_bytes: u64 },
    /// Shared memory does not show in the file system.
    PlatformShmHidden,
    /// Completions are late by up to that much.
    PlatformIoUringJitter { p99_us: u64 },
    /// Only a synchronous reactor is there.
    PlatformKqueueOnly,
}

/// A fault as its `Debug` form shows it.
pub open spec fn event_debug(event: WombatKvFaultEvent) -> Seq<char> {
    match event {
        WombatKvFaultEvent::S3GetLatency { ms } => "S3GetLatency { ms: "@ + dec(ms as nat) + " }"@,
        WombatKvFaultEvent::S3GetFailure { error_kind } => "S3GetFailure { error_kind: "@
            + store_error_text(error_kind) + " }"@,
        WombatKvFaultEvent::S3GetCorrupt => "S3GetCorrupt"@,
        WombatKvFaultEvent::S3PutLatency { ms } => "S3PutLatency { ms: "@ + dec(ms as nat) + " }"@,
        WombatKvFaultEvent::S3PutFailure { error_kind } => "S3PutFailure { error_kind: "@
            + store_error_text(error_kind) + " }"@,
        WombatKvFaultEvent::KillBeforeChainHead => "KillBeforeChainHead"@,
        WombatKvFaultEvent::KillBeforeSidecar => "KillBeforeSidecar"@,
        WombatKvFaultEvent::EvictBlockMidLease { block_hash_prefix } => "EvictBlockMidLease { block_hash_prefix: "@
            + debug_of(block_hash_prefix@) + " }"@,
        WombatKvFaultEvent::DaemonRestart { after_n_ops } => "DaemonRestart { after_n_ops: "@
            + dec(after_n_ops as nat) + " }"@,
        WombatKvFaultEvent::TransportConnectionDrop => "TransportConnectionDrop"@,
        WombatKvFaultEvent::TransportPartialRead { return_n } => "TransportPartialRead { return_n: "@
            + dec(return_n as nat) + " }"@,
        WombatKvFaultEvent::TransportSlowWrite { ms } => "TransportSlowWrite { ms: "@
            + dec(ms as nat) + " }"@,
        WombatKvFaultEvent::WireBadEnvelope { kind } => "WireBadEnvelope { kind: "@
            + bad_kind_text(kind) + " }"@,
        WombatKvFaultEvent::OldVersionInBucket { which } => "OldVersionInBucket { which: "@
            + old_version_text(which) + " }"@,
        WombatKvFaultEvent::SlateDbFault { kind } => "SlateDbFault { kind: "@
            + index_fault_text(kind) + " }"@,
        WombatKvFaultEvent::MultiEnginePrefixConflict => "MultiEnginePrefixConflict"@,
        WombatKvFaultEvent::DaemonTpcOnlyNoShmClient => "DaemonTpcOnlyNoShmClient"@,
        WombatKvFaultEvent::ResourceFdLimitTighten { soft_limit } => "ResourceFdLimitTighten { soft_limit: "@
            + dec(soft_limit as nat) + " }"@,
        WombatKvFaultEvent::ResourceMemoryPressure { fail_every_nth_alloc } => "ResourceMemoryPressure { fail_every_nth_alloc: "@
            + dec(fail_every_nth_alloc as nat) + " }"@,
        WombatKvFaultEvent::ResourceDiskFull { fail_after_bytes } => "ResourceDiskFull { fail_after_bytes: "@
            + dec(fail_after_bytes as nat) + " }"@,
        WombatKvFaultEvent::PlatformShmHidden => "PlatformShmHidden"@,
        WombatKvFaultEvent::PlatformIoUringJitter { p99_us } => "PlatformIoUringJitter { p99_us: "@
            + dec(p99_us as nat) + " }"@,
        WombatKvFaultEvent::PlatformKqueueOnly => "PlatformKqueueOnly"@,
    }
}

impl WombatKvFaultEvent {
    /// The fault as its `Debug` form shows it.
    pub fn to_debug(&self) -> (text: String)
        ensures
            text@ == event_debug(*self),
    {
        let mut text = String::new();
        match self {
            WombatKvFaultEvent::S3GetLatency { ms } => {
                text.push_str("S3GetLatency { ms: ");
                push_dec(&mut text, *ms as u128);
                text.push_str(" }");
            },
            WombatKvFaultEvent::S3GetFailure { error_kind } => {
                text.push_str("S3GetFailure { error_kind: ");
                text.push_str(store_error_name(*error_kind));
                text.push_str(" }");
            },
            WombatKvFaultEvent::S3GetCorrupt => {
                text.push_str("S3GetCorrupt");
            },
            WombatKvFaultEvent::S3PutLatency { ms } => {
                text.push_str("S3PutLatency { ms: ");
                push_dec(&mut text, *ms as u128);
                text.push_str(" }");
            },
            WombatKvFaultEvent::S3PutFailure { error_kind } => {
                text.push_str("S3PutFailure { error_kind: ");
                text.push_str(store_error_name(*error_kind));
                text.push_str(" }");
            },
            WombatKvFaultEvent::KillBeforeChainHead => {
                text.push_str("KillBeforeChainHead");
            },
            WombatKvFaultEvent::KillBeforeSidecar => {
                text.push_str("KillBeforeSidecar");
            },
            WombatKvFaultEvent::EvictBlockMidLease { block_hash_prefix } => {
                text.push_str("EvictBlockMidLease { block_hash_prefix: ");
                text.push_str(&debug_text(block_hash_prefix));
                text.push_str(" }");
            },
            WombatKvFaultEvent::DaemonRestart { after_n_ops } => {
                text.push_str("DaemonRestart { after_n_ops: ");
                push_dec(&mut text, *after_n_ops as u128);
                text.push_str(" }");
            },
            WombatKvFaultEvent::TransportConnectionDrop => {
                text.push_str("TransportConnectionDrop");
            },
            WombatKvFaultEvent::TransportPartialRead { return_n } => {
                text.push_str("TransportPartialRead { return_n: ");
                push_dec(&mut text, *return_n as u128);
                text.push_str(" }");
            },
            WombatKvFaultEvent::TransportSlowWrite { ms } => {
                text.push_str("TransportSlowWrite { ms: ");
                push_dec(&mut text, *ms as u128);
                text.push_str(" }");
            },
            WombatKvFaultEvent::WireBadEnvelope { kind } => {
                text.push_str("WireBadEnvelope { kind: ");
                text.push_str(bad_kind_name(*kind));
                text.push_str(" }");
            },
            WombatKvFaultEvent::OldVersionInBucket { which } => {
                text.push_str("OldVersionInBucket { which: ");
                text.push_str(old_version_name(*which));
                text.push_str(" }");
            },
            WombatKvFaultEvent::SlateDbFault { kind } => {
                text.push_str("SlateDbFault { kind: ");
                text.push_str(index_fault_name(*kind));
                text.push_str(" }");
            },
            WombatKvFaultEvent::MultiEnginePrefixConflict => {
                text.push_str("MultiEnginePrefixConflict");
            },
            WombatKvFaultEvent::DaemonTpcOnlyNoShmClient => {
                text.push_str("DaemonTpcOnlyNoShmClient");
            },
            WombatKvFaultEvent::ResourceFdLimitTighten { soft_limit } => {
                text.push_str("ResourceFdLimitTighten { soft_limit: ");
                push_dec(&mut text, *soft_limit as u128);
                text.push_str(" }");
            },
            WombatKvFaultEvent::ResourceMemoryPressure { fail_every_nth_alloc } => {
                text.push_str("ResourceMemoryPressure { fail_every_nth_alloc: ");
                push_dec(&mut text, *fail_every_nth_alloc as u128);
                text.push_str(" }");
            },
            WombatKvFaultEvent::ResourceDiskFull { fail_after_bytes } => {
                text.push_str("ResourceDiskFull { fail_after_bytes: ");
                push_dec(&mut text, *fail_after_bytes as u128);
                text.push_str(" }");
            },
            WombatKvFaultEvent::PlatformShmHidden => {
                text.push_str("PlatformShmHidden");
            },
            WombatKvFaultEvent::PlatformIoUringJitter { p99_us } => {
                text.push_str("PlatformIoUringJitter { p99_us: ");
                push_dec(&mut text, *p99_us as u128);
                text.push_str(" }");
            },
            WombatKvFaultEvent::PlatformKqueueOnly => {
                text.push_str("PlatformKqueueOnly");
            },
        }
        assert(text@ =~= event_debug(*self));
        text
    }

    /// Whether the fault keeps a put from being stored.
    pub fn suppresses_put(&self) -> (suppresses: bool)
        ensures
            suppresses == put_suppressing(*self),
    {
        match self {
            WombatKvFaultEvent::S3PutFailure { .. } => true,
            WombatKvFaultEvent::S3PutLatency { .. } => true,
            WombatKvFaultEvent::KillBeforeChainHead => true,
            WombatKvFaultEvent::KillBeforeSidecar => true,
            _ => false,
        }
    }

    /// The same fault again.
    pub fn duplicate(&self) -> (copy: Self)
        ensures
            same_event(copy, *self),
    {
        match self {
            WombatKvFaultEvent::S3GetLatency { ms } => WombatKvFaultEvent::S3GetLatency { ms: *ms },
            WombatKvFaultEvent::S3GetFailure { error_kind } => WombatKvFaultEvent::S3GetFailure {
                error_kind: *error_kind,
            },
            WombatKvFaultEvent::S3GetCorrupt => WombatKvFaultEvent::S3GetCorrupt,
            WombatKvFaultEvent::S3PutLatency { ms } => WombatKvFaultEvent::S3PutLatency { ms: *ms },
            WombatKvFaultEvent::S3PutFailure { error_kind } => WombatKvFaultEvent::S3PutFailure {
                error_kind: *error_kind,
            },
            WombatKvFaultEvent::KillBeforeChainHead => WombatKvFaultEvent::KillBeforeChainHead,
            WombatKvFaultEvent::KillBeforeSidecar => WombatKvFaultEvent::KillBeforeSidecar,
            WombatKvFaultEvent::EvictBlockMidLease { block_hash_prefix } => WombatKvFaultEvent::EvictBlockMidLease {
                block_hash_prefix: block_hash_prefix.clone(),
            },
            WombatKvFaultEvent::DaemonRestart { after_n_ops } => WombatKvFaultEvent::DaemonRestart {
                after_n_ops: *after_n_ops,
            },
            WombatKvFaultEvent::TransportConnectionDrop => WombatKvFaultEvent::TransportConnectionDrop,
            WombatKvFaultEvent::TransportPartialRead { return_n } => WombatKvFaultEvent::TransportPartialRead {
                return_n: *return_n,
            },
            WombatKvFaultEvent::TransportSlowWrite { ms } => WombatKvFaultEvent::TransportSlowWrite {
                ms: *ms,
            },
            WombatKvFaultEvent::WireBadEnvelope { kind } => WombatKvFaultEvent::WireBadEnvelope {
                kind: *kind,
            },
            WombatKvFaultEvent::OldVersionInBucket { which } => WombatKvFaultEvent::OldVersionInBucket {
                which: *which,
            },
            WombatKvFaultEvent::SlateDbFault { kind } => WombatKvFaultEvent::SlateDbFault {
                kind: *kind,
            },
            WombatKvFaultEvent::MultiEnginePrefixConflict => WombatKvFaultEvent::MultiEnginePrefixConflict,
            WombatKvFaultEvent::DaemonTpcOnlyNoShmClient => WombatKvFaultEvent::DaemonTpcOnlyNoShmClient,
            WombatKvFaultEvent::ResourceFdLimitTighten { soft_limit } => WombatKvFaultEvent::ResourceFdLimitTighten {
                soft_limit: *soft_limit,
            },
            WombatKvFaultEvent::ResourceMemoryPressure { fail_every_nth_alloc } => WombatKvFaultEvent::ResourceMemoryPressure {
                fail_every_nth_alloc: *fail_every_nth_alloc,
            },
            WombatKvFaultEvent::ResourceDiskFull { fail_after_bytes } => WombatKvFaultEvent::ResourceDiskFull {
                fail_after_bytes: *fail_after_bytes,
            },
            WombatKvFaultEvent::PlatformShmHidden => WombatKvFaultEvent::PlatformShmHidden,
            WombatKvFaultEvent::PlatformIoUringJitter { p99_us } => WombatKvFaultEvent::PlatformIoUringJitter {
                p99_us: *p99_us,
            },
            WombatKvFaultEvent::PlatformKqueueOnly => WombatKvFaultEvent::PlatformKqueueOnly,
        }
    }
}

/// Whether a fault keeps a put from being stored.
pub open spec fn put_suppressing(event: WombatKvFaultEvent) -> bool {
    event is S3PutFailure || event is S3PutLatency || event is KillBeforeChainHead || event
        is KillBeforeSidecar
}

/// Whether two faults are the same.
pub open spec fn same_event(a: WombatKvFaultEvent, b: WombatKvFaultEvent) -> bool {
    match (a, b) {
        (
            WombatKvFaultEvent::EvictBlockMidLease { block_hash_prefix: x },
            WombatKvFaultEvent::EvictBlockMidLease { block_hash_prefix: y },
        ) => x@ == y@,
        _ => a == b,
    }
}

/// A scenario that exercises one invariant.
#[derive(Debug, Clone, Copy, PartialEq, Eq, Structural)]
pub enum WombatKvFailureClass {
    /// The object store fails for a moment during a cold block get.
    TransientS3Failure,
    /// The object store returns bytes that do not hash to their block.
    CorruptBlockBytes,
    /// The process dies between the blocks of a chain and its head.
    PartialChainSave,
    /// Two saves to the same content-addressed key.
    ConcurrentSameKeySave,
    /// The daemon restarts during a lookup.
    DaemonRestartMidLookup,
    /// The sidecar is stored, the chain head is not.
    SidecarDriftAfterChain,
    /// A block is evicted while it is leased.
    FoyerEvictionMidGet,
    /// A connection drops during a call.
    TransportConnectionDropMidRPC,
    /// A read returns fewer bytes than asked for.
    TransportPartialReadOnHeader,
    /// Responses are written slowly.
    TransportSlowWrite,
    /// A response carries a broken envelope.
    WireEnvelopeCorruption,
    /// The bucket holds sidecars of an older version.
    OldSidecarV3InBucket,
    /// The bucket holds blocks of an older version.
    OldBlockV1InBucket,
    /// A write to the metadata index fails.
    SlateDbWriteFailure,
    /// The metadata index is corrupt at the start.
    SlateDbManifestCorruption,
    /// Two engines take the same prefix.
    MultiEnginePrefixConflict,
    /// The daemon waits for a local client that never comes.
    DaemonTpcOnlyNoShmClient,
    /// Few file descriptors are left.
    ResourceFdExhaustion,
    /// Allocations fail now and again.
    ResourceMemoryPressure,
    /// The disk fills up.
    ResourceDiskFull,
    /// Shared memory does not show in the file system.
    PlatformShmHidden,
    /// Completions arrive late.
    PlatformIoUringJitter,
    /// Only a synchronous reactor is there.
    PlatformKqueueOnly,
}

/// The name of a class.
pub open spec fn class_text(class: WombatKvFailureClass) -> Seq<char> {
    match class {
        WombatKvFailureClass::TransientS3Failure => "TransientS3Failure"@,
        WombatKvFailureClass::CorruptBlockBytes => "CorruptBlockBytes"@,
        WombatKvFailureClass::PartialChainSave => "PartialChainSave"@,
        WombatKvFailureClass::ConcurrentSameKeySave => "ConcurrentSameKeySave"@,
        WombatKvFailureClass::DaemonRestartMidLookup => "DaemonRestartMidLookup"@,
        WombatKvFailureClass::SidecarDriftAfterChain => "SidecarDriftAfterChain"@,
        WombatKvFailureClass::FoyerEvictionMidGet => "FoyerEvictionMidGet"@,
        WombatKvFailureClass::TransportConnectionDropMidRPC => "TransportConnectionDropMidRPC"@,
        WombatKvFailureClass::TransportPartialReadOnHeader => "TransportPartialReadOnHeader"@,
        WombatKvFailureClass::TransportSlowWrite => "TransportSlowWrite"@,
        WombatKvFailureClass::WireEnvelopeCorruption => "WireEnvelopeCorruption"@,
        WombatKvFailureClass::OldSidecarV3InBucket => "OldSidecarV3InBucket"@,
        WombatKvFailureClass::OldBlockV1InBucket => "OldBlockV1InBucket"@,
        WombatKvFailureClass::SlateDbWriteFailure => "SlateDbWriteFailure"@,
        WombatKvFailureClass::SlateDbManifestCorruption => "SlateDbManifestCorruption"@,
        WombatKvFailureClass::MultiEnginePrefixConflict => "MultiEnginePrefixConflict"@,
        WombatKvFailureClass::DaemonTpcOnlyNoShmClient => "DaemonTpcOnlyNoShmClient"@,
        WombatKvFailureClass::ResourceFdExhaustion => "ResourceFdExhaustion"@,
        WombatKvFailureClass::ResourceMemoryPressure => "ResourceMemoryPressure"@,
        WombatKvFailureClass::ResourceDiskFull => "ResourceDiskFull"@,
        WombatKvFailureClass::PlatformShmHidden => "PlatformShmHidden"@,
        WombatKvFailureClass::PlatformIoUringJitter => "PlatformIoUringJitter"@,
        WombatKvFailureClass::PlatformKqueueOnly => "PlatformKqueueOnly"@,
    }
}

/// All classes, in their order.
pub open spec fn all_classes() -> Seq<WombatKvFailureClass> {
    seq![
        WombatKvFailureClass::TransientS3Failure,
        WombatKvFailureClass::CorruptBlockBytes,
        WombatKvFailureClass::PartialChainSave,
        WombatKvFailureClass::ConcurrentSameKeySave,
        WombatKvFailureClass::DaemonRestartMidLookup,
        WombatKvFailureClass::SidecarDriftAfterChain,
        WombatKvFailureClass::FoyerEvictionMidGet,
        WombatKvFailureClass::TransportConnectionDropMidRPC,
        WombatKvFailureClass::TransportPartialReadOnHeader,
        WombatKvFailureClass::TransportSlowWrite,
        WombatKvFailureClass::WireEnvelopeCorruption,
        WombatKvFailureClass::OldSidecarV3InBucket,
        WombatKvFailureClass::OldBlockV1InBucket,
        WombatKvFailureClass::SlateDbWriteFailure,
        WombatKvFailureClass::SlateDbManifestCorruption,
        WombatKvFailureClass::MultiEnginePrefixConflict,
        WombatKvFailureClass::DaemonTpcOnlyNoShmClient,
        WombatKvFailureClass::ResourceFdExhaustion,
        WombatKvFailureClass::ResourceMemoryPressure,
        WombatKvFailureClass::ResourceDiskFull,
        WombatKvFailureClass::PlatformShmHidden,
        WombatKvFailureClass::PlatformIoUringJitter,
        WombatKvFailureClass::PlatformKqueueOnly,
    ]
}

impl WombatKvFailureClass {
    /// The name of the class.
    pub fn name(self) -> (name: &'static str)
        ensures
            name@ == class_text(self),
    {
        match self {
            WombatKvFailureClass::TransientS3Failure => "TransientS3Failure",
            WombatKvFailureClass::CorruptBlockBytes => "CorruptBlockBytes",
            WombatKvFailureClass::PartialChainSave => "PartialChainSave",
            WombatKvFailureClass::ConcurrentSameKeySave => "ConcurrentSameKeySave",
            WombatKvFailureClass::DaemonRestartMidLookup => "DaemonRestartMidLookup",
            WombatKvFailureClass::SidecarDriftAfterChain => "SidecarDriftAfterChain",
            WombatKvFailureClass::FoyerEvictionMidGet => "FoyerEvictionMidGet",
            WombatKvFailureClass::TransportConnectionDropMidRPC => "TransportConnectionDropMidRPC",
            WombatKvFailureClass::TransportPartialReadOnHeader => "TransportPartialReadOnHeader",
            WombatKvFailureClass::TransportSlowWrite => "TransportSlowWrite",
            WombatKvFailureClass::WireEnvelopeCorruption => "WireEnvelopeCorruption",
            WombatKvFailureClass::OldSidecarV3InBucket => "OldSidecarV3InBucket",
            WombatKvFailureClass::OldBlockV1InBucket => "OldBlockV1InBucket",
            WombatKvFailureClass::SlateDbWriteFailure => "SlateDbWriteFailure",
            WombatKvFailureClass::SlateDbManifestCorruption => "SlateDbManifestCorruption",
            WombatKvFailureClass::MultiEnginePrefixConflict => "MultiEnginePrefixConflict",
            WombatKvFailureClass::DaemonTpcOnlyNoShmClient => "DaemonTpcOnlyNoShmClient",
            WombatKvFailureClass::ResourceFdExhaustion => "ResourceFdExhaustion",
            WombatKvFailureClass::ResourceMemoryPressure => "ResourceMemoryPressure",
            WombatKvFailureClass::ResourceDiskFull => "ResourceDiskFull",
            WombatKvFailureClass::PlatformShmHidden => "PlatformShmHidden",
            WombatKvFailureClass::PlatformIoUringJitter => "PlatformIoUringJitter",
            WombatKvFailureClass::PlatformKqueueOnly => "PlatformKqueueOnly",
        }
    }

    /// All classes.
    pub fn all() -> (classes: Vec<WombatKvFailureClass>)
        ensures
            classes@ == all_classes(),
    {
        let mut classes: Vec<WombatKvFailureClass> = Vec::new();
        classes.push(WombatKvFailureClass::TransientS3Failure);
        classes.push(WombatKvFailureClass::CorruptBlockBytes);
        classes.push(WombatKvFailureClass::PartialChainSave);
        classes.push(WombatKvFailureClass::ConcurrentSameKeySave);
        classes.push(WombatKvFailureClass::DaemonRestartMidLookup);
        classes.push(WombatKvFailureClass::SidecarDriftAfterChain);
        classes.push(WombatKvFailureClass::FoyerEvictionMidGet);
        classes.push(WombatKvFailureClass::TransportConnectionDropMidRPC);
        classes.push(WombatKvFailureClass::TransportPartialReadOnHeader);
        classes.push(WombatKvFailureClass::TransportSlowWrite);
        classes.push(WombatKvFailureClass::WireEnvelopeCorruption);
        classes.push(WombatKvFailureClass::OldSidecarV3InBucket);
        classes.push(WombatKvFailureClass::OldBlockV1InBucket);
        classes.push(WombatKvFailureClass::SlateDbWriteFailure);
        classes.push(WombatKvFailureClass::SlateDbManifestCorruption);
        classes.push(WombatKvFailureClass::MultiEnginePrefixConflict);
        classes.push(WombatKvFailureClass::DaemonTpcOnlyNoShmClient);
        classes.push(WombatKvFailureClass::ResourceFdExhaustion);
        classes.push(WombatKvFailureClass::ResourceMemoryPressure);
        classes.push(WombatKvFailureClass::ResourceDiskFull);
        classes.push(WombatKvFailureClass::PlatformShmHidden);
        classes.push(WombatKvFailureClass::PlatformIoUringJitter);
        classes.push(WombatKvFailureClass::PlatformKqueueOnly);
        assert(classes@ =~= all_classes());
        classes
    }
}

/// Every class is listed, and none twice.
pub proof fn all_classes_once(class: WombatKvFailureClass)
    ensures
        exists|i: int| 0 <= i < all_classes().len() && #[trigger] all_classes()[i] == class,
        all_classes().no_duplicates(),
{
    let all = all_classes();
    match class {
        WombatKvFailureClass::TransientS3Failure => {
            assert(all[0] == class);
        },
        WombatKvFailureClass::CorruptBlockBytes => {
            assert(all[1] == class);
        },
        WombatKvFailureClass::PartialChainSave => {
            assert(all[2] == class);
        },
        WombatKvFailureClass::ConcurrentSameKeySave => {
            assert(all[3] == class);
        },
        WombatKvFailureClass::DaemonRestartMidLookup => {
            assert(all[4] == class);
        },
        WombatKvFailureClass::SidecarDriftAfterChain => {
            assert(all[5] == class);
        },
        WombatKvFailureClass::FoyerEvictionMidGet => {
            assert(all[6] == class);
        },
        WombatKvFailureClass::TransportConnectionDropMidRPC => {
            assert(all[7] == class);
        },
        WombatKvFailureClass::TransportPartialReadOnHeader => {
            assert(all[8] == class);
        },
        WombatKvFailureClass::TransportSlowWrite => {
            assert(all[9] == class);
        },
        WombatKvFailureClass::WireEnvelopeCorruption => {
            assert(all[10] == class);
        },
        WombatKvFailureClass::OldSidecarV3InBucket => {
            assert(all[11] == class);
        },
        WombatKvFailureClass::OldBlockV1InBucket => {
            assert(all[12] == class);
        },
        WombatKvFailureClass::SlateDbWriteFailure => {
            assert(all[13] == class);
        },
        WombatKvFailureClass::SlateDbManifestCorruption => {
            assert(all[14] == class);
        },
        WombatKvFailureClass::MultiEnginePrefixConflict => {
            assert(all[15] == class);
        },
        WombatKvFailureClass::DaemonTpcOnlyNoShmClient => {
            assert(all[16] == class);
        },
        WombatKvFailureClass::ResourceFdExhaustion => {
            assert(all[17] == class);
        },
        WombatKvFailureClass::ResourceMemoryPressure => {
            assert(all[18] == class);
        },
        WombatKvFailureClass::ResourceDiskFull => {
            assert(all[19] == class);
        },
        WombatKvFailureClass::PlatformShmHidden => {
            assert(all[20] == class);
        },
        WombatKvFailureClass::PlatformIoUringJitter => {
            assert(all[21] == class);
        },
        WombatKvFailureClass::PlatformKqueueOnly => {
            assert(all[22] == class);
        },
    }
}

/// When a scheduled fault strikes.
#[derive(Debug, Clone, Copy, PartialEq, Eq, Structural)]
pub enum FaultTrigger {
    /// At the n-th operation.
    AfterKvOp { n: u32 },
    /// At the n-th object-store get.
    AfterS3Get { n: u32 },
    /// At the n-th object-store put.
    AfterS3Put { n: u32 },
    /// That long after the start.
    AfterBootstrapMs { ms: u64 },
}

/// A fault and when it strikes.
#[derive(Debug, Clone)]
pub struct ScheduledFault {
    pub trigger: FaultTrigger,
    pub event: WombatKvFaultEvent,
}

/// The faults of a run.
#[derive(Debug, Clone)]
pub struct FaultPlan {
    pub seed: u64,
    pub class: Option<WombatKvFailureClass>,
    pub events: Vec<ScheduledFault>,
}

impl Default for FaultPlan {
    /// A plan without faults.
    fn default() -> (plan: Self)
        ensures
            plan.seed == 0,
            plan.class is None,
            plan.events@.len() == 0,
    {
        FaultPlan { seed: 0, class: None, events: Vec::new() }
    }
}

/// A draw of the schedule's stream, as a number in `[lo, hi)`.
pub open spec fn drawn(seed: u64, n: nat, lo: u64, hi: u64) -> u64 {
    in_range(nth_draw(phase_state(seed, 1), n), lo, hi)
}

/// Such a draw as a 32-bit number.
pub open spec fn drawn32(seed: u64, n: nat, lo: u64, hi: u64) -> u32 {
    drawn(seed, n, lo, hi) as u32
}

/// A scheduled fault.
pub open spec fn at(trigger: FaultTrigger, event: WombatKvFaultEvent) -> ScheduledFault {
    ScheduledFault { trigger, event }
}

/// The ways an envelope is broken, in the order in which they are drawn.
pub open spec fn bad_kind_at(i: u64) -> WireEnvelopeBadKind {
    if i == 0 {
        WireEnvelopeBadKind::BadMagic
    } else if i == 1 {
        WireEnvelopeBadKind::BadVersion
    } else if i == 2 {
        WireEnvelopeBadKind::BadCRC
    } else if i == 3 {
        WireEnvelopeBadKind::OversizedLen
    } else {
        WireEnvelopeBadKind::TruncatedBody
    }
}

/// The faults that a seed schedules for a class.
pub open spec fn schedules(
    seed: u64,
    class: WombatKvFailureClass,
    events: Seq<ScheduledFault>,
) -> bool {
    match class {
        WombatKvFailureClass::TransientS3Failure => events == seq![
            at(
                FaultTrigger::AfterS3Get { n: drawn32(seed, 0, 1, 20) },
                WombatKvFaultEvent::S3GetFailure { error_kind: S3ErrorKind::ServiceUnavail },
            ),
        ],
        WombatKvFailureClass::CorruptBlockBytes => events == seq![
            at(
                FaultTrigger::AfterS3Get { n: drawn32(seed, 0, 1, 10) },
                WombatKvFaultEvent::S3GetCorrupt,
            ),
        ],
        WombatKvFailureClass::PartialChainSave => events == seq![
            at(
                FaultTrigger::AfterS3Put { n: drawn32(seed, 0, 1, 8) },
                WombatKvFaultEvent::KillBeforeChainHead,
            ),
        ],
        WombatKvFailureClass::ConcurrentSameKeySave => events == seq![
            at(
                FaultTrigger::AfterKvOp { n: drawn32(seed, 0, 1, 5) },
                WombatKvFaultEvent::S3PutLatency { ms: drawn(seed, 1, 50, 200) },
            ),
            at(
                FaultTrigger::AfterKvOp { n: drawn32(seed, 2, 1, 5) },
                WombatKvFaultEvent::S3PutLatency { ms: drawn(seed, 3, 50, 200) },
            ),
        ],
        WombatKvFailureClass::DaemonRestartMidLookup => events == seq![
            at(
                FaultTrigger::AfterKvOp { n: drawn32(seed, 0, 5, 30) },
                WombatKvFaultEvent::DaemonRestart { after_n_ops: drawn32(seed, 1, 1, 5) },
            ),
        ],
        WombatKvFailureClass::SidecarDriftAfterChain => events == seq![
            at(
                FaultTrigger::AfterS3Put { n: drawn32(seed, 0, 2, 8) },
                WombatKvFaultEvent::KillBeforeSidecar,
            ),
        ],
        WombatKvFailureClass::FoyerEvictionMidGet => {
            &&& events.len() == 1
            &&& events[0].trigger == (FaultTrigger::AfterKvOp { n: drawn32(seed, 1, 3, 15) })
            &&& events[0].event matches WombatKvFaultEvent::EvictBlockMidLease { block_hash_prefix }
            &&& block_hash_prefix@ == hex_padded(nth_draw(phase_state(seed, 1), 0) as nat, 16)
        },
        WombatKvFailureClass::TransportConnectionDropMidRPC => events == seq![
            at(
                FaultTrigger::AfterKvOp { n: drawn32(seed, 0, 1, 10) },
                WombatKvFaultEvent::TransportConnectionDrop,
            ),
        ],
        WombatKvFailureClass::TransportPartialReadOnHeader => events == seq![
            at(
                FaultTrigger::AfterKvOp { n: drawn32(seed, 0, 1, 10) },
                WombatKvFaultEvent::TransportPartialRead { return_n: drawn32(seed, 1, 1, 8) },
            ),
        ],
        WombatKvFailureClass::TransportSlowWrite => events == seq![
            at(
                FaultTrigger::AfterKvOp { n: drawn32(seed, 0, 1, 10) },
                WombatKvFaultEvent::TransportSlowWrite { ms: drawn(seed, 1, 10, 100) },
            ),
        ],
        WombatKvFailureClass::WireEnvelopeCorruption => events == seq![
            at(
                FaultTrigger::AfterKvOp { n: drawn32(seed, 1, 1, 10) },
                WombatKvFaultEvent::WireBadEnvelope { kind: bad_kind_at(drawn(seed, 0, 0, 5)) },
            ),
        ],
        WombatKvFailureClass::OldSidecarV3InBucket => events == seq![
            at(
                FaultTrigger::AfterBootstrapMs { ms: drawn(seed, 0, 0, 50) },
                WombatKvFaultEvent::OldVersionInBucket { which: OldVersionKind::SidecarV3 },
            ),
        ],
        WombatKvFailureClass::OldBlockV1InBucket => events == seq![
            at(
                FaultTrigger::AfterBootstrapMs { ms: drawn(seed, 0, 0, 50) },
                WombatKvFaultEvent::OldVersionInBucket { which: OldVersionKind::BlockV1 },
            ),
        ],
        WombatKvFailureClass::SlateDbWriteFailure => events == seq![
            at(
                FaultTrigger::AfterKvOp { n: drawn32(seed, 0, 1, 12) },
                WombatKvFaultEvent::SlateDbFault { kind: SlateDbFaultKind::WriteFailure },
            ),
        ],
        WombatKvFailureClass::SlateDbManifestCorruption => events == seq![
            at(
                FaultTrigger::AfterBootstrapMs { ms: 0 },
                WombatKvFaultEvent::SlateDbFault { kind: SlateDbFaultKind::CorruptManifest },
            ),
        ],
        WombatKvFailureClass::MultiEnginePrefixConflict => events == seq![
            at(
                FaultTrigger::AfterKvOp { n: drawn32(seed, 0, 1, 5) },
                WombatKvFaultEvent::MultiEnginePrefixConflict,
            ),
        ],
        WombatKvFailureClass::DaemonTpcOnlyNoShmClient => events == seq![
            at(
                FaultTrigger::AfterBootstrapMs { ms: 0 },
                WombatKvFaultEvent::DaemonTpcOnlyNoShmClient,
            ),
        ],
        WombatKvFailureClass::ResourceFdExhaustion => events == seq![
            at(
                FaultTrigger::AfterBootstrapMs { ms: 0 },
                WombatKvFaultEvent::ResourceFdLimitTighten { soft_limit: drawn(seed, 0, 64, 256) },
            ),
        ],
        WombatKvFailureClass::ResourceMemoryPressure => events == seq![
            at(
                FaultTrigger::AfterKvOp { n: drawn32(seed, 0, 1, 10) },
                WombatKvFaultEvent::ResourceMemoryPressure {
                    fail_every_nth_alloc: drawn32(seed, 1, 50, 500),
                },
            ),
        ],
        WombatKvFailureClass::ResourceDiskFull => events == seq![
            at(
                FaultTrigger::AfterS3Put { n: drawn32(seed, 0, 1, 5) },
                WombatKvFaultEvent::ResourceDiskFull { fail_after_bytes: drawn(seed, 1, 1048576, 104857600) },
            ),
        ],
        WombatKvFailureClass::PlatformShmHidden => events == seq![
            at(
                FaultTrigger::AfterBootstrapMs { ms: 0 },
                WombatKvFaultEvent::PlatformShmHidden,
            ),
        ],
        WombatKvFailureClass::PlatformIoUringJitter => events == seq![
            at(
                FaultTrigger::AfterKvOp { n: drawn32(seed, 0, 1, 10) },
                WombatKvFaultEvent::PlatformIoUringJitter { p99_us: drawn(seed, 1, 50, 500) },
            ),
        ],
        WombatKvFailureClass::PlatformKqueueOnly => events == seq![
            at(
                FaultTrigger::AfterBootstrapMs { ms: 0 },
                WombatKvFaultEvent::PlatformKqueueOnly,
            ),
        ],
    }
}

/// Expand a seed and a class to a plan. The same seed and class always give the
/// same plan.
pub fn schedule_for_class(master_seed: u64, class: WombatKvFailureClass) -> (plan: FaultPlan)
    ensures
        plan.seed == master_seed,
        plan.class == Some(class),
        schedules(master_seed, class, plan.events@),
        plan.events@.len() >= 1,
{
    let mut rng = XorShift64::phase(master_seed, 1);
    let ghost state = rng@;
    proof {
        lemma_draws(state);
    }
    let mut events: Vec<ScheduledFault> = Vec::new();
    match class {
        WombatKvFailureClass::TransientS3Failure => {
            let n: u32 = rng.between(1, 20) as u32;
            events.push(
                ScheduledFault {
                    trigger: FaultTrigger::AfterS3Get { n },
                    event: WombatKvFaultEvent::S3GetFailure { error_kind: S3ErrorKind::ServiceUnavail },
                },
            );
            assert(schedules(master_seed, class, events@));
        },
        WombatKvFailureClass::CorruptBlockBytes => {
            let n: u32 = rng.between(1, 10) as u32;
            events.push(
                ScheduledFault {
                    trigger: FaultTrigger::AfterS3Get { n },
                    event: WombatKvFaultEvent::S3GetCorrupt,
                },
            );
            assert(schedules(master_seed, class, events@));
        },
        WombatKvFailureClass::PartialChainSave => {
            let n: u32 = rng.between(1, 8) as u32;
            events.push(
                ScheduledFault {
                    trigger: FaultTrigger::AfterS3Put { n },
                    event: WombatKvFaultEvent::KillBeforeChainHead,
                },
            );
            assert(schedules(master_seed, class, events@));
        },
        WombatKvFailureClass::ConcurrentSameKeySave => {
            let n: u32 = rng.between(1, 5) as u32;
            let ms: u64 = rng.between(50, 200);
            events.push(
                ScheduledFault {
                    trigger: FaultTrigger::AfterKvOp { n },
                    event: WombatKvFaultEvent::S3PutLatency { ms },
                },
            );
            let n_again: u32 = rng.between(1, 5) as u32;
            let ms_again: u64 = rng.between(50, 200);
            events.push(
                ScheduledFault {
                    trigger: FaultTrigger::AfterKvOp { n: n_again },
                    event: WombatKvFaultEvent::S3PutLatency { ms: ms_again },
                },
            );
            assert(events@ =~= seq![
                at(
                    FaultTrigger::AfterKvOp { n: drawn32(master_seed, 0, 1, 5) },
                    WombatKvFaultEvent::S3PutLatency { ms: drawn(master_seed, 1, 50, 200) },
                ),
                at(
                    FaultTrigger::AfterKvOp { n: drawn32(master_seed, 2, 1, 5) },
                    WombatKvFaultEvent::S3PutLatency { ms: drawn(master_seed, 3, 50, 200) },
                ),
            ]);
            assert(schedules(master_seed, class, events@));
        },
        WombatKvFailureClass::DaemonRestartMidLookup => {
            let n: u32 = rng.between(5, 30) as u32;
            let after_n_ops: u32 = rng.between(1, 5) as u32;
            events.push(
                ScheduledFault {
                    trigger: FaultTrigger::AfterKvOp { n },
                    event: WombatKvFaultEvent::DaemonRestart { after_n_ops },
                },
            );
            assert(schedules(master_seed, class, events@));
        },
        WombatKvFailureClass::SidecarDriftAfterChain => {
            let n: u32 = rng.between(2, 8) as u32;
            events.push(
                ScheduledFault {
                    trigger: FaultTrigger::AfterS3Put { n },
                    event: WombatKvFaultEvent::KillBeforeSidecar,
                },
            );
            assert(schedules(master_seed, class, events@));
        },
        WombatKvFailureClass::FoyerEvictionMidGet => {
            let prefix_seed: u64 = rng.next_u64();
            let n: u32 = rng.between(3, 15) as u32;
            let mut block_hash_prefix = String::new();
            push_hex_padded(&mut block_hash_prefix, prefix_seed, 16);
            assert(block_hash_prefix@ =~= hex_padded(prefix_seed as nat, 16));
            events.push(
                ScheduledFault {
                    trigger: FaultTrigger::AfterKvOp { n },
                    event: WombatKvFaultEvent::EvictBlockMidLease { block_hash_prefix },
                },
            );
            assert(schedules(master_seed, class, events@));
        },
        WombatKvFailureClass::TransportConnectionDropMidRPC => {
            let n: u32 = rng.between(1, 10) as u32;
            events.push(
                ScheduledFault {
                    trigger: FaultTrigger::AfterKvOp { n },
                    event: WombatKvFaultEvent::TransportConnectionDrop,
                },
            );
            assert(schedules(master_seed, class, events@));
        },
        WombatKvFailureClass::TransportPartialReadOnHeader => {
            let n: u32 = rng.between(1, 10) as u32;
            let return_n: u32 = rng.between(1, 8) as u32;
            events.push(
                ScheduledFault {
                    trigger: FaultTrigger::AfterKvOp { n },
                    event: WombatKvFaultEvent::TransportPartialRead { return_n },
                },
            );
            assert(schedules(master_seed, class, events@));
        },
        WombatKvFailureClass::TransportSlowWrite => {
            let n: u32 = rng.between(1, 10) as u32;
            let ms: u64 = rng.between(10, 100);
            events.push(
                ScheduledFault {
                    trigger: FaultTrigger::AfterKvOp { n },
                    event: WombatKvFaultEvent::TransportSlowWrite { ms },
                },
            );
            assert(schedules(master_seed, class, events@));
        },
        WombatKvFailureClass::WireEnvelopeCorruption => {
            let kind = match rng.between(0, 5) {
                0 => WireEnvelopeBadKind::BadMagic,
                1 => WireEnvelopeBadKind::BadVersion,
                2 => WireEnvelopeBadKind::BadCRC,
                3 => WireEnvelopeBadKind::OversizedLen,
                _ => WireEnvelopeBadKind::TruncatedBody,
            };
            let n: u32 = rng.between(1, 10) as u32;
            events.push(
                ScheduledFault {
                    trigger: FaultTrigger::AfterKvOp { n },
                    event: WombatKvFaultEvent::WireBadEnvelope { kind },
                },
            );
            assert(schedules(master_seed, class, events@));
        },
        WombatKvFailureClass::OldSidecarV3InBucket => {
            let ms_trigger: u64 = rng.between(0, 50);
            events.push(
                ScheduledFault {
                    trigger: FaultTrigger::AfterBootstrapMs { ms: ms_trigger },
                    event: WombatKvFaultEvent::OldVersionInBucket { which: OldVersionKind::SidecarV3 },
                },
            );
            assert(schedules(master_seed, class, events@));
        },
        WombatKvFailureClass::OldBlockV1InBucket => {
            let ms_trigger: u64 = rng.between(0, 50);
            events.push(
                ScheduledFault {
                    trigger: FaultTrigger::AfterBootstrapMs { ms: ms_trigger },
                    event: WombatKvFaultEvent::OldVersionInBucket { which: OldVersionKind::BlockV1 },
                },
            );
            assert(schedules(master_seed, class, events@));
        },
        WombatKvFailureClass::SlateDbWriteFailure => {
            let n: u32 = rng.between(1, 12) as u32;
            events.push(
                ScheduledFault {
                    trigger: FaultTrigger::AfterKvOp { n },
                    event: WombatKvFaultEvent::SlateDbFault { kind: SlateDbFaultKind::WriteFailure },
                },
            );
            assert(schedules(master_seed, class, events@));
        },
        WombatKvFailureClass::SlateDbManifestCorruption => {
            events.push(
                ScheduledFault {
                    trigger: FaultTrigger::AfterBootstrapMs { ms: 0 },
                    event: WombatKvFaultEvent::SlateDbFault { kind: SlateDbFaultKind::CorruptManifest },
                },
            );
            assert(schedules(master_seed, class, events@));
        },
        WombatKvFailureClass::MultiEnginePrefixConflict => {
            let n: u32 = rng.between(1, 5) as u32;
            events.push(
                ScheduledFault {
                    trigger: FaultTrigger::AfterKvOp { n },
                    event: WombatKvFaultEvent::MultiEnginePrefixConflict,
                },
            );
            assert(schedules(master_seed, class, events@));
        },
        WombatKvFailureClass::DaemonTpcOnlyNoShmClient => {
            events.push(
                ScheduledFault {
                    trigger: FaultTrigger::AfterBootstrapMs { ms: 0 },
                    event: WombatKvFaultEvent::DaemonTpcOnlyNoShmClient,
                },
            );
            assert(schedules(master_seed, class, events@));
        },
        WombatKvFailureClass::ResourceFdExhaustion => {
            let soft_limit: u64 = rng.between(64, 256);
            events.push(
                ScheduledFault {
                    trigger: FaultTrigger::AfterBootstrapMs { ms: 0 },
                    event: WombatKvFaultEvent::ResourceFdLimitTighten { soft_limit },
                },
            );
            assert(schedules(master_seed, class, events@));
        },
        WombatKvFailureClass::ResourceMemoryPressure => {
            let n: u32 = rng.between(1, 10) as u32;
            let fail_every_nth_alloc: u32 = rng.between(50, 500) as u32;
            events.push(
                ScheduledFault {
                    trigger: FaultTrigger::AfterKvOp { n },
                    event: WombatKvFaultEvent::ResourceMemoryPressure { fail_every_nth_alloc },
                },
            );
            assert(schedules(master_seed, class, events@));
        },
        WombatKvFailureClass::ResourceDiskFull => {
            let n: u32 = rng.between(1, 5) as u32;
            let fail_after_bytes: u64 = rng.between(1048576, 104857600);
            events.push(
                ScheduledFault {
                    trigger: FaultTrigger::AfterS3Put { n },
                    event: WombatKvFaultEvent::ResourceDiskFull { fail_after_bytes },
                },
            );
            assert(schedules(master_seed, class, events@));
        },
        WombatKvFailureClass::PlatformShmHidden => {
            events.push(
                ScheduledFault {
                    trigger: FaultTrigger::AfterBootstrapMs { ms: 0 },
                    event: WombatKvFaultEvent::PlatformShmHidden,
                },
            );
            assert(schedules(master_seed, class, events@));
        },
        WombatKvFailureClass::PlatformIoUringJitter => {
            let n: u32 = rng.between(1, 10) as u32;
            let p99_us: u64 = rng.between(50, 500);
            events.push(
                ScheduledFault {
                    trigger: FaultTrigger::AfterKvOp { n },
                    event: WombatKvFaultEvent::PlatformIoUringJitter { p99_us },
                },
            );
            assert(schedules(master_seed, class, events@));
        },
        WombatKvFailureClass::PlatformKqueueOnly => {
            events.push(
                ScheduledFault {
                    trigger: FaultTrigger::AfterBootstrapMs { ms: 0 },
                    event: WombatKvFaultEvent::PlatformKqueueOnly,
                },
            );
            assert(schedules(master_seed, class, events@));
        },
    }
    FaultPlan { seed: master_seed, class: Some(class), events }
}

proof fn lemma_draws(state: u64)
    ensures
        nth_draw(state, 0) == xorshift(state),
        nth_draw(state, 1) == xorshift(xorshift(state)),
        nth_draw(state, 2) == xorshift(xorshift(xorshift(state))),
        nth_draw(state, 3) == xorshift(xorshift(xorshift(xorshift(state)))),
{
    reveal_with_fuel(nth_draw, 5);
}

/// Two plans for the same seed and class schedule the same faults at the same
/// moments.
pub proof fn schedule_is_deterministic(
    seed: u64,
    class: WombatKvFailureClass,
    a: Seq<ScheduledFault>,
    b: Seq<ScheduledFault>,
)
    requires
        schedules(seed, class, a),
        schedules(seed, class, b),
    ensures
        a.len() == b.len(),
        forall|i: int|
            0 <= i < a.len() ==> (#[trigger] a[i]).trigger == b[i].trigger && same_event(
                a[i].event,
                b[i].event,
            ),
{
}

proof fn lemma_drawn_bounds(seed: u64, n: nat, lo: u64, hi: u64)
    requires
        lo < hi,
    ensures
        lo <= drawn(seed, n, lo, hi) < hi,
        hi <= 0x1_0000_0000 ==> lo <= drawn32(seed, n, lo, hi) < hi,
{
    let draw = nth_draw(phase_state(seed, 1), n);
    vstd::arithmetic::div_mod::lemma_mod_bound(draw as int, hi - lo);
}

/// Faults strike where their class says: a failing get among the first twenty,
/// a corrupt one among the first ten, a broken chain after its first block, two
/// slow puts close together, a restart after five to thirty operations, a lost
/// sidecar after two puts. Operations are counted from one.
pub proof fn schedule_bounds(seed: u64, class: WombatKvFailureClass, events: Seq<ScheduledFault>)
    requires
        schedules(seed, class, events),
    ensures
        class == WombatKvFailureClass::TransientS3Failure ==> (
        events[0].trigger matches FaultTrigger::AfterS3Get { n } && 1 <= n <= 20),
        class == WombatKvFailureClass::CorruptBlockBytes ==> (
        events[0].trigger matches FaultTrigger::AfterS3Get { n } && 1 <= n <= 10),
        class == WombatKvFailureClass::PartialChainSave ==> (
        events[0].trigger matches FaultTrigger::AfterS3Put { n } && 1 <= n < 8),
        class == WombatKvFailureClass::ConcurrentSameKeySave ==> events.len() == 2 && (
        events[0].trigger matches FaultTrigger::AfterKvOp { n } && 1 <= n < 5) && (
        events[1].trigger matches FaultTrigger::AfterKvOp { n } && 1 <= n < 5),
        class == WombatKvFailureClass::DaemonRestartMidLookup ==> (
        events[0].trigger matches FaultTrigger::AfterKvOp { n } && 5 <= n <= 30),
        class == WombatKvFailureClass::SidecarDriftAfterChain ==> (
        events[0].trigger matches FaultTrigger::AfterS3Put { n } && 2 <= n < 8),
        forall|i: int|
            0 <= i < events.len() ==> (
            (#[trigger] events[i]).trigger matches FaultTrigger::AfterKvOp { n } ==> n >= 1),
{
    lemma_drawn_bounds(seed, 1, 1, 10);
    lemma_drawn_bounds(seed, 1, 3, 15);
    lemma_drawn_bounds(seed, 0, 1, 12);
    lemma_drawn_bounds(seed, 0, 1, 20);
    lemma_drawn_bounds(seed, 0, 1, 10);
    lemma_drawn_bounds(seed, 0, 1, 8);
    lemma_drawn_bounds(seed, 0, 1, 5);
    lemma_drawn_bounds(seed, 2, 1, 5);
    lemma_drawn_bounds(seed, 0, 5, 30);
    lemma_drawn_bounds(seed, 0, 2, 8);
}

/// A plan holds faults of the kind that its class is named for, and no others: a
/// corrupt block only a corrupt get, a partial chain only a death before the chain
/// head, and so on; each strikes at the kind of moment, and with the strength, that
/// the class allows.
#[verifier::spinoff_prover]
#[verifier::rlimit(50)]
pub proof fn schedule_is_of_its_class(
    seed: u64,
    class: WombatKvFailureClass,
    events: Seq<ScheduledFault>,
)
    requires
        schedules(seed, class, events),
    ensures
        events.len() == if class == WombatKvFailureClass::ConcurrentSameKeySave {
            2int
        } else {
            1
        },
        forall|i: int|
            #![trigger events[i]]
            0 <= i < events.len() ==> match class {
                WombatKvFailureClass::TransientS3Failure => {
                    &&& events[i].trigger matches FaultTrigger::AfterS3Get { n }
                    &&& 1 <= n < 20
                    &&& events[i].event matches WombatKvFaultEvent::S3GetFailure { error_kind }
                    &&& error_kind == S3ErrorKind::ServiceUnavail
                },
                WombatKvFailureClass::CorruptBlockBytes => {
                    &&& events[i].trigger matches FaultTrigger::AfterS3Get { n }
                    &&& 1 <= n < 10
                    &&& events[i].event is S3GetCorrupt
                },
                WombatKvFailureClass::PartialChainSave => {
                    &&& events[i].trigger matches FaultTrigger::AfterS3Put { n }
                    &&& 1 <= n < 8
                    &&& events[i].event is KillBeforeChainHead
                },
                WombatKvFailureClass::ConcurrentSameKeySave => {
                    &&& events[i].trigger matches FaultTrigger::AfterKvOp { n }
                    &&& 1 <= n < 5
                    &&& events[i].event matches WombatKvFaultEvent::S3PutLatency { ms }
                    &&& 50 <= ms < 200
                },
                WombatKvFailureClass::DaemonRestartMidLookup => {
                    &&& events[i].trigger matches FaultTrigger::AfterKvOp { n }
                    &&& 5 <= n < 30
                    &&& events[i].event matches WombatKvFaultEvent::DaemonRestart { after_n_ops }
                    &&& 1 <= after_n_ops < 5
                },
                WombatKvFailureClass::SidecarDriftAfterChain => {
                    &&& events[i].trigger matches FaultTrigger::AfterS3Put { n }
                    &&& 2 <= n < 8
                    &&& events[i].event is KillBeforeSidecar
                },
                WombatKvFailureClass::FoyerEvictionMidGet => {
                    &&& events[i].trigger matches FaultTrigger::AfterKvOp { n }
                    &&& 3 <= n < 15
                    &&& events[i].event matches WombatKvFaultEvent::EvictBlockMidLease { block_hash_prefix }
                    &&& block_hash_prefix@.len() == 16
                },
                WombatKvFailureClass::TransportConnectionDropMidRPC => {
                    &&& events[i].trigger matches FaultTrigger::AfterKvOp { n }
                    &&& 1 <= n < 10
                    &&& events[i].event is TransportConnectionDrop
                },
                WombatKvFailureClass::TransportPartialReadOnHeader => {
                    &&& events[i].trigger matches FaultTrigger::AfterKvOp { n }
                    &&& 1 <= n < 10
                    &&& events[i].event matches WombatKvFaultEvent::TransportPartialRead { return_n }
                    &&& 1 <= return_n < 8
                },
                WombatKvFailureClass::TransportSlowWrite => {
                    &&& events[i].trigger matches FaultTrigger::AfterKvOp { n }
                    &&& 1 <= n < 10
                    &&& events[i].event matches WombatKvFaultEvent::TransportSlowWrite { ms }
                    &&& 10 <= ms < 100
                },
                WombatKvFailureClass::WireEnvelopeCorruption => {
                    &&& events[i].trigger matches FaultTrigger::AfterKvOp { n }
                    &&& 1 <= n < 10
                    &&& events[i].event is WireBadEnvelope
                },
                WombatKvFailureClass::OldSidecarV3InBucket => {
                    &&& events[i].trigger matches FaultTrigger::AfterBootstrapMs { ms }
                    &&& 0 <= ms < 50
                    &&& events[i].event matches WombatKvFaultEvent::OldVersionInBucket { which }
                    &&& which == OldVersionKind::SidecarV3
                },
                WombatKvFailureClass::OldBlockV1InBucket => {
                    &&& events[i].trigger matches FaultTrigger::AfterBootstrapMs { ms }
                    &&& 0 <= ms < 50
                    &&& events[i].event matches WombatKvFaultEvent::OldVersionInBucket { which }
                    &&& which == OldVersionKind::BlockV1
                },
                WombatKvFailureClass::SlateDbWriteFailure => {
                    &&& events[i].trigger matches FaultTrigger::AfterKvOp { n }
                    &&& 1 <= n < 12
                    &&& events[i].event matches WombatKvFaultEvent::SlateDbFault { kind }
                    &&& kind == SlateDbFaultKind::WriteFailure
                },
                WombatKvFailureClass::SlateDbManifestCorruption => {
                    &&& events[i].trigger matches FaultTrigger::AfterBootstrapMs { ms }
                    &&& ms == 0
                    &&& events[i].event matches WombatKvFaultEvent::SlateDbFault { kind }
                    &&& kind == SlateDbFaultKind::CorruptManifest
                },
                WombatKvFailureClass::MultiEnginePrefixConflict => {
                    &&& events[i].trigger matches FaultTrigger::AfterKvOp { n }
                    &&& 1 <= n < 5
                    &&& events[i].event is MultiEnginePrefixConflict
                },
                WombatKvFailureClass::DaemonTpcOnlyNoShmClient => {
                    &&& events[i].trigger matches FaultTrigger::AfterBootstrapMs { ms }
                    &&& ms == 0
                    &&& events[i].event is DaemonTpcOnlyNoShmClient
                },
                WombatKvFailureClass::ResourceFdExhaustion => {
                    &&& events[i].trigger matches FaultTrigger::AfterBootstrapMs { ms }
                    &&& ms == 0
                    &&& events[i].event matches WombatKvFaultEvent::ResourceFdLimitTighten { soft_limit }
                    &&& 64 <= soft_limit < 256
                },
                WombatKvFailureClass::ResourceMemoryPressure => {
                    &&& events[i].trigger matches FaultTrigger::AfterKvOp { n }
                    &&& 1 <= n < 10
                    &&& events[i].event matches WombatKvFaultEvent::ResourceMemoryPressure { fail_every_nth_alloc }
                    &&& 50 <= fail_every_nth_alloc < 500
                },
                WombatKvFailureClass::ResourceDiskFull => {
                    &&& events[i].trigger matches FaultTrigger::AfterS3Put { n }
                    &&& 1 <= n < 5
                    &&& events[i].event matches WombatKvFaultEvent::ResourceDiskFull { fail_after_bytes }
                    &&& 1048576 <= fail_after_bytes < 104857600
                },
                WombatKvFailureClass::PlatformShmHidden => {
                    &&& events[i].trigger matches FaultTrigger::AfterBootstrapMs { ms }
                    &&& ms == 0
                    &&& events[i].event is PlatformShmHidden
                },
                WombatKvFailureClass::PlatformIoUringJitter => {
                    &&& events[i].trigger matches FaultTrigger::AfterKvOp { n }
                    &&& 1 <= n < 10
                    &&& events[i].event matches WombatKvFaultEvent::PlatformIoUringJitter { p99_us }
                    &&& 50 <= p99_us < 500
                },
                WombatKvFailureClass::PlatformKqueueOnly => {
                    &&& events[i].trigger matches FaultTrigger::AfterBootstrapMs { ms }
                    &&& ms == 0
                    &&& events[i].event is PlatformKqueueOnly
                },
            },
{
    lemma_drawn_bounds(seed, 0, 1, 20);
    lemma_drawn_bounds(seed, 0, 1, 10);
    lemma_drawn_bounds(seed, 0, 1, 8);
    lemma_drawn_bounds(seed, 0, 1, 5);
    lemma_drawn_bounds(seed, 2, 1, 5);
    lemma_drawn_bounds(seed, 1, 50, 200);
    lemma_drawn_bounds(seed, 3, 50, 200);
    lemma_drawn_bounds(seed, 0, 5, 30);
    lemma_drawn_bounds(seed, 1, 1, 5);
    lemma_drawn_bounds(seed, 0, 2, 8);
    lemma_drawn_bounds(seed, 1, 3, 15);
    lemma_drawn_bounds(seed, 1, 1, 8);
    lemma_drawn_bounds(seed, 1, 10, 100);
    lemma_drawn_bounds(seed, 1, 1, 10);
    lemma_drawn_bounds(seed, 0, 0, 50);
    lemma_drawn_bounds(seed, 0, 1, 12);
    lemma_drawn_bounds(seed, 0, 64, 256);
    lemma_drawn_bounds(seed, 1, 50, 500);
    lemma_drawn_bounds(seed, 1, 1048576, 104857600);
    lemma_hex_padded_len(nth_draw(phase_state(seed, 1), 0) as nat, 16);
}

/// The plan for corrupt blocks damages what a get from the object store returns: it
/// neither delays nor refuses the get.
pub proof fn corrupt_blocks_are_corrupt(seed: u64, events: Seq<ScheduledFault>)
    requires
        schedules(seed, WombatKvFailureClass::CorruptBlockBytes, events),
    ensures
        events.len() == 1,
        events[0].event is S3GetCorrupt,
        events[0].trigger is AfterS3Get,
{
}

/// A plan is drawn from the seed's own stream, one number after the other: each moment
/// and each strength is its smallest value plus what the draw leaves when divided by the
/// number of values, so that every value comes up.
#[verifier::spinoff_prover]
#[verifier::rlimit(50)]
pub proof fn schedule_is_drawn_from_its_stream(
    seed: u64,
    class: WombatKvFailureClass,
    events: Seq<ScheduledFault>,
)
    requires
        schedules(seed, class, events),
    ensures
        ({
            let start = phase_state(seed, 1);
            let first = xorshift(start);
            let second = xorshift(first);
            let third = xorshift(second);
            let fourth = xorshift(third);
            match class {
                WombatKvFailureClass::TransientS3Failure => {
                    &&& events[0].trigger matches FaultTrigger::AfterS3Get { n }
                    &&& n == 1 + first % 19
                },
                WombatKvFailureClass::CorruptBlockBytes => {
                    &&& events[0].trigger matches FaultTrigger::AfterS3Get { n }
                    &&& n == 1 + first % 9
                },
                WombatKvFailureClass::PartialChainSave => {
                    &&& events[0].trigger matches FaultTrigger::AfterS3Put { n }
                    &&& n == 1 + first % 7
                },
                WombatKvFailureClass::ConcurrentSameKeySave => {
                    &&& events[0].trigger matches FaultTrigger::AfterKvOp { n }
                    &&& n == 1 + first % 4
                    &&& events[0].event matches WombatKvFaultEvent::S3PutLatency { ms }
                    &&& ms == 50 + second % 150
                    &&& events[1].trigger matches FaultTrigger::AfterKvOp { n: n_again }
                    &&& n_again == 1 + third % 4
                    &&& events[1].event matches WombatKvFaultEvent::S3PutLatency { ms: ms_again }
                    &&& ms_again == 50 + fourth % 150
                },
                WombatKvFailureClass::DaemonRestartMidLookup => {
                    &&& events[0].trigger matches FaultTrigger::AfterKvOp { n }
                    &&& n == 5 + first % 25
                    &&& events[0].event matches WombatKvFaultEvent::DaemonRestart { after_n_ops }
                    &&& after_n_ops == 1 + second % 4
                },
                WombatKvFailureClass::SidecarDriftAfterChain => {
                    &&& events[0].trigger matches FaultTrigger::AfterS3Put { n }
                    &&& n == 2 + first % 6
                },
                WombatKvFailureClass::FoyerEvictionMidGet => {
                    &&& events[0].trigger matches FaultTrigger::AfterKvOp { n }
                    &&& n == 3 + second % 12
                    &&& events[0].event matches WombatKvFaultEvent::EvictBlockMidLease {
                        block_hash_prefix,
                    }
                    &&& block_hash_prefix@ == hex_padded(first as nat, 16)
                },
                WombatKvFailureClass::TransportConnectionDropMidRPC => {
                    &&& events[0].trigger matches FaultTrigger::AfterKvOp { n }
                    &&& n == 1 + first % 9
                },
                WombatKvFailureClass::TransportPartialReadOnHeader => {
                    &&& events[0].trigger matches FaultTrigger::AfterKvOp { n }
                    &&& n == 1 + first % 9
                    &&& events[0].event matches WombatKvFaultEvent::TransportPartialRead { return_n }
                    &&& return_n == 1 + second % 7
                },
                WombatKvFailureClass::TransportSlowWrite => {
                    &&& events[0].trigger matches FaultTrigger::AfterKvOp { n }
                    &&& n == 1 + first % 9
                    &&& events[0].event matches WombatKvFaultEvent::TransportSlowWrite { ms }
                    &&& ms == 10 + second % 90
                },
                WombatKvFailureClass::WireEnvelopeCorruption => {
                    &&& events[0].trigger matches FaultTrigger::AfterKvOp { n }
                    &&& n == 1 + second % 9
                    &&& events[0].event == (WombatKvFaultEvent::WireBadEnvelope {
                        kind: match first % 5 {
                            0 => WireEnvelopeBadKind::BadMagic,
                            1 => WireEnvelopeBadKind::BadVersion,
                            2 => WireEnvelopeBadKind::BadCRC,
                            3 => WireEnvelopeBadKind::OversizedLen,
                            _ => WireEnvelopeBadKind::TruncatedBody,
                        },
                    })
                },
                WombatKvFailureClass::OldSidecarV3InBucket => {
                    &&& events[0].trigger matches FaultTrigger::AfterBootstrapMs { ms }
                    &&& ms == first % 50
                },
                WombatKvFailureClass::OldBlockV1InBucket => {
                    &&& events[0].trigger matches FaultTrigger::AfterBootstrapMs { ms }
                    &&& ms == first % 50
                },
                WombatKvFailureClass::SlateDbWriteFailure => {
                    &&& events[0].trigger matches FaultTrigger::AfterKvOp { n }
                    &&& n == 1 + first % 11
                },
                WombatKvFailureClass::MultiEnginePrefixConflict => {
                    &&& events[0].trigger matches FaultTrigger::AfterKvOp { n }
                    &&& n == 1 + first % 4
                },
                WombatKvFailureClass::ResourceFdExhaustion => {
                    &&& events[0].event matches WombatKvFaultEvent::ResourceFdLimitTighten { soft_limit }
                    &&& soft_limit == 64 + first % 192
                },
                WombatKvFailureClass::ResourceMemoryPressure => {
                    &&& events[0].trigger matches FaultTrigger::AfterKvOp { n }
                    &&& n == 1 + first % 9
                    &&& events[0].event matches WombatKvFaultEvent::ResourceMemoryPressure { fail_every_nth_alloc }
                    &&& fail_every_nth_alloc == 50 + second % 450
                },
                WombatKvFailureClass::ResourceDiskFull => {
                    &&& events[0].trigger matches FaultTrigger::AfterS3Put { n }
                    &&& n == 1 + first % 4
                    &&& events[0].event matches WombatKvFaultEvent::ResourceDiskFull { fail_after_bytes }
                    &&& fail_after_bytes == 1048576 + second % 103809024
                },
                WombatKvFailureClass::PlatformIoUringJitter => {
                    &&& events[0].trigger matches FaultTrigger::AfterKvOp { n }
                    &&& n == 1 + first % 9
                    &&& events[0].event matches WombatKvFaultEvent::PlatformIoUringJitter { p99_us }
                    &&& p99_us == 50 + second % 450
                },
                _ => true,
            }
        }),
{
    lemma_draws(phase_state(seed, 1));
    lemma_drawn_bounds(seed, 0, 1, 20);
    lemma_drawn_bounds(seed, 0, 1, 10);
    lemma_drawn_bounds(seed, 0, 1, 8);
    lemma_drawn_bounds(seed, 0, 1, 5);
    lemma_drawn_bounds(seed, 1, 50, 200);
    lemma_drawn_bounds(seed, 2, 1, 5);
    lemma_drawn_bounds(seed, 3, 50, 200);
    lemma_drawn_bounds(seed, 0, 5, 30);
    lemma_drawn_bounds(seed, 1, 1, 5);
    lemma_drawn_bounds(seed, 0, 2, 8);
    lemma_drawn_bounds(seed, 1, 3, 15);
    lemma_drawn_bounds(seed, 1, 1, 8);
    lemma_drawn_bounds(seed, 1, 10, 100);
    lemma_drawn_bounds(seed, 1, 1, 10);
    lemma_drawn_bounds(seed, 0, 0, 50);
    lemma_drawn_bounds(seed, 0, 1, 12);
    lemma_drawn_bounds(seed, 0, 64, 256);
    lemma_drawn_bounds(seed, 1, 50, 500);
    lemma_drawn_bounds(seed, 1, 1048576, 104857600);
    lemma_drawn_bounds(seed, 0, 0, 5);
}

/// Whether a seed schedules an envelope broken in the given way.
pub open spec fn schedules_bad_kind(seed: u64, kind: WireEnvelopeBadKind) -> bool {
    forall|events: Seq<ScheduledFault>| #[trigger]
        schedules(seed, WombatKvFailureClass::WireEnvelopeCorruption, events) ==> events.len() == 1
            && events[0].event == (WombatKvFaultEvent::WireBadEnvelope { kind })
}

/// Every way to break an envelope is scheduled for some seed.
pub proof fn every_bad_kind_is_scheduled(kind: WireEnvelopeBadKind)
    ensures
        exists|seed: u64| #[trigger] schedules_bad_kind(seed, kind),
{
    let seed: u64 = match kind {
        WireEnvelopeBadKind::BadMagic => 0x9e37_79b9_7f4a_7c10,
        WireEnvelopeBadKind::BadVersion => 0x9e37_79b9_7f4a_7c14,
        WireEnvelopeBadKind::BadCRC => 0x9e37_79b9_7f4a_7c17,
        WireEnvelopeBadKind::OversizedLen => 0x9e37_79b9_7f4a_7c16,
        WireEnvelopeBadKind::TruncatedBody => 0x9e37_79b9_7f4a_7c11,
    };
    let state: u64 = match kind {
        WireEnvelopeBadKind::BadMagic => 5,
        WireEnvelopeBadKind::BadVersion => 1,
        WireEnvelopeBadKind::BadCRC => 2,
        WireEnvelopeBadKind::OversizedLen => 3,
        WireEnvelopeBadKind::TruncatedBody => 4,
    };
    assert(wrapped_product(1, PHASE_MIX) == PHASE_MIX);
    assert(0x9e37_79b9_7f4a_7c10u64 ^ 0x9e37_79b9_7f4a_7c15u64 == 5
        && 0x9e37_79b9_7f4a_7c14u64 ^ 0x9e37_79b9_7f4a_7c15u64 == 1
        && 0x9e37_79b9_7f4a_7c17u64 ^ 0x9e37_79b9_7f4a_7c15u64 == 2
        && 0x9e37_79b9_7f4a_7c16u64 ^ 0x9e37_79b9_7f4a_7c15u64 == 3
        && 0x9e37_79b9_7f4a_7c11u64 ^ 0x9e37_79b9_7f4a_7c15u64 == 4) by (bit_vector);
    assert(xorshift(5) == 0x1428aa145
        && xorshift(1) == 0x40822041
        && xorshift(2) == 0x81044082
        && xorshift(3) == 0xc18660c3
        && xorshift(4) == 0x102088104) by (bit_vector);
    assert(phase_state(seed, 1) == state);
    assert(nth_draw(state, 0) == xorshift(state));
    assert(kind == bad_kind_at(drawn(seed, 0, 0, 5)));
    assert(schedules_bad_kind(seed, kind));
}

} // verus!

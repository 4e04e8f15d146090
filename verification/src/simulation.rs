//! Simulated runs: a fixed sequence of writes under a fault plan, against the
//! model alone and against the model and a store side by side.

use vstd::prelude::*;
use vstd::set_lib::{lemma_int_range, set_int_range};
use vstd::utf8::{encode_utf8, encode_utf8_decode_utf8};

use crate::config::env_number_or;
use crate::dst_plan::{
    advance_op, any_suppresses, clear, is_put_suppressed, put_faults_suppress, set_plan, strikes,
    strikes_at, PlanState,
};
use crate::fault::{
    class_text, event_debug, put_suppressing, schedules, FaultPlan, FaultTrigger, OldVersionKind,
    ScheduledFault, SlateDbFaultKind, WombatKvFailureClass, WombatKvFaultEvent,
};
use crate::le::{copy_bytes, same_bytes};
use crate::oracle::{
    all_parts, composite, composite_parts, no_separator, pair_texts, parts_of, stored,
    OracleGetOutcome, WombatKvOracle,
};
use crate::sorted::{ascending, entry_keys, lemma_ascending_distinct, TextMap};
use crate::text::{
    chars_of, debug_of, debug_text, dec_padded, entry_map, lemma_entry_map, lemma_padded_value,
    parse_uint, push_dec_padded, same_text, text_opt, texts,
};

verus! {

// ---- scenario names ----

/// A scenario, as it is named on the command line.
#[derive(Debug, Clone, Copy, PartialEq, Eq, Structural)]
pub enum ClassArg {
    TransientS3,
    CorruptBlock,
    PartialChain,
    ConcurrentSave,
    DaemonRestart,
    SidecarDrift,
    FoyerEviction,
    TransportDrop,
    TransportPartialRead,
    TransportSlowWrite,
    WireEnvelopeCorruption,
    OldSidecarV3,
    OldBlockV1,
    SlateDbWriteFailure,
    SlateDbManifestCorruption,
    MultiEnginePrefixConflict,
    DaemonTpcOnlyNoShmClient,
    ResourceFdExhaustion,
    ResourceMemoryPressure,
    ResourceDiskFull,
    PlatformShmHidden,
    PlatformIoUringJitter,
    PlatformKqueueOnly,
}

/// The class that a scenario stands for.
pub open spec fn class_of(arg: ClassArg) -> WombatKvFailureClass {
    match arg {
        ClassArg::TransientS3 => WombatKvFailureClass::TransientS3Failure,
        ClassArg::CorruptBlock => WombatKvFailureClass::CorruptBlockBytes,
        ClassArg::PartialChain => WombatKvFailureClass::PartialChainSave,
        ClassArg::ConcurrentSave => WombatKvFailureClass::ConcurrentSameKeySave,
        ClassArg::DaemonRestart => WombatKvFailureClass::DaemonRestartMidLookup,
        ClassArg::SidecarDrift => WombatKvFailureClass::SidecarDriftAfterChain,
        ClassArg::FoyerEviction => WombatKvFailureClass::FoyerEvictionMidGet,
        ClassArg::TransportDrop => WombatKvFailureClass::TransportConnectionDropMidRPC,
        ClassArg::TransportPartialRead => WombatKvFailureClass::TransportPartialReadOnHeader,
        ClassArg::TransportSlowWrite => WombatKvFailureClass::TransportSlowWrite,
        ClassArg::WireEnvelopeCorruption => WombatKvFailureClass::WireEnvelopeCorruption,
        ClassArg::OldSidecarV3 => WombatKvFailureClass::OldSidecarV3InBucket,
        ClassArg::OldBlockV1 => WombatKvFailureClass::OldBlockV1InBucket,
        ClassArg::SlateDbWriteFailure => WombatKvFailureClass::SlateDbWriteFailure,
        ClassArg::SlateDbManifestCorruption => WombatKvFailureClass::SlateDbManifestCorruption,
        ClassArg::MultiEnginePrefixConflict => WombatKvFailureClass::MultiEnginePrefixConflict,
        ClassArg::DaemonTpcOnlyNoShmClient => WombatKvFailureClass::DaemonTpcOnlyNoShmClient,
        ClassArg::ResourceFdExhaustion => WombatKvFailureClass::ResourceFdExhaustion,
        ClassArg::ResourceMemoryPressure => WombatKvFailureClass::ResourceMemoryPressure,
        ClassArg::ResourceDiskFull => WombatKvFailureClass::ResourceDiskFull,
        ClassArg::PlatformShmHidden => WombatKvFailureClass::PlatformShmHidden,
        ClassArg::PlatformIoUringJitter => WombatKvFailureClass::PlatformIoUringJitter,
        ClassArg::PlatformKqueueOnly => WombatKvFailureClass::PlatformKqueueOnly,
    }
}

/// The name of a scenario on the command line.
pub open spec fn arg_text(arg: ClassArg) -> Seq<char> {
    match arg {
        ClassArg::TransientS3 => "transient_s3"@,
        ClassArg::CorruptBlock => "corrupt_block"@,
        ClassArg::PartialChain => "partial_chain"@,
        ClassArg::ConcurrentSave => "concurrent_save"@,
        ClassArg::DaemonRestart => "daemon_restart"@,
        ClassArg::SidecarDrift => "sidecar_drift"@,
        ClassArg::FoyerEviction => "foyer_eviction"@,
        ClassArg::TransportDrop => "transport_drop"@,
        ClassArg::TransportPartialRead => "transport_partial_read"@,
        ClassArg::TransportSlowWrite => "transport_slow_write"@,
        ClassArg::WireEnvelopeCorruption => "wire_envelope_corruption"@,
        ClassArg::OldSidecarV3 => "old_sidecar_v3"@,
        ClassArg::OldBlockV1 => "old_block_v1"@,
        ClassArg::SlateDbWriteFailure => "slate_db_write_failure"@,
        ClassArg::SlateDbManifestCorruption => "slate_db_manifest_corruption"@,
        ClassArg::MultiEnginePrefixConflict => "multi_engine_prefix_conflict"@,
        ClassArg::DaemonTpcOnlyNoShmClient => "daemon_tpc_only_no_shm_client"@,
        ClassArg::ResourceFdExhaustion => "resource_fd_exhaustion"@,
        ClassArg::ResourceMemoryPressure => "resource_memory_pressure"@,
        ClassArg::ResourceDiskFull => "resource_disk_full"@,
        ClassArg::PlatformShmHidden => "platform_shm_hidden"@,
        ClassArg::PlatformIoUringJitter => "platform_io_uring_jitter"@,
        ClassArg::PlatformKqueueOnly => "platform_kqueue_only"@,
    }
}

impl ClassArg {
    /// The class that the scenario stands for.
    pub fn class(self) -> (class: WombatKvFailureClass)
        ensures
            class == class_of(self),
    {
        match self {
            ClassArg::TransientS3 => WombatKvFailureClass::TransientS3Failure,
            ClassArg::CorruptBlock => WombatKvFailureClass::CorruptBlockBytes,
            ClassArg::PartialChain => WombatKvFailureClass::PartialChainSave,
            ClassArg::ConcurrentSave => WombatKvFailureClass::ConcurrentSameKeySave,
            ClassArg::DaemonRestart => WombatKvFailureClass::DaemonRestartMidLookup,
            ClassArg::SidecarDrift => WombatKvFailureClass::SidecarDriftAfterChain,
            ClassArg::FoyerEviction => WombatKvFailureClass::FoyerEvictionMidGet,
            ClassArg::TransportDrop => WombatKvFailureClass::TransportConnectionDropMidRPC,
            ClassArg::TransportPartialRead => WombatKvFailureClass::TransportPartialReadOnHeader,
            ClassArg::TransportSlowWrite => WombatKvFailureClass::TransportSlowWrite,
            ClassArg::WireEnvelopeCorruption => WombatKvFailureClass::WireEnvelopeCorruption,
            ClassArg::OldSidecarV3 => WombatKvFailureClass::OldSidecarV3InBucket,
            ClassArg::OldBlockV1 => WombatKvFailureClass::OldBlockV1InBucket,
            ClassArg::SlateDbWriteFailure => WombatKvFailureClass::SlateDbWriteFailure,
            ClassArg::SlateDbManifestCorruption => WombatKvFailureClass::SlateDbManifestCorruption,
            ClassArg::MultiEnginePrefixConflict => WombatKvFailureClass::MultiEnginePrefixConflict,
            ClassArg::DaemonTpcOnlyNoShmClient => WombatKvFailureClass::DaemonTpcOnlyNoShmClient,
            ClassArg::ResourceFdExhaustion => WombatKvFailureClass::ResourceFdExhaustion,
            ClassArg::ResourceMemoryPressure => WombatKvFailureClass::ResourceMemoryPressure,
            ClassArg::ResourceDiskFull => WombatKvFailureClass::ResourceDiskFull,
            ClassArg::PlatformShmHidden => WombatKvFailureClass::PlatformShmHidden,
            ClassArg::PlatformIoUringJitter => WombatKvFailureClass::PlatformIoUringJitter,
            ClassArg::PlatformKqueueOnly => WombatKvFailureClass::PlatformKqueueOnly,
        }
    }

    /// The name of the scenario on the command line.
    pub fn name(self) -> (name: &'static str)
        ensures
            name@ == arg_text(self),
    {
        match self {
            ClassArg::TransientS3 => "transient_s3",
            ClassArg::CorruptBlock => "corrupt_block",
            ClassArg::PartialChain => "partial_chain",
            ClassArg::ConcurrentSave => "concurrent_save",
            ClassArg::DaemonRestart => "daemon_restart",
            ClassArg::SidecarDrift => "sidecar_drift",
            ClassArg::FoyerEviction => "foyer_eviction",
            ClassArg::TransportDrop => "transport_drop",
            ClassArg::TransportPartialRead => "transport_partial_read",
            ClassArg::TransportSlowWrite => "transport_slow_write",
            ClassArg::WireEnvelopeCorruption => "wire_envelope_corruption",
            ClassArg::OldSidecarV3 => "old_sidecar_v3",
            ClassArg::OldBlockV1 => "old_block_v1",
            ClassArg::SlateDbWriteFailure => "slate_db_write_failure",
            ClassArg::SlateDbManifestCorruption => "slate_db_manifest_corruption",
            ClassArg::MultiEnginePrefixConflict => "multi_engine_prefix_conflict",
            ClassArg::DaemonTpcOnlyNoShmClient => "daemon_tpc_only_no_shm_client",
            ClassArg::ResourceFdExhaustion => "resource_fd_exhaustion",
            ClassArg::ResourceMemoryPressure => "resource_memory_pressure",
            ClassArg::ResourceDiskFull => "resource_disk_full",
            ClassArg::PlatformShmHidden => "platform_shm_hidden",
            ClassArg::PlatformIoUringJitter => "platform_io_uring_jitter",
            ClassArg::PlatformKqueueOnly => "platform_kqueue_only",
        }
    }

    /// All scenarios.
    pub fn all() -> (args: Vec<ClassArg>)
        ensures
            args@ == all_args(),
    {
        let mut args: Vec<ClassArg> = Vec::new();
        args.push(ClassArg::TransientS3);
        args.push(ClassArg::CorruptBlock);
        args.push(ClassArg::PartialChain);
        args.push(ClassArg::ConcurrentSave);
        args.push(ClassArg::DaemonRestart);
        args.push(ClassArg::SidecarDrift);
        args.push(ClassArg::FoyerEviction);
        args.push(ClassArg::TransportDrop);
        args.push(ClassArg::TransportPartialRead);
        args.push(ClassArg::TransportSlowWrite);
        args.push(ClassArg::WireEnvelopeCorruption);
        args.push(ClassArg::OldSidecarV3);
        args.push(ClassArg::OldBlockV1);
        args.push(ClassArg::SlateDbWriteFailure);
        args.push(ClassArg::SlateDbManifestCorruption);
        args.push(ClassArg::MultiEnginePrefixConflict);
        args.push(ClassArg::DaemonTpcOnlyNoShmClient);
        args.push(ClassArg::ResourceFdExhaustion);
        args.push(ClassArg::ResourceMemoryPressure);
        args.push(ClassArg::ResourceDiskFull);
        args.push(ClassArg::PlatformShmHidden);
        args.push(ClassArg::PlatformIoUringJitter);
        args.push(ClassArg::PlatformKqueueOnly);
        assert(args@ =~= all_args());
        args
    }

    /// The scenario with a name.
    pub fn from_name(name: &str) -> (arg: Option<ClassArg>)
        ensures
            match arg {
                Some(a) => arg_text(a) == name@,
                None => forall|a: ClassArg| #[trigger] arg_text(a) != name@,
            },
    {
        let args = ClassArg::all();
        let mut i: usize = 0;
        while i < args.len()
            invariant
                i <= args@.len(),
                args@ == all_args(),
                forall|j: int| 0 <= j < i ==> arg_text(#[trigger] args@[j]) != name@,
            decreases args@.len() - i,
        {
            if same_text(args[i].name(), name) {
                return Some(args[i]);
            }
            i = i + 1;
        }
        proof {
            assert forall|a: ClassArg| #[trigger] arg_text(a) != name@ by {
                lemma_all_args(a);
            }
        }
        None
    }
}

/// All scenarios, in their order.
pub open spec fn all_args() -> Seq<ClassArg> {
    seq![
        ClassArg::TransientS3,
        ClassArg::CorruptBlock,
        ClassArg::PartialChain,
        ClassArg::ConcurrentSave,
        ClassArg::DaemonRestart,
        ClassArg::SidecarDrift,
        ClassArg::FoyerEviction,
        ClassArg::TransportDrop,
        ClassArg::TransportPartialRead,
        ClassArg::TransportSlowWrite,
        ClassArg::WireEnvelopeCorruption,
        ClassArg::OldSidecarV3,
        ClassArg::OldBlockV1,
        ClassArg::SlateDbWriteFailure,
        ClassArg::SlateDbManifestCorruption,
        ClassArg::MultiEnginePrefixConflict,
        ClassArg::DaemonTpcOnlyNoShmClient,
        ClassArg::ResourceFdExhaustion,
        ClassArg::ResourceMemoryPressure,
        ClassArg::ResourceDiskFull,
        ClassArg::PlatformShmHidden,
        ClassArg::PlatformIoUringJitter,
        ClassArg::PlatformKqueueOnly,
    ]
}

proof fn lemma_all_args(arg: ClassArg)
    ensures
        exists|i: int| 0 <= i < all_args().len() && #[trigger] all_args()[i] == arg,
{
    let all = all_args();
    match arg {
        ClassArg::TransientS3 => {
            assert(all[0] == arg);
        },
        ClassArg::CorruptBlock => {
            assert(all[1] == arg);
        },
        ClassArg::PartialChain => {
            assert(all[2] == arg);
        },
        ClassArg::ConcurrentSave => {
            assert(all[3] == arg);
        },
        ClassArg::DaemonRestart => {
            assert(all[4] == arg);
        },
        ClassArg::SidecarDrift => {
            assert(all[5] == arg);
        },
        ClassArg::FoyerEviction => {
            assert(all[6] == arg);
        },
        ClassArg::TransportDrop => {
            assert(all[7] == arg);
        },
        ClassArg::TransportPartialRead => {
            assert(all[8] == arg);
        },
        ClassArg::TransportSlowWrite => {
            assert(all[9] == arg);
        },
        ClassArg::WireEnvelopeCorruption => {
            assert(all[10] == arg);
        },
        ClassArg::OldSidecarV3 => {
            assert(all[11] == arg);
        },
        ClassArg::OldBlockV1 => {
            assert(all[12] == arg);
        },
        ClassArg::SlateDbWriteFailure => {
            assert(all[13] == arg);
        },
        ClassArg::SlateDbManifestCorruption => {
            assert(all[14] == arg);
        },
        ClassArg::MultiEnginePrefixConflict => {
            assert(all[15] == arg);
        },
        ClassArg::DaemonTpcOnlyNoShmClient => {
            assert(all[16] == arg);
        },
        ClassArg::ResourceFdExhaustion => {
            assert(all[17] == arg);
        },
        ClassArg::ResourceMemoryPressure => {
            assert(all[18] == arg);
        },
        ClassArg::ResourceDiskFull => {
            assert(all[19] == arg);
        },
        ClassArg::PlatformShmHidden => {
            assert(all[20] == arg);
        },
        ClassArg::PlatformIoUringJitter => {
            assert(all[21] == arg);
        },
        ClassArg::PlatformKqueueOnly => {
            assert(all[22] == arg);
        },
    }
}

/// A scenario named after a kind of fault schedules faults of that kind and no others,
/// whatever the seed.
pub proof fn scenario_schedules_its_faults(
    arg: ClassArg,
    seed: u64,
    events: Seq<ScheduledFault>,
    i: int,
)
    requires
        schedules(seed, class_of(arg), events),
        0 <= i < events.len(),
    ensures
        match arg {
            ClassArg::TransientS3 => events[i].event is S3GetFailure,
            ClassArg::CorruptBlock => events[i].event is S3GetCorrupt,
            ClassArg::PartialChain => events[i].event is KillBeforeChainHead,
            ClassArg::ConcurrentSave => events[i].event is S3PutLatency,
            ClassArg::DaemonRestart => events[i].event is DaemonRestart,
            ClassArg::SidecarDrift => events[i].event is KillBeforeSidecar,
            ClassArg::FoyerEviction => events[i].event is EvictBlockMidLease,
            ClassArg::TransportDrop => events[i].event is TransportConnectionDrop,
            ClassArg::TransportPartialRead => events[i].event is TransportPartialRead,
            ClassArg::TransportSlowWrite => events[i].event is TransportSlowWrite,
            ClassArg::WireEnvelopeCorruption => events[i].event is WireBadEnvelope,
            ClassArg::OldSidecarV3 => events[i].event
                == (WombatKvFaultEvent::OldVersionInBucket { which: OldVersionKind::SidecarV3 }),
            ClassArg::OldBlockV1 => events[i].event == (WombatKvFaultEvent::OldVersionInBucket {
                which: OldVersionKind::BlockV1,
            }),
            ClassArg::SlateDbWriteFailure => events[i].event == (WombatKvFaultEvent::SlateDbFault {
                kind: SlateDbFaultKind::WriteFailure,
            }),
            ClassArg::SlateDbManifestCorruption => events[i].event
                == (WombatKvFaultEvent::SlateDbFault { kind: SlateDbFaultKind::CorruptManifest }),
            ClassArg::MultiEnginePrefixConflict => events[i].event is MultiEnginePrefixConflict,
            ClassArg::DaemonTpcOnlyNoShmClient => events[i].event is DaemonTpcOnlyNoShmClient,
            ClassArg::ResourceFdExhaustion => events[i].event is ResourceFdLimitTighten,
            ClassArg::ResourceMemoryPressure => events[i].event is ResourceMemoryPressure,
            ClassArg::ResourceDiskFull => events[i].event is ResourceDiskFull,
            ClassArg::PlatformShmHidden => events[i].event is PlatformShmHidden,
            ClassArg::PlatformIoUringJitter => events[i].event is PlatformIoUringJitter,
            ClassArg::PlatformKqueueOnly => events[i].event is PlatformKqueueOnly,
        },
{
}

// ---- operations ----

/// The key of an operation.
pub open spec fn op_key_text(op: nat) -> Seq<char> {
    "k"@ + dec_padded(op, 2)
}

/// The value of an operation.
pub open spec fn op_value_bytes(op: nat) -> Seq<u8> {
    encode_utf8("v"@ + dec_padded(op, 2))
}

fn op_key(op: u32) -> (key: String)
    ensures
        key@ == op_key_text(op as nat),
{
    let mut key = String::new();
    key.push_str("k");
    push_dec_padded(&mut key, op as u128, 2);
    assert(key@ =~= op_key_text(op as nat));
    key
}

fn op_value(op: u32) -> (value: Vec<u8>)
    ensures
        value@ == op_value_bytes(op as nat),
{
    let mut text = String::new();
    text.push_str("v");
    push_dec_padded(&mut text, op as u128, 2);
    assert(text@ =~= "v"@ + dec_padded(op as nat, 2));
    copy_bytes(text.as_str().as_bytes())
}

/// Operations have different keys.
pub proof fn op_keys_differ(a: nat, b: nat)
    requires
        op_key_text(a) == op_key_text(b),
    ensures
        a == b,
{
    reveal_strlit("k");
    assert(op_key_text(a).skip(1) =~= dec_padded(a, 2));
    assert(op_key_text(b).skip(1) =~= dec_padded(b, 2));
    lemma_padded_value(a, 2);
    lemma_padded_value(b, 2);
}

/// Operations have different values.
pub proof fn op_values_differ(a: nat, b: nat)
    requires
        op_value_bytes(a) == op_value_bytes(b),
    ensures
        a == b,
{
    reveal_strlit("v");
    encode_utf8_decode_utf8("v"@ + dec_padded(a, 2));
    encode_utf8_decode_utf8("v"@ + dec_padded(b, 2));
    assert(("v"@ + dec_padded(a, 2)).skip(1) =~= dec_padded(a, 2));
    assert(("v"@ + dec_padded(b, 2)).skip(1) =~= dec_padded(b, 2));
    lemma_padded_value(a, 2);
    lemma_padded_value(b, 2);
}

// ---- fired faults ----

/// A fault that struck.
#[derive(Debug)]
pub struct FiredEvent {
    pub op_n: u32,
    pub event_idx: usize,
    pub event_debug: String,
    pub action: String,
}

/// The contents of a [`FiredEvent`].
#[verifier::ext_equal]
pub struct FiredFields {
    pub op_n: nat,
    pub event_idx: nat,
    pub event_debug: Seq<char>,
    pub action: Seq<char>,
}

impl View for FiredEvent {
    type V = FiredFields;

    open spec fn view(&self) -> FiredFields {
        FiredFields {
            op_n: self.op_n as nat,
            event_idx: self.event_idx as nat,
            event_debug: self.event_debug@,
            action: self.action@,
        }
    }
}

/// The contents of fired faults.
pub open spec fn fired_fields(list: Seq<FiredEvent>) -> Seq<FiredFields> {
    list.map_values(|f: FiredEvent| f@)
}

/// The scheduled faults below `upto` that strike at an operation, and what each
/// does to a write.
pub open spec fn fired_at(events: Seq<ScheduledFault>, op: nat, upto: nat) -> Seq<FiredFields>
    decreases upto,
{
    if upto == 0 {
        Seq::empty()
    } else {
        let before = fired_at(events, op, (upto - 1) as nat);
        let scheduled = events[upto - 1];
        if strikes(scheduled, op) {
            before.push(
                FiredFields {
                    op_n: op,
                    event_idx: (upto - 1) as nat,
                    event_debug: event_debug(scheduled.event),
                    action: if put_suppressing(scheduled.event) {
                        "suppress_put"@
                    } else {
                        "noop_logged"@
                    },
                },
            )
        } else {
            before
        }
    }
}

/// The faults that strike in the first operations.
pub open spec fn fired_in(events: Seq<ScheduledFault>, ops: nat) -> Seq<FiredFields>
    decreases ops,
{
    if ops == 0 {
        Seq::empty()
    } else {
        fired_in(events, (ops - 1) as nat) + fired_at(events, (ops - 1) as nat, events.len())
    }
}

/// Note the faults that strike at an operation; whether any of them keeps the
/// write from being stored.
fn note_fired(events: &Vec<ScheduledFault>, op: u32, fired: &mut Vec<FiredEvent>) -> (suppress:
    bool)
    requires
        op < u32::MAX,
    ensures
        fired_fields(final(fired)@) == fired_fields(old(fired)@) + fired_at(
            events@,
            op as nat,
            events@.len(),
        ),
        suppress == any_suppresses(events@, op as nat),
{
    let mut suppress: bool = false;
    let mut i: usize = 0;
    assert(fired_fields(fired@) + fired_at(events@, op as nat, 0) =~= fired_fields(fired@));
    while i < events.len()
        invariant
            i <= events@.len(),
            op < u32::MAX,
            fired_fields(fired@) == fired_fields(old(fired)@) + fired_at(
                events@,
                op as nat,
                i as nat,
            ),
            suppress == exists|j: int|
                0 <= j < i && strikes(#[trigger] events@[j], op as nat) && put_suppressing(
                    events@[j].event,
                ),
        decreases events@.len() - i,
    {
        let ghost before = fired@;
        if strikes_at(&events[i], op) {
            let suppressing: bool = events[i].event.suppresses_put();
            let action: String = if suppressing {
                "suppress_put".to_owned()
            } else {
                "noop_logged".to_owned()
            };
            let entry = FiredEvent {
                op_n: op,
                event_idx: i,
                event_debug: events[i].event.to_debug(),
                action,
            };
            fired.push(entry);
            if suppressing {
                suppress = true;
            }
            proof {
                assert(fired_fields(fired@) =~= fired_fields(before).push(entry@));
                assert(fired_fields(fired@) =~= fired_fields(old(fired)@) + fired_at(
                    events@,
                    op as nat,
                    (i + 1) as nat,
                ));
                assert(strikes(events@[i as int], op as nat));
            }
        }
        i = i + 1;
    }
    suppress
}

// ---- a run against the model ----

/// What a run against the model comes to.
#[derive(Debug)]
pub struct SyntheticRun {
    pub ops: u32,
    pub oracle_size: usize,
    pub ops_observed: u64,
    pub fired: Vec<FiredEvent>,
    pub suppressed_writes: u32,
}

/// The number of operations of a run against the model.
pub const SYNTHETIC_OPS: u32 = 20;

/// How many of the first operations had their writes suppressed.
pub open spec fn suppressed_in(events: Seq<ScheduledFault>, ops: nat) -> nat
    decreases ops,
{
    if ops == 0 {
        0
    } else {
        suppressed_in(events, (ops - 1) as nat) + if any_suppresses(events, (ops - 1) as nat) {
            1nat
        } else {
            0
        }
    }
}

/// A run counts as suppressed the operations at which a failing put, a slow one, or a
/// death before the chain head or the sidecar strikes, each once, however many strike
/// there.
pub proof fn suppressed_are_the_struck(events: Seq<ScheduledFault>, ops: nat)
    ensures
        suppressed_in(events, ops) == set_int_range(0, ops as int).filter(
            |op: int|
                exists|i: int|
                    {
                        &&& 0 <= i < events.len()
                        &&& (#[trigger] events[i]).trigger matches FaultTrigger::AfterKvOp { n }
                        &&& n == op + 1
                        &&& match events[i].event {
                            WombatKvFaultEvent::S3PutFailure { .. } => true,
                            WombatKvFaultEvent::S3PutLatency { .. } => true,
                            WombatKvFaultEvent::KillBeforeChainHead => true,
                            WombatKvFaultEvent::KillBeforeSidecar => true,
                            _ => false,
                        }
                    },
        ).len(),
    decreases ops,
{
    let struck = |op: int|
        exists|i: int|
            {
                &&& 0 <= i < events.len()
                &&& (#[trigger] events[i]).trigger matches FaultTrigger::AfterKvOp { n }
                &&& n == op + 1
                &&& match events[i].event {
                    WombatKvFaultEvent::S3PutFailure { .. } => true,
                    WombatKvFaultEvent::S3PutLatency { .. } => true,
                    WombatKvFaultEvent::KillBeforeChainHead => true,
                    WombatKvFaultEvent::KillBeforeSidecar => true,
                    _ => false,
                }
            };
    let all = set_int_range(0, ops as int).filter(struck);
    lemma_int_range(0, ops as int);
    if ops == 0 {
        assert(all =~= Set::empty());
    } else {
        let last = (ops - 1) as nat;
        let before = set_int_range(0, last as int).filter(struck);
        suppressed_are_the_struck(events, last);
        lemma_int_range(0, last as int);
        put_faults_suppress(events, last);
        assert(struck(last as int) == any_suppresses(events, last));
        if any_suppresses(events, last) {
            assert(all =~= before.insert(last as int));
        } else {
            assert(all =~= before);
        }
    }
}

/// The faults that struck are listed by operation and, within one, in the order of the
/// plan. Each is one that the plan schedules for that operation, with its fault, and is
/// said to suppress the put if and only if it is a failing put, a slow one, or a death
/// before the chain head or the sidecar.
pub proof fn fired_are_the_scheduled(events: Seq<ScheduledFault>, ops: nat)
    ensures
        forall|a: int|
            0 <= a < fired_in(events, ops).len() ==> {
                let fired = #[trigger] fired_in(events, ops)[a];
                let scheduled = events[fired.event_idx as int];
                &&& fired.op_n < ops
                &&& fired.event_idx < events.len()
                &&& scheduled.trigger matches FaultTrigger::AfterKvOp { n }
                &&& n == fired.op_n + 1
                &&& fired.event_debug == event_debug(scheduled.event)
                &&& fired.action == match scheduled.event {
                    WombatKvFaultEvent::S3PutFailure { .. } => "suppress_put"@,
                    WombatKvFaultEvent::S3PutLatency { .. } => "suppress_put"@,
                    WombatKvFaultEvent::KillBeforeChainHead => "suppress_put"@,
                    WombatKvFaultEvent::KillBeforeSidecar => "suppress_put"@,
                    _ => "noop_logged"@,
                }
            },
        forall|a: int, b: int|
            #![trigger fired_in(events, ops)[a], fired_in(events, ops)[b]]
            0 <= a < b < fired_in(events, ops).len() ==> {
                let x = fired_in(events, ops)[a];
                let y = fired_in(events, ops)[b];
                x.op_n < y.op_n || (x.op_n == y.op_n && x.event_idx < y.event_idx)
            },
    decreases ops,
{
    if ops > 0 {
        let last = (ops - 1) as nat;
        fired_are_the_scheduled(events, last);
        lemma_fired_at(events, last, events.len());
        let before = fired_in(events, last);
        let now = fired_at(events, last, events.len());
        let all = fired_in(events, ops);
        assert(all == before + now);
        assert forall|a: int| 0 <= a < all.len() implies #[trigger] all[a] == (if a
            < before.len() {
            before[a]
        } else {
            now[a - before.len()]
        }) by {}
    }
}

/// Every fault that the plan schedules for an operation of the run is listed.
pub proof fn scheduled_are_fired(events: Seq<ScheduledFault>, ops: nat, i: int, op: nat)
    requires
        0 <= i < events.len(),
        op < ops,
        events[i].trigger matches FaultTrigger::AfterKvOp { n } && n == op + 1,
    ensures
        exists|a: int|
            0 <= a < fired_in(events, ops).len() && (#[trigger] fired_in(events, ops)[a]).op_n == op
                && fired_in(events, ops)[a].event_idx == i,
    decreases ops,
{
    let last = (ops - 1) as nat;
    let before = fired_in(events, last);
    let now = fired_at(events, last, events.len());
    let all = fired_in(events, ops);
    if op == last {
        lemma_fires(events, op, events.len(), i);
        let a = choose|a: int| 0 <= a < now.len() && (#[trigger] now[a]).event_idx == i;
        lemma_fired_at(events, last, events.len());
        assert(all[before.len() + a] == now[a]);
    } else {
        scheduled_are_fired(events, last, i, op);
        let a = choose|a: int|
            0 <= a < before.len() && (#[trigger] before[a]).op_n == op && before[a].event_idx == i;
        assert(all[a] == before[a]);
    }
}

proof fn lemma_fires(events: Seq<ScheduledFault>, op: nat, upto: nat, i: int)
    requires
        0 <= i < upto <= events.len(),
        strikes(events[i], op),
    ensures
        exists|a: int|
            0 <= a < fired_at(events, op, upto).len() && (#[trigger] fired_at(events, op, upto)[a]).event_idx
                == i,
    decreases upto,
{
    let before = fired_at(events, op, (upto - 1) as nat);
    let all = fired_at(events, op, upto);
    if i == upto - 1 {
        assert(all[before.len() as int].event_idx == i);
    } else {
        lemma_fires(events, op, (upto - 1) as nat, i);
        let a = choose|a: int| 0 <= a < before.len() && (#[trigger] before[a]).event_idx == i;
        assert(all[a] == before[a]);
    }
}

proof fn lemma_fired_at(events: Seq<ScheduledFault>, op: nat, upto: nat)
    requires
        upto <= events.len(),
    ensures
        forall|a: int|
            0 <= a < fired_at(events, op, upto).len() ==> {
                let fired = #[trigger] fired_at(events, op, upto)[a];
                let scheduled = events[fired.event_idx as int];
                &&& fired.op_n == op
                &&& fired.event_idx < upto
                &&& strikes(scheduled, op)
                &&& fired.event_debug == event_debug(scheduled.event)
                &&& fired.action == if put_suppressing(scheduled.event) {
                    "suppress_put"@
                } else {
                    "noop_logged"@
                }
            },
        forall|a: int, b: int|
            #![trigger fired_at(events, op, upto)[a], fired_at(events, op, upto)[b]]
            0 <= a < b < fired_at(events, op, upto).len() ==> fired_at(events, op, upto)[a].event_idx
                < fired_at(events, op, upto)[b].event_idx,
    decreases upto,
{
    if upto > 0 {
        lemma_fired_at(events, op, (upto - 1) as nat);
        let before = fired_at(events, op, (upto - 1) as nat);
        let all = fired_at(events, op, upto);
        assert forall|a: int| 0 <= a < before.len() implies #[trigger] all[a] == before[a] by {}
    }
}

/// Whether a store holds, of the first operations of a run, the values of those whose
/// writes were not suppressed.
pub open spec fn writes_stored(
    store: Map<Seq<char>, Vec<u8>>,
    namespace: Seq<char>,
    events: Seq<ScheduledFault>,
    ops: nat,
) -> bool {
    forall|op: nat|
        op < ops ==> (#[trigger] write_stored(store, namespace, op)) == !any_suppresses(events, op)
            && (any_suppresses(events, op) ==> stored(store, namespace, op_key_text(op)) is None)
}

/// Whether a store holds the value of an operation.
pub open spec fn write_stored(
    store: Map<Seq<char>, Vec<u8>>,
    namespace: Seq<char>,
    op: nat,
) -> bool {
    stored(store, namespace, op_key_text(op)) == Some(op_value_bytes(op))
}

/// A write at whose operation a failing put, a slow one, or a death before the chain
/// head or the sidecar strikes reads as missing after the run.
pub proof fn struck_write_is_missing(
    store: Map<Seq<char>, Vec<u8>>,
    namespace: Seq<char>,
    events: Seq<ScheduledFault>,
    ops: nat,
    op: nat,
    i: int,
)
    requires
        writes_stored(store, namespace, events, ops),
        op < ops,
        0 <= i < events.len(),
        events[i].trigger matches FaultTrigger::AfterKvOp { n } && n == op + 1,
        events[i].event is S3PutFailure || events[i].event is S3PutLatency || events[i].event
            is KillBeforeChainHead || events[i].event is KillBeforeSidecar,
    ensures
        stored(store, namespace, op_key_text(op)) is None,
{
    put_faults_suppress(events, op);
    assert(events[i].trigger matches FaultTrigger::AfterKvOp { n } && n == op + 1);
    assert(write_stored(store, namespace, op) == !any_suppresses(events, op));
}

/// A write at whose operation none of these strikes reads back as it was written.
pub proof fn other_write_is_read(
    store: Map<Seq<char>, Vec<u8>>,
    namespace: Seq<char>,
    events: Seq<ScheduledFault>,
    ops: nat,
    op: nat,
)
    requires
        writes_stored(store, namespace, events, ops),
        op < ops,
        forall|i: int|
            0 <= i < events.len() && ((
            #[trigger] events[i]).trigger matches FaultTrigger::AfterKvOp { n } && n == op + 1)
                ==> !(events[i].event is S3PutFailure || events[i].event is S3PutLatency
                || events[i].event is KillBeforeChainHead || events[i].event is KillBeforeSidecar),
    ensures
        stored(store, namespace, op_key_text(op)) == Some(op_value_bytes(op)),
{
    put_faults_suppress(events, op);
    assert(write_stored(store, namespace, op) == !any_suppresses(events, op));
}

/// Whether a store holds only keys of earlier operations.
pub open spec fn only_earlier(
    store: Map<Seq<char>, Vec<u8>>,
    namespace: Seq<char>,
    ops: nat,
) -> bool {
    forall|k: Seq<char>| #[trigger]
        store.dom().contains(k) ==> exists|op: nat|
            op < ops && k == composite(namespace, #[trigger] op_key_text(op))
}

proof fn lemma_fresh_key(store: Map<Seq<char>, Vec<u8>>, namespace: Seq<char>, op: nat)
    requires
        only_earlier(store, namespace, op),
        no_separator(namespace),
    ensures
        !store.dom().contains(composite(namespace, op_key_text(op))),
{
    let k = composite(namespace, op_key_text(op));
    if store.dom().contains(k) {
        let earlier = choose|earlier: nat|
            earlier < op && k == composite(namespace, #[trigger] op_key_text(earlier));
        composite_parts(namespace, op_key_text(op));
        composite_parts(namespace, op_key_text(earlier));
        op_keys_differ(op, earlier);
    }
}

proof fn lemma_earlier_grows(
    store: Map<Seq<char>, Vec<u8>>,
    namespace: Seq<char>,
    op: nat,
    value: Vec<u8>,
)
    requires
        only_earlier(store, namespace, op),
    ensures
        only_earlier(store, namespace, op + 1),
        only_earlier(
            store.insert(composite(namespace, op_key_text(op)), value),
            namespace,
            op + 1,
        ),
{
    let after = store.insert(composite(namespace, op_key_text(op)), value);
    assert forall|k: Seq<char>| #[trigger] store.dom().contains(k) implies exists|o: nat|
        o < op + 1 && k == composite(namespace, #[trigger] op_key_text(o)) by {
        let o = choose|o: nat| o < op && k == composite(namespace, #[trigger] op_key_text(o));
        assert(o < op + 1 && k == composite(namespace, op_key_text(o)));
    }
    assert forall|k: Seq<char>| #[trigger] after.dom().contains(k) implies exists|o: nat|
        o < op + 1 && k == composite(namespace, #[trigger] op_key_text(o)) by {
        if k == composite(namespace, op_key_text(op)) {
            assert(op < op + 1 && k == composite(namespace, op_key_text(op)));
        } else {
            assert(store.dom().contains(k));
        }
    }
}

proof fn lemma_synthetic_namespaces()
    ensures
        no_separator("dst-synthetic"@),
        no_separator("dst-child"@),
{
    reveal_strlit("dst-synthetic");
    reveal_strlit("dst-child");
}

proof fn lemma_write_failed(
    store: Map<Seq<char>, Vec<u8>>,
    namespace: Seq<char>,
    events: Seq<ScheduledFault>,
    op: nat,
)
    requires
        writes_stored(store, namespace, events, op),
        only_earlier(store, namespace, op),
        no_separator(namespace),
        any_suppresses(events, op),
    ensures
        writes_stored(store, namespace, events, op + 1),
{
    lemma_fresh_key(store, namespace, op);
    assert forall|o: nat| o < op + 1 implies (#[trigger] write_stored(store, namespace, o))
        == !any_suppresses(events, o) && (any_suppresses(events, o) ==> stored(
        store,
        namespace,
        op_key_text(o),
    ) is None) by {
        if o < op {
            assert(write_stored(store, namespace, o) == !any_suppresses(events, o));
        }
    }
}

proof fn lemma_write_done(
    store: Map<Seq<char>, Vec<u8>>,
    namespace: Seq<char>,
    events: Seq<ScheduledFault>,
    op: nat,
    value: Vec<u8>,
)
    requires
        writes_stored(store, namespace, events, op),
        no_separator(namespace),
        !any_suppresses(events, op),
        value@ == op_value_bytes(op),
    ensures
        writes_stored(
            store.insert(composite(namespace, op_key_text(op)), value),
            namespace,
            events,
            op + 1,
        ),
{
    let after = store.insert(composite(namespace, op_key_text(op)), value);
    assert forall|o: nat| o < op + 1 implies (#[trigger] write_stored(after, namespace, o))
        == !any_suppresses(events, o) && (any_suppresses(events, o) ==> stored(
        after,
        namespace,
        op_key_text(o),
    ) is None) by {
        if o < op {
            assert(write_stored(store, namespace, o) == !any_suppresses(events, o));
            composite_parts(namespace, op_key_text(o));
            composite_parts(namespace, op_key_text(op));
            if op_key_text(o) == op_key_text(op) {
                op_keys_differ(o, op);
            }
            assert(stored(after, namespace, op_key_text(o)) == stored(
                store,
                namespace,
                op_key_text(o),
            ));
        }
    }
}

/// The writes of a run against the model.
#[derive(Debug)]
pub struct SyntheticWrites {
    pub oracle: WombatKvOracle,
    pub fired: Vec<FiredEvent>,
    pub suppressed_writes: u32,
}

/// Make twenty writes under a plan against the model, and check each by reading
/// it back: a suppressed write must read as missing, any other as written. The
/// checks never fail.
pub fn synthetic_writes(plan: &FaultPlan) -> (writes: Result<SyntheticWrites, String>)
    ensures
        writes matches Ok(w) && {
            &&& w.oracle.well_formed()
            &&& w.oracle.ops_observed == SYNTHETIC_OPS
            &&& w.suppressed_writes == suppressed_in(plan.events@, SYNTHETIC_OPS as nat)
            &&& w.oracle.store.entries@.len() == SYNTHETIC_OPS - w.suppressed_writes
            &&& fired_fields(w.fired@) == fired_in(plan.events@, SYNTHETIC_OPS as nat)
            &&& only_earlier(w.oracle.store@, "dst-synthetic"@, SYNTHETIC_OPS as nat)
            &&& writes_stored(
                w.oracle.store@,
                "dst-synthetic"@,
                plan.events@,
                SYNTHETIC_OPS as nat,
            )
        },
{
    let namespace: &str = "dst-synthetic";
    let mut oracle = WombatKvOracle::new();
    let mut fired: Vec<FiredEvent> = Vec::new();
    let mut suppressed_writes: u32 = 0;
    let mut op: u32 = 0;
    proof {
        lemma_synthetic_namespaces();
        assert(fired_fields(fired@) =~= Seq::<FiredFields>::empty());
    }
    while op < SYNTHETIC_OPS
        invariant
            op <= SYNTHETIC_OPS,
            namespace@ == "dst-synthetic"@,
            no_separator(namespace@),
            oracle.well_formed(),
            oracle.ops_observed == op,
            suppressed_writes <= op,
            suppressed_writes == suppressed_in(plan.events@, op as nat),
            oracle.store.entries@.len() == op - suppressed_writes,
            only_earlier(oracle.store@, namespace@, op as nat),
            writes_stored(oracle.store@, namespace@, plan.events@, op as nat),
            fired_fields(fired@) == fired_in(plan.events@, op as nat),
        decreases SYNTHETIC_OPS - op,
    {
        let key = op_key(op);
        let payload = op_value(op);
        let suppress: bool = note_fired(&plan.events, op, &mut fired);
        proof {
            lemma_fresh_key(oracle.store@, namespace@, op as nat);
        }
        let ghost before = oracle.store@;
        if suppress {
            oracle.put_kv_failed(namespace, &key);
            suppressed_writes = suppressed_writes + 1;
            match oracle.get_kv(namespace, &key) {
                OracleGetOutcome::Miss => {},
                OracleGetOutcome::Hit { .. } => {
                    return Err("oracle invariant violation: failed put left a Hit".to_owned());
                },
            }
            proof {
                lemma_earlier_grows(before, namespace@, op as nat, payload);
                lemma_write_failed(before, namespace@, plan.events@, op as nat);
            }
        } else {
            oracle.put_kv(namespace, &key, &payload);
            match oracle.get_kv(namespace, &key) {
                OracleGetOutcome::Hit { payload: bytes } => {
                    if !same_bytes(&bytes, &payload) {
                        return Err("oracle RYW violation: another value".to_owned());
                    }
                },
                OracleGetOutcome::Miss => {
                    return Err("oracle RYW violation: got Miss".to_owned());
                },
            }
            proof {
                let value = choose|value: Vec<u8>|
                    value@ == payload@ && oracle.store@ == #[trigger] before.insert(
                        composite(namespace@, key@),
                        value,
                    );
                lemma_earlier_grows(before, namespace@, op as nat, value);
                lemma_write_done(before, namespace@, plan.events@, op as nat, value);
            }
        }
        op = op + 1;
    }
    Ok(SyntheticWrites { oracle, fired, suppressed_writes })
}

/// Run twenty writes under a plan against the model, and tell what came of them.
pub fn execute_synthetic_run(plan: &FaultPlan) -> (run: Result<SyntheticRun, String>)
    ensures
        run matches Ok(r) && {
            &&& r.ops == SYNTHETIC_OPS
            &&& r.ops_observed == SYNTHETIC_OPS
            &&& r.suppressed_writes == suppressed_in(plan.events@, SYNTHETIC_OPS as nat)
            &&& r.oracle_size == SYNTHETIC_OPS - r.suppressed_writes
            &&& fired_fields(r.fired@) == fired_in(plan.events@, SYNTHETIC_OPS as nat)
        },
{
    match synthetic_writes(plan) {
        Ok(writes) => Ok(
            SyntheticRun {
                ops: SYNTHETIC_OPS,
                oracle_size: writes.oracle.len(),
                ops_observed: writes.oracle.ops_observed,
                fired: writes.fired,
                suppressed_writes: writes.suppressed_writes,
            },
        ),
        Err(message) => Err(message),
    }
}

// ---- a run against the model and a store ----

/// The report of a run against the model and a store.
#[derive(Debug)]
pub struct ChildReport {
    pub plan_seed: u64,
    pub plan_class: String,
    pub plan_event_count: usize,
    pub ops_total: u32,
    pub suppressed_writes: u32,
    pub fired_events: Vec<FiredEvent>,
    pub oracle_key_count: usize,
    pub store_key_count: usize,
    pub divergent_keys: Vec<String>,
    /// `pass` or `diverged`.
    pub verdict: String,
    pub error: Option<String>,
}

/// The value in a map, if there is one.
pub open spec fn value_at(map: Map<Seq<char>, Vec<u8>>, key: Seq<char>) -> Option<Seq<u8>> {
    if map.dom().contains(key) {
        Some(map[key]@)
    } else {
        None
    }
}

/// The values that the model holds in a namespace, by key. A namespace that
/// holds a separator has none.
pub fn oracle_values(oracle: &WombatKvOracle, namespace: &str) -> (values: TextMap<Vec<u8>>)
    requires
        oracle.well_formed(),
    ensures
        values.well_formed(),
        no_separator(namespace@) ==> forall|k: Seq<char>| #[trigger]
            value_at(values@, k) == stored(oracle.store@, namespace@, k),
        !no_separator(namespace@) ==> values.entries@.len() == 0,
{
    let keys = oracle.keys();
    let ghost whole = entry_keys(oracle.store.entries@);
    let ghost parts = all_parts(whole);
    let mut values: TextMap<Vec<u8>> = TextMap::new();
    let mut i: usize = 0;
    assert(pair_texts(keys@).len() == keys@.len());
    assert(parts.len() == whole.len());
    while i < keys.len()
        invariant
            i <= keys@.len(),
            keys@.len() == parts.len() == whole.len(),
            oracle.well_formed(),
            values.well_formed(),
            whole == entry_keys(oracle.store.entries@),
            parts == all_parts(whole),
            pair_texts(keys@) == parts,
            !no_separator(namespace@) ==> values.entries@.len() == 0,
            forall|k: Seq<char>| #[trigger]
                value_at(values@, k) == (if exists|j: int|
                    0 <= j < i && #[trigger] parts[j] == (namespace@, k) {
                    stored(oracle.store@, namespace@, k)
                } else {
                    None
                }),
        decreases keys@.len() - i,
    {
        let ghost before = values@;
        let pair = &keys[i];
        proof {
            assert(pair_texts(keys@)[i as int] == (pair.0@, pair.1@));
            assert(parts[i as int] == parts_of(whole[i as int]));
            lemma_parts_free(whole[i as int]);
        }
        if same_text(&pair.0, namespace) {
            match oracle.get_kv(&pair.0, &pair.1) {
                OracleGetOutcome::Hit { payload } => {
                    values.insert(pair.1.clone(), payload);
                },
                OracleGetOutcome::Miss => {},
            }
        }
        proof {
            assert forall|k: Seq<char>| #[trigger] value_at(values@, k) == (if exists|j: int|
                0 <= j < i + 1 && #[trigger] parts[j] == (namespace@, k) {
                stored(oracle.store@, namespace@, k)
            } else {
                None
            }) by {
                assert(value_at(before, k) == (if exists|j: int|
                    0 <= j < i && #[trigger] parts[j] == (namespace@, k) {
                    stored(oracle.store@, namespace@, k)
                } else {
                    None
                }));
                if exists|j: int| 0 <= j < i && #[trigger] parts[j] == (namespace@, k) {
                    let j = choose|j: int| 0 <= j < i && #[trigger] parts[j] == (namespace@, k);
                    assert(0 <= j < i + 1 && parts[j] == (namespace@, k));
                }
                if parts[i as int] == (namespace@, k) {
                    assert(pair.1@ == k);
                }
            }
        }
        i = i + 1;
    }
    proof {
        if no_separator(namespace@) {
            assert forall|k: Seq<char>| #[trigger]
                value_at(values@, k) == stored(oracle.store@, namespace@, k) by {
                if stored(oracle.store@, namespace@, k) is Some {
                    lemma_ascending_distinct(oracle.store.entries@);
                    lemma_entry_map(oracle.store.entries@);
                    let c = composite(namespace@, k);
                    let j = choose|j: int|
                        0 <= j < oracle.store.entries@.len() && (
                        #[trigger] oracle.store.entries@[j]).0@ == c;
                    composite_parts(namespace@, k);
                    assert(whole[j] == c);
                    assert(parts[j] == parts_of(whole[j]));
                    assert(0 <= j < i && parts[j] == (namespace@, k));
                }
            }
        }
    }
    values
}

/// The namespace part of a composite key holds no separator.
proof fn lemma_parts_free(whole: Seq<char>)
    ensures
        no_separator(parts_of(whole).0),
{
    crate::text::lemma_find_char(whole, '\u{1}');
}

/// What is said of a value that the model has and the store has not.
pub open spec fn mismatch_text(key: Seq<char>) -> Seq<char> {
    "oracle has k="@ + debug_of(key) + ", store mismatch"@
}

/// What is said of a value that the store has and the model has not.
pub open spec fn missing_text(key: Seq<char>) -> Seq<char> {
    "store has k="@ + debug_of(key) + ", oracle missing"@
}

/// The complaints about the model's values: one for each that the store does
/// not have.
pub open spec fn mismatches(
    values: Seq<(String, Vec<u8>)>,
    store: Map<Seq<char>, Vec<u8>>,
) -> Seq<Seq<char>>
    decreases values.len(),
{
    if values.len() == 0 {
        Seq::empty()
    } else {
        let before = mismatches(values.drop_last(), store);
        if value_at(store, values.last().0@) == Some(values.last().1@) {
            before
        } else {
            before.push(mismatch_text(values.last().0@))
        }
    }
}

/// The complaints about the store's keys: one for each that the model does not
/// have.
pub open spec fn strangers(
    store: Seq<(String, Vec<u8>)>,
    values: Map<Seq<char>, Vec<u8>>,
) -> Seq<Seq<char>>
    decreases store.len(),
{
    if store.len() == 0 {
        Seq::empty()
    } else {
        let before = strangers(store.drop_last(), values);
        if values.dom().contains(store.last().0@) {
            before
        } else {
            before.push(missing_text(store.last().0@))
        }
    }
}

fn complain(list: &mut Vec<String>, start: &str, key: &str, end: &str)
    ensures
        texts(final(list)@) == texts(old(list)@).push(start@ + debug_of(key@) + end@),
{
    let mut text = String::new();
    text.push_str(start);
    text.push_str(&debug_text(key));
    text.push_str(end);
    assert(text@ =~= start@ + debug_of(key@) + end@);
    list.push(text);
    assert(texts(list@) =~= texts(old(list)@).push(start@ + debug_of(key@) + end@));
}

/// Compare the model's values with a store: the complaints.
pub fn divergence(values: &TextMap<Vec<u8>>, store: &TextMap<Vec<u8>>) -> (complaints: Vec<String>)
    requires
        values.well_formed(),
        store.well_formed(),
    ensures
        texts(complaints@) == mismatches(values.entries@, store@) + strangers(
            store.entries@,
            values@,
        ),
{
    let mut complaints: Vec<String> = Vec::new();
    let mut i: usize = 0;
    assert(texts(complaints@) =~= mismatches(values.entries@.take(0), store@));
    while i < values.entries.len()
        invariant
            i <= values.entries@.len(),
            store.well_formed(),
            texts(complaints@) == mismatches(values.entries@.take(i as int), store@),
        decreases values.entries@.len() - i,
    {
        proof {
            assert(values.entries@.take(i + 1).drop_last() =~= values.entries@.take(i as int));
            assert(values.entries@.take(i + 1).last() == values.entries@[i as int]);
        }
        let entry = &values.entries[i];
        let same: bool = match store.get(&entry.0) {
            Some(value) => same_bytes(value, &entry.1),
            None => false,
        };
        if !same {
            complain(&mut complaints, "oracle has k=", &entry.0, ", store mismatch");
        }
        i = i + 1;
    }
    assert(values.entries@.take(i as int) =~= values.entries@);
    let ghost first = texts(complaints@);
    let mut j: usize = 0;
    assert(first + strangers(store.entries@.take(0), values@) =~= first);
    while j < store.entries.len()
        invariant
            j <= store.entries@.len(),
            values.well_formed(),
            texts(complaints@) == first + strangers(store.entries@.take(j as int), values@),
        decreases store.entries@.len() - j,
    {
        let ghost before = texts(complaints@);
        proof {
            assert(store.entries@.take(j + 1).drop_last() =~= store.entries@.take(j as int));
            assert(store.entries@.take(j + 1).last() == store.entries@[j as int]);
        }
        let entry = &store.entries[j];
        if values.position(&entry.0).is_none() {
            complain(&mut complaints, "store has k=", &entry.0, ", oracle missing");
            assert(texts(complaints@) =~= first + strangers(
                store.entries@.take(j + 1),
                values@,
            ));
        }
        j = j + 1;
    }
    assert(store.entries@.take(j as int) =~= store.entries@);
    complaints
}

/// A model and a store with the same values give no complaints.
pub proof fn agreement_is_silent(values: TextMap<Vec<u8>>, store: TextMap<Vec<u8>>)
    requires
        values.well_formed(),
        store.well_formed(),
        forall|k: Seq<char>| #[trigger] value_at(values@, k) == value_at(store@, k),
    ensures
        mismatches(values.entries@, store@).len() == 0,
        strangers(store.entries@, values@).len() == 0,
        values.entries@.len() == store.entries@.len(),
{
    lemma_no_mismatch(values, store@, values.entries@.len() as int);
    lemma_no_stranger(store, values@, store.entries@.len() as int);
    assert(values.entries@.take(values.entries@.len() as int) =~= values.entries@);
    assert(store.entries@.take(store.entries@.len() as int) =~= store.entries@);
    lemma_entry_count(values.entries@);
    lemma_entry_count(store.entries@);
    assert(values@.dom() =~= store@.dom()) by {
        assert forall|k: Seq<char>| values@.dom().contains(k) <==> store@.dom().contains(k) by {
            assert(value_at(values@, k) == value_at(store@, k));
        }
    }
}

proof fn lemma_no_mismatch(values: TextMap<Vec<u8>>, store: Map<Seq<char>, Vec<u8>>, n: int)
    requires
        values.well_formed(),
        0 <= n <= values.entries@.len(),
        forall|k: Seq<char>| #[trigger] value_at(values@, k) == value_at(store, k),
    ensures
        mismatches(values.entries@.take(n), store).len() == 0,
    decreases n,
{
    if n > 0 {
        lemma_no_mismatch(values, store, n - 1);
        let upto = values.entries@.take(n);
        assert(upto.drop_last() =~= values.entries@.take(n - 1));
        lemma_ascending_distinct(values.entries@);
        lemma_entry_map(values.entries@);
        assert(upto.last() == values.entries@[n - 1]);
        assert(value_at(values@, upto.last().0@) == value_at(store, upto.last().0@));
    }
}

proof fn lemma_no_stranger(store: TextMap<Vec<u8>>, values: Map<Seq<char>, Vec<u8>>, n: int)
    requires
        store.well_formed(),
        0 <= n <= store.entries@.len(),
        forall|k: Seq<char>| #[trigger] value_at(values, k) == value_at(store@, k),
    ensures
        strangers(store.entries@.take(n), values).len() == 0,
    decreases n,
{
    if n > 0 {
        lemma_no_stranger(store, values, n - 1);
        let upto = store.entries@.take(n);
        assert(upto.drop_last() =~= store.entries@.take(n - 1));
        lemma_ascending_distinct(store.entries@);
        lemma_entry_map(store.entries@);
        assert(upto.last() == store.entries@[n - 1]);
        assert(value_at(values, upto.last().0@) == value_at(store@, upto.last().0@));
    }
}

/// A map with ascending keys has as many keys as entries.
proof fn lemma_entry_count<T>(entries: Seq<(String, T)>)
    requires
        ascending(entries),
    ensures
        entry_map(entries).dom().finite(),
        entry_map(entries).dom().len() == entries.len(),
    decreases entries.len(),
{
    if entries.len() == 0 {
        assert(entry_map(entries).dom() =~= Set::empty());
    } else {
        let shorter = entries.drop_last();
        assert forall|i: int, j: int| 0 <= i < j < shorter.len() implies crate::sorted::text_before(
            (#[trigger] shorter[i]).0@,
            (#[trigger] shorter[j]).0@,
        ) by {
            assert(shorter[i] == entries[i] && shorter[j] == entries[j]);
        }
        lemma_entry_count(shorter);
        lemma_ascending_distinct(shorter);
        lemma_entry_map(shorter);
        lemma_ascending_distinct(entries);
        let key = entries.last().0@;
        if entry_map(shorter).dom().contains(key) {
            let i = choose|i: int| 0 <= i < shorter.len() && (#[trigger] shorter[i]).0@ == key;
            assert(entries[i].0@ == entries[entries.len() - 1].0@);
        }
        assert(entry_map(entries).dom() =~= entry_map(shorter).dom().insert(key));
    }
}

/// A model and a store that differ are told apart: each value of the model that the
/// store does not have as it is, and each key of the store that the model does not
/// have, is named in a complaint.
pub proof fn disagreement_is_told(
    values: Seq<(String, Vec<u8>)>,
    store: Seq<(String, Vec<u8>)>,
    value_map: Map<Seq<char>, Vec<u8>>,
    store_map: Map<Seq<char>, Vec<u8>>,
    i: int,
    j: int,
)
    requires
        0 <= i < values.len(),
        0 <= j < store.len(),
    ensures
        !(store_map.dom().contains(values[i].0@) && store_map[values[i].0@]@ == values[i].1@)
            ==> mismatches(values, store_map).contains(
            "oracle has k="@ + debug_of(values[i].0@) + ", store mismatch"@,
        ),
        !value_map.dom().contains(store[j].0@) ==> strangers(store, value_map).contains(
            "store has k="@ + debug_of(store[j].0@) + ", oracle missing"@,
        ),
{
    lemma_mismatch_told(values, store_map, i);
    lemma_stranger_told(store, value_map, j);
}

proof fn lemma_mismatch_told(
    values: Seq<(String, Vec<u8>)>,
    store: Map<Seq<char>, Vec<u8>>,
    i: int,
)
    requires
        0 <= i < values.len(),
    ensures
        value_at(store, values[i].0@) != Some(values[i].1@) ==> mismatches(values, store).contains(
            mismatch_text(values[i].0@),
        ),
    decreases values.len(),
{
    let all = mismatches(values, store);
    let before = mismatches(values.drop_last(), store);
    let text = mismatch_text(values[i].0@);
    if value_at(store, values[i].0@) != Some(values[i].1@) {
        if i == values.len() - 1 {
            assert(all == before.push(text));
            assert(all[before.len() as int] == text);
        } else {
            assert(values.drop_last()[i] == values[i]);
            lemma_mismatch_told(values.drop_last(), store, i);
            let k = choose|k: int| 0 <= k < before.len() && before[k] == text;
            assert(all[k] == text);
        }
    }
}

proof fn lemma_stranger_told(
    store: Seq<(String, Vec<u8>)>,
    values: Map<Seq<char>, Vec<u8>>,
    j: int,
)
    requires
        0 <= j < store.len(),
    ensures
        !values.dom().contains(store[j].0@) ==> strangers(store, values).contains(
            missing_text(store[j].0@),
        ),
    decreases store.len(),
{
    let all = strangers(store, values);
    let before = strangers(store.drop_last(), values);
    let text = missing_text(store[j].0@);
    if !values.dom().contains(store[j].0@) {
        if j == store.len() - 1 {
            assert(all == before.push(text));
            assert(all[before.len() as int] == text);
        } else {
            assert(store.drop_last()[j] == store[j]);
            lemma_stranger_told(store.drop_last(), values, j);
            let k = choose|k: int| 0 <= k < before.len() && before[k] == text;
            assert(all[k] == text);
        }
    }
}

/// Note the faults of a loaded plan that strike at an operation.
fn note_planned(state: &PlanState, op: u32, fired: &mut Vec<FiredEvent>)
    requires
        op < u32::MAX,
        state.plan is Some,
    ensures
        fired_fields(final(fired)@) == fired_fields(old(fired)@) + fired_at(
            state.plan->Some_0.events@,
            op as nat,
            state.plan->Some_0.events@.len(),
        ),
{
    if let Some(plan) = &state.plan {
        let _suppress: bool = note_fired(&plan.events, op, fired);
    }
}

/// The name of a plan's class, empty where it has none.
pub open spec fn plan_class_text(class: Option<WombatKvFailureClass>) -> Seq<char> {
    match class {
        Some(c) => class_text(c),
        None => Seq::empty(),
    }
}

/// The number of operations of a run: `DST_CHILD_OP_COUNT`, or thirty.
pub fn child_op_count(value: &Option<String>) -> (count: u32)
    ensures
        count == env_number_or(text_opt(*value), u32::MAX as nat, 30),
{
    match value {
        Some(text) => match parse_uint(&chars_of(text), u32::MAX as u128) {
            Some(n) => n as u32,
            None => 30,
        },
        None => 30,
    }
}

/// The writes of a run against the model and a store.
#[derive(Debug)]
pub struct ChildWrites {
    pub oracle: WombatKvOracle,
    pub store: TextMap<Vec<u8>>,
    pub fired: Vec<FiredEvent>,
    pub suppressed: u32,
}

/// Make writes under a plan against the model and a store side by side.
pub fn child_writes(plan: FaultPlan, op_count: u32) -> (writes: ChildWrites)
    ensures
        writes.oracle.well_formed(),
        writes.store.well_formed(),
        writes.suppressed == suppressed_in(plan.events@, op_count as nat),
        writes.store.entries@.len() == op_count - writes.suppressed,
        fired_fields(writes.fired@) == fired_in(plan.events@, op_count as nat),
        only_earlier(writes.oracle.store@, "dst-child"@, op_count as nat),
        writes_stored(writes.oracle.store@, "dst-child"@, plan.events@, op_count as nat),
        forall|k: Seq<char>| #[trigger]
            value_at(writes.store@, k) == stored(writes.oracle.store@, "dst-child"@, k),
{
    let namespace: &str = "dst-child";
    let ghost events = plan.events@;
    let mut oracle = WombatKvOracle::new();
    let mut store: TextMap<Vec<u8>> = TextMap::new();
    let mut fired: Vec<FiredEvent> = Vec::new();
    let mut suppressed: u32 = 0;
    let mut state = PlanState::new();
    set_plan(&mut state, plan);
    let mut op: u32 = 0;
    proof {
        lemma_synthetic_namespaces();
        assert(fired_fields(fired@) =~= Seq::<FiredFields>::empty());
        assert forall|k: Seq<char>| #[trigger]
            value_at(store@, k) == stored(oracle.store@, namespace@, k) by {}
    }
    while op < op_count
        invariant
            op <= op_count,
            namespace@ == "dst-child"@,
            no_separator(namespace@),
            state.plan == Some(plan),
            state.op_counter == op,
            events == plan.events@,
            oracle.well_formed(),
            store.well_formed(),
            suppressed <= op,
            suppressed == suppressed_in(events, op as nat),
            store.entries@.len() == op - suppressed,
            only_earlier(oracle.store@, namespace@, op as nat),
            writes_stored(oracle.store@, namespace@, events, op as nat),
            fired_fields(fired@) == fired_in(events, op as nat),
            forall|k: Seq<char>| #[trigger]
                value_at(store@, k) == stored(oracle.store@, namespace@, k),
        decreases op_count - op,
    {
        let key = op_key(op);
        let payload = op_value(op);
        note_planned(&state, op, &mut fired);
        let suppress: bool = is_put_suppressed(&state);
        let ghost before = oracle.store@;
        let ghost store_before = store@;
        proof {
            lemma_fresh_key(before, namespace@, op as nat);
            assert(value_at(store_before, key@) == stored(before, namespace@, key@));
        }
        if suppress {
            suppressed = suppressed + 1;
            oracle.put_kv_failed(namespace, &key);
            proof {
                lemma_earlier_grows(before, namespace@, op as nat, payload);
                lemma_write_failed(before, namespace@, events, op as nat);
            }
        } else {
            oracle.put_kv(namespace, &key, &payload);
            store.insert(key, payload);
            proof {
                let value = choose|value: Vec<u8>|
                    value@ == payload@ && oracle.store@ == #[trigger] before.insert(
                        composite(namespace@, key@),
                        value,
                    );
                lemma_earlier_grows(before, namespace@, op as nat, value);
                lemma_write_done(before, namespace@, events, op as nat, value);
                assert forall|k: Seq<char>| #[trigger]
                    value_at(store@, k) == stored(oracle.store@, namespace@, k) by {
                    assert(value_at(store_before, k) == stored(before, namespace@, k));
                    if k != key@ {
                        composite_parts(namespace@, k);
                        composite_parts(namespace@, key@);
                    }
                }
            }
        }
        advance_op(&mut state);
        op = op + 1;
    }
    clear(&mut state);
    ChildWrites { oracle, store, fired, suppressed }
}

/// Run writes under a plan against the model and a store side by side, and
/// compare them in the end. They always agree.
pub fn run(plan: FaultPlan, op_count: u32) -> (report: ChildReport)
    ensures
        report.plan_seed == plan.seed,
        report.plan_class@ == plan_class_text(plan.class),
        report.plan_event_count == plan.events@.len(),
        report.ops_total == op_count,
        report.suppressed_writes == suppressed_in(plan.events@, op_count as nat),
        fired_fields(report.fired_events@) == fired_in(plan.events@, op_count as nat),
        report.store_key_count == op_count - report.suppressed_writes,
        report.oracle_key_count == report.store_key_count,
        report.divergent_keys@.len() == 0,
        report.verdict@ == "pass"@,
        report.error is None,
{
    let namespace: &str = "dst-child";
    let plan_seed: u64 = plan.seed;
    let plan_class: String = match plan.class {
        Some(class) => class.name().to_owned(),
        None => String::new(),
    };
    assert(plan_class@ =~= plan_class_text(plan.class));
    let plan_event_count: usize = plan.events.len();
    let writes = child_writes(plan, op_count);
    let values = oracle_values(&writes.oracle, namespace);
    proof {
        lemma_synthetic_namespaces();
        assert forall|k: Seq<char>| #[trigger]
            value_at(values@, k) == value_at(writes.store@, k) by {
            assert(value_at(writes.store@, k) == stored(writes.oracle.store@, namespace@, k));
        }
        agreement_is_silent(values, writes.store);
    }
    let divergent_keys = divergence(&values, &writes.store);
    assert(texts(divergent_keys@).len() == 0);
    let verdict: String = if divergent_keys.len() == 0 {
        "pass".to_owned()
    } else {
        "diverged".to_owned()
    };
    ChildReport {
        plan_seed,
        plan_class,
        plan_event_count,
        ops_total: op_count,
        suppressed_writes: writes.suppressed,
        fired_events: writes.fired,
        oracle_key_count: values.len(),
        store_key_count: writes.store.len(),
        divergent_keys,
        verdict,
        error: None,
    }
}

} // verus!

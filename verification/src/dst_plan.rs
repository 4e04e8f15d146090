//! Plan-aware faults: a loaded [`FaultPlan`] says which fault strikes at the
//! current operation.

use vstd::prelude::*;

use crate::fault::{
    put_suppressing, same_event, schedule_bounds, schedules, FaultPlan, FaultTrigger,
    ScheduledFault, WombatKvFailureClass, WombatKvFaultEvent,
};

verus! {

/// The plan of a run and the operations so far.
#[derive(Debug)]
pub struct PlanState {
    pub plan: Option<FaultPlan>,
    pub op_counter: u32,
}

impl PlanState {
    /// No plan, no operations.
    pub fn new() -> (state: Self)
        ensures
            state.plan is None,
            state.op_counter == 0,
    {
        PlanState { plan: None, op_counter: 0 }
    }
}

/// Load a plan for a run. It replaces an earlier one, and operations are
/// counted from zero.
pub fn set_plan(state: &mut PlanState, plan: FaultPlan)
    ensures
        final(state).plan == Some(plan),
        final(state).op_counter == 0,
{
    state.plan = Some(plan);
    state.op_counter = 0;
}

/// Drop the plan and count from zero.
pub fn clear(state: &mut PlanState)
    ensures
        final(state).plan is None,
        final(state).op_counter == 0,
{
    state.plan = None;
    state.op_counter = 0;
}

/// Count an operation.
pub fn advance_op(state: &mut PlanState)
    ensures
        final(state).plan == old(state).plan,
        final(state).op_counter == if old(state).op_counter < u32::MAX {
            (old(state).op_counter + 1) as u32
        } else {
            u32::MAX
        },
{
    state.op_counter = state.op_counter.saturating_add(1);
}

/// The number of operations so far.
pub fn current_op(state: &PlanState) -> (op: u32)
    ensures
        op == state.op_counter,
{
    state.op_counter
}

/// Whether a scheduled fault strikes at an operation. Operations count from
/// zero, the schedule from one.
pub open spec fn strikes(scheduled: ScheduledFault, op: nat) -> bool {
    scheduled.trigger matches FaultTrigger::AfterKvOp { n } && n == op + 1
}

/// The first scheduled fault from `from` on that strikes at an operation.
pub open spec fn first_striking(events: Seq<ScheduledFault>, op: nat, from: nat) -> Option<nat>
    decreases events.len() - from,
{
    if from >= events.len() {
        None
    } else if strikes(events[from as int], op) {
        Some(from)
    } else {
        first_striking(events, op, from + 1)
    }
}

/// The first scheduled fault of a plan that strikes at the current operation.
pub open spec fn striking(state: PlanState) -> Option<WombatKvFaultEvent> {
    match state.plan {
        Some(plan) => match first_striking(plan.events@, state.op_counter as nat, 0) {
            Some(i) => Some(plan.events@[i as int].event),
            None => None,
        },
        None => None,
    }
}

/// Whether a scheduled fault strikes at an operation.
pub fn strikes_at(scheduled: &ScheduledFault, op: u32) -> (striking: bool)
    requires
        op < u32::MAX,
    ensures
        striking == strikes(*scheduled, op as nat),
{
    match scheduled.trigger {
        FaultTrigger::AfterKvOp { n } => n == op + 1,
        _ => false,
    }
}

/// The fault that strikes at the current operation, if there is one: the first
/// of the plan's.
pub fn fire_for_current_op(state: &PlanState) -> (event: Option<WombatKvFaultEvent>)
    requires
        state.op_counter < u32::MAX,
    ensures
        match event {
            Some(e) => striking(*state) matches Some(s) && same_event(e, s),
            None => striking(*state) is None,
        },
{
    match &state.plan {
        None => None,
        Some(plan) => {
            let mut i: usize = 0;
            while i < plan.events.len()
                invariant
                    i <= plan.events@.len(),
                    state.op_counter < u32::MAX,
                    state.plan == Some(*plan),
                    first_striking(plan.events@, state.op_counter as nat, 0) == first_striking(
                        plan.events@,
                        state.op_counter as nat,
                        i as nat,
                    ),
                decreases plan.events@.len() - i,
            {
                if strikes_at(&plan.events[i], state.op_counter) {
                    return Some(plan.events[i].event.duplicate());
                }
                i = i + 1;
            }
            None
        },
    }
}

/// Whether any fault that strikes at an operation keeps its write from being
/// stored.
pub open spec fn any_suppresses(events: Seq<ScheduledFault>, op: nat) -> bool {
    exists|i: int|
        0 <= i < events.len() && strikes(#[trigger] events[i], op) && put_suppressing(
            events[i].event,
        )
}

/// Whether a fault of the loaded plan keeps a put of the current operation from
/// being stored. Every fault that strikes now counts, not only the first.
pub fn is_put_suppressed(state: &PlanState) -> (suppressed: bool)
    requires
        state.op_counter < u32::MAX,
    ensures
        suppressed == (state.plan matches Some(plan) && any_suppresses(
            plan.events@,
            state.op_counter as nat,
        )),
{
    match &state.plan {
        None => false,
        Some(plan) => {
            let mut i: usize = 0;
            while i < plan.events.len()
                invariant
                    i <= plan.events@.len(),
                    state.op_counter < u32::MAX,
                    state.plan == Some(*plan),
                    forall|j: int|
                        0 <= j < i ==> !(strikes(#[trigger] plan.events@[j], state.op_counter as nat)
                            && put_suppressing(plan.events@[j].event)),
                decreases plan.events@.len() - i,
            {
                if strikes_at(&plan.events[i], state.op_counter)
                    && plan.events[i].event.suppresses_put() {
                    assert(strikes(plan.events@[i as int], state.op_counter as nat));
                    return true;
                }
                i = i + 1;
            }
            false
        },
    }
}

/// A put at whose operation a failing put, a slow one, or a death before the chain
/// head or the sidecar strikes is never stored, wherever in the plan the fault stands;
/// and nothing else keeps a put from being stored.
pub proof fn put_faults_suppress(events: Seq<ScheduledFault>, op: nat)
    ensures
        any_suppresses(events, op) <==> exists|i: int|
            {
                &&& 0 <= i < events.len()
                &&& (#[trigger] events[i]).trigger matches FaultTrigger::AfterKvOp { n }
                &&& n == op + 1
                &&& match events[i].event {
                    WombatKvFaultEvent::S3PutFailure { .. } => true,
                    WombatKvFaultEvent::S3PutLatency { .. } => true,
                    WombatKvFaultEvent::KillBeforeChainHead => true,
                    WombatKvFaultEvent::KillBeforeSidecar => true,
                    _ => false,
                }
            },
{
    if any_suppresses(events, op) {
        let i = choose|i: int|
            0 <= i < events.len() && strikes(#[trigger] events[i], op) && put_suppressing(
                events[i].event,
            );
        assert(events[i].trigger matches FaultTrigger::AfterKvOp { n } && n == op + 1);
    }
    assert forall|i: int|
        {
            &&& 0 <= i < events.len()
            &&& (#[trigger] events[i]).trigger matches FaultTrigger::AfterKvOp { n }
            &&& n == op + 1
            &&& match events[i].event {
                WombatKvFaultEvent::S3PutFailure { .. } => true,
                WombatKvFaultEvent::S3PutLatency { .. } => true,
                WombatKvFaultEvent::KillBeforeChainHead => true,
                WombatKvFaultEvent::KillBeforeSidecar => true,
                _ => false,
            }
        } implies any_suppresses(events, op) by {
        assert(strikes(events[i], op) && put_suppressing(events[i].event));
    }
}

/// What the first striking fault is.
pub proof fn lemma_first_striking(events: Seq<ScheduledFault>, op: nat, from: nat)
    ensures
        match first_striking(events, op, from) {
            Some(i) => from <= i < events.len() && strikes(events[i as int], op) && forall|j: int|
                from <= j < i ==> !strikes(#[trigger] events[j], op),
            None => forall|j: int| from <= j < events.len() ==> !strikes(#[trigger] events[j], op),
        },
    decreases events.len() - from,
{
    if from < events.len() && !strikes(events[from as int], op) {
        lemma_first_striking(events, op, from + 1);
    }
}

/// A fault fires at an operation if and only if the plan schedules one for the
/// next count, whatever else it schedules.
pub proof fn plan_fires_at_right_op(plan: FaultPlan, op: u32)
    ensures
        striking(PlanState { plan: Some(plan), op_counter: op }) is Some <==> exists|i: int|
            0 <= i < plan.events@.len() && (#[trigger] plan.events@[i]).trigger == (
            FaultTrigger::AfterKvOp { n: (op + 1) as u32 }) && op < u32::MAX,
{
    lemma_first_striking(plan.events@, op as nat, 0);
    match first_striking(plan.events@, op as nat, 0) {
        Some(i) => {
            assert(plan.events@[i as int].trigger == (FaultTrigger::AfterKvOp {
                n: (op + 1) as u32,
            }));
        },
        None => {
            if exists|i: int|
                0 <= i < plan.events@.len() && (#[trigger] plan.events@[i]).trigger == (
                FaultTrigger::AfterKvOp { n: (op + 1) as u32 }) && op < u32::MAX {
                let i = choose|i: int|
                    0 <= i < plan.events@.len() && (#[trigger] plan.events@[i]).trigger == (
                    FaultTrigger::AfterKvOp { n: (op + 1) as u32 }) && op < u32::MAX;
                assert(strikes(plan.events@[i], op as nat));
            }
        },
    }
}

/// Every fault that a class schedules for an operation is due when the plan is
/// loaded and one operation less has been counted: none is out of reach.
pub proof fn scheduled_fault_is_due(
    seed: u64,
    class: WombatKvFailureClass,
    plan: FaultPlan,
    i: int,
    n: u32,
)
    requires
        schedules(seed, class, plan.events@),
        0 <= i < plan.events@.len(),
        plan.events@[i].trigger == (FaultTrigger::AfterKvOp { n }),
    ensures
        n >= 1,
        strikes(plan.events@[i], (n - 1) as nat),
        striking(PlanState { plan: Some(plan), op_counter: (n - 1) as u32 }) is Some,
{
    schedule_bounds(seed, class, plan.events@);
    lemma_first_striking(plan.events@, (n - 1) as nat, 0);
}

} // verus!

//! The worker behind a client: it takes one command after the other, sends the
//! request of each under the next id, and hands each caller one reply. A command
//! to shut down is its last.

use bytes::Bytes;
use vstd::prelude::*;

use crate::client::{
    accept_response, begin_command, blocks_finished, command_fits, exists_finished,
    finish_exists, finish_get, finish_get_kv_blocks_batch, finish_get_many, finish_list,
    finish_lookup_block_prefix, finish_put_kv_blocks_batch, finish_restore, finish_stats,
    finish_unit, get_finished, get_many_finished, list_finished, lookup_finished,
    put_blocks_finished, region_view, request_matches, restore_finished, stats_finished,
    status_fault, unit_finished, Command, RemoteError, RemoteFault, RemoteGetOutcome,
};
use crate::message::{ResponseFields, WireRequest, WireResponse};
use crate::op;
use crate::status;
use crate::text::dec;
use crate::wire::bytes_of;

verus! {

/// What the caller of a command waits for.
#[derive(Debug, Clone, Copy, PartialEq, Eq, Structural)]
pub enum ReplyKind {
    Unit,
    Get,
    GetMany,
    Exists,
    List,
    Restore,
    Stats,
    Lookup,
    GetBlocks,
    PutBlocks,
    Closed,
}

/// What the caller of a command is handed.
#[derive(Debug)]
pub enum Reply {
    Unit(Result<(), RemoteError>),
    Get(Result<RemoteGetOutcome, RemoteError>),
    GetMany(Result<Option<Bytes>, RemoteError>),
    Exists(Result<bool, RemoteError>),
    List(Result<Bytes, RemoteError>),
    Restore(Result<usize, RemoteError>),
    Stats(Result<String, RemoteError>),
    Lookup(Result<usize, RemoteError>),
    GetBlocks(Result<Option<Vec<Bytes>>, RemoteError>),
    PutBlocks(Result<u64, RemoteError>),
    /// The worker has shut down, whatever the daemon said to that.
    Closed,
}

/// What the caller of a command waits for.
pub open spec fn kind_of(command: Command) -> ReplyKind {
    match command {
        Command::Put { .. } => ReplyKind::Unit,
        Command::Get { .. } => ReplyKind::Get,
        Command::GetMany { .. } => ReplyKind::GetMany,
        Command::Exists { .. } => ReplyKind::Exists,
        Command::List { .. } => ReplyKind::List,
        Command::Restore { .. } => ReplyKind::Restore,
        Command::Clear => ReplyKind::Unit,
        Command::Ping => ReplyKind::Unit,
        Command::Stats => ReplyKind::Stats,
        Command::LookupBlockPrefix { .. } => ReplyKind::Lookup,
        Command::GetKvBlocksBatch { .. } => ReplyKind::GetBlocks,
        Command::PutKvBlocksBatch { .. } => ReplyKind::PutBlocks,
        Command::Shutdown => ReplyKind::Closed,
    }
}

/// Tells what the caller of a command waits for.
pub fn reply_kind(command: &Command) -> (kind: ReplyKind)
    ensures
        kind == kind_of(*command),
{
    match command {
        Command::Put { .. } => ReplyKind::Unit,
        Command::Get { .. } => ReplyKind::Get,
        Command::GetMany { .. } => ReplyKind::GetMany,
        Command::Exists { .. } => ReplyKind::Exists,
        Command::List { .. } => ReplyKind::List,
        Command::Restore { .. } => ReplyKind::Restore,
        Command::Clear => ReplyKind::Unit,
        Command::Ping => ReplyKind::Unit,
        Command::Stats => ReplyKind::Stats,
        Command::LookupBlockPrefix { .. } => ReplyKind::Lookup,
        Command::GetKvBlocksBatch { .. } => ReplyKind::GetBlocks,
        Command::PutKvBlocksBatch { .. } => ReplyKind::PutBlocks,
        Command::Shutdown => ReplyKind::Closed,
    }
}

/// Whether a reply is one that is waited for.
pub open spec fn is_kind(reply: Reply, kind: ReplyKind) -> bool {
    match reply {
        Reply::Unit(_) => kind is Unit,
        Reply::Get(_) => kind is Get,
        Reply::GetMany(_) => kind is GetMany,
        Reply::Exists(_) => kind is Exists,
        Reply::List(_) => kind is List,
        Reply::Restore(_) => kind is Restore,
        Reply::Stats(_) => kind is Stats,
        Reply::Lookup(_) => kind is Lookup,
        Reply::GetBlocks(_) => kind is GetBlocks,
        Reply::PutBlocks(_) => kind is PutBlocks,
        Reply::Closed => kind is Closed,
    }
}

/// The failure in a result.
pub open spec fn fault_of<T>(result: Result<T, RemoteError>) -> Option<RemoteFault> {
    match result {
        Ok(_) => None,
        Err(error) => Some(error@),
    }
}

/// The failure that a reply hands its caller.
pub open spec fn reply_fault(reply: Reply) -> Option<RemoteFault> {
    match reply {
        Reply::Unit(result) => fault_of(result),
        Reply::Get(result) => fault_of(result),
        Reply::GetMany(result) => fault_of(result),
        Reply::Exists(result) => fault_of(result),
        Reply::List(result) => fault_of(result),
        Reply::Restore(result) => fault_of(result),
        Reply::Stats(result) => fault_of(result),
        Reply::Lookup(result) => fault_of(result),
        Reply::GetBlocks(result) => fault_of(result),
        Reply::PutBlocks(result) => fault_of(result),
        Reply::Closed => None,
    }
}

/// Whether a reply hands its caller a failure. A worker that shuts down has
/// nobody to tell.
pub open spec fn fails(reply: Reply, kind: ReplyKind, fault: RemoteFault) -> bool {
    &&& is_kind(reply, kind)
    &&& kind !is Closed ==> reply_fault(reply) == Some(fault)
}

/// The reply that hands its caller a failure.
fn failure(kind: ReplyKind, error: RemoteError) -> (reply: Reply)
    ensures
        fails(reply, kind, error@),
{
    match kind {
        ReplyKind::Unit => Reply::Unit(Err(error)),
        ReplyKind::Get => Reply::Get(Err(error)),
        ReplyKind::GetMany => Reply::GetMany(Err(error)),
        ReplyKind::Exists => Reply::Exists(Err(error)),
        ReplyKind::List => Reply::List(Err(error)),
        ReplyKind::Restore => Reply::Restore(Err(error)),
        ReplyKind::Stats => Reply::Stats(Err(error)),
        ReplyKind::Lookup => Reply::Lookup(Err(error)),
        ReplyKind::GetBlocks => Reply::GetBlocks(Err(error)),
        ReplyKind::PutBlocks => Reply::PutBlocks(Err(error)),
        ReplyKind::Closed => Reply::Closed,
    }
}

/// Whether a reply is what a command makes of a response and the mapped arena.
pub open spec fn response_answers(
    reply: Reply,
    kind: ReplyKind,
    response: ResponseFields,
    arena: Option<Seq<u8>>,
) -> bool {
    &&& is_kind(reply, kind)
    &&& match reply {
        Reply::Unit(result) => unit_finished(response, result),
        Reply::Get(result) => get_finished(response, arena, result),
        Reply::GetMany(result) => get_many_finished(response, arena, result),
        Reply::Exists(result) => exists_finished(response, result),
        Reply::List(result) => list_finished(response, result),
        Reply::Restore(result) => restore_finished(response, result),
        Reply::Stats(result) => stats_finished(response, result),
        Reply::Lookup(result) => lookup_finished(response, result),
        Reply::GetBlocks(result) => blocks_finished(response, result),
        Reply::PutBlocks(result) => put_blocks_finished(response, result),
        Reply::Closed => true,
    }
}

/// What a command makes of a response.
fn response_reply(kind: ReplyKind, response: WireResponse, arena: Option<&[u8]>) -> (reply: Reply)
    ensures
        response_answers(reply, kind, response@, region_view(arena)),
{
    match kind {
        ReplyKind::Unit => Reply::Unit(finish_unit(response)),
        ReplyKind::Get => Reply::Get(finish_get(response, arena)),
        ReplyKind::GetMany => Reply::GetMany(finish_get_many(response, arena)),
        ReplyKind::Exists => Reply::Exists(finish_exists(response)),
        ReplyKind::List => Reply::List(finish_list(response)),
        ReplyKind::Restore => Reply::Restore(finish_restore(response)),
        ReplyKind::Stats => Reply::Stats(finish_stats(response)),
        ReplyKind::Lookup => Reply::Lookup(finish_lookup_block_prefix(response)),
        ReplyKind::GetBlocks => Reply::GetBlocks(finish_get_kv_blocks_batch(response)),
        ReplyKind::PutBlocks => Reply::PutBlocks(finish_put_kv_blocks_batch(response)),
        ReplyKind::Closed => Reply::Closed,
    }
}

/// The failure of a response that carries another id than its request.
pub open spec fn id_mismatch(request_id: u64, response_id: u64) -> RemoteFault {
    RemoteFault::Transport(
        "response id mismatch: req="@ + dec(request_id as nat) + " resp="@ + dec(
            response_id as nat,
        ),
    )
}

/// Whether a reply is what the caller of a command is owed for what came back:
/// the failure to send or receive, a mismatch of ids, or what the response says.
pub open spec fn answers(
    reply: Reply,
    kind: ReplyKind,
    id: u64,
    received: Result<WireResponse, RemoteError>,
    arena: Option<Seq<u8>>,
) -> bool {
    match received {
        Err(error) => fails(reply, kind, error@),
        Ok(response) => if response.id != id {
            fails(reply, kind, id_mismatch(id, response.id))
        } else {
            response_answers(reply, kind, response@, arena)
        },
    }
}

// ---- the worker ----

/// What a worker is at.
#[derive(Debug, Clone, Copy, PartialEq, Eq, Structural)]
pub enum Phase {
    /// It waits for a command.
    Idle,
    /// It waits for the response to a request.
    Awaiting { id: u64, kind: ReplyKind },
    /// It has shut down.
    Ended,
}

/// A worker.
#[derive(Debug)]
pub struct Worker {
    pub next_id: u64,
    pub phase: Phase,
}

/// What a worker does with a command: it has a request sent, or replies at once
/// where none can be built.
#[derive(Debug)]
pub enum WorkerStep {
    Send(WireRequest),
    Refuse(Reply),
}

/// How a worker takes a command.
pub open spec fn begins(before: Worker, command: Command, step: WorkerStep, after: Worker) -> bool {
    &&& before.phase is Idle
    &&& after.next_id == (before.next_id + 1) % 0x1_0000_0000_0000_0000
    &&& match step {
        WorkerStep::Send(request) => {
            &&& request_matches(command, before.next_id, Ok(request@))
            &&& after.phase == (Phase::Awaiting { id: before.next_id, kind: kind_of(command) })
        },
        WorkerStep::Refuse(reply) => {
            &&& after.phase is Idle
            &&& exists|fault: RemoteFault| #[trigger]
                request_matches(command, before.next_id, Err(fault)) && fails(
                    reply,
                    kind_of(command),
                    fault,
                )
        },
    }
}

/// How a worker takes what came back for its request.
pub open spec fn finishes(
    before: Worker,
    received: Result<WireResponse, RemoteError>,
    arena: Option<Seq<u8>>,
    reply: Reply,
    after: Worker,
) -> bool {
    &&& before.phase matches Phase::Awaiting { id, kind }
    &&& after.next_id == before.next_id
    &&& after.phase == if kind is Closed {
        Phase::Ended
    } else {
        Phase::Idle
    }
    &&& answers(reply, kind, id, received, arena)
}

impl Worker {
    /// A worker that has sent nothing.
    pub fn new() -> (worker: Worker)
        ensures
            worker == (Worker { next_id: 0, phase: Phase::Idle }),
    {
        Worker { next_id: 0, phase: Phase::Idle }
    }

    /// Whether the worker takes no more commands.
    pub fn has_ended(&self) -> (ended: bool)
        ensures
            ended == (self.phase is Ended),
    {
        match self.phase {
            Phase::Ended => true,
            _ => false,
        }
    }

    /// Take a command. Its id is used up even where no request can be built.
    pub fn begin(&mut self, command: Command) -> (step: WorkerStep)
        requires
            old(self).phase is Idle,
            command_fits(command),
        ensures
            begins(*old(self), command, step, *final(self)),
    {
        let kind: ReplyKind = reply_kind(&command);
        let ghost asked = command;
        let id: u64 = self.next_id;
        let mut next_id: u64 = id;
        let built = begin_command(&mut next_id, command);
        self.next_id = next_id;
        match built {
            Ok(request) => {
                self.phase = Phase::Awaiting { id, kind };
                WorkerStep::Send(request)
            },
            Err(error) => {
                assert(request_matches(asked, id, Err(error@)));
                WorkerStep::Refuse(failure(kind, error))
            },
        }
    }

    /// Take what came back for the request: the response, or the failure to send
    /// the one or receive the other.
    pub fn finish(
        &mut self,
        received: Result<WireResponse, RemoteError>,
        arena: Option<&[u8]>,
    ) -> (reply: Reply)
        requires
            old(self).phase is Awaiting,
        ensures
            finishes(*old(self), received, region_view(arena), reply, *final(self)),
    {
        let (id, kind) = match self.phase {
            Phase::Awaiting { id, kind } => (id, kind),
            _ => (0, ReplyKind::Closed),
        };
        self.phase = match kind {
            ReplyKind::Closed => Phase::Ended,
            _ => Phase::Idle,
        };
        match received {
            Err(error) => failure(kind, error),
            Ok(response) => match accept_response(id, response) {
                Ok(response) => response_reply(kind, response, arena),
                Err(error) => failure(kind, error),
            },
        }
    }
}

// ---- laws ----

/// One command of a run: what the worker did with it, what came back where it
/// had a request sent, and what the caller was handed.
pub struct Turn {
    pub command: Command,
    pub step: WorkerStep,
    pub received: Result<WireResponse, RemoteError>,
    pub arena: Option<Seq<u8>>,
    pub reply: Reply,
}

/// Whether a worker takes a turn.
pub open spec fn takes_turn(before: Worker, turn: Turn, after: Worker) -> bool {
    match turn.step {
        WorkerStep::Send(_) => exists|waiting: Worker| #[trigger]
            begins(before, turn.command, turn.step, waiting) && finishes(
                waiting,
                turn.received,
                turn.arena,
                turn.reply,
                after,
            ),
        WorkerStep::Refuse(reply) => begins(before, turn.command, turn.step, after) && reply
            == turn.reply,
    }
}

/// Whether a new worker takes turns one after the other.
pub open spec fn runs(workers: Seq<Worker>, turns: Seq<Turn>) -> bool {
    &&& workers.len() == turns.len() + 1
    &&& workers[0] == (Worker { next_id: 0, phase: Phase::Idle })
    &&& forall|k: int|
        0 <= k < turns.len() ==> #[trigger] takes_turn(workers[k], turns[k], workers[k + 1])
}

/// What the status of a response makes of a reply: `OK` succeeds where the
/// response can be read, `MISS` is a miss where the command knows misses, and
/// any other status fails with the status and the message.
pub open spec fn status_decides(reply: Reply, response: ResponseFields) -> bool {
    if response.status == status::OK {
        match reply {
            Reply::Unit(result) => result is Ok,
            Reply::Get(result) => !(result matches Ok(RemoteGetOutcome::Miss)),
            Reply::GetMany(result) => !(result matches Ok(None)),
            Reply::Exists(result) => result == Ok::<bool, RemoteError>(true),
            Reply::List(result) => result matches Ok(batch) && bytes_of(batch) == response.payload,
            Reply::Stats(result) => result matches Ok(text) && text@ == response.message,
            _ => true,
        }
    } else if response.status == status::MISS && (reply is Get || reply is GetMany
        || reply is Exists) {
        match reply {
            Reply::Get(result) => result matches Ok(RemoteGetOutcome::Miss),
            Reply::GetMany(result) => result matches Ok(None),
            Reply::Exists(result) => result == Ok::<bool, RemoteError>(false),
            _ => true,
        }
    } else {
        reply !is Closed ==> reply_fault(reply) == Some(status_fault(response))
    }
}

proof fn lemma_status_decides(
    reply: Reply,
    kind: ReplyKind,
    response: ResponseFields,
    arena: Option<Seq<u8>>,
)
    requires
        response_answers(reply, kind, response, arena),
    ensures
        status_decides(reply, response),
{
}

proof fn lemma_ids_count(workers: Seq<Worker>, turns: Seq<Turn>, k: int)
    requires
        runs(workers, turns),
        0 <= k <= turns.len(),
    ensures
        workers[k].next_id == k % 0x1_0000_0000_0000_0000,
    decreases k,
{
    if k > 0 {
        lemma_ids_count(workers, turns, k - 1);
        assert(takes_turn(workers[k - 1], turns[k - 1], workers[k - 1 + 1]));
    }
}

/// In a run of a worker, the caller of each command is handed one reply, of the
/// kind it waits for. The request of the `k`-th command is sent under the id `k`,
/// modulo two to the 64th, and the reply is what came back for that request, as
/// its status decides; a command of which no request can be built is refused with
/// the reason. A command to shut down sends a close and is the last one.
pub proof fn every_command_is_answered(workers: Seq<Worker>, turns: Seq<Turn>, k: int)
    requires
        runs(workers, turns),
        0 <= k < turns.len(),
    ensures
        ({
            let turn = turns[k];
            let id = (k % 0x1_0000_0000_0000_0000) as u64;
            &&& is_kind(turn.reply, kind_of(turn.command))
            &&& match turn.step {
                WorkerStep::Send(request) => {
                    &&& request.id == id
                    &&& request_matches(turn.command, id, Ok(request@))
                    &&& answers(
                        turn.reply,
                        kind_of(turn.command),
                        id,
                        turn.received,
                        turn.arena,
                    )
                    &&& match turn.received {
                        Ok(response) => response.id == id ==> status_decides(turn.reply, response@),
                        Err(_) => true,
                    }
                },
                WorkerStep::Refuse(reply) => exists|fault: RemoteFault| #[trigger]
                    request_matches(turn.command, id, Err(fault)) && fails(
                        turn.reply,
                        kind_of(turn.command),
                        fault,
                    ),
            }
            &&& turn.command is Shutdown ==> {
                &&& turn.step matches WorkerStep::Send(request)
                &&& request.op == op::CLOSE
                &&& k + 1 == turns.len()
                &&& workers[k + 1].phase is Ended
            }
            &&& turn.command !is Shutdown ==> workers[k + 1].phase is Idle
        }),
{
    let turn = turns[k];
    let before = workers[k];
    lemma_ids_count(workers, turns, k);
    assert(takes_turn(before, turn, workers[k + 1]));
    assert(before.next_id == (k % 0x1_0000_0000_0000_0000) as u64);
    if let WorkerStep::Refuse(reply) = turn.step {
        assert(exists|fault: RemoteFault| #[trigger]
            request_matches(turn.command, before.next_id, Err(fault)) && fails(
                turn.reply,
                kind_of(turn.command),
                fault,
            ));
    }
    if let WorkerStep::Send(request) = turn.step {
        if let Ok(response) = turn.received {
            if response.id == before.next_id {
                lemma_status_decides(turn.reply, kind_of(turn.command), response@, turn.arena);
            }
        }
    }
    if k + 1 < turns.len() {
        assert(takes_turn(workers[k + 1], turns[k + 1], workers[k + 1 + 1]));
    }
}

/// A caller is handed what its own command makes of the response: a get a value, an
/// exists an answer, a block put a count, and so on.
pub proof fn reply_is_that_of_the_command(before: Worker, turn: Turn, after: Worker)
    requires
        takes_turn(before, turn, after),
        turn.step is Send,
        turn.received matches Ok(response) && response.id == before.next_id,
    ensures
        ({
            let response = turn.received->Ok_0@;
            match turn.command {
                Command::Put { .. } => turn.reply matches Reply::Unit(result) && unit_finished(
                    response,
                    result,
                ),
                Command::Clear => turn.reply matches Reply::Unit(result) && unit_finished(
                    response,
                    result,
                ),
                Command::Ping => turn.reply matches Reply::Unit(result) && unit_finished(
                    response,
                    result,
                ),
                Command::Get { .. } => turn.reply matches Reply::Get(result) && get_finished(
                    response,
                    turn.arena,
                    result,
                ),
                Command::GetMany { .. } => turn.reply matches Reply::GetMany(result)
                    && get_many_finished(response, turn.arena, result),
                Command::Exists { .. } => turn.reply matches Reply::Exists(result)
                    && exists_finished(response, result),
                Command::List { .. } => turn.reply matches Reply::List(result) && list_finished(
                    response,
                    result,
                ),
                Command::Restore { .. } => turn.reply matches Reply::Restore(result)
                    && restore_finished(response, result),
                Command::Stats => turn.reply matches Reply::Stats(result) && stats_finished(
                    response,
                    result,
                ),
                Command::LookupBlockPrefix { .. } => turn.reply matches Reply::Lookup(result)
                    && lookup_finished(response, result),
                Command::GetKvBlocksBatch { .. } => turn.reply matches Reply::GetBlocks(result)
                    && blocks_finished(response, result),
                Command::PutKvBlocksBatch { .. } => turn.reply matches Reply::PutBlocks(result)
                    && put_blocks_finished(response, result),
                Command::Shutdown => turn.reply is Closed,
            }
        }),
{
}

/// A caller whose request could not be sent or answered, or was answered under another
/// id, is handed that failure, whatever its command.
pub proof fn failure_reaches_the_caller(before: Worker, turn: Turn, after: Worker)
    requires
        takes_turn(before, turn, after),
        turn.step is Send,
        turn.command !is Shutdown,
        turn.received matches Ok(response) ==> response.id != before.next_id,
    ensures
        ({
            let fault = match turn.received {
                Err(error) => error@,
                Ok(response) => RemoteFault::Transport(
                    "response id mismatch: req="@ + dec(before.next_id as nat) + " resp="@ + dec(
                        response.id as nat,
                    ),
                ),
            };
            match turn.reply {
                Reply::Unit(result) => result matches Err(error) && error@ == fault,
                Reply::Get(result) => result matches Err(error) && error@ == fault,
                Reply::GetMany(result) => result matches Err(error) && error@ == fault,
                Reply::Exists(result) => result matches Err(error) && error@ == fault,
                Reply::List(result) => result matches Err(error) && error@ == fault,
                Reply::Restore(result) => result matches Err(error) && error@ == fault,
                Reply::Stats(result) => result matches Err(error) && error@ == fault,
                Reply::Lookup(result) => result matches Err(error) && error@ == fault,
                Reply::GetBlocks(result) => result matches Err(error) && error@ == fault,
                Reply::PutBlocks(result) => result matches Err(error) && error@ == fault,
                Reply::Closed => false,
            }
        }),
{
}

} // verus!

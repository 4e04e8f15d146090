//! What serving comes to, seen from outside: a request is served against a world
//! of stored values, an index and an arena, each piece of work being done on that
//! world. The laws say what the client is told and what the world is afterwards.

use vstd::prelude::*;
use vstd::utf8::encode_utf8;

use crate::archive::is_short;
use crate::arena::{
    arena_key_text, arena_ok, slab_bytes, slab_live, slab_start, with_payload, wraps, ArenaSlab,
    ARENA_HEADER_BYTES,
};
use crate::blocks::{
    get_req_decoded, get_resp_decoded, lookup_req_decoded, lookup_resp_decoded, put_req_decoded,
    put_resp_decoded, CountFields, HashListFields, PayloadsFields, PutFields,
};
use crate::client::{carried_bytes, tier_of, RemoteFault, RemoteHitTier};
use crate::dispatch::{
    as_numbers, awaits, batch_reply, blocks_answered, blocks_fate, chunks_continue, first_error,
    get_blocks_starts, goal_is_get, goal_reply, many_adds, many_at_tier, many_chunks_continue,
    many_continues, many_with, materializes, put_blocks_answered, put_blocks_starts, puts,
    read_with, responds, resumes, saturating_total, sizes_of, slab_reply_read_back, starts,
    tier_number, tier_reply_read_back, tier_with, unfetched, unstored, Action, BlockFault, BlocksFate, DispatchConfig,
    Event, Goal, HitTier, ManyGet, Stage, Step, StoreGet, Target,
};
use crate::hashes::{block_keys_of, hash_bytes, hashes_parsed};
use crate::large::{chunk_key_text, manifest_parsed, LargeRead, ManifestFields};
use crate::message::{RequestFields, WireResponse};
use crate::text::{blobs, lemma_dec_parses, parsed_uint, texts};
use crate::wire::{
    buffers, bytes_batch_bytes, bytes_batch_decoded, bytes_batch_round_trip, bytes_of,
    key_batch_bytes, key_batch_decoded, key_batch_round_trip, lemma_batch_holds_items, total_of,
    WireFault, FRAME_DATA_BYTES,
};
use crate::{op, status};

verus! {

// ---- the world ----

/// What the daemon works on.
pub struct World {
    /// The stored values by namespace and key.
    pub store: Map<(Seq<char>, Seq<char>), Seq<u8>>,
    /// The hashes of the indexed blocks.
    pub index: Set<Seq<u8>>,
    /// The remembered slabs.
    pub slabs: Map<Seq<char>, ArenaSlab>,
    /// The arena.
    pub region: Seq<u8>,
    /// The smallest payload that goes into the arena.
    pub min_bytes: nat,
}

/// Whether a namespace holds a value under a key.
pub open spec fn holds(world: World, namespace: Seq<char>, key: Seq<char>) -> bool {
    world.store.dom().contains((namespace, key))
}

/// The value that a namespace holds under a key.
pub open spec fn value_of(world: World, namespace: Seq<char>, key: Seq<char>) -> Seq<u8> {
    world.store[(namespace, key)]
}

/// The world with a value stored.
pub open spec fn with_value(
    world: World,
    namespace: Seq<char>,
    key: Seq<char>,
    value: Seq<u8>,
) -> World {
    World { store: world.store.insert((namespace, key), value), ..world }
}

/// The first `n` chunks of a large value, one behind the other.
pub open spec fn chunks_joined(world: World, namespace: Seq<char>, id: Seq<char>, n: nat) -> Seq<u8>
    decreases n,
{
    if n == 0 {
        Seq::empty()
    } else {
        chunks_joined(world, namespace, id, (n - 1) as nat) + value_of(
            world,
            namespace,
            chunk_key_text(id, (n - 1) as nat),
        )
    }
}

/// Whether a namespace holds the first `n` chunks of a large value.
pub open spec fn holds_chunks(world: World, namespace: Seq<char>, id: Seq<char>, n: nat) -> bool {
    forall|i: nat| i < n ==> holds(world, namespace, #[trigger] chunk_key_text(id, i))
}

/// The value that a stored payload stands for: itself, or the chunks that it lists
/// if it is a manifest, provided that they are all there and add up.
pub open spec fn meant_by(world: World, namespace: Seq<char>, payload: Seq<u8>) -> Option<Seq<u8>> {
    match manifest_parsed(payload) {
        None => Some(payload),
        Some(manifest) => {
            let joined = chunks_joined(world, namespace, manifest.id, manifest.chunk_count);
            if holds_chunks(world, namespace, manifest.id, manifest.chunk_count) && joined.len()
                == manifest.total_len {
                Some(joined)
            } else {
                None
            }
        },
    }
}

/// Whether a slab lies in the arena and holds the given bytes.
pub open spec fn slab_has(world: World, slab: ArenaSlab, bytes: Seq<u8>) -> bool {
    slab_live(slab, world.region) && slab_bytes(slab, world.region) == bytes
}

/// Whether a remembered slab for a key holds the value that is meant by what is
/// stored under the key.
pub open spec fn slab_is_current(world: World, namespace: Seq<char>, key: Seq<char>) -> bool {
    let name = arena_key_text(namespace, key);
    world.slabs.dom().contains(name) ==> holds(world, namespace, key) && (meant_by(
        world,
        namespace,
        value_of(world, namespace, key),
    ) matches Some(value) && slab_has(world, world.slabs[name], value))
}

// ---- work ----

/// What writing a slab does. A payload below the smallest size is not written.
pub open spec fn slab_written(
    before: World,
    name: Option<Seq<char>>,
    bytes: Seq<u8>,
    tier: u8,
    written: Result<Option<ArenaSlab>, String>,
    after: World,
) -> bool {
    match written {
        Err(_) => after == before,
        Ok(None) => after == before && bytes.len() < before.min_bytes,
        Ok(Some(slab)) => {
            let kept = if wraps(before.region, bytes.len()) {
                Map::empty()
            } else {
                before.slabs
            };
            &&& before.min_bytes <= bytes.len() <= before.region.len() - ARENA_HEADER_BYTES
            &&& slab.offset == slab_start(before.region, bytes.len())
            &&& slab.len == bytes.len() % 0x1_0000_0000
            &&& slab.tier == tier
            &&& after == World {
                region: with_payload(before.region, bytes),
                slabs: match name {
                    Some(n) => kept.insert(n, slab),
                    None => kept,
                },
                ..before
            }
        },
    }
}

/// Whether a count is that of the leading hashes that the index knows.
pub open spec fn leading_known(index: Set<Seq<u8>>, hashes: Seq<Seq<u8>>, count: nat) -> bool {
    &&& count <= hashes.len()
    &&& forall|i: int| 0 <= i < count ==> index.contains(#[trigger] hashes[i])
    &&& count < hashes.len() ==> !index.contains(hashes[count as int])
}

/// Whether results are those of fetching the values of keys, one for each.
pub open spec fn blocks_fetched(
    world: World,
    namespace: Seq<char>,
    keys: Seq<Seq<char>>,
    results: Seq<Result<Option<Vec<u8>>, BlockFault>>,
) -> bool {
    &&& results.len() == keys.len()
    &&& forall|i: int|
        0 <= i < keys.len() ==> match #[trigger] results[i] {
            Ok(Some(payload)) => holds(world, namespace, keys[i]) && payload@ == value_of(
                world,
                namespace,
                keys[i],
            ),
            Ok(None) => !holds(world, namespace, keys[i]),
            Err(_) => true,
        }
}

/// Whether bytes are those stored in a namespace under a key.
pub open spec fn is_stored(
    world: World,
    namespace: Seq<char>,
    key: Seq<char>,
    bytes: Seq<u8>,
) -> bool {
    holds(world, namespace, key) && bytes == value_of(world, namespace, key)
}

/// Whether every block was stored.
pub open spec fn all_stored(results: Seq<Result<(), BlockFault>>) -> bool {
    forall|i: int| 0 <= i < results.len() ==> (#[trigger] results[i]) is Ok
}

/// The world with values stored under keys, one after the other.
pub open spec fn with_blocks(
    world: World,
    namespace: Seq<char>,
    keys: Seq<Seq<char>>,
    payloads: Seq<Seq<u8>>,
) -> World
    decreases keys.len(),
{
    if keys.len() == 0 || keys.len() != payloads.len() {
        world
    } else {
        with_value(
            with_blocks(world, namespace, keys.drop_last(), payloads.drop_last()),
            namespace,
            keys.last(),
            payloads.last(),
        )
    }
}

/// What a piece of work makes of the world, and what it is answered.
pub open spec fn performed(before: World, action: Action, event: Event, after: World) -> bool {
    match (action, event) {
        (Action::SpawnPut { .. }, Event::Spawned(_)) => after == before,
        (Action::PutKv { namespace, key, payload }, Event::Stored(stored)) => match stored {
            Ok(_) => after == with_value(before, namespace@, key@, bytes_of(payload)),
            Err(_) => true,
        },
        (Action::GetKv { namespace, key }, Event::Got(got)) => after == before && match got {
            Ok(StoreGet::Hit { tier, payload }) => holds(before, namespace@, key@) && bytes_of(
                payload,
            ) == value_of(before, namespace@, key@),
            Ok(StoreGet::Miss) => !holds(before, namespace@, key@),
            Err(_) => true,
        },
        (Action::ExistsKv { namespace, key }, Event::Found(found)) => after == before && (
        found matches Ok(is) ==> is == holds(before, namespace@, key@)),
        (Action::ListKvKeys { namespace }, Event::Listed(listed)) => after == before && (
        listed matches Ok(keys) ==> forall|key: Seq<char>|
            holds(before, namespace@, key) <==> #[trigger] texts(keys@).contains(key)),
        (Action::LookupSlab { namespace, key }, Event::SlabFound(slab)) => {
            let name = arena_key_text(namespace@, key@);
            after == before && match slab {
                Some(s) => before.slabs.dom().contains(name) && before.slabs[name] == s,
                None => !before.slabs.dom().contains(name),
            }
        },
        (
            Action::RememberSlab { namespace, key, bytes, tier },
            Event::SlabWritten(written),
        ) => slab_written(
            before,
            Some(arena_key_text(namespace@, key@)),
            bytes_of(bytes),
            tier,
            written,
            after,
        ),
        (Action::WriteSlab { bytes, tier }, Event::SlabWritten(written)) => slab_written(
            before,
            None,
            bytes_of(bytes),
            tier,
            written,
            after,
        ),
        (Action::ClearSlabs, Event::Done) => after == World { slabs: Map::empty(), ..before },
        (Action::ClearFoyer, Event::Done) => after == before,
        (Action::Metrics, Event::Metrics(_)) => after == before,
        (Action::RestoreFromS3 { .. }, Event::Restored(_)) => after == before,
        (Action::LongestPrefix { hashes }, Event::Matched(count)) => after == before
            && leading_known(before.index, hash_bytes(hashes@), count as nat),
        (Action::GetBlocks { namespace, keys }, Event::BlocksGot(results)) => after == before
            && blocks_fetched(before, namespace@, texts(keys@), results@),
        (
            Action::PutBlocks { namespace, keys, payloads },
            Event::BlocksStored(results),
        ) => all_stored(results@) ==> after == with_blocks(
            before,
            namespace@,
            texts(keys@),
            blobs(payloads@),
        ),
        (Action::IndexBlocks { hashes, sizes }, Event::Done) => after == World {
            index: before.index.union(hash_bytes(hashes@).to_set()),
            ..before
        },
        _ => true,
    }
}

/// Whether a request is served to a response.
pub open spec fn served(
    config: DispatchConfig,
    request: RequestFields,
    steps: Seq<Step>,
    events: Seq<Event>,
    worlds: Seq<World>,
    response: WireResponse,
) -> bool {
    starts(config, request, steps[0]) && ran(config, steps, events, worlds, response)
}

/// Whether steps lead to a response, each piece of work being done on the world that
/// the one before it left.
pub open spec fn ran(
    config: DispatchConfig,
    steps: Seq<Step>,
    events: Seq<Event>,
    worlds: Seq<World>,
    response: WireResponse,
) -> bool {
    &&& steps.len() == events.len() + 1
    &&& worlds.len() == events.len() + 1
    &&& forall|i: int|
        0 <= i < events.len() ==> goes_on(config, #[trigger] steps[i], events[i], worlds[i], steps[i
            + 1], worlds[i + 1])
    &&& steps.last() == Step::Respond(response)
}

/// Whether a step is a piece of work that is done and followed by another step.
pub open spec fn goes_on(
    config: DispatchConfig,
    step: Step,
    event: Event,
    before: World,
    next: Step,
    after: World,
) -> bool {
    &&& step matches Step::Act { action, then }
    &&& awaits(then, event)
    &&& performed(before, action, event, after)
    &&& resumes(config, then, event, next)
}

/// Whether a piece of work on the store failed.
pub open spec fn store_failed(event: Event) -> bool {
    match event {
        Event::Stored(stored) => stored is Err,
        Event::Got(got) => got is Err,
        Event::Found(found) => found is Err,
        Event::Listed(listed) => listed is Err,
        Event::Restored(restored) => restored is Err,
        _ => false,
    }
}

/// Whether a piece of work on the arena failed.
pub open spec fn arena_failed(event: Event) -> bool {
    event matches Event::SlabWritten(written) && written is Err
}

/// Whether the world has the arena that the daemon is set up with.
pub open spec fn arena_matches(config: DispatchConfig, world: World) -> bool {
    config.arena_min_bytes matches Some(min_bytes) ==> world.min_bytes == min_bytes && arena_ok(
        world.region,
    ) && crate::arena::wrap_epoch_of(world.region) < u64::MAX
}

proof fn lemma_slab_written(
    before: World,
    name: Option<Seq<char>>,
    bytes: Seq<u8>,
    tier: u8,
    slab: ArenaSlab,
    after: World,
)
    requires
        slab_written(
            before,
            name,
            bytes,
            tier,
            Ok::<Option<ArenaSlab>, String>(Some(slab)),
            after,
        ),
        arena_ok(before.region),
        crate::arena::wrap_epoch_of(before.region) < u64::MAX,
        bytes.len() <= u32::MAX,
    ensures
        slab_has(after, slab, bytes),
        slab.offset + slab.len <= after.region.len(),
        arena_ok(after.region),
{
    crate::arena::arena_header_after_write(before.region, bytes);
    crate::arena::arena_read_back(before.region, bytes);
}

// ---- chunks ----

/// A large value while its chunks are fetched: what has been read is the first
/// chunks that the store holds, in order.
pub open spec fn read_so_far(
    world: World,
    namespace: Seq<char>,
    manifest: ManifestFields,
    read: LargeRead,
) -> bool {
    &&& read.manifest@ == manifest
    &&& read.next <= manifest.chunk_count
    &&& holds_chunks(world, namespace, manifest.id, read.next as nat)
    &&& read.out@ == chunks_joined(world, namespace, manifest.id, read.next as nat)
}

proof fn lemma_chunk_read(
    world: World,
    namespace: Seq<char>,
    manifest: ManifestFields,
    read: LargeRead,
    after: LargeRead,
    key: Seq<char>,
    chunk: Seq<u8>,
)
    requires
        read_so_far(world, namespace, manifest, read),
        read.next < manifest.chunk_count,
        key == chunk_key_text(manifest.id, read.next as nat),
        holds(world, namespace, key),
        chunk == value_of(world, namespace, key),
        read_with(read, chunk, after),
    ensures
        read_so_far(world, namespace, manifest, after),
{
    assert forall|i: nat| i < after.next implies holds(
        world,
        namespace,
        #[trigger] chunk_key_text(manifest.id, i),
    ) by {
        if i < read.next {
        }
    }
}

// ---- getting ----

/// Whether bytes are those of a stored value: as it is stored, or as it is meant.
pub open spec fn is_value(
    world: World,
    namespace: Seq<char>,
    key: Seq<char>,
    bytes: Seq<u8>,
) -> bool {
    holds(world, namespace, key) && (bytes == value_of(world, namespace, key) || meant_by(
        world,
        namespace,
        value_of(world, namespace, key),
    ) == Some(bytes))
}

/// Whether a goal is to answer a get of a key with what is stored under it.
spec fn gets_value(goal: Goal, world: World, namespace: Seq<char>, key: Seq<char>) -> bool {
    holds(world, namespace, key) && goal_is_get(goal, value_of(world, namespace, key))
}

/// The tier that a client is told for a hit.
pub open spec fn told_tier(tier: HitTier) -> RemoteHitTier {
    match tier {
        HitTier::Foyer => RemoteHitTier::Foyer,
        HitTier::ObjectStore => RemoteHitTier::ObjectStore,
    }
}

/// The tier that a client is told for a slab.
pub open spec fn slab_tier(slab: ArenaSlab) -> RemoteHitTier {
    if slab.tier == 1 {
        RemoteHitTier::Foyer
    } else {
        RemoteHitTier::ObjectStore
    }
}

/// Whether bytes are the value that is meant where they have to be: on a daemon with
/// an arena whose store and arena did not fail, for a value that is large enough.
pub open spec fn is_resolved(
    config: DispatchConfig,
    world: World,
    namespace: Seq<char>,
    key: Seq<char>,
    fine: bool,
    bytes: Seq<u8>,
) -> bool {
    fine ==> (config.arena_min_bytes matches Some(min_bytes) ==> (meant_by(
        world,
        namespace,
        value_of(world, namespace, key),
    ) matches Some(value) ==> (value.len() >= min_bytes ==> bytes == value)))
}

/// Whether no slab was remembered or replaced but the one of the given name.
pub open spec fn slabs_kept(before: World, after: World, name: Option<Seq<char>>) -> bool {
    forall|n: Seq<char>| #[trigger]
        after.slabs.dom().contains(n) && name != Some(n) ==> before.slabs.dom().contains(n)
            && after.slabs[n] == before.slabs[n]
}

/// Whether a response to a get is right: a value that is there, with the tier it was
/// hit in or that of its slab, a miss where there is none, and an error only where the
/// store failed.
pub open spec fn get_is_right(
    config: DispatchConfig,
    before: World,
    after: World,
    namespace: Seq<char>,
    key: Seq<char>,
    hit: Option<HitTier>,
    clean: bool,
    fine: bool,
    response: WireResponse,
) -> bool {
    if response.status == status::OK {
        &&& carried_bytes(response@, Some(after.region)) matches Ok(bytes)
        &&& is_value(before, namespace, key, bytes)
        &&& is_resolved(config, before, namespace, key, fine, bytes)
        &&& match hit {
            Some(tier) => tier_of(response.message@) == told_tier(tier),
            None => before.slabs.dom().contains(arena_key_text(namespace, key)) && tier_of(
                response.message@,
            ) == slab_tier(before.slabs[arena_key_text(namespace, key)]),
        }
    } else if response.status == status::MISS {
        !holds(before, namespace, key)
    } else {
        response.status == status::ERROR && !clean
    }
}

/// Whether none of the first `k` pieces of work failed on the store.
pub open spec fn clean(events: Seq<Event>, k: nat) -> bool {
    forall|i: int| 0 <= i < k ==> !store_failed(#[trigger] events[i])
}

/// The tier in which the value itself was hit among the first `k` pieces of work.
pub open spec fn hit_in(steps: Seq<Step>, events: Seq<Event>, k: nat) -> Option<HitTier>
    decreases k,
{
    if k == 0 {
        None
    } else {
        match (steps[k - 1], events[k - 1]) {
            (
                Step::Act { then: Stage::Getting { .. }, .. },
                Event::Got(Ok(StoreGet::Hit { tier, .. })),
            ) => Some(tier),
            _ => hit_in(steps, events, (k - 1) as nat),
        }
    }
}

#[verifier::opaque]
spec fn get_on_track(
    config: DispatchConfig,
    request: RequestFields,
    first: World,
    world: World,
    hit: Option<HitTier>,
    clean: bool,
    fine: bool,
    step: Step,
) -> bool {
    let (namespace, key) = (request.namespace, request.key);
    match step {
        Step::Act { action, then } => world == first && match then {
            Stage::LookingUp { id, namespace: n, key: k } => {
                &&& hit is None
                &&& config.arena_min_bytes is Some
                &&& n@ == namespace
                &&& k@ == key
                &&& action matches Action::LookupSlab { namespace: an, key: ak }
                &&& an@ == namespace
                &&& ak@ == key
            },
            Stage::Getting { id, namespace: n, key: k } => {
                &&& hit is None
                &&& n@ == namespace
                &&& k@ == key
                &&& action matches Action::GetKv { namespace: an, key: ak }
                &&& an@ == namespace
                &&& ak@ == key
            },
            Stage::Chunk { target, read, goal } => {
                &&& config.arena_min_bytes is Some
                &&& hit matches Some(tier) && target.tier == tier_number(tier)
                &&& target.namespace@ == namespace
                &&& target.key@ == key
                &&& gets_value(goal, first, namespace, key)
                &&& manifest_parsed(value_of(first, namespace, key)) matches Some(manifest)
                &&& read_so_far(first, namespace, manifest, read)
                &&& read.next < manifest.chunk_count
                &&& action matches Action::GetKv { namespace: an, key: ak }
                &&& an@ == namespace
                &&& ak@ == chunk_key_text(manifest.id, read.next as nat)
            },
            Stage::Slab { id, tier, goal } => {
                &&& config.arena_min_bytes is Some
                &&& hit matches Some(h) && tier == tier_number(h)
                &&& gets_value(goal, first, namespace, key)
                &&& action matches Action::RememberSlab { namespace: an, key: ak, bytes, tier: t }
                &&& an@ == namespace
                &&& ak@ == key
                &&& t == tier
                &&& is_value(first, namespace, key, bytes_of(bytes))
                &&& meant_by(first, namespace, value_of(first, namespace, key)) == Some(
                    bytes_of(bytes),
                )
            },
            _ => false,
        },
        Step::Respond(response) => {
            &&& get_is_right(
                config,
                first,
                world,
                namespace,
                key,
                hit,
                clean,
                fine,
                response,
            )
            &&& world.store == first.store
            &&& slabs_kept(first, world, Some(arena_key_text(namespace, key)))
            &&& config.arena_min_bytes is Some ==> slab_is_current(world, namespace, key)
        },
        Step::Overlong { .. } => false,
    }
}

/// Whether a step writes no slab whose length 32 bits cannot hold.
pub open spec fn slab_is_short(step: Step) -> bool {
    step matches Step::Act { action, then } ==> match action {
        Action::RememberSlab { namespace, key, bytes, tier } => bytes_of(bytes).len() <= u32::MAX,
        Action::WriteSlab { bytes, tier } => bytes_of(bytes).len() <= u32::MAX,
        _ => true,
    }
}

/// Whether a run writes no such slab.
pub open spec fn slabs_are_short(steps: Seq<Step>) -> bool {
    forall|i: int| 0 <= i < steps.len() ==> slab_is_short(#[trigger] steps[i])
}

/// Whether the first `k` pieces of work failed neither on the store nor on the arena.
pub open spec fn flawless(events: Seq<Event>, k: nat) -> bool {
    forall|i: int|
        0 <= i < k ==> !store_failed(#[trigger] events[i]) && !arena_failed(events[i])
}

/// Whether a background put was started among the first `k` pieces of work.
pub open spec fn put_in_background(events: Seq<Event>, k: nat) -> bool {
    exists|i: int| 0 <= i < k && #[trigger] events[i] == Event::Spawned(true)
}

proof fn lemma_clean(events: Seq<Event>, k: nat)
    requires
        0 < k <= events.len(),
    ensures
        ({
            let before = (k - 1) as nat;
            let event = events[k - 1];
            &&& clean(events, k) == (clean(events, before) && !store_failed(event))
            &&& flawless(events, k) == (flawless(events, before) && !store_failed(event)
                && !arena_failed(event))
            &&& put_in_background(events, k) == (put_in_background(events, before) || event
                == Event::Spawned(true))
        }),
{
    let before = (k - 1) as nat;
    if clean(events, before) && !store_failed(events[k - 1]) {
        assert(clean(events, k));
    }
    if put_in_background(events, before) {
        let i = choose|i: int| 0 <= i < before && #[trigger] events[i] == Event::Spawned(true);
        assert(0 <= i < k && events[i] == Event::Spawned(true));
    }
}

proof fn lemma_get_answers_payload(
    config: DispatchConfig,
    request: RequestFields,
    first: World,
    world: World,
    hit: HitTier,
    clean: bool,
    fine: bool,
    id: u64,
    goal: Goal,
    step: Step,
)
    requires
        gets_value(goal, first, request.namespace, request.key),
        is_resolved(
            config,
            first,
            request.namespace,
            request.key,
            fine,
            value_of(first, request.namespace, request.key),
        ),
        world == first,
        config.arena_min_bytes is Some ==> slab_is_current(first, request.namespace, request.key),
        responds(step, goal_reply(id, tier_number(hit), goal, None)),
    ensures
        get_on_track(config, request, first, world, Some(hit), clean, fine, step),
{
    reveal(get_on_track);
    tier_reply_read_back(
        id,
        status::OK,
        op::GET,
        tier_number(hit),
        value_of(first, request.namespace, request.key),
        Some(world.region),
    );
}

proof fn lemma_get_chunks(
    config: DispatchConfig,
    request: RequestFields,
    first: World,
    hit: HitTier,
    clean: bool,
    fine: bool,
    target: Target,
    manifest: ManifestFields,
    read: LargeRead,
    goal: Goal,
    step: Step,
)
    requires
        config.arena_min_bytes is Some,
        slab_is_current(first, request.namespace, request.key),
        target.tier == tier_number(hit),
        target.namespace@ == request.namespace,
        target.key@ == request.key,
        gets_value(goal, first, request.namespace, request.key),
        manifest_parsed(value_of(first, request.namespace, request.key)) == Some(manifest),
        read_so_far(first, request.namespace, manifest, read),
        chunks_continue(target, read, goal, step),
    ensures
        get_on_track(config, request, first, first, Some(hit), clean, fine, step),
{
    reveal(get_on_track);
    if read.next >= manifest.chunk_count && read.out@.len() != manifest.total_len {
        lemma_get_answers_payload(config, request, first, first, hit, clean, fine, target.id, goal, step);
    }
}

proof fn lemma_get_materializes(
    config: DispatchConfig,
    request: RequestFields,
    first: World,
    hit: HitTier,
    clean: bool,
    fine: bool,
    min_bytes: usize,
    target: Target,
    goal: Goal,
    step: Step,
)
    requires
        config.arena_min_bytes is Some,
        slab_is_current(first, request.namespace, request.key),
        target.tier == tier_number(hit),
        target.namespace@ == request.namespace,
        target.key@ == request.key,
        gets_value(goal, first, request.namespace, request.key),
        config.arena_min_bytes == Some(min_bytes),
        materializes(
            min_bytes,
            target,
            value_of(first, request.namespace, request.key),
            goal,
            step,
        ),
    ensures
        get_on_track(config, request, first, first, Some(hit), clean, fine, step),
{
    reveal(get_on_track);
    let payload = value_of(first, request.namespace, request.key);
    if let Some(manifest) = manifest_parsed(payload) {
        if manifest.total_len < min_bytes {
            lemma_get_answers_payload(config, request, first, first, hit, clean, fine, target.id, goal, step);
        } else {
            let read = choose|read: LargeRead|
                read.manifest@ == manifest && read.next == 0 && read.out@ == Seq::<u8>::empty()
                    && #[trigger] chunks_continue(target, read, goal, step);
            lemma_get_chunks(
                config,
                request,
                first,
                hit,
                clean,
                fine,
                target,
                manifest,
                read,
                goal,
                step,
            );
        }
    }
}

proof fn lemma_get_goes_on(
    config: DispatchConfig,
    request: RequestFields,
    first: World,
    before: World,
    hit: Option<HitTier>,
    clean: bool,
    fine: bool,
    step: Step,
    event: Event,
    next: Step,
    after: World,
    hit_next: Option<HitTier>,
    clean_next: bool,
    fine_next: bool,
)
    requires
        arena_matches(config, first),
        config.arena_min_bytes is Some ==> slab_is_current(first, request.namespace, request.key),
        get_on_track(config, request, first, before, hit, clean, fine, step),
        goes_on(config, step, event, before, next, after),
        clean_next == (clean && !store_failed(event)),
        fine_next == (fine && !store_failed(event) && !arena_failed(event)),
        slab_is_short(step),
        hit_next == match (step, event) {
            (
                Step::Act { then: Stage::Getting { .. }, .. },
                Event::Got(Ok(StoreGet::Hit { tier, .. })),
            ) => Some(tier),
            _ => hit,
        },
    ensures
        get_on_track(config, request, first, after, hit_next, clean_next, fine_next, next),
{
    reveal(get_on_track);
    let (namespace, key) = (request.namespace, request.key);
    let then = step->then;
    match (then, event) {
        (Stage::LookingUp { id, .. }, Event::SlabFound(Some(slab))) => {
            slab_reply_read_back(id, op::GET, slab, first.region);
        },
        (Stage::Getting { id, .. }, Event::Got(Ok(StoreGet::Hit { tier, payload }))) => {
            match config.arena_min_bytes {
                None => {
                    tier_reply_read_back(
                        id,
                        status::OK,
                        op::GET,
                        tier_number(tier),
                        bytes_of(payload),
                        Some(after.region),
                    );
                },
                Some(min_bytes) => {
                    let (target, goal) = choose|target: Target, goal: Goal|
                        target.id == id && target.namespace@ == namespace && target.key@ == key
                            && target.tier == tier_number(tier) && goal_is_get(
                            goal,
                            bytes_of(payload),
                        ) && #[trigger] materializes(
                            min_bytes,
                            target,
                            bytes_of(payload),
                            goal,
                            next,
                        );
                    lemma_get_materializes(
                        config,
                        request,
                        first,
                        tier,
                        clean_next,
                        fine_next,
                        min_bytes,
                        target,
                        goal,
                        next,
                    );
                },
            }
        },
        (Stage::Chunk { target, read, goal }, Event::Got(got)) => {
            let manifest = manifest_parsed(value_of(first, namespace, key))->0;
            match got {
                Ok(StoreGet::Hit { tier, payload }) => {
                    let fed = choose|fed: LargeRead|
                        read_with(read, bytes_of(payload), fed) && #[trigger] chunks_continue(
                            target,
                            fed,
                            goal,
                            next,
                        );
                    lemma_chunk_read(
                        first,
                        namespace,
                        manifest,
                        read,
                        fed,
                        chunk_key_text(manifest.id, read.next as nat),
                        bytes_of(payload),
                    );
                    lemma_get_chunks(
                        config,
                        request,
                        first,
                        hit->0,
                        clean_next,
                        fine_next,
                        target,
                        manifest,
                        fed,
                        goal,
                        next,
                    );
                },
                _ => {
                    if got is Ok {
                        let wanted = chunk_key_text(manifest.id, read.next as nat);
                        assert(!holds(first, namespace, wanted));
                        assert(!holds_chunks(first, namespace, manifest.id, manifest.chunk_count));
                    }
                    lemma_get_answers_payload(
                        config,
                        request,
                        first,
                        after,
                        hit->0,
                        clean_next,
                        fine_next,
                        target.id,
                        goal,
                        next,
                    );
                },
            }
        },
        (Stage::Slab { id, tier, goal }, Event::SlabWritten(written)) => {
            if let Ok(Some(slab)) = written {
                let action = step->action;
                let bytes = bytes_of(action->RememberSlab_bytes);
                lemma_slab_written(
                    before,
                    Some(arena_key_text(namespace, key)),
                    bytes,
                    tier,
                    slab,
                    after,
                );
                slab_reply_read_back(id, op::GET, slab, after.region);
                lemma_same_meaning(before, after, namespace, value_of(first, namespace, key));
            } else {
                lemma_get_answers_payload(
                    config,
                    request,
                    first,
                    after,
                    hit->0,
                    clean_next,
                    fine_next,
                    id,
                    goal,
                    next,
                );
            }
        },
        _ => {},
    }
}

proof fn lemma_get_run(
    config: DispatchConfig,
    request: RequestFields,
    steps: Seq<Step>,
    events: Seq<Event>,
    worlds: Seq<World>,
    response: WireResponse,
    k: nat,
)
    requires
        served(config, request, steps, events, worlds, response),
        request.op == op::GET,
        arena_matches(config, worlds[0]),
        config.arena_min_bytes is Some ==> slab_is_current(
            worlds[0],
            request.namespace,
            request.key,
        ),
        slabs_are_short(steps),
        k <= events.len(),
    ensures
        get_on_track(
            config,
            request,
            worlds[0],
            worlds[k as int],
            hit_in(steps, events, k),
            clean(events, k),
            flawless(events, k),
            steps[k as int],
        ),
    decreases k,
{
    if k == 0 {
        reveal(get_on_track);
    } else {
        lemma_clean(events, k);
        let i = k - 1;
        lemma_get_run(config, request, steps, events, worlds, response, (k - 1) as nat);
        assert(goes_on(config, steps[i], events[i], worlds[i], steps[i + 1], worlds[i + 1]));
        lemma_get_goes_on(
            config,
            request,
            worlds[0],
            worlds[i],
            hit_in(steps, events, (k - 1) as nat),
            clean(events, (k - 1) as nat),
            flawless(events, (k - 1) as nat),
            steps[i],
            events[i],
            steps[i + 1],
            worlds[i + 1],
            hit_in(steps, events, k),
            clean(events, k),
            flawless(events, k),
        );
    }
}

/// A get gives the client the value that the store holds under the key of its
/// namespace, in one piece or put together from the chunks that it lists in their
/// order, with the tier in which it was hit; and a miss where the store holds
/// nothing. On a daemon with an arena whose store and arena do not fail, a value that
/// is large enough is given whole. It is an error only where the store failed. The
/// stored values stay as they are, the slab of the key stays that of its value, and no
/// other is remembered or replaced.
pub proof fn get_gives_the_value(
    config: DispatchConfig,
    request: RequestFields,
    steps: Seq<Step>,
    events: Seq<Event>,
    worlds: Seq<World>,
    response: WireResponse,
)
    requires
        served(config, request, steps, events, worlds, response),
        request.op == op::GET,
        arena_matches(config, worlds[0]),
        config.arena_min_bytes is Some ==> slab_is_current(
            worlds[0],
            request.namespace,
            request.key,
        ),
        slabs_are_short(steps),
    ensures
        get_is_right(
            config,
            worlds[0],
            worlds.last(),
            request.namespace,
            request.key,
            hit_in(steps, events, events.len()),
            clean(events, events.len()),
            flawless(events, events.len()),
            response,
        ),
        worlds.last().store == worlds[0].store,
        slabs_kept(
            worlds[0],
            worlds.last(),
            Some(arena_key_text(request.namespace, request.key)),
        ),
        config.arena_min_bytes is Some ==> slab_is_current(
            worlds.last(),
            request.namespace,
            request.key,
        ),
{
    reveal(get_on_track);
    lemma_get_run(config, request, steps, events, worlds, response, events.len());
}

// ---- putting ----

/// Whether a put left the world as it should: the value is stored under the key of
/// its namespace and nothing else has changed; and where the value that it stands for
/// is large enough for the arena, a slab that holds that value is remembered for the
/// key, as one of the first tier, and no other is remembered or replaced.
pub open spec fn put_is_done(
    config: DispatchConfig,
    before: World,
    after: World,
    namespace: Seq<char>,
    key: Seq<char>,
    payload: Seq<u8>,
) -> bool {
    let name = arena_key_text(namespace, key);
    &&& after.store == before.store.insert((namespace, key), payload)
    &&& after.index == before.index
    &&& slabs_kept(before, after, Some(name))
    &&& config.arena_min_bytes matches Some(min_bytes) ==> (meant_by(
        after,
        namespace,
        payload,
    ) matches Some(value) ==> (value.len() >= min_bytes ==> after.slabs.dom().contains(name)
        && after.slabs[name].tier == 1 && slab_has(after, after.slabs[name], value)))
}

#[verifier::opaque]
spec fn put_on_track(
    config: DispatchConfig,
    namespace: Seq<char>,
    key: Seq<char>,
    payload: Seq<u8>,
    first: World,
    world: World,
    clean: bool,
    flawless: bool,
    spawned: bool,
    step: Step,
) -> bool {
    let stored = with_value(first, namespace, key, payload);
    match step {
        Step::Act { action, then } => !spawned && match then {
            Stage::Spawning { id, namespace: n, key: k, payload: p } => {
                &&& world == first
                &&& n@ == namespace
                &&& k@ == key
                &&& bytes_of(p) == payload
                &&& action is SpawnPut
            },
            Stage::Putting { id, namespace: n, key: k, payload: p } => {
                &&& world == first
                &&& n@ == namespace
                &&& k@ == key
                &&& bytes_of(p) == payload
                &&& action matches Action::PutKv { namespace: an, key: ak, payload: ap }
                &&& an@ == namespace
                &&& ak@ == key
                &&& bytes_of(ap) == payload
            },
            Stage::Chunk { target, read, goal } => {
                &&& world == stored
                &&& config.arena_min_bytes is Some
                &&& goal is Put
                &&& target.tier == 1
                &&& target.namespace@ == namespace
                &&& target.key@ == key
                &&& manifest_parsed(payload) matches Some(manifest)
                &&& read_so_far(stored, namespace, manifest, read)
                &&& read.next < manifest.chunk_count
                &&& action matches Action::GetKv { namespace: an, key: ak }
                &&& an@ == namespace
                &&& ak@ == chunk_key_text(manifest.id, read.next as nat)
            },
            Stage::Slab { id, tier, goal } => {
                &&& world == stored
                &&& config.arena_min_bytes is Some
                &&& goal is Put
                &&& action matches Action::RememberSlab { namespace: an, key: ak, bytes, tier: t }
                &&& t == 1
                &&& an@ == namespace
                &&& ak@ == key
                &&& meant_by(stored, namespace, payload) == Some(bytes_of(bytes))
            },
            _ => false,
        },
        Step::Respond(response) => {
            &&& response.status == status::OK || (response.status == status::ERROR && !clean)
            &&& spawned ==> world == first
            &&& response.status == status::OK && !spawned ==> world.store == stored.store
                && world.index == stored.index
            &&& flawless && !spawned ==> put_is_done(config, first, world, namespace, key, payload)
        },
        Step::Overlong { .. } => false,
    }
}

proof fn lemma_put_chunks(
    config: DispatchConfig,
    key: Seq<char>,
    payload: Seq<u8>,
    first: World,
    clean: bool,
    flawless: bool,
    target: Target,
    manifest: ManifestFields,
    read: LargeRead,
    step: Step,
)
    requires
        config.arena_min_bytes is Some,
        target.tier == 1,
        target.key@ == key,
        manifest_parsed(payload) == Some(manifest),
        read_so_far(
            with_value(first, target.namespace@, key, payload),
            target.namespace@,
            manifest,
            read,
        ),
        chunks_continue(target, read, Goal::Put, step),
    ensures
        put_on_track(
            config,
            target.namespace@,
            key,
            payload,
            first,
            with_value(first, target.namespace@, key, payload),
            clean,
            flawless,
            false,
            step,
        ),
{
    reveal(put_on_track);
}

proof fn lemma_put_goes_on(
    config: DispatchConfig,
    namespace: Seq<char>,
    key: Seq<char>,
    payload: Seq<u8>,
    first: World,
    before: World,
    clean: bool,
    flawless: bool,
    spawned: bool,
    step: Step,
    event: Event,
    next: Step,
    after: World,
)
    requires
        arena_matches(config, first),
        put_on_track(
            config,
            namespace,
            key,
            payload,
            first,
            before,
            clean,
            flawless,
            spawned,
            step,
        ),
        goes_on(config, step, event, before, next, after),
        slab_is_short(step),
    ensures
        put_on_track(
            config,
            namespace,
            key,
            payload,
            first,
            after,
            clean && !store_failed(event),
            flawless && !store_failed(event) && !arena_failed(event),
            spawned || event == Event::Spawned(true),
            next,
        ),
{
    reveal(put_on_track);
    let stored = with_value(first, namespace, key, payload);
    let then = step->then;
    let clean_next = clean && !store_failed(event);
    let flawless_next = flawless && !store_failed(event) && !arena_failed(event);
    match (then, event) {
        (Stage::Putting { id, .. }, Event::Stored(Ok(_))) => {
            if let Some(min_bytes) = config.arena_min_bytes {
                let target = choose|target: Target|
                    target.id == id && target.namespace@ == namespace && target.key@ == key
                        && target.tier == 1 && #[trigger] materializes(
                        min_bytes,
                        target,
                        payload,
                        Goal::Put,
                        next,
                    );
                if let Some(manifest) = manifest_parsed(payload) {
                    if manifest.total_len >= min_bytes {
                        let read = choose|read: LargeRead|
                            read.manifest@ == manifest && read.next == 0 && read.out@ == Seq::<
                                u8,
                            >::empty() && #[trigger] chunks_continue(
                                target,
                                read,
                                Goal::Put,
                                next,
                            );
                        lemma_put_chunks(
                            config,
                            key,
                            payload,
                            first,
                            clean_next,
                            flawless_next,
                            target,
                            manifest,
                            read,
                            next,
                        );
                    }
                }
            }
        },
        (Stage::Chunk { target, read, goal }, Event::Got(got)) => {
            let manifest = manifest_parsed(payload)->0;
            let wanted = chunk_key_text(manifest.id, read.next as nat);
            if let Ok(StoreGet::Hit { tier, payload: chunk }) = got {
                let fed = choose|fed: LargeRead|
                    read_with(read, bytes_of(chunk), fed) && #[trigger] chunks_continue(
                        target,
                        fed,
                        goal,
                        next,
                    );
                lemma_chunk_read(
                    stored,
                    namespace,
                    manifest,
                    read,
                    fed,
                    wanted,
                    bytes_of(chunk),
                );
                lemma_put_chunks(
                    config,
                    key,
                    payload,
                    first,
                    clean_next,
                    flawless_next,
                    target,
                    manifest,
                    fed,
                    next,
                );
            } else if got is Ok {
                assert(!holds(stored, namespace, wanted));
                assert(!holds_chunks(stored, namespace, manifest.id, manifest.chunk_count));
            }
        },
        (Stage::Slab { id, tier, goal }, Event::SlabWritten(written)) => {
            if let Ok(Some(slab)) = written {
                let action = step->action;
                let bytes = bytes_of(action->RememberSlab_bytes);
                lemma_slab_written(
                    before,
                    Some(arena_key_text(namespace, key)),
                    bytes,
                    action->RememberSlab_tier,
                    slab,
                    after,
                );
                lemma_same_meaning(before, after, namespace, payload);
            }
        },
        _ => {},
    }
}

/// What a payload stands for rests on the stored values alone.
proof fn lemma_same_meaning(a: World, b: World, namespace: Seq<char>, payload: Seq<u8>)
    requires
        a.store == b.store,
    ensures
        meant_by(a, namespace, payload) == meant_by(b, namespace, payload),
{
    if let Some(manifest) = manifest_parsed(payload) {
        lemma_same_chunks(a, b, namespace, manifest.id, manifest.chunk_count);
        assert forall|i: nat| i < manifest.chunk_count implies holds(
            a,
            namespace,
            #[trigger] chunk_key_text(manifest.id, i),
        ) == holds(b, namespace, chunk_key_text(manifest.id, i)) by {}
        assert(holds_chunks(a, namespace, manifest.id, manifest.chunk_count) == holds_chunks(
            b,
            namespace,
            manifest.id,
            manifest.chunk_count,
        ));
    }
}

proof fn lemma_same_chunks(a: World, b: World, namespace: Seq<char>, id: Seq<char>, n: nat)
    requires
        a.store == b.store,
    ensures
        chunks_joined(a, namespace, id, n) == chunks_joined(b, namespace, id, n),
    decreases n,
{
    if n > 0 {
        lemma_same_chunks(a, b, namespace, id, (n - 1) as nat);
    }
}

proof fn lemma_put_run(
    config: DispatchConfig,
    namespace: Seq<char>,
    key: Seq<char>,
    payload: Seq<u8>,
    steps: Seq<Step>,
    events: Seq<Event>,
    worlds: Seq<World>,
    response: WireResponse,
    k: nat,
)
    requires
        ran(config, steps, events, worlds, response),
        put_on_track(
            config,
            namespace,
            key,
            payload,
            worlds[0],
            worlds[0],
            true,
            true,
            false,
            steps[0],
        ),
        arena_matches(config, worlds[0]),
        slabs_are_short(steps),
        k <= events.len(),
    ensures
        put_on_track(
            config,
            namespace,
            key,
            payload,
            worlds[0],
            worlds[k as int],
            clean(events, k),
            flawless(events, k),
            put_in_background(events, k),
            steps[k as int],
        ),
    decreases k,
{
    if k > 0 {
        let i = k - 1;
        let before = (k - 1) as nat;
        lemma_put_run(
            config,
            namespace,
            key,
            payload,
            steps,
            events,
            worlds,
            response,
            before,
        );
        assert(goes_on(config, steps[i], events[i], worlds[i], steps[i + 1], worlds[i + 1]));
        lemma_put_goes_on(
            config,
            namespace,
            key,
            payload,
            worlds[0],
            worlds[i],
            clean(events, before),
            flawless(events, before),
            put_in_background(events, before),
            steps[i],
            events[i],
            steps[i + 1],
            worlds[i + 1],
        );
        lemma_clean(events, k);
    }
}

/// A put that is told to have succeeded, and was not left to the background, has
/// stored its payload under its key and changed no other value. Where nothing failed
/// it did succeed, and a value that is large enough for the arena, in one piece or in
/// chunks, is remembered there for the key in place of what was there before.
pub proof fn put_stores_the_value(
    config: DispatchConfig,
    request: RequestFields,
    steps: Seq<Step>,
    events: Seq<Event>,
    worlds: Seq<World>,
    response: WireResponse,
)
    requires
        served(config, request, steps, events, worlds, response),
        request.op == op::PUT,
        arena_matches(config, worlds[0]),
        slabs_are_short(steps),
    ensures
        response.status == status::OK || (response.status == status::ERROR && !clean(
            events,
            events.len(),
        )),
        response.status == status::OK && !put_in_background(events, events.len())
            ==> worlds.last().store == worlds[0].store.insert(
            (request.namespace, request.key),
            request.payload,
        ),
        flawless(events, events.len()) && !put_in_background(events, events.len()) ==> put_is_done(
            config,
            worlds[0],
            worlds.last(),
            request.namespace,
            request.key,
            request.payload,
        ),
{
    reveal(put_on_track);
    lemma_put_run(
        config,
        request.namespace,
        request.key,
        request.payload,
        steps,
        events,
        worlds,
        response,
        events.len(),
    );
}

/// A put is left to the background only where the daemon is set up for it, and then
/// with the namespace, the key and the payload of the request; and what is done in
/// the background is what a put does.
pub proof fn background_put_stores_the_value(
    config: DispatchConfig,
    request: RequestFields,
    first: Step,
    steps: Seq<Step>,
    events: Seq<Event>,
    worlds: Seq<World>,
    response: WireResponse,
)
    requires
        request.op == op::PUT,
        starts(config, request, first),
        arena_matches(config, worlds[0]),
        slabs_are_short(steps),
        puts(0, request.namespace, request.key, request.payload, steps[0]),
        ran(config, steps, events, worlds, response),
        flawless(events, events.len()),
    ensures
        (first matches Step::Act { action, then } && action is SpawnPut) <==> config.async_put,
        config.async_put ==> (first matches Step::Act { action, then } && action matches Action::SpawnPut {
            namespace,
            key,
            payload,
        } && namespace@ == request.namespace && key@ == request.key && bytes_of(payload)
            == request.payload),
        response.status == status::OK,
        put_is_done(
            config,
            worlds[0],
            worlds.last(),
            request.namespace,
            request.key,
            request.payload,
        ),
{
    reveal(put_on_track);
    lemma_put_run(
        config,
        request.namespace,
        request.key,
        request.payload,
        steps,
        events,
        worlds,
        response,
        events.len(),
    );
    lemma_no_spawn(config, steps, events, worlds, response, events.len());
    assert(clean(events, events.len()));
}

/// A put under way is not left to the background any more.
#[verifier::spinoff_prover]
#[verifier::rlimit(50)]
proof fn lemma_no_spawn(
    config: DispatchConfig,
    steps: Seq<Step>,
    events: Seq<Event>,
    worlds: Seq<World>,
    response: WireResponse,
    k: nat,
)
    requires
        ran(config, steps, events, worlds, response),
        steps[0] matches Step::Act { action, then } && then is Putting,
        k <= events.len(),
    ensures
        !put_in_background(events, k),
        steps[k as int] matches Step::Act { action, then } ==> then is Putting || then is Chunk
            || then is Slab,
    decreases k,
{
    if k > 0 {
        let i = k - 1;
        lemma_no_spawn(config, steps, events, worlds, response, (k - 1) as nat);
        assert(goes_on(config, steps[i], events[i], worlds[i], steps[i + 1], worlds[i + 1]));
        crate::dispatch::service_stays_with_request(
            config,
            steps[i]->then,
            events[i],
            steps[i + 1],
        );
        assert(!(events[i] is Spawned));
        lemma_put_stages(config, steps[i]->then, events[i], steps[i + 1]);
    }
}

proof fn lemma_put_stages(config: DispatchConfig, stage: Stage, event: Event, next: Step)
    requires
        awaits(stage, event),
        resumes(config, stage, event, next),
        stage is Putting || stage is Chunk || stage is Slab,
    ensures
        next matches Step::Act { action, then } ==> then is Putting || then is Chunk || then is Slab,
{
    match (stage, event) {
        (Stage::Putting { id, namespace, key, payload }, Event::Stored(Ok(_))) => {
            if let Some(min_bytes) = config.arena_min_bytes {
                let target = choose|target: Target|
                    target.id == id && target.namespace@ == namespace@ && target.key@ == key@
                        && target.tier == 1 && #[trigger] materializes(
                        min_bytes,
                        target,
                        bytes_of(payload),
                        Goal::Put,
                        next,
                    );
                if let Some(manifest) = manifest_parsed(bytes_of(payload)) {
                    if manifest.total_len >= min_bytes {
                        let read = choose|read: LargeRead|
                            read.manifest@ == manifest && read.next == 0 && read.out@ == Seq::<
                                u8,
                            >::empty() && #[trigger] chunks_continue(
                                target,
                                read,
                                Goal::Put,
                                next,
                            );
                        assert(chunks_continue(target, read, Goal::Put, next));
                    }
                }
            }
        },
        _ => {},
    }
}

/// A get that follows a put of the same key gives back what was put: the payload, or
/// the value that it stands for. What the arena held for the key before does not come
/// back. Left out is a value that is too small for the arena on a daemon that
/// remembers an earlier one for the key.
pub proof fn put_then_get_gives_it_back(
    config: DispatchConfig,
    put: RequestFields,
    put_steps: Seq<Step>,
    put_events: Seq<Event>,
    put_worlds: Seq<World>,
    stored: WireResponse,
    get: RequestFields,
    get_steps: Seq<Step>,
    get_events: Seq<Event>,
    get_worlds: Seq<World>,
    got: WireResponse,
)
    requires
        put.op == op::PUT,
        get.op == op::GET,
        put.namespace == get.namespace,
        put.key == get.key,
        arena_matches(config, put_worlds[0]),
        arena_matches(config, get_worlds[0]),
        served(config, put, put_steps, put_events, put_worlds, stored),
        served(config, get, get_steps, get_events, get_worlds, got),
        get_worlds[0] == put_worlds.last(),
        slabs_are_short(put_steps),
        slabs_are_short(get_steps),
        flawless(put_events, put_events.len()),
        !put_in_background(put_events, put_events.len()),
        clean(get_events, get_events.len()),
        config.arena_min_bytes matches Some(min_bytes) ==> (meant_by(
            get_worlds[0],
            put.namespace,
            put.payload,
        ) matches Some(value) && value.len() >= min_bytes) || !get_worlds[0].slabs.dom().contains(
            arena_key_text(put.namespace, put.key),
        ),
    ensures
        stored.status == status::OK,
        got.status == status::OK,
        carried_bytes(got@, Some(get_worlds.last().region)) matches Ok(bytes) && (bytes
            == put.payload || meant_by(get_worlds[0], put.namespace, put.payload) == Some(bytes)),
{
    put_stores_the_value(config, put, put_steps, put_events, put_worlds, stored);
    assert(clean(put_events, put_events.len()));
    get_gives_the_value(config, get, get_steps, get_events, get_worlds, got);
}

// ---- getting many ----

/// Whether bytes are, key by key and in the order of the keys, the values that are
/// meant by what is stored under the first keys.
pub open spec fn values_of(
    world: World,
    namespace: Seq<char>,
    keys: Seq<Seq<char>>,
    values: Seq<Seq<u8>>,
) -> bool {
    &&& values.len() <= keys.len()
    &&& forall|i: int|
        0 <= i < values.len() ==> is_meant(world, namespace, keys[i], #[trigger] values[i])
}

/// Whether a value is the one that is meant by what is stored under a key.
pub open spec fn is_meant(
    world: World,
    namespace: Seq<char>,
    key: Seq<char>,
    value: Seq<u8>,
) -> bool {
    holds(world, namespace, key) && meant_by(world, namespace, value_of(world, namespace, key))
        == Some(value)
}

/// Whether a response to a batched get is right: all values in the order of the keys,
/// with the object store as their tier if one of them came from there; a miss that
/// names the first key that is missing; or, where the values fit neither the response
/// nor, unless it failed, the arena, that. It is an error only where the store failed or
/// a large value is not complete.
pub open spec fn get_many_is_right(
    config: DispatchConfig,
    before: World,
    after: World,
    namespace: Seq<char>,
    keys: Seq<Seq<char>>,
    far: bool,
    clean: bool,
    fine: bool,
    response: WireResponse,
) -> bool {
    if response.status == status::OK {
        &&& carried_bytes(response@, Some(after.region)) matches Ok(batch)
        &&& bytes_batch_decoded(batch) matches Ok(values)
        &&& values.len() == keys.len()
        &&& values_of(before, namespace, keys, values)
        &&& tier_of(response.message@) == if far {
            RemoteHitTier::ObjectStore
        } else {
            RemoteHitTier::Foyer
        }
    } else if response.status == status::MISS {
        exists|i: int|
            0 <= i < keys.len() && !holds(before, namespace, #[trigger] keys[i])
                && response.message@ == keys[i] && forall|j: int|
                0 <= j < i ==> holds(before, namespace, #[trigger] keys[j])
    } else if response.status == status::TOO_LARGE {
        exists|values: Seq<Seq<u8>>|
            values.len() == keys.len() && #[trigger] values_of(before, namespace, keys, values)
                && bytes_batch_bytes(values).len() + 256 > FRAME_DATA_BYTES && (fine ==> (
            config.arena_min_bytes matches Some(min_bytes) ==> bytes_batch_bytes(values).len()
                < min_bytes))
    } else {
        response.status == status::ERROR && (!clean || exists|i: int|
            0 <= i < keys.len() && holds(before, namespace, #[trigger] keys[i]) && meant_by(
                before,
                namespace,
                value_of(before, namespace, keys[i]),
            ) is None)
    }
}

/// Whether one of the first `k` values of a batched get came from the object store.
pub open spec fn hit_far(steps: Seq<Step>, events: Seq<Event>, k: nat) -> bool
    decreases k,
{
    k > 0 && (far_hit(steps[k - 1], events[k - 1]) || hit_far(steps, events, (k - 1) as nat))
}

/// Whether an event is the hit of a batched get's value in the object store.
pub open spec fn far_hit(step: Step, event: Event) -> bool {
    &&& step matches Step::Act { action, then }
    &&& then is Many
    &&& event matches Event::Got(Ok(StoreGet::Hit { tier, payload }))
    &&& tier is ObjectStore
}

/// A batched get under way: the values before the next key are there.
spec fn many_so_far(
    request: RequestFields,
    keys: Seq<Seq<char>>,
    first: World,
    far: bool,
    many: ManyGet,
) -> bool {
    &&& many.namespace@ == request.namespace
    &&& texts(many.keys@) == keys
    &&& many.next == many.items@.len()
    &&& values_of(first, request.namespace, keys, buffers(many.items@))
    &&& many.tier == if far {
        2u8
    } else {
        1u8
    }
}

#[verifier::opaque]
spec fn many_on_track(
    config: DispatchConfig,
    request: RequestFields,
    keys: Seq<Seq<char>>,
    first: World,
    world: World,
    far: bool,
    clean: bool,
    fine: bool,
    step: Step,
) -> bool {
    let namespace = request.namespace;
    match step {
        Step::Act { action, then } => world == first && match then {
            Stage::Many { many } => {
                &&& many_so_far(request, keys, first, far, many)
                &&& many.next < keys.len()
                &&& action matches Action::GetKv { namespace: an, key: ak }
                &&& an@ == namespace
                &&& ak@ == keys[many.next as int]
            },
            Stage::ManyChunk { many, read } => {
                &&& many_so_far(request, keys, first, far, many)
                &&& many.next < keys.len()
                &&& holds(first, namespace, keys[many.next as int])
                &&& manifest_parsed(
                    value_of(first, namespace, keys[many.next as int]),
                ) matches Some(manifest)
                &&& read_so_far(first, namespace, manifest, read)
                &&& read.next < manifest.chunk_count
                &&& action matches Action::GetKv { namespace: an, key: ak }
                &&& an@ == namespace
                &&& ak@ == chunk_key_text(manifest.id, read.next as nat)
            },
            Stage::ManySlab { id, batch, tier } => {
                &&& config.arena_min_bytes is Some
                &&& action matches Action::WriteSlab { bytes, tier: t }
                &&& bytes_of(bytes) == bytes_of(batch)
                &&& t == tier
                &&& tier == if far {
                    2u8
                } else {
                    1u8
                }
                &&& exists|values: Seq<Seq<u8>>|
                    values.len() == keys.len() && #[trigger] values_of(
                        first,
                        namespace,
                        keys,
                        values,
                    ) && bytes_of(batch) == bytes_batch_bytes(values)
            },
            _ => false,
        },
        Step::Respond(response) => get_many_is_right(
            config,
            first,
            world,
            namespace,
            keys,
            far,
            clean,
            fine,
            response,
        ) && world.store == first.store && slabs_kept(first, world, None),
        Step::Overlong { .. } => false,
    }
}

proof fn lemma_batch_answered(
    config: DispatchConfig,
    request: RequestFields,
    keys: Seq<Seq<char>>,
    first: World,
    world: World,
    far: bool,
    clean: bool,
    fine: bool,
    id: u64,
    values: Seq<Seq<u8>>,
    step: Step,
)
    requires
        values.len() == keys.len(),
        values_of(first, request.namespace, keys, values),
        world.store == first.store,
        slabs_kept(first, world, None),
        fine ==> (config.arena_min_bytes matches Some(min_bytes) ==> bytes_batch_bytes(values).len()
            < min_bytes),
        responds(
            step,
            batch_reply(
                id,
                bytes_batch_bytes(values),
                if far {
                    2u8
                } else {
                    1u8
                },
            ),
        ),
    ensures
        many_on_track(config, request, keys, first, world, far, clean, fine, step),
{
    reveal(many_on_track);
    let batch = bytes_batch_bytes(values);
    if batch.len() + 256 <= FRAME_DATA_BYTES {
        tier_reply_read_back(
            id,
            status::OK,
            op::GET_MANY,
            if far {
                2u8
            } else {
                1u8
            },
            batch,
            Some(world.region),
        );
        lemma_batch_holds_items(values);
        bytes_batch_round_trip(values);
    }
}

proof fn lemma_many_continues(
    config: DispatchConfig,
    request: RequestFields,
    keys: Seq<Seq<char>>,
    first: World,
    far: bool,
    clean: bool,
    fine: bool,
    many: ManyGet,
    step: Step,
)
    requires
        many_so_far(request, keys, first, far, many),
        many_continues(config, many, step),
    ensures
        many_on_track(config, request, keys, first, first, far, clean, fine, step),
{
    reveal(many_on_track);
    assert(keys.len() == many.keys@.len());
    if many.next < keys.len() {
        assert(keys[many.next as int] == many.keys@[many.next as int]@);
    } else if config.arena_min_bytes is None {
        lemma_batch_answered(
            config,
            request,
            keys,
            first,
            first,
            far,
            clean,
            fine,
            many.id,
            buffers(many.items@),
            step,
        );
    }
}

proof fn lemma_many_adds(
    config: DispatchConfig,
    request: RequestFields,
    keys: Seq<Seq<char>>,
    first: World,
    far: bool,
    clean: bool,
    fine: bool,
    many: ManyGet,
    value: Seq<u8>,
    step: Step,
)
    requires
        many_so_far(request, keys, first, far, many),
        many.next < keys.len(),
        holds(first, request.namespace, keys[many.next as int]),
        meant_by(
            first,
            request.namespace,
            value_of(first, request.namespace, keys[many.next as int]),
        ) == Some(value),
        many_adds(config, many, value, step),
    ensures
        many_on_track(config, request, keys, first, first, far, clean, fine, step),
{
    let after = choose|after: ManyGet|
        many_with(many, value, after) && #[trigger] many_continues(config, after, step);
    let before = buffers(many.items@);
    let values = before.push(value);
    assert(before.len() == many.items@.len());
    assert(buffers(after.items@).len() == after.items@.len());
    assert(values.len() <= keys.len());
    assert forall|i: int| 0 <= i < values.len() implies is_meant(
        first,
        request.namespace,
        keys[i],
        #[trigger] values[i],
    ) by {
        if i < before.len() {
            assert(values[i] == before[i]);
        }
    }
    assert(after.next == after.items@.len());
    lemma_many_continues(config, request, keys, first, far, clean, fine, after, step);
}

proof fn lemma_many_chunks(
    config: DispatchConfig,
    request: RequestFields,
    keys: Seq<Seq<char>>,
    first: World,
    far: bool,
    clean: bool,
    fine: bool,
    many: ManyGet,
    manifest: ManifestFields,
    read: LargeRead,
    step: Step,
)
    requires
        many_so_far(request, keys, first, far, many),
        many.next < keys.len(),
        holds(first, request.namespace, keys[many.next as int]),
        manifest_parsed(value_of(first, request.namespace, keys[many.next as int])) == Some(
            manifest,
        ),
        read_so_far(first, request.namespace, manifest, read),
        many_chunks_continue(config, many, read, step),
    ensures
        many_on_track(config, request, keys, first, first, far, clean, fine, step),
{
    if read.next < manifest.chunk_count {
        reveal(many_on_track);
    } else if read.out@.len() == manifest.total_len {
        lemma_many_adds(config, request, keys, first, far, clean, fine, many, read.out@, step);
    } else {
        reveal(many_on_track);
        let key = keys[many.next as int];
        assert(holds(first, request.namespace, key) && meant_by(
            first,
            request.namespace,
            value_of(first, request.namespace, key),
        ) is None);
    }
}

proof fn lemma_many_got(
    config: DispatchConfig,
    request: RequestFields,
    keys: Seq<Seq<char>>,
    first: World,
    far: bool,
    clean: bool,
    fine: bool,
    many: ManyGet,
    tier: HitTier,
    payload: Seq<u8>,
    tiered: ManyGet,
    step: Step,
)
    requires
        many_so_far(request, keys, first, far, many),
        many.next < keys.len(),
        holds(first, request.namespace, keys[many.next as int]),
        value_of(first, request.namespace, keys[many.next as int]) == payload,
        many_at_tier(many, tier_with(many.tier, tier), tiered),
        match manifest_parsed(payload) {
            None => many_adds(config, tiered, payload, step),
            Some(manifest) => exists|read: LargeRead|
                read.manifest@ == manifest && read.next == 0 && read.out@ == Seq::<u8>::empty()
                    && #[trigger] many_chunks_continue(config, tiered, read, step),
        },
    ensures
        many_on_track(
            config,
            request,
            keys,
            first,
            first,
            far || tier is ObjectStore,
            clean,
            fine,
            step,
        ),
{
    let next_far = far || tier is ObjectStore;
    assert(many_so_far(request, keys, first, next_far, tiered));
    match manifest_parsed(payload) {
        None => {
            lemma_many_adds(config, request, keys, first, next_far, clean, fine, tiered, payload, step);
        },
        Some(manifest) => {
            let read = choose|read: LargeRead|
                read.manifest@ == manifest && read.next == 0 && read.out@ == Seq::<u8>::empty()
                    && #[trigger] many_chunks_continue(config, tiered, read, step);
            lemma_many_chunks(
                config,
                request,
                keys,
                first,
                next_far,
                clean,
                fine,
                tiered,
                manifest,
                read,
                step,
            );
        },
    }
}

#[verifier::spinoff_prover]
proof fn lemma_many_goes_on(
    config: DispatchConfig,
    request: RequestFields,
    keys: Seq<Seq<char>>,
    first: World,
    before: World,
    far: bool,
    clean: bool,
    fine: bool,
    step: Step,
    event: Event,
    next: Step,
    after: World,
)
    requires
        arena_matches(config, first),
        many_on_track(config, request, keys, first, before, far, clean, fine, step),
        goes_on(config, step, event, before, next, after),
        slab_is_short(step),
    ensures
        many_on_track(
            config,
            request,
            keys,
            first,
            after,
            far || far_hit(step, event),
            clean && !store_failed(event),
            fine && !store_failed(event) && !arena_failed(event),
            next,
        ),
{
    reveal(many_on_track);
    let namespace = request.namespace;
    let clean_next = clean && !store_failed(event);
    let fine_next = fine && !store_failed(event) && !arena_failed(event);
    let far_next = far || far_hit(step, event);
    match (step->then, event) {
        (Stage::Many { many }, Event::Got(got)) => {
            assert(keys[many.next as int] == many.keys@[many.next as int]@);
            match got {
                Ok(StoreGet::Hit { tier, payload }) => {
                    let tiered = choose|tiered: ManyGet|
                        #![trigger many_at_tier(many, tier_with(many.tier, tier), tiered)]
                        many_at_tier(many, tier_with(many.tier, tier), tiered)
                            && match manifest_parsed(bytes_of(payload)) {
                            None => many_adds(config, tiered, bytes_of(payload), next),
                            Some(manifest) => exists|read: LargeRead|
                                read.manifest@ == manifest && read.next == 0 && read.out@
                                    == Seq::<u8>::empty() && #[trigger] many_chunks_continue(
                                    config,
                                    tiered,
                                    read,
                                    next,
                                ),
                        };
                    lemma_many_got(
                        config,
                        request,
                        keys,
                        first,
                        far,
                        clean_next,
                        fine_next,
                        many,
                        tier,
                        bytes_of(payload),
                        tiered,
                        next,
                    );
                },
                Ok(StoreGet::Miss) => {
                    let i = many.next as int;
                    assert forall|j: int| 0 <= j < i implies holds(
                        first,
                        namespace,
                        #[trigger] keys[j],
                    ) by {
                        assert(values_of(first, namespace, keys, buffers(many.items@)));
                        let value = buffers(many.items@)[j];
                    }
                    assert(0 <= i < keys.len() && !holds(first, namespace, keys[i]));
                },
                Err(_) => {},
            }
        },
        (Stage::ManyChunk { many, read }, Event::Got(got)) => {
            let key = keys[many.next as int];
            let manifest = manifest_parsed(value_of(first, namespace, key))->0;
            let wanted = chunk_key_text(manifest.id, read.next as nat);
            match got {
                Ok(StoreGet::Hit { tier, payload }) => {
                    let fed = choose|fed: LargeRead|
                        read_with(read, bytes_of(payload), fed) && #[trigger] many_chunks_continue(
                            config,
                            many,
                            fed,
                            next,
                        );
                    lemma_chunk_read(
                        first,
                        namespace,
                        manifest,
                        read,
                        fed,
                        wanted,
                        bytes_of(payload),
                    );
                    lemma_many_chunks(
                        config,
                        request,
                        keys,
                        first,
                        far_next,
                        clean_next,
                        fine_next,
                        many,
                        manifest,
                        fed,
                        next,
                    );
                },
                Ok(StoreGet::Miss) => {
                    assert(!holds(first, namespace, wanted));
                    assert(!holds_chunks(first, namespace, manifest.id, manifest.chunk_count));
                    assert(holds(first, namespace, key) && meant_by(
                        first,
                        namespace,
                        value_of(first, namespace, key),
                    ) is None);
                },
                Err(_) => {},
            }
        },
        (Stage::ManySlab { id, batch, tier }, Event::SlabWritten(written)) => {
            let values = choose|values: Seq<Seq<u8>>|
                values.len() == keys.len() && #[trigger] values_of(
                    first,
                    namespace,
                    keys,
                    values,
                ) && bytes_of(batch) == bytes_batch_bytes(values);
            if let Ok(Some(slab)) = written {
                lemma_slab_written(before, None, bytes_of(batch), tier, slab, after);
                slab_reply_read_back(id, op::GET_MANY, slab, after.region);
                lemma_batch_holds_items(values);
                bytes_batch_round_trip(values);
            } else {
                lemma_batch_answered(
                    config,
                    request,
                    keys,
                    first,
                    after,
                    far_next,
                    clean_next,
                    fine_next,
                    id,
                    values,
                    next,
                );
            }
        },
        _ => {},
    }
}

proof fn lemma_many_run(
    config: DispatchConfig,
    request: RequestFields,
    keys: Seq<Seq<char>>,
    steps: Seq<Step>,
    events: Seq<Event>,
    worlds: Seq<World>,
    response: WireResponse,
    k: nat,
)
    requires
        served(config, request, steps, events, worlds, response),
        request.op == op::GET_MANY,
        key_batch_decoded(request.payload) == Ok::<Seq<Seq<char>>, WireFault>(keys),
        arena_matches(config, worlds[0]),
        slabs_are_short(steps),
        k <= events.len(),
    ensures
        many_on_track(
            config,
            request,
            keys,
            worlds[0],
            worlds[k as int],
            hit_far(steps, events, k),
            clean(events, k),
            flawless(events, k),
            steps[k as int],
        ),
    decreases k,
{
    if k == 0 {
        let many = choose|many: ManyGet|
            many.id == request.id && many.namespace@ == request.namespace && texts(many.keys@)
                == keys && many.next == 0 && many.items@ == Seq::<bytes::Bytes>::empty()
                && many.tier == 1 && #[trigger] many_continues(config, many, steps[0]);
        lemma_many_continues(config, request, keys, worlds[0], false, true, true, many, steps[0]);
    } else {
        let i = k - 1;
        let before = (k - 1) as nat;
        lemma_many_run(config, request, keys, steps, events, worlds, response, before);
        assert(goes_on(config, steps[i], events[i], worlds[i], steps[i + 1], worlds[i + 1]));
        lemma_clean(events, k);
        lemma_many_goes_on(
            config,
            request,
            keys,
            worlds[0],
            worlds[i],
            hit_far(steps, events, before),
            clean(events, before),
            flawless(events, before),
            steps[i],
            events[i],
            steps[i + 1],
            worlds[i + 1],
        );
    }
}

/// A batched get gives the client, in the order of its keys, the value that is meant
/// by what the store holds under each: a large value is put together from its chunks,
/// and its manifest is never given in its place. One missing key makes it a miss. No
/// value is changed and no slab is remembered or replaced.
pub proof fn get_many_gives_the_values(
    config: DispatchConfig,
    request: RequestFields,
    keys: Seq<Seq<char>>,
    steps: Seq<Step>,
    events: Seq<Event>,
    worlds: Seq<World>,
    response: WireResponse,
)
    requires
        served(config, request, steps, events, worlds, response),
        request.op == op::GET_MANY,
        key_batch_decoded(request.payload) == Ok::<Seq<Seq<char>>, WireFault>(keys),
        arena_matches(config, worlds[0]),
        slabs_are_short(steps),
    ensures
        get_many_is_right(
            config,
            worlds[0],
            worlds.last(),
            request.namespace,
            keys,
            hit_far(steps, events, events.len()),
            clean(events, events.len()),
            flawless(events, events.len()),
            response,
        ),
        worlds.last().store == worlds[0].store,
        slabs_kept(worlds[0], worlds.last(), None),
{
    reveal(many_on_track);
    lemma_many_run(config, request, keys, steps, events, worlds, response, events.len());
}

// ---- the other operations ----

/// A request that is answered without work is answered at once.
proof fn lemma_answered_at_once(
    config: DispatchConfig,
    steps: Seq<Step>,
    events: Seq<Event>,
    worlds: Seq<World>,
    response: WireResponse,
)
    requires
        ran(config, steps, events, worlds, response),
        steps[0] is Respond,
    ensures
        events.len() == 0,
        steps[0] == Step::Respond(response),
{
    if events.len() > 0 {
        assert(goes_on(config, steps[0], events[0], worlds[0], steps[1], worlds[1]));
    }
}

/// A request that takes one piece of work is answered after it.
proof fn lemma_answered_after_one(
    config: DispatchConfig,
    steps: Seq<Step>,
    events: Seq<Event>,
    worlds: Seq<World>,
    response: WireResponse,
)
    requires
        ran(config, steps, events, worlds, response),
        steps[0] is Act,
    ensures
        events.len() >= 1,
        goes_on(config, steps[0], events[0], worlds[0], steps[1], worlds[1]),
        steps[1] is Respond ==> events.len() == 1 && steps[1] == Step::Respond(response)
            && worlds.last() == worlds[1],
        steps[1] is Act ==> events.len() >= 2 && goes_on(
            config,
            steps[1],
            events[1],
            worlds[1],
            steps[2],
            worlds[2],
        ),
        steps[1] is Act && steps[2] is Respond ==> events.len() == 2 && steps[2] == Step::Respond(
            response,
        ) && worlds.last() == worlds[2],
{
    assert(goes_on(config, steps[0], events[0], worlds[0], steps[1], worlds[1]));
    if events.len() > 1 {
        assert(goes_on(config, steps[1], events[1], worlds[1], steps[2], worlds[2]));
        if events.len() > 2 {
            assert(goes_on(config, steps[2], events[2], worlds[2], steps[3], worlds[3]));
        }
    }
}

/// A ping and a goodbye are answered at once and change nothing; so is an operation
/// that nobody knows, with an error.
pub proof fn simple_requests_are_answered_at_once(
    config: DispatchConfig,
    request: RequestFields,
    steps: Seq<Step>,
    events: Seq<Event>,
    worlds: Seq<World>,
    response: WireResponse,
)
    requires
        served(config, request, steps, events, worlds, response),
        request.op == op::PING || request.op == op::CLOSE || request.op == 0 || request.op > 13,
    ensures
        events.len() == 0,
        worlds.last() == worlds[0],
        response.id == request.id,
        response.op == request.op,
        response.payload@.len() == 0,
        response.status == status::OK <==> request.op == op::PING || request.op == op::CLOSE,
{
    lemma_answered_at_once(config, steps, events, worlds, response);
}

/// An exists tells whether the store holds a value under the key, and changes
/// nothing.
pub proof fn exists_tells_what_is_held(
    config: DispatchConfig,
    request: RequestFields,
    steps: Seq<Step>,
    events: Seq<Event>,
    worlds: Seq<World>,
    response: WireResponse,
)
    requires
        served(config, request, steps, events, worlds, response),
        request.op == op::EXISTS,
    ensures
        worlds.last() == worlds[0],
        response.status == status::OK ==> holds(worlds[0], request.namespace, request.key),
        response.status == status::MISS ==> !holds(worlds[0], request.namespace, request.key),
        response.status == status::OK || response.status == status::MISS || (response.status
            == status::ERROR && !clean(events, events.len())),
{
    lemma_answered_after_one(config, steps, events, worlds, response);
    if response.status == status::ERROR {
        assert(store_failed(events[0]));
    }
}

/// A list names the keys that the namespace holds, each of them and no other, and
/// says how many they are.
pub proof fn list_names_the_keys(
    config: DispatchConfig,
    request: RequestFields,
    steps: Seq<Step>,
    events: Seq<Event>,
    worlds: Seq<World>,
    response: WireResponse,
    keys: Seq<Seq<char>>,
)
    requires
        served(config, request, steps, events, worlds, response),
        request.op == op::LIST,
        events.len() > 0,
        events[0] matches Event::Listed(Ok(listed)) && texts(listed@) == keys,
        keys.len() <= u32::MAX,
        forall|i: int|
            0 <= i < keys.len() ==> #[trigger] encode_utf8(keys[i]).len() <= u32::MAX,
        key_batch_bytes(keys).len() <= usize::MAX,
    ensures
        worlds.last() == worlds[0],
        response.status == status::OK,
        key_batch_decoded(response.payload@) == Ok::<Seq<Seq<char>>, WireFault>(keys),
        forall|key: Seq<char>|
            holds(worlds[0], request.namespace, key) <==> #[trigger] keys.contains(key),
        parsed_uint(response.message@, usize::MAX as nat) == Some(keys.len()),
{
    lemma_answered_after_one(config, steps, events, worlds, response);
    key_batch_round_trip(keys);
    lemma_dec_parses(keys.len(), usize::MAX as nat);
    assert(keys.len() == events[0]->Listed_0->Ok_0@.len());
}

/// Statistics are what the store's metrics say, and change nothing.
pub proof fn stats_are_the_metrics(
    config: DispatchConfig,
    request: RequestFields,
    steps: Seq<Step>,
    events: Seq<Event>,
    worlds: Seq<World>,
    response: WireResponse,
)
    requires
        served(config, request, steps, events, worlds, response),
        request.op == op::STATS,
    ensures
        worlds.last() == worlds[0],
        response.status == status::OK,
        events.len() == 1,
        events[0] matches Event::Metrics(text) && response.message@ == text@,
        steps[0] matches Step::Act { action, then } && action is Metrics,
{
    lemma_answered_after_one(config, steps, events, worlds, response);
}

/// A clear drops the cache and every remembered slab before it is answered, and
/// keeps the stored values.
pub proof fn clear_forgets_the_slabs(
    config: DispatchConfig,
    request: RequestFields,
    steps: Seq<Step>,
    events: Seq<Event>,
    worlds: Seq<World>,
    response: WireResponse,
)
    requires
        served(config, request, steps, events, worlds, response),
        request.op == op::CLEAR,
    ensures
        response.status == status::OK,
        steps[0] matches Step::Act { action, then } && action is ClearFoyer,
        worlds.last().store == worlds[0].store,
        worlds.last().index == worlds[0].index,
        config.arena_min_bytes is Some ==> worlds.last().slabs == Map::<
            Seq<char>,
            ArenaSlab,
        >::empty(),
{
    lemma_answered_after_one(config, steps, events, worlds, response);
}

/// A restore is asked for the request's namespace, and its client reads the number of
/// keys that were restored.
pub proof fn restore_tells_the_count(
    config: DispatchConfig,
    request: RequestFields,
    steps: Seq<Step>,
    events: Seq<Event>,
    worlds: Seq<World>,
    response: WireResponse,
)
    requires
        served(config, request, steps, events, worlds, response),
        request.op == op::RESTORE,
    ensures
        steps[0] matches Step::Act { action, then } && action matches Action::RestoreFromS3 {
            namespace,
        } && namespace@ == request.namespace,
        events.len() == 1,
        events[0] matches Event::Restored(restored) && match restored {
            Ok(count) => response.status == status::OK && parsed_uint(
                response.message@,
                usize::MAX as nat,
            ) == Some(count as nat),
            Err(_) => response.status == status::ERROR,
        },
{
    lemma_answered_after_one(config, steps, events, worlds, response);
    if let Event::Restored(Ok(count)) = events[0] {
        lemma_dec_parses(count as nat, usize::MAX as nat);
    }
}

/// A batched get whose keys cannot be read does no work and is an error.
pub proof fn malformed_batch_is_refused(
    config: DispatchConfig,
    request: RequestFields,
    steps: Seq<Step>,
    events: Seq<Event>,
    worlds: Seq<World>,
    response: WireResponse,
)
    requires
        served(config, request, steps, events, worlds, response),
        request.op == op::GET_MANY,
        key_batch_decoded(request.payload) is Err,
    ensures
        events.len() == 0,
        worlds.last() == worlds[0],
        response.status == status::ERROR,
{
    lemma_answered_at_once(config, steps, events, worlds, response);
}

/// Where the store fails, the client is told so with what the store said, behind the
/// name of the operation.
pub proof fn store_failure_is_told(config: DispatchConfig, stage: Stage, event: Event, step: Step)
    requires
        resumes(config, stage, event, step),
    ensures
        match (stage, event) {
            (Stage::Putting { .. }, Event::Stored(Err(text))) => tells_failure(
                step,
                "put: "@ + text@,
            ),
            (Stage::Getting { .. }, Event::Got(Err(text))) => tells_failure(step, "get: "@ + text@),
            (Stage::Many { .. }, Event::Got(Err(text))) => tells_failure(
                step,
                "get_many: "@ + text@,
            ),
            (Stage::Existing { .. }, Event::Found(Err(text))) => tells_failure(
                step,
                "exists: "@ + text@,
            ),
            (Stage::Listing { .. }, Event::Listed(Err(text))) => tells_failure(
                step,
                "list: "@ + text@,
            ),
            (Stage::Restoring { .. }, Event::Restored(Err(text))) => tells_failure(
                step,
                "restore: "@ + text@,
            ),
            _ => true,
        },
{
}

/// Whether a step answers with an error and the given message.
pub open spec fn tells_failure(step: Step, message: Seq<char>) -> bool {
    step matches Step::Respond(response) && response.status == status::ERROR && response.message@
        == message && response.payload@.len() == 0
}

// ---- blocks ----

/// The key of a block with a hash.
pub open spec fn block_name(hash: Seq<char>) -> Seq<char> {
    "wombatkv/v1/block/b3="@ + hash
}

/// A lookup tells how many of the request's hashes, from the first on, the index
/// knows, up to the largest number that the wire holds.
pub proof fn lookup_counts_leading_blocks(
    config: DispatchConfig,
    request: RequestFields,
    fields: HashListFields,
    hashes: Seq<Seq<u8>>,
    steps: Seq<Step>,
    events: Seq<Event>,
    worlds: Seq<World>,
    response: WireResponse,
)
    requires
        served(config, request, steps, events, worlds, response),
        request.op == op::LOOKUP_BLOCK_PREFIX,
        lookup_req_decoded(request.payload) == Some(fields),
        hashes_parsed(fields.hashes) == Ok::<Seq<Seq<u8>>, Seq<char>>(hashes),
        hashes.len() <= u32::MAX,
    ensures
        worlds.last() == worlds[0],
        response.status == status::OK,
        lookup_resp_decoded(response.payload@) matches Some(answer) && answer.error is None
            && leading_known(worlds[0].index, hashes, answer.count),
{
    lemma_answered_after_one(config, steps, events, worlds, response);
}

/// The hashes that a block-shaped request names, if it can be read and, for a put, has
/// a payload for each.
pub open spec fn named_hashes(request: RequestFields) -> Option<Seq<Seq<char>>> {
    if request.op == op::LOOKUP_BLOCK_PREFIX {
        match lookup_req_decoded(request.payload) {
            Some(fields) => Some(fields.hashes),
            None => None,
        }
    } else if request.op == op::GET_KV_BLOCKS_BATCH {
        match get_req_decoded(request.payload) {
            Some(fields) => Some(fields.hashes),
            None => None,
        }
    } else {
        match put_req_decoded(request.payload) {
            Some(fields) => if fields.hashes.len() == fields.payloads.len() {
                Some(fields.hashes)
            } else {
                None
            },
            None => None,
        }
    }
}

/// A lookup, a block get or a block put that cannot be read, has not a payload for each
/// hash or names a malformed hash does no work and is an error.
pub proof fn malformed_hashes_are_refused(
    config: DispatchConfig,
    request: RequestFields,
    steps: Seq<Step>,
    events: Seq<Event>,
    worlds: Seq<World>,
    response: WireResponse,
)
    requires
        served(config, request, steps, events, worlds, response),
        request.op == op::LOOKUP_BLOCK_PREFIX || request.op == op::GET_KV_BLOCKS_BATCH || request.op
            == op::PUT_KV_BLOCKS_BATCH,
        named_hashes(request) matches Some(hashes) ==> hashes_parsed(hashes) is Err,
    ensures
        events.len() == 0,
        worlds.last() == worlds[0],
        response.status == status::ERROR,
{
    lemma_answered_at_once(config, steps, events, worlds, response);
}

/// A block get gives the values that the namespace holds for the request's hashes, in
/// their order; and none of them where one is missing. It is an error only where
/// fetching a block failed, and then says which block and why; where one is missing and
/// another one failed, the first of the two in the order of the hashes decides.
#[verifier::spinoff_prover]
#[verifier::rlimit(50)]
pub proof fn get_blocks_gives_the_blocks(
    config: DispatchConfig,
    request: RequestFields,
    fields: HashListFields,
    steps: Seq<Step>,
    events: Seq<Event>,
    worlds: Seq<World>,
    response: WireResponse,
)
    requires
        served(config, request, steps, events, worlds, response),
        request.op == op::GET_KV_BLOCKS_BATCH,
        get_req_decoded(request.payload) == Some(fields),
        hashes_parsed(fields.hashes) is Ok,
    ensures
        worlds.last() == worlds[0],
        response.status == status::OK ==> (get_resp_decoded(response.payload@) matches Some(answer)
            && answer.error is None && match answer.payloads {
            Some(payloads) => payloads.len() == fields.hashes.len() && forall|i: int|
                0 <= i < payloads.len() ==> is_stored(
                    worlds[0],
                    fields.namespace,
                    block_name(fields.hashes[i]),
                    #[trigger] payloads[i],
                ),
            None => exists|i: int|
                0 <= i < fields.hashes.len() && !holds(
                    worlds[0],
                    fields.namespace,
                    block_name(#[trigger] fields.hashes[i]),
                ) && (events[0] matches Event::BlocksGot(results) && fetched_between(
                    results@,
                    0,
                    i,
                )),
        }),
        response.status == status::OK || response.status == status::ERROR,
        response.status == status::ERROR ==> (events[0] matches Event::BlocksGot(results) && exists|
            i: int,
        |
            0 <= i < results@.len() && (#[trigger] results@[i] matches Err(fault)
                && fetched_between(results@, 0, i) && (fault matches BlockFault::Store(cause)
                ==> is_short("get_kv "@ + block_name(fields.hashes[i]) + ": "@ + cause@)
                ==> response.message@ == "get_kv "@ + block_name(fields.hashes[i]) + ": "@
                + cause@))),
{
    lemma_answered_after_one(config, steps, events, worlds, response);
    lemma_get_blocks_started(config, request, fields, steps[0]);
    let namespace = fields.namespace;
    let action = steps[0]->action;
    let keys = texts(action->GetBlocks_keys@);
    let results = events[0]->BlocksGot_0;
    lemma_blocks_got(
        config,
        request.id,
        steps[0]->then->GettingBlocks_keys,
        results,
        steps[1],
    );
    assert(blocks_fetched(worlds[0], namespace, keys, results@));
    if response.status == status::OK {
        let answer = get_resp_decoded(response.payload@)->0;
        match answer.payloads {
            Some(payloads) => {
                assert forall|i: int| 0 <= i < payloads.len() implies is_stored(
                    worlds[0],
                    namespace,
                    block_name(fields.hashes[i]),
                    #[trigger] payloads[i],
                ) by {
                    assert(is_block(results@[i], payloads[i]));
                    assert(keys[i] == block_name(fields.hashes[i]));
                }
            },
            None => {
                let i = choose|i: int|
                    0 <= i < results@.len() && #[trigger] results@[i] == Ok::<
                        Option<Vec<u8>>,
                        BlockFault,
                    >(None) && fetched_between(results@, 0, i);
                assert(keys[i] == block_name(fields.hashes[i]));
                assert(!holds(worlds[0], namespace, block_name(fields.hashes[i])));
            },
        }
    } else {
        let awaited = steps[0]->then->GettingBlocks_keys@;
        let i = choose|i: int|
            0 <= i < results@.len() && (#[trigger] results@[i] matches Err(fault)
                && fetched_between(results@, 0, i) && (is_short(unfetched(awaited[i]@, fault))
                ==> response.message@ == unfetched(awaited[i]@, fault)));
        assert(texts(awaited)[i] == block_name(fields.hashes[i]));
        if let Err(BlockFault::Store(cause)) = results@[i] {
            reveal_strlit("get_kv");
            reveal_strlit(" ");
            reveal_strlit("get_kv ");
            assert("get_kv"@ + " "@ + awaited[i]@ + ": "@ + cause@ =~= "get_kv "@ + block_name(
                fields.hashes[i],
            ) + ": "@ + cause@);
        }
    }
}

proof fn lemma_get_blocks_started(
    config: DispatchConfig,
    request: RequestFields,
    fields: HashListFields,
    step: Step,
)
    requires
        starts(config, request, step),
        request.op == op::GET_KV_BLOCKS_BATCH,
        get_req_decoded(request.payload) == Some(fields),
        hashes_parsed(fields.hashes) is Ok,
    ensures
        step matches Step::Act {
            action: Action::GetBlocks { namespace, keys },
            then: Stage::GettingBlocks { id, keys: awaited },
        } && id == request.id && namespace@ == fields.namespace && texts(keys@).len()
            == fields.hashes.len() && awaited@.len() == keys@.len() && texts(awaited@) == texts(
            keys@,
        ) && forall|i: int|
            0 <= i < fields.hashes.len() ==> #[trigger] texts(keys@)[i] == block_name(
                fields.hashes[i],
            ),
{
    assert(get_blocks_starts(request.id, request.payload, step));
    let action = step->action;
    assert(texts(action->GetBlocks_keys@) == block_keys_of(fields.hashes));
}

/// Whether the blocks from one position to another were all fetched.
pub open spec fn fetched_between(
    results: Seq<Result<Option<Vec<u8>>, BlockFault>>,
    from: int,
    to: int,
) -> bool {
    forall|j: int| from <= j < to ==> (#[trigger] results[j]) matches Ok(Some(_))
}

/// Whether the blocks before a position were all stored.
pub open spec fn stored_before(results: Seq<Result<(), BlockFault>>, to: int) -> bool {
    forall|j: int| 0 <= j < to ==> (#[trigger] results[j]) is Ok
}

/// Whether a result is the given block.
pub open spec fn is_block(result: Result<Option<Vec<u8>>, BlockFault>, payload: Seq<u8>) -> bool {
    result matches Ok(Some(block)) && block@ == payload
}

proof fn lemma_blocks_got(
    config: DispatchConfig,
    id: u64,
    keys: Vec<String>,
    results: Vec<Result<Option<Vec<u8>>, BlockFault>>,
    step: Step,
)
    requires
        resumes(config, Stage::GettingBlocks { id, keys }, Event::BlocksGot(results), step),
    ensures
        step !is Act,
        step matches Step::Respond(response) ==> {
            &&& response.status == status::OK || response.status == status::ERROR
            &&& response.status == status::ERROR ==> exists|i: int|
                0 <= i < results@.len() && (#[trigger] results@[i] matches Err(fault)
                    && fetched_between(results@, 0, i) && (is_short(unfetched(keys@[i]@, fault))
                    ==> response.message@ == unfetched(keys@[i]@, fault)))
            &&& response.status == status::OK ==> (get_resp_decoded(
                response.payload@,
            ) matches Some(answer) && answer.error is None && match answer.payloads {
                Some(payloads) => payloads.len() == results@.len() && forall|i: int|
                    0 <= i < payloads.len() ==> is_block(results@[i], #[trigger] payloads[i]),
                None => exists|i: int|
                    0 <= i < results@.len() && #[trigger] results@[i] == Ok::<
                        Option<Vec<u8>>,
                        BlockFault,
                    >(None) && fetched_between(results@, 0, i),
            })
        },
{
    lemma_fate(keys@, results@, 0);
    let fields = match blocks_fate(keys@, results@, 0) {
        BlocksFate::All(payloads) => PayloadsFields { payloads: Some(payloads), error: None },
        BlocksFate::Missing => PayloadsFields { payloads: None, error: None },
        BlocksFate::Failed(message) => PayloadsFields { payloads: None, error: Some(message) },
    };
    assert(blocks_answered(step, id, fields));
    lemma_blocks_answered(step, id, fields);
}

proof fn lemma_blocks_answered(step: Step, id: u64, fields: PayloadsFields)
    requires
        blocks_answered(step, id, fields),
    ensures
        step !is Act,
        step matches Step::Respond(response) ==> {
            &&& fields.error is None ==> response.status == status::OK && get_resp_decoded(
                response.payload@,
            ) == Some(fields)
            &&& fields.error matches Some(message) ==> response.status == status::ERROR && (
            is_short(message) ==> response.message@ == message)
        },
{
}

proof fn lemma_fate(
    keys: Seq<String>,
    results: Seq<Result<Option<Vec<u8>>, BlockFault>>,
    from: nat,
)
    requires
        from <= results.len(),
    ensures
        match blocks_fate(keys, results, from) {
            BlocksFate::All(payloads) => payloads.len() == results.len() - from && forall|i: int|
                0 <= i < payloads.len() ==> is_block(results[from + i], #[trigger] payloads[i]),
            BlocksFate::Missing => exists|i: int|
                from <= i < results.len() && #[trigger] results[i] == Ok::<
                    Option<Vec<u8>>,
                    BlockFault,
                >(None) && fetched_between(results, from as int, i),
            BlocksFate::Failed(message) => exists|i: int|
                from <= i < results.len() && (#[trigger] results[i] matches Err(fault) && message
                    == unfetched(keys[i]@, fault) && fetched_between(results, from as int, i)),
        },
    decreases results.len() - from,
{
    if from < results.len() {
        match results[from as int] {
            Ok(Some(payload)) => {
                lemma_fate(keys, results, from + 1);
                match blocks_fate(keys, results, from + 1) {
                    BlocksFate::All(rest) => {
                        let whole = seq![payload@] + rest;
                        assert forall|i: int| 0 <= i < whole.len() implies is_block(
                            results[from + i],
                            #[trigger] whole[i],
                        ) by {
                            if i > 0 {
                                assert(whole[i] == rest[i - 1]);
                                assert(is_block(results[(from + 1) + (i - 1)], rest[i - 1]));
                            }
                        }
                    },
                    BlocksFate::Missing => {
                        let i = choose|i: int|
                            from + 1 <= i < results.len() && #[trigger] results[i] == Ok::<
                                Option<Vec<u8>>,
                                BlockFault,
                            >(None) && fetched_between(results, (from + 1) as int, i);
                        assert(from <= i && results[i] == Ok::<Option<Vec<u8>>, BlockFault>(None));
                        assert(fetched_between(results, from as int, i));
                    },
                    BlocksFate::Failed(message) => {
                        let i = choose|i: int|
                            from + 1 <= i < results.len() && (#[trigger] results[i] matches Err(fault)
                                && message == unfetched(keys[i]@, fault) && fetched_between(
                                results,
                                (from + 1) as int,
                                i,
                            ));
                        assert(from <= i && results[i] is Err);
                        assert(fetched_between(results, from as int, i));
                    },
                }
            },
            Ok(None) => {
                let i = from as int;
                assert(results[i] == Ok::<Option<Vec<u8>>, BlockFault>(None));
                assert(fetched_between(results, from as int, i));
            },
            Err(_) => {
                let i = from as int;
                assert(results[i] is Err);
                assert(fetched_between(results, from as int, i));
            },
        }
    }
}

/// A block put that succeeds has stored each payload under the key of its hash, has
/// entered every hash with the size of its payload into the index, and tells how many
/// bytes it stored. Where no block failed it does succeed, and where one did it says
/// which and why, the first in the order of the hashes, and enters nothing.
#[verifier::spinoff_prover]
#[verifier::rlimit(50)]
pub proof fn put_blocks_stores_and_indexes(
    config: DispatchConfig,
    request: RequestFields,
    fields: PutFields,
    hashes: Seq<Seq<u8>>,
    steps: Seq<Step>,
    events: Seq<Event>,
    worlds: Seq<World>,
    response: WireResponse,
)
    requires
        served(config, request, steps, events, worlds, response),
        request.op == op::PUT_KV_BLOCKS_BATCH,
        put_req_decoded(request.payload) == Some(fields),
        fields.hashes.len() == fields.payloads.len(),
        hashes_parsed(fields.hashes) == Ok::<Seq<Seq<u8>>, Seq<char>>(hashes),
        fields.hashes.no_duplicates(),
    ensures
        response.status == status::OK ==> {
            &&& forall|i: int|
                0 <= i < fields.hashes.len() ==> holds(
                    worlds.last(),
                    fields.namespace,
                    block_name(#[trigger] fields.hashes[i]),
                ) && value_of(worlds.last(), fields.namespace, block_name(fields.hashes[i]))
                    == fields.payloads[i]
            &&& worlds.last().index == worlds[0].index.union(hashes.to_set())
            &&& put_resp_decoded(response.payload@) matches Some(answer)
            &&& answer.error is None
            &&& total_of(sizes_of(fields.payloads)) <= u64::MAX ==> answer.count == total_of(
                sizes_of(fields.payloads),
            )
        },
        response.status == status::OK || response.status == status::ERROR,
        response.status == status::OK ==> events.len() == 2 && (
        steps[1] matches Step::Act { action, then } && action matches Action::IndexBlocks {
            hashes: indexed,
            sizes,
        } && hash_bytes(indexed@) == hashes && sizes@.len() == fields.payloads.len() && forall|
            i: int,
        |
            0 <= i < sizes@.len() ==> #[trigger] sizes@[i] == fields.payloads[i].len()),
        response.status == status::ERROR ==> (events[0] matches Event::BlocksStored(results)
            && exists|i: int|
            0 <= i < results@.len() && (#[trigger] results@[i] matches Err(fault) && stored_before(
                results@,
                i,
            ) && (fault matches BlockFault::Store(cause) ==> is_short(
                "put_kv "@ + block_name(fields.hashes[i]) + ": "@ + cause@,
            ) ==> response.message@ == "put_kv "@ + block_name(fields.hashes[i]) + ": "@ + cause@))),
        response.status != status::OK ==> events.len() == 1,
{
    lemma_answered_after_one(config, steps, events, worlds, response);
    lemma_put_blocks_started(config, request, fields, hashes, steps[0]);
    let action = steps[0]->action;
    let keys = texts(action->PutBlocks_keys@);
    let stage = steps[0]->then;
    let results = events[0]->BlocksStored_0;
    lemma_blocks_stored(
        config,
        request.id,
        stage->PuttingBlocks_keys,
        stage->PuttingBlocks_hashes,
        stage->PuttingBlocks_sizes,
        results,
        steps[1],
    );
    if all_stored(results@) {
        assert(worlds[1] == with_blocks(worlds[0], fields.namespace, keys, fields.payloads));
        assert(keys.no_duplicates()) by {
            assert forall|i: int, j: int|
                0 <= i < keys.len() && 0 <= j < keys.len() && i != j implies keys[i] != keys[j] by {
                let prefix = "wombatkv/v1/block/b3="@;
                assert(keys[i] == block_name(fields.hashes[i]));
                assert(keys[j] == block_name(fields.hashes[j]));
                assert(keys[i].skip(prefix.len() as int) =~= fields.hashes[i]);
                assert(keys[j].skip(prefix.len() as int) =~= fields.hashes[j]);
            }
        }
        lemma_blocks_held(worlds[0], fields.namespace, keys, fields.payloads);
        lemma_blocks_indexed(config, request.id, steps[1]->then->total, steps[2]);
        assert forall|i: int| 0 <= i < fields.hashes.len() implies holds(
            worlds.last(),
            fields.namespace,
            block_name(#[trigger] fields.hashes[i]),
        ) && value_of(worlds.last(), fields.namespace, block_name(fields.hashes[i]))
            == fields.payloads[i] by {
            assert(keys[i] == block_name(fields.hashes[i]));
        }
        let sizes = stage->PuttingBlocks_sizes@;
        assert(as_numbers(sizes) == sizes_of(fields.payloads));
        assert(sizes.len() == as_numbers(sizes).len());
        assert forall|i: int| 0 <= i < sizes.len() implies #[trigger] sizes[i]
            == fields.payloads[i].len() by {
            assert(as_numbers(sizes)[i] == sizes_of(fields.payloads)[i]);
        }
    } else {
        let awaited = stage->PuttingBlocks_keys@;
        let i = choose|i: int|
            0 <= i < results@.len() && (#[trigger] results@[i] matches Err(fault) && stored_before(
                results@,
                i,
            ) && (is_short(unstored(awaited[i]@, fault)) ==> response.message@ == unstored(
                awaited[i]@,
                fault,
            )));
        assert(texts(awaited)[i] == block_name(fields.hashes[i]));
        if let Err(BlockFault::Store(cause)) = results@[i] {
            reveal_strlit("put_kv");
            reveal_strlit(" ");
            reveal_strlit("put_kv ");
            assert("put_kv"@ + " "@ + awaited[i]@ + ": "@ + cause@ =~= "put_kv "@ + block_name(
                fields.hashes[i],
            ) + ": "@ + cause@);
        }
    }
}

proof fn lemma_put_blocks_started(
    config: DispatchConfig,
    request: RequestFields,
    fields: PutFields,
    hashes: Seq<Seq<u8>>,
    step: Step,
)
    requires
        starts(config, request, step),
        request.op == op::PUT_KV_BLOCKS_BATCH,
        put_req_decoded(request.payload) == Some(fields),
        fields.hashes.len() == fields.payloads.len(),
        hashes_parsed(fields.hashes) == Ok::<Seq<Seq<u8>>, Seq<char>>(hashes),
    ensures
        step matches Step::Act {
            action: Action::PutBlocks { namespace, keys, payloads },
            then: Stage::PuttingBlocks { id, keys: awaited, hashes: h, sizes },
        } && id == request.id && namespace@ == fields.namespace && texts(keys@).len()
            == fields.hashes.len() && awaited@.len() == keys@.len() && texts(awaited@) == texts(
            keys@,
        ) && blobs(payloads@)
            == fields.payloads && hash_bytes(h@) == hashes && as_numbers(sizes@) == sizes_of(
            fields.payloads,
        ) && forall|i: int|
            0 <= i < fields.hashes.len() ==> #[trigger] texts(keys@)[i] == block_name(
                fields.hashes[i],
            ),
{
    assert(put_blocks_starts(request.id, request.payload, step));
    let action = step->action;
    assert(texts(action->PutBlocks_keys@) == block_keys_of(fields.hashes));
}

proof fn lemma_blocks_stored(
    config: DispatchConfig,
    id: u64,
    keys: Vec<String>,
    hashes: Vec<[u8; 32]>,
    sizes: Vec<u64>,
    results: Vec<Result<(), BlockFault>>,
    step: Step,
)
    requires
        resumes(
            config,
            Stage::PuttingBlocks { id, keys, hashes, sizes },
            Event::BlocksStored(results),
            step,
        ),
    ensures
        all_stored(results@) ==> (step matches Step::Act {
            action: Action::IndexBlocks { hashes: h, sizes: s },
            then: Stage::Indexing { id: i, total },
        } && h == hashes && i == id && total == saturating_total(as_numbers(sizes@))),
        !all_stored(results@) ==> step !is Act && (step matches Step::Respond(response)
            ==> response.status == status::ERROR && exists|i: int|
            0 <= i < results@.len() && (#[trigger] results@[i] matches Err(fault) && stored_before(
                results@,
                i,
            ) && (is_short(unstored(keys@[i]@, fault)) ==> response.message@ == unstored(
                keys@[i]@,
                fault,
            )))),
{
    lemma_first_failure(keys@, results@, 0);
    if let Some(message) = first_error(keys@, results@, 0) {
        let fields = CountFields { count: 0, error: Some(message) };
        assert(put_blocks_answered(step, id, fields));
        lemma_put_blocks_answered(step, id, fields);
        let i = choose|i: int|
            0 <= i < results@.len() && (#[trigger] results@[i] matches Err(fault) && message
                == unstored(keys@[i]@, fault)) && forall|j: int|
                0 <= j < i ==> (#[trigger] results@[j]) is Ok;
        assert(results@[i] is Err && stored_before(results@, i));
    }
}

proof fn lemma_blocks_indexed(config: DispatchConfig, id: u64, total: u64, step: Step)
    requires
        resumes(config, Stage::Indexing { id, total }, Event::Done, step),
    ensures
        step !is Act,
        step matches Step::Respond(response) ==> response.status == status::OK && put_resp_decoded(
            response.payload@,
        ) == Some(CountFields { count: total as nat, error: None }),
{
    lemma_put_blocks_answered(step, id, CountFields { count: total as nat, error: None });
}

proof fn lemma_put_blocks_answered(step: Step, id: u64, fields: CountFields)
    requires
        put_blocks_answered(step, id, fields),
    ensures
        step !is Act,
        step matches Step::Respond(response) ==> {
            &&& fields.error is None ==> response.status == status::OK && put_resp_decoded(
                response.payload@,
            ) == Some(fields)
            &&& fields.error matches Some(message) ==> response.status == status::ERROR && (
            is_short(message) ==> response.message@ == message)
        },
{
}

proof fn lemma_first_failure(
    keys: Seq<String>,
    results: Seq<Result<(), BlockFault>>,
    from: nat,
)
    requires
        from <= results.len(),
    ensures
        match first_error(keys, results, from) {
            None => forall|i: int| from <= i < results.len() ==> (#[trigger] results[i]) is Ok,
            Some(message) => exists|i: int|
                from <= i < results.len() && (#[trigger] results[i] matches Err(fault) && message
                    == unstored(keys[i]@, fault)) && forall|j: int|
                    from <= j < i ==> (#[trigger] results[j]) is Ok,
        },
    decreases results.len() - from,
{
    if from < results.len() {
        if results[from as int] is Ok {
            lemma_first_failure(keys, results, from + 1);
            if let Some(message) = first_error(keys, results, from + 1) {
                let i = choose|i: int|
                    from + 1 <= i < results.len() && (#[trigger] results[i] matches Err(fault)
                        && message == unstored(keys[i]@, fault)) && forall|j: int|
                        from + 1 <= j < i ==> (#[trigger] results[j]) is Ok;
                assert(results[i] is Err);
                assert forall|j: int| from <= j < i implies (#[trigger] results[j]) is Ok by {}
            }
        } else {
            let i = from as int;
            assert(results[i] is Err);
        }
    }
}

proof fn lemma_blocks_held(
    world: World,
    namespace: Seq<char>,
    keys: Seq<Seq<char>>,
    payloads: Seq<Seq<u8>>,
)
    requires
        keys.len() == payloads.len(),
        keys.no_duplicates(),
    ensures
        forall|i: int|
            0 <= i < keys.len() ==> holds(
                with_blocks(world, namespace, keys, payloads),
                namespace,
                #[trigger] keys[i],
            ) && value_of(with_blocks(world, namespace, keys, payloads), namespace, keys[i])
                == payloads[i],
        with_blocks(world, namespace, keys, payloads).index == world.index,
    decreases keys.len(),
{
    if keys.len() > 0 {
        let (k, p) = (keys.drop_last(), payloads.drop_last());
        lemma_blocks_held(world, namespace, k, p);
        assert forall|i: int| 0 <= i < keys.len() implies holds(
            with_blocks(world, namespace, keys, payloads),
            namespace,
            #[trigger] keys[i],
        ) && value_of(with_blocks(world, namespace, keys, payloads), namespace, keys[i])
            == payloads[i] by {
            if i < k.len() {
                assert(k[i] == keys[i]);
            }
        }
    }
}

} // verus!

//! What a call comes to, from the command that a client is given to the result that
//! it returns: the request that it sends is served, and it reads the answer. The laws
//! speak of the values that the daemon's world holds, and of nothing in between.

use bytes::Bytes;
use vstd::prelude::*;
use vstd::utf8::encode_utf8;

use crate::arena::{arena_key_text, ArenaSlab};
use crate::blocks::{HashListFields, PutFields};
use crate::client::{
    blocks_finished, buffers_opt, exists_finished, get_finished, get_many_finished, hash_id,
    list_finished, lookup_finished, plan_item, plan_len, put_blocks_finished, request_matches,
    restore_finished, stats_finished, unit_finished, Command, PutPlan, RemoteError, RemoteFault,
    RemoteGetOutcome,
};
use crate::dispatch::{sizes_of, DispatchConfig, Event, HitTier, Step};
use crate::hashes::hashes_parsed;
use crate::large::{
    chunk_count_of, chunk_key_text, chunk_keys_differ, chunk_of, chunks_rebuild_payload,
    joined_chunks, manifest_of, manifest_parsed, manifest_round_trip, manifest_text,
};
use crate::message::{RequestFields, WireResponse};
use crate::service::{
    arena_matches, block_name, chunks_joined, clean, clear_forgets_the_slabs,
    exists_tells_what_is_held, flawless, get_blocks_gives_the_blocks, get_gives_the_value,
    get_many_gives_the_values, hit_in, holds, holds_chunks, is_resolved, is_stored, is_value,
    leading_known, list_names_the_keys, lookup_counts_leading_blocks, meant_by,
    put_blocks_stores_and_indexes, put_in_background, put_is_done, put_stores_the_value,
    restore_tells_the_count, served, simple_requests_are_answered_at_once, slab_is_current,
    slabs_are_short, stats_are_the_metrics, told_tier, value_of, values_of, World,
};
use crate::text::{blobs, texts};
use crate::wire::{
    buffers, bytes_batch_decoded, bytes_of, key_batch_bytes, key_batch_decoded,
    key_batch_round_trip, total_of, WireFault,
};
use crate::{op, status};

verus! {

/// Whether a command was sent as a request and served to a response.
pub open spec fn called(
    config: DispatchConfig,
    command: Command,
    request: RequestFields,
    steps: Seq<Step>,
    events: Seq<Event>,
    worlds: Seq<World>,
    response: WireResponse,
) -> bool {
    &&& request_matches(command, request.id, Ok::<RequestFields, RemoteFault>(request))
    &&& served(config, request, steps, events, worlds, response)
}

/// A put that returns has stored the value under its key and changed no other, unless
/// it was left to the background. It fails only where the store failed.
pub proof fn put_call_stores(
    config: DispatchConfig,
    namespace: String,
    key: String,
    payload: Bytes,
    request: RequestFields,
    steps: Seq<Step>,
    events: Seq<Event>,
    worlds: Seq<World>,
    response: WireResponse,
    result: Result<(), RemoteError>,
)
    requires
        called(
            config,
            Command::Put { namespace, key, payload },
            request,
            steps,
            events,
            worlds,
            response,
        ),
        arena_matches(config, worlds[0]),
        slabs_are_short(steps),
        unit_finished(response@, result),
    ensures
        result is Ok && !put_in_background(events, events.len()) ==> worlds.last().store
            == worlds[0].store.insert((namespace@, key@), bytes_of(payload)),
        result is Err ==> !clean(events, events.len()),
        flawless(events, events.len()) && !put_in_background(events, events.len()) ==> put_is_done(
            config,
            worlds[0],
            worlds.last(),
            namespace@,
            key@,
            bytes_of(payload),
        ),
{
    put_stores_the_value(config, request, steps, events, worlds, response);
}

/// A get returns the value that the daemon holds under the key, or that it stands for,
/// and the tier in which it was hit; nothing where there is none. It fails only where
/// the store failed.
pub proof fn get_call_returns_the_value(
    config: DispatchConfig,
    namespace: String,
    key: String,
    request: RequestFields,
    steps: Seq<Step>,
    events: Seq<Event>,
    worlds: Seq<World>,
    response: WireResponse,
    result: Result<RemoteGetOutcome, RemoteError>,
)
    requires
        called(
            config,
            Command::Get { namespace, key },
            request,
            steps,
            events,
            worlds,
            response,
        ),
        arena_matches(config, worlds[0]),
        config.arena_min_bytes is Some ==> slab_is_current(worlds[0], namespace@, key@),
        slabs_are_short(steps),
        get_finished(response@, Some(worlds.last().region), result),
    ensures
        match result {
            Ok(RemoteGetOutcome::Hit { tier, payload }) => {
                &&& is_value(worlds[0], namespace@, key@, bytes_of(payload))
                &&& is_resolved(
                    config,
                    worlds[0],
                    namespace@,
                    key@,
                    flawless(events, events.len()),
                    bytes_of(payload),
                )
                &&& hit_in(steps, events, events.len()) matches Some(hit) ==> tier == told_tier(hit)
            },
            Ok(RemoteGetOutcome::Miss) => !holds(worlds[0], namespace@, key@),
            Err(_) => !clean(events, events.len()),
        },
{
    get_gives_the_value(config, request, steps, events, worlds, response);
}

/// A batched get returns a batch of the values that the keys stand for, in the order of
/// the keys; nothing where one of the keys is missing.
pub proof fn get_many_call_returns_the_values(
    config: DispatchConfig,
    namespace: String,
    keys: Vec<String>,
    request: RequestFields,
    steps: Seq<Step>,
    events: Seq<Event>,
    worlds: Seq<World>,
    response: WireResponse,
    result: Result<Option<Bytes>, RemoteError>,
)
    requires
        called(
            config,
            Command::GetMany { namespace, keys },
            request,
            steps,
            events,
            worlds,
            response,
        ),
        texts(keys@).len() <= u32::MAX,
        forall|i: int|
            0 <= i < texts(keys@).len() ==> #[trigger] encode_utf8(texts(keys@)[i]).len()
                <= u32::MAX,
        key_batch_bytes(texts(keys@)).len() <= usize::MAX,
        arena_matches(config, worlds[0]),
        slabs_are_short(steps),
        get_many_finished(response@, Some(worlds.last().region), result),
    ensures
        match result {
            Ok(Some(batch)) => {
                &&& bytes_batch_decoded(bytes_of(batch)) matches Ok(values)
                &&& values.len() == keys@.len()
                &&& values_of(worlds[0], namespace@, texts(keys@), values)
            },
            Ok(None) => exists|i: int|
                0 <= i < keys@.len() && !holds(
                    worlds[0],
                    namespace@,
                    #[trigger] texts(keys@)[i],
                ),
            Err(error) => true,
        },
        (forall|i: int|
            0 <= i < keys@.len() ==> holds(worlds[0], namespace@, #[trigger] texts(keys@)[i])
                && meant_by(
                worlds[0],
                namespace@,
                value_of(worlds[0], namespace@, texts(keys@)[i]),
            ) is Some) && clean(events, events.len()) ==> result matches Ok(Some(_)) || (
        result matches Err(error) && error@ matches RemoteFault::DaemonStatus { status: s, message: _ }
            && s == status::TOO_LARGE),
{
    key_batch_round_trip(texts(keys@));
    get_many_gives_the_values(
        config,
        request,
        texts(keys@),
        steps,
        events,
        worlds,
        response,
    );
}

/// An exists returns whether the daemon holds a value under the key.
pub proof fn exists_call_tells_what_is_held(
    config: DispatchConfig,
    namespace: String,
    key: String,
    request: RequestFields,
    steps: Seq<Step>,
    events: Seq<Event>,
    worlds: Seq<World>,
    response: WireResponse,
    result: Result<bool, RemoteError>,
)
    requires
        called(
            config,
            Command::Exists { namespace, key },
            request,
            steps,
            events,
            worlds,
            response,
        ),
        exists_finished(response@, result),
    ensures
        worlds.last() == worlds[0],
        result matches Ok(found) ==> found == holds(worlds[0], namespace@, key@),
        result is Err ==> !clean(events, events.len()),
{
    exists_tells_what_is_held(config, request, steps, events, worlds, response);
}

/// A list returns a batch of the keys that the namespace holds.
pub proof fn list_call_returns_the_keys(
    config: DispatchConfig,
    namespace: String,
    request: RequestFields,
    steps: Seq<Step>,
    events: Seq<Event>,
    worlds: Seq<World>,
    response: WireResponse,
    keys: Seq<Seq<char>>,
    result: Result<Bytes, RemoteError>,
)
    requires
        called(config, Command::List { namespace }, request, steps, events, worlds, response),
        events.len() > 0,
        events[0] matches Event::Listed(Ok(listed)) && texts(listed@) == keys,
        keys.len() <= u32::MAX,
        forall|i: int|
            0 <= i < keys.len() ==> #[trigger] encode_utf8(keys[i]).len() <= u32::MAX,
        key_batch_bytes(keys).len() <= usize::MAX,
        list_finished(response@, result),
    ensures
        result matches Ok(batch) && key_batch_decoded(bytes_of(batch)) == Ok::<
            Seq<Seq<char>>,
            WireFault,
        >(keys),
        forall|key: Seq<char>|
            holds(worlds[0], namespace@, key) <==> #[trigger] keys.contains(key),
{
    list_names_the_keys(config, request, steps, events, worlds, response, keys);
}

/// A ping returns and changes nothing.
pub proof fn ping_call_returns(
    config: DispatchConfig,
    request: RequestFields,
    steps: Seq<Step>,
    events: Seq<Event>,
    worlds: Seq<World>,
    response: WireResponse,
    result: Result<(), RemoteError>,
)
    requires
        called(config, Command::Ping, request, steps, events, worlds, response),
        unit_finished(response@, result),
    ensures
        result is Ok,
        worlds.last() == worlds[0],
{
    simple_requests_are_answered_at_once(config, request, steps, events, worlds, response);
}

/// A clear returns once every remembered slab is forgotten; the values stay.
pub proof fn clear_call_forgets_the_slabs(
    config: DispatchConfig,
    request: RequestFields,
    steps: Seq<Step>,
    events: Seq<Event>,
    worlds: Seq<World>,
    response: WireResponse,
    result: Result<(), RemoteError>,
)
    requires
        called(config, Command::Clear, request, steps, events, worlds, response),
        unit_finished(response@, result),
    ensures
        result is Ok,
        worlds.last().store == worlds[0].store,
        config.arena_min_bytes is Some ==> worlds.last().slabs == Map::<
            Seq<char>,
            ArenaSlab,
        >::empty(),
{
    clear_forgets_the_slabs(config, request, steps, events, worlds, response);
}

/// A stats call returns what the store's metrics say.
pub proof fn stats_call_returns_the_metrics(
    config: DispatchConfig,
    request: RequestFields,
    steps: Seq<Step>,
    events: Seq<Event>,
    worlds: Seq<World>,
    response: WireResponse,
    result: Result<String, RemoteError>,
)
    requires
        called(config, Command::Stats, request, steps, events, worlds, response),
        stats_finished(response@, result),
    ensures
        events.len() == 1,
        events[0] matches Event::Metrics(text) && (result matches Ok(told) && told@ == text@),
{
    stats_are_the_metrics(config, request, steps, events, worlds, response);
}

/// A restore returns the number of keys that were restored.
pub proof fn restore_call_returns_the_count(
    config: DispatchConfig,
    namespace: String,
    request: RequestFields,
    steps: Seq<Step>,
    events: Seq<Event>,
    worlds: Seq<World>,
    response: WireResponse,
    result: Result<usize, RemoteError>,
)
    requires
        called(config, Command::Restore { namespace }, request, steps, events, worlds, response),
        restore_finished(response@, result),
    ensures
        events.len() == 1,
        events[0] matches Event::Restored(restored) && match restored {
            Ok(count) => result matches Ok(told) && told == count,
            Err(_) => result is Err,
        },
{
    restore_tells_the_count(config, request, steps, events, worlds, response);
}

/// A lookup returns how many of the hashes, from the first on, the index knows.
pub proof fn lookup_call_counts_leading_blocks(
    config: DispatchConfig,
    namespace: String,
    block_hashes_hex: Vec<String>,
    hashes: Seq<Seq<u8>>,
    request: RequestFields,
    steps: Seq<Step>,
    events: Seq<Event>,
    worlds: Seq<World>,
    response: WireResponse,
    result: Result<usize, RemoteError>,
)
    requires
        called(
            config,
            Command::LookupBlockPrefix { namespace, block_hashes_hex },
            request,
            steps,
            events,
            worlds,
            response,
        ),
        hashes_parsed(texts(block_hashes_hex@)) == Ok::<Seq<Seq<u8>>, Seq<char>>(hashes),
        hashes.len() <= u32::MAX,
        lookup_finished(response@, result),
    ensures
        result matches Ok(count) && leading_known(worlds[0].index, hashes, count as nat),
{
    let fields = HashListFields { namespace: namespace@, hashes: texts(block_hashes_hex@) };
    lookup_counts_leading_blocks(
        config,
        request,
        fields,
        hashes,
        steps,
        events,
        worlds,
        response,
    );
}

/// A block get returns the blocks of the hashes in their order, or nothing where one
/// of them is missing. It fails only where fetching a block failed.
pub proof fn get_blocks_call_returns_the_blocks(
    config: DispatchConfig,
    namespace: String,
    block_hashes_hex: Vec<String>,
    request: RequestFields,
    steps: Seq<Step>,
    events: Seq<Event>,
    worlds: Seq<World>,
    response: WireResponse,
    result: Result<Option<Vec<Bytes>>, RemoteError>,
)
    requires
        called(
            config,
            Command::GetKvBlocksBatch { namespace, block_hashes_hex },
            request,
            steps,
            events,
            worlds,
            response,
        ),
        hashes_parsed(texts(block_hashes_hex@)) is Ok,
        blocks_finished(response@, result),
    ensures
        match result {
            Ok(Some(blocks)) => buffers(blocks@).len() == block_hashes_hex@.len() && forall|i: int|
                0 <= i < block_hashes_hex@.len() ==> is_stored(
                    worlds[0],
                    namespace@,
                    block_name(texts(block_hashes_hex@)[i]),
                    #[trigger] buffers(blocks@)[i],
                ),
            Ok(None) => exists|i: int|
                0 <= i < block_hashes_hex@.len() && !holds(
                    worlds[0],
                    namespace@,
                    block_name(#[trigger] texts(block_hashes_hex@)[i]),
                ),
            Err(_) => events[0] matches Event::BlocksGot(results) && exists|i: int|
                0 <= i < results@.len() && (#[trigger] results@[i]) is Err,
        },
{
    let fields = HashListFields { namespace: namespace@, hashes: texts(block_hashes_hex@) };
    get_blocks_gives_the_blocks(config, request, fields, steps, events, worlds, response);
}

/// A block put that returns has stored each payload as the block of its hash, has
/// entered every hash into the index, and returns how many bytes it stored.
pub proof fn put_blocks_call_stores_the_blocks(
    config: DispatchConfig,
    namespace: String,
    block_hashes_hex: Vec<String>,
    payloads: Vec<Vec<u8>>,
    hashes: Seq<Seq<u8>>,
    request: RequestFields,
    steps: Seq<Step>,
    events: Seq<Event>,
    worlds: Seq<World>,
    response: WireResponse,
    result: Result<u64, RemoteError>,
)
    requires
        called(
            config,
            Command::PutKvBlocksBatch { namespace, block_hashes_hex, payloads },
            request,
            steps,
            events,
            worlds,
            response,
        ),
        hashes_parsed(texts(block_hashes_hex@)) == Ok::<Seq<Seq<u8>>, Seq<char>>(hashes),
        texts(block_hashes_hex@).no_duplicates(),
        put_blocks_finished(response@, result),
    ensures
        match result {
            Ok(total) => {
                &&& forall|i: int|
                    0 <= i < block_hashes_hex@.len() ==> is_stored(
                        worlds.last(),
                        namespace@,
                        block_name(#[trigger] texts(block_hashes_hex@)[i]),
                        blobs(payloads@)[i],
                    )
                &&& worlds.last().index == worlds[0].index.union(hashes.to_set())
                &&& total_of(sizes_of(blobs(payloads@))) <= u64::MAX ==> total == total_of(
                    sizes_of(blobs(payloads@)),
                )
            },
            Err(_) => events[0] matches Event::BlocksStored(results) && exists|i: int|
                0 <= i < results@.len() && (#[trigger] results@[i]) is Err,
        },
{
    let fields = PutFields {
        namespace: namespace@,
        hashes: texts(block_hashes_hex@),
        payloads: blobs(payloads@),
    };
    put_blocks_stores_and_indexes(
        config,
        request,
        fields,
        hashes,
        steps,
        events,
        worlds,
        response,
    );
}

// ---- large values ----

/// Whether worlds are those that a client's puts of a value lead through: one for each
/// chunk in their order, and the manifest under the value's key last; or the value
/// itself.
pub open spec fn put_in_turn(
    worlds: Seq<World>,
    namespace: Seq<char>,
    plan: PutPlan,
    key: Seq<char>,
    payload: Seq<u8>,
) -> bool {
    &&& worlds.len() == plan_len(plan) + 1
    &&& forall|i: int|
        0 <= i < plan_len(plan) ==> is_put(
            #[trigger] worlds[i],
            worlds[i + 1],
            namespace,
            plan_item(plan, key, payload, i as nat),
        )
}

/// Whether a value was put under a key and no other was changed.
pub open spec fn is_put(
    before: World,
    after: World,
    namespace: Seq<char>,
    item: (Seq<char>, Seq<u8>),
) -> bool {
    after.store == before.store.insert((namespace, item.0), item.1)
}

proof fn lemma_chunk_put(
    worlds: Seq<World>,
    namespace: Seq<char>,
    plan: PutPlan,
    key: Seq<char>,
    payload: Seq<u8>,
    i: nat,
    n: nat,
)
    requires
        put_in_turn(worlds, namespace, plan, key, payload),
        plan matches PutPlan::Chunked { id, chunk_count } && i < chunk_count && i < n <= chunk_count
            + 1 && forall|j: nat| j < chunk_count ==> key != #[trigger] chunk_key_text(id@, j),
    ensures
        is_stored(
            worlds[n as int],
            namespace,
            chunk_key_text(plan->Chunked_id@, i),
            chunk_of(payload, i),
        ),
    decreases n,
{
    let id = plan->Chunked_id@;
    let last = (n - 1) as nat;
    assert(is_put(
        worlds[last as int],
        worlds[n as int],
        namespace,
        plan_item(plan, key, payload, last),
    ));
    if last > i {
        lemma_chunk_put(worlds, namespace, plan, key, payload, i, last);
        if last < plan->Chunked_chunk_count {
            chunk_keys_differ(id, i, last);
        } else {
            assert(key != chunk_key_text(id, i));
        }
    }
}

proof fn lemma_chunks_as_put(
    world: World,
    namespace: Seq<char>,
    id: Seq<char>,
    payload: Seq<u8>,
    n: nat,
)
    requires
        forall|i: nat|
            i < n ==> is_stored(
                world,
                namespace,
                #[trigger] chunk_key_text(id, i),
                chunk_of(payload, i),
            ),
    ensures
        chunks_joined(world, namespace, id, n) == joined_chunks(payload, n),
    decreases n,
{
    if n > 0 {
        let last = (n - 1) as nat;
        lemma_chunks_as_put(world, namespace, id, payload, last);
        assert(is_stored(world, namespace, chunk_key_text(id, last), chunk_of(payload, last)));
    }
}

/// After the puts of a value, in one piece or in chunks, what is stored under its key
/// stands for the value: a get through the arena and a batched get give it back whole.
/// Left out are a small value that is itself a manifest, and a key that is one of the
/// value's own chunk keys.
pub proof fn value_put_is_the_value_meant(
    worlds: Seq<World>,
    namespace: Seq<char>,
    plan: PutPlan,
    key: Seq<char>,
    payload: Seq<u8>,
)
    requires
        put_in_turn(worlds, namespace, plan, key, payload),
        payload.len() <= usize::MAX,
        plan is Whole ==> manifest_parsed(payload) is None,
        plan matches PutPlan::Chunked { id, chunk_count } ==> {
            &&& hash_id(id@)
            &&& chunk_count == chunk_count_of(payload.len())
            &&& forall|i: nat| i < chunk_count ==> key != #[trigger] chunk_key_text(id@, i)
        },
    ensures
        holds(worlds.last(), namespace, key),
        meant_by(worlds.last(), namespace, value_of(worlds.last(), namespace, key)) == Some(payload),
{
    let after = worlds.last();
    match plan {
        PutPlan::Whole => {
            assert(is_put(worlds[0], after, namespace, (key, payload)));
        },
        PutPlan::Chunked { id, chunk_count } => {
            let count = chunk_count as nat;
            let manifest = manifest_of(id@, payload);
            assert(is_put(
                worlds[count as int],
                after,
                namespace,
                plan_item(plan, key, payload, count),
            ));
            assert(value_of(after, namespace, key) == encode_utf8(manifest_text(manifest)));
            assert forall|i: int| 0 <= i < id@.len() implies #[trigger] id@[i] != '\n' by {
                assert(crate::text::is_digit(id@[i]) || ('a' <= id@[i] && id@[i] <= 'f'));
            }
            assert(crate::text::is_digit(id@[63]) || ('a' <= id@[63] && id@[63] <= 'f'));
            manifest_round_trip(manifest);
            assert forall|i: nat| i < count implies is_stored(
                after,
                namespace,
                #[trigger] chunk_key_text(id@, i),
                chunk_of(payload, i),
            ) by {
                lemma_chunk_put(worlds, namespace, plan, key, payload, i, count + 1);
            }
            lemma_chunks_as_put(after, namespace, id@, payload, count);
            chunks_rebuild_payload(payload);
            assert(holds_chunks(after, namespace, id@, count));
        },
    }
}

// ---- blocks ----

/// Blocks that were put are found: a get of the same hashes gives the payloads in
/// their order, and a lookup counts them all.
pub proof fn blocks_put_are_found(
    config: DispatchConfig,
    namespace: String,
    block_hashes_hex: Vec<String>,
    payloads: Vec<Vec<u8>>,
    hashes: Seq<Seq<u8>>,
    put: (RequestFields, Seq<Step>, Seq<Event>, Seq<World>, WireResponse, Result<u64, RemoteError>),
    get: (
        RequestFields,
        Seq<Step>,
        Seq<Event>,
        Seq<World>,
        WireResponse,
        Result<Option<Vec<Bytes>>, RemoteError>,
    ),
    lookup: (
        RequestFields,
        Seq<Step>,
        Seq<Event>,
        Seq<World>,
        WireResponse,
        Result<usize, RemoteError>,
    ),
)
    requires
        called(
            config,
            Command::PutKvBlocksBatch { namespace, block_hashes_hex, payloads },
            put.0,
            put.1,
            put.2,
            put.3,
            put.4,
        ),
        put_blocks_finished(put.4@, put.5),
        put.5 is Ok,
        called(
            config,
            Command::GetKvBlocksBatch { namespace, block_hashes_hex },
            get.0,
            get.1,
            get.2,
            get.3,
            get.4,
        ),
        blocks_finished(get.4@, get.5),
        get.5 is Ok,
        get.3[0] == put.3.last(),
        called(
            config,
            Command::LookupBlockPrefix { namespace, block_hashes_hex },
            lookup.0,
            lookup.1,
            lookup.2,
            lookup.3,
            lookup.4,
        ),
        lookup_finished(lookup.4@, lookup.5),
        lookup.3[0] == put.3.last(),
        hashes_parsed(texts(block_hashes_hex@)) == Ok::<Seq<Seq<u8>>, Seq<char>>(hashes),
        texts(block_hashes_hex@).no_duplicates(),
        hashes.len() <= u32::MAX,
    ensures
        get.5 matches Ok(Some(blocks)) && buffers(blocks@) == blobs(payloads@),
        lookup.5 == Ok::<usize, RemoteError>(hashes.len() as usize),
{
    put_blocks_call_stores_the_blocks(
        config,
        namespace,
        block_hashes_hex,
        payloads,
        hashes,
        put.0,
        put.1,
        put.2,
        put.3,
        put.4,
        put.5,
    );
    get_blocks_call_returns_the_blocks(
        config,
        namespace,
        block_hashes_hex,
        get.0,
        get.1,
        get.2,
        get.3,
        get.4,
        get.5,
    );
    lookup_call_counts_leading_blocks(
        config,
        namespace,
        block_hashes_hex,
        hashes,
        lookup.0,
        lookup.1,
        lookup.2,
        lookup.3,
        lookup.4,
        lookup.5,
    );
    let names = texts(block_hashes_hex@);
    let after = put.3.last();
    assert forall|i: int| 0 <= i < names.len() implies is_stored(
        after,
        namespace@,
        block_name(#[trigger] names[i]),
        blobs(payloads@)[i],
    ) by {}
    match get.5 {
        Ok(Some(blocks)) => {
            assert forall|i: int| 0 <= i < names.len() implies buffers(blocks@)[i] == blobs(
                payloads@,
            )[i] by {
                assert(is_stored(after, namespace@, block_name(names[i]), blobs(payloads@)[i]));
                assert(is_stored(after, namespace@, block_name(names[i]), buffers(blocks@)[i]));
            }
            assert(buffers(blocks@) =~= blobs(payloads@));
        },
        _ => {},
    }
    let count = lookup.5->Ok_0;
    if count < hashes.len() {
        assert(hashes.to_set().contains(hashes[count as int]));
    }
}

} // verus!

//! What is sent to clients: batches of updates and snapshots, framed.
use crate::options::snapshot::{contract_list, holds_snapshot,
    lemma_serialized_snapshot_holds_its_fields, lemma_snapshot_reads_back,
    AggregatedOptionSnapshot, MSG_TYPE_OPTION_SNAPSHOT, MSG_TYPE_SPOT_BBO};
use crate::orderbook::level::{holds_update, lemma_serialized_update_holds_its_fields,
    lemma_update_reads_back, BboUpdate, BBO_SERIALIZED_SIZE};
use crate::tap::{gave, Tap};
use crate::wire::{le_bytes, le_value, le_words, lemma_le_bytes_len, lemma_le_round_trip,
    lemma_places_count, push_le};
use arrayvec::ArrayVec;
use crossbeam_queue::ArrayQueue;
use vstd::arithmetic::power::pow;
use vstd::prelude::*;

verus! {

pub const BROADCAST_QUEUE_CAP: usize = 32768;

pub const OPTION_QUEUE_CAP: usize = 8192;

/// The updates that a bounded vector of 64 holds, first to last.
pub uninterp spec fn update_list(v: ArrayVec<BboUpdate, 64>) -> Seq<BboUpdate>;

/// The snapshots that a bounded vector of 16 holds, first to last.
pub uninterp spec fn snapshot_list(v: ArrayVec<AggregatedOptionSnapshot, 16>) -> Seq<
    AggregatedOptionSnapshot,
>;

/// `ArrayVec::new`: a vector that holds nothing.
#[verifier::external_body]
fn updates_new() -> (v: ArrayVec<BboUpdate, 64>)
    ensures
        update_list(v) == Seq::<BboUpdate>::empty(),
{
    ArrayVec::new()
}

/// `ArrayVec::push`: `update` comes behind what the vector holds. The call panics on
/// a vector that is full.
#[verifier::external_body]
fn updates_push(v: &mut ArrayVec<BboUpdate, 64>, update: BboUpdate)
    requires
        update_list(*old(v)).len() < 64,
    ensures
        update_list(*final(v)) == update_list(*old(v)).push(update),
{
    v.push(update);
}

/// `ArrayVec::as_slice`: the updates that the vector holds, in order, never more
/// than its type has room for.
#[verifier::external_body]
fn updates_slice(v: &ArrayVec<BboUpdate, 64>) -> (s: &[BboUpdate])
    ensures
        s@ == update_list(*v),
        s@.len() <= 64,
{
    v.as_slice()
}

/// `ArrayVec::new`: a vector that holds nothing.
#[verifier::external_body]
fn snapshots_new() -> (v: ArrayVec<AggregatedOptionSnapshot, 16>)
    ensures
        snapshot_list(v) == Seq::<AggregatedOptionSnapshot>::empty(),
{
    ArrayVec::new()
}

/// `ArrayVec::push`: `snapshot` comes behind what the vector holds. The call panics
/// on a vector that is full.
#[verifier::external_body]
fn snapshots_push(v: &mut ArrayVec<AggregatedOptionSnapshot, 16>, snapshot: AggregatedOptionSnapshot)
    requires
        snapshot_list(*old(v)).len() < 16,
    ensures
        snapshot_list(*final(v)) == snapshot_list(*old(v)).push(snapshot),
{
    v.push(snapshot);
}

/// `ArrayVec::as_slice`: the snapshots that the vector holds, in order, never more
/// than its type has room for.
#[verifier::external_body]
fn snapshots_slice(v: &ArrayVec<AggregatedOptionSnapshot, 16>) -> (s: &[AggregatedOptionSnapshot])
    ensures
        s@ == snapshot_list(*v),
        s@.len() <= 16,
{
    v.as_slice()
}

/// An update on the wire: what it is, how many bytes follow, and those bytes.
pub open spec fn update_frame(update: BboUpdate) -> Seq<u8> {
    seq![MSG_TYPE_SPOT_BBO] + le_bytes(BBO_SERIALIZED_SIZE as nat, 2) + le_words(update.words())
}

/// Byte strings one after the other.
pub open spec fn joined(parts: Seq<Seq<u8>>) -> Seq<u8>
    decreases parts.len(),
{
    if parts.len() == 0 {
        Seq::empty()
    } else {
        joined(parts.drop_last()) + parts.last()
    }
}

/// The frames of a batch: one for each update, then one for each snapshot.
pub open spec fn batch_frames(
    updates: Seq<BboUpdate>,
    snapshots: Seq<AggregatedOptionSnapshot>,
) -> Seq<Seq<u8>> {
    updates.map_values(|update: BboUpdate| update_frame(update)) + snapshots.map_values(
        |snapshot: AggregatedOptionSnapshot| snapshot.bytes(),
    )
}

/// The bytes of a batch.
pub open spec fn batch_bytes(
    updates: Seq<BboUpdate>,
    snapshots: Seq<AggregatedOptionSnapshot>,
) -> Seq<u8> {
    joined(batch_frames(updates, snapshots))
}

/// Appends the frame of an update.
fn push_update(update: &BboUpdate, out: &mut Vec<u8>)
    ensures
        final(out)@ == old(out)@ + update_frame(*update),
{
    out.push(MSG_TYPE_SPOT_BBO);
    push_le(out, BBO_SERIALIZED_SIZE as u64, 2);
    let mut payload: [u8; BBO_SERIALIZED_SIZE] = [0u8;BBO_SERIALIZED_SIZE];
    update.serialize(&mut payload);
    out.extend_from_slice(&payload);
    assert(out@ =~= old(out)@ + update_frame(*update));
}

/// The bytes of a batch of updates and snapshots.
pub fn encode_batch(updates: &[BboUpdate], snapshots: &[AggregatedOptionSnapshot]) -> (r: Vec<u8>)
    ensures
        r@ == batch_bytes(updates@, snapshots@),
{
    let ghost frames = batch_frames(updates@, snapshots@);
    let mut out: Vec<u8> = Vec::with_capacity(65536);
    let mut i: usize = 0;
    assert(joined(frames.take(0)) =~= Seq::empty());
    while i < updates.len()
        invariant
            frames == batch_frames(updates@, snapshots@),
            i <= updates@.len(),
            out@ == joined(frames.take(i as int)),
        decreases updates@.len() - i,
    {
        push_update(&updates[i], &mut out);
        assert(frames.take(i + 1).drop_last() =~= frames.take(i as int));
        assert(frames[i as int] == update_frame(updates@[i as int]));
        i = i + 1;
    }
    let mut k: usize = 0;
    while k < snapshots.len()
        invariant
            frames == batch_frames(updates@, snapshots@),
            k <= snapshots@.len(),
            out@ == joined(frames.take(updates@.len() + k)),
        decreases snapshots@.len() - k,
    {
        snapshots[k].serialize(&mut out);
        assert(frames.take(updates@.len() + k + 1).drop_last() =~= frames.take(
            updates@.len() + k,
        ));
        assert(frames[updates@.len() + k] == snapshots@[k as int].bytes());
        k = k + 1;
    }
    assert(frames.take(frames.len() as int) =~= frames);
    out
}

/// Whether a list holds what came out of a queue: the k-th item is what the k-th pop
/// gave, each once and none left out, and the pops went on until there were `limit`
/// items or the queue gave none.
pub open spec fn in_pop_order<T>(outcomes: Seq<Option<T>>, items: Seq<T>, limit: nat) -> bool {
    &&& items.len() <= limit
    &&& outcomes.len() == items.len() + if items.len() < limit {
        1nat
    } else {
        0nat
    }
    &&& forall|k: int| 0 <= k < items.len() ==> #[trigger] outcomes[k] == Some(items[k])
    &&& items.len() < limit ==> outcomes.last() is None
}

/// Takes in what came out of the queue of updates, while there is room. Whether to
/// go on: not where nothing came out, nor once the batch is full.
pub fn take_update(batch: &mut ArrayVec<BboUpdate, 64>, popped: Option<BboUpdate>) -> (more: bool)
    requires
        update_list(*old(batch)).len() < 64,
    ensures
        match popped {
            Some(update) => {
                &&& update_list(*final(batch)) == update_list(*old(batch)).push(update)
                &&& more == (update_list(*final(batch)).len() < 64)
            },
            None => update_list(*final(batch)) == update_list(*old(batch)) && !more,
        },
{
    match popped {
        Some(update) => {
            updates_push(batch, update);
            updates_slice(batch).len() < 64
        },
        None => false,
    }
}

/// Takes in what came out of the queue of snapshots, while there is room. Whether to
/// go on: not where nothing came out, nor once the batch is full.
pub fn take_snapshot(
    batch: &mut ArrayVec<AggregatedOptionSnapshot, 16>,
    popped: Option<AggregatedOptionSnapshot>,
) -> (more: bool)
    requires
        snapshot_list(*old(batch)).len() < 16,
    ensures
        match popped {
            Some(snapshot) => {
                &&& snapshot_list(*final(batch)) == snapshot_list(*old(batch)).push(snapshot)
                &&& more == (snapshot_list(*final(batch)).len() < 16)
            },
            None => snapshot_list(*final(batch)) == snapshot_list(*old(batch)) && !more,
        },
{
    match popped {
        Some(snapshot) => {
            snapshots_push(batch, snapshot);
            snapshots_slice(batch).len() < 16
        },
        None => false,
    }
}

/// Whether updates can have come out of a queue one after the other: the queue gave
/// each of them, and where they are fewer than 64 it then gave none.
pub open spec fn updates_from(queue: &ArrayQueue<BboUpdate>, updates: Seq<BboUpdate>) -> bool {
    &&& updates.len() <= 64
    &&& forall|i: int|
        0 <= i < updates.len() ==> call_ensures(
            ArrayQueue::<BboUpdate>::pop,
            (queue,),
            Some(#[trigger] updates[i]),
        )
    &&& updates.len() < 64 ==> call_ensures(ArrayQueue::<BboUpdate>::pop, (queue,), None)
}

/// Whether snapshots can have come out of a queue one after the other: the queue
/// gave each of them, and where they are fewer than 16 it then gave none.
pub open spec fn snapshots_from(
    queue: &ArrayQueue<AggregatedOptionSnapshot>,
    snapshots: Seq<AggregatedOptionSnapshot>,
) -> bool {
    &&& snapshots.len() <= 16
    &&& forall|i: int|
        0 <= i < snapshots.len() ==> call_ensures(
            ArrayQueue::<AggregatedOptionSnapshot>::pop,
            (queue,),
            Some(#[trigger] snapshots[i]),
        )
    &&& snapshots.len() < 16 ==> call_ensures(
        ArrayQueue::<AggregatedOptionSnapshot>::pop,
        (queue,),
        None,
    )
}

/// Takes up to 64 updates out of a queue, fewer only where it gives no more. They
/// stand in the batch in the order in which they came out, each once.
fn drain_updates(queue: &ArrayQueue<BboUpdate>) -> (batch: ArrayVec<BboUpdate, 64>)
    ensures
        updates_from(queue, update_list(batch)),
        exists|outcomes: Seq<Option<BboUpdate>>|
            {
                &&& #[trigger] gave(queue, outcomes)
                &&& in_pop_order(outcomes, update_list(batch), 64)
            },
{
    let mut batch = updates_new();
    let mut tap = Tap::new(queue);
    let mut more: bool = true;
    while more
        invariant
            tap.wf(),
            tap.queue() == queue,
            more ==> update_list(batch).len() < 64,
            update_list(batch).len() <= 64,
            more || update_list(batch).len() == 64 ==> tap.outcomes().len() == update_list(batch).len(),
            !more && update_list(batch).len() < 64 ==> {
                &&& tap.outcomes().len() == update_list(batch).len() + 1
                &&& tap.outcomes().last() is None
                &&& call_ensures(ArrayQueue::<BboUpdate>::pop, (queue,), None)
            },
            forall|i: int|
                0 <= i < update_list(batch).len() ==> call_ensures(
                    ArrayQueue::<BboUpdate>::pop,
                    (queue,),
                    Some(#[trigger] update_list(batch)[i]),
                ),
            forall|i: int|
                0 <= i < update_list(batch).len() ==> tap.outcomes()[i] == Some(
                    #[trigger] update_list(batch)[i],
                ),
        decreases 64 - update_list(batch).len(), (if more { 1int } else { 0int }),
    {
        let popped = tap.pop();
        more = take_update(&mut batch, popped);
    }
    proof {
        tap.lemma_gave();
        assert(in_pop_order(tap.outcomes(), update_list(batch), 64));
    }
    batch
}

/// Takes up to 16 snapshots out of a queue, fewer only where it gives no more. They
/// stand in the batch in the order in which they came out, each once.
fn drain_snapshots(queue: &ArrayQueue<AggregatedOptionSnapshot>) -> (batch: ArrayVec<AggregatedOptionSnapshot, 16>)
    ensures
        snapshots_from(queue, snapshot_list(batch)),
        exists|outcomes: Seq<Option<AggregatedOptionSnapshot>>|
            {
                &&& #[trigger] gave(queue, outcomes)
                &&& in_pop_order(outcomes, snapshot_list(batch), 16)
            },
{
    let mut batch = snapshots_new();
    let mut tap = Tap::new(queue);
    let mut more: bool = true;
    while more
        invariant
            tap.wf(),
            tap.queue() == queue,
            more ==> snapshot_list(batch).len() < 16,
            snapshot_list(batch).len() <= 16,
            more || snapshot_list(batch).len() == 16 ==> tap.outcomes().len() == snapshot_list(batch).len(),
            !more && snapshot_list(batch).len() < 16 ==> {
                &&& tap.outcomes().len() == snapshot_list(batch).len() + 1
                &&& tap.outcomes().last() is None
                &&& call_ensures(ArrayQueue::<AggregatedOptionSnapshot>::pop, (queue,), None)
            },
            forall|i: int|
                0 <= i < snapshot_list(batch).len() ==> call_ensures(
                    ArrayQueue::<AggregatedOptionSnapshot>::pop,
                    (queue,),
                    Some(#[trigger] snapshot_list(batch)[i]),
                ),
            forall|i: int|
                0 <= i < snapshot_list(batch).len() ==> tap.outcomes()[i] == Some(
                    #[trigger] snapshot_list(batch)[i],
                ),
        decreases 16 - snapshot_list(batch).len(), (if more { 1int } else { 0int }),
    {
        let popped = tap.pop();
        more = take_snapshot(&mut batch, popped);
    }
    proof {
        tap.lemma_gave();
        assert(in_pop_order(tap.outcomes(), snapshot_list(batch), 16));
    }
    batch
}

/// Takes up to 64 updates and up to 16 snapshots out of their queues, fewer only
/// where a queue gives no more, and encodes them in the order in which they came out.
/// Which items a queue gives depends on what other threads do with it.
pub fn next_batch(
    updates: &ArrayQueue<BboUpdate>,
    snapshots: &ArrayQueue<AggregatedOptionSnapshot>,
) -> (r: Vec<u8>)
    ensures
        exists|
            us: Seq<BboUpdate>,
            ss: Seq<AggregatedOptionSnapshot>,
            popped: Seq<Option<BboUpdate>>,
            option_popped: Seq<Option<AggregatedOptionSnapshot>>,
        |
            {
                &&& updates_from(updates, us)
                &&& snapshots_from(snapshots, ss)
                &&& r@ == #[trigger] batch_bytes(us, ss)
                &&& #[trigger] gave(updates, popped)
                &&& in_pop_order(popped, us, 64)
                &&& #[trigger] gave(snapshots, option_popped)
                &&& in_pop_order(option_popped, ss, 16)
            },
{
    let batch = drain_updates(updates);
    let option_batch = drain_snapshots(snapshots);
    encode_batch(updates_slice(&batch), snapshots_slice(&option_batch))
}

/// The length of the frame at the front of a byte string. An update says how many
/// bytes follow, a snapshot how many it takes in all.
pub open spec fn front_frame_len(bytes: Seq<u8>) -> nat {
    let said = le_value(bytes.subrange(1, 3));
    if bytes[0] == MSG_TYPE_SPOT_BBO {
        3 + said
    } else {
        said
    }
}

/// A byte string cut into frames, as a client does it. What is left at the end and
/// is no whole frame stays out.
pub open spec fn cut(bytes: Seq<u8>) -> Seq<Seq<u8>>
    decreases bytes.len(),
{
    if bytes.len() < 3 || front_frame_len(bytes) < 3 || front_frame_len(bytes) > bytes.len() {
        Seq::empty()
    } else {
        let n = front_frame_len(bytes) as int;
        seq![bytes.subrange(0, n)] + cut(bytes.subrange(n, bytes.len() as int))
    }
}

/// Whether a byte string is one frame and says so itself.
pub open spec fn is_frame(bytes: Seq<u8>) -> bool {
    bytes.len() >= 3 && front_frame_len(bytes) == bytes.len()
}

proof fn lemma_joined_first(parts: Seq<Seq<u8>>)
    requires
        parts.len() > 0,
    ensures
        joined(parts) == parts[0] + joined(parts.drop_first()),
    decreases parts.len(),
{
    if parts.len() == 1 {
        assert(parts.drop_last() =~= Seq::empty());
        assert(parts.drop_first() =~= Seq::empty());
        assert(joined(parts) =~= parts[0] + joined(parts.drop_first()));
    } else {
        lemma_joined_first(parts.drop_last());
        assert(parts.drop_last().drop_first() =~= parts.drop_first().drop_last());
        assert(joined(parts) =~= parts[0] + joined(parts.drop_first()));
    }
}

/// Frames that are sent one after the other can be told apart again.
pub proof fn lemma_frames_are_cut_again(frames: Seq<Seq<u8>>)
    requires
        forall|i: int| 0 <= i < frames.len() ==> is_frame(#[trigger] frames[i]),
    ensures
        cut(joined(frames)) == frames,
    decreases frames.len(),
{
    let bytes = joined(frames);
    if frames.len() > 0 {
        let rest = frames.drop_first();
        let first = frames[0];
        lemma_joined_first(frames);
        assert(is_frame(first));
        assert(bytes.subrange(1, 3) =~= first.subrange(1, 3));
        let n = first.len() as int;
        assert(bytes.subrange(0, n) =~= first);
        assert(bytes.subrange(n, bytes.len() as int) =~= joined(rest));
        assert forall|i: int| 0 <= i < rest.len() implies is_frame(#[trigger] rest[i]) by {
            assert(rest[i] == frames[i + 1]);
        }
        lemma_frames_are_cut_again(rest);
        assert(seq![first] + rest =~= frames);
    }
}

/// Batches that are sent one after the other are one stream of frames.
pub proof fn lemma_batches_join(first: Seq<Seq<u8>>, second: Seq<Seq<u8>>)
    ensures
        joined(first + second) == joined(first) + joined(second),
    decreases second.len(),
{
    if second.len() == 0 {
        assert(first + second =~= first);
        assert(joined(first) + joined(second) =~= joined(first));
    } else {
        lemma_batches_join(first, second.drop_last());
        assert((first + second).drop_last() =~= first + second.drop_last());
        assert(joined(first + second) =~= joined(first) + joined(second));
    }
}

proof fn lemma_update_is_a_frame(update: BboUpdate)
    ensures
        is_frame(update_frame(update)),
        update_frame(update).len() == 219,
        update_frame(update)[0] == MSG_TYPE_SPOT_BBO,
        update_frame(update).subrange(3, 219) == le_words(update.words()),
{
    lemma_le_bytes_len(216, 2);
    reveal_with_fuel(pow, 3);
    assert(pow(256, 2) == 0x1_0000);
    lemma_le_round_trip(216, 2);
    lemma_update_reads_back(update, 0);
    assert(update_frame(update).subrange(1, 3) =~= le_bytes(216, 2));
    assert(update_frame(update).subrange(3, 219) =~= le_words(update.words()));
}

/// A client that cuts a batch into frames gets one frame for each update and then
/// one for each snapshot, in the order of the batch.
pub proof fn lemma_batch_is_cut_again(
    updates: Seq<BboUpdate>,
    snapshots: Seq<AggregatedOptionSnapshot>,
)
    requires
        forall|i: int|
            0 <= i < snapshots.len() ==> contract_list((#[trigger] snapshots[i]).contracts).len()
                <= 128,
    ensures
        cut(batch_bytes(updates, snapshots)) == batch_frames(updates, snapshots),
{
    let frames = batch_frames(updates, snapshots);
    assert forall|i: int| 0 <= i < frames.len() implies is_frame(#[trigger] frames[i]) by {
        if i < updates.len() {
            lemma_update_is_a_frame(updates[i]);
        } else {
            lemma_snapshot_reads_back(snapshots[i - updates.len()], 0);
        }
    }
    lemma_frames_are_cut_again(frames);
}

/// What an update's frame says can be read back: its type, and word number `k` of
/// the update in the eight bytes from `3 + 8 * k` on.
pub proof fn lemma_frame_reads_back(update: BboUpdate, k: int)
    requires
        0 <= k < 27,
    ensures
        update_frame(update).len() == 3 + BBO_SERIALIZED_SIZE,
        update_frame(update)[0] == MSG_TYPE_SPOT_BBO,
        le_value(update_frame(update).subrange(1, 3)) == BBO_SERIALIZED_SIZE,
        le_value(update_frame(update).subrange(3 + 8 * k, 11 + 8 * k)) == update.words()[k],
{
    lemma_update_is_a_frame(update);
    lemma_update_reads_back(update, k);
    assert(update_frame(update).subrange(3 + 8 * k, 11 + 8 * k) =~= update_frame(update).subrange(
        3,
        219,
    ).subrange(8 * k, 8 * k + 8));
}

/// Only an empty batch has no bytes.
pub proof fn lemma_empty_batch(updates: Seq<BboUpdate>, snapshots: Seq<AggregatedOptionSnapshot>)
    ensures
        batch_bytes(updates, snapshots).len() == 0 <==> updates.len() == 0 && snapshots.len() == 0,
{
    let frames = batch_frames(updates, snapshots);
    if frames.len() > 0 {
        lemma_joined_first(frames);
        if updates.len() > 0 {
            lemma_update_is_a_frame(updates[0]);
        } else {
            assert(frames[0] == snapshots[0].bytes());
            assert(snapshots[0].bytes()[0] == MSG_TYPE_OPTION_SNAPSHOT);
        }
    }
}

/// Whether bytes are the frame of an update: a zero, the number of the bytes that
/// follow in two bytes, and the update.
pub open spec fn frames_update(bytes: Seq<u8>, update: BboUpdate) -> bool {
    &&& bytes.len() == 219
    &&& bytes[0] == 0
    &&& bytes[1] == 216
    &&& bytes[2] == 0
    &&& holds_update(bytes.subrange(3, 219), update)
}

proof fn lemma_frame_frames_its_update(update: BboUpdate)
    ensures
        frames_update(update_frame(update), update),
{
    let frame = update_frame(update);
    lemma_update_is_a_frame(update);
    lemma_serialized_update_holds_its_fields(update, frame.subrange(3, 219));
    lemma_le_bytes_len(216, 2);
    lemma_places_count(frame.subrange(1, 3));
}

/// A batch is put together from the front: an empty one has no bytes, one more update
/// appends its frame, and one more snapshot behind the updates appends its bytes.
pub proof fn lemma_batch_grows_at_its_end(
    updates: Seq<BboUpdate>,
    update: BboUpdate,
    snapshots: Seq<AggregatedOptionSnapshot>,
    snapshot: AggregatedOptionSnapshot,
)
    requires
        contract_list(snapshot.contracts).len() <= 128,
    ensures
        batch_bytes(Seq::empty(), Seq::empty()).len() == 0,
        ({
            let before = batch_bytes(updates, Seq::empty());
            let after = batch_bytes(updates.push(update), Seq::empty());
            let n = before.len() as int;
            &&& after.len() == n + 219
            &&& after.take(n) == before
            &&& frames_update(after.subrange(n, n + 219), update)
        }),
        ({
            let before = batch_bytes(updates, snapshots);
            let after = batch_bytes(updates, snapshots.push(snapshot));
            let n = before.len() as int;
            &&& after.len() > n
            &&& after.take(n) == before
            &&& holds_snapshot(after.skip(n), snapshot)
        }),
{
    let none = Seq::<AggregatedOptionSnapshot>::empty();
    assert(batch_frames(updates.push(update), none).drop_last() =~= batch_frames(updates, none));
    let before = batch_bytes(updates, none);
    let after = batch_bytes(updates.push(update), none);
    let n = before.len() as int;
    lemma_update_is_a_frame(update);
    lemma_frame_frames_its_update(update);
    assert(after =~= before + update_frame(update));
    assert(after.take(n) =~= before);
    assert(after.subrange(n, n + 219) =~= update_frame(update));

    assert(batch_frames(updates, snapshots.push(snapshot)).drop_last() =~= batch_frames(
        updates,
        snapshots,
    ));
    let short = batch_bytes(updates, snapshots);
    let long = batch_bytes(updates, snapshots.push(snapshot));
    let m = short.len() as int;
    lemma_serialized_snapshot_holds_its_fields(snapshot);
    assert(long =~= short + snapshot.bytes());
    assert(long.take(m) =~= short);
    assert(long.skip(m) =~= snapshot.bytes());
}

/// A client gets what was popped, in the order of the pops: cut into frames, a batch
/// gives for the k-th pop of an update the frame of that update, and behind those for
/// the k-th pop of a snapshot that snapshot, and nothing else.
pub proof fn lemma_frames_are_in_pop_order(
    popped: Seq<Option<BboUpdate>>,
    updates: Seq<BboUpdate>,
    option_popped: Seq<Option<AggregatedOptionSnapshot>>,
    snapshots: Seq<AggregatedOptionSnapshot>,
)
    requires
        in_pop_order(popped, updates, 64),
        in_pop_order(option_popped, snapshots, 16),
        forall|i: int|
            0 <= i < snapshots.len() ==> contract_list((#[trigger] snapshots[i]).contracts).len()
                <= 128,
    ensures
        ({
            let frames = cut(batch_bytes(updates, snapshots));
            let n = updates.len() as int;
            &&& n <= 64
            &&& snapshots.len() <= 16
            &&& frames.len() == n + snapshots.len()
            &&& popped.len() == n || popped.len() == n + 1
            &&& popped.len() == n ==> n == 64
            &&& popped.len() == n + 1 ==> n < 64 && popped[n] is None
            &&& option_popped.len() == snapshots.len() || option_popped.len() == snapshots.len() + 1
            &&& option_popped.len() == snapshots.len() ==> snapshots.len() == 16
            &&& option_popped.len() == snapshots.len() + 1 ==> snapshots.len() < 16
                && option_popped[snapshots.len() as int] is None
            &&& forall|k: int|
                0 <= k < n ==> {
                    &&& popped[k] is Some
                    &&& frames_update(#[trigger] frames[k], popped[k]->0)
                }
            &&& forall|k: int|
                0 <= k < snapshots.len() ==> {
                    &&& (#[trigger] option_popped[k]) is Some
                    &&& holds_snapshot(frames[n + k], option_popped[k]->0)
                }
        }),
{
    lemma_batch_is_cut_again(updates, snapshots);
    let frames = cut(batch_bytes(updates, snapshots));
    let n = updates.len() as int;
    assert forall|k: int| 0 <= k < n implies {
        &&& popped[k] is Some
        &&& frames_update(#[trigger] frames[k], popped[k]->0)
    } by {
        assert(popped[k] == Some(updates[k]));
        assert(frames[k] == update_frame(updates[k]));
        lemma_frame_frames_its_update(updates[k]);
    }
    assert forall|k: int| 0 <= k < snapshots.len() implies {
        &&& (#[trigger] option_popped[k]) is Some
        &&& holds_snapshot(frames[n + k], option_popped[k]->0)
    } by {
        assert(frames[n + k] == snapshots[k].bytes());
        lemma_serialized_snapshot_holds_its_fields(snapshots[k]);
    }
}

/// A client finds the end of a frame from its first three bytes: behind a zero stands
/// the number of bytes that follow, behind any other byte the number of bytes of the
/// whole frame, the less significant byte first.
pub proof fn lemma_frames_tell_their_length(bytes: Seq<u8>)
    requires
        bytes.len() >= 3,
    ensures
        bytes[0] == 0 ==> front_frame_len(bytes) == 3 + bytes[1] + 256 * bytes[2],
        bytes[0] != 0 ==> front_frame_len(bytes) == bytes[1] + 256 * bytes[2],
{
    lemma_places_count(bytes.subrange(1, 3));
}

/// The queues have room for 2^15 updates and 2^13 snapshots.
pub proof fn lemma_queue_sizes()
    ensures
        BROADCAST_QUEUE_CAP == 0x8000,
        OPTION_QUEUE_CAP == 0x2000,
{
}

} // verus!

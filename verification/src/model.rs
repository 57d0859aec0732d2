//! A model of the shared output file under concurrent fetchers.
//!
//! Each write a fetcher performs is an event: a byte offset and the chunk
//! written there. The file is a byte sequence; an event repositions the write
//! cursor and writes the chunk, extending the file if it writes past the end
//! (a seek past the end fills the gap with zeroes). A whole transfer is a
//! sequence of such events — the per-chunk writes of all fetchers, in
//! whichever order the tasks interleaved.
//!
//! The theorems here say when a transfer reconstructs the resource: if every
//! event writes the resource's own bytes at its offset (each fetcher's
//! running offset starts at its interval's start, and a successful ranged
//! response streams the resource from exactly there), and the events
//! together cover every byte of the resource, then the final file equals the
//! resource — whatever order the events interleaved in. In particular its
//! length is exactly the resource's length, and it is byte-identical to what
//! a single unranged fetch of the same resource produces.

use vstd::prelude::*;
use crate::ByteInterval;
use crate::fetch::interval_start;
use crate::plan::{interval_covers, is_plan, plan_args_ok};

verus! {

/// One write against the shared output file: `data` placed at byte `offset`.
pub struct WriteEvent {
    /// The byte offset the write cursor is repositioned to.
    pub offset: int,
    /// The bytes written there.
    pub data: Seq<u8>,
}

/// The file after repositioning to `offset` and writing `data`: bytes inside
/// the written span come from `data`, bytes below the old length elsewhere
/// are kept, and any gap between the old end and `offset` reads as zeroes.
pub open spec fn write_at(file: Seq<u8>, offset: int, data: Seq<u8>) -> Seq<u8>
    recommends
        0 <= offset,
{
    let new_len = if offset + data.len() > file.len() {
        offset + data.len()
    } else {
        file.len() as int
    };
    Seq::new(
        new_len as nat,
        |i: int|
            if offset <= i < offset + data.len() {
                data[i - offset]
            } else if i < file.len() {
                file[i]
            } else {
                0u8
            },
    )
}

/// The file after a sequence of write events, applied first to last.
pub open spec fn apply_events(file: Seq<u8>, evs: Seq<WriteEvent>) -> Seq<u8>
    decreases evs.len(),
{
    if evs.len() == 0 {
        file
    } else {
        apply_events(write_at(file, evs[0].offset, evs[0].data), evs.drop_first())
    }
}

/// Whether an event writes the resource's own bytes at its offset.
pub open spec fn event_ok(ev: WriteEvent, resource: Seq<u8>) -> bool {
    &&& 0 <= ev.offset
    &&& ev.offset + ev.data.len() <= resource.len()
    &&& ev.data == resource.subrange(ev.offset, ev.offset + ev.data.len())
}

/// Whether the event writes byte position `b`.
pub open spec fn event_covers(ev: WriteEvent, b: int) -> bool {
    ev.offset <= b < ev.offset + ev.data.len()
}

/// Whether some event of `evs` writes byte position `b`.
pub open spec fn some_event_covers(evs: Seq<WriteEvent>, b: int) -> bool {
    exists|k: int| 0 <= k < evs.len() && event_covers(evs[k], b)
}

/// What a sequence of resource-faithful events does to a file no longer than
/// the resource: the file never grows past the resource nor shrinks, every
/// byte some event wrote holds the resource's byte, and every byte no event
/// wrote is untouched.
proof fn lemma_faithful_events(file: Seq<u8>, evs: Seq<WriteEvent>, resource: Seq<u8>)
    requires
        file.len() <= resource.len(),
        forall|k: int| 0 <= k < evs.len() ==> event_ok(#[trigger] evs[k], resource),
    ensures
        file.len() <= apply_events(file, evs).len() <= resource.len(),
        forall|b: int|
            #[trigger] some_event_covers(evs, b) ==> b < apply_events(file, evs).len()
                && apply_events(file, evs)[b] == resource[b],
        forall|b: int|
            0 <= b < file.len() && !some_event_covers(evs, b) ==> apply_events(file, evs)[b]
                == file[b],
    decreases evs.len(),
{
    if evs.len() > 0 {
        let ev = evs[0];
        let file1 = write_at(file, ev.offset, ev.data);
        let rest = evs.drop_first();
        assert(event_ok(ev, resource));
        assert(forall|k: int| 0 <= k < rest.len() ==> event_ok(#[trigger] rest[k], resource));
        lemma_faithful_events(file1, rest, resource);
        let out = apply_events(file, evs);
        assert(out == apply_events(file1, rest));
        assert forall|b: int| #[trigger] some_event_covers(evs, b) implies b < out.len()
            && out[b] == resource[b] by {
            if some_event_covers(rest, b) {
            } else {
                // only the first event wrote `b`; its write put the
                // resource's byte there and no later event moved it.
                let k = choose|k: int| 0 <= k < evs.len() && event_covers(evs[k], b);
                if k > 0 {
                    assert(rest[k - 1] == evs[k]);
                    assert(event_covers(rest[k - 1], b));
                    assert(some_event_covers(rest, b));
                }
                assert(k == 0);
                assert(event_covers(ev, b));
                assert(file1[b] == ev.data[b - ev.offset]);
                assert(file1[b] == resource[b]);
                assert(out[b] == file1[b]);
            }
        }
        assert forall|b: int|
            0 <= b < file.len() && !some_event_covers(evs, b) implies out[b] == file[b] by {
            assert(!event_covers(ev, b)) by {
                if event_covers(ev, b) {
                    assert(some_event_covers(evs, b));
                }
            }
            assert(file1[b] == file[b]);
            assert(!some_event_covers(rest, b)) by {
                if some_event_covers(rest, b) {
                    let k = choose|k: int| 0 <= k < rest.len() && event_covers(rest[k], b);
                    assert(evs[k + 1] == rest[k]);
                    assert(some_event_covers(evs, b));
                }
            }
            assert(out[b] == file1[b]);
        }
    }
}

/// The all-or-nothing success law of the transfer: if every write event is
/// resource-faithful and together the events cover every byte of the
/// resource, then applying them to an empty file — in whatever order the
/// fetchers' writes interleaved — yields exactly the resource. The output's
/// length is exactly the probed resource length, and its content is
/// byte-identical to the resource.
pub proof fn lemma_events_reconstruct_resource(evs: Seq<WriteEvent>, resource: Seq<u8>)
    requires
        forall|k: int| 0 <= k < evs.len() ==> event_ok(#[trigger] evs[k], resource),
        forall|b: int| 0 <= b < resource.len() ==> #[trigger] some_event_covers(evs, b),
    ensures
        apply_events(Seq::<u8>::empty(), evs) == resource,
{
    let out = apply_events(Seq::<u8>::empty(), evs);
    lemma_faithful_events(Seq::<u8>::empty(), evs, resource);
    if resource.len() > 0 {
        assert(some_event_covers(evs, resource.len() - 1));
        assert(out.len() == resource.len());
    }
    assert forall|b: int| 0 <= b < resource.len() implies out[b] == resource[b] by {
        assert(some_event_covers(evs, b));
    }
    assert(out =~= resource);
}

/// The write events of one fetcher: its chunks in arrival order, each written
/// at the running offset, which starts at `start` and advances by each
/// chunk's length.
pub open spec fn task_events(start: int, chunks: Seq<Seq<u8>>) -> Seq<WriteEvent>
    decreases chunks.len(),
{
    if chunks.len() == 0 {
        Seq::empty()
    } else {
        seq![WriteEvent { offset: start, data: chunks[0] }] + task_events(
            start + chunks[0].len(),
            chunks.drop_first(),
        )
    }
}

/// The bytes of a chunk sequence, in order.
pub open spec fn concat_chunks(chunks: Seq<Seq<u8>>) -> Seq<u8>
    decreases chunks.len(),
{
    if chunks.len() == 0 {
        Seq::empty()
    } else {
        chunks[0] + concat_chunks(chunks.drop_first())
    }
}

/// A fetcher whose received chunks concatenate to the resource's bytes from
/// `start` produces only resource-faithful events, and those events cover
/// exactly the bytes `start ..< start + len` that it received.
pub proof fn lemma_task_events_faithful(start: int, chunks: Seq<Seq<u8>>, resource: Seq<u8>)
    requires
        0 <= start,
        start + concat_chunks(chunks).len() <= resource.len(),
        concat_chunks(chunks) == resource.subrange(
            start,
            start + concat_chunks(chunks).len(),
        ),
    ensures
        forall|k: int|
            0 <= k < task_events(start, chunks).len() ==> event_ok(
                #[trigger] task_events(start, chunks)[k],
                resource,
            ),
        forall|b: int|
            start <= b < start + concat_chunks(chunks).len() ==> #[trigger] some_event_covers(
                task_events(start, chunks),
                b,
            ),
    decreases chunks.len(),
{
    if chunks.len() > 0 {
        let c0 = chunks[0];
        let rest = chunks.drop_first();
        let whole = concat_chunks(chunks);
        let ev0 = WriteEvent { offset: start, data: c0 };
        let evs = task_events(start, chunks);
        assert(whole == c0 + concat_chunks(rest));
        assert(c0 =~= whole.subrange(0, c0.len() as int));
        assert(c0 =~= resource.subrange(start, start + c0.len()));
        assert(event_ok(ev0, resource));
        assert(concat_chunks(rest) =~= whole.subrange(c0.len() as int, whole.len() as int));
        assert(concat_chunks(rest) =~= resource.subrange(
            start + c0.len(),
            start + c0.len() + concat_chunks(rest).len(),
        ));
        lemma_task_events_faithful(start + c0.len(), rest, resource);
        let rest_evs = task_events(start + c0.len(), rest);
        assert(evs == seq![ev0] + rest_evs);
        assert(evs[0] == ev0);
        assert forall|k: int| 0 <= k < evs.len() implies event_ok(
            #[trigger] evs[k],
            resource,
        ) by {
            if k > 0 {
                assert(evs[k] == rest_evs[k - 1]);
            }
        }
        assert forall|b: int| start <= b < start + whole.len() implies #[trigger] some_event_covers(
            evs,
            b,
        ) by {
            if b < start + c0.len() {
                assert(event_covers(evs[0], b));
            } else {
                assert(some_event_covers(rest_evs, b));
                let k = choose|k: int| 0 <= k < rest_evs.len() && event_covers(rest_evs[k], b);
                assert(evs[k + 1] == rest_evs[k]);
                assert(event_covers(evs[k + 1], b));
            }
        }
    }
}

/// How many bytes of a resource of length `total` an interval covers.
pub open spec fn interval_byte_count(iv: ByteInterval, total: int) -> int {
    match iv {
        ByteInterval::Bounded { start, end } => end - start + 1,
        ByteInterval::OpenEnded { start } => total - start,
    }
}

/// The whole transfer, end to end: when the intervals are the planner's
/// partition, every fetcher received exactly the resource's bytes over its
/// interval, and the run's write events — in whatever interleaved order —
/// are those of the fetchers, then the output file is exactly the resource.
/// Its length is the probed total, and its bytes are the resource's.
pub proof fn lemma_planned_transfer_reconstructs(
    ivs: Seq<ByteInterval>,
    chunkss: Seq<Seq<Seq<u8>>>,
    evs: Seq<WriteEvent>,
    resource: Seq<u8>,
    count: int,
)
    requires
        plan_args_ok(resource.len() as int, count),
        resource.len() <= u64::MAX,
        is_plan(ivs, resource.len() as int, count),
        chunkss.len() == count,
        forall|t: int|
            0 <= t < count ==> concat_chunks(#[trigger] chunkss[t]).len() == interval_byte_count(
                ivs[t],
                resource.len() as int,
            ),
        forall|t: int|
            0 <= t < count ==> concat_chunks(#[trigger] chunkss[t]) == resource.subrange(
                interval_start(ivs[t]) as int,
                interval_start(ivs[t]) + concat_chunks(chunkss[t]).len(),
            ),
        forall|k: int|
            0 <= k < evs.len() ==> exists|t: int, j: int|
                0 <= t < count && 0 <= j < task_events(
                    interval_start(ivs[t]) as int,
                    chunkss[t],
                ).len() && #[trigger] evs[k] == task_events(
                    interval_start(ivs[t]) as int,
                    chunkss[t],
                )[j],
        forall|t: int, j: int|
            0 <= t < count && 0 <= j < task_events(interval_start(ivs[t]) as int, chunkss[t]).len()
                ==> exists|k: int|
                0 <= k < evs.len() && evs[k] == #[trigger] task_events(
                    interval_start(ivs[t]) as int,
                    chunkss[t],
                )[j],
    ensures
        apply_events(Seq::<u8>::empty(), evs) == resource,
{
    let total = resource.len() as int;
    crate::plan::lemma_plan_partition(ivs, total, count);
    // each task's stream is faithful over its interval's span
    assert forall|t: int| 0 <= t < count implies interval_start(ivs[t]) + concat_chunks(
        chunkss[t],
    ).len() <= total && 0 <= interval_start(ivs[t]) by {
        let chunk = crate::plan::chunk_size(total, count);
        vstd::arithmetic::div_mod::lemma_fundamental_div_mod(total, count);
        vstd::arithmetic::div_mod::lemma_mod_bound(total, count);
        vstd::arithmetic::div_mod::lemma_div_pos_is_pos(total, count);
        assert(count * chunk <= total);
        if t < count - 1 {
            assert(0 <= chunk * t && 1 <= chunk * (t + 1) && chunk * (t + 1) <= total)
                by (nonlinear_arith)
                requires
                    chunk >= 1,
                    0 <= t < count - 1,
                    count * chunk <= total,
            ;
        } else {
            assert(0 <= chunk * (count - 1) && chunk * (count - 1) <= total)
                by (nonlinear_arith)
                requires
                    chunk >= 0,
                    count >= 1,
                    count * chunk <= total,
            ;
        }
    }
    assert forall|t: int| 0 <= t < count implies (forall|j: int|
        0 <= j < task_events(interval_start(#[trigger] ivs[t]) as int, chunkss[t]).len()
            ==> event_ok(task_events(interval_start(ivs[t]) as int, chunkss[t])[j], resource))
        && (forall|b: int|
        interval_covers(ivs[t], b, total) ==> some_event_covers(
            task_events(interval_start(ivs[t]) as int, chunkss[t]),
            b,
        )) by {
        let s = interval_start(ivs[t]) as int;
        let n = concat_chunks(chunkss[t]).len() as int;
        lemma_task_events_faithful(s, chunkss[t], resource);
        assert forall|b: int| interval_covers(ivs[t], b, total) implies some_event_covers(
            task_events(s, chunkss[t]),
            b,
        ) by {
            assert(s <= b < s + n);
        }
    }
    // every event of the run is one of some task, hence faithful
    assert forall|k: int| 0 <= k < evs.len() implies event_ok(#[trigger] evs[k], resource) by {
        let (t, j) = choose|t: int, j: int|
            0 <= t < count && 0 <= j < task_events(interval_start(ivs[t]) as int, chunkss[t]).len()
                && evs[k] == task_events(interval_start(ivs[t]) as int, chunkss[t])[j];
        assert(event_ok(task_events(interval_start(ivs[t]) as int, chunkss[t])[j], resource));
    }
    // every byte lies in some interval, whose task wrote it, and that write
    // is among the run's events
    assert forall|b: int| 0 <= b < total implies #[trigger] some_event_covers(evs, b) by {
        assert(crate::plan::some_interval_covers(ivs, b, total));
        let t = choose|t: int| 0 <= t < ivs.len() && interval_covers(ivs[t], b, total);
        let tevs = task_events(interval_start(ivs[t]) as int, chunkss[t]);
        assert(some_event_covers(tevs, b));
        let j = choose|j: int| 0 <= j < tevs.len() && event_covers(tevs[j], b);
        let k = choose|k: int| 0 <= k < evs.len() && evs[k] == tevs[j];
        assert(event_covers(evs[k], b));
    }
    lemma_events_reconstruct_resource(evs, resource);
}

/// Parallelism is content-transparent: a successful ranged transfer whose
/// interleaved write events are resource-faithful and cover the whole
/// resource produces a file byte-identical to the one a single unranged fetch
/// of the same resource produces — both are the resource itself.
pub proof fn lemma_parallel_matches_single(
    parallel_evs: Seq<WriteEvent>,
    single_chunks: Seq<Seq<u8>>,
    resource: Seq<u8>,
)
    requires
        forall|k: int|
            0 <= k < parallel_evs.len() ==> event_ok(#[trigger] parallel_evs[k], resource),
        forall|b: int|
            0 <= b < resource.len() ==> #[trigger] some_event_covers(parallel_evs, b),
        concat_chunks(single_chunks) == resource,
    ensures
        apply_events(Seq::<u8>::empty(), parallel_evs) == apply_events(
            Seq::<u8>::empty(),
            task_events(0, single_chunks),
        ),
        apply_events(Seq::<u8>::empty(), parallel_evs) == resource,
{
    lemma_events_reconstruct_resource(parallel_evs, resource);
    assert(concat_chunks(single_chunks) =~= resource.subrange(
        0,
        concat_chunks(single_chunks).len() as int,
    ));
    lemma_task_events_faithful(0, single_chunks, resource);
    lemma_events_reconstruct_resource(task_events(0, single_chunks), resource);
}

} // verus!

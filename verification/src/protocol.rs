//! The interleaving model of the protocol, and its laws.
//!
//! Writers and readers in other processes are modelled by a transition
//! relation over [`SharedRegion`] states: a step is a lease change, a
//! writer staging bytes into the inactive slot, or a completed publish.
//! A trace is any interleaving of such steps; readers take no steps of
//! their own, since they only read.  Over arbitrary traces this module
//! proves the engine's laws: writer-vs-writer exclusion, monotonic
//! generations, read atomicity, torn-read freedom, and growth safety.

use vstd::prelude::*;
use crate::digest::digest_spec;
use crate::region::{
    SharedRegion, LeaseState, lease_grantable, staged_bytes, STALE_LEASE_MS,
};

verus! {

/// A step that changes at most the writer lease: an acquire, a release,
/// or nothing at all (in particular, any number of reads).
pub open spec fn lease_step(pre: SharedRegion, post: SharedRegion) -> bool {
    &&& post.generation == pre.generation
    &&& post.active_slot == pre.active_slot
    &&& post.payload_len == pre.payload_len
    &&& post.payload_digest == pre.payload_digest
    &&& post.slot_seq(0) == pre.slot_seq(0)
    &&& post.slot_seq(1) == pre.slot_seq(1)
}

/// The lease-holding writer stages bytes: the control block is untouched,
/// the active slot's bytes are untouched once the region is initialized,
/// and slot capacities only grow.
pub open spec fn stage_step(pre: SharedRegion, post: SharedRegion) -> bool {
    &&& post.generation == pre.generation
    &&& post.active_slot == pre.active_slot
    &&& post.payload_len == pre.payload_len
    &&& post.payload_digest == pre.payload_digest
    &&& post.lease == pre.lease
    &&& pre.initialized() ==> post.slot_seq(pre.active()) == pre.slot_seq(pre.active())
    &&& post.slot_seq(0).len() >= pre.slot_seq(0).len()
    &&& post.slot_seq(1).len() >= pre.slot_seq(1).len()
}

/// A completed publish: the control block moves to a new payload and the
/// generation is incremented — by exactly one, and last, so a reader that
/// sees an unchanged generation saw no publish at all.
pub open spec fn publish_step(pre: SharedRegion, post: SharedRegion) -> bool {
    &&& post.generation == pre.generation + 1
    &&& post.slot_seq(0) == pre.slot_seq(0)
    &&& post.slot_seq(1) == pre.slot_seq(1)
    &&& post.lease == pre.lease
}

/// One step of any participant.
pub open spec fn step(pre: SharedRegion, post: SharedRegion) -> bool {
    ||| lease_step(pre, post)
    ||| stage_step(pre, post)
    ||| publish_step(pre, post)
}

/// A trace: successive region states under arbitrary interleaving.
pub open spec fn valid_trace(tr: Seq<SharedRegion>) -> bool {
    forall|k: int| 0 <= k < tr.len() - 1 ==> #[trigger] step(tr[k], tr[k + 1])
}

/// Writer-vs-writer exclusion: while one writer's lease is held and will
/// not go stale within another writer's bounded wait, the other writer
/// cannot take the lease.  By the contracts of `acquire_writer` and
/// `write`, its attempt then returns `WriteLockTimeout` and mutates
/// nothing: of two handles contending in one exclusivity window, at most
/// one succeeds.
pub proof fn lemma_mutual_exclusion(
    holder: u64,
    since_ms: u64,
    other: u64,
    now_ms: u64,
    timeout_ms: u64,
)
    requires
        other != holder,
        now_ms + timeout_ms < since_ms + STALE_LEASE_MS,
    ensures
        !lease_grantable(
            LeaseState::Held { owner: holder, since_ms },
            other,
            now_ms,
            timeout_ms,
        ),
{
}

/// Monotonic versions: along any trace the generation counter never
/// decreases, so the version token a reader observes over time is
/// non-decreasing.
pub proof fn lemma_generation_monotonic(tr: Seq<SharedRegion>, i: int, j: int)
    requires
        valid_trace(tr),
        0 <= i <= j < tr.len(),
    ensures
        tr[i].generation <= tr[j].generation,
    decreases j - i,
{
    if i < j {
        lemma_generation_monotonic(tr, i, j - 1);
        let k = j - 1;
        assert(step(tr[k], tr[k + 1]));
    }
}

/// Growth safety: slot capacities never shrink along a trace, so the
/// extent a reader snapshotted always remains within its slot, however
/// much a concurrent writer grows the region.
pub proof fn lemma_capacity_monotonic(tr: Seq<SharedRegion>, i: int, j: int)
    requires
        valid_trace(tr),
        0 <= i <= j < tr.len(),
    ensures
        tr[i].slot_seq(0).len() <= tr[j].slot_seq(0).len(),
        tr[i].slot_seq(1).len() <= tr[j].slot_seq(1).len(),
    decreases j - i,
{
    if i < j {
        lemma_capacity_monotonic(tr, i, j - 1);
        let k = j - 1;
        assert(step(tr[k], tr[k + 1]));
    }
}

/// Read atomicity: between two points of a trace with the same generation
/// (and some publish has happened by the first), the control block and
/// the published payload are identical — two reads that observe the same
/// generation return byte-identical payloads.
pub proof fn lemma_read_atomicity(tr: Seq<SharedRegion>, i: int, j: int)
    requires
        valid_trace(tr),
        0 <= i <= j < tr.len(),
        tr[i].initialized(),
        tr[j].generation == tr[i].generation,
    ensures
        tr[j].active_slot == tr[i].active_slot,
        tr[j].payload_len == tr[i].payload_len,
        tr[j].payload_digest == tr[i].payload_digest,
        tr[j].slot_seq(tr[i].active()) == tr[i].slot_seq(tr[i].active()),
        tr[j].published() == tr[i].published(),
    decreases j - i,
{
    if i < j {
        lemma_generation_monotonic(tr, i, j - 1);
        lemma_generation_monotonic(tr, j - 1, j);
        lemma_read_atomicity(tr, i, j - 1);
        let k = j - 1;
        assert(step(tr[k], tr[k + 1]));
        assert(!publish_step(tr[k], tr[k + 1]));
    }
}

/// No torn reads: a reader snapshots the control block at point `i`,
/// fetches the indicated bytes at any later point `k`, and re-validates
/// the generation at point `j`.  If the generation is unchanged, the
/// bytes it fetched are exactly the payload published as of `i` — a
/// complete single publish, never a mixture of two writes.
pub proof fn lemma_no_torn_read(tr: Seq<SharedRegion>, i: int, k: int, j: int)
    requires
        valid_trace(tr),
        0 <= i <= k <= j < tr.len(),
        tr[i].initialized(),
        tr[j].generation == tr[i].generation,
    ensures
        tr[k].slot_seq(tr[i].active()).take(tr[i].payload_len as int) == tr[i].published(),
    decreases j - i,
{
    lemma_generation_monotonic(tr, i, k);
    lemma_generation_monotonic(tr, k, j);
    lemma_read_atomicity(tr, i, k);
}

/// Every payload a reader can observe came from one completed publish:
/// in a trace that starts from a never-published region, any initialized
/// state carries exactly the payload that some single publish step
/// installed, under that publish's generation — never bytes no write
/// produced, and never a mixture of two writes.
pub proof fn lemma_payload_has_one_publisher(tr: Seq<SharedRegion>, j: int)
    requires
        valid_trace(tr),
        0 <= j < tr.len(),
        tr[0].generation == 0,
        tr[j].initialized(),
    ensures
        exists|p: int|
            0 < p <= j && #[trigger] publish_step(tr[p - 1], tr[p]) && tr[j].published()
                == tr[p].published() && tr[j].generation == tr[p].generation,
    decreases j,
{
    if j > 0 {
        let k = j - 1;
        assert(step(tr[k], tr[k + 1]));
        if tr[j].generation == tr[k].generation {
            lemma_payload_has_one_publisher(tr, k);
            let p = choose|p: int|
                0 < p <= k && #[trigger] publish_step(tr[p - 1], tr[p]) && tr[k].published()
                    == tr[p].published() && tr[k].generation == tr[p].generation;
            lemma_read_atomicity(tr, k, j);
            assert(0 < p <= j && publish_step(tr[p - 1], tr[p]) && tr[j].published()
                == tr[p].published() && tr[j].generation == tr[p].generation);
        } else {
            assert(publish_step(tr[k], tr[k + 1]));
            assert(0 < j <= j && publish_step(tr[j - 1], tr[j]) && tr[j].published()
                == tr[j].published() && tr[j].generation == tr[j].generation);
        }
    }
}

/// A successful `write` call is itself a sequence of protocol steps:
/// acquire the lease, stage into the target slot, publish, release.  Its
/// start and end states are therefore joined by a valid trace, so every
/// law above spans any series of completed writes.
pub proof fn lemma_write_is_protocol(
    pre: SharedRegion,
    post: SharedRegion,
    enc: Seq<u8>,
    owner: u64,
    now_ms: u64,
) -> (tr: Seq<SharedRegion>)
    requires
        pre.wf(),
        post.generation == pre.generation + 1,
        post.active() == pre.target_slot(),
        post.payload_len == enc.len(),
        post.payload_digest == digest_spec(enc),
        post.lease == LeaseState::Free,
        post.slot_seq(1 - pre.target_slot()) == pre.slot_seq(1 - pre.target_slot()),
        post.slot_seq(pre.target_slot()) == staged_bytes(pre.slot_seq(pre.target_slot()), enc),
        post.active_slot < 2,
    ensures
        valid_trace(tr),
        tr.len() == 5,
        tr.first() == pre,
        tr.last() == post,
{
    let held = LeaseState::Held { owner, since_ms: now_ms };
    let s1 = SharedRegion { lease: held, ..pre };
    let s2 = if pre.target_slot() == 0 {
        SharedRegion { slot0: post.slot0, ..s1 }
    } else {
        SharedRegion { slot1: post.slot1, ..s1 }
    };
    let s3 = SharedRegion {
        generation: post.generation,
        active_slot: post.active_slot,
        payload_len: post.payload_len,
        payload_digest: post.payload_digest,
        ..s2
    };
    let trace = seq![pre, s1, s2, s3, post];
    assert(lease_step(pre, s1));
    assert(staged_bytes(pre.slot_seq(pre.target_slot()), enc).len() >= pre.slot_seq(
        pre.target_slot(),
    ).len());
    assert(stage_step(s1, s2));
    assert(publish_step(s2, s3));
    assert(lease_step(s3, post));
    assert(forall|k: int| 0 <= k < trace.len() - 1 ==> #[trigger] step(trace[k], trace[k + 1]));
    trace
}

} // verus!

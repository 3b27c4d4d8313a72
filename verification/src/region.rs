//! The shared region: control block, writer lease and double buffer.
//!
//! A [`SharedRegion`] models the whole shared mapping: a control block
//! (generation counter, active slot index, payload length and digest, and
//! the writer-exclusivity lease) together with the two alternating payload
//! slots.  The writer protocol — acquire the lease, stage the encoded
//! payload into the inactive slot, publish by flipping the control block,
//! release — and the reader protocol — snapshot the control block, fetch
//! the indicated slot's bytes, re-validate the generation — are verified
//! executable functions over this state.

use vstd::prelude::*;
use crate::codec::{Message, encode_spec, decode_spec};
use crate::digest::{digest_spec, digest_of};

verus! {

/// After this many milliseconds a held lease counts as stale and may be
/// reclaimed: the sole recovery path past a crashed writer.
pub const STALE_LEASE_MS: u64 = 10000;

/// Upper bound on slot growth: a payload larger than this cannot be
/// published and the write reports that the region could not be extended.
pub const MAX_PAYLOAD_BYTES: usize = 0x40000000;

/// The writer-exclusivity lease: free, or held by a writer id since a
/// point in time.
#[derive(Clone, Copy, Debug, PartialEq, Eq, Structural)]
pub enum LeaseState {
    Free,
    Held { owner: u64, since_ms: u64 },
}

/// Writer-side errors.
#[derive(Clone, Copy, Debug, PartialEq, Eq, Structural)]
pub enum WriteError {
    /// Exclusivity could not be acquired within the caller's timeout.
    WriteLockTimeout,
    /// The value failed to serialize.
    EncodeError,
    /// The backing region could not be extended to hold the payload.
    RegionGrowError,
    /// An I/O-level failure attaching or mapping the region.
    BackingStoreError,
}

/// Reader-side errors.
#[derive(Clone, Copy, Debug, PartialEq, Eq, Structural)]
pub enum ReadError {
    /// No writer has ever published into this region.
    RegionUninitialized,
    /// The retry budget was exhausted by concurrent publishes.
    ReadContention,
    /// The fetched bytes do not match the published digest.
    IntegrityError,
    /// The published bytes are not a valid encoding.
    DecodeError,
}

/// What a successful write reports: how many bytes went in, and into
/// which slot.
#[derive(Clone, Copy, Debug, PartialEq, Eq, Structural)]
pub struct WriteReport {
    pub bytes_written: usize,
    pub slot: u64,
}

/// A reader's one-shot copy of the control block.
#[derive(Clone, Copy, Debug, PartialEq, Eq, Structural)]
pub struct ControlSnapshot {
    pub generation: u64,
    pub active_slot: u64,
    pub payload_len: usize,
    pub payload_digest: u64,
}

/// A validated, read-only copy of a published payload, tied to the
/// generation that published it.
pub struct Snapshot {
    pub bytes: Vec<u8>,
    pub generation: u64,
}

/// The shared region: control block plus the two payload slots, keyed by
/// the shared name every participating handle attaches to.
pub struct SharedRegion {
    pub name: String,
    pub generation: u64,
    pub active_slot: u64,
    pub payload_len: usize,
    pub payload_digest: u64,
    pub lease: LeaseState,
    pub slot0: Vec<u8>,
    pub slot1: Vec<u8>,
}

/// Whether a writer may take the lease: it is free, already its own, or
/// will have gone stale within the bounded wait the caller allows.
pub open spec fn lease_grantable(lease: LeaseState, owner: u64, now_ms: u64, timeout_ms: u64) -> bool {
    match lease {
        LeaseState::Free => true,
        LeaseState::Held { owner: holder, since_ms } =>
            holder == owner || since_ms + STALE_LEASE_MS <= now_ms + timeout_ms,
    }
}

/// The bytes of a slot after the encoded payload is staged into it: the
/// encoding, then whatever tail the slot already had beyond it — capacity
/// only ever grows.
pub open spec fn staged_bytes(old_slot: Seq<u8>, enc: Seq<u8>) -> Seq<u8> {
    if old_slot.len() > enc.len() {
        enc + old_slot.skip(enc.len() as int)
    } else {
        enc
    }
}

impl SharedRegion {
    /// Contents of slot `i` (0 or 1).
    pub open spec fn slot_seq(self, i: int) -> Seq<u8> {
        if i == 0 {
            self.slot0@
        } else {
            self.slot1@
        }
    }

    /// A region is initialized once some writer has published: the
    /// generation counter has moved past zero.
    pub open spec fn initialized(self) -> bool {
        self.generation > 0
    }

    pub open spec fn active(self) -> int {
        self.active_slot as int
    }

    /// The slot the next publish goes into: the one not currently active.
    pub open spec fn target_slot(self) -> int {
        if !self.initialized() {
            0
        } else {
            1 - self.active()
        }
    }

    /// The currently published payload: the active slot's first
    /// `payload_len` bytes.
    pub open spec fn published(self) -> Seq<u8> {
        self.slot_seq(self.active()).take(self.payload_len as int)
    }

    /// Region invariant: the active index is 0 or 1, and once initialized
    /// the active slot holds a complete payload whose digest the control
    /// block carries.
    pub open spec fn wf(self) -> bool {
        &&& self.active_slot < 2
        &&& self.payload_len <= MAX_PAYLOAD_BYTES
        &&& self.initialized() ==> {
            &&& self.payload_len <= self.slot_seq(self.active()).len()
            &&& self.payload_digest == digest_spec(self.published())
        }
    }

    /// A fresh region under a shared name: never published, lease free,
    /// both slots empty.  Creation is deferred to first use by the
    /// backing store; the engine starts from this state either way.
    pub fn new(name: String) -> (r: SharedRegion)
        ensures
            r.wf(),
            !r.initialized(),
            r.name@ == name@,
            r.generation == 0,
            r.lease == LeaseState::Free,
            r.slot_seq(0) == Seq::<u8>::empty(),
            r.slot_seq(1) == Seq::<u8>::empty(),
    {
        SharedRegion {
            name,
            generation: 0,
            active_slot: 0,
            payload_len: 0,
            payload_digest: 0,
            lease: LeaseState::Free,
            slot0: Vec::new(),
            slot1: Vec::new(),
        }
    }

    /// Attempts to take the writer lease with a bounded wait: succeeds
    /// exactly when the lease is free, already this writer's, or stale
    /// within the wait; on failure nothing changes.
    pub fn acquire_writer(&mut self, owner: u64, now_ms: u64, timeout_ms: u64) -> (r: Result<
        (),
        WriteError,
    >)
        ensures
            lease_grantable(old(self).lease, owner, now_ms, timeout_ms) ==> r is Ok
                && *final(self) == (SharedRegion {
                lease: LeaseState::Held { owner, since_ms: now_ms },
                ..*old(self)
            }),
            !lease_grantable(old(self).lease, owner, now_ms, timeout_ms) ==> r == Err::<
                (),
                WriteError,
            >(WriteError::WriteLockTimeout) && *final(self) == *old(self),
    {
        let grantable: bool = match self.lease {
            LeaseState::Free => true,
            LeaseState::Held { owner: holder, since_ms } => holder == owner || (since_ms as u128)
                + (STALE_LEASE_MS as u128) <= (now_ms as u128) + (timeout_ms as u128),
        };
        if grantable {
            self.lease = LeaseState::Held { owner, since_ms: now_ms };
            Ok(())
        } else {
            Err(WriteError::WriteLockTimeout)
        }
    }

    /// Releases the lease if this writer holds it; anyone else's lease is
    /// left untouched.
    pub fn release_writer(&mut self, owner: u64)
        ensures
            (old(self).lease matches LeaseState::Held { owner: holder, .. } && holder == owner)
                ==> *final(self) == (SharedRegion { lease: LeaseState::Free, ..*old(self) }),
            !(old(self).lease matches LeaseState::Held { owner: holder, .. } && holder == owner)
                ==> *final(self) == *old(self),
    {
        match self.lease {
            LeaseState::Held { owner: holder, since_ms: _ } => {
                if holder == owner {
                    self.lease = LeaseState::Free;
                }
            },
            LeaseState::Free => {},
        }
    }

    /// The full write protocol: acquire exclusivity with a bounded wait,
    /// stage the encoded value into the inactive slot (growing it if
    /// needed, never touching the active slot), publish by flipping the
    /// control block and incrementing the generation last, then release.
    ///
    /// Exactly one of three outcomes, by the inputs alone: a lease held by
    /// another live writer gives `WriteLockTimeout` with nothing changed;
    /// an encoding too large for the region cap gives `RegionGrowError`
    /// with only the lease touched; otherwise the write succeeds and the
    /// new payload is published under the next generation.
    pub fn write(&mut self, value: &Message, owner: u64, now_ms: u64, timeout_ms: u64) -> (r:
        Result<WriteReport, WriteError>)
        requires
            old(self).wf(),
            old(self).generation < u64::MAX,
        ensures
            final(self).wf(),
            !lease_grantable(old(self).lease, owner, now_ms, timeout_ms) ==> r == Err::<
                WriteReport,
                WriteError,
            >(WriteError::WriteLockTimeout) && *final(self) == *old(self),
            lease_grantable(old(self).lease, owner, now_ms, timeout_ms) && encode_spec(
                value@,
            ).len() > MAX_PAYLOAD_BYTES ==> r == Err::<WriteReport, WriteError>(
                WriteError::RegionGrowError,
            ) && *final(self) == (SharedRegion { lease: LeaseState::Free, ..*old(self) }),
            lease_grantable(old(self).lease, owner, now_ms, timeout_ms) && encode_spec(
                value@,
            ).len() <= MAX_PAYLOAD_BYTES ==> {
                &&& r matches Ok(rep) && rep.bytes_written == encode_spec(value@).len()
                    && rep.slot == old(self).target_slot()
                &&& final(self).generation == old(self).generation + 1
                &&& final(self).active() == old(self).target_slot()
                &&& final(self).payload_len == encode_spec(value@).len()
                &&& final(self).published() == encode_spec(value@)
                &&& final(self).payload_digest == digest_spec(encode_spec(value@))
                &&& final(self).lease == LeaseState::Free
                &&& final(self).slot_seq(1 - old(self).target_slot()) == old(self).slot_seq(
                    1 - old(self).target_slot(),
                )
                &&& final(self).slot_seq(old(self).target_slot()) == staged_bytes(
                    old(self).slot_seq(old(self).target_slot()),
                    encode_spec(value@),
                )
            },
    {
        let encoded = value.encode();
        self.write_bytes(&encoded, owner, now_ms, timeout_ms)
    }

    /// The write protocol over an already-encoded payload, for callers
    /// that bring their own codec: the engine is opaque to the bytes
    /// beyond their length and digest.  Same outcomes as `write`, with
    /// the given bytes published verbatim.
    pub fn write_bytes(&mut self, payload: &Vec<u8>, owner: u64, now_ms: u64, timeout_ms: u64) -> (r:
        Result<WriteReport, WriteError>)
        requires
            old(self).wf(),
            old(self).generation < u64::MAX,
        ensures
            final(self).wf(),
            !lease_grantable(old(self).lease, owner, now_ms, timeout_ms) ==> r == Err::<
                WriteReport,
                WriteError,
            >(WriteError::WriteLockTimeout) && *final(self) == *old(self),
            lease_grantable(old(self).lease, owner, now_ms, timeout_ms) && payload@.len()
                > MAX_PAYLOAD_BYTES ==> r == Err::<WriteReport, WriteError>(
                WriteError::RegionGrowError,
            ) && *final(self) == (SharedRegion { lease: LeaseState::Free, ..*old(self) }),
            lease_grantable(old(self).lease, owner, now_ms, timeout_ms) && payload@.len()
                <= MAX_PAYLOAD_BYTES ==> {
                &&& r matches Ok(rep) && rep.bytes_written == payload@.len() && rep.slot == old(
                    self,
                ).target_slot()
                &&& final(self).generation == old(self).generation + 1
                &&& final(self).active() == old(self).target_slot()
                &&& final(self).payload_len == payload@.len()
                &&& final(self).published() == payload@
                &&& final(self).payload_digest == digest_spec(payload@)
                &&& final(self).lease == LeaseState::Free
                &&& final(self).slot_seq(1 - old(self).target_slot()) == old(self).slot_seq(
                    1 - old(self).target_slot(),
                )
                &&& final(self).slot_seq(old(self).target_slot()) == staged_bytes(
                    old(self).slot_seq(old(self).target_slot()),
                    payload@,
                )
            },
    {
        let grantable: bool = match self.lease {
            LeaseState::Free => true,
            LeaseState::Held { owner: holder, since_ms } => holder == owner || (since_ms as u128)
                + (STALE_LEASE_MS as u128) <= (now_ms as u128) + (timeout_ms as u128),
        };
        if !grantable {
            return Err(WriteError::WriteLockTimeout);
        }
        self.lease = LeaseState::Held { owner, since_ms: now_ms };
        if payload.len() > MAX_PAYLOAD_BYTES {
            self.lease = LeaseState::Free;
            return Err(WriteError::RegionGrowError);
        }
        let target: u64 = if self.generation == 0 {
            0
        } else {
            1 - self.active_slot
        };
        let n = payload.len();
        let digest = digest_of(payload);
        if target == 0 {
            stage_into(&mut self.slot0, payload);
        } else {
            stage_into(&mut self.slot1, payload);
        }
        self.payload_len = n;
        self.payload_digest = digest;
        self.active_slot = target;
        self.generation = self.generation + 1;
        self.lease = LeaseState::Free;
        proof {
            assert(self.published() =~= payload@);
        }
        Ok(WriteReport { bytes_written: n, slot: target })
    }

    /// Step 1 of the read protocol: snapshot the control block, failing
    /// distinctly when no writer has ever published.
    pub fn begin_read(&self) -> (r: Result<ControlSnapshot, ReadError>)
        ensures
            self.initialized() ==> (r matches Ok(s) && s.generation == self.generation
                && s.active_slot == self.active_slot && s.payload_len == self.payload_len
                && s.payload_digest == self.payload_digest),
            !self.initialized() ==> r == Err::<ControlSnapshot, ReadError>(
                ReadError::RegionUninitialized,
            ),
    {
        if self.generation == 0 {
            Err(ReadError::RegionUninitialized)
        } else {
            Ok(
                ControlSnapshot {
                    generation: self.generation,
                    active_slot: self.active_slot,
                    payload_len: self.payload_len,
                    payload_digest: self.payload_digest,
                },
            )
        }
    }

    /// Step 2 of the read protocol: copy the payload bytes the snapshot
    /// points at, out of the region's current state.  Succeeds exactly
    /// when the snapshot still fits the slot — slots never shrink, so a
    /// snapshot taken from this region always fits.
    pub fn fetch_payload(&self, snap: &ControlSnapshot) -> (r: Option<Vec<u8>>)
        ensures
            r is Some <==> snap.active_slot < 2 && snap.payload_len <= self.slot_seq(
                snap.active_slot as int,
            ).len(),
            r matches Some(b) ==> b@ == self.slot_seq(snap.active_slot as int).take(
                snap.payload_len as int,
            ),
    {
        if snap.active_slot >= 2 {
            return None;
        }
        let slot: &Vec<u8> = if snap.active_slot == 0 {
            &self.slot0
        } else {
            &self.slot1
        };
        if snap.payload_len > slot.len() {
            return None;
        }
        let mut out: Vec<u8> = Vec::new();
        let mut i: usize = 0;
        while i < snap.payload_len
            invariant
                i <= snap.payload_len <= slot@.len(),
                out@ == slot@.take(i as int),
            decreases snap.payload_len - i,
        {
            out.push(slot[i]);
            proof {
                assert(slot@.take(i + 1) =~= slot@.take(i as int).push(slot@[i as int]));
            }
            i = i + 1;
        }
        Some(out)
    }

    /// Step 3 of the read protocol: re-read the generation; a mismatch
    /// means a publish raced the fetch and the attempt must be retried.
    /// With the race ruled out, an optional integrity check compares the
    /// digest of the fetched bytes against the snapshot.
    pub fn complete_read(&self, snap: &ControlSnapshot, bytes: Vec<u8>, validate: bool) -> (r:
        Result<Snapshot, ReadError>)
        ensures
            self.generation != snap.generation ==> r == Err::<Snapshot, ReadError>(
                ReadError::ReadContention,
            ),
            self.generation == snap.generation && validate && digest_spec(bytes@)
                != snap.payload_digest ==> r == Err::<Snapshot, ReadError>(
                ReadError::IntegrityError,
            ),
            self.generation == snap.generation && (validate ==> digest_spec(bytes@)
                == snap.payload_digest) ==> (r matches Ok(s) && s.bytes@ == bytes@
                && s.generation == snap.generation),
    {
        if self.generation != snap.generation {
            return Err(ReadError::ReadContention);
        }
        if validate {
            let d = digest_of(&bytes);
            if d != snap.payload_digest {
                return Err(ReadError::IntegrityError);
            }
        }
        Ok(Snapshot { bytes, generation: snap.generation })
    }

    /// The whole read path over a quiescent region: returns the published
    /// payload and its generation, and fails exactly when no writer has
    /// ever published.
    pub fn read(&self, validate: bool) -> (r: Result<Snapshot, ReadError>)
        requires
            self.wf(),
        ensures
            self.initialized() ==> (r matches Ok(s) && s.bytes@ == self.published()
                && s.generation == self.generation),
            !self.initialized() ==> r == Err::<Snapshot, ReadError>(ReadError::RegionUninitialized),
    {
        let snap = match self.begin_read() {
            Ok(s) => s,
            Err(e) => {
                return Err(e);
            },
        };
        let bytes = match self.fetch_payload(&snap) {
            Some(b) => b,
            None => {
                proof {
                    assert(false);
                }
                return Err(ReadError::ReadContention);
            },
        };
        self.complete_read(&snap, bytes, validate)
    }

    /// Reads and decodes the published payload: the value some writer
    /// published, with its generation as a version token.
    pub fn read_value(&self, validate: bool) -> (r: Result<(Message, u64), ReadError>)
        requires
            self.wf(),
        ensures
            !self.initialized() ==> r == Err::<(Message, u64), ReadError>(
                ReadError::RegionUninitialized,
            ),
            self.initialized() && decode_spec(self.published()) is None ==> r == Err::<
                (Message, u64),
                ReadError,
            >(ReadError::DecodeError),
            self.initialized() && decode_spec(self.published()) is Some ==> (r matches Ok(p)
                && Some(p.0@) == decode_spec(self.published()) && p.1 == self.generation),
    {
        let snap = match self.read(validate) {
            Ok(s) => s,
            Err(e) => {
                return Err(e);
            },
        };
        match crate::codec::decode(&snap.bytes) {
            Ok(m) => Ok((m, snap.generation)),
            Err(_) => Err(ReadError::DecodeError),
        }
    }
}

/// Stages an encoded payload into a slot: the slot then starts with the
/// encoding and keeps any longer tail it already had, so its capacity
/// never shrinks and the other slot is never touched.
fn stage_into(slot: &mut Vec<u8>, enc: &Vec<u8>)
    ensures
        final(slot)@ == staged_bytes(old(slot)@, enc@),
{
    let mut out: Vec<u8> = Vec::new();
    let mut i: usize = 0;
    while i < enc.len()
        invariant
            i <= enc@.len(),
            out@ == enc@.take(i as int),
        decreases enc@.len() - i,
    {
        out.push(enc[i]);
        proof {
            assert(enc@.take(i + 1) =~= enc@.take(i as int).push(enc@[i as int]));
        }
        i = i + 1;
    }
    proof {
        assert(out@ =~= enc@);
    }
    if slot.len() > enc.len() {
        let mut j: usize = enc.len();
        proof {
            assert(out@ =~= enc@ + slot@.subrange(enc@.len() as int, enc@.len() as int));
        }
        while j < slot.len()
            invariant
                enc@.len() <= j <= slot@.len(),
                out@ == enc@ + slot@.subrange(enc@.len() as int, j as int),
            decreases slot@.len() - j,
        {
            out.push(slot[j]);
            proof {
                assert(slot@.subrange(enc@.len() as int, j + 1) =~= slot@.subrange(
                    enc@.len() as int,
                    j as int,
                ).push(slot@[j as int]));
                assert(out@ =~= enc@ + slot@.subrange(enc@.len() as int, j + 1));
            }
            j = j + 1;
        }
        proof {
            assert(slot@.subrange(enc@.len() as int, slot@.len() as int) =~= slot@.skip(
                enc@.len() as int,
            ));
            assert(out@ =~= staged_bytes(slot@, enc@));
        }
    } else {
        proof {
            assert(out@ =~= staged_bytes(slot@, enc@));
        }
    }
    *slot = out;
}

} // verus!

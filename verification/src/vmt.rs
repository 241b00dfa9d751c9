//! VMT hook engine: snapshots, patches, and restores virtual-table entries
//! of a captured object.
//!
//! The virtual table is memory owned by the host process, not a value this
//! engine allocates. It is modeled as an explicit record of
//! function-pointer-sized slots that the engine reads and writes only through
//! bounds-checked operations, so that every mutation is provably restorable.

use vstd::prelude::*;

verus! {

/// A live object's virtual-table memory, reachable from the object pointer:
/// one function-pointer-sized slot per index, starting at slot 0. The caller
/// binds this record to the host's actual memory; on a live host each write
/// happens under temporarily widened page protection, restored afterwards.
pub struct VtableMemory {
    pub slots: Vec<usize>,
}

/// The number of leading slots holding a plausible positive address: the
/// index of the first zero slot, or the whole length when no slot is zero.
pub open spec fn captured_len(slots: Seq<usize>) -> int
    decreases slots.len(),
{
    if slots.len() == 0 {
        0
    } else if slots[0] == 0 {
        0
    } else {
        1 + captured_len(slots.drop_first())
    }
}

/// `captured_len` is the position of the first zero slot.
proof fn lemma_captured_len_at(slots: Seq<usize>, i: int)
    requires
        0 <= i <= slots.len(),
        forall|j: int| 0 <= j < i ==> slots[j] != 0,
        i == slots.len() || slots[i] == 0,
    ensures
        captured_len(slots) == i,
    decreases slots.len(),
{
    if slots.len() == 0 {
    } else if i == 0 {
    } else {
        assert(slots[0] != 0);
        let rest = slots.drop_first();
        assert(forall|j: int| 0 <= j < i - 1 ==> #[trigger] rest[j] == slots[j + 1]);
        lemma_captured_len_at(rest, i - 1);
    }
}

/// Snapshot of a captured object's virtual table (`vtable`), plus a
/// same-length record of the value last written into each slot
/// (`new_vtable`). The slot count is fixed at capture time.
pub struct VMT {
    vtable: Vec<usize>,
    new_vtable: Vec<usize>,
}

impl VMT {
    /// The capture-time snapshot of the table.
    pub closed spec fn original(&self) -> Seq<usize> {
        self.vtable@
    }

    /// The value last written into each slot (zero where never written).
    pub closed spec fn overrides(&self) -> Seq<usize> {
        self.new_vtable@
    }

    /// Number of slots this table controls, fixed at capture.
    pub open spec fn table_len(&self) -> int {
        self.original().len() as int
    }

    /// The snapshot and the override record always have the same length.
    pub open spec fn wf(&self) -> bool {
        self.overrides().len() == self.original().len()
    }

    /// This table stays inside the given vtable memory: every controlled
    /// slot index is in bounds.
    pub open spec fn valid_for(&self, mem: &VtableMemory) -> bool {
        self.table_len() <= mem.slots@.len()
    }

    /// Captures a live object's table: reads consecutive slots starting at
    /// index 0 while each holds a plausible positive address; the count of
    /// visited slots fixes the table length for this instance. Every visited
    /// value is snapshotted and the override record starts all zero.
    pub fn new(mem: &VtableMemory) -> (r: VMT)
        ensures
            r.wf(),
            r.table_len() == captured_len(mem.slots@),
            r.original() == mem.slots@.subrange(0, captured_len(mem.slots@)),
            forall|i: int| 0 <= i < r.table_len() ==> r.overrides()[i] == 0,
            r.valid_for(mem),
    {
        let mut vtable: Vec<usize> = Vec::new();
        let mut i: usize = 0;
        while i < mem.slots.len() && mem.slots[i] != 0
            invariant
                0 <= i <= mem.slots@.len(),
                forall|j: int| 0 <= j < i ==> mem.slots@[j] != 0,
                vtable@ =~= mem.slots@.subrange(0, i as int),
            decreases mem.slots@.len() - i,
        {
            vtable.push(mem.slots[i]);
            proof {
                assert(mem.slots@.subrange(0, i + 1).drop_last() =~= mem.slots@.subrange(
                    0,
                    i as int,
                ));
            }
            i += 1;
        }
        proof {
            lemma_captured_len_at(mem.slots@, i as int);
        }
        let n = vtable.len();
        let mut new_vtable: Vec<usize> = Vec::new();
        let mut j: usize = 0;
        while j < n
            invariant
                0 <= j <= n,
                new_vtable@.len() == j,
                forall|t: int| 0 <= t < j ==> new_vtable@[t] == 0,
            decreases n - j,
        {
            new_vtable.push(0);
            j += 1;
        }
        VMT { vtable, new_vtable }
    }

    /// Overwrites the live slot at `idx` with `new_fn` and records `new_fn`
    /// in the override record. The index must lie below the length fixed at
    /// capture; the snapshot is untouched.
    pub fn hook(&mut self, mem: &mut VtableMemory, idx: usize, new_fn: usize)
        requires
            old(self).wf(),
            idx < old(self).table_len(),
            old(self).valid_for(old(mem)),
        ensures
            final(self).wf(),
            final(self).table_len() == old(self).table_len(),
            final(self).original() == old(self).original(),
            final(self).overrides() == old(self).overrides().update(idx as int, new_fn),
            final(mem).slots@ == old(mem).slots@.update(idx as int, new_fn),
            final(self).valid_for(final(mem)),
    {
        self.new_vtable.set(idx, new_fn);
        mem.slots.set(idx, new_fn);
    }

    /// Restores the live slot at `idx` to its capture-time value by hooking
    /// the original value back in; restoring an already-restored slot writes
    /// the same value again and is a no-op in effect.
    pub fn reset(&mut self, mem: &mut VtableMemory, idx: usize)
        requires
            old(self).wf(),
            idx < old(self).table_len(),
            old(self).valid_for(old(mem)),
        ensures
            final(self).wf(),
            final(self).table_len() == old(self).table_len(),
            final(self).original() == old(self).original(),
            final(self).overrides() == old(self).overrides().update(
                idx as int,
                old(self).original()[idx as int],
            ),
            final(mem).slots@ == old(mem).slots@.update(
                idx as int,
                old(self).original()[idx as int],
            ),
            final(self).valid_for(final(mem)),
    {
        let original_fn = self.vtable[idx];
        self.hook(mem, idx, original_fn);
    }

    /// Number of slots this table controls, fixed at capture.
    pub fn len(&self) -> (r: usize)
        ensures
            r == self.table_len(),
    {
        self.vtable.len()
    }

    /// Capture-time value of the slot at `idx`, untouched by any hook.
    pub fn get_original(&self, idx: usize) -> (r: usize)
        requires
            idx < self.table_len(),
        ensures
            r == self.original()[idx as int],
    {
        self.vtable[idx]
    }

    /// Restores every controlled slot to its capture-time value, leaving the
    /// live object as found. Meant to run on every discard path; safe to
    /// repeat, since restoring an already-restored slot is a no-op.
    pub fn release(&mut self, mem: &mut VtableMemory)
        requires
            old(self).wf(),
            old(self).valid_for(old(mem)),
        ensures
            final(self).wf(),
            final(self).table_len() == old(self).table_len(),
            final(self).original() == old(self).original(),
            final(self).overrides() == final(self).original(),
            final(self).valid_for(final(mem)),
            final(mem).slots@.len() == old(mem).slots@.len(),
            forall|i: int|
                0 <= i < old(self).table_len() ==> final(mem).slots@[i] == old(
                    self,
                ).original()[i],
            forall|i: int|
                old(self).table_len() <= i < old(mem).slots@.len() ==> final(mem).slots@[i]
                    == old(mem).slots@[i],
    {
        let n = self.vtable.len();
        let mut i: usize = 0;
        while i < n
            invariant
                self.wf(),
                n == self.table_len(),
                0 <= i <= n,
                self.original() == old(self).original(),
                self.table_len() == old(self).table_len(),
                mem.slots@.len() == old(mem).slots@.len(),
                self.valid_for(mem),
                forall|j: int| 0 <= j < i ==> mem.slots@[j] == old(self).original()[j],
                forall|j: int|
                    i <= j < mem.slots@.len() ==> mem.slots@[j] == old(mem).slots@[j],
                forall|j: int| 0 <= j < i ==> self.overrides()[j] == self.original()[j],
                forall|j: int|
                    i <= j < n ==> self.overrides()[j] == old(self).overrides()[j],
            decreases n - i,
        {
            self.reset(mem, i);
            i += 1;
        }
        proof {
            assert(self.overrides() =~= self.original());
        }
    }
}

/// Releasing a table restores the live vtable memory byte-identically to its
/// capture-time state: when the table's snapshot came from `at_capture`,
/// every controlled slot has been restored to that snapshot, and the
/// untouched tail beyond the table still holds its capture-time values, the
/// memory equals `at_capture` exactly.
pub proof fn lemma_release_restores_capture(
    vmt: VMT,
    at_capture: Seq<usize>,
    after: Seq<usize>,
)
    requires
        vmt.wf(),
        vmt.table_len() <= at_capture.len(),
        vmt.original() == at_capture.subrange(0, vmt.table_len()),
        after.len() == at_capture.len(),
        forall|i: int| 0 <= i < vmt.table_len() ==> after[i] == vmt.original()[i],
        forall|i: int| vmt.table_len() <= i < after.len() ==> after[i] == at_capture[i],
    ensures
        after == at_capture,
{
    assert(after =~= at_capture);
}

} // verus!

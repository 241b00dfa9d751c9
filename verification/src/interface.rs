//! Interface capture record: couples a resolved module, the object pointer
//! obtained from the host's factory export, and a virtual table captured
//! over that object. Releasing the record restores every touched vtable
//! slot before the module reference is given back, because the object is
//! owned by the host and outlives this engine.

use vstd::prelude::*;

use crate::module::Module;
use crate::vmt::{captured_len, VtableMemory, VMT};

verus! {

/// A captured interface object: the module it was resolved from, the raw
/// object pointer the factory export returned, and the virtual table
/// captured from the object's vtable memory.
pub struct Interface {
    pub handle: Module,
    pub interface: usize,
    pub vmt: VMT,
}

impl Interface {
    /// Wraps a captured object. The factory export reports failure with a
    /// null pointer, so the pointer handed in here must already have been
    /// null-checked; the object's virtual table is captured on construction.
    pub fn from_capture(handle: Module, interface: usize, mem: &VtableMemory) -> (r: Interface)
        requires
            interface != 0,
        ensures
            r.handle == handle,
            r.interface == interface,
            r.vmt.wf(),
            r.vmt.table_len() == captured_len(mem.slots@),
            r.vmt.original() == mem.slots@.subrange(0, captured_len(mem.slots@)),
            forall|i: int| 0 <= i < r.vmt.table_len() ==> r.vmt.overrides()[i] == 0,
            r.vmt.valid_for(mem),
    {
        let vmt = VMT::new(mem);
        Interface { handle, interface, vmt }
    }

    /// Releases the capture: first restores every controlled vtable slot to
    /// its capture-time value, then releases the module reference. Both
    /// steps run on every discard path and are idempotent.
    pub fn release(&mut self, mem: &mut VtableMemory)
        requires
            old(self).vmt.wf(),
            old(self).vmt.valid_for(old(mem)),
        ensures
            final(self).vmt.wf(),
            final(self).vmt.table_len() == old(self).vmt.table_len(),
            final(self).vmt.original() == old(self).vmt.original(),
            final(self).vmt.overrides() == final(self).vmt.original(),
            final(self).interface == old(self).interface,
            final(mem).slots@.len() == old(mem).slots@.len(),
            forall|i: int|
                0 <= i < old(self).vmt.table_len() ==> final(mem).slots@[i] == old(
                    self,
                ).vmt.original()[i],
            forall|i: int|
                old(self).vmt.table_len() <= i < old(mem).slots@.len()
                    ==> final(mem).slots@[i] == old(mem).slots@[i],
            !final(self).handle.holds_ref(),
            final(self).handle.spec_base() == old(self).handle.spec_base(),
            final(self).handle.spec_end() == old(self).handle.spec_end(),
    {
        self.vmt.release(mem);
        self.handle.release();
    }
}

} // verus!

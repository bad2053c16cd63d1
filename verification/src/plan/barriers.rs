//! Read/Write barrier implementations.

pub mod log_attempt;
pub mod log_barrier;
pub mod log_buffer;
pub mod object_barrier;

use vstd::prelude::*;

use crate::plan::{moment, Moment, MMTK};
use crate::util::address::ObjectReference;
use crate::vm::{MemorySlice, Slot, VMBinding};

verus! {

/// BarrierSelector describes which barrier to use.
///
/// This is used as an *indicator* for each plan to enable the correct barrier.
///
/// VM bindings may also use this to enable the correct fast-path, if the fast-path is implemented
/// in the binding.
#[derive(Copy, Clone, Debug, PartialEq, Eq, Structural)]
pub enum BarrierSelector {
    /// No barrier is used.
    NoBarrier,
    /// Object remembering post-write barrier is used.
    ObjectBarrier,
    /// Object remembering pre-write barrier with weak reference loading barrier.
    SATBBarrier,
    /// Object remembering post-write barrier that logs each object followed by its children.
    LogBufferBarrier,
}

impl BarrierSelector {
    /// Check if two barrier selectors are the same.
    pub fn equals(&self, other: BarrierSelector) -> (equal: bool)
        ensures
            equal == (*self == other),
    {
        *self == other
    }
}

/// A barrier is a combination of fast-path behaviour + slow-path semantics.
/// This trait exposes generic barrier interfaces. The implementations will define their
/// own fast-path code and slow-path semantics.
///
/// Normally, a binding will call these generic barrier interfaces (`object_reference_write` and
/// `memory_region_copy`) for subsuming barrier calls.
///
/// If a subsuming barrier cannot be easily deployed due to platform limitations, the binding may
/// choose to call both `object_reference_write_pre` and `object_reference_write_post` barrier
/// before and after the store operation.
///
/// As a performance optimization, the binding may also choose to bring the fast-path to the VM
/// side, and call the slow-path (`object_reference_write_slow`) only if necessary.
///
/// Every method relates the barrier and the collector instance before the call to those after it.
/// Each barrier says by the spec functions of this trait which relation that is.
pub trait Barrier<VM: VMBinding>: Sized {
    /// The state of the plan that the slow path of the barrier reaches.
    type Plan;

    /// The barrier has post-write barriers.
    spec fn has_post_barriers() -> bool;

    /// What `flush` does.
    spec fn flushed(pre: Moment<Self, Self::Plan>, post: Moment<Self, Self::Plan>) -> bool;

    /// What `load_weak_reference` does.
    spec fn weak_reference_loaded(
        pre: Moment<Self, Self::Plan>,
        referent: ObjectReference,
        post: Moment<Self, Self::Plan>,
    ) -> bool;

    /// What `object_reference_write_pre` does.
    spec fn write_prepared(
        pre: Moment<Self, Self::Plan>,
        src: ObjectReference,
        slot: Slot,
        target: Option<ObjectReference>,
        post: Moment<Self, Self::Plan>,
    ) -> bool;

    /// What `object_reference_write_post` does.
    spec fn write_completed(
        pre: Moment<Self, Self::Plan>,
        src: ObjectReference,
        slot: Slot,
        target: Option<ObjectReference>,
        post: Moment<Self, Self::Plan>,
    ) -> bool;

    /// What `object_reference_write_slow` does.
    spec fn write_handled(
        pre: Moment<Self, Self::Plan>,
        src: ObjectReference,
        slot: Slot,
        target: Option<ObjectReference>,
        post: Moment<Self, Self::Plan>,
    ) -> bool;

    /// What `memory_region_copy_pre` does.
    spec fn copy_prepared(
        pre: Moment<Self, Self::Plan>,
        src: MemorySlice,
        dst: MemorySlice,
        post: Moment<Self, Self::Plan>,
    ) -> bool;

    /// What `memory_region_copy_post` does.
    spec fn copy_completed(
        pre: Moment<Self, Self::Plan>,
        src: MemorySlice,
        dst: MemorySlice,
        post: Moment<Self, Self::Plan>,
    ) -> bool;

    /// What `object_probable_write` does.
    spec fn write_expected(
        pre: Moment<Self, Self::Plan>,
        object: ObjectReference,
        post: Moment<Self, Self::Plan>,
    ) -> bool;

    /// Flush thread-local states like buffers or remembered sets.
    fn flush(&mut self, mmtk: &mut MMTK<VM, Self::Plan>)
        ensures
            Self::flushed(moment(*old(self), *old(mmtk)), moment(*final(self), *final(mmtk))),
    ;

    /// Weak reference loading barrier.  A mutator should call this when loading from a weak
    /// reference field, for example, when executing  `java.lang.ref.Reference.get()` in JVM, or
    /// loading from a global weak table in CRuby.
    ///
    /// Note: Merely loading from a field holding weak reference into a local variable will create a
    /// strong reference from the stack to the referent, changing its reachablilty from weakly
    /// reachable to strongly reachable.  Concurrent garbage collectors may need to handle such
    /// events specially.
    fn load_weak_reference(&mut self, mmtk: &mut MMTK<VM, Self::Plan>, referent: ObjectReference)
        ensures
            Self::weak_reference_loaded(
                moment(*old(self), *old(mmtk)),
                referent,
                moment(*final(self), *final(mmtk)),
            ),
    ;

    /// Subsuming barrier for object reference write
    fn object_reference_write(
        &mut self,
        mmtk: &mut MMTK<VM, Self::Plan>,
        src: ObjectReference,
        slot: Slot,
        target: ObjectReference,
    )
        requires
            Self::has_post_barriers(),
        ensures
            exists|before: Moment<Self, Self::Plan>, after: Moment<Self, Self::Plan>|
                {
                    &&& #[trigger] Self::write_prepared(
                        moment(*old(self), *old(mmtk)),
                        src,
                        slot,
                        Some(target),
                        before,
                    )
                    &&& after.actor == before.actor
                    &&& after.plan == before.plan
                    &&& after.memory == before.memory.with_slot(slot, Some(target))
                    &&& #[trigger] Self::write_completed(
                        after,
                        src,
                        slot,
                        Some(target),
                        moment(*final(self), *final(mmtk)),
                    )
                },
    {
        self.object_reference_write_pre(mmtk, src, slot, Some(target));
        let ghost before = moment(*self, *mmtk);
        mmtk.vm.store_slot(slot, target);
        let ghost after = moment(*self, *mmtk);
        self.object_reference_write_post(mmtk, src, slot, Some(target));
        assert(Self::write_prepared(
            moment(*old(self), *old(mmtk)),
            src,
            slot,
            Some(target),
            before,
        ));
        assert(Self::write_completed(after, src, slot, Some(target), moment(*self, *mmtk)));
    }

    /// Full pre-barrier for object reference write
    fn object_reference_write_pre(
        &mut self,
        mmtk: &mut MMTK<VM, Self::Plan>,
        src: ObjectReference,
        slot: Slot,
        target: Option<ObjectReference>,
    )
        ensures
            Self::write_prepared(
                moment(*old(self), *old(mmtk)),
                src,
                slot,
                target,
                moment(*final(self), *final(mmtk)),
            ),
    ;

    /// Full post-barrier for object reference write
    fn object_reference_write_post(
        &mut self,
        mmtk: &mut MMTK<VM, Self::Plan>,
        src: ObjectReference,
        slot: Slot,
        target: Option<ObjectReference>,
    )
        requires
            Self::has_post_barriers(),
        ensures
            Self::write_completed(
                moment(*old(self), *old(mmtk)),
                src,
                slot,
                target,
                moment(*final(self), *final(mmtk)),
            ),
    ;

    /// Object reference write slow-path call.
    /// This can be called either before or after the store, depend on the concrete barrier
    /// implementation.
    fn object_reference_write_slow(
        &mut self,
        mmtk: &mut MMTK<VM, Self::Plan>,
        src: ObjectReference,
        slot: Slot,
        target: Option<ObjectReference>,
    )
        ensures
            Self::write_handled(
                moment(*old(self), *old(mmtk)),
                src,
                slot,
                target,
                moment(*final(self), *final(mmtk)),
            ),
    ;

    /// Subsuming barrier for array copy
    fn memory_region_copy(
        &mut self,
        mmtk: &mut MMTK<VM, Self::Plan>,
        src: MemorySlice,
        dst: MemorySlice,
    )
        requires
            Self::has_post_barriers(),
            src.wf(),
            dst.wf(),
            src.slots == dst.slots,
        ensures
            exists|before: Moment<Self, Self::Plan>, after: Moment<Self, Self::Plan>|
                {
                    &&& #[trigger] Self::copy_prepared(
                        moment(*old(self), *old(mmtk)),
                        src,
                        dst,
                        before,
                    )
                    &&& after.actor == before.actor
                    &&& after.plan == before.plan
                    &&& after.memory == before.memory.with_copy(src, dst)
                    &&& #[trigger] Self::copy_completed(
                        after,
                        src,
                        dst,
                        moment(*final(self), *final(mmtk)),
                    )
                },
    {
        self.memory_region_copy_pre(mmtk, src, dst);
        let ghost before = moment(*self, *mmtk);
        mmtk.vm.copy_slots(src, dst);
        let ghost after = moment(*self, *mmtk);
        self.memory_region_copy_post(mmtk, src, dst);
        assert(Self::copy_prepared(moment(*old(self), *old(mmtk)), src, dst, before));
        assert(Self::copy_completed(after, src, dst, moment(*self, *mmtk)));
    }

    /// Full pre-barrier for array copy
    fn memory_region_copy_pre(
        &mut self,
        mmtk: &mut MMTK<VM, Self::Plan>,
        src: MemorySlice,
        dst: MemorySlice,
    )
        ensures
            Self::copy_prepared(
                moment(*old(self), *old(mmtk)),
                src,
                dst,
                moment(*final(self), *final(mmtk)),
            ),
    ;

    /// Full post-barrier for array copy
    fn memory_region_copy_post(
        &mut self,
        mmtk: &mut MMTK<VM, Self::Plan>,
        src: MemorySlice,
        dst: MemorySlice,
    )
        requires
            Self::has_post_barriers(),
        ensures
            Self::copy_completed(
                moment(*old(self), *old(mmtk)),
                src,
                dst,
                moment(*final(self), *final(mmtk)),
            ),
    ;

    /// A pre-barrier indicating that some fields of the object will probably be modified soon.
    /// Specifically, the caller should ensure that:
    ///     * The barrier must be called before any field modification.
    ///     * Some fields (unknown at the time of calling this barrier) might be modified soon,
    ///       without a write barrier.
    ///     * There are no safepoints between the barrier call and the field writes.
    ///
    /// **Example use case for mmtk-openjdk:**
    ///
    /// The OpenJDK C2 slowpath allocation code
    /// can do deoptimization after the allocation and before returning to C2 compiled code.
    /// The deoptimization itself contains a safepoint. For generational plans, if a GC
    /// happens at this safepoint, the allocated object will be promoted, and all the
    /// subsequent field initialization should be recorded.
    fn object_probable_write(&mut self, mmtk: &mut MMTK<VM, Self::Plan>, obj: ObjectReference)
        ensures
            Self::write_expected(
                moment(*old(self), *old(mmtk)),
                obj,
                moment(*final(self), *final(mmtk)),
            ),
    ;
}

/// Empty barrier implementation.
/// For GCs that do not need any barriers
///
/// Note that since NoBarrier does nothing but the object field write itself, it has no slow-path
/// semantics (i.e. an no-op slow-path).
pub struct NoBarrier;

impl<VM: VMBinding> Barrier<VM> for NoBarrier {
    type Plan = ();

    open spec fn has_post_barriers() -> bool {
        true
    }

    open spec fn flushed(pre: Moment<Self, ()>, post: Moment<Self, ()>) -> bool {
        post == pre
    }

    open spec fn weak_reference_loaded(
        pre: Moment<Self, ()>,
        referent: ObjectReference,
        post: Moment<Self, ()>,
    ) -> bool {
        post == pre
    }

    open spec fn write_prepared(
        pre: Moment<Self, ()>,
        src: ObjectReference,
        slot: Slot,
        target: Option<ObjectReference>,
        post: Moment<Self, ()>,
    ) -> bool {
        post == pre
    }

    open spec fn write_completed(
        pre: Moment<Self, ()>,
        src: ObjectReference,
        slot: Slot,
        target: Option<ObjectReference>,
        post: Moment<Self, ()>,
    ) -> bool {
        post == pre
    }

    open spec fn write_handled(
        pre: Moment<Self, ()>,
        src: ObjectReference,
        slot: Slot,
        target: Option<ObjectReference>,
        post: Moment<Self, ()>,
    ) -> bool {
        post == pre
    }

    open spec fn copy_prepared(
        pre: Moment<Self, ()>,
        src: MemorySlice,
        dst: MemorySlice,
        post: Moment<Self, ()>,
    ) -> bool {
        post == pre
    }

    open spec fn copy_completed(
        pre: Moment<Self, ()>,
        src: MemorySlice,
        dst: MemorySlice,
        post: Moment<Self, ()>,
    ) -> bool {
        post == pre
    }

    open spec fn write_expected(
        pre: Moment<Self, ()>,
        object: ObjectReference,
        post: Moment<Self, ()>,
    ) -> bool {
        post == pre
    }

    fn flush(&mut self, mmtk: &mut MMTK<VM, ()>) {
    }

    fn load_weak_reference(&mut self, mmtk: &mut MMTK<VM, ()>, referent: ObjectReference) {
    }

    fn object_reference_write_pre(
        &mut self,
        mmtk: &mut MMTK<VM, ()>,
        src: ObjectReference,
        slot: Slot,
        target: Option<ObjectReference>,
    ) {
    }

    fn object_reference_write_post(
        &mut self,
        mmtk: &mut MMTK<VM, ()>,
        src: ObjectReference,
        slot: Slot,
        target: Option<ObjectReference>,
    ) {
    }

    fn object_reference_write_slow(
        &mut self,
        mmtk: &mut MMTK<VM, ()>,
        src: ObjectReference,
        slot: Slot,
        target: Option<ObjectReference>,
    ) {
    }

    fn memory_region_copy_pre(
        &mut self,
        mmtk: &mut MMTK<VM, ()>,
        src: MemorySlice,
        dst: MemorySlice,
    ) {
    }

    fn memory_region_copy_post(
        &mut self,
        mmtk: &mut MMTK<VM, ()>,
        src: MemorySlice,
        dst: MemorySlice,
    ) {
    }

    fn object_probable_write(&mut self, mmtk: &mut MMTK<VM, ()>, obj: ObjectReference) {
    }
}

/// Whatever is called of a barrier that does nothing, the memory stays as it is. Writes and copies
/// need no more than the store or the copy itself.
pub proof fn law_no_barrier_changes_nothing<VM: VMBinding>(
    pre: Moment<NoBarrier, ()>,
    object: ObjectReference,
    slot: Slot,
    target: Option<ObjectReference>,
    src: MemorySlice,
    dst: MemorySlice,
    post: Moment<NoBarrier, ()>,
)
    requires
        ({
            ||| <NoBarrier as Barrier<VM>>::flushed(pre, post)
            ||| <NoBarrier as Barrier<VM>>::weak_reference_loaded(pre, object, post)
            ||| <NoBarrier as Barrier<VM>>::write_prepared(pre, object, slot, target, post)
            ||| <NoBarrier as Barrier<VM>>::write_completed(pre, object, slot, target, post)
            ||| <NoBarrier as Barrier<VM>>::write_handled(pre, object, slot, target, post)
            ||| <NoBarrier as Barrier<VM>>::copy_prepared(pre, src, dst, post)
            ||| <NoBarrier as Barrier<VM>>::copy_completed(pre, src, dst, post)
            ||| <NoBarrier as Barrier<VM>>::write_expected(pre, object, post)
        }),
    ensures
        post.memory == pre.memory,
        <NoBarrier as Barrier<VM>>::has_post_barriers(),
{
}

}

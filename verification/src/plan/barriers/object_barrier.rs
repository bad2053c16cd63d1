//! Barriers that hand modified objects to a slow path: the object barrier and the SATB barrier.

use atomic::Ordering;
use vstd::prelude::*;

use crate::plan::barriers::log_attempt::{is_bit, is_unlogged, try_log, with_logged};
use crate::plan::barriers::Barrier;
use crate::plan::{moment, Moment, MMTK};
use crate::util::address::ObjectReference;
use crate::util::metadata::{law_metadata_write, lemma_low_mask, MetadataSpec};
use crate::vm::{Memory, MemorySlice, Slot, VMBinding};

verus! {

/// A barrier semantics defines the barrier slow-path behaviour. For example, how an object barrier
/// processes it's modbufs. Specifically, it defines the slow-path call interfaces and a call to
/// flush buffers.
///
/// A barrier is a combination of fast-path behaviour + slow-path semantics.
/// The fast-path code will decide whether to call the slow-path calls.
pub trait BarrierSemantics: Sized {
    /// The runtime.
    type VM: VMBinding;

    /// The state of the plan that the slow path reaches.
    type Plan;

    /// Where the unlog bit of an object is.
    spec fn unlog_bit() -> MetadataSpec;

    /// What `flush` does.
    spec fn flushed(pre: Moment<Self, Self::Plan>, post: Moment<Self, Self::Plan>) -> bool;

    /// What `object_reference_write_slow` does.
    spec fn write_handled(
        pre: Moment<Self, Self::Plan>,
        src: ObjectReference,
        slot: Slot,
        target: Option<ObjectReference>,
        post: Moment<Self, Self::Plan>,
    ) -> bool;

    /// What `memory_region_copy_slow` does.
    spec fn region_copied(
        pre: Moment<Self, Self::Plan>,
        src: MemorySlice,
        dst: MemorySlice,
        post: Moment<Self, Self::Plan>,
    ) -> bool;

    /// What `object_probable_write_slow` does.
    spec fn probable_write_handled(
        pre: Moment<Self, Self::Plan>,
        obj: ObjectReference,
        post: Moment<Self, Self::Plan>,
    ) -> bool;

    /// What `load_weak_reference` does.
    spec fn weak_reference_loaded(
        pre: Moment<Self, Self::Plan>,
        o: ObjectReference,
        post: Moment<Self, Self::Plan>,
    ) -> bool;

    /// Where the unlog bit of an object is.
    fn unlog_bit_spec() -> (spec: MetadataSpec)
        ensures
            spec == Self::unlog_bit(),
            is_bit(spec),
    ;

    /// Flush thread-local buffers or remembered sets.
    /// Normally this is called by the slow-path implementation whenever the thread-local buffers
    /// are full. This will also be called externally by the VM, when the thread is being destroyed.
    fn flush(&mut self, mmtk: &mut MMTK<Self::VM, Self::Plan>)
        ensures
            Self::flushed(moment(*old(self), *old(mmtk)), moment(*final(self), *final(mmtk))),
    ;

    /// Slow-path call for object field write operations.
    fn object_reference_write_slow(
        &mut self,
        mmtk: &mut MMTK<Self::VM, Self::Plan>,
        src: ObjectReference,
        slot: Slot,
        target: Option<ObjectReference>,
    )
        ensures
            Self::write_handled(
                moment(*old(self), *old(mmtk)),
                src,
                slot,
                target,
                moment(*final(self), *final(mmtk)),
            ),
    ;

    /// Slow-path call for memory slice copy operations. For example, array-copy operations.
    fn memory_region_copy_slow(
        &mut self,
        mmtk: &mut MMTK<Self::VM, Self::Plan>,
        src: MemorySlice,
        dst: MemorySlice,
    )
        ensures
            Self::region_copied(
                moment(*old(self), *old(mmtk)),
                src,
                dst,
                moment(*final(self), *final(mmtk)),
            ),
    ;

    /// Object will probably be modified
    fn object_probable_write_slow(
        &mut self,
        mmtk: &mut MMTK<Self::VM, Self::Plan>,
        obj: ObjectReference,
    )
        ensures
            Self::probable_write_handled(
                moment(*old(self), *old(mmtk)),
                obj,
                moment(*final(self), *final(mmtk)),
            ),
    ;

    /// Loading from a weak reference field
    fn load_weak_reference(&mut self, mmtk: &mut MMTK<Self::VM, Self::Plan>, o: ObjectReference)
        ensures
            Self::weak_reference_loaded(
                moment(*old(self), *old(mmtk)),
                o,
                moment(*final(self), *final(mmtk)),
            ),
    ;
}

/// Generic object barrier with a type argument defining it's slow-path behaviour.
pub struct ObjectBarrier<S: BarrierSemantics> {
    semantics: S,
}

impl<S: BarrierSemantics> ObjectBarrier<S> {
    /// The slow path.
    pub closed spec fn slow_path(self) -> S {
        self.semantics
    }

    /// The slow path in place of the barrier.
    pub open spec fn slow_moment(at: Moment<Self, S::Plan>) -> Moment<S, S::Plan> {
        Moment { actor: at.actor.slow_path(), memory: at.memory, plan: at.plan }
    }

    /// If `src` was unlogged, its unlog bit was cleared and the write was handed to the slow path.
    /// Otherwise nothing happened.
    pub open spec fn logged(
        pre: Moment<Self, S::Plan>,
        src: ObjectReference,
        slot: Slot,
        target: Option<ObjectReference>,
        post: Moment<Self, S::Plan>,
    ) -> bool {
        if is_unlogged(pre.memory, S::unlog_bit(), src) {
            let memory = with_logged(pre.memory, S::unlog_bit(), src);
            let marked = Self::slow_moment(Moment { memory, ..pre });
            S::write_handled(marked, src, slot, target, Self::slow_moment(post))
        } else {
            post == pre
        }
    }

    /// Create a new ObjectBarrier with the given semantics.
    pub fn new(semantics: S) -> (barrier: Self)
        ensures
            barrier.slow_path() == semantics,
    {
        ObjectBarrier { semantics }
    }

    /// Whether the object has not been logged.
    fn object_is_unlogged(&self, mmtk: &MMTK<S::VM, S::Plan>, object: ObjectReference) -> (unlogged:
        bool)
        ensures
            unlogged == is_unlogged(mmtk.vm@, S::unlog_bit(), object),
    {
        let bit: MetadataSpec = S::unlog_bit_spec();
        proof {
            lemma_low_mask(bit.num_of_bits);
        }
        bit.load::<S::VM, u8>(&mmtk.vm, object) != 0
    }

    /// Attempt to atomically log an object.
    /// Returns true if the object is not logged previously.
    fn log_object(&self, mmtk: &mut MMTK<S::VM, S::Plan>, object: ObjectReference) -> (logged: bool)
        ensures
            logged == is_unlogged(old(mmtk).vm@, S::unlog_bit(), object),
            final(mmtk).plan == old(mmtk).plan,
            final(mmtk).vm@ == if logged {
                with_logged(old(mmtk).vm@, S::unlog_bit(), object)
            } else {
                old(mmtk).vm@
            },
            S::unlog_bit().sequentially_read(old(mmtk).vm, object),
            logged ==> S::unlog_bit().sequentially_written(
                old(mmtk).vm,
                object,
                final(mmtk).vm,
            ),
            !logged ==> final(mmtk).vm == old(mmtk).vm,
    {
        try_log(&mut mmtk.vm, S::unlog_bit_spec(), object)
    }

    /// Hands a write to the slow path if no thread has logged the object before.
    fn handle_once(
        &mut self,
        mmtk: &mut MMTK<S::VM, S::Plan>,
        src: ObjectReference,
        slot: Slot,
        target: Option<ObjectReference>,
    )
        ensures
            Self::logged(
                moment(*old(self), *old(mmtk)),
                src,
                slot,
                target,
                moment(*final(self), *final(mmtk)),
            ),
    {
        if self.log_object(mmtk, src) {
            self.semantics.object_reference_write_slow(mmtk, src, slot, target);
        }
    }
}

impl<S: BarrierSemantics> Barrier<S::VM> for ObjectBarrier<S> {
    type Plan = S::Plan;

    open spec fn has_post_barriers() -> bool {
        true
    }

    open spec fn flushed(
        pre: Moment<Self, S::Plan>,
        post: Moment<Self, S::Plan>,
    ) -> bool {
        S::flushed(Self::slow_moment(pre), Self::slow_moment(post))
    }

    open spec fn weak_reference_loaded(
        pre: Moment<Self, S::Plan>,
        referent: ObjectReference,
        post: Moment<Self, S::Plan>,
    ) -> bool {
        post == pre
    }

    open spec fn write_prepared(
        pre: Moment<Self, S::Plan>,
        src: ObjectReference,
        slot: Slot,
        target: Option<ObjectReference>,
        post: Moment<Self, S::Plan>,
    ) -> bool {
        post == pre
    }

    open spec fn write_completed(
        pre: Moment<Self, S::Plan>,
        src: ObjectReference,
        slot: Slot,
        target: Option<ObjectReference>,
        post: Moment<Self, S::Plan>,
    ) -> bool {
        Self::logged(pre, src, slot, target, post)
    }

    open spec fn write_handled(
        pre: Moment<Self, S::Plan>,
        src: ObjectReference,
        slot: Slot,
        target: Option<ObjectReference>,
        post: Moment<Self, S::Plan>,
    ) -> bool {
        Self::logged(pre, src, slot, target, post)
    }

    open spec fn copy_prepared(
        pre: Moment<Self, S::Plan>,
        src: MemorySlice,
        dst: MemorySlice,
        post: Moment<Self, S::Plan>,
    ) -> bool {
        post == pre
    }

    open spec fn copy_completed(
        pre: Moment<Self, S::Plan>,
        src: MemorySlice,
        dst: MemorySlice,
        post: Moment<Self, S::Plan>,
    ) -> bool {
        S::region_copied(Self::slow_moment(pre), src, dst, Self::slow_moment(post))
    }

    open spec fn write_expected(
        pre: Moment<Self, S::Plan>,
        object: ObjectReference,
        post: Moment<Self, S::Plan>,
    ) -> bool {
        if is_unlogged(pre.memory, S::unlog_bit(), object) {
            S::probable_write_handled(Self::slow_moment(pre), object, Self::slow_moment(post))
        } else {
            post == pre
        }
    }

    fn flush(&mut self, mmtk: &mut MMTK<S::VM, S::Plan>) {
        self.semantics.flush(mmtk);
    }

    fn load_weak_reference(&mut self, mmtk: &mut MMTK<S::VM, S::Plan>, referent: ObjectReference) {
    }

    fn object_reference_write_pre(
        &mut self,
        mmtk: &mut MMTK<S::VM, S::Plan>,
        src: ObjectReference,
        slot: Slot,
        target: Option<ObjectReference>,
    ) {
    }

    fn object_reference_write_post(
        &mut self,
        mmtk: &mut MMTK<S::VM, S::Plan>,
        src: ObjectReference,
        slot: Slot,
        target: Option<ObjectReference>,
    ) {
        if self.object_is_unlogged(mmtk, src) {
            self.handle_once(mmtk, src, slot, target);
        }
    }

    fn object_reference_write_slow(
        &mut self,
        mmtk: &mut MMTK<S::VM, S::Plan>,
        src: ObjectReference,
        slot: Slot,
        target: Option<ObjectReference>,
    ) {
        self.handle_once(mmtk, src, slot, target);
    }

    fn memory_region_copy_pre(
        &mut self,
        mmtk: &mut MMTK<S::VM, S::Plan>,
        src: MemorySlice,
        dst: MemorySlice,
    ) {
    }

    fn memory_region_copy_post(
        &mut self,
        mmtk: &mut MMTK<S::VM, S::Plan>,
        src: MemorySlice,
        dst: MemorySlice,
    ) {
        self.semantics.memory_region_copy_slow(mmtk, src, dst);
    }

    fn object_probable_write(&mut self, mmtk: &mut MMTK<S::VM, S::Plan>, obj: ObjectReference) {
        if self.object_is_unlogged(mmtk, obj) {
            self.semantics.object_probable_write_slow(mmtk, obj);
        }
    }
}

/// Once a write to an object has been handed to the slow path, further writes to it are not: until
/// the unlog bit of the object is set again, they do nothing, to any barrier, whether the runtime
/// calls the barrier or its slow path.
pub proof fn law_writes_are_handled_once<S: BarrierSemantics>(
    memory: Memory,
    src: ObjectReference,
    slot: Slot,
    target: Option<ObjectReference>,
    later: Moment<ObjectBarrier<S>, S::Plan>,
    post: Moment<ObjectBarrier<S>, S::Plan>,
)
    requires
        is_bit(S::unlog_bit()),
        later.memory == with_logged(memory, S::unlog_bit(), src),
        ObjectBarrier::<S>::write_completed(later, src, slot, target, post)
            || ObjectBarrier::<S>::write_handled(later, src, slot, target, post),
    ensures
        post == later,
{
    let bit = S::unlog_bit();
    lemma_low_mask(bit.num_of_bits);
    law_metadata_write(memory, bit, src, 0, bit, src);
}

/// A write to an object whose unlog bit is set clears the bit and is handed to the slow path as it
/// is, with its slot and its target, whether the runtime calls the barrier or its slow path. A
/// write to any other object does nothing.
pub proof fn law_the_first_write_is_handed_on<S: BarrierSemantics>(
    pre: Moment<ObjectBarrier<S>, S::Plan>,
    src: ObjectReference,
    slot: Slot,
    target: Option<ObjectReference>,
    post: Moment<ObjectBarrier<S>, S::Plan>,
)
    requires
        ObjectBarrier::<S>::write_completed(pre, src, slot, target, post)
            || ObjectBarrier::<S>::write_handled(pre, src, slot, target, post),
    ensures
        pre.memory.metadata(S::unlog_bit(), src) == 0 ==> post == pre,
        pre.memory.metadata(S::unlog_bit(), src) != 0 ==> S::write_handled(
            Moment {
                actor: pre.actor.slow_path(),
                memory: pre.memory.with_metadata(S::unlog_bit(), src, 0),
                plan: pre.plan,
            },
            src,
            slot,
            target,
            Moment { actor: post.actor.slow_path(), memory: post.memory, plan: post.plan },
        ),
{
}

/// Apart from writes, an object barrier hands flushes, copies that were made and writes that are
/// expected of objects whose unlog bit is set to its slow path. Before writes and copies, on loads
/// from weak references and on writes that are expected of other objects it does nothing.
pub proof fn law_what_an_object_barrier_hands_on<S: BarrierSemantics>(
    pre: Moment<ObjectBarrier<S>, S::Plan>,
    object: ObjectReference,
    slot: Slot,
    target: Option<ObjectReference>,
    src: MemorySlice,
    dst: MemorySlice,
    post: Moment<ObjectBarrier<S>, S::Plan>,
)
    ensures
        ({
            let slow = Moment {
                actor: pre.actor.slow_path(),
                memory: pre.memory,
                plan: pre.plan,
            };
            let then = Moment {
                actor: post.actor.slow_path(),
                memory: post.memory,
                plan: post.plan,
            };
            &&& ObjectBarrier::<S>::flushed(pre, post) ==> S::flushed(slow, then)
            &&& ObjectBarrier::<S>::copy_completed(pre, src, dst, post) ==> S::region_copied(
                slow,
                src,
                dst,
                then,
            )
            &&& ObjectBarrier::<S>::write_expected(pre, object, post) && pre.memory.metadata(
                S::unlog_bit(),
                object,
            ) != 0 ==> S::probable_write_handled(slow, object, then)
            &&& ObjectBarrier::<S>::write_expected(pre, object, post) && pre.memory.metadata(
                S::unlog_bit(),
                object,
            ) == 0 ==> post == pre
            &&& ObjectBarrier::<S>::weak_reference_loaded(pre, object, post) ==> post == pre
            &&& ObjectBarrier::<S>::write_prepared(pre, object, slot, target, post) ==> post == pre
            &&& ObjectBarrier::<S>::copy_prepared(pre, src, dst, post) ==> post == pre
            &&& ObjectBarrier::<S>::has_post_barriers()
        }),
{
}

/// A SATB (Snapshot-At-The-Beginning) barrier implementation.
/// This barrier is basically a pre-write object barrier with a weak reference loading barrier.
pub struct SATBBarrier<S: BarrierSemantics> {
    weak_ref_barrier_enabled: bool,
    semantics: S,
}

impl<S: BarrierSemantics> SATBBarrier<S> {
    /// The slow path.
    pub closed spec fn slow_path(self) -> S {
        self.semantics
    }

    /// The weak reference loading barrier is on.
    pub closed spec fn weak_barrier_on(self) -> bool {
        self.weak_ref_barrier_enabled
    }

    /// The slow path in place of the barrier.
    pub open spec fn slow_moment(at: Moment<Self, S::Plan>) -> Moment<S, S::Plan> {
        Moment { actor: at.actor.slow_path(), memory: at.memory, plan: at.plan }
    }

    /// The weak reference loading barrier is on after the call if it was on before it.
    pub open spec fn same_switch(pre: Moment<Self, S::Plan>, post: Moment<Self, S::Plan>) -> bool {
        post.actor.weak_barrier_on() == pre.actor.weak_barrier_on()
    }

    /// Create a new SATBBarrier with the given semantics.
    pub fn new(semantics: S) -> (barrier: Self)
        ensures
            barrier.slow_path() == semantics,
            !barrier.weak_barrier_on(),
    {
        SATBBarrier { weak_ref_barrier_enabled: false, semantics }
    }

    /// Switches the weak reference loading barrier on or off.
    pub fn set_weak_ref_barrier_enabled(&mut self, value: bool)
        ensures
            final(self).weak_barrier_on() == value,
            final(self).slow_path() == old(self).slow_path(),
    {
        self.weak_ref_barrier_enabled = value;
    }

    /// Whether the object has not been logged.
    fn object_is_unlogged(&self, mmtk: &MMTK<S::VM, S::Plan>, object: ObjectReference) -> (unlogged:
        bool)
        ensures
            unlogged == is_unlogged(mmtk.vm@, S::unlog_bit(), object),
            S::unlog_bit().sequentially_read(mmtk.vm, object),
    {
        let bit: MetadataSpec = S::unlog_bit_spec();
        proof {
            lemma_low_mask(bit.num_of_bits);
        }
        bit.load_atomic::<S::VM, u8>(&mmtk.vm, object, Ordering::SeqCst) != 0
    }
}

/// The barrier acts before a write only: it has no post-write barriers.
impl<S: BarrierSemantics> Barrier<S::VM> for SATBBarrier<S> {
    type Plan = S::Plan;

    open spec fn has_post_barriers() -> bool {
        false
    }

    open spec fn flushed(
        pre: Moment<Self, S::Plan>,
        post: Moment<Self, S::Plan>,
    ) -> bool {
        &&& Self::same_switch(pre, post)
        &&& S::flushed(Self::slow_moment(pre), Self::slow_moment(post))
    }

    open spec fn weak_reference_loaded(
        pre: Moment<Self, S::Plan>,
        referent: ObjectReference,
        post: Moment<Self, S::Plan>,
    ) -> bool {
        if pre.actor.weak_barrier_on() {
            &&& Self::same_switch(pre, post)
            &&& S::weak_reference_loaded(Self::slow_moment(pre), referent, Self::slow_moment(post))
        } else {
            post == pre
        }
    }

    open spec fn write_prepared(
        pre: Moment<Self, S::Plan>,
        src: ObjectReference,
        slot: Slot,
        target: Option<ObjectReference>,
        post: Moment<Self, S::Plan>,
    ) -> bool {
        if is_unlogged(pre.memory, S::unlog_bit(), src) {
            &&& Self::same_switch(pre, post)
            &&& S::write_handled(Self::slow_moment(pre), src, slot, target, Self::slow_moment(post))
        } else {
            post == pre
        }
    }

    open spec fn write_completed(
        pre: Moment<Self, S::Plan>,
        src: ObjectReference,
        slot: Slot,
        target: Option<ObjectReference>,
        post: Moment<Self, S::Plan>,
    ) -> bool {
        post == pre
    }

    open spec fn write_handled(
        pre: Moment<Self, S::Plan>,
        src: ObjectReference,
        slot: Slot,
        target: Option<ObjectReference>,
        post: Moment<Self, S::Plan>,
    ) -> bool {
        &&& Self::same_switch(pre, post)
        &&& S::write_handled(Self::slow_moment(pre), src, slot, target, Self::slow_moment(post))
    }

    open spec fn copy_prepared(
        pre: Moment<Self, S::Plan>,
        src: MemorySlice,
        dst: MemorySlice,
        post: Moment<Self, S::Plan>,
    ) -> bool {
        &&& Self::same_switch(pre, post)
        &&& S::region_copied(Self::slow_moment(pre), src, dst, Self::slow_moment(post))
    }

    open spec fn copy_completed(
        pre: Moment<Self, S::Plan>,
        src: MemorySlice,
        dst: MemorySlice,
        post: Moment<Self, S::Plan>,
    ) -> bool {
        post == pre
    }

    open spec fn write_expected(
        pre: Moment<Self, S::Plan>,
        object: ObjectReference,
        post: Moment<Self, S::Plan>,
    ) -> bool {
        &&& Self::same_switch(pre, post)
        &&& S::probable_write_handled(Self::slow_moment(pre), object, Self::slow_moment(post))
    }

    fn flush(&mut self, mmtk: &mut MMTK<S::VM, S::Plan>) {
        self.semantics.flush(mmtk);
    }

    fn load_weak_reference(&mut self, mmtk: &mut MMTK<S::VM, S::Plan>, referent: ObjectReference) {
        if self.weak_ref_barrier_enabled {
            self.semantics.load_weak_reference(mmtk, referent)
        }
    }

    fn object_probable_write(&mut self, mmtk: &mut MMTK<S::VM, S::Plan>, obj: ObjectReference) {
        self.semantics.object_probable_write_slow(mmtk, obj);
    }

    fn object_reference_write_pre(
        &mut self,
        mmtk: &mut MMTK<S::VM, S::Plan>,
        src: ObjectReference,
        slot: Slot,
        target: Option<ObjectReference>,
    ) {
        if self.object_is_unlogged(mmtk, src) {
            self.semantics.object_reference_write_slow(mmtk, src, slot, target);
        }
    }

    /// Never called: the barrier has no post-write barriers.
    fn object_reference_write_post(
        &mut self,
        mmtk: &mut MMTK<S::VM, S::Plan>,
        src: ObjectReference,
        slot: Slot,
        target: Option<ObjectReference>,
    ) {
    }

    fn object_reference_write_slow(
        &mut self,
        mmtk: &mut MMTK<S::VM, S::Plan>,
        src: ObjectReference,
        slot: Slot,
        target: Option<ObjectReference>,
    ) {
        self.semantics.object_reference_write_slow(mmtk, src, slot, target);
    }

    fn memory_region_copy_pre(
        &mut self,
        mmtk: &mut MMTK<S::VM, S::Plan>,
        src: MemorySlice,
        dst: MemorySlice,
    ) {
        self.semantics.memory_region_copy_slow(mmtk, src, dst);
    }

    /// Never called: the barrier has no post-write barriers.
    fn memory_region_copy_post(
        &mut self,
        mmtk: &mut MMTK<S::VM, S::Plan>,
        src: MemorySlice,
        dst: MemorySlice,
    ) {
    }
}

/// Before every write to an object whose unlog bit is set, whatever the slot and whether or not the
/// new value is null, a SATB barrier hands the write to its slow path, with its slot and its
/// target, so that the reference that is about to be overwritten is part of the snapshot. The unlog
/// bit is left to the slow path. Before a write to any other object it does nothing.
pub proof fn law_writes_are_handed_on_before_they_happen<S: BarrierSemantics>(
    pre: Moment<SATBBarrier<S>, S::Plan>,
    src: ObjectReference,
    slot: Slot,
    target: Option<ObjectReference>,
    post: Moment<SATBBarrier<S>, S::Plan>,
)
    requires
        SATBBarrier::<S>::write_prepared(pre, src, slot, target, post),
    ensures
        pre.memory.metadata(S::unlog_bit(), src) == 0 ==> post == pre,
        pre.memory.metadata(S::unlog_bit(), src) != 0 ==> S::write_handled(
            Moment { actor: pre.actor.slow_path(), memory: pre.memory, plan: pre.plan },
            src,
            slot,
            target,
            Moment { actor: post.actor.slow_path(), memory: post.memory, plan: post.plan },
        ),
{
}

/// Apart from the check before a write, a SATB barrier hands to its slow path whatever it is called
/// for: every write that its own slow path is called with, every copy before it happens, every
/// write that is expected and every flush, and loads from weak references while that is switched
/// on. None of this changes the switch. It has nothing to do after writes and copies.
pub proof fn law_what_a_satb_barrier_hands_on<S: BarrierSemantics>(
    pre: Moment<SATBBarrier<S>, S::Plan>,
    object: ObjectReference,
    slot: Slot,
    target: Option<ObjectReference>,
    src: MemorySlice,
    dst: MemorySlice,
    post: Moment<SATBBarrier<S>, S::Plan>,
)
    ensures
        ({
            let slow = Moment {
                actor: pre.actor.slow_path(),
                memory: pre.memory,
                plan: pre.plan,
            };
            let then = Moment {
                actor: post.actor.slow_path(),
                memory: post.memory,
                plan: post.plan,
            };
            let same = post.actor.weak_barrier_on() == pre.actor.weak_barrier_on();
            &&& SATBBarrier::<S>::flushed(pre, post) ==> S::flushed(slow, then) && same
            &&& SATBBarrier::<S>::write_prepared(pre, object, slot, target, post) ==> same
            &&& SATBBarrier::<S>::write_handled(pre, object, slot, target, post)
                ==> S::write_handled(slow, object, slot, target, then) && same
            &&& SATBBarrier::<S>::copy_prepared(pre, src, dst, post) ==> S::region_copied(
                slow,
                src,
                dst,
                then,
            ) && same
            &&& SATBBarrier::<S>::write_expected(pre, object, post) ==> S::probable_write_handled(
                slow,
                object,
                then,
            ) && same
            &&& SATBBarrier::<S>::weak_reference_loaded(pre, object, post)
                && pre.actor.weak_barrier_on() ==> S::weak_reference_loaded(slow, object, then)
                && same
            &&& SATBBarrier::<S>::weak_reference_loaded(pre, object, post)
                && !pre.actor.weak_barrier_on() ==> post == pre
            &&& !SATBBarrier::<S>::has_post_barriers()
        }),
{
}

}

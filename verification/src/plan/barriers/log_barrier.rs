//! The write barrier that logs an object and its children before the object is first modified.

use vstd::prelude::*;

use crate::plan::barriers::log_attempt::{is_bit, is_unlogged, try_log, with_logged};
use crate::plan::barriers::log_buffer::{
    child_entries, law_combining_keeps_groups, lemma_group_entries, logged_groups, well_grouped,
    Group, LogBuffer, EDGES_WORK_BUFFER_SIZE,
};
use crate::plan::barriers::Barrier;
use crate::plan::{moment, Moment, MMTK};
use crate::util::address::{Address, ObjectReference};
use crate::util::metadata::{law_metadata_write, lemma_low_mask, MetadataSpec};
use crate::vm::{referents, MemorySlice, Slot, VMBinding, VMMutatorThread};

verus! {

/// Slow-path semantics for [`LogBufferBarrier`].
///
/// The barrier owns the mutator-local [`LogBuffer`]. When that local buffer fills, or when the
/// mutator is flushed, the encoded entries are passed to the semantics implementation. A typical
/// implementation will combine them into a plan-owned global buffer or turn them into GC work
/// packets.
pub trait LogBufferBarrierSemantics: Sized {
    /// The runtime.
    type VM: VMBinding;

    /// The state of the plan that the slow path reaches.
    type Plan;

    /// Where the unlog bit of an object is.
    spec fn unlog_bit() -> MetadataSpec;

    /// What `flush` does.
    spec fn flushed(
        pre: Moment<Self, Self::Plan>,
        entries: Seq<Address>,
        post: Moment<Self, Self::Plan>,
    ) -> bool;

    /// What `memory_region_copy_slow` does.
    spec fn region_copied(
        pre: Moment<Self, Self::Plan>,
        src: MemorySlice,
        dst: MemorySlice,
        post: Moment<Self, Self::Plan>,
    ) -> bool;

    /// Where the unlog bit of an object is.
    fn unlog_bit_spec() -> (spec: MetadataSpec)
        ensures
            spec == Self::unlog_bit(),
            is_bit(spec),
    ;

    /// Flush a drained mutator-local log buffer.
    fn flush(&mut self, mmtk: &mut MMTK<Self::VM, Self::Plan>, entries: Vec<Address>)
        ensures
            Self::flushed(
                moment(*old(self), *old(mmtk)),
                entries@,
                moment(*final(self), *final(mmtk)),
            ),
    ;

    /// Slow-path call for memory slice copy operations.
    fn memory_region_copy_slow(
        &mut self,
        mmtk: &mut MMTK<Self::VM, Self::Plan>,
        src: MemorySlice,
        dst: MemorySlice,
    )
        ensures
            Self::region_copied(
                moment(*old(self), *old(mmtk)),
                src,
                dst,
                moment(*final(self), *final(mmtk)),
            ),
    ;
}

/// A write barrier that logs an object followed by the object's children before modification.
pub struct LogBufferBarrier<S: LogBufferBarrierSemantics> {
    semantics: S,
    tls: VMMutatorThread,
    log_buffer: LogBuffer,
}

impl<S: LogBufferBarrierSemantics> LogBufferBarrier<S> {
    /// The slow path.
    pub closed spec fn slow_path(self) -> S {
        self.semantics
    }

    /// The mutator thread that the barrier belongs to.
    pub closed spec fn thread(self) -> VMMutatorThread {
        self.tls
    }

    /// The entries in the mutator-local buffer.
    pub closed spec fn entries(self) -> Seq<Address> {
        self.log_buffer@
    }

    /// The slow path in place of the barrier.
    pub open spec fn slow_moment(at: Moment<Self, S::Plan>) -> Moment<S, S::Plan> {
        Moment { actor: at.actor.slow_path(), memory: at.memory, plan: at.plan }
    }

    /// The local buffer held `entries`, which were handed to the slow path unless there were none,
    /// and is now empty.
    pub open spec fn drained(
        pre: Moment<Self, S::Plan>,
        entries: Seq<Address>,
        post: Moment<Self, S::Plan>,
    ) -> bool {
        &&& post.actor.entries() == Seq::<Address>::empty()
        &&& post.actor.thread() == pre.actor.thread()
        &&& if entries.len() == 0 {
            Self::slow_moment(post) == Self::slow_moment(pre)
        } else {
            S::flushed(Self::slow_moment(pre), entries, Self::slow_moment(post))
        }
    }

    /// `object` and its present children were added to the local buffer, which was drained if that
    /// made it full.
    pub open spec fn recorded(
        pre: Moment<Self, S::Plan>,
        object: ObjectReference,
        post: Moment<Self, S::Plan>,
    ) -> bool {
        let group = Group { object, children: pre.memory.children(object) };
        let entries = pre.actor.entries() + group.entries();
        &&& group.wf()
        &&& if entries.len() < EDGES_WORK_BUFFER_SIZE {
            &&& post.actor.entries() == entries
            &&& post.actor.thread() == pre.actor.thread()
            &&& Self::slow_moment(post) == Self::slow_moment(pre)
        } else {
            Self::drained(pre, entries, post)
        }
    }

    /// If `object` was unlogged, its unlog bit was cleared and it was recorded. Otherwise nothing
    /// happened.
    pub open spec fn logged(
        pre: Moment<Self, S::Plan>,
        object: ObjectReference,
        post: Moment<Self, S::Plan>,
    ) -> bool {
        if is_unlogged(pre.memory, S::unlog_bit(), object) {
            let memory = with_logged(pre.memory, S::unlog_bit(), object);
            Self::recorded(Moment { memory, ..pre }, object, post)
        } else {
            post == pre
        }
    }

    /// Create a new log-buffer barrier with a mutator-local buffer.
    pub fn new(semantics: S, tls: VMMutatorThread) -> (barrier: Self)
        ensures
            barrier.slow_path() == semantics,
            barrier.thread() == tls,
            barrier.entries() == Seq::<Address>::empty(),
    {
        LogBufferBarrier { semantics, tls, log_buffer: LogBuffer::new() }
    }

    /// Return the mutator-local buffer. This is mostly useful for tests and diagnostics.
    pub fn log_buffer(&self) -> (buffer: &LogBuffer)
        ensures
            buffer@ == self.entries(),
    {
        &self.log_buffer
    }

    /// Whether the object has not been logged.
    fn object_is_unlogged(&self, mmtk: &MMTK<S::VM, S::Plan>, object: ObjectReference) -> (unlogged:
        bool)
        ensures
            unlogged == is_unlogged(mmtk.vm@, S::unlog_bit(), object),
    {
        let bit: MetadataSpec = S::unlog_bit_spec();
        proof {
            lemma_low_mask(bit.num_of_bits);
        }
        bit.load::<S::VM, u8>(&mmtk.vm, object) != 0
    }

    /// Attempt to atomically log an object.
    /// Returns true if the object is not logged previously.
    fn log_object(&self, mmtk: &mut MMTK<S::VM, S::Plan>, object: ObjectReference) -> (logged: bool)
        ensures
            logged == is_unlogged(old(mmtk).vm@, S::unlog_bit(), object),
            final(mmtk).plan == old(mmtk).plan,
            final(mmtk).vm@ == if logged {
                with_logged(old(mmtk).vm@, S::unlog_bit(), object)
            } else {
                old(mmtk).vm@
            },
            S::unlog_bit().sequentially_read(old(mmtk).vm, object),
            logged ==> S::unlog_bit().sequentially_written(
                old(mmtk).vm,
                object,
                final(mmtk).vm,
            ),
            !logged ==> final(mmtk).vm == old(mmtk).vm,
    {
        try_log(&mut mmtk.vm, S::unlog_bit_spec(), object)
    }

    /// Adds an object and its children to the local buffer.
    fn log_object_and_children(&mut self, mmtk: &mut MMTK<S::VM, S::Plan>, object: ObjectReference)
        ensures
            Self::recorded(moment(*old(self), *old(mmtk)), object, moment(*final(self), *final(mmtk))),
    {
        proof {
            use_type_invariant(&object);
        }
        self.log_buffer.push_object(object);
        let slots: Vec<Slot> = mmtk.vm.iterate_fields(object, self.tls.0);
        let ghost start = self.log_buffer@;
        let mut i: usize = 0;
        while i < slots.len()
            invariant
                i <= slots@.len(),
                *mmtk == *old(mmtk),
                forall|j: int|
                    0 <= j < referents(mmtk.vm@.slots, slots@.take(i as int)).len() ==> (
                    #[trigger] referents(mmtk.vm@.slots, slots@.take(i as int))[j]).wf(),
                self.semantics == old(self).semantics,
                self.tls == old(self).tls,
                self.log_buffer@ == start + child_entries(
                    referents(mmtk.vm@.slots, slots@.take(i as int)),
                ),
            decreases slots@.len() - i,
        {
            assert(slots@.take(i + 1).drop_last() =~= slots@.take(i as int));
            if let Some(child) = mmtk.vm.load_slot(slots[i]) {
                self.log_buffer.push_child(child);
            }
            i = i + 1;
            assert(self.log_buffer@ =~= start + child_entries(
                referents(mmtk.vm@.slots, slots@.take(i as int)),
            ));
        }
        proof {
            let group = Group { object, children: mmtk.vm@.children(object) };
            assert(slots@.take(i as int) =~= slots@);
            assert(self.log_buffer@ =~= old(self).log_buffer@ + group.entries());
        }
        self.flush_if_full(mmtk);
    }

    /// Drains the local buffer if it is full.
    fn flush_if_full(&mut self, mmtk: &mut MMTK<S::VM, S::Plan>)
        ensures
            old(self).entries().len() < EDGES_WORK_BUFFER_SIZE ==> *final(self) == *old(self)
                && moment(*final(self), *final(mmtk)) == moment(*old(self), *old(mmtk)),
            old(self).entries().len() >= EDGES_WORK_BUFFER_SIZE ==> Self::drained(
                moment(*old(self), *old(mmtk)),
                old(self).entries(),
                moment(*final(self), *final(mmtk)),
            ),
    {
        if self.log_buffer.is_full() {
            self.drain(mmtk);
        }
    }

    /// Hands the entries of the local buffer to the slow path, unless there are none.
    fn drain(&mut self, mmtk: &mut MMTK<S::VM, S::Plan>)
        ensures
            Self::drained(
                moment(*old(self), *old(mmtk)),
                old(self).entries(),
                moment(*final(self), *final(mmtk)),
            ),
    {
        let entries: Vec<Address> = self.log_buffer.take();
        if !entries.is_empty() {
            self.semantics.flush(mmtk, entries);
        }
    }

    /// Logs an object if no thread has logged it before.
    fn log_once(&mut self, mmtk: &mut MMTK<S::VM, S::Plan>, object: ObjectReference)
        ensures
            Self::logged(
                moment(*old(self), *old(mmtk)),
                object,
                moment(*final(self), *final(mmtk)),
            ),
    {
        if self.log_object(mmtk, object) {
            self.log_object_and_children(mmtk, object);
        }
    }
}

impl<S: LogBufferBarrierSemantics> Barrier<S::VM> for LogBufferBarrier<S> {
    type Plan = S::Plan;

    open spec fn has_post_barriers() -> bool {
        true
    }

    open spec fn flushed(
        pre: Moment<Self, S::Plan>,
        post: Moment<Self, S::Plan>,
    ) -> bool {
        Self::drained(pre, pre.actor.entries(), post)
    }

    open spec fn weak_reference_loaded(
        pre: Moment<Self, S::Plan>,
        referent: ObjectReference,
        post: Moment<Self, S::Plan>,
    ) -> bool {
        post == pre
    }

    open spec fn write_prepared(
        pre: Moment<Self, S::Plan>,
        src: ObjectReference,
        slot: Slot,
        target: Option<ObjectReference>,
        post: Moment<Self, S::Plan>,
    ) -> bool {
        Self::logged(pre, src, post)
    }

    open spec fn write_completed(
        pre: Moment<Self, S::Plan>,
        src: ObjectReference,
        slot: Slot,
        target: Option<ObjectReference>,
        post: Moment<Self, S::Plan>,
    ) -> bool {
        post == pre
    }

    open spec fn write_handled(
        pre: Moment<Self, S::Plan>,
        src: ObjectReference,
        slot: Slot,
        target: Option<ObjectReference>,
        post: Moment<Self, S::Plan>,
    ) -> bool {
        Self::logged(pre, src, post)
    }

    open spec fn copy_prepared(
        pre: Moment<Self, S::Plan>,
        src: MemorySlice,
        dst: MemorySlice,
        post: Moment<Self, S::Plan>,
    ) -> bool {
        &&& post.actor.entries() == pre.actor.entries()
        &&& post.actor.thread() == pre.actor.thread()
        &&& S::region_copied(Self::slow_moment(pre), src, dst, Self::slow_moment(post))
    }

    open spec fn copy_completed(
        pre: Moment<Self, S::Plan>,
        src: MemorySlice,
        dst: MemorySlice,
        post: Moment<Self, S::Plan>,
    ) -> bool {
        post == pre
    }

    open spec fn write_expected(
        pre: Moment<Self, S::Plan>,
        object: ObjectReference,
        post: Moment<Self, S::Plan>,
    ) -> bool {
        Self::logged(pre, object, post)
    }

    fn flush(&mut self, mmtk: &mut MMTK<S::VM, S::Plan>) {
        self.drain(mmtk);
    }

    fn load_weak_reference(&mut self, mmtk: &mut MMTK<S::VM, S::Plan>, referent: ObjectReference) {
    }

    fn object_reference_write_pre(
        &mut self,
        mmtk: &mut MMTK<S::VM, S::Plan>,
        src: ObjectReference,
        slot: Slot,
        target: Option<ObjectReference>,
    ) {
        if self.object_is_unlogged(mmtk, src) {
            self.log_once(mmtk, src);
        }
    }

    fn object_reference_write_post(
        &mut self,
        mmtk: &mut MMTK<S::VM, S::Plan>,
        src: ObjectReference,
        slot: Slot,
        target: Option<ObjectReference>,
    ) {
    }

    fn object_reference_write_slow(
        &mut self,
        mmtk: &mut MMTK<S::VM, S::Plan>,
        src: ObjectReference,
        slot: Slot,
        target: Option<ObjectReference>,
    ) {
        self.log_once(mmtk, src);
    }

    fn memory_region_copy_pre(
        &mut self,
        mmtk: &mut MMTK<S::VM, S::Plan>,
        src: MemorySlice,
        dst: MemorySlice,
    ) {
        self.semantics.memory_region_copy_slow(mmtk, src, dst);
    }

    fn memory_region_copy_post(
        &mut self,
        mmtk: &mut MMTK<S::VM, S::Plan>,
        src: MemorySlice,
        dst: MemorySlice,
    ) {
    }

    fn object_probable_write(&mut self, mmtk: &mut MMTK<S::VM, S::Plan>, obj: ObjectReference) {
        if self.object_is_unlogged(mmtk, obj) {
            self.log_once(mmtk, obj);
        }
    }
}

/// What a barrier records stays made of whole groups: a recorded object is added to the groups in
/// the local buffer, with its children, and never splits or extends another group. So the entries
/// that a full buffer hands to the slow path are whole groups too.
pub proof fn law_recording_adds_one_group(entries: Seq<Address>, group: Group)
    requires
        well_grouped(entries),
        group.wf(),
    ensures
        well_grouped(entries + group.entries()),
        logged_groups(entries + group.entries()) == logged_groups(entries).push(group),
{
    lemma_group_entries(group);
    law_combining_keeps_groups(entries, group.entries());
    assert(logged_groups(entries) + seq![group] =~= logged_groups(entries).push(group));
}

/// The local buffer never stays full: whatever call is made of the barrier, the
/// buffer is below the work-packet capacity after it if it was before.
pub proof fn law_the_local_buffer_stays_below_capacity<S: LogBufferBarrierSemantics>(
    pre: Moment<LogBufferBarrier<S>, S::Plan>,
    object: ObjectReference,
    slot: Slot,
    target: Option<ObjectReference>,
    src: MemorySlice,
    dst: MemorySlice,
    post: Moment<LogBufferBarrier<S>, S::Plan>,
)
    requires
        pre.actor.entries().len() < EDGES_WORK_BUFFER_SIZE,
        ({
            ||| LogBufferBarrier::<S>::flushed(pre, post)
            ||| LogBufferBarrier::<S>::weak_reference_loaded(pre, object, post)
            ||| LogBufferBarrier::<S>::write_prepared(pre, object, slot, target, post)
            ||| LogBufferBarrier::<S>::write_completed(pre, object, slot, target, post)
            ||| LogBufferBarrier::<S>::write_handled(pre, object, slot, target, post)
            ||| LogBufferBarrier::<S>::copy_prepared(pre, src, dst, post)
            ||| LogBufferBarrier::<S>::copy_completed(pre, src, dst, post)
            ||| LogBufferBarrier::<S>::write_expected(pre, object, post)
        }),
    ensures
        post.actor.entries().len() < EDGES_WORK_BUFFER_SIZE,
{
}

/// The first write to an unlogged object logs the children that the object had before the write,
/// and clears its unlog bit, which changes neither slots nor fields. So it is whether the runtime
/// calls the barrier before the write, calls its slow path, or announces that it will write.
pub proof fn law_first_write_logs_former_children<S: LogBufferBarrierSemantics>(
    pre: Moment<LogBufferBarrier<S>, S::Plan>,
    src: ObjectReference,
    slot: Slot,
    target: Option<ObjectReference>,
    post: Moment<LogBufferBarrier<S>, S::Plan>,
)
    requires
        is_unlogged(pre.memory, S::unlog_bit(), src),
        ({
            ||| LogBufferBarrier::<S>::write_prepared(pre, src, slot, target, post)
            ||| LogBufferBarrier::<S>::write_handled(pre, src, slot, target, post)
            ||| LogBufferBarrier::<S>::write_expected(pre, src, post)
        }),
    ensures
        ({
            let group = Group { object: src, children: pre.memory.children(src) };
            let entries = pre.actor.entries() + group.entries();
            let memory = with_logged(pre.memory, S::unlog_bit(), src);
            &&& group.wf()
            &&& memory.slots == pre.memory.slots
            &&& memory.fields == pre.memory.fields
            &&& entries.len() < EDGES_WORK_BUFFER_SIZE ==> post.actor.entries() == entries
                && post.memory == memory && post.plan == pre.plan
            &&& entries.len() >= EDGES_WORK_BUFFER_SIZE ==> LogBufferBarrier::<S>::drained(
                Moment { memory, ..pre },
                entries,
                post,
            )
        }),
{
    let memory = with_logged(pre.memory, S::unlog_bit(), src);
    assert(memory.children(src) == pre.memory.children(src));
    assert(LogBufferBarrier::<S>::slow_moment(post).memory == post.memory);
    assert(LogBufferBarrier::<S>::slow_moment(post).plan == post.plan);
}

/// Once an object has been logged, logging it again does nothing, to any barrier and by any of its
/// entry points: until its unlog bit is set again, it is recorded once.
pub proof fn law_logged_once<S: LogBufferBarrierSemantics>(
    pre: Moment<LogBufferBarrier<S>, S::Plan>,
    object: ObjectReference,
    slot: Slot,
    target: Option<ObjectReference>,
    later: Moment<LogBufferBarrier<S>, S::Plan>,
    post: Moment<LogBufferBarrier<S>, S::Plan>,
)
    requires
        is_bit(S::unlog_bit()),
        later.memory == with_logged(pre.memory, S::unlog_bit(), object),
        ({
            ||| LogBufferBarrier::<S>::write_prepared(later, object, slot, target, post)
            ||| LogBufferBarrier::<S>::write_handled(later, object, slot, target, post)
            ||| LogBufferBarrier::<S>::write_expected(later, object, post)
        }),
    ensures
        post == later,
{
    let bit = S::unlog_bit();
    lemma_low_mask(bit.num_of_bits);
    law_metadata_write(pre.memory, bit, object, 0, bit, object);
}

/// Before an object whose unlog bit is set is modified for the first time, every entry point of the
/// barrier clears the bit and adds to the local buffer the address of the object with its lowest
/// bit set, followed by the addresses of the objects that it refers to at that moment, in scanning
/// order. If that fills the buffer, all of it is handed to the slow path at once, and nothing is
/// handed over before. For any other object nothing happens at all.
pub proof fn law_every_entry_point_logs<S: LogBufferBarrierSemantics>(
    pre: Moment<LogBufferBarrier<S>, S::Plan>,
    object: ObjectReference,
    slot: Slot,
    target: Option<ObjectReference>,
    post: Moment<LogBufferBarrier<S>, S::Plan>,
)
    requires
        ({
            ||| LogBufferBarrier::<S>::write_prepared(pre, object, slot, target, post)
            ||| LogBufferBarrier::<S>::write_handled(pre, object, slot, target, post)
            ||| LogBufferBarrier::<S>::write_expected(pre, object, post)
        }),
    ensures
        pre.memory.metadata(S::unlog_bit(), object) == 0 ==> post == pre,
        pre.memory.metadata(S::unlog_bit(), object) != 0 ==> ({
            let children = pre.memory.children(object);
            let entries = pre.actor.entries() + seq![Address(object.address().0 | 1)] + Seq::new(
                children.len(),
                |i: int| children[i].address(),
            );
            let memory = pre.memory.with_metadata(S::unlog_bit(), object, 0);
            &&& post.actor.thread() == pre.actor.thread()
            &&& entries.len() < EDGES_WORK_BUFFER_SIZE ==> {
                &&& post.actor.entries() == entries
                &&& post.actor.slow_path() == pre.actor.slow_path()
                &&& post.memory == memory
                &&& post.plan == pre.plan
            }
            &&& entries.len() >= EDGES_WORK_BUFFER_SIZE ==> {
                &&& post.actor.entries() == Seq::<Address>::empty()
                &&& S::flushed(
                    Moment { actor: pre.actor.slow_path(), memory, plan: pre.plan },
                    entries,
                    Moment { actor: post.actor.slow_path(), memory: post.memory, plan: post.plan },
                )
            }
        }),
{
    if pre.memory.metadata(S::unlog_bit(), object) != 0 {
        let children = pre.memory.children(object);
        let group = Group { object, children };
        let memory = pre.memory.with_metadata(S::unlog_bit(), object, 0);
        let entries = pre.actor.entries() + seq![Address(object.address().0 | 1)] + Seq::new(
            children.len(),
            |i: int| children[i].address(),
        );
        law_first_write_logs_former_children::<S>(pre, object, slot, target, post);
        assert(memory.children(object) == children);
        assert(entries =~= pre.actor.entries() + group.entries());
        let then = LogBufferBarrier::<S>::slow_moment(post);
        assert(then.actor == post.actor.slow_path());
        assert(then.memory == post.memory && then.plan == post.plan);
    }
}

/// A flush hands all that the local buffer holds to the slow path, if it holds anything, and leaves
/// the buffer empty. Copies are handed to the slow path before they happen. Loads from weak
/// references do nothing, and after writes and copies nothing is left to do.
pub proof fn law_what_a_log_barrier_hands_on<S: LogBufferBarrierSemantics>(
    pre: Moment<LogBufferBarrier<S>, S::Plan>,
    object: ObjectReference,
    slot: Slot,
    target: Option<ObjectReference>,
    src: MemorySlice,
    dst: MemorySlice,
    post: Moment<LogBufferBarrier<S>, S::Plan>,
)
    ensures
        ({
            let slow = Moment {
                actor: pre.actor.slow_path(),
                memory: pre.memory,
                plan: pre.plan,
            };
            let then = Moment {
                actor: post.actor.slow_path(),
                memory: post.memory,
                plan: post.plan,
            };
            let held = pre.actor.entries();
            &&& LogBufferBarrier::<S>::flushed(pre, post) ==> {
                &&& post.actor.entries() == Seq::<Address>::empty()
                &&& post.actor.thread() == pre.actor.thread()
                &&& held.len() == 0 ==> then == slow
                &&& held.len() > 0 ==> S::flushed(slow, held, then)
            }
            &&& LogBufferBarrier::<S>::copy_prepared(pre, src, dst, post) ==> {
                &&& post.actor.entries() == held
                &&& post.actor.thread() == pre.actor.thread()
                &&& S::region_copied(slow, src, dst, then)
            }
            &&& LogBufferBarrier::<S>::weak_reference_loaded(pre, object, post) ==> post == pre
            &&& LogBufferBarrier::<S>::write_completed(pre, object, slot, target, post) ==> post
                == pre
            &&& LogBufferBarrier::<S>::copy_completed(pre, src, dst, post) ==> post == pre
            &&& LogBufferBarrier::<S>::has_post_barriers()
        }),
{
}

}

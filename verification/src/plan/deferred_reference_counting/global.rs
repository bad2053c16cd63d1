//! The state of the deferred reference counting plan, which all its mutators share.

use vstd::prelude::*;

use crate::plan::barriers::log_buffer::GlobalLogBuffer;
use crate::plan::barriers::BarrierSelector;
use crate::plan::deferred_reference_counting::gc_work::{
    common_work_in, CommonWork, DRCGCWorkContext, FinishDeferredReferenceCounting, GCWorkContext,
    ProcessDeferredReferenceCounts, ProcessEdgesWork,
};
use crate::plan::deferred_reference_counting::mutator::{allocator_mapping, drc_mapping};
use crate::policy::{law_collection_keeps_the_live, MarkSweepSpace, SpaceArgs, SpaceView};
use crate::util::address::{Address, ObjectReference};
use crate::util::allocators::{AllocationSemantics, AllocatorMapping, AllocatorSelector};
use crate::vm::{VMBinding, VMWorkerThread};

verus! {

/// How the collector was configured.
#[derive(Clone, Copy, PartialEq, Eq, Structural, Debug)]
pub struct PlanFeatures {
    /// Objects are allocated with the `malloc` of the system.
    pub malloc_mark_sweep: bool,
    /// Dead objects are swept before the mutators resume.
    pub eager_sweeping: bool,
}

/// What a plan demands of the runtime and of the rest of the collector.
#[derive(Clone, Copy, PartialEq, Eq, Structural, Debug)]
pub struct PlanConstraints {
    /// Objects may move.
    pub moves_objects: bool,
    /// The size up to which objects go to the default space.
    pub max_non_los_default_alloc_bytes: usize,
    /// Objects have an unlog bit.
    pub needs_log_bit: bool,
    /// The barrier that mutators run.
    pub barrier: BarrierSelector,
    /// An edge may be traced more than once.
    pub may_trace_duplicate_edges: bool,
    /// Mutators are prepared before a collection.
    pub needs_prepare_mutator: bool,
}

/// The constraints of the plan, where `defaults` are those of plans in general and
/// `max_object_size` is the size of the greatest object that the mark-sweep space takes.
pub open spec fn constraints_for(
    features: PlanFeatures,
    max_object_size: usize,
    defaults: PlanConstraints,
) -> PlanConstraints {
    PlanConstraints {
        moves_objects: false,
        max_non_los_default_alloc_bytes: max_object_size,
        needs_log_bit: true,
        barrier: BarrierSelector::LogBufferBarrier,
        may_trace_duplicate_edges: true,
        needs_prepare_mutator: (!features.malloc_mark_sweep && !features.eager_sweeping)
            || defaults.needs_prepare_mutator,
    }
}

/// The plan constraints for the deferred reference counting plan.
pub fn drc_constraints(
    features: PlanFeatures,
    max_object_size: usize,
    defaults: PlanConstraints,
) -> (constraints: PlanConstraints)
    ensures
        constraints == constraints_for(features, max_object_size, defaults),
{
    PlanConstraints {
        moves_objects: false,
        max_non_los_default_alloc_bytes: max_object_size,
        needs_log_bit: true,
        barrier: BarrierSelector::LogBufferBarrier,
        may_trace_duplicate_edges: true,
        needs_prepare_mutator: (!features.malloc_mark_sweep && !features.eager_sweeping)
            || defaults.needs_prepare_mutator,
    }
}

/// What a plan is made from.
pub struct CreateGeneralPlanArgs {
    /// How the collector was configured.
    pub features: PlanFeatures,
    /// The size of the greatest object that the mark-sweep space takes.
    pub max_object_size: usize,
    /// The constraints of plans in general.
    pub default_constraints: PlanConstraints,
    /// The allocators for the spaces that all plans have.
    pub common_mapping: AllocatorMapping,
    /// The spaces that all plans have.
    pub common_spaces: Vec<SpaceArgs>,
}

/// The spaces that all plans have.
pub struct CommonPlan {
    spaces: Vec<MarkSweepSpace>,
}

/// What the given spaces hold.
pub open spec fn space_views(spaces: Seq<MarkSweepSpace>) -> Seq<SpaceView> {
    spaces.map_values(|space: MarkSweepSpace| space@)
}

/// The number of pages that are reserved for the given spaces.
pub open spec fn total_pages(spaces: Seq<SpaceView>) -> nat
    decreases spaces.len(),
{
    if spaces.len() == 0 {
        0
    } else {
        total_pages(spaces.drop_last()) + spaces.last().reserved_pages
    }
}

/// The empty space that is set up by `args`.
pub open spec fn empty_space(args: SpaceArgs) -> SpaceView {
    SpaceView { args, objects: Seq::empty(), marked: Set::empty(), reserved_pages: 0 }
}

impl View for CommonPlan {
    type V = Seq<SpaceView>;

    closed spec fn view(&self) -> Seq<SpaceView> {
        space_views(self.spaces@)
    }
}

impl CommonPlan {
    /// Empty spaces that are set up as `args` says.
    pub fn new(args: &Vec<SpaceArgs>) -> (common: Self)
        ensures
            common@ == args@.map_values(|a: SpaceArgs| empty_space(a)),
    {
        let mut spaces: Vec<MarkSweepSpace> = Vec::new();
        let mut i: usize = 0;
        while i < args.len()
            invariant
                i <= args@.len(),
                spaces@.len() == i,
                forall|j: int| 0 <= j < i ==> (#[trigger] spaces@[j])@ == empty_space(args@[j]),
            decreases args@.len() - i,
        {
            spaces.push(MarkSweepSpace::new(args[i]));
            i = i + 1;
        }
        assert(space_views(spaces@) =~= args@.map_values(|a: SpaceArgs| empty_space(a)));
        CommonPlan { spaces }
    }

    /// The number of spaces.
    pub fn len(&self) -> (n: usize)
        ensures
            n == self@.len(),
    {
        self.spaces.len()
    }

    /// The space with the given number.
    pub fn space(&self, i: usize) -> (space: &MarkSweepSpace)
        requires
            i < self@.len(),
        ensures
            space@ == self@[i as int],
    {
        &self.spaces[i]
    }

    /// The space with the given number, to be changed.
    pub fn space_mut(&mut self, i: usize) -> (space: &mut MarkSweepSpace)
        requires
            i < old(self)@.len(),
        ensures
            space@ == old(self)@[i as int],
            final(self)@ == old(self)@.update(i as int, final(space)@),
    {
        &mut self.spaces[i]
    }

    /// Gets the spaces ready for a collection.
    pub fn prepare(&mut self, tls: VMWorkerThread, full_heap: bool)
        ensures
            final(self)@ == old(self)@.map_values(|s: SpaceView| s.prepared(full_heap)),
    {
        let mut i: usize = 0;
        while i < self.spaces.len()
            invariant
                i <= self@.len(),
                self@.len() == old(self)@.len(),
                forall|j: int| 0 <= j < i ==> #[trigger] self@[j] == old(self)@[j].prepared(
                    full_heap,
                ),
                forall|j: int| i <= j < self@.len() ==> #[trigger] self@[j] == old(self)@[j],
            decreases self@.len() - i,
        {
            self.space_mut(i).prepare(full_heap);
            i = i + 1;
        }
        assert(self@ =~= old(self)@.map_values(|s: SpaceView| s.prepared(full_heap)));
    }

    /// Reclaims the objects that were not marked.
    pub fn release(&mut self, tls: VMWorkerThread, full_heap: bool)
        ensures
            final(self)@ == old(self)@.map_values(|s: SpaceView| s.released()),
    {
        let mut i: usize = 0;
        while i < self.spaces.len()
            invariant
                i <= self@.len(),
                self@.len() == old(self)@.len(),
                forall|j: int| 0 <= j < i ==> #[trigger] self@[j] == old(self)@[j].released(),
                forall|j: int| i <= j < self@.len() ==> #[trigger] self@[j] == old(self)@[j],
            decreases self@.len() - i,
        {
            self.space_mut(i).release();
            i = i + 1;
        }
        assert(self@ =~= old(self)@.map_values(|s: SpaceView| s.released()));
    }

    /// The number of pages that are reserved for the spaces.
    pub fn get_used_pages(&self) -> (pages: usize)
        requires
            total_pages(self@) <= usize::MAX,
        ensures
            pages == total_pages(self@),
    {
        let mut pages: usize = 0;
        let mut i: usize = 0;
        while i < self.spaces.len()
            invariant
                i <= self@.len(),
                total_pages(self@) <= usize::MAX,
                pages == total_pages(self@.take(i as int)),
            decreases self@.len() - i,
        {
            proof {
                assert(self@.take(i + 1).drop_last() =~= self@.take(i as int));
                lemma_total_pages_grow(self@, i + 1);
            }
            pages = pages + self.spaces[i].reserved_pages();
            i = i + 1;
        }
        assert(self@.take(i as int) =~= self@);
        pages
    }
}

proof fn lemma_total_pages_grow(spaces: Seq<SpaceView>, n: int)
    requires
        0 <= n <= spaces.len(),
    ensures
        total_pages(spaces.take(n)) <= total_pages(spaces),
    decreases spaces.len(),
{
    if n == spaces.len() {
        assert(spaces.take(n) =~= spaces);
    } else {
        assert(spaces.drop_last().take(n) =~= spaces.take(n));
        lemma_total_pages_grow(spaces.drop_last(), n);
    }
}

/// A piece of work that is particular to the plan.
#[derive(Clone, Copy, PartialEq, Eq, Structural, Debug)]
pub enum DRCWork {
    /// Bring the counts up to date.
    ProcessCounts(ProcessDeferredReferenceCounts),
    /// Let the objects without a count die.
    Finish(FinishDeferredReferenceCounting),
}

/// The work of one stage of a collection.
pub struct WorkBucket {
    /// The work in the bucket, in the order in which it was added.
    pub packets: Vec<DRCWork>,
    /// The work that is done when the bucket has run empty.
    pub sentinel: Option<DRCWork>,
}

impl WorkBucket {
    /// An empty bucket.
    pub fn new() -> (bucket: Self)
        ensures
            bucket.packets@ == Seq::<DRCWork>::empty(),
            bucket.sentinel is None,
    {
        WorkBucket { packets: Vec::new(), sentinel: None }
    }

    /// Adds work to the bucket.
    pub fn add(&mut self, work: DRCWork)
        ensures
            final(self).packets@ == old(self).packets@.push(work),
            final(self).sentinel == old(self).sentinel,
    {
        self.packets.push(work);
    }

    /// Sets the work that is done when the bucket has run empty.
    pub fn set_sentinel(&mut self, work: DRCWork)
        ensures
            final(self).packets == old(self).packets,
            final(self).sentinel == Some(work),
    {
        self.sentinel = Some(work);
    }
}

/// Something to be done to the spaces of the plan when a collection has ended.
#[derive(Clone, Copy, PartialEq, Eq, Structural, Debug)]
pub enum EndOfGCStep {
    /// End the collection in the mark-sweep space.
    MarkSweep,
    /// End the collection in the spaces that all plans have.
    Common(VMWorkerThread),
}

/// The work of a collection.
pub struct GCWorkScheduler {
    /// The work that collections of all plans have in common, once it is scheduled.
    pub common_work: Option<CommonWork>,
    /// The work of the stage in which the plan finds out what is live.
    pub closure: WorkBucket,
}

impl GCWorkScheduler {
    /// Schedules the work that collections of all plans have in common, in the given context.
    pub fn schedule_common_work<C: GCWorkContext>(&mut self)
        ensures
            final(self).common_work == Some(common_work_in::<C>()),
            final(self).closure == old(self).closure,
    {
        self.common_work = Some(
            CommonWork {
                default_edges: C::DefaultProcessEdges::edges_work(),
                pinning_edges: C::PinningProcessEdges::edges_work(),
            },
        );
    }
}

/// What the plan holds.
#[verifier::ext_equal]
pub struct DRCView {
    /// The mark-sweep space.
    pub ms: SpaceView,
    /// The spaces that all plans have.
    pub common: Seq<SpaceView>,
    /// The entries that mutators have handed in.
    pub log: Seq<Address>,
    /// The roots of the last collection.
    pub old_roots: Seq<ObjectReference>,
    /// The roots that this collection has found so far.
    pub new_roots: Seq<ObjectReference>,
}

/// The objects in the given spaces.
pub open spec fn objects_in(spaces: Seq<SpaceView>) -> Seq<ObjectReference>
    decreases spaces.len(),
{
    if spaces.len() == 0 {
        Seq::empty()
    } else {
        objects_in(spaces.drop_last()) + spaces.last().objects
    }
}

impl DRCView {
    /// All objects of the plan.
    pub open spec fn objects(self) -> Seq<ObjectReference> {
        self.ms.objects + objects_in(self.common)
    }

    /// The plan after the objects in `live` were marked, each in the space that holds it.
    pub open spec fn marking(self, live: Set<ObjectReference>) -> DRCView {
        DRCView {
            ms: self.ms.marking(live),
            common: self.common.map_values(|s: SpaceView| s.marking(live)),
            ..self
        }
    }

    /// The plan at the start of a collection.
    pub open spec fn prepared(self) -> DRCView {
        DRCView {
            ms: self.ms.prepared(true),
            common: self.common.map_values(|s: SpaceView| s.prepared(true)),
            new_roots: Seq::empty(),
            ..self
        }
    }

    /// The plan at the end of a collection.
    pub open spec fn released(self) -> DRCView {
        DRCView {
            ms: self.ms.released(),
            common: self.common.map_values(|s: SpaceView| s.released()),
            ..self
        }
    }
}

/// The deferred reference counting plan.
///
/// References from roots are counted at a collection, and taken back at the next one. References
/// from objects are counted when an object that mutators have modified is found in the log.
pub struct DeferredReferenceCounting {
    common: CommonPlan,
    ms: MarkSweepSpace,
    log_buffer: GlobalLogBuffer,
    old_roots: Vec<ObjectReference>,
    new_roots: Vec<ObjectReference>,
    constraints: PlanConstraints,
    allocator_mapping: AllocatorMapping,
}

impl View for DeferredReferenceCounting {
    type V = DRCView;

    closed spec fn view(&self) -> DRCView {
        DRCView {
            ms: self.ms@,
            common: self.common@,
            log: self.log_buffer@,
            old_roots: self.old_roots@,
            new_roots: self.new_roots@,
        }
    }
}

/// How the plan sets up its mark-sweep space.
pub open spec fn ms_args(args: SpaceArgs) -> bool {
    &&& args.name@ == "drc_ms"@
    &&& args.zeroed
    &&& !args.permission_exec
    &&& args.unlog_allocated_object
    &&& args.unlog_traced_object
    &&& args.discontiguous
}

impl DeferredReferenceCounting {
    /// The constraints that the plan was made with.
    pub closed spec fn plan_constraints(self) -> PlanConstraints {
        self.constraints
    }

    /// The allocators of the plan.
    pub closed spec fn mapping(self) -> spec_fn(AllocationSemantics) -> AllocatorSelector {
        self.allocator_mapping@
    }

    /// Ordinary objects come from a free list or from `malloc`.
    pub open spec fn wf(self) -> bool {
        let default = (self.mapping())(AllocationSemantics::Default);
        default is FreeList || default is Malloc
    }

    /// A plan with empty spaces, no roots and nothing logged.
    pub fn new(args: CreateGeneralPlanArgs) -> (plan: Self)
        ensures
            plan.wf(),
            plan@.ms == empty_space(plan@.ms.args),
            ms_args(plan@.ms.args),
            plan@.common == args.common_spaces@.map_values(|a: SpaceArgs| empty_space(a)),
            plan@.log == Seq::<Address>::empty(),
            plan@.old_roots == Seq::<ObjectReference>::empty(),
            plan@.new_roots == Seq::<ObjectReference>::empty(),
            plan.plan_constraints() == constraints_for(
                args.features,
                args.max_object_size,
                args.default_constraints,
            ),
            plan.mapping() == drc_mapping(args.common_mapping@, args.features),
            forall|semantics: AllocationSemantics|
                semantics != AllocationSemantics::Default ==> #[trigger] (plan.mapping())(semantics)
                    == (args.common_mapping@)(semantics),
            (plan.mapping())(AllocationSemantics::Default) == if args.features.malloc_mark_sweep {
                AllocatorSelector::Malloc(0)
            } else {
                AllocatorSelector::FreeList(0)
            },
    {
        let constraints: PlanConstraints = drc_constraints(
            args.features,
            args.max_object_size,
            args.default_constraints,
        );
        let space_args: SpaceArgs = SpaceArgs {
            name: "drc_ms",
            zeroed: true,
            permission_exec: false,
            unlog_allocated_object: true,
            unlog_traced_object: true,
            discontiguous: true,
        };
        DeferredReferenceCounting {
            ms: MarkSweepSpace::new(space_args),
            common: CommonPlan::new(&args.common_spaces),
            log_buffer: GlobalLogBuffer::new(),
            old_roots: Vec::new(),
            new_roots: Vec::new(),
            constraints,
            allocator_mapping: allocator_mapping(args.common_mapping, args.features),
        }
    }

    /// The mark-sweep space.
    pub fn ms_space(&self) -> (space: &MarkSweepSpace)
        ensures
            space@ == self@.ms,
    {
        &self.ms
    }

    /// The mark-sweep space, to be changed.
    pub fn ms_space_mut(&mut self) -> (space: &mut MarkSweepSpace)
        ensures
            space@ == old(self)@.ms,
            final(self)@ == (DRCView { ms: final(space)@, ..old(self)@ }),
            final(self).plan_constraints() == old(self).plan_constraints(),
            final(self).mapping() == old(self).mapping(),
    {
        &mut self.ms
    }

    /// The spaces that all plans have.
    pub fn common(&self) -> (common: &CommonPlan)
        ensures
            common@ == self@.common,
    {
        &self.common
    }

    /// The spaces that all plans have, to be changed.
    pub fn common_mut(&mut self) -> (common: &mut CommonPlan)
        ensures
            common@ == old(self)@.common,
            final(self)@ == (DRCView { common: final(common)@, ..old(self)@ }),
            final(self).plan_constraints() == old(self).plan_constraints(),
            final(self).mapping() == old(self).mapping(),
    {
        &mut self.common
    }

    /// The buffer that collects the logs of all mutators.
    pub fn log_buffer_mut(&mut self) -> (buffer: &mut GlobalLogBuffer)
        ensures
            buffer@ == old(self)@.log,
            final(self)@ == (DRCView { log: final(buffer)@, ..old(self)@ }),
            final(self).plan_constraints() == old(self).plan_constraints(),
            final(self).mapping() == old(self).mapping(),
    {
        &mut self.log_buffer
    }

    /// Adds a root that this collection has found.
    pub fn add_new_root(&mut self, root: ObjectReference)
        ensures
            final(self)@ == (DRCView {
                new_roots: old(self)@.new_roots.push(root),
                ..old(self)@
            }),
            final(self).plan_constraints() == old(self).plan_constraints(),
            final(self).mapping() == old(self).mapping(),
    {
        self.new_roots.push(root);
    }

    /// Takes out the roots of the last collection.
    pub fn take_old_roots(&mut self) -> (roots: Vec<ObjectReference>)
        ensures
            roots@ == old(self)@.old_roots,
            final(self)@ == (DRCView { old_roots: Seq::empty(), ..old(self)@ }),
            final(self).plan_constraints() == old(self).plan_constraints(),
            final(self).mapping() == old(self).mapping(),
    {
        let mut roots: Vec<ObjectReference> = Vec::new();
        std::mem::swap(&mut roots, &mut self.old_roots);
        roots
    }

    /// Makes the roots of this collection those of the last one.
    pub fn install_new_roots_as_old_roots(&mut self)
        ensures
            final(self)@ == (DRCView {
                old_roots: old(self)@.new_roots,
                new_roots: Seq::empty(),
                ..old(self)@
            }),
            final(self).plan_constraints() == old(self).plan_constraints(),
            final(self).mapping() == old(self).mapping(),
    {
        let mut roots: Vec<ObjectReference> = Vec::new();
        std::mem::swap(&mut roots, &mut self.new_roots);
        self.old_roots = roots;
    }

    /// Schedules a collection: the references in slots are counted, the counts are brought up to
    /// date, and when that is done the objects without a count die.
    pub fn schedule_collection<VM: VMBinding>(&self, scheduler: &mut GCWorkScheduler)
        ensures
            final(scheduler).common_work == Some(common_work_in::<DRCGCWorkContext<VM>>()),
            final(scheduler).closure.packets@ == old(scheduler).closure.packets@.push(
                DRCWork::ProcessCounts(ProcessDeferredReferenceCounts),
            ),
            final(scheduler).closure.sentinel == Some(
                DRCWork::Finish(FinishDeferredReferenceCounting),
            ),
    {
        scheduler.schedule_common_work::<DRCGCWorkContext<VM>>();
        scheduler.closure.add(DRCWork::ProcessCounts(ProcessDeferredReferenceCounts::new()));
        scheduler.closure.set_sentinel(DRCWork::Finish(FinishDeferredReferenceCounting::new()));
    }

    /// The allocators of the plan.
    pub fn get_allocator_mapping(&self) -> (mapping: &AllocatorMapping)
        ensures
            mapping@ == self.mapping(),
    {
        &self.allocator_mapping
    }

    /// Gets the plan ready for a collection.
    pub fn prepare(&mut self, tls: VMWorkerThread)
        ensures
            final(self)@ == old(self)@.prepared(),
            final(self).plan_constraints() == old(self).plan_constraints(),
            final(self).mapping() == old(self).mapping(),
    {
        self.new_roots.clear();
        self.common.prepare(tls, true);
        self.ms.prepare(true);
    }

    /// Reclaims the objects that were not found live.
    pub fn release(&mut self, tls: VMWorkerThread)
        ensures
            final(self)@ == old(self)@.released(),
            final(self).plan_constraints() == old(self).plan_constraints(),
            final(self).mapping() == old(self).mapping(),
    {
        self.ms.release();
        self.common.release(tls, true);
    }

    /// What is done to the spaces when a collection has ended, in order.
    pub fn end_of_gc(&self, tls: VMWorkerThread) -> (steps: Vec<EndOfGCStep>)
        ensures
            steps@ == seq![EndOfGCStep::MarkSweep, EndOfGCStep::Common(tls)],
    {
        let mut steps: Vec<EndOfGCStep> = Vec::new();
        steps.push(EndOfGCStep::MarkSweep);
        steps.push(EndOfGCStep::Common(tls));
        assert(steps@ =~= seq![EndOfGCStep::MarkSweep, EndOfGCStep::Common(tls)]);
        steps
    }

    /// Objects never move.
    pub fn current_gc_may_move_object(&self) -> (may_move: bool)
        ensures
            !may_move,
    {
        false
    }

    /// The number of pages that are in use.
    pub fn get_used_pages(&self) -> (pages: usize)
        requires
            total_pages(self@.common) + self@.ms.reserved_pages <= usize::MAX,
        ensures
            pages == total_pages(self@.common) + self@.ms.reserved_pages,
    {
        self.common.get_used_pages() + self.ms.reserved_pages()
    }

    /// The constraints of the plan.
    pub fn constraints(&self) -> (constraints: &PlanConstraints)
        ensures
            *constraints == self.plan_constraints(),
    {
        &self.constraints
    }
}

/// A collection that begins with `prepare` and ends with `release` leaves in every space the
/// objects that were found live in between, and no others.
pub proof fn law_release_keeps_the_live(
    plan: DRCView,
    live: Set<ObjectReference>,
    object: ObjectReference,
)
    ensures
        ({
            let after = plan.prepared().marking(live).released();
            &&& after.ms.holds(object) <==> plan.ms.holds(object) && live.contains(object)
            &&& after.common.len() == plan.common.len()
            &&& forall|i: int|
                0 <= i < plan.common.len() ==> ((#[trigger] after.common[i]).holds(object)
                    <==> plan.common[i].holds(object) && live.contains(object))
        }),
{
    let after = plan.prepared().marking(live).released();
    law_collection_keeps_the_live(plan.ms, live);
    assert(after.ms == plan.ms.prepared(true).marking(live).released());
    assert forall|i: int| 0 <= i < plan.common.len() implies ((#[trigger] after.common[i]).holds(
        object,
    ) <==> plan.common[i].holds(object) && live.contains(object)) by {
        law_collection_keeps_the_live(plan.common[i], live);
        assert(after.common[i] == plan.common[i].prepared(true).marking(live).released());
    }
}

/// The objects of a plan are those of its mark-sweep space and of every one of its common spaces.
pub proof fn law_the_objects_of_a_plan(plan: DRCView, object: ObjectReference)
    ensures
        plan.objects().contains(object) <==> plan.ms.objects.contains(object) || exists|i: int|
            0 <= i < plan.common.len() && (#[trigger] plan.common[i]).objects.contains(object),
{
    lemma_objects_of_spaces(plan.common, object);
    let all = plan.objects();
    let others = objects_in(plan.common);
    if all.contains(object) {
        let i = choose|i: int| 0 <= i < all.len() && all[i] == object;
        if i >= plan.ms.objects.len() {
            assert(others[i - plan.ms.objects.len()] == object);
        }
    }
    if plan.ms.objects.contains(object) {
        let i = choose|i: int| 0 <= i < plan.ms.objects.len() && plan.ms.objects[i] == object;
        assert(all[i] == object);
    }
    if others.contains(object) {
        let i = choose|i: int| 0 <= i < others.len() && others[i] == object;
        assert(all[plan.ms.objects.len() + i] == object);
    }
}

proof fn lemma_objects_of_spaces(spaces: Seq<SpaceView>, object: ObjectReference)
    ensures
        objects_in(spaces).contains(object) <==> exists|i: int|
            0 <= i < spaces.len() && (#[trigger] spaces[i]).objects.contains(object),
    decreases spaces.len(),
{
    if spaces.len() > 0 {
        let fewer = spaces.drop_last();
        let earlier = objects_in(fewer);
        let last = spaces.last().objects;
        let all = objects_in(spaces);
        lemma_objects_of_spaces(fewer, object);
        if all.contains(object) {
            let i = choose|i: int| 0 <= i < all.len() && all[i] == object;
            if i < earlier.len() {
                assert(earlier[i] == object);
                let k = choose|k: int|
                    0 <= k < fewer.len() && (#[trigger] fewer[k]).objects.contains(object);
                assert(spaces[k].objects.contains(object));
            } else {
                assert(last[i - earlier.len()] == object);
                assert(spaces[spaces.len() - 1].objects.contains(object));
            }
        }
        if exists|i: int| 0 <= i < spaces.len() && (#[trigger] spaces[i]).objects.contains(object) {
            let k = choose|k: int|
                0 <= k < spaces.len() && (#[trigger] spaces[k]).objects.contains(object);
            if k < fewer.len() {
                assert(fewer[k].objects.contains(object));
                let i = choose|i: int| 0 <= i < earlier.len() && earlier[i] == object;
                assert(all[i] == object);
            } else {
                let i = choose|i: int| 0 <= i < last.len() && last[i] == object;
                assert(all[earlier.len() + i] == object);
            }
        }
    }
}

/// A collection does to every space of the plan, mark-sweep or common, what its step does to a
/// space. Its start forgets the roots that were found, and keeps the log and the old roots. Marking
/// and releasing touch neither the log nor any roots.
pub proof fn law_what_happens_to_a_plan(plan: DRCView, live: Set<ObjectReference>, i: int)
    ensures
        plan.prepared().ms == plan.ms.prepared(true),
        plan.prepared().common.len() == plan.common.len(),
        0 <= i < plan.common.len() ==> plan.prepared().common[i] == plan.common[i].prepared(true),
        plan.prepared().new_roots == Seq::<ObjectReference>::empty(),
        plan.prepared().old_roots == plan.old_roots,
        plan.prepared().log == plan.log,
        plan.marking(live).ms == plan.ms.marking(live),
        plan.marking(live).common.len() == plan.common.len(),
        0 <= i < plan.common.len() ==> plan.marking(live).common[i] == plan.common[i].marking(live),
        plan.marking(live).new_roots == plan.new_roots,
        plan.marking(live).old_roots == plan.old_roots,
        plan.marking(live).log == plan.log,
        plan.released().ms == plan.ms.released(),
        plan.released().common.len() == plan.common.len(),
        0 <= i < plan.common.len() ==> plan.released().common[i] == plan.common[i].released(),
        plan.released().new_roots == plan.new_roots,
        plan.released().old_roots == plan.old_roots,
        plan.released().log == plan.log,
{
}

/// The pages of several spaces are the pages of each of them together, and a new space has none.
pub proof fn law_pages_add_up(first: Seq<SpaceView>, space: SpaceView, second: Seq<SpaceView>)
    ensures
        total_pages(Seq::empty()) == 0,
        total_pages(first + seq![space] + second) == total_pages(first) + space.reserved_pages
            + total_pages(second),
        empty_space(space.args).args == space.args,
        empty_space(space.args).objects.len() == 0,
        empty_space(space.args).marked == Set::<ObjectReference>::empty(),
        empty_space(space.args).reserved_pages == 0,
    decreases second.len(),
{
    let all = first + seq![space] + second;
    if second.len() == 0 {
        assert(all.drop_last() =~= first);
        assert(all.last() == space);
    } else {
        law_pages_add_up(first, space, second.drop_last());
        assert(all.drop_last() =~= first + seq![space] + second.drop_last());
        assert(all.last() == second.last());
    }
}

/// However the collector is configured, objects do not move, have an unlog bit, are guarded by the
/// log-buffer barrier and may be traced along an edge more than once; objects go to the default
/// space up to the greatest size that the mark-sweep space takes; and mutators are prepared unless
/// objects come from `malloc` or are swept eagerly, and plans in general do not ask for it. The
/// mark-sweep space zeroes its memory, holds no code, sets unlog bits on allocation and on tracing,
/// and need not be contiguous.
pub proof fn law_what_the_plan_demands(
    features: PlanFeatures,
    max_object_size: usize,
    defaults: PlanConstraints,
    args: SpaceArgs,
)
    ensures
        ({
            let constraints = constraints_for(features, max_object_size, defaults);
            &&& !constraints.moves_objects
            &&& constraints.needs_log_bit
            &&& constraints.barrier == BarrierSelector::LogBufferBarrier
            &&& constraints.may_trace_duplicate_edges
            &&& constraints.max_non_los_default_alloc_bytes == max_object_size
            &&& !constraints.needs_prepare_mutator <==> (features.malloc_mark_sweep
                || features.eager_sweeping) && !defaults.needs_prepare_mutator
        }),
        ms_args(args) ==> {
            &&& args.name@ == "drc_ms"@
            &&& args.zeroed && !args.permission_exec
            &&& args.unlog_allocated_object && args.unlog_traced_object
            &&& args.discontiguous
        },
{
}

}

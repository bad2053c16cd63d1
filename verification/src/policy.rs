//! The spaces that hold a plan's objects.

use vstd::prelude::*;

use crate::util::address::{ObjectReference, ObjectSet};

verus! {

/// How a space is set up.
#[derive(Clone, Copy, Debug)]
pub struct SpaceArgs {
    /// The name of the space.
    pub name: &'static str,
    /// Memory is zeroed before it is handed out.
    pub zeroed: bool,
    /// Objects may hold executable code.
    pub permission_exec: bool,
    /// The unlog bit is set when an object is allocated.
    pub unlog_allocated_object: bool,
    /// The unlog bit is set when an object is traced.
    pub unlog_traced_object: bool,
    /// The space takes its memory in chunks that need not be adjacent.
    pub discontiguous: bool,
}

/// A space whose objects are reclaimed at the end of a collection unless they were marked.
pub struct MarkSweepSpace {
    args: SpaceArgs,
    objects: Vec<ObjectReference>,
    marked: ObjectSet,
    reserved_pages: usize,
}

/// What a space holds.
#[verifier::ext_equal]
pub struct SpaceView {
    pub args: SpaceArgs,
    pub objects: Seq<ObjectReference>,
    pub marked: Set<ObjectReference>,
    pub reserved_pages: nat,
}

impl SpaceView {
    /// The space holds `object`.
    pub open spec fn holds(self, object: ObjectReference) -> bool {
        self.objects.contains(object)
    }

    /// The space at the start of a collection. One of the full heap clears the marks.
    pub open spec fn prepared(self, full_heap: bool) -> SpaceView {
        if full_heap {
            SpaceView { marked: Set::empty(), ..self }
        } else {
            self
        }
    }

    /// The space after those of its objects that are in `live` were marked.
    pub open spec fn marking(self, live: Set<ObjectReference>) -> SpaceView {
        SpaceView {
            marked: self.marked.union(live.intersect(self.objects.to_set())),
            ..self
        }
    }

    /// The space at the end of a collection: what was not marked is gone.
    pub open spec fn released(self) -> SpaceView {
        SpaceView {
            objects: self.objects.filter(|object: ObjectReference| self.marked.contains(object)),
            ..self
        }
    }
}

impl View for MarkSweepSpace {
    type V = SpaceView;

    closed spec fn view(&self) -> SpaceView {
        SpaceView {
            args: self.args,
            objects: self.objects@,
            marked: self.marked@,
            reserved_pages: self.reserved_pages as nat,
        }
    }
}

impl MarkSweepSpace {
    /// An empty space.
    pub fn new(args: SpaceArgs) -> (space: Self)
        ensures
            space@ == (SpaceView {
                args,
                objects: Seq::empty(),
                marked: Set::empty(),
                reserved_pages: 0,
            }),
    {
        MarkSweepSpace { args, objects: Vec::new(), marked: ObjectSet::new(), reserved_pages: 0 }
    }

    /// How the space was set up.
    pub fn args(&self) -> (args: SpaceArgs)
        ensures
            args == self@.args,
    {
        self.args
    }

    /// Takes in a new object, for which `pages` more pages are reserved.
    pub fn add_object(&mut self, object: ObjectReference, pages: usize)
        requires
            old(self)@.reserved_pages + pages <= usize::MAX,
        ensures
            final(self)@ == (SpaceView {
                objects: old(self)@.objects.push(object),
                reserved_pages: old(self)@.reserved_pages + pages as nat,
                ..old(self)@
            }),
    {
        self.objects.push(object);
        self.reserved_pages = self.reserved_pages + pages;
    }

    /// The objects in the space.
    pub fn enumerate_objects(&self) -> (objects: &Vec<ObjectReference>)
        ensures
            objects@ == self@.objects,
    {
        &self.objects
    }

    /// Whether the object was marked.
    pub fn is_marked(&self, object: ObjectReference) -> (marked: bool)
        ensures
            marked == self@.marked.contains(object),
    {
        self.marked.contains(&object)
    }

    /// Marks an object, and tells whether it was unmarked before.
    pub fn trace_object(&mut self, object: ObjectReference) -> (newly_marked: bool)
        ensures
            newly_marked == !old(self)@.marked.contains(object),
            final(self)@ == (SpaceView { marked: old(self)@.marked.insert(object), ..old(self)@ }),
    {
        self.marked.insert(object)
    }

    /// Gets the space ready for a collection.
    pub fn prepare(&mut self, full_heap: bool)
        ensures
            final(self)@ == old(self)@.prepared(full_heap),
    {
        if full_heap {
            self.marked = ObjectSet::new();
        }
    }

    /// Reclaims the objects that were not marked.
    pub fn release(&mut self)
        ensures
            final(self)@ == old(self)@.released(),
    {
        let ghost keep = |object: ObjectReference| self@.marked.contains(object);
        let mut kept: Vec<ObjectReference> = Vec::new();
        let mut i: usize = 0;
        assert(self.objects@.take(0).filter(keep) =~= Seq::<ObjectReference>::empty()) by {
            reveal(Seq::filter);
        }
        while i < self.objects.len()
            invariant
                i <= self.objects@.len(),
                *self == *old(self),
                keep == (|object: ObjectReference| self@.marked.contains(object)),
                kept@ == self.objects@.take(i as int).filter(keep),
            decreases self.objects@.len() - i,
        {
            let object: ObjectReference = self.objects[i];
            proof {
                reveal(Seq::filter);
                assert(self.objects@.take(i + 1).drop_last() =~= self.objects@.take(i as int));
            }
            if self.marked.contains(&object) {
                kept.push(object);
            }
            i = i + 1;
        }
        assert(self.objects@.take(i as int) =~= self.objects@);
        self.objects = kept;
    }

    /// The number of pages that are reserved for the space.
    pub fn reserved_pages(&self) -> (pages: usize)
        ensures
            pages == self@.reserved_pages,
    {
        self.reserved_pages
    }
}

/// What a full collection leaves in a space are the objects that were live, in their order and with
/// their multiplicity: no live object is reclaimed, and nothing else survives.
pub proof fn law_collection_keeps_the_live(space: SpaceView, live: Set<ObjectReference>)
    ensures
        space.prepared(true).marking(live).released().objects == space.objects.filter(
            |object: ObjectReference| live.contains(object),
        ),
        forall|object: ObjectReference| #[trigger]
            space.prepared(true).marking(live).released().holds(object) <==> space.holds(object)
                && live.contains(object),
{
    let marked = space.prepared(true).marking(live);
    let by_mark = |object: ObjectReference| marked.marked.contains(object);
    let by_life = |object: ObjectReference| live.contains(object);
    lemma_filters_agree(space.objects, by_mark, by_life);
    let kept = space.objects.filter(by_life);
    assert forall|object: ObjectReference| #[trigger]
        marked.released().holds(object) <==> space.holds(object) && live.contains(object) by {
        broadcast use vstd::seq_lib::group_filter_ensures;

        if kept.contains(object) {
            let i = choose|i: int| 0 <= i < kept.len() && kept[i] == object;
            assert(by_life(kept[i]));
            assert(space.objects.contains(kept[i]));
        }
        if space.holds(object) && live.contains(object) {
            let i = choose|i: int| 0 <= i < space.objects.len() && space.objects[i] == object;
            assert(by_life(space.objects[i]));
            assert(kept.contains(space.objects[i]));
        }
    }
}

proof fn lemma_filters_agree(
    objects: Seq<ObjectReference>,
    one: spec_fn(ObjectReference) -> bool,
    other: spec_fn(ObjectReference) -> bool,
)
    requires
        forall|i: int| 0 <= i < objects.len() ==> one(#[trigger] objects[i]) == other(objects[i]),
    ensures
        objects.filter(one) == objects.filter(other),
    decreases objects.len(),
{
    reveal(Seq::filter);
    if objects.len() > 0 {
        lemma_filters_agree(objects.drop_last(), one, other);
        assert(one(objects.last()) == other(objects.last()));
    }
}

/// What preparing, marking and releasing do to a space: a collection of the full heap starts
/// without marks, and one of a part of it keeps them. What is marked are live objects of the space,
/// on top of what was. Objects go away at the release alone, and only those without a mark. How the
/// space was set up, and what is reserved for it, never changes.
pub proof fn law_what_happens_to_a_space(
    space: SpaceView,
    live: Set<ObjectReference>,
    object: ObjectReference,
)
    ensures
        space.holds(object) <==> space.objects.contains(object),
        space.prepared(true).marked == Set::<ObjectReference>::empty(),
        space.prepared(true).objects == space.objects,
        space.prepared(true).args == space.args,
        space.prepared(true).reserved_pages == space.reserved_pages,
        space.prepared(false) == space,
        space.marking(live).marked.contains(object) <==> space.marked.contains(object) || (
        live.contains(object) && space.objects.contains(object)),
        space.marking(live).objects == space.objects,
        space.marking(live).args == space.args,
        space.marking(live).reserved_pages == space.reserved_pages,
        space.released().objects == space.objects.filter(
            |o: ObjectReference| space.marked.contains(o),
        ),
        space.released().marked == space.marked,
        space.released().args == space.args,
        space.released().reserved_pages == space.reserved_pages,
{
}

}

//! What it means for objects to die: the mathematics of cascading zero counts.
//!
//! When an object dies, every reference it holds goes away, which may let other objects die in
//! turn. Decrements stop at zero, so the order in which objects die does not matter: the dead
//! objects are the least set of objects that is closed under dying.

use vstd::prelude::*;
use vstd::set::fold::{is_fun_commutative, lemma_fold_empty, lemma_fold_insert};

use crate::util::address::{lemma_objects_finite, ObjectReference};

verus! {

/// How often `object` occurs in `objects`.
pub open spec fn occurrences(objects: Seq<ObjectReference>, object: ObjectReference) -> nat
    decreases objects.len(),
{
    if objects.len() == 0 {
        0
    } else {
        occurrences(objects.drop_last(), object) + if objects.last() == object {
            1nat
        } else {
            0nat
        }
    }
}

/// How often the objects in `from` refer to `to`.
pub open spec fn references(
    children: spec_fn(ObjectReference) -> Seq<ObjectReference>,
    from: Set<ObjectReference>,
    to: ObjectReference,
) -> nat {
    from.fold(0nat, |n: nat, object: ObjectReference| n + occurrences(children(object), to))
}

/// No references come from nowhere.
pub proof fn lemma_references_empty(
    children: spec_fn(ObjectReference) -> Seq<ObjectReference>,
    to: ObjectReference,
)
    ensures
        references(children, Set::empty(), to) == 0,
{
    let f = |n: nat, object: ObjectReference| n + occurrences(children(object), to);
    lemma_fold_empty(0nat, f);
}

/// One more object adds its own references.
pub proof fn lemma_references_insert(
    children: spec_fn(ObjectReference) -> Seq<ObjectReference>,
    from: Set<ObjectReference>,
    object: ObjectReference,
    to: ObjectReference,
)
    requires
        !from.contains(object),
    ensures
        references(children, from.insert(object), to) == references(children, from, to) + occurrences(
            children(object),
            to,
        ),
{
    lemma_objects_finite(from);
    let f = |n: nat, object: ObjectReference| n + occurrences(children(object), to);
    assert(is_fun_commutative(f));
    lemma_fold_insert(from, 0nat, f, object);
}

/// More objects hold no fewer references.
pub proof fn lemma_references_monotone(
    children: spec_fn(ObjectReference) -> Seq<ObjectReference>,
    fewer: Set<ObjectReference>,
    more: Set<ObjectReference>,
    to: ObjectReference,
)
    requires
        fewer.subset_of(more),
    ensures
        references(children, fewer, to) <= references(children, more, to),
    decreases more.difference(fewer).len(),
{
    lemma_objects_finite(more.difference(fewer));
    if more.difference(fewer).len() == 0 {
        assert forall|o: ObjectReference| more.contains(o) implies fewer.contains(o) by {
            assert(!more.difference(fewer).contains(o));
        }
        assert(more =~= fewer);
    } else {
        let object = more.difference(fewer).choose();
        let less = more.remove(object);
        assert(less.difference(fewer) =~= more.difference(fewer).remove(object));
        lemma_references_monotone(children, fewer, less, to);
        lemma_references_insert(children, less, object, to);
        assert(less.insert(object) =~= more);
    }
}

/// A heap whose objects may die: the objects that each object refers to, the count of each object,
/// and the objects that are looked at first.
#[verifier::ext_equal]
pub struct Cascade {
    pub children: spec_fn(ObjectReference) -> Seq<ObjectReference>,
    pub counts: spec_fn(ObjectReference) -> int,
    pub initial: Set<ObjectReference>,
}

impl Cascade {
    /// The count of `object` once the references from `dead` are gone. Counts stop at zero.
    pub open spec fn remaining(self, dead: Set<ObjectReference>, object: ObjectReference) -> int {
        let left = (self.counts)(object) - references(self.children, dead, object);
        if left > 0 {
            left
        } else {
            0
        }
    }

    /// With `dead` gone, `object` dies: nothing is left of its count, and either it is looked at
    /// from the beginning or it has lost a reference that it counted.
    pub open spec fn dies(self, dead: Set<ObjectReference>, object: ObjectReference) -> bool {
        &&& self.remaining(dead, object) == 0
        &&& self.initial.contains(object) || (self.counts)(object) > 0
    }

    /// Everything that dies when `dead` is gone is in `dead` itself.
    pub open spec fn closed_under_dying(self, dead: Set<ObjectReference>) -> bool {
        forall|object: ObjectReference| #[trigger]
            self.dies(dead, object) ==> dead.contains(object)
    }

    /// `dead` are the objects that die: the least set that is closed under dying.
    pub open spec fn kills(self, dead: Set<ObjectReference>) -> bool {
        &&& self.closed_under_dying(dead)
        &&& forall|other: Set<ObjectReference>| #[trigger]
            self.closed_under_dying(other) ==> dead.subset_of(other)
    }

    /// The objects that die.
    pub open spec fn dead(self) -> Set<ObjectReference> {
        choose|dead: Set<ObjectReference>| self.kills(dead)
    }

    /// What dies with some objects gone still dies with more of them gone.
    pub proof fn lemma_dies_monotone(
        self,
        fewer: Set<ObjectReference>,
        more: Set<ObjectReference>,
        object: ObjectReference,
    )
        requires
            fewer.subset_of(more),
            self.dies(fewer, object),
        ensures
            self.dies(more, object),
    {
        lemma_references_monotone(self.children, fewer, more, object);
    }
}

/// Which objects die is determined by the heap alone.
pub proof fn law_the_dead_are_unique(
    cascade: Cascade,
    dead: Set<ObjectReference>,
    other: Set<ObjectReference>,
)
    requires
        cascade.kills(dead),
        cascade.kills(other),
    ensures
        dead == other,
{
    assert(dead =~= other);
}

/// In every heap it is determined which objects die.
pub proof fn law_the_dead_exist(cascade: Cascade)
    ensures
        cascade.kills(cascade.dead()),
{
    let dead = Set::new(
        |object: ObjectReference|
            forall|other: Set<ObjectReference>| #[trigger]
                cascade.closed_under_dying(other) ==> other.contains(object),
    );
    assert forall|object: ObjectReference| #[trigger]
        cascade.dies(dead, object) implies dead.contains(object) by {
        assert forall|other: Set<ObjectReference>| #[trigger]
            cascade.closed_under_dying(other) implies other.contains(object) by {
            assert(dead.subset_of(other));
            cascade.lemma_dies_monotone(dead, other, object);
        }
    }
    assert(cascade.kills(dead));
}

/// The dead keep no count, they are exactly the objects that die when they are gone, and every
/// object outside of them that has or could have lost a reference keeps a count above zero.
pub proof fn law_the_dead_have_no_count(
    cascade: Cascade,
    dead: Set<ObjectReference>,
    object: ObjectReference,
)
    requires
        cascade.kills(dead),
    ensures
        dead.contains(object) <==> cascade.dies(dead, object),
        dead.contains(object) ==> cascade.remaining(dead, object) == 0,
        !dead.contains(object) && (cascade.counts)(object) > 0 ==> cascade.remaining(dead, object)
            > 0,
{
    if dead.contains(object) && !cascade.dies(dead, object) {
        let smaller = dead.remove(object);
        assert forall|o: ObjectReference| #[trigger]
            cascade.dies(smaller, o) implies smaller.contains(o) by {
            cascade.lemma_dies_monotone(smaller, dead, o);
        }
        assert(cascade.closed_under_dying(smaller));
        assert(dead.subset_of(smaller));
        assert(!smaller.contains(object));
    }
}

/// An object whose counted references do not all come from dead objects is not dead.
pub proof fn law_the_referenced_live(
    cascade: Cascade,
    dead: Set<ObjectReference>,
    object: ObjectReference,
)
    requires
        cascade.kills(dead),
        references(cascade.children, dead, object) < (cascade.counts)(object),
    ensures
        !dead.contains(object),
{
    law_the_dead_have_no_count(cascade, dead, object);
}

/// How often an object occurs in a sequence is how many of its elements are that object.
pub proof fn law_occurrences_are_counted(objects: Seq<ObjectReference>, object: ObjectReference)
    ensures
        occurrences(objects, object) == objects.filter(|o: ObjectReference| o == object).len(),
    decreases objects.len(),
{
    reveal(Seq::filter);
    if objects.len() > 0 {
        law_occurrences_are_counted(objects.drop_last(), object);
    }
}

/// The references from several objects are those from each of them together.
pub proof fn law_references_add_up(
    children: spec_fn(ObjectReference) -> Seq<ObjectReference>,
    from: Set<ObjectReference>,
    object: ObjectReference,
    to: ObjectReference,
)
    requires
        !from.contains(object),
    ensures
        references(children, Set::empty(), to) == 0,
        references(children, from.insert(object), to) == references(children, from, to)
            + children(object).filter(|o: ObjectReference| o == to).len(),
{
    lemma_references_empty(children, to);
    lemma_references_insert(children, from, object, to);
    law_occurrences_are_counted(children(object), to);
}

/// Objects can die in this order, each of them once: when the turn comes to an object, the
/// references from those that died before it are as many as it counts, and it either was looked at
/// from the beginning or counted something.
pub open spec fn is_death_order(cascade: Cascade, order: Seq<ObjectReference>) -> bool {
    &&& order.no_duplicates()
    &&& forall|k: int|
        0 <= k < order.len() ==> {
            &&& (cascade.counts)(#[trigger] order[k]) <= references(
                cascade.children,
                order.take(k).to_set(),
                order[k],
            )
            &&& cascade.initial.contains(order[k]) || (cascade.counts)(order[k]) > 0
        }
}

/// The dead can die one after the other, each when nothing is left of its count. And no more can
/// die: every other object either counts more references than the dead had to it, or counts none
/// and was not looked at. What remains of a count are the references that did not come from the
/// dead, and nothing where they were more.
pub proof fn law_the_dead_die_in_order(
    cascade: Cascade,
    dead: Set<ObjectReference>,
    object: ObjectReference,
)
    requires
        cascade.kills(dead),
    ensures
        exists|order: Seq<ObjectReference>| #[trigger]
            is_death_order(cascade, order) && order.to_set() == dead,
        !dead.contains(object) ==> (cascade.counts)(object) > references(
            cascade.children,
            dead,
            object,
        ) || (!cascade.initial.contains(object) && (cascade.counts)(object) <= 0),
        cascade.remaining(dead, object) >= 0,
        cascade.remaining(dead, object) >= (cascade.counts)(object) - references(
            cascade.children,
            dead,
            object,
        ),
        cascade.remaining(dead, object) == 0 || cascade.remaining(dead, object)
            == (cascade.counts)(object) - references(cascade.children, dead, object),
{
    let order = lemma_death_order(cascade, dead, Seq::empty());
    assert(is_death_order(cascade, order) && order.to_set() == dead);
    if !dead.contains(object) {
        assert(!cascade.dies(dead, object));
    }
}

/// The objects that have died in order so far can be followed by the rest of the dead.
proof fn lemma_death_order(
    cascade: Cascade,
    dead: Set<ObjectReference>,
    begun: Seq<ObjectReference>,
) -> (order: Seq<ObjectReference>)
    requires
        cascade.kills(dead),
        is_death_order(cascade, begun),
        begun.to_set().subset_of(dead),
    ensures
        is_death_order(cascade, order),
        order.to_set() == dead,
    decreases dead.difference(begun.to_set()).len(),
{
    let gone = begun.to_set();
    lemma_objects_finite(dead.difference(gone));
    if cascade.closed_under_dying(gone) {
        assert(gone =~= dead);
        begun
    } else {
        let next = choose|o: ObjectReference| #[trigger]
            cascade.dies(gone, o) && !gone.contains(o);
        cascade.lemma_dies_monotone(gone, dead, next);
        let longer = begun.push(next);
        begun.lemma_push_to_set_commute(next);
        assert(!begun.contains(next));
        assert forall|k: int| 0 <= k < longer.len() implies {
            &&& (cascade.counts)(#[trigger] longer[k]) <= references(
                cascade.children,
                longer.take(k).to_set(),
                longer[k],
            )
            &&& cascade.initial.contains(longer[k]) || (cascade.counts)(longer[k]) > 0
        } by {
            assert(longer.take(k) =~= begun.take(k));
            if k < begun.len() {
                assert(longer[k] == begun[k]);
            } else {
                assert(begun.take(k) =~= begun);
            }
        }
        assert(dead.difference(longer.to_set()) =~= dead.difference(gone).remove(next));
        lemma_death_order(cascade, dead, longer)
    }
}

}

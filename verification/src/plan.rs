//! Collection plans and the barriers that their mutators run.

pub mod barriers;
pub mod deferred_reference_counting;

use vstd::prelude::*;

use crate::vm::{Memory, VMBinding};

verus! {

/// A collector instance: the runtime it serves and the state of its plan, which all mutators share.
pub struct MMTK<VM, P> {
    pub vm: VM,
    pub plan: P,
}

/// Something that acts on a collector instance, together with what the instance holds at one
/// moment: the runtime's memory and the state of the plan.
#[verifier::ext_equal]
pub struct Moment<A, P> {
    pub actor: A,
    pub memory: Memory,
    pub plan: P,
}

/// The actor and the collector instance as they are.
pub open spec fn moment<A, VM: VMBinding, P>(actor: A, mmtk: MMTK<VM, P>) -> Moment<A, P> {
    Moment { actor, memory: mmtk.vm@, plan: mmtk.plan }
}

/// A moment shows the actor, the memory of the runtime and the plan as they are.
pub proof fn law_a_moment_shows_the_instance<A, VM: VMBinding, P>(actor: A, mmtk: MMTK<VM, P>)
    ensures
        moment(actor, mmtk).actor == actor,
        moment(actor, mmtk).memory == mmtk.vm@,
        moment(actor, mmtk).plan == mmtk.plan,
{
}

}

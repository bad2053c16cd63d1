//! Logging an object exactly once, in the presence of other threads that try the same.
//!
//! An attempt reads the object's unlog bit and, while the bit is set, tries to clear it with a
//! compare-and-exchange. The decisions of an attempt are the function [`log_step`]; the reads and
//! exchanges between them are atomic operations on shared memory.

use atomic::Ordering;
use vstd::prelude::*;

use crate::util::address::ObjectReference;
use crate::util::metadata::{law_metadata_write, lemma_low_mask, MetadataSpec};
use crate::vm::{Memory, VMBinding};

verus! {

/// What an attempt to log an object does next.
#[derive(Clone, Copy, PartialEq, Eq, Structural, Debug)]
pub enum LogAction {
    /// Atomically read the unlog bit.
    Load,
    /// Atomically change the unlog bit from one to zero.
    Exchange,
    /// Stop. The flag tells whether this attempt logged the object.
    Finish(bool),
}

/// What an attempt to log an object learns.
#[derive(Clone, Copy, PartialEq, Eq, Structural, Debug)]
pub enum LogEvent {
    /// The attempt begins.
    Begin,
    /// The unlog bit was read.
    Loaded(u8),
    /// The exchange was tried. The flag tells whether it changed the bit.
    Exchanged(bool),
}

/// The next action after an event.
pub open spec fn next_action(event: LogEvent) -> LogAction {
    match event {
        LogEvent::Begin => LogAction::Load,
        LogEvent::Loaded(bit) => if bit == 0 {
            LogAction::Finish(false)
        } else {
            LogAction::Exchange
        },
        LogEvent::Exchanged(changed) => if changed {
            LogAction::Finish(true)
        } else {
            LogAction::Load
        },
    }
}

/// The next action after an event.
pub fn log_step(event: LogEvent) -> (action: LogAction)
    ensures
        action == next_action(event),
{
    match event {
        LogEvent::Begin => LogAction::Load,
        LogEvent::Loaded(bit) => if bit == 0 {
            LogAction::Finish(false)
        } else {
            LogAction::Exchange
        },
        LogEvent::Exchanged(changed) => if changed {
            LogAction::Finish(true)
        } else {
            LogAction::Load
        },
    }
}

/// The object has not been logged: its unlog bit is set.
pub open spec fn is_unlogged(memory: Memory, bit: MetadataSpec, object: ObjectReference) -> bool {
    memory.metadata(bit, object) != 0
}

/// The memory after the unlog bit of `object` was cleared.
pub open spec fn with_logged(
    memory: Memory,
    bit: MetadataSpec,
    object: ObjectReference,
) -> Memory {
    memory.with_metadata(bit, object, 0)
}

/// The field is a single bit.
pub open spec fn is_bit(field: MetadataSpec) -> bool {
    field.wf() && field.num_of_bits == 1
}

/// Attempts to log `object`, and tells whether this attempt did.
pub fn try_log<VM: VMBinding>(vm: &mut VM, bit: MetadataSpec, object: ObjectReference) -> (logged:
    bool)
    requires
        is_bit(bit),
    ensures
        logged == is_unlogged(old(vm)@, bit, object),
        final(vm)@ == if logged {
            with_logged(old(vm)@, bit, object)
        } else {
            old(vm)@
        },
        !is_unlogged(final(vm)@, bit, object),
        bit.sequentially_read(*old(vm), object),
        logged ==> bit.sequentially_written(*old(vm), object, *final(vm)),
        !logged ==> *final(vm) == *old(vm),
{
    proof {
        lemma_low_mask(bit.num_of_bits);
        law_metadata_write(vm@, bit, object, 0, bit, object);
    }
    let mut action: LogAction = log_step(LogEvent::Begin);
    loop
        invariant
            is_bit(bit),
            bit.mask() == 1,
            old(vm)@.metadata(bit, object) <= 1,
            !is_unlogged(with_logged(old(vm)@, bit, object), bit, object),
            match action {
                LogAction::Load => *vm == *old(vm),
                LogAction::Exchange => {
                    &&& *vm == *old(vm)
                    &&& is_unlogged(vm@, bit, object)
                    &&& bit.sequentially_read(*old(vm), object)
                },
                LogAction::Finish(logged) => {
                    &&& bit.sequentially_read(*old(vm), object)
                    &&& logged ==> bit.sequentially_written(*old(vm), object, *vm)
                    &&& !logged ==> *vm == *old(vm)
                    &&& logged == is_unlogged(old(vm)@, bit, object)
                    &&& vm@ == if logged {
                        with_logged(old(vm)@, bit, object)
                    } else {
                        old(vm)@
                    }
                },
            },
        decreases
                match action {
                    LogAction::Load => 2int,
                    LogAction::Exchange => 1int,
                    LogAction::Finish(_) => 0int,
                },
    {
        match action {
            LogAction::Load => {
                let value: u8 = bit.load_atomic::<VM, u8>(vm, object, Ordering::SeqCst);
                action = log_step(LogEvent::Loaded(value));
            },
            LogAction::Exchange => {
                let changed: bool = bit.compare_exchange_metadata::<VM, u8>(
                    vm,
                    object,
                    1,
                    0,
                    Ordering::SeqCst,
                    Ordering::SeqCst,
                ).is_ok();
                action = log_step(LogEvent::Exchanged(changed));
            },
            LogAction::Finish(logged) => {
                return logged;
            },
        }
    }
}

/// A turn of one thread.
pub struct Turn {
    /// The thread.
    pub thread: int,
    /// Another bit of the header word changes at the same time, so that an exchange of the word
    /// fails whatever the unlog bit is.
    pub disturbed: bool,
}

/// Several threads that attempt to log the same object at the same time: the shared unlog bit, and
/// the next action of every thread.
#[verifier::ext_equal]
pub struct LogRace {
    pub unlogged: bool,
    pub threads: Seq<LogAction>,
}

impl LogRace {
    /// Every thread is about to begin.
    pub open spec fn begins(self) -> bool {
        forall|i: int|
            0 <= i < self.threads.len() ==> #[trigger] self.threads[i] == next_action(
                LogEvent::Begin,
            )
    }

    /// Thread `i` performs its next action, as one atomic operation.
    pub open spec fn step(self, i: int) -> LogRace {
        if 0 <= i < self.threads.len() {
            match self.threads[i] {
                LogAction::Load => {
                    let value: u8 = if self.unlogged {
                        1
                    } else {
                        0
                    };
                    LogRace {
                        threads: self.threads.update(i, next_action(LogEvent::Loaded(value))),
                        ..self
                    }
                },
                LogAction::Exchange => LogRace {
                    unlogged: false,
                    threads: self.threads.update(
                        i,
                        next_action(LogEvent::Exchanged(self.unlogged)),
                    ),
                },
                LogAction::Finish(_) => self,
            }
        } else {
            self
        }
    }

    /// The threads take turns as `schedule` says.
    pub open spec fn run(self, schedule: Seq<int>) -> LogRace
        decreases schedule.len(),
    {
        if schedule.len() == 0 {
            self
        } else {
            self.run(schedule.drop_last()).step(schedule.last())
        }
    }

    /// Thread `i` performs its next action while another bit of the header word changes: an
    /// exchange fails and leaves the unlog bit as it is, and a read is not affected.
    pub open spec fn step_disturbed(self, i: int) -> LogRace {
        if 0 <= i < self.threads.len() && self.threads[i] == LogAction::Exchange {
            LogRace {
                threads: self.threads.update(i, next_action(LogEvent::Exchanged(false))),
                ..self
            }
        } else {
            self.step(i)
        }
    }

    /// A thread takes its turn.
    pub open spec fn take_turn(self, turn: Turn) -> LogRace {
        if turn.disturbed {
            self.step_disturbed(turn.thread)
        } else {
            self.step(turn.thread)
        }
    }

    /// The threads take turns as `turns` says, some of them disturbed.
    pub open spec fn run_disturbed(self, turns: Seq<Turn>) -> LogRace
        decreases turns.len(),
    {
        if turns.len() == 0 {
            self
        } else {
            self.run_disturbed(turns.drop_last()).take_turn(turns.last())
        }
    }

    /// Thread `i` has stopped.
    pub open spec fn finished(self, i: int) -> bool {
        0 <= i < self.threads.len() && self.threads[i] is Finish
    }

    /// Thread `i` has logged the object.
    pub open spec fn won(self, i: int) -> bool {
        0 <= i < self.threads.len() && self.threads[i] == LogAction::Finish(true)
    }
}

proof fn lemma_race(race: LogRace, turns: Seq<Turn>)
    requires
        race.begins(),
    ensures
        ({
            let after = race.run_disturbed(turns);
            &&& after.threads.len() == race.threads.len()
            &&& after.unlogged ==> race.unlogged
            &&& after.unlogged ==> forall|i: int| !after.finished(i)
            &&& !race.unlogged ==> forall|i: int| !after.won(i)
            &&& race.unlogged && !after.unlogged ==> exists|i: int| after.won(i)
            &&& forall|i: int, j: int| after.won(i) && after.won(j) ==> i == j
        }),
    decreases turns.len(),
{
    if turns.len() > 0 {
        lemma_race(race, turns.drop_last());
        let before = race.run_disturbed(turns.drop_last());
        let i = turns.last().thread;
        let after = before.take_turn(turns.last());
        assert forall|k: int| k != i implies after.won(k) == before.won(k) && after.finished(k)
            == before.finished(k) by {}
        if before.unlogged && !after.unlogged {
            assert(after.won(i));
        } else if race.unlogged && !before.unlogged {
            let k = choose|k: int| before.won(k);
            assert(after.won(k));
        }
    }
}

/// A schedule without disturbances is one of the schedules that may have them.
proof fn lemma_undisturbed(race: LogRace, schedule: Seq<int>)
    ensures
        race.run(schedule) == race.run_disturbed(
            schedule.map_values(|thread: int| Turn { thread, disturbed: false }),
        ),
    decreases schedule.len(),
{
    let turns = schedule.map_values(|thread: int| Turn { thread, disturbed: false });
    if schedule.len() > 0 {
        let earlier = schedule.drop_last();
        lemma_undisturbed(race, earlier);
        assert(turns.drop_last() =~= earlier.map_values(
            |thread: int| Turn { thread, disturbed: false },
        ));
    }
}

/// However the threads take turns, at most one attempt logs the object, none does if it was logged
/// before, and if it was not, then as soon as any attempt is over, one of them has logged it and
/// its unlog bit is clear.
pub proof fn law_one_attempt_logs(race: LogRace, schedule: Seq<int>)
    requires
        race.begins(),
    ensures
        forall|i: int, j: int| race.run(schedule).won(i) && race.run(schedule).won(j) ==> i == j,
        forall|i: int| race.run(schedule).won(i) ==> race.unlogged,
        forall|i: int|
            race.unlogged && race.run(schedule).finished(i) ==> !race.run(schedule).unlogged
                && exists|j: int| race.run(schedule).won(j),
{
    lemma_undisturbed(race, schedule);
    lemma_race(race, schedule.map_values(|thread: int| Turn { thread, disturbed: false }));
}

/// The same holds while other bits of the header word change, so that exchanges fail although the
/// unlog bit is set: at most one attempt logs the object, none does if it was logged before, and if
/// it was not, then as soon as any attempt is over, one of them has logged it and its unlog bit is
/// clear. In particular no attempt gives up on account of such a failure.
pub proof fn law_one_attempt_logs_despite_disturbances(race: LogRace, turns: Seq<Turn>)
    requires
        race.begins(),
    ensures
        forall|i: int, j: int|
            race.run_disturbed(turns).won(i) && race.run_disturbed(turns).won(j) ==> i == j,
        forall|i: int| race.run_disturbed(turns).won(i) ==> race.unlogged,
        forall|i: int|
            race.unlogged && race.run_disturbed(turns).finished(i) ==> !race.run_disturbed(
                turns,
            ).unlogged && exists|j: int| race.run_disturbed(turns).won(j),
{
    lemma_race(race, turns);
}

/// An attempt gives up only when it finds the bit clear, succeeds only when its own exchange
/// changed the bit, and otherwise goes on.
pub proof fn law_what_ends_an_attempt(event: LogEvent)
    ensures
        next_action(event) == LogAction::Finish(false) <==> event == LogEvent::Loaded(0),
        next_action(event) == LogAction::Finish(true) <==> event == LogEvent::Exchanged(true),
        next_action(event) == LogAction::Exchange <==> event is Loaded && event != LogEvent::Loaded(
            0,
        ),
        next_action(event) == LogAction::Load <==> event == LogEvent::Begin || event
            == LogEvent::Exchanged(false),
{
}

/// Logging an object sets its unlog bit to zero and changes nothing else: no other field of its
/// header, no other object, and no slot.
pub proof fn law_logging_clears_one_bit(
    memory: Memory,
    bit: MetadataSpec,
    object: ObjectReference,
    other_spec: MetadataSpec,
    other: ObjectReference,
)
    requires
        is_bit(bit),
        other_spec.wf(),
    ensures
        is_unlogged(memory, bit, object) <==> memory.metadata(bit, object) == 1,
        with_logged(memory, bit, object).metadata(bit, object) == 0,
        other != object || bit.disjoint(other_spec) ==> with_logged(memory, bit, object).metadata(
            other_spec,
            other,
        ) == memory.metadata(other_spec, other),
        with_logged(memory, bit, object).slots == memory.slots,
        with_logged(memory, bit, object).fields == memory.fields,
        with_logged(memory, bit, object).slot_enqueuing == memory.slot_enqueuing,
{
    lemma_low_mask(bit.num_of_bits);
    law_metadata_write(memory, bit, object, 0, other_spec, other);
}

}

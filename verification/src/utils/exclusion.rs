//! What the named lock buys: updaters that bracket their read and their
//! write between a wait and a release change a client one after the other,
//! however their steps interleave.
//!
//! The lock is taken as what it is, a counter that a wait takes one from,
//! and does not pass while it is zero, and that a release gives one to.

use crate::client::{is_unit_credit, ClientView};
use crate::transaction::TransactionView;
use vstd::prelude::*;

verus! {

/// Where an updater stands in its critical section.
pub enum Phase {
    /// It has not passed the wait yet.
    Waiting,
    /// It has passed the wait and has not read yet.
    Holding,
    /// It has read the client, and holds what it read.
    Read(ClientView),
    /// It has written the client back.
    Written,
    /// It has released the lock.
    Released,
}

/// The lock's count, the client as the segment holds it, and where each
/// updater stands.
pub struct Shared {
    pub count: nat,
    pub stored: ClientView,
    pub phases: Seq<Phase>,
}

/// Whether an updater in this phase is between its wait and its release.
pub open spec fn holds(p: Phase) -> bool {
    p is Holding || p is Read || p is Written
}

/// Whether an updater in this phase has written.
pub open spec fn wrote(p: Phase) -> bool {
    p is Written || p is Released
}

/// The number of updaters between their wait and their release.
pub open spec fn holders(phases: Seq<Phase>) -> nat
    decreases phases.len(),
{
    if phases.len() == 0 {
        0
    } else {
        holders(phases.drop_last()) + if holds(phases.last()) {
            1nat
        } else {
            0nat
        }
    }
}

/// The number of updaters that have written.
pub open spec fn writers(phases: Seq<Phase>) -> nat
    decreases phases.len(),
{
    if phases.len() == 0 {
        0
    } else {
        writers(phases.drop_last()) + if wrote(phases.last()) {
            1nat
        } else {
            0nat
        }
    }
}

/// The next step of the updater `who`, which offers `t`: it passes the wait
/// where the count is above zero, reads, writes what it read with `t`
/// offered to it, and releases. Nothing comes back where the updater cannot
/// move: it waits at a count of zero, or it is done.
pub open spec fn step(s: Shared, t: TransactionView, who: int) -> Option<Shared> {
    match s.phases[who] {
        Phase::Waiting => if s.count > 0 {
            Some(
                Shared {
                    count: (s.count - 1) as nat,
                    phases: s.phases.update(who, Phase::Holding),
                    ..s
                },
            )
        } else {
            None
        },
        Phase::Holding => Some(Shared { phases: s.phases.update(who, Phase::Read(s.stored)), ..s }),
        Phase::Read(seen) => Some(
            Shared { stored: seen.offer(t), phases: s.phases.update(who, Phase::Written), ..s },
        ),
        Phase::Written => Some(
            Shared { count: s.count + 1, phases: s.phases.update(who, Phase::Released), ..s },
        ),
        Phase::Released => None,
    }
}

/// The state after the updaters have moved in the order of `schedule`, or
/// nothing where the schedule asks an updater to move that cannot.
pub open spec fn run(s: Shared, ts: Seq<TransactionView>, schedule: Seq<int>) -> Option<Shared>
    decreases schedule.len(),
{
    if schedule.len() == 0 {
        Some(s)
    } else {
        match run(s, ts, schedule.drop_last()) {
            Some(before) => {
                let who = schedule.last();
                if 0 <= who < before.phases.len() && who < ts.len() {
                    step(before, ts[who], who)
                } else {
                    None
                }
            },
            None => None,
        }
    }
}

/// The start: the lock is free, and every updater is yet to wait.
pub open spec fn at_start(s: Shared) -> bool {
    &&& s.count == 1
    &&& forall|i: int| 0 <= i < s.phases.len() ==> #[trigger] s.phases[i] is Waiting
}

/// What holds at every moment of a run of unit credits from `first`: at
/// most one updater is between its wait and its release, an updater that
/// has read holds what the segment holds, and the balance has grown by the
/// number of updaters that have written.
pub open spec fn exclusive(s: Shared, first: ClientView) -> bool {
    &&& s.count + holders(s.phases) == 1
    &&& forall|i: int|
        0 <= i < s.phases.len() ==> ((#[trigger] s.phases[i]) matches Phase::Read(seen)
            ==> seen == s.stored)
    &&& s.stored.balance == first.balance + writers(s.phases)
    &&& s.stored.limit == first.limit
}

proof fn lemma_counts_after_update(phases: Seq<Phase>, who: int, p: Phase)
    requires
        0 <= who < phases.len(),
    ensures
        holders(phases.update(who, p)) + (if holds(phases[who]) {
            1nat
        } else {
            0nat
        }) == holders(phases) + (if holds(p) {
            1nat
        } else {
            0nat
        }),
        writers(phases.update(who, p)) + (if wrote(phases[who]) {
            1nat
        } else {
            0nat
        }) == writers(phases) + (if wrote(p) {
            1nat
        } else {
            0nat
        }),
    decreases phases.len(),
{
    let updated = phases.update(who, p);
    if who == phases.len() - 1 {
        assert(updated.drop_last() =~= phases.drop_last());
    } else {
        lemma_counts_after_update(phases.drop_last(), who, p);
        assert(updated.drop_last() =~= phases.drop_last().update(who, p));
    }
}

proof fn lemma_two_holders(phases: Seq<Phase>, i: int, j: int)
    requires
        0 <= i < j < phases.len(),
        holds(phases[i]),
        holds(phases[j]),
    ensures
        holders(phases) >= 2,
    decreases phases.len(),
{
    if j == phases.len() - 1 {
        lemma_one_holder(phases.drop_last(), i);
    } else {
        lemma_two_holders(phases.drop_last(), i, j);
    }
}

proof fn lemma_one_holder(phases: Seq<Phase>, i: int)
    requires
        0 <= i < phases.len(),
        holds(phases[i]),
    ensures
        holders(phases) >= 1,
    decreases phases.len(),
{
    if i < phases.len() - 1 {
        lemma_one_holder(phases.drop_last(), i);
    }
}

proof fn lemma_counts_at_ends(phases: Seq<Phase>)
    ensures
        (forall|i: int| 0 <= i < phases.len() ==> #[trigger] phases[i] is Waiting) ==> holders(
            phases,
        ) == 0 && writers(phases) == 0,
        (forall|i: int| 0 <= i < phases.len() ==> #[trigger] phases[i] is Released) ==> writers(
            phases,
        ) == phases.len(),
    decreases phases.len(),
{
    if phases.len() > 0 {
        let earlier = phases.drop_last();
        lemma_counts_at_ends(earlier);
        if forall|i: int| 0 <= i < phases.len() ==> #[trigger] phases[i] is Waiting {
            assert forall|i: int| 0 <= i < earlier.len() implies #[trigger] earlier[i]
                is Waiting by {
                assert(phases[i] is Waiting);
            }
            assert(phases[phases.len() - 1] is Waiting);
        }
        if forall|i: int| 0 <= i < phases.len() ==> #[trigger] phases[i] is Released {
            assert forall|i: int| 0 <= i < earlier.len() implies #[trigger] earlier[i]
                is Released by {
                assert(phases[i] is Released);
            }
            assert(phases[phases.len() - 1] is Released);
        }
    }
}

/// One step of one updater keeps the lock exclusive.
pub proof fn lemma_step_stays_exclusive(
    s: Shared,
    first: ClientView,
    t: TransactionView,
    who: int,
)
    requires
        exclusive(s, first),
        0 <= who < s.phases.len(),
        is_unit_credit(t),
        first.balance >= -first.limit,
        step(s, t, who) is Some,
    ensures
        exclusive(step(s, t, who).unwrap(), first),
        step(s, t, who).unwrap().phases.len() == s.phases.len(),
{
    let next = step(s, t, who).unwrap();
    lemma_counts_after_update(s.phases, who, next.phases[who]);
    assert forall|i: int| 0 <= i < next.phases.len() implies ((#[trigger] next.phases[i])
        matches Phase::Read(seen) ==> seen == next.stored) by {
        if i != who {
            assert(next.phases[i] == s.phases[i]);
            if s.phases[who] is Read && next.phases[i] is Read {
                if i < who {
                    lemma_two_holders(s.phases, i, who);
                } else {
                    lemma_two_holders(s.phases, who, i);
                }
            }
        }
    }
}

/// Every run from an exclusive state ends in one.
pub proof fn lemma_run_stays_exclusive(
    s: Shared,
    first: ClientView,
    ts: Seq<TransactionView>,
    schedule: Seq<int>,
)
    requires
        exclusive(s, first),
        first.balance >= -first.limit,
        forall|i: int| 0 <= i < ts.len() ==> is_unit_credit(#[trigger] ts[i]),
        run(s, ts, schedule) is Some,
    ensures
        exclusive(run(s, ts, schedule).unwrap(), first),
        run(s, ts, schedule).unwrap().phases.len() == s.phases.len(),
    decreases schedule.len(),
{
    if schedule.len() > 0 {
        lemma_run_stays_exclusive(s, first, ts, schedule.drop_last());
        let before = run(s, ts, schedule.drop_last()).unwrap();
        let who = schedule.last();
        lemma_step_stays_exclusive(before, first, ts[who], who);
    }
}

/// No lost updates: where every updater credits one unit and all of them
/// have run to their release, the balance has grown by their number,
/// whatever the order in which they moved.
pub proof fn lemma_no_lost_updates(
    start: Shared,
    ts: Seq<TransactionView>,
    schedule: Seq<int>,
)
    requires
        at_start(start),
        start.stored.balance >= -start.stored.limit,
        ts.len() == start.phases.len(),
        forall|i: int| 0 <= i < ts.len() ==> is_unit_credit(#[trigger] ts[i]),
        run(start, ts, schedule) matches Some(end) && forall|i: int|
            0 <= i < end.phases.len() ==> #[trigger] end.phases[i] is Released,
    ensures
        run(start, ts, schedule).unwrap().stored.balance == start.stored.balance + ts.len(),
{
    lemma_counts_at_ends(start.phases);
    lemma_run_stays_exclusive(start, start.stored, ts, schedule);
    lemma_counts_at_ends(run(start, ts, schedule).unwrap().phases);
}

} // verus!

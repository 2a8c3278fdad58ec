//! Admission under a ceiling.
use vstd::prelude::*;

verus! {

/// Adaptive semaphore whose ceiling can change at runtime.
///
/// When the ceiling falls below the current `active` count, existing streams
/// are not evicted: they complete normally, and only new admissions are blocked.
#[derive(Debug)]
pub struct AdaptiveSemaphore {
    active: u32,
}

impl View for AdaptiveSemaphore {
    type V = nat;

    /// The number of active streams.
    closed spec fn view(&self) -> nat {
        self.active as nat
    }
}

impl AdaptiveSemaphore {
    /// Create a new semaphore with zero active streams.
    pub fn new() -> (r: Self)
        ensures
            r@ == 0,
    {
        AdaptiveSemaphore { active: 0 }
    }

    /// Try to acquire a slot. Returns `true` if admitted, `false` if at ceiling.
    pub fn try_acquire(&mut self, ceiling: u32) -> (r: bool)
        ensures
            r == (old(self)@ < ceiling),
            final(self)@ == acquired(old(self)@, ceiling as nat),
    {
        let current: u32 = self.active;
        if current >= ceiling {
            return false;
        }
        self.active = current + 1;
        true
    }

    /// Release a slot when a stream completes. The count wraps below zero.
    pub fn release(&mut self)
        ensures
            final(self)@ == released(old(self)@),
    {
        self.active = self.active.wrapping_sub(1);
    }

    /// Current number of active streams.
    pub fn active(&self) -> (r: u32)
        ensures
            r == self@,
    {
        self.active
    }
}

/// The number of active streams after an attempt to acquire a slot.
pub open spec fn acquired(active: nat, ceiling: nat) -> nat {
    if active < ceiling {
        active + 1
    } else {
        active
    }
}

/// The number of active streams after a release.
pub open spec fn released(active: nat) -> nat {
    if active == 0 {
        u32::MAX as nat
    } else {
        (active - 1) as nat
    }
}

/// A sequence of attempts to acquire, each against the ceiling of its moment.
pub open spec fn acquired_all(active: nat, ceilings: Seq<nat>) -> nat
    decreases ceilings.len(),
{
    if ceilings.len() == 0 {
        active
    } else {
        acquired(acquired_all(active, ceilings.drop_last()), ceilings.last())
    }
}

/// What is done to a semaphore.
pub enum Use {
    /// An attempt to acquire a slot under the ceiling of its moment.
    Attempt { ceiling: nat },
    /// A release.
    Release,
}

/// The number of active streams after a sequence of uses of a new semaphore.
pub open spec fn used_all(uses: Seq<Use>) -> nat
    decreases uses.len(),
{
    if uses.len() == 0 {
        0
    } else {
        match uses.last() {
            Use::Attempt { ceiling } => acquired(used_all(uses.drop_last()), ceiling),
            Use::Release => released(used_all(uses.drop_last())),
        }
    }
}

/// The number of attempts among `uses` that were admitted.
pub open spec fn successes(uses: Seq<Use>) -> nat
    decreases uses.len(),
{
    if uses.len() == 0 {
        0
    } else {
        match uses.last() {
            Use::Attempt { ceiling } => if used_all(uses.drop_last()) < ceiling {
                successes(uses.drop_last()) + 1
            } else {
                successes(uses.drop_last())
            },
            Use::Release => successes(uses.drop_last()),
        }
    }
}

/// The number of releases among `uses`.
pub open spec fn releases(uses: Seq<Use>) -> nat
    decreases uses.len(),
{
    if uses.len() == 0 {
        0
    } else {
        match uses.last() {
            Use::Attempt { .. } => releases(uses.drop_last()),
            Use::Release => releases(uses.drop_last()) + 1,
        }
    }
}

/// Whether each release follows an admission of its own.
pub open spec fn releases_follow_admissions(uses: Seq<Use>) -> bool {
    forall|n: int|
        0 <= n <= uses.len() ==> releases(#[trigger] uses.take(n)) <= successes(uses.take(n))
}

/// However attempts and releases follow one another, each release after an
/// admission of its own, the count is the admissions less the releases.
pub proof fn law_count_is_admissions_less_releases(uses: Seq<Use>)
    requires
        releases_follow_admissions(uses),
    ensures
        used_all(uses) == successes(uses) - releases(uses),
    decreases uses.len(),
{
    assert(uses.take(uses.len() as int) == uses);
    if uses.len() > 0 {
        let before = uses.drop_last();
        assert forall|n: int| 0 <= n <= before.len() implies releases(
            #[trigger] before.take(n),
        ) <= successes(before.take(n)) by {
            assert(before.take(n) == uses.take(n));
        }
        law_count_is_admissions_less_releases(before);
    }
}

/// Releasing undoes an admission.
pub proof fn law_release_undoes_admission(active: nat, ceiling: nat)
    requires
        active < ceiling,
    ensures
        released(acquired(active, ceiling)) == active,
        acquired(active, ceiling) <= ceiling,
{
}

/// No attempt admits a stream beyond the ceiling of its moment, and none evicts
/// an active stream: with a ceiling at or below the active count, the count
/// stands.
pub proof fn law_admission_never_exceeds_the_ceiling(active: nat, ceiling: nat)
    ensures
        acquired(active, ceiling) >= active,
        acquired(active, ceiling) > active ==> acquired(active, ceiling) <= ceiling,
        ceiling <= active ==> acquired(active, ceiling) == active,
        acquired(active, 0) == active,
{
}

/// Under a steady ceiling, attempts from none take slots up to the ceiling and
/// no further.
pub proof fn law_attempts_fill_up_to_the_ceiling(ceilings: Seq<nat>, ceiling: nat)
    requires
        forall|i: int| 0 <= i < ceilings.len() ==> #[trigger] ceilings[i] == ceiling,
    ensures
        acquired_all(0, ceilings) == if ceilings.len() <= ceiling {
            ceilings.len()
        } else {
            ceiling
        },
    decreases ceilings.len(),
{
    if ceilings.len() > 0 {
        law_attempts_fill_up_to_the_ceiling(ceilings.drop_last(), ceiling);
        assert(ceilings.last() == ceilings[ceilings.len() - 1]);
    }
}

/// An attempt takes exactly one slot if one is free under the ceiling and none
/// otherwise, and a release gives up exactly one, wrapping below zero.
pub proof fn law_slots_come_and_go_one_by_one(active: nat, ceiling: nat)
    ensures
        active < ceiling ==> acquired(active, ceiling) == active + 1,
        active >= ceiling ==> acquired(active, ceiling) == active,
        released(active + 1) == active,
        released(0) == 0xffff_ffff,
{
}

} // verus!

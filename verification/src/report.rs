//! Figures that the program's reports read off a tower: how many people are
//! in each state, and the verdict on a run.

use vstd::prelude::*;
use crate::state::{Person, PersonState};
use crate::tower::{Metrics, Tower};

verus! {

/// The daily upkeep that a run's verdict reckons with.
pub const EST_DAILY_UPKEEP: i64 = 9_443;

/// How many of the first `n` people are in state `st`.
pub open spec fn count_in_state(people: Seq<Person>, st: PersonState, n: nat) -> nat
    decreases n,
{
    if n == 0 {
        0
    } else {
        count_in_state(people, st, (n - 1) as nat) + if people[n - 1].state == st { 1nat } else { 0nat }
    }
}

/// How many people of the tower are in state `st`.
pub fn people_in_state(tower: &Tower, st: PersonState) -> (n: usize)
    ensures
        n == count_in_state(tower@.people, st, tower@.people.len()),
{
    let people = &tower.get_state().people;
    let len = people.len();
    let mut n: usize = 0;
    for i in 0..len
        invariant
            len == people.len(),
            people@ == tower@.people,
            n == count_in_state(tower@.people, st, i as nat),
            n <= i,
    {
        if people[i].state == st {
            n = n + 1;
        }
    }
    n
}

/// The verdict on a run.
#[derive(Debug, Clone, Copy, PartialEq, Eq, Structural)]
pub enum Verdict {
    /// Revenue has outgrown the reckoned upkeep and money is left: the tower
    /// earns `per_day` a day over the upkeep.
    Profitable { per_day: i64 },
    /// Money is left, but revenue does not yet cover the reckoned upkeep.
    Borderline,
    /// No money is left.
    Bankrupt,
}

/// The verdict on a run with these figures: revenue is held against the
/// reckoned upkeep of every whole day run, and what is left over is spread
/// over the whole days run (at least one).
pub open spec fn verdict_of(m: Metrics) -> Verdict {
    let days = m.time as int / 1440;
    let upkeep = EST_DAILY_UPKEEP * days;
    if m.total_revenue > upkeep && m.money > 0 {
        let spread = (if m.time > 1440 { m.time as int } else { 1440 }) / 1440;
        Verdict::Profitable { per_day: ((m.total_revenue - upkeep) / spread) as i64 }
    } else if m.money > 0 {
        Verdict::Borderline
    } else {
        Verdict::Bankrupt
    }
}

/// The verdict on a run with these figures (see `verdict_of`).
pub fn verdict(m: &Metrics) -> (v: Verdict)
    requires
        EST_DAILY_UPKEEP * (m.time / 1440) <= i64::MAX,
    ensures
        v == verdict_of(*m),
{
    let days = (m.time / 1440) as i64;
    let upkeep = EST_DAILY_UPKEEP * days;
    if m.total_revenue > upkeep && m.money > 0 {
        let t = if m.time > 1440 { m.time } else { 1440 };
        let spread = (t / 1440) as i64;
        Verdict::Profitable { per_day: (m.total_revenue - upkeep) / spread }
    } else if m.money > 0 {
        Verdict::Borderline
    } else {
        Verdict::Bankrupt
    }
}

} // verus!

use vstd::prelude::*;
use crate::rng::{next_random, rand_draw, rand_next};
use crate::simulation::cars;
use crate::state::{Elevator, ElevatorView, Event, EventKind, Floor};

verus! {

/// Odds against a special event starting in a given minute.
pub const EVENT_ODDS: u64 = 5000;

/// What a burnt-out fire costs.
pub const FIRE_DAMAGE: i64 = 20_000;

/// What a VIP visit brings in.
pub const VIP_BONUS: i64 = 10_000;

/// Whether the generator, in state `r`, starts a special event this minute.
pub open spec fn event_starts(r: u64) -> bool {
    rand_draw(rand_next(r)) as int % (EVENT_ODDS as int) == 0
}

/// The roll out of 100 that picks the kind of event, the generator being in
/// state `r` once the event has started.
pub open spec fn event_roll(r: u64) -> u64 {
    (rand_draw(rand_next(r)) % 100) as u64
}

/// A started event can be staged: a fire needs a floor to burn on.
pub open spec fn event_stageable(floors: Seq<Floor>, r: u64) -> bool {
    floors.len() > 0 || event_roll(r) >= 30
}

/// The event that starts, and the generator's state afterwards, the generator
/// being in state `r` once the event has started.  Three in ten events are
/// fires on a floor picked at random, lasting 30 to 89 minutes; three in ten
/// are VIP visits of an hour; two in ten are power outages of 20 minutes; the
/// rest are maintenance boosts of two hours.
pub open spec fn staged_event(floors: Seq<Floor>, r: u64) -> (Event, u64) {
    let r2 = rand_next(r);
    let roll = rand_draw(r2) % 100;
    if roll < 30 {
        let r3 = rand_next(r2);
        let n = if floors.len() == 0 { 1 } else { floors.len() as int };
        let idx = rand_draw(r3) as int % n;
        let r4 = rand_next(r3);
        (
            Event {
                name: EventKind::Fire,
                floor: Some(floors[idx].level),
                ticks_remaining: (30 + rand_draw(r4) % 60) as u32,
            },
            r4,
        )
    } else if roll < 60 {
        (Event { name: EventKind::VipVisit, floor: None, ticks_remaining: 60 }, r2)
    } else if roll < 80 {
        (Event { name: EventKind::PowerOutage, floor: None, ticks_remaining: 20 }, r2)
    } else {
        (Event { name: EventKind::MaintenanceBoost, floor: None, ticks_remaining: 120 }, r2)
    }
}

/// Cars after a power outage: every car's waiting counter grows by ten minutes.
pub open spec fn outage_delay(es: Seq<ElevatorView>) -> Seq<ElevatorView> {
    es.map_values(|e: ElevatorView| ElevatorView { total_wait_ticks: (e.total_wait_ticks + 10) as u64, ..e })
}

/// The first `n` events each run a minute: an event with time left loses a
/// minute and ends when none remains; an event with no time left ends at once
/// and, if it is a fire, counts as burnt out.  Gives the events that go on and
/// the number of burnt-out fires.
pub open spec fn expire_upto(events: Seq<Event>, n: nat) -> (Seq<Event>, nat)
    decreases n,
{
    if n == 0 {
        (Seq::empty(), 0)
    } else {
        let prev = expire_upto(events, (n - 1) as nat);
        let e = events[n - 1];
        if e.ticks_remaining > 0 {
            if e.ticks_remaining - 1 > 0 {
                (prev.0.push(Event { ticks_remaining: (e.ticks_remaining - 1) as u32, ..e }), prev.1)
            } else {
                prev
            }
        } else {
            (prev.0, if e.name == EventKind::Fire { prev.1 + 1 } else { prev.1 })
        }
    }
}

/// Every event runs a minute.
pub open spec fn expire(events: Seq<Event>) -> (Seq<Event>, nat) {
    expire_upto(events, events.len())
}

/// Events that go on have time left, and no more fires burn out than there were events.
pub proof fn lemma_expire_upto(events: Seq<Event>, n: nat)
    requires
        n <= events.len(),
    ensures
        expire_upto(events, n).1 <= n,
        expire_upto(events, n).0.len() <= n,
        forall|i: int| 0 <= i < expire_upto(events, n).0.len() ==> #[trigger] expire_upto(events, n).0[i].ticks_remaining > 0,
    decreases n,
{
    if n > 0 {
        lemma_expire_upto(events, (n - 1) as nat);
    }
}

/// Events that all have time left run a minute without any burning out.
pub proof fn lemma_expire_live(events: Seq<Event>, n: nat)
    requires
        n <= events.len(),
        forall|i: int| 0 <= i < events.len() ==> #[trigger] events[i].ticks_remaining > 0,
    ensures
        expire_upto(events, n).1 == 0,
    decreases n,
{
    if n > 0 {
        lemma_expire_live(events, (n - 1) as nat);
    }
}

/// A newly started event has time to run.
pub proof fn lemma_staged_live(floors: Seq<Floor>, r: u64)
    ensures
        staged_event(floors, r).0.ticks_remaining > 0,
{
}

/// Starts the event that the generator picks.
pub fn stage_event(floors: &Vec<Floor>, rng: &mut u64) -> (e: Event)
    requires
        event_stageable(floors@, *old(rng)),
    ensures
        (e, *final(rng)) == staged_event(floors@, *old(rng)),
{
    let roll = next_random(rng) % 100;
    if roll < 30 {
        let n: usize = if floors.len() == 0 { 1 } else { floors.len() };
        let idx = (next_random(rng) as usize) % n;
        let level = floors[idx].level;
        let ticks = 30 + (next_random(rng) % 60) as u32;
        Event { name: EventKind::Fire, floor: Some(level), ticks_remaining: ticks }
    } else if roll < 60 {
        Event { name: EventKind::VipVisit, floor: None, ticks_remaining: 60 }
    } else if roll < 80 {
        Event { name: EventKind::PowerOutage, floor: None, ticks_remaining: 20 }
    } else {
        Event { name: EventKind::MaintenanceBoost, floor: None, ticks_remaining: 120 }
    }
}

/// Every car's waiting counter grows by ten minutes.
pub fn delay_cars(elevators: &mut Vec<Elevator>)
    requires
        forall|j: int| 0 <= j < old(elevators)@.len() ==> #[trigger] old(elevators)@[j].total_wait_ticks + 10 <= u64::MAX,
    ensures
        cars(final(elevators)@) == outage_delay(cars(old(elevators)@)),
{
    let n = elevators.len();
    let ghost e0 = cars(elevators@);
    for j in 0..n
        invariant
            n == elevators.len(),
            e0.len() == n,
            e0 == cars(old(elevators)@),
            forall|k: int| 0 <= k < j ==> #[trigger] cars(elevators@)[k] == (ElevatorView { total_wait_ticks: (e0[k].total_wait_ticks + 10) as u64, ..e0[k] }),
            forall|k: int| j <= k < n ==> #[trigger] cars(elevators@)[k] == e0[k],
            forall|k: int| 0 <= k < n ==> #[trigger] old(elevators)@[k].total_wait_ticks + 10 <= u64::MAX,
    {
        assert(cars(elevators@)[j as int] == e0[j as int]);
        let ghost prev = cars(elevators@);
        let e = &mut elevators[j];
        e.total_wait_ticks = e.total_wait_ticks + 10;
        proof {
            assert(cars(elevators@) =~= prev.update(
                j as int,
                ElevatorView { total_wait_ticks: (e0[j as int].total_wait_ticks + 10) as u64, ..e0[j as int] },
            ));
        }
    }
    assert(cars(elevators@) =~= outage_delay(e0));
}

/// Every event runs a minute; gives the number of fires that burnt out.
pub fn run_events(events: &mut Vec<Event>) -> (burnt: u64)
    ensures
        (final(events)@, burnt as nat) == expire(old(events)@),
{
    let n = events.len();
    let mut kept: Vec<Event> = Vec::new();
    let mut burnt: u64 = 0;
    for i in 0..n
        invariant
            n == events.len(),
            (kept@, burnt as nat) == expire_upto(events@, i as nat),
            burnt <= i,
    {
        proof {
            lemma_expire_upto(events@, i as nat);
        }
        let e = events[i];
        if e.ticks_remaining > 0 {
            if e.ticks_remaining - 1 > 0 {
                let mut e1 = e;
                e1.ticks_remaining = e.ticks_remaining - 1;
                kept.push(e1);
            }
        } else if e.name == EventKind::Fire {
            burnt = burnt + 1;
        }
    }
    *events = kept;
    burnt
}

} // verus!

use vstd::prelude::*;
use crate::economy::{emptied, income, income_cap, is_income_minute, upkeep};
use crate::events::{
    event_stageable, event_starts, expire, outage_delay, staged_event, FIRE_DAMAGE, VIP_BONUS,
};
use crate::rng::{rand_draw, rand_next};
use crate::simulation::{boarding, car_movement, Traffic};
use crate::state::EventKind;
use crate::tower::{spawn_spec, TowerView};

verus! {

/// Minutes in a day.
pub const MINUTES_PER_DAY: u64 = 1440;

/// The hour of the day at a given minute of the simulation.
pub open spec fn hour_of(time: u64) -> int {
    (time as int / 60) % 24
}

/// Visitors come between 7:00 and 22:59.
pub open spec fn business_hours(hour: int) -> bool {
    7 <= hour <= 22
}

/// One in how many minutes a visitor comes: every other minute from 8:00 to
/// 18:59, every minute in the rest of business hours.
pub open spec fn spawn_rate(hour: int) -> int {
    if 8 <= hour <= 18 {
        2
    } else if business_hours(hour) {
        1
    } else {
        4
    }
}

/// A visitor appears on a floor picked at random, heading for another floor
/// picked at random; nothing happens while fewer than two floors stand.
pub open spec fn visitor_spec(s: TowerView) -> TowerView {
    let n = s.floors.len() as int;
    if n < 2 {
        s
    } else {
        let r1 = rand_next(s.rng);
        let a = rand_draw(r1) as int % n;
        let r2 = rand_next(r1);
        let b0 = rand_draw(r2) as int % n;
        let b = if b0 == a { (b0 + 1) % n } else { b0 };
        spawn_spec(TowerView { rng: r2, ..s }, s.floors[a].level, s.floors[b].level)
    }
}

/// The clock moves on a minute; in business hours a visitor may come.
pub open spec fn clock_spec(s: TowerView) -> TowerView {
    let s1 = TowerView { time: (s.time + 1) as u64, ..s };
    let hour = hour_of(s1.time);
    if business_hours(hour) {
        let r = rand_next(s1.rng);
        let s2 = TowerView { rng: r, ..s1 };
        if rand_draw(r) as int % spawn_rate(hour) == 0 {
            visitor_spec(s2)
        } else {
            s2
        }
    } else {
        s1
    }
}

/// Waiting people board cars.
pub open spec fn boarding_spec(s: TowerView) -> TowerView {
    let b = boarding(s.people, s.elevators);
    TowerView { people: b.0, elevators: b.1, ..s }
}

/// Cars move, and passengers get off.
pub open spec fn cars_spec(s: TowerView) -> TowerView {
    let t = car_movement(
        Traffic { people: s.people, cars: s.elevators, floors: s.floors, served: s.population_served },
    );
    TowerView { people: t.people, elevators: t.cars, floors: t.floors, population_served: t.served, ..s }
}

/// At 8:00, 12:00, 16:00 and 20:00 the floors' income comes in.
pub open spec fn income_spec(s: TowerView) -> TowerView {
    if is_income_minute(s.time as int % MINUTES_PER_DAY as int) {
        let earned = income(s.floors);
        TowerView {
            money: (s.money + earned) as i64,
            total_revenue: (s.total_revenue + earned) as i64,
            ..s
        }
    } else {
        s
    }
}

/// At midnight the maintenance bill is paid and every floor empties.
pub open spec fn upkeep_spec(s: TowerView) -> TowerView {
    if s.time as int % MINUTES_PER_DAY as int == 0 {
        let bill = upkeep(s.floors, s.elevators.len(), s.active_events);
        TowerView {
            money: (s.money - bill) as i64,
            total_expenses: (s.total_expenses + bill) as i64,
            floors: emptied(s.floors),
            ..s
        }
    } else {
        s
    }
}

/// Once in a while a special event starts: a VIP visit brings money in, a
/// power outage keeps every car's waiting counter ten minutes longer.
pub open spec fn event_spec(s: TowerView) -> TowerView {
    let r1 = rand_next(s.rng);
    if event_starts(s.rng) {
        let staged = staged_event(s.floors, r1);
        let ev = staged.0;
        TowerView {
            rng: staged.1,
            money: if ev.name == EventKind::VipVisit {
                (s.money + VIP_BONUS) as i64
            } else {
                s.money
            },
            elevators: if ev.name == EventKind::PowerOutage {
                outage_delay(s.elevators)
            } else {
                s.elevators
            },
            active_events: s.active_events.push(ev),
            ..s
        }
    } else {
        TowerView { rng: r1, ..s }
    }
}

/// Events run a minute; each burnt-out fire costs its damage.
pub open spec fn expiry_spec(s: TowerView) -> TowerView {
    let x = expire(s.active_events);
    TowerView {
        active_events: x.0,
        money: (s.money - FIRE_DAMAGE * x.1) as i64,
        ..s
    }
}

/// One simulated minute.
pub open spec fn tick_spec(s: TowerView) -> TowerView {
    expiry_spec(event_spec(upkeep_spec(income_spec(cars_spec(boarding_spec(clock_spec(s)))))))
}

/// `k` simulated minutes.
pub open spec fn run_spec(s: TowerView, k: nat) -> TowerView
    decreases k,
{
    if k == 0 {
        s
    } else {
        run_spec(tick_spec(s), (k - 1) as nat)
    }
}

/// A minute can be simulated within the machine's integers: every counter
/// and sum has room for what the minute can add to it, and a fire that
/// starts has a floor to burn on.
pub open spec fn tick_safe(s: TowerView) -> bool {
    let ne = s.elevators.len();
    let bill = upkeep(s.floors, ne, s.active_events);
    &&& s.time < u64::MAX
    &&& s.next_person_id < u32::MAX
    &&& forall|i: int| 0 <= i < s.people.len() ==> (#[trigger] s.people[i]).travel_ticks + 10 * ne <= u64::MAX
    &&& forall|j: int|
        0 <= j < ne ==> {
            &&& (#[trigger] s.elevators[j]).total_wait_ticks + 10 * (s.time + 1) + 10 <= u64::MAX
            &&& s.elevators[j].trips_completed < u64::MAX
        }
    &&& s.population_served + 10 * ne <= u64::MAX
    &&& s.money + income_cap(s.floors) + VIP_BONUS <= i64::MAX
    &&& s.total_revenue + income_cap(s.floors) <= i64::MAX
    &&& s.money - bill >= i64::MIN
    &&& s.total_expenses + bill <= i64::MAX
    &&& event_starts(clock_spec(s).rng) ==> event_stageable(s.floors, rand_next(clock_spec(s).rng))
}

/// `k` minutes can be simulated within the machine's integers.
pub open spec fn run_safe(s: TowerView, k: nat) -> bool
    decreases k,
{
    if k == 0 {
        true
    } else {
        tick_safe(s) && run_safe(tick_spec(s), (k - 1) as nat)
    }
}

} // verus!

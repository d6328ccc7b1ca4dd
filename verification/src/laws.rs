use vstd::prelude::*;
use crate::economy::{
    lemma_income_partial, income_upto, floor_upkeep_upto, has_event, has_event_upto, top_level_upto, emptied, income, income_cap, lemma_income_within_cap, lemma_upkeep_nonnegative,
    lemma_upkeep_same_plan, upkeep,
};
use crate::events::{event_starts, expire, expire_upto, lemma_expire_live, lemma_staged_live, staged_event, VIP_BONUS};
use crate::rng::rand_next;
use crate::state::EventKind;
use crate::tick::{
    run_safe, boarding_spec, cars_spec, clock_spec, event_spec, expiry_spec, income_spec, run_spec,
    tick_safe, tick_spec, upkeep_spec, MINUTES_PER_DAY,
};
use crate::flow::{arrived_count, arrived_upto, ids_ok, lemma_boarding, lemma_cars, riders_ok};
use crate::simulation::{boarding, boarding_upto, board, first_boardable, lemma_first_boardable, person_step, wanted_direction, cars_upto, distance, idle_target, nearest_waiting, occupancy_ok, same_floor_plan, Traffic};
use crate::state::{Direction, ElevatorView, Event, Person, PersonState};
use crate::progress::{all_moved_on, lemma_boarding_moves_on, lemma_cars_move_on, lemma_moved_on_trans, moved_on};
use crate::riders::{aboard, lemma_aboard_kept, lemma_boarding_aboard, lemma_cars_aboard, passengers_kept, riders_aboard};
use crate::tower::{lemma_clock, metrics_of, active_upto, new_elevator, spawn_spec, TowerView};
use crate::report::count_in_state;
use crate::floor_type::spec_income_per_person;

verus! {

/// The state just before the money is settled in a minute: after the clock,
/// boarding and car movement.
pub open spec fn moved(s: TowerView) -> TowerView {
    cars_spec(boarding_spec(clock_spec(s)))
}

/// Each simulated minute moves the clock on by exactly one minute.
pub proof fn lemma_tick_advances_clock(s: TowerView)
    requires
        s.time < u64::MAX,
    ensures
        tick_spec(s).time == s.time + 1,
{
}

/// Simulating `a` minutes and then `b` more is simulating `a + b` minutes.
pub proof fn lemma_run_composes(s: TowerView, a: nat, b: nat)
    ensures
        run_spec(run_spec(s, a), b) == run_spec(s, a + b),
    decreases a,
{
    if a > 0 {
        lemma_run_composes(tick_spec(s), (a - 1) as nat, b);
        assert((a - 1) as nat + b == (a + b - 1) as nat);
    }
}

/// The simulation is deterministic: towers in the same state, simulated for
/// the same number of minutes, end in the same state.
pub proof fn lemma_runs_reproducible(a: TowerView, b: TowerView, k: nat)
    requires
        a == b,
    ensures
        run_spec(a, k) == run_spec(b, k),
{
}

/// Simulating `k` minutes moves the clock on by exactly `k` minutes.
pub proof fn lemma_run_advances_clock(s: TowerView, k: nat)
    requires
        s.time + k <= u64::MAX,
    ensures
        run_spec(s, k).time == s.time + k,
    decreases k,
{
    if k > 0 {
        lemma_tick_advances_clock(s);
        lemma_run_advances_clock(tick_spec(s), (k - 1) as nat);
    }
}

/// What the clock, boarding and car movement of one minute do: people who
/// have arrived stay as they were and nobody leaves; no car moves more than one
/// level; the floor plan stays, with nobody over capacity; and the count of
/// people served stays the count of arrivals.
pub proof fn lemma_moved(s: TowerView)
    requires
        s.wf(),
        s.time < u64::MAX,
        s.next_person_id < u32::MAX,
        s.population_served + 10 * s.elevators.len() <= u64::MAX,
    ensures
        ({
            let m = moved(s);
            &&& m.people.len() >= s.people.len()
            &&& forall|i: int| 0 <= i < s.people.len() && s.people[i].state == PersonState::Arrived ==> #[trigger] m.people[i] == s.people[i]
            &&& m.elevators.len() == s.elevators.len()
            &&& forall|j: int| 0 <= j < s.elevators.len() ==> -1 <= (#[trigger] m.elevators[j]).current_floor - s.elevators[j].current_floor <= 1
            &&& same_floor_plan(s.floors, m.floors)
            &&& occupancy_ok(m.floors)
            &&& ids_ok(m.people)
            &&& riders_ok(m.people, m.elevators)
            &&& m.population_served == arrived_count(m.people)
        }),
{
    lemma_clock(s);
    let c = clock_spec(s);
    lemma_boarding(c.people, c.elevators, c.people.len());
    let b = boarding_spec(c);
    assert forall|j: int| 0 <= j < b.elevators.len() implies (#[trigger] b.elevators[j]).passengers.len() <= 10 by {
        assert(c.elevators[j].capacity == 10);
    }
    let t = Traffic { people: b.people, cars: b.elevators, floors: b.floors, served: b.population_served };
    lemma_cars(t, t.cars.len());
    let m = moved(s);
    assert forall|i: int| 0 <= i < s.people.len() && s.people[i].state == PersonState::Arrived implies #[trigger] m.people[i] == s.people[i] by {
        assert(c.people[i] == s.people[i]);
        assert(b.people[i] == c.people[i]);
    }
    assert forall|j: int| 0 <= j < s.elevators.len() implies -1 <= (#[trigger] m.elevators[j]).current_floor - s.elevators[j].current_floor <= 1 by {
        assert(b.elevators[j].current_floor == c.elevators[j].current_floor);
    }
    assert forall|i: int| 0 <= i < s.floors.len() implies (#[trigger] s.floors[i]).current_occupants <= s.floors[i].capacity by {
    }
}

/// People who have arrived are never touched again, and nobody ever leaves
/// the tower's records.
pub proof fn lemma_arrived_people_stay(s: TowerView)
    requires
        s.wf(),
        s.time < u64::MAX,
        s.next_person_id < u32::MAX,
        s.population_served + 10 * s.elevators.len() <= u64::MAX,
    ensures
        tick_spec(s).people.len() >= s.people.len(),
        forall|i: int| 0 <= i < s.people.len() && s.people[i].state == PersonState::Arrived ==> #[trigger] tick_spec(s).people[i] == s.people[i],
{
    lemma_moved(s);
}

/// In a minute no car moves more than one level, and no car appears or goes.
pub proof fn lemma_cars_move_one_level(s: TowerView)
    requires
        s.wf(),
        s.time < u64::MAX,
        s.next_person_id < u32::MAX,
        s.population_served + 10 * s.elevators.len() <= u64::MAX,
    ensures
        tick_spec(s).elevators.len() == s.elevators.len(),
        forall|j: int| 0 <= j < s.elevators.len() ==> -1 <= (#[trigger] tick_spec(s).elevators[j]).current_floor - s.elevators[j].current_floor <= 1,
{
    lemma_moved(s);
    let m = moved(s);
    let e = event_spec(upkeep_spec(income_spec(m)));
    assert forall|j: int| 0 <= j < s.elevators.len() implies (#[trigger] tick_spec(s).elevators[j]).current_floor == m.elevators[j].current_floor by {
        assert(tick_spec(s).elevators == e.elevators);
    }
}

/// The served count always equals the number of people who have arrived.
pub proof fn lemma_served_counts_arrivals(s: TowerView)
    requires
        s.wf(),
    ensures
        s.population_served == arrived_count(s.people),
{
}

/// The simulation never builds or demolishes floors, nor fills one beyond
/// its capacity; at midnight every floor is emptied.
pub proof fn lemma_floor_plan_kept(s: TowerView)
    requires
        s.wf(),
        s.time < u64::MAX,
        s.next_person_id < u32::MAX,
        s.population_served + 10 * s.elevators.len() <= u64::MAX,
    ensures
        same_floor_plan(s.floors, tick_spec(s).floors),
        occupancy_ok(tick_spec(s).floors),
        (s.time + 1) % 1440 == 0 ==> forall|i: int|
            0 <= i < tick_spec(s).floors.len() ==> (#[trigger] tick_spec(s).floors[i]).current_occupants == 0,
{
    lemma_moved(s);
    let m = moved(s);
    let u = upkeep_spec(income_spec(m));
    assert(tick_spec(s).floors == u.floors);
    if m.time as int % MINUTES_PER_DAY as int == 0 {
        assert(u.floors == emptied(m.floors));
        assert forall|i: int| 0 <= i < s.floors.len() implies {
            &&& (#[trigger] u.floors[i]).level == s.floors[i].level
            &&& u.floors[i].floor_type == s.floors[i].floor_type
            &&& u.floors[i].capacity == s.floors[i].capacity
            &&& u.floors[i].satisfaction == s.floors[i].satisfaction
        } by {
            assert(m.floors[i].level == s.floors[i].level);
        }
    }
}

/// What a VIP visit starting this minute brings in, if one starts.
pub open spec fn vip_bonus(s: TowerView) -> int {
    let u = upkeep_spec(income_spec(moved(s)));
    if event_starts(u.rng) && staged_event(u.floors, rand_next(u.rng)).0.name == EventKind::VipVisit {
        VIP_BONUS as int
    } else {
        0
    }
}

/// How many fires burn out this minute.
pub open spec fn fires_burnt(s: TowerView) -> nat {
    expire(event_spec(upkeep_spec(income_spec(moved(s)))).active_events).1
}

/// No fire ever costs its damage: every event in progress has time left,
/// and an event ends as soon as its time runs out, so none is ever found
/// burnt out.
pub proof fn lemma_no_fire_damage(s: TowerView)
    requires
        s.wf(),
    ensures
        fires_burnt(s) == 0,
{
    let e = event_spec(upkeep_spec(income_spec(moved(s))));
    assert(moved(s).active_events == s.active_events);
    let u = upkeep_spec(income_spec(moved(s)));
    lemma_staged_live(u.floors, rand_next(u.rng));
    assert forall|i: int| 0 <= i < e.active_events.len() implies #[trigger] e.active_events[i].ticks_remaining > 0 by {
        if i < s.active_events.len() {
            assert(e.active_events[i] == s.active_events[i]);
        }
    }
    lemma_expire_live(e.active_events, e.active_events.len());
}

/// Where money comes from and goes to in a minute.  Revenue comes in only
/// at 8:00, 12:00, 16:00 and 20:00, and then it is what the floors earn;
/// expenses are paid only at midnight, and then they are the maintenance
/// bill; and apart from revenue and expenses, money changes only by a VIP
/// visit's bonus.
pub proof fn lemma_money_flow(s: TowerView)
    requires
        s.wf(),
        tick_safe(s),
    ensures
        ({
            let t = tick_spec(s);
            let minute = (s.time + 1) % 1440;
            &&& (minute == 480 || minute == 720 || minute == 960 || minute == 1200) ==> t.total_revenue
                == s.total_revenue + income(moved(s).floors)
            &&& !(minute == 480 || minute == 720 || minute == 960 || minute == 1200) ==> t.total_revenue
                == s.total_revenue
            &&& minute == 0 ==> t.total_expenses == s.total_expenses + upkeep(s.floors, s.elevators.len(), s.active_events)
            &&& minute != 0 ==> t.total_expenses == s.total_expenses
            &&& t.money - s.money == (t.total_revenue - s.total_revenue) - (t.total_expenses - s.total_expenses)
                + vip_bonus(s)
        }),
{
    lemma_no_fire_damage(s);
    lemma_moved(s);
    let m = moved(s);
    lemma_income_within_cap(s.floors, m.floors, m.floors.len());
    lemma_upkeep_same_plan(s.floors, m.floors, m.floors.len());
    lemma_upkeep_nonnegative(s.floors, s.elevators.len(), s.active_events);
    let bill = upkeep(s.floors, s.elevators.len(), s.active_events);
    assert(upkeep(m.floors, m.elevators.len(), m.active_events) == bill);
}

/// What the search for the closest waiting person among the first `n`
/// finds: nobody among them who waits is closer, and the level found is a
/// waiting person's or the car's own.
proof fn lemma_nearest_waiting(people: Seq<Person>, cur: i32, n: nat)
    requires
        n <= people.len(),
    ensures
        ({
            let (d, level) = nearest_waiting(people, cur, n);
            &&& d <= i32::MAX
            &&& distance(level, cur) <= d
            &&& forall|i: int|
                0 <= i < n && (#[trigger] people[i]).state == PersonState::Waiting ==> d <= distance(
                    people[i].current_floor,
                    cur,
                )
            &&& level == cur || exists|i: int|
                0 <= i < n && (#[trigger] people[i]).state == PersonState::Waiting && people[i].current_floor
                    == level
        }),
    decreases n,
{
    if n > 0 {
        lemma_nearest_waiting(people, cur, (n - 1) as nat);
        let prev = nearest_waiting(people, cur, (n - 1) as nat);
        let p = people[n - 1];
        if p.state == PersonState::Waiting && distance(p.current_floor, cur) < prev.0 {
            assert(people[n - 1].current_floor == nearest_waiting(people, cur, n).1);
        }
    }
}

/// An empty car is sent towards the closest waiting person: no waiting
/// person is closer to it than the level it heads for, and that level is
/// where somebody waits, or the car's own level when nobody does.
pub proof fn lemma_dispatch_nearest(people: Seq<Person>, cur: i32)
    ensures
        forall|i: int|
            0 <= i < people.len() && (#[trigger] people[i]).state == PersonState::Waiting ==> distance(
                idle_target(people, cur),
                cur,
            ) <= distance(people[i].current_floor, cur),
        idle_target(people, cur) == cur || exists|i: int|
            0 <= i < people.len() && (#[trigger] people[i]).state == PersonState::Waiting
                && people[i].current_floor == idle_target(people, cur),
{
    lemma_nearest_waiting(people, cur, people.len());
}

/// Where everybody who had arrived is still arrived, at least as many people
/// have arrived.
proof fn lemma_arrivals_grow(a: Seq<Person>, b: Seq<Person>, n: nat)
    requires
        n <= a.len() <= b.len(),
        forall|i: int| 0 <= i < a.len() && a[i].state == PersonState::Arrived ==> #[trigger] b[i] == a[i],
    ensures
        arrived_upto(a, n) <= arrived_upto(b, n),
    decreases n,
{
    if n > 0 {
        lemma_arrivals_grow(a, b, (n - 1) as nat);
    }
}

/// A count of arrivals over a prefix is at most the count over more people.
proof fn lemma_arrivals_prefix(b: Seq<Person>, k: nat, n: nat)
    requires
        k <= n <= b.len(),
    ensures
        arrived_upto(b, k) <= arrived_upto(b, n),
    decreases n,
{
    if n > k {
        lemma_arrivals_prefix(b, k, (n - 1) as nat);
    }
}

/// What one minute does to the totals: the clock moves on a minute; revenue,
/// expenses and the count of people served never fall, and nobody leaves
/// the records; the money moves by no more than the floors can earn plus a
/// VIP bonus, and falls by no more than the maintenance bill.
pub proof fn lemma_tick_totals(s: TowerView)
    requires
        s.wf(),
        tick_safe(s),
    ensures
        ({
            let t = tick_spec(s);
            &&& t.time == s.time + 1
            &&& t.total_revenue >= s.total_revenue
            &&& t.total_expenses >= s.total_expenses
            &&& t.population_served >= s.population_served
            &&& t.people.len() >= s.people.len()
            &&& -upkeep(s.floors, s.elevators.len(), s.active_events) <= t.money - s.money <= income_cap(s.floors)
                + VIP_BONUS
        }),
{
    lemma_money_flow(s);
    lemma_moved(s);
    let m = moved(s);
    lemma_income_within_cap(s.floors, m.floors, m.floors.len());
    lemma_upkeep_nonnegative(s.floors, s.elevators.len(), s.active_events);
    lemma_arrivals_grow(s.people, m.people, s.people.len());
    lemma_arrivals_prefix(m.people, s.people.len(), m.people.len());
}

/// A newcomer of the clock's minute waits; everybody else is as they were.
proof fn lemma_clock_newcomer(s: TowerView)
    requires
        s.wf(),
        s.time < u64::MAX,
        s.next_person_id < u32::MAX,
    ensures
        forall|i: int| s.people.len() <= i < clock_spec(s).people.len() ==> (#[trigger] clock_spec(s).people[i]).state == PersonState::Waiting,
{
    lemma_clock(s);
}

/// Everybody who rides stays aboard a car through a minute: together with
/// the tower's invariant, every riding person is aboard exactly one car
/// before and after every minute.
pub proof fn lemma_riders_aboard_tick(s: TowerView)
    requires
        s.wf(),
        tick_safe(s),
        riders_aboard(s.people, s.elevators),
    ensures
        riders_aboard(tick_spec(s).people, tick_spec(s).elevators),
{
    lemma_clock(s);
    lemma_clock_newcomer(s);
    let c = clock_spec(s);
    assert(riders_aboard(c.people, c.elevators)) by {
        assert forall|q: int| 0 <= q < c.people.len() && (#[trigger] c.people[q]).state == PersonState::Riding implies aboard(c.elevators, q) by {
            assert(c.people[q] == s.people[q]);
        }
    }
    lemma_boarding(c.people, c.elevators, c.people.len());
    lemma_boarding_aboard(c.people, c.elevators, c.people.len());
    let b = boarding_spec(c);
    assert forall|j: int| 0 <= j < b.elevators.len() implies (#[trigger] b.elevators[j]).passengers.len() <= 10 by {
        assert(c.elevators[j].capacity == 10);
    }
    let t = Traffic { people: b.people, cars: b.elevators, floors: b.floors, served: b.population_served };
    lemma_cars_aboard(t, t.cars.len());
    let m = moved(s);
    let u = upkeep_spec(income_spec(m));
    let e = event_spec(u);
    assert(passengers_kept(u.elevators, e.elevators)) by {
        assert forall|j: int| 0 <= j < u.elevators.len() implies (#[trigger] u.elevators[j]).passengers.len() <= e.elevators[j].passengers.len()
            && forall|k: int| 0 <= k < u.elevators[j].passengers.len() ==> #[trigger] e.elevators[j].passengers[k] == u.elevators[j].passengers[k] by {
            assert(e.elevators[j].passengers == u.elevators[j].passengers);
        }
    }
    let x = tick_spec(s);
    assert forall|q: int| 0 <= q < x.people.len() && (#[trigger] x.people[q]).state == PersonState::Riding implies aboard(x.elevators, q) by {
        assert(x.people[q] == u.people[q]);
        lemma_aboard_kept(u.elevators, e.elevators, q);
    }
}

/// A new, empty car leaves everybody who rides aboard the car they were in.
pub proof fn lemma_riders_aboard_new_car(people: Seq<Person>, es: Seq<ElevatorView>, shaft: u32)
    requires
        riders_aboard(people, es),
    ensures
        riders_aboard(people, es.push(new_elevator(shaft))),
{
    let es2 = es.push(new_elevator(shaft));
    assert(passengers_kept(es, es2)) by {
        assert forall|j: int| 0 <= j < es.len() implies (#[trigger] es[j]).passengers.len() <= es2[j].passengers.len()
            && forall|k: int| 0 <= k < es[j].passengers.len() ==> #[trigger] es2[j].passengers[k] == es[j].passengers[k] by {
            assert(es2[j] == es[j]);
        }
    }
    assert forall|q: int| 0 <= q < people.len() && (#[trigger] people[q]).state == PersonState::Riding implies aboard(es2, q) by {
        lemma_aboard_kept(es, es2, q);
    }
}

/// In a well-formed tower every riding person is aboard exactly one car, in
/// exactly one place.
pub proof fn lemma_rider_in_one_car(s: TowerView, i: int)
    requires
        s.wf(),
        0 <= i < s.people.len(),
        s.people[i].state == PersonState::Riding,
    ensures
        aboard(s.elevators, i),
        forall|j1: int, k1: int, j2: int, k2: int|
            0 <= j1 < s.elevators.len() && 0 <= k1 < s.elevators[j1].passengers.len() && 0 <= j2 < s.elevators.len()
                && 0 <= k2 < s.elevators[j2].passengers.len() && #[trigger] s.elevators[j1].passengers[k1] == i
                && #[trigger] s.elevators[j2].passengers[k2] == i ==> j1 == j2 && k1 == k2,
{
}

/// Cars keep their shafts and capacities, in order, while they take their turns.
proof fn lemma_cars_keep_identity(t: Traffic, n: nat)
    requires
        n <= t.cars.len(),
    ensures
        cars_upto(t, n).cars.len() == t.cars.len(),
        forall|j: int| 0 <= j < t.cars.len() ==> {
            &&& (#[trigger] cars_upto(t, n).cars[j]).shaft == t.cars[j].shaft
            &&& cars_upto(t, n).cars[j].capacity == t.cars[j].capacity
        },
    decreases n,
{
    if n > 0 {
        lemma_cars_keep_identity(t, (n - 1) as nat);
    }
}

/// What one minute keeps of the tower's layout: the same floors at the same
/// levels, of the same types and capacities; the same cars in the same
/// shafts, with the same capacities; and at most one more event.
pub proof fn lemma_tick_layout(s: TowerView)
    requires
        s.wf(),
        tick_safe(s),
    ensures
        same_floor_plan(s.floors, tick_spec(s).floors),
        tick_spec(s).elevators.len() == s.elevators.len(),
        forall|j: int| 0 <= j < s.elevators.len() ==> {
            &&& (#[trigger] tick_spec(s).elevators[j]).shaft == s.elevators[j].shaft
            &&& tick_spec(s).elevators[j].capacity == s.elevators[j].capacity
        },
        tick_spec(s).active_events.len() <= s.active_events.len() + 1,
{
    lemma_floor_plan_kept(s);
    lemma_clock(s);
    let c = clock_spec(s);
    lemma_boarding(c.people, c.elevators, c.people.len());
    let b = boarding_spec(c);
    let t = Traffic { people: b.people, cars: b.elevators, floors: b.floors, served: b.population_served };
    lemma_cars_keep_identity(t, t.cars.len());
    let u = upkeep_spec(income_spec(moved(s)));
    let e = event_spec(u);
    crate::events::lemma_expire_upto(e.active_events, e.active_events.len());
    let x = tick_spec(s);
    assert forall|j: int| 0 <= j < s.elevators.len() implies {
        &&& (#[trigger] x.elevators[j]).shaft == s.elevators[j].shaft
        &&& x.elevators[j].capacity == s.elevators[j].capacity
    } by {
        assert(b.elevators[j].shaft == c.elevators[j].shaft);
        assert(x.elevators[j].shaft == e.elevators[j].shaft);
        assert(e.elevators[j].shaft == u.elevators[j].shaft);
    }
}

/// Keeping the floor plan twice keeps it.
pub proof fn lemma_plan_trans(a: Seq<crate::state::Floor>, b: Seq<crate::state::Floor>, c: Seq<crate::state::Floor>)
    requires
        same_floor_plan(a, b),
        same_floor_plan(b, c),
    ensures
        same_floor_plan(a, c),
{
    assert forall|i: int| 0 <= i < a.len() implies {
        &&& (#[trigger] c[i]).level == a[i].level
        &&& c[i].floor_type == a[i].floor_type
        &&& c[i].capacity == a[i].capacity
        &&& c[i].satisfaction == a[i].satisfaction
    } by {
        assert(b[i].level == a[i].level);
        assert(c[i].level == b[i].level);
    }
}

/// Through a minute everybody moves on: the same people, headed for the same
/// levels, only ever going from waiting to riding to arrived, and untouched
/// once arrived; newcomers come after them.
pub proof fn lemma_tick_moves_people_on(s: TowerView)
    requires
        s.wf(),
        tick_safe(s),
    ensures
        all_moved_on(s.people, tick_spec(s).people),
{
    lemma_clock(s);
    let c = clock_spec(s);
    assert(all_moved_on(s.people, c.people)) by {
        assert forall|i: int| 0 <= i < s.people.len() implies moved_on(s.people[i], #[trigger] c.people[i]) by {
            assert(c.people[i] == s.people[i]);
        }
    }
    lemma_boarding(c.people, c.elevators, c.people.len());
    lemma_boarding_moves_on(c.people, c.elevators, c.people.len());
    let b = boarding_spec(c);
    assert forall|j: int| 0 <= j < b.elevators.len() implies (#[trigger] b.elevators[j]).passengers.len() <= 10 by {
        assert(c.elevators[j].capacity == 10);
    }
    let t = Traffic { people: b.people, cars: b.elevators, floors: b.floors, served: b.population_served };
    lemma_cars_move_on(t, t.cars.len());
    lemma_moved_on_trans(s.people, c.people, b.people);
    lemma_moved_on_trans(s.people, b.people, moved(s).people);
    assert(tick_spec(s).people == moved(s).people);
}

/// A run of `a + b` minutes fits the machine's integers exactly when a run of
/// `a` minutes does and a run of `b` more minutes from where it ends does; so
/// advancing `a` minutes and then `b` may be called exactly where advancing
/// `a + b` may, and ends in the same tower.
pub proof fn lemma_run_safe_split(s: TowerView, a: nat, b: nat)
    ensures
        run_safe(s, a + b) == (run_safe(s, a) && run_safe(run_spec(s, a), b)),
        run_spec(run_spec(s, a), b) == run_spec(s, a + b),
    decreases a,
{
    lemma_run_composes(s, a, b);
    if a > 0 {
        lemma_run_safe_split(tick_spec(s), (a - 1) as nat, b);
        assert((a - 1) as nat + b == (a + b - 1) as nat);
    }
}

/// Events after one minute's countdown: in order, each event with two or more
/// minutes left goes on with one minute less, and each with one minute left ends.
pub open spec fn countdown(es: Seq<Event>) -> Seq<Event>
    decreases es.len(),
{
    if es.len() == 0 {
        Seq::empty()
    } else {
        let prev = countdown(es.drop_last());
        let e = es.last();
        if e.ticks_remaining >= 2 {
            prev.push(Event { ticks_remaining: (e.ticks_remaining - 1) as u32, ..e })
        } else {
            prev
        }
    }
}

/// The events in progress during a minute, before they count down: those of
/// the tower, and after them the one that starts this minute, if any.
pub open spec fn events_of_minute(s: TowerView) -> Seq<Event> {
    event_spec(upkeep_spec(income_spec(moved(s)))).active_events
}

/// Running events that all have time left is counting them down.
proof fn lemma_expire_is_countdown(es: Seq<Event>, n: nat)
    requires
        n <= es.len(),
        forall|i: int| 0 <= i < es.len() ==> #[trigger] es[i].ticks_remaining > 0,
    ensures
        expire_upto(es, n).0 == countdown(es.take(n as int)),
    decreases n,
{
    if n > 0 {
        lemma_expire_is_countdown(es, (n - 1) as nat);
        assert(es.take(n as int).drop_last() =~= es.take(n - 1));
        assert(es.take(n as int).last() == es[n - 1]);
    } else {
        assert(es.take(0) =~= Seq::<Event>::empty());
    }
}

/// The events of a minute: the tower's events, in order, and at most one new
/// one after them, each with time left; they all count down, in order, each
/// going on with a minute less or ending when its last minute is up.
pub proof fn lemma_events_count_down(s: TowerView)
    requires
        s.wf(),
        tick_safe(s),
    ensures
        events_of_minute(s).len() <= s.active_events.len() + 1,
        events_of_minute(s).take(s.active_events.len() as int) == s.active_events,
        forall|i: int| 0 <= i < events_of_minute(s).len() ==> #[trigger] events_of_minute(s)[i].ticks_remaining >= 1,
        tick_spec(s).active_events == countdown(events_of_minute(s)),
        forall|i: int| 0 <= i < tick_spec(s).active_events.len() ==> #[trigger] tick_spec(s).active_events[i].ticks_remaining >= 1,
{
    let e = events_of_minute(s);
    assert(moved(s).active_events == s.active_events);
    let u = upkeep_spec(income_spec(moved(s)));
    lemma_staged_live(u.floors, rand_next(u.rng));
    assert(e.take(s.active_events.len() as int) =~= s.active_events);
    assert forall|i: int| 0 <= i < e.len() implies #[trigger] e[i].ticks_remaining >= 1 by {
        if i < s.active_events.len() {
            assert(e[i] == s.active_events[i]);
        }
    }
    lemma_expire_is_countdown(e, e.len());
    assert(e.take(e.len() as int) =~= e);
    crate::events::lemma_expire_upto(e, e.len());
}

/// The whole tower earns at least what any one floor with the starting
/// satisfaction earns: 1.2 times the rate of each of its occupants.
pub proof fn lemma_income_at_least(floors: Seq<crate::state::Floor>, i: int)
    requires
        0 <= i < floors.len(),
        floors[i].satisfaction == 70,
    ensures
        income(floors) >= floors[i].current_occupants * spec_income_per_person(floors[i].floor_type) * 120 / 100,
{
    lemma_income_partial(floors, i as nat, (i + 1) as nat);
    lemma_income_partial(floors, (i + 1) as nat, floors.len());
    assert(income_upto(floors, (i + 1) as nat) == income_upto(floors, i as nat) + crate::economy::floor_income(floors[i]));
}

/// Rent comes in four times a day, at 8:00, 12:00, 16:00 and 20:00 (minutes
/// 480, 720, 960 and 1200 of the day), and then it is what the floors earn
/// after the minute's traffic, at least 1.2 times the rate of every occupant
/// of every floor; at every other minute revenue stays as it is.
pub proof fn lemma_rent_four_times_a_day(s: TowerView)
    requires
        s.wf(),
        tick_safe(s),
    ensures
        ({
            let minute = (s.time + 1) % 1440;
            let t = tick_spec(s);
            &&& (minute == 480 || minute == 720 || minute == 960 || minute == 1200) ==> t.total_revenue
                == s.total_revenue + income(moved(s).floors)
            &&& !(minute == 480 || minute == 720 || minute == 960 || minute == 1200) ==> t.total_revenue
                == s.total_revenue
            &&& forall|i: int|
                0 <= i < moved(s).floors.len() ==> income(moved(s).floors) >= (#[trigger] moved(s).floors[i]).current_occupants
                    * spec_income_per_person(moved(s).floors[i].floor_type) * 120 / 100
        }),
{
    lemma_money_flow(s);
    lemma_moved(s);
    let m = moved(s);
    assert forall|i: int| 0 <= i < m.floors.len() implies income(m.floors) >= (#[trigger] m.floors[i]).current_occupants
        * spec_income_per_person(m.floors[i].floor_type) * 120 / 100 by {
        assert(m.floors[i].satisfaction == s.floors[i].satisfaction);
        lemma_income_at_least(m.floors, i);
    }
}

/// Whether an event of kind `k` is among the first `n`, by looking for one.
proof fn lemma_has_event_upto(events: Seq<crate::state::Event>, k: EventKind, n: nat)
    requires
        n <= events.len(),
    ensures
        has_event_upto(events, k, n) <==> exists|i: int| 0 <= i < n && (#[trigger] events[i]).name == k,
    decreases n,
{
    if n > 0 {
        lemma_has_event_upto(events, k, (n - 1) as nat);
        if has_event_upto(events, k, (n - 1) as nat) {
            let i = choose|i: int| 0 <= i < n - 1 && (#[trigger] events[i]).name == k;
            assert(0 <= i < n && events[i].name == k);
        }
    }
}

/// The highest level among the first `n` floors is one of their levels and
/// no level among them is higher.
proof fn lemma_top_level(floors: Seq<crate::state::Floor>, n: nat)
    requires
        0 < n <= floors.len(),
    ensures
        top_level_upto(floors, n) is Some,
        exists|i: int| 0 <= i < n && (#[trigger] floors[i]).level == top_level_upto(floors, n)->0,
        forall|i: int| 0 <= i < n ==> (#[trigger] floors[i]).level <= top_level_upto(floors, n)->0,
    decreases n,
{
    if n > 1 {
        lemma_top_level(floors, (n - 1) as nat);
        let m = top_level_upto(floors, (n - 1) as nat)->0;
        let j = choose|i: int| 0 <= i < n - 1 && (#[trigger] floors[i]).level == m;
        if floors[n - 1].level > m {
            assert(floors[n - 1].level == top_level_upto(floors, n)->0);
        } else {
            assert(floors[j].level == top_level_upto(floors, n)->0);
        }
    } else {
        assert(floors[0].level == top_level_upto(floors, n)->0);
    }
}

/// Every elevator adds the same to the maintenance bill: 2,000 plus 20 for
/// every level up to the highest floor `top` (at least one level; one level
/// when there are no floors), twice that while a fire burns.
pub proof fn lemma_bill_per_elevator(floors: Seq<crate::state::Floor>, k: nat, events: Seq<crate::state::Event>, top: int)
    requires
        (floors.len() == 0 && top == 0) || ((exists|i: int| 0 <= i < floors.len() && (#[trigger] floors[i]).level == top)
            && forall|i: int| 0 <= i < floors.len() ==> (#[trigger] floors[i]).level <= top),
    ensures
        (forall|i: int| 0 <= i < events.len() ==> (#[trigger] events[i]).name != EventKind::Fire) ==> upkeep(floors, k + 1, events)
            - upkeep(floors, k, events) == 2_000 + 20 * (if top < 1 { 1 } else { top }),
        (exists|i: int| 0 <= i < events.len() && (#[trigger] events[i]).name == EventKind::Fire) ==> upkeep(floors, k + 1, events)
            - upkeep(floors, k, events) == 2 * (2_000 + 20 * (if top < 1 { 1 } else { top })),
{
    lemma_has_event_upto(events, EventKind::Fire, events.len());
    let per = crate::economy::elevator_upkeep(floors);
    if floors.len() > 0 {
        lemma_top_level(floors, floors.len());
        let m = top_level_upto(floors, floors.len())->0;
        let a = choose|i: int| 0 <= i < floors.len() && (#[trigger] floors[i]).level == top;
        let b = choose|i: int| 0 <= i < floors.len() && (#[trigger] floors[i]).level == m;
        assert(floors[a].level <= m);
        assert(floors[b].level <= top);
    }
    assert(per == 2_000 + 20 * (if top < 1 { 1 } else { top }));
    let base = floor_upkeep_upto(floors, floors.len());
    assert((k + 1) * per == k * per + per) by (nonlinear_arith);
}

/// The key figures count as active everybody who has not arrived: those who
/// wait and those who ride; together with those who have arrived, that is
/// everybody.
pub proof fn lemma_active_people(s: TowerView)
    requires
        s.wf(),
    ensures
        metrics_of(s).people_active == count_in_state(s.people, PersonState::Waiting, s.people.len())
            + count_in_state(s.people, PersonState::Riding, s.people.len()),
        metrics_of(s).people_active + count_in_state(s.people, PersonState::Arrived, s.people.len()) == s.people.len(),
{
    lemma_active_counts(s.people, s.people.len());
}

/// Counting the people not yet arrived, over the first `n`.
proof fn lemma_active_counts(people: Seq<Person>, n: nat)
    requires
        n <= people.len(),
    ensures
        active_upto(people, n) == count_in_state(people, PersonState::Waiting, n) + count_in_state(people, PersonState::Riding, n),
        active_upto(people, n) + count_in_state(people, PersonState::Arrived, n) == n,
    decreases n,
{
    if n > 0 {
        lemma_active_counts(people, (n - 1) as nat);
    }
}

/// A newcomer is the next person in line: numbered after everybody else,
/// waiting at `from` for a trip to `to`, having waited and travelled for no
/// time, and stamped with the tower's clock; nobody else changes.
pub proof fn lemma_spawned_person(s: TowerView, from: i32, to: i32)
    ensures
        spawn_spec(s, from, to).people.len() == s.people.len() + 1,
        spawn_spec(s, from, to).people.take(s.people.len() as int) == s.people,
        ({
            let p = spawn_spec(s, from, to).people[s.people.len() as int];
            &&& p.id == s.next_person_id
            &&& p.current_floor == from
            &&& p.destination == to
            &&& p.state == PersonState::Waiting
            &&& p.wait_ticks == 0
            &&& p.travel_ticks == 0
            &&& p.spawned_at_tick == s.time
        }),
{
    assert(spawn_spec(s, from, to).people.take(s.people.len() as int) =~= s.people);
}

/// What boarding does to the cars, over the first `n` people: every car keeps
/// its passengers, in their places, and at its level; and whoever got on a
/// car during the minute was waiting at that car's level, and the car now
/// goes the way they want to go (up if their destination is higher, down
/// otherwise), with no more passengers than it holds.
proof fn lemma_boarding_upto_direction(people: Seq<Person>, es: Seq<ElevatorView>, n: nat)
    requires
        n <= people.len(),
        ids_ok(people),
        riders_ok(people, es),
        forall|j: int| 0 <= j < es.len() ==> (#[trigger] es[j]).passengers.len() <= es[j].capacity,
    ensures
        ({
            let r = boarding_upto(people, es, n);
            &&& r.1.len() == es.len()
            &&& forall|k: int| n <= k < people.len() ==> #[trigger] r.0[k] == people[k]
            &&& passengers_kept(es, r.1)
            &&& forall|j: int| 0 <= j < es.len() ==> {
                &&& (#[trigger] r.1[j]).current_floor == es[j].current_floor
                &&& r.1[j].capacity == es[j].capacity
                &&& r.1[j].passengers.len() <= r.1[j].capacity
            }
            &&& forall|j: int, k: int|
                0 <= j < es.len() && es[j].passengers.len() <= k < r.1[j].passengers.len() ==> {
                    let p = #[trigger] r.1[j].passengers[k];
                    &&& 0 <= p < n
                    &&& people[p as int].state == PersonState::Waiting
                    &&& r.1[j].current_floor == people[p as int].current_floor
                    &&& r.1[j].direction == if people[p as int].destination > people[p as int].current_floor {
                        Direction::Up
                    } else {
                        Direction::Down
                    }
                }
        }),
    decreases n,
{
    if n == 0 {
        assert(passengers_kept(es, es)) by {
            assert forall|j: int| 0 <= j < es.len() implies (#[trigger] es[j]).passengers.len() <= es[j].passengers.len()
                && forall|k: int| 0 <= k < es[j].passengers.len() ==> #[trigger] es[j].passengers[k] == es[j].passengers[k] by {}
        }
    } else {
        let m = (n - 1) as nat;
        lemma_boarding_upto_direction(people, es, m);
        lemma_boarding(people, es, m);
        let prev = boarding_upto(people, es, m);
        crate::flow::lemma_person_step(prev.0, prev.1, m as int);
        let r = person_step(prev.0, prev.1, m as int);
        assert(r == boarding_upto(people, es, n));
        assert(prev.0[m as int] == people[m as int]);
        let p = people[m as int];
        if p.state == PersonState::Waiting {
            let p1 = Person { wait_ticks: (p.wait_ticks + 1) as u64, ..p };
            let want = wanted_direction(p1);
            let jb = first_boardable(prev.1, p1.current_floor, want, 0);
            lemma_first_boardable(prev.1, p1.current_floor, want, 0);
            if jb < prev.1.len() {
                let e = prev.1[jb];
                let e2 = board(e, p1, want);
                assert(r.1 == prev.1.update(jb, e2));
                assert(p1.id == m);
                // A car that took somebody on this minute already goes their way.
                assert(e.passengers.len() > es[jb].passengers.len() ==> e.direction != Direction::Idle) by {
                    if e.passengers.len() > es[jb].passengers.len() {
                        let q = e.passengers[es[jb].passengers.len() as int];
                    }
                }
                assert(e2.direction == want);
                assert forall|j: int| 0 <= j < es.len() implies (#[trigger] es[j]).passengers.len() <= r.1[j].passengers.len()
                    && forall|k: int| 0 <= k < es[j].passengers.len() ==> #[trigger] r.1[j].passengers[k] == es[j].passengers[k] by {
                    assert(es[j].passengers.len() <= prev.1[j].passengers.len());
                    assert forall|k: int| 0 <= k < es[j].passengers.len() implies #[trigger] r.1[j].passengers[k] == es[j].passengers[k] by {
                        assert(prev.1[j].passengers[k] == es[j].passengers[k]);
                        if j == jb {
                            assert(e2.passengers[k] == e.passengers[k]);
                        }
                    }
                }
                assert forall|j: int, k: int|
                    0 <= j < es.len() && es[j].passengers.len() <= k < r.1[j].passengers.len() implies {
                        let q = #[trigger] r.1[j].passengers[k];
                        &&& 0 <= q < n
                        &&& people[q as int].state == PersonState::Waiting
                        &&& r.1[j].current_floor == people[q as int].current_floor
                        &&& r.1[j].direction == if people[q as int].destination > people[q as int].current_floor {
                            Direction::Up
                        } else {
                            Direction::Down
                        }
                    } by {
                    if j == jb {
                        if k < e.passengers.len() {
                            assert(e2.passengers[k] == e.passengers[k]);
                            assert(prev.1[j].passengers[k] == e.passengers[k]);
                        } else {
                            assert(e2.passengers[k] == m);
                        }
                    } else {
                        assert(r.1[j] == prev.1[j]);
                    }
                }
            } else {
                assert(r.1 == prev.1);
            }
        } else {
            assert(r.1 == prev.1);
        }
        assert forall|k: int| n <= k < people.len() implies #[trigger] r.0[k] == people[k] by {
            assert(r.0[k] == prev.0[k]);
        }
    }
}

/// Boarding follows the cars' directions: whoever gets on a car in a minute
/// was waiting at the car's level, and the car then goes the way they want
/// to go (up if their destination is higher, down otherwise), so nobody gets
/// on a car going the other way; and no car takes more than it holds.
pub proof fn lemma_boarding_follows_direction(people: Seq<Person>, es: Seq<ElevatorView>)
    requires
        ids_ok(people),
        riders_ok(people, es),
        forall|j: int| 0 <= j < es.len() ==> (#[trigger] es[j]).passengers.len() <= es[j].capacity,
    ensures
        forall|i: int, j: int, k: int|
            #![trigger people[i], boarding(people, es).1[j].passengers[k]]
            0 <= i < people.len() && people[i].state == PersonState::Waiting && 0 <= j < es.len() && 0 <= k
                < boarding(people, es).1[j].passengers.len() && boarding(people, es).1[j].passengers[k] == i
                ==> {
                let e = boarding(people, es).1[j];
                &&& e.current_floor == people[i].current_floor
                &&& e.passengers.len() <= e.capacity
                &&& e.direction == if people[i].destination > people[i].current_floor {
                    Direction::Up
                } else {
                    Direction::Down
                }
            },
{
    lemma_boarding_upto_direction(people, es, people.len());
    let r = boarding(people, es);
    assert forall|i: int, j: int, k: int|
        #![trigger people[i], r.1[j].passengers[k]]
        0 <= i < people.len() && people[i].state == PersonState::Waiting && 0 <= j < es.len() && 0 <= k
            < r.1[j].passengers.len() && r.1[j].passengers[k] == i implies {
            let e = r.1[j];
            &&& e.current_floor == people[i].current_floor
            &&& e.passengers.len() <= e.capacity
            &&& e.direction == if people[i].destination > people[i].current_floor {
                Direction::Up
            } else {
                Direction::Down
            }
        } by {
        if k < es[j].passengers.len() {
            assert(r.1[j].passengers[k] == es[j].passengers[k]);
            assert(people[es[j].passengers[k] as int].state == PersonState::Riding);
        }
    }
}

/// A new tower has been running for no time, has 150,000 in money, has
/// earned and spent nothing, and holds no floors, cars, people or events.
pub proof fn lemma_new_tower()
    ensures
        crate::tower::initial_tower().time == 0,
        crate::tower::initial_tower().money == 150_000,
        crate::tower::initial_tower().total_revenue == 0,
        crate::tower::initial_tower().total_expenses == 0,
        crate::tower::initial_tower().floors.len() == 0,
        crate::tower::initial_tower().elevators.len() == 0,
        crate::tower::initial_tower().people.len() == 0,
        crate::tower::initial_tower().active_events.len() == 0,
        crate::tower::initial_tower().population_served == 0,
{
}

} // verus!

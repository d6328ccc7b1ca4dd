//! People only move forward through their states: waiting, then riding, then
//! arrived; and who they are and where they are headed never change.

use vstd::prelude::*;
use crate::flow::{ids_ok, lemma_arrive, lemma_car_step, lemma_person_step, lemma_ride, landed, distinct, riders_ok};
use crate::simulation::{boarding_upto, car_step, cars_upto, person_step, ride_target, Landing, Traffic};
use crate::state::{Person, PersonState};

verus! {

/// A state's place in the order waiting, riding, arrived.
pub open spec fn state_rank(s: PersonState) -> int {
    match s {
        PersonState::Waiting => 0,
        PersonState::Riding => 1,
        PersonState::Arrived => 2,
    }
}

/// `b` is `a` later on: the same person, with the same destination and
/// arrival time in the tower, in the same or a later state, and untouched
/// once arrived.
pub open spec fn moved_on(a: Person, b: Person) -> bool {
    &&& b.id == a.id
    &&& b.destination == a.destination
    &&& b.spawned_at_tick == a.spawned_at_tick
    &&& state_rank(b.state) >= state_rank(a.state)
    &&& (a.state == PersonState::Arrived ==> b == a)
}

/// Everybody of `a` is, in `b`, the same person later on.
pub open spec fn all_moved_on(a: Seq<Person>, b: Seq<Person>) -> bool {
    &&& a.len() <= b.len()
    &&& forall|i: int| 0 <= i < a.len() ==> moved_on(a[i], #[trigger] b[i])
}

/// Moving on twice is moving on.
pub proof fn lemma_moved_on_trans(a: Seq<Person>, b: Seq<Person>, c: Seq<Person>)
    requires
        all_moved_on(a, b),
        all_moved_on(b, c),
    ensures
        all_moved_on(a, c),
{
    assert forall|i: int| 0 <= i < a.len() implies moved_on(a[i], #[trigger] c[i]) by {
        assert(moved_on(a[i], b[i]));
        assert(moved_on(b[i], c[i]));
    }
}

/// Boarding moves people on.
pub proof fn lemma_boarding_moves_on(people: Seq<Person>, es: Seq<crate::state::ElevatorView>, n: nat)
    requires
        n <= people.len(),
        ids_ok(people),
        riders_ok(people, es),
    ensures
        all_moved_on(people, boarding_upto(people, es, n).0),
    decreases n,
{
    if n > 0 {
        let m = (n - 1) as nat;
        lemma_boarding_moves_on(people, es, m);
        crate::flow::lemma_boarding(people, es, m);
        let prev = boarding_upto(people, es, m);
        lemma_person_step(prev.0, prev.1, m as int);
        let r = person_step(prev.0, prev.1, m as int);
        assert(all_moved_on(prev.0, r.0)) by {
            assert forall|i: int| 0 <= i < prev.0.len() implies moved_on(prev.0[i], #[trigger] r.0[i]) by {
                if i != m {
                    assert(r.0[i] == prev.0[i]);
                }
            }
        }
        lemma_moved_on_trans(people, prev.0, r.0);
    }
}

/// One car's turn moves people on.
pub proof fn lemma_car_step_moves_on(t: Traffic, j: int)
    requires
        0 <= j < t.cars.len(),
        ids_ok(t.people),
        riders_ok(t.people, t.cars),
        t.served == crate::flow::arrived_count(t.people),
        t.served + t.cars[j].passengers.len() <= u64::MAX,
    ensures
        all_moved_on(t.people, car_step(t, j).people),
{
    lemma_car_step(t, j);
    let e = t.cars[j];
    let pass = e.passengers;
    let r = car_step(t, j);
    if pass.len() > 0 {
        let target = ride_target(t.people, e);
        if target != e.current_floor {
            lemma_ride(t.people, pass, pass.len());
            assert forall|i: int| 0 <= i < t.people.len() implies moved_on(t.people[i], #[trigger] r.people[i]) by {
                assert(r.people[i] == Person { travel_ticks: r.people[i].travel_ticks, ..t.people[i] });
                if t.people[i].state == PersonState::Arrived {
                    assert(!pass.take(pass.len() as int).contains(i as u32)) by {
                        if pass.take(pass.len() as int).contains(i as u32) {
                            let k = choose|k: int| 0 <= k < pass.len() && pass.take(pass.len() as int)[k] == i as u32;
                            assert(t.cars[j].passengers[k] == i as u32);
                        }
                    }
                }
            }
        } else {
            assert(distinct(pass)) by {
                assert forall|a: int, b: int| 0 <= a < pass.len() && 0 <= b < pass.len() && a != b implies #[trigger] pass[a] != #[trigger] pass[b] by {
                    assert(t.cars[j].passengers[a] != t.cars[j].passengers[b]);
                }
            }
            assert forall|k: int| 0 <= k < pass.len() implies (#[trigger] pass[k]) < t.people.len() && t.people[pass[k] as int].state == PersonState::Riding by {
                assert(t.cars[j].passengers[k] == pass[k]);
            }
            let l0 = Landing { people: t.people, floors: t.floors, served: t.served };
            lemma_arrive(l0, pass, e.current_floor, pass.len());
            assert forall|i: int| 0 <= i < t.people.len() implies moved_on(t.people[i], #[trigger] r.people[i]) by {
                if pass.take(pass.len() as int).contains(i as u32) {
                    let k = choose|k: int| 0 <= k < pass.len() && pass.take(pass.len() as int)[k] == i as u32;
                    assert(pass[k] == i as u32);
                    assert(r.people[pass[k] as int] == landed(t.people[pass[k] as int], e.current_floor));
                } else {
                    assert(r.people[i] == t.people[i]);
                }
            }
        }
    }
}

/// Every car taking its turn moves people on.
pub proof fn lemma_cars_move_on(t: Traffic, n: nat)
    requires
        n <= t.cars.len(),
        ids_ok(t.people),
        riders_ok(t.people, t.cars),
        t.served == crate::flow::arrived_count(t.people),
        t.served + 10 * t.cars.len() <= u64::MAX,
        forall|j: int| 0 <= j < t.cars.len() ==> (#[trigger] t.cars[j]).passengers.len() <= 10,
    ensures
        all_moved_on(t.people, cars_upto(t, n).people),
    decreases n,
{
    if n > 0 {
        let m = (n - 1) as nat;
        lemma_cars_move_on(t, m);
        crate::flow::lemma_cars(t, m);
        let prev = cars_upto(t, m);
        assert(prev.cars[m as int] == t.cars[m as int]);
        lemma_car_step_moves_on(prev, m as int);
        lemma_moved_on_trans(t.people, prev.people, cars_upto(t, n).people);
    }
}

} // verus!

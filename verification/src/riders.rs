//! The other half of the rider invariant: everybody who rides is aboard a
//! car.  With `riders_ok` (every passenger rides, and nobody is aboard twice)
//! this makes every riding person aboard exactly one car.

use vstd::prelude::*;
use crate::flow::{
    distinct, ids_ok, landed, lemma_arrive, lemma_boarding, lemma_car_step, lemma_person_step, lemma_ride,
    riders_ok,
};
use crate::simulation::{
    board, boarding_upto, car_step, cars_upto, first_boardable, lemma_first_boardable, person_step,
    ride_target, wanted_direction, Landing, Traffic,
};
use crate::state::{ElevatorView, Person, PersonState};

verus! {

/// Person `i` is aboard one of the cars.
pub open spec fn aboard(es: Seq<ElevatorView>, i: int) -> bool {
    exists|j: int, k: int| 0 <= j < es.len() && 0 <= k < es[j].passengers.len() && #[trigger] es[j].passengers[k] == i
}

/// Everybody who rides is aboard a car.
pub open spec fn riders_aboard(people: Seq<Person>, es: Seq<ElevatorView>) -> bool {
    forall|i: int| 0 <= i < people.len() && (#[trigger] people[i]).state == PersonState::Riding ==> aboard(es, i)
}

/// Every car of `a` is still there in `b` with its passengers in their
/// places, perhaps with more after them.
pub open spec fn passengers_kept(a: Seq<ElevatorView>, b: Seq<ElevatorView>) -> bool {
    &&& a.len() <= b.len()
    &&& forall|j: int|
        0 <= j < a.len() ==> (#[trigger] a[j]).passengers.len() <= b[j].passengers.len() && forall|k: int|
            0 <= k < a[j].passengers.len() ==> #[trigger] b[j].passengers[k] == a[j].passengers[k]
}

/// Whoever is aboard stays aboard while the cars keep their passengers.
pub proof fn lemma_aboard_kept(a: Seq<ElevatorView>, b: Seq<ElevatorView>, i: int)
    requires
        passengers_kept(a, b),
        aboard(a, i),
    ensures
        aboard(b, i),
{
    let (j, k) = choose|j: int, k: int| 0 <= j < a.len() && 0 <= k < a[j].passengers.len() && #[trigger] a[j].passengers[k] == i;
    assert(b[j].passengers[k] == a[j].passengers[k]);
}

/// One person's turn at boarding keeps everybody who rides aboard, and every
/// car keeps its passengers.
pub proof fn lemma_person_step_aboard(people: Seq<Person>, es: Seq<ElevatorView>, i: int)
    requires
        0 <= i < people.len(),
        ids_ok(people),
        riders_ok(people, es),
        riders_aboard(people, es),
    ensures
        riders_aboard(person_step(people, es, i).0, person_step(people, es, i).1),
        passengers_kept(es, person_step(people, es, i).1),
{
    lemma_person_step(people, es, i);
    let r = person_step(people, es, i);
    let p = people[i];
    if p.state == PersonState::Waiting {
        let p1 = Person { wait_ticks: (p.wait_ticks + 1) as u64, ..p };
        let want = wanted_direction(p1);
        let j = first_boardable(es, p1.current_floor, want, 0);
        lemma_first_boardable(es, p1.current_floor, want, 0);
        if j < es.len() {
            let e2 = board(es[j], p1, want);
            assert(r.1 == es.update(j, e2));
            assert(passengers_kept(es, r.1)) by {
                assert forall|a: int| 0 <= a < es.len() implies (#[trigger] es[a]).passengers.len() <= r.1[a].passengers.len()
                    && forall|k: int| 0 <= k < es[a].passengers.len() ==> #[trigger] r.1[a].passengers[k] == es[a].passengers[k] by {
                    if a == j {
                        assert forall|k: int| 0 <= k < es[a].passengers.len() implies #[trigger] r.1[a].passengers[k] == es[a].passengers[k] by {
                            assert(e2.passengers[k] == es[j].passengers[k]);
                        }
                    }
                }
            }
            assert forall|q: int| 0 <= q < r.0.len() && (#[trigger] r.0[q]).state == PersonState::Riding implies aboard(r.1, q) by {
                if q == i {
                    let k = es[j].passengers.len() as int;
                    assert(r.1[j].passengers[k] == p1.id);
                    assert(p1.id == i);
                } else {
                    assert(r.0[q] == people[q]);
                    lemma_aboard_kept(es, r.1, q);
                }
            }
        } else {
            assert(r.1 == es);
            assert forall|q: int| 0 <= q < r.0.len() && (#[trigger] r.0[q]).state == PersonState::Riding implies aboard(r.1, q) by {
                assert(q != i);
                assert(r.0[q] == people[q]);
            }
        }
    }
}

/// Boarding keeps everybody who rides aboard, and every car keeps its passengers.
pub proof fn lemma_boarding_aboard(people: Seq<Person>, es: Seq<ElevatorView>, n: nat)
    requires
        n <= people.len(),
        ids_ok(people),
        riders_ok(people, es),
        riders_aboard(people, es),
    ensures
        riders_aboard(boarding_upto(people, es, n).0, boarding_upto(people, es, n).1),
        passengers_kept(es, boarding_upto(people, es, n).1),
    decreases n,
{
    if n > 0 {
        let m = (n - 1) as nat;
        lemma_boarding_aboard(people, es, m);
        lemma_boarding(people, es, m);
        let prev = boarding_upto(people, es, m);
        lemma_person_step_aboard(prev.0, prev.1, m as int);
        let r = boarding_upto(people, es, n);
        assert forall|j: int| 0 <= j < es.len() implies (#[trigger] es[j]).passengers.len() <= r.1[j].passengers.len()
            && forall|k: int| 0 <= k < es[j].passengers.len() ==> #[trigger] r.1[j].passengers[k] == es[j].passengers[k] by {
            assert(prev.1[j].passengers.len() <= r.1[j].passengers.len());
            assert forall|k: int| 0 <= k < es[j].passengers.len() implies #[trigger] r.1[j].passengers[k] == es[j].passengers[k] by {
                assert(prev.1[j].passengers[k] == es[j].passengers[k]);
            }
        }
    }
}

/// One car's turn keeps everybody who rides aboard a car.
pub proof fn lemma_car_step_aboard(t: Traffic, j: int)
    requires
        0 <= j < t.cars.len(),
        ids_ok(t.people),
        riders_ok(t.people, t.cars),
        t.served == crate::flow::arrived_count(t.people),
        t.served + t.cars[j].passengers.len() <= u64::MAX,
        riders_aboard(t.people, t.cars),
    ensures
        riders_aboard(car_step(t, j).people, car_step(t, j).cars),
{
    lemma_car_step(t, j);
    let e = t.cars[j];
    let pass = e.passengers;
    let r = car_step(t, j);
    if pass.len() == 0 {
        assert(passengers_kept(t.cars, r.cars)) by {
            assert forall|a: int| 0 <= a < t.cars.len() implies (#[trigger] t.cars[a]).passengers.len() <= r.cars[a].passengers.len()
                && forall|k: int| 0 <= k < t.cars[a].passengers.len() ==> #[trigger] r.cars[a].passengers[k] == t.cars[a].passengers[k] by {
                assert(r.cars[a].passengers == t.cars[a].passengers);
            }
        }
        assert forall|q: int| 0 <= q < r.people.len() && (#[trigger] r.people[q]).state == PersonState::Riding implies aboard(r.cars, q) by {
            lemma_aboard_kept(t.cars, r.cars, q);
        }
    } else {
        let target = ride_target(t.people, e);
        if target != e.current_floor {
            lemma_ride(t.people, pass, pass.len());
            assert(passengers_kept(t.cars, r.cars)) by {
                assert forall|a: int| 0 <= a < t.cars.len() implies (#[trigger] t.cars[a]).passengers.len() <= r.cars[a].passengers.len()
                    && forall|k: int| 0 <= k < t.cars[a].passengers.len() ==> #[trigger] r.cars[a].passengers[k] == t.cars[a].passengers[k] by {
                    assert(r.cars[a].passengers == t.cars[a].passengers);
                }
            }
            assert forall|q: int| 0 <= q < r.people.len() && (#[trigger] r.people[q]).state == PersonState::Riding implies aboard(r.cars, q) by {
                assert(r.people[q].state == t.people[q].state);
                lemma_aboard_kept(t.cars, r.cars, q);
            }
        } else {
            assert(distinct(pass)) by {
                assert forall|a: int, b: int| 0 <= a < pass.len() && 0 <= b < pass.len() && a != b implies #[trigger] pass[a] != #[trigger] pass[b] by {
                    assert(t.cars[j].passengers[a] != t.cars[j].passengers[b]);
                }
            }
            assert forall|k: int| 0 <= k < pass.len() implies (#[trigger] pass[k]) < t.people.len() && t.people[pass[k] as int].state == PersonState::Riding by {
                assert(t.cars[j].passengers[k] == pass[k]);
            }
            let l0 = Landing { people: t.people, floors: t.floors, served: t.served };
            lemma_arrive(l0, pass, e.current_floor, pass.len());
            assert forall|q: int| 0 <= q < r.people.len() && (#[trigger] r.people[q]).state == PersonState::Riding implies aboard(r.cars, q) by {
                if pass.take(pass.len() as int).contains(q as u32) {
                    let k = choose|k: int| 0 <= k < pass.len() && pass.take(pass.len() as int)[k] == q as u32;
                    assert(pass[k] == q as u32);
                    assert(r.people[pass[k] as int] == landed(t.people[pass[k] as int], e.current_floor));
                } else {
                    assert(r.people[q] == t.people[q]);
                    let (a, b) = choose|a: int, b: int| 0 <= a < t.cars.len() && 0 <= b < t.cars[a].passengers.len() && #[trigger] t.cars[a].passengers[b] == q;
                    if a == j {
                        assert(pass.take(pass.len() as int)[b] == q as u32);
                    }
                    assert(r.cars[a] == t.cars[a]);
                    assert(r.cars[a].passengers[b] == q);
                }
            }
        }
    }
}

/// Every car taking its turn keeps everybody who rides aboard a car.
pub proof fn lemma_cars_aboard(t: Traffic, n: nat)
    requires
        n <= t.cars.len(),
        ids_ok(t.people),
        riders_ok(t.people, t.cars),
        t.served == crate::flow::arrived_count(t.people),
        t.served + 10 * t.cars.len() <= u64::MAX,
        forall|j: int| 0 <= j < t.cars.len() ==> (#[trigger] t.cars[j]).passengers.len() <= 10,
        riders_aboard(t.people, t.cars),
    ensures
        riders_aboard(cars_upto(t, n).people, cars_upto(t, n).cars),
    decreases n,
{
    if n > 0 {
        let m = (n - 1) as nat;
        lemma_cars_aboard(t, m);
        crate::flow::lemma_cars(t, m);
        let prev = cars_upto(t, m);
        assert(prev.cars[m as int] == t.cars[m as int]);
        lemma_car_step_aboard(prev, m as int);
    }
}

} // verus!

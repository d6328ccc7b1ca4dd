use vstd::prelude::*;
use crate::simulation::{
    arrive_one, arrive_upto, board, boarding_upto, car_step, cars_upto, first_boardable,
    lemma_first_boardable, occupancy_ok, person_step, ride_upto, same_floor_plan, step_toward,
    Landing, Traffic,
};
use crate::state::{Direction, ElevatorView, Floor, Person, PersonState};

verus! {

/// People are numbered by their position.
pub open spec fn ids_ok(people: Seq<Person>) -> bool {
    forall|i: int| 0 <= i < people.len() ==> (#[trigger] people[i]).id == i
}

/// Everybody aboard a car is a known person who is riding, and nobody is
/// aboard twice, in one car or in two.
pub open spec fn riders_ok(people: Seq<Person>, es: Seq<ElevatorView>) -> bool {
    &&& forall|j: int, k: int|
        0 <= j < es.len() && 0 <= k < es[j].passengers.len() ==> {
            &&& #[trigger] es[j].passengers[k] < people.len()
            &&& people[es[j].passengers[k] as int].state == PersonState::Riding
        }
    &&& forall|j1: int, k1: int, j2: int, k2: int|
        0 <= j1 < es.len() && 0 <= k1 < es[j1].passengers.len() && 0 <= j2 < es.len() && 0 <= k2
            < es[j2].passengers.len() && (j1 != j2 || k1 != k2) ==> #[trigger] es[j1].passengers[k1]
            != #[trigger] es[j2].passengers[k2]
}

/// How many of the first `n` people have arrived.
pub open spec fn arrived_upto(people: Seq<Person>, n: nat) -> nat
    decreases n,
{
    if n == 0 {
        0
    } else {
        arrived_upto(people, (n - 1) as nat) + if people[n - 1].state == PersonState::Arrived { 1nat } else { 0nat }
    }
}

/// How many people have arrived.
pub open spec fn arrived_count(people: Seq<Person>) -> nat {
    arrived_upto(people, people.len())
}

/// Replacing one person changes the count of arrivals by what the two
/// versions of that person contribute.
pub proof fn lemma_arrived_update(people: Seq<Person>, i: int, p: Person, n: nat)
    requires
        0 <= i < people.len(),
        n <= people.len(),
    ensures
        arrived_upto(people.update(i, p), n) + (if i < n && people[i].state == PersonState::Arrived { 1nat } else { 0nat })
            == arrived_upto(people, n) + (if i < n && p.state == PersonState::Arrived { 1nat } else { 0nat }),
    decreases n,
{
    if n > 0 {
        lemma_arrived_update(people, i, p, (n - 1) as nat);
    }
}

/// Adding a person who has not arrived leaves the count of arrivals as it is.
pub proof fn lemma_arrived_push(people: Seq<Person>, p: Person, n: nat)
    requires
        n <= people.len(),
    ensures
        arrived_upto(people.push(p), n) == arrived_upto(people, n),
    decreases n,
{
    if n > 0 {
        lemma_arrived_push(people, p, (n - 1) as nat);
        assert(people.push(p)[n - 1] == people[n - 1]);
    }
}

/// A newcomer who has not arrived leaves the count of arrivals as it is.
pub proof fn lemma_arrived_newcomer(people: Seq<Person>, p: Person)
    requires
        p.state != PersonState::Arrived,
    ensures
        arrived_count(people.push(p)) == arrived_count(people),
{
    lemma_arrived_push(people, p, people.len());
    assert(people.push(p)[people.len() as int] == p);
}

/// One person's turn at boarding keeps everybody numbered, keeps the riders
/// consistent and the count of arrivals, touches only that person, and
/// changes no car but the one boarded, which stays where it is.
pub proof fn lemma_person_step(people: Seq<Person>, es: Seq<ElevatorView>, i: int)
    requires
        0 <= i < people.len(),
        ids_ok(people),
        riders_ok(people, es),
    ensures
        ({
            let r = person_step(people, es, i);
            &&& r.0.len() == people.len()
            &&& r.1.len() == es.len()
            &&& ids_ok(r.0)
            &&& riders_ok(r.0, r.1)
            &&& arrived_count(r.0) == arrived_count(people)
            &&& forall|k: int| 0 <= k < people.len() && k != i ==> #[trigger] r.0[k] == people[k]
            &&& people[i].state != PersonState::Waiting ==> r.0[i] == people[i]
            &&& forall|j: int| 0 <= j < es.len() ==> (#[trigger] r.1[j]).current_floor == es[j].current_floor
            &&& forall|j: int| 0 <= j < es.len() ==> {
                &&& (#[trigger] r.1[j]).capacity == es[j].capacity
                &&& r.1[j].shaft == es[j].shaft
                &&& (es[j].passengers.len() <= es[j].capacity ==> r.1[j].passengers.len() <= r.1[j].capacity)
            }
        }),
{
    let p = people[i];
    if p.state == PersonState::Waiting {
        let p1 = Person { wait_ticks: (p.wait_ticks + 1) as u64, ..p };
        let want = crate::simulation::wanted_direction(p1);
        let j = first_boardable(es, p1.current_floor, want, 0);
        lemma_first_boardable(es, p1.current_floor, want, 0);
        // Nobody aboard is person `i`, who is waiting.
        assert forall|a: int, b: int| 0 <= a < es.len() && 0 <= b < es[a].passengers.len() implies #[trigger] es[a].passengers[b] != i by {
            assert(people[es[a].passengers[b] as int].state == PersonState::Riding);
        }
        if j < es.len() {
            let p2 = Person { state: PersonState::Riding, travel_ticks: 0, ..p1 };
            let people2 = people.update(i, p2);
            let es2 = es.update(j, board(es[j], p1, want));
            lemma_arrived_update(people, i, p2, people.len());
            assert(p1.id == i);
            assert forall|a: int, b: int|
                0 <= a < es2.len() && 0 <= b < es2[a].passengers.len() implies {
                &&& #[trigger] es2[a].passengers[b] < people2.len()
                &&& people2[es2[a].passengers[b] as int].state == PersonState::Riding
            } by {
                if a == j && b == es[j].passengers.len() {
                } else {
                    assert(es2[a].passengers[b] == es[a].passengers[b]);
                }
            }
            assert forall|j1: int, k1: int, j2: int, k2: int|
                0 <= j1 < es2.len() && 0 <= k1 < es2[j1].passengers.len() && 0 <= j2 < es2.len() && 0 <= k2
                    < es2[j2].passengers.len() && (j1 != j2 || k1 != k2) implies #[trigger] es2[j1].passengers[k1]
                != #[trigger] es2[j2].passengers[k2] by {
                let new1 = j1 == j && k1 == es[j].passengers.len();
                let new2 = j2 == j && k2 == es[j].passengers.len();
                if new1 && !new2 {
                    assert(es2[j2].passengers[k2] == es[j2].passengers[k2]);
                } else if !new1 && new2 {
                    assert(es2[j1].passengers[k1] == es[j1].passengers[k1]);
                } else if !new1 && !new2 {
                    assert(es2[j1].passengers[k1] == es[j1].passengers[k1]);
                    assert(es2[j2].passengers[k2] == es[j2].passengers[k2]);
                }
            }
        } else {
            lemma_arrived_update(people, i, p1, people.len());
            let people2 = people.update(i, p1);
            assert forall|a: int, b: int|
                0 <= a < es.len() && 0 <= b < es[a].passengers.len() implies {
                &&& #[trigger] es[a].passengers[b] < people2.len()
                &&& people2[es[a].passengers[b] as int].state == PersonState::Riding
            } by {
                assert(es[a].passengers[b] != i);
            }
        }
    }
}

/// Boarding keeps everybody numbered, keeps the riders consistent and the
/// count of arrivals, leaves people who are not waiting as they were, and
/// moves no car.
pub proof fn lemma_boarding(people: Seq<Person>, es: Seq<ElevatorView>, n: nat)
    requires
        n <= people.len(),
        ids_ok(people),
        riders_ok(people, es),
    ensures
        ({
            let r = boarding_upto(people, es, n);
            &&& r.0.len() == people.len()
            &&& r.1.len() == es.len()
            &&& ids_ok(r.0)
            &&& riders_ok(r.0, r.1)
            &&& arrived_count(r.0) == arrived_count(people)
            &&& forall|k: int| 0 <= k < people.len() && people[k].state != PersonState::Waiting ==> #[trigger] r.0[k] == people[k]
            &&& forall|j: int| 0 <= j < es.len() ==> (#[trigger] r.1[j]).current_floor == es[j].current_floor
            &&& forall|j: int| 0 <= j < es.len() ==> {
                &&& (#[trigger] r.1[j]).capacity == es[j].capacity
                &&& r.1[j].shaft == es[j].shaft
                &&& (es[j].passengers.len() <= es[j].capacity ==> r.1[j].passengers.len() <= r.1[j].capacity)
            }
        }),
    decreases n,
{
    if n > 0 {
        lemma_boarding(people, es, (n - 1) as nat);
        let prev = boarding_upto(people, es, (n - 1) as nat);
        lemma_person_step(prev.0, prev.1, n - 1);
        let r = boarding_upto(people, es, n);
        assert forall|k: int| 0 <= k < people.len() && people[k].state != PersonState::Waiting implies #[trigger] r.0[k] == people[k] by {
            assert(prev.0[k] == people[k]);
        }
        assert forall|j: int| 0 <= j < es.len() implies (#[trigger] r.1[j]).current_floor == es[j].current_floor by {
            assert(prev.1[j].current_floor == es[j].current_floor);
        }
        assert forall|j: int| 0 <= j < es.len() implies {
            &&& (#[trigger] r.1[j]).capacity == es[j].capacity
            &&& r.1[j].shaft == es[j].shaft
            &&& (es[j].passengers.len() <= es[j].capacity ==> r.1[j].passengers.len() <= r.1[j].capacity)
        } by {
            assert(prev.1[j].capacity == es[j].capacity);
        }
    }
}

/// Riding a minute longer changes nothing about a person but their travel time.
pub proof fn lemma_ride(people: Seq<Person>, pass: Seq<u32>, n: nat)
    requires
        n <= pass.len(),
    ensures
        ride_upto(people, pass, n).len() == people.len(),
        forall|i: int| 0 <= i < people.len() ==> #[trigger] ride_upto(people, pass, n)[i] == (Person {
            travel_ticks: ride_upto(people, pass, n)[i].travel_ticks,
            ..people[i]
        }),
        forall|i: int| 0 <= i < people.len() && !pass.take(n as int).contains(i as u32) ==> #[trigger] ride_upto(people, pass, n)[i] == people[i],
    decreases n,
{
    if n > 0 {
        let m = (n - 1) as nat;
        lemma_ride(people, pass, m);
        assert forall|i: int| 0 <= i < people.len() && !pass.take(n as int).contains(i as u32) implies #[trigger] ride_upto(people, pass, n)[i] == people[i] by {
            assert(pass.take(n as int)[m as int] == pass[m as int]);
            if pass.take(m as int).contains(i as u32) {
                let k = choose|k: int| 0 <= k < m && pass.take(m as int)[k] == i as u32;
                assert(pass.take(n as int)[k] == i as u32);
            }
        }
    }
}

/// The count of arrivals depends only on who has arrived.
pub proof fn lemma_arrived_same_states(a: Seq<Person>, b: Seq<Person>, n: nat)
    requires
        n <= a.len(),
        a.len() == b.len(),
        forall|i: int| 0 <= i < a.len() ==> (#[trigger] a[i]).state == b[i].state,
    ensures
        arrived_upto(a, n) == arrived_upto(b, n),
    decreases n,
{
    if n > 0 {
        lemma_arrived_same_states(a, b, (n - 1) as nat);
    }
}

/// A person who reached `level` by car.
pub open spec fn landed(p: Person, level: i32) -> Person {
    Person { current_floor: level, state: PersonState::Arrived, ..p }
}

/// No passenger is listed twice.
pub open spec fn distinct(pass: Seq<u32>) -> bool {
    forall|a: int, b: int| 0 <= a < pass.len() && 0 <= b < pass.len() && a != b ==> #[trigger] pass[a] != #[trigger] pass[b]
}

/// Letting distinct riders off: each of them has arrived at `level`, nobody
/// else changed, and both the count of people served and the count of
/// arrivals grew by the number let off.
pub proof fn lemma_arrive(l: Landing, pass: Seq<u32>, level: i32, n: nat)
    requires
        n <= pass.len(),
        distinct(pass),
        forall|k: int| 0 <= k < pass.len() ==> (#[trigger] pass[k]) < l.people.len() && l.people[pass[k] as int].state == PersonState::Riding,
        l.served + pass.len() <= u64::MAX,
    ensures
        ({
            let r = arrive_upto(l, pass, level, n);
            &&& r.people.len() == l.people.len()
            &&& forall|k: int| 0 <= k < n ==> #[trigger] r.people[pass[k] as int] == landed(l.people[pass[k] as int], level)
            &&& forall|i: int| 0 <= i < l.people.len() && !pass.take(n as int).contains(i as u32) ==> #[trigger] r.people[i] == l.people[i]
            &&& r.served == l.served + n
            &&& arrived_count(r.people) == arrived_count(l.people) + n
            &&& same_floor_plan(l.floors, r.floors)
            &&& (occupancy_ok(l.floors) ==> occupancy_ok(r.floors))
        }),
    decreases n,
{
    if n > 0 {
        let m = (n - 1) as nat;
        lemma_arrive(l, pass, level, m);
        let prev = arrive_upto(l, pass, level, m);
        let pid = pass[m as int];
        assert(!pass.take(m as int).contains(pid)) by {
            if pass.take(m as int).contains(pid) {
                let k = choose|k: int| 0 <= k < m && pass.take(m as int)[k] == pid;
                assert(pass[k] == pid);
            }
        }
        assert(prev.people[pid as int] == l.people[pid as int]);
        let r = arrive_upto(l, pass, level, n);
        lemma_arrived_update(prev.people, pid as int, landed(prev.people[pid as int], level), prev.people.len());
        assert forall|k: int| 0 <= k < n implies #[trigger] r.people[pass[k] as int] == landed(l.people[pass[k] as int], level) by {
            if k < m {
                assert(pass[k] != pid);
            }
        }
        assert forall|i: int| 0 <= i < l.people.len() && !pass.take(n as int).contains(i as u32) implies #[trigger] r.people[i] == l.people[i] by {
            assert(pass.take(n as int)[m as int] == pid);
            if pass.take(m as int).contains(i as u32) {
                let k = choose|k: int| 0 <= k < m && pass.take(m as int)[k] == i as u32;
                assert(pass.take(n as int)[k] == i as u32);
            }
        }
        let f = crate::simulation::floor_index(prev.floors, level, 0);
        crate::simulation::lemma_floor_index(prev.floors, level, 0);
        assert(r == arrive_one(prev, pid, level));
        assert(pid < prev.people.len());
        if f < prev.floors.len() && prev.floors[f].current_occupants < prev.floors[f].capacity {
            assert(r.floors == prev.floors.update(f, Floor { current_occupants: (prev.floors[f].current_occupants + 1) as u32, ..prev.floors[f] }));
        } else {
            assert(r.floors == prev.floors);
        }
        assert(r.floors.len() == prev.floors.len());
        assert forall|i: int| 0 <= i < l.floors.len() implies {
            &&& (#[trigger] r.floors[i]).level == l.floors[i].level
            &&& r.floors[i].floor_type == l.floors[i].floor_type
            &&& r.floors[i].capacity == l.floors[i].capacity
            &&& r.floors[i].satisfaction == l.floors[i].satisfaction
        } by {
            assert(prev.floors[i].level == l.floors[i].level);
            if f < prev.floors.len() && prev.floors[f].current_occupants < prev.floors[f].capacity && i == f {
            } else {
                assert(r.floors[i] == prev.floors[i]);
            }
        }
        if occupancy_ok(l.floors) {
            assert forall|i: int| 0 <= i < r.floors.len() implies (#[trigger] r.floors[i]).current_occupants <= r.floors[i].capacity by {
                assert(prev.floors[i].current_occupants <= prev.floors[i].capacity);
                if f < prev.floors.len() && prev.floors[f].current_occupants < prev.floors[f].capacity && i == f {
                } else {
                    assert(r.floors[i] == prev.floors[i]);
                }
            }
        }
    }
}

/// One car's turn keeps everybody numbered, keeps the riders consistent and
/// the count of people served equal to the count of arrivals, leaves people
/// who have arrived as they were, changes no other car, and moves this car
/// at most one level.
pub proof fn lemma_car_step(t: Traffic, j: int)
    requires
        0 <= j < t.cars.len(),
        ids_ok(t.people),
        riders_ok(t.people, t.cars),
        t.served == arrived_count(t.people),
        t.served + t.cars[j].passengers.len() <= u64::MAX,
    ensures
        ({
            let r = car_step(t, j);
            &&& r.people.len() == t.people.len()
            &&& r.cars.len() == t.cars.len()
            &&& ids_ok(r.people)
            &&& riders_ok(r.people, r.cars)
            &&& r.served == arrived_count(r.people)
            &&& r.served <= t.served + t.cars[j].passengers.len()
            &&& forall|i: int| 0 <= i < t.people.len() && t.people[i].state == PersonState::Arrived ==> #[trigger] r.people[i] == t.people[i]
            &&& forall|k: int| 0 <= k < t.cars.len() && k != j ==> #[trigger] r.cars[k] == t.cars[k]
            &&& -1 <= r.cars[j].current_floor - t.cars[j].current_floor <= 1
            &&& same_floor_plan(t.floors, r.floors)
            &&& (occupancy_ok(t.floors) ==> occupancy_ok(r.floors))
        }),
{
    let e = t.cars[j];
    let pass = e.passengers;
    let r = car_step(t, j);
    assert(distinct(pass)) by {
        assert forall|a: int, b: int| 0 <= a < pass.len() && 0 <= b < pass.len() && a != b implies #[trigger] pass[a] != #[trigger] pass[b] by {
            assert(t.cars[j].passengers[a] != t.cars[j].passengers[b]);
        }
    }
    assert forall|k: int| 0 <= k < pass.len() implies (#[trigger] pass[k]) < t.people.len() && t.people[pass[k] as int].state == PersonState::Riding by {
        assert(t.cars[j].passengers[k] == pass[k]);
    }
    // Nobody who has arrived is aboard this car.
    assert forall|i: int| 0 <= i < t.people.len() && t.people[i].state == PersonState::Arrived implies !pass.take(pass.len() as int).contains(i as u32) by {
        if pass.take(pass.len() as int).contains(i as u32) {
            let k = choose|k: int| 0 <= k < pass.len() && pass.take(pass.len() as int)[k] == i as u32;
            assert(pass[k] == i as u32);
        }
    }
    if pass.len() == 0 {
        assert(riders_ok(r.people, r.cars)) by {
            assert forall|a: int, b: int| 0 <= a < r.cars.len() && 0 <= b < r.cars[a].passengers.len() implies {
                &&& #[trigger] r.cars[a].passengers[b] < r.people.len()
                &&& r.people[r.cars[a].passengers[b] as int].state == PersonState::Riding
            } by {
                assert(r.cars[a].passengers == t.cars[a].passengers);
            }
            assert forall|j1: int, k1: int, j2: int, k2: int|
                0 <= j1 < r.cars.len() && 0 <= k1 < r.cars[j1].passengers.len() && 0 <= j2 < r.cars.len() && 0 <= k2
                    < r.cars[j2].passengers.len() && (j1 != j2 || k1 != k2) implies #[trigger] r.cars[j1].passengers[k1]
                != #[trigger] r.cars[j2].passengers[k2] by {
                assert(r.cars[j1].passengers == t.cars[j1].passengers);
                assert(r.cars[j2].passengers == t.cars[j2].passengers);
            }
        }
    } else {
        let target = crate::simulation::ride_target(t.people, e);
        if target != e.current_floor {
            lemma_ride(t.people, pass, pass.len());
            lemma_arrived_same_states(t.people, r.people, t.people.len());
            assert(riders_ok(r.people, r.cars)) by {
                assert forall|a: int, b: int| 0 <= a < r.cars.len() && 0 <= b < r.cars[a].passengers.len() implies {
                    &&& #[trigger] r.cars[a].passengers[b] < r.people.len()
                    &&& r.people[r.cars[a].passengers[b] as int].state == PersonState::Riding
                } by {
                    assert(r.cars[a].passengers == t.cars[a].passengers);
                    assert(t.cars[a].passengers[b] < t.people.len());
                }
                assert forall|j1: int, k1: int, j2: int, k2: int|
                    0 <= j1 < r.cars.len() && 0 <= k1 < r.cars[j1].passengers.len() && 0 <= j2 < r.cars.len() && 0 <= k2
                        < r.cars[j2].passengers.len() && (j1 != j2 || k1 != k2) implies #[trigger] r.cars[j1].passengers[k1]
                    != #[trigger] r.cars[j2].passengers[k2] by {
                    assert(r.cars[j1].passengers == t.cars[j1].passengers);
                    assert(r.cars[j2].passengers == t.cars[j2].passengers);
                }
            }
            assert forall|i: int| 0 <= i < t.people.len() implies (#[trigger] r.people[i]).id == i by {
                assert(r.people[i].id == t.people[i].id);
            }
        } else {
            let l0 = Landing { people: t.people, floors: t.floors, served: t.served };
            lemma_arrive(l0, pass, e.current_floor, pass.len());
            // Passengers of other cars are not aboard this one.
            assert forall|a: int, b: int| 0 <= a < t.cars.len() && a != j && 0 <= b < t.cars[a].passengers.len() implies !pass.take(pass.len() as int).contains(#[trigger] t.cars[a].passengers[b]) by {
                if pass.take(pass.len() as int).contains(t.cars[a].passengers[b]) {
                    let k = choose|k: int| 0 <= k < pass.len() && pass.take(pass.len() as int)[k] == t.cars[a].passengers[b];
                    assert(t.cars[j].passengers[k] == pass[k]);
                }
            }
            assert(riders_ok(r.people, r.cars)) by {
                assert forall|a: int, b: int| 0 <= a < r.cars.len() && 0 <= b < r.cars[a].passengers.len() implies {
                    &&& #[trigger] r.cars[a].passengers[b] < r.people.len()
                    &&& r.people[r.cars[a].passengers[b] as int].state == PersonState::Riding
                } by {
                    assert(a != j);
                    assert(r.cars[a] == t.cars[a]);
                    assert(t.cars[a].passengers[b] < t.people.len());
                }
                assert forall|j1: int, k1: int, j2: int, k2: int|
                    0 <= j1 < r.cars.len() && 0 <= k1 < r.cars[j1].passengers.len() && 0 <= j2 < r.cars.len() && 0 <= k2
                        < r.cars[j2].passengers.len() && (j1 != j2 || k1 != k2) implies #[trigger] r.cars[j1].passengers[k1]
                    != #[trigger] r.cars[j2].passengers[k2] by {
                    assert(r.cars[j1] == t.cars[j1]);
                    assert(r.cars[j2] == t.cars[j2]);
                }
            }
            assert forall|i: int| 0 <= i < t.people.len() implies (#[trigger] r.people[i]).id == i by {
                if pass.take(pass.len() as int).contains(i as u32) {
                    let k = choose|k: int| 0 <= k < pass.len() && pass.take(pass.len() as int)[k] == i as u32;
                    assert(pass[k] == i as u32);
                    assert(r.people[pass[k] as int] == landed(t.people[pass[k] as int], e.current_floor));
                } else {
                    assert(r.people[i] == t.people[i]);
                }
            }
        }
    }
}

/// Every car taking its turn keeps everybody numbered, keeps the riders
/// consistent and the count of people served equal to the count of
/// arrivals, leaves people who have arrived as they were, and moves each
/// car at most one level.
pub proof fn lemma_cars(t: Traffic, n: nat)
    requires
        n <= t.cars.len(),
        ids_ok(t.people),
        riders_ok(t.people, t.cars),
        t.served == arrived_count(t.people),
        t.served + 10 * t.cars.len() <= u64::MAX,
        forall|j: int| 0 <= j < t.cars.len() ==> (#[trigger] t.cars[j]).passengers.len() <= 10,
    ensures
        ({
            let r = cars_upto(t, n);
            &&& r.people.len() == t.people.len()
            &&& r.cars.len() == t.cars.len()
            &&& ids_ok(r.people)
            &&& riders_ok(r.people, r.cars)
            &&& r.served == arrived_count(r.people)
            &&& r.served <= t.served + 10 * n
            &&& forall|i: int| 0 <= i < t.people.len() && t.people[i].state == PersonState::Arrived ==> #[trigger] r.people[i] == t.people[i]
            &&& forall|k: int| n <= k < t.cars.len() ==> #[trigger] r.cars[k] == t.cars[k]
            &&& forall|k: int| 0 <= k < n ==> -1 <= (#[trigger] r.cars[k]).current_floor - t.cars[k].current_floor <= 1
            &&& same_floor_plan(t.floors, r.floors)
            &&& (occupancy_ok(t.floors) ==> occupancy_ok(r.floors))
        }),
    decreases n,
{
    if n > 0 {
        let m = (n - 1) as nat;
        lemma_cars(t, m);
        let prev = cars_upto(t, m);
        assert(prev.cars[m as int] == t.cars[m as int]);
        lemma_car_step(prev, m as int);
        let r = cars_upto(t, n);
        assert forall|i: int| 0 <= i < t.people.len() && t.people[i].state == PersonState::Arrived implies #[trigger] r.people[i] == t.people[i] by {
            assert(prev.people[i] == t.people[i]);
        }
        assert forall|k: int| 0 <= k < n implies -1 <= (#[trigger] r.cars[k]).current_floor - t.cars[k].current_floor <= 1 by {
            if k < m {
                assert(r.cars[k] == prev.cars[k]);
            }
        }
        assert forall|k: int| n <= k < t.cars.len() implies #[trigger] r.cars[k] == t.cars[k] by {
            assert(r.cars[k] == prev.cars[k]);
        }
    }
}

} // verus!

use vstd::prelude::*;
use crate::state::{Direction, Elevator, ElevatorView, Floor, Person, PersonState};
use crate::flow::{arrived_count, ids_ok, riders_ok};
use crate::riders::riders_aboard;

verus! {

/// The mathematical values of a row of elevator cars.
pub open spec fn cars(v: Seq<Elevator>) -> Seq<ElevatorView> {
    v.map_values(|e: Elevator| e@)
}

// ─── Boarding ────────────────────────────────────────────

/// The direction a person needs to travel: up if the destination is above, down otherwise.
pub open spec fn wanted_direction(p: Person) -> Direction {
    if p.destination > p.current_floor {
        Direction::Up
    } else {
        Direction::Down
    }
}

/// A car can take a person at `floor` who wants to go `want`: it stands there,
/// has room, and is idle or already going that way.
pub open spec fn can_board(e: ElevatorView, floor: i32, want: Direction) -> bool {
    &&& e.current_floor == floor
    &&& e.passengers.len() < e.capacity
    &&& (e.direction == Direction::Idle || e.direction == want)
}

/// Index of the first car from `j` on that can take the person, or the number of cars.
pub open spec fn first_boardable(es: Seq<ElevatorView>, floor: i32, want: Direction, j: int) -> int
    decreases es.len() - j,
{
    if j >= es.len() {
        es.len() as int
    } else if can_board(es[j], floor, want) {
        j
    } else {
        first_boardable(es, floor, want, j + 1)
    }
}

/// What the search for a car finds: a car that can take the person, before
/// which none can; or no car at all.
pub proof fn lemma_first_boardable(es: Seq<ElevatorView>, floor: i32, want: Direction, j: int)
    requires
        0 <= j,
    ensures
        j <= first_boardable(es, floor, want, j) <= es.len() || (j > es.len() && first_boardable(es, floor, want, j) == es.len()),
        first_boardable(es, floor, want, j) < es.len() ==> can_board(es[first_boardable(es, floor, want, j)], floor, want),
        forall|k: int| j <= k < first_boardable(es, floor, want, j) ==> !can_board(#[trigger] es[k], floor, want),
    decreases es.len() - j,
{
    if j < es.len() && !can_board(es[j], floor, want) {
        lemma_first_boardable(es, floor, want, j + 1);
    }
}

/// A car after person `p` boards it for direction `want`.
pub open spec fn board(e: ElevatorView, p: Person, want: Direction) -> ElevatorView {
    ElevatorView {
        passengers: e.passengers.push(p.id),
        total_wait_ticks: (e.total_wait_ticks + p.wait_ticks) as u64,
        direction: if e.direction == Direction::Idle {
            want
        } else {
            e.direction
        },
        ..e
    }
}

/// One person's turn: a waiting person waits one more minute, then boards the
/// first car that can take them, if any.
pub open spec fn person_step(people: Seq<Person>, es: Seq<ElevatorView>, i: int) -> (Seq<Person>, Seq<ElevatorView>) {
    let p = people[i];
    if p.state != PersonState::Waiting {
        (people, es)
    } else {
        let p1 = Person { wait_ticks: (p.wait_ticks + 1) as u64, ..p };
        let want = wanted_direction(p1);
        let j = first_boardable(es, p1.current_floor, want, 0);
        if j < es.len() {
            (
                people.update(i, Person { state: PersonState::Riding, travel_ticks: 0, ..p1 }),
                es.update(j, board(es[j], p1, want)),
            )
        } else {
            (people.update(i, p1), es)
        }
    }
}

/// The first `n` people take their turn, in order.
pub open spec fn boarding_upto(people: Seq<Person>, es: Seq<ElevatorView>, n: nat) -> (Seq<Person>, Seq<ElevatorView>)
    decreases n,
{
    if n == 0 {
        (people, es)
    } else {
        let prev = boarding_upto(people, es, (n - 1) as nat);
        person_step(prev.0, prev.1, n - 1)
    }
}

/// Everybody takes their turn.
pub open spec fn boarding(people: Seq<Person>, es: Seq<ElevatorView>) -> (Seq<Person>, Seq<ElevatorView>) {
    boarding_upto(people, es, people.len())
}

/// Room enough in every car's waiting counter for a full load of people who
/// have waited `time` minutes each.
pub open spec fn wait_room(es: Seq<ElevatorView>, time: u64) -> bool {
    forall|j: int|
        0 <= j < es.len() ==> {
            let e = #[trigger] es[j];
            &&& e.passengers.len() <= e.capacity
            &&& e.total_wait_ticks + (e.capacity - e.passengers.len()) * time + 10 <= u64::MAX
        }
}

/// Every passenger of every car is one of `n` people.
pub open spec fn passengers_known(es: Seq<ElevatorView>, n: nat) -> bool {
    forall|j: int, k: int|
        0 <= j < es.len() && 0 <= k < es[j].passengers.len() ==> #[trigger] es[j].passengers[k] < n
}

/// The same people, with the same ids and trips, none having ridden longer.
pub open spec fn same_people(a: Seq<Person>, b: Seq<Person>) -> bool {
    &&& a.len() == b.len()
    &&& forall|i: int|
        0 <= i < a.len() ==> {
            &&& (#[trigger] b[i]).id == a[i].id
            &&& b[i].destination == a[i].destination
            &&& b[i].travel_ticks <= a[i].travel_ticks
            &&& b[i].wait_ticks <= a[i].wait_ticks + 1
        }
}

/// The same cars in the same shafts, with the same capacity and trip counts,
/// standing where they stood.
pub open spec fn same_cars_in_place(a: Seq<ElevatorView>, b: Seq<ElevatorView>) -> bool {
    &&& a.len() == b.len()
    &&& forall|j: int|
        0 <= j < a.len() ==> {
            &&& (#[trigger] b[j]).shaft == a[j].shaft
            &&& b[j].capacity == a[j].capacity
            &&& b[j].trips_completed == a[j].trips_completed
            &&& b[j].current_floor == a[j].current_floor
        }
}

/// Index of the first car that can take a person at `floor` going `want`.
fn find_boardable(elevators: &Vec<Elevator>, floor: i32, want: Direction) -> (j: usize)
    ensures
        j == first_boardable(cars(elevators@), floor, want, 0),
{
    let n = elevators.len();
    let mut j: usize = 0;
    while j < n
        invariant
            n == elevators.len(),
            j <= n,
            first_boardable(cars(elevators@), floor, want, j as int) == first_boardable(
                cars(elevators@),
                floor,
                want,
                0,
            ),
        decreases n - j,
    {
        let e = &elevators[j];
        if e.current_floor == floor && e.passengers.len() < e.capacity as usize && (e.direction
            == Direction::Idle || e.direction == want) {
            return j;
        }
        j = j + 1;
    }
    j
}

/// Waiting people wait a minute more and board the first car that can take them.
pub fn move_people(people: &mut Vec<Person>, elevators: &mut Vec<Elevator>, time: u64)
    requires
        wait_room(cars(old(elevators)@), time),
        forall|i: int| 0 <= i < old(people)@.len() ==> #[trigger] old(people)@[i].wait_ticks < time,
        forall|i: int| 0 <= i < old(people)@.len() ==> #[trigger] old(people)@[i].id < old(people)@.len(),
        passengers_known(cars(old(elevators)@), old(people)@.len()),
    ensures
        (final(people)@, cars(final(elevators)@)) == boarding(old(people)@, cars(old(elevators)@)),
        same_people(old(people)@, final(people)@),
        same_cars_in_place(cars(old(elevators)@), cars(final(elevators)@)),
        wait_room(cars(final(elevators)@), time),
        passengers_known(cars(final(elevators)@), old(people)@.len()),
        ids_ok(old(people)@) && riders_ok(old(people)@, cars(old(elevators)@)) ==> ids_ok(final(people)@) && riders_ok(
            final(people)@,
            cars(final(elevators)@),
        ),
        ids_ok(old(people)@) && riders_ok(old(people)@, cars(old(elevators)@)) && riders_aboard(
            old(people)@,
            cars(old(elevators)@),
        ) ==> riders_aboard(final(people)@, cars(final(elevators)@)),
{
    let n = people.len();
    let ghost p0 = people@;
    let ghost e0 = cars(elevators@);
    for i in 0..n
        invariant
            n == people.len(),
            p0.len() == n,
            (people@, cars(elevators@)) == boarding_upto(p0, e0, i as nat),
            wait_room(cars(elevators@), time),
            forall|k: int| i <= k < n ==> #[trigger] people@[k] == p0[k],
            forall|k: int| 0 <= k < n ==> #[trigger] p0[k].wait_ticks < time,
            forall|k: int| 0 <= k < n ==> #[trigger] p0[k].id < n,
            same_people(p0, people@),
            same_cars_in_place(e0, cars(elevators@)),
            passengers_known(cars(elevators@), n as nat),
    {
        let p = people[i];
        if p.state == PersonState::Waiting {
            let mut p1 = p;
            p1.wait_ticks = p.wait_ticks + 1;
            let want = if p1.destination > p1.current_floor {
                Direction::Up
            } else {
                Direction::Down
            };
            let j = find_boardable(elevators, p1.current_floor, want);
            proof {
                lemma_first_boardable(cars(elevators@), p1.current_floor, want, 0);
            }
            if j < elevators.len() {
                let ghost es = cars(elevators@);
                let e = &mut elevators[j];
                assert(es[j as int] == e@);
                assert(e.total_wait_ticks + p1.wait_ticks <= u64::MAX) by (nonlinear_arith)
                    requires
                        e.passengers@.len() < e.capacity,
                        e.total_wait_ticks + (e.capacity - e.passengers@.len()) * time + 10 <= u64::MAX,
                        p1.wait_ticks <= time,
                ;
                e.passengers.push(p1.id);
                e.total_wait_ticks = e.total_wait_ticks + p1.wait_ticks;
                if e.direction == Direction::Idle {
                    e.direction = want;
                }
                let mut p2 = p1;
                p2.state = PersonState::Riding;
                p2.travel_ticks = 0;
                people.set(i, p2);
                proof {
                    assert(cars(elevators@) =~= es.update(j as int, board(es[j as int], p1, want)));
                    let e2 = cars(elevators@)[j as int];
                    assert(e2.total_wait_ticks + (e2.capacity - e2.passengers.len()) * time + 10 <= u64::MAX) by (nonlinear_arith)
                        requires
                            e2.passengers.len() == es[j as int].passengers.len() + 1,
                            e2.capacity == es[j as int].capacity,
                            e2.total_wait_ticks == es[j as int].total_wait_ticks + p1.wait_ticks,
                            p1.wait_ticks <= time,
                            es[j as int].total_wait_ticks + (es[j as int].capacity - es[j as int].passengers.len()) * time + 10 <= u64::MAX,
                    ;
                    assert forall|k: int| 0 <= k < cars(elevators@).len() implies {
                        let e = #[trigger] cars(elevators@)[k];
                        &&& e.passengers.len() <= e.capacity
                        &&& e.total_wait_ticks + (e.capacity - e.passengers.len()) * time + 10 <= u64::MAX
                    } by {
                        if k != j {
                            assert(cars(elevators@)[k] == es[k]);
                        }
                    }
                    assert forall|a: int, b: int|
                        0 <= a < cars(elevators@).len() && 0 <= b < cars(elevators@)[a].passengers.len()
                        implies #[trigger] cars(elevators@)[a].passengers[b] < n by {
                        if a != j {
                            assert(cars(elevators@)[a] == es[a]);
                        } else if b < es[j as int].passengers.len() {
                            assert(cars(elevators@)[a].passengers[b] == es[a].passengers[b]);
                        }
                    }
                    assert forall|k: int| 0 <= k < cars(elevators@).len() implies {
                        &&& (#[trigger] cars(elevators@)[k]).shaft == e0[k].shaft
                        &&& cars(elevators@)[k].capacity == e0[k].capacity
                        &&& cars(elevators@)[k].trips_completed == e0[k].trips_completed
                        &&& cars(elevators@)[k].current_floor == e0[k].current_floor
                    } by {
                        assert(es[k].shaft == e0[k].shaft);
                    }
                }
            } else {
                people.set(i, p1);
            }
        }
    }
    proof {
        if ids_ok(p0) && riders_ok(p0, e0) {
            crate::flow::lemma_boarding(p0, e0, n as nat);
            if riders_aboard(p0, e0) {
                crate::riders::lemma_boarding_aboard(p0, e0, n as nat);
            }
        }
    }
}

// ─── Car movement ────────────────────────────────────────

/// The part of a tower that cars move: people, cars, floors and the count of
/// people served.
pub struct Traffic {
    pub people: Seq<Person>,
    pub cars: Seq<ElevatorView>,
    pub floors: Seq<Floor>,
    pub served: u64,
}

/// Distance between two levels.
pub open spec fn distance(a: i32, b: i32) -> int {
    if a >= b {
        a - b
    } else {
        b - a
    }
}

/// Among the first `n` people, the closest waiting one to `cur` (the earliest
/// on a tie) as (distance, level); `(i32::MAX, cur)` when none is closer than that.
pub open spec fn nearest_waiting(people: Seq<Person>, cur: i32, n: nat) -> (int, i32)
    decreases n,
{
    if n == 0 {
        (i32::MAX as int, cur)
    } else {
        let prev = nearest_waiting(people, cur, (n - 1) as nat);
        let p = people[n - 1];
        if p.state == PersonState::Waiting && distance(p.current_floor, cur) < prev.0 {
            (distance(p.current_floor, cur), p.current_floor)
        } else {
            prev
        }
    }
}

/// Where an empty car heads: the level of the closest waiting person.
pub open spec fn idle_target(people: Seq<Person>, cur: i32) -> i32 {
    nearest_waiting(people, cur, people.len()).1
}

/// Index of the first person from `i` on who is among `passengers`, or the number of people.
pub open spec fn first_rider(people: Seq<Person>, passengers: Seq<u32>, i: int) -> int
    decreases people.len() - i,
{
    if i >= people.len() {
        people.len() as int
    } else if passengers.contains(people[i].id) {
        i
    } else {
        first_rider(people, passengers, i + 1)
    }
}

/// Where a loaded car heads: the destination of its earliest-appeared passenger.
pub open spec fn ride_target(people: Seq<Person>, e: ElevatorView) -> i32 {
    let k = first_rider(people, e.passengers, 0);
    if k < people.len() {
        people[k].destination
    } else {
        e.current_floor
    }
}

/// A car moved one level toward `target`.
pub open spec fn step_toward(e: ElevatorView, target: i32) -> ElevatorView {
    if e.current_floor < target {
        ElevatorView { current_floor: (e.current_floor + 1) as i32, direction: Direction::Up, ..e }
    } else {
        ElevatorView { current_floor: (e.current_floor - 1) as i32, direction: Direction::Down, ..e }
    }
}

/// Index of the first floor from `i` on at `level`, or the number of floors.
pub open spec fn floor_index(floors: Seq<Floor>, level: i32, i: int) -> int
    decreases floors.len() - i,
{
    if i >= floors.len() {
        floors.len() as int
    } else if floors[i].level == level {
        i
    } else {
        floor_index(floors, level, i + 1)
    }
}

/// What getting off touches: people, floors and the count of people served.
pub struct Landing {
    pub people: Seq<Person>,
    pub floors: Seq<Floor>,
    pub served: u64,
}

/// One passenger gets off at `level`: they arrive there, are counted as served,
/// and the floor there takes them in if it has room.
pub open spec fn arrive_one(t: Landing, pid: u32, level: i32) -> Landing {
    if pid < t.people.len() {
        let p = t.people[pid as int];
        let f = floor_index(t.floors, level, 0);
        Landing {
            people: t.people.update(
                pid as int,
                Person { current_floor: level, state: PersonState::Arrived, ..p },
            ),
            floors: if f < t.floors.len() && t.floors[f].current_occupants < t.floors[f].capacity {
                t.floors.update(
                    f,
                    Floor { current_occupants: (t.floors[f].current_occupants + 1) as u32, ..t.floors[f] },
                )
            } else {
                t.floors
            },
            served: (t.served + 1) as u64,
        }
    } else {
        t
    }
}

/// The first `n` passengers get off at `level`, in order.
pub open spec fn arrive_upto(t: Landing, passengers: Seq<u32>, level: i32, n: nat) -> Landing
    decreases n,
{
    if n == 0 {
        t
    } else {
        arrive_one(arrive_upto(t, passengers, level, (n - 1) as nat), passengers[n - 1], level)
    }
}

/// Each of the first `n` passengers rides one minute more.
pub open spec fn ride_upto(people: Seq<Person>, passengers: Seq<u32>, n: nat) -> Seq<Person>
    decreases n,
{
    if n == 0 {
        people
    } else {
        let prev = ride_upto(people, passengers, (n - 1) as nat);
        let pid = passengers[n - 1];
        if pid < prev.len() {
            prev.update(pid as int, Person { travel_ticks: (prev[pid as int].travel_ticks + 1) as u64, ..prev[pid as int] })
        } else {
            prev
        }
    }
}

/// Car `j` takes its turn.  An empty car heads for the closest waiting person,
/// or idles where it is.  A loaded car heads for its earliest passenger's
/// destination; once there it lets everybody off and idles.  Then whoever is
/// still aboard rides one minute more.
pub open spec fn car_step(t: Traffic, j: int) -> Traffic {
    let e = t.cars[j];
    if e.passengers.len() == 0 {
        let target = idle_target(t.people, e.current_floor);
        let e1 = if target != e.current_floor {
            step_toward(e, target)
        } else {
            ElevatorView { direction: Direction::Idle, ..e }
        };
        Traffic { cars: t.cars.update(j, e1), ..t }
    } else {
        let target = ride_target(t.people, e);
        if target != e.current_floor {
            let e1 = step_toward(e, target);
            Traffic {
                people: ride_upto(t.people, e1.passengers, e1.passengers.len()),
                cars: t.cars.update(j, e1),
                ..t
            }
        } else {
            let l = arrive_upto(
                Landing { people: t.people, floors: t.floors, served: t.served },
                e.passengers,
                e.current_floor,
                e.passengers.len(),
            );
            let e1 = ElevatorView {
                trips_completed: (e.trips_completed + 1) as u64,
                passengers: Seq::empty(),
                direction: Direction::Idle,
                ..e
            };
            Traffic { people: l.people, cars: t.cars.update(j, e1), floors: l.floors, served: l.served }
        }
    }
}

/// The first `n` cars take their turn, in order.
pub open spec fn cars_upto(t: Traffic, n: nat) -> Traffic
    decreases n,
{
    if n == 0 {
        t
    } else {
        car_step(cars_upto(t, (n - 1) as nat), n - 1)
    }
}

/// Every car takes its turn.
pub open spec fn car_movement(t: Traffic) -> Traffic {
    cars_upto(t, t.cars.len())
}

/// The level an empty car heads for.
fn find_idle_target(people: &Vec<Person>, cur: i32) -> (target: i32)
    ensures
        target == idle_target(people@, cur),
{
    let n = people.len();
    let mut best_dist: i64 = i32::MAX as i64;
    let mut best_target: i32 = cur;
    for i in 0..n
        invariant
            n == people.len(),
            (best_dist as int, best_target) == nearest_waiting(people@, cur, i as nat),
            0 <= best_dist <= i32::MAX,
    {
        let p = people[i];
        let d: i64 = if p.current_floor >= cur {
            p.current_floor as i64 - cur as i64
        } else {
            cur as i64 - p.current_floor as i64
        };
        if p.state == PersonState::Waiting && d < best_dist {
            best_dist = d;
            best_target = p.current_floor;
        }
    }
    best_target
}

/// Whether `id` is among `passengers`.
fn carries(passengers: &Vec<u32>, id: u32) -> (b: bool)
    ensures
        b == passengers@.contains(id),
{
    let n = passengers.len();
    for k in 0..n
        invariant
            n == passengers.len(),
            forall|m: int| 0 <= m < k ==> passengers@[m] != id,
    {
        if passengers[k] == id {
            assert(passengers@[k as int] == id);
            return true;
        }
    }
    false
}

/// The level a loaded car heads for.
fn find_ride_target(people: &Vec<Person>, passengers: &Vec<u32>, cur: i32) -> (target: i32)
    ensures
        forall|e: ElevatorView| e.passengers == passengers@ && e.current_floor == cur
            ==> target == #[trigger] ride_target(people@, e),
{
    let n = people.len();
    let mut i: usize = 0;
    while i < n
        invariant
            n == people.len(),
            i <= n,
            first_rider(people@, passengers@, i as int) == first_rider(people@, passengers@, 0),
        decreases n - i,
    {
        if carries(passengers, people[i].id) {
            return people[i].destination;
        }
        i = i + 1;
    }
    cur
}

/// Index of the first floor at `level`, or the number of floors.
fn find_floor(floors: &Vec<Floor>, level: i32) -> (f: usize)
    ensures
        f == floor_index(floors@, level, 0),
{
    let n = floors.len();
    let mut i: usize = 0;
    while i < n
        invariant
            n == floors.len(),
            i <= n,
            floor_index(floors@, level, i as int) == floor_index(floors@, level, 0),
        decreases n - i,
    {
        if floors[i].level == level {
            return i;
        }
        i = i + 1;
    }
    i
}

/// Where `floor_index` lands.
pub proof fn lemma_floor_index(floors: Seq<Floor>, level: i32, i: int)
    requires
        0 <= i,
    ensures
        floor_index(floors, level, i) <= floors.len() || (i > floors.len() && floor_index(floors, level, i) == floors.len()),
        floor_index(floors, level, i) >= i || floor_index(floors, level, i) == floors.len(),
        floor_index(floors, level, i) < floors.len() ==> floors[floor_index(floors, level, i)].level == level,
    decreases floors.len() - i,
{
    if i < floors.len() && floors[i].level != level {
        lemma_floor_index(floors, level, i + 1);
    }
}

/// The same people with the same ids and destinations.
pub open spec fn same_ids(a: Seq<Person>, b: Seq<Person>) -> bool {
    &&& a.len() == b.len()
    &&& forall|i: int|
        0 <= i < a.len() ==> (#[trigger] b[i]).id == a[i].id && b[i].destination == a[i].destination
            && b[i].wait_ticks == a[i].wait_ticks
}

/// The same floors, in the same order: only how many people are inside may differ.
pub open spec fn same_floor_plan(a: Seq<Floor>, b: Seq<Floor>) -> bool {
    &&& a.len() == b.len()
    &&& forall|i: int|
        0 <= i < a.len() ==> {
            &&& (#[trigger] b[i]).level == a[i].level
            &&& b[i].floor_type == a[i].floor_type
            &&& b[i].capacity == a[i].capacity
            &&& b[i].satisfaction == a[i].satisfaction
        }
}

/// No floor holds more people than it has room for.
pub open spec fn occupancy_ok(floors: Seq<Floor>) -> bool {
    forall|i: int| 0 <= i < floors.len() ==> (#[trigger] floors[i]).current_occupants <= floors[i].capacity
}

/// The same cars in the same shafts with the same capacity and waiting
/// counters; each car keeps its passengers or has let them all off.
pub open spec fn same_cars_moved(a: Seq<ElevatorView>, b: Seq<ElevatorView>) -> bool {
    &&& a.len() == b.len()
    &&& forall|j: int|
        0 <= j < a.len() ==> {
            &&& (#[trigger] b[j]).shaft == a[j].shaft
            &&& b[j].capacity == a[j].capacity
            &&& b[j].total_wait_ticks == a[j].total_wait_ticks
            &&& (b[j].passengers == a[j].passengers || b[j].passengers.len() == 0)
        }
}

/// Passengers get off at `level`.
fn arrive(people: &mut Vec<Person>, floors: &mut Vec<Floor>, served: &mut u64, passengers: &Vec<u32>, level: i32)
    requires
        *old(served) + passengers@.len() <= u64::MAX,
    ensures
        (Landing { people: final(people)@, floors: final(floors)@, served: *final(served) }) == arrive_upto(
            (Landing { people: old(people)@, floors: old(floors)@, served: *old(served) }),
            passengers@,
            level,
            passengers@.len(),
        ),
        final(people)@.len() == old(people)@.len(),
        *final(served) <= *old(served) + passengers@.len(),
        forall|i: int| 0 <= i < old(people)@.len() ==> #[trigger] final(people)@[i].travel_ticks == old(people)@[i].travel_ticks,
        same_ids(old(people)@, final(people)@),
        same_floor_plan(old(floors)@, final(floors)@),
        occupancy_ok(old(floors)@) ==> occupancy_ok(final(floors)@),
{
    let n = passengers.len();
    let ghost t0 = Landing { people: people@, floors: floors@, served: *served };
    for k in 0..n
        invariant
            n == passengers.len(),
            (Landing { people: people@, floors: floors@, served: *served }) == arrive_upto(t0, passengers@, level, k as nat),
            *served + (n - k) <= u64::MAX,
            *served <= t0.served + k,
            people@.len() == t0.people.len(),
            forall|i: int| 0 <= i < t0.people.len() ==> #[trigger] people@[i].travel_ticks == t0.people[i].travel_ticks,
            same_ids(t0.people, people@),
            same_floor_plan(t0.floors, floors@),
            occupancy_ok(t0.floors) ==> occupancy_ok(floors@),
    {
        let pid = passengers[k];
        if (pid as usize) < people.len() {
            let mut p = people[pid as usize];
            p.current_floor = level;
            p.state = PersonState::Arrived;
            people.set(pid as usize, p);
            let f = find_floor(floors, level);
            proof {
                lemma_floor_index(floors@, level, 0);
            }
            if f < floors.len() && floors[f].current_occupants < floors[f].capacity {
                let mut fl = floors[f];
                fl.current_occupants = fl.current_occupants + 1;
                floors.set(f, fl);
            }
            *served = *served + 1;
        }
    }
}

/// Each passenger rides one minute more.
fn ride(people: &mut Vec<Person>, passengers: &Vec<u32>)
    requires
        forall|i: int| 0 <= i < old(people)@.len() ==> #[trigger] old(people)@[i].travel_ticks + passengers@.len() <= u64::MAX,
    ensures
        final(people)@ == ride_upto(old(people)@, passengers@, passengers@.len()),
        final(people)@.len() == old(people)@.len(),
        forall|i: int| 0 <= i < old(people)@.len() ==> #[trigger] final(people)@[i].travel_ticks <= old(people)@[i].travel_ticks + passengers@.len(),
        same_ids(old(people)@, final(people)@),
{
    let n = passengers.len();
    let ghost p0 = people@;
    for k in 0..n
        invariant
            n == passengers.len(),
            people@ == ride_upto(p0, passengers@, k as nat),
            people@.len() == p0.len(),
            forall|i: int| 0 <= i < p0.len() ==> #[trigger] p0[i].travel_ticks + n <= u64::MAX,
            forall|i: int| 0 <= i < p0.len() ==> #[trigger] people@[i].travel_ticks <= p0[i].travel_ticks + k,
            same_ids(p0, people@),
    {
        let pid = passengers[k];
        if (pid as usize) < people.len() {
            let mut p = people[pid as usize];
            assert(p0[pid as int].travel_ticks + n <= u64::MAX);
            p.travel_ticks = p.travel_ticks + 1;
            people.set(pid as usize, p);
        }
    }
}

/// Room enough in every counter that car movement raises.
pub open spec fn traffic_room(t: Traffic) -> bool {
    &&& t.served + 10 * t.cars.len() <= u64::MAX
    &&& forall|i: int| 0 <= i < t.people.len() ==> #[trigger] t.people[i].travel_ticks + 10 * t.cars.len() <= u64::MAX
    &&& forall|j: int| 0 <= j < t.cars.len() ==> {
        let e = #[trigger] t.cars[j];
        &&& e.passengers.len() <= 10
        &&& e.trips_completed < u64::MAX
    }
}

/// Every car, in order, moves a level, idles, or lets its passengers off.
pub fn move_elevators(people: &mut Vec<Person>, elevators: &mut Vec<Elevator>, floors: &mut Vec<Floor>, served: &mut u64)
    requires
        traffic_room(Traffic { people: old(people)@, cars: cars(old(elevators)@), floors: old(floors)@, served: *old(served) }),
    ensures
        (Traffic { people: final(people)@, cars: cars(final(elevators)@), floors: final(floors)@, served: *final(served) })
            == car_movement(
            (Traffic { people: old(people)@, cars: cars(old(elevators)@), floors: old(floors)@, served: *old(served) }),
        ),
        same_ids(old(people)@, final(people)@),
        same_cars_moved(cars(old(elevators)@), cars(final(elevators)@)),
        same_floor_plan(old(floors)@, final(floors)@),
        occupancy_ok(old(floors)@) ==> occupancy_ok(final(floors)@),
        ids_ok(old(people)@) && riders_ok(old(people)@, cars(old(elevators)@)) && *old(served) == arrived_count(
            old(people)@,
        ) ==> ids_ok(final(people)@) && riders_ok(final(people)@, cars(final(elevators)@)) && *final(served)
            == arrived_count(final(people)@),
        ids_ok(old(people)@) && riders_ok(old(people)@, cars(old(elevators)@)) && *old(served) == arrived_count(
            old(people)@,
        ) && riders_aboard(old(people)@, cars(old(elevators)@)) ==> riders_aboard(
            final(people)@,
            cars(final(elevators)@),
        ),
{
    let m = elevators.len();
    let ghost t0 = Traffic { people: people@, cars: cars(elevators@), floors: floors@, served: *served };
    for j in 0..m
        invariant
            m == elevators.len(),
            m == t0.cars.len(),
            (Traffic { people: people@, cars: cars(elevators@), floors: floors@, served: *served }) == cars_upto(t0, j as nat),
            *served + 10 * (m - j) <= u64::MAX,
            people@.len() == t0.people.len(),
            forall|i: int| 0 <= i < people@.len() ==> #[trigger] people@[i].travel_ticks + 10 * (m - j) <= u64::MAX,
            forall|k: int| j <= k < m ==> #[trigger] cars(elevators@)[k] == t0.cars[k],
            traffic_room(t0),
            same_ids(t0.people, people@),
            same_cars_moved(t0.cars, cars(elevators@)),
            same_floor_plan(t0.floors, floors@),
            occupancy_ok(t0.floors) ==> occupancy_ok(floors@),
    {
        let ghost tj = Traffic { people: people@, cars: cars(elevators@), floors: floors@, served: *served };
        assert(tj.cars[j as int] == t0.cars[j as int]);
        let cur = elevators[j].current_floor;
        if elevators[j].passengers.len() == 0 {
            let target = find_idle_target(people, cur);
            let e = &mut elevators[j];
            if target != cur {
                if cur < target {
                    e.current_floor = cur + 1;
                    e.direction = Direction::Up;
                } else {
                    e.current_floor = cur - 1;
                    e.direction = Direction::Down;
                }
            } else {
                e.direction = Direction::Idle;
            }
            proof {
                assert(cars(elevators@) =~= car_step(tj, j as int).cars);
            }
        } else {
            let target = find_ride_target(people, &elevators[j].passengers, cur);
            assert(target == ride_target(tj.people, tj.cars[j as int]));
            if target != cur {
                let e = &mut elevators[j];
                if cur < target {
                    e.current_floor = cur + 1;
                    e.direction = Direction::Up;
                } else {
                    e.current_floor = cur - 1;
                    e.direction = Direction::Down;
                }
                ride(people, &elevators[j].passengers);
                proof {
                    assert(cars(elevators@) =~= car_step(tj, j as int).cars);
                }
            } else {
                arrive(people, floors, served, &elevators[j].passengers, cur);
                let e = &mut elevators[j];
                e.trips_completed = e.trips_completed + 1;
                e.passengers.clear();
                e.direction = Direction::Idle;
                proof {
                    assert(cars(elevators@) =~= car_step(tj, j as int).cars);
                }
            }
        }
        proof {
            assert(forall|k: int| j < k < m ==> #[trigger] cars(elevators@)[k] == tj.cars[k]);
        }
    }
    proof {
        if ids_ok(t0.people) && riders_ok(t0.people, t0.cars) && t0.served == arrived_count(t0.people) {
            crate::flow::lemma_cars(t0, m as nat);
            if riders_aboard(t0.people, t0.cars) {
                crate::riders::lemma_cars_aboard(t0, m as nat);
            }
        }
    }
}

} // verus!

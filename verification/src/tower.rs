use vstd::prelude::*;
use crate::economy::{
    collect_income, income_cap_total, upkeep_total, emptied, empty_floors, income, income_cap, lemma_income_within_cap,
    lemma_upkeep_nonnegative, lemma_upkeep_same_plan, maintenance_bill, upkeep,
};
use crate::events::{delay_cars, lemma_expire_upto, run_events, stage_event, FIRE_DAMAGE, VIP_BONUS};
use crate::floor_type::{FloorType, spec_build_cost, spec_capacity};
use crate::flow::{arrived_count, lemma_arrived_newcomer, lemma_boarding, lemma_cars, riders_ok};
use crate::laws::lemma_tick_totals;
use crate::riders::{aboard, lemma_aboard_kept, lemma_boarding_aboard, lemma_cars_aboard, passengers_kept, riders_aboard};
use crate::rng::{next_random, rand_draw, rand_next};
use crate::simulation::{cars, move_elevators, move_people};
use crate::state::EventKind;
use crate::tick::{
    boarding_spec, cars_spec, clock_spec, event_spec, expiry_spec, income_spec, run_safe, run_spec,
    tick_safe, tick_spec, upkeep_spec, visitor_spec,
};
use crate::state::{
    Direction, Elevator, ElevatorView, Event, Floor, Person, PersonState, TowerState,
    TowerStateView,
};

verus! {

/// Money a new tower starts with.
pub const STARTING_MONEY: i64 = 150_000;

/// Seed of the tower's pseudo-random sequence.
pub const RNG_SEED: u64 = 12345;

/// Cost of installing an elevator.
pub const ELEVATOR_COST: i64 = 50_000;

/// How many passengers an elevator car carries.
pub const ELEVATOR_CAPACITY: u32 = 10;

/// The satisfaction, in percentage points, of a newly built floor.
pub const FLOOR_START_SATISFACTION: u32 = 70;

/// What a run of the simulation reports.
#[derive(Debug, Clone, Copy)]
pub struct AdvanceResult {
    pub time: u64,
    pub money: i64,
    pub money_delta: i64,
    pub active_events: usize,
}

/// The tower's key figures.  The profit rate (revenue as a percentage of
/// expenses, truncated from a floating-point quotient) and the satisfaction
/// score are floating-point figures and are not among them.
#[derive(Debug, Clone, Copy)]
pub struct Metrics {
    pub time: u64,
    pub money: i64,
    pub total_revenue: i64,
    pub total_expenses: i64,
    pub floors: u32,
    pub elevators: u32,
    pub people_active: u32,
    pub people_served: u64,
    pub events: u32,
}

/// How many of the first `n` people have not yet arrived.
pub open spec fn active_upto(people: Seq<Person>, n: nat) -> nat
    decreases n,
{
    if n == 0 {
        0
    } else {
        active_upto(people, (n - 1) as nat) + if people[n - 1].state != PersonState::Arrived { 1nat } else { 0nat }
    }
}

/// The key figures of a tower.
pub open spec fn metrics_of(s: TowerView) -> Metrics {
    Metrics {
        time: s.time,
        money: s.money,
        total_revenue: s.total_revenue,
        total_expenses: s.total_expenses,
        floors: s.floors.len() as u32,
        elevators: s.elevators.len() as u32,
        people_active: active_upto(s.people, s.people.len()) as u32,
        people_served: s.population_served,
        events: s.active_events.len() as u32,
    }
}

/// Why a construction request was refused.
#[derive(Debug, Clone, Copy, PartialEq, Eq, Structural)]
pub enum TowerError {
    /// The tower cannot pay `need`; it has `have`.
    NotEnoughMoney { need: i64, have: i64 },
    /// A floor already stands at the requested level.
    FloorExists,
    /// An elevator already runs in the requested shaft.
    ShaftExists,
}

/// The state of a tower under simulation, with the operations on it; its
/// invariant is kept by `Tower`.
pub(crate) struct Core {
    pub(crate) state: TowerState,
    pub(crate) next_person_id: u32,
    pub(crate) rng: u64,
}

/// A tower as a mathematical value: its observable state, the next person id
/// and the state of its pseudo-random generator.
pub struct TowerView {
    pub time: u64,
    pub money: i64,
    pub total_revenue: i64,
    pub total_expenses: i64,
    pub floors: Seq<Floor>,
    pub elevators: Seq<ElevatorView>,
    pub people: Seq<Person>,
    pub active_events: Seq<Event>,
    pub population_served: u64,
    pub next_person_id: u32,
    pub rng: u64,
}

impl View for Core {
    type V = TowerView;

    closed spec fn view(&self) -> TowerView {
        TowerView {
            time: self.state.time,
            money: self.state.money,
            total_revenue: self.state.total_revenue,
            total_expenses: self.state.total_expenses,
            floors: self.state.floors@,
            elevators: self.state.elevators@.map_values(|e: Elevator| e@),
            people: self.state.people@,
            active_events: self.state.active_events@,
            population_served: self.state.population_served,
            next_person_id: self.next_person_id,
            rng: self.rng,
        }
    }
}

impl TowerView {
    /// The observable part of the tower.
    pub open spec fn observable(self) -> TowerStateView {
        TowerStateView {
            time: self.time,
            money: self.money,
            total_revenue: self.total_revenue,
            total_expenses: self.total_expenses,
            floors: self.floors,
            elevators: self.elevators,
            people: self.people,
            active_events: self.active_events,
            population_served: self.population_served,
        }
    }

    /// Floors stand in strictly ascending order of level, so no two share a level.
    pub open spec fn floors_sorted(self) -> bool {
        forall|i: int, j: int|
            0 <= i < j < self.floors.len() ==> #[trigger] self.floors[i].level
                < #[trigger] self.floors[j].level
    }

    /// Every floor holds no more than its type allows, and keeps its starting satisfaction.
    pub open spec fn floors_well_formed(self) -> bool {
        forall|i: int|
            0 <= i < self.floors.len() ==> {
                let f = #[trigger] self.floors[i];
                &&& f.capacity == spec_capacity(f.floor_type)
                &&& f.current_occupants <= f.capacity
                &&& f.satisfaction == FLOOR_START_SATISFACTION
            }
    }

    /// No two elevators share a shaft; every car has the standard capacity and
    /// carries no more than it; every passenger is a known person.
    pub open spec fn elevators_well_formed(self) -> bool {
        &&& forall|i: int, j: int|
            0 <= i < j < self.elevators.len() ==> #[trigger] self.elevators[i].shaft
                != #[trigger] self.elevators[j].shaft
        &&& forall|j: int|
            0 <= j < self.elevators.len() ==> {
                let e = #[trigger] self.elevators[j];
                &&& e.capacity == ELEVATOR_CAPACITY
                &&& e.passengers.len() <= e.capacity
                &&& forall|k: int|
                    0 <= k < e.passengers.len() ==> #[trigger] e.passengers[k]
                        < self.people.len()
            }
    }

    /// People are numbered in the order they appeared, and nobody has waited
    /// longer than the tower has run.
    pub open spec fn people_well_formed(self) -> bool {
        &&& self.next_person_id == self.people.len()
        &&& forall|i: int|
            0 <= i < self.people.len() ==> {
                &&& (#[trigger] self.people[i]).id == i
                &&& self.people[i].wait_ticks <= self.time
            }
    }

    /// Every event in progress has time left to run.
    pub open spec fn events_well_formed(self) -> bool {
        forall|i: int| 0 <= i < self.active_events.len() ==> #[trigger] self.active_events[i].ticks_remaining > 0
    }

    /// The tower's invariant.  Among other things every passenger rides and is
    /// aboard only once (`riders_ok`), and every riding person is aboard a car
    /// (`riders_aboard`): so every riding person is aboard exactly one car.
    pub open spec fn wf(self) -> bool {
        &&& self.floors_sorted()
        &&& self.floors_well_formed()
        &&& self.elevators_well_formed()
        &&& self.people_well_formed()
        &&& self.events_well_formed()
        &&& riders_ok(self.people, self.elevators)
        &&& riders_aboard(self.people, self.elevators)
        &&& self.population_served == arrived_count(self.people)
        &&& self.total_revenue >= 0
        &&& self.total_expenses >= 0
    }

    /// Whether a floor stands at `level`.
    pub open spec fn has_floor_at(self, level: i32) -> bool {
        exists|i: int| 0 <= i < self.floors.len() && #[trigger] self.floors[i].level == level
    }

    /// Whether an elevator runs in `shaft`.
    pub open spec fn has_shaft(self, shaft: u32) -> bool {
        exists|i: int| 0 <= i < self.elevators.len() && #[trigger] self.elevators[i].shaft == shaft
    }
}

/// The tower as it stands before anything is built.
pub open spec fn initial_tower() -> TowerView {
    TowerView {
        time: 0,
        money: STARTING_MONEY,
        total_revenue: 0,
        total_expenses: 0,
        floors: Seq::empty(),
        elevators: Seq::empty(),
        people: Seq::empty(),
        active_events: Seq::empty(),
        population_served: 0,
        next_person_id: 0,
        rng: RNG_SEED,
    }
}

/// A newly built floor of type `t` at `level`.
pub open spec fn new_floor(t: FloorType, level: i32) -> Floor {
    Floor {
        level,
        floor_type: t,
        capacity: spec_capacity(t) as u32,
        current_occupants: 0,
        satisfaction: FLOOR_START_SATISFACTION,
    }
}

/// Whether the change of money since `start` still fits an `i64` whatever
/// the next minute brings: at most what the floors can earn and a VIP bonus
/// more, at most the maintenance bill less.
pub open spec fn delta_room(s: TowerView, start: i64) -> bool {
    &&& s.money - start + income_cap(s.floors) + VIP_BONUS <= i64::MAX
    &&& s.money - start - upkeep(s.floors, s.elevators.len(), s.active_events) >= i64::MIN
}

/// A newly installed, empty elevator in `shaft`, standing at level 0.
pub open spec fn new_elevator(shaft: u32) -> ElevatorView {
    ElevatorView {
        shaft,
        current_floor: 0,
        direction: Direction::Idle,
        capacity: ELEVATOR_CAPACITY,
        passengers: Seq::empty(),
        total_wait_ticks: 0,
        trips_completed: 0,
    }
}

/// The tower after a person appears at `from`, heading for `to`.
pub open spec fn spawn_spec(s: TowerView, from: i32, to: i32) -> TowerView {
    TowerView {
        people: s.people.push(
            Person {
                id: s.next_person_id,
                current_floor: from,
                destination: to,
                state: PersonState::Waiting,
                wait_ticks: 0,
                travel_ticks: 0,
                spawned_at_tick: s.time,
            },
        ),
        next_person_id: (s.next_person_id + 1) as u32,
        ..s
    }
}

impl Core {
    /// A new, empty tower with its starting money.
    pub fn new() -> (t: Core)
        ensures
            t@ == initial_tower(),
            t@.wf(),
    {
        let t = Core {
            state: TowerState {
                time: 0,
                money: STARTING_MONEY,
                total_revenue: 0,
                total_expenses: 0,
                floors: Vec::new(),
                elevators: Vec::new(),
                people: Vec::new(),
                active_events: Vec::new(),
                population_served: 0,
            },
            next_person_id: 0,
            rng: RNG_SEED,
        };
        assert(t@.elevators =~= Seq::<ElevatorView>::empty());
        t
    }

    /// The observable state of the tower.
    pub fn get_state(&self) -> (s: &TowerState)
        ensures
            s@ == self@.observable(),
    {
        &self.state
    }


    /// Builds a floor of type `floor_type` at `level`, paying its cost.
    pub fn build_floor(&mut self, floor_type: FloorType, level: i32) -> (r: Result<(), TowerError>)
        requires
            old(self)@.wf(),
            old(self)@.money >= spec_build_cost(floor_type, level) && !old(self)@.has_floor_at(level)
                ==> old(self)@.total_expenses + spec_build_cost(floor_type, level) <= i64::MAX,
        ensures
            final(self)@.wf(),
            old(self)@.money < spec_build_cost(floor_type, level) ==> r == Err::<(), TowerError>(
                (TowerError::NotEnoughMoney {
                    need: spec_build_cost(floor_type, level) as i64,
                    have: old(self)@.money,
                }),
            ) && final(self)@ == old(self)@,
            old(self)@.money >= spec_build_cost(floor_type, level) && old(self)@.has_floor_at(level)
                ==> r == Err::<(), TowerError>(TowerError::FloorExists) && final(self)@ == old(self)@,
            r is Ok <==> old(self)@.money >= spec_build_cost(floor_type, level) && !old(self)@.has_floor_at(level),
            r is Ok ==> {
                let cost = spec_build_cost(floor_type, level);
                &&& final(self)@.money == old(self)@.money - cost
                &&& final(self)@.total_expenses == old(self)@.total_expenses + cost
                &&& exists|p: int|
                    0 <= p <= old(self)@.floors.len()
                    && final(self)@.floors == old(self)@.floors.insert(p, new_floor(floor_type, level))
                    && (forall|i: int| 0 <= i < p ==> #[trigger] old(self)@.floors[i].level < level)
                    && (forall|i: int| p <= i < old(self)@.floors.len() ==> #[trigger] old(self)@.floors[i].level > level)
                &&& final(self)@ == (TowerView {
                    money: final(self)@.money,
                    total_expenses: final(self)@.total_expenses,
                    floors: final(self)@.floors,
                    ..old(self)@
                })
            },
    {
        let cost = floor_type.build_cost(level);
        if self.state.money < cost {
            return Err(TowerError::NotEnoughMoney { need: cost, have: self.state.money });
        }
        // Find where the new floor goes, and whether its level is taken.
        let n = self.state.floors.len();
        let mut pos: usize = 0;
        while pos < n && self.state.floors[pos].level < level
            invariant
                n == self.state.floors.len(),
                pos <= n,
                self@ == old(self)@,
                forall|i: int| 0 <= i < pos ==> #[trigger] self.state.floors@[i].level < level,
            decreases n - pos,
        {
            pos = pos + 1;
        }
        if pos < n && self.state.floors[pos].level == level {
            return Err(TowerError::FloorExists);
        }
        assert(!old(self)@.has_floor_at(level)) by {
            assert forall|i: int| 0 <= i < n implies #[trigger] self.state.floors@[i].level != level by {
                if i >= pos && i > pos as int {
                    assert(self.state.floors@[pos as int].level < self.state.floors@[i].level);
                }
            }
        }
        self.state.money = self.state.money - cost;
        self.state.total_expenses = self.state.total_expenses + cost;
        let floor = Floor {
            level,
            floor_type,
            capacity: floor_type.capacity(),
            current_occupants: 0,
            satisfaction: FLOOR_START_SATISFACTION,
        };
        let ghost old_floors = self.state.floors@;
        self.state.floors.insert(pos, floor);
        proof {
            let p = pos as int;
            assert forall|i: int| p <= i < old_floors.len() implies #[trigger] old_floors[i].level > level by {
                if i > p {
                    assert(old_floors[p].level < old_floors[i].level);
                }
            }
            assert(self@.floors == old_floors.insert(p, new_floor(floor_type, level)));
            assert forall|i: int, j: int| 0 <= i < j < self@.floors.len() implies #[trigger] self@.floors[i].level
                < #[trigger] self@.floors[j].level by {
                if j < p {
                    assert(old_floors[i].level < old_floors[j].level);
                } else if j == p {
                } else if i < p {
                } else if i == p {
                } else {
                    assert(old_floors[i - 1].level < old_floors[j - 1].level);
                }
            }
            assert forall|i: int| 0 <= i < self@.floors.len() implies {
                let f = #[trigger] self@.floors[i];
                &&& f.capacity == spec_capacity(f.floor_type)
                &&& f.current_occupants <= f.capacity
                &&& f.satisfaction == FLOOR_START_SATISFACTION
            } by {
                if i > p {
                    assert(self@.floors[i] == old_floors[i - 1]);
                } else if i < p {
                    assert(self@.floors[i] == old_floors[i]);
                }
            }
        }
        Ok(())
    }

    /// Installs an elevator in `shaft`, paying for it.
    pub fn add_elevator(&mut self, shaft: u32) -> (r: Result<(), TowerError>)
        requires
            old(self)@.wf(),
            old(self)@.money >= ELEVATOR_COST && !old(self)@.has_shaft(shaft)
                ==> old(self)@.total_expenses + ELEVATOR_COST <= i64::MAX,
        ensures
            final(self)@.wf(),
            old(self)@.money < ELEVATOR_COST ==> r == Err::<(), TowerError>(
                (TowerError::NotEnoughMoney { need: ELEVATOR_COST, have: old(self)@.money }),
            ) && final(self)@ == old(self)@,
            old(self)@.money >= ELEVATOR_COST && old(self)@.has_shaft(shaft) ==> (r == Err::<(), TowerError>(TowerError::ShaftExists))
                && final(self)@ == old(self)@,
            r is Ok <==> old(self)@.money >= ELEVATOR_COST && !old(self)@.has_shaft(shaft),
            r is Ok ==> final(self)@ == (TowerView {
                money: (old(self)@.money - ELEVATOR_COST) as i64,
                total_expenses: (old(self)@.total_expenses + ELEVATOR_COST) as i64,
                elevators: old(self)@.elevators.push(new_elevator(shaft)),
                ..old(self)@
            }),
    {
        let cost = ELEVATOR_COST;
        if self.state.money < cost {
            return Err(TowerError::NotEnoughMoney { need: cost, have: self.state.money });
        }
        let n = self.state.elevators.len();
        let mut j: usize = 0;
        while j < n
            invariant
                n == self.state.elevators.len(),
                j <= n,
                self@ == old(self)@,
                old(self)@.wf(),
                old(self)@.money >= ELEVATOR_COST,
                forall|i: int| 0 <= i < j ==> #[trigger] self@.elevators[i].shaft != shaft,
            decreases n - j,
        {
            if self.state.elevators[j].shaft == shaft {
                assert(self@.elevators[j as int].shaft == shaft);
                return Err(TowerError::ShaftExists);
            }
            j = j + 1;
        }
        self.state.money = self.state.money - cost;
        self.state.total_expenses = self.state.total_expenses + cost;
        let ghost old_elevators = self.state.elevators@;
        self.state.elevators.push(
            Elevator {
                shaft,
                current_floor: 0,
                direction: Direction::Idle,
                capacity: ELEVATOR_CAPACITY,
                passengers: Vec::new(),
                total_wait_ticks: 0,
                trips_completed: 0,
            },
        );
        proof {
            assert(self.state.elevators@ == old_elevators.push(self.state.elevators@.last()));
            assert(self@.elevators =~= old(self)@.elevators.push(new_elevator(shaft)));
            crate::laws::lemma_riders_aboard_new_car(old(self)@.people, old(self)@.elevators, shaft);
        }
        Ok(())
    }

    /// Places a new person at level `from`, heading for level `to`; returns their id.
    pub fn spawn_person(&mut self, from: i32, to: i32) -> (id: u32)
        requires
            old(self)@.wf(),
            old(self)@.next_person_id < u32::MAX,
        ensures
            final(self)@.wf(),
            id == old(self)@.next_person_id,
            id == old(self)@.people.len(),
            forall|i: int| 0 <= i < old(self)@.people.len() ==> #[trigger] old(self)@.people[i].id != id,
            final(self)@.people.len() == old(self)@.people.len() + 1,
            final(self)@.people[old(self)@.people.len() as int] == (Person {
                id,
                current_floor: from,
                destination: to,
                state: PersonState::Waiting,
                wait_ticks: 0,
                travel_ticks: 0,
                spawned_at_tick: old(self)@.time,
            }),
            final(self)@.time == old(self)@.time,
            final(self)@ == spawn_spec(old(self)@, from, to),
    {
        let id = self.next_person_id;
        self.next_person_id = self.next_person_id + 1;
        let ghost old_people = self.state.people@;
        self.state.people.push(
            Person {
                id,
                current_floor: from,
                destination: to,
                state: PersonState::Waiting,
                wait_ticks: 0,
                travel_ticks: 0,
                spawned_at_tick: self.state.time,
            },
        );
        proof {
            assert forall|j: int| 0 <= j < self@.elevators.len() implies {
                let e = #[trigger] self@.elevators[j];
                forall|k: int| 0 <= k < e.passengers.len() ==> #[trigger] e.passengers[k] < self@.people.len()
            } by {
                assert(self@.elevators[j] == old(self)@.elevators[j]);
            }
            assert(self@ == spawn_spec(old(self)@, from, to));
            lemma_arrived_newcomer(old(self)@.people, self@.people.last());
            assert(self@.people == old(self)@.people.push(self@.people.last()));
            let es = self@.elevators;
            assert forall|a: int, b: int| 0 <= a < es.len() && 0 <= b < es[a].passengers.len() implies {
                &&& #[trigger] es[a].passengers[b] < self@.people.len()
                &&& self@.people[es[a].passengers[b] as int].state == PersonState::Riding
            } by {
                assert(es[a] == old(self)@.elevators[a]);
                assert(es[a].passengers[b] < old(self)@.people.len());
            }
        }
        id
    }
    /// Advances the pseudo-random generator and returns the number it hands out.
    fn fast_rand(&mut self) -> (v: u64)
        ensures
            final(self)@ == (TowerView { rng: rand_next(old(self)@.rng), ..old(self)@ }),
            v == rand_draw(final(self)@.rng),
            v < 0x8000_0000,
    {
        next_random(&mut self.rng)
    }

    /// A visitor appears on a random floor, heading for another random floor.
    fn spawn_random_visitor(&mut self)
        requires
            old(self)@.wf(),
            old(self)@.next_person_id < u32::MAX,
        ensures
            final(self)@ == visitor_spec(old(self)@),
            final(self)@.wf(),
    {
        let n = self.state.floors.len();
        if n < 2 {
            return;
        }
        let a = (self.fast_rand() as usize) % n;
        let mut b = (self.fast_rand() as usize) % n;
        if b == a {
            b = (b + 1) % n;
        }
        let from = self.state.floors[a].level;
        let to = self.state.floors[b].level;
        self.spawn_person(from, to);
    }

    /// The clock moves on a minute; in business hours a visitor may come.
    fn advance_clock(&mut self)
        requires
            old(self)@.wf(),
            old(self)@.time < u64::MAX,
            old(self)@.next_person_id < u32::MAX,
        ensures
            final(self)@ == clock_spec(old(self)@),
            final(self)@.wf(),
    {
        self.state.time = self.state.time + 1;
        let tick = self.state.time;
        let hour = (tick / 60) % 24;
        let business = 7 <= hour && hour <= 22;
        let spawn_rate: u64 = if 8 <= hour && hour <= 18 {
            2
        } else if business {
            1
        } else {
            4
        };
        if business && self.fast_rand() % spawn_rate == 0 {
            self.spawn_random_visitor();
        }
    }

    /// At a collection minute, the floors' income comes in.
    fn collect_revenue(&mut self)
        requires
            old(self)@.wf(),
            old(self)@.money + income(old(self)@.floors) <= i64::MAX,
            old(self)@.total_revenue + income(old(self)@.floors) <= i64::MAX,
            income(old(self)@.floors) >= 0,
        ensures
            final(self)@ == (TowerView {
                money: (old(self)@.money + income(old(self)@.floors)) as i64,
                total_revenue: (old(self)@.total_revenue + income(old(self)@.floors)) as i64,
                ..old(self)@
            }),
            final(self)@.wf(),
    {
        let earned = collect_income(&self.state.floors);
        self.state.money = self.state.money + earned;
        self.state.total_revenue = self.state.total_revenue + earned;
    }

    /// At midnight the maintenance bill is paid and every floor empties.
    fn process_maintenance(&mut self)
        requires
            old(self)@.wf(),
            old(self)@.money - upkeep(old(self)@.floors, old(self)@.elevators.len(), old(self)@.active_events) >= i64::MIN,
            old(self)@.total_expenses + upkeep(old(self)@.floors, old(self)@.elevators.len(), old(self)@.active_events) <= i64::MAX,
        ensures
            final(self)@ == (TowerView {
                money: (old(self)@.money - upkeep(old(self)@.floors, old(self)@.elevators.len(), old(self)@.active_events)) as i64,
                total_expenses: (old(self)@.total_expenses + upkeep(old(self)@.floors, old(self)@.elevators.len(), old(self)@.active_events)) as i64,
                floors: emptied(old(self)@.floors),
                ..old(self)@
            }),
            final(self)@.wf(),
    {
        proof {
            lemma_upkeep_nonnegative(self@.floors, self@.elevators.len(), self@.active_events);
        }
        let bill = maintenance_bill(&self.state.floors, self.state.elevators.len(), &self.state.active_events);
        self.state.money = self.state.money - bill;
        self.state.total_expenses = self.state.total_expenses + bill;
        empty_floors(&mut self.state.floors);
        proof {
            assert forall|i: int, j: int| 0 <= i < j < self@.floors.len() implies #[trigger] self@.floors[i].level
                < #[trigger] self@.floors[j].level by {
                assert(old(self)@.floors[i].level < old(self)@.floors[j].level);
            }
            assert forall|i: int| 0 <= i < self@.floors.len() implies {
                let f = #[trigger] self@.floors[i];
                &&& f.capacity == spec_capacity(f.floor_type)
                &&& f.current_occupants <= f.capacity
                &&& f.satisfaction == FLOOR_START_SATISFACTION
            } by {
                assert(old(self)@.floors[i].capacity == spec_capacity(old(self)@.floors[i].floor_type));
            }
        }
    }

    /// A special event starts: a VIP visit brings money in, a power outage
    /// keeps every car's waiting counter ten minutes longer.
    fn trigger_random_event(&mut self)
        requires
            old(self)@.wf(),
            crate::events::event_stageable(old(self)@.floors, old(self)@.rng),
            old(self)@.money + VIP_BONUS <= i64::MAX,
            forall|j: int| 0 <= j < old(self)@.elevators.len() ==> #[trigger] old(self)@.elevators[j].total_wait_ticks + 10 <= u64::MAX,
        ensures
            ({
                let staged = crate::events::staged_event(old(self)@.floors, old(self)@.rng);
                let ev = staged.0;
                final(self)@ == (TowerView {
                    rng: staged.1,
                    money: if ev.name == EventKind::VipVisit {
                        (old(self)@.money + VIP_BONUS) as i64
                    } else {
                        old(self)@.money
                    },
                    elevators: if ev.name == EventKind::PowerOutage {
                        crate::events::outage_delay(old(self)@.elevators)
                    } else {
                        old(self)@.elevators
                    },
                    active_events: old(self)@.active_events.push(ev),
                    ..old(self)@
                })
            }),
            final(self)@.wf(),
    {
        let ev = stage_event(&self.state.floors, &mut self.rng);
        if ev.name == EventKind::VipVisit {
            self.state.money = self.state.money + VIP_BONUS;
        }
        if ev.name == EventKind::PowerOutage {
            proof {
                assert(self@.elevators == old(self)@.elevators);
                assert forall|j: int| 0 <= j < self.state.elevators@.len() implies #[trigger] self.state.elevators@[j].total_wait_ticks + 10 <= u64::MAX by {
                    assert(self.state.elevators@ == old(self).state.elevators@);
                    assert(old(self)@.elevators.len() == old(self).state.elevators@.len());
                    assert(old(self)@.elevators[j] == old(self).state.elevators@[j]@);
                    assert(old(self)@.elevators[j].total_wait_ticks + 10 <= u64::MAX);
                }
            }
            let ghost before = self@;
            delay_cars(&mut self.state.elevators);
            proof {
                assert forall|j: int| 0 <= j < self@.elevators.len() implies {
                    let e = #[trigger] self@.elevators[j];
                    &&& e.capacity == ELEVATOR_CAPACITY
                    &&& e.passengers.len() <= e.capacity
                    &&& forall|k: int| 0 <= k < e.passengers.len() ==> #[trigger] e.passengers[k] < self@.people.len()
                } by {
                    assert(self@.elevators[j].passengers == before.elevators[j].passengers);
                }
                assert forall|i: int, j: int| 0 <= i < j < self@.elevators.len() implies #[trigger] self@.elevators[i].shaft
                    != #[trigger] self@.elevators[j].shaft by {
                    assert(before.elevators[i].shaft != before.elevators[j].shaft);
                }
            }
        }
        self.state.active_events.push(ev);
        proof {
            let a = old(self)@.elevators;
            let b = self@.elevators;
            assert(passengers_kept(a, b)) by {
                assert forall|j: int| 0 <= j < a.len() implies (#[trigger] a[j]).passengers.len() <= b[j].passengers.len()
                    && forall|k: int| 0 <= k < a[j].passengers.len() ==> #[trigger] b[j].passengers[k] == a[j].passengers[k] by {
                    assert(b[j].passengers == a[j].passengers);
                }
            }
            assert forall|q: int| 0 <= q < self@.people.len() && (#[trigger] self@.people[q]).state == PersonState::Riding
                implies aboard(b, q) by {
                lemma_aboard_kept(a, b, q);
            }
        }
    }

    /// The traffic of one minute: waiting people board, then cars move.
    fn run_traffic(&mut self)
        requires
            old(self)@.wf(),
            old(self)@.time >= 1,
            forall|i: int| 0 <= i < old(self)@.people.len() ==> #[trigger] old(self)@.people[i].wait_ticks < old(self)@.time,
            forall|i: int| 0 <= i < old(self)@.people.len() ==> #[trigger] old(self)@.people[i].travel_ticks + 10 * old(self)@.elevators.len() <= u64::MAX,
            forall|j: int|
                0 <= j < old(self)@.elevators.len() ==> {
                    &&& (#[trigger] old(self)@.elevators[j]).total_wait_ticks + 10 * old(self)@.time + 10 <= u64::MAX
                    &&& old(self)@.elevators[j].trips_completed < u64::MAX
                },
            old(self)@.population_served + 10 * old(self)@.elevators.len() <= u64::MAX,
        ensures
            final(self)@ == cars_spec(boarding_spec(old(self)@)),
            final(self)@.wf(),
            crate::simulation::same_floor_plan(old(self)@.floors, final(self)@.floors),
            final(self)@.elevators.len() == old(self)@.elevators.len(),
            forall|j: int| 0 <= j < final(self)@.elevators.len() ==> #[trigger] final(self)@.elevators[j].total_wait_ticks + 10 <= u64::MAX,
    {
        let tick = self.state.time;
        let ghost s0 = self@;
        proof {
            assert forall|j: int| 0 <= j < cars(self.state.elevators@).len() implies {
                let e = #[trigger] cars(self.state.elevators@)[j];
                &&& e.passengers.len() <= e.capacity
                &&& e.total_wait_ticks + (e.capacity - e.passengers.len()) * tick + 10 <= u64::MAX
            } by {
                let e = cars(self.state.elevators@)[j];
                assert(e == s0.elevators[j]);
                assert(e.total_wait_ticks + (e.capacity - e.passengers.len()) * tick + 10 <= u64::MAX) by (nonlinear_arith)
                    requires
                        e.capacity == 10,
                        e.passengers.len() <= 10,
                        e.total_wait_ticks + 10 * tick + 10 <= u64::MAX,
                ;
            }
            assert forall|a: int, b: int|
                0 <= a < cars(self.state.elevators@).len() && 0 <= b < cars(self.state.elevators@)[a].passengers.len()
                implies #[trigger] cars(self.state.elevators@)[a].passengers[b] < self.state.people@.len() by {
                assert(cars(self.state.elevators@)[a] == s0.elevators[a]);
            }
        }
        move_people(&mut self.state.people, &mut self.state.elevators, tick);
        let ghost s1 = self@;
        assert(s1 == boarding_spec(s0));
        proof {
            lemma_boarding(s0.people, s0.elevators, s0.people.len());
        }
        proof {
            assert forall|j: int| 0 <= j < s1.elevators.len() implies {
                let e = #[trigger] s1.elevators[j];
                &&& e.passengers.len() <= 10
                &&& e.trips_completed < u64::MAX
            } by {
                assert(s1.elevators[j].trips_completed == s0.elevators[j].trips_completed);
                assert(s1.elevators[j].capacity == s0.elevators[j].capacity);
            }
            assert forall|i: int| 0 <= i < s1.people.len() implies #[trigger] s1.people[i].travel_ticks + 10 * s1.elevators.len() <= u64::MAX by {
                assert(s1.people[i].travel_ticks <= s0.people[i].travel_ticks);
            }
        }
        let ghost t1 = crate::simulation::Traffic { people: s1.people, cars: s1.elevators, floors: s1.floors, served: s1.population_served };
        proof {
            lemma_cars(t1, s1.elevators.len());
            lemma_boarding_aboard(s0.people, s0.elevators, s0.people.len());
            lemma_cars_aboard(t1, s1.elevators.len());
        }
        move_elevators(&mut self.state.people, &mut self.state.elevators, &mut self.state.floors, &mut self.state.population_served);
        let ghost s2 = self@;
        assert(s2 == cars_spec(s1));
        proof {
            assert forall|j: int| 0 <= j < s2.elevators.len() implies #[trigger] s2.elevators[j].total_wait_ticks + 10 <= u64::MAX by {
                let e = s1.elevators[j];
                assert(s2.elevators[j].total_wait_ticks == e.total_wait_ticks);
                assert(e.total_wait_ticks + 10 <= u64::MAX) by (nonlinear_arith)
                    requires
                        e.passengers.len() <= e.capacity,
                        e.total_wait_ticks + (e.capacity - e.passengers.len()) * tick + 10 <= u64::MAX,
                ;
            }
            assert forall|i: int, j: int| 0 <= i < j < s2.floors.len() implies #[trigger] s2.floors[i].level
                < #[trigger] s2.floors[j].level by {
                assert(s0.floors[i].level < s0.floors[j].level);
            }
            assert forall|i: int| 0 <= i < s2.floors.len() implies {
                let f = #[trigger] s2.floors[i];
                &&& f.capacity == spec_capacity(f.floor_type)
                &&& f.current_occupants <= f.capacity
                &&& f.satisfaction == FLOOR_START_SATISFACTION
            } by {
                assert(s0.floors[i].capacity == spec_capacity(s0.floors[i].floor_type));
            }
            assert forall|i: int, j: int| 0 <= i < j < s2.elevators.len() implies #[trigger] s2.elevators[i].shaft
                != #[trigger] s2.elevators[j].shaft by {
                assert(s0.elevators[i].shaft != s0.elevators[j].shaft);
            }
            assert forall|j: int| 0 <= j < s2.elevators.len() implies {
                let e = #[trigger] s2.elevators[j];
                &&& e.capacity == ELEVATOR_CAPACITY
                &&& e.passengers.len() <= e.capacity
                &&& forall|k: int| 0 <= k < e.passengers.len() ==> #[trigger] e.passengers[k] < s2.people.len()
            } by {
                assert(s2.elevators[j].capacity == s0.elevators[j].capacity);
                let e = s2.elevators[j];
                assert forall|k: int| 0 <= k < e.passengers.len() implies #[trigger] e.passengers[k] < s2.people.len() by {
                    assert(e.passengers[k] == s1.elevators[j].passengers[k]);
                }
            }
            assert forall|i: int| 0 <= i < s2.people.len() implies {
                let p = #[trigger] s2.people[i];
                p.id == i && p.wait_ticks <= s2.time
            } by {
                assert(s2.people[i].id == s1.people[i].id);
                assert(s1.people[i].id == s0.people[i].id);
                assert(s2.people[i].wait_ticks == s1.people[i].wait_ticks);
                assert(s1.people[i].wait_ticks <= s0.people[i].wait_ticks + 1);
            }
            assert(s2.floors_sorted());
            assert(s2.floors_well_formed());
            assert(s2.elevators_well_formed());
            assert(s2.people_well_formed());
            assert(s2.events_well_formed());
        }
    }
    /// Events run a minute; each burnt-out fire costs its damage (none does,
    /// as every event in progress has time left).
    fn expire_events(&mut self)
        requires
            old(self)@.wf(),
        ensures
            final(self)@ == expiry_spec(old(self)@),
            final(self)@.wf(),
    {
        proof {
            lemma_expire_upto(self@.active_events, self@.active_events.len());
            crate::events::lemma_expire_live(self@.active_events, self@.active_events.len());
        }
        let burnt = run_events(&mut self.state.active_events);
        let damage: i128 = FIRE_DAMAGE as i128 * burnt as i128;
        self.state.money = (self.state.money as i128 - damage) as i64;
    }

    /// Simulates one minute.
    pub fn tick(&mut self)
        requires
            old(self)@.wf(),
            tick_safe(old(self)@),
        ensures
            final(self)@ == tick_spec(old(self)@),
            final(self)@.wf(),
    {
        let ghost s0 = self@;
        self.advance_clock();
        let ghost s1 = self@;
        assert(s1 == clock_spec(s0));
        proof {
            assert forall|i: int| 0 <= i < s1.people.len() implies #[trigger] s1.people[i].wait_ticks < s1.time by {
                if i < s0.people.len() {
                    assert(s1.people[i] == s0.people[i]);
                    assert(s0.people[i].wait_ticks <= s0.time);
                }
            }
            assert forall|i: int| 0 <= i < s1.people.len() implies #[trigger] s1.people[i].travel_ticks + 10 * s1.elevators.len() <= u64::MAX by {
                if i < s0.people.len() {
                    assert(s1.people[i] == s0.people[i]);
                }
            }
            assert forall|j: int| 0 <= j < s1.elevators.len() implies {
                &&& (#[trigger] s1.elevators[j]).total_wait_ticks + 10 * s1.time + 10 <= u64::MAX
                &&& s1.elevators[j].trips_completed < u64::MAX
            } by {
                assert(s1.elevators[j] == s0.elevators[j]);
            }
        }
        assert(s1.floors == s0.floors);
        assert(s1.elevators == s0.elevators);
        self.run_traffic();
        let ghost s3 = self@;
        proof {
            lemma_income_within_cap(s0.floors, s3.floors, s3.floors.len());
            lemma_upkeep_same_plan(s0.floors, s3.floors, s3.floors.len());
            lemma_upkeep_nonnegative(s0.floors, s0.elevators.len(), s0.active_events);
            assert(upkeep(s3.floors, s3.elevators.len(), s3.active_events) == upkeep(s0.floors, s0.elevators.len(), s0.active_events));
        }
        let minute = self.state.time % 1440;
        if minute == 480 || minute == 720 || minute == 960 || minute == 1200 {
            self.collect_revenue();
        }
        let ghost s4 = self@;
        assert(s4 == income_spec(s3));
        if minute == 0 {
            self.process_maintenance();
        }
        let ghost s5 = self@;
        assert(s5 == upkeep_spec(s4));
        if self.fast_rand() % 5000 == 0 {
            self.trigger_random_event();
        }
        let ghost s6 = self@;
        assert(s6 == event_spec(s5));
        self.expire_events();
    }
    /// Simulates `minutes` minutes and reports the time, the money, how the
    /// money changed, and how many events are in progress.
    pub fn advance(&mut self, minutes: u32) -> (r: AdvanceResult)
        requires
            old(self)@.wf(),
            run_safe(old(self)@, minutes as nat),
            i64::MIN <= run_spec(old(self)@, minutes as nat).money - old(self)@.money <= i64::MAX,
        ensures
            final(self)@ == run_spec(old(self)@, minutes as nat),
            final(self)@.wf(),
            final(self)@.time == old(self)@.time + minutes,
            final(self)@.total_revenue >= old(self)@.total_revenue,
            final(self)@.total_expenses >= old(self)@.total_expenses,
            final(self)@.population_served >= old(self)@.population_served,
            final(self)@.people.len() >= old(self)@.people.len(),
            crate::simulation::same_floor_plan(old(self)@.floors, final(self)@.floors),
            crate::progress::all_moved_on(old(self)@.people, final(self)@.people),
            final(self)@.elevators.len() == old(self)@.elevators.len(),
            forall|j: int| 0 <= j < old(self)@.elevators.len() ==> {
                &&& (#[trigger] final(self)@.elevators[j]).shaft == old(self)@.elevators[j].shaft
                &&& final(self)@.elevators[j].capacity == old(self)@.elevators[j].capacity
            },
            r.time == final(self)@.time,
            r.money == final(self)@.money,
            r.money_delta == final(self)@.money - old(self)@.money,
            r.active_events == final(self)@.active_events.len(),
    {
        let start_money = self.state.money;
        let ghost s0 = self@;
        for i in 0..minutes
            invariant
                self@.wf(),
                run_spec(self@, (minutes - i) as nat) == run_spec(s0, minutes as nat),
                run_safe(self@, (minutes - i) as nat),
                self@.time == s0.time + i,
                self@.total_revenue >= s0.total_revenue,
                self@.total_expenses >= s0.total_expenses,
                self@.population_served >= s0.population_served,
                self@.people.len() >= s0.people.len(),
                crate::simulation::same_floor_plan(s0.floors, self@.floors),
                crate::progress::all_moved_on(s0.people, self@.people),
                self@.elevators.len() == s0.elevators.len(),
                forall|j: int| 0 <= j < s0.elevators.len() ==> {
                    &&& (#[trigger] self@.elevators[j]).shaft == s0.elevators[j].shaft
                    &&& self@.elevators[j].capacity == s0.elevators[j].capacity
                },
        {
            let ghost before = self@;
            proof {
                lemma_tick_totals(self@);
                crate::laws::lemma_tick_layout(self@);
                crate::laws::lemma_tick_moves_people_on(self@);
            }
            self.tick();
            proof {
                crate::laws::lemma_plan_trans(s0.floors, before.floors, self@.floors);
                crate::progress::lemma_moved_on_trans(s0.people, before.people, self@.people);
            }
        }
        AdvanceResult {
            time: self.state.time,
            money: self.state.money,
            money_delta: self.state.money - start_money,
            active_events: self.state.active_events.len(),
        }
    }

    /// Simulates up to `minutes` minutes, one at a time, for as long as the
    /// next minute can be simulated within the machine's integers and the
    /// change of money since the start still fits an `i64` whatever that
    /// minute brings.  Returns how many minutes were simulated, with what
    /// `advance` reports over them.
    pub fn advance_checked(&mut self, minutes: u32) -> (r: (u32, AdvanceResult))
        requires
            old(self)@.wf(),
        ensures
            final(self)@.wf(),
            r.0 <= minutes,
            final(self)@ == run_spec(old(self)@, r.0 as nat),
            r.0 < minutes ==> !(tick_safe(final(self)@) && delta_room(final(self)@, old(self)@.money)),
            final(self)@.time == old(self)@.time + r.0,
            final(self)@.total_revenue >= old(self)@.total_revenue,
            final(self)@.total_expenses >= old(self)@.total_expenses,
            final(self)@.population_served >= old(self)@.population_served,
            final(self)@.people.len() >= old(self)@.people.len(),
            crate::simulation::same_floor_plan(old(self)@.floors, final(self)@.floors),
            crate::progress::all_moved_on(old(self)@.people, final(self)@.people),
            final(self)@.elevators.len() == old(self)@.elevators.len(),
            forall|j: int| 0 <= j < old(self)@.elevators.len() ==> {
                &&& (#[trigger] final(self)@.elevators[j]).shaft == old(self)@.elevators[j].shaft
                &&& final(self)@.elevators[j].capacity == old(self)@.elevators[j].capacity
            },
            r.1.time == final(self)@.time,
            r.1.money == final(self)@.money,
            r.1.money_delta == final(self)@.money - old(self)@.money,
            r.1.active_events == final(self)@.active_events.len(),
    {
        let start_money = self.state.money;
        let ghost s0 = self@;
        let mut n: u32 = 0;
        let mut stopped = false;
        while n < minutes && !stopped
            invariant
                self@.wf(),
                n <= minutes,
                self@ == run_spec(s0, n as nat),
                start_money == s0.money,
                i64::MIN <= self@.money - start_money <= i64::MAX,
                stopped ==> !(tick_safe(self@) && delta_room(self@, start_money)),
                self@.time == s0.time + n,
                self@.total_revenue >= s0.total_revenue,
                self@.total_expenses >= s0.total_expenses,
                self@.population_served >= s0.population_served,
                self@.people.len() >= s0.people.len(),
                crate::simulation::same_floor_plan(s0.floors, self@.floors),
                crate::progress::all_moved_on(s0.people, self@.people),
                self@.elevators.len() == s0.elevators.len(),
                forall|j: int| 0 <= j < s0.elevators.len() ==> {
                    &&& (#[trigger] self@.elevators[j]).shaft == s0.elevators[j].shaft
                    &&& self@.elevators[j].capacity == s0.elevators[j].capacity
                },
            decreases 2 * (minutes - n) + if stopped { 0int } else { 1int },
        {
            if !self.tick_is_safe() {
                stopped = true;
            } else {
                let cap = income_cap_total(&self.state.floors);
                let ne = self.state.elevators.len();
                let bill = upkeep_total(&self.state.floors, ne, &self.state.active_events);
                let nf = self.state.floors.len();
                proof {
                    lemma_upkeep_nonnegative(self@.floors, ne as nat, self@.active_events);
                    crate::economy::lemma_income_cap_bounds(self@.floors, self@.floors.len());
                    crate::economy::lemma_upkeep_bound(self@.floors, ne as nat, self@.active_events);
                    assert(cap <= 0x1_0000_0000_0000_0000 * 2_000_000_000_000) by (nonlinear_arith)
                        requires cap <= nf * 2_000_000_000_000, nf <= usize::MAX;
                }
                let d: i128 = self.state.money as i128 - start_money as i128;
                if d + cap + VIP_BONUS as i128 > i64::MAX as i128 || d - bill < i64::MIN as i128 {
                    stopped = true;
                } else {
                    let ghost before = self@;
                    proof {
                        lemma_tick_totals(self@);
                        crate::laws::lemma_tick_layout(self@);
                        crate::laws::lemma_tick_moves_people_on(self@);
                        crate::laws::lemma_run_composes(s0, n as nat, 1);
                        assert(run_spec(before, 1) == run_spec(tick_spec(before), 0));
                    }
                    self.tick();
                    proof {
                        crate::laws::lemma_plan_trans(s0.floors, before.floors, self@.floors);
                        crate::progress::lemma_moved_on_trans(s0.people, before.people, self@.people);
                    }
                    n = n + 1;
                }
            }
        }
        (
            n,
            AdvanceResult {
                time: self.state.time,
                money: self.state.money,
                money_delta: self.state.money - start_money,
                active_events: self.state.active_events.len(),
            },
        )
    }


    /// The tower's key figures.
    pub fn metrics(&self) -> (m: Metrics)
        requires
            self@.wf(),
        ensures
            m == metrics_of(self@),
    {
        let n = self.state.people.len();
        let mut active: usize = 0;
        for i in 0..n
            invariant
                n == self.state.people.len(),
                active == active_upto(self@.people, i as nat),
                active <= i,
        {
            if self.state.people[i].state != PersonState::Arrived {
                active = active + 1;
            }
        }
        Metrics {
            time: self.state.time,
            money: self.state.money,
            total_revenue: self.state.total_revenue,
            total_expenses: self.state.total_expenses,
            floors: self.state.floors.len() as u32,
            elevators: self.state.elevators.len() as u32,
            people_active: active as u32,
            people_served: self.state.population_served,
            events: self.state.active_events.len() as u32,
        }
    }
    /// The generator's state once the clock has moved on a minute.
    fn clock_rng(&self) -> (r: u64)
        requires
            self@.time < u64::MAX,
        ensures
            r == clock_spec(self@).rng,
    {
        let tick = self.state.time + 1;
        let hour = (tick / 60) % 24;
        let business = 7 <= hour && hour <= 22;
        let spawn_rate: u64 = if 8 <= hour && hour <= 18 {
            2
        } else if business {
            1
        } else {
            4
        };
        let mut r = self.rng;
        if business {
            let v = next_random(&mut r);
            if v % spawn_rate == 0 && self.state.floors.len() >= 2 {
                next_random(&mut r);
                next_random(&mut r);
            }
        }
        r
    }

    /// Whether one minute can be simulated within the machine's integers,
    /// that is, whether `tick` may be called.
    pub fn tick_is_safe(&self) -> (b: bool)
        ensures
            b == tick_safe(self@),
    {
        let s = &self.state;
        if s.time == u64::MAX || self.next_person_id == u32::MAX {
            return false;
        }
        let ne = s.elevators.len();
        let np = s.people.len();
        for i in 0..np
            invariant
                np == s.people.len(),
                s == &self.state,
                ne == s.elevators.len(),
                forall|k: int| 0 <= k < i ==> (#[trigger] self@.people[k]).travel_ticks + 10 * ne <= u64::MAX,
        {
            let p = s.people[i];
            if p.travel_ticks as u128 + 10 * ne as u128 > u64::MAX as u128 {
                return false;
            }
        }
        for j in 0..ne
            invariant
                ne == s.elevators.len(),
                s == &self.state,
                self@.time < u64::MAX,
                forall|k: int|
                    0 <= k < j ==> {
                        &&& (#[trigger] self@.elevators[k]).total_wait_ticks + 10 * (self@.time + 1) + 10 <= u64::MAX
                        &&& self@.elevators[k].trips_completed < u64::MAX
                    },
        {
            let e = &s.elevators[j];
            assert(self@.elevators[j as int] == e@);
            if e.total_wait_ticks as u128 + 10 * (s.time as u128 + 1) + 10 > u64::MAX as u128 {
                return false;
            }
            if e.trips_completed == u64::MAX {
                return false;
            }
        }
        if s.population_served as u128 + 10 * ne as u128 > u64::MAX as u128 {
            return false;
        }
        let cap = income_cap_total(&s.floors);
        let bill = upkeep_total(&s.floors, ne, &s.active_events);
        let nf = s.floors.len();
        proof {
            lemma_upkeep_nonnegative(self@.floors, ne as nat, self@.active_events);
            crate::economy::lemma_income_cap_bounds(self@.floors, self@.floors.len());
            crate::economy::lemma_upkeep_bound(self@.floors, ne as nat, self@.active_events);
            assert(cap <= 0x1_0000_0000_0000_0000 * 2_000_000_000_000) by (nonlinear_arith)
                requires cap <= nf * 2_000_000_000_000, nf <= usize::MAX;
        }
        if s.money as i128 + cap + VIP_BONUS as i128 > i64::MAX as i128 {
            return false;
        }
        if s.total_revenue as i128 + cap > i64::MAX as i128 {
            return false;
        }
        if s.money as i128 - bill < i64::MIN as i128 {
            return false;
        }
        if s.total_expenses as i128 + bill > i64::MAX as i128 {
            return false;
        }
        let mut r = self.clock_rng();
        let v = next_random(&mut r);
        if v % 5000 == 0 {
            s.floors.len() > 0 || next_random(&mut r) % 100 >= 30
        } else {
            true
        }
    }
}

/// A tower under simulation.
pub struct Tower {
    pub(crate) core: Core,
}

impl View for Tower {
    type V = TowerView;

    closed spec fn view(&self) -> TowerView {
        self.core@
    }
}

impl Tower {
    /// Every tower is well formed.
    #[verifier::type_invariant]
    closed spec fn well_formed(self) -> bool {
        self.core@.wf()
    }

    /// A new, empty tower with its starting money.
    pub fn new() -> (t: Tower)
        ensures
            t@ == initial_tower(),
            t@.wf(),
    {
        Tower { core: Core::new() }
    }

    /// The observable state of the tower.
    pub fn get_state(&self) -> (s: &TowerState)
        ensures
            s@ == self@.observable(),
    {
        proof {
            use_type_invariant(self);
        }
        self.core.get_state()
    }

    /// Builds a floor of type `floor_type` at `level`, paying its cost.
    pub fn build_floor(&mut self, floor_type: FloorType, level: i32) -> (r: Result<(), TowerError>)
        requires
            old(self)@.money >= spec_build_cost(floor_type, level) && !old(self)@.has_floor_at(level)
                ==> old(self)@.total_expenses + spec_build_cost(floor_type, level) <= i64::MAX,
        ensures
            final(self)@.wf(),
            old(self)@.money < spec_build_cost(floor_type, level) ==> r == Err::<(), TowerError>(
                (TowerError::NotEnoughMoney {
                    need: spec_build_cost(floor_type, level) as i64,
                    have: old(self)@.money,
                }),
            ) && final(self)@ == old(self)@,
            old(self)@.money >= spec_build_cost(floor_type, level) && old(self)@.has_floor_at(level)
                ==> r == Err::<(), TowerError>(TowerError::FloorExists) && final(self)@ == old(self)@,
            r is Ok <==> old(self)@.money >= spec_build_cost(floor_type, level) && !old(self)@.has_floor_at(level),
            r is Ok ==> {
                let cost = spec_build_cost(floor_type, level);
                &&& final(self)@.money == old(self)@.money - cost
                &&& final(self)@.total_expenses == old(self)@.total_expenses + cost
                &&& exists|p: int|
                    0 <= p <= old(self)@.floors.len()
                    && final(self)@.floors == old(self)@.floors.insert(p, new_floor(floor_type, level))
                    && (forall|i: int| 0 <= i < p ==> #[trigger] old(self)@.floors[i].level < level)
                    && (forall|i: int| p <= i < old(self)@.floors.len() ==> #[trigger] old(self)@.floors[i].level > level)
                &&& final(self)@ == (TowerView {
                    money: final(self)@.money,
                    total_expenses: final(self)@.total_expenses,
                    floors: final(self)@.floors,
                    ..old(self)@
                })
            },
    {
        proof {
            use_type_invariant(&*self);
        }
        let mut inner = Core::new();
        core::mem::swap(&mut inner, &mut self.core);
        let r = inner.build_floor(floor_type, level);
        core::mem::swap(&mut inner, &mut self.core);
        r
    }

    /// Installs an elevator in `shaft`, paying for it.
    pub fn add_elevator(&mut self, shaft: u32) -> (r: Result<(), TowerError>)
        requires
            old(self)@.money >= ELEVATOR_COST && !old(self)@.has_shaft(shaft)
                ==> old(self)@.total_expenses + ELEVATOR_COST <= i64::MAX,
        ensures
            final(self)@.wf(),
            old(self)@.money < ELEVATOR_COST ==> r == Err::<(), TowerError>(
                (TowerError::NotEnoughMoney { need: ELEVATOR_COST, have: old(self)@.money }),
            ) && final(self)@ == old(self)@,
            old(self)@.money >= ELEVATOR_COST && old(self)@.has_shaft(shaft) ==> (r == Err::<(), TowerError>(TowerError::ShaftExists))
                && final(self)@ == old(self)@,
            r is Ok <==> old(self)@.money >= ELEVATOR_COST && !old(self)@.has_shaft(shaft),
            r is Ok ==> final(self)@ == (TowerView {
                money: (old(self)@.money - ELEVATOR_COST) as i64,
                total_expenses: (old(self)@.total_expenses + ELEVATOR_COST) as i64,
                elevators: old(self)@.elevators.push(new_elevator(shaft)),
                ..old(self)@
            }),
    {
        proof {
            use_type_invariant(&*self);
        }
        let mut inner = Core::new();
        core::mem::swap(&mut inner, &mut self.core);
        let r = inner.add_elevator(shaft);
        core::mem::swap(&mut inner, &mut self.core);
        r
    }

    /// Places a new person at level `from`, heading for level `to`; returns their id.
    pub fn spawn_person(&mut self, from: i32, to: i32) -> (id: u32)
        requires
            old(self)@.next_person_id < u32::MAX,
        ensures
            final(self)@.wf(),
            id == old(self)@.next_person_id,
            id == old(self)@.people.len(),
            forall|i: int| 0 <= i < old(self)@.people.len() ==> #[trigger] old(self)@.people[i].id != id,
            final(self)@.people.len() == old(self)@.people.len() + 1,
            final(self)@.people[old(self)@.people.len() as int] == (Person {
                id,
                current_floor: from,
                destination: to,
                state: PersonState::Waiting,
                wait_ticks: 0,
                travel_ticks: 0,
                spawned_at_tick: old(self)@.time,
            }),
            final(self)@.time == old(self)@.time,
            final(self)@ == spawn_spec(old(self)@, from, to),
    {
        proof {
            use_type_invariant(&*self);
        }
        let mut inner = Core::new();
        core::mem::swap(&mut inner, &mut self.core);
        let r = inner.spawn_person(from, to);
        core::mem::swap(&mut inner, &mut self.core);
        r
    }

    /// Simulates one minute.
    pub fn tick(&mut self)
        requires
            tick_safe(old(self)@),
        ensures
            final(self)@ == tick_spec(old(self)@),
            final(self)@.wf(),
    {
        proof {
            use_type_invariant(&*self);
        }
        let mut inner = Core::new();
        core::mem::swap(&mut inner, &mut self.core);
        inner.tick();
        core::mem::swap(&mut inner, &mut self.core);
    }

    /// Simulates `minutes` minutes and reports the time, the money, how the
    /// money changed, and how many events are in progress.
    pub fn advance(&mut self, minutes: u32) -> (r: AdvanceResult)
        requires
            run_safe(old(self)@, minutes as nat),
            i64::MIN <= run_spec(old(self)@, minutes as nat).money - old(self)@.money <= i64::MAX,
        ensures
            final(self)@ == run_spec(old(self)@, minutes as nat),
            final(self)@.wf(),
            final(self)@.time == old(self)@.time + minutes,
            final(self)@.total_revenue >= old(self)@.total_revenue,
            final(self)@.total_expenses >= old(self)@.total_expenses,
            final(self)@.population_served >= old(self)@.population_served,
            final(self)@.people.len() >= old(self)@.people.len(),
            crate::simulation::same_floor_plan(old(self)@.floors, final(self)@.floors),
            crate::progress::all_moved_on(old(self)@.people, final(self)@.people),
            final(self)@.elevators.len() == old(self)@.elevators.len(),
            forall|j: int| 0 <= j < old(self)@.elevators.len() ==> {
                &&& (#[trigger] final(self)@.elevators[j]).shaft == old(self)@.elevators[j].shaft
                &&& final(self)@.elevators[j].capacity == old(self)@.elevators[j].capacity
            },
            r.time == final(self)@.time,
            r.money == final(self)@.money,
            r.money_delta == final(self)@.money - old(self)@.money,
            r.active_events == final(self)@.active_events.len(),
    {
        proof {
            use_type_invariant(&*self);
        }
        let mut inner = Core::new();
        core::mem::swap(&mut inner, &mut self.core);
        let r = inner.advance(minutes);
        core::mem::swap(&mut inner, &mut self.core);
        r
    }

    /// Simulates up to `minutes` minutes, one at a time, for as long as the
    /// next minute can be simulated within the machine's integers and the
    /// change of money since the start still fits an `i64` whatever that
    /// minute brings.  Returns how many minutes were simulated, with what
    /// `advance` reports over them.
    pub fn advance_checked(&mut self, minutes: u32) -> (r: (u32, AdvanceResult))
        ensures
            final(self)@.wf(),
            r.0 <= minutes,
            final(self)@ == run_spec(old(self)@, r.0 as nat),
            r.0 < minutes ==> !(tick_safe(final(self)@) && delta_room(final(self)@, old(self)@.money)),
            final(self)@.time == old(self)@.time + r.0,
            final(self)@.total_revenue >= old(self)@.total_revenue,
            final(self)@.total_expenses >= old(self)@.total_expenses,
            final(self)@.population_served >= old(self)@.population_served,
            final(self)@.people.len() >= old(self)@.people.len(),
            crate::simulation::same_floor_plan(old(self)@.floors, final(self)@.floors),
            crate::progress::all_moved_on(old(self)@.people, final(self)@.people),
            final(self)@.elevators.len() == old(self)@.elevators.len(),
            forall|j: int| 0 <= j < old(self)@.elevators.len() ==> {
                &&& (#[trigger] final(self)@.elevators[j]).shaft == old(self)@.elevators[j].shaft
                &&& final(self)@.elevators[j].capacity == old(self)@.elevators[j].capacity
            },
            r.1.time == final(self)@.time,
            r.1.money == final(self)@.money,
            r.1.money_delta == final(self)@.money - old(self)@.money,
            r.1.active_events == final(self)@.active_events.len(),
    {
        proof {
            use_type_invariant(&*self);
        }
        let mut inner = Core::new();
        core::mem::swap(&mut inner, &mut self.core);
        let r = inner.advance_checked(minutes);
        core::mem::swap(&mut inner, &mut self.core);
        r
    }

    /// The tower's key figures.
    pub fn metrics(&self) -> (m: Metrics)
        ensures
            m == metrics_of(self@),
    {
        proof {
            use_type_invariant(self);
        }
        self.core.metrics()
    }

    /// Whether one minute can be simulated within the machine's integers,
    /// that is, whether `tick` may be called.
    pub fn tick_is_safe(&self) -> (b: bool)
        ensures
            b == tick_safe(self@),
    {
        proof {
            use_type_invariant(self);
        }
        self.core.tick_is_safe()
    }
}

/// A newcomer keeps a well-formed tower well-formed.
pub proof fn lemma_spawn_keeps_wf(s: TowerView, from: i32, to: i32)
    requires
        s.wf(),
        s.next_person_id < u32::MAX,
    ensures
        spawn_spec(s, from, to).wf(),
{
    let r = spawn_spec(s, from, to);
    lemma_arrived_newcomer(s.people, r.people.last());
    assert(r.people == s.people.push(r.people.last()));
    let es = r.elevators;
    assert forall|a: int, b: int| 0 <= a < es.len() && 0 <= b < es[a].passengers.len() implies {
        &&& #[trigger] es[a].passengers[b] < r.people.len()
        &&& r.people[es[a].passengers[b] as int].state == PersonState::Riding
    } by {
        assert(es[a].passengers[b] < s.people.len());
    }
    assert forall|j: int| 0 <= j < es.len() implies {
        let e = #[trigger] es[j];
        &&& e.capacity == ELEVATOR_CAPACITY
        &&& e.passengers.len() <= e.capacity
        &&& forall|k: int| 0 <= k < e.passengers.len() ==> #[trigger] e.passengers[k] < r.people.len()
    } by {
        assert(es[j] == s.elevators[j]);
    }
}

/// Moving the clock on keeps a well-formed tower well-formed; it keeps the
/// floors and cars, and at most adds one person after everybody else.
pub proof fn lemma_clock(s: TowerView)
    requires
        s.wf(),
        s.time < u64::MAX,
        s.next_person_id < u32::MAX,
    ensures
        clock_spec(s).wf(),
        clock_spec(s).floors == s.floors,
        clock_spec(s).elevators == s.elevators,
        clock_spec(s).population_served == s.population_served,
        clock_spec(s).people.len() == s.people.len() || clock_spec(s).people.len() == s.people.len() + 1,
        forall|i: int| 0 <= i < s.people.len() ==> #[trigger] clock_spec(s).people[i] == s.people[i],
{
    let s1 = TowerView { time: (s.time + 1) as u64, ..s };
    let r = rand_next(s1.rng);
    let s2 = TowerView { rng: r, ..s1 };
    let n = s2.floors.len() as int;
    if n >= 2 {
        let r1 = rand_next(s2.rng);
        let a = rand_draw(r1) as int % n;
        let r2 = rand_next(r1);
        let b0 = rand_draw(r2) as int % n;
        let b = if b0 == a { (b0 + 1) % n } else { b0 };
        lemma_spawn_keeps_wf(TowerView { rng: r2, ..s2 }, s2.floors[a].level, s2.floors[b].level);
    }
}

} // verus!

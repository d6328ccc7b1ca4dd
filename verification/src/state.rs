use vstd::prelude::*;
use crate::floor_type::FloorType;

verus! {

/// Which way an elevator car is travelling.
#[derive(Debug, Clone, Copy, PartialEq, Eq, Structural)]
pub enum Direction {
    Up,
    Down,
    Idle,
}

/// Where a person is in their trip: waiting for a car, riding one, or arrived.
#[derive(Debug, Clone, Copy, PartialEq, Eq, Structural)]
pub enum PersonState {
    Waiting,
    Riding,
    Arrived,
}

impl PersonState {
    /// The state's name: `"waiting"`, `"riding"` or `"arrived"`.
    pub fn as_str(&self) -> (s: &'static str)
        ensures
            s@ == person_state_name(*self),
    {
        match self {
            PersonState::Waiting => "waiting",
            PersonState::Riding => "riding",
            PersonState::Arrived => "arrived",
        }
    }
}

/// The name by which a person's state is shown.
pub open spec fn person_state_name(s: PersonState) -> Seq<char> {
    match s {
        PersonState::Waiting => "waiting"@,
        PersonState::Riding => "riding"@,
        PersonState::Arrived => "arrived"@,
    }
}

/// The kinds of special event that can strike the tower.
#[derive(Debug, Clone, Copy, PartialEq, Eq, Structural)]
pub enum EventKind {
    Fire,
    VipVisit,
    PowerOutage,
    MaintenanceBoost,
}

impl EventKind {
    /// The event's name: `"fire"`, `"vip_visit"`, `"power_outage"` or `"maintenance_boost"`.
    pub fn as_str(&self) -> (s: &'static str)
        ensures
            s@ == event_kind_name(*self),
    {
        match self {
            EventKind::Fire => "fire",
            EventKind::VipVisit => "vip_visit",
            EventKind::PowerOutage => "power_outage",
            EventKind::MaintenanceBoost => "maintenance_boost",
        }
    }
}

/// The name by which an event is shown.
pub open spec fn event_kind_name(k: EventKind) -> Seq<char> {
    match k {
        EventKind::Fire => "fire"@,
        EventKind::VipVisit => "vip_visit"@,
        EventKind::PowerOutage => "power_outage"@,
        EventKind::MaintenanceBoost => "maintenance_boost"@,
    }
}

/// One built floor.  `satisfaction` is in percentage points.
#[derive(Debug, Clone, Copy)]
pub struct Floor {
    pub level: i32,
    pub floor_type: FloorType,
    pub capacity: u32,
    pub current_occupants: u32,
    pub satisfaction: u32,
}

/// One elevator car, running in its own shaft.
#[derive(Debug)]
pub struct Elevator {
    pub shaft: u32,
    pub current_floor: i32,
    pub direction: Direction,
    pub capacity: u32,
    pub passengers: Vec<u32>,
    pub total_wait_ticks: u64,
    pub trips_completed: u64,
}

/// An elevator car as a mathematical value.
pub struct ElevatorView {
    pub shaft: u32,
    pub current_floor: i32,
    pub direction: Direction,
    pub capacity: u32,
    pub passengers: Seq<u32>,
    pub total_wait_ticks: u64,
    pub trips_completed: u64,
}

impl View for Elevator {
    type V = ElevatorView;

    open spec fn view(&self) -> ElevatorView {
        ElevatorView {
            shaft: self.shaft,
            current_floor: self.current_floor,
            direction: self.direction,
            capacity: self.capacity,
            passengers: self.passengers@,
            total_wait_ticks: self.total_wait_ticks,
            trips_completed: self.trips_completed,
        }
    }
}

impl Clone for Elevator {
    fn clone(&self) -> (e: Self)
        ensures
            e@ == self@,
    {
        Elevator {
            shaft: self.shaft,
            current_floor: self.current_floor,
            direction: self.direction,
            capacity: self.capacity,
            passengers: self.passengers.clone(),
            total_wait_ticks: self.total_wait_ticks,
            trips_completed: self.trips_completed,
        }
    }
}

/// A person in the tower, travelling from `current_floor` to `destination`.
#[derive(Debug, Clone, Copy)]
pub struct Person {
    pub id: u32,
    pub current_floor: i32,
    pub destination: i32,
    pub state: PersonState,
    pub wait_ticks: u64,
    pub travel_ticks: u64,
    pub spawned_at_tick: u64,
}

/// A special event in progress; `floor` is where it happens, if it has a place.
#[derive(Debug, Clone, Copy)]
pub struct Event {
    pub name: EventKind,
    pub floor: Option<i32>,
    pub ticks_remaining: u32,
}

/// Everything that can be observed of a tower.
#[derive(Debug)]
pub struct TowerState {
    /// Minutes simulated so far.
    pub time: u64,
    pub money: i64,
    pub total_revenue: i64,
    pub total_expenses: i64,
    /// Floors, ordered by level.
    pub floors: Vec<Floor>,
    pub elevators: Vec<Elevator>,
    /// People, in the order in which they appeared.
    pub people: Vec<Person>,
    pub active_events: Vec<Event>,
    /// Number of trips that ended at their car's stop.
    pub population_served: u64,
}

impl Clone for TowerState {
    fn clone(&self) -> (s: Self)
        ensures
            s.view() == self.view(),
    {
        let mut elevators: Vec<Elevator> = Vec::new();
        let n = self.elevators.len();
        for j in 0..n
            invariant
                n == self.elevators.len(),
                elevators.len() == j,
                forall|k: int| 0 <= k < j ==> #[trigger] elevators@[k]@ == self.elevators@[k]@,
        {
            elevators.push(self.elevators[j].clone());
        }
        assert(elevators@.map_values(|e: Elevator| e@) =~= self.elevators@.map_values(|e: Elevator| e@));
        TowerState {
            time: self.time,
            money: self.money,
            total_revenue: self.total_revenue,
            total_expenses: self.total_expenses,
            floors: self.floors.clone(),
            elevators,
            people: self.people.clone(),
            active_events: self.active_events.clone(),
            population_served: self.population_served,
        }
    }
}

/// A tower's observable state as a mathematical value.
pub struct TowerStateView {
    pub time: u64,
    pub money: i64,
    pub total_revenue: i64,
    pub total_expenses: i64,
    pub floors: Seq<Floor>,
    pub elevators: Seq<ElevatorView>,
    pub people: Seq<Person>,
    pub active_events: Seq<Event>,
    pub population_served: u64,
}

impl View for TowerState {
    type V = TowerStateView;

    open spec fn view(&self) -> TowerStateView {
        TowerStateView {
            time: self.time,
            money: self.money,
            total_revenue: self.total_revenue,
            total_expenses: self.total_expenses,
            floors: self.floors@,
            elevators: self.elevators@.map_values(|e: Elevator| e@),
            people: self.people@,
            active_events: self.active_events@,
            population_served: self.population_served,
        }
    }
}

} // verus!

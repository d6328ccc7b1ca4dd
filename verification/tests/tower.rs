use babelsim_core::floor_type::FloorType;
use babelsim_core::state::{Direction, PersonState};
use babelsim_core::tower::{Metrics, Tower, TowerError};

/// Revenue as a percentage of expenses, as the program reports it.
fn profit_rate(m: &Metrics) -> i64 {
    if m.total_expenses > 0 {
        (m.total_revenue as f64 / m.total_expenses as f64 * 100.0) as i64
    } else {
        0
    }
}

#[test]
fn test_build_and_elevator() {
    let mut tower = Tower::new();
    tower.build_floor(FloorType::Lobby, 0).unwrap();
    tower.build_floor(FloorType::Office, 5).unwrap();
    tower.add_elevator(0).unwrap();
    assert_eq!(tower.get_state().floors.len(), 2);
    assert_eq!(tower.get_state().elevators.len(), 1);
    assert!(tower.get_state().money < 150_000, "Construction should cost money");
}

#[test]
fn test_simple_advance() {
    let mut tower = Tower::new();
    tower.build_floor(FloorType::Lobby, 0).unwrap();
    tower.build_floor(FloorType::Office, 10).unwrap();
    tower.add_elevator(0).unwrap();
    let pid = tower.spawn_person(0, 10);
    let result = tower.advance(5);
    assert!(result.time > 0);
    assert!(tower.get_state().people.iter().any(|p| p.id == pid));
}

#[test]
fn test_economy_cycle() {
    let mut tower = Tower::new();
    tower.build_floor(FloorType::Lobby, 0).unwrap();
    tower.build_floor(FloorType::Retail, 2).unwrap();
    tower.add_elevator(0).unwrap();

    let money_before = tower.get_state().money;

    tower.advance(1440);

    let m = tower.metrics();
    assert!(m.total_revenue > 0 || m.total_expenses > 0, "Economy should have some activity after a day");
    assert!(tower.get_state().money != money_before, "Money should change over a day of simulation");
    assert!(profit_rate(&m) < 300, "Profit rate should be reasonable, got {}%", profit_rate(&m));
}

/// One minute's update of the overall satisfaction score, as the program
/// keeps it: an exponential average of the scores of arrived people and floors.
fn update_satisfaction(t: &Tower, score: &mut f64) {
    let s = t.get_state();
    let mut total = 0.0;
    let mut count = 0;
    for p in s.people.iter().filter(|p| p.state == PersonState::Arrived) {
        let sat: f64 = 50.0 - p.wait_ticks as f64 * 0.6 - p.travel_ticks as f64 * 0.4;
        total += sat.max(0.0).min(100.0);
        count += 1;
    }
    for f in &s.floors {
        let occupancy = f.current_occupants as f64 / f.capacity as f64;
        let mut sat = f.satisfaction as f64;
        if occupancy > 0.8 {
            sat -= 2.0;
        } else if occupancy > 0.5 {
            sat -= 0.5;
        } else {
            sat += 0.5;
        }
        total += sat.max(0.0).min(100.0);
        count += 1;
    }
    if count > 0 {
        *score = *score * 0.9 + total / count as f64 * 0.1;
    }
}

/// Advances the tower minute by minute, keeping the satisfaction score.
fn advance_scored(t: &mut Tower, score: &mut f64, minutes: u32) {
    for _ in 0..minutes {
        t.tick();
        update_satisfaction(t, score);
    }
}

#[test]
fn test_satisfaction_tracks() {
    let mut tower = Tower::new();
    tower.build_floor(FloorType::Lobby, 0).unwrap();
    tower.build_floor(FloorType::Office, 3).unwrap();
    tower.add_elevator(0).unwrap();

    for _ in 0..10 {
        tower.spawn_person(0, 3);
    }
    let mut satisfaction = 50.0;
    advance_scored(&mut tower, &mut satisfaction, 120);

    let m = tower.metrics();
    assert!(satisfaction > 0.0, "Satisfaction should be tracked");
    assert!(m.people_served > 0, "Some people should be served");
}

#[test]
fn test_events_fire() {
    let mut tower = Tower::new();
    tower.build_floor(FloorType::Lobby, 0).unwrap();
    tower.build_floor(FloorType::Office, 5).unwrap();
    tower.add_elevator(0).unwrap();

    let mut satisfaction = 50.0;
    advance_scored(&mut tower, &mut satisfaction, 5000);

    let m = tower.metrics();
    assert_eq!(m.time, 5000);
    assert!(satisfaction >= 0.0);
}

#[test]
fn test_build_cost_prevents_overspend() {
    let mut tower = Tower::new();
    tower.build_floor(FloorType::Observatory, 1).unwrap();
    let result = tower.build_floor(FloorType::Observatory, 2);
    assert!(result.is_err(), "Should not afford second observatory on remaining money");
}

#[test]
fn test_height_increases_cost() {
    let cost_low = FloorType::Office.build_cost(1);
    let cost_high = FloorType::Office.build_cost(50);
    assert!(cost_high > cost_low, "Higher floors should cost more: low={} high={}", cost_low, cost_high);
}

#[test]
fn test_revenue_is_four_times_daily() {
    let mut tower = Tower::new();
    tower.build_floor(FloorType::Lobby, 0).unwrap();
    tower.build_floor(FloorType::Office, 5).unwrap();
    tower.add_elevator(0).unwrap();

    for _ in 0..5 {
        tower.spawn_person(0, 5);
    }

    tower.advance(1440);

    let m = tower.metrics();
    println!("Day 1 revenue={}, expenses={}, profit_rate={}%", m.total_revenue, m.total_expenses, profit_rate(&m));
}

#[test]
fn new_tower_starts_empty_with_its_money() {
    let tower = Tower::new();
    let s = tower.get_state();
    assert_eq!(s.time, 0);
    assert_eq!(s.money, 150_000);
    assert_eq!(s.total_revenue, 0);
    assert_eq!(s.total_expenses, 0);
    assert!(s.floors.is_empty());
    assert!(s.elevators.is_empty());
    assert!(s.people.is_empty());
    assert!(s.active_events.is_empty());
    assert_eq!(s.population_served, 0);
}

#[test]
fn construction_charges_exact_costs() {
    let mut tower = Tower::new();
    tower.build_floor(FloorType::Lobby, 0).unwrap();
    assert_eq!(tower.get_state().money, 140_000);
    tower.build_floor(FloorType::Office, 5).unwrap();
    assert_eq!(tower.get_state().money, 65_000);
    tower.add_elevator(0).unwrap();
    assert_eq!(tower.get_state().money, 15_000);
    assert_eq!(tower.get_state().total_expenses, 135_000);
    let e = &tower.get_state().elevators[0];
    assert_eq!(e.shaft, 0);
    assert_eq!(e.current_floor, 0);
    assert_eq!(e.direction, Direction::Idle);
    assert_eq!(e.capacity, 10);
    assert!(e.passengers.is_empty());
}

#[test]
fn floors_are_kept_in_level_order() {
    let mut tower = Tower::new();
    tower.build_floor(FloorType::Retail, 3).unwrap();
    tower.build_floor(FloorType::Lobby, 0).unwrap();
    tower.build_floor(FloorType::Lobby, -2).unwrap();
    let levels: Vec<i32> = tower.get_state().floors.iter().map(|f| f.level).collect();
    assert_eq!(levels, vec![-2, 0, 3]);
    let f = &tower.get_state().floors[2];
    assert_eq!(f.floor_type, FloorType::Retail);
    assert_eq!(f.capacity, 60);
    assert_eq!(f.current_occupants, 0);
    assert_eq!(f.satisfaction, 70);
}

#[test]
fn refused_construction_changes_nothing() {
    let mut tower = Tower::new();
    tower.build_floor(FloorType::Observatory, 1).unwrap();
    assert_eq!(tower.get_state().money, 24_000);
    let r = tower.build_floor(FloorType::Observatory, 2);
    assert_eq!(r, Err(TowerError::NotEnoughMoney { need: 132_000, have: 24_000 }));
    assert_eq!(tower.get_state().money, 24_000);
    assert_eq!(tower.get_state().floors.len(), 1);
    assert_eq!(tower.get_state().total_expenses, 126_000);
}

#[test]
fn a_level_holds_one_floor() {
    let mut tower = Tower::new();
    tower.build_floor(FloorType::Lobby, 0).unwrap();
    assert_eq!(tower.build_floor(FloorType::Lobby, 0), Err(TowerError::FloorExists));
    assert_eq!(tower.get_state().money, 140_000);
    assert_eq!(tower.get_state().floors.len(), 1);
}

#[test]
fn money_is_checked_before_the_level() {
    let mut tower = Tower::new();
    tower.build_floor(FloorType::Observatory, 1).unwrap();
    let r = tower.build_floor(FloorType::Observatory, 1);
    assert_eq!(r, Err(TowerError::NotEnoughMoney { need: 126_000, have: 24_000 }));
}

#[test]
fn a_shaft_holds_one_elevator() {
    let mut tower = Tower::new();
    tower.add_elevator(3).unwrap();
    assert_eq!(tower.add_elevator(3), Err(TowerError::ShaftExists));
    assert_eq!(tower.get_state().money, 100_000);
    assert_eq!(tower.get_state().elevators.len(), 1);
}

#[test]
fn elevators_need_money() {
    let mut tower = Tower::new();
    tower.add_elevator(0).unwrap();
    tower.add_elevator(1).unwrap();
    tower.add_elevator(2).unwrap();
    assert_eq!(tower.get_state().money, 0);
    assert_eq!(tower.add_elevator(4), Err(TowerError::NotEnoughMoney { need: 50_000, have: 0 }));
}

#[test]
fn spawned_people_are_numbered_in_order() {
    let mut tower = Tower::new();
    assert_eq!(tower.spawn_person(0, 4), 0);
    assert_eq!(tower.spawn_person(4, 0), 1);
    let p = tower.get_state().people[1];
    assert_eq!(p.id, 1);
    assert_eq!(p.current_floor, 4);
    assert_eq!(p.destination, 0);
    assert_eq!(p.state, PersonState::Waiting);
    assert_eq!(p.state.as_str(), "waiting");
    assert_eq!(p.wait_ticks, 0);
    assert_eq!(p.travel_ticks, 0);
    assert_eq!(p.spawned_at_tick, 0);
}

#[test]
fn a_rider_reaches_its_floor() {
    let mut tower = Tower::new();
    tower.build_floor(FloorType::Lobby, 0).unwrap();
    tower.build_floor(FloorType::Office, 3).unwrap();
    tower.add_elevator(0).unwrap();
    let pid = tower.spawn_person(0, 3);
    tower.advance(30);
    let p = tower.get_state().people[pid as usize];
    assert_eq!(p.state, PersonState::Arrived);
    assert_eq!(p.current_floor, 3);
    assert_eq!(p.state.as_str(), "arrived");
    assert!(tower.get_state().population_served >= 1);
    let m = tower.metrics();
    assert_eq!(m.people_served, tower.get_state().population_served);
}

#[test]
fn advancing_moves_the_clock_exactly() {
    let mut tower = Tower::new();
    tower.build_floor(FloorType::Lobby, 0).unwrap();
    let r = tower.advance(7);
    assert_eq!(r.time, 7);
    assert_eq!(tower.get_state().time, 7);
    let r = tower.advance(0);
    assert_eq!(r.time, 7);
    assert_eq!(r.money_delta, 0);
    tower.tick();
    assert_eq!(tower.get_state().time, 8);
}

#[test]
fn nothing_is_earned_before_eight() {
    let mut tower = Tower::new();
    tower.build_floor(FloorType::Lobby, 0).unwrap();
    tower.build_floor(FloorType::Office, 5).unwrap();
    tower.add_elevator(0).unwrap();
    for _ in 0..5 {
        tower.spawn_person(0, 5);
    }
    let r = tower.advance(479);
    assert_eq!(tower.get_state().total_revenue, 0);
    assert_eq!(tower.get_state().total_expenses, 135_000);
    assert_eq!(r.money, 15_000);
}

#[test]
fn rent_is_collected_at_eight() {
    let mut tower = Tower::new();
    tower.build_floor(FloorType::Lobby, 0).unwrap();
    tower.build_floor(FloorType::Office, 5).unwrap();
    tower.add_elevator(0).unwrap();
    for _ in 0..5 {
        tower.spawn_person(0, 5);
    }
    tower.advance(479);
    let before = tower.get_state().money;
    let r = tower.advance(1);
    let occupants = tower.get_state().floors[1].current_occupants as i64;
    assert!(occupants >= 5);
    // 120 per office occupant, times 1.2 for the starting satisfaction of 70;
    // the lobby earns nothing.
    assert_eq!(tower.get_state().total_revenue, occupants * 144);
    assert_eq!(r.money_delta, tower.get_state().money - before);
    let r = tower.advance(239);
    assert_eq!(r.time, 719);
    assert_eq!(tower.get_state().total_revenue, occupants * 144);
}

#[test]
fn upkeep_is_paid_at_midnight() {
    let mut tower = Tower::new();
    tower.build_floor(FloorType::Lobby, 0).unwrap();
    tower.build_floor(FloorType::Office, 5).unwrap();
    tower.add_elevator(0).unwrap();
    tower.advance(1439);
    let before = tower.get_state().total_expenses;
    assert_eq!(before, 135_000);
    let events = tower.get_state().active_events.len();
    tower.advance(1);
    // Lobby 1,500; office at level 5: 4,000 * 35 / 30; elevator: 2,000 + 100.
    let bill = 1_500 + 4_666 + 2_100;
    if events == 0 {
        assert_eq!(tower.get_state().total_expenses - before, bill);
    } else {
        assert!(tower.get_state().total_expenses - before >= bill);
    }
    for f in &tower.get_state().floors {
        assert_eq!(f.current_occupants, 0);
    }
}

#[test]
fn metrics_report_the_state() {
    let mut tower = Tower::new();
    tower.build_floor(FloorType::Lobby, 0).unwrap();
    tower.build_floor(FloorType::Hotel, 3).unwrap();
    tower.spawn_person(0, 3);
    tower.spawn_person(3, 0);
    let m = tower.metrics();
    assert_eq!(m.time, 0);
    assert_eq!(m.money, 150_000 - 10_000 - 115_000);
    assert_eq!(m.total_revenue, 0);
    assert_eq!(m.total_expenses, 125_000);
    assert_eq!(m.floors, 2);
    assert_eq!(m.elevators, 0);
    assert_eq!(m.people_active, 2);
    assert_eq!(m.people_served, 0);
    assert_eq!(m.events, 0);
    assert_eq!(profit_rate(&m), 0);
}

#[test]
fn a_long_run_keeps_going() {
    let mut tower = Tower::new();
    tower.build_floor(FloorType::Lobby, 0).unwrap();
    tower.build_floor(FloorType::Office, 5).unwrap();
    tower.add_elevator(0).unwrap();
    let r = tower.advance(5000);
    assert_eq!(r.time, 5000);
    let m = tower.metrics();
    assert_eq!(m.time, 5000);
    assert_eq!(m.floors, 2);
    assert_eq!(m.events as usize, r.active_events);
    assert!(m.total_revenue >= 0);
}

#[test]
fn the_same_actions_give_the_same_tower() {
    let run = || {
        let mut t = Tower::new();
        t.build_floor(FloorType::Lobby, 0).unwrap();
        t.build_floor(FloorType::Retail, 2).unwrap();
        t.add_elevator(0).unwrap();
        t.spawn_person(0, 2);
        t.advance(3000);
        t.metrics()
    };
    let a = run();
    let b = run();
    assert_eq!(a.money, b.money);
    assert_eq!(a.total_revenue, b.total_revenue);
    assert_eq!(a.total_expenses, b.total_expenses);
    assert_eq!(a.people_active, b.people_active);
    assert_eq!(a.people_served, b.people_served);
    assert_eq!(a.events, b.events);
}

#[test]
fn tick_is_safe_on_a_fresh_tower() {
    let mut tower = Tower::new();
    assert!(tower.tick_is_safe());
    tower.build_floor(FloorType::Lobby, 0).unwrap();
    assert!(tower.tick_is_safe());
}

#[test]
fn an_empty_car_goes_to_the_nearest_caller() {
    let mut tower = Tower::new();
    tower.build_floor(FloorType::Lobby, 0).unwrap();
    tower.add_elevator(0).unwrap();
    tower.spawn_person(5, 0);
    tower.spawn_person(-3, 0);
    tower.tick();
    let e = &tower.get_state().elevators[0];
    assert_eq!(e.current_floor, -1);
    assert_eq!(e.direction, Direction::Down);
    tower.advance(2);
    let e = &tower.get_state().elevators[0];
    assert_eq!(e.current_floor, -3);
}

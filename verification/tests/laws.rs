use babelsim_core::floor_type::FloorType;
use babelsim_core::state::PersonState;
use babelsim_core::tower::Tower;

fn busy_tower() -> Tower {
    let mut t = Tower::new();
    t.build_floor(FloorType::Lobby, 0).unwrap();
    t.build_floor(FloorType::Retail, 1).unwrap();
    t.build_floor(FloorType::Restaurant, 3).unwrap();
    t.add_elevator(0).unwrap();
    for _ in 0..3 {
        t.spawn_person(0, 1);
        t.spawn_person(0, 3);
        t.spawn_person(1, 3);
    }
    t
}

#[test]
fn running_in_pieces_is_running_at_once() {
    let mut a = busy_tower();
    let mut b = busy_tower();
    a.advance(700);
    a.advance(900);
    b.advance(1600);
    let (sa, sb) = (a.get_state(), b.get_state());
    assert_eq!(sa.time, sb.time);
    assert_eq!(sa.money, sb.money);
    assert_eq!(sa.total_revenue, sb.total_revenue);
    assert_eq!(sa.total_expenses, sb.total_expenses);
    assert_eq!(sa.people.len(), sb.people.len());
    assert_eq!(sa.population_served, sb.population_served);
    for (x, y) in sa.elevators.iter().zip(sb.elevators.iter()) {
        assert_eq!(x.current_floor, y.current_floor);
        assert_eq!(x.passengers, y.passengers);
    }
}

#[test]
fn money_moves_only_at_set_times() {
    let mut t = busy_tower();
    for _ in 0..3000 {
        let before = (t.get_state().total_revenue, t.get_state().total_expenses);
        t.tick();
        let s = t.get_state();
        let minute = s.time % 1440;
        if ![480, 720, 960, 1200].contains(&minute) {
            assert_eq!(s.total_revenue, before.0);
        }
        if minute != 0 {
            assert_eq!(s.total_expenses, before.1);
        }
    }
}

#[test]
fn cars_move_at_most_one_level_a_minute() {
    let mut t = busy_tower();
    for _ in 0..2000 {
        let before: Vec<i32> = t.get_state().elevators.iter().map(|e| e.current_floor).collect();
        t.tick();
        let after: Vec<i32> = t.get_state().elevators.iter().map(|e| e.current_floor).collect();
        assert_eq!(before.len(), after.len());
        for (x, y) in before.iter().zip(after.iter()) {
            assert!((x - y).abs() <= 1);
        }
    }
}

#[test]
fn arrived_people_stay_put() {
    let mut t = busy_tower();
    t.advance(100);
    let arrived: Vec<(usize, i32, u64, u64)> = t
        .get_state()
        .people
        .iter()
        .enumerate()
        .filter(|(_, p)| p.state == PersonState::Arrived)
        .map(|(i, p)| (i, p.current_floor, p.wait_ticks, p.travel_ticks))
        .collect();
    assert!(!arrived.is_empty());
    let n = t.get_state().people.len();
    t.advance(2000);
    assert!(t.get_state().people.len() >= n);
    for (i, floor, wait, travel) in arrived {
        let p = t.get_state().people[i];
        assert_eq!(p.state, PersonState::Arrived);
        assert_eq!(p.current_floor, floor);
        assert_eq!(p.wait_ticks, wait);
        assert_eq!(p.travel_ticks, travel);
    }
}

#[test]
fn served_counts_the_arrivals() {
    let mut t = busy_tower();
    for _ in 0..10 {
        t.advance(300);
        let s = t.get_state();
        let arrived = s.people.iter().filter(|p| p.state == PersonState::Arrived).count() as u64;
        assert_eq!(s.population_served, arrived);
    }
}

#[test]
fn floors_stay_within_capacity() {
    let mut t = busy_tower();
    let levels: Vec<i32> = t.get_state().floors.iter().map(|f| f.level).collect();
    for _ in 0..30 {
        t.advance(100);
        let s = t.get_state();
        let now: Vec<i32> = s.floors.iter().map(|f| f.level).collect();
        assert_eq!(now, levels);
        for f in &s.floors {
            assert!(f.current_occupants <= f.capacity);
        }
        for e in &s.elevators {
            assert!(e.passengers.len() <= e.capacity as usize);
        }
    }
}

#[test]
fn the_ledger_balances() {
    let mut t = busy_tower();
    t.advance(4000);
    let s = t.get_state();
    // Apart from revenue and expenses, money moves only by VIP bonuses of
    // 10,000 each (fires never cost anything: they end as their time runs out).
    let rest = s.money - (150_000 + s.total_revenue - s.total_expenses);
    assert!(rest >= 0);
    assert_eq!(rest % 10_000, 0);
}

#[test]
fn a_checked_run_goes_the_whole_way_on_an_ordinary_tower() {
    let mut a = busy_tower();
    let mut b = busy_tower();
    let (n, r) = a.advance_checked(2000);
    assert_eq!(n, 2000);
    assert_eq!(r.time, 2000);
    let r2 = b.advance(2000);
    assert_eq!(r.money, r2.money);
    assert_eq!(r.money_delta, r2.money_delta);
    assert_eq!(r.active_events, r2.active_events);
    let (n, r) = a.advance_checked(0);
    assert_eq!(n, 0);
    assert_eq!(r.money_delta, 0);
}

#[test]
fn every_rider_is_in_exactly_one_car() {
    let mut t = busy_tower();
    for _ in 0..600 {
        t.tick();
        let s = t.get_state();
        for p in s.people.iter().filter(|p| p.state == PersonState::Riding) {
            let places = s.elevators.iter().map(|e| e.passengers.iter().filter(|&&q| q == p.id).count()).sum::<usize>();
            assert_eq!(places, 1);
        }
        for e in &s.elevators {
            for q in &e.passengers {
                assert_eq!(s.people[*q as usize].state, PersonState::Riding);
            }
        }
    }
}

#[test]
fn people_only_move_forward() {
    let rank = |s: PersonState| match s {
        PersonState::Waiting => 0,
        PersonState::Riding => 1,
        PersonState::Arrived => 2,
    };
    let mut t = busy_tower();
    let mut before: Vec<_> = t.get_state().people.clone();
    for _ in 0..20 {
        t.advance(60);
        let now = &t.get_state().people;
        assert!(now.len() >= before.len());
        for (a, b) in before.iter().zip(now.iter()) {
            assert_eq!(a.id, b.id);
            assert_eq!(a.destination, b.destination);
            assert_eq!(a.spawned_at_tick, b.spawned_at_tick);
            assert!(rank(b.state) >= rank(a.state));
        }
        before = now.clone();
    }
}

#[test]
fn a_run_keeps_the_layout_and_the_totals_grow() {
    let mut t = busy_tower();
    let levels: Vec<i32> = t.get_state().floors.iter().map(|f| f.level).collect();
    let shafts: Vec<u32> = t.get_state().elevators.iter().map(|e| e.shaft).collect();
    let mut last = (0i64, 0i64, 0u64);
    for _ in 0..10 {
        t.advance(500);
        let s = t.get_state();
        assert_eq!(s.floors.iter().map(|f| f.level).collect::<Vec<_>>(), levels);
        assert_eq!(s.elevators.iter().map(|e| e.shaft).collect::<Vec<_>>(), shafts);
        assert!(s.total_revenue >= last.0);
        assert!(s.total_expenses >= last.1);
        assert!(s.population_served >= last.2);
        last = (s.total_revenue, s.total_expenses, s.population_served);
    }
}

#[test]
fn events_count_down_in_order() {
    let mut t = busy_tower();
    let mut seen = 0;
    for _ in 0..20_000 {
        let before: Vec<(u32, Option<i32>)> = t.get_state().active_events.iter().map(|e| (e.ticks_remaining, e.floor)).collect();
        t.tick();
        let after: Vec<(u32, Option<i32>)> = t.get_state().active_events.iter().map(|e| (e.ticks_remaining, e.floor)).collect();
        let expected: Vec<(u32, Option<i32>)> = before.iter().filter(|e| e.0 >= 2).map(|e| (e.0 - 1, e.1)).collect();
        assert!(after.len() <= expected.len() + 1);
        assert_eq!(&after[..expected.len()], &expected[..]);
        assert!(after.iter().all(|e| e.0 >= 1));
        seen += before.len();
    }
    assert!(seen > 0);
}

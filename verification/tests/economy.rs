use babelsim_core::floor_type::FloorType;
use babelsim_core::rng::next_random;
use babelsim_core::state::{EventKind, PersonState};

const ALL: [FloorType; 7] = [
    FloorType::Office,
    FloorType::Hotel,
    FloorType::Restaurant,
    FloorType::Retail,
    FloorType::Residential,
    FloorType::Lobby,
    FloorType::Observatory,
];

#[test]
fn build_costs_at_ground_level() {
    let expected = [60_000, 100_000, 40_000, 35_000, 50_000, 10_000, 120_000];
    for (t, e) in ALL.iter().zip(expected.iter()) {
        assert_eq!(t.build_cost(0), *e);
    }
}

#[test]
fn build_cost_grows_a_twentieth_per_level() {
    assert_eq!(FloorType::Office.build_cost(20), 120_000);
    assert_eq!(FloorType::Retail.build_cost(2), 38_500);
    assert_eq!(FloorType::Hotel.build_cost(3), 115_000);
    assert_eq!(FloorType::Observatory.build_cost(1), 126_000);
    assert_eq!(FloorType::Lobby.build_cost(7), 13_500);
    assert_eq!(FloorType::Residential.build_cost(i32::MAX), 50_000 * (20 + i32::MAX as i64) / 20);
}

#[test]
fn basements_cost_as_ground_level() {
    for t in ALL.iter() {
        assert_eq!(t.build_cost(-5), t.build_cost(0));
        assert_eq!(t.build_cost(i32::MIN), t.build_cost(0));
        assert_eq!(t.daily_maintenance(-1), t.daily_maintenance(0));
    }
}

#[test]
fn daily_maintenance_grows_a_thirtieth_per_level() {
    let expected = [4_000, 6_000, 3_000, 2_500, 3_000, 1_500, 5_000];
    for (t, e) in ALL.iter().zip(expected.iter()) {
        assert_eq!(t.daily_maintenance(0), *e);
    }
    assert_eq!(FloorType::Office.daily_maintenance(30), 8_000);
    assert_eq!(FloorType::Office.daily_maintenance(5), 4_666);
    assert_eq!(FloorType::Retail.daily_maintenance(3), 2_750);
}

#[test]
fn income_and_capacity_per_type() {
    let income = [120, 200, 80, 60, 180, 0, 100];
    let capacity = [100, 80, 50, 60, 40, 200, 30];
    for i in 0..7 {
        assert_eq!(ALL[i].income_per_person(), income[i]);
        assert_eq!(ALL[i].capacity(), capacity[i]);
    }
}

#[test]
fn costs_never_fall_with_height() {
    for t in ALL.iter() {
        let mut prev = t.build_cost(0);
        let mut prev_upkeep = t.daily_maintenance(0);
        for level in 1..200 {
            assert!(t.build_cost(level) >= prev);
            assert!(t.daily_maintenance(level) >= prev_upkeep);
            prev = t.build_cost(level);
            prev_upkeep = t.daily_maintenance(level);
        }
    }
}

#[test]
fn generator_sequence_from_the_seed() {
    let mut r: u64 = 12345;
    assert_eq!(next_random(&mut r), 235_318_264);
    assert_eq!(r, 2_021_368_500_568_277_588);
    assert_eq!(next_random(&mut r), 569_910_583);
    assert_eq!(next_random(&mut r), 1_901_863_042);
    assert_eq!(r, 16_336_879_138_292_273_062);
}

#[test]
fn names_of_states_and_events() {
    assert_eq!(PersonState::Waiting.as_str(), "waiting");
    assert_eq!(PersonState::Riding.as_str(), "riding");
    assert_eq!(PersonState::Arrived.as_str(), "arrived");
    assert_eq!(EventKind::Fire.as_str(), "fire");
    assert_eq!(EventKind::VipVisit.as_str(), "vip_visit");
    assert_eq!(EventKind::PowerOutage.as_str(), "power_outage");
    assert_eq!(EventKind::MaintenanceBoost.as_str(), "maintenance_boost");
}

use babelsim_core::report::{people_in_state, verdict, Verdict};
use babelsim_core::tower::{Metrics, Tower};

fn figures(time: u64, money: i64, revenue: i64) -> Metrics {
    Metrics {
        time,
        money,
        total_revenue: revenue,
        total_expenses: 0,
        floors: 0,
        elevators: 0,
        people_active: 0,
        people_served: 0,
        events: 0,
    }
}

#[test]
fn verdicts_on_runs() {
    assert_eq!(verdict(&figures(4320, 100, 40_000)), Verdict::Profitable { per_day: 3_890 });
    assert_eq!(verdict(&figures(100, 1, 500)), Verdict::Profitable { per_day: 500 });
    assert_eq!(verdict(&figures(4320, 100, 28_329)), Verdict::Borderline);
    assert_eq!(verdict(&figures(4320, 0, 90_000)), Verdict::Bankrupt);
    assert_eq!(verdict(&figures(4320, -5, 0)), Verdict::Bankrupt);
}

#[test]
fn people_counted_by_state() {
    let mut t = Tower::new();
    t.build_floor(FloorType::Lobby, 0).unwrap();
    t.build_floor(FloorType::Office, 2).unwrap();
    t.add_elevator(0).unwrap();
    t.spawn_person(0, 2);
    t.spawn_person(0, 2);
    t.spawn_person(2, 0);
    assert_eq!(people_in_state(&t, PersonState::Waiting), 3);
    assert_eq!(people_in_state(&t, PersonState::Riding), 0);
    t.tick();
    assert_eq!(people_in_state(&t, PersonState::Riding), 2);
    assert_eq!(people_in_state(&t, PersonState::Waiting), 1);
    assert_eq!(people_in_state(&t, PersonState::Arrived), 0);
}

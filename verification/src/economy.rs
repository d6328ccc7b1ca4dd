use vstd::prelude::*;
use crate::floor_type::{spec_daily_maintenance, spec_income_per_person, spec_capacity};
use crate::simulation::{occupancy_ok, same_floor_plan};
use crate::state::{Event, EventKind, Floor};

verus! {

/// Minute of the day (counted from midnight) at which rents are collected.
pub open spec fn is_income_minute(minute_of_day: int) -> bool {
    minute_of_day == 480 || minute_of_day == 720 || minute_of_day == 960 || minute_of_day == 1200
}

/// What one floor earns at a collection: each occupant pays the floor type's
/// rate, scaled by the floor's satisfaction between half and one and a half
/// times, rounded down once.  (Floors keep a satisfaction of 70, a factor of
/// 1.2; for every occupancy a floor can hold, this equals the truncated `f64`
/// product of the earnings and 1.2.)
pub open spec fn floor_income(f: Floor) -> int {
    if f.current_occupants > 0 {
        let sat = if f.satisfaction > 100 { 100 } else { f.satisfaction as int };
        (f.current_occupants * spec_income_per_person(f.floor_type)) * (50 + sat) / 100
    } else {
        0
    }
}

/// What the first `n` floors earn at a collection.
pub open spec fn income_upto(floors: Seq<Floor>, n: nat) -> int
    decreases n,
{
    if n == 0 {
        0
    } else {
        income_upto(floors, (n - 1) as nat) + floor_income(floors[n - 1])
    }
}

/// What the tower earns at a collection.
pub open spec fn income(floors: Seq<Floor>) -> int {
    income_upto(floors, floors.len())
}

/// The most one floor can earn at a collection: what it earns when full.
pub open spec fn floor_income_cap(f: Floor) -> int {
    floor_income(Floor { current_occupants: f.capacity, ..f })
}

/// The most the first `n` floors can earn at a collection.
pub open spec fn income_cap_upto(floors: Seq<Floor>, n: nat) -> int
    decreases n,
{
    if n == 0 {
        0
    } else {
        income_cap_upto(floors, (n - 1) as nat) + floor_income_cap(floors[n - 1])
    }
}

/// The most the tower can earn at a collection.
pub open spec fn income_cap(floors: Seq<Floor>) -> int {
    income_cap_upto(floors, floors.len())
}

/// Daily upkeep of the first `n` floors.
pub open spec fn floor_upkeep_upto(floors: Seq<Floor>, n: nat) -> int
    decreases n,
{
    if n == 0 {
        0
    } else {
        floor_upkeep_upto(floors, (n - 1) as nat) + spec_daily_maintenance(floors[n - 1].floor_type, floors[n - 1].level)
    }
}

/// The highest level among the first `n` floors, if any.
pub open spec fn top_level_upto(floors: Seq<Floor>, n: nat) -> Option<i32>
    decreases n,
{
    if n == 0 {
        None
    } else {
        match top_level_upto(floors, (n - 1) as nat) {
            None => Some(floors[n - 1].level),
            Some(m) => Some(if floors[n - 1].level > m { floors[n - 1].level } else { m }),
        }
    }
}

/// Daily upkeep of one elevator: 2,000 plus 100 for every five levels of the
/// tower's height (counted from the highest floor, and at least one level),
/// that is 20 per level, in exact integer arithmetic.  A computation of the
/// same rate in `f64` (`height / 5.0 * 100.0`, truncated) can come out one
/// lower: with the top floor at level 41 it charges 2,819 where this charges
/// 2,820.
pub open spec fn elevator_upkeep(floors: Seq<Floor>) -> int {
    let top = match top_level_upto(floors, floors.len()) {
        None => 0,
        Some(m) => m as int,
    };
    let reach = if top < 1 { 1 } else { top };
    2_000 + 20 * reach
}

/// Whether an event of kind `k` is among the first `n` events.
pub open spec fn has_event_upto(events: Seq<Event>, k: EventKind, n: nat) -> bool
    decreases n,
{
    if n == 0 {
        false
    } else {
        has_event_upto(events, k, (n - 1) as nat) || events[n - 1].name == k
    }
}

/// Whether an event of kind `k` is in progress.
pub open spec fn has_event(events: Seq<Event>, k: EventKind) -> bool {
    has_event_upto(events, k, events.len())
}

/// The daily maintenance bill: upkeep of every floor and elevator, doubled
/// while a fire burns, plus 5,000 for generators during a power outage.
pub open spec fn upkeep(floors: Seq<Floor>, n_elevators: nat, events: Seq<Event>) -> int {
    let base = floor_upkeep_upto(floors, floors.len()) + n_elevators * elevator_upkeep(floors);
    let with_fire = if has_event(events, EventKind::Fire) { 2 * base } else { base };
    if has_event(events, EventKind::PowerOutage) { with_fire + 5_000 } else { with_fire }
}

/// Floors after the nightly reset: nobody is left inside.
pub open spec fn emptied(floors: Seq<Floor>) -> Seq<Floor> {
    floors.map_values(|f: Floor| Floor { current_occupants: 0, ..f })
}

/// Partial sums of floor incomes never decrease and never pass the whole.
pub proof fn lemma_income_partial(floors: Seq<Floor>, k: nat, n: nat)
    requires
        k <= n <= floors.len(),
    ensures
        0 <= income_upto(floors, k) <= income_upto(floors, n),
    decreases n,
{
    if n > 0 {
        if k < n {
            lemma_income_partial(floors, k, (n - 1) as nat);
        } else {
            lemma_income_partial(floors, (n - 1) as nat, (n - 1) as nat);
        }
        let f = floors[n - 1];
        if f.current_occupants > 0 {
            let sat = if f.satisfaction > 100 { 100 } else { f.satisfaction as int };
            assert((f.current_occupants * spec_income_per_person(f.floor_type)) * (50 + sat) >= 0) by (nonlinear_arith)
                requires spec_income_per_person(f.floor_type) >= 0, sat >= 0;
        }
    }
}

/// Partial sums of floor upkeep never decrease and never pass the whole.
pub proof fn lemma_upkeep_partial(floors: Seq<Floor>, k: nat, n: nat)
    requires
        k <= n <= floors.len(),
    ensures
        0 <= floor_upkeep_upto(floors, k) <= floor_upkeep_upto(floors, n),
    decreases n,
{
    if n > 0 {
        if k < n {
            lemma_upkeep_partial(floors, k, (n - 1) as nat);
        } else {
            lemma_upkeep_partial(floors, (n - 1) as nat, (n - 1) as nat);
        }
        let f = floors[n - 1];
        assert(crate::floor_type::maintenance_base(f.floor_type) * (30 + crate::floor_type::height(f.level)) >= 0) by (nonlinear_arith)
            requires crate::floor_type::maintenance_base(f.floor_type) > 0, crate::floor_type::height(f.level) >= 0;
    }
}

/// What the floors earn at a collection.
pub fn collect_income(floors: &Vec<Floor>) -> (total: i64)
    requires
        income(floors@) <= i64::MAX,
    ensures
        total == income(floors@),
{
    let n = floors.len();
    let mut total: i64 = 0;
    for i in 0..n
        invariant
            n == floors.len(),
            total == income_upto(floors@, i as nat),
            income(floors@) <= i64::MAX,
    {
        let f = floors[i];
        if f.current_occupants > 0 {
            let per_person = f.floor_type.income_per_person();
            let sat: i64 = if f.satisfaction > 100 { 100 } else { f.satisfaction as i64 };
            assert(0 <= f.current_occupants as i64 * per_person <= 0x1_0000_0000 * 200
                && 0 <= (f.current_occupants as i64 * per_person) * (50 + sat) <= 0x1_0000_0000 * 200 * 150) by (nonlinear_arith)
                requires 0 <= f.current_occupants < 0x1_0000_0000, 0 <= per_person <= 200, 0 <= sat <= 100;
            let earned = (f.current_occupants as i64 * per_person) * (50 + sat) / 100;
            proof {
                lemma_income_partial(floors@, (i + 1) as nat, n as nat);
            }
            total = total + earned;
        }
    }
    total
}

/// The daily maintenance bill of the tower, as a wide integer.
pub fn upkeep_total(floors: &Vec<Floor>, n_elevators: usize, events: &Vec<Event>) -> (bill: i128)
    ensures
        bill == upkeep(floors@, n_elevators as nat, events@),
{
    let n = floors.len();
    let mut floor_part: i128 = 0;
    let mut top: Option<i32> = None;
    for i in 0..n
        invariant
            n == floors.len(),
            floor_part == floor_upkeep_upto(floors@, i as nat),
            0 <= floor_part <= i * 500_000_000_000,
            top == top_level_upto(floors@, i as nat),
    {
        let f = floors[i];
        let cost = f.floor_type.daily_maintenance(f.level);
        proof {
            let b = crate::floor_type::maintenance_base(f.floor_type);
            let h = crate::floor_type::height(f.level);
            assert(0 <= b * (30 + h) <= 6000 * (30 + 0x8000_0000)) by (nonlinear_arith)
                requires 0 < b <= 6000, 0 <= h < 0x8000_0000;
        }
        floor_part = floor_part + cost as i128;
        top = match top {
            None => Some(f.level),
            Some(m) => Some(if f.level > m { f.level } else { m }),
        };
    }
    let top_level: i128 = match top {
        None => 0,
        Some(m) => m as i128,
    };
    let reach: i128 = if top_level < 1 { 1 } else { top_level };
    let per_elevator: i128 = 2_000 + 20 * reach;
    assert(0 <= floor_part + n_elevators * per_elevator <= 0x1_0000_0000_0000_0000 * 600_000_000_000) by (nonlinear_arith)
        requires
            0 <= floor_part <= n * 500_000_000_000,
            n <= usize::MAX,
            0 <= per_elevator <= 50_000_000_000,
            n_elevators <= usize::MAX,
    ;
    let base: i128 = floor_part + n_elevators as i128 * per_elevator;
    let fire = any_event(events, EventKind::Fire);
    let outage = any_event(events, EventKind::PowerOutage);
    let with_fire: i128 = if fire { 2 * base } else { base };
    if outage { with_fire + 5_000 } else { with_fire }
}

/// The daily maintenance bill of the tower.
pub fn maintenance_bill(floors: &Vec<Floor>, n_elevators: usize, events: &Vec<Event>) -> (bill: i64)
    requires
        upkeep(floors@, n_elevators as nat, events@) <= i64::MAX,
    ensures
        bill == upkeep(floors@, n_elevators as nat, events@),
{
    proof {
        lemma_upkeep_nonnegative(floors@, n_elevators as nat, events@);
    }
    upkeep_total(floors, n_elevators, events) as i64
}

/// The most the floors can earn at a collection, as a wide integer.
pub fn income_cap_total(floors: &Vec<Floor>) -> (cap: i128)
    ensures
        cap == income_cap(floors@),
{
    let n = floors.len();
    let mut total: i128 = 0;
    for i in 0..n
        invariant
            n == floors.len(),
            total == income_cap_upto(floors@, i as nat),
            0 <= total <= i * 2_000_000_000_000,
    {
        let f = floors[i];
        let per_person = f.floor_type.income_per_person();
        let sat: i128 = if f.satisfaction > 100 { 100 } else { f.satisfaction as i128 };
        let earned: i128 = if f.capacity > 0 {
            assert(0 <= f.capacity as i128 * per_person as i128 <= 0x1_0000_0000 * 200
                && 0 <= (f.capacity as i128 * per_person as i128) * (50 + sat) <= 0x1_0000_0000 * 200 * 150) by (nonlinear_arith)
                requires 0 <= f.capacity < 0x1_0000_0000, 0 <= per_person <= 200, 0 <= sat <= 100;
            (f.capacity as i128 * per_person as i128) * (50 + sat) / 100
        } else {
            0
        };
        total = total + earned;
    }
    total
}

/// Whether an event of kind `k` is in progress.
pub fn any_event(events: &Vec<Event>, k: EventKind) -> (b: bool)
    ensures
        b == has_event(events@, k),
{
    let n = events.len();
    let mut found = false;
    for i in 0..n
        invariant
            n == events.len(),
            found == has_event_upto(events@, k, i as nat),
    {
        found = found || events[i].name == k;
    }
    found
}

/// Empties every floor.
pub fn empty_floors(floors: &mut Vec<Floor>)
    ensures
        final(floors)@ == emptied(old(floors)@),
{
    let n = floors.len();
    let ghost f0 = floors@;
    for i in 0..n
        invariant
            n == floors.len(),
            f0.len() == n,
            forall|k: int| 0 <= k < i ==> #[trigger] floors@[k] == (Floor { current_occupants: 0, ..f0[k] }),
            forall|k: int| i <= k < n ==> #[trigger] floors@[k] == f0[k],
    {
        let mut f = floors[i];
        f.current_occupants = 0;
        floors.set(i, f);
    }
    assert(floors@ =~= emptied(f0));
}

/// A floor earns no more than it would full.
pub proof fn lemma_floor_income_cap(f: Floor, g: Floor)
    requires
        g.floor_type == f.floor_type,
        g.capacity == f.capacity,
        g.satisfaction == f.satisfaction,
        g.current_occupants <= g.capacity,
    ensures
        0 <= floor_income(g) <= floor_income_cap(f),
{
    let sat = if f.satisfaction > 100 { 100 } else { f.satisfaction as int };
    let pp = spec_income_per_person(f.floor_type);
    if g.current_occupants > 0 {
        assert(0 <= (g.current_occupants * pp) * (50 + sat) <= (f.capacity * pp) * (50 + sat)) by (nonlinear_arith)
            requires 0 <= g.current_occupants <= f.capacity, pp >= 0, sat >= 0;
        vstd::arithmetic::div_mod::lemma_div_is_ordered((g.current_occupants * pp) * (50 + sat), (f.capacity * pp) * (50 + sat), 100);
        vstd::arithmetic::div_mod::lemma_div_pos_is_pos((g.current_occupants * pp) * (50 + sat), 100);
    } else if f.capacity > 0 {
        assert(0 <= (f.capacity * pp) * (50 + sat)) by (nonlinear_arith)
            requires 0 <= f.capacity, pp >= 0, sat >= 0;
        vstd::arithmetic::div_mod::lemma_div_pos_is_pos((f.capacity * pp) * (50 + sat), 100);
    }
}

/// However full its floors are, the tower earns no more than when they are all full.
pub proof fn lemma_income_within_cap(a: Seq<Floor>, b: Seq<Floor>, n: nat)
    requires
        same_floor_plan(a, b),
        occupancy_ok(b),
        n <= a.len(),
    ensures
        0 <= income_upto(b, n) <= income_cap_upto(a, n),
    decreases n,
{
    if n > 0 {
        lemma_income_within_cap(a, b, (n - 1) as nat);
        lemma_floor_income_cap(a[n - 1], b[n - 1]);
    }
}

/// The maintenance bill depends on the floor plan only, not on who is inside.
pub proof fn lemma_upkeep_same_plan(a: Seq<Floor>, b: Seq<Floor>, n: nat)
    requires
        same_floor_plan(a, b),
        n <= a.len(),
    ensures
        floor_upkeep_upto(a, n) == floor_upkeep_upto(b, n),
        top_level_upto(a, n) == top_level_upto(b, n),
    decreases n,
{
    if n > 0 {
        lemma_upkeep_same_plan(a, b, (n - 1) as nat);
    }
}

/// The maintenance bill is never negative.
pub proof fn lemma_upkeep_nonnegative(floors: Seq<Floor>, ne: nat, events: Seq<Event>)
    ensures
        upkeep(floors, ne, events) >= 0,
{
    lemma_upkeep_partial(floors, floors.len(), floors.len());
    assert(ne * elevator_upkeep(floors) >= 0) by (nonlinear_arith)
        requires elevator_upkeep(floors) >= 0;
}

/// The most the floors can earn lies between 0 and 2·10^12 per floor.
pub proof fn lemma_income_cap_bounds(floors: Seq<Floor>, n: nat)
    requires
        n <= floors.len(),
    ensures
        0 <= income_cap_upto(floors, n) <= n * 2_000_000_000_000,
    decreases n,
{
    if n > 0 {
        lemma_income_cap_bounds(floors, (n - 1) as nat);
        let f = floors[n - 1];
        let sat = if f.satisfaction > 100 { 100 } else { f.satisfaction as int };
        let pp = spec_income_per_person(f.floor_type);
        if f.capacity > 0 {
            assert(0 <= (f.capacity * pp) * (50 + sat) <= 0x1_0000_0000 * 200 * 150) by (nonlinear_arith)
                requires 0 <= f.capacity < 0x1_0000_0000, 0 <= pp <= 200, 0 <= sat <= 100;
        }
    }
}

/// The maintenance bill lies within reach of a wide integer.
pub proof fn lemma_upkeep_bound(floors: Seq<Floor>, ne: nat, events: Seq<Event>)
    requires
        floors.len() <= usize::MAX,
        ne <= usize::MAX,
    ensures
        upkeep(floors, ne, events) <= 0x1_0000_0000_0000_0000 * 1_300_000_000_000,
{
    lemma_floor_upkeep_bound(floors, floors.len());
    lemma_top_level_bound(floors, floors.len());
    let per = elevator_upkeep(floors);
    assert(0 <= floor_upkeep_upto(floors, floors.len()) + ne * per <= 0x1_0000_0000_0000_0000 * 600_000_000_000) by (nonlinear_arith)
        requires
            0 <= floor_upkeep_upto(floors, floors.len()) <= floors.len() * 500_000_000_000,
            floors.len() <= usize::MAX,
            0 <= per <= 50_000_000_000,
            ne <= usize::MAX,
    ;
}

/// Each floor's upkeep lies between 0 and 5·10^11.
pub proof fn lemma_floor_upkeep_bound(floors: Seq<Floor>, n: nat)
    requires
        n <= floors.len(),
    ensures
        0 <= floor_upkeep_upto(floors, n) <= n * 500_000_000_000,
    decreases n,
{
    if n > 0 {
        lemma_floor_upkeep_bound(floors, (n - 1) as nat);
        let f = floors[n - 1];
        let b = crate::floor_type::maintenance_base(f.floor_type);
        let h = crate::floor_type::height(f.level);
        assert(0 <= b * (30 + h) <= 6000 * (30 + 0x8000_0000)) by (nonlinear_arith)
            requires 0 < b <= 6000, 0 <= h < 0x8000_0000;
    }
}

/// The highest level is an `i32`, so an elevator's upkeep stays below 5·10^10.
pub proof fn lemma_top_level_bound(floors: Seq<Floor>, n: nat)
    requires
        n <= floors.len(),
    ensures
        0 <= elevator_upkeep(floors) <= 50_000_000_000,
{
}

} // verus!

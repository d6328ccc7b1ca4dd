use vstd::prelude::*;

verus! {

/// The kinds of floor that can be built in a tower.
#[derive(Debug, Clone, Copy, PartialEq, Eq, Structural)]
pub enum FloorType {
    Office,
    Hotel,
    Restaurant,
    Retail,
    Residential,
    Lobby,
    Observatory,
}

/// Construction cost of a floor of this type at ground level.
pub open spec fn build_base(t: FloorType) -> int {
    match t {
        FloorType::Office => 60_000,
        FloorType::Hotel => 100_000,
        FloorType::Restaurant => 40_000,
        FloorType::Retail => 35_000,
        FloorType::Residential => 50_000,
        FloorType::Lobby => 10_000,
        FloorType::Observatory => 120_000,
    }
}

/// Daily upkeep of a floor of this type at ground level.
pub open spec fn maintenance_base(t: FloorType) -> int {
    match t {
        FloorType::Office => 4_000,
        FloorType::Hotel => 6_000,
        FloorType::Restaurant => 3_000,
        FloorType::Retail => 2_500,
        FloorType::Residential => 3_000,
        FloorType::Lobby => 1_500,
        FloorType::Observatory => 5_000,
    }
}

/// Income that one occupant of a floor of this type brings per collection.
pub open spec fn spec_income_per_person(t: FloorType) -> int {
    match t {
        FloorType::Office => 120,
        FloorType::Hotel => 200,
        FloorType::Restaurant => 80,
        FloorType::Retail => 60,
        FloorType::Residential => 180,
        FloorType::Lobby => 0,
        FloorType::Observatory => 100,
    }
}

/// How many occupants a floor of this type holds.
pub open spec fn spec_capacity(t: FloorType) -> int {
    match t {
        FloorType::Office => 100,
        FloorType::Hotel => 80,
        FloorType::Restaurant => 50,
        FloorType::Retail => 60,
        FloorType::Residential => 40,
        FloorType::Lobby => 200,
        FloorType::Observatory => 30,
    }
}

/// The height that the cost formulas count: negative levels count as ground level.
pub open spec fn height(level: i32) -> int {
    if level < 0 { 0 } else { level as int }
}

/// Construction cost: `base * (1 + height / 20)`, rounded down to whole money.
pub open spec fn spec_build_cost(t: FloorType, level: i32) -> int {
    build_base(t) * (20 + height(level)) / 20
}

/// Daily upkeep: `base * (1 + height / 30)`, rounded down to whole money.
pub open spec fn spec_daily_maintenance(t: FloorType, level: i32) -> int {
    maintenance_base(t) * (30 + height(level)) / 30
}

impl FloorType {
    /// Cost of building a floor of this type at `level`; higher floors cost more.
    ///
    /// The cost is `base * (1 + height / 20)` in exact integer arithmetic,
    /// rounded down once.  A computation of the same formula in `f64`
    /// (multiplying by the rounded factor `1.0 + height / 20.0` and truncating)
    /// can come out one lower: a hotel at level 3 costs 115,000 here where
    /// that computation gives 114,999.
    pub fn build_cost(&self, level: i32) -> (cost: i64)
        ensures
            cost == spec_build_cost(*self, level),
    {
        let base: i64 = match self {
            FloorType::Office => 60_000,
            FloorType::Hotel => 100_000,
            FloorType::Restaurant => 40_000,
            FloorType::Retail => 35_000,
            FloorType::Residential => 50_000,
            FloorType::Lobby => 10_000,
            FloorType::Observatory => 120_000,
        };
        let h: i64 = if level < 0 { 0 } else { level as i64 };
        assert(0 <= base * (20 + h) <= 120_000 * (20 + 0x8000_0000)) by (nonlinear_arith)
            requires
                0 <= base <= 120_000,
                0 <= h < 0x8000_0000,
        ;
        (base * (20 + h)) / 20
    }

    /// Daily upkeep of a floor of this type at `level`; higher floors cost more to keep.
    ///
    /// The upkeep is `base * (1 + height / 30)` in exact integer arithmetic,
    /// rounded down once; a computation of the same formula in `f64` can come
    /// out one lower at some levels.
    pub fn daily_maintenance(&self, level: i32) -> (cost: i64)
        ensures
            cost == spec_daily_maintenance(*self, level),
    {
        let base: i64 = match self {
            FloorType::Office => 4_000,
            FloorType::Hotel => 6_000,
            FloorType::Restaurant => 3_000,
            FloorType::Retail => 2_500,
            FloorType::Residential => 3_000,
            FloorType::Lobby => 1_500,
            FloorType::Observatory => 5_000,
        };
        let h: i64 = if level < 0 { 0 } else { level as i64 };
        assert(0 <= base * (30 + h) <= 6_000 * (30 + 0x8000_0000)) by (nonlinear_arith)
            requires
                0 <= base <= 6_000,
                0 <= h < 0x8000_0000,
        ;
        (base * (30 + h)) / 30
    }

    /// Income per occupant of a floor of this type, per collection.
    pub fn income_per_person(&self) -> (income: i64)
        ensures
            income == spec_income_per_person(*self),
    {
        match self {
            FloorType::Office => 120,
            FloorType::Hotel => 200,
            FloorType::Restaurant => 80,
            FloorType::Retail => 60,
            FloorType::Residential => 180,
            FloorType::Lobby => 0,
            FloorType::Observatory => 100,
        }
    }

    /// Number of occupants a floor of this type holds.
    pub fn capacity(&self) -> (cap: u32)
        ensures
            cap == spec_capacity(*self),
    {
        match self {
            FloorType::Office => 100,
            FloorType::Hotel => 80,
            FloorType::Restaurant => 50,
            FloorType::Retail => 60,
            FloorType::Residential => 40,
            FloorType::Lobby => 200,
            FloorType::Observatory => 30,
        }
    }
}

/// Building higher never costs less, and above ground every level up costs strictly more.
pub proof fn lemma_build_cost_grows_with_height(t: FloorType, low: i32, high: i32)
    requires
        low <= high,
    ensures
        spec_build_cost(t, low) <= spec_build_cost(t, high),
        0 <= low < high ==> spec_build_cost(t, low) < spec_build_cost(t, high),
{
    let b = build_base(t) / 20;
    assert(build_base(t) == 20 * b);
    assert(spec_build_cost(t, low) == b * (20 + height(low))) by (nonlinear_arith)
        requires build_base(t) == 20 * b, spec_build_cost(t, low) == build_base(t) * (20 + height(low)) / 20;
    assert(spec_build_cost(t, high) == b * (20 + height(high))) by (nonlinear_arith)
        requires build_base(t) == 20 * b, spec_build_cost(t, high) == build_base(t) * (20 + height(high)) / 20;
    assert(b * (20 + height(low)) <= b * (20 + height(high))) by (nonlinear_arith)
        requires b > 0, height(low) <= height(high);
    if 0 <= low < high {
        assert(b * (20 + height(low)) < b * (20 + height(high))) by (nonlinear_arith)
            requires b > 0, height(low) < height(high);
    }
}

/// Upkeep never falls as a floor stands higher.
pub proof fn lemma_maintenance_grows_with_height(t: FloorType, low: i32, high: i32)
    requires
        low <= high,
    ensures
        spec_daily_maintenance(t, low) <= spec_daily_maintenance(t, high),
{
    let b = maintenance_base(t);
    assert(b * (30 + height(low)) <= b * (30 + height(high))) by (nonlinear_arith)
        requires b > 0, height(low) <= height(high);
    vstd::arithmetic::div_mod::lemma_div_is_ordered(b * (30 + height(low)), b * (30 + height(high)), 30);
}

} // verus!

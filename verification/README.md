# babelsim-core

A tower-building simulation in the spirit of SimTower, written in Verus: the
simulation logic is executable Rust whose behaviour is stated in `requires` /
`ensures` contracts and proved.

## Layout

- `src/floor_type.rs`: floor types, their construction and upkeep costs.
- `src/state.rs`: floors, elevators, people, events and the tower's state.
- `src/rng.rs`: the tower's linear congruential generator.
- `src/simulation.rs`: people boarding cars and cars moving, as spec functions
  and the code proved against them.
- `src/flow.rs`: lemmas on people and passengers that the traffic code keeps.
- `src/riders.rs`: every riding person is aboard a car.
- `src/progress.rs`: people only move forward from waiting to riding to arrived.
- `src/economy.rs`: rent collection and the maintenance bill.
- `src/events.rs`: fires, VIP visits, power outages and maintenance boosts.
- `src/tick.rs`: one simulated minute, and runs of minutes, as spec functions.
- `src/tower.rs`: the `Tower` API (`build_floor`, `add_elevator`,
  `spawn_person`, `tick`, `advance`, `advance_checked`, `metrics`), with its
  invariant as a type invariant.
- `src/laws.rs`: properties of the simulation as a whole.
- `src/report.rs`: people counted by state, and the verdict on a run.
- `src/text.rs`, `src/web.rs`: reading the requests of the web interface.
- `app/`: the program around the library: the HTTP server, the terminal run,
  JSON output, and the floating-point satisfaction score and profit rate.
- `tests/`: tests of the library.

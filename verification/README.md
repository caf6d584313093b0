# bus_system

A simulated bus network: buses drive fixed routes between locations, passengers
plan trips across routes (changing buses where needed), stations hand waiting
passengers to docked buses, and a clock keeper moves the simulation through the
stages of each tick.

- `src/` is the library, verified with Verus: the trip planner
  (`route_search.rs` and the planning functions in `lib.rs`), with the proof in
  `itinerary.rs` that it finds a plan whenever a trip exists and that the plan
  arrives no later than any trip, buses (`bus.rs`),
  stations (`station.rs`) and what they do in each stage of a tick
  (`station_cycle.rs`), the clock keeper's decisions (`main_loop.rs`), the
  input checks (`data.rs`), the messages (`thread.rs`) and their wording
  (`display.rs`). `outside.rs` holds the few calls into `uuid`, `rand` and std
  whose behaviour is taken on trust.
- `app/` is the program: it runs stations, buses and the clock keeper as threads
  connected by channels, reads and writes the input as JSON, and leaves every
  decision to the library.
- `tests/` exercises the library on concrete values.

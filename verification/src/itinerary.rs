//! Every trip a passenger could take on the routes, and the proof that the
//! search finds a plan whenever such a trip exists, arriving no later than it.
use vstd::prelude::*;
use crate::location::{Location, PassengerBusLocation};
use crate::passenger::PassengerOnboardingBusSchedule;
use crate::route_search::{
    arrival_entry, boards_between, bus_stops_at, is_journey, candidates_for_leg, candidates_over,
    destinations, is_destination_stop, lemma_shortest_index, route_destinations, route_has_stop,
    schedule_distance, search_schedule, shortest_index,
};

verus! {

/// A trip that can be made on the routes, written as a plan: the passenger
/// boards the first entry's bus at `initial` at the first entry's tick; each
/// entry's bus stops at the next entry's location at that entry's tick; at each
/// transfer, the tick is the arrival and the bus boarded there stops at that
/// location no earlier than the arrival and strictly before it reaches the next
/// stop; ticks never go back; the passenger arrives anywhere no earlier than
/// `current_time_tick` (only the first boarding may lie before it); and the
/// last entry is at `destination`.
pub open spec fn is_itinerary(
    routes: Seq<Seq<PassengerBusLocation>>,
    s: Seq<PassengerOnboardingBusSchedule>,
    initial: Location,
    destination: Location,
    current_time_tick: u32,
) -> bool {
    &&& s.len() >= 2
    &&& s[0].stop_location == initial
    &&& bus_stops_at(routes, s[0].bus_num, s[0].stop_location, s[0].time_tick)
    &&& s.last().stop_location == destination
    &&& current_time_tick <= s[1].time_tick
    &&& forall|i: int|
        #![trigger s[i]]
        0 <= i < s.len() - 1 ==> {
            &&& s[i].time_tick <= s[i + 1].time_tick
            &&& bus_stops_at(routes, s[i].bus_num, s[i + 1].stop_location, s[i + 1].time_tick)
        }
    &&& forall|i: int|
        #![trigger s[i]]
        1 <= i < s.len() - 1 ==> boards_between(
            routes,
            s[i].bus_num,
            s[i].stop_location,
            s[i].time_tick,
            s[i + 1].time_tick,
        )
}

/// Ticks along a plan whose consecutive ticks never go back never go back.
proof fn lemma_ticks_grow(s: Seq<PassengerOnboardingBusSchedule>, a: int, b: int)
    requires
        0 <= a <= b < s.len(),
        forall|i: int| #![trigger s[i]] 0 <= i < s.len() - 1 ==> s[i].time_tick <= s[i + 1].time_tick,
    ensures
        s[a].time_tick <= s[b].time_tick,
    decreases b - a,
{
    if a < b {
        lemma_ticks_grow(s, a, b - 1);
        assert(s[b - 1].time_tick <= s[b].time_tick);
    }
}

/// A destination stop of route `bus` is listed among the first `j` stops' destinations.
proof fn lemma_route_destinations_complete(
    route: Seq<PassengerBusLocation>,
    bus: usize,
    destination: Location,
    destination_time_tick: Option<u32>,
    current_time_tick: u32,
    next_bus_index: Option<usize>,
    p: int,
    j: int,
)
    requires
        0 <= p < j <= route.len(),
        is_destination_stop(route[p], bus, destination, destination_time_tick, current_time_tick, next_bus_index),
    ensures
        route_destinations(route, bus, destination, destination_time_tick, current_time_tick, next_bus_index, j)
            .contains((bus, route[p])),
    decreases j,
{
    let d = route_destinations(route, bus, destination, destination_time_tick, current_time_tick, next_bus_index, j);
    let prev = route_destinations(route, bus, destination, destination_time_tick, current_time_tick, next_bus_index, j - 1);
    if p == j - 1 {
        assert(d == prev.push((bus, route[p])));
        assert(d[prev.len() as int] == (bus, route[p]));
    } else {
        lemma_route_destinations_complete(route, bus, destination, destination_time_tick, current_time_tick, next_bus_index, p, j - 1);
        let k = choose|k: int| 0 <= k < prev.len() && prev[k] == (bus, route[p]);
        assert(d[k] == prev[k]);
    }
}

/// A destination stop of any of the first `i` routes is listed among their destinations.
proof fn lemma_destinations_complete(
    routes: Seq<Seq<PassengerBusLocation>>,
    destination: Location,
    destination_time_tick: Option<u32>,
    current_time_tick: u32,
    next_bus_index: Option<usize>,
    bus: usize,
    p: int,
    i: int,
)
    requires
        bus < i <= routes.len(),
        0 <= p < routes[bus as int].len(),
        is_destination_stop(
            routes[bus as int][p],
            bus,
            destination,
            destination_time_tick,
            current_time_tick,
            next_bus_index,
        ),
    ensures
        destinations(routes, destination, destination_time_tick, current_time_tick, next_bus_index, i)
            .contains((bus, routes[bus as int][p])),
    decreases i,
{
    let prev = destinations(routes, destination, destination_time_tick, current_time_tick, next_bus_index, i - 1);
    let rd = route_destinations(
        routes[i - 1],
        (i - 1) as usize,
        destination,
        destination_time_tick,
        current_time_tick,
        next_bus_index,
        routes[i - 1].len() as int,
    );
    let d = destinations(routes, destination, destination_time_tick, current_time_tick, next_bus_index, i);
    assert(d == prev + rd);
    if bus == i - 1 {
        lemma_route_destinations_complete(
            routes[i - 1],
            (i - 1) as usize,
            destination,
            destination_time_tick,
            current_time_tick,
            next_bus_index,
            p,
            routes[i - 1].len() as int,
        );
        let k = choose|k: int| 0 <= k < rd.len() && rd[k] == (bus, routes[bus as int][p]);
        assert(d[prev.len() + k] == rd[k]);
    } else {
        lemma_destinations_complete(routes, destination, destination_time_tick, current_time_tick, next_bus_index, bus, p, i - 1);
        let k = choose|k: int| 0 <= k < prev.len() && prev[k] == (bus, routes[bus as int][p]);
        assert(d[k] == prev[k]);
    }
}

/// Scanning more stops of a leg never loses candidates, and every candidate of
/// a leg arrives at the leg's stop.
proof fn lemma_leg_grows(
    routes: Seq<Seq<PassengerBusLocation>>,
    initial: Location,
    destination_time_tick: Option<u32>,
    current_time_tick: u32,
    visited: Seq<Location>,
    next_bus_index: Option<usize>,
    bus: usize,
    dloc: PassengerBusLocation,
    k: int,
    j: int,
)
    requires
        0 <= k <= j,
    ensures
        candidates_for_leg(routes, initial, destination_time_tick, current_time_tick, visited, next_bus_index, bus, dloc, k).len()
            <= candidates_for_leg(routes, initial, destination_time_tick, current_time_tick, visited, next_bus_index, bus, dloc, j).len()
            || j > routes[bus as int].len() || bus >= routes.len(),
        forall|m: int|
            0 <= m < candidates_for_leg(routes, initial, destination_time_tick, current_time_tick, visited, next_bus_index, bus, dloc, j).len()
                ==> schedule_distance(
                #[trigger] candidates_for_leg(routes, initial, destination_time_tick, current_time_tick, visited, next_bus_index, bus, dloc, j)[m],
            ) == dloc.location_time_tick,
    decreases j,
{
    if j > 0 && bus < routes.len() && j <= routes[bus as int].len() {
        lemma_leg_grows(routes, initial, destination_time_tick, current_time_tick, visited, next_bus_index, bus, dloc, if k < j { k } else { j - 1 }, j - 1);
        let prev = candidates_for_leg(routes, initial, destination_time_tick, current_time_tick, visited, next_bus_index, bus, dloc, j - 1);
        let c = candidates_for_leg(routes, initial, destination_time_tick, current_time_tick, visited, next_bus_index, bus, dloc, j);
        let arrival = arrival_entry(dloc, next_bus_index);
        let bl = routes[bus as int][j - 1];
        if bl.location_time_tick <= dloc.location_time_tick && (destination_time_tick is None
            || destination_time_tick->0 >= current_time_tick) && bl.location == initial {
            let boarding = PassengerOnboardingBusSchedule {
                time_tick: bl.location_time_tick,
                bus_num: Some(bus),
                stop_location: bl.location,
            };
            let x = seq![boarding, arrival];
            assert(c == prev.push(x) && x.last() == arrival);
        } else if bl.location_time_tick < dloc.location_time_tick && !visited.contains(bl.location) {
            match search_schedule(
                routes,
                initial,
                bl.location,
                Some(bl.location_time_tick),
                current_time_tick,
                visited,
                Some(bus),
            ) {
                Some(r) => {
                    let x = r.push(arrival);
                    assert(c == prev.push(x) && x.last() == arrival);
                },
                None => {
                    assert(c == prev);
                },
            }
        } else {
            assert(c == prev);
        }
        assert(c == prev || exists|x: Seq<PassengerOnboardingBusSchedule>| c == prev.push(x) && x.last() == arrival);
        assert forall|m: int| 0 <= m < c.len() implies schedule_distance(#[trigger] c[m]) == dloc.location_time_tick by {
            if c != prev {
                let x = choose|x: Seq<PassengerOnboardingBusSchedule>| c == prev.push(x) && x.last() == arrival;
                if m < prev.len() {
                    assert(c[m] == prev[m]);
                } else {
                    assert(c[m] == x);
                }
            }
        }
    }
}

/// Some candidate over the first `kk` destination stops arrives at the stop of
/// destination `k`, when that stop's leg has a candidate.
proof fn lemma_over_contains_leg(
    routes: Seq<Seq<PassengerBusLocation>>,
    initial: Location,
    destination: Location,
    destination_time_tick: Option<u32>,
    current_time_tick: u32,
    visited: Seq<Location>,
    next_bus_index: Option<usize>,
    dests: Seq<(usize, PassengerBusLocation)>,
    k: int,
    kk: int,
)
    requires
        0 <= k < kk <= dests.len(),
        candidates_for_leg(
            routes,
            initial,
            destination_time_tick,
            current_time_tick,
            visited.push(destination),
            next_bus_index,
            dests[k].0,
            dests[k].1,
            routes[dests[k].0 as int].len() as int,
        ).len() > 0,
    ensures
        exists|m: int|
            0 <= m < candidates_over(
                routes,
                initial,
                destination,
                destination_time_tick,
                current_time_tick,
                visited,
                next_bus_index,
                dests,
                kk,
            ).len() && schedule_distance(
                #[trigger] candidates_over(
                    routes,
                    initial,
                    destination,
                    destination_time_tick,
                    current_time_tick,
                    visited,
                    next_bus_index,
                    dests,
                    kk,
                )[m],
            ) == dests[k].1.location_time_tick,
    decreases kk,
{
    let over = candidates_over(routes, initial, destination, destination_time_tick, current_time_tick, visited, next_bus_index, dests, kk);
    let prev = candidates_over(routes, initial, destination, destination_time_tick, current_time_tick, visited, next_bus_index, dests, kk - 1);
    let bus = dests[kk - 1].0;
    let dloc = dests[kk - 1].1;
    let leg = candidates_for_leg(
        routes,
        initial,
        destination_time_tick,
        current_time_tick,
        visited.push(destination),
        next_bus_index,
        bus,
        dloc,
        routes[bus as int].len() as int,
    );
    assert(over == prev + leg);
    if k == kk - 1 {
        lemma_leg_grows(
            routes,
            initial,
            destination_time_tick,
            current_time_tick,
            visited.push(destination),
            next_bus_index,
            bus,
            dloc,
            0,
            routes[bus as int].len() as int,
        );
        assert(over[prev.len() as int] == leg[0]);
        assert(schedule_distance(leg[0]) == dloc.location_time_tick);
        assert(schedule_distance(over[prev.len() as int]) == dests[k].1.location_time_tick);
    } else {
        lemma_over_contains_leg(routes, initial, destination, destination_time_tick, current_time_tick, visited, next_bus_index, dests, k, kk - 1);
        let m = choose|m: int| 0 <= m < prev.len() && schedule_distance(#[trigger] prev[m]) == dests[k].1.location_time_tick;
        assert(over[m] == prev[m]);
    }
}

/// When the stop `routes[bus][p]` is a destination stop and the leg to it has
/// a candidate among its first `q + 1` stops, the search finds a plan arriving
/// no later than that stop.
proof fn lemma_leg_found(
    routes: Seq<Seq<PassengerBusLocation>>,
    initial: Location,
    destination: Location,
    destination_time_tick: Option<u32>,
    current_time_tick: u32,
    visited: Seq<Location>,
    next_bus_index: Option<usize>,
    bus: usize,
    p: int,
    q: int,
)
    requires
        bus < routes.len(),
        0 <= p < routes[bus as int].len(),
        0 <= q < routes[bus as int].len(),
        is_destination_stop(
            routes[bus as int][p],
            bus,
            destination,
            destination_time_tick,
            current_time_tick,
            next_bus_index,
        ),
        candidates_for_leg(
            routes,
            initial,
            destination_time_tick,
            current_time_tick,
            visited.push(destination),
            next_bus_index,
            bus,
            routes[bus as int][p],
            q + 1,
        ).len() > 0,
    ensures
        search_schedule(
            routes,
            initial,
            destination,
            destination_time_tick,
            current_time_tick,
            visited,
            next_bus_index,
        ) matches Some(s) && schedule_distance(s) <= routes[bus as int][p].location_time_tick,
{
    let dloc = routes[bus as int][p];
    lemma_leg_grows(
        routes,
        initial,
        destination_time_tick,
        current_time_tick,
        visited.push(destination),
        next_bus_index,
        bus,
        dloc,
        q + 1,
        routes[bus as int].len() as int,
    );
    lemma_destinations_complete(
        routes,
        destination,
        destination_time_tick,
        current_time_tick,
        next_bus_index,
        bus,
        p,
        routes.len() as int,
    );
    let dests = destinations(
        routes,
        destination,
        destination_time_tick,
        current_time_tick,
        next_bus_index,
        routes.len() as int,
    );
    let k = choose|k: int| 0 <= k < dests.len() && dests[k] == (bus, dloc);
    lemma_over_contains_leg(
        routes,
        initial,
        destination,
        destination_time_tick,
        current_time_tick,
        visited,
        next_bus_index,
        dests,
        k,
        dests.len() as int,
    );
    let cands = candidates_over(
        routes,
        initial,
        destination,
        destination_time_tick,
        current_time_tick,
        visited,
        next_bus_index,
        dests,
        dests.len() as int,
    );
    let m = choose|m: int| 0 <= m < cands.len() && schedule_distance(#[trigger] cands[m]) == dloc.location_time_tick;
    lemma_shortest_index(cands, cands.len() as int);
    assert(schedule_distance(cands[shortest_index(cands, cands.len() as int)]) <= schedule_distance(cands[m]));
}

/// A leg's scan yields a candidate at stop `q` when that stop is the start.
proof fn lemma_fires_at_start(
    routes: Seq<Seq<PassengerBusLocation>>,
    initial: Location,
    destination_time_tick: Option<u32>,
    current_time_tick: u32,
    visited: Seq<Location>,
    next_bus_index: Option<usize>,
    bus: usize,
    dloc: PassengerBusLocation,
    q: int,
)
    requires
        bus < routes.len(),
        0 <= q < routes[bus as int].len(),
        routes[bus as int][q].location == initial,
        routes[bus as int][q].location_time_tick <= dloc.location_time_tick,
        destination_time_tick is None || destination_time_tick->0 >= current_time_tick,
    ensures
        candidates_for_leg(routes, initial, destination_time_tick, current_time_tick, visited, next_bus_index, bus, dloc, q + 1)
            .len() > 0,
{
}

/// A leg's scan yields a candidate at stop `q` when the search reaches that
/// stop's location in time.
proof fn lemma_fires_by_search(
    routes: Seq<Seq<PassengerBusLocation>>,
    initial: Location,
    destination_time_tick: Option<u32>,
    current_time_tick: u32,
    visited: Seq<Location>,
    next_bus_index: Option<usize>,
    bus: usize,
    dloc: PassengerBusLocation,
    q: int,
)
    requires
        bus < routes.len(),
        0 <= q < routes[bus as int].len(),
        routes[bus as int][q].location != initial,
        routes[bus as int][q].location_time_tick < dloc.location_time_tick,
        !visited.contains(routes[bus as int][q].location),
        search_schedule(
            routes,
            initial,
            routes[bus as int][q].location,
            Some(routes[bus as int][q].location_time_tick),
            current_time_tick,
            visited,
            Some(bus),
        ) is Some,
    ensures
        candidates_for_leg(routes, initial, destination_time_tick, current_time_tick, visited, next_bus_index, bus, dloc, q + 1)
            .len() > 0,
{
}

/// Whether `c` passes no location twice, never returns to the start, avoids
/// `visited`, and never stays on the same bus across a transfer.
pub open spec fn is_simple(
    c: Seq<PassengerOnboardingBusSchedule>,
    initial: Location,
    visited: Seq<Location>,
) -> bool {
    &&& forall|p: int| 1 <= p < c.len() ==> (#[trigger] c[p]).stop_location != initial
    &&& forall|p: int, q: int| 1 <= p < q < c.len() ==> (#[trigger] c[p]).stop_location != (#[trigger] c[q]).stop_location
    &&& forall|p: int| 1 <= p < c.len() ==> !visited.contains((#[trigger] c[p]).stop_location)
    &&& forall|i: int| 1 <= i < c.len() - 1 ==> c[i - 1].bus_num != (#[trigger] c[i]).bus_num
}

/// Dropping the last stop of a simple trip of three or more stops leaves a
/// simple trip to the stop before, which also avoids the dropped destination.
#[verifier::rlimit(40)]
#[verifier::spinoff_prover]
proof fn lemma_prefix_simple(
    routes: Seq<Seq<PassengerBusLocation>>,
    c: Seq<PassengerOnboardingBusSchedule>,
    initial: Location,
    current_time_tick: u32,
    visited: Seq<Location>,
)
    requires
        c.len() >= 3,
        is_itinerary(routes, c, initial, c.last().stop_location, current_time_tick),
        is_simple(c, initial, visited),
    ensures
        is_itinerary(routes, c.subrange(0, c.len() - 1), initial, c[c.len() - 2].stop_location, current_time_tick),
        is_simple(c.subrange(0, c.len() - 1), initial, visited.push(c.last().stop_location)),
        c.subrange(0, c.len() - 1).last() == c[c.len() - 2],
        c.subrange(0, c.len() - 1)[c.len() - 3] == c[c.len() - 3],
        !visited.push(c.last().stop_location).contains(c[c.len() - 2].stop_location),
{
    let n = c.len() as int;
    let rest = c.subrange(0, n - 1);
    let dv = visited.push(c.last().stop_location);
    assert forall|x: Location| #[trigger] dv.contains(x) implies visited.contains(x) || x == c.last().stop_location by {
        let m = choose|m: int| 0 <= m < dv.len() && dv[m] == x;
        if m < visited.len() {
            assert(visited[m] == x);
        }
    }
    assert(c[n - 2].stop_location != c[n - 1].stop_location);
    assert(!visited.contains(c[n - 2].stop_location));
    assert forall|k: int| 1 <= k < rest.len() implies !dv.contains((#[trigger] rest[k]).stop_location) by {
        assert(rest[k] == c[k]);
        assert(c[k].stop_location != c[n - 1].stop_location);
        assert(!visited.contains(c[k].stop_location));
    }
    assert forall|k: int| 0 <= k < rest.len() - 1 implies {
        &&& (#[trigger] rest[k]).time_tick <= rest[k + 1].time_tick
        &&& bus_stops_at(routes, rest[k].bus_num, rest[k + 1].stop_location, rest[k + 1].time_tick)
    } by {
        assert(rest[k] == c[k]);
        assert(rest[k + 1] == c[k + 1]);
    }
    assert forall|k: int| 1 <= k < rest.len() - 1 implies boards_between(
        routes,
        (#[trigger] rest[k]).bus_num,
        rest[k].stop_location,
        rest[k].time_tick,
        rest[k + 1].time_tick,
    ) by {
        assert(rest[k] == c[k]);
        assert(rest[k + 1] == c[k + 1]);
    }
    assert forall|k: int| 1 <= k < rest.len() implies (#[trigger] rest[k]).stop_location != initial by {
        assert(rest[k] == c[k]);
    }
    assert forall|k: int, l: int| 1 <= k < l < rest.len() implies (#[trigger] rest[k]).stop_location
        != (#[trigger] rest[l]).stop_location by {
        assert(rest[k] == c[k]);
        assert(rest[l] == c[l]);
    }
    assert forall|k: int| 1 <= k < rest.len() - 1 implies rest[k - 1].bus_num != (#[trigger] rest[k]).bus_num by {
        assert(rest[k] == c[k]);
        assert(rest[k - 1] == c[k - 1]);
    }
    assert(rest[0] == c[0]);
    assert(rest[1] == c[1]);
}

/// A simple trip that fits the tick bound `destination_time_tick` and the
/// hand-over to `next_bus_index`: the search then finds a plan arriving no
/// later than the trip.
#[verifier::rlimit(40)]
#[verifier::spinoff_prover]
proof fn lemma_simple_itinerary_found(
    routes: Seq<Seq<PassengerBusLocation>>,
    c: Seq<PassengerOnboardingBusSchedule>,
    initial: Location,
    destination_time_tick: Option<u32>,
    current_time_tick: u32,
    visited: Seq<Location>,
    next_bus_index: Option<usize>,
)
    requires
        is_itinerary(routes, c, initial, c.last().stop_location, current_time_tick),
        is_simple(c, initial, visited),
        destination_time_tick is Some ==> c.last().time_tick <= destination_time_tick->0,
        !(next_bus_index == c[c.len() - 2].bus_num && destination_time_tick == Some(c.last().time_tick)),
    ensures
        search_schedule(
            routes,
            initial,
            c.last().stop_location,
            destination_time_tick,
            current_time_tick,
            visited,
            next_bus_index,
        ) matches Some(s) && schedule_distance(s) <= c.last().time_tick,
    decreases c.len(),
{
    let n = c.len() as int;
    let d = c.last().stop_location;
    let t = c.last().time_tick;
    let last_leg = c[n - 2];
    assert(bus_stops_at(routes, last_leg.bus_num, c[n - 1].stop_location, c[n - 1].time_tick));
    let bus = last_leg.bus_num->0;
    let dstop = PassengerBusLocation { location: d, location_time_tick: t };
    let p = choose|p: int| 0 <= p < routes[bus as int].len() && routes[bus as int][p] == dstop;
    lemma_ticks_grow(c, 1, n - 1);
    assert(is_destination_stop(
        routes[bus as int][p],
        bus,
        d,
        destination_time_tick,
        current_time_tick,
        next_bus_index,
    ));
    let dv = visited.push(d);
    if n == 2 {
        let first = c[0];
        let bstop = PassengerBusLocation { location: initial, location_time_tick: first.time_tick };
        let q = choose|q: int| 0 <= q < routes[bus as int].len() && routes[bus as int][q] == bstop;
        lemma_fires_at_start(routes, initial, destination_time_tick, current_time_tick, dv, next_bus_index, bus, routes[bus as int][p], q);
        lemma_leg_found(routes, initial, d, destination_time_tick, current_time_tick, visited, next_bus_index, bus, p, q);
    } else {
        let x = last_leg.stop_location;
        let a = last_leg.time_tick;
        assert(boards_between(routes, last_leg.bus_num, x, a, t));
        let u = choose|u: u32| a <= u < t && #[trigger] bus_stops_at(routes, last_leg.bus_num, x, u);
        let bstop = PassengerBusLocation { location: x, location_time_tick: u };
        let q = choose|q: int| 0 <= q < routes[bus as int].len() && routes[bus as int][q] == bstop;
        assert(c[n - 2].stop_location != initial);
        assert(c[n - 3].bus_num != c[n - 2].bus_num);
        lemma_prefix_simple(routes, c, initial, current_time_tick, visited);
        let rest = c.subrange(0, n - 1);
        lemma_simple_itinerary_found(routes, rest, initial, Some(u), current_time_tick, dv, Some(bus));
        lemma_fires_by_search(routes, initial, destination_time_tick, current_time_tick, dv, next_bus_index, bus, routes[bus as int][p], q);
        lemma_leg_found(routes, initial, d, destination_time_tick, current_time_tick, visited, next_bus_index, bus, p, q);
    }
}

/// Leaving out a transfer where the passenger stays on the same bus gives a
/// shorter trip with the same end.
#[verifier::rlimit(40)]
#[verifier::spinoff_prover]
proof fn lemma_merge_same_bus(
    routes: Seq<Seq<PassengerBusLocation>>,
    c: Seq<PassengerOnboardingBusSchedule>,
    initial: Location,
    current_time_tick: u32,
    i: int,
) -> (c2: Seq<PassengerOnboardingBusSchedule>)
    requires
        is_itinerary(routes, c, initial, c.last().stop_location, current_time_tick),
        1 <= i < c.len() - 1,
        c[i - 1].bus_num == c[i].bus_num,
    ensures
        is_itinerary(routes, c2, initial, c.last().stop_location, current_time_tick),
        c2.len() < c.len(),
        c2.last() == c.last(),
{
    let n = c.len() as int;
    let c2 = Seq::new((n - 1) as nat, |k: int| if k < i { c[k] } else { c[k + 1] });
    assert(c2.last() == c[n - 1]);
    assert(c2[0] == c[0]);
    lemma_ticks_grow(c, 1, 2);
    assert(c2[1] == c[1] || c2[1] == c[2]);
    assert forall|k: int| 0 <= k < c2.len() - 1 implies {
        &&& (#[trigger] c2[k]).time_tick <= c2[k + 1].time_tick
        &&& bus_stops_at(routes, c2[k].bus_num, c2[k + 1].stop_location, c2[k + 1].time_tick)
    } by {
        if k < i - 1 {
            assert(c2[k] == c[k] && c2[k + 1] == c[k + 1]);
        } else if k == i - 1 {
            assert(c2[k] == c[i - 1] && c2[k + 1] == c[i + 1]);
            assert(c[i - 1].time_tick <= c[i].time_tick);
            assert(c[i].time_tick <= c[i + 1].time_tick);
            assert(bus_stops_at(routes, c[i].bus_num, c[i + 1].stop_location, c[i + 1].time_tick));
        } else {
            assert(c2[k] == c[k + 1] && c2[k + 1] == c[k + 2]);
        }
    }
    assert forall|k: int| 1 <= k < c2.len() - 1 implies boards_between(
        routes,
        (#[trigger] c2[k]).bus_num,
        c2[k].stop_location,
        c2[k].time_tick,
        c2[k + 1].time_tick,
    ) by {
        if k < i - 1 {
            assert(c2[k] == c[k] && c2[k + 1] == c[k + 1]);
        } else if k == i - 1 {
            assert(c2[k] == c[i - 1] && c2[k + 1] == c[i + 1]);
            assert(boards_between(routes, c[i - 1].bus_num, c[i - 1].stop_location, c[i - 1].time_tick, c[i].time_tick));
            let u = choose|u: u32| c[i - 1].time_tick <= u < c[i].time_tick
                && #[trigger] bus_stops_at(routes, c[i - 1].bus_num, c[i - 1].stop_location, u);
            assert(c[i].time_tick <= c[i + 1].time_tick);
            assert(bus_stops_at(routes, c2[k].bus_num, c2[k].stop_location, u));
        } else {
            assert(c2[k] == c[k + 1] && c2[k + 1] == c[k + 2]);
        }
    }
    c2
}

/// A trip that comes back to a location at positions `p < q`, with `q` not the
/// end, can skip the loop: it waits at that location from the first arrival
/// and takes the bus it took after the second.
#[verifier::rlimit(60)]
#[verifier::spinoff_prover]
proof fn lemma_skip_loop(
    routes: Seq<Seq<PassengerBusLocation>>,
    c: Seq<PassengerOnboardingBusSchedule>,
    initial: Location,
    current_time_tick: u32,
    p: int,
    q: int,
) -> (c2: Seq<PassengerOnboardingBusSchedule>)
    requires
        is_itinerary(routes, c, initial, c.last().stop_location, current_time_tick),
        1 <= p < q < c.len() - 1,
        c[p].stop_location == c[q].stop_location,
    ensures
        is_itinerary(routes, c2, initial, c.last().stop_location, current_time_tick),
        c2.len() < c.len(),
        c2.last() == c.last(),
{
    let n = c.len() as int;
    let e = PassengerOnboardingBusSchedule {
        time_tick: c[p].time_tick,
        bus_num: c[q].bus_num,
        stop_location: c[p].stop_location,
    };
    let c2 = Seq::new((n - (q - p)) as nat, |k: int| if k < p { c[k] } else if k == p { e } else { c[k + q - p] });
    lemma_ticks_grow(c, p, q);
    assert(c2.last() == c[n - 1]);
    assert(c2[0] == c[0]);
    if p == 1 {
        assert(c2[1] == e);
    } else {
        assert(c2[1] == c[1]);
    }
    assert(boards_between(routes, c[q].bus_num, c[q].stop_location, c[q].time_tick, c[q + 1].time_tick));
    let u = choose|u: u32| c[q].time_tick <= u < c[q + 1].time_tick
        && #[trigger] bus_stops_at(routes, c[q].bus_num, c[q].stop_location, u);
    assert forall|k: int| 0 <= k < c2.len() - 1 implies {
        &&& (#[trigger] c2[k]).time_tick <= c2[k + 1].time_tick
        &&& bus_stops_at(routes, c2[k].bus_num, c2[k + 1].stop_location, c2[k + 1].time_tick)
    } by {
        if k < p - 1 {
            assert(c2[k] == c[k] && c2[k + 1] == c[k + 1]);
        } else if k == p - 1 {
            assert(c2[k] == c[p - 1] && c2[k + 1] == e);
            assert(c[p - 1].time_tick <= c[p].time_tick);
            assert(bus_stops_at(routes, c[p - 1].bus_num, c[p].stop_location, c[p].time_tick));
        } else if k == p {
            assert(c2[k] == e && c2[k + 1] == c[q + 1]);
            assert(c[q].time_tick <= c[q + 1].time_tick);
            assert(bus_stops_at(routes, c[q].bus_num, c[q + 1].stop_location, c[q + 1].time_tick));
        } else {
            assert(c2[k] == c[k + q - p] && c2[k + 1] == c[k + 1 + q - p]);
        }
    }
    assert forall|k: int| 1 <= k < c2.len() - 1 implies boards_between(
        routes,
        (#[trigger] c2[k]).bus_num,
        c2[k].stop_location,
        c2[k].time_tick,
        c2[k + 1].time_tick,
    ) by {
        if k < p - 1 {
            assert(c2[k] == c[k] && c2[k + 1] == c[k + 1]);
        } else if k == p - 1 {
            assert(c2[k] == c[p - 1] && c2[k + 1] == e);
        } else if k == p {
            assert(c2[k] == e && c2[k + 1] == c[q + 1]);
            assert(bus_stops_at(routes, e.bus_num, e.stop_location, u));
        } else {
            assert(c2[k] == c[k + q - p] && c2[k + 1] == c[k + 1 + q - p]);
        }
    }
    c2
}

/// A trip that comes back to the start at position `q`, not the end, can
/// start with the bus it took from there.
#[verifier::rlimit(40)]
#[verifier::spinoff_prover]
proof fn lemma_skip_start_loop(
    routes: Seq<Seq<PassengerBusLocation>>,
    c: Seq<PassengerOnboardingBusSchedule>,
    initial: Location,
    current_time_tick: u32,
    q: int,
) -> (c2: Seq<PassengerOnboardingBusSchedule>)
    requires
        is_itinerary(routes, c, initial, c.last().stop_location, current_time_tick),
        1 <= q < c.len() - 1,
        c[q].stop_location == initial,
    ensures
        is_itinerary(routes, c2, initial, c.last().stop_location, current_time_tick),
        c2.len() < c.len(),
        c2.last() == c.last(),
{
    let n = c.len() as int;
    assert(boards_between(routes, c[q].bus_num, c[q].stop_location, c[q].time_tick, c[q + 1].time_tick));
    let u = choose|u: u32| c[q].time_tick <= u < c[q + 1].time_tick
        && #[trigger] bus_stops_at(routes, c[q].bus_num, c[q].stop_location, u);
    let e = PassengerOnboardingBusSchedule { time_tick: u, bus_num: c[q].bus_num, stop_location: initial };
    let c2 = Seq::new((n - q) as nat, |k: int| if k == 0 { e } else { c[k + q] });
    lemma_ticks_grow(c, 1, q + 1);
    assert(c2.last() == c[n - 1]);
    assert(c2[0] == e);
    assert(c2[1] == c[q + 1]);
    assert forall|k: int| 0 <= k < c2.len() - 1 implies {
        &&& (#[trigger] c2[k]).time_tick <= c2[k + 1].time_tick
        &&& bus_stops_at(routes, c2[k].bus_num, c2[k + 1].stop_location, c2[k + 1].time_tick)
    } by {
        if k == 0 {
            assert(bus_stops_at(routes, c[q].bus_num, c[q + 1].stop_location, c[q + 1].time_tick));
        } else {
            assert(c2[k] == c[k + q] && c2[k + 1] == c[k + 1 + q]);
        }
    }
    assert forall|k: int| 1 <= k < c2.len() - 1 implies boards_between(
        routes,
        (#[trigger] c2[k]).bus_num,
        c2[k].stop_location,
        c2[k].time_tick,
        c2[k + 1].time_tick,
    ) by {
        assert(c2[k] == c[k + q] && c2[k + 1] == c[k + 1 + q]);
    }
    c2
}

/// A trip that already passes its destination at position `p` can end there.
#[verifier::rlimit(40)]
#[verifier::spinoff_prover]
proof fn lemma_stop_early(
    routes: Seq<Seq<PassengerBusLocation>>,
    c: Seq<PassengerOnboardingBusSchedule>,
    initial: Location,
    current_time_tick: u32,
    p: int,
) -> (c2: Seq<PassengerOnboardingBusSchedule>)
    requires
        is_itinerary(routes, c, initial, c.last().stop_location, current_time_tick),
        1 <= p < c.len() - 1,
        c[p].stop_location == c.last().stop_location,
    ensures
        is_itinerary(routes, c2, initial, c.last().stop_location, current_time_tick),
        c2.len() < c.len(),
        c2.last().time_tick <= c.last().time_tick,
{
    let n = c.len() as int;
    let c2 = c.subrange(0, p + 1);
    lemma_ticks_grow(c, p, n - 1);
    assert(c2.last() == c[p]);
    assert(c2[0] == c[0]);
    assert(c2[1] == c[1]);
    assert forall|k: int| 0 <= k < c2.len() - 1 implies {
        &&& (#[trigger] c2[k]).time_tick <= c2[k + 1].time_tick
        &&& bus_stops_at(routes, c2[k].bus_num, c2[k + 1].stop_location, c2[k + 1].time_tick)
    } by {
        assert(c2[k] == c[k] && c2[k + 1] == c[k + 1]);
    }
    assert forall|k: int| 1 <= k < c2.len() - 1 implies boards_between(
        routes,
        (#[trigger] c2[k]).bus_num,
        c2[k].stop_location,
        c2[k].time_tick,
        c2[k + 1].time_tick,
    ) by {
        assert(c2[k] == c[k] && c2[k + 1] == c[k + 1]);
    }
    c2
}

/// For every trip from `initial` on the routes, the search from `initial` to
/// the trip's destination finds a plan, and that plan arrives no later than
/// the trip.
pub proof fn lemma_itinerary_found(
    routes: Seq<Seq<PassengerBusLocation>>,
    c: Seq<PassengerOnboardingBusSchedule>,
    initial: Location,
    current_time_tick: u32,
)
    requires
        is_itinerary(routes, c, initial, c.last().stop_location, current_time_tick),
    ensures
        search_schedule(
            routes,
            initial,
            c.last().stop_location,
            None,
            current_time_tick,
            Seq::empty(),
            None,
        ) matches Some(s) && schedule_distance(s) <= c.last().time_tick,
    decreases c.len(),
{
    let n = c.len() as int;
    let d = c.last().stop_location;
    let empty = Seq::<Location>::empty();
    if d == initial {
        let t = c.last().time_tick;
        let last_leg = c[n - 2];
        assert(bus_stops_at(routes, last_leg.bus_num, c[n - 1].stop_location, c[n - 1].time_tick));
        let bus = last_leg.bus_num->0;
        let dstop = PassengerBusLocation { location: d, location_time_tick: t };
        let p = choose|p: int| 0 <= p < routes[bus as int].len() && routes[bus as int][p] == dstop;
        lemma_ticks_grow(c, 1, n - 1);
        assert(is_destination_stop(routes[bus as int][p], bus, d, None, current_time_tick, None));
        lemma_fires_at_start(routes, initial, None, current_time_tick, empty.push(d), None, bus, routes[bus as int][p], p);
        lemma_leg_found(routes, initial, d, None, current_time_tick, empty, None, bus, p, p);
    } else if exists|i: int| 1 <= i < n - 1 && c[i - 1].bus_num == #[trigger] c[i].bus_num {
        let i = choose|i: int| 1 <= i < n - 1 && c[i - 1].bus_num == #[trigger] c[i].bus_num;
        let c2 = lemma_merge_same_bus(routes, c, initial, current_time_tick, i);
        lemma_itinerary_found(routes, c2, initial, current_time_tick);
    } else if exists|p: int, q: int| 0 <= p < q < n && (#[trigger] c[p]).stop_location == (#[trigger] c[q]).stop_location {
        let (p, q) = choose|p: int, q: int| 0 <= p < q < n && (#[trigger] c[p]).stop_location == (#[trigger] c[q]).stop_location;
        if q == n - 1 {
            assert(p != 0);
            let c2 = lemma_stop_early(routes, c, initial, current_time_tick, p);
            lemma_itinerary_found(routes, c2, initial, current_time_tick);
        } else if p == 0 {
            let c2 = lemma_skip_start_loop(routes, c, initial, current_time_tick, q);
            lemma_itinerary_found(routes, c2, initial, current_time_tick);
        } else {
            let c2 = lemma_skip_loop(routes, c, initial, current_time_tick, p, q);
            lemma_itinerary_found(routes, c2, initial, current_time_tick);
        }
    } else {
        assert forall|p: int| 1 <= p < c.len() implies (#[trigger] c[p]).stop_location != initial by {
            assert(c[0].stop_location == initial);
            assert(!(c[0].stop_location == c[p].stop_location));
        }
        assert(bus_stops_at(routes, c[n - 2].bus_num, c[n - 1].stop_location, c[n - 1].time_tick));
        assert(is_simple(c, initial, empty));
        lemma_simple_itinerary_found(routes, c, initial, None, current_time_tick, empty, None);
    }
}

/// A plan that can be travelled is a trip.
pub proof fn lemma_journey_is_itinerary(
    routes: Seq<Seq<PassengerBusLocation>>,
    s: Seq<PassengerOnboardingBusSchedule>,
    initial: Location,
    destination: Location,
    destination_time_tick: Option<u32>,
    current_time_tick: u32,
    next_bus_index: Option<usize>,
)
    requires
        is_journey(routes, s, initial, destination, destination_time_tick, current_time_tick, next_bus_index),
    ensures
        is_itinerary(routes, s, initial, destination, current_time_tick),
{
}

/// A trip on routes whose stops are all stops of the same buses on other
/// routes is a trip on those routes too.
pub proof fn lemma_itinerary_on_more_stops(
    fewer: Seq<Seq<PassengerBusLocation>>,
    more: Seq<Seq<PassengerBusLocation>>,
    s: Seq<PassengerOnboardingBusSchedule>,
    initial: Location,
    destination: Location,
    current_time_tick: u32,
)
    requires
        fewer.len() == more.len(),
        forall|b: int, x: PassengerBusLocation|
            0 <= b < fewer.len() && #[trigger] route_has_stop(fewer[b], x) ==> route_has_stop(more[b], x),
        is_itinerary(fewer, s, initial, destination, current_time_tick),
    ensures
        is_itinerary(more, s, initial, destination, current_time_tick),
{
    assert forall|bus: Option<usize>, l: Location, t: u32| #[trigger] bus_stops_at(fewer, bus, l, t) implies bus_stops_at(
        more,
        bus,
        l,
        t,
    ) by {
        assert(route_has_stop(fewer[bus->0 as int], PassengerBusLocation { location: l, location_time_tick: t }));
    }
    assert forall|i: int| 1 <= i < s.len() - 1 implies boards_between(
        more,
        (#[trigger] s[i]).bus_num,
        s[i].stop_location,
        s[i].time_tick,
        s[i + 1].time_tick,
    ) by {
        assert(boards_between(fewer, s[i].bus_num, s[i].stop_location, s[i].time_tick, s[i + 1].time_tick));
        let u = choose|u: u32| s[i].time_tick <= u < s[i + 1].time_tick
            && #[trigger] bus_stops_at(fewer, s[i].bus_num, s[i].stop_location, u);
        assert(bus_stops_at(more, s[i].bus_num, s[i].stop_location, u));
    }
}

} // verus!

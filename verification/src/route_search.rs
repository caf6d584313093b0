//! The search for a passenger's plan through the bus routes: what it yields,
//! stated as recursive spec functions, the executable search proved to yield
//! exactly that, and the properties every plan it finds has.
use vstd::prelude::*;
use crate::location::{Location, PassengerBusLocation};
use crate::passenger::PassengerOnboardingBusSchedule;

verus! {

/// The routes as sequences of stops.
pub open spec fn routes_view(routes: Seq<Vec<PassengerBusLocation>>) -> Seq<Seq<PassengerBusLocation>> {
    routes.map_values(|r: Vec<PassengerBusLocation>| r@)
}

/// The views of a list of plans.
pub open spec fn schedules_view(s: Seq<Vec<PassengerOnboardingBusSchedule>>) -> Seq<Seq<PassengerOnboardingBusSchedule>> {
    s.map_values(|v: Vec<PassengerOnboardingBusSchedule>| v@)
}

/// The locations of a route's stops, in order.
pub open spec fn route_locations(route: Seq<PassengerBusLocation>) -> Seq<Location> {
    route.map_values(|s: PassengerBusLocation| s.location)
}

/// The locations of all stops of all routes.
pub open spec fn all_stop_locations(routes: Seq<Seq<PassengerBusLocation>>) -> Seq<Location>
    decreases routes.len(),
{
    if routes.len() == 0 {
        Seq::empty()
    } else {
        all_stop_locations(routes.drop_last()) + route_locations(routes.last())
    }
}

/// How many of the listed locations are not among `visited`.
pub open spec fn count_unvisited(locs: Seq<Location>, visited: Seq<Location>) -> nat
    decreases locs.len(),
{
    if locs.len() == 0 {
        0
    } else {
        count_unvisited(locs.drop_last(), visited) + if visited.contains(locs.last()) {
            0nat
        } else {
            1nat
        }
    }
}

/// How many stops of the routes lie at a location not yet visited.
pub open spec fn unvisited_stops(routes: Seq<Seq<PassengerBusLocation>>, visited: Seq<Location>) -> nat {
    count_unvisited(all_stop_locations(routes), visited)
}

/// Every stop's location is among all stop locations.
pub proof fn lemma_stop_listed(routes: Seq<Seq<PassengerBusLocation>>, i: int, j: int)
    requires
        0 <= i < routes.len(),
        0 <= j < routes[i].len(),
    ensures
        all_stop_locations(routes).contains(routes[i][j].location),
    decreases routes.len(),
{
    let prefix = all_stop_locations(routes.drop_last());
    let tail = route_locations(routes.last());
    if i == routes.len() - 1 {
        assert((prefix + tail)[prefix.len() + j] == routes[i][j].location);
    } else {
        lemma_stop_listed(routes.drop_last(), i, j);
        let k = choose|k: int| 0 <= k < prefix.len() && prefix[k] == routes[i][j].location;
        assert((prefix + tail)[k] == routes[i][j].location);
    }
}

/// Visiting one more location never raises the count of unvisited ones, and
/// lowers it when that location is listed and was not visited yet.
pub proof fn lemma_count_push(locs: Seq<Location>, visited: Seq<Location>, x: Location)
    ensures
        count_unvisited(locs, visited.push(x)) <= count_unvisited(locs, visited),
        locs.contains(x) && !visited.contains(x) ==> count_unvisited(locs, visited.push(x))
            < count_unvisited(locs, visited),
    decreases locs.len(),
{
    if locs.len() > 0 {
        let rest = locs.drop_last();
        lemma_count_push(rest, visited, x);
        let y = locs.last();
        assert(visited.push(x).contains(y) <==> (visited.contains(y) || y == x)) by {
            if visited.contains(y) {
                let k = choose|k: int| 0 <= k < visited.len() && visited[k] == y;
                assert(visited.push(x)[k] == y);
            }
            if y == x {
                assert(visited.push(x)[visited.len() as int] == y);
            }
            if visited.push(x).contains(y) {
                let k = choose|k: int| 0 <= k < visited.push(x).len() && visited.push(x)[k] == y;
                if k < visited.len() {
                    assert(visited[k] == y);
                }
            }
        }
        if locs.contains(x) && !visited.contains(x) {
            if y != x {
                let k = choose|k: int| 0 <= k < locs.len() && locs[k] == x;
                assert(rest[k] == x);
            }
        }
    }
}

/// A stop where a search for `destination` may end: right place, not before the
/// current tick, not after the tick the next leg needs, and not the very stop of
/// bus `next_bus_index` that the next leg starts from.
pub open spec fn is_destination_stop(
    stop: PassengerBusLocation,
    bus_index: usize,
    destination: Location,
    destination_time_tick: Option<u32>,
    current_time_tick: u32,
    next_bus_index: Option<usize>,
) -> bool {
    &&& stop.location == destination
    &&& current_time_tick <= stop.location_time_tick
    &&& !(next_bus_index == Some(bus_index) && destination_time_tick == Some(stop.location_time_tick))
    &&& (destination_time_tick is None || destination_time_tick->0 >= stop.location_time_tick)
}

/// The destination stops among the first `j` stops of one route.
pub open spec fn route_destinations(
    route: Seq<PassengerBusLocation>,
    bus_index: usize,
    destination: Location,
    destination_time_tick: Option<u32>,
    current_time_tick: u32,
    next_bus_index: Option<usize>,
    j: int,
) -> Seq<(usize, PassengerBusLocation)>
    decreases j,
{
    if j <= 0 {
        Seq::empty()
    } else {
        let prev = route_destinations(
            route,
            bus_index,
            destination,
            destination_time_tick,
            current_time_tick,
            next_bus_index,
            j - 1,
        );
        if is_destination_stop(
            route[j - 1],
            bus_index,
            destination,
            destination_time_tick,
            current_time_tick,
            next_bus_index,
        ) {
            prev.push((bus_index, route[j - 1]))
        } else {
            prev
        }
    }
}

/// The destination stops of the first `i` routes, route by route, each with its bus.
pub open spec fn destinations(
    routes: Seq<Seq<PassengerBusLocation>>,
    destination: Location,
    destination_time_tick: Option<u32>,
    current_time_tick: u32,
    next_bus_index: Option<usize>,
    i: int,
) -> Seq<(usize, PassengerBusLocation)>
    decreases i,
{
    if i <= 0 {
        Seq::empty()
    } else {
        destinations(routes, destination, destination_time_tick, current_time_tick, next_bus_index, i - 1)
            + route_destinations(
            routes[i - 1],
            (i - 1) as usize,
            destination,
            destination_time_tick,
            current_time_tick,
            next_bus_index,
            routes[i - 1].len() as int,
        )
    }
}

/// The tick at which a plan reaches its last stop.
pub open spec fn schedule_distance(s: Seq<PassengerOnboardingBusSchedule>) -> u32 {
    s.last().time_tick
}

/// The position of the first plan with the smallest distance among the first `k`.
pub open spec fn shortest_index(cands: Seq<Seq<PassengerOnboardingBusSchedule>>, k: int) -> int
    decreases k,
{
    if k <= 1 {
        0
    } else {
        let b = shortest_index(cands, k - 1);
        if schedule_distance(cands[b]) <= schedule_distance(cands[k - 1]) {
            b
        } else {
            k - 1
        }
    }
}

/// The plan a search yields: the first shortest of its candidates, if any.
pub open spec fn search_schedule(
    routes: Seq<Seq<PassengerBusLocation>>,
    initial: Location,
    destination: Location,
    destination_time_tick: Option<u32>,
    current_time_tick: u32,
    visited: Seq<Location>,
    next_bus_index: Option<usize>,
) -> Option<Seq<PassengerOnboardingBusSchedule>>
    decreases unvisited_stops(routes, visited.push(destination)), 2nat, 0int,
{
    let dests = destinations(
        routes,
        destination,
        destination_time_tick,
        current_time_tick,
        next_bus_index,
        routes.len() as int,
    );
    let cands = candidates_over(
        routes,
        initial,
        destination,
        destination_time_tick,
        current_time_tick,
        visited,
        next_bus_index,
        dests,
        dests.len() as int,
    );
    if cands.len() == 0 {
        None
    } else {
        Some(cands[shortest_index(cands, cands.len() as int)])
    }
}

/// The candidate plans through the first `k` destination stops.
pub open spec fn candidates_over(
    routes: Seq<Seq<PassengerBusLocation>>,
    initial: Location,
    destination: Location,
    destination_time_tick: Option<u32>,
    current_time_tick: u32,
    visited: Seq<Location>,
    next_bus_index: Option<usize>,
    dests: Seq<(usize, PassengerBusLocation)>,
    k: int,
) -> Seq<Seq<PassengerOnboardingBusSchedule>>
    decreases unvisited_stops(routes, visited.push(destination)), 1nat, k,
{
    if k <= 0 {
        Seq::empty()
    } else {
        let bus = dests[k - 1].0;
        let dloc = dests[k - 1].1;
        candidates_over(
            routes,
            initial,
            destination,
            destination_time_tick,
            current_time_tick,
            visited,
            next_bus_index,
            dests,
            k - 1,
        ) + candidates_for_leg(
            routes,
            initial,
            destination_time_tick,
            current_time_tick,
            visited.push(destination),
            next_bus_index,
            bus,
            dloc,
            routes[bus as int].len() as int,
        )
    }
}

/// The plan entry for arriving at `dloc` and then taking `next_bus_index`.
pub open spec fn arrival_entry(dloc: PassengerBusLocation, next_bus_index: Option<usize>) -> PassengerOnboardingBusSchedule {
    PassengerOnboardingBusSchedule {
        time_tick: dloc.location_time_tick,
        bus_num: next_bus_index,
        stop_location: dloc.location,
    }
}

/// The candidate plans that reach `dloc` on bus `bus`, found among the first
/// `j` stops of that bus's route: boarding it at the start location, or reaching
/// one of its earlier stops by a further search.
pub open spec fn candidates_for_leg(
    routes: Seq<Seq<PassengerBusLocation>>,
    initial: Location,
    destination_time_tick: Option<u32>,
    current_time_tick: u32,
    visited: Seq<Location>,
    next_bus_index: Option<usize>,
    bus: usize,
    dloc: PassengerBusLocation,
    j: int,
) -> Seq<Seq<PassengerOnboardingBusSchedule>>
    decreases unvisited_stops(routes, visited), 0nat, j,
{
    if j <= 0 || bus >= routes.len() || j > routes[bus as int].len() {
        Seq::empty()
    } else {
        let prev = candidates_for_leg(
            routes,
            initial,
            destination_time_tick,
            current_time_tick,
            visited,
            next_bus_index,
            bus,
            dloc,
            j - 1,
        );
        let bl = routes[bus as int][j - 1];
        let arrival = arrival_entry(dloc, next_bus_index);
        if bl.location_time_tick <= dloc.location_time_tick && (destination_time_tick is None
            || destination_time_tick->0 >= current_time_tick) && bl.location == initial {
            let boarding = PassengerOnboardingBusSchedule {
                time_tick: bl.location_time_tick,
                bus_num: Some(bus),
                stop_location: bl.location,
            };
            prev.push(seq![boarding, arrival])
        } else if bl.location_time_tick < dloc.location_time_tick && !visited.contains(bl.location) {
            proof {
                lemma_stop_listed(routes, bus as int, j - 1);
                lemma_count_push(all_stop_locations(routes), visited, bl.location);
            }
            match search_schedule(
                routes,
                initial,
                bl.location,
                Some(bl.location_time_tick),
                current_time_tick,
                visited,
                Some(bus),
            ) {
                Some(r) => prev.push(r.push(arrival)),
                None => prev,
            }
        } else {
            prev
        }
    }
}


/// Whether `stop` is one of the route's stops.
pub open spec fn route_has_stop(route: Seq<PassengerBusLocation>, stop: PassengerBusLocation) -> bool {
    exists|j: int| 0 <= j < route.len() && route[j] == stop
}

/// Every destination stop found on one route belongs to that route and bus.
pub proof fn lemma_route_destinations(
    route: Seq<PassengerBusLocation>,
    bus_index: usize,
    destination: Location,
    destination_time_tick: Option<u32>,
    current_time_tick: u32,
    next_bus_index: Option<usize>,
    j: int,
)
    requires
        0 <= j <= route.len(),
    ensures
        ({
            let d = route_destinations(
                route,
                bus_index,
                destination,
                destination_time_tick,
                current_time_tick,
                next_bus_index,
                j,
            );
            forall|m: int|
                0 <= m < d.len() ==> {
                    &&& #[trigger] d[m].0 == bus_index
                    &&& is_destination_stop(
                        d[m].1,
                        bus_index,
                        destination,
                        destination_time_tick,
                        current_time_tick,
                        next_bus_index,
                    )
                    &&& route_has_stop(route, d[m].1)
                }
        }),
    decreases j,
{
    if j > 0 {
        lemma_route_destinations(
            route,
            bus_index,
            destination,
            destination_time_tick,
            current_time_tick,
            next_bus_index,
            j - 1,
        );
        let prev = route_destinations(
            route,
            bus_index,
            destination,
            destination_time_tick,
            current_time_tick,
            next_bus_index,
            j - 1,
        );
        let d = route_destinations(
            route,
            bus_index,
            destination,
            destination_time_tick,
            current_time_tick,
            next_bus_index,
            j,
        );
        assert forall|m: int| 0 <= m < d.len() implies {
            &&& #[trigger] d[m].0 == bus_index
            &&& is_destination_stop(
                d[m].1,
                bus_index,
                destination,
                destination_time_tick,
                current_time_tick,
                next_bus_index,
            )
            &&& route_has_stop(route, d[m].1)
        } by {
            if m < prev.len() {
                assert(d[m] == prev[m]);
            } else {
                assert(d[m] == (bus_index, route[j - 1]));
                assert(route[j - 1] == d[m].1);
            }
        }
    }
}

/// Every destination stop found belongs to the route of its bus, and that bus exists.
pub proof fn lemma_destinations(
    routes: Seq<Seq<PassengerBusLocation>>,
    destination: Location,
    destination_time_tick: Option<u32>,
    current_time_tick: u32,
    next_bus_index: Option<usize>,
    i: int,
)
    requires
        0 <= i <= routes.len(),
        routes.len() <= usize::MAX,
    ensures
        ({
            let d = destinations(
                routes,
                destination,
                destination_time_tick,
                current_time_tick,
                next_bus_index,
                i,
            );
            forall|m: int|
                0 <= m < d.len() ==> {
                    &&& (#[trigger] d[m]).0 < i
                    &&& is_destination_stop(
                        d[m].1,
                        d[m].0,
                        destination,
                        destination_time_tick,
                        current_time_tick,
                        next_bus_index,
                    )
                    &&& route_has_stop(routes[d[m].0 as int], d[m].1)
                }
        }),
    decreases i,
{
    if i > 0 {
        lemma_destinations(
            routes,
            destination,
            destination_time_tick,
            current_time_tick,
            next_bus_index,
            i - 1,
        );
        lemma_route_destinations(
            routes[i - 1],
            (i - 1) as usize,
            destination,
            destination_time_tick,
            current_time_tick,
            next_bus_index,
            routes[i - 1].len() as int,
        );
        let prev = destinations(
            routes,
            destination,
            destination_time_tick,
            current_time_tick,
            next_bus_index,
            i - 1,
        );
        let rd = route_destinations(
            routes[i - 1],
            (i - 1) as usize,
            destination,
            destination_time_tick,
            current_time_tick,
            next_bus_index,
            routes[i - 1].len() as int,
        );
        let d = prev + rd;
        assert forall|m: int| 0 <= m < d.len() implies {
            &&& (#[trigger] d[m]).0 < i
            &&& is_destination_stop(
                d[m].1,
                d[m].0,
                destination,
                destination_time_tick,
                current_time_tick,
                next_bus_index,
            )
            &&& route_has_stop(routes[d[m].0 as int], d[m].1)
        } by {
            if m < prev.len() {
                assert(d[m] == prev[m]);
            } else {
                assert(d[m] == rd[m - prev.len()]);
            }
        }
    }
}

/// Whether `x` is among `v`.
pub fn contains_location(v: &Vec<Location>, x: Location) -> (res: bool)
    ensures
        res == v@.contains(x),
{
    let mut i: usize = 0;
    while i < v.len()
        invariant
            i <= v.len(),
            forall|k: int| 0 <= k < i ==> v@[k] != x,
        decreases v.len() - i,
    {
        if v[i] == x {
            assert(v@[i as int] == x);
            return true;
        }
        i = i + 1;
    }
    false
}

/// A copy of a list of locations.
pub fn copy_locations(v: &Vec<Location>) -> (res: Vec<Location>)
    ensures
        res@ == v@,
{
    let mut res: Vec<Location> = Vec::new();
    let mut i: usize = 0;
    while i < v.len()
        invariant
            i <= v.len(),
            res@ == v@.subrange(0, i as int),
        decreases v.len() - i,
    {
        res.push(v[i]);
        i = i + 1;
    }
    res
}

/// Searches the routes for a plan that takes a passenger from
/// `initial_location` to `destination_location`, reaching it no earlier than
/// `current_time_tick` and, when `destination_time_tick` is given, no later than
/// it; `visited_locations` are not passed through again, and `next_bus_index`
/// is the bus taken onwards from the destination. Yields exactly
/// `search_schedule` of its arguments.
pub(crate) fn calculate_passenger_schedule_for_bus_with_recursion(
    initial_location: Location,
    destination_location: Location,
    destination_time_tick: Option<u32>,
    current_time_tick: u32,
    bus_route_list: &Vec<Vec<PassengerBusLocation>>,
    visited_locations: Vec<Location>,
    next_bus_index: Option<usize>,
) -> (res: Option<Vec<PassengerOnboardingBusSchedule>>)
    ensures
        match res {
            Some(s) => search_schedule(
                routes_view(bus_route_list@),
                initial_location,
                destination_location,
                destination_time_tick,
                current_time_tick,
                visited_locations@,
                next_bus_index,
            ) == Some(s@),
            None => search_schedule(
                routes_view(bus_route_list@),
                initial_location,
                destination_location,
                destination_time_tick,
                current_time_tick,
                visited_locations@,
                next_bus_index,
            ) is None,
        },
    decreases unvisited_stops(routes_view(bus_route_list@), visited_locations@.push(destination_location)),
{
    let ghost routes = routes_view(bus_route_list@);
    let mut destination_list: Vec<(usize, PassengerBusLocation)> = Vec::new();
    let mut bus_index: usize = 0;
    while bus_index < bus_route_list.len()
        invariant
            bus_index <= bus_route_list.len(),
            routes == routes_view(bus_route_list@),
            destination_list@ == destinations(
                routes,
                destination_location,
                destination_time_tick,
                current_time_tick,
                next_bus_index,
                bus_index as int,
            ),
        decreases bus_route_list.len() - bus_index,
    {
        let route = &bus_route_list[bus_index];
        assert(routes[bus_index as int] == route@);
        let mut j: usize = 0;
        while j < route.len()
            invariant
                j <= route.len(),
                bus_index < bus_route_list.len(),
                route == &bus_route_list@[bus_index as int],
                routes == routes_view(bus_route_list@),
                destination_list@ == destinations(
                    routes,
                    destination_location,
                    destination_time_tick,
                    current_time_tick,
                    next_bus_index,
                    bus_index as int,
                ) + route_destinations(
                    route@,
                    bus_index,
                    destination_location,
                    destination_time_tick,
                    current_time_tick,
                    next_bus_index,
                    j as int,
                ),
            decreases route.len() - j,
        {
            let stop = route[j];
            let same_next_stop = match next_bus_index {
                Some(n) => n == bus_index && match destination_time_tick {
                    Some(t) => t == stop.location_time_tick,
                    None => false,
                },
                None => false,
            };
            let not_too_late = match destination_time_tick {
                Some(t) => t >= stop.location_time_tick,
                None => true,
            };
            if stop.location == destination_location && current_time_tick <= stop.location_time_tick
                && !same_next_stop && not_too_late {
                destination_list.push((bus_index, stop));
            }
            j = j + 1;
        }
        bus_index = bus_index + 1;
    }
    proof {
        lemma_destinations(
            routes,
            destination_location,
            destination_time_tick,
            current_time_tick,
            next_bus_index,
            routes.len() as int,
        );
    }
    let ghost dests = destination_list@;
    let mut valid: Vec<Vec<PassengerOnboardingBusSchedule>> = Vec::new();
    let mut k: usize = 0;
    while k < destination_list.len()
        invariant
            k <= destination_list.len(),
            dests == destination_list@,
            routes == routes_view(bus_route_list@),
            dests == destinations(
                routes,
                destination_location,
                destination_time_tick,
                current_time_tick,
                next_bus_index,
                routes.len() as int,
            ),
            forall|m: int|
                0 <= m < dests.len() ==> {
                    &&& (#[trigger] dests[m]).0 < routes.len()
                    &&& is_destination_stop(
                        dests[m].1,
                        dests[m].0,
                        destination_location,
                        destination_time_tick,
                        current_time_tick,
                        next_bus_index,
                    )
                },
            schedules_view(valid@) == candidates_over(
                routes,
                initial_location,
                destination_location,
                destination_time_tick,
                current_time_tick,
                visited_locations@,
                next_bus_index,
                dests,
                k as int,
            ),
            forall|m: int| 0 <= m < valid@.len() ==> (#[trigger] valid@[m])@.len() > 0,
        decreases destination_list.len() - k,
    {
        let (bus, dloc) = destination_list[k];
        assert(dests[k as int] == (bus, dloc));
        let mut visited_with_destination = copy_locations(&visited_locations);
        visited_with_destination.push(dloc.location);
        assert(visited_with_destination@ == visited_locations@.push(destination_location));
        let route = &bus_route_list[bus];
        assert(routes[bus as int] == route@);
        let arrival = PassengerOnboardingBusSchedule {
            time_tick: dloc.location_time_tick,
            bus_num: next_bus_index,
            stop_location: dloc.location,
        };
        assert(arrival == arrival_entry(dloc, next_bus_index));
        let ghost before = schedules_view(valid@);
        let mut j: usize = 0;
        while j < route.len()
            invariant
                j <= route.len(),
                bus < bus_route_list.len(),
                route == &bus_route_list@[bus as int],
                routes == routes_view(bus_route_list@),
                routes[bus as int] == route@,
                visited_with_destination@ == visited_locations@.push(destination_location),
                arrival == arrival_entry(dloc, next_bus_index),
                schedules_view(valid@) == before + candidates_for_leg(
                    routes,
                    initial_location,
                    destination_time_tick,
                    current_time_tick,
                    visited_with_destination@,
                    next_bus_index,
                    bus,
                    dloc,
                    j as int,
                ),
                forall|m: int| 0 <= m < valid@.len() ==> (#[trigger] valid@[m])@.len() > 0,
            decreases route.len() - j,
        {
            let bl = route[j];
            assert(routes[bus as int][j as int] == bl);
            let ghost prev_view = schedules_view(valid@);
            let dtt_ok = match destination_time_tick {
                Some(t) => t >= current_time_tick,
                None => true,
            };
            if bl.location_time_tick <= dloc.location_time_tick && dtt_ok && bl.location
                == initial_location {
                let boarding = PassengerOnboardingBusSchedule {
                    time_tick: bl.location_time_tick,
                    bus_num: Some(bus),
                    stop_location: bl.location,
                };
                let plan = vec![boarding, arrival];
                assert(plan@ =~= seq![boarding, arrival]);
                valid.push(plan);
                assert(schedules_view(valid@) =~= prev_view.push(seq![boarding, arrival]));
            } else if bl.location_time_tick < dloc.location_time_tick && !contains_location(
                &visited_with_destination,
                bl.location,
            ) {
                proof {
                    lemma_stop_listed(routes, bus as int, j as int);
                    lemma_count_push(
                        all_stop_locations(routes),
                        visited_with_destination@,
                        bl.location,
                    );
                }
                let extension = calculate_passenger_schedule_for_bus_with_recursion(
                    initial_location,
                    bl.location,
                    Some(bl.location_time_tick),
                    current_time_tick,
                    bus_route_list,
                    copy_locations(&visited_with_destination),
                    Some(bus),
                );
                match extension {
                    Some(mut plan) => {
                        let ghost r = plan@;
                        plan.push(arrival);
                        valid.push(plan);
                        assert(schedules_view(valid@) =~= prev_view.push(r.push(arrival)));
                    },
                    None => {},
                }
            }
            j = j + 1;
        }
        assert(schedules_view(valid@) == candidates_over(
            routes,
            initial_location,
            destination_location,
            destination_time_tick,
            current_time_tick,
            visited_locations@,
            next_bus_index,
            dests,
            k + 1,
        ));
        k = k + 1;
    }
    if valid.len() == 0 {
        return None;
    }
    let ghost cands = schedules_view(valid@);
    let mut best: usize = 0;
    let mut i: usize = 1;
    while i < valid.len()
        invariant
            1 <= i <= valid.len(),
            best < i,
            cands == schedules_view(valid@),
            best == shortest_index(cands, i as int),
            forall|m: int| 0 <= m < valid@.len() ==> (#[trigger] valid@[m])@.len() > 0,
        decreases valid.len() - i,
    {
        let best_plan = &valid[best];
        let next_plan = &valid[i];
        assert(cands[best as int] == best_plan@);
        assert(cands[i as int] == next_plan@);
        if best_plan[best_plan.len() - 1].time_tick > next_plan[next_plan.len() - 1].time_tick {
            best = i;
        }
        i = i + 1;
    }
    assert(cands[best as int] == valid@[best as int]@);
    let chosen = valid.remove(best);
    Some(chosen)
}


/// Bus `bus` exists and stops at `location` at tick `tick`.
pub open spec fn bus_stops_at(
    routes: Seq<Seq<PassengerBusLocation>>,
    bus: Option<usize>,
    location: Location,
    tick: u32,
) -> bool {
    &&& bus is Some
    &&& bus->0 < routes.len()
    &&& route_has_stop(
        routes[bus->0 as int],
        PassengerBusLocation { location: location, location_time_tick: tick },
    )
}

/// Whether `bus` stops at `location` at some tick from `lo` up to, not
/// including, `hi`.
pub open spec fn boards_between(
    routes: Seq<Seq<PassengerBusLocation>>,
    bus: Option<usize>,
    location: Location,
    lo: u32,
    hi: u32,
) -> bool {
    exists|u: u32| lo <= u < hi && #[trigger] bus_stops_at(routes, bus, location, u)
}

/// A plan that can be travelled: it starts at `initial` where its first bus
/// stops at the first entry's tick, each entry's bus stops at the next entry's
/// location at that entry's tick, ticks never go back, every arrival is no
/// earlier than `current_time_tick`, at each transfer the bus boarded there
/// stops at that location after the arrival and before it reaches the next
/// stop, and it ends at `destination` within the tick bounds, handing over to
/// `next_bus_index`.
pub open spec fn is_journey(
    routes: Seq<Seq<PassengerBusLocation>>,
    s: Seq<PassengerOnboardingBusSchedule>,
    initial: Location,
    destination: Location,
    destination_time_tick: Option<u32>,
    current_time_tick: u32,
    next_bus_index: Option<usize>,
) -> bool {
    &&& s.len() >= 2
    &&& s[0].stop_location == initial
    &&& bus_stops_at(routes, s[0].bus_num, s[0].stop_location, s[0].time_tick)
    &&& s.last().stop_location == destination
    &&& s.last().bus_num == next_bus_index
    &&& current_time_tick <= s[1].time_tick
    &&& current_time_tick <= s.last().time_tick
    &&& (destination_time_tick is Some ==> s.last().time_tick <= destination_time_tick->0)
    &&& forall|i: int|
        #![trigger s[i]]
        0 <= i < s.len() - 1 ==> {
            &&& s[i].time_tick <= s[i + 1].time_tick
            &&& bus_stops_at(routes, s[i].bus_num, s[i + 1].stop_location, s[i + 1].time_tick)
        }
    &&& forall|i: int|
        #![trigger s[i]]
        1 <= i < s.len() - 1 ==> boards_between(
            routes,
            s[i].bus_num,
            s[i].stop_location,
            s[i].time_tick,
            s[i + 1].time_tick,
        )
}

/// `shortest_index` picks a plan of least distance, the first such one.
pub proof fn lemma_shortest_index(cands: Seq<Seq<PassengerOnboardingBusSchedule>>, k: int)
    requires
        1 <= k <= cands.len(),
    ensures
        0 <= shortest_index(cands, k) < k,
        forall|m: int|
            0 <= m < k ==> schedule_distance(cands[shortest_index(cands, k)]) <= schedule_distance(
                #[trigger] cands[m],
            ),
        forall|m: int|
            0 <= m < shortest_index(cands, k) ==> schedule_distance(cands[shortest_index(cands, k)])
                < schedule_distance(#[trigger] cands[m]),
    decreases k,
{
    if k > 1 {
        lemma_shortest_index(cands, k - 1);
    }
}

/// Every candidate plan through a leg of bus `bus` to `dloc` can be travelled.
proof fn lemma_candidates_for_leg(
    routes: Seq<Seq<PassengerBusLocation>>,
    initial: Location,
    destination: Location,
    destination_time_tick: Option<u32>,
    current_time_tick: u32,
    visited: Seq<Location>,
    next_bus_index: Option<usize>,
    bus: usize,
    dloc: PassengerBusLocation,
    j: int,
)
    requires
        routes.len() <= usize::MAX,
        bus < routes.len(),
        route_has_stop(routes[bus as int], dloc),
        is_destination_stop(
            dloc,
            bus,
            destination,
            destination_time_tick,
            current_time_tick,
            next_bus_index,
        ),
    ensures
        ({
            let c = candidates_for_leg(
                routes,
                initial,
                destination_time_tick,
                current_time_tick,
                visited,
                next_bus_index,
                bus,
                dloc,
                j,
            );
            forall|m: int|
                0 <= m < c.len() ==> is_journey(
                    routes,
                    #[trigger] c[m],
                    initial,
                    destination,
                    destination_time_tick,
                    current_time_tick,
                    next_bus_index,
                )
        }),
    decreases unvisited_stops(routes, visited), 0nat, j,
{
    if j <= 0 || bus >= routes.len() || j > routes[bus as int].len() {
    } else {
        lemma_candidates_for_leg(
            routes,
            initial,
            destination,
            destination_time_tick,
            current_time_tick,
            visited,
            next_bus_index,
            bus,
            dloc,
            j - 1,
        );
        let prev = candidates_for_leg(
            routes,
            initial,
            destination_time_tick,
            current_time_tick,
            visited,
            next_bus_index,
            bus,
            dloc,
            j - 1,
        );
        let c = candidates_for_leg(
            routes,
            initial,
            destination_time_tick,
            current_time_tick,
            visited,
            next_bus_index,
            bus,
            dloc,
            j,
        );
        let bl = routes[bus as int][j - 1];
        let arrival = arrival_entry(dloc, next_bus_index);
        assert(PassengerBusLocation { location: dloc.location, location_time_tick: dloc.location_time_tick } == dloc);
        assert(bus_stops_at(routes, Some(bus), dloc.location, dloc.location_time_tick));
        if bl.location_time_tick <= dloc.location_time_tick && (destination_time_tick is None
            || destination_time_tick->0 >= current_time_tick) && bl.location == initial {
            let boarding = PassengerOnboardingBusSchedule {
                time_tick: bl.location_time_tick,
                bus_num: Some(bus),
                stop_location: bl.location,
            };
            let plan = seq![boarding, arrival];
            assert(PassengerBusLocation { location: bl.location, location_time_tick: bl.location_time_tick } == bl);
            assert(route_has_stop(routes[bus as int], bl));
            assert(is_journey(
                routes,
                plan,
                initial,
                destination,
                destination_time_tick,
                current_time_tick,
                next_bus_index,
            )) by {
                assert forall|i: int| 0 <= i < plan.len() - 1 implies {
                    &&& #[trigger] plan[i].time_tick <= plan[i + 1].time_tick
                    &&& bus_stops_at(routes, plan[i].bus_num, plan[i + 1].stop_location, plan[i + 1].time_tick)
                } by {
                    assert(i == 0);
                }
            }
            assert forall|m: int| 0 <= m < c.len() implies is_journey(
                routes,
                #[trigger] c[m],
                initial,
                destination,
                destination_time_tick,
                current_time_tick,
                next_bus_index,
            ) by {
                if m < prev.len() {
                    assert(c[m] == prev[m]);
                }
            }
        } else if bl.location_time_tick < dloc.location_time_tick && !visited.contains(bl.location) {
            lemma_stop_listed(routes, bus as int, j - 1);
            lemma_count_push(all_stop_locations(routes), visited, bl.location);
            lemma_search_journey(
                routes,
                initial,
                bl.location,
                Some(bl.location_time_tick),
                current_time_tick,
                visited,
                Some(bus),
            );
            match search_schedule(
                routes,
                initial,
                bl.location,
                Some(bl.location_time_tick),
                current_time_tick,
                visited,
                Some(bus),
            ) {
                Some(r) => {
                    let plan = r.push(arrival);
                    assert(is_journey(
                        routes,
                        plan,
                        initial,
                        destination,
                        destination_time_tick,
                        current_time_tick,
                        next_bus_index,
                    )) by {
                        assert(plan[0] == r[0]);
                        assert(plan[1] == r[1]);
                        assert(PassengerBusLocation { location: bl.location, location_time_tick: bl.location_time_tick } == bl);
                        assert(bus_stops_at(routes, Some(bus), bl.location, bl.location_time_tick));
                        assert forall|i: int| 1 <= i < plan.len() - 1 implies boards_between(
                            routes,
                            #[trigger] plan[i].bus_num,
                            plan[i].stop_location,
                            plan[i].time_tick,
                            plan[i + 1].time_tick,
                        ) by {
                            assert(plan[i] == r[i]);
                            if i < r.len() - 1 {
                                assert(plan[i + 1] == r[i + 1]);
                                assert(r[i] == plan[i]);
                            } else {
                                assert(plan[i + 1] == arrival);
                                assert(r.last() == r[i]);
                            }
                        }
                        assert forall|i: int| 0 <= i < plan.len() - 1 implies {
                            &&& #[trigger] plan[i].time_tick <= plan[i + 1].time_tick
                            &&& bus_stops_at(routes, plan[i].bus_num, plan[i + 1].stop_location, plan[i + 1].time_tick)
                        } by {
                            assert(plan[i] == r[i]);
                            if i < r.len() - 1 {
                                assert(plan[i + 1] == r[i + 1]);
                            } else {
                                assert(plan[i + 1] == arrival);
                            }
                        }
                    }
                    assert forall|m: int| 0 <= m < c.len() implies is_journey(
                        routes,
                        #[trigger] c[m],
                        initial,
                        destination,
                        destination_time_tick,
                        current_time_tick,
                        next_bus_index,
                    ) by {
                        if m < prev.len() {
                            assert(c[m] == prev[m]);
                        }
                    }
                },
                None => {},
            }
        } else {
        }
    }
}

/// Every candidate plan through the first `k` destination stops can be travelled.
proof fn lemma_candidates_over(
    routes: Seq<Seq<PassengerBusLocation>>,
    initial: Location,
    destination: Location,
    destination_time_tick: Option<u32>,
    current_time_tick: u32,
    visited: Seq<Location>,
    next_bus_index: Option<usize>,
    dests: Seq<(usize, PassengerBusLocation)>,
    k: int,
)
    requires
        routes.len() <= usize::MAX,
        k <= dests.len(),
        dests == destinations(
            routes,
            destination,
            destination_time_tick,
            current_time_tick,
            next_bus_index,
            routes.len() as int,
        ),
    ensures
        ({
            let c = candidates_over(
                routes,
                initial,
                destination,
                destination_time_tick,
                current_time_tick,
                visited,
                next_bus_index,
                dests,
                k,
            );
            forall|m: int|
                0 <= m < c.len() ==> is_journey(
                    routes,
                    #[trigger] c[m],
                    initial,
                    destination,
                    destination_time_tick,
                    current_time_tick,
                    next_bus_index,
                )
        }),
    decreases unvisited_stops(routes, visited.push(destination)), 1nat, k,
{
    if k > 0 {
        lemma_candidates_over(
            routes,
            initial,
            destination,
            destination_time_tick,
            current_time_tick,
            visited,
            next_bus_index,
            dests,
            k - 1,
        );
        lemma_destinations(
            routes,
            destination,
            destination_time_tick,
            current_time_tick,
            next_bus_index,
            routes.len() as int,
        );
        let bus = dests[k - 1].0;
        let dloc = dests[k - 1].1;
        lemma_candidates_for_leg(
            routes,
            initial,
            destination,
            destination_time_tick,
            current_time_tick,
            visited.push(destination),
            next_bus_index,
            bus,
            dloc,
            routes[bus as int].len() as int,
        );
        let prev = candidates_over(
            routes,
            initial,
            destination,
            destination_time_tick,
            current_time_tick,
            visited,
            next_bus_index,
            dests,
            k - 1,
        );
        let leg = candidates_for_leg(
            routes,
            initial,
            destination_time_tick,
            current_time_tick,
            visited.push(destination),
            next_bus_index,
            bus,
            dloc,
            routes[bus as int].len() as int,
        );
        let c = prev + leg;
        assert forall|m: int| 0 <= m < c.len() implies is_journey(
            routes,
            #[trigger] c[m],
            initial,
            destination,
            destination_time_tick,
            current_time_tick,
            next_bus_index,
        ) by {
            if m < prev.len() {
                assert(c[m] == prev[m]);
            } else {
                assert(c[m] == leg[m - prev.len()]);
            }
        }
    }
}

/// Every plan the search finds can be travelled: it starts at the start
/// location, ends at the destination within the tick bounds, and each leg is
/// ridden on a bus that really stops at both ends at the planned ticks.
pub proof fn lemma_search_journey(
    routes: Seq<Seq<PassengerBusLocation>>,
    initial: Location,
    destination: Location,
    destination_time_tick: Option<u32>,
    current_time_tick: u32,
    visited: Seq<Location>,
    next_bus_index: Option<usize>,
)
    requires
        routes.len() <= usize::MAX,
    ensures
        search_schedule(
            routes,
            initial,
            destination,
            destination_time_tick,
            current_time_tick,
            visited,
            next_bus_index,
        ) matches Some(s) ==> is_journey(
            routes,
            s,
            initial,
            destination,
            destination_time_tick,
            current_time_tick,
            next_bus_index,
        ),
    decreases unvisited_stops(routes, visited.push(destination)), 2nat, 0int,
{
    let dests = destinations(
        routes,
        destination,
        destination_time_tick,
        current_time_tick,
        next_bus_index,
        routes.len() as int,
    );
    lemma_candidates_over(
        routes,
        initial,
        destination,
        destination_time_tick,
        current_time_tick,
        visited,
        next_bus_index,
        dests,
        dests.len() as int,
    );
    let cands = candidates_over(
        routes,
        initial,
        destination,
        destination_time_tick,
        current_time_tick,
        visited,
        next_bus_index,
        dests,
        dests.len() as int,
    );
    if cands.len() > 0 {
        lemma_shortest_index(cands, cands.len() as int);
        let b = shortest_index(cands, cands.len() as int);
        assert(is_journey(
            routes,
            cands[b],
            initial,
            destination,
            destination_time_tick,
            current_time_tick,
            next_bus_index,
        ));
    }
}

/// The plan the search finds arrives no later than any other candidate it
/// weighed, and strictly earlier than every candidate weighed before it.
pub proof fn lemma_search_shortest(
    routes: Seq<Seq<PassengerBusLocation>>,
    initial: Location,
    destination: Location,
    destination_time_tick: Option<u32>,
    current_time_tick: u32,
    visited: Seq<Location>,
    next_bus_index: Option<usize>,
)
    ensures
        ({
            let cands = candidates_over(
                routes,
                initial,
                destination,
                destination_time_tick,
                current_time_tick,
                visited,
                next_bus_index,
                destinations(
                    routes,
                    destination,
                    destination_time_tick,
                    current_time_tick,
                    next_bus_index,
                    routes.len() as int,
                ),
                destinations(
                    routes,
                    destination,
                    destination_time_tick,
                    current_time_tick,
                    next_bus_index,
                    routes.len() as int,
                ).len() as int,
            );
            search_schedule(
                routes,
                initial,
                destination,
                destination_time_tick,
                current_time_tick,
                visited,
                next_bus_index,
            ) matches Some(s) ==> {
                &&& cands.contains(s)
                &&& forall|m: int| 0 <= m < cands.len() ==> schedule_distance(s) <= schedule_distance(#[trigger] cands[m])
            }
        }),
{
    let dests = destinations(
        routes,
        destination,
        destination_time_tick,
        current_time_tick,
        next_bus_index,
        routes.len() as int,
    );
    let cands = candidates_over(
        routes,
        initial,
        destination,
        destination_time_tick,
        current_time_tick,
        visited,
        next_bus_index,
        dests,
        dests.len() as int,
    );
    if cands.len() > 0 {
        lemma_shortest_index(cands, cands.len() as int);
    }
}

} // verus!

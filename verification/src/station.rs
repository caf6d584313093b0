//! A station: who waits there, which buses stand there, and what it does
//! during each stage of a tick.
use vstd::prelude::*;
use std::collections::HashMap;
use crate::{
    available_routes, calculate_passenger_schedule_for_bus,
    calculate_passenger_schedule_for_bus_check_available_buses, passenger_schedule, TimeTick,
};
use crate::bus::SendableBus;
use crate::location::{Location, PassengerBusLocation};
use crate::passenger::{
    passengers_view, upcoming_stop, Passenger, PassengerOnboardingBusSchedule, PassengerView,
};
use crate::route_search::{routes_view, schedule_distance};
use crate::thread::StationToBusMessages;

verus! {

broadcast use vstd::std_specs::hash::group_hash_axioms;

/// A plan together with the tick at which it reaches its end.
pub struct PassengerScheduleWithDistance {
    pub passenger_schedule: Vec<PassengerOnboardingBusSchedule>,
    pub distance: u32,
}

impl PassengerScheduleWithDistance {
    /// Pairs a plan with the tick of its last entry; the plan must not be empty.
    pub fn from_schedule(passenger_schedule: Vec<PassengerOnboardingBusSchedule>) -> (res: Self)
        requires
            passenger_schedule.len() > 0,
        ensures
            res.passenger_schedule@ == passenger_schedule@,
            res.distance == schedule_distance(passenger_schedule@),
    {
        let distance = passenger_schedule[passenger_schedule.len() - 1].time_tick;
        PassengerScheduleWithDistance { passenger_schedule, distance }
    }
}

/// The buses, in order, whose stops at the first `j` stops of `route` (bus
/// `bus_index`) are at station `station_index` at `tick`.
pub open spec fn bus_visits(
    route: Seq<PassengerBusLocation>,
    bus_index: usize,
    station_index: usize,
    tick: u32,
    j: int,
) -> Seq<usize>
    decreases j,
{
    if j <= 0 {
        Seq::empty()
    } else {
        let prev = bus_visits(route, bus_index, station_index, tick, j - 1);
        if route[j - 1].location.index == station_index && route[j - 1].location_time_tick == tick {
            prev.push(bus_index)
        } else {
            prev
        }
    }
}

/// The buses, in order, among the first `i` routes, that stand at station
/// `station_index` at `tick` (a bus once for each such stop).
pub open spec fn buses_at_station(
    routes: Seq<Seq<PassengerBusLocation>>,
    station_index: usize,
    tick: u32,
    i: int,
) -> Seq<usize>
    decreases i,
{
    if i <= 0 {
        Seq::empty()
    } else {
        buses_at_station(routes, station_index, tick, i - 1) + bus_visits(
            routes[i - 1],
            (i - 1) as usize,
            station_index,
            tick,
            routes[i - 1].len() as int,
        )
    }
}

/// Whether route `route` stops at the station with index `station_index` at `tick`.
pub open spec fn route_stops_at_station(route: Seq<PassengerBusLocation>, station_index: usize, tick: u32) -> bool {
    exists|j: int|
        0 <= j < route.len() && (#[trigger] route[j]).location.index == station_index && route[j].location_time_tick
            == tick
}

/// A route's visits name its bus only, and there is one exactly when the bus
/// stops there at that tick among the first `j` stops.
proof fn lemma_bus_visits(route: Seq<PassengerBusLocation>, bus_index: usize, station_index: usize, tick: u32, j: int)
    requires
        0 <= j <= route.len(),
    ensures
        forall|m: int|
            0 <= m < bus_visits(route, bus_index, station_index, tick, j).len() ==> #[trigger] bus_visits(
                route,
                bus_index,
                station_index,
                tick,
                j,
            )[m] == bus_index,
        bus_visits(route, bus_index, station_index, tick, j).len() > 0 <==> route_stops_at_station(
            route.take(j),
            station_index,
            tick,
        ),
    decreases j,
{
    if j > 0 {
        lemma_bus_visits(route, bus_index, station_index, tick, j - 1);
        let prev = bus_visits(route, bus_index, station_index, tick, j - 1);
        let cur = bus_visits(route, bus_index, station_index, tick, j);
        assert forall|m: int| 0 <= m < cur.len() implies #[trigger] cur[m] == bus_index by {
            if m < prev.len() {
                assert(cur[m] == prev[m]);
            }
        }
        let short = route.take(j - 1);
        let long = route.take(j);
        if route_stops_at_station(short, station_index, tick) {
            let k = choose|k: int| 0 <= k < short.len() && (#[trigger] short[k]).location.index == station_index
                && short[k].location_time_tick == tick;
            assert(long[k] == short[k]);
        }
        if route_stops_at_station(long, station_index, tick) {
            let k = choose|k: int| 0 <= k < long.len() && (#[trigger] long[k]).location.index == station_index
                && long[k].location_time_tick == tick;
            if k < j - 1 {
                assert(short[k] == long[k]);
            }
        }
        assert(long[j - 1] == route[j - 1]);
    }
}

/// The buses listed for a station at a tick are exactly those whose route stops
/// there then, in increasing bus order (a bus once per such stop).
pub proof fn lemma_buses_at_station_members(
    routes: Seq<Seq<PassengerBusLocation>>,
    station_index: usize,
    tick: u32,
    i: int,
)
    requires
        0 <= i <= routes.len(),
        routes.len() <= usize::MAX,
    ensures
        forall|b: usize|
            #![trigger buses_at_station(routes, station_index, tick, i).contains(b)]
            buses_at_station(routes, station_index, tick, i).contains(b) <==> (b < i && route_stops_at_station(
                routes[b as int],
                station_index,
                tick,
            )),
        forall|a: int, c: int|
            0 <= a < c < buses_at_station(routes, station_index, tick, i).len() ==> #[trigger] buses_at_station(
                routes,
                station_index,
                tick,
                i,
            )[a] <= #[trigger] buses_at_station(routes, station_index, tick, i)[c],
        forall|a: int|
            0 <= a < buses_at_station(routes, station_index, tick, i).len() ==> #[trigger] buses_at_station(
                routes,
                station_index,
                tick,
                i,
            )[a] < i,
    decreases i,
{
    if i > 0 {
        lemma_buses_at_station_members(routes, station_index, tick, i - 1);
        let route = routes[i - 1];
        lemma_bus_visits(route, (i - 1) as usize, station_index, tick, route.len() as int);
        assert(route.take(route.len() as int) =~= route);
        let prev = buses_at_station(routes, station_index, tick, i - 1);
        let v = bus_visits(route, (i - 1) as usize, station_index, tick, route.len() as int);
        let cur = buses_at_station(routes, station_index, tick, i);
        assert(cur == prev + v);
        assert forall|b: usize| #[trigger] cur.contains(b) <==> (b < i && route_stops_at_station(
            routes[b as int],
            station_index,
            tick,
        )) by {
            if cur.contains(b) {
                let k = choose|k: int| 0 <= k < cur.len() && cur[k] == b;
                if k < prev.len() {
                    assert(prev[k] == b);
                    assert(prev.contains(b));
                } else {
                    assert(v[k - prev.len()] == b);
                }
            }
            if b < i && route_stops_at_station(routes[b as int], station_index, tick) {
                if b < i - 1 {
                    assert(prev.contains(b));
                    let k = choose|k: int| 0 <= k < prev.len() && prev[k] == b;
                    assert(cur[k] == b);
                } else {
                    assert(v.len() > 0);
                    assert(v[0] == b);
                    assert(cur[prev.len() as int] == b);
                }
            }
        }
        assert forall|a: int| 0 <= a < cur.len() implies #[trigger] cur[a] < i by {
            if a < prev.len() {
                assert(cur[a] == prev[a]);
            } else {
                assert(cur[a] == v[a - prev.len()]);
            }
        }
        assert forall|a: int, c: int| 0 <= a < c < cur.len() implies #[trigger] cur[a] <= #[trigger] cur[c] by {
            if c < prev.len() {
                assert(cur[a] == prev[a] && cur[c] == prev[c]);
            } else if a < prev.len() {
                assert(cur[a] == prev[a]);
                assert(cur[c] == v[c - prev.len()]);
            } else {
                assert(cur[a] == v[a - prev.len()]);
                assert(cur[c] == v[c - prev.len()]);
            }
        }
    }
}

/// For the station with index `station_index`: each tick at which some bus
/// stops there, mapped to those buses in route order.
pub fn get_station_buses_index_hash_map(
    station_index: usize,
    bus_routes: &Vec<Vec<PassengerBusLocation>>,
) -> (res: HashMap<u32, Vec<usize>>)
    ensures
        forall|tick: u32|
            #![trigger res@.contains_key(tick)]
            res@.contains_key(tick) <==> buses_at_station(
                routes_view(bus_routes@),
                station_index,
                tick,
                bus_routes.len() as int,
            ).len() > 0,
        forall|tick: u32|
            res@.contains_key(tick) ==> (#[trigger] res@[tick])@ == buses_at_station(
                routes_view(bus_routes@),
                station_index,
                tick,
                bus_routes.len() as int,
            ),
{
    let ghost routes = routes_view(bus_routes@);
    let mut route_hash_map: HashMap<u32, Vec<usize>> = HashMap::new();
    let mut bus_index: usize = 0;
    while bus_index < bus_routes.len()
        invariant
            bus_index <= bus_routes.len(),
            routes == routes_view(bus_routes@),
            forall|tick: u32|
                #![trigger route_hash_map@.contains_key(tick)]
                route_hash_map@.contains_key(tick) <==> buses_at_station(routes, station_index, tick, bus_index as int).len()
                    > 0,
            forall|tick: u32|
                route_hash_map@.contains_key(tick) ==> (#[trigger] route_hash_map@[tick])@ == buses_at_station(
                    routes,
                    station_index,
                    tick,
                    bus_index as int,
                ),
        decreases bus_routes.len() - bus_index,
    {
        let route = &bus_routes[bus_index];
        assert(routes[bus_index as int] == route@);
        let ghost before = route_hash_map@;
        let mut j: usize = 0;
        while j < route.len()
            invariant
                j <= route.len(),
                bus_index < bus_routes.len(),
                route == &bus_routes@[bus_index as int],
                routes == routes_view(bus_routes@),
                forall|tick: u32|
                    #![trigger route_hash_map@.contains_key(tick)]
                    route_hash_map@.contains_key(tick) <==> (buses_at_station(routes, station_index, tick, bus_index as int)
                        + bus_visits(route@, bus_index, station_index, tick, j as int)).len() > 0,
                forall|tick: u32|
                    route_hash_map@.contains_key(tick) ==> (#[trigger] route_hash_map@[tick])@ == buses_at_station(
                        routes,
                        station_index,
                        tick,
                        bus_index as int,
                    ) + bus_visits(route@, bus_index, station_index, tick, j as int),
            decreases route.len() - j,
        {
            let bus_location = route[j];
            if bus_location.location.index == station_index {
                let t = bus_location.location_time_tick;
                let ghost old_map = route_hash_map@;
                match route_hash_map.remove(&t) {
                    Some(mut bus_list) => {
                        bus_list.push(bus_index);
                        route_hash_map.insert(t, bus_list);
                    },
                    None => {
                        let mut bus_list: Vec<usize> = Vec::new();
                        bus_list.push(bus_index);
                        route_hash_map.insert(t, bus_list);
                    },
                }
                assert forall|tick: u32|
                    route_hash_map@.contains_key(tick) implies (#[trigger] route_hash_map@[tick])@ == buses_at_station(
                        routes,
                        station_index,
                        tick,
                        bus_index as int,
                    ) + bus_visits(route@, bus_index, station_index, tick, j + 1) by {
                    if tick == t {
                        if old_map.contains_key(t) {
                            assert(route_hash_map@[tick]@ =~= old_map[t]@.push(bus_index));
                        } else {
                            assert(route_hash_map@[tick]@ =~= seq![bus_index]);
                            assert(buses_at_station(routes, station_index, tick, bus_index as int)
                                + bus_visits(route@, bus_index, station_index, tick, j as int) =~= Seq::<usize>::empty());
                        }
                    }
                }
            }
            j = j + 1;
        }
        assert forall|tick: u32|
            #![trigger route_hash_map@.contains_key(tick)]
            route_hash_map@.contains_key(tick) <==> buses_at_station(routes, station_index, tick, bus_index + 1).len() > 0 by {
            assert(buses_at_station(routes, station_index, tick, bus_index + 1) == buses_at_station(routes, station_index, tick, bus_index as int)
                + bus_visits(route@, bus_index, station_index, tick, route.len() as int));
        }
        bus_index = bus_index + 1;
    }
    route_hash_map
}

/// A station.
#[derive(Debug)]
pub struct Station {
    pub location: Location,
    pub docked_buses: Vec<SendableBus>,
    pub passengers: Vec<Passenger>,
    pub buses_unavailable: Vec<usize>,
    pub bus_loading_first_iteration: Option<bool>,
    pub arrived_passengers: Vec<Passenger>,
}

/// The mathematical value of a station.
pub struct StationView {
    pub location: Location,
    pub docked_buses: Seq<SendableBus>,
    pub passengers: Seq<PassengerView>,
    pub buses_unavailable: Seq<usize>,
    pub bus_loading_first_iteration: Option<bool>,
    pub arrived_passengers: Seq<PassengerView>,
}

impl View for Station {
    type V = StationView;

    open spec fn view(&self) -> StationView {
        StationView {
            location: self.location,
            docked_buses: self.docked_buses@,
            passengers: passengers_view(self.passengers@),
            buses_unavailable: self.buses_unavailable@,
            bus_loading_first_iteration: self.bus_loading_first_iteration,
            arrived_passengers: passengers_view(self.arrived_passengers@),
        }
    }
}

/// A passenger with a fresh plan, its first entry already handed out (the
/// passenger is there) and the bus of that entry as the next one to take.
pub open spec fn scheduled_passenger(p: PassengerView, s: Seq<PassengerOnboardingBusSchedule>) -> PassengerView {
    PassengerView { bus_schedule: s, schedule_cursor: 1, next_bus_num: s[0].bus_num, ..p }
}

/// A passenger with a fresh plan handed out from its first entry.
pub open spec fn rerouted_passenger(p: PassengerView, s: Seq<PassengerOnboardingBusSchedule>) -> PassengerView {
    PassengerView { bus_schedule: s, schedule_cursor: 0, ..p }
}

/// A passenger who got off a bus at the stop its plan names next: the entry is
/// handed out and archived, and the passenger is there, bound for that
/// entry's bus.
pub open spec fn arrived_at_stop(p: PassengerView) -> PassengerView {
    let e = p.bus_schedule[p.schedule_cursor as int];
    PassengerView {
        current_location: Some(e.stop_location),
        next_bus_num: e.bus_num,
        archived_stop_list: p.archived_stop_list.push(e),
        schedule_cursor: (p.schedule_cursor + 1) as usize,
        ..p
    }
}

/// A passenger who gets off at a station is there, at the location of the plan
/// entry it just reached, and waits for that entry's bus (the bus of the next
/// leg, not the one it left); the entry is archived, the plan moves on by one,
/// and nothing else about the passenger changes.
pub proof fn lemma_arrival_takes_up_next_entry(p: PassengerView)
    requires
        upcoming_stop(p) is Some,
    ensures
        arrived_at_stop(p).current_location == Some(p.bus_schedule[p.schedule_cursor as int].stop_location),
        arrived_at_stop(p).next_bus_num == p.bus_schedule[p.schedule_cursor as int].bus_num,
        arrived_at_stop(p).schedule_cursor == (p.schedule_cursor + 1) as usize,
        arrived_at_stop(p).archived_stop_list == p.archived_stop_list.push(p.bus_schedule[p.schedule_cursor as int]),
        arrived_at_stop(p).bus_schedule == p.bus_schedule,
        arrived_at_stop(p).id == p.id && arrived_at_stop(p).index == p.index,
        arrived_at_stop(p).destination_location == p.destination_location,
        arrived_at_stop(p).passed_stops == p.passed_stops,
        arrived_at_stop(p).beginning_time_step == p.beginning_time_step,
{
}

/// The station's waiting passengers and the rejected ones after the first `n`
/// passengers of `list` asked for a plan at `tick`.
pub open spec fn admit_passengers(
    waiting: Seq<PassengerView>,
    rejected: Seq<PassengerView>,
    list: Seq<PassengerView>,
    tick: u32,
    routes: Seq<Seq<PassengerBusLocation>>,
    n: int,
) -> (Seq<PassengerView>, Seq<PassengerView>)
    decreases n,
{
    if n <= 0 {
        (waiting, rejected)
    } else {
        let prev = admit_passengers(waiting, rejected, list, tick, routes, n - 1);
        let p = list[n - 1];
        match passenger_schedule(p, tick, routes) {
            Some(s) => (prev.0.push(scheduled_passenger(p, s)), prev.1),
            None => (prev.0, prev.1.push(p)),
        }
    }
}

/// Every passenger asked for a plan ends up waiting or rejected, exactly once.
pub proof fn lemma_admit_passengers_keeps_everyone(
    waiting: Seq<PassengerView>,
    rejected: Seq<PassengerView>,
    list: Seq<PassengerView>,
    tick: u32,
    routes: Seq<Seq<PassengerBusLocation>>,
    n: int,
)
    requires
        0 <= n,
    ensures
        admit_passengers(waiting, rejected, list, tick, routes, n).0.len() + admit_passengers(
            waiting,
            rejected,
            list,
            tick,
            routes,
            n,
        ).1.len() == waiting.len() + rejected.len() + n,
    decreases n,
{
    if n > 0 {
        lemma_admit_passengers_keeps_everyone(waiting, rejected, list, tick, routes, n - 1);
    }
}

/// Whether a new tick may follow `current`: the tick number may stay or grow by one.
pub open spec fn valid_time_step(current: TimeTick, new_time_step: TimeTick) -> bool {
    current.number <= new_time_step.number <= current.number + 1
}

/// Whether a station may take over `new_time_step` after `current`.
pub fn time_step_is_valid(current: &TimeTick, new_time_step: &TimeTick) -> (res: bool)
    ensures
        res == valid_time_step(*current, *new_time_step),
{
    new_time_step.number >= current.number && new_time_step.number - current.number <= 1
}

impl Station {
    /// An empty station at `location`.
    pub fn new(location: Location, passenger_bus_routes: &Vec<Vec<PassengerBusLocation>>) -> (s: Self)
        ensures
            s@ == (StationView {
                location: location,
                docked_buses: Seq::empty(),
                passengers: Seq::empty(),
                buses_unavailable: Seq::empty(),
                bus_loading_first_iteration: None,
                arrived_passengers: Seq::empty(),
            }),
    {
        let _location_time_tick_hashmap = get_station_buses_index_hash_map(
            location.index,
            passenger_bus_routes,
        );
        let s = Station {
            location,
            docked_buses: Vec::new(),
            passengers: Vec::new(),
            buses_unavailable: Vec::new(),
            bus_loading_first_iteration: None,
            arrived_passengers: Vec::new(),
        };
        assert(passengers_view(s.passengers@) =~= Seq::<PassengerView>::empty());
        assert(passengers_view(s.arrived_passengers@) =~= Seq::<PassengerView>::empty());
        s
    }

    /// Plans the trip of a passenger who starts at this station at `time_tick`
    /// and lets it wait here, with the first plan entry handed out; hands the
    /// passenger back, with nothing changed, when no plan exists.
    pub fn add_passenger(
        &mut self,
        new_passenger: Passenger,
        time_tick: &TimeTick,
        bus_route_list: &Vec<Vec<PassengerBusLocation>>,
    ) -> (res: Result<(), Passenger>)
        requires
            new_passenger.current_location is Some,
        ensures
            match passenger_schedule(new_passenger@, time_tick.number, routes_view(bus_route_list@)) {
                Some(s) => res is Ok && final(self)@ == (StationView {
                    passengers: old(self)@.passengers.push(scheduled_passenger(new_passenger@, s)),
                    ..old(self)@
                }),
                None => res matches Err(p) && p@ == new_passenger@ && final(self)@ == old(self)@,
            },
    {
        let new_bus_schedule = calculate_passenger_schedule_for_bus(
            &new_passenger,
            time_tick.number,
            bus_route_list,
        )?;
        let mut new_passenger = new_passenger;
        new_passenger.set_bus_schedule(new_bus_schedule);
        let first_passenger_location = new_passenger.next_stop();
        match first_passenger_location {
            Some(first) => {
                new_passenger.next_bus_num = first.bus_num;
            },
            None => {},
        }
        let ghost before = self.passengers@;
        self.passengers.push(new_passenger);
        assert(passengers_view(self.passengers@) =~= passengers_view(before).push(new_passenger@));
        Ok(())
    }

    /// Plans again the trip of a passenger who could not board, avoiding the
    /// stop at `current_time_tick` of every bus in `buses_unavailable`, and lets
    /// it wait here with the new plan handed out from its first entry; hands the
    /// passenger back, with nothing changed, when no plan exists.
    pub fn add_passenger_check_available_buses(
        &mut self,
        new_passenger: Passenger,
        current_time_tick: &TimeTick,
        bus_route_list: &Vec<Vec<PassengerBusLocation>>,
        buses_unavailable: Vec<usize>,
    ) -> (res: Result<(), Passenger>)
        requires
            new_passenger.current_location is Some,
        ensures
            match passenger_schedule(
                new_passenger@,
                current_time_tick.number,
                available_routes(routes_view(bus_route_list@), current_time_tick.number, buses_unavailable@),
            ) {
                Some(s) => res is Ok && final(self)@ == (StationView {
                    passengers: old(self)@.passengers.push(rerouted_passenger(new_passenger@, s)),
                    ..old(self)@
                }),
                None => res matches Err(p) && p@ == new_passenger@ && final(self)@ == old(self)@,
            },
    {
        let new_bus_schedule = calculate_passenger_schedule_for_bus_check_available_buses(
            &new_passenger,
            current_time_tick.number,
            bus_route_list,
            buses_unavailable,
        )?;
        let mut new_passenger = new_passenger;
        new_passenger.set_bus_schedule(new_bus_schedule);
        let ghost before = self.passengers@;
        self.passengers.push(new_passenger);
        assert(passengers_view(self.passengers@) =~= passengers_view(before).push(new_passenger@));
        Ok(())
    }

    /// The passengers who start at this station ask for a plan at tick 0; those
    /// who get one wait here, the others are handed back.
    pub fn init_passengers(
        &mut self,
        list: Vec<Passenger>,
        time_tick: &TimeTick,
        bus_route_list: &Vec<Vec<PassengerBusLocation>>,
    ) -> (rejected: Vec<Passenger>)
        requires
            time_tick.number == 0,
            forall|i: int| 0 <= i < list.len() ==> (#[trigger] list@[i]).current_location is Some,
        ensures
            ({
                let outcome = admit_passengers(
                    old(self)@.passengers,
                    Seq::empty(),
                    passengers_view(list@),
                    time_tick.number,
                    routes_view(bus_route_list@),
                    list.len() as int,
                );
                &&& final(self)@ == (StationView { passengers: outcome.0, ..old(self)@ })
                &&& passengers_view(rejected@) == outcome.1
            }),
    {
        let ghost start = self@;
        let ghost listv = passengers_view(list@);
        let ghost routes = routes_view(bus_route_list@);
        let mut rejected: Vec<Passenger> = Vec::new();
        let mut i: usize = 0;
        while i < list.len()
            invariant
                i <= list.len(),
                listv == passengers_view(list@),
                routes == routes_view(bus_route_list@),
                forall|k: int| 0 <= k < list.len() ==> (#[trigger] list@[k]).current_location is Some,
                ({
                    let outcome = admit_passengers(start.passengers, Seq::empty(), listv, time_tick.number, routes, i as int);
                    &&& self@ == (StationView { passengers: outcome.0, ..start })
                    &&& passengers_view(rejected@) == outcome.1
                }),
            decreases list.len() - i,
        {
            let passenger = list[i].clone();
            assert(listv[i as int] == passenger@);
            match self.add_passenger(passenger, time_tick, bus_route_list) {
                Ok(()) => {},
                Err(p) => {
                    let ghost before = rejected@;
                    rejected.push(p);
                    assert(passengers_view(rejected@) =~= passengers_view(before).push(p@));
                },
            }
            i = i + 1;
        }
        rejected
    }

    /// A bus arrives during the unloading stage: the passengers getting off
    /// reach the stop their plan names next and wait here, the bus is docked,
    /// and it is told unloading is done.
    pub fn receive_bus(
        &mut self,
        passengers_offboarding: Vec<Passenger>,
        bus_info: SendableBus,
    ) -> (reply: StationToBusMessages)
        requires
            forall|i: int|
                0 <= i < passengers_offboarding.len() ==> upcoming_stop((#[trigger] passengers_offboarding@[i])@)
                    is Some,
            !old(self).docked_buses@.contains(bus_info),
        ensures
            reply is FinishedUnloading,
            final(self)@ == (StationView {
                passengers: old(self)@.passengers + passengers_view(passengers_offboarding@).map_values(
                    |p: PassengerView| arrived_at_stop(p),
                ),
                docked_buses: old(self)@.docked_buses.push(bus_info),
                ..old(self)@
            }),
            final(self)@.passengers.len() == old(self)@.passengers.len() + passengers_offboarding.len(),
            forall|i: int|
                0 <= i < passengers_offboarding.len() ==> {
                    let p = (#[trigger] passengers_offboarding@[i])@;
                    let q = final(self)@.passengers[old(self)@.passengers.len() + i];
                    let e = p.bus_schedule[p.schedule_cursor as int];
                    &&& q.current_location == Some(e.stop_location)
                    &&& q.next_bus_num == e.bus_num
                    &&& q.schedule_cursor == (p.schedule_cursor + 1) as usize
                    &&& q.archived_stop_list == p.archived_stop_list.push(e)
                    &&& q.bus_schedule == p.bus_schedule
                    &&& q.id == p.id && q.index == p.index && q.destination_location == p.destination_location
                },
    {
        let ghost start = self@;
        let ghost arriving = passengers_view(passengers_offboarding@);
        let mut passengers_offboarding = passengers_offboarding;
        let mut i: usize = 0;
        while i < passengers_offboarding.len()
            invariant
                i <= passengers_offboarding.len(),
                arriving.len() == passengers_offboarding.len(),
                self@ == start,
                forall|k: int|
                    0 <= k < arriving.len() ==> upcoming_stop(#[trigger] arriving[k]) is Some,
                forall|k: int|
                    0 <= k < i ==> (#[trigger] passengers_offboarding@[k])@ == arrived_at_stop(arriving[k]),
                forall|k: int|
                    i <= k < arriving.len() ==> (#[trigger] passengers_offboarding@[k])@ == arriving[k],
            decreases passengers_offboarding.len() - i,
        {
            let mut passenger = passengers_offboarding.remove(i);
            let ghost before = passengers_offboarding@;
            let passenger_location = passenger.next_stop();
            match passenger_location {
                Some(loc) => {
                    passenger.current_location = Some(loc.stop_location);
                    passenger.next_bus_num = loc.bus_num;
                    passenger.archived_stop_list.push(loc);
                },
                None => {},
            }
            passengers_offboarding.insert(i, passenger);
            assert(passengers_offboarding@ == before.insert(i as int, passenger));
            i = i + 1;
        }
        let mut k: usize = 0;
        let ghost before_all = self.passengers@;
        while k < passengers_offboarding.len()
            invariant
                k <= passengers_offboarding.len(),
                arriving.len() == passengers_offboarding.len(),
                forall|m: int|
                    0 <= m < arriving.len() ==> (#[trigger] passengers_offboarding@[m])@ == arrived_at_stop(arriving[m]),
                self@ == (StationView {
                    passengers: start.passengers + arriving.map_values(|p: PassengerView| arrived_at_stop(p)).subrange(
                        0,
                        k as int,
                    ),
                    ..start
                }),
            decreases passengers_offboarding.len() - k,
        {
            let p = passengers_offboarding[k].clone();
            let ghost before = self.passengers@;
            self.passengers.push(p);
            assert(passengers_view(self.passengers@) =~= passengers_view(before).push(p@));
            assert(start.passengers + arriving.map_values(|p: PassengerView| arrived_at_stop(p)).subrange(0, k + 1)
                =~= (start.passengers + arriving.map_values(|p: PassengerView| arrived_at_stop(p)).subrange(0, k as int)).push(
                arrived_at_stop(arriving[k as int]),
            ));
            k = k + 1;
        }
        assert(arriving.map_values(|p: PassengerView| arrived_at_stop(p)).subrange(0, arriving.len() as int)
            =~= arriving.map_values(|p: PassengerView| arrived_at_stop(p)));
        self.docked_buses.push(bus_info);
        proof {
            let all = start.passengers + arriving.map_values(|p: PassengerView| arrived_at_stop(p));
            assert(self@.passengers == all);
            assert forall|i: int| 0 <= i < arriving.len() implies {
                let p = #[trigger] arriving[i];
                let q = all[start.passengers.len() + i];
                let e = p.bus_schedule[p.schedule_cursor as int];
                &&& q.current_location == Some(e.stop_location)
                &&& q.next_bus_num == e.bus_num
                &&& q.schedule_cursor == (p.schedule_cursor + 1) as usize
                &&& q.archived_stop_list == p.archived_stop_list.push(e)
                &&& q.bus_schedule == p.bus_schedule
                &&& q.id == p.id && q.index == p.index && q.destination_location == p.destination_location
            } by {
                lemma_arrival_takes_up_next_entry(arriving[i]);
                assert(all[start.passengers.len() + i] == arrived_at_stop(arriving[i]));
            }
        }
        StationToBusMessages::FinishedUnloading
    }
}


/// The bus numbers of the docked buses, in docking order.
pub open spec fn docked_indices(docked: Seq<SendableBus>) -> Seq<usize> {
    docked.map_values(|b: SendableBus| b.bus_index)
}

/// The docked buses other than bus `bus_index`, in order.
pub open spec fn without_bus(docked: Seq<SendableBus>, bus_index: usize) -> Seq<SendableBus> {
    docked.filter(|b: SendableBus| b.bus_index != bus_index)
}

/// Whether a passenger's plan has no entry left: it has reached its destination.
pub open spec fn has_arrived(p: PassengerView) -> bool {
    upcoming_stop(p) is None
}

/// The passengers among the first `n` who have reached their destination, in order.
pub open spec fn arrived_among(ps: Seq<PassengerView>, n: int) -> Seq<PassengerView>
    decreases n,
{
    if n <= 0 {
        Seq::empty()
    } else if has_arrived(ps[n - 1]) {
        arrived_among(ps, n - 1).push(ps[n - 1])
    } else {
        arrived_among(ps, n - 1)
    }
}

/// The passengers among the first `n` who travel on but whose next bus is not
/// docked: they keep waiting.
pub open spec fn staying_among(ps: Seq<PassengerView>, docked: Seq<usize>, n: int) -> Seq<PassengerView>
    decreases n,
{
    if n <= 0 {
        Seq::empty()
    } else if !has_arrived(ps[n - 1]) && !docked.contains(ps[n - 1].next_bus_num->0) {
        staying_among(ps, docked, n - 1).push(ps[n - 1])
    } else {
        staying_among(ps, docked, n - 1)
    }
}

/// The passengers among the first `n` who travel on with bus `bus` next, in order.
pub open spec fn queue_for_bus(ps: Seq<PassengerView>, bus: usize, n: int) -> Seq<PassengerView>
    decreases n,
{
    if n <= 0 {
        Seq::empty()
    } else if !has_arrived(ps[n - 1]) && ps[n - 1].next_bus_num == Some(bus) {
        queue_for_bus(ps, bus, n - 1).push(ps[n - 1])
    } else {
        queue_for_bus(ps, bus, n - 1)
    }
}

/// Where things stand while a station loads its docked buses.
pub struct LoadingState {
    pub waiting: Seq<PassengerView>,
    pub unavailable: Seq<usize>,
    pub overflow: Seq<PassengerView>,
    pub stranded: Seq<PassengerView>,
    pub sends: Seq<(usize, Seq<PassengerView>)>,
}

/// The waiting and stranded passengers after the first `n` passengers of
/// `overflow` asked for a new plan that avoids the stop at `tick` of the
/// unavailable buses: with one they wait, without one they are stranded.
pub open spec fn reroute_overflow(
    waiting: Seq<PassengerView>,
    stranded: Seq<PassengerView>,
    overflow: Seq<PassengerView>,
    tick: u32,
    routes: Seq<Seq<PassengerBusLocation>>,
    unavailable: Seq<usize>,
    n: int,
) -> (Seq<PassengerView>, Seq<PassengerView>)
    decreases n,
{
    if n <= 0 {
        (waiting, stranded)
    } else {
        let prev = reroute_overflow(waiting, stranded, overflow, tick, routes, unavailable, n - 1);
        let p = overflow[n - 1];
        match passenger_schedule(p, tick, available_routes(routes, tick, unavailable)) {
            Some(s) => (prev.0.push(rerouted_passenger(p, s)), prev.1),
            None => (prev.0, prev.1.push(p)),
        }
    }
}

/// The state after the first `k` docked buses were loaded: each is sent its
/// queue, cut to its room (the rest overflow and the bus becomes unavailable),
/// and then every passenger who has overflowed so far asks for a new plan.
pub open spec fn load_buses(
    start: LoadingState,
    docked: Seq<SendableBus>,
    ps: Seq<PassengerView>,
    tick: u32,
    routes: Seq<Seq<PassengerBusLocation>>,
    k: int,
) -> LoadingState
    decreases k,
{
    if k <= 0 {
        start
    } else {
        let prev = load_buses(start, docked, ps, tick, routes, k - 1);
        let bus = docked[k - 1];
        let queue = queue_for_bus(ps, bus.bus_index, ps.len() as int);
        let full = queue.len() > bus.capacity_remaining;
        let sent = if full {
            queue.take(bus.capacity_remaining as int)
        } else {
            queue
        };
        let overflow = if full {
            prev.overflow + queue.skip(bus.capacity_remaining as int)
        } else {
            prev.overflow
        };
        let unavailable = if full {
            prev.unavailable.push(bus.bus_index)
        } else {
            prev.unavailable
        };
        let rerouted = reroute_overflow(
            prev.waiting,
            prev.stranded,
            overflow,
            tick,
            routes,
            unavailable,
            overflow.len() as int,
        );
        LoadingState {
            waiting: rerouted.0,
            unavailable: unavailable,
            overflow: overflow,
            stranded: rerouted.1,
            sends: prev.sends.push((bus.bus_index, sent)),
        }
    }
}

/// The passengers sent to each bus, by view.
pub open spec fn sends_view(sends: Seq<(usize, Vec<Passenger>)>) -> Seq<(usize, Seq<PassengerView>)> {
    sends.map_values(|e: (usize, Vec<Passenger>)| (e.0, passengers_view(e.1@)))
}

/// What a station sends while loading: passengers to each docked bus (in
/// docking order), then a request to leave to each docked bus; and the
/// passengers for whom no plan is left.
#[derive(Debug)]
pub struct LoadingOutcome {
    pub passengers_for_buses: Vec<(usize, Vec<Passenger>)>,
    pub departure_requests: Vec<usize>,
    pub stranded_passengers: Vec<Passenger>,
}

/// The docked buses' numbers are listed once each, or a repeated number is the largest docked.
pub open spec fn docked_well_ordered(docked: Seq<SendableBus>) -> bool {
    forall|i: int, j: int|
        0 <= i < j < docked.len() && docked[i].bus_index == docked[j].bus_index ==> forall|k: int|
            0 <= k < docked.len() ==> #[trigger] docked[k].bus_index <= docked[i].bus_index
}

/// Whether bus `bus_index` is docked.
fn is_docked(docked: &Vec<SendableBus>, bus_index: usize) -> (res: bool)
    ensures
        res == docked_indices(docked@).contains(bus_index),
{
    let mut i: usize = 0;
    while i < docked.len()
        invariant
            i <= docked.len(),
            forall|k: int| 0 <= k < i ==> docked@[k].bus_index != bus_index,
        decreases docked.len() - i,
    {
        if docked[i].bus_index == bus_index {
            assert(docked_indices(docked@)[i as int] == bus_index);
            return true;
        }
        i = i + 1;
    }
    assert forall|k: int| 0 <= k < docked_indices(docked@).len() implies docked_indices(docked@)[k] != bus_index by {
        assert(docked_indices(docked@)[k] == docked@[k].bus_index);
    }
    false
}

/// A copy of a list of passengers.
fn copy_passengers(ps: &Vec<Passenger>) -> (res: Vec<Passenger>)
    ensures
        passengers_view(res@) == passengers_view(ps@),
{
    let mut res: Vec<Passenger> = Vec::new();
    let mut i: usize = 0;
    while i < ps.len()
        invariant
            i <= ps.len(),
            passengers_view(res@) == passengers_view(ps@).subrange(0, i as int),
        decreases ps.len() - i,
    {
        let ghost before = res@;
        res.push(ps[i].clone());
        assert(passengers_view(res@) =~= passengers_view(before).push(ps@[i as int]@));
        assert(passengers_view(ps@).subrange(0, i + 1) =~= passengers_view(ps@).subrange(0, i as int).push(
            ps@[i as int]@,
        ));
        i = i + 1;
    }
    assert(passengers_view(ps@).subrange(0, ps.len() as int) =~= passengers_view(ps@));
    res
}

/// A copy of a list of bus numbers.
fn copy_indices(v: &Vec<usize>) -> (res: Vec<usize>)
    ensures
        res@ == v@,
{
    let mut res: Vec<usize> = Vec::new();
    let mut i: usize = 0;
    while i < v.len()
        invariant
            i <= v.len(),
            res@ == v@.subrange(0, i as int),
        decreases v.len() - i,
    {
        res.push(v[i]);
        i = i + 1;
    }
    res
}

/// The passengers of `ps` who travel on with bus `bus` next, in order.
fn queue_for(ps: &Vec<Passenger>, bus: usize) -> (res: Vec<Passenger>)
    ensures
        passengers_view(res@) == queue_for_bus(passengers_view(ps@), bus, ps.len() as int),
{
    let ghost view = passengers_view(ps@);
    let mut res: Vec<Passenger> = Vec::new();
    let mut i: usize = 0;
    while i < ps.len()
        invariant
            i <= ps.len(),
            view == passengers_view(ps@),
            passengers_view(res@) == queue_for_bus(view, bus, i as int),
        decreases ps.len() - i,
    {
        let p = &ps[i];
        assert(view[i as int] == p@);
        let travels_on = p.peek_next_stop().is_some();
        if travels_on && p.next_bus_num == Some(bus) {
            let ghost before = res@;
            res.push(p.clone());
            assert(passengers_view(res@) =~= passengers_view(before).push(p@));
        }
        i = i + 1;
    }
    res
}

/// The loading stage may run on the station with these docked buses: arrived
/// passengers are at their destination, travelling ones know an existing next
/// bus, everyone who finds no room on a docked bus has a whereabouts (to plan
/// again from), and the docked buses exist and are listed once each (or a
/// repeated one is the largest).
pub open spec fn can_load(s: StationView, docked: Seq<SendableBus>, num_of_buses: usize) -> bool {
    &&& forall|i: int|
        0 <= i < s.passengers.len() && has_arrived(#[trigger] s.passengers[i]) ==> s.passengers[i].destination_location
            == s.location
    &&& forall|i: int|
        0 <= i < s.passengers.len() && !has_arrived(#[trigger] s.passengers[i]) ==> s.passengers[i].next_bus_num
            is Some && s.passengers[i].next_bus_num->0 < num_of_buses
    &&& forall|k: int, m: int|
        0 <= k < docked.len() && docked[k].capacity_remaining <= m < queue_for_bus(
            s.passengers,
            docked[k].bus_index,
            s.passengers.len() as int,
        ).len() ==> (#[trigger] queue_for_bus(
            s.passengers,
            docked[k].bus_index,
            s.passengers.len() as int,
        )[m]).current_location is Some
    &&& forall|k: int| 0 <= k < docked.len() ==> (#[trigger] docked[k]).bus_index < num_of_buses
    &&& docked_well_ordered(docked)
}

/// Where loading starts: the travellers whose bus is not docked keep waiting.
pub open spec fn loading_start(s: StationView) -> LoadingState {
    LoadingState {
        waiting: staying_among(s.passengers, docked_indices(s.docked_buses), s.passengers.len() as int),
        unavailable: s.buses_unavailable,
        overflow: Seq::empty(),
        stranded: Seq::empty(),
        sends: Seq::empty(),
    }
}

/// Where loading ends, once every docked bus was loaded.
pub open spec fn loading_end(s: StationView, tick: u32, routes: Seq<Seq<PassengerBusLocation>>) -> LoadingState {
    load_buses(loading_start(s), s.docked_buses, s.passengers, tick, routes, s.docked_buses.len() as int)
}

/// The station after the loading stage's work.
pub open spec fn station_after_loading(s: StationView, tick: u32, routes: Seq<Seq<PassengerBusLocation>>) -> StationView {
    let end = loading_end(s, tick, routes);
    StationView {
        passengers: end.waiting,
        buses_unavailable: end.unavailable,
        arrived_passengers: s.arrived_passengers + arrived_among(s.passengers, s.passengers.len() as int),
        bus_loading_first_iteration: Some(false),
        ..s
    }
}

/// What the loading stage's work sends.
pub open spec fn loading_outcome_matches(
    outcome: LoadingOutcome,
    s: StationView,
    tick: u32,
    routes: Seq<Seq<PassengerBusLocation>>,
) -> bool {
    let end = loading_end(s, tick, routes);
    &&& sends_view(outcome.passengers_for_buses@) == end.sends
    &&& outcome.departure_requests@ == docked_indices(s.docked_buses)
    &&& passengers_view(outcome.stranded_passengers@) == end.stranded
}

impl Station {
    /// A docked bus leaves during the loading stage: it is undocked (every
    /// entry with its number) and told so.
    pub fn remove_departed_bus(&mut self, bus_index: usize) -> (reply: StationToBusMessages)
        requires
            docked_indices(old(self).docked_buses@).contains(bus_index),
        ensures
            reply is StationRemovedBus,
            final(self)@ == (StationView {
                docked_buses: without_bus(old(self).docked_buses@, bus_index),
                ..old(self)@
            }),
    {
        let ghost start = self.docked_buses@;
        let mut kept: Vec<SendableBus> = Vec::new();
        let mut i: usize = 0;
        while i < self.docked_buses.len()
            invariant
                i <= self.docked_buses.len(),
                self.docked_buses@ == start,
                kept@ == start.subrange(0, i as int).filter(|b: SendableBus| b.bus_index != bus_index),
            decreases self.docked_buses.len() - i,
        {
            let b = self.docked_buses[i];
            proof {
                reveal_with_fuel(Seq::filter, 1);
                assert(start.subrange(0, i + 1).drop_last() =~= start.subrange(0, i as int));
            }
            if b.bus_index != bus_index {
                kept.push(b);
            }
            i = i + 1;
        }
        assert(start.subrange(0, start.len() as int) =~= start);
        self.docked_buses = kept;
        StationToBusMessages::StationRemovedBus
    }

    /// A new tick has begun: no docked bus is unavailable any more.
    pub fn clear_unavailable_buses(&mut self)
        ensures
            final(self)@ == (StationView { buses_unavailable: Seq::empty(), ..old(self)@ }),
    {
        self.buses_unavailable = Vec::new();
    }

    /// The passengers of `overflow` ask, in order, for a new plan avoiding the
    /// unavailable buses' stops at `time_tick`; those without one are stranded.
    fn reroute_overflowed(
        &mut self,
        overflow: &Vec<Passenger>,
        time_tick: &TimeTick,
        bus_route_list: &Vec<Vec<PassengerBusLocation>>,
        stranded: &mut Vec<Passenger>,
    )
        requires
            forall|i: int| 0 <= i < overflow.len() ==> (#[trigger] overflow@[i]).current_location is Some,
        ensures
            ({
                let r = reroute_overflow(
                    old(self)@.passengers,
                    passengers_view(old(stranded)@),
                    passengers_view(overflow@),
                    time_tick.number,
                    routes_view(bus_route_list@),
                    old(self).buses_unavailable@,
                    overflow.len() as int,
                );
                &&& final(self)@ == (StationView { passengers: r.0, ..old(self)@ })
                &&& passengers_view(final(stranded)@) == r.1
            }),
    {
        let ghost start = self@;
        let ghost start_stranded = passengers_view(stranded@);
        let ghost over = passengers_view(overflow@);
        let mut i: usize = 0;
        while i < overflow.len()
            invariant
                i <= overflow.len(),
                over == passengers_view(overflow@),
                forall|k: int| 0 <= k < overflow.len() ==> (#[trigger] overflow@[k]).current_location is Some,
                self.buses_unavailable@ == start.buses_unavailable,
                ({
                    let r = reroute_overflow(
                        start.passengers,
                        start_stranded,
                        over,
                        time_tick.number,
                        routes_view(bus_route_list@),
                        start.buses_unavailable,
                        i as int,
                    );
                    &&& self@ == (StationView { passengers: r.0, ..start })
                    &&& passengers_view(stranded@) == r.1
                }),
            decreases overflow.len() - i,
        {
            let passenger = overflow[i].clone();
            assert(over[i as int] == passenger@);
            let unavailable = copy_indices(&self.buses_unavailable);
            match self.add_passenger_check_available_buses(passenger, time_tick, bus_route_list, unavailable) {
                Ok(()) => {},
                Err(p) => {
                    let ghost before = stranded@;
                    stranded.push(p);
                    assert(passengers_view(stranded@) =~= passengers_view(before).push(p@));
                },
            }
            i = i + 1;
        }
    }

    /// The loading stage's work, done once per tick: passengers who have
    /// reached their destination are set aside as arrived; each docked bus is
    /// sent, in docking order, the passengers waiting for it as far as its room
    /// allows, the rest overflow and ask for a new plan that avoids the full
    /// bus (those without one are stranded); then every docked bus is asked
    /// to leave.
    pub fn load_docked_buses(
        &mut self,
        time_tick: &TimeTick,
        num_of_buses: usize,
        bus_route_list: &Vec<Vec<PassengerBusLocation>>,
    ) -> (outcome: LoadingOutcome)
        requires
            can_load(old(self)@, old(self).docked_buses@, num_of_buses),
        ensures
            final(self)@ == station_after_loading(old(self)@, time_tick.number, routes_view(bus_route_list@)),
            loading_outcome_matches(outcome, old(self)@, time_tick.number, routes_view(bus_route_list@)),
    {
        let ghost old_view = self@;
        let ghost ps = old_view.passengers;
        let ghost docked_view = self.docked_buses@;
        let ghost routes = routes_view(bus_route_list@);
        let docked = self.docked_buses.clone();
        assert(docked@ =~= docked_view);
        // Passengers who have arrived, and those whose next bus is not here.
        let mut arrived_now: Vec<Passenger> = Vec::new();
        let mut staying: Vec<Passenger> = Vec::new();
        let mut i: usize = 0;
        while i < self.passengers.len()
            invariant
                i <= self.passengers.len(),
                self@ == old_view,
                docked@ == docked_view,
                ps == passengers_view(self.passengers@),
                passengers_view(arrived_now@) == arrived_among(ps, i as int),
                passengers_view(staying@) == staying_among(ps, docked_indices(docked_view), i as int),
                forall|k: int|
                    0 <= k < ps.len() && has_arrived(#[trigger] ps[k]) ==> ps[k].destination_location
                        == old_view.location,
                forall|k: int|
                    0 <= k < ps.len() && !has_arrived(#[trigger] ps[k]) ==> ps[k].next_bus_num is Some,
            decreases self.passengers.len() - i,
        {
            let p = &self.passengers[i];
            assert(ps[i as int] == p@);
            match p.peek_next_stop() {
                None => {
                    let ghost before = arrived_now@;
                    arrived_now.push(p.clone());
                    assert(passengers_view(arrived_now@) =~= passengers_view(before).push(p@));
                },
                Some(_) => {
                    let next_bus = match p.next_bus_num {
                        Some(b) => b,
                        None => 0,
                    };
                    if !is_docked(&docked, next_bus) {
                        let ghost before = staying@;
                        staying.push(p.clone());
                        assert(passengers_view(staying@) =~= passengers_view(before).push(p@));
                    }
                },
            }
            i = i + 1;
        }
        // The queue of each docked bus, in docking order.
        let mut queues: Vec<Vec<Passenger>> = Vec::new();
        let mut k: usize = 0;
        while k < docked.len()
            invariant
                k <= docked.len(),
                ps == passengers_view(self.passengers@),
                queues.len() == k,
                forall|m: int|
                    0 <= m < k ==> passengers_view((#[trigger] queues@[m])@) == queue_for_bus(
                        ps,
                        docked@[m].bus_index,
                        ps.len() as int,
                    ),
            decreases docked.len() - k,
        {
            queues.push(queue_for(&self.passengers, docked[k].bus_index));
            k = k + 1;
        }
        // Set the arrived passengers aside; the others keep waiting.
        let mut a: usize = 0;
        let ghost arrived_before = self@.arrived_passengers;
        while a < arrived_now.len()
            invariant
                a <= arrived_now.len(),
                self@ == (StationView {
                    arrived_passengers: arrived_before + passengers_view(arrived_now@).subrange(0, a as int),
                    ..old_view
                }),
            decreases arrived_now.len() - a,
        {
            let ghost before = self.arrived_passengers@;
            self.arrived_passengers.push(arrived_now[a].clone());
            assert(passengers_view(self.arrived_passengers@) =~= passengers_view(before).push(arrived_now@[a as int]@));
            assert(arrived_before + passengers_view(arrived_now@).subrange(0, a + 1) =~= (arrived_before
                + passengers_view(arrived_now@).subrange(0, a as int)).push(arrived_now@[a as int]@));
            a = a + 1;
        }
        assert(passengers_view(arrived_now@).subrange(0, arrived_now.len() as int) =~= passengers_view(arrived_now@));
        self.passengers = staying;
        // Load each docked bus.
        let ghost start = LoadingState {
            waiting: staying_among(ps, docked_indices(docked_view), ps.len() as int),
            unavailable: old_view.buses_unavailable,
            overflow: Seq::empty(),
            stranded: Seq::empty(),
            sends: Seq::empty(),
        };
        let ghost after_arrivals = self@;
        let mut overflow: Vec<Passenger> = Vec::new();
        let mut stranded: Vec<Passenger> = Vec::new();
        let mut sends: Vec<(usize, Vec<Passenger>)> = Vec::new();
        let mut b: usize = 0;
        while b < docked.len()
            invariant
                b <= docked.len(),
                docked@ == docked_view,
                routes == routes_view(bus_route_list@),
                queues.len() == docked.len(),
                forall|m: int|
                    0 <= m < docked.len() ==> passengers_view((#[trigger] queues@[m])@) == queue_for_bus(
                        ps,
                        docked@[m].bus_index,
                        ps.len() as int,
                    ),
                forall|k: int, m: int|
                    0 <= k < docked_view.len() && docked_view[k].capacity_remaining <= m < queue_for_bus(
                        ps,
                        docked_view[k].bus_index,
                        ps.len() as int,
                    ).len() ==> (#[trigger] queue_for_bus(ps, docked_view[k].bus_index, ps.len() as int)[m]).current_location
                        is Some,
                forall|m: int| 0 <= m < overflow.len() ==> (#[trigger] overflow@[m])@.current_location is Some,
                ({
                    let st = load_buses(start, docked_view, ps, time_tick.number, routes, b as int);
                    &&& self@ == (StationView {
                        passengers: st.waiting,
                        buses_unavailable: st.unavailable,
                        ..after_arrivals
                    })
                    &&& passengers_view(overflow@) == st.overflow
                    &&& passengers_view(stranded@) == st.stranded
                    &&& sends_view(sends@) == st.sends
                }),
            decreases docked.len() - b,
        {
            let bus = docked[b];
            let queue = copy_passengers(&queues[b]);
            let ghost qv = queue_for_bus(ps, bus.bus_index, ps.len() as int);
            assert(passengers_view(queue@) == qv);
            assert(docked_view[b as int] == bus);
            let remaining_capacity = bus.capacity_remaining;
            let mut to_send: Vec<Passenger> = Vec::new();
            let mut q: usize = 0;
            let limit = if queue.len() > remaining_capacity {
                remaining_capacity
            } else {
                queue.len()
            };
            let ghost overflow_before = passengers_view(overflow@);
            while q < queue.len()
                invariant
                    q <= queue.len(),
                    limit <= queue.len(),
                    passengers_view(queue@) == qv,
                    forall|m: int| bus.capacity_remaining <= m < qv.len() ==> (#[trigger] qv[m]).current_location is Some,
                    limit < queue.len() ==> limit == bus.capacity_remaining,
                    forall|m: int| 0 <= m < overflow.len() ==> (#[trigger] overflow@[m])@.current_location is Some,
                    q <= limit ==> passengers_view(to_send@) == qv.subrange(0, q as int) && passengers_view(
                        overflow@,
                    ) == overflow_before,
                    q > limit ==> passengers_view(to_send@) == qv.subrange(0, limit as int) && passengers_view(
                        overflow@,
                    ) == overflow_before + qv.subrange(limit as int, q as int),
                decreases queue.len() - q,
            {
                let p = queue[q].clone();
                assert(qv[q as int] == p@);
                if q < limit {
                    let ghost before = to_send@;
                    to_send.push(p);
                    assert(passengers_view(to_send@) =~= passengers_view(before).push(p@));
                    assert(qv.subrange(0, q + 1) =~= qv.subrange(0, q as int).push(p@));
                } else {
                    let ghost before = overflow@;
                    overflow.push(p);
                    assert(passengers_view(overflow@) =~= passengers_view(before).push(p@));
                    assert(overflow_before + qv.subrange(limit as int, q + 1) =~= (overflow_before
                        + qv.subrange(limit as int, q as int)).push(p@));
                }
                q = q + 1;
            }
            if queue.len() > remaining_capacity {
                self.buses_unavailable.push(bus.bus_index);
                assert(qv.take(remaining_capacity as int) =~= qv.subrange(0, limit as int));
                assert(qv.skip(remaining_capacity as int) =~= qv.subrange(limit as int, queue.len() as int));
            } else {
                assert(qv =~= qv.subrange(0, queue.len() as int));
            }
            let ghost sends_before = sends@;
            let ghost sent_view = passengers_view(to_send@);
            sends.push((bus.bus_index, to_send));
            assert(sends_view(sends@) =~= sends_view(sends_before).push((bus.bus_index, sent_view)));
            assert(docked_view[b as int] == bus);
            assert(passengers_view(overflow@).len() == overflow.len());
            self.reroute_overflowed(&overflow, time_tick, bus_route_list, &mut stranded);
            b = b + 1;
        }
        let mut departure_requests: Vec<usize> = Vec::new();
        let mut d: usize = 0;
        while d < docked.len()
            invariant
                d <= docked.len(),
                docked@ == docked_view,
                departure_requests@ == docked_indices(docked_view).subrange(0, d as int),
            decreases docked.len() - d,
        {
            departure_requests.push(docked[d].bus_index);
            assert(docked_indices(docked_view).subrange(0, d + 1) =~= docked_indices(docked_view).subrange(
                0,
                d as int,
            ).push(docked[d as int].bus_index));
            d = d + 1;
        }
        assert(docked_indices(docked_view).subrange(0, docked.len() as int) =~= docked_indices(docked_view));
        self.bus_loading_first_iteration = Some(false);
        LoadingOutcome { passengers_for_buses: sends, departure_requests, stranded_passengers: stranded }
    }
}



/// Rerouting accounts for every overflowing passenger exactly once: it waits
/// again with a new plan, or it is stranded.
pub proof fn lemma_reroute_keeps_everyone(
    waiting: Seq<PassengerView>,
    stranded: Seq<PassengerView>,
    overflow: Seq<PassengerView>,
    tick: u32,
    routes: Seq<Seq<PassengerBusLocation>>,
    unavailable: Seq<usize>,
    n: int,
)
    requires
        0 <= n,
    ensures
        reroute_overflow(waiting, stranded, overflow, tick, routes, unavailable, n).0.len()
            + reroute_overflow(waiting, stranded, overflow, tick, routes, unavailable, n).1.len()
            == waiting.len() + stranded.len() + n,
    decreases n,
{
    if n > 0 {
        lemma_reroute_keeps_everyone(waiting, stranded, overflow, tick, routes, unavailable, n - 1);
    }
}

/// Everyone queued for a bus is one of the station's passengers, travels on,
/// and has that bus next.
proof fn lemma_queue_members(ps: Seq<PassengerView>, bus: usize, n: int)
    requires
        0 <= n <= ps.len(),
    ensures
        forall|i: int|
            0 <= i < queue_for_bus(ps, bus, n).len() ==> {
                &&& ps.contains(#[trigger] queue_for_bus(ps, bus, n)[i])
                &&& queue_for_bus(ps, bus, n)[i].next_bus_num == Some(bus)
                &&& !has_arrived(queue_for_bus(ps, bus, n)[i])
            },
    decreases n,
{
    if n > 0 {
        lemma_queue_members(ps, bus, n - 1);
        let prev = queue_for_bus(ps, bus, n - 1);
        let cur = queue_for_bus(ps, bus, n);
        assert forall|i: int| 0 <= i < cur.len() implies {
            &&& ps.contains(#[trigger] cur[i])
            &&& cur[i].next_bus_num == Some(bus)
            &&& !has_arrived(cur[i])
        } by {
            if i < prev.len() {
                assert(cur[i] == prev[i]);
            } else {
                assert(cur[i] == ps[n - 1]);
            }
        }
    }
}

/// While loading, no docked bus is sent more passengers than the room it
/// reported, and each is sent only passengers of the station who travel on with
/// that bus next: the first of them, in the station's order.
pub proof fn lemma_loading_respects_room(
    start: LoadingState,
    docked: Seq<SendableBus>,
    ps: Seq<PassengerView>,
    tick: u32,
    routes: Seq<Seq<PassengerBusLocation>>,
    k: int,
)
    requires
        0 <= k <= docked.len(),
        start.sends.len() == 0,
    ensures
        load_buses(start, docked, ps, tick, routes, k).sends.len() == k,
        forall|m: int|
            0 <= m < k ==> (#[trigger] load_buses(start, docked, ps, tick, routes, k).sends[m]).0
                == docked[m].bus_index && load_buses(start, docked, ps, tick, routes, k).sends[m].1.len()
                <= docked[m].capacity_remaining,
        forall|m: int|
            0 <= m < k ==> (#[trigger] load_buses(start, docked, ps, tick, routes, k).sends[m]).1 == queue_for_bus(
                ps,
                docked[m].bus_index,
                ps.len() as int,
            ).take(load_buses(start, docked, ps, tick, routes, k).sends[m].1.len() as int),
        forall|m: int, i: int|
            0 <= m < k && 0 <= i < load_buses(start, docked, ps, tick, routes, k).sends[m].1.len() ==> {
                &&& ps.contains(#[trigger] load_buses(start, docked, ps, tick, routes, k).sends[m].1[i])
                &&& load_buses(start, docked, ps, tick, routes, k).sends[m].1[i].next_bus_num == Some(
                    docked[m].bus_index,
                )
                &&& !has_arrived(load_buses(start, docked, ps, tick, routes, k).sends[m].1[i])
            },
    decreases k,
{
    if k > 0 {
        lemma_loading_respects_room(start, docked, ps, tick, routes, k - 1);
        let prev = load_buses(start, docked, ps, tick, routes, k - 1);
        let cur = load_buses(start, docked, ps, tick, routes, k);
        let queue = queue_for_bus(ps, docked[k - 1].bus_index, ps.len() as int);
        lemma_queue_members(ps, docked[k - 1].bus_index, ps.len() as int);
        assert(cur.sends[k - 1].1 =~= queue.take(cur.sends[k - 1].1.len() as int));
        assert forall|m: int| 0 <= m < k implies (#[trigger] cur.sends[m]).0 == docked[m].bus_index
            && cur.sends[m].1.len() <= docked[m].capacity_remaining && cur.sends[m].1 == queue_for_bus(
            ps,
            docked[m].bus_index,
            ps.len() as int,
        ).take(cur.sends[m].1.len() as int) by {
            if m < k - 1 {
                assert(cur.sends[m] == prev.sends[m]);
            }
        }
        assert forall|m: int, i: int| 0 <= m < k && 0 <= i < cur.sends[m].1.len() implies {
            &&& ps.contains(#[trigger] cur.sends[m].1[i])
            &&& cur.sends[m].1[i].next_bus_num == Some(docked[m].bus_index)
            &&& !has_arrived(cur.sends[m].1[i])
        } by {
            if m < k - 1 {
                assert(cur.sends[m] == prev.sends[m]);
            } else {
                assert(cur.sends[m].1[i] == queue[i]);
            }
        }
    }
}


/// How many passengers among the first `n` are queued for the first `j` of the
/// given buses, all queues together.
pub open spec fn queues_total(ps: Seq<PassengerView>, buses: Seq<usize>, n: int, j: int) -> int
    decreases j,
{
    if j <= 0 {
        0
    } else {
        queues_total(ps, buses, n, j - 1) + queue_for_bus(ps, buses[j - 1], n).len()
    }
}

/// Adding the passenger at position `n - 1` adds one to the queues of the
/// first `j` buses exactly when it travels on with one of them next.
proof fn lemma_queues_total_step(ps: Seq<PassengerView>, buses: Seq<usize>, n: int, j: int)
    requires
        1 <= n <= ps.len(),
        0 <= j <= buses.len(),
        forall|a: int, b: int| 0 <= a < b < buses.len() ==> buses[a] != buses[b],
    ensures
        queues_total(ps, buses, n, j) == queues_total(ps, buses, n - 1, j) + if !has_arrived(ps[n - 1])
            && ps[n - 1].next_bus_num is Some && buses.subrange(0, j).contains(ps[n - 1].next_bus_num->0) {
            1int
        } else {
            0int
        },
    decreases j,
{
    if j > 0 {
        lemma_queues_total_step(ps, buses, n, j - 1);
        let p = ps[n - 1];
        let pre = buses.subrange(0, j - 1);
        let all = buses.subrange(0, j);
        assert forall|x: usize| all.contains(x) <==> (pre.contains(x) || buses[j - 1] == x) by {
            if all.contains(x) {
                let k = choose|k: int| 0 <= k < all.len() && all[k] == x;
                if k < j - 1 {
                    assert(pre[k] == x);
                }
            }
            if pre.contains(x) {
                let k = choose|k: int| 0 <= k < pre.len() && pre[k] == x;
                assert(all[k] == x);
            }
            if buses[j - 1] == x {
                assert(all[j - 1] == x);
            }
        }
        if pre.contains(buses[j - 1]) {
            let k = choose|k: int| 0 <= k < pre.len() && pre[k] == buses[j - 1];
            assert(buses[k] == buses[j - 1]);
        }
    }
}

/// Every passenger is arrived, staying, or queued for one of the docked buses
/// (listed once each), exactly once.
proof fn lemma_sorting_for_buses(ps: Seq<PassengerView>, buses: Seq<usize>, n: int)
    requires
        0 <= n <= ps.len(),
        forall|a: int, b: int| 0 <= a < b < buses.len() ==> buses[a] != buses[b],
        forall|i: int| 0 <= i < ps.len() && !has_arrived(#[trigger] ps[i]) ==> ps[i].next_bus_num is Some,
    ensures
        arrived_among(ps, n).len() + staying_among(ps, buses, n).len() + queues_total(ps, buses, n, buses.len() as int)
            == n,
    decreases n,
{
    if n > 0 {
        lemma_sorting_for_buses(ps, buses, n - 1);
        lemma_queues_total_step(ps, buses, n, buses.len() as int);
        assert(buses.subrange(0, buses.len() as int) =~= buses);
        let p = ps[n - 1];
        assert(has_arrived(p) || p.next_bus_num is Some);
        assert(arrived_among(ps, n).len() == arrived_among(ps, n - 1).len() + if has_arrived(p) { 1int } else { 0int });
        assert(staying_among(ps, buses, n).len() == staying_among(ps, buses, n - 1).len() + if !has_arrived(p)
            && !buses.contains(p.next_bus_num->0) {
            1int
        } else {
            0int
        });
        assert(queues_total(ps, buses, n, buses.len() as int) == queues_total(ps, buses, n - 1, buses.len() as int)
            + if !has_arrived(p) && buses.contains(p.next_bus_num->0) {
            1int
        } else {
            0int
        });
    } else {
        lemma_queues_total_none(ps, buses, buses.len() as int);
    }
}

/// No passengers, no queues.
proof fn lemma_queues_total_none(ps: Seq<PassengerView>, buses: Seq<usize>, j: int)
    ensures
        queues_total(ps, buses, 0, j) == 0,
    decreases j,
{
    if j > 0 {
        lemma_queues_total_none(ps, buses, j - 1);
    }
}

/// While no docked bus among the first `k` is full, loading sends each its
/// whole queue, and nobody overflows, is rerouted or is stranded.
proof fn lemma_loading_without_overflow(
    start: LoadingState,
    docked: Seq<SendableBus>,
    ps: Seq<PassengerView>,
    tick: u32,
    routes: Seq<Seq<PassengerBusLocation>>,
    k: int,
)
    requires
        0 <= k <= docked.len(),
        start.overflow.len() == 0,
        start.sends.len() == 0,
        forall|m: int|
            0 <= m < k ==> queue_for_bus(ps, (#[trigger] docked[m]).bus_index, ps.len() as int).len()
                <= docked[m].capacity_remaining,
    ensures
        ({
            let st = load_buses(start, docked, ps, tick, routes, k);
            &&& st.overflow.len() == 0
            &&& st.waiting == start.waiting
            &&& st.stranded == start.stranded
            &&& st.sends.len() == k
            &&& sent_total(st.sends, k) == queues_total(ps, docked_indices(docked), ps.len() as int, k)
        }),
    decreases k,
{
    if k > 0 {
        lemma_loading_without_overflow(start, docked, ps, tick, routes, k - 1);
        let prev = load_buses(start, docked, ps, tick, routes, k - 1);
        let cur = load_buses(start, docked, ps, tick, routes, k);
        assert(docked[k - 1] == docked[k - 1]);
        assert(docked_indices(docked)[k - 1] == docked[k - 1].bus_index);
        assert(cur.sends.subrange(0, k - 1) =~= prev.sends);
        lemma_sent_total_prefix(cur.sends, prev.sends, k - 1);
    }
}

/// How many passengers the first `k` sends carry, all together.
pub open spec fn sent_total(sends: Seq<(usize, Seq<PassengerView>)>, k: int) -> int
    decreases k,
{
    if k <= 0 {
        0
    } else {
        sent_total(sends, k - 1) + sends[k - 1].1.len()
    }
}

/// The total of the first `k` sends depends on those sends only.
proof fn lemma_sent_total_prefix(a: Seq<(usize, Seq<PassengerView>)>, b: Seq<(usize, Seq<PassengerView>)>, k: int)
    requires
        0 <= k <= a.len(),
        k <= b.len(),
        forall|m: int| 0 <= m < k ==> a[m] == b[m],
    ensures
        sent_total(a, k) == sent_total(b, k),
    decreases k,
{
    if k > 0 {
        lemma_sent_total_prefix(a, b, k - 1);
    }
}

/// When a station loads its docked buses (listed once each) and no docked bus
/// but possibly the last is full, every passenger it had is accounted for
/// exactly once afterwards: still waiting (with its old plan or a new one),
/// arrived, sent to a bus, or stranded.
pub proof fn lemma_loading_keeps_everyone(
    s: StationView,
    tick: u32,
    routes: Seq<Seq<PassengerBusLocation>>,
)
    requires
        forall|a: int, b: int|
            0 <= a < b < s.docked_buses.len() ==> s.docked_buses[a].bus_index != s.docked_buses[b].bus_index,
        forall|m: int|
            0 <= m < s.docked_buses.len() - 1 ==> queue_for_bus(
                s.passengers,
                (#[trigger] s.docked_buses[m]).bus_index,
                s.passengers.len() as int,
            ).len() <= s.docked_buses[m].capacity_remaining,
        forall|i: int|
            0 <= i < s.passengers.len() && !has_arrived(#[trigger] s.passengers[i]) ==> s.passengers[i].next_bus_num
                is Some,
    ensures
        ({
            let after = station_after_loading(s, tick, routes);
            let end = loading_end(s, tick, routes);
            after.passengers.len() + (after.arrived_passengers.len() - s.arrived_passengers.len()) + sent_total(
                end.sends,
                end.sends.len() as int,
            ) + end.stranded.len() == s.passengers.len()
        }),
{
    let ps = s.passengers;
    let docked = s.docked_buses;
    let n = docked.len() as int;
    let ids = docked_indices(docked);
    assert forall|a: int, b: int| 0 <= a < b < ids.len() implies ids[a] != ids[b] by {
        assert(ids[a] == docked[a].bus_index && ids[b] == docked[b].bus_index);
    }
    lemma_sorting_for_buses(ps, ids, ps.len() as int);
    let start = loading_start(s);
    let end = loading_end(s, tick, routes);
    if n == 0 {
        assert(end == start);
    } else {
        lemma_loading_without_overflow(start, docked, ps, tick, routes, n - 1);
        let prev = load_buses(start, docked, ps, tick, routes, n - 1);
        let bus = docked[n - 1];
        let queue = queue_for_bus(ps, bus.bus_index, ps.len() as int);
        let full = queue.len() > bus.capacity_remaining;
        let overflow = if full {
            prev.overflow + queue.skip(bus.capacity_remaining as int)
        } else {
            prev.overflow
        };
        let unavailable = if full {
            prev.unavailable.push(bus.bus_index)
        } else {
            prev.unavailable
        };
        lemma_reroute_keeps_everyone(
            prev.waiting,
            prev.stranded,
            overflow,
            tick,
            routes,
            unavailable,
            overflow.len() as int,
        );
        assert(end == load_buses(start, docked, ps, tick, routes, n));
        assert(end.sends.subrange(0, n - 1) =~= prev.sends);
        lemma_sent_total_prefix(end.sends, prev.sends, n - 1);
        assert(ids[n - 1] == bus.bus_index);
        assert(end.sends[n - 1].1.len() + overflow.len() == queue.len());
    }
}

} // verus!

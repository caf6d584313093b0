use vstd::prelude::*;
use vstd::string::*;
use std::sync::mpsc::{Receiver, Sender};
use crate::location::{BusLocation, Location, PassengerBusLocation};
use crate::outside::{
    new_channel, new_thread_rng, random_between_inclusive, random_id_fixed_bits,
    random_index_below,
};
use crate::passenger::{Passenger, PassengerOnboardingBusSchedule, PassengerView};
use crate::itinerary::{
    is_itinerary, lemma_itinerary_found, lemma_itinerary_on_more_stops, lemma_journey_is_itinerary,
};
use crate::route_search::{
    calculate_passenger_schedule_for_bus_with_recursion, is_journey, lemma_search_journey,
    route_has_stop, routes_view, search_schedule,
};

pub mod consts;
pub mod outside;
pub mod location;
pub mod passenger;
pub mod route_search;
pub mod itinerary;
pub mod display;
pub mod thread;
pub mod bus;
pub mod station;
pub mod station_cycle;
pub mod main_loop;
pub mod data;

verus! {

/// The three stages that make up one simulated time tick.
#[derive(Debug, Clone, Copy, PartialEq, Eq, Structural)]
pub enum TimeTickStage {
    PassengerInit,
    BusUnloadingPassengers,
    BusLoadingPassengers,
}

/// The simulation clock: a tick number and the stage within that tick.
#[derive(Debug, Clone, Copy, PartialEq, Eq, Structural)]
pub struct TimeTick {
    pub number: u32,
    pub stage: TimeTickStage,
}

impl Default for TimeTickStage {
    fn default() -> (stage: Self)
        ensures
            stage == TimeTickStage::PassengerInit,
    {
        TimeTickStage::PassengerInit
    }
}

impl Default for TimeTick {
    fn default() -> (tick: Self)
        ensures
            tick == (TimeTick { number: 0, stage: TimeTickStage::PassengerInit }),
    {
        TimeTick { number: 0, stage: TimeTickStage::PassengerInit }
    }
}

/// The tick that follows `t`: leaving the initial stage starts tick 1 at the
/// unloading stage, unloading is followed by loading, and loading is followed
/// by the unloading stage of the next tick number.
pub open spec fn next_time_tick(t: TimeTick) -> TimeTick {
    match t.stage {
        TimeTickStage::PassengerInit => TimeTick { number: 1, stage: TimeTickStage::BusUnloadingPassengers },
        TimeTickStage::BusUnloadingPassengers => TimeTick { number: t.number, stage: TimeTickStage::BusLoadingPassengers },
        TimeTickStage::BusLoadingPassengers => TimeTick { number: (t.number + 1) as u32, stage: TimeTickStage::BusUnloadingPassengers },
    }
}

/// The clock never returns to the initial stage once it moved on.
pub proof fn lemma_time_tick_leaves_init_for_good(t: TimeTick)
    ensures
        next_time_tick(t).stage != TimeTickStage::PassengerInit,
{
}

/// The clock's tick number never goes back, while it fits in its type.
pub proof fn lemma_time_tick_number_never_decreases(t: TimeTick)
    requires
        t.stage == TimeTickStage::BusLoadingPassengers ==> t.number < u32::MAX,
    ensures
        t.stage != TimeTickStage::PassengerInit ==> next_time_tick(t).number >= t.number,
        t.stage == TimeTickStage::PassengerInit ==> next_time_tick(t).number == 1,
{
}

/// From the unloading stage, two moves lead to the unloading stage of the next tick number.
pub proof fn lemma_time_tick_full_round(t: TimeTick)
    requires
        t.stage == TimeTickStage::BusUnloadingPassengers,
        t.number < u32::MAX,
    ensures
        next_time_tick(next_time_tick(t)) == (TimeTick {
            number: (t.number + 1) as u32,
            stage: TimeTickStage::BusUnloadingPassengers,
        }),
{
}

impl TimeTick {
    /// Moves the clock one stage forward.
    pub fn increment_time_tick(&mut self)
        requires
            old(self).stage == TimeTickStage::BusLoadingPassengers ==> old(self).number < u32::MAX,
        ensures
            *final(self) == next_time_tick(*old(self)),
    {
        match self.stage {
            TimeTickStage::PassengerInit => {
                self.number = 1;
                self.stage = TimeTickStage::BusUnloadingPassengers;
            },
            TimeTickStage::BusUnloadingPassengers => {
                self.stage = TimeTickStage::BusLoadingPassengers;
            },
            TimeTickStage::BusLoadingPassengers => {
                self.number = self.number + 1;
                self.stage = TimeTickStage::BusUnloadingPassengers;
            },
        }
    }

    /// Leaves the initial stage; only valid while the clock is still in it.
    pub fn increment_from_initialized(&mut self) -> (res: Option<()>)
        requires
            old(self).stage == TimeTickStage::PassengerInit,
        ensures
            res == Some(()),
            *final(self) == (TimeTick { number: 1, stage: TimeTickStage::BusUnloadingPassengers }),
    {
        self.number = 1;
        self.stage = TimeTickStage::BusUnloadingPassengers;
        Some(())
    }
}


/// The text of the error returned when a list is too short to draw from.
pub open spec fn short_list_message() -> Seq<char> {
    "List must contain at least 2 elements."@
}

/// `idx` names, for each element of `out`, the position in `list` it was
/// copied from, and no two neighbouring elements come from the same position.
pub open spec fn drawn_positions<T>(list: Seq<T>, out: Seq<T>, idx: Seq<int>) -> bool {
    &&& idx.len() == out.len()
    &&& forall|i: int| 0 <= i < out.len() ==> 0 <= #[trigger] idx[i] < list.len() && out[i] == list[idx[i]]
    &&& forall|i: int| 0 <= i < out.len() - 1 ==> #[trigger] idx[i] != idx[i + 1]
}

/// `out` was drawn from `list` with no two neighbours drawn from the same position.
pub open spec fn drawn_without_repeats<T>(list: Seq<T>, out: Seq<T>) -> bool {
    exists|idx: Seq<int>| #[trigger] drawn_positions(list, out, idx)
}

/// Drawn from a list without repeated values, no two neighbouring elements are equal.
pub proof fn lemma_drawn_neighbours_differ<T>(list: Seq<T>, out: Seq<T>)
    requires
        drawn_without_repeats(list, out),
        forall|i: int, j: int| 0 <= i < j < list.len() ==> list[i] != list[j],
    ensures
        forall|i: int| 0 <= i < out.len() - 1 ==> #[trigger] out[i] != out[i + 1],
{
    let idx = choose|idx: Seq<int>| drawn_positions(list, out, idx);
    assert forall|i: int| 0 <= i < out.len() - 1 implies #[trigger] out[i] != out[i + 1] by {
        assert(idx[i] != idx[i + 1]);
        assert(0 <= idx[i + 1] < list.len());
        if idx[i] < idx[i + 1] {
            assert(list[idx[i]] != list[idx[i + 1]]);
        } else {
            assert(list[idx[i + 1]] != list[idx[i]]);
        }
    }
}

/// How many elements a draw of `output_length` yields: the first one is
/// always drawn, so never fewer than one.
pub open spec fn drawn_length(output_length: usize) -> nat {
    if output_length == 0 {
        1
    } else {
        output_length as nat
    }
}

/// Draws `output_length` elements (at least one) at random from `list`, never
/// drawing the same position twice in a row. Fails when the list holds fewer
/// than two elements. Where the position drawn last is excluded, the next one
/// is drawn uniformly among the others.
fn generate_list_of_random_elements_from_list<T: Copy>(
    list: &Vec<T>,
    output_length: usize,
) -> (res: Result<Vec<T>, String>)
    ensures
        list.len() <= 1 <==> res is Err,
        res matches Err(msg) ==> msg@ == short_list_message(),
        res matches Ok(out) ==> out@.len() == drawn_length(output_length) && drawn_without_repeats(
            list@,
            out@,
        ),
{
    if list.len() <= 1 {
        return Err(String::from_str("List must contain at least 2 elements."));
    }
    let mut output_list: Vec<T> = Vec::new();
    let mut rng = new_thread_rng();
    let location_count = list.len();
    let mut old_index = random_index_below(&mut rng, location_count);
    output_list.push(list[old_index]);
    let ghost mut idx: Seq<int> = seq![old_index as int];
    let mut n: usize = 1;
    while n < output_length
        invariant
            location_count == list.len(),
            location_count >= 2,
            1 <= n,
            n <= output_length || n == 1,
            output_list@.len() == n,
            old_index < location_count,
            idx.len() == n,
            idx[n - 1] == old_index,
            drawn_positions(list@, output_list@, idx),
        decreases output_length - n,
    {
        let drawn = random_index_below(&mut rng, location_count - 1);
        let new_index = if drawn >= old_index {
            drawn + 1
        } else {
            drawn
        };
        let ghost prev_idx = idx;
        output_list.push(list[new_index]);
        proof {
            idx = idx.push(new_index as int);
            assert forall|i: int| 0 <= i < output_list@.len() - 1 implies #[trigger] idx[i] != idx[i + 1] by {
                if i < n - 1 {
                    assert(idx[i] == prev_idx[i] && idx[i + 1] == prev_idx[i + 1]);
                }
            }
            assert forall|i: int| 0 <= i < output_list@.len() implies 0 <= #[trigger] idx[i] < list@.len()
                && output_list@[i] == list@[idx[i]] by {
                if i < n {
                    assert(idx[i] == prev_idx[i]);
                }
            }
        }
        old_index = new_index;
        n = n + 1;
    }
    assert(drawn_positions(list@, output_list@, idx));
    Ok(output_list)
}

/// A passenger who travels between two different positions of `location_list`.
fn generate_passenger(location_list: &Vec<Location>, index: usize) -> (res: Result<Passenger, String>)
    ensures
        location_list.len() <= 1 <==> res is Err,
        res matches Err(msg) ==> msg@ == short_list_message(),
        res matches Ok(p) ==> generated_passenger(location_list@, p@, index),
{
    let location_vector = generate_list_of_random_elements_from_list(location_list, 2)?;
    let old_location = location_vector[0];
    let new_location = location_vector[1];
    let p = Passenger::new(old_location, new_location, 0, index);
    assert(generated_passenger(location_list@, p@, index)) by {
        let idx = choose|idx: Seq<int>| drawn_positions(location_list@, location_vector@, idx);
        assert(idx[0] != idx[1]);
    }
    Ok(p)
}

/// A freshly drawn passenger numbered `index`: it waits at one position of
/// `locations` and travels to another position, starting at tick 0 with an
/// empty plan.
pub open spec fn generated_passenger(locations: Seq<Location>, p: PassengerView, index: usize) -> bool {
    &&& exists|a: int, b: int|
        0 <= a < locations.len() && 0 <= b < locations.len() && a != b && p.current_location == Some(
            #[trigger] locations[a],
        ) && p.destination_location == #[trigger] locations[b]
    &&& random_id_fixed_bits(p.id)
    &&& p.index == index
    &&& p.passed_stops == 0
    &&& p.beginning_time_step == 0
    &&& p.bus_schedule.len() == 0
    &&& p.archived_stop_list.len() == 0
    &&& p.next_bus_num is None
    &&& p.schedule_cursor == 0
}

/// `count` passengers, the one at position `i` numbered `i`, each travelling
/// between two different positions of `location_list`. Fails, when any
/// passenger is asked for, if the list holds fewer than two locations.
pub fn generate_random_passenger_list(count: usize, location_list: &Vec<Location>) -> (res: Result<
    Vec<Passenger>,
    String,
>)
    ensures
        (count > 0 && location_list.len() <= 1) <==> res is Err,
        res matches Err(msg) ==> msg@ == short_list_message(),
        res matches Ok(list) ==> list.len() == count && forall|i: int|
            0 <= i < count ==> generated_passenger(location_list@, #[trigger] list@[i]@, i as usize),
{
    let mut passenger_list: Vec<Passenger> = Vec::new();
    let mut num: usize = 0;
    while num < count
        invariant
            num <= count,
            passenger_list.len() == num,
            num > 0 ==> location_list.len() > 1,
            forall|i: int|
                0 <= i < num ==> generated_passenger(location_list@, #[trigger] passenger_list@[i]@, i as usize),
        decreases count - num,
    {
        let p = generate_passenger(location_list, num)?;
        passenger_list.push(p);
        num = num + 1;
    }
    Ok(passenger_list)
}

/// The tick at which a bus reaches stop `k` of its route (counting from 1): it
/// travels each stop's distance, and, unless the tick reached so far is 1,
/// waits one more tick at the previous stop.
pub open spec fn route_arrival_tick(route: Seq<BusLocation>, k: int) -> int
    decreases k,
{
    if k <= 0 {
        0
    } else {
        let t = route_arrival_tick(route, k - 1);
        t + (if t != 1 {
            1int
        } else {
            0int
        }) + route[k - 1].distance_to_location
    }
}

/// Arrival ticks never go back along a route.
pub proof fn lemma_route_arrival_tick_monotonic(route: Seq<BusLocation>, j: int, k: int)
    requires
        0 <= j <= k,
    ensures
        route_arrival_tick(route, j) <= route_arrival_tick(route, k),
    decreases k,
{
    if j < k {
        lemma_route_arrival_tick_monotonic(route, j, k - 1);
    }
}

/// The route as passengers see it: each stop with the tick the bus reaches it.
pub fn convert_bus_route_list_to_passenger_bus_route_list(bus_route_list: Vec<BusLocation>) -> (res: Vec<
    PassengerBusLocation,
>)
    requires
        route_arrival_tick(bus_route_list@, bus_route_list.len() as int) <= u32::MAX,
    ensures
        res.len() == bus_route_list.len(),
        forall|k: int|
            0 <= k < res.len() ==> (#[trigger] res@[k]).location == bus_route_list@[k].location
                && res@[k].location_time_tick == route_arrival_tick(bus_route_list@, k + 1),
        forall|k: int|
            0 < k < res.len() ==> res@[k - 1].location_time_tick + bus_route_list@[k].distance_to_location
                <= #[trigger] res@[k].location_time_tick,
{
    let mut time_tick: u32 = 0;
    let mut passenger_bus_route_list: Vec<PassengerBusLocation> = Vec::new();
    let mut i: usize = 0;
    while i < bus_route_list.len()
        invariant
            i <= bus_route_list.len(),
            route_arrival_tick(bus_route_list@, bus_route_list.len() as int) <= u32::MAX,
            time_tick == route_arrival_tick(bus_route_list@, i as int),
            passenger_bus_route_list.len() == i,
            forall|k: int|
                0 <= k < i ==> (#[trigger] passenger_bus_route_list@[k]).location == bus_route_list@[k].location
                    && passenger_bus_route_list@[k].location_time_tick == route_arrival_tick(bus_route_list@, k + 1),
        decreases bus_route_list.len() - i,
    {
        let bus_location = bus_route_list[i];
        proof {
            lemma_route_arrival_tick_monotonic(bus_route_list@, i + 1, bus_route_list.len() as int);
        }
        let mut index_increment: u32 = 0;
        if time_tick != 1 {
            index_increment = index_increment + 1;
        }
        index_increment = index_increment + bus_location.distance_to_location;
        time_tick = time_tick + index_increment;
        passenger_bus_route_list.push(
            PassengerBusLocation { location: bus_location.location, location_time_tick: time_tick },
        );
        i = i + 1;
    }
    assert forall|k: int|
        0 < k < passenger_bus_route_list.len() implies passenger_bus_route_list@[k - 1].location_time_tick
            + bus_route_list@[k].distance_to_location
            <= #[trigger] passenger_bus_route_list@[k].location_time_tick by {
        assert(passenger_bus_route_list@[k - 1].location_time_tick == route_arrival_tick(bus_route_list@, k));
    }
    passenger_bus_route_list
}

/// `count` locations, the one at position `i` with index `i`, each with a fresh
/// random identifier.
pub fn initialize_location_list(count: usize) -> (res: Vec<Location>)
    ensures
        res.len() == count,
        forall|i: int| 0 <= i < count ==> (#[trigger] res@[i]).index == i && random_id_fixed_bits(res@[i].id),
{
    let mut location_list: Vec<Location> = Vec::new();
    let mut index: usize = 0;
    while index < count
        invariant
            index <= count,
            location_list.len() == index,
            forall|i: int|
                0 <= i < index ==> (#[trigger] location_list@[i]).index == i && random_id_fixed_bits(location_list@[i].id),
        decreases count - index,
    {
        location_list.push(Location::new(index));
        index = index + 1;
    }
    location_list
}

/// The receiving end of a channel, with the position it was created at.
#[verifier::reject_recursive_types(T)]
pub struct ReceiverWithIndex<T> {
    pub receiver: Receiver<T>,
    pub index: usize,
}

/// `channel_count` fresh channels: their sending ends, and their receiving ends
/// each tagged with its position.
pub fn initialize_channel_list<T>(channel_count: usize) -> (res: (Vec<Sender<T>>, Vec<ReceiverWithIndex<T>>))
    ensures
        res.0.len() == channel_count,
        res.1.len() == channel_count,
        forall|i: int| 0 <= i < channel_count ==> (#[trigger] res.1@[i]).index == i,
{
    let mut sender_vector: Vec<Sender<T>> = Vec::new();
    let mut receiver_vector: Vec<ReceiverWithIndex<T>> = Vec::new();
    let mut index: usize = 0;
    while index < channel_count
        invariant
            index <= channel_count,
            sender_vector.len() == index,
            receiver_vector.len() == index,
            forall|i: int| 0 <= i < index ==> (#[trigger] receiver_vector@[i]).index == i,
        decreases channel_count - index,
    {
        let (current_sender, current_receiver) = new_channel::<T>();
        sender_vector.push(current_sender);
        receiver_vector.push(ReceiverWithIndex { receiver: current_receiver, index });
        index = index + 1;
    }
    (sender_vector, receiver_vector)
}

/// The plan the search yields for `passenger` from its current location to its
/// destination, starting at `current_time_tick`.
pub open spec fn passenger_schedule(
    passenger: PassengerView,
    current_time_tick: u32,
    routes: Seq<Seq<PassengerBusLocation>>,
) -> Option<Seq<PassengerOnboardingBusSchedule>> {
    search_schedule(
        routes,
        passenger.current_location->0,
        passenger.destination_location,
        None,
        current_time_tick,
        Seq::empty(),
        None,
    )
}

/// Plans the passenger's trip from its current location to its destination on
/// the given routes; hands the passenger back when no plan exists. A plan found
/// can be travelled and ends with the arrival at the destination.
pub fn calculate_passenger_schedule_for_bus(
    passenger: &Passenger,
    current_time_tick: u32,
    bus_route_list: &Vec<Vec<PassengerBusLocation>>,
) -> (res: Result<Vec<PassengerOnboardingBusSchedule>, Passenger>)
    requires
        passenger.current_location is Some,
    ensures
        match res {
            Ok(s) => passenger_schedule(passenger@, current_time_tick, routes_view(bus_route_list@))
                == Some(s@),
            Err(p) => passenger_schedule(passenger@, current_time_tick, routes_view(bus_route_list@))
                is None && p@ == passenger@,
        },
        res matches Ok(s) ==> is_journey(
            routes_view(bus_route_list@),
            s@,
            passenger.current_location->0,
            passenger.destination_location,
            None,
            current_time_tick,
            None,
        ),
{
    let current = match passenger.current_location {
        Some(l) => l,
        None => { return Err(passenger.clone()); },
    };
    let route_count = bus_route_list.len();
    proof {
        assert(routes_view(bus_route_list@).len() == route_count);
        lemma_search_journey(
            routes_view(bus_route_list@),
            current,
            passenger.destination_location,
            None,
            current_time_tick,
            Seq::empty(),
            None,
        );
    }
    let found = calculate_passenger_schedule_for_bus_with_recursion(
        current,
        passenger.destination_location,
        None,
        current_time_tick,
        bus_route_list,
        Vec::new(),
        None,
    );
    match found {
        Some(schedule) => Ok(schedule),
        None => Err(passenger.clone()),
    }
}


/// The plan is the earliest: for every trip the passenger could make on the
/// routes from its location to its destination, a plan exists, and it arrives
/// no later than the trip.
pub proof fn lemma_plan_is_earliest(
    passenger: PassengerView,
    current_time_tick: u32,
    routes: Seq<Seq<PassengerBusLocation>>,
    trip: Seq<PassengerOnboardingBusSchedule>,
)
    requires
        passenger.current_location is Some,
        is_itinerary(
            routes,
            trip,
            passenger.current_location->0,
            passenger.destination_location,
            current_time_tick,
        ),
    ensures
        passenger_schedule(passenger, current_time_tick, routes) matches Some(s)
            && s.last().time_tick <= trip.last().time_tick,
{
    lemma_itinerary_found(routes, trip, passenger.current_location->0, current_time_tick);
}

/// No plan means no trip: when the planner finds nothing, the passenger has
/// no way to its destination on the routes.
pub proof fn lemma_no_plan_means_no_trip(
    passenger: PassengerView,
    current_time_tick: u32,
    routes: Seq<Seq<PassengerBusLocation>>,
)
    requires
        passenger.current_location is Some,
        passenger_schedule(passenger, current_time_tick, routes) is None,
    ensures
        forall|trip: Seq<PassengerOnboardingBusSchedule>|
            !#[trigger] is_itinerary(
                routes,
                trip,
                passenger.current_location->0,
                passenger.destination_location,
                current_time_tick,
            ),
{
    assert forall|trip: Seq<PassengerOnboardingBusSchedule>|
        !#[trigger] is_itinerary(
            routes,
            trip,
            passenger.current_location->0,
            passenger.destination_location,
            current_time_tick,
        ) by {
        if is_itinerary(routes, trip, passenger.current_location->0, passenger.destination_location, current_time_tick) {
            lemma_plan_is_earliest(passenger, current_time_tick, routes, trip);
        }
    }
}

/// Marking more buses unavailable never gives an earlier arrival, and never
/// turns a failure into a plan: whenever the planner finds a plan with the
/// larger set of unavailable buses, it finds one with the smaller set that
/// arrives no later.
pub proof fn lemma_fewer_unavailable_never_later(
    passenger: PassengerView,
    current_time_tick: u32,
    routes: Seq<Seq<PassengerBusLocation>>,
    fewer: Seq<usize>,
    more: Seq<usize>,
)
    requires
        passenger.current_location is Some,
        routes.len() <= usize::MAX,
        forall|b: usize| #[trigger] fewer.contains(b) ==> more.contains(b),
    ensures
        passenger_schedule(passenger, current_time_tick, available_routes(routes, current_time_tick, more))
            matches Some(s2) ==> passenger_schedule(
            passenger,
            current_time_tick,
            available_routes(routes, current_time_tick, fewer),
        ) matches Some(s1) && s1.last().time_tick <= s2.last().time_tick,
{
    let r1 = available_routes(routes, current_time_tick, fewer);
    let r2 = available_routes(routes, current_time_tick, more);
    let init = passenger.current_location->0;
    let dest = passenger.destination_location;
    lemma_search_journey(r2, init, dest, None, current_time_tick, Seq::empty(), None);
    if let Some(s2) = passenger_schedule(passenger, current_time_tick, r2) {
        lemma_journey_is_itinerary(r2, s2, init, dest, None, current_time_tick, None);
        lemma_more_unavailable_fewer_stops(routes, current_time_tick, fewer, more);
        lemma_itinerary_on_more_stops(r2, r1, s2, init, dest, current_time_tick);
        lemma_plan_is_earliest(passenger, current_time_tick, r1, s2);
    }
}

/// The position of the first of the first `n` stops of a route that the bus
/// reaches at `tick`, if any.
pub open spec fn first_stop_at_tick(route: Seq<PassengerBusLocation>, tick: u32, n: int) -> Option<int>
    decreases n,
{
    if n <= 0 {
        None
    } else {
        match first_stop_at_tick(route, tick, n - 1) {
            Some(i) => Some(i),
            None => if route[n - 1].location_time_tick == tick {
                Some(n - 1)
            } else {
                None
            },
        }
    }
}

/// A route without its first stop reached at `tick`.
pub open spec fn route_without_stop_at(route: Seq<PassengerBusLocation>, tick: u32) -> Seq<PassengerBusLocation> {
    match first_stop_at_tick(route, tick, route.len() as int) {
        Some(i) => route.remove(i),
        None => route,
    }
}

/// The routes with, for every unavailable bus, its first stop at `tick` taken out.
pub open spec fn available_routes(
    routes: Seq<Seq<PassengerBusLocation>>,
    tick: u32,
    buses_unavailable: Seq<usize>,
) -> Seq<Seq<PassengerBusLocation>> {
    Seq::new(
        routes.len(),
        |i: int|
            if buses_unavailable.contains(i as usize) {
                route_without_stop_at(routes[i], tick)
            } else {
                routes[i]
            },
    )
}

/// Every stop left on a route after taking one out was a stop of the route.
pub proof fn lemma_route_without_stop_keeps_stops(route: Seq<PassengerBusLocation>, tick: u32, x: PassengerBusLocation)
    requires
        route_has_stop(route_without_stop_at(route, tick), x),
    ensures
        route_has_stop(route, x),
{
    let r2 = route_without_stop_at(route, tick);
    let k = choose|k: int| 0 <= k < r2.len() && r2[k] == x;
    match first_stop_at_tick(route, tick, route.len() as int) {
        Some(i) => {
            lemma_first_stop_at_tick_in_range(route, tick, route.len() as int);
            if k < i {
                assert(r2[k] == route[k]);
            } else {
                assert(r2[k] == route[k + 1]);
            }
        },
        None => {},
    }
}

/// The stop found at a tick lies among the stops looked at, is reached at that
/// tick, and no earlier one is; when none is found, no stop looked at is
/// reached at that tick.
proof fn lemma_first_stop_at_tick_in_range(route: Seq<PassengerBusLocation>, tick: u32, n: int)
    requires
        n <= route.len(),
    ensures
        first_stop_at_tick(route, tick, n) matches Some(i) ==> 0 <= i < n && route[i].location_time_tick == tick
            && forall|j: int| 0 <= j < i ==> (#[trigger] route[j]).location_time_tick != tick,
        first_stop_at_tick(route, tick, n) is None ==> forall|j: int|
            0 <= j < n ==> (#[trigger] route[j]).location_time_tick != tick,
    decreases n,
{
    if n > 0 {
        lemma_first_stop_at_tick_in_range(route, tick, n - 1);
    }
}

/// Whether no stop of the route is reached at `tick`.
pub open spec fn no_stop_at(route: Seq<PassengerBusLocation>, tick: u32) -> bool {
    forall|j: int| 0 <= j < route.len() ==> (#[trigger] route[j]).location_time_tick != tick
}

/// Whether `result` is `route` with exactly one stop taken out: the first one
/// reached at `tick`; every other stop is kept, in order.
pub open spec fn first_stop_at_taken_out(
    route: Seq<PassengerBusLocation>,
    result: Seq<PassengerBusLocation>,
    tick: u32,
) -> bool {
    exists|i: int|
        0 <= i < route.len() && (#[trigger] route[i]).location_time_tick == tick && (forall|j: int|
            0 <= j < i ==> (#[trigger] route[j]).location_time_tick != tick) && result.len() == route.len() - 1
            && (forall|k: int| 0 <= k < i ==> #[trigger] result[k] == route[k]) && (forall|k: int|
            i <= k < route.len() - 1 ==> #[trigger] result[k] == route[k + 1])
}

/// Taking a bus's stop at `tick` out of its route removes exactly one stop, the
/// first one the bus reaches at that tick, and keeps every other stop in order;
/// a route with no stop at that tick is kept whole.
pub proof fn lemma_route_without_stop_at(route: Seq<PassengerBusLocation>, tick: u32)
    ensures
        no_stop_at(route, tick) ==> route_without_stop_at(route, tick) == route,
        !no_stop_at(route, tick) ==> first_stop_at_taken_out(route, route_without_stop_at(route, tick), tick),
{
    lemma_first_stop_at_tick_in_range(route, tick, route.len() as int);
    let r = route_without_stop_at(route, tick);
    match first_stop_at_tick(route, tick, route.len() as int) {
        Some(i) => {
            assert(r == route.remove(i));
            assert(r.len() == route.len() - 1);
            assert forall|k: int| 0 <= k < i implies #[trigger] r[k] == route[k] by {}
            assert forall|k: int| i <= k < route.len() - 1 implies #[trigger] r[k] == route[k + 1] by {}
            assert(route[i].location_time_tick == tick);
        },
        None => {},
    }
}

/// With some buses unavailable at `tick`, each unavailable bus's route loses
/// exactly its first stop at that tick (if it has one) and keeps every other
/// stop in order; every other route is kept whole, and no route is added or lost.
pub proof fn lemma_available_routes(routes: Seq<Seq<PassengerBusLocation>>, tick: u32, buses_unavailable: Seq<usize>)
    ensures
        available_routes(routes, tick, buses_unavailable).len() == routes.len(),
        forall|b: int|
            0 <= b < routes.len() ==> {
                let r = #[trigger] available_routes(routes, tick, buses_unavailable)[b];
                &&& !buses_unavailable.contains(b as usize) ==> r == routes[b]
                &&& buses_unavailable.contains(b as usize) && no_stop_at(routes[b], tick) ==> r == routes[b]
                &&& buses_unavailable.contains(b as usize) && !no_stop_at(routes[b], tick)
                    ==> first_stop_at_taken_out(routes[b], r, tick)
            },
{
    assert forall|b: int| 0 <= b < routes.len() implies {
        let r = #[trigger] available_routes(routes, tick, buses_unavailable)[b];
        &&& !buses_unavailable.contains(b as usize) ==> r == routes[b]
        &&& buses_unavailable.contains(b as usize) && no_stop_at(routes[b], tick) ==> r == routes[b]
        &&& buses_unavailable.contains(b as usize) && !no_stop_at(routes[b], tick) ==> first_stop_at_taken_out(
            routes[b],
            r,
            tick,
        )
    } by {
        lemma_route_without_stop_at(routes[b], tick);
    }
}

/// Marking more buses unavailable only takes stops away: every stop left with
/// the larger set of unavailable buses is still there with the smaller one.
pub proof fn lemma_more_unavailable_fewer_stops(
    routes: Seq<Seq<PassengerBusLocation>>,
    tick: u32,
    fewer: Seq<usize>,
    more: Seq<usize>,
)
    requires
        forall|b: usize| #[trigger] fewer.contains(b) ==> more.contains(b),
    ensures
        available_routes(routes, tick, more).len() == available_routes(routes, tick, fewer).len(),
        forall|b: int, x: PassengerBusLocation|
            0 <= b < routes.len() && #[trigger] route_has_stop(available_routes(routes, tick, more)[b], x)
                ==> route_has_stop(available_routes(routes, tick, fewer)[b], x),
{
    assert forall|b: int, x: PassengerBusLocation|
        0 <= b < routes.len() && #[trigger] route_has_stop(available_routes(routes, tick, more)[b], x)
            implies route_has_stop(available_routes(routes, tick, fewer)[b], x) by {
        if more.contains(b as usize) && !fewer.contains(b as usize) {
            lemma_route_without_stop_keeps_stops(routes[b], tick, x);
        }
    }
}

/// Whether `x` is among `v`.
fn contains_index(v: &Vec<usize>, x: usize) -> (res: bool)
    ensures
        res == v@.contains(x),
{
    let mut i: usize = 0;
    while i < v.len()
        invariant
            i <= v.len(),
            forall|k: int| 0 <= k < i ==> v@[k] != x,
        decreases v.len() - i,
    {
        if v[i] == x {
            assert(v@[i as int] == x);
            return true;
        }
        i = i + 1;
    }
    false
}

/// A copy of a route with its first stop at `tick` taken out when `remove_stop` holds.
fn copy_route(route: &Vec<PassengerBusLocation>, tick: u32, remove_stop: bool) -> (res: Vec<PassengerBusLocation>)
    ensures
        res@ == if remove_stop {
            route_without_stop_at(route@, tick)
        } else {
            route@
        },
        !remove_stop || no_stop_at(route@, tick) ==> res@ == route@,
        remove_stop && !no_stop_at(route@, tick) ==> first_stop_at_taken_out(route@, res@, tick),
{
    proof {
        lemma_route_without_stop_at(route@, tick);
    }
    let mut copy: Vec<PassengerBusLocation> = Vec::new();
    let mut index_to_delete: Option<usize> = None;
    let mut i: usize = 0;
    while i < route.len()
        invariant
            i <= route.len(),
            copy@ == route@.subrange(0, i as int),
            match index_to_delete {
                Some(d) => d < i && first_stop_at_tick(route@, tick, i as int) == Some(d as int),
                None => first_stop_at_tick(route@, tick, i as int) is None,
            },
        decreases route.len() - i,
    {
        if index_to_delete.is_none() && route[i].location_time_tick == tick {
            index_to_delete = Some(i);
        }
        copy.push(route[i]);
        i = i + 1;
    }
    assert(copy@ == route@);
    if remove_stop {
        match index_to_delete {
            Some(d) => {
                copy.remove(d);
            },
            None => {},
        }
    }
    copy
}

/// Plans the passenger's trip as `calculate_passenger_schedule_for_bus` does,
/// on the routes where every bus in `buses_unavailable` has lost its first stop
/// at `current_time_tick` (the bus that is full there cannot be boarded).
pub fn calculate_passenger_schedule_for_bus_check_available_buses(
    new_passenger: &Passenger,
    current_time_tick: u32,
    bus_route_list: &Vec<Vec<PassengerBusLocation>>,
    buses_unavailable: Vec<usize>,
) -> (res: Result<Vec<PassengerOnboardingBusSchedule>, Passenger>)
    requires
        new_passenger.current_location is Some,
    ensures
        ({
            let routes = available_routes(routes_view(bus_route_list@), current_time_tick, buses_unavailable@);
            &&& match res {
                Ok(s) => passenger_schedule(new_passenger@, current_time_tick, routes) == Some(s@),
                Err(p) => passenger_schedule(new_passenger@, current_time_tick, routes) is None && p@
                    == new_passenger@,
            }
            &&& res matches Ok(s) ==> is_journey(
                routes,
                s@,
                new_passenger.current_location->0,
                new_passenger.destination_location,
                None,
                current_time_tick,
                None,
            )
        }),
{
    let ghost expected = available_routes(routes_view(bus_route_list@), current_time_tick, buses_unavailable@);
    let mut new_bus_route_list: Vec<Vec<PassengerBusLocation>> = Vec::new();
    let mut bus_index: usize = 0;
    while bus_index < bus_route_list.len()
        invariant
            bus_index <= bus_route_list.len(),
            expected == available_routes(routes_view(bus_route_list@), current_time_tick, buses_unavailable@),
            routes_view(new_bus_route_list@) == expected.subrange(0, bus_index as int),
        decreases bus_route_list.len() - bus_index,
    {
        let unavailable = contains_index(&buses_unavailable, bus_index);
        let route = copy_route(&bus_route_list[bus_index], current_time_tick, unavailable);
        let ghost before = new_bus_route_list@;
        new_bus_route_list.push(route);
        assert(routes_view(new_bus_route_list@) =~= routes_view(before).push(route@));
        assert(routes_view(new_bus_route_list@) =~= expected.subrange(0, bus_index + 1));
        bus_index = bus_index + 1;
    }
    assert(routes_view(new_bus_route_list@) =~= expected);
    calculate_passenger_schedule_for_bus(new_passenger, current_time_tick, &new_bus_route_list)
}


/// A route of `length` stops (at least one) drawn from `location_list`, never
/// the same position twice in a row.
fn generate_bus_route_locations(location_list: &Vec<Location>, length: usize) -> (res: Result<
    Vec<Location>,
    String,
>)
    ensures
        location_list.len() <= 1 <==> res is Err,
        res matches Err(msg) ==> msg@ == short_list_message(),
        res matches Ok(route) ==> route@.len() == drawn_length(length) && drawn_without_repeats(
            location_list@,
            route@,
        ),
{
    let bus_route = generate_list_of_random_elements_from_list(location_list, length)?;
    Ok(bus_route)
}

/// The locations of a route's stops.
pub open spec fn bus_route_locations(route: Seq<BusLocation>) -> Seq<Location> {
    route.map_values(|b: BusLocation| b.location)
}

/// A random route of `length` stops (at least one) drawn from `location_list`,
/// never the same position twice in a row, each stop at a random distance
/// between 1 and `max_distance`. Fails when the list holds fewer than two
/// locations.
pub fn generate_bus_route_locations_with_distances(
    location_list: &Vec<Location>,
    length: usize,
    max_distance: u32,
) -> (res: Result<Vec<BusLocation>, String>)
    requires
        location_list.len() > 1 ==> max_distance >= 1,
    ensures
        location_list.len() <= 1 <==> res is Err,
        res matches Err(msg) ==> msg@ == short_list_message(),
        res matches Ok(route) ==> {
            &&& route@.len() == drawn_length(length)
            &&& drawn_without_repeats(location_list@, bus_route_locations(route@))
            &&& forall|i: int|
                0 <= i < route@.len() ==> 1 <= (#[trigger] route@[i]).distance_to_location
                    <= max_distance
        },
{
    let mut rng = new_thread_rng();
    let bus_route_list = generate_bus_route_locations(location_list, length)?;
    let mut bus_locations: Vec<BusLocation> = Vec::new();
    let mut i: usize = 0;
    while i < bus_route_list.len()
        invariant
            i <= bus_route_list.len(),
            location_list.len() > 1,
            max_distance >= 1,
            bus_locations@.len() == i,
            forall|k: int|
                0 <= k < i ==> (#[trigger] bus_locations@[k]).location == bus_route_list@[k]
                    && 1 <= bus_locations@[k].distance_to_location <= max_distance,
        decreases bus_route_list.len() - i,
    {
        let distance = random_between_inclusive(&mut rng, 1, max_distance);
        bus_locations.push(BusLocation { location: bus_route_list[i], distance_to_location: distance });
        i = i + 1;
    }
    assert(bus_route_locations(bus_locations@) =~= bus_route_list@);
    Ok(bus_locations)
}

} // verus!

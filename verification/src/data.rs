//! The input a simulation can be read from, its checks, and the conversions
//! between stored and live passengers. Reading and writing files is left to
//! the program around this library.
use vstd::prelude::*;
use crate::consts::{DEFAULT_GLOBAL_LOCATION_COUNT, DEFAULT_NUM_OF_BUSES, GLOBAL_PASSENGER_COUNT};
use crate::location::{BusLocation, Location};
use crate::passenger::{Passenger, PassengerOnboardingBusSchedule, PassengerView};

verus! {

/// A passenger as stored.
#[derive(Clone, Copy, Debug, PartialEq, Eq, Structural)]
pub struct SerializedPassenger {
    pub id: u128,
    pub destination_location: Location,
    pub current_location: Option<Location>,
    pub beginning_time_step: u32,
}

/// A stored passenger together with its number.
#[derive(Clone, Copy, Debug)]
pub struct SerializedIndexedPassenger {
    pub passenger: SerializedPassenger,
    pub master_index: usize,
}

/// A whole simulation's input: the bus routes, the passengers and the locations.
#[derive(Debug)]
pub struct InputDataStructure {
    pub bus_routes: Vec<Vec<BusLocation>>,
    pub passengers: Vec<SerializedPassenger>,
    pub location_vector: Vec<Location>,
}

/// Every location to test is one of the master list.
pub open spec fn all_listed(tested: Seq<Location>, master: Seq<Location>) -> bool {
    forall|i: int| 0 <= i < tested.len() ==> master.contains(#[trigger] tested[i])
}

/// Whether `location` is one of the master list.
fn is_listed(location: Location, location_master_list: &Vec<Location>) -> (res: bool)
    ensures
        res == location_master_list@.contains(location),
{
    let mut i: usize = 0;
    while i < location_master_list.len()
        invariant
            i <= location_master_list.len(),
            forall|k: int| 0 <= k < i ==> location_master_list@[k] != location,
        decreases location_master_list.len() - i,
    {
        if location_master_list[i] == location {
            assert(location_master_list@[i as int] == location);
            return true;
        }
        i = i + 1;
    }
    false
}

/// Whether every location to test is one of the master list.
pub fn locations_are_all_valid(locations_to_test: &Vec<Location>, location_master_list: &Vec<Location>) -> (res:
    bool)
    ensures
        res == all_listed(locations_to_test@, location_master_list@),
{
    let mut i: usize = 0;
    while i < locations_to_test.len()
        invariant
            i <= locations_to_test.len(),
            forall|k: int| 0 <= k < i ==> location_master_list@.contains(#[trigger] locations_to_test@[k]),
        decreases locations_to_test.len() - i,
    {
        if !is_listed(locations_to_test[i], location_master_list) {
            return false;
        }
        i = i + 1;
    }
    true
}

/// Every stop of every route is at a listed location.
pub open spec fn routes_use_listed_locations(routes: Seq<Vec<BusLocation>>, master: Seq<Location>) -> bool {
    forall|i: int, j: int|
        0 <= i < routes.len() && 0 <= j < routes[i]@.len() ==> master.contains(
            (#[trigger] routes[i]@[j]).location,
        )
}

/// Every passenger has a current location, and it and the destination are listed.
pub open spec fn passengers_use_listed_locations(passengers: Seq<SerializedPassenger>, master: Seq<Location>) -> bool {
    forall|i: int|
        0 <= i < passengers.len() ==> (#[trigger] passengers[i]).current_location is Some && master.contains(
            passengers[i].current_location->0,
        ) && master.contains(passengers[i].destination_location)
}

/// An input the simulation accepts: the configured numbers of locations,
/// buses and passengers, and only listed locations used.
pub open spec fn valid_input(data: InputDataStructure) -> bool {
    &&& data.location_vector@.len() == DEFAULT_GLOBAL_LOCATION_COUNT
    &&& data.bus_routes@.len() == DEFAULT_NUM_OF_BUSES
    &&& data.passengers@.len() == GLOBAL_PASSENGER_COUNT
    &&& routes_use_listed_locations(data.bus_routes@, data.location_vector@)
    &&& passengers_use_listed_locations(data.passengers@, data.location_vector@)
}

/// An accepted input names only listed locations: every stop of every route,
/// and every passenger's current location (which it must have) and
/// destination; an input with an unlisted stop or passenger location, or a
/// passenger without a current location, is refused.
pub proof fn lemma_valid_input_uses_listed_locations(data: InputDataStructure)
    ensures
        valid_input(data) ==> forall|i: int|
            0 <= i < data.passengers@.len() ==> {
                &&& (#[trigger] data.passengers@[i]).current_location is Some
                &&& data.location_vector@.contains(data.passengers@[i].current_location->0)
                &&& data.location_vector@.contains(data.passengers@[i].destination_location)
            },
        valid_input(data) ==> forall|i: int, j: int|
            0 <= i < data.bus_routes@.len() && 0 <= j < data.bus_routes@[i]@.len() ==> data.location_vector@.contains(
                (#[trigger] data.bus_routes@[i]@[j]).location,
            ),
        (exists|i: int|
            0 <= i < data.passengers@.len() && !data.location_vector@.contains(
                (#[trigger] data.passengers@[i]).destination_location,
            )) ==> !valid_input(data),
        (exists|i: int|
            0 <= i < data.passengers@.len() && ((#[trigger] data.passengers@[i]).current_location is None
                || !data.location_vector@.contains(data.passengers@[i].current_location->0))) ==> !valid_input(data),
{
}

/// Whether the simulation accepts `data`.
pub fn input_data_is_valid(data: &InputDataStructure) -> (res: bool)
    ensures
        res == valid_input(*data),
        res ==> forall|i: int|
            0 <= i < data.passengers@.len() ==> {
                &&& (#[trigger] data.passengers@[i]).current_location is Some
                &&& data.location_vector@.contains(data.passengers@[i].current_location->0)
                &&& data.location_vector@.contains(data.passengers@[i].destination_location)
            },
        (exists|i: int|
            0 <= i < data.passengers@.len() && !data.location_vector@.contains(
                (#[trigger] data.passengers@[i]).destination_location,
            )) ==> !res,
{
    proof {
        lemma_valid_input_uses_listed_locations(*data);
    }
    if data.location_vector.len() != DEFAULT_GLOBAL_LOCATION_COUNT || data.bus_routes.len()
        != DEFAULT_NUM_OF_BUSES || data.passengers.len() != GLOBAL_PASSENGER_COUNT {
        return false;
    }
    let mut i: usize = 0;
    while i < data.bus_routes.len()
        invariant
            i <= data.bus_routes.len(),
            forall|a: int, j: int|
                0 <= a < i && 0 <= j < data.bus_routes@[a]@.len() ==> data.location_vector@.contains(
                    (#[trigger] data.bus_routes@[a]@[j]).location,
                ),
        decreases data.bus_routes.len() - i,
    {
        let route = &data.bus_routes[i];
        let mut j: usize = 0;
        while j < route.len()
            invariant
                j <= route.len(),
                i < data.bus_routes.len(),
                route == &data.bus_routes@[i as int],
                forall|a: int, b: int|
                    0 <= a < i && 0 <= b < data.bus_routes@[a]@.len() ==> data.location_vector@.contains(
                        (#[trigger] data.bus_routes@[a]@[b]).location,
                    ),
                forall|b: int| 0 <= b < j ==> data.location_vector@.contains((#[trigger] route@[b]).location),
            decreases route.len() - j,
        {
            if !is_listed(route[j].location, &data.location_vector) {
                assert(!routes_use_listed_locations(data.bus_routes@, data.location_vector@)) by {
                    assert(data.bus_routes@[i as int]@[j as int] == route@[j as int]);
                }
                return false;
            }
            j = j + 1;
        }
        i = i + 1;
    }
    let mut k: usize = 0;
    while k < data.passengers.len()
        invariant
            k <= data.passengers.len(),
            forall|m: int|
                0 <= m < k ==> (#[trigger] data.passengers@[m]).current_location is Some
                    && data.location_vector@.contains(data.passengers@[m].current_location->0)
                    && data.location_vector@.contains(data.passengers@[m].destination_location),
        decreases data.passengers.len() - k,
    {
        let p = data.passengers[k];
        let ok = match p.current_location {
            Some(current) => is_listed(current, &data.location_vector) && is_listed(
                p.destination_location,
                &data.location_vector,
            ),
            None => false,
        };
        if !ok {
            assert(!passengers_use_listed_locations(data.passengers@, data.location_vector@)) by {
                assert(data.passengers@[k as int] == p);
            }
            return false;
        }
        k = k + 1;
    }
    true
}

impl Passenger {
    /// The live passenger for a stored one: numbered `master_index`, at its
    /// stored whereabouts, with no stops passed and an empty plan.
    pub fn from_serialized(serialized_passenger_input: SerializedIndexedPassenger) -> (p: Passenger)
        ensures
            p@ == (PassengerView {
                id: serialized_passenger_input.passenger.id,
                index: serialized_passenger_input.master_index,
                destination_location: serialized_passenger_input.passenger.destination_location,
                current_location: serialized_passenger_input.passenger.current_location,
                passed_stops: 0,
                beginning_time_step: serialized_passenger_input.passenger.beginning_time_step,
                bus_schedule: Seq::empty(),
                archived_stop_list: Seq::empty(),
                next_bus_num: None,
                schedule_cursor: 0,
            }),
    {
        let SerializedPassenger { id, destination_location, current_location, beginning_time_step } =
            serialized_passenger_input.passenger;
        let bus_schedule: Vec<PassengerOnboardingBusSchedule> = Vec::new();
        let archived_stop_list: Vec<PassengerOnboardingBusSchedule> = Vec::new();
        Passenger {
            id,
            index: serialized_passenger_input.master_index,
            destination_location,
            current_location,
            passed_stops: 0,
            bus_schedule,
            archived_stop_list,
            next_bus_num: None,
            beginning_time_step,
            schedule_cursor: 0,
        }
    }
}

impl SerializedPassenger {
    /// The stored form of a passenger: identifier, destination, whereabouts and start tick.
    pub fn from_passenger(passenger: Passenger) -> (s: SerializedPassenger)
        ensures
            s == (SerializedPassenger {
                id: passenger.id,
                destination_location: passenger.destination_location,
                current_location: passenger.current_location,
                beginning_time_step: passenger.beginning_time_step,
            }),
    {
        SerializedPassenger {
            id: passenger.id,
            destination_location: passenger.destination_location,
            current_location: passenger.current_location,
            beginning_time_step: passenger.beginning_time_step,
        }
    }
}

} // verus!

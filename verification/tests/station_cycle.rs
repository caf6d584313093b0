use bus_system::bus::SendableBus;
use bus_system::location::{Location, PassengerBusLocation};
use bus_system::passenger::Passenger;
use bus_system::station::Station;
use bus_system::station_cycle::StationThreadState;
use bus_system::thread::{ProgramEndType, StationEventMessages, StationToBusMessages, SyncToStationAndPassengerMessages};
use bus_system::{TimeTick, TimeTickStage};

fn loc(index: usize) -> Location {
    Location { index, id: 300 + index as u128 }
}

fn routes() -> Vec<Vec<PassengerBusLocation>> {
    vec![vec![
        PassengerBusLocation { location: loc(0), location_time_tick: 3 },
        PassengerBusLocation { location: loc(1), location_time_tick: 6 },
    ]]
}

#[test]
fn station_places_its_passengers_once() {
    let mut state = StationThreadState::new(Station::new(loc(0), &routes()));
    let list = vec![Passenger::new(loc(0), loc(1), 0, 0), Passenger::new(loc(0), loc(4), 0, 1)];
    let action = state.handle_event(StationEventMessages::InitPassengerList(list), &routes(), 1);
    assert_eq!(action.rejected_passengers.map(|r| r.len()), Some(1));
    assert!(state.passengers_initialized);
    assert_eq!(state.station.passengers.len(), 1);
    let again = state.handle_event(StationEventMessages::NoMessage, &routes(), 1);
    assert_eq!(again.pause_millis, 10);
    assert!(again.rejected_passengers.is_none());
}

#[test]
fn station_follows_the_clock_through_unloading_and_loading() {
    let mut state = StationThreadState::new(Station::new(loc(0), &routes()));
    state.passengers_initialized = true;
    let unloading = TimeTick { number: 1, stage: TimeTickStage::BusUnloadingPassengers };
    assert!(!state.receive_sync_message(&SyncToStationAndPassengerMessages::AdvanceTimeStep(unloading)));
    let bus = SendableBus { capacity_remaining: 3, bus_index: 0 };
    let action = state.handle_event(
        StationEventMessages::BusArrived { passengers_offboarding: vec![], bus_info: bus },
        &routes(),
        1,
    );
    assert!(matches!(action.reply, Some((0, StationToBusMessages::FinishedUnloading))));
    let loading = TimeTick { number: 1, stage: TimeTickStage::BusLoadingPassengers };
    state.receive_sync_message(&SyncToStationAndPassengerMessages::AdvanceTimeStep(loading));
    let action = state.handle_event(StationEventMessages::NoMessage, &routes(), 1);
    let outcome = action.loading.expect("the first call of a loading stage loads the buses");
    assert_eq!(outcome.departure_requests, vec![0]);
    assert!(!state.first_call_for_tick);
    let idle = state.handle_event(StationEventMessages::NoMessage, &routes(), 1);
    assert!(idle.loading.is_none());
    assert_eq!(idle.pause_millis, 100);
    let departed = state.handle_event(StationEventMessages::BusDeparted { bus_index: 0 }, &routes(), 1);
    assert!(matches!(departed.reply, Some((0, StationToBusMessages::StationRemovedBus))));
    assert!(state.station.docked_buses.is_empty());
    state.finish_loading_tick(TimeTick { number: 2, stage: TimeTickStage::BusUnloadingPassengers });
    assert_eq!(state.time_tick.number, 2);
    assert!(state.receive_sync_message(&SyncToStationAndPassengerMessages::ProgramFinished(
        ProgramEndType::ProgramFinished
    )));
}

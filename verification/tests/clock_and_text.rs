use bus_system::display::{
    ArrivedPassengerInfo, BoardedPassengerInfo, InitiatedPassengerInfo, RejectedPassengerInfo,
    StrandedPassengerInfo, TerminalType, WaitingPassengerInfo,
};
use bus_system::location::Location;
use bus_system::main_loop::accept_time_tick;
use bus_system::passenger::Passenger;
use bus_system::thread::{TimeTickAdvanced, TimeTickAdvancedObject};
use bus_system::{TimeTick, TimeTickStage};

#[test]
fn clock_moves_through_the_stages() {
    let mut t = TimeTick::default();
    assert_eq!(t, TimeTick { number: 0, stage: TimeTickStage::PassengerInit });
    t.increment_time_tick();
    assert_eq!(t, TimeTick { number: 1, stage: TimeTickStage::BusUnloadingPassengers });
    t.increment_time_tick();
    assert_eq!(t, TimeTick { number: 1, stage: TimeTickStage::BusLoadingPassengers });
    t.increment_time_tick();
    assert_eq!(t, TimeTick { number: 2, stage: TimeTickStage::BusUnloadingPassengers });
}

#[test]
fn clock_leaves_initial_stage() {
    let mut t = TimeTick::default();
    assert_eq!(t.increment_from_initialized(), Some(()));
    assert_eq!(t, TimeTick { number: 1, stage: TimeTickStage::BusUnloadingPassengers });
}

#[test]
fn bus_skips_repeated_and_initial_ticks() {
    let prev = TimeTick { number: 1, stage: TimeTickStage::BusUnloadingPassengers };
    assert_eq!(accept_time_tick(prev, prev), None);
    let next = TimeTick { number: 1, stage: TimeTickStage::BusLoadingPassengers };
    assert_eq!(accept_time_tick(prev, next), Some(next));
    let init = TimeTick::default();
    assert_eq!(accept_time_tick(init, init), None);
}

#[test]
fn location_and_passenger_text() {
    let l = Location { index: 42, id: 7 };
    assert_eq!(l.to_text(), "Location 42");
    let p = Passenger::new(l, Location { index: 3, id: 8 }, 0, 105);
    assert_eq!(p.to_text(), "Passenger 105");
}

#[test]
fn display_texts() {
    let l = Location { index: 4, id: 0 };
    assert_eq!(
        ArrivedPassengerInfo::new_final(3, l).to_text(),
        "Passenger 3 arrived at destination location: Location Location 4"
    );
    assert_eq!(
        ArrivedPassengerInfo::new_layover(3, l).to_text(),
        "Passenger 3 arrived at intermediate location: Location Location 4"
    );
    assert_eq!(BoardedPassengerInfo::new(1, 2).to_text(), "Passenger 1 boarded bus 2");
    assert_eq!(
        RejectedPassengerInfo::new(1, 20).to_text(),
        "Passenger 1 rejected from Bus 20 because it was already at capacity"
    );
    assert_eq!(
        StrandedPassengerInfo::new(9, 0, 11).to_text(),
        "Passenger 9 stuck at station 0. Failed to find valid route to destination 11"
    );
    assert_eq!(WaitingPassengerInfo::new(5, 6).to_text(), "Passenger 5 waiting in station 6");
    assert_eq!(InitiatedPassengerInfo::new(5, 6).to_text(), "Passenger 5 initiated in station 6");
    assert_eq!(
        TerminalType::NoPassengerFromStation { passenger_index: 2 }.to_text(),
        "Station 2 processes no passengers in the current time tick"
    );
    assert_eq!(
        TerminalType::BoardedPassenger(BoardedPassengerInfo::new(0, 10)).to_text(),
        "Passenger 0 boarded bus 10"
    );
}

#[test]
fn display_constructors_keep_their_fields() {
    let l = Location { index: 4, id: 0 };
    let a = ArrivedPassengerInfo::new_layover(8, l);
    assert_eq!(a.passenger_index, 8);
    assert_eq!(a.station_location, l);
    assert!(!a.final_location);
    let s = StrandedPassengerInfo::new(1, 2, 3);
    assert_eq!((s.passenger_index, s.current_station_index, s.destination_location_index), (1, 2, 3));
}

#[test]
fn time_tick_advanced_text() {
    assert_eq!(
        TimeTickAdvanced(TimeTickAdvancedObject::Bus { index: 2 }).to_text(),
        "TimeTickAdvanced from bus 2"
    );
    assert_eq!(
        TimeTickAdvanced(TimeTickAdvancedObject::Station { index: 0 }).to_text(),
        "TimeTickAdvanced from station 0"
    );
}

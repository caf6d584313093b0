use bus_system::bus::{Bus, BusReaction, BusUpdate, MovementState, SendableBus};
use bus_system::location::{BusLocation, Location};
use bus_system::passenger::{Passenger, PassengerOnboardingBusSchedule};
use bus_system::thread::{BusMessages, StationEventMessages, StationToBusMessages};
use bus_system::{TimeTick, TimeTickStage};

fn loc(index: usize) -> Location {
    Location { index, id: 50 + index as u128 }
}

fn route() -> Vec<BusLocation> {
    vec![
        BusLocation { location: loc(0), distance_to_location: 2 },
        BusLocation { location: loc(1), distance_to_location: 3 },
    ]
}

fn entry(time_tick: u32, bus_num: Option<usize>, stop_location: Location) -> PassengerOnboardingBusSchedule {
    PassengerOnboardingBusSchedule { time_tick, bus_num, stop_location }
}

fn rider(from: usize, to: usize, schedule: Vec<PassengerOnboardingBusSchedule>) -> Passenger {
    let mut p = Passenger::new(loc(from), loc(to), 0, 0);
    p.set_bus_schedule(schedule);
    p
}

#[test]
fn empty_route_gives_no_bus() {
    assert!(Bus::try_new(vec![], 10, 0).is_none());
}

#[test]
fn new_bus_heads_for_its_first_stop() {
    let bus = Bus::try_new(route(), 10, 3).unwrap();
    assert_eq!(bus.status.movement, MovementState::Moving(2));
    assert_eq!(bus.current_location, Some(loc(0)));
    assert_eq!(bus.route_position, 1);
    assert_eq!(bus.bus_index, 3);
    assert_eq!(bus.time_tick, TimeTick::default());
    assert_eq!(bus.get_bus_route(), route());
}

#[test]
fn bus_moves_stops_and_runs_out_of_route() {
    let mut bus = Bus::try_new(route(), 10, 0).unwrap();
    let msg = bus.update_moving();
    assert!(matches!(msg, BusMessages::AdvanceTimeStepForMovingBus { bus_index: 0 }));
    assert_eq!(bus.status.movement, MovementState::Moving(1));
    bus.update_moving();
    assert_eq!(bus.status.movement, MovementState::Stopped);
    assert_eq!(bus.leave_for_next_location(), Some(()));
    assert_eq!(bus.current_location, Some(loc(1)));
    assert_eq!(bus.status.movement, MovementState::Moving(3));
    assert_eq!(bus.leave_for_next_location(), None);
    assert_eq!(bus.current_location, Some(loc(1)));
}

#[test]
fn full_bus_hands_back_the_overflow() {
    let mut bus = Bus::try_new(route(), 2, 0).unwrap();
    let mut waiting: Vec<Passenger> = (0..4)
        .map(|i| {
            let mut p = rider(0, 1, vec![entry(1, Some(0), loc(0)), entry(4, None, loc(1))]);
            p.index = i;
            p
        })
        .collect();
    // One passenger waits for another bus.
    waiting[1].bus_schedule[0].bus_num = Some(5);
    let overflow = bus.take_passengers(&mut waiting, &1);
    let aboard: Vec<usize> = bus.passengers.iter().map(|p| p.index).collect();
    let left: Vec<usize> = overflow.iter().map(|p| p.index).collect();
    assert_eq!(aboard, vec![0, 2]);
    assert_eq!(left, vec![3]);
}

#[test]
fn drop_off_counts_stops() {
    let mut bus = Bus::try_new(route(), 10, 0).unwrap();
    let mut staying = rider(0, 1, vec![]);
    staying.passed_stops = 4;
    let mut leaving = rider(1, 0, vec![]);
    leaving.passed_stops = 2;
    bus.add_passenger(&staying);
    bus.add_passenger(&leaving);
    let mut stops = vec![9];
    assert_eq!(bus.drop_off_passengers(&mut stops), Some(()));
    assert_eq!(stops, vec![9, 2]);
    assert_eq!(bus.passengers.len(), 1);
    assert_eq!(bus.passengers[0].passed_stops, 5);
    assert_eq!(bus.numbers_of_passengers_serviced, 1);
}

#[test]
fn arriving_bus_lets_off_passengers_due_here() {
    let mut bus = Bus::try_new(route(), 3, 1).unwrap();
    bus.time_tick = TimeTick { number: 2, stage: TimeTickStage::BusUnloadingPassengers };
    let getting_off = rider(1, 0, vec![entry(1, Some(1), loc(1)), entry(5, None, loc(0))]);
    let too_late = rider(1, 0, vec![entry(1, Some(1), loc(0)), entry(5, None, loc(1))]);
    bus.add_passenger(&getting_off);
    bus.add_passenger(&too_late);
    let message = bus.arrive_at_current_stop();
    match message {
        StationEventMessages::BusArrived { passengers_offboarding, bus_info } => {
            assert_eq!(passengers_offboarding.len(), 1);
            assert!(passengers_offboarding[0].is_same_passenger(&getting_off));
            assert_eq!(bus_info, SendableBus { capacity_remaining: 2, bus_index: 1 });
        }
        _ => panic!("a bus arriving sends BusArrived"),
    }
    assert_eq!(bus.passengers.len(), 1);
    assert!(bus.passengers[0].is_same_passenger(&too_late));
}

#[test]
fn bus_answers_station_messages() {
    let mut bus = Bus::try_new(route(), 10, 4).unwrap();
    assert!(matches!(bus.respond_to_station(StationToBusMessages::AcknowledgeArrival()), BusReaction::KeepWaiting));
    assert!(matches!(bus.respond_to_station(StationToBusMessages::RequestDeparture), BusReaction::AwaitTimeTick));
    let departed = bus.depart_after_time_tick(TimeTick { number: 1, stage: TimeTickStage::BusLoadingPassengers });
    assert!(matches!(departed, StationEventMessages::BusDeparted { bus_index: 4 }));
    assert!(matches!(
        bus.respond_to_station(StationToBusMessages::RequestDeparture),
        BusReaction::Depart(StationEventMessages::BusDeparted { bus_index: 4 })
    ));
    assert!(matches!(
        bus.respond_to_station(StationToBusMessages::FinishedUnloading),
        BusReaction::Notify(BusMessages::AdvanceTimeStepForUnloadedBus { bus_index: 4 })
    ));
    let p = rider(0, 1, vec![]);
    assert!(matches!(
        bus.respond_to_station(StationToBusMessages::SendPassengers(vec![p])),
        BusReaction::KeepWaiting
    ));
    assert_eq!(bus.passengers.len(), 1);
    assert!(matches!(
        bus.respond_to_station(StationToBusMessages::StationRemovedBus),
        BusReaction::LeaveStation(BusMessages::AdvanceTimeStepForLoadedBus { bus_index: 4 })
    ));
    assert_eq!(bus.current_location, Some(loc(1)));
    bus.passengers.clear();
    assert!(matches!(
        bus.respond_to_station(StationToBusMessages::StationRemovedBus),
        BusReaction::FinishRoute(
            BusMessages::AdvanceTimeStepForLoadedBus { bus_index: 4 },
            BusMessages::BusFinished { bus_index: 4 }
        )
    ));
    assert_eq!(bus.status.movement, MovementState::Finished);
}

#[test]
fn update_moves_then_arrives() {
    let mut bus = Bus::try_new(route(), 2, 6).unwrap();
    assert!(matches!(bus.update(), BusUpdate::Moved(BusMessages::AdvanceTimeStepForMovingBus { bus_index: 6 })));
    assert!(matches!(bus.update(), BusUpdate::Moved(_)));
    assert_eq!(bus.status.movement, MovementState::Stopped);
    match bus.update() {
        BusUpdate::Arrived(StationEventMessages::BusArrived { passengers_offboarding, bus_info }) => {
            assert!(passengers_offboarding.is_empty());
            assert_eq!(bus_info, SendableBus { capacity_remaining: 2, bus_index: 6 });
        }
        _ => panic!("a stopped bus arrives"),
    }
}

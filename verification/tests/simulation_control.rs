use bus_system::location::Location;
use bus_system::main_loop::{group_passengers_by_location, increment_time_step, FinalPassengerLists, SyncState};
use bus_system::passenger::Passenger;
use bus_system::thread::{BusMessages, BusThreadStatus};
use bus_system::{TimeTick, TimeTickStage};

fn loc(index: usize) -> Location {
    Location { index, id: 90 + index as u128 }
}

#[test]
fn clock_keeper_starts_once_everyone_is_ready() {
    let mut sync = SyncState::new(2);
    assert_eq!(sync.bus_status_vector, vec![BusThreadStatus::Uninitialized; 2]);
    assert!(sync.record_bus_message(&BusMessages::InitBus { bus_index: 0 }).is_none());
    let step = sync.advance(2);
    assert!(!step.all_buses_initialized);
    assert!(step.announced_ticks.is_empty());
    sync.record_bus_message(&BusMessages::InitBus { bus_index: 1 });
    let step = sync.advance(2);
    assert!(step.all_buses_initialized);
    assert!(step.announced_ticks.is_empty());
    sync.record_bus_message(&BusMessages::InitPassengers);
    assert!(sync.passengers_initialized);
    let step = sync.advance(2);
    assert_eq!(step.announced_ticks, vec![TimeTick { number: 1, stage: TimeTickStage::BusUnloadingPassengers }]);
    assert!(!step.program_finished);
    assert_eq!(sync.bus_status_vector, vec![BusThreadStatus::WaitingForTimeStep; 2]);
}

#[test]
fn clock_keeper_moves_on_when_all_buses_are_done() {
    let mut sync = SyncState::new(2);
    sync.current_time_tick = TimeTick { number: 1, stage: TimeTickStage::BusUnloadingPassengers };
    sync.bus_status_vector = vec![BusThreadStatus::WaitingForTimeStep; 2];
    sync.record_bus_message(&BusMessages::AdvanceTimeStepForMovingBus { bus_index: 0 });
    assert!(sync.advance(2).announced_ticks.is_empty());
    sync.record_bus_message(&BusMessages::AdvanceTimeStepForUnloadedBus { bus_index: 1 });
    let step = sync.advance(2);
    assert_eq!(step.announced_ticks, vec![TimeTick { number: 1, stage: TimeTickStage::BusLoadingPassengers }]);
    sync.record_bus_message(&BusMessages::BusFinished { bus_index: 0 });
    sync.record_bus_message(&BusMessages::AdvanceTimeStepForLoadedBus { bus_index: 1 });
    let step = sync.advance(2);
    assert_eq!(step.announced_ticks, vec![TimeTick { number: 2, stage: TimeTickStage::BusUnloadingPassengers }]);
    assert_eq!(
        sync.bus_status_vector,
        vec![BusThreadStatus::BusFinishedRoute, BusThreadStatus::WaitingForTimeStep]
    );
    sync.record_bus_message(&BusMessages::BusFinished { bus_index: 1 });
    assert!(sync.advance(2).program_finished);
}

#[test]
fn crashed_bus_message_is_relayed() {
    let mut sync = SyncState::new(1);
    let crash = sync.record_bus_message(&BusMessages::BusPanicked { bus_index: 0, message: "oops".to_string() });
    assert_eq!(crash, Some("oops".to_string()));
}

#[test]
fn rejected_passengers_released_when_all_running_buses_reported() {
    let mut sync = SyncState::new(1);
    assert!(sync.release_rejected_passengers().is_none());
    sync.record_bus_message(&BusMessages::BusFinished { bus_index: 0 });
    assert!(matches!(sync.release_rejected_passengers(), Some(None)));
    sync.rejected_passengers_list.push(Passenger::new(loc(0), loc(1), 0, 3));
    let released = sync.release_rejected_passengers();
    match released {
        Some(Some(list)) => assert_eq!(list[0].index, 3),
        _ => panic!("the rejected passenger is released"),
    }
    assert!(sync.rejected_passengers_list.is_empty());
}

#[test]
fn increment_keeps_finished_buses() {
    let mut tick = TimeTick { number: 5, stage: TimeTickStage::BusLoadingPassengers };
    let mut statuses = vec![BusThreadStatus::BusFinishedRoute, BusThreadStatus::Moving];
    increment_time_step(false, &mut tick, &mut statuses);
    assert_eq!(tick, TimeTick { number: 6, stage: TimeTickStage::BusUnloadingPassengers });
    assert_eq!(statuses, vec![BusThreadStatus::BusFinishedRoute, BusThreadStatus::WaitingForTimeStep]);
}

#[test]
fn passengers_grouped_by_location_from_the_back() {
    let ps: Vec<Passenger> = (0..4).map(|i| Passenger::new(loc(i % 2), loc(2), 0, i)).collect();
    let groups = group_passengers_by_location(&ps, 3);
    let indices: Vec<Vec<usize>> = groups.iter().map(|g| g.iter().map(|p| p.index).collect()).collect();
    assert_eq!(indices, vec![vec![2, 0], vec![3, 1], vec![]]);
}

#[test]
fn final_lists_record_arrivals_and_leftovers() {
    let mut lists = FinalPassengerLists::default();
    assert!(lists.location_lists.is_empty());
    lists.location_lists = vec![Vec::new(), Vec::new()];
    lists.record_station_arrivals(1, vec![Passenger::new(loc(0), loc(1), 0, 4)]);
    lists.add_remaining_passenger(Passenger::new(loc(0), loc(1), 0, 5));
    assert_eq!(lists.location_lists[1][0].index, 4);
    assert!(lists.location_lists[0].is_empty());
    assert_eq!(lists.remaining_passengers[0].index, 5);
}

#[test]
fn final_lists_start_with_one_empty_list_per_location() {
    let lists = FinalPassengerLists::new(3);
    assert_eq!(lists.location_lists.len(), 3);
    assert!(lists.location_lists.iter().all(|l| l.is_empty()));
    assert_eq!(lists.len, 3);
    assert!(lists.remaining_passengers.is_empty());
}

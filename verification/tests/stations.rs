use bus_system::station::PassengerScheduleWithDistance;
use bus_system::bus::SendableBus;
use bus_system::location::{Location, PassengerBusLocation};
use bus_system::passenger::{Passenger, PassengerOnboardingBusSchedule};
use bus_system::station::{get_station_buses_index_hash_map, time_step_is_valid, Station};
use bus_system::thread::StationToBusMessages;
use bus_system::{TimeTick, TimeTickStage};

fn loc(index: usize) -> Location {
    Location { index, id: 70 + index as u128 }
}

fn stop(location: Location, tick: u32) -> PassengerBusLocation {
    PassengerBusLocation { location, location_time_tick: tick }
}

fn entry(time_tick: u32, bus_num: Option<usize>, stop_location: Location) -> PassengerOnboardingBusSchedule {
    PassengerOnboardingBusSchedule { time_tick, bus_num, stop_location }
}

fn routes() -> Vec<Vec<PassengerBusLocation>> {
    vec![
        vec![stop(loc(0), 3), stop(loc(1), 6)],
        vec![stop(loc(0), 3), stop(loc(1), 9)],
        vec![stop(loc(2), 3), stop(loc(0), 5)],
    ]
}

#[test]
fn buses_by_tick_at_a_station() {
    let map = get_station_buses_index_hash_map(0, &routes());
    assert_eq!(map.len(), 2);
    assert_eq!(map.get(&3), Some(&vec![0, 1]));
    assert_eq!(map.get(&5), Some(&vec![2]));
    assert_eq!(map.get(&6), None);
}

#[test]
fn time_steps_may_not_jump() {
    let a = TimeTick { number: 2, stage: TimeTickStage::BusLoadingPassengers };
    let b = TimeTick { number: 3, stage: TimeTickStage::BusUnloadingPassengers };
    let c = TimeTick { number: 4, stage: TimeTickStage::BusUnloadingPassengers };
    assert!(time_step_is_valid(&a, &b));
    assert!(time_step_is_valid(&a, &a));
    assert!(!time_step_is_valid(&a, &c));
    assert!(!time_step_is_valid(&b, &a));
}

#[test]
fn initial_passengers_get_plans_or_are_rejected() {
    let mut station = Station::new(loc(0), &routes());
    let going = Passenger::new(loc(0), loc(1), 0, 0);
    let stuck = Passenger::new(loc(0), loc(5), 0, 1);
    let rejected = station.init_passengers(vec![going, stuck], &TimeTick::default(), &routes());
    assert_eq!(rejected.len(), 1);
    assert_eq!(rejected[0].index, 1);
    assert_eq!(station.passengers.len(), 1);
    let p = &station.passengers[0];
    assert_eq!(p.bus_schedule, vec![entry(3, Some(0), loc(0)), entry(6, None, loc(1))]);
    assert_eq!(p.schedule_cursor, 1);
    assert_eq!(p.next_bus_num, Some(0));
}

#[test]
fn arriving_bus_is_docked_and_its_passengers_step_off() {
    let mut station = Station::new(loc(1), &routes());
    let mut p = Passenger::new(loc(0), loc(1), 0, 0);
    p.set_bus_schedule(vec![entry(3, Some(0), loc(0)), entry(6, None, loc(1))]);
    p.next_stop();
    let bus = SendableBus { capacity_remaining: 4, bus_index: 0 };
    let reply = station.receive_bus(vec![p], bus);
    assert!(matches!(reply, StationToBusMessages::FinishedUnloading));
    assert_eq!(station.docked_buses, vec![bus]);
    let arrived = &station.passengers[0];
    assert_eq!(arrived.current_location, Some(loc(1)));
    assert_eq!(arrived.next_bus_num, None);
    assert_eq!(arrived.archived_stop_list, vec![entry(6, None, loc(1))]);
    assert!(arrived.peek_next_stop().is_none());
    let removed = station.remove_departed_bus(0);
    assert!(matches!(removed, StationToBusMessages::StationRemovedBus));
    assert!(station.docked_buses.is_empty());
}

#[test]
fn loading_sends_waiting_passengers_and_reroutes_the_overflow() {
    let mut station = Station::new(loc(0), &routes());
    let time_tick = TimeTick { number: 3, stage: TimeTickStage::BusLoadingPassengers };
    // Three passengers wait for bus 0, which has room for one.
    for i in 0..3 {
        let mut p = Passenger::new(loc(0), loc(1), 0, i);
        p.set_bus_schedule(vec![entry(3, Some(0), loc(0)), entry(6, None, loc(1))]);
        p.next_stop();
        p.next_bus_num = Some(0);
        station.passengers.push(p);
    }
    // One passenger has arrived here.
    let mut done = Passenger::new(loc(2), loc(0), 0, 9);
    done.set_bus_schedule(vec![entry(3, Some(2), loc(2)), entry(5, None, loc(0))]);
    done.next_stop();
    done.next_stop();
    done.current_location = Some(loc(0));
    station.passengers.push(done);
    station.docked_buses.push(SendableBus { capacity_remaining: 1, bus_index: 0 });
    let outcome = station.load_docked_buses(&time_tick, 3, &routes());
    assert_eq!(outcome.passengers_for_buses.len(), 1);
    assert_eq!(outcome.passengers_for_buses[0].0, 0);
    let sent: Vec<usize> = outcome.passengers_for_buses[0].1.iter().map(|p| p.index).collect();
    assert_eq!(sent, vec![0]);
    assert_eq!(outcome.departure_requests, vec![0]);
    assert_eq!(station.buses_unavailable, vec![0]);
    assert_eq!(station.arrived_passengers.len(), 1);
    assert_eq!(station.arrived_passengers[0].index, 9);
    // The two who did not fit take bus 1 instead.
    let rerouted: Vec<usize> = station.passengers.iter().map(|p| p.index).collect();
    assert_eq!(rerouted, vec![1, 2]);
    assert_eq!(
        station.passengers[0].bus_schedule,
        vec![entry(3, Some(1), loc(0)), entry(9, None, loc(1))]
    );
    assert!(outcome.stranded_passengers.is_empty());
    assert_eq!(station.bus_loading_first_iteration, Some(false));
    station.clear_unavailable_buses();
    assert!(station.buses_unavailable.is_empty());
}

#[test]
fn overflow_without_alternative_is_stranded() {
    let mut station = Station::new(loc(0), &routes());
    let time_tick = TimeTick { number: 3, stage: TimeTickStage::BusLoadingPassengers };
    for i in 0..2 {
        let mut p = Passenger::new(loc(0), loc(1), 0, i);
        p.set_bus_schedule(vec![entry(3, Some(0), loc(0)), entry(6, None, loc(1))]);
        p.next_stop();
        p.next_bus_num = Some(0);
        station.passengers.push(p);
    }
    station.docked_buses.push(SendableBus { capacity_remaining: 0, bus_index: 0 });
    station.docked_buses.push(SendableBus { capacity_remaining: 5, bus_index: 1 });
    let outcome = station.load_docked_buses(&time_tick, 3, &routes());
    // Bus 0 has no room; both passengers find bus 1 instead, but only after
    // the loading of bus 0, so bus 1 is sent nobody.
    assert_eq!(outcome.passengers_for_buses.len(), 2);
    assert!(outcome.passengers_for_buses[0].1.is_empty());
    assert!(outcome.passengers_for_buses[1].1.is_empty());
    assert_eq!(outcome.departure_requests, vec![0, 1]);
    assert!(outcome.stranded_passengers.is_empty());
    // The overflow is asked for a new plan once per bus loaded after it overflowed.
    assert_eq!(station.passengers.len(), 4);
}

#[test]
fn passenger_plan_and_distance() {
    let plan = vec![entry(3, Some(0), loc(0)), entry(6, None, loc(1))];
    let with_distance = PassengerScheduleWithDistance::from_schedule(plan.clone());
    assert_eq!(with_distance.distance, 6);
    assert_eq!(with_distance.passenger_schedule, plan);
}

#[test]
fn added_passenger_waits_with_a_fresh_plan() {
    let mut station = Station::new(loc(0), &routes());
    let p = Passenger::new(loc(0), loc(1), 0, 2);
    let tick = TimeTick { number: 3, stage: TimeTickStage::BusLoadingPassengers };
    assert!(station.add_passenger(p.clone(), &tick, &routes()).is_ok());
    assert_eq!(station.passengers[0].schedule_cursor, 1);
    assert_eq!(station.passengers[0].next_bus_num, Some(0));
    assert!(station.add_passenger_check_available_buses(p.clone(), &tick, &routes(), vec![0]).is_ok());
    let rerouted = &station.passengers[1];
    assert_eq!(rerouted.bus_schedule, vec![entry(3, Some(1), loc(0)), entry(9, None, loc(1))]);
    assert_eq!(rerouted.schedule_cursor, 0);
    assert_eq!(rerouted.next_bus_num, None);
    let refused = station.add_passenger_check_available_buses(p, &tick, &routes(), vec![0, 1]);
    assert_eq!(refused.err().map(|q| q.index), Some(2));
    assert_eq!(station.passengers.len(), 2);
}

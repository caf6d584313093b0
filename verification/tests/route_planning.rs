use bus_system::location::{BusLocation, Location, PassengerBusLocation};
use bus_system::passenger::{Passenger, PassengerOnboardingBusSchedule};
use bus_system::{
    calculate_passenger_schedule_for_bus, calculate_passenger_schedule_for_bus_check_available_buses,
    convert_bus_route_list_to_passenger_bus_route_list, initialize_location_list,
};

fn loc(index: usize) -> Location {
    Location { index, id: 1000 + index as u128 }
}

fn stop(location: Location, tick: u32) -> PassengerBusLocation {
    PassengerBusLocation { location, location_time_tick: tick }
}

fn entry(time_tick: u32, bus_num: Option<usize>, stop_location: Location) -> PassengerOnboardingBusSchedule {
    PassengerOnboardingBusSchedule { time_tick, bus_num, stop_location }
}

fn bus_stop(location: Location, distance_to_location: u32) -> BusLocation {
    BusLocation { location, distance_to_location }
}

// Bus 0: L3 at 4, L2 at 8. Bus 1: L0 at 4, L3 at 8. Bus 2: L3 at 8, L2 at 12.
fn simple_routes(l: &[Location]) -> Vec<Vec<PassengerBusLocation>> {
    vec![
        vec![bus_stop(l[3], 3), bus_stop(l[2], 3)],
        vec![bus_stop(l[0], 3), bus_stop(l[3], 3)],
        vec![bus_stop(l[3], 7), bus_stop(l[2], 3)],
    ]
    .into_iter()
    .map(convert_bus_route_list_to_passenger_bus_route_list)
    .collect()
}

// Bus 0: L3 at 16, L2 at 22. Bus 1: L1 at 2, L2 at 30. Bus 2: L1 at 6, L3 at 14.
fn routes_with_distances(l: &[Location]) -> Vec<Vec<PassengerBusLocation>> {
    vec![
        vec![bus_stop(l[3], 15), bus_stop(l[2], 5)],
        vec![bus_stop(l[1], 1), bus_stop(l[2], 27)],
        vec![bus_stop(l[1], 5), bus_stop(l[3], 7)],
    ]
    .into_iter()
    .map(convert_bus_route_list_to_passenger_bus_route_list)
    .collect()
}

fn three_bus_routes() -> Vec<Vec<PassengerBusLocation>> {
    let l: Vec<Location> = (0..4).map(loc).collect();
    simple_routes(&l)
}

#[test]
fn can_find_basic_route() {
    let location_list = initialize_location_list(4);
    let passenger_facing_bus_routes = simple_routes(&location_list);
    let test_passenger = Passenger::new(location_list[3], location_list[2], 0, 0);
    let calculated_passenger_bus_route =
        calculate_passenger_schedule_for_bus(&test_passenger, 0, &passenger_facing_bus_routes);
    let expected_passenger_bus_route = vec![
        PassengerOnboardingBusSchedule { time_tick: 4, bus_num: Some(0), stop_location: location_list[3] },
        PassengerOnboardingBusSchedule { time_tick: 8, bus_num: None, stop_location: location_list[2] },
    ];
    assert_eq!(calculated_passenger_bus_route.ok(), Some(expected_passenger_bus_route));
}

#[test]
fn can_find_bus_route_with_transfer() {
    let location_list = initialize_location_list(4);
    let passenger_facing_bus_routes = simple_routes(&location_list);
    let test_passenger = Passenger::new(location_list[0], location_list[2], 0, 0);
    let calculated_passenger_bus_route =
        calculate_passenger_schedule_for_bus(&test_passenger, 0, &passenger_facing_bus_routes);
    let expected_passenger_route = vec![
        PassengerOnboardingBusSchedule { time_tick: 4, bus_num: Some(1), stop_location: location_list[0] },
        PassengerOnboardingBusSchedule { time_tick: 8, bus_num: Some(2), stop_location: location_list[3] },
        PassengerOnboardingBusSchedule { time_tick: 12, bus_num: None, stop_location: location_list[2] },
    ];
    assert_eq!(calculated_passenger_bus_route.ok(), Some(expected_passenger_route));
}

#[test]
fn finds_shortest_route() {
    let location_list = initialize_location_list(4);
    let passenger_facing_bus_routes = routes_with_distances(&location_list);
    let test_passenger = Passenger::new(location_list[1], location_list[2], 0, 0);
    let calculated_passenger_bus_route =
        calculate_passenger_schedule_for_bus(&test_passenger, 0, &passenger_facing_bus_routes);
    let expected_passenger_route = vec![
        PassengerOnboardingBusSchedule { time_tick: 6, bus_num: Some(2), stop_location: location_list[1] },
        // time tick represents time tick when bus 2 drops the passenger off, rather than when bus 0 picks passenger up
        PassengerOnboardingBusSchedule { time_tick: 14, bus_num: Some(0), stop_location: location_list[3] },
        PassengerOnboardingBusSchedule { time_tick: 22, bus_num: None, stop_location: location_list[2] },
    ];
    assert_eq!(calculated_passenger_bus_route.ok(), Some(expected_passenger_route));
}

#[test]
fn special_route_removing_some_bus_locations() {
    let location_list = initialize_location_list(4);
    let passenger_facing_bus_routes = simple_routes(&location_list);
    let test_passenger = Passenger::new(location_list[3], location_list[2], 0, 0);
    let calculated_passenger_bus_route = calculate_passenger_schedule_for_bus_check_available_buses(
        &test_passenger,
        4,
        &passenger_facing_bus_routes,
        vec![0],
    );
    let expected_passenger_route = vec![
        PassengerOnboardingBusSchedule { time_tick: 8, bus_num: Some(2), stop_location: location_list[3] },
        PassengerOnboardingBusSchedule { time_tick: 12, bus_num: None, stop_location: location_list[2] },
    ];
    assert_eq!(calculated_passenger_bus_route.ok(), Some(expected_passenger_route));
}

#[test]
fn unavailable_list_without_matching_tick_changes_nothing() {
    let routes = three_bus_routes();
    let passenger = Passenger::new(loc(3), loc(2), 0, 0);
    let plan = calculate_passenger_schedule_for_bus_check_available_buses(&passenger, 5, &routes, vec![0]);
    assert_eq!(
        plan.ok(),
        Some(vec![entry(4, Some(0), loc(3)), entry(8, None, loc(2))])
    );
}

#[test]
fn no_route_hands_the_passenger_back() {
    let routes = three_bus_routes();
    let passenger = Passenger::new(loc(2), loc(0), 0, 7);
    let result = calculate_passenger_schedule_for_bus(&passenger, 0, &routes);
    match result {
        Err(p) => {
            assert_eq!(p.id, passenger.id);
            assert_eq!(p.index, 7);
            assert_eq!(p.current_location, Some(loc(2)));
        }
        Ok(_) => panic!("no bus reaches location 0"),
    }
}

#[test]
fn destination_reached_too_early_is_not_a_plan() {
    let routes = three_bus_routes();
    let passenger = Passenger::new(loc(3), loc(2), 0, 0);
    let plan = calculate_passenger_schedule_for_bus(&passenger, 13, &routes);
    assert!(plan.is_err());
}

#[test]
fn equal_arrivals_keep_the_first_found() {
    let routes = vec![
        vec![stop(loc(0), 2), stop(loc(1), 6)],
        vec![stop(loc(0), 3), stop(loc(1), 6)],
    ];
    let passenger = Passenger::new(loc(0), loc(1), 0, 0);
    let plan = calculate_passenger_schedule_for_bus(&passenger, 0, &routes);
    assert_eq!(plan.ok(), Some(vec![entry(2, Some(0), loc(0)), entry(6, None, loc(1))]));
}

#[test]
fn route_conversion_adds_waiting_ticks() {
    let route = vec![
        BusLocation { location: loc(0), distance_to_location: 2 },
        BusLocation { location: loc(1), distance_to_location: 2 },
        BusLocation { location: loc(2), distance_to_location: 3 },
    ];
    let converted = convert_bus_route_list_to_passenger_bus_route_list(route);
    assert_eq!(converted, vec![stop(loc(0), 3), stop(loc(1), 6), stop(loc(2), 10)]);
}

#[test]
fn route_conversion_skips_waiting_after_tick_one() {
    let route = vec![
        BusLocation { location: loc(0), distance_to_location: 0 },
        BusLocation { location: loc(1), distance_to_location: 1 },
    ];
    // The first stop is reached at tick 1, so no waiting tick is added before the second.
    let converted = convert_bus_route_list_to_passenger_bus_route_list(route);
    assert_eq!(converted, vec![stop(loc(0), 1), stop(loc(1), 2)]);
}

#[test]
fn more_unavailable_buses_never_arrive_earlier() {
    let routes = three_bus_routes();
    let passenger = Passenger::new(loc(3), loc(2), 0, 0);
    let fewer = calculate_passenger_schedule_for_bus_check_available_buses(&passenger, 4, &routes, vec![]).unwrap();
    let more = calculate_passenger_schedule_for_bus_check_available_buses(&passenger, 4, &routes, vec![0]).unwrap();
    assert_eq!(fewer.last().unwrap().time_tick, 8);
    assert_eq!(more.last().unwrap().time_tick, 12);
    assert!(fewer.last().unwrap().time_tick <= more.last().unwrap().time_tick);
}

#[test]
fn plan_arrives_no_later_than_a_trip_with_a_transfer() {
    // A trip with a transfer: bus 1 from L0 at 4 to L3 at 8, then bus 2 from L3 at 8 to L2 at 12.
    let routes = three_bus_routes();
    let passenger = Passenger::new(loc(0), loc(2), 0, 0);
    let plan = calculate_passenger_schedule_for_bus(&passenger, 0, &routes).unwrap();
    assert!(plan.last().unwrap().time_tick <= 12);
    assert_eq!(plan.last().unwrap().stop_location, loc(2));
}

#[test]
fn a_trip_that_waits_at_a_transfer_is_found() {
    // Bus 0: L0 at 1, L1 at 2. Bus 1: L1 at 5, L2 at 6. The passenger waits at L1 from 2 to 5.
    let routes = vec![
        vec![stop(loc(0), 1), stop(loc(1), 2)],
        vec![stop(loc(1), 5), stop(loc(2), 6)],
    ];
    let passenger = Passenger::new(loc(0), loc(2), 0, 0);
    let plan = calculate_passenger_schedule_for_bus(&passenger, 0, &routes).unwrap();
    assert_eq!(
        plan,
        vec![entry(1, Some(0), loc(0)), entry(2, Some(1), loc(1)), entry(6, None, loc(2))]
    );
}

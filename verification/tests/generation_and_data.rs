use bus_system::passenger::PassengerOnboardingBusSchedule;
use bus_system::data::{
    input_data_is_valid, locations_are_all_valid, InputDataStructure, SerializedIndexedPassenger,
    SerializedPassenger,
};
use bus_system::location::{BusLocation, Location};
use bus_system::passenger::Passenger;
use bus_system::{
    generate_bus_route_locations_with_distances, generate_random_passenger_list, initialize_channel_list,
    initialize_location_list,
};

fn version_bits_hold(id: u128) -> bool {
    id & 0xF000C000000000000000u128 == 0x40008000000000000000u128
}

#[test]
fn locations_are_numbered_with_random_ids() {
    let locations = initialize_location_list(4);
    assert_eq!(locations.len(), 4);
    for (i, l) in locations.iter().enumerate() {
        assert_eq!(l.index, i);
        assert!(version_bits_hold(l.id));
    }
    assert_ne!(locations[0].id, locations[1].id);
}

#[test]
fn random_passengers_travel_between_different_locations() {
    let locations = initialize_location_list(3);
    let passengers = generate_random_passenger_list(20, &locations).unwrap();
    assert_eq!(passengers.len(), 20);
    for (i, p) in passengers.iter().enumerate() {
        assert_eq!(p.index, i);
        assert_ne!(p.current_location, Some(p.destination_location));
        assert!(locations.contains(&p.destination_location));
        assert!(version_bits_hold(p.id));
    }
}

#[test]
fn too_few_locations_is_an_error() {
    let locations = initialize_location_list(1);
    let err = generate_random_passenger_list(2, &locations).err();
    assert_eq!(err, Some("List must contain at least 2 elements.".to_string()));
    assert_eq!(generate_random_passenger_list(0, &locations).map(|v| v.len()), Ok(0));
    let route_err = generate_bus_route_locations_with_distances(&locations, 3, 2).err();
    assert_eq!(route_err, Some("List must contain at least 2 elements.".to_string()));
}

#[test]
fn random_routes_never_repeat_a_stop_in_a_row() {
    let locations = initialize_location_list(2);
    let route = generate_bus_route_locations_with_distances(&locations, 10, 3).unwrap();
    assert_eq!(route.len(), 10);
    for w in route.windows(2) {
        assert_ne!(w[0].location, w[1].location);
    }
    for b in &route {
        assert!((1..=3).contains(&b.distance_to_location));
    }
    let single = generate_bus_route_locations_with_distances(&locations, 0, 3).unwrap();
    assert_eq!(single.len(), 1);
}

#[test]
fn channels_are_numbered() {
    let (senders, receivers) = initialize_channel_list::<u32>(3);
    assert_eq!(senders.len(), 3);
    let indices: Vec<usize> = receivers.iter().map(|r| r.index).collect();
    assert_eq!(indices, vec![0, 1, 2]);
    senders[2].send(7).unwrap();
    assert_eq!(receivers[2].receiver.recv().unwrap(), 7);
}

fn valid_input() -> InputDataStructure {
    let locations: Vec<Location> = (0..5).map(|i| Location { index: i, id: i as u128 }).collect();
    let route = vec![
        BusLocation { location: locations[0], distance_to_location: 2 },
        BusLocation { location: locations[1], distance_to_location: 2 },
    ];
    let passengers = (0..10)
        .map(|i| SerializedPassenger {
            id: i,
            destination_location: locations[1],
            current_location: Some(locations[0]),
            beginning_time_step: 0,
        })
        .collect();
    InputDataStructure { bus_routes: vec![route.clone(), route.clone(), route], passengers, location_vector: locations }
}

#[test]
fn input_checks() {
    let mut data = valid_input();
    assert!(input_data_is_valid(&data));
    data.passengers[3].current_location = None;
    assert!(!input_data_is_valid(&data));
    let mut data = valid_input();
    data.bus_routes[1][0].location = Location { index: 9, id: 9 };
    assert!(!input_data_is_valid(&data));
    let mut data = valid_input();
    data.bus_routes.pop();
    assert!(!input_data_is_valid(&data));
    let listed = vec![Location { index: 0, id: 0 }];
    assert!(locations_are_all_valid(&vec![], &listed));
    assert!(!locations_are_all_valid(&vec![Location { index: 0, id: 1 }], &listed));
}

#[test]
fn stored_passengers_round_trip() {
    let stored = SerializedPassenger {
        id: 77,
        destination_location: Location { index: 1, id: 1 },
        current_location: Some(Location { index: 0, id: 0 }),
        beginning_time_step: 4,
    };
    let p = Passenger::from_serialized(SerializedIndexedPassenger { passenger: stored, master_index: 6 });
    assert_eq!(p.index, 6);
    assert_eq!(p.passed_stops, 0);
    assert!(p.bus_schedule.is_empty());
    assert_eq!(SerializedPassenger::from_passenger(p), stored);
}

#[test]
fn passenger_plan_is_handed_out_in_order() {
    let a = Location { index: 0, id: 0 };
    let b = Location { index: 1, id: 1 };
    let mut p = Passenger::new(a, b, 0, 0);
    assert!(p.next_stop().is_none());
    let first = PassengerOnboardingBusSchedule { time_tick: 1, bus_num: Some(0), stop_location: a };
    let last = PassengerOnboardingBusSchedule { time_tick: 3, bus_num: None, stop_location: b };
    p.set_bus_schedule(vec![first, last]);
    assert_eq!(p.peek_next_stop(), Some(first));
    assert_eq!(p.next_stop(), Some(first));
    assert_eq!(p.next_stop(), Some(last));
    assert_eq!(p.next_stop(), None);
    assert_eq!(p.schedule_cursor, 2);
    let q = p.clone();
    assert!(q.is_same_passenger(&p));
    let mut r = p.clone();
    r.passed_stops = 1;
    assert!(!r.is_same_passenger(&p));
}

use vstd::prelude::*;

verus! {

pub const DEFAULT_BUS_CAPACITY: usize = 10;
pub const GLOBAL_PASSENGER_COUNT: usize = 10;
pub const DEFAULT_GLOBAL_LOCATION_COUNT: usize = 5;
pub const DEFAULT_NUM_OF_BUSES: usize = 3;
pub const NUM_STOPS_PER_BUS: usize = 3;
pub const MAX_LOCATION_DISTANCE: u32 = 3;

} // verus!

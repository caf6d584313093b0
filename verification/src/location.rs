use vstd::prelude::*;
use vstd::string::*;
use crate::outside::{decimal_text, new_random_id, random_id_fixed_bits, usize_text};

verus! {

/// A place where buses stop: its position in the location list and an
/// identifier that tells apart locations that share an index.
#[derive(Clone, Copy, Debug, PartialEq, Eq, Structural, Hash)]
pub struct Location {
    pub index: usize,
    pub id: u128,
}

impl Default for Location {
    fn default() -> (loc: Self)
        ensures
            loc == (Location { index: 0, id: 0 }),
    {
        Location { index: 0, id: 0 }
    }
}

/// How a location is shown to people: `Location <index>`.
pub open spec fn location_text(loc: Location) -> Seq<char> {
    "Location "@ + decimal_text(loc.index as nat)
}

impl Location {
    /// A location at `index` with a fresh random identifier.
    pub fn new(index: usize) -> (loc: Location)
        ensures
            loc.index == index,
            random_id_fixed_bits(loc.id),
    {
        Location { id: new_random_id(), index }
    }

    /// The text `Location <index>`.
    pub fn to_text(&self) -> (s: String)
        ensures
            s@ == location_text(*self),
    {
        let mut s = String::from_str("Location ");
        let digits = usize_text(self.index);
        s.append(digits.as_str());
        s
    }
}

/// One stop of a bus route, with the distance the bus travels to reach it.
#[derive(Clone, Copy, Debug, PartialEq, Eq, Structural)]
pub struct BusLocation {
    pub location: Location,
    pub distance_to_location: u32,
}

/// One stop of a bus route as passengers see it: where and at which tick.
#[derive(Clone, Copy, Debug, PartialEq, Eq, Structural)]
pub struct PassengerBusLocation {
    pub location: Location,
    pub location_time_tick: u32,
}

} // verus!

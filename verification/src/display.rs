//! The events a station reports for display, and their wording.
use vstd::prelude::*;
use vstd::string::*;
use crate::TimeTick;
use crate::location::{location_text, Location};
use crate::outside::{decimal_text, usize_text};

verus! {

/// An event reported by a station during a tick.
pub struct TerminalMessage {
    pub content: TerminalType,
    pub time_tick: TimeTick,
    pub station_index: usize,
}

/// What happened to a passenger, or that a station had nobody to handle.
pub enum TerminalType {
    InitiatedPassenger(InitiatedPassengerInfo),
    WaitingPassenger(WaitingPassengerInfo),
    ArrivedPassenger(ArrivedPassengerInfo),
    BoardedPassenger(BoardedPassengerInfo),
    RejectedPassenger(RejectedPassengerInfo),
    StrandedPassenger(StrandedPassengerInfo),
    NoPassengerFromStation { passenger_index: usize },
}

pub struct ArrivedPassengerInfo {
    pub passenger_index: usize,
    pub station_location: Location,
    pub final_location: bool,
}

pub struct BoardedPassengerInfo {
    pub passenger_index: usize,
    pub bus_number: usize,
}

pub struct RejectedPassengerInfo {
    pub passenger_index: usize,
    pub bus_number: usize,
}

pub struct StrandedPassengerInfo {
    pub passenger_index: usize,
    pub current_station_index: usize,
    pub destination_location_index: usize,
}

pub struct WaitingPassengerInfo {
    pub passenger_index: usize,
    pub location_index: usize,
}

pub struct InitiatedPassengerInfo {
    pub passenger_index: usize,
    pub location_index: usize,
}

/// Appends the decimal digits of `n` to `s`.
fn append_number(s: &mut String, n: usize)
    ensures
        final(s)@ == old(s)@ + decimal_text(n as nat),
{
    let digits = usize_text(n);
    s.append(digits.as_str());
}

impl ArrivedPassengerInfo {
    /// A passenger who reached a station on the way to the destination.
    pub fn new_layover(passenger_index: usize, station_location: Location) -> (info: ArrivedPassengerInfo)
        ensures
            info.passenger_index == passenger_index,
            info.station_location == station_location,
            !info.final_location,
    {
        ArrivedPassengerInfo { passenger_index, station_location, final_location: false }
    }

    /// A passenger who reached the destination.
    pub fn new_final(passenger_index: usize, station_location: Location) -> (info: ArrivedPassengerInfo)
        ensures
            info.passenger_index == passenger_index,
            info.station_location == station_location,
            info.final_location,
    {
        ArrivedPassengerInfo { passenger_index, station_location, final_location: true }
    }

    pub open spec fn text(&self) -> Seq<char> {
        "Passenger "@ + decimal_text(self.passenger_index as nat) + if self.final_location {
            " arrived at destination location: Location "@
        } else {
            " arrived at intermediate location: Location "@
        } + location_text(self.station_location)
    }

    /// `Passenger <i> arrived at destination location: Location Location <l>`
    /// (the location's own text follows the word `Location`), or
    /// `... arrived at intermediate location: ...` for a stop on the way.
    pub fn to_text(&self) -> (s: String)
        ensures
            s@ == self.text(),
    {
        let mut s = String::from_str("Passenger ");
        append_number(&mut s, self.passenger_index);
        if self.final_location {
            s.append(" arrived at destination location: Location ");
        } else {
            s.append(" arrived at intermediate location: Location ");
        }
        let loc = self.station_location.to_text();
        s.append(loc.as_str());
        s
    }
}

impl BoardedPassengerInfo {
    pub fn new(passenger_index: usize, bus_number: usize) -> (info: BoardedPassengerInfo)
        ensures
            info.passenger_index == passenger_index,
            info.bus_number == bus_number,
    {
        BoardedPassengerInfo { passenger_index, bus_number }
    }

    pub open spec fn text(&self) -> Seq<char> {
        "Passenger "@ + decimal_text(self.passenger_index as nat) + " boarded bus "@ + decimal_text(
            self.bus_number as nat,
        )
    }

    /// `Passenger <i> boarded bus <b>`.
    pub fn to_text(&self) -> (s: String)
        ensures
            s@ == self.text(),
    {
        let mut s = String::from_str("Passenger ");
        append_number(&mut s, self.passenger_index);
        s.append(" boarded bus ");
        append_number(&mut s, self.bus_number);
        s
    }
}

impl RejectedPassengerInfo {
    pub fn new(passenger_index: usize, bus_number: usize) -> (info: RejectedPassengerInfo)
        ensures
            info.passenger_index == passenger_index,
            info.bus_number == bus_number,
    {
        RejectedPassengerInfo { passenger_index, bus_number }
    }

    pub open spec fn text(&self) -> Seq<char> {
        "Passenger "@ + decimal_text(self.passenger_index as nat) + " rejected from Bus "@
            + decimal_text(self.bus_number as nat) + " because it was already at capacity"@
    }

    /// `Passenger <i> rejected from Bus <b> because it was already at capacity`.
    pub fn to_text(&self) -> (s: String)
        ensures
            s@ == self.text(),
    {
        let mut s = String::from_str("Passenger ");
        append_number(&mut s, self.passenger_index);
        s.append(" rejected from Bus ");
        append_number(&mut s, self.bus_number);
        s.append(" because it was already at capacity");
        s
    }
}

impl StrandedPassengerInfo {
    pub fn new(index: usize, current_station_index: usize, destination_location_index: usize) -> (info:
        StrandedPassengerInfo)
        ensures
            info.passenger_index == index,
            info.current_station_index == current_station_index,
            info.destination_location_index == destination_location_index,
    {
        StrandedPassengerInfo { passenger_index: index, current_station_index, destination_location_index }
    }

    pub open spec fn text(&self) -> Seq<char> {
        "Passenger "@ + decimal_text(self.passenger_index as nat) + " stuck at station "@
            + decimal_text(self.current_station_index as nat)
            + ". Failed to find valid route to destination "@ + decimal_text(
            self.destination_location_index as nat,
        )
    }

    /// `Passenger <i> stuck at station <s>. Failed to find valid route to destination <d>`.
    pub fn to_text(&self) -> (s: String)
        ensures
            s@ == self.text(),
    {
        let mut s = String::from_str("Passenger ");
        append_number(&mut s, self.passenger_index);
        s.append(" stuck at station ");
        append_number(&mut s, self.current_station_index);
        s.append(". Failed to find valid route to destination ");
        append_number(&mut s, self.destination_location_index);
        s
    }
}

impl WaitingPassengerInfo {
    pub fn new(passenger_index: usize, location_index: usize) -> (info: WaitingPassengerInfo)
        ensures
            info.passenger_index == passenger_index,
            info.location_index == location_index,
    {
        WaitingPassengerInfo { passenger_index, location_index }
    }

    pub open spec fn text(&self) -> Seq<char> {
        "Passenger "@ + decimal_text(self.passenger_index as nat) + " waiting in station "@
            + decimal_text(self.location_index as nat)
    }

    /// `Passenger <i> waiting in station <s>`.
    pub fn to_text(&self) -> (s: String)
        ensures
            s@ == self.text(),
    {
        let mut s = String::from_str("Passenger ");
        append_number(&mut s, self.passenger_index);
        s.append(" waiting in station ");
        append_number(&mut s, self.location_index);
        s
    }
}

impl InitiatedPassengerInfo {
    pub fn new(index: usize, location_index: usize) -> (info: InitiatedPassengerInfo)
        ensures
            info.passenger_index == index,
            info.location_index == location_index,
    {
        InitiatedPassengerInfo { passenger_index: index, location_index }
    }

    pub open spec fn text(&self) -> Seq<char> {
        "Passenger "@ + decimal_text(self.passenger_index as nat) + " initiated in station "@
            + decimal_text(self.location_index as nat)
    }

    /// `Passenger <i> initiated in station <s>`.
    pub fn to_text(&self) -> (s: String)
        ensures
            s@ == self.text(),
    {
        let mut s = String::from_str("Passenger ");
        append_number(&mut s, self.passenger_index);
        s.append(" initiated in station ");
        append_number(&mut s, self.location_index);
        s
    }
}

impl TerminalType {
    pub open spec fn text(&self) -> Seq<char> {
        match self {
            TerminalType::InitiatedPassenger(info) => info.text(),
            TerminalType::WaitingPassenger(info) => info.text(),
            TerminalType::ArrivedPassenger(info) => info.text(),
            TerminalType::BoardedPassenger(info) => info.text(),
            TerminalType::RejectedPassenger(info) => info.text(),
            TerminalType::StrandedPassenger(info) => info.text(),
            TerminalType::NoPassengerFromStation { passenger_index } => "Station "@ + decimal_text(
                *passenger_index as nat,
            ) + " processes no passengers in the current time tick"@,
        }
    }

    /// The wording of the event.
    pub fn to_text(&self) -> (s: String)
        ensures
            s@ == self.text(),
    {
        match self {
            TerminalType::InitiatedPassenger(info) => info.to_text(),
            TerminalType::WaitingPassenger(info) => info.to_text(),
            TerminalType::ArrivedPassenger(info) => info.to_text(),
            TerminalType::BoardedPassenger(info) => info.to_text(),
            TerminalType::RejectedPassenger(info) => info.to_text(),
            TerminalType::StrandedPassenger(info) => info.to_text(),
            TerminalType::NoPassengerFromStation { passenger_index } => {
                let mut s = String::from_str("Station ");
                append_number(&mut s, *passenger_index);
                s.append(" processes no passengers in the current time tick");
                s
            },
        }
    }
}

#[derive(Debug, Copy, Clone, PartialEq, Eq, Structural)]
pub enum PassengerState {
    Unprocessed,
    Boarded,
    Processed,
    Finished,
}

#[derive(Debug, Copy, Clone, PartialEq, Eq, Structural)]
pub enum StationState {
    Unprocessed,
    NoPassengers,
    Processed,
}

} // verus!

//! The messages the simulation's participants exchange, and their states.
use vstd::prelude::*;
use vstd::string::*;
use crate::TimeTick;
use crate::bus::SendableBus;
use crate::display::TerminalMessage;
use crate::outside::{decimal_text, usize_text};
use crate::passenger::Passenger;

verus! {

/// Messages to a station.
#[derive(Debug)]
pub enum StationEventMessages {
    InitPassengerList(Vec<Passenger>),
    BusArrived { passengers_offboarding: Vec<Passenger>, bus_info: SendableBus },
    BusDeparted { bus_index: usize },
    NoMessage,
}

impl Default for StationEventMessages {
    fn default() -> (m: Self)
        ensures
            m is NoMessage,
    {
        StationEventMessages::NoMessage
    }
}

/// Messages from the stations to the passenger side.
#[derive(Debug, PartialEq, Eq, Structural)]
#[non_exhaustive]
pub enum StationToPassengersMessages {
    ConfirmInitPassengerList(usize),
}

/// Messages from a station to a bus.
#[derive(Debug)]
pub enum StationToBusMessages {
    AcknowledgeArrival(),
    SendPassengers(Vec<Passenger>),
    FinishedUnloading,
    RequestDeparture,
    StationRemovedBus,
}

/// Messages from the buses (and the passenger side) to the clock keeper.
#[derive(Debug)]
pub enum BusMessages {
    InitBus { bus_index: usize },
    InitPassengers,
    BusPanicked { bus_index: usize, message: String },
    AdvanceTimeStepForMovingBus { bus_index: usize },
    AdvanceTimeStepForUnloadedBus { bus_index: usize },
    AdvanceTimeStepForLoadedBus { bus_index: usize },
    BusFinished { bus_index: usize },
}

/// Why the simulation ended.
#[derive(Debug)]
pub enum ProgramEndType {
    ProgramFinished,
    ProgramCrashed { message: String },
}

/// Messages from the clock keeper to the stations.
#[derive(Debug)]
pub enum SyncToStationAndPassengerMessages {
    AdvanceTimeStep(TimeTick),
    ProgramFinished(ProgramEndType),
}

/// Who finished advancing the clock.
#[derive(PartialEq, Eq, Structural)]
pub struct TimeTickAdvanced(pub TimeTickAdvancedObject);

#[derive(PartialEq, Eq, Structural)]
pub enum TimeTickAdvancedObject {
    Bus { index: usize },
    Station { index: usize },
}

impl TimeTickAdvanced {
    pub open spec fn text(&self) -> Seq<char> {
        match self.0 {
            TimeTickAdvancedObject::Bus { index } => "TimeTickAdvanced from bus "@ + decimal_text(
                index as nat,
            ),
            TimeTickAdvancedObject::Station { index } => "TimeTickAdvanced from station "@
                + decimal_text(index as nat),
        }
    }

    /// `TimeTickAdvanced from bus <i>` or `TimeTickAdvanced from station <i>`.
    pub fn to_text(&self) -> (s: String)
        ensures
            s@ == self.text(),
    {
        let (mut s, index) = match self.0 {
            TimeTickAdvancedObject::Bus { index } => (String::from_str("TimeTickAdvanced from bus "), index),
            TimeTickAdvancedObject::Station { index } => (
                String::from_str("TimeTickAdvanced from station "),
                index,
            ),
        };
        let digits = usize_text(index);
        s.append(digits.as_str());
        s
    }
}

#[derive(Debug, PartialEq, Eq, Structural)]
pub struct FinishTimeTickAdvance;

/// Messages from a station to the clock keeper.
#[derive(Debug)]
#[non_exhaustive]
pub enum StationToSyncMessages {
    CrashProgram { message: String },
}

/// Messages from the clock keeper to a bus.
#[derive(Debug)]
#[non_exhaustive]
pub enum SyncToBusMessages {
    AdvanceTimeStep(TimeTick),
}

/// What the clock keeper knows of a bus.
#[derive(Clone, Copy, Debug, PartialEq, Eq, Structural)]
pub enum BusThreadStatus {
    Uninitialized,
    Moving,
    BusFinishedRoute,
    FinishedUnloadingPassengers,
    FinishedLoadingPassengers,
    WaitingForTimeStep,
}

/// Messages from a station to the display.
pub enum StationToDisplayMessages {
    TerminalMessage(TerminalMessage),
    AdvanceTimeStep(TimeTick),
}

} // verus!

//! What a station does with each message, in each stage of a tick.
use vstd::prelude::*;
use crate::{TimeTick, TimeTickStage};
use crate::location::PassengerBusLocation;
use crate::passenger::{passengers_view, upcoming_stop, Passenger, PassengerView};
use crate::route_search::routes_view;
use crate::station::{
    admit_passengers, arrived_at_stop, can_load, docked_indices, loading_outcome_matches,
    station_after_loading, valid_time_step, without_bus, LoadingOutcome, Station, StationView,
};
use crate::thread::{StationEventMessages, StationToBusMessages, SyncToStationAndPassengerMessages};

verus! {

/// A station together with its own clock and the flags that pace its work.
#[derive(Debug)]
pub struct StationThreadState {
    pub station: Station,
    pub time_tick: TimeTick,
    pub passengers_initialized: bool,
    pub first_call_for_tick: bool,
}

/// What a station does after a message from a bus or from the passenger side:
/// a reply to one bus, the passengers it could not place when it placed its
/// starting passengers (then it confirms), the result of loading its docked
/// buses, and how long to pause before looking for the next message.
#[derive(Debug)]
pub struct StationAction {
    pub reply: Option<(usize, StationToBusMessages)>,
    pub rejected_passengers: Option<Vec<Passenger>>,
    pub loading: Option<LoadingOutcome>,
    pub pause_millis: u64,
}

/// The docked buses once the message was handled: a departing bus is undocked.
pub open spec fn docked_after(docked: Seq<crate::bus::SendableBus>, event: StationEventMessages) -> Seq<
    crate::bus::SendableBus,
> {
    match event {
        StationEventMessages::BusDeparted { bus_index } => without_bus(docked, bus_index),
        _ => docked,
    }
}

/// Whether the station may handle `event` in the state it is in.
pub open spec fn event_allowed(
    st: StationView,
    tick: TimeTick,
    passengers_initialized: bool,
    first_call_for_tick: bool,
    event: StationEventMessages,
    num_of_buses: usize,
) -> bool {
    &&& tick.stage == TimeTickStage::PassengerInit && !passengers_initialized ==> (
    event matches StationEventMessages::InitPassengerList(list) ==> tick.number == 0 && forall|i: int|
        0 <= i < list@.len() ==> (#[trigger] list@[i]).current_location is Some)
    &&& tick.stage == TimeTickStage::BusUnloadingPassengers ==> (
    event matches StationEventMessages::BusArrived { passengers_offboarding, bus_info } ==> (forall|i: int|
        0 <= i < passengers_offboarding@.len() ==> upcoming_stop((#[trigger] passengers_offboarding@[i])@) is Some)
        && !st.docked_buses.contains(bus_info))
    &&& tick.stage == TimeTickStage::BusLoadingPassengers ==> !(event is BusArrived)
    &&& tick.stage == TimeTickStage::BusLoadingPassengers ==> (
    event matches StationEventMessages::BusDeparted { bus_index } ==> docked_indices(st.docked_buses).contains(
        bus_index,
    ))
    &&& tick.stage == TimeTickStage::BusLoadingPassengers && first_call_for_tick ==> can_load(
        st,
        docked_after(st.docked_buses, event),
        num_of_buses,
    )
}

impl StationThreadState {
    /// A station at the start of the simulation.
    pub fn new(station: Station) -> (s: Self)
        ensures
            s.station@ == station@,
            s.time_tick == (TimeTick { number: 0, stage: TimeTickStage::PassengerInit }),
            !s.passengers_initialized,
            s.first_call_for_tick,
    {
        StationThreadState {
            station,
            time_tick: TimeTick::default(),
            passengers_initialized: false,
            first_call_for_tick: true,
        }
    }

    /// A message from the clock keeper: a new tick is taken over (it may not
    /// jump); `true` when the simulation is over.
    pub fn receive_sync_message(&mut self, message: &SyncToStationAndPassengerMessages) -> (finished: bool)
        requires
            *message matches SyncToStationAndPassengerMessages::AdvanceTimeStep(t) ==> valid_time_step(
                old(self).time_tick,
                t,
            ),
        ensures
            final(self).station@ == old(self).station@,
            final(self).passengers_initialized == old(self).passengers_initialized,
            match *message {
                SyncToStationAndPassengerMessages::AdvanceTimeStep(t) => !finished && final(self).time_tick == t
                    && final(self).first_call_for_tick,
                SyncToStationAndPassengerMessages::ProgramFinished(_) => finished && final(self).time_tick == old(
                    self,
                ).time_tick && final(self).first_call_for_tick == old(self).first_call_for_tick,
            },
    {
        match message {
            SyncToStationAndPassengerMessages::AdvanceTimeStep(new_time_step) => {
                self.time_tick = *new_time_step;
                self.first_call_for_tick = true;
                false
            },
            SyncToStationAndPassengerMessages::ProgramFinished(_) => true,
        }
    }

    /// A new tick announced right after loading: taken over, and no bus is
    /// unavailable any more.
    pub fn finish_loading_tick(&mut self, new_time_tick: TimeTick)
        ensures
            final(self).station@ == (StationView { buses_unavailable: Seq::empty(), ..old(self).station@ }),
            final(self).time_tick == new_time_tick,
            final(self).passengers_initialized == old(self).passengers_initialized,
            final(self).first_call_for_tick == old(self).first_call_for_tick,
    {
        self.time_tick = new_time_tick;
        self.station.clear_unavailable_buses();
    }

    /// Handles a message from a bus or from the passenger side according to the
    /// stage of the tick: the starting passengers are placed once, arriving
    /// buses are unloaded and docked, departing buses undocked, and once per
    /// loading stage the docked buses are loaded.
    pub fn handle_event(
        &mut self,
        event: StationEventMessages,
        bus_route_list: &Vec<Vec<PassengerBusLocation>>,
        num_of_buses: usize,
    ) -> (action: StationAction)
        requires
            event_allowed(
                old(self).station@,
                old(self).time_tick,
                old(self).passengers_initialized,
                old(self).first_call_for_tick,
                event,
                num_of_buses,
            ),
        ensures
            final(self).time_tick == old(self).time_tick,
            old(self).time_tick.stage == TimeTickStage::PassengerInit ==> {
                &&& action.reply is None && action.loading is None
                &&& final(self).first_call_for_tick == old(self).first_call_for_tick
                &&& if old(self).passengers_initialized {
                    &&& final(self).station@ == old(self).station@
                    &&& final(self).passengers_initialized
                    &&& action.rejected_passengers is None
                    &&& action.pause_millis == 10
                } else {
                    &&& action.pause_millis == 0
                    &&& match event {
                        StationEventMessages::InitPassengerList(list) => {
                            let outcome = admit_passengers(
                                old(self).station@.passengers,
                                Seq::empty(),
                                passengers_view(list@),
                                old(self).time_tick.number,
                                routes_view(bus_route_list@),
                                list.len() as int,
                            );
                            &&& final(self).station@ == (StationView {
                                passengers: outcome.0,
                                ..old(self).station@
                            })
                            &&& final(self).passengers_initialized
                            &&& action.rejected_passengers matches Some(r) && passengers_view(r@) == outcome.1
                        },
                        _ => final(self).station@ == old(self).station@ && !final(self).passengers_initialized
                            && action.rejected_passengers is None,
                    }
                }
            },
            old(self).time_tick.stage == TimeTickStage::BusUnloadingPassengers ==> {
                &&& action.rejected_passengers is None && action.loading is None && action.pause_millis == 0
                &&& final(self).passengers_initialized == old(self).passengers_initialized
                &&& final(self).first_call_for_tick == old(self).first_call_for_tick
                &&& match event {
                    StationEventMessages::BusArrived { passengers_offboarding, bus_info } => {
                        &&& final(self).station@ == (StationView {
                            passengers: old(self).station@.passengers + passengers_view(
                                passengers_offboarding@,
                            ).map_values(|p: PassengerView| arrived_at_stop(p)),
                            docked_buses: old(self).station@.docked_buses.push(bus_info),
                            ..old(self).station@
                        })
                        &&& action.reply == Some((bus_info.bus_index, StationToBusMessages::FinishedUnloading))
                    },
                    _ => final(self).station@ == old(self).station@ && action.reply is None,
                }
            },
            old(self).time_tick.stage == TimeTickStage::BusLoadingPassengers ==> {
                let undocked = StationView {
                    docked_buses: docked_after(old(self).station@.docked_buses, event),
                    ..old(self).station@
                };
                let routes = routes_view(bus_route_list@);
                &&& action.rejected_passengers is None
                &&& final(self).passengers_initialized == old(self).passengers_initialized
                &&& action.reply == match event {
                    StationEventMessages::BusDeparted { bus_index } => Some(
                        (bus_index, StationToBusMessages::StationRemovedBus),
                    ),
                    _ => None,
                }
                &&& if old(self).first_call_for_tick {
                    &&& final(self).station@ == station_after_loading(undocked, old(self).time_tick.number, routes)
                    &&& action.loading matches Some(o) && loading_outcome_matches(
                        o,
                        undocked,
                        old(self).time_tick.number,
                        routes,
                    )
                    &&& !final(self).first_call_for_tick
                    &&& action.pause_millis == 0
                } else {
                    &&& final(self).station@ == undocked
                    &&& action.loading is None
                    &&& final(self).first_call_for_tick == old(self).first_call_for_tick
                    &&& action.pause_millis == if event is NoMessage {
                        100u64
                    } else {
                        0u64
                    }
                }
            },
    {
        let mut action = StationAction { reply: None, rejected_passengers: None, loading: None, pause_millis: 0 };
        match self.time_tick.stage {
            TimeTickStage::PassengerInit => {
                if self.passengers_initialized {
                    action.pause_millis = 10;
                    return action;
                }
                if let StationEventMessages::InitPassengerList(list) = event {
                    let rejected = self.station.init_passengers(list, &self.time_tick, bus_route_list);
                    action.rejected_passengers = Some(rejected);
                    self.passengers_initialized = true;
                }
                action
            },
            TimeTickStage::BusUnloadingPassengers => {
                if let StationEventMessages::BusArrived { passengers_offboarding, bus_info } = event {
                    let reply = self.station.receive_bus(passengers_offboarding, bus_info);
                    action.reply = Some((bus_info.bus_index, reply));
                }
                action
            },
            TimeTickStage::BusLoadingPassengers => {
                let no_message = match event {
                    StationEventMessages::NoMessage => true,
                    _ => false,
                };
                if let StationEventMessages::BusDeparted { bus_index } = event {
                    let reply = self.station.remove_departed_bus(bus_index);
                    action.reply = Some((bus_index, reply));
                }
                if !self.first_call_for_tick {
                    if no_message {
                        action.pause_millis = 100;
                    }
                    return action;
                }
                self.first_call_for_tick = false;
                let outcome = self.station.load_docked_buses(&self.time_tick, num_of_buses, bus_route_list);
                action.loading = Some(outcome);
                action
            },
        }
    }
}

} // verus!

//! The decisions of the simulation's clock keeper and the bookkeeping of its
//! results; the threads that carry messages between stations, buses and the
//! clock keeper run outside this library.
use vstd::prelude::*;
use crate::{next_time_tick, TimeTick, TimeTickStage};
use crate::passenger::{passengers_view, Passenger, PassengerView};
use crate::thread::{BusMessages, BusThreadStatus};

verus! {

/// What the simulation ends with: the passengers who arrived at each location,
/// and those left without a plan.
#[derive(Debug)]
pub struct FinalPassengerLists {
    pub location_lists: Vec<Vec<Passenger>>,
    pub len: usize,
    pub remaining_passengers: Vec<Passenger>,
}

impl Default for FinalPassengerLists {
    fn default() -> (f: Self)
        ensures
            f.location_lists@.len() == 0,
            f.len == 0,
            f.remaining_passengers@.len() == 0,
    {
        FinalPassengerLists { location_lists: Vec::new(), len: 0, remaining_passengers: Vec::new() }
    }
}

impl FinalPassengerLists {
    /// Lists for `num_of_locations` locations, each with no arrivals yet, and
    /// nobody left over.
    pub fn new(num_of_locations: usize) -> (f: Self)
        ensures
            f.location_lists@.len() == num_of_locations,
            forall|i: int| 0 <= i < num_of_locations ==> (#[trigger] f.location_lists@[i])@.len() == 0,
            f.len == num_of_locations,
            f.remaining_passengers@.len() == 0,
    {
        let mut location_lists: Vec<Vec<Passenger>> = Vec::new();
        let mut i: usize = 0;
        while i < num_of_locations
            invariant
                i <= num_of_locations,
                location_lists@.len() == i,
                forall|k: int| 0 <= k < i ==> (#[trigger] location_lists@[k])@.len() == 0,
            decreases num_of_locations - i,
        {
            location_lists.push(Vec::new());
            i = i + 1;
        }
        FinalPassengerLists { location_lists, len: num_of_locations, remaining_passengers: Vec::new() }
    }

    /// Records the passengers who arrived at location `station_index`,
    /// replacing what was recorded for it before.
    pub fn record_station_arrivals(&mut self, station_index: usize, arrived: Vec<Passenger>)
        requires
            station_index < old(self).location_lists.len(),
        ensures
            final(self).location_lists@.len() == old(self).location_lists@.len(),
            passengers_view(final(self).location_lists@[station_index as int]@) == passengers_view(arrived@),
            forall|i: int|
                0 <= i < old(self).location_lists@.len() && i != station_index ==> #[trigger] final(self).location_lists@[i]
                    == old(self).location_lists@[i],
            final(self).len == old(self).len,
            final(self).remaining_passengers == old(self).remaining_passengers,
    {
        self.location_lists.set(station_index, arrived);
    }

    /// Records a passenger left without a plan.
    pub fn add_remaining_passenger(&mut self, passenger: Passenger)
        ensures
            passengers_view(final(self).remaining_passengers@) == passengers_view(old(self).remaining_passengers@).push(
                passenger@,
            ),
            final(self).location_lists == old(self).location_lists,
            final(self).len == old(self).len,
    {
        let ghost before = self.remaining_passengers@;
        self.remaining_passengers.push(passenger);
        assert(passengers_view(self.remaining_passengers@) =~= passengers_view(before).push(passenger@));
    }
}

/// The sizes of a simulation.
#[derive(Clone, Copy, Debug)]
pub struct ConfigStruct {
    pub num_of_buses: usize,
    pub num_of_passengers: usize,
    pub num_of_locations: usize,
    pub bus_capacity: u32,
}

/// The passengers among those from position `i` on whose current location has
/// index `location_index`, from the last to the first.
pub open spec fn collected_from_back(ps: Seq<PassengerView>, location_index: usize, i: int) -> Seq<PassengerView>
    decreases ps.len() - i,
{
    if i >= ps.len() || i < 0 {
        Seq::empty()
    } else if ps[i].current_location->0.index == location_index {
        collected_from_back(ps, location_index, i + 1).push(ps[i])
    } else {
        collected_from_back(ps, location_index, i + 1)
    }
}

/// How many passengers from position `i` on the lists of locations `0..num` collect together.
pub open spec fn collected_count(ps: Seq<PassengerView>, num: int, i: int) -> nat
    decreases num,
{
    if num <= 0 {
        0
    } else {
        collected_count(ps, num - 1, i) + collected_from_back(ps, (num - 1) as usize, i).len()
    }
}

/// Collecting one more passenger adds one to exactly the list of its location.
proof fn lemma_collected_count_step(ps: Seq<PassengerView>, num: int, i: int)
    requires
        0 <= i < ps.len(),
        0 <= num <= usize::MAX,
    ensures
        collected_count(ps, num, i) == collected_count(ps, num, i + 1) + if ps[i].current_location->0.index
            < num {
            1nat
        } else {
            0nat
        },
    decreases num,
{
    if num > 0 {
        lemma_collected_count_step(ps, num - 1, i);
    }
}

/// Grouping by location places every passenger in exactly one list: the lists
/// together hold as many passengers as there are.
pub proof fn lemma_grouping_keeps_everyone(ps: Seq<PassengerView>, num_of_locations: usize, i: int)
    requires
        0 <= i <= ps.len(),
        forall|k: int|
            0 <= k < ps.len() ==> (#[trigger] ps[k]).current_location->0.index < num_of_locations,
    ensures
        collected_count(ps, num_of_locations as int, i) == ps.len() - i,
    decreases ps.len() - i,
{
    if i < ps.len() {
        lemma_grouping_keeps_everyone(ps, num_of_locations, i + 1);
        lemma_collected_count_step(ps, num_of_locations as int, i);
    } else {
        lemma_collected_empty(ps, num_of_locations as int, i);
    }
}

/// Past the end nothing is collected.
proof fn lemma_collected_empty(ps: Seq<PassengerView>, num: int, i: int)
    requires
        i >= ps.len(),
    ensures
        collected_count(ps, num, i) == 0,
    decreases num,
{
    if num > 0 {
        lemma_collected_empty(ps, num - 1, i);
    }
}

/// The passengers sorted by the location they wait at: list `l` holds those
/// at location index `l`, taken from the back of `passengers`.
pub fn group_passengers_by_location(passengers: &Vec<Passenger>, num_of_locations: usize) -> (res: Vec<
    Vec<Passenger>,
>)
    requires
        forall|i: int|
            0 <= i < passengers.len() ==> (#[trigger] passengers@[i]).current_location is Some
                && passengers@[i].current_location->0.index < num_of_locations,
    ensures
        res.len() == num_of_locations,
        forall|l: int|
            0 <= l < num_of_locations ==> passengers_view((#[trigger] res@[l])@) == collected_from_back(
                passengers_view(passengers@),
                l as usize,
                0,
            ),
{
    let ghost ps = passengers_view(passengers@);
    let mut passenger_location_list: Vec<Vec<Passenger>> = Vec::new();
    let mut l: usize = 0;
    while l < num_of_locations
        invariant
            l <= num_of_locations,
            ps == passengers_view(passengers@),
            forall|k: int| 0 <= k < passengers.len() ==> (#[trigger] passengers@[k]).current_location is Some,
            passenger_location_list.len() == l,
            forall|m: int|
                0 <= m < l ==> passengers_view((#[trigger] passenger_location_list@[m])@) == collected_from_back(
                    ps,
                    m as usize,
                    0,
                ),
        decreases num_of_locations - l,
    {
        let mut here: Vec<Passenger> = Vec::new();
        let mut i: usize = passengers.len();
        while i > 0
            invariant
                i <= passengers.len(),
                ps == passengers_view(passengers@),
                forall|k: int| 0 <= k < passengers.len() ==> (#[trigger] passengers@[k]).current_location is Some,
                passengers_view(here@) == collected_from_back(ps, l, i as int),
            decreases i,
        {
            i = i - 1;
            let p = &passengers[i];
            assert(ps[i as int] == p@);
            let at_here = match p.current_location {
                Some(loc) => loc.index == l,
                None => false,
            };
            if at_here {
                let ghost before = here@;
                here.push(p.clone());
                assert(passengers_view(here@) =~= passengers_view(before).push(p@));
            }
        }
        passenger_location_list.push(here);
        l = l + 1;
    }
    passenger_location_list
}

/// What the clock keeper knows of each bus after a new tick is announced: a
/// bus that finished its route stays finished, every other one is awaited.
pub open spec fn reset_status(s: BusThreadStatus) -> BusThreadStatus {
    if s == BusThreadStatus::BusFinishedRoute {
        s
    } else {
        BusThreadStatus::WaitingForTimeStep
    }
}

/// Moves the clock on (out of the initial stage on the first run) and resets
/// what is known of the buses for the new stage.
pub fn increment_time_step(
    is_first_run: bool,
    time_tick: &mut TimeTick,
    bus_status_vector: &mut Vec<BusThreadStatus>,
)
    requires
        is_first_run ==> old(time_tick).stage == TimeTickStage::PassengerInit,
        !is_first_run && old(time_tick).stage == TimeTickStage::BusLoadingPassengers ==> old(
            time_tick,
        ).number < u32::MAX,
    ensures
        *final(time_tick) == if is_first_run {
            TimeTick { number: 1, stage: TimeTickStage::BusUnloadingPassengers }
        } else {
            next_time_tick(*old(time_tick))
        },
        final(bus_status_vector)@ == old(bus_status_vector)@.map_values(|s: BusThreadStatus| reset_status(s)),
{
    let ghost start = bus_status_vector@;
    let mut i: usize = 0;
    while i < bus_status_vector.len()
        invariant
            i <= bus_status_vector.len(),
            bus_status_vector@.len() == start.len(),
            forall|k: int| 0 <= k < i ==> bus_status_vector@[k] == reset_status(start[k]),
            forall|k: int| i <= k < start.len() ==> bus_status_vector@[k] == start[k],
        decreases bus_status_vector.len() - i,
    {
        if bus_status_vector[i] != BusThreadStatus::BusFinishedRoute {
            bus_status_vector.set(i, BusThreadStatus::WaitingForTimeStep);
        }
        i = i + 1;
    }
    assert(bus_status_vector@ =~= start.map_values(|s: BusThreadStatus| reset_status(s)));
    if is_first_run {
        time_tick.increment_from_initialized();
    } else {
        time_tick.increment_time_tick();
    }
}

/// How many statuses among the first `n` equal `status`.
pub open spec fn count_status(statuses: Seq<BusThreadStatus>, status: BusThreadStatus, n: int) -> nat
    decreases n,
{
    if n <= 0 {
        0
    } else {
        count_status(statuses, status, n - 1) + if statuses[n - 1] == status {
            1nat
        } else {
            0nat
        }
    }
}

/// How many of the statuses equal `status`.
pub fn count_bus_status(statuses: &Vec<BusThreadStatus>, status: BusThreadStatus) -> (res: usize)
    ensures
        res == count_status(statuses@, status, statuses.len() as int),
{
    let mut count: usize = 0;
    let mut i: usize = 0;
    while i < statuses.len()
        invariant
            i <= statuses.len(),
            count == count_status(statuses@, status, i as int),
            count <= i,
        decreases statuses.len() - i,
    {
        if statuses[i] == status {
            count = count + 1;
        }
        i = i + 1;
    }
    count
}

/// Whether a bus is done with the unloading stage.
pub open spec fn done_unloading(s: BusThreadStatus) -> bool {
    s == BusThreadStatus::BusFinishedRoute || s == BusThreadStatus::FinishedUnloadingPassengers || s
        == BusThreadStatus::Moving
}

/// Whether a bus is done with the loading stage.
pub open spec fn done_loading(s: BusThreadStatus) -> bool {
    s == BusThreadStatus::BusFinishedRoute || s == BusThreadStatus::FinishedLoadingPassengers || s
        == BusThreadStatus::Moving
}

/// Whether every bus is done with the unloading stage.
fn all_done_unloading(statuses: &Vec<BusThreadStatus>) -> (res: bool)
    ensures
        res == all_unloaded(statuses@),
{
    let mut i: usize = 0;
    while i < statuses.len()
        invariant
            i <= statuses.len(),
            forall|k: int| 0 <= k < i ==> done_unloading(#[trigger] statuses@[k]),
        decreases statuses.len() - i,
    {
        let s = statuses[i];
        if !(s == BusThreadStatus::BusFinishedRoute || s == BusThreadStatus::FinishedUnloadingPassengers || s
            == BusThreadStatus::Moving) {
            return false;
        }
        i = i + 1;
    }
    true
}

/// Whether every bus is done with the loading stage.
fn all_done_loading(statuses: &Vec<BusThreadStatus>) -> (res: bool)
    ensures
        res == all_loaded(statuses@),
{
    let mut i: usize = 0;
    while i < statuses.len()
        invariant
            i <= statuses.len(),
            forall|k: int| 0 <= k < i ==> done_loading(#[trigger] statuses@[k]),
        decreases statuses.len() - i,
    {
        let s = statuses[i];
        if !(s == BusThreadStatus::BusFinishedRoute || s == BusThreadStatus::FinishedLoadingPassengers || s
            == BusThreadStatus::Moving) {
            return false;
        }
        i = i + 1;
    }
    true
}

/// Every bus is done with the unloading stage.
pub open spec fn all_unloaded(statuses: Seq<BusThreadStatus>) -> bool {
    forall|k: int| 0 <= k < statuses.len() ==> done_unloading(#[trigger] statuses[k])
}

/// Every bus is done with the loading stage.
pub open spec fn all_loaded(statuses: Seq<BusThreadStatus>) -> bool {
    forall|k: int| 0 <= k < statuses.len() ==> done_loading(#[trigger] statuses[k])
}

/// Every bus is done with the stage the clock is in.
pub open spec fn stage_complete(tick: TimeTick, statuses: Seq<BusThreadStatus>) -> bool {
    ||| tick.stage == TimeTickStage::BusUnloadingPassengers && all_unloaded(statuses)
    ||| tick.stage == TimeTickStage::BusLoadingPassengers && all_loaded(statuses)
}

/// A stage of buses is over exactly when every bus has reported the end of
/// that stage, is on the road (a moving bus does not take part), or has
/// finished its route; the initial stage never ends this way.
pub proof fn lemma_stage_complete_statuses(tick: TimeTick, statuses: Seq<BusThreadStatus>)
    ensures
        tick.stage == TimeTickStage::BusLoadingPassengers ==> (stage_complete(tick, statuses) <==> forall|k: int|
            0 <= k < statuses.len() ==> #[trigger] statuses[k] == BusThreadStatus::BusFinishedRoute || statuses[k]
                == BusThreadStatus::FinishedLoadingPassengers || statuses[k] == BusThreadStatus::Moving),
        tick.stage == TimeTickStage::BusUnloadingPassengers ==> (stage_complete(tick, statuses) <==> forall|k: int|
            0 <= k < statuses.len() ==> #[trigger] statuses[k] == BusThreadStatus::BusFinishedRoute || statuses[k]
                == BusThreadStatus::FinishedUnloadingPassengers || statuses[k] == BusThreadStatus::Moving),
        tick.stage == TimeTickStage::PassengerInit ==> !stage_complete(tick, statuses),
{
}

/// What the clock keeper tracks.
#[derive(Debug)]
pub struct SyncState {
    pub bus_status_vector: Vec<BusThreadStatus>,
    pub processed_bus_received_count: usize,
    pub rejected_passengers_list: Vec<Passenger>,
    pub current_time_tick: TimeTick,
    pub passengers_initialized: bool,
}

/// What the clock keeper does after handling a message: whether all buses have
/// just been seen ready in the initial stage, which ticks to announce to every
/// station and bus (in order), and whether the simulation is over.
#[derive(Debug)]
pub struct SyncStep {
    pub all_buses_initialized: bool,
    pub announced_ticks: Vec<TimeTick>,
    pub program_finished: bool,
}

/// The statuses a bus message leaves behind.
pub open spec fn status_after(statuses: Seq<BusThreadStatus>, msg: BusMessages) -> Seq<BusThreadStatus> {
    match msg {
        BusMessages::AdvanceTimeStepForUnloadedBus { bus_index } => statuses.update(
            bus_index as int,
            BusThreadStatus::FinishedUnloadingPassengers,
        ),
        BusMessages::AdvanceTimeStepForLoadedBus { bus_index } => statuses.update(
            bus_index as int,
            BusThreadStatus::FinishedLoadingPassengers,
        ),
        BusMessages::AdvanceTimeStepForMovingBus { bus_index } => statuses.update(
            bus_index as int,
            BusThreadStatus::Moving,
        ),
        BusMessages::BusFinished { bus_index } => statuses.update(
            bus_index as int,
            BusThreadStatus::BusFinishedRoute,
        ),
        BusMessages::InitBus { bus_index } => statuses.update(
            bus_index as int,
            BusThreadStatus::WaitingForTimeStep,
        ),
        _ => statuses,
    }
}

/// The bus a message speaks of, if any.
pub open spec fn message_bus(msg: BusMessages) -> Option<usize> {
    match msg {
        BusMessages::AdvanceTimeStepForUnloadedBus { bus_index } => Some(bus_index),
        BusMessages::AdvanceTimeStepForLoadedBus { bus_index } => Some(bus_index),
        BusMessages::AdvanceTimeStepForMovingBus { bus_index } => Some(bus_index),
        BusMessages::BusFinished { bus_index } => Some(bus_index),
        BusMessages::InitBus { bus_index } => Some(bus_index),
        _ => None,
    }
}

impl SyncState {
    /// The clock keeper at the start: every bus not yet ready, tick 0 in the initial stage.
    pub fn new(num_of_buses: usize) -> (s: Self)
        ensures
            s.bus_status_vector@ == Seq::new(num_of_buses as nat, |i: int| BusThreadStatus::Uninitialized),
            s.processed_bus_received_count == 0,
            s.rejected_passengers_list@.len() == 0,
            s.current_time_tick == (TimeTick { number: 0, stage: TimeTickStage::PassengerInit }),
            !s.passengers_initialized,
    {
        let mut bus_status_vector: Vec<BusThreadStatus> = Vec::new();
        let mut i: usize = 0;
        while i < num_of_buses
            invariant
                i <= num_of_buses,
                bus_status_vector@ == Seq::new(i as nat, |k: int| BusThreadStatus::Uninitialized),
            decreases num_of_buses - i,
        {
            bus_status_vector.push(BusThreadStatus::Uninitialized);
            assert(bus_status_vector@ =~= Seq::new((i + 1) as nat, |k: int| BusThreadStatus::Uninitialized));
            i = i + 1;
        }
        SyncState {
            bus_status_vector,
            processed_bus_received_count: 0,
            rejected_passengers_list: Vec::new(),
            current_time_tick: TimeTick { number: 0, stage: TimeTickStage::PassengerInit },
            passengers_initialized: false,
        }
    }

    /// At the top of each round: when as many buses reported as are still
    /// running, the count starts over and the rejected passengers collected so
    /// far are released (`None` inside when there are none).
    pub fn release_rejected_passengers(&mut self) -> (res: Option<Option<Vec<Passenger>>>)
        ensures
            ({
                let running = old(self).bus_status_vector.len() - count_status(
                    old(self).bus_status_vector@,
                    BusThreadStatus::BusFinishedRoute,
                    old(self).bus_status_vector.len() as int,
                );
                if old(self).processed_bus_received_count == running {
                    &&& final(self).processed_bus_received_count == 0
                    &&& final(self).rejected_passengers_list@.len() == 0
                    &&& if old(self).rejected_passengers_list@.len() == 0 {
                        res == Some(None::<Vec<Passenger>>)
                    } else {
                        res matches Some(Some(list)) && passengers_view(list@) == passengers_view(
                            old(self).rejected_passengers_list@,
                        )
                    }
                } else {
                    res is None && final(self).processed_bus_received_count
                        == old(self).processed_bus_received_count
                        && final(self).rejected_passengers_list == old(self).rejected_passengers_list
                }
            }),
            final(self).bus_status_vector == old(self).bus_status_vector,
            final(self).current_time_tick == old(self).current_time_tick,
            final(self).passengers_initialized == old(self).passengers_initialized,
    {
        let finished = count_bus_status(&self.bus_status_vector, BusThreadStatus::BusFinishedRoute);
        proof {
            lemma_count_status_bound(self.bus_status_vector@, BusThreadStatus::BusFinishedRoute, self.bus_status_vector.len() as int);
        }
        let running = self.bus_status_vector.len() - finished;
        if self.processed_bus_received_count == running {
            self.processed_bus_received_count = 0;
            if self.rejected_passengers_list.len() == 0 {
                Some(None)
            } else {
                let mut list: Vec<Passenger> = Vec::new();
                std::mem::swap(&mut list, &mut self.rejected_passengers_list);
                Some(Some(list))
            }
        } else {
            None
        }
    }

    /// Takes in a message from a bus (or the passenger side): the bus's status
    /// is updated, the passenger side's readiness noted during tick 0, and a
    /// crashed bus's message handed back for the stations.
    pub fn record_bus_message(&mut self, message: &BusMessages) -> (crash: Option<String>)
        requires
            message_bus(*message) matches Some(b) ==> b < old(self).bus_status_vector.len(),
        ensures
            final(self).bus_status_vector@ == status_after(old(self).bus_status_vector@, *message),
            final(self).passengers_initialized == (old(self).passengers_initialized || (message is InitPassengers
                && old(self).current_time_tick.number == 0)),
            final(self).current_time_tick == old(self).current_time_tick,
            final(self).processed_bus_received_count == old(self).processed_bus_received_count,
            final(self).rejected_passengers_list == old(self).rejected_passengers_list,
            match *message {
                BusMessages::BusPanicked { bus_index: _, message: m } => crash matches Some(c) && c@ == m@,
                _ => crash is None,
            },
    {
        match message {
            BusMessages::BusPanicked { bus_index: _, message } => {
                return Some(message.clone());
            },
            BusMessages::AdvanceTimeStepForUnloadedBus { bus_index } => {
                self.bus_status_vector.set(*bus_index, BusThreadStatus::FinishedUnloadingPassengers);
            },
            BusMessages::AdvanceTimeStepForLoadedBus { bus_index } => {
                self.bus_status_vector.set(*bus_index, BusThreadStatus::FinishedLoadingPassengers);
            },
            BusMessages::AdvanceTimeStepForMovingBus { bus_index } => {
                self.bus_status_vector.set(*bus_index, BusThreadStatus::Moving);
            },
            BusMessages::BusFinished { bus_index } => {
                self.bus_status_vector.set(*bus_index, BusThreadStatus::BusFinishedRoute);
            },
            BusMessages::InitBus { bus_index } => {
                self.bus_status_vector.set(*bus_index, BusThreadStatus::WaitingForTimeStep);
            },
            BusMessages::InitPassengers => {
                if self.current_time_tick.number == 0 {
                    self.passengers_initialized = true;
                }
            },
        }
        None
    }

    /// After each message: leaves the initial stage once every bus is ready
    /// and the passengers are placed; ends the simulation once every bus
    /// finished its route; otherwise moves the clock on once every bus is done
    /// with the current stage.
    pub fn advance(&mut self, num_of_buses: usize) -> (step: SyncStep)
        requires
            old(self).current_time_tick.stage == TimeTickStage::BusLoadingPassengers && count_status(
                old(self).bus_status_vector@,
                BusThreadStatus::BusFinishedRoute,
                old(self).bus_status_vector@.len() as int,
            ) < num_of_buses && all_loaded(old(self).bus_status_vector@) ==> old(self).current_time_tick.number
                < u32::MAX,
        ensures
            ({
                let statuses = old(self).bus_status_vector@;
                let tick = old(self).current_time_tick;
                let init_ready = tick.stage == TimeTickStage::PassengerInit && count_status(
                    statuses,
                    BusThreadStatus::Uninitialized,
                    statuses.len() as int,
                ) == 0;
                let first_move = init_ready && old(self).passengers_initialized;
                let statuses1 = if first_move {
                    statuses.map_values(|s: BusThreadStatus| reset_status(s))
                } else {
                    statuses
                };
                let tick1 = if first_move {
                    TimeTick { number: 1, stage: TimeTickStage::BusUnloadingPassengers }
                } else {
                    tick
                };
                let finished = count_status(statuses1, BusThreadStatus::BusFinishedRoute, statuses1.len() as int)
                    >= num_of_buses;
                let stage_done = !finished && stage_complete(tick1, statuses1);
                &&& step.all_buses_initialized == init_ready
                &&& step.program_finished == finished
                &&& step.announced_ticks@ == if first_move && stage_done {
                    seq![tick1, next_time_tick(tick1)]
                } else if first_move {
                    seq![tick1]
                } else if stage_done {
                    seq![next_time_tick(tick1)]
                } else {
                    Seq::empty()
                }
                &&& final(self).current_time_tick == if stage_done {
                    next_time_tick(tick1)
                } else {
                    tick1
                }
                &&& final(self).bus_status_vector@ == if stage_done {
                    statuses1.map_values(|s: BusThreadStatus| reset_status(s))
                } else {
                    statuses1
                }
                &&& final(self).passengers_initialized == old(self).passengers_initialized
                &&& final(self).processed_bus_received_count == old(self).processed_bus_received_count
                &&& final(self).rejected_passengers_list == old(self).rejected_passengers_list
            }),
            ({
                let statuses = old(self).bus_status_vector@;
                let tick = old(self).current_time_tick;
                let running = count_status(statuses, BusThreadStatus::BusFinishedRoute, statuses.len() as int)
                    < num_of_buses;
                let all_past_loading = forall|k: int|
                    0 <= k < statuses.len() ==> #[trigger] statuses[k] == BusThreadStatus::BusFinishedRoute
                        || statuses[k] == BusThreadStatus::FinishedLoadingPassengers || statuses[k]
                        == BusThreadStatus::Moving;
                let all_past_unloading = forall|k: int|
                    0 <= k < statuses.len() ==> #[trigger] statuses[k] == BusThreadStatus::BusFinishedRoute
                        || statuses[k] == BusThreadStatus::FinishedUnloadingPassengers || statuses[k]
                        == BusThreadStatus::Moving;
                let moves_on = running && (tick.stage == TimeTickStage::BusLoadingPassengers && all_past_loading
                    || tick.stage == TimeTickStage::BusUnloadingPassengers && all_past_unloading);
                &&& tick.stage != TimeTickStage::PassengerInit && moves_on ==> step.announced_ticks@ == seq![
                    next_time_tick(tick),
                ] && final(self).current_time_tick == next_time_tick(tick)
                &&& tick.stage != TimeTickStage::PassengerInit && !moves_on ==> step.announced_ticks@.len() == 0
                    && final(self).current_time_tick == tick
            }),
    {
        proof {
            lemma_stage_complete_statuses(old(self).current_time_tick, old(self).bus_status_vector@);
        }
        let mut announced_ticks: Vec<TimeTick> = Vec::new();
        let uninitialized = count_bus_status(&self.bus_status_vector, BusThreadStatus::Uninitialized);
        let init_ready = self.current_time_tick.stage == TimeTickStage::PassengerInit && uninitialized == 0;
        if init_ready && self.passengers_initialized {
            increment_time_step(true, &mut self.current_time_tick, &mut self.bus_status_vector);
            announced_ticks.push(self.current_time_tick);
        }
        let finished_buses = count_bus_status(&self.bus_status_vector, BusThreadStatus::BusFinishedRoute);
        if finished_buses >= num_of_buses {
            return SyncStep { all_buses_initialized: init_ready, announced_ticks, program_finished: true };
        }
        if self.current_time_tick.stage == TimeTickStage::BusUnloadingPassengers && all_done_unloading(
            &self.bus_status_vector,
        ) {
            increment_time_step(false, &mut self.current_time_tick, &mut self.bus_status_vector);
            announced_ticks.push(self.current_time_tick);
        } else if self.current_time_tick.stage == TimeTickStage::BusLoadingPassengers && all_done_loading(
            &self.bus_status_vector,
        ) {
            increment_time_step(false, &mut self.current_time_tick, &mut self.bus_status_vector);
            announced_ticks.push(self.current_time_tick);
        }
        SyncStep { all_buses_initialized: init_ready, announced_ticks, program_finished: false }
    }
}

/// A count of matching statuses never exceeds the number looked at.
pub proof fn lemma_count_status_bound(statuses: Seq<BusThreadStatus>, status: BusThreadStatus, n: int)
    requires
        0 <= n,
    ensures
        count_status(statuses, status, n) <= n,
    decreases n,
{
    if n > 0 {
        lemma_count_status_bound(statuses, status, n - 1);
    }
}

/// What a bus does with a tick announced after `previous`: skips it when it is
/// the same tick or the initial stage, else takes it over. A tick may not go
/// back nor jump by more than one.
pub fn accept_time_tick(previous: TimeTick, incoming: TimeTick) -> (res: Option<TimeTick>)
    requires
        previous.number <= incoming.number <= previous.number + 1,
    ensures
        res == if incoming == previous || incoming.stage == TimeTickStage::PassengerInit {
            None
        } else {
            Some(incoming)
        },
{
    if incoming == previous || incoming.stage == TimeTickStage::PassengerInit {
        None
    } else {
        Some(incoming)
    }
}

} // verus!

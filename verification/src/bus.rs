//! A bus: where it is on its route, who rides it, and how it reacts to what
//! happens at a stop.
use vstd::prelude::*;
use crate::{TimeTick, TimeTickStage};
pub use crate::location::BusLocation;
use crate::location::Location;
use crate::passenger::{passengers_view, same_passenger, Passenger, PassengerView};
use crate::thread::{BusMessages, StationEventMessages, StationToBusMessages};

verus! {

/// Whether a bus is on its way (with the distance left), at a stop, or done.
#[derive(Clone, Copy, PartialEq, Eq, Debug, Structural)]
pub enum MovementState {
    Moving(u32),
    Stopped,
    Finished,
}

impl Default for MovementState {
    fn default() -> (m: Self)
        ensures
            m == MovementState::Moving(0),
    {
        MovementState::Moving(0)
    }
}

#[derive(Clone, Copy, Debug, PartialEq, Eq, Structural)]
pub struct BusStatus {
    pub movement: MovementState,
}

/// What a station learns of a bus that arrives: its room and its number.
#[derive(Clone, Copy, Debug, PartialEq, Eq, Structural)]
pub struct SendableBus {
    pub capacity_remaining: usize,
    pub bus_index: usize,
}

/// A bus. `route_position` counts how many stops of `bus_route_vec` the bus
/// has already set out for.
#[derive(Debug)]
pub struct Bus {
    pub status: BusStatus,
    pub passengers: Vec<Passenger>,
    pub current_location: Option<Location>,
    pub route_position: usize,
    pub bus_route_vec: Vec<BusLocation>,
    pub capacity: usize,
    pub numbers_of_passengers_serviced: u32,
    pub time_tick: TimeTick,
    pub bus_index: usize,
}

/// The mathematical value of a bus.
pub struct BusView {
    pub movement: MovementState,
    pub passengers: Seq<PassengerView>,
    pub current_location: Option<Location>,
    pub route_position: usize,
    pub route: Seq<BusLocation>,
    pub capacity: usize,
    pub numbers_of_passengers_serviced: u32,
    pub time_tick: TimeTick,
    pub bus_index: usize,
}

impl View for Bus {
    type V = BusView;

    open spec fn view(&self) -> BusView {
        BusView {
            movement: self.status.movement,
            passengers: passengers_view(self.passengers@),
            current_location: self.current_location,
            route_position: self.route_position,
            route: self.bus_route_vec@,
            capacity: self.capacity,
            numbers_of_passengers_serviced: self.numbers_of_passengers_serviced,
            time_tick: self.time_tick,
            bus_index: self.bus_index,
        }
    }
}

/// No passenger in `ps` is the same passenger as `p`.
pub open spec fn not_aboard(ps: Seq<PassengerView>, p: PassengerView) -> bool {
    forall|k: int| 0 <= k < ps.len() ==> !same_passenger(#[trigger] ps[k], p)
}

/// Each of `new` may join `ps` in turn: none is already aboard, and none repeats an earlier one.
pub open spec fn may_all_board(ps: Seq<PassengerView>, new: Seq<PassengerView>) -> bool {
    &&& forall|i: int| 0 <= i < new.len() ==> not_aboard(ps, #[trigger] new[i])
    &&& forall|i: int, j: int| 0 <= i < j < new.len() ==> !same_passenger(#[trigger] new[i], #[trigger] new[j])
}

/// Whether a waiting passenger's plan starts with boarding bus `bus_index` at `tick`.
pub open spec fn boards_now(p: PassengerView, tick: u32, bus_index: usize) -> bool {
    p.bus_schedule[0].time_tick == tick && p.bus_schedule[0].bus_num == Some(bus_index)
}

/// The passengers among the first `n` waiting ones who board bus `bus_index` at `tick`, in order.
pub open spec fn boarding_passengers(waiting: Seq<PassengerView>, tick: u32, bus_index: usize, n: int) -> Seq<
    PassengerView,
>
    decreases n,
{
    if n <= 0 {
        Seq::empty()
    } else {
        let prev = boarding_passengers(waiting, tick, bus_index, n - 1);
        if boards_now(waiting[n - 1], tick, bus_index) {
            prev.push(waiting[n - 1])
        } else {
            prev
        }
    }
}

/// The room left on a bus.
pub open spec fn room_left(b: BusView) -> int {
    if b.passengers.len() < b.capacity {
        b.capacity - b.passengers.len()
    } else {
        0
    }
}

/// How many of `boarding` get a seat when `room` seats are left.
pub open spec fn seats_taken(boarding: Seq<PassengerView>, room: int) -> int {
    if boarding.len() < room {
        boarding.len() as int
    } else {
        room
    }
}

/// Whether a passenger's plan has it at `location` at `tick` or later: the
/// passenger gets off there.
pub open spec fn leaves_bus_at(p: PassengerView, location: Location, tick: u32) -> bool {
    exists|k: int|
        0 <= k < p.bus_schedule.len() && (#[trigger] p.bus_schedule[k]).stop_location == location
            && p.bus_schedule[k].time_tick >= tick
}

/// At a stop, a rider gets off exactly when some entry of its plan is at that
/// stop with a tick no earlier than the bus's current tick (an entry due right
/// now counts): such riders are among those who get off, every other rider is
/// among those who stay, and nobody else appears in either list.
pub proof fn lemma_due_riders_get_off(ps: Seq<PassengerView>, location: Location, tick: u32, n: int)
    requires
        0 <= n <= ps.len(),
    ensures
        forall|i: int|
            0 <= i < n ==> ((exists|k: int|
                0 <= k < ps[i].bus_schedule.len() && (#[trigger] ps[i].bus_schedule[k]).stop_location == location
                    && ps[i].bus_schedule[k].time_tick >= tick) ==> split_at_stop(ps, location, tick, n).0.contains(
                #[trigger] ps[i],
            )),
        forall|i: int|
            0 <= i < n ==> ((forall|k: int|
                0 <= k < ps[i].bus_schedule.len() && (#[trigger] ps[i].bus_schedule[k]).stop_location == location
                    ==> ps[i].bus_schedule[k].time_tick < tick) ==> split_at_stop(ps, location, tick, n).1.contains(
                #[trigger] ps[i],
            )),
        forall|p: PassengerView|
            #[trigger] split_at_stop(ps, location, tick, n).0.contains(p) ==> exists|k: int|
                0 <= k < p.bus_schedule.len() && (#[trigger] p.bus_schedule[k]).stop_location == location
                    && p.bus_schedule[k].time_tick >= tick,
        split_at_stop(ps, location, tick, n).0.len() + split_at_stop(ps, location, tick, n).1.len() == n,
    decreases n,
{
    if n > 0 {
        lemma_due_riders_get_off(ps, location, tick, n - 1);
        let prev = split_at_stop(ps, location, tick, n - 1);
        let cur = split_at_stop(ps, location, tick, n);
        let last = ps[n - 1];
        assert forall|i: int| 0 <= i < n && (exists|k: int|
            0 <= k < ps[i].bus_schedule.len() && (#[trigger] ps[i].bus_schedule[k]).stop_location == location
                && ps[i].bus_schedule[k].time_tick >= tick) implies cur.0.contains(#[trigger] ps[i]) by {
            if i < n - 1 {
                let m = choose|m: int| 0 <= m < prev.0.len() && prev.0[m] == ps[i];
                assert(cur.0[m] == ps[i]);
            } else {
                assert(leaves_bus_at(last, location, tick));
                assert(cur.0[prev.0.len() as int] == last);
            }
        }
        assert forall|i: int| 0 <= i < n && (forall|k: int|
            0 <= k < ps[i].bus_schedule.len() && (#[trigger] ps[i].bus_schedule[k]).stop_location == location
                ==> ps[i].bus_schedule[k].time_tick < tick) implies cur.1.contains(#[trigger] ps[i]) by {
            if i < n - 1 {
                let m = choose|m: int| 0 <= m < prev.1.len() && prev.1[m] == ps[i];
                assert(cur.1[m] == ps[i]);
            } else {
                assert(!leaves_bus_at(last, location, tick));
                assert(cur.1[prev.1.len() as int] == last);
            }
        }
        assert forall|p: PassengerView| #[trigger] cur.0.contains(p) implies exists|k: int|
            0 <= k < p.bus_schedule.len() && (#[trigger] p.bus_schedule[k]).stop_location == location
                && p.bus_schedule[k].time_tick >= tick by {
            let m = choose|m: int| 0 <= m < cur.0.len() && cur.0[m] == p;
            if m < prev.0.len() {
                assert(prev.0[m] == p);
                assert(prev.0.contains(p));
            } else {
                assert(p == last);
            }
        }
    }
}

/// The first `n` passengers split by `leaves_bus_at`: those who get off, and those who stay, in order.
pub open spec fn split_at_stop(ps: Seq<PassengerView>, location: Location, tick: u32, n: int) -> (
    Seq<PassengerView>,
    Seq<PassengerView>,
)
    decreases n,
{
    if n <= 0 {
        (Seq::empty(), Seq::empty())
    } else {
        let prev = split_at_stop(ps, location, tick, n - 1);
        if leaves_bus_at(ps[n - 1], location, tick) {
            (prev.0.push(ps[n - 1]), prev.1)
        } else {
            (prev.0, prev.1.push(ps[n - 1]))
        }
    }
}

/// The first `n` passengers after a drop-off at `location`: those whose
/// destination it is leave (their stop counts are collected), the others have
/// passed one more stop.
pub open spec fn drop_off(ps: Seq<PassengerView>, location: Location, n: int) -> (Seq<PassengerView>, Seq<u32>)
    decreases n,
{
    if n <= 0 {
        (Seq::empty(), Seq::empty())
    } else {
        let prev = drop_off(ps, location, n - 1);
        let p = ps[n - 1];
        if p.destination_location == location {
            (prev.0, prev.1.push(p.passed_stops))
        } else {
            (prev.0.push(PassengerView { passed_stops: (p.passed_stops + 1) as u32, ..p }), prev.1)
        }
    }
}

/// A split keeps every passenger exactly once.
pub proof fn lemma_split_at_stop_keeps_everyone(ps: Seq<PassengerView>, location: Location, tick: u32, n: int)
    requires
        0 <= n <= ps.len(),
    ensures
        split_at_stop(ps, location, tick, n).0.len() + split_at_stop(ps, location, tick, n).1.len() == n,
    decreases n,
{
    if n > 0 {
        lemma_split_at_stop_keeps_everyone(ps, location, tick, n - 1);
    }
}

/// A drop-off accounts for every passenger exactly once: staying, or leaving with a stop count.
pub proof fn lemma_drop_off_keeps_everyone(ps: Seq<PassengerView>, location: Location, n: int)
    requires
        0 <= n <= ps.len(),
    ensures
        drop_off(ps, location, n).0.len() + drop_off(ps, location, n).1.len() == n,
    decreases n,
{
    if n > 0 {
        lemma_drop_off_keeps_everyone(ps, location, n - 1);
    }
}

/// What a bus does after hearing from the station it stands at.
#[derive(Debug)]
pub enum BusReaction {
    /// Nothing to send; keep listening to the station.
    KeepWaiting,
    /// The station asks the bus to leave but the loading stage has not begun:
    /// wait for the next tick, then call `depart_after_time_tick`.
    AwaitTimeTick,
    /// Send this departure to the station and keep listening.
    Depart(StationEventMessages),
    /// Send this to the clock keeper and keep listening.
    Notify(BusMessages),
    /// Send this to the clock keeper; the bus has left for its next stop.
    LeaveStation(BusMessages),
    /// Send both to the clock keeper, in order; the bus has finished its route.
    FinishRoute(BusMessages, BusMessages),
}

impl Bus {
    /// A bus on its way to the first stop of `bus_route`; `None` for an empty route.
    pub fn try_new(bus_route: Vec<BusLocation>, capacity: usize, bus_num: usize) -> (res: Option<Bus>)
        ensures
            bus_route.len() == 0 <==> res is None,
            res matches Some(b) ==> b@ == (BusView {
                movement: MovementState::Moving(bus_route@[0].distance_to_location),
                passengers: Seq::empty(),
                current_location: Some(bus_route@[0].location),
                route_position: 1,
                route: bus_route@,
                capacity: capacity,
                numbers_of_passengers_serviced: 0,
                time_tick: TimeTick { number: 0, stage: TimeTickStage::PassengerInit },
                bus_index: bus_num,
            }),
    {
        if bus_route.len() == 0 {
            return None;
        }
        let first_bus_location = bus_route[0];
        let passengers: Vec<Passenger> = Vec::new();
        let b = Bus {
            status: BusStatus { movement: MovementState::Moving(first_bus_location.distance_to_location) },
            passengers,
            current_location: Some(first_bus_location.location),
            route_position: 1,
            bus_route_vec: bus_route,
            capacity,
            numbers_of_passengers_serviced: 0,
            time_tick: TimeTick::default(),
            bus_index: bus_num,
        };
        assert(passengers_view(b.passengers@) =~= Seq::<PassengerView>::empty());
        Some(b)
    }

    /// The bus stops at the stop it was heading for.
    pub fn stop_at_destination_stop(&mut self) -> (res: Option<()>)
        ensures
            res == Some(()),
            final(self)@ == (BusView { movement: MovementState::Stopped, ..old(self)@ }),
    {
        self.status.movement = MovementState::Stopped;
        Some(())
    }

    /// The bus sets out for the next stop of its route; `None`, with nothing
    /// changed, when it has no stop left.
    pub fn leave_for_next_location(&mut self) -> (res: Option<()>)
        ensures
            (old(self).route_position < old(self).bus_route_vec.len()) <==> res is Some,
            res is Some ==> final(self)@ == (BusView {
                current_location: Some(old(self).bus_route_vec@[old(self).route_position as int].location),
                movement: MovementState::Moving(
                    old(self).bus_route_vec@[old(self).route_position as int].distance_to_location,
                ),
                route_position: (old(self).route_position + 1) as usize,
                ..old(self)@
            }),
            res is None ==> final(self)@ == old(self)@,
    {
        if self.route_position >= self.bus_route_vec.len() {
            return None;
        }
        let next_location = self.bus_route_vec[self.route_position];
        self.route_position = self.route_position + 1;
        self.current_location = Some(next_location.location);
        self.status.movement = MovementState::Moving(next_location.distance_to_location);
        Some(())
    }

    /// Takes `passenger` aboard; the same passenger must not ride already.
    pub fn add_passenger(&mut self, passenger: &Passenger)
        requires
            not_aboard(old(self)@.passengers, passenger@),
        ensures
            final(self)@ == (BusView { passengers: old(self)@.passengers.push(passenger@), ..old(self)@ }),
    {
        let ghost before = self.passengers@;
        self.passengers.push(passenger.clone());
        assert(passengers_view(self.passengers@) =~= passengers_view(before).push(passenger@));
    }

    /// Takes aboard, in order, the waiting passengers whose plan starts with
    /// this bus at `time_tick`, while room is left; hands back those of them
    /// who found the bus full.
    pub fn take_passengers(&mut self, waiting_passengers: &mut [Passenger], time_tick: &u32) -> (overflow:
        Vec<Passenger>)
        requires
            forall|i: int|
                0 <= i < old(waiting_passengers)@.len() ==> (#[trigger] old(waiting_passengers)@[i])@.bus_schedule.len()
                    > 0,
            forall|i: int|
                0 <= i < old(waiting_passengers)@.len() && (#[trigger] old(waiting_passengers)@[i])@.bus_schedule[0].time_tick
                    == *time_tick ==> old(waiting_passengers)@[i]@.bus_schedule[0].bus_num is Some,
            ({
                let boarding = boarding_passengers(
                    passengers_view(old(waiting_passengers)@),
                    *time_tick,
                    old(self).bus_index,
                    old(waiting_passengers)@.len() as int,
                );
                may_all_board(
                    old(self)@.passengers,
                    boarding.take(seats_taken(boarding, room_left(old(self)@))),
                )
            }),
        ensures
            final(waiting_passengers)@ == old(waiting_passengers)@,
            ({
                let boarding = boarding_passengers(
                    passengers_view(old(waiting_passengers)@),
                    *time_tick,
                    old(self).bus_index,
                    old(waiting_passengers)@.len() as int,
                );
                let seats = seats_taken(boarding, room_left(old(self)@));
                &&& final(self)@ == (BusView {
                    passengers: old(self)@.passengers + boarding.take(seats),
                    ..old(self)@
                })
                &&& passengers_view(overflow@) == boarding.skip(seats)
            }),
    {
        let ghost waiting = passengers_view(waiting_passengers@);
        let ghost start = self@;
        let ghost all_boarding = boarding_passengers(waiting, *time_tick, self.bus_index, waiting.len() as int);
        let ghost room = room_left(start);
        let mut overflow_passengers: Vec<Passenger> = Vec::new();
        let mut i: usize = 0;
        while i < waiting_passengers.len()
            invariant
                i <= waiting_passengers.len(),
                waiting == passengers_view(waiting_passengers@),
                waiting_passengers@ == old(waiting_passengers)@,
                start == old(self)@,
                room == room_left(start),
                all_boarding == boarding_passengers(waiting, *time_tick, start.bus_index, waiting.len() as int),
                forall|k: int|
                    0 <= k < waiting_passengers@.len() ==> (#[trigger] waiting_passengers@[k])@.bus_schedule.len() > 0,
                forall|k: int|
                    0 <= k < waiting_passengers@.len() && (#[trigger] waiting_passengers@[k])@.bus_schedule[0].time_tick
                        == *time_tick ==> waiting_passengers@[k]@.bus_schedule[0].bus_num is Some,
                may_all_board(start.passengers, all_boarding.take(seats_taken(all_boarding, room))),
                self@ == (BusView {
                    passengers: start.passengers + boarding_passengers(waiting, *time_tick, start.bus_index, i as int).take(
                        seats_taken(boarding_passengers(waiting, *time_tick, start.bus_index, i as int), room),
                    ),
                    ..start
                }),
                passengers_view(overflow_passengers@) == boarding_passengers(waiting, *time_tick, start.bus_index, i as int).skip(
                    seats_taken(boarding_passengers(waiting, *time_tick, start.bus_index, i as int), room),
                ),
                boarding_passengers(waiting, *time_tick, start.bus_index, i as int).len() <= all_boarding.len(),
                all_boarding.subrange(0, boarding_passengers(waiting, *time_tick, start.bus_index, i as int).len() as int)
                    == boarding_passengers(waiting, *time_tick, start.bus_index, i as int),
            decreases waiting_passengers.len() - i,
        {
            proof {
                lemma_boarding_prefix(waiting, *time_tick, start.bus_index, i as int + 1, waiting.len() as int);
            }
            let ghost b = boarding_passengers(waiting, *time_tick, start.bus_index, i as int);
            let ghost b_next = boarding_passengers(waiting, *time_tick, start.bus_index, i as int + 1);
            let passenger = &waiting_passengers[i];
            assert(waiting[i as int] == passenger@);
            let first = passenger.bus_schedule[0];
            let boards = first.time_tick == *time_tick && match first.bus_num {
                Some(n) => n == self.bus_index,
                None => false,
            };
            assert(boards == boards_now(passenger@, *time_tick, start.bus_index));
            assert(self@.passengers.len() == self.passengers.len());
            assert(b.take(seats_taken(b, room)).len() == seats_taken(b, room));
            assert(self@.passengers.len() == start.passengers.len() + seats_taken(b, room));
            if boards {
                assert(b_next == b.push(passenger@));
                if self.passengers.len() >= self.capacity {
                    let ghost before = overflow_passengers@;
                    overflow_passengers.push(passenger.clone());
                    assert(passengers_view(overflow_passengers@) =~= passengers_view(before).push(passenger@));
                    assert(b.take(seats_taken(b, room)) =~= b_next.take(seats_taken(b_next, room)));
                    assert(b.skip(seats_taken(b, room)).push(passenger@) =~= b_next.skip(seats_taken(b_next, room)));
                } else {
                    let ghost seats = seats_taken(b, room);
                    assert(seats == b.len());
                    assert(seats_taken(b_next, room) == b.len() + 1);
                    let ghost taken_all = all_boarding.take(seats_taken(all_boarding, room));
                    assert(b_next =~= all_boarding.subrange(0, b_next.len() as int));
                    assert(taken_all[seats] == passenger@);
                    assert(not_aboard(self@.passengers, passenger@)) by {
                        assert forall|k: int| 0 <= k < self@.passengers.len() implies !same_passenger(
                            #[trigger] self@.passengers[k],
                            passenger@,
                        ) by {
                            if k < start.passengers.len() {
                                assert(self@.passengers[k] == start.passengers[k]);
                                assert(not_aboard(start.passengers, taken_all[seats]));
                            } else {
                                let m = k - start.passengers.len();
                                assert(self@.passengers[k] == b[m]);
                                assert(taken_all[m] == b[m]);
                            }
                        }
                    }
                    self.add_passenger(passenger);
                    assert(b.take(seats) + seq![passenger@] =~= b_next.take(seats + 1));
                    assert((start.passengers + b.take(seats)).push(passenger@) =~= start.passengers + b_next.take(
                        seats + 1,
                    ));
                    assert(b.skip(seats) =~= b_next.skip(seats + 1));
                }
            } else {
                assert(b_next == b);
            }
            i = i + 1;
        }
        assert(boarding_passengers(waiting, *time_tick, start.bus_index, i as int) == all_boarding);
        overflow_passengers
    }

    /// At the current stop, passengers whose destination it is get off (their
    /// stop counts are appended to `passenger_passed_stops` and counted as
    /// served); the others have passed one more stop. `None`, with nothing
    /// changed, when the bus has no current location.
    pub fn drop_off_passengers(&mut self, passenger_passed_stops: &mut Vec<u32>) -> (res: Option<()>)
        requires
            old(self).current_location is Some ==> {
                let d = drop_off(
                    old(self)@.passengers,
                    old(self).current_location->0,
                    old(self)@.passengers.len() as int,
                );
                old(self).numbers_of_passengers_serviced + d.1.len() <= u32::MAX
            },
            old(self).current_location is Some ==> forall|i: int|
                0 <= i < old(self)@.passengers.len() && (#[trigger] old(self)@.passengers[i]).destination_location
                    != old(self).current_location->0 ==> old(self)@.passengers[i].passed_stops < u32::MAX,
        ensures
            old(self).current_location is None <==> res is None,
            res is None ==> final(self)@ == old(self)@ && final(passenger_passed_stops)@ == old(
                passenger_passed_stops,
            )@,
            res is Some ==> {
                let d = drop_off(
                    old(self)@.passengers,
                    old(self).current_location->0,
                    old(self)@.passengers.len() as int,
                );
                &&& final(self)@ == (BusView {
                    passengers: d.0,
                    numbers_of_passengers_serviced: (old(self).numbers_of_passengers_serviced
                        + d.1.len()) as u32,
                    ..old(self)@
                })
                &&& final(passenger_passed_stops)@ == old(passenger_passed_stops)@ + d.1
            },
    {
        let current_location = match self.current_location {
            Some(l) => l,
            None => { return None; },
        };
        let ghost start = self@;
        let ghost start_stops = passenger_passed_stops@;
        let mut new_bus_passengers: Vec<Passenger> = Vec::new();
        let mut i: usize = 0;
        while i < self.passengers.len()
            invariant
                i <= self.passengers.len(),
                start.passengers == passengers_view(self.passengers@),
                self@ == (BusView {
                    numbers_of_passengers_serviced: self.numbers_of_passengers_serviced,
                    ..start
                }),
                current_location == start.current_location->0,
                start.numbers_of_passengers_serviced + drop_off(
                    start.passengers,
                    current_location,
                    start.passengers.len() as int,
                ).1.len() <= u32::MAX,
                forall|k: int|
                    0 <= k < start.passengers.len() && (#[trigger] start.passengers[k]).destination_location
                        != current_location ==> start.passengers[k].passed_stops < u32::MAX,
                ({
                    let d = drop_off(start.passengers, current_location, i as int);
                    &&& passengers_view(new_bus_passengers@) == d.0
                    &&& passenger_passed_stops@ == start_stops + d.1
                    &&& self.numbers_of_passengers_serviced == start.numbers_of_passengers_serviced + d.1.len()
                }),
            decreases self.passengers.len() - i,
        {
            proof {
                lemma_drop_off_grows(start.passengers, current_location, i as int + 1, start.passengers.len() as int);
            }
            let passenger = &self.passengers[i];
            assert(start.passengers[i as int] == passenger@);
            if passenger.destination_location == current_location {
                passenger_passed_stops.push(passenger.passed_stops);
                self.numbers_of_passengers_serviced = self.numbers_of_passengers_serviced + 1;
            } else {
                let mut staying = passenger.clone();
                staying.passed_stops = staying.passed_stops + 1;
                let ghost before = new_bus_passengers@;
                new_bus_passengers.push(staying);
                assert(passengers_view(new_bus_passengers@) =~= passengers_view(before).push(staying@));
            }
            i = i + 1;
        }
        self.passengers = new_bus_passengers;
        Some(())
    }

    /// A copy of the bus's whole route.
    pub fn get_bus_route(&self) -> (res: Vec<BusLocation>)
        ensures
            res@ == self.bus_route_vec@,
    {
        let mut res: Vec<BusLocation> = Vec::new();
        let mut i: usize = 0;
        while i < self.bus_route_vec.len()
            invariant
                i <= self.bus_route_vec.len(),
                res@ == self.bus_route_vec@.subrange(0, i as int),
            decreases self.bus_route_vec.len() - i,
        {
            res.push(self.bus_route_vec[i]);
            i = i + 1;
        }
        res
    }
}

/// Boarding passengers found among a prefix are a prefix of those found among a longer one.
pub proof fn lemma_boarding_prefix(waiting: Seq<PassengerView>, tick: u32, bus_index: usize, i: int, n: int)
    requires
        0 <= i <= n,
    ensures
        boarding_passengers(waiting, tick, bus_index, i).len() <= boarding_passengers(waiting, tick, bus_index, n).len(),
        boarding_passengers(waiting, tick, bus_index, n).subrange(
            0,
            boarding_passengers(waiting, tick, bus_index, i).len() as int,
        ) == boarding_passengers(waiting, tick, bus_index, i),
    decreases n - i,
{
    if i < n {
        lemma_boarding_prefix(waiting, tick, bus_index, i, n - 1);
        let bi = boarding_passengers(waiting, tick, bus_index, i);
        let bn1 = boarding_passengers(waiting, tick, bus_index, n - 1);
        let bn = boarding_passengers(waiting, tick, bus_index, n);
        assert(bn.subrange(0, bi.len() as int) =~= bn1.subrange(0, bi.len() as int));
    } else {
        let b = boarding_passengers(waiting, tick, bus_index, n);
        assert(b.subrange(0, b.len() as int) =~= b);
    }
}

/// Dropped-off stop counts found among a prefix never exceed those found among a longer one.
pub proof fn lemma_drop_off_grows(ps: Seq<PassengerView>, location: Location, i: int, n: int)
    requires
        0 <= i <= n,
    ensures
        drop_off(ps, location, i).1.len() <= drop_off(ps, location, n).1.len(),
    decreases n - i,
{
    if i < n {
        lemma_drop_off_grows(ps, location, i, n - 1);
    }
}


/// What a bus does first in a tick.
#[derive(Debug)]
pub enum BusUpdate {
    /// The bus was on the road; send this to the clock keeper.
    Moved(BusMessages),
    /// The bus stands at a stop; send this arrival to the station there, then
    /// serve the station's messages with `respond_to_station`.
    Arrived(StationEventMessages),
}

impl Bus {
    /// The first step of a tick: a bus on the road moves on, a bus at a stop
    /// lets off the passengers due there and announces itself to the station.
    pub fn update(&mut self) -> (res: BusUpdate)
        requires
            !(old(self).status.movement is Moving) ==> {
                &&& old(self).current_location is Some
                &&& split_at_stop(
                    old(self)@.passengers,
                    old(self).current_location->0,
                    old(self).time_tick.number,
                    old(self)@.passengers.len() as int,
                ).1.len() <= old(self).capacity
            },
        ensures
            old(self).status.movement is Moving ==> {
                &&& res == BusUpdate::Moved(BusMessages::AdvanceTimeStepForMovingBus { bus_index: old(self).bus_index })
                &&& final(self)@ == (BusView {
                    movement: if old(self).status.movement->0 > 1 {
                        MovementState::Moving((old(self).status.movement->0 - 1) as u32)
                    } else {
                        MovementState::Stopped
                    },
                    ..old(self)@
                })
            },
            !(old(self).status.movement is Moving) ==> {
                let split = split_at_stop(
                    old(self)@.passengers,
                    old(self).current_location->0,
                    old(self).time_tick.number,
                    old(self)@.passengers.len() as int,
                );
                &&& final(self)@ == (BusView { passengers: split.1, ..old(self)@ })
                &&& res matches BusUpdate::Arrived(StationEventMessages::BusArrived { passengers_offboarding, bus_info })
                    && passengers_view(passengers_offboarding@) == split.0 && bus_info == (SendableBus {
                    capacity_remaining: (old(self).capacity - split.1.len()) as usize,
                    bus_index: old(self).bus_index,
                })
            },
            !(old(self).status.movement is Moving) ==> (res matches BusUpdate::Arrived(m) && m is BusArrived &&
                forall|i: int|
                0 <= i < old(self)@.passengers.len() ==> {
                    &&& (exists|k: int|
                        0 <= k < old(self)@.passengers[i].bus_schedule.len()
                            && (#[trigger] old(self)@.passengers[i].bus_schedule[k]).stop_location == old(
                            self,
                        ).current_location->0 && old(self)@.passengers[i].bus_schedule[k].time_tick >= old(
                            self,
                        ).time_tick.number) ==> passengers_view(m->passengers_offboarding@).contains(#[trigger] old(self)@.passengers[i])
                    &&& (forall|k: int|
                        0 <= k < old(self)@.passengers[i].bus_schedule.len()
                            && (#[trigger] old(self)@.passengers[i].bus_schedule[k]).stop_location == old(
                            self,
                        ).current_location->0 ==> old(self)@.passengers[i].bus_schedule[k].time_tick < old(
                            self,
                        ).time_tick.number) ==> final(self)@.passengers.contains(old(self)@.passengers[i])
                }),
    {
        if let MovementState::Moving(_) = self.status.movement {
            BusUpdate::Moved(self.update_moving())
        } else {
            BusUpdate::Arrived(self.arrive_at_current_stop())
        }
    }

    /// One tick on the road: the distance left shrinks by one, and a bus one
    /// step away stops at its stop. The clock keeper is told that this moving
    /// bus is done with the tick.
    pub fn update_moving(&mut self) -> (msg: BusMessages)
        requires
            old(self).status.movement is Moving,
        ensures
            msg == (BusMessages::AdvanceTimeStepForMovingBus { bus_index: old(self).bus_index }),
            final(self)@ == (BusView {
                movement: if old(self).status.movement->0 > 1 {
                    MovementState::Moving((old(self).status.movement->0 - 1) as u32)
                } else {
                    MovementState::Stopped
                },
                ..old(self)@
            }),
    {
        if let MovementState::Moving(distance) = self.status.movement {
            if distance > 1 {
                self.status.movement = MovementState::Moving(distance - 1);
            } else {
                self.stop_at_destination_stop();
            }
        }
        BusMessages::AdvanceTimeStepForMovingBus { bus_index: self.bus_index }
    }

    /// The bus stands at its current stop: the passengers whose plan has them
    /// at this stop now or later get off, the rest stay, and the station is
    /// told who gets off and how much room the bus has left.
    pub fn arrive_at_current_stop(&mut self) -> (msg: StationEventMessages)
        requires
            old(self).current_location is Some,
            split_at_stop(
                old(self)@.passengers,
                old(self).current_location->0,
                old(self).time_tick.number,
                old(self)@.passengers.len() as int,
            ).1.len() <= old(self).capacity,
        ensures
            ({
                let split = split_at_stop(
                    old(self)@.passengers,
                    old(self).current_location->0,
                    old(self).time_tick.number,
                    old(self)@.passengers.len() as int,
                );
                &&& final(self)@ == (BusView { passengers: split.1, ..old(self)@ })
                &&& msg matches StationEventMessages::BusArrived { passengers_offboarding, bus_info }
                    && passengers_view(passengers_offboarding@) == split.0 && bus_info == (SendableBus {
                    capacity_remaining: (old(self).capacity - split.1.len()) as usize,
                    bus_index: old(self).bus_index,
                })
            }),
            msg is BusArrived,
            forall|i: int|
                0 <= i < old(self)@.passengers.len() ==> {
                    &&& (exists|k: int|
                        0 <= k < old(self)@.passengers[i].bus_schedule.len()
                            && (#[trigger] old(self)@.passengers[i].bus_schedule[k]).stop_location == old(
                            self,
                        ).current_location->0 && old(self)@.passengers[i].bus_schedule[k].time_tick >= old(
                            self,
                        ).time_tick.number) ==> passengers_view(msg->passengers_offboarding@).contains(#[trigger] old(self)@.passengers[i])
                    &&& (forall|k: int|
                        0 <= k < old(self)@.passengers[i].bus_schedule.len()
                            && (#[trigger] old(self)@.passengers[i].bus_schedule[k]).stop_location == old(
                            self,
                        ).current_location->0 ==> old(self)@.passengers[i].bus_schedule[k].time_tick < old(
                            self,
                        ).time_tick.number) ==> final(self)@.passengers.contains(old(self)@.passengers[i])
                },
    {
        proof {
            lemma_due_riders_get_off(
                old(self)@.passengers,
                old(self).current_location->0,
                old(self).time_tick.number,
                old(self)@.passengers.len() as int,
            );
        }
        let current_location = match self.current_location {
            Some(l) => l,
            None => { return StationEventMessages::NoMessage; },
        };
        let ghost start = self@;
        let mut outgoing_passengers: Vec<Passenger> = Vec::new();
        let mut remaining_passengers: Vec<Passenger> = Vec::new();
        let mut i: usize = 0;
        while i < self.passengers.len()
            invariant
                i <= self.passengers.len(),
                self@ == start,
                current_location == start.current_location->0,
                ({
                    let split = split_at_stop(start.passengers, current_location, start.time_tick.number, i as int);
                    &&& passengers_view(outgoing_passengers@) == split.0
                    &&& passengers_view(remaining_passengers@) == split.1
                }),
            decreases self.passengers.len() - i,
        {
            let passenger = &self.passengers[i];
            assert(start.passengers[i as int] == passenger@);
            let mut leaves = false;
            let mut k: usize = 0;
            while k < passenger.bus_schedule.len()
                invariant
                    k <= passenger.bus_schedule.len(),
                    leaves == exists|m: int|
                        0 <= m < k && (#[trigger] passenger@.bus_schedule[m]).stop_location == current_location
                            && passenger@.bus_schedule[m].time_tick >= self.time_tick.number,
                decreases passenger.bus_schedule.len() - k,
            {
                let entry = passenger.bus_schedule[k];
                if entry.stop_location == current_location && entry.time_tick >= self.time_tick.number {
                    leaves = true;
                    assert(passenger@.bus_schedule[k as int] == entry);
                }
                k = k + 1;
            }
            assert(leaves == leaves_bus_at(passenger@, current_location, start.time_tick.number));
            if leaves {
                let ghost before = outgoing_passengers@;
                outgoing_passengers.push(passenger.clone());
                assert(passengers_view(outgoing_passengers@) =~= passengers_view(before).push(passenger@));
            } else {
                let ghost before = remaining_passengers@;
                remaining_passengers.push(passenger.clone());
                assert(passengers_view(remaining_passengers@) =~= passengers_view(before).push(passenger@));
            }
            i = i + 1;
        }
        self.passengers = remaining_passengers;
        let capacity_remaining = self.capacity - self.passengers.len();
        let bus_info_for_station = SendableBus { capacity_remaining, bus_index: self.bus_index };
        StationEventMessages::BusArrived {
            passengers_offboarding: outgoing_passengers,
            bus_info: bus_info_for_station,
        }
    }

    /// The bus hears `message` from the station it stands at and reacts.
    pub fn respond_to_station(&mut self, message: StationToBusMessages) -> (reaction: BusReaction)
        requires
            message matches StationToBusMessages::SendPassengers(list) ==> may_all_board(
                old(self)@.passengers,
                passengers_view(list@),
            ),
            message is StationRemovedBus && old(self).route_position >= old(self).bus_route_vec.len()
                ==> old(self).passengers.len() == 0,
        ensures
            match message {
                StationToBusMessages::AcknowledgeArrival() => reaction is KeepWaiting && final(self)@
                    == old(self)@,
                StationToBusMessages::RequestDeparture => final(self)@ == old(self)@ && if old(
                    self,
                ).time_tick.stage == TimeTickStage::BusLoadingPassengers {
                    reaction == BusReaction::Depart(
                        StationEventMessages::BusDeparted { bus_index: old(self).bus_index },
                    )
                } else {
                    reaction is AwaitTimeTick
                },
                StationToBusMessages::SendPassengers(list) => reaction is KeepWaiting && final(self)@
                    == (BusView {
                    passengers: old(self)@.passengers + passengers_view(list@),
                    ..old(self)@
                }),
                StationToBusMessages::FinishedUnloading => final(self)@ == old(self)@ && reaction
                    == BusReaction::Notify(
                    BusMessages::AdvanceTimeStepForUnloadedBus { bus_index: old(self).bus_index },
                ),
                StationToBusMessages::StationRemovedBus => if old(self).route_position < old(
                    self,
                ).bus_route_vec.len() {
                    &&& final(self)@ == (BusView {
                        current_location: Some(
                            old(self).bus_route_vec@[old(self).route_position as int].location,
                        ),
                        movement: MovementState::Moving(
                            old(self).bus_route_vec@[old(self).route_position as int].distance_to_location,
                        ),
                        route_position: (old(self).route_position + 1) as usize,
                        ..old(self)@
                    })
                    &&& reaction == BusReaction::LeaveStation(
                        BusMessages::AdvanceTimeStepForLoadedBus { bus_index: old(self).bus_index },
                    )
                } else {
                    &&& final(self)@ == (BusView { movement: MovementState::Finished, ..old(self)@ })
                    &&& reaction == BusReaction::FinishRoute(
                        BusMessages::AdvanceTimeStepForLoadedBus { bus_index: old(self).bus_index },
                        BusMessages::BusFinished { bus_index: old(self).bus_index },
                    )
                },
            },
    {
        match message {
            StationToBusMessages::AcknowledgeArrival() => BusReaction::KeepWaiting,
            StationToBusMessages::RequestDeparture => {
                if self.time_tick.stage == TimeTickStage::BusLoadingPassengers {
                    BusReaction::Depart(StationEventMessages::BusDeparted { bus_index: self.bus_index })
                } else {
                    BusReaction::AwaitTimeTick
                }
            },
            StationToBusMessages::SendPassengers(passenger_list) => {
                let ghost start = self@;
                let ghost list = passengers_view(passenger_list@);
                let mut i: usize = 0;
                while i < passenger_list.len()
                    invariant
                        i <= passenger_list.len(),
                        list == passengers_view(passenger_list@),
                        may_all_board(start.passengers, list),
                        self@ == (BusView { passengers: start.passengers + list.subrange(0, i as int), ..start }),
                    decreases passenger_list.len() - i,
                {
                    let passenger = &passenger_list[i];
                    assert(list[i as int] == passenger@);
                    assert(not_aboard(self@.passengers, passenger@)) by {
                        assert forall|k: int| 0 <= k < self@.passengers.len() implies !same_passenger(
                            #[trigger] self@.passengers[k],
                            passenger@,
                        ) by {
                            if k < start.passengers.len() {
                                assert(self@.passengers[k] == start.passengers[k]);
                            } else {
                                assert(self@.passengers[k] == list[k - start.passengers.len()]);
                            }
                        }
                    }
                    self.add_passenger(passenger);
                    assert((start.passengers + list.subrange(0, i as int)).push(passenger@) =~= start.passengers
                        + list.subrange(0, i + 1));
                    i = i + 1;
                }
                assert(list.subrange(0, list.len() as int) =~= list);
                BusReaction::KeepWaiting
            },
            StationToBusMessages::FinishedUnloading => BusReaction::Notify(
                BusMessages::AdvanceTimeStepForUnloadedBus { bus_index: self.bus_index },
            ),
            StationToBusMessages::StationRemovedBus => {
                let notice = BusMessages::AdvanceTimeStepForLoadedBus { bus_index: self.bus_index };
                let leave_result = self.leave_for_next_location();
                if leave_result.is_none() {
                    self.status.movement = MovementState::Finished;
                    return BusReaction::FinishRoute(
                        notice,
                        BusMessages::BusFinished { bus_index: self.bus_index },
                    );
                }
                BusReaction::LeaveStation(notice)
            },
        }
    }

    /// The tick the bus waited for has come: it takes it over and tells the
    /// station it departs.
    pub fn depart_after_time_tick(&mut self, time_tick: TimeTick) -> (msg: StationEventMessages)
        ensures
            final(self)@ == (BusView { time_tick: time_tick, ..old(self)@ }),
            msg == (StationEventMessages::BusDeparted { bus_index: old(self).bus_index }),
    {
        self.time_tick = time_tick;
        StationEventMessages::BusDeparted { bus_index: self.bus_index }
    }
}


/// A bus keeps its route through any run of calls: when every call keeps the
/// route (as each method of `Bus` states in its contract), every state along
/// the run has the route the bus was made with, and `get_bus_route` hands
/// back that route at any point.
pub proof fn lemma_route_kept_through_calls(states: Seq<BusView>)
    requires
        forall|i: int| 0 <= i < states.len() - 1 ==> (#[trigger] states[i + 1]).route == states[i].route,
    ensures
        forall|i: int| 0 <= i < states.len() ==> (#[trigger] states[i]).route == states[0].route,
{
    assert forall|i: int| 0 <= i < states.len() implies (#[trigger] states[i]).route == states[0].route by {
        lemma_route_kept_prefix(states, i);
    }
}

proof fn lemma_route_kept_prefix(states: Seq<BusView>, i: int)
    requires
        0 <= i < states.len(),
        forall|k: int| 0 <= k < states.len() - 1 ==> (#[trigger] states[k + 1]).route == states[k].route,
    ensures
        states[i].route == states[0].route,
    decreases i,
{
    if i > 0 {
        lemma_route_kept_prefix(states, i - 1);
        assert(states[(i - 1) + 1].route == states[i - 1].route);
    }
}

/// Taking passengers never fills a bus beyond its capacity (a bus already over
/// it takes nobody), and every boarding passenger either gets a seat or is
/// handed back, exactly once.
pub proof fn lemma_take_passengers_respects_capacity(b: BusView, boarding: Seq<PassengerView>)
    ensures
        ({
            let seats = seats_taken(boarding, room_left(b));
            &&& b.passengers.len() < b.capacity ==> b.passengers.len() + boarding.take(seats).len() <= b.capacity
            &&& b.passengers.len() >= b.capacity ==> boarding.take(seats).len() == 0
            &&& boarding.take(seats).len() + boarding.skip(seats).len() == boarding.len()
        }),
{
}


/// No two riders are the same passenger.
pub open spec fn riders_distinct(ps: Seq<PassengerView>) -> bool {
    forall|i: int, j: int| 0 <= i < j < ps.len() ==> !same_passenger(#[trigger] ps[i], #[trigger] ps[j])
}

/// Boarding only passengers who may all board keeps a bus free of doubles.
pub proof fn lemma_boarding_keeps_riders_distinct(ps: Seq<PassengerView>, new: Seq<PassengerView>)
    requires
        riders_distinct(ps),
        may_all_board(ps, new),
    ensures
        riders_distinct(ps + new),
{
    let all = ps + new;
    assert forall|i: int, j: int| 0 <= i < j < all.len() implies !same_passenger(#[trigger] all[i], #[trigger] all[j]) by {
        if j < ps.len() {
            assert(all[i] == ps[i] && all[j] == ps[j]);
        } else if i < ps.len() {
            assert(all[i] == ps[i] && all[j] == new[j - ps.len()]);
            assert(not_aboard(ps, new[j - ps.len()]));
        } else {
            assert(all[i] == new[i - ps.len()] && all[j] == new[j - ps.len()]);
        }
    }
}

} // verus!

use vstd::prelude::*;
use vstd::string::*;
use crate::location::Location;
use crate::outside::{decimal_text, new_random_id, random_id_fixed_bits, usize_text};

verus! {

/// One entry of a passenger's plan: at `time_tick` the passenger is at
/// `stop_location`, and from there takes bus `bus_num` (`None` on the last
/// entry, where the passenger has reached the destination).
#[derive(Clone, Copy, Debug, PartialEq, Eq, Structural)]
pub struct PassengerOnboardingBusSchedule {
    pub time_tick: u32,
    pub bus_num: Option<usize>,
    pub stop_location: Location,
}

/// A traveller. `schedule_cursor` counts how many entries of `bus_schedule`
/// have already been handed out as the passenger moves along the plan.
#[derive(Debug)]
pub struct Passenger {
    pub id: u128,
    pub index: usize,
    pub destination_location: Location,
    pub current_location: Option<Location>,
    pub passed_stops: u32,
    pub beginning_time_step: u32,
    pub bus_schedule: Vec<PassengerOnboardingBusSchedule>,
    pub archived_stop_list: Vec<PassengerOnboardingBusSchedule>,
    pub next_bus_num: Option<usize>,
    pub schedule_cursor: usize,
}

/// The mathematical value of a passenger.
pub struct PassengerView {
    pub id: u128,
    pub index: usize,
    pub destination_location: Location,
    pub current_location: Option<Location>,
    pub passed_stops: u32,
    pub beginning_time_step: u32,
    pub bus_schedule: Seq<PassengerOnboardingBusSchedule>,
    pub archived_stop_list: Seq<PassengerOnboardingBusSchedule>,
    pub next_bus_num: Option<usize>,
    pub schedule_cursor: usize,
}

impl View for Passenger {
    type V = PassengerView;

    open spec fn view(&self) -> PassengerView {
        PassengerView {
            id: self.id,
            index: self.index,
            destination_location: self.destination_location,
            current_location: self.current_location,
            passed_stops: self.passed_stops,
            beginning_time_step: self.beginning_time_step,
            bus_schedule: self.bus_schedule@,
            archived_stop_list: self.archived_stop_list@,
            next_bus_num: self.next_bus_num,
            schedule_cursor: self.schedule_cursor,
        }
    }
}

/// The entries of the plan that have not been handed out yet.
pub open spec fn remaining_stops(p: PassengerView) -> Seq<PassengerOnboardingBusSchedule> {
    if p.schedule_cursor <= p.bus_schedule.len() {
        p.bus_schedule.subrange(p.schedule_cursor as int, p.bus_schedule.len() as int)
    } else {
        Seq::empty()
    }
}

/// The entry that the plan hands out next, if any.
pub open spec fn upcoming_stop(p: PassengerView) -> Option<PassengerOnboardingBusSchedule> {
    if p.schedule_cursor < p.bus_schedule.len() {
        Some(p.bus_schedule[p.schedule_cursor as int])
    } else {
        None
    }
}

/// Two records describe the same passenger in the same state: identifier,
/// destination, whereabouts, stops passed, plan and archive all agree.
pub open spec fn same_passenger(a: PassengerView, b: PassengerView) -> bool {
    &&& a.id == b.id
    &&& a.destination_location == b.destination_location
    &&& a.current_location == b.current_location
    &&& a.passed_stops == b.passed_stops
    &&& a.bus_schedule == b.bus_schedule
    &&& a.archived_stop_list == b.archived_stop_list
}

/// The views of a list of passengers.
pub open spec fn passengers_view(ps: Seq<Passenger>) -> Seq<PassengerView> {
    ps.map_values(|p: Passenger| p@)
}

/// How a passenger is shown to people: `Passenger <index>`.
pub open spec fn passenger_text(p: PassengerView) -> Seq<char> {
    "Passenger "@ + decimal_text(p.index as nat)
}

/// A copy of a plan.
pub fn copy_schedule(s: &Vec<PassengerOnboardingBusSchedule>) -> (res: Vec<PassengerOnboardingBusSchedule>)
    ensures
        res@ == s@,
{
    let mut res: Vec<PassengerOnboardingBusSchedule> = Vec::new();
    let mut i: usize = 0;
    while i < s.len()
        invariant
            i <= s.len(),
            res@ == s@.subrange(0, i as int),
        decreases s.len() - i,
    {
        res.push(s[i]);
        i = i + 1;
    }
    res
}

/// Whether two plans hold the same entries in the same order.
pub fn same_schedule(a: &Vec<PassengerOnboardingBusSchedule>, b: &Vec<PassengerOnboardingBusSchedule>) -> (res: bool)
    ensures
        res == (a@ == b@),
{
    if a.len() != b.len() {
        return false;
    }
    let mut i: usize = 0;
    while i < a.len()
        invariant
            i <= a.len(),
            a.len() == b.len(),
            forall|k: int| 0 <= k < i ==> a@[k] == b@[k],
        decreases a.len() - i,
    {
        if a[i] != b[i] {
            return false;
        }
        i = i + 1;
    }
    assert(a@ =~= b@);
    true
}

impl Clone for Passenger {
    fn clone(&self) -> (res: Self)
        ensures
            res@ == self@,
    {
        Passenger {
            id: self.id,
            index: self.index,
            destination_location: self.destination_location,
            current_location: self.current_location,
            passed_stops: self.passed_stops,
            beginning_time_step: self.beginning_time_step,
            bus_schedule: copy_schedule(&self.bus_schedule),
            archived_stop_list: copy_schedule(&self.archived_stop_list),
            next_bus_num: self.next_bus_num,
            schedule_cursor: self.schedule_cursor,
        }
    }
}

impl Passenger {
    /// A passenger waiting at `current_location` to travel to
    /// `destination_location`, with a fresh random identifier and an empty plan.
    pub fn new(
        current_location: Location,
        destination_location: Location,
        beginning_time_step: u32,
        index: usize,
    ) -> (p: Self)
        ensures
            random_id_fixed_bits(p.id),
            p.index == index,
            p.current_location == Some(current_location),
            p.destination_location == destination_location,
            p.passed_stops == 0,
            p.beginning_time_step == beginning_time_step,
            p.bus_schedule@ == Seq::<PassengerOnboardingBusSchedule>::empty(),
            p.archived_stop_list@ == Seq::<PassengerOnboardingBusSchedule>::empty(),
            p.next_bus_num == None::<usize>,
            p.schedule_cursor == 0,
    {
        Passenger {
            id: new_random_id(),
            index,
            current_location: Some(current_location),
            destination_location,
            passed_stops: 0,
            beginning_time_step,
            bus_schedule: Vec::new(),
            next_bus_num: None,
            archived_stop_list: Vec::new(),
            schedule_cursor: 0,
        }
    }

    /// Whether `other` describes the same passenger in the same state.
    pub fn is_same_passenger(&self, other: &Passenger) -> (res: bool)
        ensures
            res == same_passenger(self@, other@),
    {
        self.id == other.id && self.destination_location == other.destination_location
            && self.current_location == other.current_location && self.passed_stops
            == other.passed_stops && same_schedule(&self.bus_schedule, &other.bus_schedule)
            && same_schedule(&self.archived_stop_list, &other.archived_stop_list)
    }

    /// Replaces the plan and starts handing it out from its first entry.
    pub fn set_bus_schedule(&mut self, schedule: Vec<PassengerOnboardingBusSchedule>)
        ensures
            final(self)@ == (PassengerView {
                bus_schedule: schedule@,
                schedule_cursor: 0,
                ..old(self)@
            }),
    {
        self.bus_schedule = schedule;
        self.schedule_cursor = 0;
    }

    /// Hands out the next entry of the plan, if one is left.
    pub fn next_stop(&mut self) -> (res: Option<PassengerOnboardingBusSchedule>)
        ensures
            res == upcoming_stop(old(self)@),
            final(self)@ == (PassengerView {
                schedule_cursor: if res is Some { (old(self).schedule_cursor + 1) as usize } else { old(self).schedule_cursor },
                ..old(self)@
            }),
    {
        if self.schedule_cursor < self.bus_schedule.len() {
            let s = self.bus_schedule[self.schedule_cursor];
            self.schedule_cursor = self.schedule_cursor + 1;
            Some(s)
        } else {
            None
        }
    }

    /// The entry of the plan that would be handed out next, if one is left.
    pub fn peek_next_stop(&self) -> (res: Option<PassengerOnboardingBusSchedule>)
        ensures
            res == upcoming_stop(self@),
    {
        if self.schedule_cursor < self.bus_schedule.len() {
            Some(self.bus_schedule[self.schedule_cursor])
        } else {
            None
        }
    }

    /// The text `Passenger <index>`.
    pub fn to_text(&self) -> (s: String)
        ensures
            s@ == passenger_text(self@),
    {
        let mut s = String::from_str("Passenger ");
        let digits = usize_text(self.index);
        s.append(digits.as_str());
        s
    }
}

} // verus!

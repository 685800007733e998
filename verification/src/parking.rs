//! Domain model for parking regulations: days, months, times of day, cyclic
//! spans, dates, vehicles, actions and time limits.

use vstd::prelude::*;

verus! {

/// A day of the week, in the fixed cyclic order Sunday..Saturday.
#[derive(Clone, Copy, Debug, PartialEq, Eq, Structural)]
pub enum Day {
    Sunday,
    Monday,
    Tuesday,
    Wednesday,
    Thursday,
    Friday,
    Saturday,
}

/// A month of the year, January..December.
#[derive(Clone, Copy, Debug, PartialEq, Eq, Structural)]
pub enum Month {
    January,
    February,
    March,
    April,
    May,
    June,
    July,
    August,
    September,
    October,
    November,
    December,
}

/// A time of day; ordered by (hours, minutes).
#[derive(Clone, Copy, Debug, PartialEq, Eq, Structural)]
pub struct Time {
    pub hours: u8,
    pub minutes: u8,
}

impl Time {
    /// The domain of a time of day: hours 0..=23, minutes 0..=59.
    pub open spec fn wf(self) -> bool {
        self.hours <= 23 && self.minutes <= 59
    }
}

/// A restriction on one ordered axis: either an inclusive range, interpreted
/// cyclically (`Range(start, end)` with `start` after `end` wraps around the
/// domain boundary), or no restriction at all (`All`).
#[derive(Clone, Copy, Debug, PartialEq, Eq, Structural)]
pub enum Span<T> {
    Range(T, T),
    All,
}

/// Types whose ranges can be inverted: a forward range becomes its
/// wraparound complement by swapping its endpoints.
pub trait Rangeable: Sized {
    /// What `invert` turns a value into.
    spec fn spec_inverted(&self) -> Self;

    /// Swap the endpoints of a range; a no-op on an unrestricted value.
    fn invert(&mut self)
        ensures
            *final(self) == old(self).spec_inverted(),
    ;
}

impl<T: Copy> Rangeable for Span<T> {
    open spec fn spec_inverted(&self) -> Span<T> {
        match *self {
            Span::Range(start, end) => Span::Range(end, start),
            Span::All => Span::All,
        }
    }

    fn invert(&mut self) {
        *self = match *self {
            Span::Range(start, end) => Span::Range(end, start),
            Span::All => Span::All,
        };
    }
}

/// The conjunction of three independent restrictions: a weekday span, an
/// hour-of-day span, and a (day-of-month, month) span.
#[derive(Clone, Copy, Debug, PartialEq, Eq)]
pub struct Date {
    pub weekdays: Span<Day>,
    pub hours: Span<Time>,
    pub months: Span<(u8, Month)>,
}

/// A vehicle class, in fixed declaration order.
#[derive(Clone, Copy, Debug, PartialEq, Eq, Structural)]
pub enum Vehicle {
    Private,
    Commercial,
    Trucks,
}

/// How long the regulated action may last.
#[derive(Clone, Copy, Debug, PartialEq, Eq, Structural)]
pub enum TimeLimit {
    Minutes(u16),
    Infinite,
}

/// The regulated action.
#[derive(Clone, Copy, Debug, PartialEq, Eq, Structural)]
pub enum Action {
    Parking,
    Standing,
    Stopping,
}

/// One structured regulation record: the action, whether the sense is
/// inverted ("except ..."), when it applies, for how long, and to which
/// vehicle classes (empty meaning all vehicles).
#[derive(Clone, Debug, PartialEq)]
pub struct ParkingRule {
    pub active_dates: Vec<Date>,
    pub action: Action,
    pub is_inverted: bool,
    pub time_limit: TimeLimit,
    pub exclusive_vehicle_types: Vec<Vehicle>,
}

/// The mathematical value of a `ParkingRule`: the same fields with the owned
/// sequences abstracted to `Seq`.
pub struct ParkingRuleV {
    pub active_dates: Seq<Date>,
    pub action: Action,
    pub is_inverted: bool,
    pub time_limit: TimeLimit,
    pub exclusive_vehicle_types: Seq<Vehicle>,
}

impl View for ParkingRule {
    type V = ParkingRuleV;

    open spec fn view(&self) -> ParkingRuleV {
        ParkingRuleV {
            active_dates: self.active_dates@,
            action: self.action,
            is_inverted: self.is_inverted,
            time_limit: self.time_limit,
            exclusive_vehicle_types: self.exclusive_vehicle_types@,
        }
    }
}

/// The fully unrestricted date: no weekday, hour or month restriction.
pub open spec fn spec_date_all() -> Date {
    Date { weekdays: Span::All, hours: Span::All, months: Span::All }
}

/// Position of a day in the cyclic week order, Sunday = 0.
pub open spec fn day_index(d: Day) -> int {
    match d {
        Day::Sunday => 0,
        Day::Monday => 1,
        Day::Tuesday => 2,
        Day::Wednesday => 3,
        Day::Thursday => 4,
        Day::Friday => 5,
        Day::Saturday => 6,
    }
}

/// The day at a given position in the week, indices taken modulo 7.
pub open spec fn day_of_index(i: int) -> Day {
    let j = i % 7;
    if j == 0 {
        Day::Sunday
    } else if j == 1 {
        Day::Monday
    } else if j == 2 {
        Day::Tuesday
    } else if j == 3 {
        Day::Wednesday
    } else if j == 4 {
        Day::Thursday
    } else if j == 5 {
        Day::Friday
    } else {
        Day::Saturday
    }
}

/// The forward traversal of a day span: the days visited walking cyclically
/// from its start to its end, both inclusive. An unrestricted span visits the
/// whole week starting at Sunday.
pub open spec fn span_days(s: Span<Day>) -> Seq<Day> {
    match s {
        Span::Range(start, end) => Seq::new(
            ((day_index(end) - day_index(start)) % 7 + 1) as nat,
            |i: int| day_of_index(day_index(start) + i),
        ),
        Span::All => Seq::new(7, |i: int| day_of_index(i)),
    }
}

/// The six-day span that starts the day after `d` and ends the day before it.
pub open spec fn spec_span_except(d: Day) -> Span<Day> {
    Span::Range(day_of_index(day_index(d) + 1), day_of_index(day_index(d) + 6))
}

impl Day {
    /// The cyclic complement of a single day: the six-day span that starts
    /// the day after `day` and ends the day before it.
    pub fn span_except(day: Day) -> (r: Span<Day>)
        ensures
            r == spec_span_except(day),
    {
        match day {
            Day::Sunday => Span::Range(Day::Monday, Day::Saturday),
            Day::Monday => Span::Range(Day::Tuesday, Day::Sunday),
            Day::Tuesday => Span::Range(Day::Wednesday, Day::Monday),
            Day::Wednesday => Span::Range(Day::Thursday, Day::Tuesday),
            Day::Thursday => Span::Range(Day::Friday, Day::Wednesday),
            Day::Friday => Span::Range(Day::Saturday, Day::Thursday),
            Day::Saturday => Span::Range(Day::Sunday, Day::Friday),
        }
    }
}

/// Law: the forward traversal of `Day::span_except(d)` has six entries, its
/// entry at position `i` is the day `i + 1` places after `d` (so it starts
/// the day after `d`, and its entries are pairwise distinct), and it visits
/// a day if and only if that day is not `d`.
pub proof fn lemma_span_except_visits_all_but(d: Day)
    ensures
        span_days(spec_span_except(d)).len() == 6,
        forall|i: int|
            0 <= i < 6 ==> #[trigger] span_days(spec_span_except(d))[i] == day_of_index(
                day_index(d) + 1 + i,
            ),
        forall|i: int, j: int|
            0 <= i < 6 && 0 <= j < 6 && i != j ==> #[trigger] span_days(spec_span_except(d))[i]
                != #[trigger] span_days(spec_span_except(d))[j],
        forall|x: Day| span_days(spec_span_except(d)).contains(x) <==> x != d,
{
    let s = span_days(spec_span_except(d));
    assert(s.len() == 6);
    assert forall|i: int, j: int| 0 <= i < 6 && 0 <= j < 6 && i != j implies s[i] != s[j] by {
        assert(s[i] == day_of_index(day_index(d) + 1 + i));
        assert(s[j] == day_of_index(day_index(d) + 1 + j));
        assert((day_index(d) + 1 + i) % 7 != (day_index(d) + 1 + j) % 7);
    }
    assert forall|x: Day| s.contains(x) implies x != d by {
        let i = choose|i: int| 0 <= i < s.len() && s[i] == x;
        assert(s[i] == day_of_index(day_index(d) + 1 + i));
    }
    assert forall|x: Day| x != d implies s.contains(x) by {
        let k = (day_index(x) - day_index(d) - 1) % 7;
        assert(0 <= k < 6);
        assert(s[k] == day_of_index(day_index(d) + 1 + k));
        assert(day_of_index(day_index(d) + 1 + k) == x);
    }
}

} // verus!

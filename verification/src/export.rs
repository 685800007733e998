//! The export marshaler: flattens the owned rule records into an
//! explicitly-bounded form behind an ownership-transfer handle. Every
//! unrestricted axis is materialized into concrete bounds before it crosses
//! the boundary, so the exported records never carry an implicit sentinel.

use vstd::prelude::*;

use crate::analyzer::copy_vec;
use crate::analyzer::rules_view;
use crate::analyzer::spec_rules_of;
use crate::parking::Action;
use crate::parking::Date;
use crate::parking::Day;
use crate::parking::Month;
use crate::parking::ParkingRule;
use crate::parking::ParkingRuleV;
use crate::parking::Span;
use crate::parking::Time;
use crate::parking::TimeLimit;
use crate::parking::Vehicle;
use crate::tree::Node;
use crate::tree::RuleError;
use crate::tree::Tag;

verus! {

use vstd::string::StringSliceAdditionalSpecFns;

/// An ownership-transfer handle: it owns a contiguous buffer of values meant
/// to cross out of the library. The producer relinquishes the buffer when it
/// returns the handle; the consumer releases it exactly once by consuming
/// the handle (`free_rules`, or `into_vec`), and Rust's move discipline makes
/// a second release, or a read after release, impossible.
pub struct Array<T> {
    data: Vec<T>,
}

impl<T> View for Array<T> {
    type V = Seq<T>;

    closed spec fn view(&self) -> Seq<T> {
        self.data@
    }
}

impl<T> Array<T> {
    /// Takes ownership of a buffer, producing the handle that crosses the
    /// boundary.
    pub fn from_vec(data: Vec<T>) -> (r: Array<T>)
        ensures
            r@ == data@,
    {
        Array { data }
    }

    /// The number of values the handle owns.
    pub fn len(&self) -> (n: usize)
        ensures
            n == self@.len(),
    {
        self.data.len()
    }

    /// Reads one owned value without releasing the handle.
    pub fn get(&self, i: usize) -> (r: &T)
        requires
            i < self@.len(),
        ensures
            *r == self@[i as int],
    {
        &self.data[i]
    }

    /// Releases the handle, handing its buffer back; the handle is consumed,
    /// so this happens at most once.
    pub fn into_vec(self) -> (r: Vec<T>)
        ensures
            r@ == self@,
    {
        self.data
    }
}

/// A date flattened to explicit bounds on all three axes.
#[derive(Clone, Copy, Debug, PartialEq, Eq, Structural)]
pub struct CDate {
    pub start_day: Day,
    pub end_day: Day,
    pub start_hour: Time,
    pub end_hour: Time,
    pub start_month: Month,
    pub start_month_day: u8,
    pub end_month: Month,
    pub end_month_day: u8,
}

/// How a date flattens: an unrestricted weekday axis becomes Sunday through
/// Saturday, unrestricted hours become 00:00 through 23:59, and an
/// unrestricted month axis becomes the 1st of January through the 31st of
/// December; a range forwards its own bounds.
pub open spec fn spec_cdate(d: Date) -> CDate {
    CDate {
        start_day: match d.weekdays {
            Span::Range(s, _) => s,
            Span::All => Day::Sunday,
        },
        end_day: match d.weekdays {
            Span::Range(_, e) => e,
            Span::All => Day::Saturday,
        },
        start_hour: match d.hours {
            Span::Range(s, _) => s,
            Span::All => Time { hours: 0, minutes: 0 },
        },
        end_hour: match d.hours {
            Span::Range(_, e) => e,
            Span::All => Time { hours: 23, minutes: 59 },
        },
        start_month: match d.months {
            Span::Range((_, s), _) => s,
            Span::All => Month::January,
        },
        start_month_day: match d.months {
            Span::Range((s, _), _) => s,
            Span::All => 1,
        },
        end_month: match d.months {
            Span::Range(_, (_, e)) => e,
            Span::All => Month::December,
        },
        end_month_day: match d.months {
            Span::Range(_, (e, _)) => e,
            Span::All => 31,
        },
    }
}

impl CDate {
    /// Flattens one date into explicit bounds.
    pub fn from_date(date: &Date) -> (r: CDate)
        ensures
            r == spec_cdate(*date),
    {
        CDate {
            start_day: match date.weekdays {
                Span::Range(start, _) => start,
                Span::All => Day::Sunday,
            },
            end_day: match date.weekdays {
                Span::Range(_, end) => end,
                Span::All => Day::Saturday,
            },
            start_hour: match date.hours {
                Span::Range(start, _) => start,
                Span::All => Time { hours: 0, minutes: 0 },
            },
            end_hour: match date.hours {
                Span::Range(_, end) => end,
                Span::All => Time { hours: 23, minutes: 59 },
            },
            start_month: match date.months {
                Span::Range((_, start), _) => start,
                Span::All => Month::January,
            },
            start_month_day: match date.months {
                Span::Range((start, _), _) => start,
                Span::All => 1,
            },
            end_month: match date.months {
                Span::Range(_, (_, end)) => end,
                Span::All => Month::December,
            },
            end_month_day: match date.months {
                Span::Range(_, (end, _)) => end,
                Span::All => 31,
            },
        }
    }
}

/// Law: a date whose weekday axis is unrestricted always flattens to
/// explicit Sunday..Saturday bounds, whatever the other axes hold.
pub proof fn lemma_flatten_all_weekdays(d: Date)
    requires
        d.weekdays is All,
    ensures
        spec_cdate(d).start_day == Day::Sunday,
        spec_cdate(d).end_day == Day::Saturday,
{
}

/// A time limit flattened to whole minutes; zero means no limit.
pub struct CTimeLimit {
    minutes: u16,
}

impl View for CTimeLimit {
    type V = u16;

    closed spec fn view(&self) -> u16 {
        self.minutes
    }
}

impl CTimeLimit {
    /// The flattened minute count; zero means no limit.
    pub fn minutes(&self) -> (m: u16)
        ensures
            m == self@,
    {
        self.minutes
    }
}

/// How a time limit flattens: a finite limit keeps its minutes, no limit
/// becomes zero.
pub open spec fn spec_climit(l: TimeLimit) -> u16 {
    match l {
        TimeLimit::Minutes(m) => m,
        TimeLimit::Infinite => 0,
    }
}

/// One flattened rule record: the same fields as `ParkingRule`, with every
/// date flattened and both owned sequences behind their own handles.
pub struct CParkingRule {
    pub active_dates: Array<CDate>,
    pub action: Action,
    pub is_inverted: bool,
    pub time_limit: CTimeLimit,
    pub exclusive_vehicle_types: Array<Vehicle>,
}

/// The mathematical value of a flattened rule.
pub struct CParkingRuleV {
    pub active_dates: Seq<CDate>,
    pub action: Action,
    pub is_inverted: bool,
    pub time_limit_minutes: u16,
    pub exclusive_vehicle_types: Seq<Vehicle>,
}

impl View for CParkingRule {
    type V = CParkingRuleV;

    open spec fn view(&self) -> CParkingRuleV {
        CParkingRuleV {
            active_dates: self.active_dates@,
            action: self.action,
            is_inverted: self.is_inverted,
            time_limit_minutes: self.time_limit@,
            exclusive_vehicle_types: self.exclusive_vehicle_types@,
        }
    }
}

/// How one rule flattens: each date is flattened in order, the time limit
/// becomes minutes, and the other fields are forwarded unchanged.
pub open spec fn spec_crule(r: ParkingRuleV) -> CParkingRuleV {
    CParkingRuleV {
        active_dates: r.active_dates.map(|i: int, d: Date| spec_cdate(d)),
        action: r.action,
        is_inverted: r.is_inverted,
        time_limit_minutes: spec_climit(r.time_limit),
        exclusive_vehicle_types: r.exclusive_vehicle_types,
    }
}

/// How a rule sequence flattens: one flattened record per rule, in order.
pub open spec fn spec_marshal(rs: Seq<ParkingRuleV>) -> Seq<CParkingRuleV> {
    rs.map(|i: int, r: ParkingRuleV| spec_crule(r))
}

/// The mathematical values of a sequence of flattened rules.
pub open spec fn crules_view(s: Seq<CParkingRule>) -> Seq<CParkingRuleV> {
    s.map(|i: int, c: CParkingRule| c@)
}

/// Flattens one rule record.
pub fn marshal_rule(rule: &ParkingRule) -> (c: CParkingRule)
    ensures
        c@ == spec_crule(rule@),
{
    let dates = &rule.active_dates;
    let mut flat: Vec<CDate> = Vec::new();
    let mut i: usize = 0;
    proof {
        assert(flat@ =~= dates@.take(0).map(|k: int, d: Date| spec_cdate(d)));
    }
    while i < dates.len()
        invariant
            0 <= i <= dates@.len(),
            dates@ == rule.active_dates@,
            flat@ == dates@.take(i as int).map(|k: int, d: Date| spec_cdate(d)),
        decreases dates@.len() - i,
    {
        flat.push(CDate::from_date(&dates[i]));
        proof {
            assert(flat@ =~= dates@.take(i + 1).map(|k: int, d: Date| spec_cdate(d)));
        }
        i += 1;
    }
    proof {
        assert(dates@.take(dates@.len() as int) =~= dates@);
    }
    let c = CParkingRule {
        active_dates: Array::from_vec(flat),
        action: rule.action,
        is_inverted: rule.is_inverted,
        time_limit: match rule.time_limit {
            TimeLimit::Minutes(mins) => CTimeLimit { minutes: mins },
            TimeLimit::Infinite => CTimeLimit { minutes: 0 },
        },
        exclusive_vehicle_types: Array::from_vec(copy_vec(&rule.exclusive_vehicle_types)),
    };
    c
}

/// Flattens a whole rule sequence into the handle that crosses the boundary.
pub fn marshal_rules(rules: &Vec<ParkingRule>) -> (arr: Array<CParkingRule>)
    ensures
        crules_view(arr@) == spec_marshal(rules_view(rules@)),
{
    let mut out: Vec<CParkingRule> = Vec::new();
    let mut i: usize = 0;
    while i < rules.len()
        invariant
            0 <= i <= rules@.len(),
            out@.len() == i as int,
            forall|k: int| 0 <= k < i ==> (#[trigger] out@[k])@ == spec_crule(rules@[k]@),
        decreases rules@.len() - i,
    {
        out.push(marshal_rule(&rules[i]));
        i += 1;
    }
    proof {
        assert forall|k: int| 0 <= k < rules@.len() implies crules_view(out@)[k] == spec_marshal(
            rules_view(rules@),
        )[k] by {
            assert(crules_view(out@)[k] == out@[k]@);
            assert(rules_view(rules@)[k] == rules@[k]@);
            assert(spec_marshal(rules_view(rules@))[k] == spec_crule(rules_view(rules@)[k]));
        }
        assert(crules_view(out@) =~= spec_marshal(rules_view(rules@)));
    }
    Array::from_vec(out)
}

/// Parses an input string and returns its flattened rules behind an
/// ownership-transfer handle; the caller must release the handle exactly
/// once with `free_rules`. On success the handle holds exactly the
/// flattening of the rules some top-level parse tree denotes.
pub fn rules_from_str(input: &str) -> (r: Result<Array<CParkingRule>, RuleError>)
    ensures
        match r {
            Ok(arr) => exists|t: Node|
                (#[trigger] spec_rules_of(t)) matches Ok(rs) && crules_view(arr@) == spec_marshal(
                    rs,
                ) && t.tag == Tag::Base,
            Err(e) => e == RuleError::Parse || exists|t: Node|
                (#[trigger] spec_rules_of(t)) == Err::<Seq<ParkingRuleV>, RuleError>(e),
        },
        input.spec_bytes().len() == 0 ==> (r matches Ok(arr) && arr@.len() == 0),
{
    let rules = match crate::parse_str(input) {
        Ok(v) => v,
        Err(e) => {
            return Err(e);
        },
    };
    let arr = marshal_rules(&rules);
    proof {
        if input.spec_bytes().len() == 0 {
            assert(crules_view(arr@).len() == arr@.len());
            assert(spec_marshal(rules_view(rules@)).len() == rules_view(rules@).len());
            assert(rules_view(rules@).len() == rules@.len());
        }
        let t = choose|t: Node|
            (#[trigger] spec_rules_of(t)) == Ok::<Seq<ParkingRuleV>, RuleError>(
                rules_view(rules@),
            ) && t.tag == Tag::Base;
        assert(spec_rules_of(t) matches Ok(rs) && crules_view(arr@) == spec_marshal(rs)
            && t.tag == Tag::Base);
    }
    Ok(arr)
}

/// Releases the handle `rules_from_str` returned, and with it every nested
/// buffer inside each flattened rule. The handle is consumed: releasing it a
/// second time, or reading it after release, is refused by the type system,
/// so one call per handle is exactly the required discipline.
pub fn free_rules(rules: Array<CParkingRule>) {
    let _ = rules.into_vec();
}

} // verus!

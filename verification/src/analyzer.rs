//! The semantic analyzer: walks a parse tree node by node and builds the
//! domain model. Every function mirrors a spec function that states exactly
//! which value (or which error) each tree shape yields.

use vstd::prelude::*;

use crate::parking::Action;
use crate::parking::Date;
use crate::parking::Day;
use crate::parking::Month;
use crate::parking::ParkingRule;
use crate::parking::ParkingRuleV;
use crate::parking::TimeLimit;
use crate::parking::Vehicle;
use crate::parking::spec_date_all;
use crate::parking::spec_span_except;
use crate::parking::Span;
use crate::parking::Time;
use crate::tree::Node;
use crate::tree::RuleError;
use crate::tree::Tag;

verus! {

/// ASCII codes the token text is read against.
pub const DIGIT_ZERO: u8 = 48;

pub const DIGIT_NINE: u8 = 57;

pub const UPPER_A: u8 = 65;

pub const UPPER_Z: u8 = 90;

pub const LOWER_P: u8 = 112;

pub const LOWER_M: u8 = 109;

// ---------------------------------------------------------------------------
// Numeric tokens
// ---------------------------------------------------------------------------

/// Whether a byte is an ASCII decimal digit.
pub open spec fn is_digit(b: u8) -> bool {
    DIGIT_ZERO <= b <= DIGIT_NINE
}

/// Whether every byte of `s` is an ASCII decimal digit.
pub open spec fn all_digits(s: Seq<u8>) -> bool {
    forall|i: int| 0 <= i < s.len() ==> is_digit(#[trigger] s[i])
}

/// The number a digit string denotes, most significant digit first.
pub open spec fn digits_val(s: Seq<u8>) -> nat
    decreases s.len(),
{
    if s.len() == 0 {
        0
    } else {
        digits_val(s.drop_last()) * 10 + (if s.last() >= DIGIT_ZERO {
            (s.last() - DIGIT_ZERO) as nat
        } else {
            0
        })
    }
}

/// Whether `s` is a non-empty digit string whose value is at most `max`.
pub open spec fn number_ok(s: Seq<u8>, max: int) -> bool {
    s.len() > 0 && all_digits(s) && digits_val(s) <= max
}

proof fn lemma_digits_val_grows(s: Seq<u8>, i: int, j: int)
    requires
        0 <= i <= j <= s.len(),
    ensures
        digits_val(s.take(i)) <= digits_val(s.take(j)),
    decreases j - i,
{
    if i < j {
        lemma_digits_val_grows(s, i, j - 1);
        assert(s.take(j).drop_last() =~= s.take(j - 1));
    }
}

/// Reads a digit-run token as a number; empty or non-digit text, or a value
/// above `max`, is a fatal conversion error.
fn parse_number(text: &[u8], max: u16) -> (r: Result<u16, RuleError>)
    ensures
        number_ok(text@, max as int) ==> r == Ok::<u16, RuleError>(digits_val(text@) as u16),
        !number_ok(text@, max as int) ==> r == Err::<u16, RuleError>(RuleError::FieldConversion),
{
    if text.len() == 0 {
        return Err(RuleError::FieldConversion);
    }
    let mut acc: u32 = 0;
    let mut i: usize = 0;
    while i < text.len()
        invariant
            0 <= i <= text@.len(),
            acc == digits_val(text@.take(i as int)),
            acc <= max,
            max <= u16::MAX,
            forall|k: int| 0 <= k < i ==> is_digit(#[trigger] text@[k]),
        decreases text@.len() - i,
    {
        let b = text[i];
        if b < DIGIT_ZERO || b > DIGIT_NINE {
            return Err(RuleError::FieldConversion);
        }
        proof {
            assert(text@.take(i + 1).drop_last() =~= text@.take(i as int));
        }
        let next: u32 = acc * 10 + (b - DIGIT_ZERO) as u32;
        if next > max as u32 {
            proof {
                lemma_digits_val_grows(text@, i + 1, text@.len() as int);
                assert(text@.take(text@.len() as int) =~= text@);
            }
            return Err(RuleError::FieldConversion);
        }
        acc = next;
        i += 1;
    }
    proof {
        assert(text@.take(text@.len() as int) =~= text@);
    }
    Ok(acc as u16)
}

// ---------------------------------------------------------------------------
// Day and month leaves
// ---------------------------------------------------------------------------

/// The day a day-name tag denotes; any other tag is a structural violation.
pub open spec fn spec_day_from_tag(t: Tag) -> Result<Day, RuleError> {
    match t {
        Tag::Sunday => Ok(Day::Sunday),
        Tag::Monday => Ok(Day::Monday),
        Tag::Tuesday => Ok(Day::Tuesday),
        Tag::Wednesday => Ok(Day::Wednesday),
        Tag::Thursday => Ok(Day::Thursday),
        Tag::Friday => Ok(Day::Friday),
        Tag::Saturday => Ok(Day::Saturday),
        _ => Err(RuleError::StructuralInvariant),
    }
}

/// The month a month-name tag denotes; any other tag is a structural
/// violation.
pub open spec fn spec_month_from_tag(t: Tag) -> Result<Month, RuleError> {
    match t {
        Tag::January => Ok(Month::January),
        Tag::February => Ok(Month::February),
        Tag::March => Ok(Month::March),
        Tag::April => Ok(Month::April),
        Tag::May => Ok(Month::May),
        Tag::June => Ok(Month::June),
        Tag::July => Ok(Month::July),
        Tag::August => Ok(Month::August),
        Tag::September => Ok(Month::September),
        Tag::October => Ok(Month::October),
        Tag::November => Ok(Month::November),
        Tag::December => Ok(Month::December),
        _ => Err(RuleError::StructuralInvariant),
    }
}

impl Day {
    /// Looks a day-name leaf up by its tag.
    pub fn from_pair(pair: &Node) -> (r: Result<Day, RuleError>)
        ensures
            r == spec_day_from_tag(pair.tag),
    {
        match pair.tag {
            Tag::Sunday => Ok(Day::Sunday),
            Tag::Monday => Ok(Day::Monday),
            Tag::Tuesday => Ok(Day::Tuesday),
            Tag::Wednesday => Ok(Day::Wednesday),
            Tag::Thursday => Ok(Day::Thursday),
            Tag::Friday => Ok(Day::Friday),
            Tag::Saturday => Ok(Day::Saturday),
            _ => Err(RuleError::StructuralInvariant),
        }
    }
}

impl Month {
    /// Looks a month-name leaf up by its tag.
    pub fn from_pair(pair: &Node) -> (r: Result<Month, RuleError>)
        ensures
            r == spec_month_from_tag(pair.tag),
    {
        match pair.tag {
            Tag::January => Ok(Month::January),
            Tag::February => Ok(Month::February),
            Tag::March => Ok(Month::March),
            Tag::April => Ok(Month::April),
            Tag::May => Ok(Month::May),
            Tag::June => Ok(Month::June),
            Tag::July => Ok(Month::July),
            Tag::August => Ok(Month::August),
            Tag::September => Ok(Month::September),
            Tag::October => Ok(Month::October),
            Tag::November => Ok(Month::November),
            Tag::December => Ok(Month::December),
            _ => Err(RuleError::StructuralInvariant),
        }
    }
}

/// The day named by the first child of a single-day wrapper node.
pub open spec fn spec_day_of_day_node(n: Node) -> Result<Day, RuleError> {
    if n.children@.len() == 0 {
        Err(RuleError::StructuralInvariant)
    } else {
        spec_day_from_tag(n.children@[0].tag)
    }
}

/// The month named by the first child of a single-month wrapper node.
pub open spec fn spec_month_of_month_node(n: Node) -> Result<Month, RuleError> {
    if n.children@.len() == 0 {
        Err(RuleError::StructuralInvariant)
    } else {
        spec_month_from_tag(n.children@[0].tag)
    }
}

fn day_of_day_node(n: &Node) -> (r: Result<Day, RuleError>)
    ensures
        r == spec_day_of_day_node(*n),
{
    if n.children.len() == 0 {
        Err(RuleError::StructuralInvariant)
    } else {
        Day::from_pair(&n.children[0])
    }
}

fn month_of_month_node(n: &Node) -> (r: Result<Month, RuleError>)
    ensures
        r == spec_month_of_month_node(*n),
{
    if n.children.len() == 0 {
        Err(RuleError::StructuralInvariant)
    } else {
        Month::from_pair(&n.children[0])
    }
}

// ---------------------------------------------------------------------------
// Times of day
// ---------------------------------------------------------------------------

/// Lower-case an ASCII byte.
pub open spec fn spec_lower_byte(b: u8) -> u8 {
    if UPPER_A <= b <= UPPER_Z {
        (b + 32) as u8
    } else {
        b
    }
}

/// Whether a meridiem token reads "pm", ignoring ASCII case.
pub open spec fn is_pm_text(s: Seq<u8>) -> bool {
    s.map(|i: int, b: u8| spec_lower_byte(b)) == seq![LOWER_P, LOWER_M]
}

fn lower_byte(b: u8) -> (r: u8)
    ensures
        r == spec_lower_byte(b),
{
    if UPPER_A <= b && b <= UPPER_Z {
        b + 32
    } else {
        b
    }
}

fn text_is_pm(text: &[u8]) -> (r: bool)
    ensures
        r == is_pm_text(text@),
{
    let r = text.len() == 2 && lower_byte(text[0]) == LOWER_P && lower_byte(text[1]) == LOWER_M;
    proof {
        let m = text@.map(|i: int, b: u8| spec_lower_byte(b));
        if r {
            assert(m =~= seq![LOWER_P, LOWER_M]);
        } else {
            if m == seq![LOWER_P, LOWER_M] {
                assert(m.len() == 2);
                assert(m[0] == LOWER_P && m[1] == LOWER_M);
            }
        }
    }
    r
}

/// One step of time accumulation: how a single child token changes the
/// (hours, minutes) gathered so far. The time-of-day fields range over hours
/// 0..=23 and minutes 0..=59; a token outside its field's range, or an hour
/// that a "pm" marker would push past 23, is a conversion error, so every
/// time the accumulation yields stays within those ranges.
pub open spec fn spec_time_step(acc: Time, c: Node) -> Result<Time, RuleError> {
    match c.tag {
        Tag::Hours => if number_ok(c.text@, 23) {
            Ok(Time { hours: digits_val(c.text@) as u8, minutes: acc.minutes })
        } else {
            Err(RuleError::FieldConversion)
        },
        Tag::Minutes => if number_ok(c.text@, 59) {
            Ok(Time { hours: acc.hours, minutes: digits_val(c.text@) as u8 })
        } else {
            Err(RuleError::FieldConversion)
        },
        Tag::Meridiem => if is_pm_text(c.text@) {
            if acc.hours + 12 <= 23 {
                Ok(Time { hours: (acc.hours + 12) as u8, minutes: acc.minutes })
            } else {
                Err(RuleError::FieldConversion)
            }
        } else {
            Ok(acc)
        },
        Tag::Midday => Ok(Time { hours: 12, minutes: 0 }),
        Tag::Midnight => Ok(Time { hours: 0, minutes: 0 }),
        _ => Err(RuleError::StructuralInvariant),
    }
}

/// Accumulate time components left to right, starting from `acc`.
pub open spec fn spec_time_fold(cs: Seq<Node>, acc: Time) -> Result<Time, RuleError>
    decreases cs.len(),
{
    if cs.len() == 0 {
        Ok(acc)
    } else {
        match spec_time_step(acc, cs[0]) {
            Ok(acc2) => spec_time_fold(cs.skip(1), acc2),
            Err(e) => Err(e),
        }
    }
}

/// The time a time node denotes: its children folded over {0, 0}.
pub open spec fn spec_process_time(n: Node) -> Result<Time, RuleError> {
    spec_time_fold(n.children@, Time { hours: 0, minutes: 0 })
}

/// Time accumulation fails only on conversion or structure, never with a
/// parse error.
pub proof fn lemma_time_fold_no_parse(cs: Seq<Node>, acc: Time)
    ensures
        spec_time_fold(cs, acc) != Err::<Time, RuleError>(RuleError::Parse),
    decreases cs.len(),
{
    if cs.len() > 0 {
        match spec_time_step(acc, cs[0]) {
            Ok(a2) => {
                lemma_time_fold_no_parse(cs.skip(1), a2);
            },
            Err(e) => {
                assert(e != RuleError::Parse);
            },
        }
    }
}

/// Law: time accumulation keeps the time-of-day domain: starting from a time
/// with hours 0..=23 and minutes 0..=59, every time it yields is in the same
/// ranges. In particular every time a time node denotes is a valid time of
/// day.
pub proof fn lemma_time_fold_wf(cs: Seq<Node>, acc: Time)
    requires
        acc.wf(),
    ensures
        spec_time_fold(cs, acc) matches Ok(t) ==> t.wf(),
    decreases cs.len(),
{
    if cs.len() > 0 {
        match spec_time_step(acc, cs[0]) {
            Ok(acc2) => {
                assert(acc2.wf());
                lemma_time_fold_wf(cs.skip(1), acc2);
            },
            Err(_) => {},
        }
    }
}

/// Builds a time of day from a time node's child tokens, in any order the
/// grammar permits: `hours` and `minutes` set their fields, "pm" adds twelve
/// to the hour set so far, midday and midnight force 12:00 and 00:00, and
/// unset fields stay zero.
pub fn process_time(node: &Node) -> (r: Result<Time, RuleError>)
    ensures
        r == spec_process_time(*node),
{
    let mut acc = Time { hours: 0, minutes: 0 };
    let cs = &node.children;
    let mut i: usize = 0;
    proof {
        assert(cs@.skip(0) =~= cs@);
    }
    while i < cs.len()
        invariant
            0 <= i <= cs@.len(),
            spec_process_time(*node) == spec_time_fold(cs@.skip(i as int), acc),
            cs@ == node.children@,
        decreases cs@.len() - i,
    {
        proof {
            assert(cs@.skip(i as int)[0] == cs@[i as int]);
            assert(cs@.skip(i as int).skip(1) =~= cs@.skip(i as int + 1));
        }
        let c = &cs[i];
        match c.tag {
            Tag::Hours => {
                match parse_number(c.text.as_slice(), 23) {
                    Ok(v) => {
                        acc = Time { hours: v as u8, minutes: acc.minutes };
                    },
                    Err(e) => {
                        return Err(e);
                    },
                }
            },
            Tag::Minutes => {
                match parse_number(c.text.as_slice(), 59) {
                    Ok(v) => {
                        acc = Time { hours: acc.hours, minutes: v as u8 };
                    },
                    Err(e) => {
                        return Err(e);
                    },
                }
            },
            Tag::Meridiem => {
                if text_is_pm(c.text.as_slice()) {
                    if acc.hours <= 11 {
                        acc = Time { hours: acc.hours + 12, minutes: acc.minutes };
                    } else {
                        return Err(RuleError::FieldConversion);
                    }
                }
            },
            Tag::Midday => {
                acc = Time { hours: 12, minutes: 0 };
            },
            Tag::Midnight => {
                acc = Time { hours: 0, minutes: 0 };
            },
            _ => {
                return Err(RuleError::StructuralInvariant);
            },
        }
        i += 1;
    }
    Ok(acc)
}

// ---------------------------------------------------------------------------
// Day and month lists
// ---------------------------------------------------------------------------

/// The day span one entry of an enumerated day list denotes: a single day,
/// the school-days keyword, or the all-days keyword.
pub open spec fn spec_day_entry(c: Node) -> Result<Span<Day>, RuleError> {
    match c.tag {
        Tag::DayNode => match spec_day_of_day_node(c) {
            Ok(d) => Ok(Span::Range(d, d)),
            Err(e) => Err(e),
        },
        Tag::School => Ok(Span::Range(Day::Monday, Day::Friday)),
        Tag::AllDays => Ok(Span::<Day>::All),
        _ => Err(RuleError::StructuralInvariant),
    }
}

/// The day spans an enumerated day list denotes, leftmost error first.
pub open spec fn spec_days_list(cs: Seq<Node>) -> Result<Seq<Span<Day>>, RuleError>
    decreases cs.len(),
{
    if cs.len() == 0 {
        Ok(Seq::empty())
    } else {
        match spec_days_list(cs.drop_last()) {
            Ok(init) => match spec_day_entry(cs.last()) {
                Ok(h) => Ok(init.push(h)),
                Err(e) => Err(e),
            },
            Err(e) => Err(e),
        }
    }
}

proof fn lemma_days_list_prefix_err(cs: Seq<Node>, i: int)
    requires
        0 <= i <= cs.len(),
        spec_days_list(cs.take(i)) is Err,
    ensures
        spec_days_list(cs) == spec_days_list(cs.take(i)),
    decreases cs.len() - i,
{
    if i < cs.len() {
        assert(cs.drop_last().take(i) =~= cs.take(i));
        lemma_days_list_prefix_err(cs.drop_last(), i);
    } else {
        assert(cs.take(i) =~= cs);
    }
}

/// Turns an enumerated day list into one span per entry: a named day becomes
/// the one-day range on itself, the school-days keyword becomes
/// Monday..Friday, and the all-days keyword becomes an unrestricted span.
pub fn process_days(node: &Node) -> (r: Result<Vec<Span<Day>>, RuleError>)
    ensures
        match r {
            Ok(v) => spec_days_list(node.children@) == Ok::<Seq<Span<Day>>, RuleError>(v@),
            Err(e) => spec_days_list(node.children@) == Err::<Seq<Span<Day>>, RuleError>(e),
        },
{
    let cs = &node.children;
    let mut out: Vec<Span<Day>> = Vec::new();
    let mut i: usize = 0;
    proof {
        assert(cs@.take(0) =~= Seq::<Node>::empty());
    }
    while i < cs.len()
        invariant
            0 <= i <= cs@.len(),
            spec_days_list(cs@.take(i as int)) == Ok::<Seq<Span<Day>>, RuleError>(out@),
            cs@ == node.children@,
        decreases cs@.len() - i,
    {
        proof {
            assert(cs@.take(i + 1).drop_last() =~= cs@.take(i as int));
            assert(cs@.take(i + 1).last() == cs@[i as int]);
        }
        let c = &cs[i];
        let entry = match c.tag {
            Tag::DayNode => {
                match day_of_day_node(c) {
                    Ok(d) => Span::Range(d, d),
                    Err(e) => {
                        proof {
                            lemma_days_list_prefix_err(cs@, i + 1);
                        }
                        return Err(e);
                    },
                }
            },
            Tag::School => Span::Range(Day::Monday, Day::Friday),
            Tag::AllDays => Span::All,
            _ => {
                proof {
                    lemma_days_list_prefix_err(cs@, i + 1);
                }
                return Err(RuleError::StructuralInvariant);
            },
        };
        out.push(entry);
        i += 1;
    }
    proof {
        assert(cs@.take(cs@.len() as int) =~= cs@);
    }
    Ok(out)
}

/// The months an enumerated month list denotes, leftmost error first.
pub open spec fn spec_months_list(cs: Seq<Node>) -> Result<Seq<Month>, RuleError>
    decreases cs.len(),
{
    if cs.len() == 0 {
        Ok(Seq::empty())
    } else {
        match spec_months_list(cs.drop_last()) {
            Ok(init) => if cs.last().tag == Tag::MonthNode {
                match spec_month_of_month_node(cs.last()) {
                    Ok(m) => Ok(init.push(m)),
                    Err(e) => Err(e),
                }
            } else {
                Err(RuleError::StructuralInvariant)
            },
            Err(e) => Err(e),
        }
    }
}

proof fn lemma_months_list_prefix_err(cs: Seq<Node>, i: int)
    requires
        0 <= i <= cs.len(),
        spec_months_list(cs.take(i)) is Err,
    ensures
        spec_months_list(cs) == spec_months_list(cs.take(i)),
    decreases cs.len() - i,
{
    if i < cs.len() {
        assert(cs.drop_last().take(i) =~= cs.take(i));
        lemma_months_list_prefix_err(cs.drop_last(), i);
    } else {
        assert(cs.take(i) =~= cs);
    }
}

/// Reads an enumerated month list: each entry must be a single-month node.
pub fn process_months(node: &Node) -> (r: Result<Vec<Month>, RuleError>)
    ensures
        match r {
            Ok(v) => spec_months_list(node.children@) == Ok::<Seq<Month>, RuleError>(v@),
            Err(e) => spec_months_list(node.children@) == Err::<Seq<Month>, RuleError>(e),
        },
{
    let cs = &node.children;
    let mut out: Vec<Month> = Vec::new();
    let mut i: usize = 0;
    proof {
        assert(cs@.take(0) =~= Seq::<Node>::empty());
    }
    while i < cs.len()
        invariant
            0 <= i <= cs@.len(),
            spec_months_list(cs@.take(i as int)) == Ok::<Seq<Month>, RuleError>(out@),
            cs@ == node.children@,
        decreases cs@.len() - i,
    {
        proof {
            assert(cs@.take(i + 1).drop_last() =~= cs@.take(i as int));
            assert(cs@.take(i + 1).last() == cs@[i as int]);
        }
        let c = &cs[i];
        match c.tag {
            Tag::MonthNode => {
                match month_of_month_node(c) {
                    Ok(m) => {
                        out.push(m);
                    },
                    Err(e) => {
                        proof {
                            lemma_months_list_prefix_err(cs@, i + 1);
                        }
                        return Err(e);
                    },
                }
            },
            _ => {
                proof {
                    lemma_months_list_prefix_err(cs@, i + 1);
                }
                return Err(RuleError::StructuralInvariant);
            },
        }
        i += 1;
    }
    proof {
        assert(cs@.take(cs@.len() as int) =~= cs@);
    }
    Ok(out)
}

// ---------------------------------------------------------------------------
// Day, month and time ranges
// ---------------------------------------------------------------------------

/// The day spans a day-range node denotes: an explicit two-day pair becomes
/// one cyclic range, an enumerated list becomes one span per entry.
pub open spec fn spec_process_day_range(n: Node) -> Result<Seq<Span<Day>>, RuleError> {
    let cs = n.children@;
    if cs.len() == 0 {
        Err(RuleError::StructuralInvariant)
    } else {
        match cs[0].tag {
            Tag::DayNode => match spec_day_of_day_node(cs[0]) {
                Err(e) => Err(e),
                Ok(start) => if cs.len() < 2 {
                    Err(RuleError::StructuralInvariant)
                } else {
                    match spec_day_of_day_node(cs[1]) {
                        Err(e) => Err(e),
                        Ok(end) => Ok(seq![Span::Range(start, end)]),
                    }
                },
            },
            Tag::Days => spec_days_list(cs[0].children@),
            _ => Err(RuleError::StructuralInvariant),
        }
    }
}

/// Reads a day-range node: either an explicit start/end pair of days, or an
/// enumerated day list.
pub fn process_day_range(node: &Node) -> (r: Result<Vec<Span<Day>>, RuleError>)
    ensures
        match r {
            Ok(v) => spec_process_day_range(*node) == Ok::<Seq<Span<Day>>, RuleError>(v@),
            Err(e) => spec_process_day_range(*node) == Err::<Seq<Span<Day>>, RuleError>(e),
        },
{
    let cs = &node.children;
    if cs.len() == 0 {
        return Err(RuleError::StructuralInvariant);
    }
    let first = &cs[0];
    match first.tag {
        Tag::DayNode => {
            let start = match day_of_day_node(first) {
                Ok(d) => d,
                Err(e) => {
                    return Err(e);
                },
            };
            if cs.len() < 2 {
                return Err(RuleError::StructuralInvariant);
            }
            let end = match day_of_day_node(&cs[1]) {
                Ok(d) => d,
                Err(e) => {
                    return Err(e);
                },
            };
            let mut out: Vec<Span<Day>> = Vec::new();
            out.push(Span::Range(start, end));
            proof {
                assert(out@ =~= seq![Span::<Day>::Range(start, end)]);
            }
            Ok(out)
        },
        Tag::Days => process_days(first),
        _ => Err(RuleError::StructuralInvariant),
    }
}

/// The month span a single month denotes: the whole month, day-of-month 1
/// through 31.
pub open spec fn spec_whole_month(m: Month) -> Span<(u8, Month)> {
    Span::Range((1u8, m), (31u8, m))
}

/// The month spans a month-range node denotes: an explicit two-month pair
/// becomes one whole-month-granularity range, an enumerated list becomes one
/// whole-month span per entry.
pub open spec fn spec_process_month_range(n: Node) -> Result<Seq<Span<(u8, Month)>>, RuleError> {
    let cs = n.children@;
    if cs.len() == 0 {
        Err(RuleError::StructuralInvariant)
    } else {
        match cs[0].tag {
            Tag::MonthNode => match spec_month_of_month_node(cs[0]) {
                Err(e) => Err(e),
                Ok(start) => if cs.len() < 2 {
                    Err(RuleError::StructuralInvariant)
                } else {
                    match spec_month_of_month_node(cs[1]) {
                        Err(e) => Err(e),
                        Ok(end) => Ok(seq![Span::Range((1u8, start), (31u8, end))]),
                    }
                },
            },
            Tag::Months => match spec_months_list(cs[0].children@) {
                Ok(ms) => Ok(ms.map(|i: int, m: Month| spec_whole_month(m))),
                Err(e) => Err(e),
            },
            _ => Err(RuleError::StructuralInvariant),
        }
    }
}

/// Reads a month-range node: an explicit start/end pair of months at
/// whole-month granularity, or an enumerated month list.
pub fn process_month_range(node: &Node) -> (r: Result<Vec<Span<(u8, Month)>>, RuleError>)
    ensures
        match r {
            Ok(v) => spec_process_month_range(*node) == Ok::<Seq<Span<(u8, Month)>>, RuleError>(
                v@,
            ),
            Err(e) => spec_process_month_range(*node) == Err::<Seq<Span<(u8, Month)>>, RuleError>(
                e,
            ),
        },
{
    let cs = &node.children;
    if cs.len() == 0 {
        return Err(RuleError::StructuralInvariant);
    }
    let first = &cs[0];
    match first.tag {
        Tag::MonthNode => {
            let start = match month_of_month_node(first) {
                Ok(m) => m,
                Err(e) => {
                    return Err(e);
                },
            };
            if cs.len() < 2 {
                return Err(RuleError::StructuralInvariant);
            }
            let end = match month_of_month_node(&cs[1]) {
                Ok(m) => m,
                Err(e) => {
                    return Err(e);
                },
            };
            let mut out: Vec<Span<(u8, Month)>> = Vec::new();
            out.push(Span::Range((1u8, start), (31u8, end)));
            proof {
                assert(out@ =~= seq![Span::<(u8, Month)>::Range((1u8, start), (31u8, end))]);
            }
            Ok(out)
        },
        Tag::Months => {
            let months = match process_months(first) {
                Ok(v) => v,
                Err(e) => {
                    return Err(e);
                },
            };
            let ghost ms = months@;
            let mut out: Vec<Span<(u8, Month)>> = Vec::new();
            let mut i: usize = 0;
            while i < months.len()
                invariant
                    0 <= i <= ms.len(),
                    months@ == ms,
                    out@ =~= ms.take(i as int).map(|k: int, m: Month| spec_whole_month(m)),
                decreases ms.len() - i,
            {
                out.push(Span::Range((1u8, months[i]), (31u8, months[i])));
                proof {
                    assert(out@ =~= ms.take(i + 1).map(|k: int, m: Month| spec_whole_month(m)));
                }
                i += 1;
            }
            proof {
                assert(ms.take(ms.len() as int) =~= ms);
            }
            Ok(out)
        },
        _ => Err(RuleError::StructuralInvariant),
    }
}

/// The index just past the run of digit children that starts at `from`.
pub open spec fn digit_run_end(cs: Seq<Node>, from: int) -> int
    decreases cs.len() - from when 0 <= from <= cs.len()
{
    if from >= cs.len() {
        from
    } else if cs[from].tag == Tag::Digit {
        digit_run_end(cs, from + 1)
    } else {
        from
    }
}

/// The texts of the children with indices `from..to`, concatenated.
pub open spec fn concat_texts(cs: Seq<Node>, from: int, to: int) -> Seq<u8>
    decreases to - from when from <= to
{
    if from >= to {
        Seq::empty()
    } else {
        concat_texts(cs, from, to - 1) + cs[to - 1].text@
    }
}

/// The hour span a time-range node denotes: an explicit start/end time pair;
/// or a bare run of leading digit tokens read as the start hour (minutes
/// zero) followed by a node read as the end time; or the anytime keyword,
/// which leaves the hours unrestricted.
pub open spec fn spec_process_time_range(n: Node) -> Result<Span<Time>, RuleError> {
    let cs = n.children@;
    if cs.len() == 0 {
        Err(RuleError::StructuralInvariant)
    } else {
        match cs[0].tag {
            Tag::TimeNode => match spec_process_time(cs[0]) {
                Err(e) => Err(e),
                Ok(start) => if cs.len() < 2 {
                    Err(RuleError::StructuralInvariant)
                } else {
                    match spec_process_time(cs[1]) {
                        Err(e) => Err(e),
                        Ok(end) => Ok(Span::Range(start, end)),
                    }
                },
            },
            Tag::Digit => {
                let j = digit_run_end(cs, 0);
                let txt = concat_texts(cs, 0, j);
                if !number_ok(txt, 23) {
                    Err(RuleError::FieldConversion)
                } else if j >= cs.len() {
                    Err(RuleError::StructuralInvariant)
                } else {
                    match spec_process_time(cs[j]) {
                        Err(e) => Err(e),
                        Ok(end) => Ok(
                            Span::Range(
                                Time { hours: digits_val(txt) as u8, minutes: 0 },
                                end,
                            ),
                        ),
                    }
                }
            },
            Tag::Anytime => Ok(Span::<Time>::All),
            _ => Err(RuleError::StructuralInvariant),
        }
    }
}

/// Reads a time-range node, handling elliptical forms such as a bare leading
/// hour number whose meridiem is carried only by the end time.
pub fn process_time_range(node: &Node) -> (r: Result<Span<Time>, RuleError>)
    ensures
        r == spec_process_time_range(*node),
{
    let cs = &node.children;
    if cs.len() == 0 {
        return Err(RuleError::StructuralInvariant);
    }
    match cs[0].tag {
        Tag::TimeNode => {
            let start = match process_time(&cs[0]) {
                Ok(t) => t,
                Err(e) => {
                    return Err(e);
                },
            };
            if cs.len() < 2 {
                return Err(RuleError::StructuralInvariant);
            }
            match process_time(&cs[1]) {
                Ok(end) => Ok(Span::Range(start, end)),
                Err(e) => Err(e),
            }
        },
        Tag::Digit => {
            let (buf, j) = collect_digit_run(cs, 0);
            let start_hours = match parse_number(buf.as_slice(), 23) {
                Ok(v) => v as u8,
                Err(e) => {
                    return Err(e);
                },
            };
            if j >= cs.len() {
                return Err(RuleError::StructuralInvariant);
            }
            match process_time(&cs[j]) {
                Ok(end) => Ok(Span::Range(Time { hours: start_hours, minutes: 0 }, end)),
                Err(e) => Err(e),
            }
        },
        Tag::Anytime => Ok(Span::All),
        _ => Err(RuleError::StructuralInvariant),
    }
}

pub(crate) proof fn lemma_digit_run_prefix(cs: Seq<Node>, from: int, j: int)
    requires
        0 <= from <= j <= cs.len(),
        forall|k: int| from <= k < j ==> (#[trigger] cs[k]).tag == Tag::Digit,
        j < cs.len() ==> cs[j].tag != Tag::Digit,
    ensures
        digit_run_end(cs, from) == j,
    decreases j - from,
{
    if from < j {
        lemma_digit_run_prefix(cs, from + 1, j);
    }
}

/// Copies a vector of plain values element by element.
pub(crate) fn copy_vec<T: Copy>(v: &Vec<T>) -> (r: Vec<T>)
    ensures
        r@ == v@,
{
    let mut out: Vec<T> = Vec::new();
    let mut i: usize = 0;
    while i < v.len()
        invariant
            0 <= i <= v@.len(),
            out@ == v@.take(i as int),
        decreases v@.len() - i,
    {
        out.push(v[i]);
        proof {
            assert(v@.take(i + 1) =~= v@.take(i as int).push(v@[i as int]));
        }
        i += 1;
    }
    proof {
        assert(v@.take(v@.len() as int) =~= v@);
    }
    out
}

/// Collects the texts of the run of digit children starting at `from`,
/// returning the concatenated bytes and the index just past the run.
fn collect_digit_run(cs: &Vec<Node>, from: usize) -> (r: (Vec<u8>, usize))
    requires
        from <= cs@.len(),
    ensures
        r.1 == digit_run_end(cs@, from as int),
        r.0@ == concat_texts(cs@, from as int, r.1 as int),
        from <= r.1 <= cs@.len(),
{
    let ghost gcs = cs@;
    let mut buf: Vec<u8> = Vec::new();
    let mut j: usize = from;
    while j < cs.len() && matches!(cs[j].tag, Tag::Digit)
        invariant
            from <= j <= gcs.len(),
            cs@ == gcs,
            forall|k: int| from <= k < j ==> (#[trigger] gcs[k]).tag == Tag::Digit,
            buf@ == concat_texts(gcs, from as int, j as int),
        decreases gcs.len() - j,
    {
        let text = &cs[j].text;
        let mut b: usize = 0;
        while b < text.len()
            invariant
                0 <= b <= text@.len(),
                text@ == gcs[j as int].text@,
                from <= j < gcs.len(),
                buf@ == concat_texts(gcs, from as int, j as int) + text@.take(b as int),
            decreases text@.len() - b,
        {
            buf.push(text[b]);
            proof {
                assert(text@.take(b + 1) =~= text@.take(b as int).push(text@[b as int]));
                assert(buf@ == concat_texts(gcs, from as int, j as int) + text@.take(b + 1));
            }
            b += 1;
        }
        proof {
            assert(text@.take(text@.len() as int) =~= text@);
            assert(buf@ == concat_texts(gcs, from as int, j + 1));
        }
        j += 1;
    }
    proof {
        lemma_digit_run_prefix(gcs, from as int, j as int);
    }
    (buf, j)
}

// ---------------------------------------------------------------------------
// Range nodes: the cross-product combination step
// ---------------------------------------------------------------------------

/// The day an exception-day node names: its first child is a single-day
/// wrapper.
pub open spec fn spec_exception_day_of(c: Node) -> Result<Day, RuleError> {
    if c.children@.len() == 0 {
        Err(RuleError::StructuralInvariant)
    } else {
        spec_day_of_day_node(c.children@[0])
    }
}

/// The exception-day policy: with no day range collected yet, the complement
/// span of `d` is the first entry; otherwise every unrestricted entry becomes
/// that complement, and an already-explicit range is left unmodified (a
/// documented limitation: exceptions do not narrow an explicit range).
pub open spec fn spec_apply_exception(days: Seq<Span<Day>>, d: Day) -> Seq<Span<Day>> {
    if days.len() == 0 {
        seq![spec_span_except(d)]
    } else {
        days.map(
            |i: int, s: Span<Day>|
                match s {
                    Span::Range(_, _) => s,
                    Span::All => spec_span_except(d),
                },
        )
    }
}

/// How one child of a range node changes the three collected restriction
/// lists (day ranges, month ranges, time ranges).
pub open spec fn spec_range_step(
    acc: (Seq<Span<Day>>, Seq<Span<(u8, Month)>>, Seq<Span<Time>>),
    c: Node,
) -> Result<(Seq<Span<Day>>, Seq<Span<(u8, Month)>>, Seq<Span<Time>>), RuleError> {
    match c.tag {
        Tag::DayRange => match spec_process_day_range(c) {
            Ok(v) => Ok((acc.0 + v, acc.1, acc.2)),
            Err(e) => Err(e),
        },
        Tag::MonthRange => match spec_process_month_range(c) {
            Ok(v) => Ok((acc.0, acc.1 + v, acc.2)),
            Err(e) => Err(e),
        },
        Tag::TimeRange => match spec_process_time_range(c) {
            Ok(s) => Ok((acc.0, acc.1, acc.2.push(s))),
            Err(e) => Err(e),
        },
        Tag::ExceptionDay => match spec_exception_day_of(c) {
            Ok(d) => Ok((spec_apply_exception(acc.0, d), acc.1, acc.2)),
            Err(e) => Err(e),
        },
        _ => Err(RuleError::StructuralInvariant),
    }
}

/// Folds a range node's children left to right over the three lists.
pub open spec fn spec_range_fold(
    cs: Seq<Node>,
    acc: (Seq<Span<Day>>, Seq<Span<(u8, Month)>>, Seq<Span<Time>>),
) -> Result<(Seq<Span<Day>>, Seq<Span<(u8, Month)>>, Seq<Span<Time>>), RuleError>
    decreases cs.len(),
{
    if cs.len() == 0 {
        Ok(acc)
    } else {
        match spec_range_step(acc, cs[0]) {
            Ok(acc2) => spec_range_fold(cs.skip(1), acc2),
            Err(e) => Err(e),
        }
    }
}

/// A restriction list left empty defaults to a single unrestricted entry.
pub open spec fn with_default<T>(s: Seq<Span<T>>) -> Seq<Span<T>> {
    if s.len() == 0 {
        seq![Span::<T>::All]
    } else {
        s
    }
}

/// One date per time range, under a fixed day and month restriction.
pub open spec fn cross_times(d: Span<Day>, m: Span<(u8, Month)>, ts: Seq<Span<Time>>) -> Seq<Date>
    decreases ts.len(),
{
    if ts.len() == 0 {
        Seq::empty()
    } else {
        cross_times(d, m, ts.drop_last()).push(
            Date { weekdays: d, months: m, hours: ts.last() },
        )
    }
}

/// One date per (month range x time range), under a fixed day restriction.
pub open spec fn cross_months(
    d: Span<Day>,
    ms: Seq<Span<(u8, Month)>>,
    ts: Seq<Span<Time>>,
) -> Seq<Date>
    decreases ms.len(),
{
    if ms.len() == 0 {
        Seq::empty()
    } else {
        cross_months(d, ms.drop_last(), ts) + cross_times(d, ms.last(), ts)
    }
}

/// The full cross product: one date per (day range x month range x time
/// range), day outermost, month in the middle, time innermost.
pub open spec fn spec_cross(
    ds: Seq<Span<Day>>,
    ms: Seq<Span<(u8, Month)>>,
    ts: Seq<Span<Time>>,
) -> Seq<Date>
    decreases ds.len(),
{
    if ds.len() == 0 {
        Seq::empty()
    } else {
        spec_cross(ds.drop_last(), ms, ts) + cross_months(ds.last(), ms, ts)
    }
}

proof fn lemma_cross_times_len(d: Span<Day>, m: Span<(u8, Month)>, ts: Seq<Span<Time>>)
    ensures
        cross_times(d, m, ts).len() == ts.len(),
    decreases ts.len(),
{
    if ts.len() > 0 {
        lemma_cross_times_len(d, m, ts.drop_last());
    }
}

proof fn lemma_cross_months_len(d: Span<Day>, ms: Seq<Span<(u8, Month)>>, ts: Seq<Span<Time>>)
    ensures
        cross_months(d, ms, ts).len() == ms.len() * ts.len(),
    decreases ms.len(),
{
    if ms.len() == 0 {
        assert(ms.len() * ts.len() == 0) by (nonlinear_arith)
            requires
                ms.len() == 0,
        ;
    } else {
        lemma_cross_months_len(d, ms.drop_last(), ts);
        lemma_cross_times_len(d, ms.last(), ts);
        assert((ms.len() - 1) * ts.len() + ts.len() == ms.len() * ts.len()) by (nonlinear_arith);
    }
}

/// Law: the cross product has exactly one date per combination: its length
/// is the product of the three list lengths.
pub proof fn lemma_cross_len(ds: Seq<Span<Day>>, ms: Seq<Span<(u8, Month)>>, ts: Seq<Span<Time>>)
    ensures
        spec_cross(ds, ms, ts).len() == ds.len() * ms.len() * ts.len(),
    decreases ds.len(),
{
    if ds.len() == 0 {
        assert(ds.len() * ms.len() * ts.len() == 0) by (nonlinear_arith)
            requires
                ds.len() == 0,
        ;
    } else {
        lemma_cross_len(ds.drop_last(), ms, ts);
        lemma_cross_months_len(ds.last(), ms, ts);
        assert((ds.len() - 1) * ms.len() * ts.len() + ms.len() * ts.len() == ds.len() * ms.len()
            * ts.len()) by (nonlinear_arith);
    }
}

proof fn lemma_cross_times_membership(
    d: Span<Day>,
    m: Span<(u8, Month)>,
    ts: Seq<Span<Time>>,
    k: int,
)
    requires
        0 <= k < cross_times(d, m, ts).len(),
    ensures
        cross_times(d, m, ts)[k].weekdays == d,
        cross_times(d, m, ts)[k].months == m,
        ts.contains(cross_times(d, m, ts)[k].hours),
    decreases ts.len(),
{
    lemma_cross_times_len(d, m, ts);
    if k < ts.len() - 1 {
        lemma_cross_times_membership(d, m, ts.drop_last(), k);
        let h = cross_times(d, m, ts.drop_last())[k].hours;
        let i = choose|i: int| 0 <= i < ts.drop_last().len() && ts.drop_last()[i] == h;
        assert(ts[i] == h);
    } else {
        assert(ts[ts.len() - 1] == ts.last());
    }
}

proof fn lemma_cross_months_membership(
    d: Span<Day>,
    ms: Seq<Span<(u8, Month)>>,
    ts: Seq<Span<Time>>,
    k: int,
)
    requires
        0 <= k < cross_months(d, ms, ts).len(),
    ensures
        cross_months(d, ms, ts)[k].weekdays == d,
        ms.contains(cross_months(d, ms, ts)[k].months),
        ts.contains(cross_months(d, ms, ts)[k].hours),
    decreases ms.len(),
{
    if ms.len() > 0 {
        let pre = cross_months(d, ms.drop_last(), ts);
        if k < pre.len() {
            lemma_cross_months_membership(d, ms.drop_last(), ts, k);
            let mo = pre[k].months;
            let i = choose|i: int| 0 <= i < ms.drop_last().len() && ms.drop_last()[i] == mo;
            assert(ms[i] == mo);
        } else {
            lemma_cross_times_membership(d, ms.last(), ts, k - pre.len());
            assert(ms[ms.len() - 1] == ms.last());
        }
    }
}

/// Law: the cross product combines only collected restrictions: each emitted
/// date's weekday, month and hour spans are entries of the respective lists.
/// In particular, when the time list holds only the unrestricted span, every
/// emitted date has unrestricted hours.
pub proof fn lemma_cross_membership(
    ds: Seq<Span<Day>>,
    ms: Seq<Span<(u8, Month)>>,
    ts: Seq<Span<Time>>,
    k: int,
)
    requires
        0 <= k < spec_cross(ds, ms, ts).len(),
    ensures
        ds.contains(spec_cross(ds, ms, ts)[k].weekdays),
        ms.contains(spec_cross(ds, ms, ts)[k].months),
        ts.contains(spec_cross(ds, ms, ts)[k].hours),
    decreases ds.len(),
{
    if ds.len() > 0 {
        let pre = spec_cross(ds.drop_last(), ms, ts);
        if k < pre.len() {
            lemma_cross_membership(ds.drop_last(), ms, ts, k);
            let w = pre[k].weekdays;
            let i = choose|i: int| 0 <= i < ds.drop_last().len() && ds.drop_last()[i] == w;
            assert(ds[i] == w);
            let mo = pre[k].months;
            let j = choose|j: int| 0 <= j < ms.len() && ms[j] == mo;
            let h = pre[k].hours;
            let l = choose|l: int| 0 <= l < ts.len() && ts[l] == h;
            assert(ms[j] == mo && ts[l] == h);
        } else {
            lemma_cross_months_membership(ds.last(), ms, ts, k - pre.len());
            assert(ds[ds.len() - 1] == ds.last());
        }
    }
}

/// Law: a range node with no children at all denotes exactly one date with
/// all three axes unrestricted.
pub proof fn lemma_empty_range_node(n: Node)
    requires
        n.children@.len() == 0,
    ensures
        spec_process_range(n) == Ok::<Seq<Date>, RuleError>(seq![spec_date_all()]),
{
    let ds = seq![Span::<Day>::All];
    let ms = seq![Span::<(u8, Month)>::All];
    let ts = seq![Span::<Time>::All];
    assert(cross_times(Span::<Day>::All, Span::<(u8, Month)>::All, Seq::<Span<Time>>::empty())
        =~= Seq::<Date>::empty());
    assert(ts.drop_last() =~= Seq::<Span<Time>>::empty());
    assert(cross_times(Span::<Day>::All, Span::<(u8, Month)>::All, ts) =~= seq![spec_date_all()]);
    assert(cross_months(Span::<Day>::All, Seq::<Span<(u8, Month)>>::empty(), ts)
        =~= Seq::<Date>::empty());
    assert(ms.drop_last() =~= Seq::<Span<(u8, Month)>>::empty());
    assert(cross_months(Span::<Day>::All, ms, ts) =~= seq![spec_date_all()]);
    assert(spec_cross(Seq::<Span<Day>>::empty(), ms, ts) =~= Seq::<Date>::empty());
    assert(ds.drop_last() =~= Seq::<Span<Day>>::empty());
    assert(spec_cross(ds, ms, ts) =~= seq![spec_date_all()]);
}

/// The dates a range node denotes: its children folded into the three
/// restriction lists, empty lists defaulted to one unrestricted entry, and
/// the cross product emitted.
pub open spec fn spec_process_range(n: Node) -> Result<Seq<Date>, RuleError> {
    match spec_range_fold(
        n.children@,
        (Seq::<Span<Day>>::empty(), Seq::<Span<(u8, Month)>>::empty(), Seq::<Span<Time>>::empty()),
    ) {
        Ok(acc) => Ok(spec_cross(with_default(acc.0), with_default(acc.1), with_default(acc.2))),
        Err(e) => Err(e),
    }
}

/// Walks a range node's children, collecting day, month and time
/// restrictions and applying the exception-day policy, then emits one `Date`
/// for every combination, day-outer, month-middle, time-inner.
pub fn process_range(node: &Node) -> (r: Result<Vec<Date>, RuleError>)
    ensures
        match r {
            Ok(v) => spec_process_range(*node) == Ok::<Seq<Date>, RuleError>(v@),
            Err(e) => spec_process_range(*node) == Err::<Seq<Date>, RuleError>(e),
        },
{
    let cs = &node.children;
    let mut day_ranges: Vec<Span<Day>> = Vec::new();
    let mut month_ranges: Vec<Span<(u8, Month)>> = Vec::new();
    let mut time_ranges: Vec<Span<Time>> = Vec::new();
    let ghost init = (
        Seq::<Span<Day>>::empty(),
        Seq::<Span<(u8, Month)>>::empty(),
        Seq::<Span<Time>>::empty(),
    );
    let mut i: usize = 0;
    proof {
        assert(cs@.skip(0) =~= cs@);
        assert(day_ranges@ =~= init.0);
        assert(month_ranges@ =~= init.1);
        assert(time_ranges@ =~= init.2);
    }
    while i < cs.len()
        invariant
            0 <= i <= cs@.len(),
            cs@ == node.children@,
            init == (
                Seq::<Span<Day>>::empty(),
                Seq::<Span<(u8, Month)>>::empty(),
                Seq::<Span<Time>>::empty(),
            ),
            spec_range_fold(cs@, init) == spec_range_fold(
                cs@.skip(i as int),
                (day_ranges@, month_ranges@, time_ranges@),
            ),
        decreases cs@.len() - i,
    {
        proof {
            assert(cs@.skip(i as int)[0] == cs@[i as int]);
            assert(cs@.skip(i as int).skip(1) =~= cs@.skip(i as int + 1));
        }
        let c = &cs[i];
        match c.tag {
            Tag::DayRange => {
                let mut v = match process_day_range(c) {
                    Ok(v) => v,
                    Err(e) => {
                        return Err(e);
                    },
                };
                day_ranges.append(&mut v);
            },
            Tag::MonthRange => {
                let mut v = match process_month_range(c) {
                    Ok(v) => v,
                    Err(e) => {
                        return Err(e);
                    },
                };
                month_ranges.append(&mut v);
            },
            Tag::TimeRange => {
                match process_time_range(c) {
                    Ok(s) => {
                        time_ranges.push(s);
                    },
                    Err(e) => {
                        return Err(e);
                    },
                }
            },
            Tag::ExceptionDay => {
                let day = if c.children.len() == 0 {
                    return Err(RuleError::StructuralInvariant);
                } else {
                    match day_of_day_node(&c.children[0]) {
                        Ok(d) => d,
                        Err(e) => {
                            return Err(e);
                        },
                    }
                };
                if day_ranges.len() == 0 {
                    day_ranges.push(Day::span_except(day));
                    proof {
                        assert(day_ranges@ =~= spec_apply_exception(Seq::empty(), day));
                    }
                } else {
                    let ghost before = day_ranges@;
                    let mut patched: Vec<Span<Day>> = Vec::new();
                    let mut k: usize = 0;
                    while k < day_ranges.len()
                        invariant
                            0 <= k <= before.len(),
                            day_ranges@ == before,
                            before.len() > 0,
                            patched@ =~= before.take(k as int).map(
                                |q: int, s: Span<Day>|
                                    match s {
                                        Span::Range(_, _) => s,
                                        Span::All => spec_span_except(day),
                                    },
                            ),
                        decreases before.len() - k,
                    {
                        let entry = match day_ranges[k] {
                            Span::Range(a, b) => Span::Range(a, b),
                            Span::All => Day::span_except(day),
                        };
                        patched.push(entry);
                        proof {
                            assert(patched@ =~= before.take(k + 1).map(
                                |q: int, s: Span<Day>|
                                    match s {
                                        Span::Range(_, _) => s,
                                        Span::All => spec_span_except(day),
                                    },
                            ));
                        }
                        k += 1;
                    }
                    proof {
                        assert(before.take(before.len() as int) =~= before);
                        assert(patched@ =~= spec_apply_exception(before, day));
                    }
                    day_ranges = patched;
                }
            },
            _ => {
                return Err(RuleError::StructuralInvariant);
            },
        }
        i += 1;
    }
    if day_ranges.len() == 0 {
        day_ranges.push(Span::All);
    }
    if month_ranges.len() == 0 {
        month_ranges.push(Span::All);
    }
    if time_ranges.len() == 0 {
        time_ranges.push(Span::All);
    }
    proof {
        if day_ranges@.len() == 1 {
            assert(day_ranges@ =~= seq![day_ranges@[0]]);
        }
        if month_ranges@.len() == 1 {
            assert(month_ranges@ =~= seq![month_ranges@[0]]);
        }
        if time_ranges@.len() == 1 {
            assert(time_ranges@ =~= seq![time_ranges@[0]]);
        }
    }
    let ghost ds = day_ranges@;
    let ghost ms = month_ranges@;
    let ghost ts = time_ranges@;
    let mut dates: Vec<Date> = Vec::new();
    let mut a: usize = 0;
    proof {
        assert(ds.take(0) =~= Seq::<Span<Day>>::empty());
        assert(dates@ =~= spec_cross(ds.take(0), ms, ts));
    }
    while a < day_ranges.len()
        invariant
            0 <= a <= ds.len(),
            day_ranges@ == ds,
            month_ranges@ == ms,
            time_ranges@ == ts,
            dates@ == spec_cross(ds.take(a as int), ms, ts),
        decreases ds.len() - a,
    {
        let d = day_ranges[a];
        let mut b: usize = 0;
        proof {
            assert(ms.take(0) =~= Seq::<Span<(u8, Month)>>::empty());
            assert(dates@ =~= spec_cross(ds.take(a as int), ms, ts) + cross_months(
                d,
                ms.take(0),
                ts,
            ));
        }
        while b < month_ranges.len()
            invariant
                0 <= b <= ms.len(),
                a < ds.len(),
                d == ds[a as int],
                day_ranges@ == ds,
                month_ranges@ == ms,
                time_ranges@ == ts,
                dates@ == spec_cross(ds.take(a as int), ms, ts) + cross_months(
                    d,
                    ms.take(b as int),
                    ts,
                ),
            decreases ms.len() - b,
        {
            let m = month_ranges[b];
            let mut c: usize = 0;
            proof {
                assert(ts.take(0) =~= Seq::<Span<Time>>::empty());
                assert(dates@ =~= spec_cross(ds.take(a as int), ms, ts) + cross_months(
                    d,
                    ms.take(b as int),
                    ts,
                ) + cross_times(d, m, ts.take(0)));
            }
            while c < time_ranges.len()
                invariant
                    0 <= c <= ts.len(),
                    a < ds.len(),
                    b < ms.len(),
                    d == ds[a as int],
                    m == ms[b as int],
                    day_ranges@ == ds,
                    month_ranges@ == ms,
                    time_ranges@ == ts,
                    dates@ == spec_cross(ds.take(a as int), ms, ts) + cross_months(
                        d,
                        ms.take(b as int),
                        ts,
                    ) + cross_times(d, m, ts.take(c as int)),
                decreases ts.len() - c,
            {
                dates.push(Date { weekdays: d, months: m, hours: time_ranges[c] });
                proof {
                    assert(ts.take(c + 1).drop_last() =~= ts.take(c as int));
                    assert(ts.take(c + 1).last() == ts[c as int]);
                }
                c += 1;
            }
            proof {
                assert(ts.take(ts.len() as int) =~= ts);
                assert(ms.take(b + 1).drop_last() =~= ms.take(b as int));
                assert(ms.take(b + 1).last() == ms[b as int]);
            }
            b += 1;
        }
        proof {
            assert(ms.take(ms.len() as int) =~= ms);
            assert(ds.take(a + 1).drop_last() =~= ds.take(a as int));
            assert(ds.take(a + 1).last() == ds[a as int]);
        }
        a += 1;
    }
    proof {
        assert(ds.take(ds.len() as int) =~= ds);
    }
    Ok(dates)
}

// ---------------------------------------------------------------------------
// Durations
// ---------------------------------------------------------------------------

/// The time limit a duration node denotes: a numerator digit run, then, if
/// any child follows the separator that ends the run, a denominator digit
/// run, with denominator one otherwise; the limit is numerator hours divided
/// by the denominator, in whole minutes. A denominator of zero, or a result
/// that does not fit the minutes field, is a conversion error.
pub open spec fn spec_process_duration(n: Node) -> Result<TimeLimit, RuleError> {
    let cs = n.children@;
    let i = digit_run_end(cs, 0);
    let num_txt = concat_texts(cs, 0, i);
    if !number_ok(num_txt, u16::MAX as int) {
        Err(RuleError::FieldConversion)
    } else {
        let num = digits_val(num_txt);
        if i + 1 >= cs.len() {
            if num * 60 > u16::MAX {
                Err(RuleError::FieldConversion)
            } else {
                Ok(TimeLimit::Minutes((num * 60) as u16))
            }
        } else {
            let j = digit_run_end(cs, i + 1);
            let den_txt = concat_texts(cs, i + 1, j);
            if !number_ok(den_txt, u16::MAX as int) {
                Err(RuleError::FieldConversion)
            } else {
                let den = digits_val(den_txt);
                if den == 0 {
                    Err(RuleError::FieldConversion)
                } else if num * 60 / den > u16::MAX {
                    Err(RuleError::FieldConversion)
                } else {
                    Ok(TimeLimit::Minutes((num * 60 / den) as u16))
                }
            }
        }
    }
}

/// Reads a duration node: numerator hours, an optional denominator, and the
/// truncating division into minutes.
pub fn process_duration(node: &Node) -> (r: Result<TimeLimit, RuleError>)
    ensures
        r == spec_process_duration(*node),
{
    let cs = &node.children;
    let (num_buf, i) = collect_digit_run(cs, 0);
    let num = match parse_number(num_buf.as_slice(), u16::MAX) {
        Ok(v) => v,
        Err(e) => {
            return Err(e);
        },
    };
    let den: u16 = if i >= cs.len() || i + 1 >= cs.len() {
        1
    } else {
        let (den_buf, _j) = collect_digit_run(cs, i + 1);
        match parse_number(den_buf.as_slice(), u16::MAX) {
            Ok(v) => v,
            Err(e) => {
                return Err(e);
            },
        }
    };
    if den == 0 {
        return Err(RuleError::FieldConversion);
    }
    let total: u32 = (num as u32) * 60 / (den as u32);
    if total > u16::MAX as u32 {
        return Err(RuleError::FieldConversion);
    }
    Ok(TimeLimit::Minutes(total as u16))
}

// ---------------------------------------------------------------------------
// Vehicle modifiers
// ---------------------------------------------------------------------------

/// The vehicle class a vehicle-name tag denotes; the horse-drawn-cabs tag is
/// the null case, restricting nothing.
pub open spec fn spec_vehicle_of_tag(t: Tag) -> Result<Option<Vehicle>, RuleError> {
    match t {
        Tag::Trucks => Ok(Some(Vehicle::Trucks)),
        Tag::Commercial => Ok(Some(Vehicle::Commercial)),
        Tag::HorseCabs => Ok(None),
        _ => Err(RuleError::StructuralInvariant),
    }
}

/// Every vehicle class other than `v`, in the fixed declaration order
/// Private, Commercial, Trucks.
pub open spec fn spec_except_vehicles(v: Vehicle) -> Seq<Vehicle> {
    match v {
        Vehicle::Private => seq![Vehicle::Commercial, Vehicle::Trucks],
        Vehicle::Commercial => seq![Vehicle::Private, Vehicle::Trucks],
        Vehicle::Trucks => seq![Vehicle::Private, Vehicle::Commercial],
    }
}

/// The vehicle list a vehicle-modifier node denotes: "only V" gives `[V]`,
/// "except V" gives every other class in declaration order, and the null
/// vehicle case gives the empty list, whatever the enclosing marker.
pub open spec fn spec_process_vehicle_modifier(n: Node) -> Result<Seq<Vehicle>, RuleError> {
    let cs = n.children@;
    if cs.len() == 0 {
        Err(RuleError::StructuralInvariant)
    } else {
        let inner = cs[0];
        if inner.children@.len() == 0 {
            Err(RuleError::StructuralInvariant)
        } else {
            match spec_vehicle_of_tag(inner.children@[0].tag) {
                Err(e) => Err(e),
                Ok(None) => Ok(Seq::empty()),
                Ok(Some(v)) => match inner.tag {
                    Tag::VehicleOnly => Ok(seq![v]),
                    Tag::VehicleException => Ok(spec_except_vehicles(v)),
                    _ => Err(RuleError::StructuralInvariant),
                },
            }
        }
    }
}

/// Every vehicle class other than `v`, in the fixed declaration order.
pub fn except_vehicles(v: Vehicle) -> (r: Vec<Vehicle>)
    ensures
        r@ == spec_except_vehicles(v),
{
    let mut out: Vec<Vehicle> = Vec::new();
    if !matches!(v, Vehicle::Private) {
        out.push(Vehicle::Private);
    }
    if !matches!(v, Vehicle::Commercial) {
        out.push(Vehicle::Commercial);
    }
    if !matches!(v, Vehicle::Trucks) {
        out.push(Vehicle::Trucks);
    }
    proof {
        assert(out@ =~= spec_except_vehicles(v));
    }
    out
}

/// Reads a vehicle-modifier node and applies the only/except policy.
pub fn process_vehicle_modifier(node: &Node) -> (r: Result<Vec<Vehicle>, RuleError>)
    ensures
        match r {
            Ok(v) => spec_process_vehicle_modifier(*node) == Ok::<Seq<Vehicle>, RuleError>(v@),
            Err(e) => spec_process_vehicle_modifier(*node) == Err::<Seq<Vehicle>, RuleError>(e),
        },
{
    let cs = &node.children;
    if cs.len() == 0 {
        return Err(RuleError::StructuralInvariant);
    }
    let inner = &cs[0];
    if inner.children.len() == 0 {
        return Err(RuleError::StructuralInvariant);
    }
    let vehicle: Option<Vehicle> = match inner.children[0].tag {
        Tag::Trucks => Some(Vehicle::Trucks),
        Tag::Commercial => Some(Vehicle::Commercial),
        Tag::HorseCabs => None,
        _ => {
            return Err(RuleError::StructuralInvariant);
        },
    };
    let mut out: Vec<Vehicle> = Vec::new();
    match vehicle {
        None => {
            proof {
                assert(out@ =~= Seq::<Vehicle>::empty());
            }
            Ok(out)
        },
        Some(v) => match inner.tag {
            Tag::VehicleOnly => {
                out.push(v);
                proof {
                    assert(out@ =~= seq![v]);
                }
                Ok(out)
            },
            Tag::VehicleException => Ok(except_vehicles(v)),
            _ => Err(RuleError::StructuralInvariant),
        },
    }
}

// ---------------------------------------------------------------------------
// Regulations
// ---------------------------------------------------------------------------

/// The accumulator of the regulation walk: the modifiers gathered so far and
/// the rules emitted so far.
pub struct RegState {
    pub action: Action,
    pub vehicles: Seq<Vehicle>,
    pub inverted: bool,
    pub limit: TimeLimit,
    pub rules: Seq<ParkingRuleV>,
}

/// The state every regulation walk starts from: parking, no vehicle
/// restriction, not inverted, no time limit, no rules yet.
pub open spec fn spec_reg_init() -> RegState {
    RegState {
        action: Action::Parking,
        vehicles: Seq::empty(),
        inverted: false,
        limit: TimeLimit::Infinite,
        rules: Seq::empty(),
    }
}

/// How one child of a regulation changes the walk's state: modifiers are
/// last-wins, the negation marker is never reset, a metered marker changes
/// nothing, and every range node emits one rule snapshot.
pub open spec fn spec_reg_step(st: RegState, c: Node) -> Result<RegState, RuleError> {
    match c.tag {
        Tag::Negative => Ok(RegState { inverted: true, ..st }),
        Tag::Duration => match spec_process_duration(c) {
            Ok(l) => Ok(RegState { limit: l, ..st }),
            Err(e) => Err(e),
        },
        Tag::Metered => Ok(st),
        Tag::Parking => Ok(RegState { action: Action::Parking, ..st }),
        Tag::Standing => Ok(RegState { action: Action::Standing, ..st }),
        Tag::Stopping => Ok(RegState { action: Action::Stopping, ..st }),
        Tag::VehicleModifier => match spec_process_vehicle_modifier(c) {
            Ok(v) => Ok(RegState { vehicles: v, ..st }),
            Err(e) => Err(e),
        },
        Tag::Range => match spec_process_range(c) {
            Ok(dates) => Ok(
                RegState {
                    rules: st.rules.push(
                        ParkingRuleV {
                            active_dates: dates,
                            action: st.action,
                            is_inverted: st.inverted,
                            time_limit: st.limit,
                            exclusive_vehicle_types: st.vehicles,
                        },
                    ),
                    ..st
                },
            ),
            Err(e) => Err(e),
        },
        _ => Err(RuleError::StructuralInvariant),
    }
}

/// Folds a regulation's children left to right over the walk state.
pub open spec fn spec_reg_fold(cs: Seq<Node>, st: RegState) -> Result<RegState, RuleError>
    decreases cs.len(),
{
    if cs.len() == 0 {
        Ok(st)
    } else {
        match spec_reg_step(st, cs[0]) {
            Ok(st2) => spec_reg_fold(cs.skip(1), st2),
            Err(e) => Err(e),
        }
    }
}

/// The mathematical values of a sequence of owned rules.
pub open spec fn rules_view(s: Seq<ParkingRule>) -> Seq<ParkingRuleV> {
    s.map(|i: int, r: ParkingRule| r@)
}

/// The rules a regulation node denotes: the walk's emitted rules, or, if it
/// emitted none, exactly one rule over the single unrestricted date built
/// from whatever state the walk accumulated.
pub open spec fn spec_process_regulation(n: Node) -> Result<Seq<ParkingRuleV>, RuleError> {
    match spec_reg_fold(n.children@, spec_reg_init()) {
        Ok(st) => if st.rules.len() == 0 {
            Ok(
                seq![
                    ParkingRuleV {
                        active_dates: seq![spec_date_all()],
                        action: st.action,
                        is_inverted: st.inverted,
                        time_limit: st.limit,
                        exclusive_vehicle_types: st.vehicles,
                    },
                ],
            )
        } else {
            Ok(st.rules)
        },
        Err(e) => Err(e),
    }
}

proof fn lemma_reg_fold_no_range(cs: Seq<Node>, st: RegState)
    requires
        forall|k: int| 0 <= k < cs.len() ==> (#[trigger] cs[k]).tag != Tag::Range,
    ensures
        spec_reg_fold(cs, st) matches Ok(st2) ==> st2.rules == st.rules,
    decreases cs.len(),
{
    if cs.len() > 0 {
        match spec_reg_step(st, cs[0]) {
            Ok(st1) => {
                assert(st1.rules == st.rules);
                assert forall|k: int| 0 <= k < cs.skip(1).len() implies (#[trigger] cs.skip(
                    1,
                )[k]).tag != Tag::Range by {
                    assert(cs.skip(1)[k] == cs[k + 1]);
                }
                lemma_reg_fold_no_range(cs.skip(1), st1);
            },
            Err(_) => {},
        }
    }
}

/// Law: a regulation whose children hold no range node denotes, when it
/// denotes anything, exactly one rule, and that rule is active on the single
/// unrestricted date.
pub proof fn lemma_regulation_without_range(n: Node)
    requires
        forall|k: int| 0 <= k < n.children@.len() ==> (#[trigger] n.children@[k]).tag != Tag::Range,
    ensures
        spec_process_regulation(n) matches Ok(rs) ==> rs.len() == 1 && rs[0].active_dates == seq![
            spec_date_all(),
        ],
{
    lemma_reg_fold_no_range(n.children@, spec_reg_init());
}

/// Walks a regulation's children left to right, keeping last-wins modifier
/// state and emitting one rule snapshot per range node; a regulation with no
/// range node yields one rule active on the unrestricted date.
pub fn process_regulation(node: &Node) -> (r: Result<Vec<ParkingRule>, RuleError>)
    ensures
        match r {
            Ok(v) => spec_process_regulation(*node) == Ok::<Seq<ParkingRuleV>, RuleError>(
                rules_view(v@),
            ),
            Err(e) => spec_process_regulation(*node) == Err::<Seq<ParkingRuleV>, RuleError>(e),
        },
{
    let cs = &node.children;
    let mut action = Action::Parking;
    let mut allowed_vehicles: Vec<Vehicle> = Vec::new();
    let mut is_inverted = false;
    let mut limit = TimeLimit::Infinite;
    let mut rules: Vec<ParkingRule> = Vec::new();
    let mut i: usize = 0;
    proof {
        assert(cs@.skip(0) =~= cs@);
        assert(allowed_vehicles@ =~= Seq::<Vehicle>::empty());
        assert(rules_view(rules@) =~= Seq::<ParkingRuleV>::empty());
    }
    while i < cs.len()
        invariant
            0 <= i <= cs@.len(),
            cs@ == node.children@,
            spec_reg_fold(cs@, spec_reg_init()) == spec_reg_fold(
                cs@.skip(i as int),
                RegState {
                    action: action,
                    vehicles: allowed_vehicles@,
                    inverted: is_inverted,
                    limit: limit,
                    rules: rules_view(rules@),
                },
            ),
        decreases cs@.len() - i,
    {
        proof {
            assert(cs@.skip(i as int)[0] == cs@[i as int]);
            assert(cs@.skip(i as int).skip(1) =~= cs@.skip(i as int + 1));
        }
        let c = &cs[i];
        match c.tag {
            Tag::Negative => {
                is_inverted = true;
            },
            Tag::Duration => {
                match process_duration(c) {
                    Ok(l) => {
                        limit = l;
                    },
                    Err(e) => {
                        return Err(e);
                    },
                }
            },
            Tag::Metered => {},
            Tag::Parking => {
                action = Action::Parking;
            },
            Tag::Standing => {
                action = Action::Standing;
            },
            Tag::Stopping => {
                action = Action::Stopping;
            },
            Tag::VehicleModifier => {
                match process_vehicle_modifier(c) {
                    Ok(v) => {
                        allowed_vehicles = v;
                    },
                    Err(e) => {
                        return Err(e);
                    },
                }
            },
            Tag::Range => {
                let dates = match process_range(c) {
                    Ok(v) => v,
                    Err(e) => {
                        return Err(e);
                    },
                };
                let ghost old_rules = rules_view(rules@);
                let snapshot = ParkingRule {
                    action,
                    is_inverted,
                    active_dates: dates,
                    time_limit: limit,
                    exclusive_vehicle_types: copy_vec(&allowed_vehicles),
                };
                rules.push(snapshot);
                proof {
                    assert(rules_view(rules@) =~= old_rules.push(snapshot@));
                }
            },
            _ => {
                return Err(RuleError::StructuralInvariant);
            },
        }
        i += 1;
    }
    if rules.len() == 0 {
        let mut dates: Vec<Date> = Vec::new();
        dates.push(Date { weekdays: Span::All, hours: Span::All, months: Span::All });
        let only = ParkingRule {
            action,
            is_inverted,
            active_dates: dates,
            time_limit: limit,
            exclusive_vehicle_types: allowed_vehicles,
        };
        let ghost only_v = only@;
        rules.push(only);
        proof {
            assert(only_v.active_dates =~= seq![spec_date_all()]);
            assert(rules_view(rules@) =~= seq![only_v]);
        }
        Ok(rules)
    } else {
        Ok(rules)
    }
}

// ---------------------------------------------------------------------------
// The top-level walk
// ---------------------------------------------------------------------------

/// The rules a top-level tree's children denote: the ordered concatenation
/// of every regulation's rules, with purely syntactic children (arrows,
/// asides, night markers, comments, whitespace, bare day tokens) ignored.
pub open spec fn spec_base_fold(cs: Seq<Node>) -> Result<Seq<ParkingRuleV>, RuleError>
    decreases cs.len(),
{
    if cs.len() == 0 {
        Ok(Seq::empty())
    } else {
        match spec_base_fold(cs.drop_last()) {
            Ok(acc) => match cs.last().tag {
                Tag::Arrow | Tag::Parens | Tag::Night | Tag::Comment | Tag::Whitespace
                    | Tag::DayNode => Ok(acc),
                Tag::Regulation => match spec_process_regulation(cs.last()) {
                    Ok(rs) => Ok(acc + rs),
                    Err(e) => Err(e),
                },
                _ => Err(RuleError::StructuralInvariant),
            },
            Err(e) => Err(e),
        }
    }
}

/// The rules a whole parse tree denotes; a tree whose root is not the
/// top-level production is a structural violation.
pub open spec fn spec_rules_of(t: Node) -> Result<Seq<ParkingRuleV>, RuleError> {
    if t.tag == Tag::Base {
        spec_base_fold(t.children@)
    } else {
        Err(RuleError::StructuralInvariant)
    }
}

proof fn lemma_base_fold_prefix_err(cs: Seq<Node>, i: int)
    requires
        0 <= i <= cs.len(),
        spec_base_fold(cs.take(i)) is Err,
    ensures
        spec_base_fold(cs) == spec_base_fold(cs.take(i)),
    decreases cs.len() - i,
{
    if i < cs.len() {
        assert(cs.drop_last().take(i) =~= cs.take(i));
        lemma_base_fold_prefix_err(cs.drop_last(), i);
    } else {
        assert(cs.take(i) =~= cs);
    }
}

/// Flat-maps each top-level child into zero or more rules, in input order.
pub fn rules_from_tree(t: &Node) -> (r: Result<Vec<ParkingRule>, RuleError>)
    ensures
        match r {
            Ok(v) => spec_rules_of(*t) == Ok::<Seq<ParkingRuleV>, RuleError>(rules_view(v@)),
            Err(e) => spec_rules_of(*t) == Err::<Seq<ParkingRuleV>, RuleError>(e),
        },
{
    if !matches!(t.tag, Tag::Base) {
        return Err(RuleError::StructuralInvariant);
    }
    let cs = &t.children;
    let mut out: Vec<ParkingRule> = Vec::new();
    let mut i: usize = 0;
    proof {
        assert(cs@.take(0) =~= Seq::<Node>::empty());
        assert(rules_view(out@) =~= Seq::<ParkingRuleV>::empty());
    }
    while i < cs.len()
        invariant
            0 <= i <= cs@.len(),
            cs@ == t.children@,
            t.tag == Tag::Base,
            spec_base_fold(cs@.take(i as int)) == Ok::<Seq<ParkingRuleV>, RuleError>(
                rules_view(out@),
            ),
        decreases cs@.len() - i,
    {
        proof {
            assert(cs@.take(i + 1).drop_last() =~= cs@.take(i as int));
            assert(cs@.take(i + 1).last() == cs@[i as int]);
        }
        let c = &cs[i];
        match c.tag {
            Tag::Arrow | Tag::Parens | Tag::Night | Tag::Comment | Tag::Whitespace
                | Tag::DayNode => {},
            Tag::Regulation => {
                let mut v = match process_regulation(c) {
                    Ok(v) => v,
                    Err(e) => {
                        proof {
                            lemma_base_fold_prefix_err(cs@, i + 1);
                        }
                        return Err(e);
                    },
                };
                let ghost vv = v@;
                let ghost before = out@;
                out.append(&mut v);
                proof {
                    assert(rules_view(out@) =~= rules_view(before) + rules_view(vv));
                }
            },
            _ => {
                proof {
                    lemma_base_fold_prefix_err(cs@, i + 1);
                }
                return Err(RuleError::StructuralInvariant);
            },
        }
        i += 1;
    }
    proof {
        assert(cs@.take(cs@.len() as int) =~= cs@);
    }
    Ok(out)
}

} // verus!

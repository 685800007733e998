//! The parse tree the grammar produces and the semantic analyzer consumes:
//! a closed set of node tags, and nodes carrying a tag, the matched text
//! (for leaf tokens such as digit runs) and child nodes.

use vstd::prelude::*;

verus! {

/// The closed set of grammar node kinds. Any tag outside the set a given
/// analyzer position expects is a structural-invariant violation there.
#[derive(Clone, Copy, Debug, PartialEq, Eq, Structural)]
pub enum Tag {
    /// The whole input: a sequence of regulations and ignorable tokens.
    Base,
    /// One regulation clause.
    Regulation,
    /// A group of day/month/time restrictions within a regulation.
    Range,
    /// A weekday restriction: a two-day pair, or a `Days` list.
    DayRange,
    /// A month restriction: a two-month pair, or a `Months` list.
    MonthRange,
    /// An hour restriction: a time pair, digits then a time, or `Anytime`.
    TimeRange,
    /// "Except this one day": wraps a `DayNode`.
    ExceptionDay,
    /// A single weekday: wraps one day-name leaf.
    DayNode,
    /// An enumerated list of `DayNode`/`School`/`AllDays` entries.
    Days,
    /// The "school days" keyword (Monday through Friday).
    School,
    /// The "all days" keyword.
    AllDays,
    Sunday,
    Monday,
    Tuesday,
    Wednesday,
    Thursday,
    Friday,
    Saturday,
    /// A single month: wraps one month-name leaf.
    MonthNode,
    /// An enumerated list of `MonthNode` entries.
    Months,
    January,
    February,
    March,
    April,
    May,
    June,
    July,
    August,
    September,
    October,
    November,
    December,
    /// A time of day: a sequence of `Hours`/`Minutes`/`Meridiem`/`Midday`/
    /// `Midnight` components.
    TimeNode,
    /// An hour count as digit text.
    Hours,
    /// A minute count as digit text.
    Minutes,
    /// An "am"/"pm" marker; its text decides which.
    Meridiem,
    /// The "midday" keyword: forces 12:00.
    Midday,
    /// The "midnight" keyword: forces 00:00.
    Midnight,
    /// A single digit of a bare number (elliptical time starts, durations).
    Digit,
    /// The "anytime" keyword: an unrestricted hour span.
    Anytime,
    /// A fractional time limit: numerator digits, then optionally a
    /// `Fraction` separator and denominator digits.
    Duration,
    /// The separator between a duration's numerator and denominator.
    Fraction,
    /// A negation marker: the regulation's sense is inverted.
    Negative,
    /// A metered-zone marker; carries no semantics here.
    Metered,
    Parking,
    Standing,
    Stopping,
    /// A vehicle restriction: wraps `VehicleOnly` or `VehicleException`.
    VehicleModifier,
    /// "applies only to this vehicle class".
    VehicleOnly,
    /// "applies to all vehicle classes except this one".
    VehicleException,
    Trucks,
    Commercial,
    /// The null vehicle case (horse-drawn cabs): no class restriction.
    HorseCabs,
    /// Ignorable at the top level: an arrow between clauses.
    Arrow,
    /// Ignorable at the top level: a parenthetical aside.
    Parens,
    /// Ignorable at the top level: a "night" marker.
    Night,
    /// Ignorable at the top level: a comment.
    Comment,
    /// Ignorable at the top level: whitespace.
    Whitespace,
}

/// One parse-tree node: its tag, the token text it matched (empty for
/// interior nodes), and its children in input order.
#[derive(Debug)]
pub struct Node {
    pub tag: Tag,
    pub text: Vec<u8>,
    pub children: Vec<Node>,
}

impl Node {
    /// A leaf node with no text, such as a keyword.
    pub fn leaf(tag: Tag) -> (r: Node)
        ensures
            r.tag == tag,
            r.text@ == Seq::<u8>::empty(),
            r.children@ == Seq::<Node>::empty(),
    {
        Node { tag, text: Vec::new(), children: Vec::new() }
    }

    /// A leaf node carrying token text.
    pub fn text_leaf(tag: Tag, text: Vec<u8>) -> (r: Node)
        ensures
            r.tag == tag,
            r.text == text,
            r.children@ == Seq::<Node>::empty(),
    {
        Node { tag, text, children: Vec::new() }
    }

    /// An interior node over the given children.
    pub fn interior(tag: Tag, children: Vec<Node>) -> (r: Node)
        ensures
            r.tag == tag,
            r.text@ == Seq::<u8>::empty(),
            r.children == children,
    {
        Node { tag, text: Vec::new(), children }
    }
}

/// Why an input produced no rules.
#[derive(Clone, Copy, Debug, PartialEq, Eq, Structural)]
pub enum RuleError {
    /// The input does not match the grammar; no partial result exists.
    Parse,
    /// A numeric sub-token did not yield a usable number (not all digits,
    /// or out of range for its field).
    FieldConversion,
    /// The parse tree has a shape the analyzer did not anticipate: a missing
    /// expected child or an unrecognized tag at a fixed position.
    StructuralInvariant,
}

} // verus!

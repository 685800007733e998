//! Street-parking regulation rules: a small verified library that turns the
//! text of a parking sign into structured rule records (which action is
//! restricted, on which weekdays, months and hours, for which vehicles), and
//! flattens those records into an explicitly-bounded export form.

use vstd::prelude::*;

pub mod analyzer;
pub mod export;
pub mod grammar;
pub mod parking;
pub mod tree;

verus! {

use vstd::string::StringSliceAdditionalSpecFns;

pub use crate::analyzer::rules_from_tree;
pub use crate::export::Array;
pub use crate::export::CDate;
pub use crate::export::CParkingRule;
pub use crate::export::CTimeLimit;
pub use crate::export::free_rules;
pub use crate::export::rules_from_str;
pub use crate::analyzer::rules_view;
pub use crate::analyzer::spec_rules_of;
pub use crate::grammar::RuleParser;
pub use crate::parking::Action;
pub use crate::parking::Date;
pub use crate::parking::Day;
pub use crate::parking::Month;
pub use crate::parking::ParkingRule;
pub use crate::parking::ParkingRuleV;
pub use crate::parking::Rangeable;
pub use crate::parking::Span;
pub use crate::parking::Time;
pub use crate::parking::TimeLimit;
pub use crate::parking::Vehicle;
pub use crate::tree::Node;
pub use crate::tree::RuleError;
pub use crate::tree::Tag;

/// Parses a whole input string into its ordered rule records: the text is
/// matched against the grammar as one top-level production (a mismatch
/// anywhere fails the whole input with a parse error), and each regulation
/// clause contributes its rules in order. On success the returned records
/// are exactly the rules some top-level parse tree denotes; an empty input
/// always succeeds with an empty record list.
pub fn parse_str(input: &str) -> (r: Result<Vec<ParkingRule>, RuleError>)
    ensures
        match r {
            Ok(rules) => exists|t: Node|
                (#[trigger] spec_rules_of(t)) == Ok::<Seq<ParkingRuleV>, RuleError>(
                    rules_view(rules@),
                ) && t.tag == Tag::Base,
            Err(e) => e == RuleError::Parse || exists|t: Node|
                (#[trigger] spec_rules_of(t)) == Err::<Seq<ParkingRuleV>, RuleError>(e),
        },
        input.spec_bytes().len() == 0 ==> (r matches Ok(rules) && rules@.len() == 0),
{
    let tree = match RuleParser::parse(input) {
        Ok(t) => t,
        Err(e) => {
            return Err(e);
        },
    };
    proof {
        if input.spec_bytes().len() == 0 {
            assert(tree.children@ =~= Seq::<Node>::empty());
            assert(spec_rules_of(tree) == Ok::<Seq<ParkingRuleV>, RuleError>(
                Seq::<ParkingRuleV>::empty(),
            ));
        }
    }
    match rules_from_tree(&tree) {
        Ok(v) => {
            proof {
                assert(spec_rules_of(tree) == Ok::<Seq<ParkingRuleV>, RuleError>(rules_view(v@)));
                if input.spec_bytes().len() == 0 {
                    assert(rules_view(v@) == Seq::<ParkingRuleV>::empty());
                    assert(rules_view(v@).len() == v@.len());
                    assert(v@.len() == 0);
                }
            }
            Ok(v)
        },
        Err(e) => {
            proof {
                assert(spec_rules_of(tree) == Err::<Seq<ParkingRuleV>, RuleError>(e));
            }
            Err(e)
        },
    }
}

} // verus!

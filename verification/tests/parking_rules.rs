use parkerparser::analyzer::except_vehicles;
use parkerparser::analyzer::process_duration;
use parkerparser::analyzer::process_range;
use parkerparser::analyzer::process_regulation;
use parkerparser::analyzer::process_time;
use parkerparser::analyzer::process_vehicle_modifier;
use parkerparser::parse_str;
use parkerparser::parking::Action;
use parkerparser::parking::Date;
use parkerparser::parking::Day;
use parkerparser::parking::Month;
use parkerparser::parking::Rangeable;
use parkerparser::parking::Span;
use parkerparser::parking::Time;
use parkerparser::parking::TimeLimit;
use parkerparser::parking::Vehicle;
use parkerparser::rules_from_tree;
use parkerparser::tree::Node;
use parkerparser::tree::RuleError;
use parkerparser::tree::Tag;
use parkerparser::CDate;
use parkerparser::free_rules;
use parkerparser::rules_from_str;

fn leaf(tag: Tag) -> Node {
    Node::leaf(tag)
}

fn text_leaf(tag: Tag, text: &str) -> Node {
    Node::text_leaf(tag, text.as_bytes().to_vec())
}

fn interior(tag: Tag, children: Vec<Node>) -> Node {
    Node::interior(tag, children)
}

fn digit_leaves(digits: &str) -> Vec<Node> {
    digits
        .as_bytes()
        .iter()
        .map(|b| Node::text_leaf(Tag::Digit, vec![*b]))
        .collect()
}

#[test]
fn test_range() {
    let mut r = Span::Range(5, 10);
    r.invert();
    assert_eq!(r, Span::Range(10, 5));
}

#[test]
fn invert_all_is_noop() {
    let mut r: Span<i32> = Span::All;
    r.invert();
    assert_eq!(r, Span::All);
}

#[test]
fn span_except_walks_the_other_six_days() {
    assert_eq!(
        Day::span_except(Day::Sunday),
        Span::Range(Day::Monday, Day::Saturday)
    );
    assert_eq!(
        Day::span_except(Day::Wednesday),
        Span::Range(Day::Thursday, Day::Tuesday)
    );
    assert_eq!(
        Day::span_except(Day::Saturday),
        Span::Range(Day::Sunday, Day::Friday)
    );
}

#[test]
fn duration_half_hour() {
    let mut children = digit_leaves("1");
    children.push(leaf(Tag::Fraction));
    children.append(&mut digit_leaves("2"));
    let node = interior(Tag::Duration, children);
    assert_eq!(process_duration(&node), Ok(TimeLimit::Minutes(30)));
}

#[test]
fn duration_two_hours_without_denominator() {
    let node = interior(Tag::Duration, digit_leaves("2"));
    assert_eq!(process_duration(&node), Ok(TimeLimit::Minutes(120)));
}

#[test]
fn duration_five_thirds_truncates() {
    let mut children = digit_leaves("5");
    children.push(leaf(Tag::Fraction));
    children.append(&mut digit_leaves("3"));
    let node = interior(Tag::Duration, children);
    assert_eq!(process_duration(&node), Ok(TimeLimit::Minutes(100)));
}

#[test]
fn duration_zero_denominator_is_conversion_error() {
    let mut children = digit_leaves("1");
    children.push(leaf(Tag::Fraction));
    children.append(&mut digit_leaves("0"));
    let node = interior(Tag::Duration, children);
    assert_eq!(process_duration(&node), Err(RuleError::FieldConversion));
}

#[test]
fn time_three_pm() {
    let node = interior(
        Tag::TimeNode,
        vec![text_leaf(Tag::Hours, "3"), text_leaf(Tag::Meridiem, "pm")],
    );
    assert_eq!(
        process_time(&node),
        Ok(Time {
            hours: 15,
            minutes: 0
        })
    );
}

#[test]
fn time_midnight_and_midday() {
    let midnight = interior(Tag::TimeNode, vec![leaf(Tag::Midnight)]);
    assert_eq!(
        process_time(&midnight),
        Ok(Time {
            hours: 0,
            minutes: 0
        })
    );
    let midday = interior(Tag::TimeNode, vec![leaf(Tag::Midday)]);
    assert_eq!(
        process_time(&midday),
        Ok(Time {
            hours: 12,
            minutes: 0
        })
    );
}

#[test]
fn time_hour_out_of_range_is_conversion_error() {
    let node = interior(Tag::TimeNode, vec![text_leaf(Tag::Hours, "999")]);
    assert_eq!(process_time(&node), Err(RuleError::FieldConversion));
    let node = interior(Tag::TimeNode, vec![text_leaf(Tag::Hours, "24")]);
    assert_eq!(process_time(&node), Err(RuleError::FieldConversion));
    let node = interior(Tag::TimeNode, vec![text_leaf(Tag::Minutes, "60")]);
    assert_eq!(process_time(&node), Err(RuleError::FieldConversion));
}

#[test]
fn time_meridiem_keeps_hours_in_range() {
    let node = interior(
        Tag::TimeNode,
        vec![text_leaf(Tag::Hours, "11"), text_leaf(Tag::Meridiem, "pm")],
    );
    assert_eq!(
        process_time(&node),
        Ok(Time {
            hours: 23,
            minutes: 0
        })
    );
    let node = interior(
        Tag::TimeNode,
        vec![text_leaf(Tag::Hours, "12"), text_leaf(Tag::Meridiem, "pm")],
    );
    assert_eq!(process_time(&node), Err(RuleError::FieldConversion));
}

#[test]
fn empty_range_node_yields_one_unrestricted_date() {
    let node = interior(Tag::Range, vec![]);
    let dates = process_range(&node).unwrap();
    assert_eq!(
        dates,
        vec![Date {
            weekdays: Span::All,
            hours: Span::All,
            months: Span::All,
        }]
    );
}

fn day_range_pair(start: Tag, end: Tag) -> Node {
    interior(
        Tag::DayRange,
        vec![
            interior(Tag::DayNode, vec![leaf(start)]),
            interior(Tag::DayNode, vec![leaf(end)]),
        ],
    )
}

fn month_range_pair(start: Tag, end: Tag) -> Node {
    interior(
        Tag::MonthRange,
        vec![
            interior(Tag::MonthNode, vec![leaf(start)]),
            interior(Tag::MonthNode, vec![leaf(end)]),
        ],
    )
}

#[test]
fn cross_product_two_by_one_with_hours_unrestricted() {
    let node = interior(
        Tag::Range,
        vec![
            day_range_pair(Tag::Monday, Tag::Tuesday),
            day_range_pair(Tag::Friday, Tag::Saturday),
            month_range_pair(Tag::January, Tag::March),
        ],
    );
    let dates = process_range(&node).unwrap();
    assert_eq!(dates.len(), 2);
    let months = Span::Range((1, Month::January), (31, Month::March));
    assert_eq!(
        dates[0],
        Date {
            weekdays: Span::Range(Day::Monday, Day::Tuesday),
            hours: Span::All,
            months,
        }
    );
    assert_eq!(
        dates[1],
        Date {
            weekdays: Span::Range(Day::Friday, Day::Saturday),
            hours: Span::All,
            months,
        }
    );
}

#[test]
fn exception_day_on_empty_and_unrestricted_lists() {
    let except_monday = interior(
        Tag::ExceptionDay,
        vec![interior(Tag::DayNode, vec![leaf(Tag::Monday)])],
    );
    let node = interior(Tag::Range, vec![except_monday]);
    let dates = process_range(&node).unwrap();
    assert_eq!(dates.len(), 1);
    assert_eq!(
        dates[0].weekdays,
        Span::Range(Day::Tuesday, Day::Sunday)
    );
}

#[test]
fn exception_day_leaves_explicit_range_unmodified() {
    let except_monday = interior(
        Tag::ExceptionDay,
        vec![interior(Tag::DayNode, vec![leaf(Tag::Monday)])],
    );
    let node = interior(
        Tag::Range,
        vec![day_range_pair(Tag::Monday, Tag::Friday), except_monday],
    );
    let dates = process_range(&node).unwrap();
    assert_eq!(dates.len(), 1);
    assert_eq!(dates[0].weekdays, Span::Range(Day::Monday, Day::Friday));
}

fn vehicle_modifier(kind: Tag, vehicle: Tag) -> Node {
    interior(
        Tag::VehicleModifier,
        vec![interior(kind, vec![leaf(vehicle)])],
    )
}

#[test]
fn vehicle_exception_orders_remaining_classes() {
    let commercial = vehicle_modifier(Tag::VehicleException, Tag::Commercial);
    assert_eq!(
        process_vehicle_modifier(&commercial),
        Ok(vec![Vehicle::Private, Vehicle::Trucks])
    );
    assert_eq!(
        except_vehicles(Vehicle::Private),
        vec![Vehicle::Commercial, Vehicle::Trucks]
    );
    assert_eq!(
        except_vehicles(Vehicle::Commercial),
        vec![Vehicle::Private, Vehicle::Trucks]
    );
}

#[test]
fn vehicle_only_and_null_vehicle() {
    let trucks_only = vehicle_modifier(Tag::VehicleOnly, Tag::Trucks);
    assert_eq!(process_vehicle_modifier(&trucks_only), Ok(vec![Vehicle::Trucks]));
    let cabs = vehicle_modifier(Tag::VehicleOnly, Tag::HorseCabs);
    assert_eq!(process_vehicle_modifier(&cabs), Ok(vec![]));
}

#[test]
fn regulation_without_range_emits_one_unrestricted_rule() {
    let node = interior(
        Tag::Regulation,
        vec![leaf(Tag::Negative), leaf(Tag::Standing)],
    );
    let rules = process_regulation(&node).unwrap();
    assert_eq!(rules.len(), 1);
    assert_eq!(rules[0].action, Action::Standing);
    assert!(rules[0].is_inverted);
    assert_eq!(
        rules[0].active_dates,
        vec![Date {
            weekdays: Span::All,
            hours: Span::All,
            months: Span::All,
        }]
    );
    assert_eq!(rules[0].time_limit, TimeLimit::Infinite);
    assert_eq!(rules[0].exclusive_vehicle_types, vec![]);
}

#[test]
fn flatten_unrestricted_weekdays_gives_explicit_bounds() {
    let date = Date {
        weekdays: Span::All,
        hours: Span::Range(
            Time { hours: 8, minutes: 0 },
            Time {
                hours: 18,
                minutes: 0,
            },
        ),
        months: Span::Range((1, Month::June), (31, Month::August)),
    };
    let c = CDate::from_date(&date);
    assert_eq!(c.start_day, Day::Sunday);
    assert_eq!(c.end_day, Day::Saturday);
    assert_eq!(c.start_hour, Time { hours: 8, minutes: 0 });
    assert_eq!(c.end_hour, Time { hours: 18, minutes: 0 });
    assert_eq!(c.start_month, Month::June);
    assert_eq!(c.end_month, Month::August);
    assert_eq!(c.start_month_day, 1);
    assert_eq!(c.end_month_day, 31);
}

#[test]
fn flatten_fully_unrestricted_date() {
    let date = Date {
        weekdays: Span::All,
        hours: Span::All,
        months: Span::All,
    };
    let c = CDate::from_date(&date);
    assert_eq!(c.start_day, Day::Sunday);
    assert_eq!(c.end_day, Day::Saturday);
    assert_eq!(c.start_hour, Time { hours: 0, minutes: 0 });
    assert_eq!(c.end_hour, Time { hours: 23, minutes: 59 });
    assert_eq!(c.start_month, Month::January);
    assert_eq!(c.start_month_day, 1);
    assert_eq!(c.end_month, Month::December);
    assert_eq!(c.end_month_day, 31);
}

#[test]
fn end_to_end_no_parking_weekday_hours() {
    let rules = parse_str("no parking 8am-6pm mon-fri").unwrap();
    assert_eq!(rules.len(), 1);
    let rule = &rules[0];
    assert_eq!(rule.action, Action::Parking);
    assert!(rule.is_inverted);
    assert_eq!(rule.time_limit, TimeLimit::Infinite);
    assert_eq!(rule.exclusive_vehicle_types, vec![]);
    assert_eq!(
        rule.active_dates,
        vec![Date {
            weekdays: Span::Range(Day::Monday, Day::Friday),
            hours: Span::Range(
                Time { hours: 8, minutes: 0 },
                Time {
                    hours: 18,
                    minutes: 0
                }
            ),
            months: Span::All,
        }]
    );
}

#[test]
fn end_to_end_elliptical_time_and_months() {
    let rules = parse_str("no standing 8-6pm jan-mar").unwrap();
    assert_eq!(rules.len(), 1);
    let rule = &rules[0];
    assert_eq!(rule.action, Action::Standing);
    assert!(rule.is_inverted);
    assert_eq!(
        rule.active_dates,
        vec![Date {
            weekdays: Span::All,
            hours: Span::Range(
                Time { hours: 8, minutes: 0 },
                Time {
                    hours: 18,
                    minutes: 0
                }
            ),
            months: Span::Range((1, Month::January), (31, Month::March)),
        }]
    );
}

#[test]
fn end_to_end_duration_and_vehicles() {
    let rules = parse_str("1/2 hour parking commercial only anytime").unwrap();
    assert_eq!(rules.len(), 1);
    let rule = &rules[0];
    assert_eq!(rule.action, Action::Parking);
    assert!(!rule.is_inverted);
    assert_eq!(rule.time_limit, TimeLimit::Minutes(30));
    assert_eq!(rule.exclusive_vehicle_types, vec![Vehicle::Commercial]);
    assert_eq!(
        rule.active_dates,
        vec![Date {
            weekdays: Span::All,
            hours: Span::All,
            months: Span::All,
        }]
    );
}

#[test]
fn end_to_end_except_day_and_vehicle() {
    let rules = parse_str("no stopping except trucks except mon").unwrap();
    assert_eq!(rules.len(), 1);
    let rule = &rules[0];
    assert_eq!(rule.action, Action::Stopping);
    assert!(rule.is_inverted);
    assert_eq!(
        rule.exclusive_vehicle_types,
        vec![Vehicle::Private, Vehicle::Commercial]
    );
    assert_eq!(
        rule.active_dates,
        vec![Date {
            weekdays: Span::Range(Day::Tuesday, Day::Sunday),
            hours: Span::All,
            months: Span::All,
        }]
    );
}

#[test]
fn end_to_end_school_days_list() {
    let rules = parse_str("no parking school").unwrap();
    assert_eq!(rules.len(), 1);
    assert_eq!(
        rules[0].active_dates,
        vec![Date {
            weekdays: Span::Range(Day::Monday, Day::Friday),
            hours: Span::All,
            months: Span::All,
        }]
    );
}

#[test]
fn end_to_end_day_list_cross_product() {
    let rules = parse_str("no parking mon,wed,fri 8am-10am").unwrap();
    assert_eq!(rules.len(), 1);
    assert_eq!(rules[0].active_dates.len(), 3);
    let hours = Span::Range(Time { hours: 8, minutes: 0 }, Time { hours: 10, minutes: 0 });
    assert_eq!(
        rules[0].active_dates[0],
        Date {
            weekdays: Span::Range(Day::Monday, Day::Monday),
            hours,
            months: Span::All,
        }
    );
    assert_eq!(
        rules[0].active_dates[1].weekdays,
        Span::Range(Day::Wednesday, Day::Wednesday)
    );
    assert_eq!(
        rules[0].active_dates[2].weekdays,
        Span::Range(Day::Friday, Day::Friday)
    );
}

#[test]
fn parse_error_on_unknown_word() {
    assert_eq!(parse_str("gibberish"), Err(RuleError::Parse));
}

#[test]
fn empty_input_gives_no_rules() {
    assert_eq!(parse_str(""), Ok(vec![]));
}

#[test]
fn structural_error_on_wrong_root() {
    let node = interior(Tag::Regulation, vec![]);
    assert_eq!(
        rules_from_tree(&node),
        Err(RuleError::StructuralInvariant)
    );
}

#[test]
fn structural_error_on_unexpected_tag_in_regulation() {
    let node = interior(Tag::Regulation, vec![leaf(Tag::Anytime)]);
    assert!(matches!(
        process_regulation(&node),
        Err(RuleError::StructuralInvariant)
    ));
}

#[test]
fn free_rules_once_per_handle_including_zero_rules() {
    let empty = rules_from_str("").unwrap();
    assert_eq!(empty.len(), 0);
    free_rules(empty);

    let handle = rules_from_str("no parking 8am-6pm mon-fri").unwrap();
    assert_eq!(handle.len(), 1);
    {
        let rule = handle.get(0);
        assert_eq!(rule.action, Action::Parking);
        assert!(rule.is_inverted);
        assert_eq!(rule.time_limit.minutes(), 0);
        assert_eq!(rule.active_dates.len(), 1);
        let date = rule.active_dates.get(0);
        assert_eq!(date.start_day, Day::Monday);
        assert_eq!(date.end_day, Day::Friday);
        assert_eq!(date.start_hour, Time { hours: 8, minutes: 0 });
        assert_eq!(date.end_hour, Time { hours: 18, minutes: 0 });
        assert_eq!(date.start_month, Month::January);
        assert_eq!(date.end_month, Month::December);
        assert_eq!(date.start_month_day, 1);
        assert_eq!(date.end_month_day, 31);
        assert_eq!(rule.exclusive_vehicle_types.len(), 0);
    }
    free_rules(handle);
}

#[test]
fn arrow_separates_regulations() {
    let rules = parse_str("no parking mon -> no standing tue").unwrap();
    assert_eq!(rules.len(), 2);
    assert_eq!(rules[0].action, Action::Parking);
    assert_eq!(
        rules[0].active_dates[0].weekdays,
        Span::Range(Day::Monday, Day::Monday)
    );
    assert_eq!(rules[1].action, Action::Standing);
    assert_eq!(
        rules[1].active_dates[0].weekdays,
        Span::Range(Day::Tuesday, Day::Tuesday)
    );
}

#[test]
fn end_to_end_metered_and_whole_hour_duration() {
    let rules = parse_str("metered 1 hour parking").unwrap();
    assert_eq!(rules.len(), 1);
    assert_eq!(rules[0].action, Action::Parking);
    assert!(!rules[0].is_inverted);
    assert_eq!(rules[0].time_limit, TimeLimit::Minutes(60));
}

#[test]
fn end_to_end_month_list() {
    let rules = parse_str("no parking jan,feb").unwrap();
    assert_eq!(rules.len(), 1);
    assert_eq!(rules[0].active_dates.len(), 2);
    assert_eq!(
        rules[0].active_dates[0].months,
        Span::Range((1, Month::January), (31, Month::January))
    );
    assert_eq!(
        rules[0].active_dates[1].months,
        Span::Range((1, Month::February), (31, Month::February))
    );
}

#[test]
fn end_to_end_midnight_to_noon() {
    let rules = parse_str("no parking midnight-noon").unwrap();
    assert_eq!(rules.len(), 1);
    assert_eq!(
        rules[0].active_dates[0].hours,
        Span::Range(
            Time { hours: 0, minutes: 0 },
            Time {
                hours: 12,
                minutes: 0
            }
        )
    );
}

#[test]
fn end_to_end_minutes_in_time_range() {
    let rules = parse_str("no parking 8:30am-5:45pm").unwrap();
    assert_eq!(rules.len(), 1);
    assert_eq!(
        rules[0].active_dates[0].hours,
        Span::Range(
            Time { hours: 8, minutes: 30 },
            Time {
                hours: 17,
                minutes: 45
            }
        )
    );
}

#[test]
fn last_wins_for_repeated_modifiers() {
    let node = interior(
        Tag::Regulation,
        vec![
            leaf(Tag::Parking),
            leaf(Tag::Stopping),
            interior(Tag::Range, vec![]),
        ],
    );
    let rules = process_regulation(&node).unwrap();
    assert_eq!(rules.len(), 1);
    assert_eq!(rules[0].action, Action::Stopping);
}

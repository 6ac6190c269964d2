use readmine::date::Date;
use readmine::error::Error;
use readmine::time_range::{
    parse_time_point, parse_week_month_offset, TimePoint, TimePointRange, TimeRange,
};

fn ymd(year: i32, month: u32, day: u32) -> Date {
    Date { year, month, day }
}

#[test]
fn parse_time_point_current_month() {
    assert_eq!(parse_time_point("month").unwrap(), TimePoint::Month(0));
}

#[test]
fn parse_time_point_next_month() {
    assert_eq!(parse_time_point("month+1").unwrap(), TimePoint::Month(1));
}

#[test]
fn parse_time_point_last_month() {
    assert_eq!(parse_time_point("month-1").unwrap(), TimePoint::Month(-1));
}

#[test]
fn parse_time_point_current_week() {
    assert_eq!(parse_time_point("week").unwrap(), TimePoint::Week(0));
}

#[test]
fn parse_time_point_iso_date() {
    assert_eq!(
        parse_time_point("2019-01-23").unwrap(),
        TimePoint::Date(ymd(2019, 01, 23))
    );
}

#[test]
fn empty_string_range() {
    assert!(TimeRange::parse("", ymd(2019, 8, 24)).is_err());
}

#[test]
fn week_range() {
    assert_eq!(
        TimePointRange::parse("week-1..week+1").unwrap(),
        TimePointRange {
            from: TimePoint::Week(-1),
            to: TimePoint::Week(1),
        }
    );
}

#[test]
fn iso_range() {
    assert_eq!(
        TimePointRange::parse("2019-01-23..2019-05-09").unwrap(),
        TimePointRange {
            from: TimePoint::Date(ymd(2019, 01, 23)),
            to: TimePoint::Date(ymd(2019, 05, 09)),
        }
    );
}

#[test]
fn mixed_range() {
    assert_eq!(
        TimePointRange::parse("2019-01-23..month+3").unwrap(),
        TimePointRange {
            from: TimePoint::Date(ymd(2019, 01, 23)),
            to: TimePoint::Month(3),
        }
    );
}

#[test]
fn date_to_lower_bound() {
    let input_date = ymd(2019, 01, 23);
    let today = ymd(2019, 8, 24);
    assert_eq!(
        TimePoint::Date(input_date)
            .to_lower_bound_with_date(today)
            .unwrap(),
        ymd(2019, 1, 23)
    );
}

#[test]
fn date_to_upper_bound() {
    let input_date = ymd(2019, 01, 23);
    let today = ymd(2019, 8, 24);
    assert_eq!(
        TimePoint::Date(input_date)
            .to_upper_bound_with_date(today)
            .unwrap(),
        ymd(2019, 1, 23)
    );
}

#[test]
fn current_week_to_lower_bound() {
    assert_eq!(
        TimePoint::Week(0)
            .to_lower_bound_with_date(ymd(2019, 8, 24))
            .unwrap(),
        ymd(2019, 8, 19)
    );
}

#[test]
fn current_week_monday_to_lower_bound() {
    assert_eq!(
        TimePoint::Week(0)
            .to_lower_bound_with_date(ymd(2019, 8, 19))
            .unwrap(),
        ymd(2019, 8, 19)
    );
}

#[test]
fn current_week_sunday_to_lower_bound() {
    assert_eq!(
        TimePoint::Week(0)
            .to_lower_bound_with_date(ymd(2019, 8, 25))
            .unwrap(),
        ymd(2019, 8, 19)
    );
}

#[test]
fn current_week_to_upper_bound() {
    assert_eq!(
        TimePoint::Week(0)
            .to_upper_bound_with_date(ymd(2019, 8, 24))
            .unwrap(),
        ymd(2019, 8, 25)
    );
}

#[test]
fn current_week_monday_to_upper_bound() {
    assert_eq!(
        TimePoint::Week(0)
            .to_upper_bound_with_date(ymd(2019, 8, 19))
            .unwrap(),
        ymd(2019, 8, 25)
    );
}

#[test]
fn current_week_sunday_to_upper_bound() {
    assert_eq!(
        TimePoint::Week(0)
            .to_upper_bound_with_date(ymd(2019, 8, 25))
            .unwrap(),
        ymd(2019, 8, 25)
    );
}

#[test]
fn last_week_to_lower_bound() {
    assert_eq!(
        TimePoint::Week(-1)
            .to_lower_bound_with_date(ymd(2019, 8, 24))
            .unwrap(),
        ymd(2019, 8, 12)
    );
}

#[test]
fn last_week_to_upper_bound() {
    assert_eq!(
        TimePoint::Week(-1)
            .to_upper_bound_with_date(ymd(2019, 8, 24))
            .unwrap(),
        ymd(2019, 8, 18)
    );
}

#[test]
fn next_week_to_lower_bound() {
    assert_eq!(
        TimePoint::Week(1)
            .to_lower_bound_with_date(ymd(2019, 8, 24))
            .unwrap(),
        ymd(2019, 8, 26)
    );
}

#[test]
fn next_week_to_upper_bound() {
    assert_eq!(
        TimePoint::Week(1)
            .to_upper_bound_with_date(ymd(2019, 8, 24))
            .unwrap(),
        ymd(2019, 9, 1)
    );
}

#[test]
fn current_month_to_lower_bound() {
    assert_eq!(
        TimePoint::Month(0)
            .to_lower_bound_with_date(ymd(2019, 8, 24))
            .unwrap(),
        ymd(2019, 8, 1)
    );
}

#[test]
fn current_month_day_1_to_lower_bound() {
    assert_eq!(
        TimePoint::Month(0)
            .to_lower_bound_with_date(ymd(2019, 8, 1))
            .unwrap(),
        ymd(2019, 8, 1)
    );
}

#[test]
fn current_month_day_31_to_lower_bound() {
    assert_eq!(
        TimePoint::Month(0)
            .to_lower_bound_with_date(ymd(2019, 8, 31))
            .unwrap(),
        ymd(2019, 8, 1)
    );
}

#[test]
fn current_month_to_upper_bound() {
    assert_eq!(
        TimePoint::Month(0)
            .to_upper_bound_with_date(ymd(2019, 8, 24))
            .unwrap(),
        ymd(2019, 8, 31)
    );
}

#[test]
fn current_month_day_1_to_upper_bound() {
    assert_eq!(
        TimePoint::Month(0)
            .to_upper_bound_with_date(ymd(2019, 8, 1))
            .unwrap(),
        ymd(2019, 8, 31)
    );
}

#[test]
fn current_month_day_31_to_upper_bound() {
    assert_eq!(
        TimePoint::Month(0)
            .to_upper_bound_with_date(ymd(2019, 8, 31))
            .unwrap(),
        ymd(2019, 8, 31)
    );
}

#[test]
fn week_offsets_parse() {
    assert_eq!(parse_time_point("week+1").unwrap(), TimePoint::Week(1));
    assert_eq!(parse_time_point("week-1").unwrap(), TimePoint::Week(-1));
    assert_eq!(parse_time_point("week+12").unwrap(), TimePoint::Week(12));
}

#[test]
fn malformed_week_offsets_fail() {
    for input in ["week+", "week-", "weekX", "week1", "week+-1", "week+1x", "weeks"] {
        assert_eq!(
            parse_time_point(input),
            Err(Error::InvalidTimeRangeFormat(input.to_string()))
        );
    }
}

#[test]
fn malformed_month_offsets_fail() {
    for input in ["month+", "month-", "monthly", "month--2", "month 1"] {
        assert!(parse_time_point(input).is_err());
    }
}

#[test]
fn offset_suffixes() {
    assert_eq!(parse_week_month_offset(""), Some(0));
    assert_eq!(parse_week_month_offset("+3"), Some(3));
    assert_eq!(parse_week_month_offset("-2"), Some(-2));
    assert_eq!(parse_week_month_offset("+007"), Some(7));
    assert_eq!(parse_week_month_offset("+2147483647"), Some(2147483647));
    assert_eq!(parse_week_month_offset("+2147483648"), None);
    assert_eq!(parse_week_month_offset("-2147483647"), Some(-2147483647));
    assert_eq!(parse_week_month_offset("+"), None);
    assert_eq!(parse_week_month_offset("-"), None);
    assert_eq!(parse_week_month_offset("3"), None);
    assert_eq!(parse_week_month_offset("+-3"), None);
    assert_eq!(parse_week_month_offset("x"), None);
}

#[test]
fn iso_date_alone_is_whole_range() {
    let today = ymd(2019, 8, 24);
    assert_eq!(
        TimePointRange::parse("2019-05-09").unwrap(),
        TimePointRange {
            from: TimePoint::Date(ymd(2019, 5, 9)),
            to: TimePoint::Date(ymd(2019, 5, 9)),
        }
    );
    assert_eq!(
        TimeRange::parse("2019-05-09", today).unwrap(),
        TimeRange {
            from: ymd(2019, 5, 9),
            to: ymd(2019, 5, 9),
        }
    );
}

#[test]
fn single_point_is_used_for_both_ends() {
    assert_eq!(
        TimePointRange::parse("month-1").unwrap(),
        TimePointRange {
            from: TimePoint::Month(-1),
            to: TimePoint::Month(-1),
        }
    );
    assert_eq!(
        TimeRange::parse("week", ymd(2019, 8, 24)).unwrap(),
        TimeRange {
            from: ymd(2019, 8, 19),
            to: ymd(2019, 8, 25),
        }
    );
}

#[test]
fn iso_time_range() {
    assert_eq!(
        TimeRange::parse("2019-01-23..2019-05-09", ymd(2019, 8, 24)).unwrap(),
        TimeRange {
            from: ymd(2019, 1, 23),
            to: ymd(2019, 5, 9),
        }
    );
}

#[test]
fn mixed_time_range() {
    assert_eq!(
        TimeRange::parse("month-1..week-1", ymd(2019, 8, 24)).unwrap(),
        TimeRange {
            from: ymd(2019, 7, 1),
            to: ymd(2019, 8, 18),
        }
    );
}

#[test]
fn reversed_range_is_kept() {
    assert_eq!(
        TimeRange::parse("month+1..month-1", ymd(2019, 8, 24)).unwrap(),
        TimeRange {
            from: ymd(2019, 9, 1),
            to: ymd(2019, 7, 31),
        }
    );
}

#[test]
fn bad_range_reports_whole_input() {
    let today = ymd(2019, 8, 24);
    for input in ["week..bad", "bad..week", "2019-13-01", "..", "week..", "..week", "x"] {
        assert_eq!(
            TimeRange::parse(input, today),
            Err(Error::InvalidTimeRangeFormat(input.to_string()))
        );
    }
}

#[test]
fn first_separator_splits() {
    assert!(TimePointRange::parse("week...week").is_err());
    assert!(TimePointRange::parse("week..week..week").is_err());
}

#[test]
fn week_same_across_the_week() {
    for day in 19..=25 {
        assert_eq!(
            TimeRange::parse("week", ymd(2019, 8, day)).unwrap(),
            TimeRange {
                from: ymd(2019, 8, 19),
                to: ymd(2019, 8, 25),
            }
        );
    }
    assert_eq!(
        TimeRange::parse("week", ymd(2019, 8, 26)).unwrap(),
        TimeRange {
            from: ymd(2019, 8, 26),
            to: ymd(2019, 9, 1),
        }
    );
}

#[test]
fn week_across_year_end() {
    assert_eq!(
        TimeRange::parse("week", ymd(2020, 1, 1)).unwrap(),
        TimeRange {
            from: ymd(2019, 12, 30),
            to: ymd(2020, 1, 5),
        }
    );
    assert_eq!(
        TimeRange::parse("week+52", ymd(2019, 8, 24)).unwrap(),
        TimeRange {
            from: ymd(2020, 8, 17),
            to: ymd(2020, 8, 23),
        }
    );
}

#[test]
fn week_beyond_representable_dates() {
    let today = ymd(2019, 8, 24);
    assert_eq!(
        TimePoint::Week(i32::MAX).to_lower_bound_with_date(today),
        Err(Error::InvalidWeekOffset(i32::MAX))
    );
    assert_eq!(
        TimeRange::parse("week-2147483647", today),
        Err(Error::InvalidWeekOffset(-2147483647))
    );
}

#[test]
fn month_same_across_the_month() {
    for day in 1..=31 {
        assert_eq!(
            TimeRange::parse("month", ymd(2019, 8, day)).unwrap(),
            TimeRange {
                from: ymd(2019, 8, 1),
                to: ymd(2019, 8, 31),
            }
        );
    }
}

#[test]
fn month_lengths() {
    let cases = [
        (ymd(2019, 2, 10), 28),
        (ymd(2020, 2, 10), 29),
        (ymd(1900, 2, 10), 28),
        (ymd(2000, 2, 10), 29),
        (ymd(2019, 4, 10), 30),
        (ymd(2019, 1, 31), 31),
    ];
    for (today, last) in cases {
        assert_eq!(
            TimePoint::Month(0).to_upper_bound_with_date(today).unwrap(),
            ymd(today.year, today.month, last)
        );
    }
}

#[test]
fn december_ends_on_31st() {
    assert_eq!(
        TimeRange::parse("month", ymd(2019, 12, 10)).unwrap(),
        TimeRange {
            from: ymd(2019, 12, 1),
            to: ymd(2019, 12, 31),
        }
    );
    assert_eq!(
        TimeRange::parse("month+16", ymd(2019, 8, 24)).unwrap(),
        TimeRange {
            from: ymd(2020, 12, 1),
            to: ymd(2020, 12, 31),
        }
    );
}

#[test]
fn month_offsets_move_whole_years() {
    let today = ymd(2019, 8, 24);
    assert_eq!(
        TimeRange::parse("month+12", today).unwrap(),
        TimeRange {
            from: ymd(2020, 8, 1),
            to: ymd(2020, 8, 31),
        }
    );
    assert_eq!(
        TimeRange::parse("month-13", today).unwrap(),
        TimeRange {
            from: ymd(2018, 7, 1),
            to: ymd(2018, 7, 31),
        }
    );
    assert_eq!(
        TimeRange::parse("month-30", today).unwrap(),
        TimeRange {
            from: ymd(2017, 2, 1),
            to: ymd(2017, 2, 28),
        }
    );
}

#[test]
fn month_offset_past_year_end_fails() {
    assert_eq!(
        TimeRange::parse("month+1", ymd(2019, 12, 10)),
        Err(Error::InvalidMonthOffset(1))
    );
    assert_eq!(
        TimeRange::parse("month-1", ymd(2019, 1, 10)),
        Err(Error::InvalidMonthOffset(-1))
    );
    assert_eq!(
        TimeRange::parse("month+5", ymd(2019, 8, 24)),
        Err(Error::InvalidMonthOffset(5))
    );
    assert_eq!(
        TimePoint::Month(-13).to_upper_bound_with_date(ymd(2019, 1, 10)),
        Err(Error::InvalidMonthOffset(-13))
    );
}

#[test]
fn month_from_last_day_of_month() {
    assert_eq!(
        TimeRange::parse("month-1", ymd(2019, 3, 31)).unwrap(),
        TimeRange {
            from: ymd(2019, 2, 1),
            to: ymd(2019, 2, 28),
        }
    );
    assert_eq!(
        TimeRange::parse("month+1", ymd(2019, 8, 31)).unwrap(),
        TimeRange {
            from: ymd(2019, 9, 1),
            to: ymd(2019, 9, 30),
        }
    );
}

#[test]
fn month_beyond_representable_years() {
    assert_eq!(
        TimePoint::Month(i32::MAX).to_lower_bound_with_date(ymd(2019, 1, 1)),
        Err(Error::InvalidMonthOffset(i32::MAX))
    );
}

#[test]
fn date_constructor_checks_calendar() {
    assert_eq!(Date::new(2019, 8, 24), Some(ymd(2019, 8, 24)));
    assert_eq!(Date::new(2019, 2, 29), None);
    assert_eq!(Date::new(2020, 2, 29), Some(ymd(2020, 2, 29)));
    assert_eq!(Date::new(2019, 13, 1), None);
    assert_eq!(Date::new(2019, 4, 31), None);
    assert_eq!(Date::new(2019, 1, 0), None);
    assert_eq!(Date::new(262142, 12, 31), Some(ymd(262142, 12, 31)));
    assert_eq!(Date::new(262143, 1, 1), None);
    assert_eq!(Date::new(-262143, 1, 1), Some(ymd(-262143, 1, 1)));
    assert_eq!(Date::new(-262144, 12, 31), None);
}

#[test]
fn invalid_iso_dates_fail() {
    for input in ["2019-02-29", "2019-00-10", "2019-01-32", "2019/01/23"] {
        assert!(parse_time_point(input).is_err());
    }
    assert_eq!(
        parse_time_point("2020-02-29").unwrap(),
        TimePoint::Date(ymd(2020, 2, 29))
    );
}

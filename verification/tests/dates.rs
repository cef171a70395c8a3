//! Dates with uncertainty: periods, intervals, and the lattice of unions.
use chronoscope_core::algebra::lattice::{JoinSemilattice, MeetSemilattice};
use chronoscope_core::calendar::CalendarDate;
use chronoscope_core::date::precision::{
    period_ends_in_calendar, period_starts_in_calendar, precision_end, snap_to_precision_start,
};
use chronoscope_core::date::{
    DateBound, DateError, DatePrecision, TimeRange, TimeRangeError, UncertainDate,
};

fn d(y: i32, m: u32, d: u32) -> Option<CalendarDate> {
    CalendarDate::from_ymd_opt(y, m, d)
}

/// A single interval spanning the given year.
fn year(y: i32) -> Result<UncertainDate, DateError> {
    UncertainDate::with_precision(d(y, 1, 1).unwrap(), DatePrecision::Year)
}

/// A single interval covering the given decade.
fn decade(y: i32) -> Result<UncertainDate, DateError> {
    UncertainDate::with_precision(d(y, 1, 1).unwrap(), DatePrecision::Decade)
}

/// Whether two dates cover the same days.
fn date_denotes_same(a: &UncertainDate, b: &UncertainDate) -> bool {
    fn day_ranges(d: &UncertainDate) -> Vec<(Option<CalendarDate>, Option<CalendarDate>)> {
        d.intervals()
            .iter()
            .map(|r| {
                (
                    r.earliest().map(DateBound::period_start),
                    r.latest().map(DateBound::period_end),
                )
            })
            .collect()
    }
    day_ranges(a) == day_ranges(b)
}

#[test]
fn date_bound_snaps_to_precision() {
    let db = DateBound::new(d(2020, 6, 15).unwrap(), DatePrecision::Year).unwrap();
    assert_eq!(db.period_start(), d(2020, 1, 1).unwrap());
    assert_eq!(db.period_end(), d(2020, 12, 31).unwrap());
    assert_eq!(db.precision(), DatePrecision::Year);
}

#[test]
fn date_bound_rejects_year_0() {
    assert_eq!(
        DateBound::new(d(0, 1, 1).unwrap(), DatePrecision::Year),
        Err(DateError::Year0),
    );
}

#[test]
fn bce_decade_boundary() {
    let ud = UncertainDate::with_precision(d(-10, 1, 1).unwrap(), DatePrecision::Decade).unwrap();
    assert_eq!(ud.earliest(), Some(d(-10, 1, 1).unwrap()));
    assert_eq!(ud.latest(), Some(d(-1, 12, 31).unwrap()));
}

#[test]
fn bce_century_boundary() {
    // Year -100 (100 BCE) is still in the 1st century BCE
    let ud = UncertainDate::with_precision(d(-100, 1, 1).unwrap(), DatePrecision::Century).unwrap();
    assert_eq!(ud.earliest(), Some(d(-100, 1, 1).unwrap()));
    assert_eq!(ud.latest(), Some(d(-1, 12, 31).unwrap()));

    // Year -101 (101 BCE) is in the 2nd century BCE: -200 to -101
    let ud = UncertainDate::with_precision(d(-101, 1, 1).unwrap(), DatePrecision::Century).unwrap();
    assert_eq!(ud.earliest(), Some(d(-200, 1, 1).unwrap()));
    assert_eq!(ud.latest(), Some(d(-101, 12, 31).unwrap()));
}

#[test]
fn bce_millennium_boundary() {
    // Year -1000 is still in the 1st millennium BCE
    let ud = UncertainDate::with_precision(d(-1000, 1, 1).unwrap(), DatePrecision::Millennium).unwrap();
    assert_eq!(ud.earliest(), Some(d(-1000, 1, 1).unwrap()));
    assert_eq!(ud.latest(), Some(d(-1, 12, 31).unwrap()));

    // Year -1001 is in the 2nd millennium BCE: -2000 to -1001
    let ud = UncertainDate::with_precision(d(-1001, 1, 1).unwrap(), DatePrecision::Millennium).unwrap();
    assert_eq!(ud.earliest(), Some(d(-2000, 1, 1).unwrap()));
    assert_eq!(ud.latest(), Some(d(-1001, 12, 31).unwrap()));
}

#[test]
fn february_end_of_month() {
    // Non-leap year
    let ud = UncertainDate::with_precision(d(2019, 2, 15).unwrap(), DatePrecision::Month).unwrap();
    assert_eq!(ud.latest(), Some(d(2019, 2, 28).unwrap()));

    // Leap year
    let ud = UncertainDate::with_precision(d(2020, 2, 15).unwrap(), DatePrecision::Month).unwrap();
    assert_eq!(ud.latest(), Some(d(2020, 2, 29).unwrap()));
}

#[test]
fn december_end_of_month() {
    let ud = UncertainDate::with_precision(d(2020, 12, 15).unwrap(), DatePrecision::Month).unwrap();
    assert_eq!(ud.earliest(), Some(d(2020, 12, 1).unwrap()));
    assert_eq!(ud.latest(), Some(d(2020, 12, 31).unwrap()));
}

#[test]
fn bounded_with_independent_precision() {
    // "sometime between the 1880s and 1899"
    let ud = UncertainDate::bounded(
        Some(DateBound::new(d(1880, 1, 1).unwrap(), DatePrecision::Decade).unwrap()),
        Some(DateBound::new(d(1899, 1, 1).unwrap(), DatePrecision::Year).unwrap()),
    ).unwrap();
    assert_eq!(ud.earliest(), Some(d(1880, 1, 1).unwrap()));
    assert_eq!(ud.latest(), Some(d(1899, 12, 31).unwrap()));
}

#[test]
fn one_sided_before() {
    // "before 1950"
    let ud = UncertainDate::bounded(
        None,
        Some(DateBound::new(d(1950, 1, 1).unwrap(), DatePrecision::Year).unwrap()),
    ).unwrap();
    assert_eq!(ud.earliest(), None);
    assert_eq!(ud.latest(), Some(d(1950, 12, 31).unwrap()));
}

#[test]
fn one_sided_after() {
    // "after 1800"
    let ud = UncertainDate::bounded(
        Some(DateBound::new(d(1800, 1, 1).unwrap(), DatePrecision::Year).unwrap()),
        None,
    ).unwrap();
    assert_eq!(ud.earliest(), Some(d(1800, 1, 1).unwrap()));
    assert_eq!(ud.latest(), None);
}

#[test]
fn unknown_date() {
    let ud = UncertainDate::unknown();
    assert_eq!(ud.earliest(), None);
    assert_eq!(ud.latest(), None);
}

#[test]
fn overlaps_year_contains_day() {
    let day = UncertainDate::with_precision(d(2020, 6, 15).unwrap(), DatePrecision::Day).unwrap();
    let year = UncertainDate::with_precision(d(2020, 1, 1).unwrap(), DatePrecision::Year).unwrap();
    assert!(day.overlaps(&year));
    assert!(year.overlaps(&day));
}

#[test]
fn adjacent_years_no_overlap() {
    let y2019 = UncertainDate::with_precision(d(2019, 6, 15).unwrap(), DatePrecision::Year).unwrap();
    let y2020 = UncertainDate::with_precision(d(2020, 6, 15).unwrap(), DatePrecision::Year).unwrap();
    assert!(!y2019.overlaps(&y2020));
}

#[test]
fn unknown_overlaps_everything() {
    let unknown = UncertainDate::unknown();
    let year = UncertainDate::with_precision(d(2020, 1, 1).unwrap(), DatePrecision::Year).unwrap();
    assert!(unknown.overlaps(&year));
    assert!(year.overlaps(&unknown));
    assert!(unknown.overlaps(&unknown));
}

#[test]
fn bounded_rejects_inverted() {
    assert_eq!(
        UncertainDate::bounded(
            Some(DateBound::new(d(2000, 1, 1).unwrap(), DatePrecision::Year).unwrap()),
            Some(DateBound::new(d(1990, 1, 1).unwrap(), DatePrecision::Year).unwrap()),
        ),
        Err(DateError::InvertedRange),
    );
}

#[test]
fn with_precision_rejects_year_0() {
    assert_eq!(
        UncertainDate::with_precision(d(0, 1, 1).unwrap(), DatePrecision::Year),
        Err(DateError::Year0),
    );
}

#[test]
fn meet_disjoint_is_empty() {
    let result = year(1920).unwrap().meet(year(1950).unwrap());
    assert_eq!(result, UncertainDate::empty());
    assert_eq!(result.earliest(), None);
    assert_eq!(result.latest(), None);
}

#[test]
fn meet_overlapping_returns_intersection() {
    let result = decade(1920).unwrap().meet(year(1925).unwrap());
    assert_eq!(result.earliest(), Some(d(1925, 1, 1).unwrap()));
    assert_eq!(result.latest(), Some(d(1925, 12, 31).unwrap()));
}

#[test]
fn meet_one_sided_overlapping() {
    // "before 1950" - "after 1940" = 1940-1950
    let before = UncertainDate::bounded(
        None,
        Some(DateBound::new(d(1950, 1, 1).unwrap(), DatePrecision::Year).unwrap()),
    ).unwrap();
    let after = UncertainDate::bounded(
        Some(DateBound::new(d(1940, 1, 1).unwrap(), DatePrecision::Year).unwrap()),
        None,
    ).unwrap();
    let result = before.meet(after);
    assert_eq!(result.earliest(), Some(d(1940, 1, 1).unwrap()));
    assert_eq!(result.latest(), Some(d(1950, 12, 31).unwrap()));
}

#[test]
fn meet_one_sided_disjoint() {
    // "before 1940" - "after 1950" = empty
    let before = UncertainDate::bounded(
        None,
        Some(DateBound::new(d(1940, 1, 1).unwrap(), DatePrecision::Year).unwrap()),
    ).unwrap();
    let after = UncertainDate::bounded(
        Some(DateBound::new(d(1950, 1, 1).unwrap(), DatePrecision::Year).unwrap()),
        None,
    ).unwrap();
    assert_eq!(before.meet(after), UncertainDate::empty());
}

#[test]
fn join_disjoint_stays_disjoint() {
    // "the 1920s" - "1935" keeps two intervals - no invented gap. An
    // envelope hull would collapse to [1920, 1935] and swallow 1930-1934.
    let result = decade(1920).unwrap().join(year(1935).unwrap());
    assert_eq!(result.intervals().len(), 2);
    assert_eq!(result.earliest(), Some(d(1920, 1, 1).unwrap()));
    assert_eq!(result.latest(), Some(d(1935, 12, 31).unwrap()));
}

#[test]
fn join_adjacent_years_merge() {
    // 1929 and 1930 touch at the 1929-12-31 / 1930-01-01 boundary.
    let result = year(1929).unwrap().join(year(1930).unwrap());
    assert_eq!(result.intervals().len(), 1);
    assert_eq!(result.earliest(), Some(d(1929, 1, 1).unwrap()));
    assert_eq!(result.latest(), Some(d(1930, 12, 31).unwrap()));
}

#[test]
fn join_adjacent_decades_merge() {
    // The 1920s end 1929-12-31, the 1930s start 1930-01-01 - contiguous.
    let result = decade(1920).unwrap().join(decade(1930).unwrap());
    assert_eq!(result.intervals().len(), 1);
    assert_eq!(result.earliest(), Some(d(1920, 1, 1).unwrap()));
    assert_eq!(result.latest(), Some(d(1939, 12, 31).unwrap()));
}

#[test]
fn join_gapped_decades_stay_disjoint() {
    // A whole decade sits between the 1920s and the 1940s.
    let result = decade(1920).unwrap().join(decade(1940).unwrap());
    assert_eq!(result.intervals().len(), 2);
}

#[test]
fn join_overlapping_merges() {
    // "the 1920s" - "1925" - 1925 sits inside, so the result is one interval.
    let result = decade(1920).unwrap().join(year(1925).unwrap());
    assert_eq!(result.intervals().len(), 1);
    assert_eq!(result.earliest(), Some(d(1920, 1, 1).unwrap()));
    assert_eq!(result.latest(), Some(d(1929, 12, 31).unwrap()));
}

#[test]
fn join_unknown_absorbs() {
    let result = year(1920).unwrap().join(UncertainDate::unknown());
    assert_eq!(result, UncertainDate::unknown());
}

#[test]
fn meet_of_disjunction_intersects_each_piece() {
    // {1920, 1940} - "the 1920s" keeps only the 1920 piece.
    let disjunction = year(1920).unwrap().join(year(1940).unwrap());
    assert_eq!(disjunction.intervals().len(), 2);
    let result = disjunction.meet(decade(1920).unwrap());
    assert_eq!(result.intervals().len(), 1);
    assert_eq!(result.earliest(), Some(d(1920, 1, 1).unwrap()));
    assert_eq!(result.latest(), Some(d(1920, 12, 31).unwrap()));
}

#[test]
fn join_all_empty_is_bottom() {
    assert_eq!(UncertainDate::join_all(vec![]), UncertainDate::empty());
}

#[test]
fn meet_all_empty_is_top() {
    assert_eq!(UncertainDate::meet_all(vec![]), UncertainDate::unknown());
}

#[test]
fn join_all_singleton_is_self() {
    let a = year(1920).unwrap();
    assert_eq!(UncertainDate::join_all(vec![a.clone()]), a);
}

#[test]
fn join_all_real_bounds_not_poisoned_to_unknown() {
    // Seeding the fold from - (not -) keeps real bounds - a - seed would
    // absorb every disjunct to `unknown()`.
    let a = year(1920).unwrap();
    let b = year(1930).unwrap();
    let result = UncertainDate::join_all(vec![a, b]);
    assert_ne!(result, UncertainDate::unknown());
    assert_eq!(result.earliest(), Some(d(1920, 1, 1).unwrap()));
    assert_eq!(result.latest(), Some(d(1930, 12, 31).unwrap()));
}

#[test]
fn as_single_interval_distinguishes_storable_from_not() {
    assert!(year(1920).unwrap().as_single_interval().is_some());
    assert!(UncertainDate::unknown().as_single_interval().is_some());
    assert!(UncertainDate::empty().as_single_interval().is_none());
    let disjunction = year(1920).unwrap().join(year(1940).unwrap());
    assert!(disjunction.as_single_interval().is_none());
}

#[test]
fn date_denotes_same_discriminates() {
    // Genuinely different instant-sets must compare unequal, else the laws
    // pass vacuously.
    assert!(!date_denotes_same(&year(1000).unwrap(), &year(1001).unwrap()));

    // Equi-denotational, structurally different: "1927" at year precision
    // and the same span pinned with day-precision bounds cover the same days
    // but carry different `DatePrecision`, so structural `==` would split
    // them while the denotational oracle treats them as one.
    let year_form = year(1927).unwrap();
    let day_form = UncertainDate::bounded(
        Some(DateBound::new(d(1927, 1, 1).unwrap(), DatePrecision::Day).unwrap()),
        Some(DateBound::new(d(1927, 12, 31).unwrap(), DatePrecision::Day).unwrap()),
    ).unwrap();
    assert_ne!(year_form, day_form);
    assert!(date_denotes_same(&year_form, &day_form));
}

#[test]
fn precisions_start_and_end_their_periods() {
    let cases = [
        (DatePrecision::Day, d(1987, 5, 20), d(1987, 5, 20)),
        (DatePrecision::Month, d(1987, 5, 1), d(1987, 5, 31)),
        (DatePrecision::Year, d(1987, 1, 1), d(1987, 12, 31)),
        (DatePrecision::Decade, d(1980, 1, 1), d(1989, 12, 31)),
        (DatePrecision::Century, d(1901, 1, 1), d(2000, 12, 31)),
        (DatePrecision::Millennium, d(1001, 1, 1), d(2000, 12, 31)),
    ];
    for (precision, first, last) in cases {
        let ud = UncertainDate::with_precision(d(1987, 5, 20).unwrap(), precision).unwrap();
        assert_eq!(ud.earliest(), first);
        assert_eq!(ud.latest(), last);
        let again = UncertainDate::with_precision(first.unwrap(), precision).unwrap();
        assert_eq!(again, ud, "the first day has the same period");
    }
}

#[test]
fn the_last_day_of_a_period_snaps_back_and_the_next_starts_another() {
    let cases = [
        (DatePrecision::Day, d(1988, 2, 28), d(1988, 2, 29)),
        (DatePrecision::Month, d(1988, 2, 11), d(1988, 3, 1)),
        (DatePrecision::Month, d(1987, 12, 3), d(1988, 1, 1)),
        (DatePrecision::Year, d(-44, 3, 15), d(-43, 1, 1)),
        (DatePrecision::Decade, d(7, 3, 3), d(10, 1, 1)),
        (DatePrecision::Decade, d(-15, 3, 3), d(-10, 1, 1)),
        (DatePrecision::Century, d(-150, 3, 3), d(-100, 1, 1)),
        (DatePrecision::Century, d(1987, 5, 20), d(2001, 1, 1)),
        (DatePrecision::Millennium, d(1987, 5, 20), d(2001, 1, 1)),
    ];
    for (precision, day, next) in cases {
        let period = UncertainDate::with_precision(day.unwrap(), precision).unwrap();
        let end = period.latest().unwrap();
        assert_eq!(UncertainDate::with_precision(end, precision).unwrap(), period);
        let after = UncertainDate::with_precision(next.unwrap(), precision).unwrap();
        assert_eq!(after.earliest(), next);
        assert!(end < next.unwrap());
        let first = snap_to_precision_start(day.unwrap(), precision);
        assert_eq!(precision_end(first, precision), end);
        assert_eq!(snap_to_precision_start(end, precision), first);
        assert_eq!(snap_to_precision_start(next.unwrap(), precision), next.unwrap());
    }
    // There is no year 0: year 1 follows year -1.
    for precision in [DatePrecision::Decade, DatePrecision::Century, DatePrecision::Millennium] {
        let last = UncertainDate::with_precision(d(-1, 6, 1).unwrap(), precision).unwrap();
        assert_eq!(last.latest(), d(-1, 12, 31));
        let first = UncertainDate::with_precision(d(1, 6, 1).unwrap(), precision).unwrap();
        assert_eq!(first.earliest(), d(1, 1, 1));
    }
}

#[test]
fn first_decade_of_the_common_era_starts_in_year_one() {
    let ud = UncertainDate::with_precision(d(7, 3, 3).unwrap(), DatePrecision::Decade).unwrap();
    assert_eq!(ud.earliest(), d(1, 1, 1));
    assert_eq!(ud.latest(), d(9, 12, 31));
}

#[test]
fn errors_say_what_is_wrong() {
    assert_eq!(
        DateError::Year0.to_string(),
        "year 0 does not exist in historical convention (use -1 for 1 BCE)"
    );
    assert_eq!(DateError::InvertedRange.to_string(), "range: earliest must be <= latest");
    let early = DateBound::new(d(2000, 1, 1).unwrap(), DatePrecision::Year).unwrap();
    let late = DateBound::new(d(1990, 1, 1).unwrap(), DatePrecision::Year).unwrap();
    let error = TimeRange::new(Some(early), Some(late)).unwrap_err();
    assert_eq!(error, TimeRangeError::EndpointsInverted { earliest: early, latest: late });
    assert_eq!(DateError::from(error), DateError::InvertedRange);
}

#[test]
fn a_range_contains_the_days_between_its_ends() {
    let bound = DateBound::new(d(1920, 1, 1).unwrap(), DatePrecision::Decade).unwrap();
    let range = TimeRange::new(Some(bound), Some(bound)).unwrap();
    assert!(range.contains(d(1920, 1, 1).unwrap()));
    assert!(range.contains(d(1929, 12, 31).unwrap()));
    assert!(!range.contains(d(1919, 12, 31).unwrap()));
    assert!(!range.contains(d(1930, 1, 1).unwrap()));
    assert!(TimeRange::unbounded().contains(d(-300, 1, 1).unwrap()));
}

#[test]
fn calendar_steps_over_month_and_year_ends() {
    let day = |y, m, n| UncertainDate::with_precision(d(y, m, n).unwrap(), DatePrecision::Day).unwrap();
    let touch = |a: &UncertainDate, b: &UncertainDate| a.join(b).intervals().len() == 1;
    assert!(touch(&day(2020, 2, 29), &day(2020, 3, 1)));
    assert!(touch(&day(2019, 2, 28), &day(2019, 3, 1)));
    assert!(!touch(&day(2020, 2, 28), &day(2020, 3, 1)));
    assert!(touch(&day(2019, 12, 31), &day(2020, 1, 1)));
    let month_end =
        |y, m| DateBound::new(d(y, m, 1).unwrap(), DatePrecision::Month).unwrap().period_end();
    assert_eq!(Some(month_end(2020, 2)), d(2020, 2, 29));
    assert_eq!(Some(month_end(1900, 2)), d(1900, 2, 28));
    assert_eq!(Some(month_end(2019, 12)), d(2019, 12, 31));
    assert_eq!(d(2019, 2, 29), None);
    assert_eq!(d(1900, 2, 29), None);
    assert_eq!(d(2000, 13, 1), None);
    assert!(d(1999, 12, 31).unwrap().is_before(&d(2000, 1, 1).unwrap()));
}

#[test]
fn canonical_form_does_not_depend_on_order() {
    let ranges: Vec<TimeRange> = [1950, 1920, 1921, 1935]
        .iter()
        .map(|y| *year(*y).unwrap().as_single_interval().unwrap())
        .collect();
    let mut turned = ranges.clone();
    turned.reverse();
    let a = UncertainDate::from_ranges(ranges);
    let b = UncertainDate::from_ranges(turned);
    assert_eq!(a, b);
    assert_eq!(a.intervals().len(), 3, "1920 and 1921 merge");
    assert_eq!(UncertainDate::from_ranges(a.intervals().to_vec()), a);
}

#[test]
fn overlap_is_a_meet_that_is_not_empty() {
    let a = year(1920).unwrap().join(year(1940).unwrap());
    let b = decade(1940).unwrap();
    let c = decade(1930).unwrap();
    assert!(a.overlaps(&b));
    assert_ne!(UncertainDate::meet(&a, &b), UncertainDate::empty());
    assert!(!a.overlaps(&c));
    assert_eq!(UncertainDate::meet(&a, &c), UncertainDate::empty());
    assert!(!UncertainDate::empty().overlaps(&a));
}

#[test]
fn lattice_laws_hold_on_sample_dates() {
    let samples = vec![
        UncertainDate::unknown(),
        UncertainDate::empty(),
        year(1920).unwrap(),
        decade(1920).unwrap(),
        year(1920).unwrap().join(year(1950).unwrap()),
        UncertainDate::bounded(
            None,
            Some(DateBound::new(d(1925, 1, 1).unwrap(), DatePrecision::Year).unwrap()),
        )
        .unwrap(),
    ];
    for a in &samples {
        assert_eq!(UncertainDate::join(a, a), *a);
        assert_eq!(UncertainDate::meet(a, a), *a);
        assert_eq!(UncertainDate::join(a, &UncertainDate::empty()), *a);
        assert_eq!(UncertainDate::meet(a, &UncertainDate::unknown()), *a);
        assert_eq!(UncertainDate::meet(a, &UncertainDate::empty()), UncertainDate::empty());
        assert_eq!(UncertainDate::join(a, &UncertainDate::unknown()), UncertainDate::unknown());
        for b in &samples {
            assert_eq!(UncertainDate::join(a, b), UncertainDate::join(b, a));
            assert_eq!(UncertainDate::meet(a, b), UncertainDate::meet(b, a));
            let join = UncertainDate::join(a, b);
            assert!(date_denotes_same(&UncertainDate::meet(a, &join), a));
            let meet = UncertainDate::meet(a, b);
            assert!(date_denotes_same(&UncertainDate::join(a, &meet), a));
            for c in &samples {
                assert_eq!(
                    UncertainDate::join(&UncertainDate::join(a, b), c),
                    UncertainDate::join(a, &UncertainDate::join(b, c))
                );
                assert_eq!(
                    UncertainDate::meet(&UncertainDate::meet(a, b), c),
                    UncertainDate::meet(a, &UncertainDate::meet(b, c))
                );
                assert!(date_denotes_same(
                    &UncertainDate::meet(a, &UncertainDate::join(b, c)),
                    &UncertainDate::join(
                        &UncertainDate::meet(a, b),
                        &UncertainDate::meet(a, c)
                    )
                ));
            }
        }
    }
    let all: Vec<UncertainDate> = samples[2..5].to_vec();
    let low = UncertainDate::meet_all(all.clone());
    let high = UncertainDate::join_all(all);
    assert!(date_denotes_same(&UncertainDate::join(&low, &high), &high));
}

#[test]
fn joining_dates_into_the_bottom_is_recognised() {
    assert!(UncertainDate::bottom().is_bottom());
    assert!(!UncertainDate::top().is_bottom());
    assert!(UncertainDate::empty().is_empty());
}

#[test]
fn periods_at_the_edge_of_the_calendar_are_told_apart() {
    let first = d(-262143, 1, 1).unwrap();
    let last = d(262142, 12, 31).unwrap();
    assert!(d(-262144, 12, 31).is_none() && d(262143, 1, 1).is_none());
    assert!(period_starts_in_calendar(first, DatePrecision::Year));
    assert!(!period_starts_in_calendar(first, DatePrecision::Decade));
    assert!(period_ends_in_calendar(last, DatePrecision::Year));
    assert!(!period_ends_in_calendar(last, DatePrecision::Century));
    let bound = DateBound::new(last, DatePrecision::Millennium).unwrap();
    assert_eq!(Some(bound.period_start()), d(262001, 1, 1));
    assert!(!bound.has_end());
}

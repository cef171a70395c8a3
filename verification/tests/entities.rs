//! Entities, the consistency of their lives, and listings of a viewport.
use std::cell::RefCell;
use std::collections::BTreeSet;

use chronoscope_core::calendar::CalendarDate;
use chronoscope_core::consistency::ConsistencyWarning;
use chronoscope_core::date::{DateBound, DatePrecision, UncertainDate};
use chronoscope_core::entity::{Entity, EntityName, EntityTransition, NameType};
use chronoscope_core::evidence::Cited;
use chronoscope_core::facts::ids::FactId;
use chronoscope_core::facts::listing::{
    distinct_representatives, summaries_in_bbox, timeline_span, ClassPage, EntityLocation,
    GeoPoint, ListCursor, ListError, ListedEntity, TimelineEntry,
};
use chronoscope_core::facts::pagination::{advance, Walk};
use chronoscope_core::facts::schema::{FactPage, PageItem};
use chronoscope_core::facts::web::LanguageTag;

// References are not looked at here.
type TestEntity = Entity<(), ()>;
type TestTransition = EntityTransition<(), ()>;

fn day(y: i32, m: u32, d: u32) -> CalendarDate {
    CalendarDate::from_ymd_opt(y, m, d).unwrap()
}

fn exact(y: i32, m: u32, d: u32) -> Option<Cited<UncertainDate, ()>> {
    Some(Cited::uncited(
        UncertainDate::with_precision(day(y, m, d), DatePrecision::Day).unwrap(),
    ))
}

fn year(y: i32) -> UncertainDate {
    UncertainDate::with_precision(day(y, 1, 1), DatePrecision::Year).unwrap()
}

fn lived(transitions: Vec<TestTransition>) -> TestEntity {
    Entity { names: vec![], transitions }
}

fn named(names: Vec<EntityName>) -> TestEntity {
    Entity { names: names.into_iter().map(Cited::uncited).collect(), transitions: vec![] }
}

fn constructed(
    started_at: Option<Cited<UncertainDate, ()>>,
    completed_at: Option<Cited<UncertainDate, ()>>,
) -> TestTransition {
    EntityTransition::Constructed { started_at, completed_at, location: None, trigger_event: None }
}

fn modified(
    started_at: Option<Cited<UncertainDate, ()>>,
    completed_at: Option<Cited<UncertainDate, ()>>,
) -> TestTransition {
    EntityTransition::Modified { started_at, completed_at, description: None, trigger_event: None }
}

fn demolished(
    started_at: Option<Cited<UncertainDate, ()>>,
    completed_at: Option<Cited<UncertainDate, ()>>,
) -> TestTransition {
    EntityTransition::Demolished { started_at, completed_at, cause: None, trigger_event: None }
}

fn usage_modified(occurred_at: Option<Cited<UncertainDate, ()>>) -> TestTransition {
    EntityTransition::UsageModified {
        occurred_at,
        new_usages: BTreeSet::new(),
        description: None,
        trigger_event: None,
    }
}

#[test]
fn completion_before_start() {
    let warnings =
        lived(vec![constructed(exact(1950, 1, 1), exact(1940, 1, 1))]).check_consistency();
    assert_eq!(warnings.len(), 1);
    assert!(matches!(warnings[0], ConsistencyWarning::CompletionBeforeStart { .. }));
    assert_eq!(
        warnings[0],
        ConsistencyWarning::CompletionBeforeStart {
            started_earliest: day(1950, 1, 1),
            completed_latest: day(1940, 1, 1),
        }
    );
}

#[test]
fn completion_before_start_on_demolition() {
    let warnings =
        lived(vec![demolished(exact(1950, 1, 1), exact(1940, 1, 1))]).check_consistency();
    assert_eq!(warnings.len(), 1);
    assert!(matches!(warnings[0], ConsistencyWarning::CompletionBeforeStart { .. }));
}

#[test]
fn valid_construction() {
    let entity = lived(vec![constructed(exact(1940, 1, 1), exact(1950, 1, 1))]);
    assert!(entity.check_consistency().is_empty());
}

#[test]
fn same_year_is_ok() {
    let in_year = |m: u32, d: u32| {
        Some(Cited::uncited(
            UncertainDate::with_precision(day(1830, m, d), DatePrecision::Year).unwrap(),
        ))
    };
    let entity = lived(vec![constructed(in_year(6, 15), in_year(9, 20))]);
    assert!(entity.check_consistency().is_empty(), "Same year should not be flagged");
}

#[test]
fn demolished_completed_at_fallback() {
    let entity = lived(vec![
        modified(exact(2010, 1, 1), None),
        demolished(None, exact(2000, 1, 1)),
    ]);
    assert!(
        entity
            .check_consistency()
            .iter()
            .any(|w| matches!(w, ConsistencyWarning::EventAfterDemolished { .. })),
        "Should detect event after demolition when only completed_at is set"
    );
}

#[test]
fn reports_all_post_demolition_events() {
    let entity = lived(vec![
        demolished(exact(2000, 1, 1), None),
        modified(exact(2005, 1, 1), None),
        EntityTransition::Repaired {
            started_at: exact(2010, 1, 1),
            completed_at: None,
            description: None,
            trigger_event: None,
        },
    ]);
    let after_demolished = entity
        .check_consistency()
        .iter()
        .filter(|w| matches!(w, ConsistencyWarning::EventAfterDemolished { .. }))
        .count();
    assert_eq!(after_demolished, 2, "Should report both post-demolition events");
}

#[test]
fn name_validity_inverted() {
    let warnings = named(vec![EntityName {
        name: "Old Name".to_string(),
        name_type: NameType::Historical,
        language: LanguageTag::parse("en").unwrap(),
        valid_from: Some(year(2000)),
        valid_to: Some(year(1990)),
    }])
    .check_consistency();
    assert_eq!(warnings.len(), 1);
    assert!(matches!(
        &warnings[0],
        ConsistencyWarning::NameValidityInverted { name, .. } if name == "Old Name"
    ));
}

#[test]
fn an_open_name_validity_is_not_inverted() {
    let name = |from, to| EntityName {
        name: "Name".to_string(),
        name_type: NameType::Common,
        language: LanguageTag::parse("en").unwrap(),
        valid_from: Some(from),
        valid_to: Some(to),
    };
    let entity = named(vec![
        name(year(1990), UncertainDate::unknown()),
        name(UncertainDate::unknown(), year(1990)),
        name(year(1990), year(1990)),
    ]);
    assert!(entity.check_consistency().is_empty());
}

#[test]
fn events_out_of_order() {
    // A life begins with its construction, and the dates say otherwise.
    let entity = lived(vec![
        usage_modified(exact(1900, 1, 1)),
        constructed(exact(2000, 1, 1), None),
    ]);
    let warnings = entity.check_consistency();
    assert!(
        warnings.iter().any(|w| matches!(w, ConsistencyWarning::EventsOutOfOrder { .. })),
        "Should detect events listed out of chronological order"
    );
    assert_eq!(
        warnings,
        vec![ConsistencyWarning::EventsOutOfOrder {
            earlier_date: day(1900, 1, 1),
            later_date: day(2000, 1, 1),
        }]
    );
}

#[test]
fn event_after_demolished_with_only_completed_at() {
    let entity = lived(vec![
        demolished(exact(2000, 1, 1), None),
        modified(None, exact(2010, 1, 1)),
    ]);
    assert!(
        entity
            .check_consistency()
            .iter()
            .any(|w| matches!(w, ConsistencyWarning::EventAfterDemolished { .. })),
        "modified completed_at=2010 after demolished=2000 should fire EventAfterDemolished"
    );
}

#[test]
fn multiple_constructions() {
    let entity = lived(vec![
        constructed(exact(1900, 1, 1), None),
        constructed(exact(1950, 1, 1), None),
    ]);
    assert!(
        entity
            .check_consistency()
            .iter()
            .any(|w| matches!(w, ConsistencyWarning::MultipleConstructions { count: 2 })),
        "Should detect multiple construction events"
    );
}

#[test]
fn name_validity_normal_is_ok() {
    let entity = named(vec![EntityName {
        name: "Current Name".to_string(),
        name_type: NameType::Official,
        language: LanguageTag::parse("en").unwrap(),
        valid_from: Some(year(1990)),
        valid_to: Some(year(2000)),
    }]);
    assert!(entity.check_consistency().is_empty(), "Valid name range should not be flagged");
}

#[test]
fn earliest_known_date() {
    let d = |y: i32| Some(Cited::uncited(year(y)));
    let cases: Vec<(&str, TestTransition, Option<i32>)> = vec![
        ("Constructed: both unknown", constructed(None, None), None),
        ("Constructed: started only", constructed(d(1900), None), Some(1900)),
        ("Constructed: completed only", constructed(None, d(1889)), Some(1889)),
        ("Constructed: both, started wins", constructed(d(1880), d(1889)), Some(1880)),
        ("UsageModified: present", usage_modified(d(1888)), Some(1888)),
        ("UsageModified: absent", usage_modified(None), None),
    ];
    for (desc, t, expected_year) in cases {
        let got = t.earliest_known_date().and_then(|c| c.value.earliest()).map(|d| d.year);
        assert_eq!(got, expected_year, "{desc}");
    }
}

#[test]
fn transitions_have_names() {
    assert_eq!(constructed(None, None).to_string(), "constructed");
    assert_eq!(usage_modified(None).to_string(), "usage_modified");
    assert_eq!(demolished(None, None).to_string(), "demolished");
}

#[test]
fn best_name_prefers_the_language() {
    let name = |text: &str, tag: &str| EntityName {
        name: text.to_string(),
        name_type: NameType::Common,
        language: LanguageTag::parse(tag).unwrap(),
        valid_from: None,
        valid_to: None,
    };
    let entity =
        named(vec![name("Tour Eiffel", "fr"), name("Eiffel Tower", "en-GB"), name("Tower", "en")]);
    assert_eq!(entity.best_name("en"), Some("Eiffel Tower"));
    assert_eq!(entity.best_name("de"), Some("Tour Eiffel"));
    assert_eq!(lived(vec![]).best_name("en"), None);
}

// --- Listings ---

fn point(x: f64, y: f64) -> GeoPoint {
    GeoPoint { latitude: x.to_bits(), longitude: y.to_bits() }
}

fn listed(id: u64, location: EntityLocation, dates: Vec<UncertainDate>) -> ListedEntity<u64> {
    ListedEntity { id, names: vec![], location, timeline: vec![TimelineEntry { dates }] }
}

fn in_box(p: GeoPoint) -> bool {
    let (x, y) = (f64::from_bits(p.latitude), f64::from_bits(p.longitude));
    (0.0..=1.0).contains(&x) && (0.0..=1.0).contains(&y)
}

/// Odd entities lie in view, even ones do not resolve.
fn project(id: u64) -> Result<ListedEntity<u64>, String> {
    if id == 99 {
        return Err("no such class".to_string());
    }
    let location = if id % 2 == 1 {
        EntityLocation::Point(point(0.5, 0.5))
    } else if id % 4 == 0 {
        EntityLocation::Point(point(5.0, 0.5))
    } else {
        EntityLocation::Unresolved
    };
    Ok(listed(id, location, vec![year(1900 + id as i32)]))
}

/// The classes from 1 to 10, two to a page, each with two rows.
fn pages(after: Option<u64>) -> Result<ClassPage<u64, u64>, String> {
    let first = after.unwrap_or(0) + 1;
    if first > 10 {
        return Ok(ClassPage { rows: vec![], next_class: None });
    }
    Ok(ClassPage {
        rows: vec![first, first, first + 1, first + 1],
        next_class: if first + 1 < 10 { Some(first + 1) } else { None },
    })
}

#[test]
fn points_compare_as_the_numbers_in_them_do() {
    assert_eq!(point(0.0, 1.0), point(-0.0, 1.0));
    assert_ne!(point(0.0, 1.0), point(1.0, 0.0));
    assert_ne!(point(f64::NAN, 1.0), point(f64::NAN, 1.0));
    assert_eq!(EntityLocation::Point(point(0.0, 1.0)), EntityLocation::Point(point(-0.0, 1.0)));
}

#[test]
fn a_listing_gathers_what_is_in_view_until_the_page_is_full() {
    let snapshot = FactId::new(7);
    let page = summaries_in_bbox(snapshot, &pages, &project, &in_box, None, 2).unwrap();
    assert_eq!(page.summaries.iter().map(|s| s.id).collect::<Vec<_>>(), vec![1, 3]);
    assert_eq!(page.next, Some(ListCursor { snapshot, walk: 4 }));
    assert_eq!(page.summaries[0].earliest, Some(day(1901, 1, 1)));
    assert_eq!(page.summaries[0].latest, Some(day(1901, 12, 31)));
    let rest = summaries_in_bbox(snapshot, &pages, &project, &in_box, page.next, 100).unwrap();
    assert_eq!(rest.summaries.iter().map(|s| s.id).collect::<Vec<_>>(), vec![5, 7, 9]);
    assert_eq!(rest.next, None);
}

#[test]
fn a_listing_refuses_a_cursor_from_another_snapshot() {
    let cursor = ListCursor { snapshot: FactId::new(3), walk: 4u64 };
    let r = summaries_in_bbox(FactId::new(7), &pages, &project, &in_box, Some(cursor), 2);
    assert_eq!(r, Err(ListError::SnapshotMismatch));
}

#[test]
fn a_listing_breaks_off_where_the_walk_or_a_projection_fails() {
    let failing = |_: Option<u64>| -> Result<ClassPage<u64, u64>, String> {
        Err("walk failed".to_string())
    };
    assert_eq!(
        summaries_in_bbox(FactId::new(7), &failing, &project, &in_box, None, 2),
        Err(ListError::Backend("walk failed".to_string()))
    );
    let odd_one = |_: Option<u64>| -> Result<ClassPage<u64, u64>, String> {
        Ok(ClassPage { rows: vec![1, 99, 3], next_class: None })
    };
    assert_eq!(
        summaries_in_bbox(FactId::new(7), &odd_one, &project, &in_box, None, 2),
        Err(ListError::Backend("no such class".to_string()))
    );
}

#[test]
fn a_listing_projects_each_class_once() {
    let seen: RefCell<Vec<u64>> = RefCell::new(Vec::new());
    let counting = |id: u64| {
        seen.borrow_mut().push(id);
        project(id)
    };
    summaries_in_bbox(FactId::new(7), &pages, &counting, &in_box, None, 100).unwrap();
    assert_eq!(*seen.borrow(), (1..=10).collect::<Vec<u64>>());
    assert_eq!(distinct_representatives(&vec![1u64, 1, 2, 1]), vec![1, 2, 1]);
}

#[test]
fn the_span_of_a_timeline_takes_the_outermost_bounds() {
    let before = UncertainDate::bounded(
        None,
        Some(DateBound::new(day(1990, 1, 1), DatePrecision::Decade).unwrap()),
    )
    .unwrap();
    let timeline = vec![
        TimelineEntry { dates: vec![year(1950), year(1920)] },
        TimelineEntry { dates: vec![before, UncertainDate::unknown()] },
    ];
    assert_eq!(timeline_span(&timeline), (Some(day(1920, 1, 1)), Some(day(1999, 12, 31))));
    assert_eq!(timeline_span(&vec![]), (None, None));
}

#[test]
fn a_walk_ends_with_a_page_without_a_cursor() {
    let start: Walk<FactId> = Walk::Opening;
    assert_eq!(start.pending(), Some(None));
    let page: FactPage<u8, u64> = FactPage {
        items: vec![PageItem { fact_id: FactId::new(3), fact: 1, representative: 8 }],
        next_cursor: Some(FactId::new(4)),
    };
    let (rows, walk) = advance(page);
    assert_eq!(rows.len(), 1);
    assert_eq!(walk.pending(), Some(Some(FactId::new(4))));
    // A page without rows goes on where it has a cursor.
    let empty: FactPage<u8, u64> = FactPage { items: vec![], next_cursor: Some(FactId::new(9)) };
    assert_eq!(advance(empty).1, Walk::Past(FactId::new(9)));
    let last: FactPage<u8, u64> = FactPage { items: vec![], next_cursor: None };
    assert_eq!(advance(last).1.pending(), None);
}

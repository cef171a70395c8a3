//! Supports, conflicts and their reports.
use std::collections::BTreeSet;

use chronoscope_core::algebra::lattice::{JoinSemilattice, MeetSemilattice};
use chronoscope_core::algebra::monoid::CommutativeMonoid;
use chronoscope_core::algebra::ordered::OrderedSet;
use chronoscope_core::algebra::semiring::{Label, Semiring, Support};
use chronoscope_core::calendar::CalendarDate;
use chronoscope_core::claimed::Claimed;
use chronoscope_core::conflicts::detect::minimal_fighting_sets;
use chronoscope_core::conflicts::minimize::{meet_of, minimize};
use chronoscope_core::conflicts::report::{
    conflict_bytes, ConflictId, ConflictLocation, ConflictPath, ConflictReport, EventEndpoint,
    Resolution,
};
use chronoscope_core::date::{DatePrecision, UncertainDate};
use chronoscope_core::facts::ids::FactId;
use chronoscope_core::nonempty::NonEmptyVec;

fn year(y: i32) -> UncertainDate {
    UncertainDate::with_precision(
        CalendarDate::from_ymd_opt(y, 1, 1).unwrap(),
        DatePrecision::Year,
    )
    .unwrap()
}

fn of(values: &[u8]) -> Claimed<u8> {
    Claimed::Of { values: OrderedSet::from_vec(values.to_vec()) }
}

fn values(claim: &Claimed<u8>) -> Option<Vec<u8>> {
    match claim {
        Claimed::Of { values } => Some(values.as_slice().to_vec()),
        Claimed::Any => None,
    }
}

fn ids(numbers: &[u64]) -> Vec<FactId> {
    numbers.iter().copied().map(FactId::new).collect()
}

fn all_facts(premises: &[(FactId, Claimed<u8>)]) -> OrderedSet<FactId> {
    OrderedSet::from_vec(premises.iter().map(|(fact, _)| *fact).collect())
}

// --- Minimizing ---

#[test]
fn disjoint_years_minimize_to_both_facts() {
    let d1850 = year(1850);
    let d1860 = year(1860);
    assert!(
        UncertainDate::meet(&d1850, &d1860).is_bottom(),
        "two disjoint years must meet to bottom"
    );
    let premises = vec![(FactId::new(1), d1850), (FactId::new(2), d1860)];
    let keep = minimize(&premises).expect("expected Some");
    assert_eq!(
        keep.into_vec(),
        vec![FactId::new(1), FactId::new(2)],
        "each disjoint year is essential, so both facts survive"
    );
}

#[test]
fn disjoint_claimed_sets_minimize_to_both_facts() {
    let premises = vec![(FactId::new(1), of(&[1, 2])), (FactId::new(2), of(&[3]))];
    assert!(
        meet_of(&premises, &all_facts(&premises), None).is_bottom(),
        "disjoint claimed sets meet to the empty Of, which is bottom"
    );
    let keep = minimize(&premises).expect("expected Some");
    assert_eq!(
        keep.into_vec(),
        vec![FactId::new(1), FactId::new(2)],
        "each disjoint claim is essential, so both facts survive"
    );
}

#[test]
fn non_bottom_meet_yields_none() {
    // The positions of the bits of 0b1100 and of 0b0110, which agree on 0b0100:
    // the slot is consistent and there is no fighting set to attribute.
    let premises = vec![(FactId::new(1), of(&[2, 3])), (FactId::new(2), of(&[1, 2]))];
    let joint = meet_of(&premises, &all_facts(&premises), None);
    assert_eq!(values(&joint), Some(vec![2]));
    assert!(!joint.is_bottom(), "the joint meet is 0b0100, which is not bottom");
    assert!(
        minimize(&premises).is_none(),
        "a non-bottom joint meet has no minimal fighting set"
    );
}

#[test]
fn minimizing_drops_redundant_facts_in_any_order() {
    // 2 and 4 fight; 1 and 3 contain everything they say.
    let mut premises = vec![
        (FactId::new(1), of(&[1, 2, 3])),
        (FactId::new(2), of(&[1])),
        (FactId::new(3), Claimed::Any),
        (FactId::new(4), of(&[2])),
    ];
    let kept = minimize(&premises).unwrap().into_vec();
    assert_eq!(kept, ids(&[2, 4]));
    premises.reverse();
    assert_eq!(minimize(&premises).unwrap().into_vec(), kept);
    // Without either of the two, nothing fights.
    let skipped = meet_of(&premises, &all_facts(&premises), Some(FactId::new(2)));
    assert!(!skipped.is_bottom());
}

#[test]
fn pairwise_overlapping_disjunctions_fall_through_to_minimize() {
    // A = {1000, 2000}, B = {2000, 3000}, C = {1000, 3000}: each pair shares
    // one year (overlaps), all three share none (meet empty).
    let a = UncertainDate::join(&year(1000), &year(2000));
    let b = UncertainDate::join(&year(2000), &year(3000));
    let c = UncertainDate::join(&year(1000), &year(3000));
    assert!(a.overlaps(&b) && a.overlaps(&c) && b.overlaps(&c), "pairwise overlap");

    let premises = vec![(FactId::new(1), a), (FactId::new(2), b), (FactId::new(3), c)];
    let sets = minimal_fighting_sets(&premises);
    assert_eq!(sets.len(), 1, "no disjoint pair, so the backstop fires once");
    let contributing: BTreeSet<FactId> = sets[0].to_vec().into_iter().collect();
    assert_eq!(
        contributing,
        BTreeSet::from([FactId::new(1), FactId::new(2), FactId::new(3)]),
        "every disjunction is essential to the empty meet"
    );
}

#[test]
fn disjoint_pairs_are_fighting_sets() {
    let premises = vec![
        (FactId::new(1), year(1900)),
        (FactId::new(2), year(1950)),
        (FactId::new(3), year(1900)),
    ];
    let sets: Vec<Vec<FactId>> =
        minimal_fighting_sets(&premises).into_iter().map(|s| s.into_vec()).collect();
    assert_eq!(sets, vec![ids(&[1, 2]), ids(&[2, 3])]);
    assert!(minimal_fighting_sets(&premises[..1]).is_empty());
    assert!(minimal_fighting_sets(&[]).is_empty());
}

// --- Claims ---

#[test]
fn claims_join_and_meet_as_sets() {
    assert_eq!(values(&of(&[3, 1]).combine(of(&[2, 3]))), Some(vec![1, 2, 3]));
    assert_eq!(values(&of(&[3, 1]).meet(of(&[2, 3]))), Some(vec![3]));
    assert_eq!(values(&Claimed::Any.meet(of(&[2]))), Some(vec![2]));
    assert_eq!(values(&Claimed::Any.combine(of(&[2]))), None);
    assert!(Claimed::<u8>::bottom().is_bottom());
    assert!(!Claimed::<u8>::top().is_bottom());
    assert_eq!(values(&Claimed::join_all(vec![of(&[1]), of(&[5])])), Some(vec![1, 5]));
    assert_eq!(values(&Claimed::meet_all(vec![of(&[1, 5]), of(&[5])])), Some(vec![5]));
}

// --- Supports ---

#[test]
fn supports_keep_minimal_environments() {
    let a: Label<u64> = Label::premise(1u64);
    let b = Label::premise(2u64);
    // 1 or (1 and 2) is 1.
    let both = Label::premise(1u64).times(Label::premise(2u64));
    assert!(Label::premise(1u64).plus(both).same(&a));
    // (1 or 2) and 1 is 1.
    assert!(Label::premise(1u64).plus(Label::premise(2u64)).times(Label::premise(1u64)).same(&a));
    assert!(!a.same(&b));
    assert!(Label::<u64>::zero().is_zero());
    assert!(!Label::<u64>::one().is_zero());
    assert!(Label::premise(1u64).times(Label::zero()).is_zero());
    assert!(Label::premise(1u64).times(Label::one()).same(&a));
    assert!(Label::premise(1u64).plus(Label::zero()).same(&a));
    assert_eq!(
        Label::premise(7u64).times(Label::premise(3u64)).plus(Label::premise(5u64)).atoms(),
        vec![3, 5, 7]
    );
}

#[test]
fn mapping_atoms_minimizes_again() {
    // 1 and 2 become one atom, which then supports alone.
    let label = Label::premise(1u64).times(Label::premise(3u64)).plus(Label::premise(2u64));
    let mapped = label.map_atoms(|x: u64| if x <= 2 { 0u64 } else { x });
    assert!(mapped.same(&Label::premise(0u64)));
}

#[test]
fn ordered_sets_keep_their_members_ascending() {
    let mut set = OrderedSet::from_vec(vec![5u64, 1, 5, 3]);
    assert_eq!(set.as_slice(), &[1, 3, 5]);
    assert!(set.insert(4));
    assert!(!set.insert(4));
    set.remove(&1);
    assert_eq!(set.as_slice(), &[3, 4, 5]);
    assert!(set.contains(&5) && !set.contains(&1));
    let other = OrderedSet::from_vec(vec![4u64, 9]);
    assert_eq!(set.union(&other).as_slice(), &[3, 4, 5, 9]);
    assert_eq!(set.intersection(&other).as_slice(), &[4]);
    assert!(OrderedSet::singleton(4u64).is_subset(&set));
    assert!(!other.is_subset(&set));
}

// --- Reports ---

#[test]
fn conflict_id_is_order_free() {
    let a = ConflictId::from_facts("date", &ids(&[3, 1, 2]));
    let b = ConflictId::from_facts("date", &ids(&[1, 2, 3]));
    assert_eq!(a, b, "fact-id order must not change the id");
    let c = ConflictId::from_facts("date", &ids(&[1, 2, 3, 3, 1]));
    assert_eq!(a, c, "nor must multiplicity");
}

#[test]
fn conflict_id_distinguishes_kind_and_fact_set() {
    let base = ConflictId::from_facts("date", &ids(&[1, 2]));
    let other_kind = ConflictId::from_facts("spatial", &ids(&[1, 2]));
    let other_facts = ConflictId::from_facts("date", &ids(&[1, 3]));
    assert_ne!(base, other_kind, "the kind tag must change the id");
    assert_ne!(base, other_facts, "the fact set must change the id");
}

#[test]
fn conflict_id_is_the_digest_of_the_sorted_facts() {
    assert_eq!(
        conflict_bytes("date", &ids(&[300, 2, 1])),
        vec![
            100, 97, 116, 101, 58, 1, 0, 0, 0, 0, 0, 0, 0, 58, 2, 0, 0, 0, 0, 0, 0, 0, 58, 44, 1,
            0, 0, 0, 0, 0, 0
        ]
    );
    assert_eq!(
        ConflictId::from_facts("date", &ids(&[300, 2, 1])).as_str(),
        "6ed07ddf7902665586a5c19c6cc6ce7b53db2dce29140c3a917839c591b2f83a"
    );
    assert_eq!(ConflictId::from_digest(&[0, 10, 255]).as_str(), "000aff");
}

#[test]
fn date_conflict_derives_id_and_one_retract_per_fact() {
    let location = ConflictLocation {
        entity: 42u64,
        path: ConflictPath::EventDate { event: 7u64, endpoint: EventEndpoint::Occurred },
    };
    let contributing = NonEmptyVec::try_from_vec(ids(&[5, 9])).unwrap();
    let report = ConflictReport::date_conflict(location, contributing);

    assert_eq!(
        report.id,
        ConflictId::from_facts("date", &ids(&[5, 9])),
        "the id derives from the contributing facts under the date tag"
    );
    assert_eq!(report.resolutions.len(), 2, "one retract per contributor");
    let retracted: Vec<FactId> = report
        .resolutions
        .iter()
        .filter_map(|r| match r {
            Resolution::Retract { fact } => Some(*fact),
            Resolution::Custom { .. } => None,
        })
        .collect();
    assert_eq!(retracted, vec![FactId::new(5), FactId::new(9)]);
}

#[test]
fn lists_that_are_never_empty() {
    assert!(NonEmptyVec::<u8>::try_from_vec(vec![]).is_err());
    let mut list = NonEmptyVec::singleton(1u8);
    list.push(2);
    assert_eq!(list.len(), 2);
    assert_eq!(*list.first(), 1);
    assert_eq!(list.rest(), &[2]);
    assert_eq!(list.to_vec(), vec![1, 2]);
}

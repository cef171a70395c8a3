//! Listing the entities of a viewport, page by page.
//!
//! A listing walks the classes of entities that were ever located in the
//! viewport, has each of them projected once, and keeps those whose current
//! marker lies in it. [`Listing`] makes the decisions: where the walk starts,
//! which rows are new, what is kept, and when the page is full. Walking and
//! projecting are up to the caller.
use vstd::prelude::*;

use crate::algebra::ordered::{keys, Standing, TotalOrder};
use crate::bits::{doubles_equal, same_double};
use crate::calendar::CalendarDate;
use crate::date::UncertainDate;
use crate::facts::ids::FactId;
use crate::facts::web::Language;
use crate::moment::{first_day_of, last_day_of};

verus! {

/// A point on the map; the coordinates are held as the bits of double-precision
/// numbers, and points are compared as numbers are.
#[derive(Debug, Clone, Copy)]
pub struct GeoPoint {
    /// The bits of the latitude.
    pub latitude: u64,
    /// The bits of the longitude.
    pub longitude: u64,
}

impl GeoPoint {
    /// Whether the coordinates of two points are equal numbers.
    pub open spec fn coincides(self, other: GeoPoint) -> bool {
        doubles_equal(self.latitude, other.latitude) && doubles_equal(
            self.longitude,
            other.longitude,
        )
    }
}

impl PartialEq for GeoPoint {
    fn eq(&self, other: &Self) -> (r: bool) {
        same_double(self.latitude, other.latitude) && same_double(self.longitude, other.longitude)
    }
}

impl vstd::std_specs::cmp::PartialEqSpecImpl for GeoPoint {
    open spec fn obeys_eq_spec() -> bool {
        true
    }

    open spec fn eq_spec(&self, other: &Self) -> bool {
        self.coincides(*other)
    }
}

/// Where an entity is.
#[derive(Debug, Clone, Copy, PartialEq)]
pub enum EntityLocation {
    /// At one point.
    Point(GeoPoint),
    /// At a place that is only named, at one of several places, or nobody knows.
    Unresolved,
}

/// A name of an entity.
#[derive(Debug, Clone, PartialEq, Eq)]
pub struct ListedName {
    /// The name.
    pub name: String,
    /// Its language.
    pub language: Language,
}

/// One entry of a timeline, with the dates that bound it.
#[derive(Debug, Clone, PartialEq, Eq)]
pub struct TimelineEntry {
    /// The dates.
    pub dates: Vec<UncertainDate>,
}

/// An entity as it was projected.
#[derive(Debug, Clone, PartialEq)]
pub struct ListedEntity<EntId> {
    /// Its id.
    pub id: EntId,
    /// Its names.
    pub names: Vec<ListedName>,
    /// Where it is: where it was last moved to, or else was built.
    pub location: EntityLocation,
    /// What happened to it.
    pub timeline: Vec<TimelineEntry>,
}

/// The one point an entity pins down on the map, or `None` when its location is
/// unresolved.
pub fn extract_point<EntId>(entity: &ListedEntity<EntId>) -> (r: Option<GeoPoint>)
    ensures
        r == match entity.location {
            EntityLocation::Point(point) => Some(point),
            EntityLocation::Unresolved => None,
        },
{
    match entity.location {
        EntityLocation::Point(point) => Some(point),
        EntityLocation::Unresolved => None,
    }
}

/// One placeable entity in a viewport.
#[derive(Debug, Clone, PartialEq)]
pub struct EntitySummary<EntId> {
    /// Its id.
    pub id: EntId,
    /// Its names.
    pub names: Vec<ListedName>,
    /// Its current marker.
    pub point: GeoPoint,
    /// The earliest lower date bound across the timeline, or `None` when the
    /// entity is undated.
    pub earliest: Option<CalendarDate>,
    /// The latest upper date bound across the timeline, or `None` when the
    /// entity is undated.
    pub latest: Option<CalendarDate>,
}

/// A resume token: the snapshot it was made at, and where the walk goes on.
#[derive(Debug, Clone, Copy, PartialEq, Eq)]
pub struct ListCursor<Cur> {
    /// The snapshot.
    pub snapshot: FactId,
    /// Where the walk goes on.
    pub walk: Cur,
}

/// One page of a viewport listing.
#[derive(Debug, Clone, PartialEq)]
pub struct EntityListPage<EntId, Cur> {
    /// What was gathered.
    pub summaries: Vec<EntitySummary<EntId>>,
    /// Where the next page starts, `None` once the viewport is exhausted.
    pub next: Option<ListCursor<Cur>>,
}

/// A listing failure.
#[derive(Debug, Clone, Copy, PartialEq, Eq)]
pub enum ListError<E> {
    /// The walk or a projection failed.
    Backend(E),
    /// The cursor was made at another snapshot than the view's.
    SnapshotMismatch,
}

// --- The span of a timeline ---

/// Whether `day` is the first day of one of the dates of a timeline.
pub open spec fn starts(timeline: Seq<TimelineEntry>, i: int, j: int, day: CalendarDate) -> bool {
    &&& 0 <= i < timeline.len()
    &&& 0 <= j < timeline[i].dates@.len()
    &&& timeline[i].dates@[j]@.len() > 0
    &&& timeline[i].dates@[j]@.first().lower_bound() is Some
    &&& timeline[i].dates@[j]@.first().lower_bound()->0.first_day() == day
}

/// Whether `day` is the last day of one of the dates of a timeline.
pub open spec fn finishes(timeline: Seq<TimelineEntry>, i: int, j: int, day: CalendarDate) -> bool {
    &&& 0 <= i < timeline.len()
    &&& 0 <= j < timeline[i].dates@.len()
    &&& timeline[i].dates@[j]@.len() > 0
    &&& timeline[i].dates@[j]@.last().upper_bound() is Some
    &&& timeline[i].dates@[j]@.last().upper_bound()->0.last_day() == day
}

/// Whether `day` is the earliest of the first days among the dates that `seen`
/// picks.
pub open spec fn is_earliest(
    timeline: Seq<TimelineEntry>,
    seen: spec_fn(int, int) -> bool,
    day: Option<CalendarDate>,
) -> bool {
    match day {
        Some(day) => {
            &&& day.valid()
            &&& exists|i: int, j: int| seen(i, j) && #[trigger] starts(timeline, i, j, day)
            &&& forall|i: int, j: int, other: CalendarDate|
                seen(i, j) && #[trigger] starts(timeline, i, j, other) ==> day.day_number()
                    <= other.day_number()
        },
        None => forall|i: int, j: int, other: CalendarDate|
            seen(i, j) ==> !#[trigger] starts(timeline, i, j, other),
    }
}

/// Whether `day` is the latest of the last days among the dates that `seen`
/// picks.
pub open spec fn is_latest(
    timeline: Seq<TimelineEntry>,
    seen: spec_fn(int, int) -> bool,
    day: Option<CalendarDate>,
) -> bool {
    match day {
        Some(day) => {
            &&& day.valid()
            &&& exists|i: int, j: int| seen(i, j) && #[trigger] finishes(timeline, i, j, day)
            &&& forall|i: int, j: int, other: CalendarDate|
                seen(i, j) && #[trigger] finishes(timeline, i, j, other) ==> other.day_number()
                    <= day.day_number()
        },
        None => forall|i: int, j: int, other: CalendarDate|
            seen(i, j) ==> !#[trigger] finishes(timeline, i, j, other),
    }
}

/// The dates up to, not including, the one at `(m, n)`.
pub open spec fn before(m: int, n: int) -> spec_fn(int, int) -> bool {
    |i: int, j: int| i < m || (i == m && j < n)
}

/// All dates.
pub open spec fn anywhere() -> spec_fn(int, int) -> bool {
    |i: int, j: int| true
}

/// One more first day.
proof fn lemma_one_more_start(
    timeline: Seq<TimelineEntry>,
    m: int,
    n: int,
    day: Option<CalendarDate>,
    found: Option<CalendarDate>,
    next: Option<CalendarDate>,
)
    requires
        is_earliest(timeline, before(m, n), day),
        found is Some ==> found->0.valid() && starts(timeline, m, n, found->0),
        found is None ==> forall|other: CalendarDate| !#[trigger] starts(timeline, m, n, other),
        next == match (day, found) {
            (Some(day), Some(found)) => if found.day_number() < day.day_number() {
                Some(found)
            } else {
                Some(day)
            },
            (None, Some(found)) => Some(found),
            (_, None) => day,
        },
    ensures
        is_earliest(timeline, before(m, n + 1), next),
{
    let now = before(m, n);
    let more = before(m, n + 1);
    match next {
        Some(x) => {
            if found == Some(x) {
                assert(more(m, n) && starts(timeline, m, n, x));
            } else {
                let (i, j) = choose|i: int, j: int| now(i, j) && #[trigger] starts(timeline, i, j, x);
                assert(more(i, j) && starts(timeline, i, j, x));
            }
        },
        None => {},
    }
}

/// One more last day.
proof fn lemma_one_more_finish(
    timeline: Seq<TimelineEntry>,
    m: int,
    n: int,
    day: Option<CalendarDate>,
    found: Option<CalendarDate>,
    next: Option<CalendarDate>,
)
    requires
        is_latest(timeline, before(m, n), day),
        found is Some ==> found->0.valid() && finishes(timeline, m, n, found->0),
        found is None ==> forall|other: CalendarDate| !#[trigger] finishes(timeline, m, n, other),
        next == match (day, found) {
            (Some(day), Some(found)) => if day.day_number() < found.day_number() {
                Some(found)
            } else {
                Some(day)
            },
            (None, Some(found)) => Some(found),
            (_, None) => day,
        },
    ensures
        is_latest(timeline, before(m, n + 1), next),
{
    let now = before(m, n);
    let more = before(m, n + 1);
    match next {
        Some(x) => {
            if found == Some(x) {
                assert(more(m, n) && finishes(timeline, m, n, x));
            } else {
                let (i, j) = choose|i: int, j: int|
                    now(i, j) && #[trigger] finishes(timeline, i, j, x);
                assert(more(i, j) && finishes(timeline, i, j, x));
            }
        },
        None => {},
    }
}

/// The dates before the first of an entry are those before the end of the entry
/// before.
proof fn lemma_next_entry(
    timeline: Seq<TimelineEntry>,
    m: int,
    earliest: Option<CalendarDate>,
    latest: Option<CalendarDate>,
)
    requires
        0 <= m < timeline.len(),
        is_earliest(timeline, before(m, timeline[m].dates@.len() as int), earliest),
        is_latest(timeline, before(m, timeline[m].dates@.len() as int), latest),
    ensures
        is_earliest(timeline, before(m + 1, 0), earliest),
        is_latest(timeline, before(m + 1, 0), latest),
{
    let n = timeline[m].dates@.len() as int;
    let now = before(m, n);
    let more = before(m + 1, 0);
    assert forall|i: int, j: int, day: CalendarDate|
        more(i, j) && #[trigger] starts(timeline, i, j, day) implies now(i, j) by {}
    assert forall|i: int, j: int, day: CalendarDate|
        more(i, j) && #[trigger] finishes(timeline, i, j, day) implies now(i, j) by {}
    match earliest {
        Some(x) => {
            let (i, j) = choose|i: int, j: int| now(i, j) && #[trigger] starts(timeline, i, j, x);
            assert(more(i, j) && starts(timeline, i, j, x));
        },
        None => {},
    }
    match latest {
        Some(x) => {
            let (i, j) = choose|i: int, j: int| now(i, j) && #[trigger] finishes(timeline, i, j, x);
            assert(more(i, j) && finishes(timeline, i, j, x));
        },
        None => {},
    }
}

/// All dates lie before the end.
proof fn lemma_whole_timeline(
    timeline: Seq<TimelineEntry>,
    earliest: Option<CalendarDate>,
    latest: Option<CalendarDate>,
)
    requires
        is_earliest(timeline, before(timeline.len() as int, 0), earliest),
        is_latest(timeline, before(timeline.len() as int, 0), latest),
    ensures
        is_earliest(timeline, anywhere(), earliest),
        is_latest(timeline, anywhere(), latest),
{
    let now = before(timeline.len() as int, 0);
    let more = anywhere();
    assert forall|i: int, j: int, day: CalendarDate|
        more(i, j) && #[trigger] starts(timeline, i, j, day) implies now(i, j) by {}
    assert forall|i: int, j: int, day: CalendarDate|
        more(i, j) && #[trigger] finishes(timeline, i, j, day) implies now(i, j) by {}
    match earliest {
        Some(x) => {
            let (i, j) = choose|i: int, j: int| now(i, j) && #[trigger] starts(timeline, i, j, x);
            assert(more(i, j) && starts(timeline, i, j, x));
        },
        None => {},
    }
    match latest {
        Some(x) => {
            let (i, j) = choose|i: int, j: int| now(i, j) && #[trigger] finishes(timeline, i, j, x);
            assert(more(i, j) && finishes(timeline, i, j, x));
        },
        None => {},
    }
}

/// The date span of a timeline: the earliest lower bound and latest upper bound
/// across every dated entry, each `None` when nothing dates that side.
pub fn timeline_span(timeline: &Vec<TimelineEntry>) -> (r: (
    Option<CalendarDate>,
    Option<CalendarDate>,
))
    ensures
        is_earliest(timeline@, anywhere(), r.0),
        is_latest(timeline@, anywhere(), r.1),
{
    let ghost all = timeline@;
    let mut earliest: Option<CalendarDate> = None;
    let mut latest: Option<CalendarDate> = None;
    let mut m: usize = 0;
    while m < timeline.len()
        invariant
            m <= timeline@.len(),
            all == timeline@,
            is_earliest(all, before(m as int, 0), earliest),
            is_latest(all, before(m as int, 0), latest),
        decreases timeline.len() - m,
    {
        let dates = &timeline[m].dates;
        let mut n: usize = 0;
        while n < dates.len()
            invariant
                m < timeline@.len(),
                n <= dates@.len(),
                all == timeline@,
                *dates == all[m as int].dates,
                is_earliest(all, before(m as int, 0 + n), earliest),
                is_latest(all, before(m as int, 0 + n), latest),
            decreases dates.len() - n,
        {
            let date = &dates[n];
            proof {
                use_type_invariant(date);
                crate::date::uncertain::lemma_ends_valid(*date);
            }
            let ghost was_earliest = earliest;
            let ghost was_latest = latest;
            let first = date.earliest();
            let last = date.latest();
            match first {
                Some(lo) => {
                    earliest = match earliest {
                        Some(day) => if lo.is_before(&day) {
                            Some(lo)
                        } else {
                            Some(day)
                        },
                        None => Some(lo),
                    };
                },
                None => {},
            }
            match last {
                Some(hi) => {
                    latest = match latest {
                        Some(day) => if day.is_before(&hi) {
                            Some(hi)
                        } else {
                            Some(day)
                        },
                        None => Some(hi),
                    };
                },
                None => {},
            }
            proof {
                lemma_one_more_start(all, m as int, n as int, was_earliest, first, earliest);
                lemma_one_more_finish(all, m as int, n as int, was_latest, last, latest);
            }
            n += 1;
        }
        proof {
            lemma_next_entry(all, m as int, earliest, latest);
        }
        m += 1;
    }
    proof {
        lemma_whole_timeline(all, earliest, latest);
    }
    (earliest, latest)
}

// --- The decisions of a listing ---

/// Where the walk of a listing starts. A cursor from another snapshot is
/// refused.
pub fn start_walk<Cur, E>(cursor: Option<ListCursor<Cur>>, snapshot: FactId) -> (r: Result<
    Option<Cur>,
    ListError<E>,
>)
    ensures
        r == match cursor {
            Some(c) => if c.snapshot@ == snapshot@ {
                Ok::<Option<Cur>, ListError<E>>(Some(c.walk))
            } else {
                Err(ListError::SnapshotMismatch)
            },
            None => Ok(None),
        },
{
    match cursor {
        Some(c) => if c.snapshot.get() == snapshot.get() {
            Ok(Some(c.walk))
        } else {
            Err(ListError::SnapshotMismatch)
        },
        None => Ok(None),
    }
}

/// The representatives of the first `n` rows, each run of equal ones once.
pub open spec fn runs<V>(rows: Seq<V>, n: nat) -> Seq<V>
    decreases n,
{
    if n == 0 {
        Seq::empty()
    } else {
        let rest = runs(rows, (n - 1) as nat);
        if n >= 2 && rows[n - 1] == rows[n - 2] {
            rest
        } else {
            rest.push(rows[n - 1])
        }
    }
}

/// The representatives of the rows of a page, each run of equal ones once. Rows
/// come ordered by representative, and a class never straddles a page.
pub fn distinct_representatives<EntId: TotalOrder + Copy>(rows: &Vec<EntId>) -> (r: Vec<EntId>)
    ensures
        keys(r@) == runs(keys(rows@), rows@.len()),
{
    let ghost all = keys(rows@);
    let mut out: Vec<EntId> = Vec::new();
    let mut i: usize = 0;
    assert(keys(out@) =~= runs(all, 0));
    while i < rows.len()
        invariant
            i <= rows@.len(),
            all == keys(rows@),
            keys(out@) == runs(all, i as nat),
        decreases rows.len() - i,
    {
        let again = if i == 0 {
            false
        } else {
            match rows[i].compare(&rows[i - 1]) {
                Standing::Same => true,
                _ => false,
            }
        };
        let ghost before = keys(out@);
        if !again {
            out.push(rows[i]);
            assert(keys(out@) =~= before.push(all[i as int]));
        }
        i += 1;
    }
    out
}

/// What a listing does after a page of the walk.
#[derive(Debug, Clone, Copy, PartialEq, Eq)]
pub enum Turn<Cur> {
    /// Fetch the page that starts here.
    Resume(Cur),
    /// The page is full, or the viewport exhausted.
    Finish(Option<Cur>),
}

/// A listing in progress.
#[derive(Debug)]
pub struct Listing<EntId> {
    summaries: Vec<EntitySummary<EntId>>,
}

impl<EntId> Listing<EntId> {
    /// What was gathered so far.
    pub closed spec fn gathered(self) -> Seq<EntitySummary<EntId>> {
        self.summaries@
    }

    /// A listing that gathered nothing.
    pub fn new() -> (r: Self)
        ensures
            r.gathered() == Seq::<EntitySummary<EntId>>::empty(),
    {
        Listing { summaries: Vec::new() }
    }

    /// Take a projected entity in, where its current marker resolves and lies in
    /// the viewport; `in_view` says whether a marker does.
    pub fn take_in<F: Fn(GeoPoint) -> bool>(&mut self, entity: ListedEntity<EntId>, in_view: &F)
        requires
            forall|point: GeoPoint| call_requires(*in_view, (point,)),
        ensures
            takes_in(*in_view, entity, old(self).gathered(), final(self).gathered()),
    {
        match extract_point(&entity) {
            Some(point) => {
                if in_view(point) {
                    let (earliest, latest) = timeline_span(&entity.timeline);
                    let ghost before = self.summaries@;
                    self.summaries.push(
                        EntitySummary {
                            id: entity.id,
                            names: entity.names,
                            point,
                            earliest,
                            latest,
                        },
                    );
                    assert(self.summaries@.drop_last() =~= before);
                }
            },
            None => {},
        }
    }

    /// What to do after a page of the walk: stop where the walk ends or the page is
    /// full, and else fetch the next.
    pub fn turn<Cur>(&self, next_class: Option<Cur>, limit: usize) -> (r: Turn<Cur>)
        ensures
            r == match next_class {
                None => Turn::Finish(None),
                Some(next) => if self.gathered().len() >= limit {
                    Turn::Finish(Some(next))
                } else {
                    Turn::Resume(next)
                },
            },
    {
        match next_class {
            None => Turn::Finish(None),
            Some(next) => if self.summaries.len() >= limit {
                Turn::Finish(Some(next))
            } else {
                Turn::Resume(next)
            },
        }
    }

    /// The page of a listing that finished.
    pub fn finish<Cur>(self, resume: Option<Cur>, snapshot: FactId) -> (r: EntityListPage<
        EntId,
        Cur,
    >)
        ensures
            r.summaries@ == self.gathered(),
            r.next == match resume {
                Some(walk) => Some(ListCursor { snapshot, walk }),
                None => None,
            },
    {
        let next = match resume {
            Some(walk) => Some(ListCursor { snapshot, walk }),
            None => None,
        };
        EntityListPage { summaries: self.summaries, next }
    }
}

/// Whether a summary says what was projected of an entity.
pub open spec fn summarizes<EntId>(
    entity: ListedEntity<EntId>,
    point: GeoPoint,
    summary: EntitySummary<EntId>,
) -> bool {
    &&& summary.id == entity.id
    &&& summary.names == entity.names
    &&& summary.point == point
    &&& is_earliest(entity.timeline@, anywhere(), summary.earliest)
    &&& is_latest(entity.timeline@, anywhere(), summary.latest)
}

/// Whether taking an entity in leads from the summaries `before` to `after`: an
/// entity whose marker resolves and lies in the viewport is summarized, any other
/// leaves no trace.
pub open spec fn takes_in<EntId, F: Fn(GeoPoint) -> bool>(
    in_view: F,
    entity: ListedEntity<EntId>,
    before: Seq<EntitySummary<EntId>>,
    after: Seq<EntitySummary<EntId>>,
) -> bool {
    match entity.location {
        EntityLocation::Unresolved => after == before,
        EntityLocation::Point(point) => {
            ||| call_ensures(in_view, (point,), false) && after == before
            ||| call_ensures(in_view, (point,), true) && after.len() == before.len() + 1
                && after.drop_last() == before && summarizes(entity, point, after.last())
        },
    }
}

// --- A whole listing ---

/// One page of a walk over classes: the representative of each row, and where the
/// walk goes on.
#[derive(Debug)]
pub struct ClassPage<EntId, Cur> {
    /// The representatives, one for each row.
    pub rows: Vec<EntId>,
    /// Where the walk goes on, `None` at its end.
    pub next_class: Option<Cur>,
}

/// Whether every walk comes to an end: some number drops from page to page.
pub open spec fn walks_end<EntId, Cur, E, Fetch: Fn(Option<Cur>) -> Result<
    ClassPage<EntId, Cur>,
    E,
>>(fetch: Fetch) -> bool {
    exists|rank: spec_fn(Option<Cur>) -> nat| #[trigger] ranks::<EntId, Cur, E, Fetch>(fetch, rank)
}

/// Whether `rank` drops from page to page.
pub open spec fn ranks<EntId, Cur, E, Fetch: Fn(Option<Cur>) -> Result<ClassPage<EntId, Cur>, E>>(
    fetch: Fetch,
    rank: spec_fn(Option<Cur>) -> nat,
) -> bool {
    forall|after: Option<Cur>, page: ClassPage<EntId, Cur>|
        #![trigger call_ensures(fetch, (after,), Ok::<ClassPage<EntId, Cur>, E>(page))]
        call_ensures(fetch, (after,), Ok::<ClassPage<EntId, Cur>, E>(page))
            && page.next_class is Some ==> rank(page.next_class) < rank(after)
}

/// One page of a listing: what was fetched, what was projected of it, and what
/// was gathered by then.
pub struct Step<EntId, Cur> {
    /// The page.
    pub page: ClassPage<EntId, Cur>,
    /// What was projected, in order.
    pub entities: Seq<ListedEntity<EntId>>,
    /// What was gathered by then.
    pub gathered: Seq<EntitySummary<EntId>>,
}

/// Whether taking in `entities`, one after the other, leads from `before` to
/// `after`.
pub open spec fn takes_in_all<EntId, F: Fn(GeoPoint) -> bool>(
    in_view: F,
    entities: Seq<ListedEntity<EntId>>,
    before: Seq<EntitySummary<EntId>>,
    after: Seq<EntitySummary<EntId>>,
) -> bool
    decreases entities.len(),
{
    if entities.len() == 0 {
        after == before
    } else {
        exists|mid: Seq<EntitySummary<EntId>>|
            takes_in_all(in_view, entities.drop_last(), before, mid) && #[trigger] takes_in(
                in_view,
                entities.last(),
                mid,
                after,
            )
    }
}

/// Whether `entities` are what the first representatives of a page project to,
/// each run of equal ones once.
pub open spec fn projects<EntId: TotalOrder, E, Project: Fn(EntId) -> Result<
    ListedEntity<EntId>,
    E,
>>(project: Project, rows: Seq<EntId>, entities: Seq<ListedEntity<EntId>>) -> bool {
    let reps = runs(keys(rows), rows.len());
    &&& entities.len() <= reps.len()
    &&& forall|k: int|
        0 <= k < entities.len() ==> projected::<EntId, E, Project>(
            project,
            reps[k],
            #[trigger] entities[k],
        )
}

/// Whether the entity with key `rep` projects to `entity`.
pub open spec fn projected<EntId: TotalOrder, E, Project: Fn(EntId) -> Result<
    ListedEntity<EntId>,
    E,
>>(project: Project, rep: EntId::V, entity: ListedEntity<EntId>) -> bool {
    exists|id: EntId|
        id@ == rep && #[trigger] call_ensures(
            project,
            (id,),
            Ok::<ListedEntity<EntId>, E>(entity),
        )
}

/// Where the page after these steps starts.
pub open spec fn resume_point<EntId, Cur>(
    steps: Seq<Step<EntId, Cur>>,
    first: Option<Cur>,
) -> Option<Cur> {
    if steps.len() == 0 {
        first
    } else {
        steps.last().page.next_class
    }
}

/// What these steps gathered.
pub open spec fn gathered_by<EntId, Cur>(steps: Seq<Step<EntId, Cur>>) -> Seq<
    EntitySummary<EntId>,
> {
    if steps.len() == 0 {
        Seq::empty()
    } else {
        steps.last().gathered
    }
}

/// Whether these are the first steps of a listing that starts at `first`: each
/// page was fetched where the one before says, every class in it was projected
/// once, and those in view were gathered.
pub open spec fn lists_by<EntId: TotalOrder, Cur, E, Fetch, Project, F>(
    fetch: Fetch,
    project: Project,
    in_view: F,
    first: Option<Cur>,
    steps: Seq<Step<EntId, Cur>>,
) -> bool where
    Fetch: Fn(Option<Cur>) -> Result<ClassPage<EntId, Cur>, E>,
    Project: Fn(EntId) -> Result<ListedEntity<EntId>, E>,
    F: Fn(GeoPoint) -> bool,

    decreases steps.len(),
{
    steps.len() > 0 ==> {
        let done = steps.drop_last();
        let step = steps.last();
        &&& lists_by::<EntId, Cur, E, Fetch, Project, F>(fetch, project, in_view, first, done)
        &&& call_ensures(
            fetch,
            (resume_point(done, first),),
            Ok::<ClassPage<EntId, Cur>, E>(step.page),
        )
        &&& projects::<EntId, E, Project>(project, step.page.rows@, step.entities)
        &&& step.entities.len() == runs(keys(step.page.rows@), step.page.rows@.len()).len()
        &&& takes_in_all(in_view, step.entities, gathered_by(done), step.gathered)
    }
}

/// Whether a listing goes on after each of these steps: the walk has not ended,
/// and the page is not full.
pub open spec fn goes_on<EntId, Cur>(steps: Seq<Step<EntId, Cur>>, limit: usize) -> bool {
    forall|i: int|
        0 <= i < steps.len() ==> (#[trigger] steps[i]).page.next_class is Some
            && steps[i].gathered.len() < limit
}

/// Whether a listing breaks off with `e` after these steps: the next page cannot
/// be fetched, or one of its classes not be projected.
pub open spec fn breaks_off<EntId: TotalOrder, Cur, E, Fetch, Project>(
    fetch: Fetch,
    project: Project,
    after: Option<Cur>,
    e: E,
) -> bool where
    Fetch: Fn(Option<Cur>) -> Result<ClassPage<EntId, Cur>, E>,
    Project: Fn(EntId) -> Result<ListedEntity<EntId>, E>,
 {
    ||| call_ensures(fetch, (after,), Err::<ClassPage<EntId, Cur>, E>(e))
    ||| exists|page: ClassPage<EntId, Cur>, entities: Seq<ListedEntity<EntId>>|
        #[trigger] breaks_off_inside::<EntId, Cur, E, Fetch, Project>(
            fetch,
            project,
            after,
            page,
            entities,
            e,
        )
}

/// Whether the class after those of `entities` cannot be projected.
pub open spec fn breaks_off_inside<EntId: TotalOrder, Cur, E, Fetch, Project>(
    fetch: Fetch,
    project: Project,
    after: Option<Cur>,
    page: ClassPage<EntId, Cur>,
    entities: Seq<ListedEntity<EntId>>,
    e: E,
) -> bool where
    Fetch: Fn(Option<Cur>) -> Result<ClassPage<EntId, Cur>, E>,
    Project: Fn(EntId) -> Result<ListedEntity<EntId>, E>,
 {
    let reps = runs(keys(page.rows@), page.rows@.len());
    &&& call_ensures(fetch, (after,), Ok::<ClassPage<EntId, Cur>, E>(page))
    &&& projects::<EntId, E, Project>(project, page.rows@, entities)
    &&& entities.len() < reps.len()
    &&& exists|id: EntId|
        id@ == reps[entities.len() as int] && #[trigger] call_ensures(
            project,
            (id,),
            Err::<ListedEntity<EntId>, E>(e),
        )
}

/// List the entities whose current marker falls in the viewport, at the snapshot
/// of the view, resuming past `cursor`.
///
/// `fetch` hands out the pages of the walk over the classes that were ever located
/// in the viewport, `project` projects a class by its representative, and
/// `in_view` says whether a marker lies in the viewport. A page of the walk is as
/// long as the page of the listing: the result holds at least `limit` summaries,
/// or every one the viewport has. A cursor from another snapshot is refused.
pub fn summaries_in_bbox<EntId: TotalOrder + Copy, Cur: Copy, E, Fetch, Project, F>(
    snapshot: FactId,
    fetch: &Fetch,
    project: &Project,
    in_view: &F,
    cursor: Option<ListCursor<Cur>>,
    limit: usize,
) -> (r: Result<EntityListPage<EntId, Cur>, ListError<E>>) where
    Fetch: Fn(Option<Cur>) -> Result<ClassPage<EntId, Cur>, E>,
    Project: Fn(EntId) -> Result<ListedEntity<EntId>, E>,
    F: Fn(GeoPoint) -> bool,

    requires
        forall|after: Option<Cur>| call_requires(*fetch, (after,)),
        forall|id: EntId| call_requires(*project, (id,)),
        forall|point: GeoPoint| call_requires(*in_view, (point,)),
        walks_end::<EntId, Cur, E, Fetch>(*fetch),
    ensures
        cursor is Some && cursor->0.snapshot@ != snapshot@ <==> r == Err::<
            EntityListPage<EntId, Cur>,
            ListError<E>,
        >(ListError::SnapshotMismatch),
        r matches Ok(page) ==> exists|steps: Seq<Step<EntId, Cur>>|
            {
                &&& steps.len() > 0
                &&& #[trigger] lists_by::<EntId, Cur, E, Fetch, Project, F>(
                    *fetch,
                    *project,
                    *in_view,
                    opening(cursor),
                    steps,
                )
                &&& goes_on(steps.drop_last(), limit)
                &&& steps.last().page.next_class is None || steps.last().gathered.len() >= limit
                &&& page.summaries@ == steps.last().gathered
                &&& page.next == match steps.last().page.next_class {
                    Some(walk) => Some(ListCursor { snapshot, walk }),
                    None => None,
                }
            },
        r matches Err(ListError::Backend(e)) ==> exists|steps: Seq<Step<EntId, Cur>>|
            {
                &&& #[trigger] lists_by::<EntId, Cur, E, Fetch, Project, F>(
                    *fetch,
                    *project,
                    *in_view,
                    opening(cursor),
                    steps,
                )
                &&& goes_on(steps, limit)
                &&& breaks_off::<EntId, Cur, E, Fetch, Project>(
                    *fetch,
                    *project,
                    resume_point(steps, opening(cursor)),
                    e,
                )
            },
{
    let ghost first = opening(cursor);
    let mut after = match start_walk(cursor, snapshot) {
        Ok(after) => after,
        Err(e) => {
            return Err(e);
        },
    };
    let mut listing: Listing<EntId> = Listing::new();
    let ghost rank = choose|rank: spec_fn(Option<Cur>) -> nat| #[trigger]
        ranks::<EntId, Cur, E, Fetch>(*fetch, rank);
    let ghost mut steps: Seq<Step<EntId, Cur>> = Seq::empty();
    loop
        invariant
            forall|after: Option<Cur>| call_requires(*fetch, (after,)),
            forall|id: EntId| call_requires(*project, (id,)),
            forall|point: GeoPoint| call_requires(*in_view, (point,)),
            ranks::<EntId, Cur, E, Fetch>(*fetch, rank),
            cursor is Some ==> cursor->0.snapshot@ == snapshot@,
            first == opening(cursor),
            lists_by::<EntId, Cur, E, Fetch, Project, F>(*fetch, *project, *in_view, first, steps),
            goes_on(steps, limit),
            after == resume_point(steps, first),
            listing.gathered() == gathered_by(steps),
        decreases rank(after),
    {
        let ghost here = after;
        let page = match fetch(after) {
            Ok(page) => page,
            Err(e) => {
                assert(breaks_off::<EntId, Cur, E, Fetch, Project>(*fetch, *project, here, e));
                return Err(ListError::Backend(e));
            },
        };
        let reps = distinct_representatives(&page.rows);
        let ghost wanted = runs(keys(page.rows@), page.rows@.len());
        let ghost before = listing.gathered();
        let ghost mut entities: Seq<ListedEntity<EntId>> = Seq::empty();
        let mut i: usize = 0;
        while i < reps.len()
            invariant
                i <= reps@.len(),
                forall|id: EntId| call_requires(*project, (id,)),
                forall|point: GeoPoint| call_requires(*in_view, (point,)),
                cursor is Some ==> cursor->0.snapshot@ == snapshot@,
                first == opening(cursor),
                lists_by::<EntId, Cur, E, Fetch, Project, F>(
                    *fetch,
                    *project,
                    *in_view,
                    first,
                    steps,
                ),
                goes_on(steps, limit),
                here == resume_point(steps, first),
                call_ensures(*fetch, (here,), Ok::<ClassPage<EntId, Cur>, E>(page)),
                wanted == runs(keys(page.rows@), page.rows@.len()),
                keys(reps@) == wanted,
                entities.len() == i,
                projects::<EntId, E, Project>(*project, page.rows@, entities),
                takes_in_all(*in_view, entities, before, listing.gathered()),
            decreases reps.len() - i,
        {
            let id = reps[i];
            assert(id@ == wanted[i as int]);
            let entity = match project(id) {
                Ok(entity) => entity,
                Err(e) => {
                    assert(breaks_off_inside::<EntId, Cur, E, Fetch, Project>(
                        *fetch,
                        *project,
                        here,
                        page,
                        entities,
                        e,
                    ));
                    return Err(ListError::Backend(e));
                },
            };
            let ghost seen = entity;
            let ghost mid = listing.gathered();
            listing.take_in(entity, in_view);
            proof {
                let more = entities.push(seen);
                assert(more.drop_last() =~= entities);
                assert(projected::<EntId, E, Project>(*project, wanted[i as int], seen));
                assert forall|k: int| 0 <= k < more.len() implies projected::<EntId, E, Project>(
                    *project,
                    wanted[k],
                    #[trigger] more[k],
                ) by {
                    if k < entities.len() {
                        assert(more[k] == entities[k]);
                    }
                }
                assert(takes_in_all(*in_view, more.drop_last(), before, mid));
                assert(takes_in(*in_view, more.last(), mid, listing.gathered()));
                entities = more;
            }
            i += 1;
        }
        proof {
            let step = Step { page, entities, gathered: listing.gathered() };
            let more = steps.push(step);
            assert(more.drop_last() =~= steps);
            assert(lists_by::<EntId, Cur, E, Fetch, Project, F>(
                *fetch,
                *project,
                *in_view,
                first,
                more,
            ));
            steps = more;
        }
        match listing.turn(page.next_class, limit) {
            Turn::Finish(resume) => {
                return Ok(listing.finish(resume, snapshot));
            },
            Turn::Resume(next) => {
                after = Some(next);
            },
        }
    }
}

/// Where the walk of a listing starts.
pub open spec fn opening<Cur>(cursor: Option<ListCursor<Cur>>) -> Option<Cur> {
    match cursor {
        Some(c) => Some(c.walk),
        None => None,
    }
}

/// Taking entities in adds at most one summary each.
proof fn lemma_takes_in_bounded<EntId, F: Fn(GeoPoint) -> bool>(
    in_view: F,
    entities: Seq<ListedEntity<EntId>>,
    before: Seq<EntitySummary<EntId>>,
    after: Seq<EntitySummary<EntId>>,
)
    requires
        takes_in_all(in_view, entities, before, after),
    ensures
        before.len() <= after.len() <= before.len() + entities.len(),
    decreases entities.len(),
{
    if entities.len() > 0 {
        let mid = choose|mid: Seq<EntitySummary<EntId>>|
            takes_in_all(in_view, entities.drop_last(), before, mid) && #[trigger] takes_in(
                in_view,
                entities.last(),
                mid,
                after,
            );
        lemma_takes_in_bounded(in_view, entities.drop_last(), before, mid);
    }
}

/// A listing overshoots its limit by at most one page of the walk: before its last
/// page it had gathered fewer summaries than the limit.
pub proof fn law_listing_overshoots_by_at_most_a_page<EntId: TotalOrder, Cur, E, Fetch, Project, F>(
    fetch: Fetch,
    project: Project,
    in_view: F,
    first: Option<Cur>,
    steps: Seq<Step<EntId, Cur>>,
    limit: usize,
) where
    Fetch: Fn(Option<Cur>) -> Result<ClassPage<EntId, Cur>, E>,
    Project: Fn(EntId) -> Result<ListedEntity<EntId>, E>,
    F: Fn(GeoPoint) -> bool,

    requires
        limit > 0,
        steps.len() > 0,
        lists_by::<EntId, Cur, E, Fetch, Project, F>(fetch, project, in_view, first, steps),
        goes_on(steps.drop_last(), limit),
    ensures
        steps.last().gathered.len() < limit + runs(
            keys(steps.last().page.rows@),
            steps.last().page.rows@.len(),
        ).len(),
{
    let done = steps.drop_last();
    let step = steps.last();
    lemma_takes_in_bounded(in_view, step.entities, gathered_by(done), step.gathered);
    if done.len() > 0 {
        assert(done[done.len() - 1].gathered.len() < limit);
    }
}

/// What is taken in lies in view.
proof fn lemma_taken_in_view<EntId, F: Fn(GeoPoint) -> bool>(
    in_view: F,
    entities: Seq<ListedEntity<EntId>>,
    before: Seq<EntitySummary<EntId>>,
    after: Seq<EntitySummary<EntId>>,
    k: int,
)
    requires
        takes_in_all(in_view, entities, before, after),
        before.len() <= k < after.len(),
    ensures
        call_ensures(in_view, (after[k].point,), true),
    decreases entities.len(),
{
    if entities.len() > 0 {
        let mid = choose|mid: Seq<EntitySummary<EntId>>|
            takes_in_all(in_view, entities.drop_last(), before, mid) && #[trigger] takes_in(
                in_view,
                entities.last(),
                mid,
                after,
            );
        if k < mid.len() {
            assert(after.len() > mid.len() ==> after.drop_last()[k] == after[k]);
            lemma_taken_in_view(in_view, entities.drop_last(), before, mid, k);
        }
    }
}

/// What was gathered before stays.
proof fn lemma_taken_in_keeps<EntId, F: Fn(GeoPoint) -> bool>(
    in_view: F,
    entities: Seq<ListedEntity<EntId>>,
    before: Seq<EntitySummary<EntId>>,
    after: Seq<EntitySummary<EntId>>,
    k: int,
)
    requires
        takes_in_all(in_view, entities, before, after),
        0 <= k < before.len(),
    ensures
        k < after.len(),
        after[k] == before[k],
    decreases entities.len(),
{
    if entities.len() > 0 {
        let mid = choose|mid: Seq<EntitySummary<EntId>>|
            takes_in_all(in_view, entities.drop_last(), before, mid) && #[trigger] takes_in(
                in_view,
                entities.last(),
                mid,
                after,
            );
        lemma_taken_in_keeps(in_view, entities.drop_last(), before, mid, k);
        assert(after.len() > mid.len() ==> after.drop_last()[k] == after[k]);
    }
}

/// Every listed marker lies in the viewport.
pub proof fn law_listed_markers_are_in_view<EntId: TotalOrder, Cur, E, Fetch, Project, F>(
    fetch: Fetch,
    project: Project,
    in_view: F,
    first: Option<Cur>,
    steps: Seq<Step<EntId, Cur>>,
    k: int,
) where
    Fetch: Fn(Option<Cur>) -> Result<ClassPage<EntId, Cur>, E>,
    Project: Fn(EntId) -> Result<ListedEntity<EntId>, E>,
    F: Fn(GeoPoint) -> bool,

    requires
        lists_by::<EntId, Cur, E, Fetch, Project, F>(fetch, project, in_view, first, steps),
        0 <= k < gathered_by(steps).len(),
    ensures
        call_ensures(in_view, (gathered_by(steps)[k].point,), true),
    decreases steps.len(),
{
    let done = steps.drop_last();
    let step = steps.last();
    if k < gathered_by(done).len() {
        lemma_taken_in_keeps(in_view, step.entities, gathered_by(done), step.gathered, k);
        law_listed_markers_are_in_view::<EntId, Cur, E, Fetch, Project, F>(
            fetch,
            project,
            in_view,
            first,
            done,
            k,
        );
    } else {
        lemma_taken_in_view(in_view, step.entities, gathered_by(done), step.gathered, k);
    }
}

/// The steps as they are after something was gathered already.
pub open spec fn carried<EntId, Cur>(
    kept: Seq<EntitySummary<EntId>>,
    steps: Seq<Step<EntId, Cur>>,
) -> Seq<Step<EntId, Cur>> {
    steps.map_values(
        |s: Step<EntId, Cur>|
            Step { page: s.page, entities: s.entities, gathered: kept + s.gathered },
    )
}

/// Taking entities in does not depend on what was gathered before.
proof fn lemma_taken_in_after<EntId, F: Fn(GeoPoint) -> bool>(
    in_view: F,
    kept: Seq<EntitySummary<EntId>>,
    entities: Seq<ListedEntity<EntId>>,
    before: Seq<EntitySummary<EntId>>,
    after: Seq<EntitySummary<EntId>>,
)
    requires
        takes_in_all(in_view, entities, before, after),
    ensures
        takes_in_all(in_view, entities, kept + before, kept + after),
    decreases entities.len(),
{
    if entities.len() > 0 {
        let mid = choose|mid: Seq<EntitySummary<EntId>>|
            takes_in_all(in_view, entities.drop_last(), before, mid) && #[trigger] takes_in(
                in_view,
                entities.last(),
                mid,
                after,
            );
        lemma_taken_in_after(in_view, kept, entities.drop_last(), before, mid);
        if after.len() > mid.len() {
            assert((kept + after).drop_last() =~= kept + after.drop_last());
            assert((kept + after).last() == after.last());
        }
        assert(takes_in(in_view, entities.last(), kept + mid, kept + after));
    }
}

/// A listing that resumes where another stopped goes on as the other would have
/// done: the two together are one listing, and list what both listed, in order.
pub proof fn law_listing_resumes_where_it_stopped<EntId: TotalOrder, Cur, E, Fetch, Project, F>(
    fetch: Fetch,
    project: Project,
    in_view: F,
    first: Option<Cur>,
    earlier: Seq<Step<EntId, Cur>>,
    later: Seq<Step<EntId, Cur>>,
) where
    Fetch: Fn(Option<Cur>) -> Result<ClassPage<EntId, Cur>, E>,
    Project: Fn(EntId) -> Result<ListedEntity<EntId>, E>,
    F: Fn(GeoPoint) -> bool,

    requires
        lists_by::<EntId, Cur, E, Fetch, Project, F>(fetch, project, in_view, first, earlier),
        lists_by::<EntId, Cur, E, Fetch, Project, F>(
            fetch,
            project,
            in_view,
            resume_point(earlier, first),
            later,
        ),
    ensures
        lists_by::<EntId, Cur, E, Fetch, Project, F>(
            fetch,
            project,
            in_view,
            first,
            earlier + carried(gathered_by(earlier), later),
        ),
        gathered_by(earlier + carried(gathered_by(earlier), later)) == gathered_by(earlier)
            + gathered_by(later),
    decreases later.len(),
{
    let kept = gathered_by(earlier);
    let whole = earlier + carried(kept, later);
    if later.len() == 0 {
        assert(whole =~= earlier);
        assert(kept + gathered_by(later) =~= kept);
    } else {
        let done = later.drop_last();
        let step = later.last();
        law_listing_resumes_where_it_stopped::<EntId, Cur, E, Fetch, Project, F>(
            fetch,
            project,
            in_view,
            first,
            earlier,
            done,
        );
        let part = earlier + carried(kept, done);
        assert(whole.drop_last() =~= part);
        assert(resume_point(part, first) == resume_point(done, resume_point(earlier, first))) by {
            if done.len() > 0 {
                assert(part.last() == carried(kept, done).last());
            } else {
                assert(part =~= earlier);
            }
        }
        lemma_taken_in_after(in_view, kept, step.entities, gathered_by(done), step.gathered);
        assert(whole.last().gathered == kept + step.gathered);
    }
}

// --- No class twice ---

/// Whether one row of a walk stands before another: on an earlier page, or earlier on
/// the same page.
pub open spec fn row_before(a: int, i: int, b: int, j: int) -> bool {
    a < b || a == b && i < j
}

/// Whether a walk is ordered by representative, with no class on two pages: a later
/// row of a page has the same representative or a later one, a row of a later page a
/// later one.
pub open spec fn walk_is_ordered<EntId: TotalOrder, Cur>(steps: Seq<Step<EntId, Cur>>) -> bool {
    forall|a: int, i: int, b: int, j: int|
        0 <= a < steps.len() && 0 <= b < steps.len() && 0 <= i < steps[a].page.rows@.len() && 0 <= j
            < steps[b].page.rows@.len() && row_before(a, i, b, j) ==> EntId::precedes(
            (#[trigger] steps[a].page.rows@[i])@,
            (#[trigger] steps[b].page.rows@[j])@,
        ) || (a == b && steps[a].page.rows@[i]@ == steps[b].page.rows@[j]@)
}

/// Whether what a class projects to has the id of its representative.
pub open spec fn projects_to_its_id<EntId: TotalOrder, E, Project>(project: Project) -> bool where
    Project: Fn(EntId) -> Result<ListedEntity<EntId>, E>,
 {
    forall|id: EntId, entity: ListedEntity<EntId>|
        #![trigger call_ensures(project, (id,), Ok::<ListedEntity<EntId>, E>(entity))]
        call_ensures(project, (id,), Ok::<ListedEntity<EntId>, E>(entity)) ==> entity.id@ == id@
}

/// Whether the summaries come in the order of their ids, none twice.
pub open spec fn listed_in_order<EntId: TotalOrder>(summaries: Seq<EntitySummary<EntId>>) -> bool {
    forall|i: int, j: int|
        0 <= i < j < summaries.len() ==> EntId::precedes(
            (#[trigger] summaries[i]).id@,
            (#[trigger] summaries[j]).id@,
        )
}

/// Whether a row of the walk has this representative.
pub open spec fn walked<EntId: TotalOrder, Cur>(
    steps: Seq<Step<EntId, Cur>>,
    rep: EntId::V,
) -> bool {
    exists|a: int, i: int|
        0 <= a < steps.len() && 0 <= i < steps[a].page.rows@.len() && (
        #[trigger] steps[a].page.rows@[i])@ == rep
}

/// The runs of ordered rows are strictly ordered, and each is one of the rows.
proof fn lemma_runs_ascend<EntId: TotalOrder>(rows: Seq<EntId::V>, n: nat)
    requires
        n <= rows.len(),
        forall|i: int, j: int|
            0 <= i < j < rows.len() ==> EntId::precedes(#[trigger] rows[i], #[trigger] rows[j])
                || rows[i] == rows[j],
    ensures
        forall|i: int, j: int|
            0 <= i < j < runs(rows, n).len() ==> EntId::precedes(
                #[trigger] runs(rows, n)[i],
                #[trigger] runs(rows, n)[j],
            ),
        forall|k: int|
            0 <= k < runs(rows, n).len() ==> rows.take(n as int).contains(
                #[trigger] runs(rows, n)[k],
            ),
        n > 0 ==> runs(rows, n).len() > 0 && runs(rows, n).last() == rows[n - 1],
    decreases n,
{
    if n > 0 {
        lemma_runs_ascend::<EntId>(rows, (n - 1) as nat);
        let rest = runs(rows, (n - 1) as nat);
        let now = runs(rows, n);
        let less = rows.take(n - 1);
        let more = rows.take(n as int);
        assert(more =~= less.push(rows[n - 1]));
        assert(more[n - 1] == rows[n - 1]);
        assert forall|k: int| 0 <= k < now.len() implies more.contains(#[trigger] now[k]) by {
            if k < rest.len() {
                assert(less.contains(rest[k]));
                let x = less.index_of(rest[k]);
                assert(more[x] == now[k]);
            }
        }
        assert forall|i: int, j: int| 0 <= i < j < now.len() implies EntId::precedes(
            #[trigger] now[i],
            #[trigger] now[j],
        ) by {
            if j == rest.len() && n >= 2 {
                assert(EntId::precedes(rows[n - 2], rows[n - 1]));
                if i < rest.len() - 1 {
                    assert(EntId::precedes(rest[i], rest[rest.len() - 1]));
                    EntId::transitive(rest[i], rows[n - 2], rows[n - 1]);
                }
            }
        }
    }
}

/// Whether a summary has the id of one of the summaries gathered before, or of one of
/// the entities taken in since.
spec fn stems_from<EntId: TotalOrder>(
    summary: EntitySummary<EntId>,
    before: Seq<EntitySummary<EntId>>,
    entities: Seq<ListedEntity<EntId>>,
) -> bool {
    ||| exists|i: int| 0 <= i < before.len() && (#[trigger] before[i]).id == summary.id
    ||| exists|j: int| 0 <= j < entities.len() && (#[trigger] entities[j]).id == summary.id
}

/// What stems from some entities stems from those and one more.
proof fn lemma_stems_from_more<EntId: TotalOrder>(
    summary: EntitySummary<EntId>,
    before: Seq<EntitySummary<EntId>>,
    entities: Seq<ListedEntity<EntId>>,
)
    requires
        entities.len() > 0,
        stems_from(summary, before, entities.drop_last()),
    ensures
        stems_from(summary, before, entities),
{
    let fewer = entities.drop_last();
    if exists|j: int| 0 <= j < fewer.len() && (#[trigger] fewer[j]).id == summary.id {
        let j = choose|j: int| 0 <= j < fewer.len() && (#[trigger] fewer[j]).id == summary.id;
        assert(entities[j] == fewer[j]);
    }
}

/// What was gathered stems from what was there before and what was taken in.
proof fn lemma_taken_in_stems<EntId: TotalOrder, F: Fn(GeoPoint) -> bool>(
    in_view: F,
    entities: Seq<ListedEntity<EntId>>,
    before: Seq<EntitySummary<EntId>>,
    after: Seq<EntitySummary<EntId>>,
    k: int,
)
    requires
        takes_in_all(in_view, entities, before, after),
        0 <= k < after.len(),
    ensures
        stems_from(after[k], before, entities),
    decreases entities.len(),
{
    if entities.len() == 0 {
        assert(before[k].id == after[k].id);
    } else {
        let mid = choose|mid: Seq<EntitySummary<EntId>>|
            takes_in_all(in_view, entities.drop_last(), before, mid) && #[trigger] takes_in(
                in_view,
                entities.last(),
                mid,
                after,
            );
        if k < mid.len() {
            assert(after.len() > mid.len() ==> after.drop_last()[k] == after[k]);
            lemma_taken_in_stems(in_view, entities.drop_last(), before, mid, k);
            lemma_stems_from_more(after[k], before, entities);
        } else {
            assert(entities[entities.len() - 1].id == after[k].id);
        }
    }
}

/// What stems from what comes before an entity comes before it.
proof fn lemma_stems_before<EntId: TotalOrder>(
    summary: EntitySummary<EntId>,
    before: Seq<EntitySummary<EntId>>,
    entities: Seq<ListedEntity<EntId>>,
    last: EntId::V,
)
    requires
        stems_from(summary, before, entities),
        forall|i: int|
            0 <= i < before.len() ==> EntId::precedes((#[trigger] before[i]).id@, last),
        forall|j: int|
            0 <= j < entities.len() ==> EntId::precedes((#[trigger] entities[j]).id@, last),
    ensures
        EntId::precedes(summary.id@, last),
{
    if exists|i: int| 0 <= i < before.len() && (#[trigger] before[i]).id == summary.id {
        let i = choose|i: int| 0 <= i < before.len() && (#[trigger] before[i]).id == summary.id;
        assert(EntId::precedes(before[i].id@, last));
    } else {
        let j = choose|j: int|
            0 <= j < entities.len() && (#[trigger] entities[j]).id == summary.id;
        assert(EntId::precedes(entities[j].id@, last));
    }
}

/// Whether entities come in the order of their ids, none twice.
spec fn taken_in_order<EntId: TotalOrder>(entities: Seq<ListedEntity<EntId>>) -> bool {
    forall|i: int, j: int|
        0 <= i < j < entities.len() ==> EntId::precedes(
            (#[trigger] entities[i]).id@,
            (#[trigger] entities[j]).id@,
        )
}

/// Whether every summary comes before every entity.
spec fn all_before<EntId: TotalOrder>(
    summaries: Seq<EntitySummary<EntId>>,
    entities: Seq<ListedEntity<EntId>>,
) -> bool {
    forall|i: int, j: int|
        0 <= i < summaries.len() && 0 <= j < entities.len() ==> EntId::precedes(
            (#[trigger] summaries[i]).id@,
            (#[trigger] entities[j]).id@,
        )
}

/// One more summary after all others keeps the order.
proof fn lemma_one_more_in_order<EntId: TotalOrder>(
    mid: Seq<EntitySummary<EntId>>,
    after: Seq<EntitySummary<EntId>>,
)
    requires
        listed_in_order(mid),
        after.len() == mid.len() + 1,
        after.drop_last() == mid,
        forall|i: int|
            0 <= i < mid.len() ==> EntId::precedes((#[trigger] mid[i]).id@, after.last().id@),
    ensures
        listed_in_order(after),
{
    assert forall|i: int, j: int| 0 <= i < j < after.len() implies EntId::precedes(
        (#[trigger] after[i]).id@,
        (#[trigger] after[j]).id@,
    ) by {
        assert(after[i] == mid[i]);
        if j < mid.len() {
            assert(after[j] == mid[j]);
        }
    }
}

/// Taking in entities in order, after summaries that come before them, keeps the
/// order.
#[verifier::spinoff_prover]
proof fn lemma_taken_in_order<EntId: TotalOrder, F: Fn(GeoPoint) -> bool>(
    in_view: F,
    entities: Seq<ListedEntity<EntId>>,
    before: Seq<EntitySummary<EntId>>,
    after: Seq<EntitySummary<EntId>>,
)
    requires
        takes_in_all(in_view, entities, before, after),
        listed_in_order(before),
        taken_in_order(entities),
        all_before(before, entities),
    ensures
        listed_in_order(after),
    decreases entities.len(),
{
    if entities.len() > 0 {
        let fewer = entities.drop_last();
        let n = entities.len() - 1;
        let mid = choose|mid: Seq<EntitySummary<EntId>>|
            takes_in_all(in_view, fewer, before, mid) && #[trigger] takes_in(
                in_view,
                entities.last(),
                mid,
                after,
            );
        assert(forall|j: int| 0 <= j < fewer.len() ==> #[trigger] fewer[j] == entities[j]);
        lemma_taken_in_order(in_view, fewer, before, mid);
        if after.len() > mid.len() {
            assert(after.last().id == entities[n].id);
            assert forall|i: int| 0 <= i < mid.len() implies EntId::precedes(
                (#[trigger] mid[i]).id@,
                after.last().id@,
            ) by {
                lemma_taken_in_stems(in_view, fewer, before, mid, i);
                lemma_stems_before(mid[i], before, fewer, entities[n].id@);
            }
            lemma_one_more_in_order(mid, after);
        }
    }
}

/// What was listed so far is in order, and each of it was walked.
#[verifier::spinoff_prover]
proof fn lemma_listed_in_order<EntId: TotalOrder, Cur, E, Fetch, Project, F>(
    fetch: Fetch,
    project: Project,
    in_view: F,
    first: Option<Cur>,
    steps: Seq<Step<EntId, Cur>>,
) where
    Fetch: Fn(Option<Cur>) -> Result<ClassPage<EntId, Cur>, E>,
    Project: Fn(EntId) -> Result<ListedEntity<EntId>, E>,
    F: Fn(GeoPoint) -> bool,

    requires
        lists_by::<EntId, Cur, E, Fetch, Project, F>(fetch, project, in_view, first, steps),
        walk_is_ordered(steps),
        projects_to_its_id::<EntId, E, Project>(project),
    ensures
        listed_in_order(gathered_by(steps)),
        forall|k: int|
            0 <= k < gathered_by(steps).len() ==> walked(
                steps,
                (#[trigger] gathered_by(steps)[k]).id@,
            ),
    decreases steps.len(),
{
    if steps.len() > 0 {
        let done = steps.drop_last();
        let step = steps.last();
        let n = steps.len() - 1;
        let rows = step.page.rows@;
        let reps = keys(rows);
        let wanted = runs(reps, rows.len());
        let before = gathered_by(done);
        let after = step.gathered;
        assert(steps[n] == step);
        assert forall|a: int, i: int, b: int, j: int|
            0 <= a < done.len() && 0 <= b < done.len() && 0 <= i < done[a].page.rows@.len() && 0 <= j
                < done[b].page.rows@.len() && row_before(a, i, b, j) implies EntId::precedes(
            (#[trigger] done[a].page.rows@[i])@,
            (#[trigger] done[b].page.rows@[j])@,
        ) || (a == b && done[a].page.rows@[i]@ == done[b].page.rows@[j]@) by {
            assert(done[a] == steps[a] && done[b] == steps[b]);
            assert(steps[a].page.rows@[i] == done[a].page.rows@[i]);
            assert(steps[b].page.rows@[j] == done[b].page.rows@[j]);
        }
        lemma_listed_in_order::<EntId, Cur, E, Fetch, Project, F>(
            fetch,
            project,
            in_view,
            first,
            done,
        );
        assert forall|i: int, j: int| 0 <= i < j < reps.len() implies EntId::precedes(
            #[trigger] reps[i],
            #[trigger] reps[j],
        ) || reps[i] == reps[j] by {
            assert(row_before(n, i, n, j));
            assert(steps[n].page.rows@[i]@ == reps[i]);
            assert(steps[n].page.rows@[j]@ == reps[j]);
        }
        lemma_runs_ascend::<EntId>(reps, rows.len());
        assert(reps.take(rows.len() as int) =~= reps);
        let entities = step.entities;
        assert forall|k: int| 0 <= k < entities.len() implies (#[trigger] entities[k]).id@
            == wanted[k] && walked(steps, wanted[k]) by {
            assert(projected::<EntId, E, Project>(project, wanted[k], entities[k]));
            assert(reps.contains(wanted[k]));
            let i = reps.index_of(wanted[k]);
            assert(steps[n].page.rows@[i]@ == wanted[k]);
        }
        assert forall|i: int, j: int|
            0 <= i < before.len() && 0 <= j < entities.len() implies EntId::precedes(
            (#[trigger] before[i]).id@,
            (#[trigger] entities[j]).id@,
        ) by {
            assert(walked(done, before[i].id@));
            let (a, x) = choose|a: int, x: int|
                0 <= a < done.len() && 0 <= x < done[a].page.rows@.len() && (
                #[trigger] done[a].page.rows@[x])@ == before[i].id@;
            assert(reps.contains(wanted[j]));
            let y = reps.index_of(wanted[j]);
            assert(row_before(a, x, n, y));
            assert(steps[a].page.rows@[x]@ == before[i].id@);
            assert(steps[n].page.rows@[y]@ == wanted[j]);
        }
        assert(all_before(before, entities));
        assert(taken_in_order(entities)) by {
            assert forall|i: int, j: int| 0 <= i < j < entities.len() implies EntId::precedes(
                (#[trigger] entities[i]).id@,
                (#[trigger] entities[j]).id@,
            ) by {
                assert(EntId::precedes(wanted[i], wanted[j]));
            }
        }
        lemma_taken_in_order(in_view, entities, before, after);
        assert forall|k: int| 0 <= k < after.len() implies walked(
            steps,
            (#[trigger] after[k]).id@,
        ) by {
            lemma_taken_in_stems(in_view, entities, before, after, k);
            if exists|i: int| 0 <= i < before.len() && (#[trigger] before[i]).id == after[k].id {
                let i = choose|i: int|
                    0 <= i < before.len() && (#[trigger] before[i]).id == after[k].id;
                assert(walked(done, before[i].id@));
                let (a, x) = choose|a: int, x: int|
                    0 <= a < done.len() && 0 <= x < done[a].page.rows@.len() && (
                    #[trigger] done[a].page.rows@[x])@ == before[i].id@;
                assert(steps[a].page.rows@[x]@ == after[k].id@);
            } else {
                let j = choose|j: int|
                    0 <= j < entities.len() && (#[trigger] entities[j]).id == after[k].id;
                assert(walked(steps, wanted[j]));
            }
        }
    }
}

/// No class is listed twice: where the walk is ordered by representative, and a class
/// projects to the id of its representative, the summaries come in the order of their
/// ids, and no two have the same.
pub proof fn law_no_class_is_listed_twice<EntId: TotalOrder, Cur, E, Fetch, Project, F>(
    fetch: Fetch,
    project: Project,
    in_view: F,
    first: Option<Cur>,
    steps: Seq<Step<EntId, Cur>>,
    i: int,
    j: int,
) where
    Fetch: Fn(Option<Cur>) -> Result<ClassPage<EntId, Cur>, E>,
    Project: Fn(EntId) -> Result<ListedEntity<EntId>, E>,
    F: Fn(GeoPoint) -> bool,

    requires
        lists_by::<EntId, Cur, E, Fetch, Project, F>(fetch, project, in_view, first, steps),
        walk_is_ordered(steps),
        projects_to_its_id::<EntId, E, Project>(project),
        0 <= i < j < gathered_by(steps).len(),
    ensures
        EntId::precedes(gathered_by(steps)[i].id@, gathered_by(steps)[j].id@),
        gathered_by(steps)[i].id@ != gathered_by(steps)[j].id@,
{
    lemma_listed_in_order::<EntId, Cur, E, Fetch, Project, F>(
        fetch,
        project,
        in_view,
        first,
        steps,
    );
    EntId::irreflexive(gathered_by(steps)[i].id@);
}

// --- What a summary says ---

/// Points coincide where their latitudes and their longitudes are equal numbers.
pub proof fn law_points_coincide_by_coordinates(p: GeoPoint, q: GeoPoint)
    ensures
        p.coincides(q) <==> doubles_equal(p.latitude, q.latitude) && doubles_equal(
            p.longitude,
            q.longitude,
        ),
        p.coincides(q) <==> q.coincides(p),
{
}

/// The span of a timeline is bounded by its dates: its first day is the first day of one
/// of them and none starts before it, its last day the last day of one of them and none
/// ends after it; a side is open only where no date has a day there.
pub proof fn law_span_is_bounded_by_the_dates(
    timeline: Seq<TimelineEntry>,
    earliest: Option<CalendarDate>,
    latest: Option<CalendarDate>,
    i: int,
    j: int,
)
    requires
        is_earliest(timeline, anywhere(), earliest),
        is_latest(timeline, anywhere(), latest),
        0 <= i < timeline.len(),
        0 <= j < timeline[i].dates@.len(),
    ensures
        ({
            let date = timeline[i].dates@[j];
            &&& (first_day_of(date) matches Some(first) ==> (earliest matches Some(day)
                && day.day_number() <= first.day_number()))
            &&& (last_day_of(date) matches Some(last) ==> (latest matches Some(day)
                && last.day_number() <= day.day_number()))
        }),
        (earliest matches Some(day) ==> exists|k: int, l: int|
            0 <= k < timeline.len() && 0 <= l < timeline[k].dates@.len() && first_day_of(
                #[trigger] timeline[k].dates@[l],
            ) == Some(day)),
        (latest matches Some(day) ==> exists|k: int, l: int|
            0 <= k < timeline.len() && 0 <= l < timeline[k].dates@.len() && last_day_of(
                #[trigger] timeline[k].dates@[l],
            ) == Some(day)),
{
    let date = timeline[i].dates@[j];
    if first_day_of(date) is Some {
        assert(starts(timeline, i, j, first_day_of(date)->0));
    }
    if last_day_of(date) is Some {
        assert(finishes(timeline, i, j, last_day_of(date)->0));
    }
    if earliest is Some {
        let (k, l) = choose|k: int, l: int| #[trigger] starts(timeline, k, l, earliest->0);
        assert(first_day_of(timeline[k].dates@[l]) == earliest);
    }
    if latest is Some {
        let (k, l) = choose|k: int, l: int| #[trigger] finishes(timeline, k, l, latest->0);
        assert(last_day_of(timeline[k].dates@[l]) == latest);
    }
}

/// An entity is listed exactly where its location is one point and the point is in
/// view; its summary has its id, its names, the point and the span of its timeline, and
/// what was gathered before stays.
pub proof fn law_listed_exactly_where_in_view<EntId, F: Fn(GeoPoint) -> bool>(
    in_view: F,
    entity: ListedEntity<EntId>,
    before: Seq<EntitySummary<EntId>>,
    after: Seq<EntitySummary<EntId>>,
)
    requires
        takes_in(in_view, entity, before, after),
    ensures
        entity.location is Unresolved ==> after == before,
        (entity.location matches EntityLocation::Point(point) ==> {
            &&& !call_ensures(in_view, (point,), true) ==> after == before
            &&& !call_ensures(in_view, (point,), false) ==> after.len() == before.len() + 1
        }),
        after != before ==> {
            let summary = after.last();
            &&& after == before.push(summary)
            &&& entity.location == EntityLocation::Point(summary.point)
            &&& summary.id == entity.id
            &&& summary.names == entity.names
            &&& is_earliest(entity.timeline@, anywhere(), summary.earliest)
            &&& is_latest(entity.timeline@, anywhere(), summary.latest)
        },
{
    if after != before {
        assert(after =~= after.drop_last().push(after.last()));
    }
}

/// Runs have the same members as the rows, in the same order, and no two neighbours are
/// the same.
pub proof fn law_runs_name_every_row_once<V>(rows: Seq<V>, n: nat)
    requires
        n <= rows.len(),
    ensures
        forall|x: V| #[trigger] runs(rows, n).contains(x) <==> rows.take(n as int).contains(x),
        n > 0 ==> runs(rows, n).len() > 0 && runs(rows, n).last() == rows[n - 1],
        forall|k: int|
            0 < k < runs(rows, n).len() ==> #[trigger] runs(rows, n)[k] != runs(rows, n)[k - 1],
        runs(rows, n).len() <= n,
    decreases n,
{
    if n == 0 {
        assert(rows.take(0) =~= Seq::empty());
    } else {
        law_runs_name_every_row_once(rows, (n - 1) as nat);
        let rest = runs(rows, (n - 1) as nat);
        let all = runs(rows, n);
        let part = rows.take(n - 1);
        let more = rows.take(n as int);
        assert(more =~= part.push(rows[n - 1]));
        assert forall|x: V| #[trigger] all.contains(x) <==> more.contains(x) by {
            assert(rest.contains(x) <==> part.contains(x));
            if more.contains(x) {
                let k = more.index_of(x);
                if k < n - 1 {
                    assert(part[k] == x);
                    assert(rest.contains(x));
                    assert(all[rest.index_of(x)] == x);
                } else {
                    assert(all[all.len() - 1] == x);
                }
            }
            if all.contains(x) {
                let k = all.index_of(x);
                if k < rest.len() {
                    assert(rest[k] == x);
                    assert(rest.contains(x));
                    assert(more[part.index_of(x)] == x);
                } else {
                    assert(more[n - 1] == x);
                }
            }
        }
        assert forall|k: int| 0 < k < all.len() implies #[trigger] all[k] != all[k - 1] by {
            if k < rest.len() {
                assert(rest[k] != rest[k - 1]);
            }
        }
    }
}

/// A listing opens where its cursor says the walk goes on, and without one at the start
/// of the walk.
pub proof fn law_listing_opens_at_its_cursor<Cur>(cursor: ListCursor<Cur>)
    ensures
        opening(Some(cursor)) == Some(cursor.walk),
        opening(None::<ListCursor<Cur>>) is None,
{
}

/// What is taken in of entities, one after the other: each summary past those gathered
/// before is that of one of them.
proof fn lemma_taken_in_of<EntId, F: Fn(GeoPoint) -> bool>(
    in_view: F,
    entities: Seq<ListedEntity<EntId>>,
    before: Seq<EntitySummary<EntId>>,
    after: Seq<EntitySummary<EntId>>,
    k: int,
) -> (j: int)
    requires
        takes_in_all(in_view, entities, before, after),
        before.len() <= k < after.len(),
    ensures
        0 <= j < entities.len(),
        entities[j].id == after[k].id,
        entities[j].names == after[k].names,
        entities[j].location == EntityLocation::Point(after[k].point),
        is_earliest(entities[j].timeline@, anywhere(), after[k].earliest),
        is_latest(entities[j].timeline@, anywhere(), after[k].latest),
    decreases entities.len(),
{
    let mid = choose|mid: Seq<EntitySummary<EntId>>|
        takes_in_all(in_view, entities.drop_last(), before, mid) && #[trigger] takes_in(
            in_view,
            entities.last(),
            mid,
            after,
        );
    if k < mid.len() {
        assert(after.len() > mid.len() ==> after.drop_last()[k] == after[k]);
        lemma_taken_in_of(in_view, entities.drop_last(), before, mid, k)
    } else {
        entities.len() - 1
    }
}

/// An entity whose one point is in view is taken in.
proof fn lemma_in_view_is_taken_in<EntId, F: Fn(GeoPoint) -> bool>(
    in_view: F,
    entities: Seq<ListedEntity<EntId>>,
    before: Seq<EntitySummary<EntId>>,
    after: Seq<EntitySummary<EntId>>,
    j: int,
    point: GeoPoint,
) -> (k: int)
    requires
        takes_in_all(in_view, entities, before, after),
        0 <= j < entities.len(),
        entities[j].location == EntityLocation::Point(point),
        !call_ensures(in_view, (point,), false),
    ensures
        0 <= k < after.len(),
        after[k].id == entities[j].id,
        after[k].point == point,
        after[k].names == entities[j].names,
    decreases entities.len(),
{
    let mid = choose|mid: Seq<EntitySummary<EntId>>|
        takes_in_all(in_view, entities.drop_last(), before, mid) && #[trigger] takes_in(
            in_view,
            entities.last(),
            mid,
            after,
        );
    if j == entities.len() - 1 {
        after.len() - 1
    } else {
        let k = lemma_in_view_is_taken_in(
            in_view,
            entities.drop_last(),
            before,
            mid,
            j,
            point,
        );
        assert(after.len() > mid.len() ==> after.drop_last()[k] == after[k]);
        k
    }
}

/// Every summary of a listing is that of a class on one of the pages of the walk: it has
/// the id, the names and the point that the class projects to, and the span of its
/// timeline.
pub proof fn law_summaries_are_of_walked_classes<EntId: TotalOrder, Cur, E, Fetch, Project, F>(
    fetch: Fetch,
    project: Project,
    in_view: F,
    first: Option<Cur>,
    steps: Seq<Step<EntId, Cur>>,
    k: int,
) -> (r: (int, int, EntId, ListedEntity<EntId>)) where
    Fetch: Fn(Option<Cur>) -> Result<ClassPage<EntId, Cur>, E>,
    Project: Fn(EntId) -> Result<ListedEntity<EntId>, E>,
    F: Fn(GeoPoint) -> bool,

    requires
        lists_by::<EntId, Cur, E, Fetch, Project, F>(fetch, project, in_view, first, steps),
        0 <= k < gathered_by(steps).len(),
    ensures
        0 <= r.0 < steps.len(),
        0 <= r.1 < steps[r.0].page.rows@.len(),
        r.2@ == steps[r.0].page.rows@[r.1]@,
        call_ensures(project, (r.2,), Ok::<ListedEntity<EntId>, E>(r.3)),
        gathered_by(steps)[k].id == r.3.id,
        gathered_by(steps)[k].names == r.3.names,
        r.3.location == EntityLocation::Point(gathered_by(steps)[k].point),
        is_earliest(r.3.timeline@, anywhere(), gathered_by(steps)[k].earliest),
        is_latest(r.3.timeline@, anywhere(), gathered_by(steps)[k].latest),
    decreases steps.len(),
{
    let done = steps.drop_last();
    let step = steps.last();
    let n = steps.len() - 1;
    if k < gathered_by(done).len() {
        lemma_taken_in_keeps(in_view, step.entities, gathered_by(done), step.gathered, k);
        let r = law_summaries_are_of_walked_classes::<EntId, Cur, E, Fetch, Project, F>(
            fetch,
            project,
            in_view,
            first,
            done,
            k,
        );
        assert(done[r.0] == steps[r.0]);
        r
    } else {
        let j = lemma_taken_in_of(in_view, step.entities, gathered_by(done), step.gathered, k);
        let rows = step.page.rows@;
        let reps = runs(keys(rows), rows.len());
        assert(projected::<EntId, E, Project>(project, reps[j], step.entities[j]));
        let id = choose|id: EntId|
            id@ == reps[j] && #[trigger] call_ensures(
                project,
                (id,),
                Ok::<ListedEntity<EntId>, E>(step.entities[j]),
            );
        law_runs_name_every_row_once(keys(rows), rows.len());
        assert(reps.contains(reps[j]));
        assert(keys(rows).take(rows.len() as int) =~= keys(rows));
        let i = keys(rows).index_of(reps[j]);
        assert(keys(rows)[i] == rows[i]@);
        (n, i, id, step.entities[j])
    }
}

/// Every class on a page of the walk is projected, and listed where it projects to one
/// point that is in view.
pub proof fn law_every_class_in_view_is_listed<EntId: TotalOrder, Cur, E, Fetch, Project, F>(
    fetch: Fetch,
    project: Project,
    in_view: F,
    first: Option<Cur>,
    steps: Seq<Step<EntId, Cur>>,
    a: int,
    i: int,
) -> (r: (EntId, ListedEntity<EntId>)) where
    Fetch: Fn(Option<Cur>) -> Result<ClassPage<EntId, Cur>, E>,
    Project: Fn(EntId) -> Result<ListedEntity<EntId>, E>,
    F: Fn(GeoPoint) -> bool,

    requires
        lists_by::<EntId, Cur, E, Fetch, Project, F>(fetch, project, in_view, first, steps),
        0 <= a < steps.len(),
        0 <= i < steps[a].page.rows@.len(),
    ensures
        r.0@ == steps[a].page.rows@[i]@,
        call_ensures(project, (r.0,), Ok::<ListedEntity<EntId>, E>(r.1)),
        (r.1.location matches EntityLocation::Point(point) ==> !call_ensures(
            in_view,
            (point,),
            false,
        ) ==> exists|k: int|
            0 <= k < gathered_by(steps).len() && (#[trigger] gathered_by(steps)[k]).id == r.1.id
                && gathered_by(steps)[k].point == point),
    decreases steps.len(),
{
    let done = steps.drop_last();
    let step = steps.last();
    if a < steps.len() - 1 {
        let r = law_every_class_in_view_is_listed::<EntId, Cur, E, Fetch, Project, F>(
            fetch,
            project,
            in_view,
            first,
            done,
            a,
            i,
        );
        match r.1.location {
            EntityLocation::Point(point) => {
                if !call_ensures(in_view, (point,), false) {
                    let k = choose|k: int|
                        0 <= k < gathered_by(done).len() && (#[trigger] gathered_by(done)[k]).id
                            == r.1.id && gathered_by(done)[k].point == point;
                    lemma_taken_in_keeps(
                        in_view,
                        step.entities,
                        gathered_by(done),
                        step.gathered,
                        k,
                    );
                    assert(gathered_by(steps)[k] == gathered_by(done)[k]);
                }
            },
            EntityLocation::Unresolved => {},
        }
        r
    } else {
        let rows = step.page.rows@;
        let reps = runs(keys(rows), rows.len());
        law_runs_name_every_row_once(keys(rows), rows.len());
        assert(keys(rows).take(rows.len() as int) =~= keys(rows));
        assert(keys(rows)[i] == rows[i]@);
        assert(keys(rows).contains(rows[i]@));
        assert(reps.contains(rows[i]@));
        let j = reps.index_of(rows[i]@);
        assert(projected::<EntId, E, Project>(project, reps[j], step.entities[j]));
        let id = choose|id: EntId|
            id@ == reps[j] && #[trigger] call_ensures(
                project,
                (id,),
                Ok::<ListedEntity<EntId>, E>(step.entities[j]),
            );
        match step.entities[j].location {
            EntityLocation::Point(point) => {
                if !call_ensures(in_view, (point,), false) {
                    let k = lemma_in_view_is_taken_in(
                        in_view,
                        step.entities,
                        gathered_by(done),
                        step.gathered,
                        j,
                        point,
                    );
                    assert(gathered_by(steps)[k].id == step.entities[j].id);
                }
            },
            EntityLocation::Unresolved => {},
        }
        (id, step.entities[j])
    }
}

} // verus!

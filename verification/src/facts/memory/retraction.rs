//! Which facts are taken back at a snapshot, and by what.
//!
//! `edges` gives, for each fact id, the ids of the facts that retract it.
use vstd::prelude::*;

verus! {

/// For each fact id, the ids of the facts that retract it.
pub type Edges = spec_fn(u64) -> Set<u64>;

/// The lowest id that effectively retracts `id` at this snapshot.
pub open spec fn retraction(edges: Edges, snapshot: u64, id: u64) -> Option<u64>
    decreases snapshot - id, 1int, 0int,
{
    lowest_from(edges, snapshot, id, 0)
}

/// The lowest id from `r` on that effectively retracts `id`.
pub open spec fn lowest_from(edges: Edges, snapshot: u64, id: u64, r: u64) -> Option<u64>
    decreases snapshot - id, 0int, snapshot - r,
{
    if r >= snapshot {
        None
    } else if edges(id).contains(r) && (r <= id || retraction(edges, snapshot, r) is None) {
        Some(r)
    } else {
        lowest_from(edges, snapshot, id, (r + 1) as u64)
    }
}

/// Whether `r` effectively retracts `id`: it is visible at the snapshot, and not
/// itself retracted.
pub open spec fn retracts(edges: Edges, snapshot: u64, id: u64, r: u64) -> bool {
    &&& r < snapshot
    &&& edges(id).contains(r)
    &&& r <= id || retraction(edges, snapshot, r) is None
}

/// [`lowest_from`] is the lowest.
pub proof fn lemma_lowest_from(edges: Edges, snapshot: u64, id: u64, r: u64)
    ensures
        match lowest_from(edges, snapshot, id, r) {
            Some(by) => {
                &&& r <= by
                &&& retracts(edges, snapshot, id, by)
                &&& forall|x: u64| r <= x < by ==> !retracts(edges, snapshot, id, x)
            },
            None => forall|x: u64| r <= x ==> !retracts(edges, snapshot, id, x),
        },
    decreases snapshot - r,
{
    reveal_with_fuel(lowest_from, 2);
    if r < snapshot && !retracts(edges, snapshot, id, r) {
        lemma_lowest_from(edges, snapshot, id, (r + 1) as u64);
    }
}

/// What [`retraction`] says of an id, and that only one answer fits.
pub proof fn lemma_retraction(edges: Edges, snapshot: u64, id: u64)
    ensures
        match retraction(edges, snapshot, id) {
            Some(by) => {
                &&& retracts(edges, snapshot, id, by)
                &&& forall|x: u64| x < by ==> !retracts(edges, snapshot, id, x)
            },
            None => forall|x: u64| !retracts(edges, snapshot, id, x),
        },
{
    lemma_lowest_from(edges, snapshot, id, 0);
    assert(retraction(edges, snapshot, id) == lowest_from(edges, snapshot, id, 0));
}

/// Where every retractor's id is above its target's, a fact is retracted by the
/// lowest of its retractors that is visible and not itself retracted, and
/// active where there is none.
pub proof fn law_lowest_effective_retractor(edges: Edges, snapshot: u64, id: u64)
    requires
        forall|t: u64, r: u64| #[trigger] edges(t).contains(r) ==> t < r,
    ensures
        match retraction(edges, snapshot, id) {
            Some(by) => {
                &&& by < snapshot
                &&& edges(id).contains(by)
                &&& retraction(edges, snapshot, by) is None
                &&& forall|x: u64|
                    x < by && #[trigger] edges(id).contains(x) ==> retraction(
                        edges,
                        snapshot,
                        x,
                    ) is Some
            },
            None => forall|x: u64|
                x < snapshot && #[trigger] edges(id).contains(x) ==> retraction(
                    edges,
                    snapshot,
                    x,
                ) is Some,
        },
{
    lemma_retraction(edges, snapshot, id);
    match retraction(edges, snapshot, id) {
        Some(by) => {
            assert forall|x: u64| x < by && #[trigger] edges(id).contains(x) implies retraction(
                edges,
                snapshot,
                x,
            ) is Some by {
                assert(!retracts(edges, snapshot, id, x));
            }
        },
        None => {
            assert forall|x: u64|
                x < snapshot && #[trigger] edges(id).contains(x) implies retraction(
                edges,
                snapshot,
                x,
            ) is Some by {
                assert(!retracts(edges, snapshot, id, x));
            }
        },
    }
}

/// Taking back the one retractor of a fact gives the fact back.
pub proof fn law_retracting_the_retractor_restores(edges: Edges, snapshot: u64, id: u64, r: u64)
    requires
        id < r,
        forall|x: u64| x < snapshot && #[trigger] edges(id).contains(x) ==> x == r,
        retraction(edges, snapshot, r) is Some,
    ensures
        retraction(edges, snapshot, id) is None,
{
    lemma_retraction(edges, snapshot, id);
    if retraction(edges, snapshot, id) is Some {
        let by = retraction(edges, snapshot, id)->0;
        assert(retracts(edges, snapshot, id, by));
    }
}

/// A retractor that is visible and not itself retracted takes its target back.
pub proof fn law_standing_retractor_takes_back(edges: Edges, snapshot: u64, id: u64, r: u64)
    requires
        r < snapshot,
        edges(id).contains(r),
        retraction(edges, snapshot, r) is None,
    ensures
        retraction(edges, snapshot, id) is Some,
        retraction(edges, snapshot, id)->0 <= r,
{
    lemma_retraction(edges, snapshot, id);
    assert(retracts(edges, snapshot, id, r));
}

/// What lands at or after a snapshot changes nothing that is seen at it.
pub proof fn law_snapshot_is_stable(before: Edges, after: Edges, snapshot: u64, id: u64)
    requires
        forall|t: u64, r: u64|
            r < snapshot ==> (#[trigger] before(t).contains(r) <==> #[trigger] after(
                t,
            ).contains(r)),
    ensures
        retraction(before, snapshot, id) == retraction(after, snapshot, id),
    decreases snapshot - id,
{
    lemma_retraction(before, snapshot, id);
    lemma_retraction(after, snapshot, id);
    assert forall|x: u64| retracts(before, snapshot, id, x) <==> retracts(
        after,
        snapshot,
        id,
        x,
    ) by {
        if x < snapshot {
            assert(before(id).contains(x) <==> after(id).contains(x));
            if id < x {
                law_snapshot_is_stable(before, after, snapshot, x);
            }
        }
    }
    match (retraction(before, snapshot, id), retraction(after, snapshot, id)) {
        (Some(a), Some(b)) => {
            assert(retracts(before, snapshot, id, a) && retracts(after, snapshot, id, b));
            if a < b {
                assert(!retracts(after, snapshot, id, a));
            } else if b < a {
                assert(!retracts(before, snapshot, id, b));
            }
        },
        (Some(a), None) => {
            assert(!retracts(after, snapshot, id, a));
        },
        (None, Some(b)) => {
            assert(!retracts(before, snapshot, id, b));
        },
        (None, None) => {},
    }
}

/// A set of numbers below a bound is finite and has at most that many members.
pub proof fn lemma_bounded_set(s: Set<u64>, bound: nat)
    requires
        forall|x: u64| s.contains(x) ==> x < bound,
    ensures
        s.finite(),
        s.len() <= bound,
    decreases bound,
{
    if bound == 0 {
        assert(s =~= Set::<u64>::empty());
    } else if bound - 1 <= u64::MAX {
        let top = (bound - 1) as u64;
        let rest = s.remove(top);
        lemma_bounded_set(rest, (bound - 1) as nat);
        if s.contains(top) {
            assert(s =~= rest.insert(top));
        } else {
            assert(s =~= rest);
        }
    } else {
        assert forall|x: u64| s.contains(x) implies x < bound - 1 by {
            assert(x <= u64::MAX);
        }
        lemma_bounded_set(s, (bound - 1) as nat);
    }
}

} // verus!

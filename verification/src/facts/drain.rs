//! Draining a paged read to exhaustion.
//!
//! A drain resumes at `next_cursor` as it stands: the cursor is an inclusive
//! lower bound, and `next_cursor` the first id not yet handed over. It ends where
//! a page has no `next_cursor`, and never for a short page.
use vstd::prelude::*;

use crate::facts::ids::FactId;
use crate::facts::schema::{FactPage, PageItem};

verus! {

/// Page size for backlink drains.
pub const DRAIN_PAGE: usize = 256;

/// Where the page at `i` starts: the first at zero, the others where the one
/// before says.
pub open spec fn page_start<F, S>(pages: Seq<FactPage<F, S>>, i: int) -> FactId
    recommends
        0 <= i <= pages.len(),
{
    if i == 0 {
        first_cursor()
    } else {
        pages[i - 1].next_cursor->0
    }
}

/// The cursor of the first page.
pub closed spec fn first_cursor() -> FactId {
    choose|id: FactId| id@ == 0
}

/// The page at `i` was fetched where the one before says, and says where the
/// next is unless it is the last.
pub open spec fn fetched<F, S, E, Fetch: Fn(FactId) -> Result<FactPage<F, S>, E>>(
    fetch: Fetch,
    pages: Seq<FactPage<F, S>>,
    i: int,
) -> bool {
    &&& call_ensures(fetch, (page_start(pages, i),), Ok::<FactPage<F, S>, E>(pages[i]))
    &&& i + 1 < pages.len() ==> pages[i].next_cursor is Some
}

/// The first pages of a walk, each fetched where the one before says.
pub open spec fn walked<F, S, E, Fetch: Fn(FactId) -> Result<FactPage<F, S>, E>>(
    fetch: Fetch,
    pages: Seq<FactPage<F, S>>,
) -> bool {
    forall|i: int| 0 <= i < pages.len() ==> #[trigger] fetched::<F, S, E, Fetch>(fetch, pages, i)
}

/// The rows of pages, one after the other.
pub open spec fn rows<F, S>(pages: Seq<FactPage<F, S>>) -> Seq<PageItem<F, S>>
    decreases pages.len(),
{
    if pages.len() == 0 {
        Seq::empty()
    } else {
        rows(pages.drop_last()) + pages.last().items@
    }
}

/// Whether `out` is what all pages of a read hold.
pub open spec fn drains<F, S, E, Fetch: Fn(FactId) -> Result<FactPage<F, S>, E>>(
    fetch: Fetch,
    out: Seq<PageItem<F, S>>,
) -> bool {
    exists|pages: Seq<FactPage<F, S>>|
        {
            &&& pages.len() > 0
            &&& #[trigger] walked::<F, S, E, Fetch>(fetch, pages)
            &&& pages.last().next_cursor is None
            &&& out == rows(pages)
        }
}

/// Whether some page of a read fails with `error`, every page before it being
/// fetched.
pub open spec fn breaks_off<F, S, E, Fetch: Fn(FactId) -> Result<FactPage<F, S>, E>>(
    fetch: Fetch,
    error: E,
) -> bool {
    exists|pages: Seq<FactPage<F, S>>|
        {
            &&& #[trigger] walked::<F, S, E, Fetch>(fetch, pages)
            &&& pages.len() > 0 ==> pages.last().next_cursor is Some
            &&& call_ensures(
                fetch,
                (page_start(pages, pages.len() as int),),
                Err::<FactPage<F, S>, E>(error),
            )
        }
}

/// One more page of a walk.
proof fn lemma_one_more_page<F, S, E, Fetch: Fn(FactId) -> Result<FactPage<F, S>, E>>(
    fetch: Fetch,
    before: Seq<FactPage<F, S>>,
    page: FactPage<F, S>,
)
    requires
        walked::<F, S, E, Fetch>(fetch, before),
        before.len() > 0 ==> before.last().next_cursor is Some,
        call_ensures(
            fetch,
            (page_start(before, before.len() as int),),
            Ok::<FactPage<F, S>, E>(page),
        ),
    ensures
        walked::<F, S, E, Fetch>(fetch, before.push(page)),
        rows(before.push(page)) == rows(before) + page.items@,
{
    let pages = before.push(page);
    assert(pages.drop_last() =~= before);
    assert forall|i: int| 0 <= i < pages.len() implies #[trigger] fetched::<F, S, E, Fetch>(
        fetch,
        pages,
        i,
    ) by {
        if i < before.len() {
            assert(fetched::<F, S, E, Fetch>(fetch, before, i));
            assert(pages[i] == before[i]);
            if i > 0 {
                assert(pages[i - 1] == before[i - 1]);
            }
        } else if i > 0 {
            assert(pages[i - 1] == before[i - 1]);
        }
    }
}

/// Drain a paged read to exhaustion. The cursor of each page must lie past the
/// one it was fetched with.
pub fn drain_pages<F, S, E, Fetch: Fn(FactId) -> Result<FactPage<F, S>, E>>(fetch: &Fetch) -> (r:
    Result<Vec<PageItem<F, S>>, E>)
    requires
        forall|cursor: FactId| call_requires(*fetch, (cursor,)),
        forall|cursor: FactId, page: FactPage<F, S>, next: FactId| #[trigger]
            call_ensures(*fetch, (cursor,), Ok::<FactPage<F, S>, E>(page)) && page.next_cursor
                == Some(next) ==> cursor@ < #[trigger] next@,
    ensures
        r is Ok ==> drains::<F, S, E, Fetch>(*fetch, r->Ok_0@),
        r is Err ==> breaks_off::<F, S, E, Fetch>(*fetch, r->Err_0),
{
    let mut out: Vec<PageItem<F, S>> = Vec::new();
    let mut cursor = FactId::new(0);
    let ghost mut pages: Seq<FactPage<F, S>> = Seq::empty();
    proof {
        assert(cursor@ == 0);
        crate::facts::ids::lemma_fact_id(cursor, first_cursor());
    }
    loop
        invariant
            forall|cursor: FactId| call_requires(*fetch, (cursor,)),
            forall|cursor: FactId, page: FactPage<F, S>, next: FactId| #[trigger]
                call_ensures(*fetch, (cursor,), Ok::<FactPage<F, S>, E>(page)) && page.next_cursor
                    == Some(next) ==> cursor@ < #[trigger] next@,
            walked::<F, S, E, Fetch>(*fetch, pages),
            pages.len() > 0 ==> pages.last().next_cursor is Some,
            cursor == page_start(pages, pages.len() as int),
            out@ == rows(pages),
        decreases u64::MAX - cursor@,
    {
        let ghost before = pages;
        let page = match fetch(cursor) {
            Ok(page) => page,
            Err(error) => {
                return Err(error);
            },
        };
        proof {
            pages = before.push(page);
            lemma_one_more_page::<F, S, E, Fetch>(*fetch, before, page);
        }
        let FactPage { items, next_cursor } = page;
        let mut items = items;
        out.append(&mut items);
        match next_cursor {
            Some(next) => {
                cursor = next;
            },
            None => {
                return Ok(out);
            },
        }
    }
}

/// Every fact of a paged read, without its id.
pub fn drain_facts<F, S, E, Fetch: Fn(FactId) -> Result<FactPage<F, S>, E>>(fetch: &Fetch) -> (r:
    Result<Vec<F>, E>)
    requires
        forall|cursor: FactId| call_requires(*fetch, (cursor,)),
        forall|cursor: FactId, page: FactPage<F, S>, next: FactId| #[trigger]
            call_ensures(*fetch, (cursor,), Ok::<FactPage<F, S>, E>(page)) && page.next_cursor
                == Some(next) ==> cursor@ < #[trigger] next@,
    ensures
        r is Ok ==> exists|all: Seq<PageItem<F, S>>| #[trigger]
            drains::<F, S, E, Fetch>(*fetch, all) && r->Ok_0@ == all.map_values(
                |item: PageItem<F, S>| item.fact,
            ),
        r is Err ==> breaks_off::<F, S, E, Fetch>(*fetch, r->Err_0),
{
    let items = match drain_pages::<F, S, E, Fetch>(fetch) {
        Ok(items) => items,
        Err(error) => return Err(error),
    };
    let ghost all = items@;
    let mut out: Vec<F> = Vec::new();
    for item in iter: items
        invariant
            iter.seq() == all,
            out@ == all.take(iter.index() as int).map_values(|item: PageItem<F, S>| item.fact),
    {
        let ghost i = iter.index() as int;
        out.push(item.fact);
        assert(out@ =~= all.take(i + 1).map_values(|item: PageItem<F, S>| item.fact));
    }
    assert(all.take(all.len() as int) =~= all);
    Ok(out)
}

/// Every fact of a paged read with its id.
pub fn drain_id_facts<F, S, E, Fetch: Fn(FactId) -> Result<FactPage<F, S>, E>>(fetch: &Fetch) -> (r:
    Result<Vec<(FactId, F)>, E>)
    requires
        forall|cursor: FactId| call_requires(*fetch, (cursor,)),
        forall|cursor: FactId, page: FactPage<F, S>, next: FactId| #[trigger]
            call_ensures(*fetch, (cursor,), Ok::<FactPage<F, S>, E>(page)) && page.next_cursor
                == Some(next) ==> cursor@ < #[trigger] next@,
    ensures
        r is Ok ==> exists|all: Seq<PageItem<F, S>>| #[trigger]
            drains::<F, S, E, Fetch>(*fetch, all) && r->Ok_0@ == all.map_values(
                |item: PageItem<F, S>| (item.fact_id, item.fact),
            ),
        r is Err ==> breaks_off::<F, S, E, Fetch>(*fetch, r->Err_0),
{
    let items = match drain_pages::<F, S, E, Fetch>(fetch) {
        Ok(items) => items,
        Err(error) => return Err(error),
    };
    let ghost all = items@;
    let mut out: Vec<(FactId, F)> = Vec::new();
    for item in iter: items
        invariant
            iter.seq() == all,
            out@ == all.take(iter.index() as int).map_values(
                |item: PageItem<F, S>| (item.fact_id, item.fact),
            ),
    {
        let ghost i = iter.index() as int;
        out.push((item.fact_id, item.fact));
        assert(out@ =~= all.take(i + 1).map_values(
            |item: PageItem<F, S>| (item.fact_id, item.fact),
        ));
    }
    assert(all.take(all.len() as int) =~= all);
    Ok(out)
}

// --- What a drain hands over ---

/// A drain starts at the lowest id, and fetches each later page at the cursor that the
/// page before names.
pub proof fn law_drain_follows_the_cursors<F, S, E, Fetch: Fn(FactId) -> Result<FactPage<F, S>, E>>(
    fetch: Fetch,
    pages: Seq<FactPage<F, S>>,
    i: int,
) -> (start: FactId)
    requires
        walked::<F, S, E, Fetch>(fetch, pages),
        0 <= i < pages.len(),
    ensures
        call_ensures(fetch, (start,), Ok::<FactPage<F, S>, E>(pages[i])),
        i == 0 ==> start@ == 0,
        i > 0 ==> pages[i - 1].next_cursor == Some(start),
{
    assert(fetched::<F, S, E, Fetch>(fetch, pages, i));
    if i > 0 {
        assert(fetched::<F, S, E, Fetch>(fetch, pages, i - 1));
    } else {
        law_lowest_cursor();
    }
    page_start(pages, i)
}

/// The lowest cursor has the number zero.
pub proof fn law_lowest_cursor()
    ensures
        first_cursor()@ == 0,
{
    let lowest = crate::facts::ids::lemma_fact_id_of(0);
    assert(lowest@ == 0);
}

/// The rows of pages are the rows of each, one page after the other.
pub proof fn law_rows_of_pages<F, S>(a: Seq<FactPage<F, S>>, b: Seq<FactPage<F, S>>)
    ensures
        rows(a + b) == rows(a) + rows(b),
        b.len() == 1 ==> rows(b) == b[0].items@,
    decreases b.len(),
{
    if b.len() == 0 {
        assert(a + b =~= a);
        assert(rows(a) + rows(b) =~= rows(a));
    } else {
        law_rows_of_pages(a, b.drop_last());
        assert((a + b).drop_last() =~= a + b.drop_last());
        assert(rows(a + b) =~= rows(a) + rows(b));
        if b.len() == 1 {
            assert(rows(b.drop_last()) =~= Seq::empty());
            assert(rows(b) =~= b[0].items@);
        }
    }
}

} // verus!

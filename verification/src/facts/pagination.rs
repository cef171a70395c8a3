//! Cursor pagination.
//!
//! A backlink or class read comes back one page at a time behind a cursor. A
//! [`Walk`] says which page to fetch next: the first without a cursor, each later
//! one at the cursor of the page before, and none after a page without a cursor.
//! The cursor alone ends a walk: a page may be short or empty and still carry one.
use vstd::prelude::*;

use crate::facts::ids::FactId;
use crate::facts::schema::{FactPage, PageItem};

verus! {

/// Page size for a paginated read.
pub const PAGE_SIZE: usize = 256;

/// One page of a cursor-paginated read: the rows and the cursor to resume past,
/// or `None` when the walk is exhausted.
pub trait Page: Sized {
    /// A row.
    type Row;

    /// A cursor.
    type Cursor;

    /// The rows of the page.
    spec fn rows(self) -> Seq<Self::Row>;

    /// The cursor to resume past.
    spec fn resume(self) -> Option<Self::Cursor>;

    /// Take the page apart.
    fn into_parts(self) -> (r: (Vec<Self::Row>, Option<Self::Cursor>))
        ensures
            r.0@ == self.rows(),
            r.1 == self.resume(),
    ;
}

impl<F, S> Page for FactPage<F, S> {
    type Row = PageItem<F, S>;

    type Cursor = FactId;

    open spec fn rows(self) -> Seq<PageItem<F, S>> {
        self.items@
    }

    open spec fn resume(self) -> Option<FactId> {
        self.next_cursor
    }

    fn into_parts(self) -> (r: (Vec<PageItem<F, S>>, Option<FactId>)) {
        (self.items, self.next_cursor)
    }
}

/// Where a walk over pages stands.
#[derive(Debug, Clone, Copy, PartialEq, Eq)]
pub enum Walk<Cursor> {
    /// Nothing was fetched yet.
    Opening,
    /// The next page starts past this cursor.
    Past(Cursor),
    /// The last page was fetched.
    Exhausted,
}

impl<Cursor> Walk<Cursor> {
    /// The cursor to fetch the next page with; the outer `None` ends the walk.
    pub fn pending(self) -> (r: Option<Option<Cursor>>)
        ensures
            r == match self {
                Walk::Opening => Some(None),
                Walk::Past(cursor) => Some(Some(cursor)),
                Walk::Exhausted => None,
            },
    {
        match self {
            Walk::Opening => Some(None),
            Walk::Past(cursor) => Some(Some(cursor)),
            Walk::Exhausted => None,
        }
    }
}

/// What a fetched page gives: its rows, and where the walk stands after it.
pub fn advance<P: Page>(page: P) -> (r: (Vec<P::Row>, Walk<P::Cursor>))
    ensures
        r.0@ == page.rows(),
        r.1 == match page.resume() {
            Some(cursor) => Walk::Past(cursor),
            None => Walk::Exhausted,
        },
{
    let (rows, next) = page.into_parts();
    let walk = match next {
        Some(cursor) => Walk::Past(cursor),
        None => Walk::Exhausted,
    };
    (rows, walk)
}

} // verus!

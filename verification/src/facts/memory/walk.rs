//! Walks over the streams of facts.
use vstd::prelude::*;
use vstd::string::*;

use super::equiv::IdentityEdges;
use super::ids::{MemStoredFact, MemoryEntityId, MemoryEventId, MemoryImageId};
use super::read::{cursor_view, is_page, MemPage, ReadCore};
use super::scan::{
    below, named_entity, referenced_entity, represents, sourced_image, FactQuery, Named, Referenced,
    SameArtifact, SameEntity, SourcedFrom,
};
use crate::facts::ids::FactId;
use crate::facts::schema::{
    normalize_name, normalized, row_ids, EntityStream, EventStream, FactPage, ImageStream,
};

verus! {

/// What a walk takes: the subject of each fact that it takes.
pub type Wanted = spec_fn(MemStoredFact) -> Option<u64>;

impl<'a> ReadCore<'a> {
    /// Whether `page` is the page from `cursor` on of a walk over the facts that are
    /// wanted: those that are active at the snapshot, each with what stands for the
    /// class of its subject.
    pub open spec fn is_walk<K: IdentityEdges>(
        self,
        page: MemPage<'a, K::Subject>,
        wanted: Wanted,
        cursor: u64,
        limit: nat,
    ) -> bool {
        &&& is_page(
            row_ids(page.items@),
            cursor_view(page.next_cursor),
            below(self.seen()),
            |x: u64| self.active(x) && wanted(self.facts()[x as int]) is Some,
            self.snapshot@,
            cursor,
            limit,
        )
        &&& forall|k: int|
            0 <= k < page.items@.len() ==> *(#[trigger] page.items@[k]).fact
                == self.facts()[page.items@[k].fact_id@ as int] && represents::<K::Subject>(
                self.identity_edges::<K>(),
                wanted(*page.items@[k].fact)->0,
                page.items@[k].representative,
            )
    }

    /// A page of what a query takes.
    fn walk_query<K: IdentityEdges, Q: FactQuery<Subject = K::Subject>>(
        &self,
        query: &Q,
        cursor: FactId,
        limit: usize,
        Ghost(wanted): Ghost<Wanted>,
    ) -> (r: MemPage<'a, K::Subject>)
        requires
            self.wf(),
            limit > 0,
            forall|fact: MemStoredFact| #[trigger] query.wants(fact) == wanted(fact),
        ensures
            self.is_walk::<K>(r, wanted, cursor@, limit as nat),
    {
        let r = self.walk_matching::<K, Q>(cursor, limit, query);
        assert((|x: u64| self.active(x) && query.wants(self.facts()[x as int]) is Some) =~= (
        |x: u64| self.active(x) && wanted(self.facts()[x as int]) is Some));
        assert forall|k: int| 0 <= k < r.items@.len() implies represents::<K::Subject>(
            self.identity_edges::<K>(),
            wanted(*(#[trigger] r.items@[k]).fact)->0,
            r.items@[k].representative,
        ) by {
            assert(query.wants(*r.items@[k].fact) == wanted(*r.items@[k].fact));
        }
        r
    }

    /// A page of a stream of facts about entities. The streams with a key read the
    /// facts; the others are empty.
    pub fn walk_entities(&self, stream: &EntityStream<'_>, cursor: FactId, limit: usize) -> (r:
        MemPage<'a, MemoryEntityId>)
        requires
            self.wf(),
            limit > 0,
        ensures
            match *stream {
                EntityStream::ByName { name, language } => self.is_walk::<SameEntity>(
                    r,
                    |fact: MemStoredFact| named_entity(fact, normalized(name@), language@),
                    cursor@,
                    limit as nat,
                ),
                EntityStream::ByExternalReference { reference } => self.is_walk::<SameEntity>(
                    r,
                    |fact: MemStoredFact| referenced_entity(fact, reference@),
                    cursor@,
                    limit as nat,
                ),
                _ => r.items@.len() == 0 && r.next_cursor is None,
            },
    {
        match stream {
            EntityStream::ByName { name, language } => {
                let needle = normalize_name(name);
                let query = Named { needle: needle.as_str(), language };
                self.walk_query::<SameEntity, Named<'_>>(
                    &query,
                    cursor,
                    limit,
                    Ghost(
                        |fact: MemStoredFact| named_entity(fact, normalized(name@), language@),
                    ),
                )
            },
            EntityStream::ByExternalReference { reference } => {
                let query = Referenced { reference };
                self.walk_query::<SameEntity, Referenced<'_>>(
                    &query,
                    cursor,
                    limit,
                    Ghost(|fact: MemStoredFact| referenced_entity(fact, reference@)),
                )
            },
            _ => FactPage { items: Vec::new(), next_cursor: None },
        }
    }

    /// A page of a stream of facts about events. The streams are empty.
    pub fn walk_events(&self, _stream: &EventStream<'_>, _cursor: FactId, _limit: usize) -> (r:
        MemPage<'a, MemoryEventId>)
        ensures
            r.items@.len() == 0,
            r.next_cursor is None,
    {
        FactPage { items: Vec::new(), next_cursor: None }
    }

    /// A page of a stream of facts about images. The stream with a key reads the
    /// facts; the others are empty.
    pub fn walk_images(&self, stream: &ImageStream<'_>, cursor: FactId, limit: usize) -> (r:
        MemPage<'a, MemoryImageId>)
        requires
            self.wf(),
            limit > 0,
        ensures
            match *stream {
                ImageStream::BySourceUrl { url } => self.is_walk::<SameArtifact>(
                    r,
                    |fact: MemStoredFact| sourced_image(fact, url@.0),
                    cursor@,
                    limit as nat,
                ),
                _ => r.items@.len() == 0 && r.next_cursor is None,
            },
    {
        match stream {
            ImageStream::BySourceUrl { url } => {
                let query = SourcedFrom { url };
                self.walk_query::<SameArtifact, SourcedFrom<'_>>(
                    &query,
                    cursor,
                    limit,
                    Ghost(|fact: MemStoredFact| sourced_image(fact, url@.0)),
                )
            },
            _ => FactPage { items: Vec::new(), next_cursor: None },
        }
    }
}

impl<'a> ReadCore<'a> {
    /// A walk hands over facts that are seen, active and wanted, each with the fact itself
    /// and the representative of its subject's class, and a page without a cursor misses
    /// none from its own cursor on.
    pub proof fn law_walk_finds_what_is_wanted<K: IdentityEdges>(
        self,
        page: MemPage<'a, K::Subject>,
        wanted: Wanted,
        cursor: u64,
        limit: nat,
        k: int,
        x: u64,
    )
        requires
            self.is_walk::<K>(page, wanted, cursor, limit),
        ensures
            0 <= k < page.items@.len() ==> {
                let id = page.items@[k].fact_id@;
                &&& cursor <= id < self.snapshot@
                &&& self.active(id)
                &&& *page.items@[k].fact == self.facts()[id as int]
                &&& wanted(self.facts()[id as int]) is Some
                &&& represents::<K::Subject>(
                    self.identity_edges::<K>(),
                    wanted(self.facts()[id as int])->0,
                    page.items@[k].representative,
                )
            },
            page.next_cursor is None && cursor <= x && self.active(x) && wanted(
                self.facts()[x as int],
            ) is Some ==> row_ids(page.items@).contains(x),
            page.items@.len() <= limit,
    {
        let ids = row_ids(page.items@);
        assert(ids.len() == page.items@.len());
        if 0 <= k < page.items@.len() {
            assert(ids[k] == page.items@[k].fact_id@);
        }
        assert(below(self.seen()).contains(x) <==> x < self.seen());
    }
}

} // verus!

//! The conflict report model: the content-addressed [`ConflictId`], the
//! structured [`ConflictLocation`], the [`Resolution`] menu, the
//! [`ConflictKind`] trait binding a kind's data to its action, and the
//! [`AnyConflictReport`] sum.
use vstd::prelude::*;

use sha2::{Digest, Sha256};

use super::minimize::lists;
use crate::algebra::ordered::{keys, lemma_ascending_unique, OrderedSet, TotalOrder};
use crate::facts::ids::FactId;
use crate::nonempty::NonEmptyVec;

verus! {

// --- ConflictId: content-derived stable identifier ---

/// The SHA-256 digest of a byte string.
pub uninterp spec fn sha256_digest(bytes: Seq<u8>) -> Seq<u8>;

/// The SHA-256 digest of `bytes`.
///
/// Calls `sha2::Sha256` through its `Digest` interface: a fresh hasher, one
/// update, `finalize`. Taken as given: the result depends on the bytes alone,
/// and has 32 bytes.
#[verifier::external_body]
fn sha256(bytes: &[u8]) -> (r: Vec<u8>)
    ensures
        r@ == sha256_digest(bytes@),
        r@.len() == 32,
{
    let mut hasher = Sha256::new();
    hasher.update(bytes);
    hasher.finalize().to_vec()
}

/// The lower-case hexadecimal digit for a number below 16.
pub open spec fn hex_digit(n: int) -> char {
    if n < 10 {
        (('0' as int) + n) as char
    } else {
        (('a' as int) + n - 10) as char
    }
}

/// Two hexadecimal digits for each byte, the higher half first.
pub open spec fn hex_text(bytes: Seq<u8>) -> Seq<char> {
    Seq::new(
        2 * bytes.len(),
        |i: int|
            hex_digit(
                if i % 2 == 0 {
                    bytes[i / 2] as int / 16
                } else {
                    bytes[i / 2] as int % 16
                },
            ),
    )
}

/// The bytes in hexadecimal.
///
/// Calls `hex::encode`. Taken as given: it writes two lower-case hexadecimal
/// digits per byte, the higher half first.
#[verifier::external_body]
fn hex_encode(bytes: &[u8]) -> (r: String)
    ensures
        r@ == hex_text(bytes@),
{
    hex::encode(bytes)
}

/// The members of `s`, ascending.
pub open spec fn ascending_list(s: Set<u64>) -> Seq<u64> {
    choose|order: Seq<u64>| lists(order, s)
}

/// The bytes that identify a conflict: the tag, then a colon and the eight
/// bytes of the number for each fact, lowest byte first.
pub open spec fn conflict_message(tag: Seq<u8>, facts: Seq<u64>) -> Seq<u8>
    decreases facts.len(),
{
    if facts.len() == 0 {
        tag
    } else {
        conflict_message(tag, facts.drop_last()) + seq![58u8]
            + vstd::bytes::spec_u64_to_le_bytes(facts.last())
    }
}

/// The bytes that identify a conflict of kind `kind_tag` among `facts`: they
/// depend on the set of facts, not on order or multiplicity.
pub fn conflict_bytes(kind_tag: &str, facts: &[FactId]) -> (r: Vec<u8>)
    ensures
        r@ == conflict_message(
            vstd::utf8::encode_utf8(kind_tag@),
            ascending_list(keys(facts@).to_set()),
        ),
{
    let mut sorted: OrderedSet<FactId> = OrderedSet::new();
    let ghost numbers = keys(facts@);
    let mut n: usize = 0;
    assert(sorted@ =~= numbers.take(0).to_set());
    while n < facts.len()
        invariant
            n <= facts@.len(),
            numbers == keys(facts@),
            sorted@ == numbers.take(n as int).to_set(),
        decreases facts.len() - n,
    {
        proof {
            crate::algebra::ordered::lemma_take_to_set(numbers, n as int);
        }
        sorted.insert(facts[n]);
        n += 1;
    }
    assert(numbers.take(n as int) =~= numbers);
    let ids = sorted.into_vec();
    let ghost order = keys(ids@);
    proof {
        lemma_ascending_list(order, numbers.to_set());
    }
    let tag = kind_tag.as_bytes();
    let mut out: Vec<u8> = Vec::new();
    let mut k: usize = 0;
    while k < tag.len()
        invariant
            k <= tag@.len(),
            out@ == tag@.take(k as int),
        decreases tag.len() - k,
    {
        out.push(tag[k]);
        assert(tag@.take(k + 1) =~= tag@.take(k as int).push(tag@[k as int]));
        k += 1;
    }
    assert(tag@.take(k as int) =~= tag@);
    let mut i: usize = 0;
    assert(order.take(0) =~= Seq::empty());
    while i < ids.len()
        invariant
            i <= ids@.len(),
            order == keys(ids@),
            out@ == conflict_message(tag@, order.take(i as int)),
        decreases ids.len() - i,
    {
        proof {
            assert(order.take(i + 1).drop_last() =~= order.take(i as int));
            assert(order.take(i + 1).last() == order[i as int]);
        }
        let ghost done = out@;
        out.push(58u8);
        let mut bytes = vstd::bytes::u64_to_le_bytes(ids[i].get());
        out.append(&mut bytes);
        assert(out@ =~= done + seq![58u8] + vstd::bytes::spec_u64_to_le_bytes(order[i as int]));
        i += 1;
    }
    assert(order.take(i as int) =~= order);
    out
}

/// A set has one ascending list.
proof fn lemma_ascending_list(order: Seq<u64>, s: Set<u64>)
    requires
        lists(order, s),
    ensures
        ascending_list(s) == order,
        lists(ascending_list(s), s),
{
    let other = ascending_list(s);
    assert forall|v: u64| order.contains(v) <==> other.contains(v) by {
        assert(order.to_set().contains(v) <==> other.to_set().contains(v));
    }
    lemma_ascending_unique::<FactId>(order, other);
}

proof fn lemma_message_len(tag: Seq<u8>, facts: Seq<u64>)
    ensures
        conflict_message(tag, facts).len() == tag.len() + 9 * facts.len(),
    decreases facts.len(),
{
    vstd::bytes::lemma_auto_spec_u64_to_from_le_bytes();
    if facts.len() > 0 {
        lemma_message_len(tag, facts.drop_last());
    }
}

/// For one kind tag, different fact lists are identified by different bytes.
pub proof fn law_message_distinguishes_facts(tag: Seq<u8>, a: Seq<u64>, b: Seq<u64>)
    requires
        conflict_message(tag, a) == conflict_message(tag, b),
    ensures
        a == b,
    decreases a.len(),
{
    vstd::bytes::lemma_auto_spec_u64_to_from_le_bytes();
    lemma_message_len(tag, a);
    lemma_message_len(tag, b);
    assert(a.len() == b.len());
    if a.len() > 0 {
        let ma = conflict_message(tag, a.drop_last());
        let mb = conflict_message(tag, b.drop_last());
        lemma_message_len(tag, a.drop_last());
        lemma_message_len(tag, b.drop_last());
        let m = conflict_message(tag, a);
        let la = vstd::bytes::spec_u64_to_le_bytes(a.last());
        let lb = vstd::bytes::spec_u64_to_le_bytes(b.last());
        let n = ma.len() as int;
        assert(m == ma + seq![58u8] + la);
        assert(m == mb + seq![58u8] + lb);
        assert(ma =~= m.subrange(0, n));
        assert(mb =~= m.subrange(0, n));
        assert(la =~= m.subrange(n + 1, n + 9));
        assert(lb =~= m.subrange(n + 1, n + 9));
        law_message_distinguishes_facts(tag, a.drop_last(), b.drop_last());
        assert(a.last() == b.last());
        assert(a =~= a.drop_last().push(a.last()));
        assert(b =~= b.drop_last().push(b.last()));
    } else {
        assert(a =~= b);
    }
}

/// For one list of facts, different kind tags are identified by different bytes.
pub proof fn law_message_distinguishes_kinds(a: Seq<u8>, b: Seq<u8>, facts: Seq<u64>)
    requires
        conflict_message(a, facts) == conflict_message(b, facts),
    ensures
        a == b,
    decreases facts.len(),
{
    if facts.len() > 0 {
        let rest = facts.drop_last();
        let one = seq![58u8] + vstd::bytes::spec_u64_to_le_bytes(facts.last());
        let ma = conflict_message(a, rest);
        let mb = conflict_message(b, rest);
        let m = conflict_message(a, facts);
        assert(m =~= ma + one);
        assert(m =~= mb + one);
        lemma_message_len(a, rest);
        lemma_message_len(b, rest);
        assert(ma.len() == mb.len());
        assert(ma =~= m.subrange(0, ma.len() as int));
        assert(mb =~= m.subrange(0, mb.len() as int));
        law_message_distinguishes_kinds(a, b, rest);
    }
}

/// A set that is not empty has a greatest member.
proof fn lemma_greatest(s: Set<u64>) -> (top: u64)
    requires
        s.finite(),
        s.len() > 0,
    ensures
        s.contains(top),
        forall|x: u64| s.contains(x) ==> x <= top,
    decreases s.len(),
{
    let one = s.choose();
    let rest = s.remove(one);
    if rest.len() == 0 {
        assert forall|x: u64| s.contains(x) implies x <= one by {
            if x != one {
                assert(rest.contains(x));
            }
        }
        one
    } else {
        let top = lemma_greatest(rest);
        assert forall|x: u64| s.contains(x) implies x <= top || x <= one by {
            if x != one {
                assert(rest.contains(x));
            }
        }
        if top < one {
            one
        } else {
            top
        }
    }
}

/// Every finite set of ids can be listed in ascending order.
proof fn lemma_can_list(s: Set<u64>) -> (order: Seq<u64>)
    requires
        s.finite(),
    ensures
        lists(order, s),
    decreases s.len(),
{
    if s.len() == 0 {
        let order = Seq::<u64>::empty();
        assert(order.to_set() =~= s);
        order
    } else {
        let top = lemma_greatest(s);
        let rest = lemma_can_list(s.remove(top));
        let order = rest.push(top);
        assert forall|a: int, b: int| 0 <= a < b < order.len() implies FactId::precedes(
            #[trigger] order[a],
            #[trigger] order[b],
        ) by {
            if b < rest.len() {
                assert(FactId::precedes(rest[a], rest[b]));
            } else {
                assert(rest.to_set().contains(rest[a]));
                assert(s.remove(top).contains(rest[a]));
            }
        }
        assert forall|x: u64| order.to_set().contains(x) <==> s.contains(x) by {
            if order.contains(x) {
                let k = choose|k: int| 0 <= k < order.len() && order[k] == x;
                if k < rest.len() {
                    assert(rest.to_set().contains(rest[k]));
                }
            }
            if s.contains(x) {
                if x == top {
                    assert(order[rest.len() as int] == x);
                } else {
                    assert(rest.to_set().contains(x));
                    let k = choose|k: int| 0 <= k < rest.len() && rest[k] == x;
                    assert(order[k] == x);
                }
            }
        }
        assert(order.to_set() =~= s);
        order
    }
}

/// What identifies a conflict of one kind is the set of contributing facts:
/// order and multiplicity change nothing, and another set has other bytes.
pub proof fn law_conflict_is_its_set_of_facts(tag: Seq<u8>, a: Seq<u64>, b: Seq<u64>)
    ensures
        conflict_message(tag, ascending_list(a.to_set())) == conflict_message(
            tag,
            ascending_list(b.to_set()),
        ) <==> (forall|id: u64| a.contains(id) <==> b.contains(id)),
{
    vstd::seq_lib::seq_to_set_is_finite(a);
    vstd::seq_lib::seq_to_set_is_finite(b);
    let listed_a = lemma_can_list(a.to_set());
    lemma_ascending_list(listed_a, a.to_set());
    let listed_b = lemma_can_list(b.to_set());
    lemma_ascending_list(listed_b, b.to_set());
    if conflict_message(tag, ascending_list(a.to_set())) == conflict_message(
        tag,
        ascending_list(b.to_set()),
    ) {
        law_message_distinguishes_facts(
            tag,
            ascending_list(a.to_set()),
            ascending_list(b.to_set()),
        );
        assert forall|id: u64| a.contains(id) <==> b.contains(id) by {
            assert(a.to_set().contains(id) <==> b.to_set().contains(id));
        }
    }
    if forall|id: u64| a.contains(id) <==> b.contains(id) {
        assert(a.to_set() =~= b.to_set());
    }
}

/// Stable identifier for one conflict: the hex SHA-256 over the kind tag and
/// the sorted contributing fact ids.
///
/// The id is stable while the same facts fight; a conflict whose contributor
/// set changes gets a new id.
#[derive(Debug, PartialEq, Eq, PartialOrd, Ord, Hash)]
pub struct ConflictId(String);

impl View for ConflictId {
    type V = Seq<char>;

    closed spec fn view(&self) -> Seq<char> {
        self.0@
    }
}

impl Clone for ConflictId {
    fn clone(&self) -> (r: Self)
        ensures
            r@ == self@,
    {
        ConflictId(self.0.clone())
    }
}

impl ConflictId {
    /// Derive a `ConflictId` from a kind tag and the contributing fact ids.
    /// Ids are sorted and deduplicated before hashing, so the digest depends
    /// on the set, not the order or multiplicity.
    pub fn from_facts(kind_tag: &str, facts: &[FactId]) -> (r: Self)
        ensures
            r@ == hex_text(
                sha256_digest(
                    conflict_message(
                        vstd::utf8::encode_utf8(kind_tag@),
                        ascending_list(keys(facts@).to_set()),
                    ),
                ),
            ),
    {
        let bytes = conflict_bytes(kind_tag, facts);
        let digest = sha256(bytes.as_slice());
        ConflictId::from_digest(digest.as_slice())
    }

    /// The id that writes down `digest`.
    pub fn from_digest(digest: &[u8]) -> (r: Self)
        ensures
            r@ == hex_text(digest@),
    {
        ConflictId(hex_encode(digest))
    }

    /// The id as text.
    pub fn as_str(&self) -> (r: &str)
        ensures
            r@ == self@,
    {
        self.0.as_str()
    }
}

// --- ConflictLocation: where in the projection a conflict surfaces ---

/// The bracket endpoint a lifecycle bookend conflict anchors to.
#[derive(Debug, Clone, Copy, PartialEq, Eq, PartialOrd, Ord, Hash, Structural)]
pub enum BookendEndpoint {
    Started,
    Completed,
}

/// The bracket endpoint an interior event's date conflict anchors to.
#[derive(Debug, Clone, Copy, PartialEq, Eq, PartialOrd, Ord, Hash, Structural)]
pub enum EventEndpoint {
    Started,
    Completed,
    Occurred,
}

/// Where inside a projected entity a conflict surfaces.
#[allow(inconsistent_fields)]
#[derive(Debug, Clone, PartialEq, Eq)]
pub enum ConflictPath<EvtId> {
    /// The entity's construction bookend at `endpoint`.
    Construction { endpoint: BookendEndpoint },
    /// The entity's demolition bookend at `endpoint`.
    Demolition { endpoint: BookendEndpoint },
    /// An interior event's date at `endpoint`.
    EventDate { event: EvtId, endpoint: EventEndpoint },
}

/// The entity a conflict surfaces in, plus the slot within its projection.
#[derive(Debug, Clone, PartialEq, Eq)]
pub struct ConflictLocation<EntId, EvtId> {
    pub entity: EntId,
    pub path: ConflictPath<EvtId>,
}

// --- Resolution: curator-actionable remedies ---

/// A curator-actionable resolution for a conflict, generic over the per-kind
/// action `A`.
#[derive(Debug, Clone, PartialEq, Eq)]
pub enum Resolution<A> {
    /// Retract one contributing fact.
    Retract { fact: FactId },
    /// A kind-specific remedy.
    Custom { action: A },
}

/// The empty action type for kinds whose only remedy is to retract.
#[derive(Debug, Clone, Copy, PartialEq, Eq)]
pub enum Uninhabited {
    Never(core::convert::Infallible),
}

// --- ConflictKind: ties a kind's data to its action type and id tag ---

/// A conflict kind: its per-kind resolution `Action` and the tag that
/// namespaces its [`ConflictId`]s.
pub trait ConflictKind {
    type Action;

    const KIND_TAG: &'static str;
}

/// A set of date claims that meet to an empty interval: one minimal fighting
/// set.
#[derive(Debug, Clone, PartialEq, Eq)]
pub struct DateConflict {
    pub contributing: NonEmptyVec<FactId>,
}

impl ConflictKind for DateConflict {
    type Action = Uninhabited;

    const KIND_TAG: &'static str = "date";
}

// --- ConflictReport: the typed envelope for one conflict ---

/// A typed report for one conflict instance: its content-derived id, the
/// kind-specific data, the location it surfaces at, and the curator's
/// resolutions.
#[derive(Debug, Clone, PartialEq)]
#[non_exhaustive]
pub struct ConflictReport<K: ConflictKind, EntId, EvtId> {
    pub id: ConflictId,
    pub data: K,
    pub location: ConflictLocation<EntId, EvtId>,
    pub resolutions: Vec<Resolution<K::Action>>,
}

impl<EntId, EvtId> ConflictReport<DateConflict, EntId, EvtId> {
    /// Build a date-conflict report from its location and one minimal fighting
    /// set. Derives the [`ConflictId`] from the contributing facts and offers
    /// one [`Resolution::Retract`] per contributor.
    pub fn date_conflict(
        location: ConflictLocation<EntId, EvtId>,
        contributing: NonEmptyVec<FactId>,
    ) -> (r: Self)
        ensures
            r.location == location,
            r.data.contributing == contributing,
            r.id@ == hex_text(
                sha256_digest(
                    conflict_message(
                        vstd::utf8::encode_utf8("date"@),
                        ascending_list(keys(contributing@).to_set()),
                    ),
                ),
            ),
            r.resolutions@ == contributing@.map_values(
                |fact: FactId| Resolution::<Uninhabited>::Retract { fact },
            ),
    {
        let facts = contributing.to_vec();
        let id = ConflictId::from_facts(DateConflict::KIND_TAG, facts.as_slice());
        let mut resolutions: Vec<Resolution<Uninhabited>> = Vec::with_capacity(facts.len());
        let mut i: usize = 0;
        while i < facts.len()
            invariant
                i <= facts@.len(),
                resolutions@ == facts@.take(i as int).map_values(
                    |fact: FactId| Resolution::<Uninhabited>::Retract { fact },
                ),
            decreases facts.len() - i,
        {
            resolutions.push(Resolution::Retract { fact: facts[i] });
            assert(resolutions@ =~= facts@.take(i + 1).map_values(
                |fact: FactId| Resolution::<Uninhabited>::Retract { fact },
            ));
            i += 1;
        }
        assert(facts@.take(i as int) =~= facts@);
        ConflictReport { id, data: DateConflict { contributing }, location, resolutions }
    }
}

// --- AnyConflictReport: the heterogeneous sum ---

/// The closed sum over every conflict kind, one variant apiece.
#[derive(Debug, Clone, PartialEq)]
pub enum AnyConflictReport<EntId, EvtId> {
    Date(ConflictReport<DateConflict, EntId, EvtId>),
}

/// What the message of a conflict is made of: the tag of its kind, and for each fact a
/// colon and the eight bytes of its id, the lowest first.
pub proof fn law_message_spells_out_the_facts(tag: Seq<u8>, facts: Seq<u64>, i: int)
    requires
        0 <= i < facts.len(),
    ensures
        conflict_message(tag, facts).len() == tag.len() + 9 * facts.len(),
        conflict_message(tag, facts).take(tag.len() as int) == tag,
        conflict_message(tag, facts)[tag.len() + 9 * i] == 58u8,
        conflict_message(tag, facts).subrange(tag.len() + 9 * i + 1, tag.len() + 9 * i + 9)
            == vstd::bytes::spec_u64_to_le_bytes(facts[i]),
    decreases facts.len(),
{
    lemma_message_len(tag, facts);
    let front = facts.drop_last();
    lemma_message_len(tag, front);
    let all = conflict_message(tag, facts);
    let rest = conflict_message(tag, front);
    let last = vstd::bytes::spec_u64_to_le_bytes(facts.last());
    vstd::bytes::lemma_auto_spec_u64_to_from_le_bytes();
    assert(all == rest + seq![58u8] + last);
    if i < front.len() {
        law_message_spells_out_the_facts(tag, front, i);
        assert(all.take(tag.len() as int) =~= rest.take(tag.len() as int));
        assert(all.subrange(tag.len() + 9 * i + 1, tag.len() + 9 * i + 9) =~= rest.subrange(
            tag.len() + 9 * i + 1,
            tag.len() + 9 * i + 9,
        ));
    } else {
        if front.len() > 0 {
            law_message_spells_out_the_facts(tag, front, 0);
        } else {
            assert(rest == tag);
        }
        assert(rest.take(tag.len() as int) =~= tag);
        assert(all.take(tag.len() as int) =~= rest.take(tag.len() as int));
        assert(all.subrange(tag.len() + 9 * i + 1, tag.len() + 9 * i + 9) =~= last);
    }
}

/// The listed facts of a conflict are its facts, each once, in ascending order.
pub proof fn law_listed_facts_ascend(s: Set<u64>)
    requires
        s.finite(),
    ensures
        forall|x: u64| #[trigger] ascending_list(s).contains(x) <==> s.contains(x),
        forall|i: int, j: int|
            0 <= i < j < ascending_list(s).len() ==> #[trigger] ascending_list(s)[i]
                < #[trigger] ascending_list(s)[j],
{
    let order = lemma_can_list(s);
    lemma_ascending_list(order, s);
    let list = ascending_list(s);
    assert forall|x: u64| #[trigger] list.contains(x) <==> s.contains(x) by {
        assert(list.to_set().contains(x) <==> list.contains(x));
    }
    assert forall|i: int, j: int| 0 <= i < j < list.len() implies #[trigger] list[i]
        < #[trigger] list[j] by {
        assert(FactId::precedes(list[i], list[j]));
    }
}

} // verus!

//! Identity cluster: same-entity, same-artifact and same-event judgments, and
//! the pairs of distinct ids they hold.
use vstd::prelude::*;

use crate::algebra::ordered::{Standing, TotalOrder};

verus! {

/// Whether `x` can be mapped.
pub open spec fn maps<X, Y, Fault, F: Fn(&X) -> Result<Y, Fault>>(f: F, x: X) -> bool {
    exists|y: Y| #[trigger] call_ensures(f, (&x,), Ok::<Y, Fault>(y))
}

/// Every id maps to itself alone.
pub open spec fn itself<X>() -> spec_fn(X, X) -> bool {
    |x: X, y: X| x == y
}

/// Whether two ways to map ids agree on these.
pub open spec fn agree<X, Y>(
    ids: Seq<X>,
    f: spec_fn(X, Y) -> bool,
    g: spec_fn(X, Y) -> bool,
) -> bool {
    forall|k: int, y: Y| 0 <= k < ids.len() ==> (#[trigger] f(ids[k], y) <==> g(ids[k], y))
}

/// Whether `g` leads from each image under `f` back to what it is the image of, and to
/// nothing else.
pub open spec fn undoes<X, Y>(f: spec_fn(X, Y) -> bool, g: spec_fn(Y, X) -> bool) -> bool {
    forall|x: X, y: Y, z: X| #[trigger] f(x, y) && #[trigger] g(y, z) ==> x == z
}

/// Two ids that differ.
#[derive(Debug, PartialEq, Eq, PartialOrd, Ord, Hash)]
pub struct DistinctPair<X: TotalOrder> {
    a: X,
    b: X,
}

impl<X: TotalOrder> Clone for DistinctPair<X> {
    fn clone(&self) -> (r: Self)
        ensures
            r.first()@ == self.first()@,
            r.second()@ == self.second()@,
    {
        let a = self.a.clone();
        let b = self.b.clone();
        proof {
            use_type_invariant(self);
            X::clone_keeps_view(self.a, a);
            X::clone_keeps_view(self.b, b);
        }
        DistinctPair { a, b }
    }
}

/// The error of pairing an id with itself.
#[derive(Debug, Clone, Copy, PartialEq, Eq)]
pub struct SelfPairError<X> {
    /// The id.
    pub id: X,
}

impl<X: TotalOrder> DistinctPair<X> {
    /// The first id.
    pub closed spec fn first(self) -> X {
        self.a
    }

    /// The second id.
    pub closed spec fn second(self) -> X {
        self.b
    }

    /// The ids differ.
    #[verifier::type_invariant]
    spec fn distinct(self) -> bool {
        self.a@ != self.b@
    }

    /// Pair two ids; an id and itself are no pair.
    pub fn new(a: X, b: X) -> (r: Result<Self, SelfPairError<X>>)
        ensures
            a@ == b@ ==> r == Err::<DistinctPair<X>, SelfPairError<X>>(SelfPairError { id: a }),
            a@ != b@ ==> r is Ok && r->Ok_0.first() == a && r->Ok_0.second() == b,
    {
        match a.compare(&b) {
            Standing::Same => Err(SelfPairError { id: a }),
            _ => Ok(DistinctPair { a, b }),
        }
    }

    /// The first id.
    pub fn a(&self) -> (r: &X)
        ensures
            *r == self.first(),
            r@ != self.second()@,
    {
        proof {
            use_type_invariant(self);
        }
        &self.a
    }

    /// The second id.
    pub fn b(&self) -> (r: &X)
        ensures
            *r == self.second(),
            r@ != self.first()@,
    {
        proof {
            use_type_invariant(self);
        }
        &self.b
    }

    /// The two ids in order.
    pub open spec fn ids(self) -> Seq<X> {
        seq![self.first(), self.second()]
    }

    /// A pair is its two ids in order.
    pub proof fn lemma_same_ids(self, other: DistinctPair<X>)
        requires
            self.first() == other.first(),
            self.second() == other.second(),
        ensures
            self == other,
    {
    }

    /// Hand over the two ids in order.
    pub fn for_each_id(&self, sink: &mut Vec<X>) where X: Copy
        ensures
            final(sink)@ == old(sink)@ + self.ids(),
    {
        sink.push(self.a);
        sink.push(self.b);
        assert(sink@ =~= old(sink)@ + self.ids());
    }

    /// Whether `out` holds the images of the two ids, which differ.
    pub open spec fn maps_by<Y: TotalOrder>(
        self,
        out: DistinctPair<Y>,
        image: spec_fn(X, Y) -> bool,
    ) -> bool {
        &&& image(self.first(), out.first())
        &&& image(self.second(), out.second())
        &&& out.first()@ != out.second()@
    }

    /// Whether the two ids can be mapped to two that differ.
    pub open spec fn can_map<Y: TotalOrder, Fault, F: Fn(&X) -> Result<Y, Fault>>(self, f: F) -> bool {
        exists|y: Y, z: Y|
            {
                &&& #[trigger] call_ensures(f, (&self.first(),), Ok::<Y, Fault>(y))
                &&& #[trigger] call_ensures(f, (&self.second(),), Ok::<Y, Fault>(z))
                &&& y@ != z@
            }
    }

    /// Whether mapping the two ids fails with `error`: the first of them fails, the
    /// first can be mapped and the second fails, or both have the same image.
    pub open spec fn fails_by<
        Y: TotalOrder,
        Fault,
        F: Fn(&X) -> Result<Y, Fault>,
        G: FnOnce(Y) -> Fault,
    >(
        self,
        f: F,
        on_self_loop: G,
        error: Fault,
    ) -> bool {
        ||| call_ensures(f, (&self.first(),), Err(error))
        ||| maps(f, self.first()) && call_ensures(f, (&self.second(),), Err(error))
        ||| exists|y: Y, z: Y|
            {
                &&& #[trigger] call_ensures(f, (&self.first(),), Ok(y))
                &&& #[trigger] call_ensures(f, (&self.second(),), Ok(z))
                &&& y@ == z@
                &&& call_ensures(on_self_loop, (y,), error)
            }
    }

    /// Map the two ids; where both have the same image, the error is
    /// `on_self_loop` of it.
    pub fn try_map_ids<Y: TotalOrder, Fault, F: Fn(&X) -> Result<Y, Fault>, G: FnOnce(Y) -> Fault>(
        &self,
        f: &F,
        on_self_loop: G,
    ) -> (r: Result<DistinctPair<Y>, Fault>)
        requires
            forall|x: X| call_requires(*f, (&x,)),
            forall|y: Y| call_requires(on_self_loop, (y,)),
        ensures
            r is Ok ==> self.maps_by(r->Ok_0, |x: X, y: Y| call_ensures(*f, (&x,), Ok(y))),
            r is Err ==> self.fails_by(*f, on_self_loop, r->Err_0),
    {
        let a = match f(&self.a) {
            Ok(a) => a,
            Err(error) => return Err(error),
        };
        let b = match f(&self.b) {
            Ok(b) => b,
            Err(error) => return Err(error),
        };
        match DistinctPair::new(a, b) {
            Ok(pair) => Ok(pair),
            Err(same) => Err(on_self_loop(same.id)),
        }
    }
}

// --- Judgments ---

/// A judgment that two ids stand for one thing.
#[derive(Debug, Clone, PartialEq, Eq)]
pub enum Fact<EntId: TotalOrder, EvtId: TotalOrder, ImgId: TotalOrder> {
    /// Two ids stand for one entity.
    SameEntity {
        /// The two ids.
        pair: DistinctPair<EntId>,
    },
    /// Two ids stand for one image.
    SameArtifact {
        /// The two ids.
        pair: DistinctPair<ImgId>,
    },
    /// Two ids stand for one event.
    SameEvent {
        /// The two ids.
        pair: DistinctPair<EvtId>,
    },
}

impl<EntId: TotalOrder, EvtId: TotalOrder, ImgId: TotalOrder> Fact<EntId, EvtId, ImgId> {
    /// The entities mentioned, in order.
    pub open spec fn entities(self) -> Seq<EntId> {
        match self {
            Fact::SameEntity { pair } => pair.ids(),
            Fact::SameArtifact { .. } => Seq::empty(),
            Fact::SameEvent { .. } => Seq::empty(),
        }
    }

    /// The events mentioned, in order.
    pub open spec fn events(self) -> Seq<EvtId> {
        match self {
            Fact::SameEntity { .. } => Seq::empty(),
            Fact::SameArtifact { .. } => Seq::empty(),
            Fact::SameEvent { pair } => pair.ids(),
        }
    }

    /// The images mentioned, in order.
    pub open spec fn images(self) -> Seq<ImgId> {
        match self {
            Fact::SameEntity { .. } => Seq::empty(),
            Fact::SameArtifact { pair } => pair.ids(),
            Fact::SameEvent { .. } => Seq::empty(),
        }
    }

    /// Hand over every id mentioned, in order.
    pub fn for_each_id(
        &self,
        entities: &mut Vec<EntId>,
        events: &mut Vec<EvtId>,
        images: &mut Vec<ImgId>,
    ) where EntId: Copy, EvtId: Copy, ImgId: Copy
        ensures
            final(entities)@ == old(entities)@ + self.entities(),
            final(events)@ == old(events)@ + self.events(),
            final(images)@ == old(images)@ + self.images(),
    {
        match self {
            Fact::SameEntity { pair } => pair.for_each_id(entities),
            Fact::SameArtifact { pair } => pair.for_each_id(images),
            Fact::SameEvent { pair } => pair.for_each_id(events),
        }
        assert(entities@ =~= old(entities)@ + self.entities());
        assert(events@ =~= old(events)@ + self.events());
        assert(images@ =~= old(images)@ + self.images());
    }

    /// Whether `out` says the same of the images of the ids.
    pub open spec fn maps_by<
        E2: TotalOrder,
        V2: TotalOrder,
        I2: TotalOrder,
    >(
        self,
        out: Fact<E2, V2, I2>,
        e: spec_fn(EntId, E2) -> bool,
        v: spec_fn(EvtId, V2) -> bool,
        i: spec_fn(ImgId, I2) -> bool,
    ) -> bool {
        match (self, out) {
            (Fact::SameEntity { pair }, Fact::SameEntity { pair: pair2 }) => {
                &&& pair.maps_by(pair2, e)
            },
            (Fact::SameArtifact { pair }, Fact::SameArtifact { pair: pair2 }) => {
                &&& pair.maps_by(pair2, i)
            },
            (Fact::SameEvent { pair }, Fact::SameEvent { pair: pair2 }) => {
                &&& pair.maps_by(pair2, v)
            },
            _ => false,
        }
    }

    /// Whether mapping the ids fails with `error`.
    pub open spec fn fails_by<
        E2: TotalOrder,
        V2: TotalOrder,
        I2: TotalOrder,
        Fault,
        FE: Fn(&EntId) -> Result<E2, Fault>,
        FV: Fn(&EvtId) -> Result<V2, Fault>,
        FI: Fn(&ImgId) -> Result<I2, Fault>,
        LE: FnOnce(E2) -> Fault,
        LV: FnOnce(V2) -> Fault,
        LI: FnOnce(I2) -> Fault,
    >(
        self,
        fe: FE,
        fv: FV,
        fi: FI,
        on_entity_loop: LE,
        on_event_loop: LV,
        on_image_loop: LI,
        error: Fault,
    ) -> bool {
        match self {
            Fact::SameEntity { pair } => pair.fails_by(fe, on_entity_loop, error),
            Fact::SameArtifact { pair } => pair.fails_by(fi, on_image_loop, error),
            Fact::SameEvent { pair } => pair.fails_by(fv, on_event_loop, error),
        }
    }

    /// Replace every id by its image; the first failure is the error.
    pub fn try_map_ids<
        E2: TotalOrder,
        V2: TotalOrder,
        I2: TotalOrder,
        Fault,
        FE: Fn(&EntId) -> Result<E2, Fault>,
        FV: Fn(&EvtId) -> Result<V2, Fault>,
        FI: Fn(&ImgId) -> Result<I2, Fault>,
        LE: FnOnce(E2) -> Fault,
        LV: FnOnce(V2) -> Fault,
        LI: FnOnce(I2) -> Fault,
    >(
        self,
        fe: &FE,
        fv: &FV,
        fi: &FI,
        on_entity_loop: LE,
        on_event_loop: LV,
        on_image_loop: LI,
    ) -> (r: Result<Fact<E2, V2, I2>, Fault>)
        requires
            forall|x: EntId| call_requires(*fe, (&x,)),
            forall|x: EvtId| call_requires(*fv, (&x,)),
            forall|x: ImgId| call_requires(*fi, (&x,)),
            forall|y: E2| call_requires(on_entity_loop, (y,)),
            forall|y: V2| call_requires(on_event_loop, (y,)),
            forall|y: I2| call_requires(on_image_loop, (y,)),
        ensures
            r is Ok ==> self.maps_by(
                r->Ok_0,
                |x: EntId, y: E2| call_ensures(*fe, (&x,), Ok::<E2, Fault>(y)),
                |x: EvtId, y: V2| call_ensures(*fv, (&x,), Ok::<V2, Fault>(y)),
                |x: ImgId, y: I2| call_ensures(*fi, (&x,), Ok::<I2, Fault>(y)),
            ),
            r is Err ==> self.fails_by(
                *fe,
                *fv,
                *fi,
                on_entity_loop,
                on_event_loop,
                on_image_loop,
                r->Err_0,
            ),
    {
        match self {
            Fact::SameEntity { pair } => {
                let pair = match pair.try_map_ids(fe, on_entity_loop) {
                    Ok(image) => image,
                    Err(error) => return Err(error),
                };
                Ok(Fact::SameEntity { pair })
            },
            Fact::SameArtifact { pair } => {
                let pair = match pair.try_map_ids(fi, on_image_loop) {
                    Ok(image) => image,
                    Err(error) => return Err(error),
                };
                Ok(Fact::SameArtifact { pair })
            },
            Fact::SameEvent { pair } => {
                let pair = match pair.try_map_ids(fv, on_event_loop) {
                    Ok(image) => image,
                    Err(error) => return Err(error),
                };
                Ok(Fact::SameEvent { pair })
            },
        }
    }
}

impl<EntId: TotalOrder, EvtId: TotalOrder, ImgId: TotalOrder> Fact<EntId, EvtId, ImgId> {
    /// Mapping the ids keeps the kind of a fact and all it says: each kind comes to the
    /// same kind, every id to its image in the same place, and the rest stays.
    pub proof fn law_mapping_keeps_what_is_said<E2: TotalOrder, V2: TotalOrder, I2: TotalOrder>(
        self,
        out: Fact<E2, V2, I2>,
        e: spec_fn(EntId, E2) -> bool,
        v: spec_fn(EvtId, V2) -> bool,
        i: spec_fn(ImgId, I2) -> bool,
    )
        requires
            self.maps_by(out, e, v, i),
        ensures
            (self matches Fact::SameEntity { pair } ==> {
                &&& out matches Fact::SameEntity { pair: pair2 }
                &&& e(pair.first(), pair2.first())
                &&& e(pair.second(), pair2.second())
            }),
            (self matches Fact::SameArtifact { pair } ==> {
                &&& out matches Fact::SameArtifact { pair: pair2 }
                &&& i(pair.first(), pair2.first())
                &&& i(pair.second(), pair2.second())
            }),
            (self matches Fact::SameEvent { pair } ==> {
                &&& out matches Fact::SameEvent { pair: pair2 }
                &&& v(pair.first(), pair2.first())
                &&& v(pair.second(), pair2.second())
            }),
            out is SameEntity ==> self is SameEntity,
            out is SameArtifact ==> self is SameArtifact,
            out is SameEvent ==> self is SameEvent,
    {
    }

    /// Mapping every id to itself changes nothing.
    pub proof fn law_mapping_to_itself(self, out: Fact<EntId, EvtId, ImgId>)
        requires
            self.maps_by(out, itself::<EntId>(), itself::<EvtId>(), itself::<ImgId>()),
        ensures
            out == self,
    {
        match (self, out) {
            (
                Fact::SameEntity { pair },
                Fact::SameEntity { pair: pair2 },
            ) => {
                pair.lemma_same_ids(pair2);
            },
            (
                Fact::SameArtifact { pair },
                Fact::SameArtifact { pair: pair2 },
            ) => {
                pair.lemma_same_ids(pair2);
            },
            (
                Fact::SameEvent { pair },
                Fact::SameEvent { pair: pair2 },
            ) => {
                pair.lemma_same_ids(pair2);
            },
            _ => {},
        }
    }

    /// Mapping the ids there and back gives the fact again, where the way back undoes the
    /// way there.
    pub proof fn law_mapping_there_and_back<E2: TotalOrder, V2: TotalOrder, I2: TotalOrder>(
        self,
        out: Fact<E2, V2, I2>,
        back: Fact<EntId, EvtId, ImgId>,
        e: spec_fn(EntId, E2) -> bool,
        e_back: spec_fn(E2, EntId) -> bool,
        v: spec_fn(EvtId, V2) -> bool,
        v_back: spec_fn(V2, EvtId) -> bool,
        i: spec_fn(ImgId, I2) -> bool,
        i_back: spec_fn(I2, ImgId) -> bool,
    )
        requires
            self.maps_by(out, e, v, i),
            out.maps_by(back, e_back, v_back, i_back),
            undoes(e, e_back),
            undoes(v, v_back),
            undoes(i, i_back),
        ensures
            back == self,
    {
        match (self, out, back) {
            (
                Fact::SameEntity { pair },
                Fact::SameEntity { pair: pair2 },
                Fact::SameEntity { pair: pair3 },
            ) => {
                pair.lemma_same_ids(pair3);
            },
            (
                Fact::SameArtifact { pair },
                Fact::SameArtifact { pair: pair2 },
                Fact::SameArtifact { pair: pair3 },
            ) => {
                pair.lemma_same_ids(pair3);
            },
            (
                Fact::SameEvent { pair },
                Fact::SameEvent { pair: pair2 },
                Fact::SameEvent { pair: pair3 },
            ) => {
                pair.lemma_same_ids(pair3);
            },
            _ => {},
        }
    }

    /// Mapping the ids fails only with the error of an id that is mentioned, or with
    /// that of two ids which come to the same.
    pub proof fn law_failure_is_of_a_mentioned_id<
        E2: TotalOrder,
        V2: TotalOrder,
        I2: TotalOrder,
        Fault,
        FE: Fn(&EntId) -> Result<E2, Fault>,
        FV: Fn(&EvtId) -> Result<V2, Fault>,
        FI: Fn(&ImgId) -> Result<I2, Fault>,
        LE: FnOnce(E2) -> Fault,
        LV: FnOnce(V2) -> Fault,
        LI: FnOnce(I2) -> Fault,
    >(
        self,
        fe: FE,
        fv: FV,
        fi: FI,
        on_entity_loop: LE,
        on_event_loop: LV,
        on_image_loop: LI,
        error: Fault,
    )
        requires
            self.fails_by(fe, fv, fi, on_entity_loop, on_event_loop, on_image_loop, error),
        ensures
            (exists|k: int|
                0 <= k < self.entities().len() && #[trigger] call_ensures(
                    fe,
                    (&self.entities()[k],),
                    Err::<E2, Fault>(error),
                ))
                || (exists|k: int|
                0 <= k < self.events().len() && #[trigger] call_ensures(
                    fv,
                    (&self.events()[k],),
                    Err::<V2, Fault>(error),
                ))
                || (exists|k: int|
                0 <= k < self.images().len() && #[trigger] call_ensures(
                    fi,
                    (&self.images()[k],),
                    Err::<I2, Fault>(error),
                ))
                || (exists|y: E2| #[trigger] call_ensures(on_entity_loop, (y,), error))
                || (exists|y: V2| #[trigger] call_ensures(on_event_loop, (y,), error))
                || (exists|y: I2| #[trigger] call_ensures(on_image_loop, (y,), error)),
    {
        match self {
            Fact::SameEntity { pair } => {
                assert(self.entities()[0] == pair.first());
                assert(call_ensures(fe, (&pair.first(),), Err::<E2, Fault>(error)) ==> call_ensures(
                    fe,
                    (&self.entities()[0],),
                    Err::<E2, Fault>(error),
                ));
                assert(self.entities()[1] == pair.second());
                assert(call_ensures(fe, (&pair.second(),), Err::<E2, Fault>(error)) ==> call_ensures(
                    fe,
                    (&self.entities()[1],),
                    Err::<E2, Fault>(error),
                ));
            },
            Fact::SameArtifact { pair } => {
                assert(self.images()[0] == pair.first());
                assert(call_ensures(fi, (&pair.first(),), Err::<I2, Fault>(error)) ==> call_ensures(
                    fi,
                    (&self.images()[0],),
                    Err::<I2, Fault>(error),
                ));
                assert(self.images()[1] == pair.second());
                assert(call_ensures(fi, (&pair.second(),), Err::<I2, Fault>(error)) ==> call_ensures(
                    fi,
                    (&self.images()[1],),
                    Err::<I2, Fault>(error),
                ));
            },
            Fact::SameEvent { pair } => {
                assert(self.events()[0] == pair.first());
                assert(call_ensures(fv, (&pair.first(),), Err::<V2, Fault>(error)) ==> call_ensures(
                    fv,
                    (&self.events()[0],),
                    Err::<V2, Fault>(error),
                ));
                assert(self.events()[1] == pair.second());
                assert(call_ensures(fv, (&pair.second(),), Err::<V2, Fault>(error)) ==> call_ensures(
                    fv,
                    (&self.events()[1],),
                    Err::<V2, Fault>(error),
                ));
            },
        }
    }

    /// Which ids a fact mentions, by its kind and in their order.
    pub proof fn law_mentions_by_kind(self)
        ensures
            (self matches Fact::SameEntity { pair } ==> {
                &&& self.entities() == seq![pair.first(), pair.second()]
                &&& self.events().len() == 0
                &&& self.images().len() == 0
            }),
            (self matches Fact::SameArtifact { pair } ==> {
                &&& self.entities().len() == 0
                &&& self.events().len() == 0
                &&& self.images() == seq![pair.first(), pair.second()]
            }),
            (self matches Fact::SameEvent { pair } ==> {
                &&& self.entities().len() == 0
                &&& self.events() == seq![pair.first(), pair.second()]
                &&& self.images().len() == 0
            }),
    {
    }

    /// Only the ids that a fact mentions matter to it, and it mentions every id that
    /// does: two ways to map them that agree on those give the same.
    pub proof fn law_only_mentioned_ids_matter<E2: TotalOrder, V2: TotalOrder, I2: TotalOrder>(
        self,
        out: Fact<E2, V2, I2>,
        e: spec_fn(EntId, E2) -> bool,
        other_e: spec_fn(EntId, E2) -> bool,
        v: spec_fn(EvtId, V2) -> bool,
        other_v: spec_fn(EvtId, V2) -> bool,
        i: spec_fn(ImgId, I2) -> bool,
        other_i: spec_fn(ImgId, I2) -> bool,
    )
        requires
            agree(self.entities(), e, other_e),
            agree(self.events(), v, other_v),
            agree(self.images(), i, other_i),
        ensures
            self.maps_by(out, e, v, i) <==> self.maps_by(out, other_e, other_v, other_i),
    {
        match self {
            Fact::SameEntity { pair } => {
                assert(self.entities()[0] == pair.first());
                assert(self.entities()[1] == pair.second());
            },
            Fact::SameArtifact { pair } => {
                assert(self.images()[0] == pair.first());
                assert(self.images()[1] == pair.second());
            },
            Fact::SameEvent { pair } => {
                assert(self.events()[0] == pair.first());
                assert(self.events()[1] == pair.second());
            },
        }
    }
}

} // verus!

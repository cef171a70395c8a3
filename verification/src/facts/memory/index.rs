//! Indexes from a key to the ids of facts.
use vstd::prelude::*;

use crate::algebra::ordered::{OrderedSet, Standing, TotalOrder};
use crate::facts::ids::FactId;

verus! {

/// One key with its ids.
#[derive(Debug)]
struct Entry<K: TotalOrder> {
    key: K,
    ids: OrderedSet<FactId>,
}

/// For each key, a set of fact ids.
#[derive(Debug)]
pub struct Index<K: TotalOrder> {
    entries: Vec<Entry<K>>,
}

/// No key stands twice.
spec fn distinct_keys<K: TotalOrder>(entries: Seq<Entry<K>>) -> bool {
    forall|i: int, j: int|
        0 <= i < j < entries.len() ==> (#[trigger] entries[i]).key@ != (
        #[trigger] entries[j]).key@
}

/// Whether the entry at `i` has this key.
spec fn keyed<K: TotalOrder>(entries: Seq<Entry<K>>, i: int, key: K::V) -> bool {
    0 <= i < entries.len() && entries[i].key@ == key
}

/// The ids under a key.
spec fn lookup<K: TotalOrder>(entries: Seq<Entry<K>>, key: K::V) -> Set<u64> {
    if exists|i: int| keyed(entries, i, key) {
        entries[choose|i: int| keyed(entries, i, key)].ids@
    } else {
        Set::empty()
    }
}

/// The ids under the key of an entry are its own.
proof fn lemma_lookup<K: TotalOrder>(entries: Seq<Entry<K>>, i: int)
    requires
        distinct_keys(entries),
        0 <= i < entries.len(),
    ensures
        lookup(entries, entries[i].key@) == entries[i].ids@,
{
    let key = entries[i].key@;
    assert(keyed(entries, i, key));
    let j = choose|j: int| keyed(entries, j, key);
    assert(keyed(entries, j, key));
    if i < j {
        assert(entries[i].key@ != entries[j].key@);
    } else if j < i {
        assert(entries[j].key@ != entries[i].key@);
    }
}

/// Entries with the same keys and ids, in whatever order, hold the same.
proof fn lemma_same_lookup<K: TotalOrder>(a: Seq<Entry<K>>, b: Seq<Entry<K>>, key: K::V)
    requires
        distinct_keys(a),
        distinct_keys(b),
        forall|i: int| keyed(a, i, key) ==> exists|j: int|
            keyed(b, j, key) && #[trigger] b[j].ids@ == (#[trigger] a[i]).ids@,
        forall|j: int| #[trigger] keyed(b, j, key) ==> exists|i: int| keyed(a, i, key),
    ensures
        lookup(a, key) == lookup(b, key),
{
    if exists|i: int| keyed(a, i, key) {
        let i = choose|i: int| keyed(a, i, key);
        assert(a[i].key@ == key);
        let j = choose|j: int| keyed(b, j, key) && #[trigger] b[j].ids@ == a[i].ids@;
        lemma_lookup(a, i);
        lemma_lookup(b, j);
    }
}

/// Where the entry with this key is.
fn find<K: TotalOrder>(entries: &Vec<Entry<K>>, key: &K) -> (r: Option<usize>)
    ensures
        r is Some ==> keyed(entries@, r->0 as int, key@),
        r is None ==> forall|i: int| !#[trigger] keyed(entries@, i, key@),
{
    let mut i: usize = 0;
    while i < entries.len()
        invariant
            i <= entries@.len(),
            forall|k: int| k < i ==> !#[trigger] keyed(entries@, k, key@),
        decreases entries.len() - i,
    {
        match entries[i].key.compare(key) {
            Standing::Same => {
                return Some(i);
            },
            _ => {},
        }
        i += 1;
    }
    None
}

impl<K: TotalOrder> Index<K> {
    /// The ids under a key; none where the key is not there.
    pub closed spec fn at(self, key: K::V) -> Set<u64> {
        lookup(self.entries@, key)
    }

    /// No key stands twice.
    #[verifier::type_invariant]
    spec fn distinct(self) -> bool {
        distinct_keys(self.entries@)
    }

    /// The index with no ids at all.
    pub fn new() -> (r: Self)
        ensures
            forall|key: K::V| #[trigger] r.at(key) == Set::<u64>::empty(),
    {
        let r = Index { entries: Vec::new() };
        assert forall|key: K::V| #[trigger] r.at(key) == Set::<u64>::empty() by {
            assert forall|i: int| !keyed(r.entries@, i, key) by {}
        }
        r
    }

    /// The ids under a key; `None` where there are none.
    pub fn get(&self, key: &K) -> (r: Option<&OrderedSet<FactId>>)
        ensures
            r is Some ==> r->0@ == self.at(key@),
            r is None ==> self.at(key@) == Set::<u64>::empty(),
    {
        proof {
            use_type_invariant(self);
        }
        match find(&self.entries, key) {
            Some(i) => {
                proof {
                    lemma_lookup(self.entries@, i as int);
                }
                Some(&self.entries[i].ids)
            },
            None => None,
        }
    }

    /// Put an id under a key.
    pub fn add(&mut self, key: K, id: FactId)
        ensures
            forall|k: K::V| #[trigger]
                final(self).at(k) == (if k == key@ {
                    old(self).at(k).insert(id@)
                } else {
                    old(self).at(k)
                }),
    {
        proof {
            use_type_invariant(&*self);
        }
        let ghost before = self.entries@;
        let ghost name = key@;
        let mut entries: Vec<Entry<K>> = Vec::new();
        core::mem::swap(&mut self.entries, &mut entries);
        match find(&entries, &key) {
            Some(i) => {
                let mut entry = entries.remove(i);
                let ghost rest = entries@;
                entry.ids.insert(id);
                entries.push(entry);
                proof {
                    let after = entries@;
                    assert(forall|k: int| 0 <= k < i ==> after[k] == before[k]);
                    assert(forall|k: int| i <= k < rest.len() ==> after[k] == before[k + 1]);
                    assert(after.last().key@ == name);
                    assert(distinct_keys(after)) by {
                        assert forall|a: int, b: int| 0 <= a < b < after.len() implies (
                        #[trigger] after[a]).key@ != (#[trigger] after[b]).key@ by {
                            let a2 = if a < i { a } else { a + 1 };
                            let b2 = if b == rest.len() { i as int } else if b < i { b } else {
                                b + 1
                            };
                            assert(before[a2].key@ != before[b2].key@);
                        }
                    }
                    assert forall|k: K::V| #[trigger] lookup(after, k) == (if k == name {
                        lookup(before, k).insert(id@)
                    } else {
                        lookup(before, k)
                    }) by {
                        if k == name {
                            lemma_lookup(before, i as int);
                            lemma_lookup(after, rest.len() as int);
                        } else {
                            assert forall|a: int| keyed(before, a, k) implies exists|b: int|
                                keyed(after, b, k) && #[trigger] after[b].ids@ == (
                                #[trigger] before[a]).ids@ by {
                                let b = if a < i { a } else { a - 1 };
                                assert(keyed(after, b, k) && after[b].ids@ == before[a].ids@);
                            }
                            assert forall|b: int| #[trigger] keyed(after, b, k) implies exists|
                                a: int,
                            | keyed(before, a, k) by {
                                let a = if b < i { b } else { b + 1 };
                                assert(keyed(before, a, k));
                            }
                            lemma_same_lookup(before, after, k);
                        }
                    }
                }
                self.entries = entries;
            },
            None => {
                let ids = OrderedSet::singleton(id);
                entries.push(Entry { key, ids });
                proof {
                    let after = entries@;
                    let n = before.len() as int;
                    assert(forall|k: int| 0 <= k < n ==> after[k] == before[k]);
                    assert(distinct_keys(after)) by {
                        assert forall|a: int, b: int| 0 <= a < b < after.len() implies (
                        #[trigger] after[a]).key@ != (#[trigger] after[b]).key@ by {
                            if b == n {
                                assert(!keyed(before, a, name));
                            } else {
                                assert(before[a].key@ != before[b].key@);
                            }
                        }
                    }
                    assert forall|k: K::V| #[trigger] lookup(after, k) == (if k == name {
                        lookup(before, k).insert(id@)
                    } else {
                        lookup(before, k)
                    }) by {
                        if k == name {
                            lemma_lookup(after, n);
                            assert(after[n].ids@ =~= Set::<u64>::empty().insert(id@));
                        } else {
                            assert forall|a: int| keyed(before, a, k) implies exists|b: int|
                                keyed(after, b, k) && #[trigger] after[b].ids@ == (
                                #[trigger] before[a]).ids@ by {
                                assert(keyed(after, a, k) && after[a].ids@ == before[a].ids@);
                            }
                            assert forall|b: int| #[trigger] keyed(after, b, k) implies exists|
                                a: int,
                            | keyed(before, a, k) by {
                                assert(keyed(before, b, k));
                            }
                            lemma_same_lookup(before, after, k);
                        }
                    }
                }
                self.entries = entries;
            },
        }
    }
}

/// Put every id of `src` under its key in `dst`.
pub fn merge_index<K: TotalOrder>(dst: &mut Index<K>, src: Index<K>)
    ensures
        forall|k: K::V| #[trigger] final(dst).at(k) == old(dst).at(k).union(src.at(k)),
{
    proof {
        use_type_invariant(&src);
    }
    let ghost all = src.entries@;
    let ghost start = *dst;
    let entries = src.entries;
    let mut i: usize = 0;
    proof {
        assert forall|k: K::V| #[trigger] dst.at(k) == start.at(k).union(
            lookup(all.take(0), k),
        ) by {
            assert forall|a: int| !keyed(all.take(0), a, k) by {}
            assert(start.at(k).union(Set::<u64>::empty()) =~= start.at(k));
        }
    }
    while i < entries.len()
        invariant
            i <= entries@.len(),
            entries@ == all,
            distinct_keys(all),
            forall|k: K::V| #[trigger]
                dst.at(k) == start.at(k).union(lookup(all.take(i as int), k)),
        decreases entries.len() - i,
    {
        let ids = entries[i].ids.as_slice();
        let ghost name = all[i as int].key@;
        let ghost list = crate::algebra::ordered::keys(ids@);
        let ghost base = *dst;
        let mut j: usize = 0;
        proof {
            assert forall|k: K::V| #[trigger] dst.at(k) == (if k == name {
                base.at(k).union(list.take(0).to_set())
            } else {
                base.at(k)
            }) by {
                assert(base.at(k).union(list.take(0).to_set()) =~= base.at(k));
            }
        }
        while j < ids.len()
            invariant
                j <= ids@.len(),
                i < entries@.len(),
                entries@ == all,
                name == all[i as int].key@,
                list == crate::algebra::ordered::keys(ids@),
                forall|k: K::V| #[trigger]
                    dst.at(k) == (if k == name {
                        base.at(k).union(list.take(j as int).to_set())
                    } else {
                        base.at(k)
                    }),
            decreases ids.len() - j,
        {
            let key = entries[i].key.clone();
            proof {
                K::clone_keeps_view(entries@[i as int].key, key);
                crate::algebra::ordered::lemma_take_to_set(list, j as int);
            }
            let ghost prior = *dst;
            dst.add(key, ids[j]);
            proof {
                assert forall|k: K::V| #[trigger] dst.at(k) == (if k == name {
                    base.at(k).union(list.take(j + 1).to_set())
                } else {
                    base.at(k)
                }) by {
                    assert(prior.at(k) == (if k == name {
                        base.at(k).union(list.take(j as int).to_set())
                    } else {
                        base.at(k)
                    }));
                    if k == name {
                        assert(dst.at(k) =~= base.at(k).union(list.take(j + 1).to_set()));
                    }
                }
            }
            j += 1;
        }
        proof {
            assert(list.take(j as int) =~= list);
            let part = all.take(i as int);
            let more = all.take(i + 1);
            assert(distinct_keys(part)) by {
                assert forall|a: int, b: int| 0 <= a < b < part.len() implies (
                #[trigger] part[a]).key@ != (#[trigger] part[b]).key@ by {
                    assert(all[a].key@ != all[b].key@);
                }
            }
            assert(distinct_keys(more)) by {
                assert forall|a: int, b: int| 0 <= a < b < more.len() implies (
                #[trigger] more[a]).key@ != (#[trigger] more[b]).key@ by {
                    assert(all[a].key@ != all[b].key@);
                }
            }
            assert forall|k: K::V| #[trigger] dst.at(k) == start.at(k).union(lookup(more, k)) by {
                assert(base.at(k) == start.at(k).union(lookup(part, k)));
                if k == name {
                    lemma_lookup(more, i as int);
                    assert forall|a: int| !keyed(part, a, k) by {
                        if keyed(part, a, k) {
                            assert(all[a].key@ != all[i as int].key@);
                        }
                    }
                    assert(dst.at(k) =~= start.at(k).union(lookup(more, k)));
                } else {
                    assert forall|a: int| keyed(part, a, k) implies exists|b: int|
                        keyed(more, b, k) && #[trigger] more[b].ids@ == (
                        #[trigger] part[a]).ids@ by {
                        assert(keyed(more, a, k) && more[a].ids@ == part[a].ids@);
                    }
                    assert forall|b: int| #[trigger] keyed(more, b, k) implies exists|a: int|
                        keyed(part, a, k) by {
                        assert(keyed(part, b, k));
                    }
                    lemma_same_lookup(part, more, k);
                }
            }
        }
        i += 1;
    }
    assert(all.take(i as int) =~= all);
}

} // verus!

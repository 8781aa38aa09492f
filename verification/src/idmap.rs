use std::collections::BTreeMap;
use vstd::prelude::*;

verus! {

broadcast use {vstd::std_specs::btree::group_btree_axioms, vstd::laws_cmp::group_laws_cmp};

/// Whether `keys` lists its members in strictly increasing order.
pub open spec fn ascending(keys: Seq<u32>) -> bool {
    forall|i: int, j: int| 0 <= i < j < keys.len() ==> keys[i] < keys[j]
}

/// A finite map from numeric identities.
#[derive(Debug)]
pub struct IdMap<T> {
    entries: BTreeMap<u32, T>,
}

impl<T> View for IdMap<T> {
    type V = Map<u32, T>;

    closed spec fn view(&self) -> Map<u32, T> {
        self.entries@
    }
}

impl<T> IdMap<T> {
    /// The empty map.
    pub fn new() -> (r: IdMap<T>)
        ensures
            r@ == Map::<u32, T>::empty(),
    {
        IdMap { entries: BTreeMap::new() }
    }

    /// Binds `id` to `value`, replacing what it was bound to.
    pub fn insert(&mut self, id: u32, value: T)
        ensures
            final(self)@ == old(self)@.insert(id, value),
    {
        self.entries.insert(id, value);
    }

    /// Unbinds `id`, and gives back what it was bound to.
    pub fn remove(&mut self, id: u32) -> (r: Option<T>)
        ensures
            final(self)@ == old(self)@.remove(id),
            r matches Some(value) ==> old(self)@.contains_key(id) && old(self)@[id] == value,
            r is None ==> !old(self)@.contains_key(id),
    {
        self.entries.remove(&id)
    }

    /// What `id` is bound to.
    pub fn get(&self, id: u32) -> (r: Option<&T>)
        ensures
            r matches Some(value) ==> self@.contains_key(id) && self@[id] == *value,
            r is None ==> !self@.contains_key(id),
    {
        self.entries.get(&id)
    }

    /// Whether `id` is bound.
    pub fn contains(&self, id: u32) -> (r: bool)
        ensures
            r == self@.contains_key(id),
    {
        self.entries.contains_key(&id)
    }

    /// The number of bound identities.
    pub fn len(&self) -> (r: usize)
        ensures
            r == self@.len(),
    {
        self.entries.len()
    }

    /// The bound identities, in increasing order.
    pub fn keys(&self) -> (r: Vec<u32>)
        ensures
            ascending(r@),
            forall|id: u32| self@.contains_key(id) <==> r@.contains(id),
    {
        let mut out: Vec<u32> = Vec::new();
        let iter = self.entries.iter();
        let ghost items = vstd::std_specs::iter::IteratorSpec::remaining(&iter);
        let ghost keys = items.map_values(|kv: (&u32, &T)| *kv.0);
        assert(vstd::std_specs::btree::increasing_seq(keys));
        assert forall|i: int, j: int| 0 <= i < j < keys.len() implies keys[i] < keys[j] by {
            assert(vstd::std_specs::cmp::OrdSpec::cmp_spec(&keys[i], &keys[j]) is Less);
        }
        for entry in it: iter
            invariant
                it.seq() == items,
                out@.len() == it.index(),
                ascending(keys),
                keys == items.map_values(|kv: (&u32, &T)| *kv.0),
                forall|j: int| 0 <= j < out@.len() ==> out@[j] == keys[j],
        {
            out.push(*entry.0);
        }
        assert(out@ =~= keys);
        assert forall|id: u32| self@.contains_key(id) <==> keys.contains(id) by {
            if self@.contains_key(id) {
                assert(items.contains((&id, &self@[id])));
                let i = choose|i: int| 0 <= i < items.len() && items[i] == (&id, &self@[id]);
                assert(keys[i] == id);
            }
            if keys.contains(id) {
                let i = choose|i: int| 0 <= i < keys.len() && keys[i] == id;
                assert(self@.contains_key(*items[i].0));
            }
        }
        out
    }
}

/// A finite set of numeric identities.
#[derive(Debug)]
pub struct IdSet {
    members: IdMap<()>,
}

impl View for IdSet {
    type V = Set<u32>;

    closed spec fn view(&self) -> Set<u32> {
        self.members@.dom()
    }
}

impl IdSet {
    /// The empty set.
    pub fn new() -> (r: IdSet)
        ensures
            r@ == Set::<u32>::empty(),
    {
        let r = IdSet { members: IdMap::new() };
        assert(r@ =~= Set::<u32>::empty());
        r
    }

    /// Adds `id`, and says whether it was absent before.
    pub fn insert(&mut self, id: u32) -> (fresh: bool)
        ensures
            final(self)@ == old(self)@.insert(id),
            fresh == !old(self)@.contains(id),
    {
        let fresh = !self.members.contains(id);
        self.members.insert(id, ());
        assert(self@ =~= old(self)@.insert(id));
        fresh
    }

    /// Takes `id` out.
    pub fn remove(&mut self, id: u32)
        ensures
            final(self)@ == old(self)@.remove(id),
    {
        self.members.remove(id);
        assert(self@ =~= old(self)@.remove(id));
    }

    /// Whether `id` is a member.
    pub fn contains(&self, id: u32) -> (r: bool)
        ensures
            r == self@.contains(id),
    {
        self.members.contains(id)
    }

    /// The members, in increasing order.
    pub fn members(&self) -> (r: Vec<u32>)
        ensures
            ascending(r@),
            forall|id: u32| self@.contains(id) <==> r@.contains(id),
    {
        self.members.keys()
    }

    /// Adds every member of `other`.
    pub fn extend(&mut self, other: &IdSet)
        ensures
            final(self)@ == old(self)@.union(other@),
    {
        let added = other.members();
        let mut i: usize = 0;
        while i < added.len()
            invariant
                i <= added@.len(),
                forall|id: u32| other@.contains(id) <==> added@.contains(id),
                forall|id: u32|
                    self@.contains(id) <==> old(self)@.contains(id) || added@.take(
                        i as int,
                    ).contains(id),
            decreases added@.len() - i,
        {
            let ghost before = self@;
            self.insert(added[i]);
            assert forall|id: u32|
                self@.contains(id) <==> old(self)@.contains(id) || added@.take(i + 1).contains(
                    id,
                ) by {
                let longer = added@.take(i + 1);
                let shorter = added@.take(i as int);
                if shorter.contains(id) {
                    let k = choose|k: int| 0 <= k < shorter.len() && shorter[k] == id;
                    assert(longer[k] == id);
                }
                if longer.contains(id) {
                    let k = choose|k: int| 0 <= k < longer.len() && longer[k] == id;
                    if k < i {
                        assert(shorter[k] == id);
                    }
                }
                assert(longer[i as int] == added@[i as int]);
            }
            i = i + 1;
        }
        assert(added@.take(added@.len() as int) =~= added@);
        assert(self@ =~= old(self)@.union(other@));
    }
}

} // verus!

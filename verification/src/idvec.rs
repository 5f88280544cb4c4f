//! An id-keyed collection with stable, strictly increasing keys.
//!
//! The document keeps its strands and helices under integer identifiers
//! that survive edits.  This map stores the entries sorted by key in a
//! vector; its mathematical value is the finite map from keys to the
//! views of the stored values.

use vstd::prelude::*;

verus! {

/// The finite map described by an entry list: later entries win.
pub open spec fn map_of<T: View>(entries: Seq<(usize, T)>) -> Map<usize, T::V>
    decreases entries.len(),
{
    if entries.len() == 0 {
        Map::empty()
    } else {
        map_of(entries.drop_last()).insert(entries.last().0, entries.last().1@)
    }
}

/// Keys strictly increase along the entry list.
pub open spec fn sorted_keys<T: View>(entries: Seq<(usize, T)>) -> bool {
    forall|i: int, j: int| 0 <= i < j < entries.len() ==> entries[i].0 < entries[j].0
}

/// Every listed key is in the map, bound to the listed value.
pub proof fn lemma_map_of_index<T: View>(entries: Seq<(usize, T)>, i: int)
    requires
        sorted_keys(entries),
        0 <= i < entries.len(),
    ensures
        map_of(entries).contains_key(entries[i].0),
        map_of(entries)[entries[i].0] == entries[i].1@,
    decreases entries.len(),
{
    if i < entries.len() - 1 {
        lemma_map_of_index(entries.drop_last(), i);
        assert(entries.drop_last()[i] == entries[i]);
    }
}

/// Every key of the map is listed.
pub proof fn lemma_map_of_domain<T: View>(entries: Seq<(usize, T)>, k: usize)
    requires
        map_of(entries).contains_key(k),
    ensures
        exists|i: int| 0 <= i < entries.len() && (#[trigger] entries[i].0) == k,
    decreases entries.len(),
{
    if entries.len() > 0 && entries.last().0 != k {
        lemma_map_of_domain(entries.drop_last(), k);
    }
}

/// A key absent from the entry list is absent from the map.
pub proof fn lemma_map_of_absent<T: View>(entries: Seq<(usize, T)>, k: usize)
    requires
        forall|i: int| 0 <= i < entries.len() ==> (#[trigger] entries[i].0) != k,
    ensures
        !map_of(entries).contains_key(k),
    decreases entries.len(),
{
    if entries.len() > 0 {
        lemma_map_of_absent(entries.drop_last(), k);
    }
}

/// Entry lists with the same keys and view-equal values describe the
/// same map.
pub proof fn lemma_map_of_congruent<T: View>(a: Seq<(usize, T)>, b: Seq<(usize, T)>)
    requires
        a.len() == b.len(),
        forall|i: int|
            0 <= i < a.len() ==> (#[trigger] a[i]).0 == b[i].0 && a[i].1@ == b[i].1@,
    ensures
        map_of(a) == map_of(b),
    decreases a.len(),
{
    if a.len() > 0 {
        lemma_map_of_congruent(a.drop_last(), b.drop_last());
        assert(a[a.len() - 1].0 == b[b.len() - 1].0);
        assert(map_of(a) =~= map_of(b));
    } else {
        assert(map_of(a) =~= map_of(b));
    }
}

/// A collection of values under strictly increasing integer ids.
pub struct IdVec<T> {
    /// The entries, sorted by id.
    pub entries: Vec<(usize, T)>,
}

impl<T: View> View for IdVec<T> {
    type V = Map<usize, T::V>;

    open spec fn view(&self) -> Map<usize, T::V> {
        map_of(self.entries@)
    }
}

impl<T: View> IdVec<T> {
    /// The entry list is sorted by strictly increasing id.
    pub open spec fn wf(self) -> bool {
        sorted_keys(self.entries@)
    }

    /// The empty collection.
    pub fn new() -> (r: IdVec<T>)
        ensures
            r.wf(),
            r@ == Map::<usize, T::V>::empty(),
    {
        IdVec { entries: Vec::new() }
    }

    /// Number of entries.
    pub fn len(&self) -> (r: usize)
        requires
            self.wf(),
        ensures
            r == self@.dom().len(),
    {
        proof {
            lemma_dom_len(self.entries@);
        }
        self.entries.len()
    }

    /// The value stored under `id`, if any.
    pub fn get(&self, id: usize) -> (r: Option<&T>)
        requires
            self.wf(),
        ensures
            r matches Some(t) ==> self@.contains_key(id) && t@ == self@[id],
            r is None ==> !self@.contains_key(id),
    {
        let n = self.entries.len();
        let mut i: usize = 0;
        while i < n
            invariant
                self.wf(),
                n == self.entries.len(),
                0 <= i <= n,
                forall|j: int| 0 <= j < i ==> (#[trigger] self.entries@[j].0) != id,
            decreases n - i,
        {
            if self.entries[i].0 == id {
                proof {
                    lemma_map_of_index(self.entries@, i as int);
                }
                return Some(&self.entries[i].1);
            }
            i = i + 1;
        }
        proof {
            lemma_map_of_absent(self.entries@, id);
        }
        None
    }

    /// Whether some value is stored under `id`.
    pub fn contains_key(&self, id: usize) -> (r: bool)
        requires
            self.wf(),
        ensures
            r == self@.contains_key(id),
    {
        self.get(id).is_some()
    }

    /// Store `value` under `id`, replacing any previous value.
    pub fn insert(&mut self, id: usize, value: T)
        requires
            old(self).wf(),
        ensures
            final(self).wf(),
            final(self)@ == old(self)@.insert(id, value@),
    {
        let ghost old_entries = self.entries@;
        let n = self.entries.len();
        let mut i: usize = 0;
        while i < n
            invariant
                sorted_keys(old_entries),
                old_entries == old(self).entries@,
                old_entries == self.entries@,
                n == self.entries.len(),
                0 <= i <= n,
                forall|j: int| 0 <= j < i ==> (#[trigger] self.entries@[j].0) < id,
            decreases n - i,
        {
            if self.entries[i].0 == id {
                self.entries.set(i, (id, value));
                proof {
                    lemma_set_entry(old_entries, self.entries@, i as int);
                }
                return ;
            } else if self.entries[i].0 > id {
                self.entries.insert(i, (id, value));
                proof {
                    lemma_insert_entry(old_entries, self.entries@, i as int);
                }
                return ;
            }
            i = i + 1;
        }
        self.entries.push((id, value));
        proof {
            assert(self.entries@.drop_last() =~= old_entries);
            lemma_map_of_absent(old_entries, id);
            assert(map_of(self.entries@) =~= map_of(old_entries).insert(id, value@));
        }
    }

    /// Remove and return the value stored under `id`, if any.
    pub fn remove(&mut self, id: usize) -> (r: Option<T>)
        requires
            old(self).wf(),
        ensures
            final(self).wf(),
            final(self)@ == old(self)@.remove(id),
            r matches Some(t) ==> old(self)@.contains_key(id) && t@ == old(self)@[id],
            r is None ==> !old(self)@.contains_key(id),
    {
        let ghost old_entries = self.entries@;
        let n = self.entries.len();
        let mut i: usize = 0;
        while i < n
            invariant
                sorted_keys(old_entries),
                old_entries == old(self).entries@,
                old_entries == self.entries@,
                n == self.entries.len(),
                0 <= i <= n,
                forall|j: int| 0 <= j < i ==> (#[trigger] self.entries@[j].0) != id,
            decreases n - i,
        {
            if self.entries[i].0 == id {
                proof {
                    lemma_map_of_index(old_entries, i as int);
                }
                let entry = self.entries.remove(i);
                proof {
                    lemma_remove_entry(old_entries, self.entries@, i as int);
                }
                return Some(entry.1);
            }
            i = i + 1;
        }
        proof {
            lemma_map_of_absent(old_entries, id);
            assert(self@ =~= old(self)@.remove(id));
        }
        None
    }

    /// The largest id in use, if any.
    pub fn max_key(&self) -> (r: Option<usize>)
        requires
            self.wf(),
        ensures
            r matches Some(m) ==> self@.contains_key(m) && forall|k: usize|
                self@.contains_key(k) ==> k <= m,
            r is None ==> self@ == Map::<usize, T::V>::empty(),
    {
        let n = self.entries.len();
        if n == 0 {
            proof {
                assert(self@ =~= Map::<usize, T::V>::empty());
            }
            None
        } else {
            let m = self.entries[n - 1].0;
            proof {
                lemma_map_of_index(self.entries@, n - 1);
                assert forall|k: usize| self@.contains_key(k) implies k <= m by {
                    lemma_map_of_domain(self.entries@, k);
                }
            }
            Some(m)
        }
    }

    /// The ids in use, in increasing order.
    pub fn ids(&self) -> (r: Vec<usize>)
        requires
            self.wf(),
        ensures
            r@.len() == self.entries@.len(),
            forall|i: int| 0 <= i < r@.len() ==> r@[i] == (#[trigger] self.entries@[i]).0,
            forall|i: int| 0 <= i < r@.len() ==> self@.contains_key(#[trigger] r@[i]),
            forall|k: usize| #[trigger] self@.contains_key(k) ==> r@.contains(k),
    {
        let n = self.entries.len();
        let mut r: Vec<usize> = Vec::new();
        let mut i: usize = 0;
        while i < n
            invariant
                self.wf(),
                n == self.entries.len(),
                0 <= i <= n,
                r@.len() == i,
                forall|j: int| 0 <= j < i ==> r@[j] == (#[trigger] self.entries@[j]).0,
            decreases n - i,
        {
            r.push(self.entries[i].0);
            i = i + 1;
        }
        proof {
            assert forall|j: int| 0 <= j < r@.len() implies self@.contains_key(r@[j]) by {
                lemma_map_of_index(self.entries@, j);
            }
            assert forall|k: usize| #[trigger] self@.contains_key(k) implies r@.contains(k) by {
                lemma_map_of_domain(self.entries@, k);
                let j = choose|j: int|
                    0 <= j < self.entries@.len() && (#[trigger] self.entries@[j].0) == k;
                assert(r@[j] == k);
            }
        }
        r
    }
}

/// With sorted keys the map's domain has one element per entry.
pub proof fn lemma_dom_len<T: View>(entries: Seq<(usize, T)>)
    requires
        sorted_keys(entries),
    ensures
        map_of(entries).dom().finite(),
        map_of(entries).dom().len() == entries.len(),
    decreases entries.len(),
{
    if entries.len() > 0 {
        lemma_dom_len(entries.drop_last());
        lemma_map_of_absent(entries.drop_last(), entries.last().0);
    }
}

/// Replacing the entry at `i` replaces its binding alone.
proof fn lemma_set_entry<T: View>(old_e: Seq<(usize, T)>, new_e: Seq<(usize, T)>, i: int)
    requires
        sorted_keys(old_e),
        0 <= i < old_e.len(),
        new_e.len() == old_e.len(),
        new_e[i].0 == old_e[i].0,
        forall|j: int| 0 <= j < old_e.len() && j != i ==> new_e[j] == old_e[j],
    ensures
        sorted_keys(new_e),
        map_of(new_e) == map_of(old_e).insert(old_e[i].0, new_e[i].1@),
    decreases old_e.len(),
{
    assert forall|a: int, b: int| 0 <= a < b < new_e.len() implies new_e[a].0 < new_e[b].0 by {
        assert(old_e[a].0 < old_e[b].0);
    }
    if i == old_e.len() - 1 {
        assert(new_e.drop_last() =~= old_e.drop_last());
        assert(map_of(new_e) =~= map_of(old_e).insert(old_e[i].0, new_e[i].1@));
    } else {
        lemma_set_entry(old_e.drop_last(), new_e.drop_last(), i);
        assert(new_e.last() == old_e.last());
        assert(map_of(new_e) == map_of(new_e.drop_last()).insert(old_e.last().0, old_e.last().1@));
        assert(map_of(new_e) =~= map_of(old_e).insert(old_e[i].0, new_e[i].1@));
    }
}

/// Inserting an entry at its sorted position adds its binding alone.
proof fn lemma_insert_entry<T: View>(old_e: Seq<(usize, T)>, new_e: Seq<(usize, T)>, i: int)
    requires
        sorted_keys(old_e),
        0 <= i <= old_e.len(),
        new_e.len() == old_e.len() + 1,
        forall|j: int| 0 <= j < i ==> new_e[j] == old_e[j],
        forall|j: int| i < j < new_e.len() ==> new_e[j] == old_e[j - 1],
        forall|j: int| 0 <= j < i ==> old_e[j].0 < new_e[i].0,
        forall|j: int| i <= j < old_e.len() ==> new_e[i].0 < old_e[j].0,
    ensures
        sorted_keys(new_e),
        map_of(new_e) == map_of(old_e).insert(new_e[i].0, new_e[i].1@),
    decreases old_e.len(),
{
    assert forall|a: int, b: int| 0 <= a < b < new_e.len() implies new_e[a].0 < new_e[b].0 by {
        if a < i && b > i {
            assert(old_e[a].0 < new_e[i].0 || a == i);
        }
    }
    if i == old_e.len() {
        assert(new_e.drop_last() =~= old_e);
    } else {
        lemma_insert_entry(old_e.drop_last(), new_e.drop_last(), i);
        assert(new_e.last() == old_e.last());
        assert(map_of(new_e) == map_of(new_e.drop_last()).insert(old_e.last().0, old_e.last().1@));
        assert(map_of(new_e) =~= map_of(old_e).insert(new_e[i].0, new_e[i].1@));
    }
}

/// Removing the entry at `i` removes its binding alone.
proof fn lemma_remove_entry<T: View>(old_e: Seq<(usize, T)>, new_e: Seq<(usize, T)>, i: int)
    requires
        sorted_keys(old_e),
        0 <= i < old_e.len(),
        new_e.len() == old_e.len() - 1,
        forall|j: int| 0 <= j < i ==> new_e[j] == old_e[j],
        forall|j: int| i <= j < new_e.len() ==> new_e[j] == old_e[j + 1],
    ensures
        sorted_keys(new_e),
        map_of(new_e) == map_of(old_e).remove(old_e[i].0),
    decreases old_e.len(),
{
    assert forall|a: int, b: int| 0 <= a < b < new_e.len() implies new_e[a].0 < new_e[b].0 by {
        assert(new_e[b].0 == old_e[b + 1].0 || new_e[b].0 == old_e[b].0);
    }
    if i == old_e.len() - 1 {
        assert(new_e =~= old_e.drop_last());
        lemma_map_of_absent(new_e, old_e[i].0);
        assert(map_of(new_e) =~= map_of(old_e).remove(old_e[i].0));
    } else {
        lemma_remove_entry(old_e.drop_last(), new_e.drop_last(), i);
        assert(new_e.last() == old_e.last());
        assert(map_of(new_e) == map_of(new_e.drop_last()).insert(old_e.last().0, old_e.last().1@));
        assert(map_of(new_e) =~= map_of(old_e).remove(old_e[i].0));
    }
}

} // verus!

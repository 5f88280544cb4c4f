//! Generic collections of items under stable integer identifiers, with
//! copy-on-write sharing.
//!
//! The shared collection hands out an editing view holding a private
//! copy of the entries; committing the view writes a freshly shared
//! collection back.

use std::sync::Arc;

use vstd::prelude::*;

verus! {

/// An item carrying a display name.
#[derive(Debug, Clone)]
pub struct NamedItem<T: Clone>(pub String, pub T);

/// Generic identifier.
#[derive(Debug, Clone, Copy, PartialEq, Eq, Structural)]
pub struct Id(pub usize);

/// Relies on `std::sync::Arc`'s `Deref`: reading through the shared
/// pointer yields the shared value.
#[verifier::external_body]
fn arc_read<T>(v: &Arc<T>) -> (r: &T)
    ensures
        *r == **v,
{
    &**v
}

/// Relies on `std::sync::Arc::ptr_eq`: it returns true only for two
/// handles on one allocation, which then hold one value.
#[verifier::external_body]
fn arc_ptr_eq<T>(a: &Arc<T>, b: &Arc<T>) -> (r: bool)
    ensures
        r ==> **a == **b,
{
    Arc::ptr_eq(a, b)
}

/// A shared collection of items with identifiers.
#[derive(Debug, Clone)]
pub struct IdHandler<T: Clone> {
    /// The entries, sorted by strictly increasing identifier.
    map: Arc<Vec<(Id, T)>>,
}

impl<T: Clone> View for IdHandler<T> {
    type V = Seq<(Id, T)>;

    closed spec fn view(&self) -> Seq<(Id, T)> {
        (*self.map)@
    }
}

/// Identifiers strictly increase along the entry list.
pub open spec fn ids_sorted<T>(entries: Seq<(Id, T)>) -> bool {
    forall|i: int, j: int| 0 <= i < j < entries.len() ==> entries[i].0.0 < entries[j].0.0
}

impl<T: Clone> IdHandler<T> {
    /// The entries are sorted by identifier.
    pub open spec fn wf(self) -> bool {
        ids_sorted(self@)
    }

    /// An editing view of the collection, holding its own copy of the
    /// entries.
    pub fn make_mut(&self) -> (r: IdHandlerMut<T>)
        requires
            self.wf(),
        ensures
            r.wf(),
            r@.len() == self@.len(),
            forall|i: int|
                0 <= i < self@.len() ==> (#[trigger] r@[i]).0 == self@[i].0 && cloned::<T>(
                    self@[i].1,
                    r@[i].1,
                ),
    {
        let map = arc_read(&self.map);
        let n = map.len();
        let mut new_map: Vec<(Id, T)> = Vec::new();
        let mut i: usize = 0;
        while i < n
            invariant
                self.wf(),
                map@ == self@,
                n == self@.len(),
                0 <= i <= n,
                new_map@.len() == i,
                forall|j: int|
                    0 <= j < i ==> (#[trigger] new_map@[j]).0 == self@[j].0 && cloned::<T>(
                        self@[j].1,
                        new_map@[j].1,
                    ),
            decreases n - i,
        {
            let id = map[i].0;
            let item = map[i].1.clone();
            new_map.push((id, item));
            i = i + 1;
        }
        IdHandlerMut { new_map }
    }

    /// A collection of the given items under the identifiers `0` to
    /// `n - 1`, in order.
    pub fn from_vec(vec: Vec<T>) -> (r: IdHandler<T>)
        ensures
            r.wf(),
            r@.len() == vec@.len(),
            forall|i: int| 0 <= i < vec@.len() ==> (#[trigger] r@[i]) == (Id(i as usize), vec@[i]),
    {
        let ghost orig = vec@;
        let _bound = vec.len();
        proof {
            assert(orig.len() <= usize::MAX);
        }
        let mut vec = vec;
        let mut entries: Vec<(Id, T)> = Vec::new();
        let mut i: usize = 0;
        while vec.len() > 0
            invariant
                orig.len() <= usize::MAX,
                orig.len() == i + vec@.len(),
                vec@ == orig.skip(i as int),
                entries@.len() == i,
                forall|j: int| 0 <= j < i ==> (#[trigger] entries@[j]) == (Id(j as usize), orig[j]),
            decreases vec.len(),
        {
            let item = vec.remove(0);
            entries.push((Id(i), item));
            proof {
                assert(vec@ =~= orig.skip(i + 1));
            }
            i = i + 1;
        }
        let r = IdHandler { map: Arc::new(entries) };
        proof {
            assert forall|a: int, b: int|
                0 <= a < b < r@.len() implies r@[a].0.0 < r@[b].0.0 by {}
        }
        r
    }

    /// Whether the two collections share one allocation; sharing
    /// implies equal contents.
    pub fn ptr_eq(&self, other: &IdHandler<T>) -> (r: bool)
        ensures
            r ==> self@ == other@,
    {
        arc_ptr_eq(&self.map, &other.map)
    }
}

/// An editing view of an [`IdHandler`]: a private copy of the entries.
pub struct IdHandlerMut<T: Clone> {
    /// The entries being edited, sorted by identifier.
    new_map: Vec<(Id, T)>,
}

impl<T: Clone> View for IdHandlerMut<T> {
    type V = Seq<(Id, T)>;

    closed spec fn view(&self) -> Seq<(Id, T)> {
        self.new_map@
    }
}

impl<T: Clone> IdHandlerMut<T> {
    /// The entries are sorted by identifier.
    pub open spec fn wf(self) -> bool {
        ids_sorted(self@)
    }

    /// Store `item` under the smallest unused identifier, one past the
    /// largest in use, and return it.
    pub fn push(&mut self, item: T) -> (r: Id)
        requires
            old(self).wf(),
            old(self)@.len() > 0 ==> old(self)@.last().0.0 < usize::MAX,
        ensures
            final(self).wf(),
            final(self)@ == old(self)@.push((r, item)),
            old(self)@.len() == 0 ==> r == Id(0usize),
            old(self)@.len() > 0 ==> r.0 == old(self)@.last().0.0 + 1,
    {
        let n = self.new_map.len();
        let new_key = if n == 0 {
            Id(0)
        } else {
            Id(self.new_map[n - 1].0.0 + 1)
        };
        self.new_map.push((new_key, item));
        proof {
            assert(self@.drop_last() =~= old(self)@);
        }
        new_key
    }

    /// Mutable access to the item stored under `id`, if any.
    pub fn get_mut(&mut self, id: &Id) -> (r: Option<&mut T>)
        requires
            old(self).wf(),
        ensures
            final(self).wf(),
            r is None ==> final(self)@ == old(self)@ && (forall|j: int|
                0 <= j < old(self)@.len() ==> (#[trigger] old(self)@[j]).0 != *id),
            r matches Some(item) ==> exists|j: int|
                0 <= j < old(self)@.len() && (#[trigger] old(self)@[j]).0 == *id && *item == old(
                    self,
                )@[j].1 && final(self)@ == old(self)@.update(j, (*id, *final(item))),
    {
        let n = self.new_map.len();
        let mut i: usize = 0;
        while i < n
            invariant
                old(self).wf(),
                *self == *old(self),
                n == self.new_map@.len(),
                0 <= i <= n,
                forall|j: int| 0 <= j < i ==> (#[trigger] self.new_map@[j]).0 != *id,
            decreases n - i,
        {
            if self.new_map[i].0.0 == id.0 {
                let entry = &mut self.new_map[i];
                return Some(&mut entry.1);
            }
            i = i + 1;
        }
        None
    }

    /// Remove and return the item stored under `id`, if any.
    pub fn remove(&mut self, id: &Id) -> (r: Option<T>)
        requires
            old(self).wf(),
        ensures
            final(self).wf(),
            r is None ==> final(self)@ == old(self)@ && (forall|j: int|
                0 <= j < old(self)@.len() ==> (#[trigger] old(self)@[j]).0 != *id),
            r matches Some(item) ==> exists|j: int|
                0 <= j < old(self)@.len() && (#[trigger] old(self)@[j]).0 == *id && item == old(
                    self,
                )@[j].1 && final(self)@ == old(self)@.remove(j),
    {
        let n = self.new_map.len();
        let mut i: usize = 0;
        while i < n
            invariant
                old(self).wf(),
                *self == *old(self),
                n == self.new_map@.len(),
                0 <= i <= n,
                forall|j: int| 0 <= j < i ==> (#[trigger] self.new_map@[j]).0 != *id,
            decreases n - i,
        {
            if self.new_map[i].0.0 == id.0 {
                let entry = self.new_map.remove(i);
                proof {
                    assert forall|a: int, b: int|
                        0 <= a < b < self.new_map@.len() implies self.new_map@[a].0.0
                        < self.new_map@[b].0.0 by {
                        assert(self.new_map@ =~= old(self)@.remove(i as int));
                    }
                }
                return Some(entry.1);
            }
            i = i + 1;
        }
        None
    }

    /// Write the edited entries back into a shared collection.
    pub fn commit(self, target: &mut IdHandler<T>)
        requires
            self.wf(),
        ensures
            final(target).wf(),
            final(target)@ == self@,
    {
        target.map = Arc::new(self.new_map);
    }
}

/// Items that expose a display name.
pub trait ItemWithName<'a> {
    /// The item's display name.
    fn get_name(self) -> &'a str;
}

impl<'a, T: Clone> ItemWithName<'a> for &'a NamedItem<T> {
    fn get_name(self) -> (r: &'a str)
        ensures
            r@ == self.0@,
    {
        self.0.as_str()
    }
}

/// Collections that can look an item up by its display name.
pub trait GetIdOfOneItemNamed {
    /// The identifier of one item carrying the given name, if any.
    fn get_id_of_one_item_named(self, name: String) -> Option<Id>;
}

impl<T: Clone> GetIdOfOneItemNamed for IdHandler<NamedItem<T>> {
    /// The identifier of the first item (in identifier order) whose name
    /// equals `name`.
    fn get_id_of_one_item_named(self, name: String) -> (r: Option<Id>)
        ensures
            r matches Some(id) ==> exists|j: int|
                0 <= j < self@.len() && (#[trigger] self@[j]).0 == id && self@[j].1.0@ == name@
                    && (forall|k: int| 0 <= k < j ==> (#[trigger] self@[k]).1.0@ != name@),
            r is None ==> forall|j: int| 0 <= j < self@.len() ==> (#[trigger] self@[j]).1.0@ != name@,
    {
        let map = arc_read(&self.map);
        let n = map.len();
        let mut i: usize = 0;
        while i < n
            invariant
                map@ == self@,
                n == self@.len(),
                0 <= i <= n,
                forall|j: int| 0 <= j < i ==> (#[trigger] self@[j]).1.0@ != name@,
            decreases n - i,
        {
            if map[i].1.0.eq(&name) {
                return Some(map[i].0);
            }
            i = i + 1;
        }
        None
    }
}

} // verus!

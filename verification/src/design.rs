//! The document: strands, helices and grids under stable identifiers.

use vstd::prelude::*;

use crate::idvec::IdVec;
use crate::nucl::{Extremity, Nucl};
use crate::strand::{strand_has_nucl, Strand, StrandV};

verus! {

/// A slot on a grid: which grid, and the integer lattice coordinates.
#[derive(Clone, Copy, Debug, PartialEq, Eq, Structural)]
pub struct GridPosition {
    /// Identifier of the grid.
    pub grid: usize,
    /// Lattice abscissa on the grid.
    pub x: isize,
    /// Lattice ordinate on the grid.
    pub y: isize,
}

/// The lattice pattern of a grid.
#[derive(Clone, Copy, Debug, PartialEq, Eq, Structural)]
pub enum GridTypeDescr {
    Square,
    Honeycomb,
}

/// A grid of the design.  Its placement in space (position and
/// orientation) is view-layer data kept outside this core.
#[derive(Clone, Copy, Debug, PartialEq, Eq, Structural)]
pub struct GridDescriptor {
    /// The lattice pattern of the grid.
    pub grid_type: GridTypeDescr,
}

/// A helix of the design.  Only what the topology reads is kept here:
/// its optional grid slot and its visibility; its geometry is view-layer
/// data kept outside this core.
#[derive(Clone, Copy, Debug, PartialEq, Eq)]
pub struct Helix {
    /// The grid slot the helix is attached to, if any.
    pub grid_position: Option<GridPosition>,
    /// Whether the helix is shown.
    pub visible: bool,
}

impl View for Helix {
    type V = Helix;

    open spec fn view(&self) -> Helix {
        *self
    }
}

impl Helix {
    /// A new visible helix attached to the given grid slot.
    pub fn new_on_grid(grid: usize, x: isize, y: isize) -> (r: Helix)
        ensures
            r.grid_position == Some(GridPosition { grid, x, y }),
            r.visible,
    {
        Helix { grid_position: Some(GridPosition { grid, x, y }), visible: true }
    }
}

/// A set of integer identifiers.
pub struct IdSet {
    /// The members, in strictly increasing order.
    pub items: Vec<usize>,
}

impl View for IdSet {
    type V = Set<usize>;

    open spec fn view(&self) -> Set<usize> {
        self.items@.to_set()
    }
}

impl IdSet {
    /// Members strictly increase along the vector.
    pub open spec fn wf(self) -> bool {
        forall|i: int, j: int| 0 <= i < j < self.items@.len() ==> self.items@[i] < self.items@[j]
    }

    /// The empty set.
    pub fn new() -> (r: IdSet)
        ensures
            r.wf(),
            r@ == Set::<usize>::empty(),
    {
        let r = IdSet { items: Vec::new() };
        proof {
            assert(r@ =~= Set::<usize>::empty());
        }
        r
    }

    /// Whether `id` is a member.
    pub fn contains(&self, id: usize) -> (r: bool)
        requires
            self.wf(),
        ensures
            r == self@.contains(id),
    {
        let n = self.items.len();
        let mut i: usize = 0;
        while i < n
            invariant
                n == self.items.len(),
                0 <= i <= n,
                forall|j: int| 0 <= j < i ==> self.items@[j] != id,
            decreases n - i,
        {
            if self.items[i] == id {
                return true;
            }
            i = i + 1;
        }
        proof {
            assert(!self.items@.contains(id));
        }
        false
    }

    /// Add `id` to the set.
    pub fn insert(&mut self, id: usize)
        requires
            old(self).wf(),
        ensures
            final(self).wf(),
            final(self)@ == old(self)@.insert(id),
    {
        let ghost old_items = self.items@;
        let n = self.items.len();
        let mut i: usize = 0;
        while i < n
            invariant
                old_items == old(self).items@,
                old_items == self.items@,
                forall|a: int, b: int| 0 <= a < b < old_items.len() ==> old_items[a] < old_items[b],
                n == self.items.len(),
                0 <= i <= n,
                forall|j: int| 0 <= j < i ==> self.items@[j] < id,
            decreases n - i,
        {
            if self.items[i] == id {
                proof {
                    assert(old_items.contains(id));
                    assert(self@ =~= old(self)@.insert(id));
                }
                return ;
            } else if self.items[i] > id {
                self.items.insert(i, id);
                proof {
                    assert(self.items@ =~= old_items.take(i as int) + seq![id] + old_items.skip(
                        i as int,
                    ));
                    assert forall|a: int, b: int|
                        0 <= a < b < self.items@.len() implies self.items@[a] < self.items@[b] by {
                        assert(old_items.take(i as int) + seq![id] + old_items.skip(i as int)
                            =~= self.items@);
                    }
                    assert forall|k: usize| self@.contains(k) implies old(self)@.insert(
                        id,
                    ).contains(k) by {
                        let idx = choose|idx: int|
                            0 <= idx < self.items@.len() && self.items@[idx] == k;
                        if idx < i {
                            assert(old_items[idx] == k);
                        } else if idx > i {
                            assert(old_items[idx - 1] == k);
                        }
                    }
                    assert forall|k: usize| old(self)@.insert(id).contains(k) implies self@.contains(
                        k,
                    ) by {
                        if k == id {
                            assert(self.items@[i as int] == k);
                        } else {
                            let idx = choose|idx: int|
                                0 <= idx < old_items.len() && old_items[idx] == k;
                            if idx < i {
                                assert(self.items@[idx] == k);
                            } else {
                                assert(self.items@[idx + 1] == k);
                            }
                        }
                    }
                    assert(self@ =~= old(self)@.insert(id));
                }
                return ;
            }
            i = i + 1;
        }
        self.items.push(id);
        proof {
            assert(self.items@.drop_last() =~= old_items);
            assert forall|k: usize| self@.contains(k) implies old(self)@.insert(id).contains(k) by {
                let idx = choose|idx: int| 0 <= idx < self.items@.len() && self.items@[idx] == k;
                if idx < old_items.len() {
                    assert(old_items[idx] == k);
                }
            }
            assert forall|k: usize| old(self)@.insert(id).contains(k) implies self@.contains(k) by {
                if k == id {
                    assert(self.items@.last() == k);
                } else {
                    let idx = choose|idx: int| 0 <= idx < old_items.len() && old_items[idx] == k;
                    assert(self.items@[idx] == k);
                }
            }
            assert(self@ =~= old(self)@.insert(id));
        }
    }

    /// Remove `id` from the set.
    pub fn remove(&mut self, id: usize)
        requires
            old(self).wf(),
        ensures
            final(self).wf(),
            final(self)@ == old(self)@.remove(id),
    {
        let ghost old_items = self.items@;
        let n = self.items.len();
        let mut i: usize = 0;
        while i < n
            invariant
                old_items == old(self).items@,
                old_items == self.items@,
                forall|a: int, b: int| 0 <= a < b < old_items.len() ==> old_items[a] < old_items[b],
                n == self.items.len(),
                0 <= i <= n,
                forall|j: int| 0 <= j < i ==> self.items@[j] != id,
            decreases n - i,
        {
            if self.items[i] == id {
                self.items.remove(i);
                proof {
                    assert(self.items@ =~= old_items.take(i as int) + old_items.skip(i + 1));
                    assert forall|a: int, b: int|
                        0 <= a < b < self.items@.len() implies self.items@[a] < self.items@[b] by {}
                    assert forall|k: usize| self@.contains(k) implies old(self)@.remove(id).contains(
                        k,
                    ) by {
                        let idx = choose|idx: int|
                            0 <= idx < self.items@.len() && self.items@[idx] == k;
                        if idx < i {
                            assert(old_items[idx] == k);
                            assert(idx < i ==> old_items[idx] < id);
                        } else {
                            assert(old_items[idx + 1] == k);
                            assert(old_items[i as int] < old_items[idx + 1]);
                        }
                    }
                    assert forall|k: usize| old(self)@.remove(id).contains(k) implies self@.contains(
                        k,
                    ) by {
                        let idx = choose|idx: int|
                            0 <= idx < old_items.len() && old_items[idx] == k;
                        if idx < i {
                            assert(self.items@[idx] == k);
                        } else {
                            assert(idx != i);
                            assert(self.items@[idx - 1] == k);
                        }
                    }
                    assert(self@ =~= old(self)@.remove(id));
                }
                return ;
            }
            i = i + 1;
        }
        proof {
            assert(!self.items@.contains(id));
            assert(self@ =~= old(self)@.remove(id));
        }
    }
}

/// The scan behind [`Design::strand_end_spec`]: the first linear strand
/// (in id order) whose 5' extremity is `nucl` makes it a 5' end, else
/// whose 3' extremity is `nucl` makes it a 3' end.
pub open spec fn end_scan(entries: Seq<StrandV>, nucl: Nucl, i: int) -> Extremity
    decreases entries.len() - i,
{
    if i < 0 || i >= entries.len() {
        Extremity::Inside
    } else {
        let s = entries[i];
        if !s.cyclic && s.nucls().len() > 0 && s.nucls()[0] == nucl {
            Extremity::Prime5
        } else if !s.cyclic && s.nucls().len() > 0 && s.nucls().last() == nucl {
            Extremity::Prime3
        } else {
            end_scan(entries, nucl, i + 1)
        }
    }
}

/// The document: an immutable-by-convention snapshot of the whole design.
pub struct Design {
    /// The strands of the design, by stable identifier.
    pub strands: IdVec<Strand>,
    /// The helices of the design, by stable identifier.
    pub helices: IdVec<Helix>,
    /// The grids of the design, by index.
    pub grids: Vec<GridDescriptor>,
    /// Identifier of the scaffold strand, if one is chosen.
    pub scaffold_id: Option<usize>,
    /// Sequence to thread along the scaffold, if any.
    pub scaffold_sequence: Option<String>,
    /// Offset at which the scaffold sequence starts.
    pub scaffold_shift: Option<usize>,
    /// Grids whose phantom helices are hidden.
    pub no_phantoms: IdSet,
    /// Grids drawn with small spheres.
    pub small_spheres: IdSet,
}

impl Design {
    /// Well-formedness of the document: the id containers are sorted and
    /// every strand is itself well formed.
    pub open spec fn wf(self) -> bool {
        &&& self.strands.wf()
        &&& self.helices.wf()
        &&& self.no_phantoms.wf()
        &&& self.small_spheres.wf()
        &&& forall|id: usize|
            self.strands@.contains_key(id) ==> (#[trigger] self.strands@[id]).wf()
    }

    /// An empty document.
    pub fn new() -> (r: Design)
        ensures
            r.wf(),
            r.strands@ == Map::<usize, StrandV>::empty(),
            r.helices@ == Map::<usize, Helix>::empty(),
            r.grids@.len() == 0,
            r.scaffold_id is None,
    {
        Design {
            strands: IdVec::new(),
            helices: IdVec::new(),
            grids: Vec::new(),
            scaffold_id: None,
            scaffold_sequence: None,
            scaffold_shift: None,
            no_phantoms: IdSet::new(),
            small_spheres: IdSet::new(),
        }
    }

    /// The identifier of the strand that holds `nucl`: the least one, if
    /// several strands were (erroneously) to overlap.
    pub fn get_strand_nucl(&self, nucl: &Nucl) -> (r: Option<usize>)
        requires
            self.wf(),
        ensures
            r matches Some(id) ==> self.strands@.contains_key(id) && strand_has_nucl(
                self.strands@[id],
                *nucl,
            ) && forall|id2: usize|
                id2 < id && self.strands@.contains_key(id2) ==> !strand_has_nucl(
                    #[trigger] self.strands@[id2],
                    *nucl,
                ),
            r is None ==> forall|id: usize|
                self.strands@.contains_key(id) ==> !strand_has_nucl(
                    #[trigger] self.strands@[id],
                    *nucl,
                ),
    {
        let n = self.strands.entries.len();
        let mut i: usize = 0;
        while i < n
            invariant
                self.wf(),
                n == self.strands.entries.len(),
                0 <= i <= n,
                forall|j: int|
                    0 <= j < i ==> !strand_has_nucl(
                        (#[trigger] self.strands.entries@[j]).1@,
                        *nucl,
                    ),
            decreases n - i,
        {
            proof {
                crate::idvec::lemma_map_of_index(self.strands.entries@, i as int);
                assert(self.strands@[self.strands.entries@[i as int].0].wf());
            }
            if self.strands.entries[i].1.find_nucl(nucl).is_some() {
                let found = self.strands.entries[i].0;
                proof {
                    assert forall|id2: usize|
                        id2 < found && self.strands@.contains_key(id2) implies !strand_has_nucl(
                        #[trigger] self.strands@[id2],
                        *nucl,
                    ) by {
                        crate::idvec::lemma_map_of_domain(self.strands.entries@, id2);
                        let j = choose|j: int|
                            0 <= j < self.strands.entries@.len()
                                && (#[trigger] self.strands.entries@[j].0) == id2;
                        assert(j < i);
                        crate::idvec::lemma_map_of_index(self.strands.entries@, j);
                    }
                }
                return Some(found);
            }
            i = i + 1;
        }
        proof {
            assert forall|id: usize|
                self.strands@.contains_key(id) implies !strand_has_nucl(
                #[trigger] self.strands@[id],
                *nucl,
            ) by {
                crate::idvec::lemma_map_of_domain(self.strands.entries@, id);
                let j = choose|j: int|
                    0 <= j < self.strands.entries@.len()
                        && (#[trigger] self.strands.entries@[j].0) == id;
                crate::idvec::lemma_map_of_index(self.strands.entries@, j);
            }
        }
        None
    }

    /// The strands of the design in id order, as mathematical values.
    pub open spec fn strands_in_order(self) -> Seq<StrandV> {
        self.strands.entries@.map_values(|e: (usize, Strand)| e.1@)
    }

    /// Where `nucl` stands among the strand ends: the value of the
    /// deterministic scan [`end_scan`] over the strands in id order.
    pub open spec fn strand_end_spec(self, nucl: Nucl) -> Extremity {
        end_scan(self.strands_in_order(), nucl, 0)
    }

    /// Whether `nucl` is a free end of the strand that holds it: scans
    /// the linear strands for one whose 5' or 3' extremity is `nucl`.
    pub fn is_strand_end(&self, nucl: &Nucl) -> (r: Extremity)
        requires
            self.wf(),
        ensures
            r == self.strand_end_spec(*nucl),
            r == Extremity::Prime5 ==> exists|id: usize|
                self.strands@.contains_key(id) && !(#[trigger] self.strands@[id]).cyclic
                    && self.strands@[id].nucls().len() > 0 && self.strands@[id].nucls()[0] == *nucl,
            r == Extremity::Prime3 ==> exists|id: usize|
                self.strands@.contains_key(id) && !(#[trigger] self.strands@[id]).cyclic
                    && self.strands@[id].nucls().len() > 0 && self.strands@[id].nucls().last()
                    == *nucl,
            r == Extremity::Inside ==> forall|id: usize|
                self.strands@.contains_key(id) && !(#[trigger] self.strands@[id]).cyclic
                    && self.strands@[id].nucls().len() > 0 ==> self.strands@[id].nucls()[0] != *nucl
                    && self.strands@[id].nucls().last() != *nucl,
    {
        let n = self.strands.entries.len();
        let mut i: usize = 0;
        while i < n
            invariant
                self.wf(),
                n == self.strands.entries.len(),
                0 <= i <= n,
                self.strand_end_spec(*nucl) == end_scan(self.strands_in_order(), *nucl, i as int),
                forall|j: int|
                    0 <= j < i ==> {
                        let s = (#[trigger] self.strands.entries@[j]).1@;
                        s.cyclic || s.nucls().len() == 0 || (s.nucls()[0] != *nucl
                            && s.nucls().last() != *nucl)
                    },
            decreases n - i,
        {
            proof {
                crate::idvec::lemma_map_of_index(self.strands.entries@, i as int);
            }
            let strand = &self.strands.entries[i].1;
            if !strand.cyclic {
                if let Some(five) = strand.get_5prime() {
                    if five == *nucl {
                        return Extremity::Prime5;
                    }
                }
                if let Some(three) = strand.get_3prime() {
                    if three == *nucl {
                        return Extremity::Prime3;
                    }
                }
            }
            i = i + 1;
        }
        proof {
            assert forall|id: usize|
                self.strands@.contains_key(id) && !(#[trigger] self.strands@[id]).cyclic
                    && self.strands@[id].nucls().len() > 0 implies self.strands@[id].nucls()[0]
                != *nucl && self.strands@[id].nucls().last() != *nucl by {
                crate::idvec::lemma_map_of_domain(self.strands.entries@, id);
                let j = choose|j: int|
                    0 <= j < self.strands.entries@.len()
                        && (#[trigger] self.strands.entries@[j].0) == id;
                crate::idvec::lemma_map_of_index(self.strands.entries@, j);
            }
        }
        Extremity::Inside
    }

    /// The identifier `max(existing ids) + 1` that the next created
    /// strand receives; `0` in an empty design.
    pub fn next_strand_id(&self) -> (r: usize)
        requires
            self.wf(),
            self.max_strand_id_bound(),
        ensures
            !self.strands@.contains_key(r),
            forall|k: usize| self.strands@.contains_key(k) ==> k < r,
            self.strands@.dom() =~= Set::<usize>::empty() ==> r == 0,
            (exists|k: usize| self.strands@.contains_key(k)) ==> exists|k: usize|
                self.strands@.contains_key(k) && r == k + 1 && forall|k2: usize|
                    self.strands@.contains_key(k2) ==> k2 <= k,
    {
        match self.strands.max_key() {
            Some(m) => m + 1,
            None => 0,
        }
    }

    /// Every strand id leaves room for one more.
    pub open spec fn max_strand_id_bound(self) -> bool {
        forall|k: usize| self.strands@.contains_key(k) ==> k < usize::MAX
    }
}

} // verus!

//! The crossover-id registry: a bijection between crossover identifiers
//! and the ordered pairs of nucleotides they join.
//!
//! Identifiers grow monotonically and are never reused while referenced.
//! The registry is rebuilt from the strands after every edit, carrying
//! the next fresh identifier forward; [`update_junction`] is the rule
//! that re-derives one junction label during that rebuild.

use vstd::prelude::*;

use crate::domain::{DomainJunction, DomainV};
use crate::nucl::Nucl;

verus! {

/// The registry: identifier-sorted entries and the next fresh identifier.
pub struct XoverIds {
    /// The entries, sorted by strictly increasing identifier.
    pub entries: Vec<(usize, (Nucl, Nucl))>,
    /// The next identifier to allocate.
    pub next_id: usize,
}

impl View for XoverIds {
    type V = Seq<(usize, (Nucl, Nucl))>;

    open spec fn view(&self) -> Seq<(usize, (Nucl, Nucl))> {
        self.entries@
    }
}

impl XoverIds {
    /// Identifiers strictly increase, stay below the next fresh one, and
    /// no pair is registered twice: the entries form a bijection.
    pub open spec fn wf(self) -> bool {
        &&& forall|i: int, j: int|
            0 <= i < j < self@.len() ==> self@[i].0 < self@[j].0
        &&& forall|i: int| 0 <= i < self@.len() ==> (#[trigger] self@[i]).0 < self.next_id
        &&& forall|i: int, j: int|
            0 <= i < j < self@.len() ==> self@[i].1 != self@[j].1
    }

    /// Whether some entry binds `id`.
    pub open spec fn has_id(self, id: usize) -> bool {
        exists|i: int| 0 <= i < self@.len() && (#[trigger] self@[i]).0 == id
    }

    /// Whether some entry binds `pair`.
    pub open spec fn has_pair(self, pair: (Nucl, Nucl)) -> bool {
        exists|i: int| 0 <= i < self@.len() && (#[trigger] self@[i]).1 == pair
    }

    /// The empty registry.
    pub fn new() -> (r: XoverIds)
        ensures
            r.wf(),
            r@.len() == 0,
            r.next_id == 0,
    {
        XoverIds { entries: Vec::new(), next_id: 0 }
    }

    /// The identifier bound to `pair`, if any.
    pub fn get_id(&self, pair: &(Nucl, Nucl)) -> (r: Option<usize>)
        requires
            self.wf(),
        ensures
            r matches Some(id) ==> exists|i: int|
                0 <= i < self@.len() && (#[trigger] self@[i]) == (id, *pair),
            r is None ==> !self.has_pair(*pair),
    {
        let n = self.entries.len();
        let mut i: usize = 0;
        while i < n
            invariant
                n == self@.len(),
                0 <= i <= n,
                forall|j: int| 0 <= j < i ==> (#[trigger] self@[j]).1 != *pair,
            decreases n - i,
        {
            if self.entries[i].1.0 == pair.0 && self.entries[i].1.1 == pair.1 {
                return Some(self.entries[i].0);
            }
            i = i + 1;
        }
        None
    }

    /// The pair bound to `id`, if any.
    pub fn get_element(&self, id: usize) -> (r: Option<(Nucl, Nucl)>)
        requires
            self.wf(),
        ensures
            r matches Some(pair) ==> exists|i: int|
                0 <= i < self@.len() && (#[trigger] self@[i]) == (id, pair),
            r is None ==> !self.has_id(id),
    {
        let n = self.entries.len();
        let mut i: usize = 0;
        while i < n
            invariant
                n == self@.len(),
                0 <= i <= n,
                forall|j: int| 0 <= j < i ==> (#[trigger] self@[j]).0 != id,
            decreases n - i,
        {
            if self.entries[i].0 == id {
                return Some(self.entries[i].1);
            }
            i = i + 1;
        }
        None
    }

    /// The identifier of `pair`, registering it under the next fresh
    /// identifier when it is new.
    pub fn insert(&mut self, pair: (Nucl, Nucl)) -> (r: usize)
        requires
            old(self).wf(),
            old(self).next_id < usize::MAX,
        ensures
            final(self).wf(),
            final(self).has_pair(pair),
            exists|i: int| 0 <= i < final(self)@.len() && (#[trigger] final(self)@[i]) == (r, pair),
            old(self).has_pair(pair) ==> final(self)@ == old(self)@ && final(self).next_id == old(
                self,
            ).next_id,
            !old(self).has_pair(pair) ==> final(self)@ == old(self)@.push((old(self).next_id, pair))
                && r == old(self).next_id && final(self).next_id == old(self).next_id + 1,
    {
        match self.get_id(&pair) {
            Some(id) => {
                proof {
                    let i = choose|i: int|
                        0 <= i < self@.len() && (#[trigger] self@[i]) == (id, pair);
                    assert(self@[i].1 == pair);
                }
                id
            },
            None => {
                let id = self.next_id;
                self.entries.push((id, pair));
                self.next_id = self.next_id + 1;
                proof {
                    assert(self@.drop_last() =~= old(self)@);
                    assert(self@[self@.len() - 1] == (id, pair));
                    assert(self@[self@.len() - 1].1 == pair);
                    assert forall|i: int, j: int|
                        0 <= i < j < self@.len() implies self@[i].0 < self@[j].0 by {}
                }
                id
            },
        }
    }

    /// Register `pair` under the given identifier, unbinding whatever
    /// held that identifier or that pair before, and keep the next fresh
    /// identifier above it.
    pub fn insert_at(&mut self, pair: (Nucl, Nucl), id: usize)
        requires
            old(self).wf(),
            id < usize::MAX,
        ensures
            final(self).wf(),
            final(self).has_pair(pair),
            exists|i: int| 0 <= i < final(self)@.len() && (#[trigger] final(self)@[i]) == (id, pair),
            final(self).next_id >= old(self).next_id,
            final(self).next_id > id,
            final(self).next_id == (if id + 1 > old(self).next_id {
                (id + 1) as usize
            } else {
                old(self).next_id
            }),
    {
        // unbind the identifier and the pair
        let mut kept: Vec<(usize, (Nucl, Nucl))> = Vec::new();
        let n = self.entries.len();
        let mut i: usize = 0;
        while i < n
            invariant
                old(self).wf(),
                self@ == old(self)@,
                n == self@.len(),
                0 <= i <= n,
                forall|a: int|
                    0 <= a < kept@.len() ==> exists|b: int|
                        0 <= b < i && #[trigger] kept@[a] == self@[b],
                forall|a: int, b: int| 0 <= a < b < kept@.len() ==> kept@[a].0 < kept@[b].0,
                forall|a: int, b: int| 0 <= a < b < kept@.len() ==> kept@[a].1 != kept@[b].1,
                forall|a: int| 0 <= a < kept@.len() ==> (#[trigger] kept@[a]).0 < old(self).next_id,
                forall|a: int|
                    0 <= a < kept@.len() ==> (#[trigger] kept@[a]).0 != id && kept@[a].1 != pair,
            decreases n - i,
        {
            let entry = self.entries[i];
            if entry.0 != id && !(entry.1.0 == pair.0 && entry.1.1 == pair.1) {
                let ghost prev = kept@;
                proof {
                    assert forall|a: int|
                        0 <= a < kept@.len() implies (#[trigger] kept@[a]).0 < entry.0
                        && kept@[a].1 != entry.1 by {
                        let b = choose|b: int| 0 <= b < i && #[trigger] kept@[a] == self@[b];
                        assert(self@[b].0 < self@[i as int].0);
                    }
                }
                kept.push(entry);
                proof {
                    assert(kept@.drop_last() =~= prev);
                    assert forall|a: int|
                        0 <= a < kept@.len() implies exists|b: int|
                        0 <= b < i + 1 && #[trigger] kept@[a] == self@[b] by {
                        if a < kept@.len() - 1 {
                            assert(kept@[a] == prev[a]);
                            let b = choose|b: int| 0 <= b < i && #[trigger] prev[a] == self@[b];
                            assert(kept@[a] == self@[b]);
                        } else {
                            assert(kept@[a] == self@[i as int]);
                        }
                    }
                }
            }
            i = i + 1;
        }
        // insert the binding at its sorted position
        let m = kept.len();
        let mut pos: usize = 0;
        while pos < m && kept[pos].0 < id
            invariant
                m == kept@.len(),
                0 <= pos <= m,
                forall|a: int, b: int| 0 <= a < b < kept@.len() ==> kept@[a].0 < kept@[b].0,
                forall|a: int, b: int| 0 <= a < b < kept@.len() ==> kept@[a].1 != kept@[b].1,
                forall|a: int| 0 <= a < kept@.len() ==> (#[trigger] kept@[a]).0 < old(self).next_id,
                forall|a: int|
                    0 <= a < kept@.len() ==> (#[trigger] kept@[a]).0 != id && kept@[a].1 != pair,
                forall|a: int| 0 <= a < pos ==> (#[trigger] kept@[a]).0 < id,
            decreases m - pos,
        {
            pos = pos + 1;
        }
        let ghost before = kept@;
        kept.insert(pos, (id, pair));
        proof {
            assert(kept@ =~= before.take(pos as int) + seq![(id, pair)] + before.skip(pos as int));
            assert(kept@[pos as int] == (id, pair));
            assert(kept@[pos as int].1 == pair);
            assert forall|a: int, b: int|
                0 <= a < b < kept@.len() implies kept@[a].0 < kept@[b].0 by {
                if a < pos && b > pos {
                    assert(kept@[a] == before[a]);
                    assert(kept@[b] == before[b - 1]);
                    assert(before[b - 1].0 > id || b - 1 >= pos);
                }
            }
        }
        self.entries = kept;
        if id >= self.next_id {
            self.next_id = id + 1;
        }
        proof {
            assert forall|i: int|
                0 <= i < self@.len() implies (#[trigger] self@[i]).0 < self.next_id by {}
        }
    }

    /// Every binding of the registry, in identifier order.
    pub fn get_all_elements(&self) -> (r: Vec<(usize, (Nucl, Nucl))>)
        requires
            self.wf(),
        ensures
            r@ == self@,
    {
        let n = self.entries.len();
        let mut r: Vec<(usize, (Nucl, Nucl))> = Vec::new();
        let mut i: usize = 0;
        while i < n
            invariant
                n == self@.len(),
                0 <= i <= n,
                r@ =~= self@.take(i as int),
            decreases n - i,
        {
            r.push(self.entries[i]);
            i = i + 1;
        }
        proof {
            assert(self@.take(n as int) =~= self@);
        }
        r
    }

    /// Hand this registry's next fresh identifier to a rebuilt registry,
    /// so identifiers keep growing across rebuilds.
    pub fn copy_next_id_to(&self, other: &mut XoverIds)
        requires
            old(other).wf(),
            forall|i: int| 0 <= i < old(other)@.len() ==> (#[trigger] old(other)@[i]).0 < self.next_id,
        ensures
            final(other).wf(),
            final(other)@ == old(other)@,
            final(other).next_id == self.next_id,
    {
        other.next_id = self.next_id;
        proof {
            assert(other@ == old(other)@);
            assert forall|i: int|
                0 <= i < other@.len() implies (#[trigger] other@[i]).0 < other.next_id by {
                assert(old(other)@[i].0 < self.next_id);
            }
        }
    }
}

/// Re-derive one junction label during a rebuild: a bond between
/// non-consecutive nucleotides is a crossover and gets a registered
/// identifier (keeping its old one when it had one); a bond between
/// consecutive nucleotides on one helix is adjacent.
pub fn update_junction(
    new_xover_ids: &mut XoverIds,
    junction: &mut DomainJunction,
    bond: (Nucl, Nucl),
)
    requires
        old(new_xover_ids).wf(),
        old(new_xover_ids).next_id < usize::MAX,
        bond.0.can_step_3(),
        *old(junction) != DomainJunction::Prime3,
        (match *old(junction) {
            DomainJunction::IdentifiedXover(id) => id < usize::MAX,
            _ => true,
        }),
    ensures
        final(new_xover_ids).wf(),
        ({
            let is_xover = bond.0.prime3_spec() != bond.1;
            if is_xover {
                let ids_after = *final(new_xover_ids);
                *final(junction) matches DomainJunction::IdentifiedXover(id) && ids_after.has_pair(
                    bond,
                ) && exists|i: int|
                    0 <= i < ids_after@.len() && (#[trigger] ids_after@[i]) == (id, bond)
            } else {
                *final(junction) == DomainJunction::Adjacent
                    && final(new_xover_ids)@ == old(new_xover_ids)@
            }
        }),
        // the next fresh identifier grows by at most one, or up to just
        // past a kept identifier
        final(new_xover_ids).next_id <= old(new_xover_ids).next_id + 1 || ((*old(junction))
            matches DomainJunction::IdentifiedXover(id) && final(new_xover_ids).next_id <= id + 1),
        // a label that already carried an identifier keeps it
        bond.0.prime3_spec() != bond.1 && (*old(junction) matches DomainJunction::IdentifiedXover(
            id,
        )) ==> *final(junction) == *old(junction) && (exists|i: int|
            0 <= i < final(new_xover_ids)@.len() && (#[trigger] final(new_xover_ids)@[i]) == (
            old(junction)->IdentifiedXover_0,
            bond,
        )),
        // a label without one gets the registry's identifier for the
        // pair: the existing binding, or a fresh one when the pair is new
        bond.0.prime3_spec() != bond.1 && !(*old(junction) is IdentifiedXover) ==> ({
            let ids_before = *old(new_xover_ids);
            if ids_before.has_pair(bond) {
                final(new_xover_ids)@ == ids_before@ && (exists|i: int|
                    0 <= i < ids_before@.len() && (#[trigger] ids_before@[i]) == (
                    final(junction)->IdentifiedXover_0,
                    bond,
                ))
            } else {
                let ids_after = *final(new_xover_ids);
                *final(junction) == DomainJunction::IdentifiedXover(ids_before.next_id)
                    && ids_after@ == ids_before@.push((ids_before.next_id, bond))
                    && ids_after.next_id == ids_before.next_id + 1
            }
        }),
{
    let is_xover = bond.0.prime3() != bond.1;
    match *junction {
        DomainJunction::Adjacent => {
            if is_xover {
                let id = new_xover_ids.insert(bond);
                *junction = DomainJunction::IdentifiedXover(id);
            }
        },
        DomainJunction::UnidentifiedXover => {
            if !is_xover {
                *junction = DomainJunction::Adjacent;
            } else {
                let id = new_xover_ids.insert(bond);
                *junction = DomainJunction::IdentifiedXover(id);
            }
        },
        DomainJunction::IdentifiedXover(id) => {
            if !is_xover {
                *junction = DomainJunction::Adjacent;
            } else {
                new_xover_ids.insert_at(bond, id);
                *junction = DomainJunction::IdentifiedXover(id);
            }
        },
        DomainJunction::Prime3 => {
            proof {
                assert(false);
            }
        },
    }
}

/// The junction label shape a bond deserves: a crossover bond carries an
/// identifier, a bond between consecutive nucleotides on one helix is
/// adjacent.
pub open spec fn junction_shape_for(j: DomainJunction, bond: (Nucl, Nucl)) -> bool {
    if bond.0.prime3_spec() != bond.1 {
        j is IdentifiedXover
    } else {
        j == DomainJunction::Adjacent
    }
}

/// Re-derive the junction labels between a strand's consecutive domains
/// from the nucleotide-level structure, registering every crossover:
/// the rebuild that follows each edit runs this over every strand.
/// Every junction whose bond can be read (both neighbouring prime ends
/// exist and the label is not the terminal one) receives the label the
/// bond deserves, keeping an identifier it already carried; the label of
/// the last domain (the terminal label of a linear strand, or the seam
/// of a cyclic one) is left to the caller.
pub fn update_strand_junctions(strand: &mut crate::strand::Strand, ids: &mut XoverIds)
    requires
        old(strand)@.wf(),
        old(ids).wf(),
        old(ids).next_id <= usize::MAX - old(strand)@.domains.len(),
        forall|j: int|
            0 <= j < old(strand)@.junctions.len() ==> ((#[trigger] old(strand)@.junctions[j])
                matches DomainJunction::IdentifiedXover(id) ==> id <= usize::MAX - old(
                strand,
            )@.domains.len()),
    ensures
        final(strand)@.wf(),
        final(ids).wf(),
        final(strand)@.domains == old(strand)@.domains,
        final(strand)@.cyclic == old(strand)@.cyclic,
        final(strand)@.junctions.len() == old(strand)@.junctions.len(),
        forall|j: int|
            0 <= j < final(strand)@.junctions.len() ==> (#[trigger] final(strand)@.junctions[j])
                == (rebuilt_junction(
                old(strand)@.domains,
                old(strand)@.junctions,
                final(strand)@.junctions[j],
                j,
            )) && (rebuilt_here(old(strand)@.domains, old(strand)@.junctions, j)
                ==> junction_shape_for(
                final(strand)@.junctions[j],
                (
                    old(strand)@.domains[j].prime3_end().unwrap(),
                    old(strand)@.domains[j + 1].prime5_end().unwrap(),
                ),
            ) && ((old(strand)@.junctions[j] matches DomainJunction::IdentifiedXover(id)
                && old(strand)@.domains[j].prime3_end().unwrap().prime3_spec() != old(
                strand,
            )@.domains[j + 1].prime5_end().unwrap()) ==> final(strand)@.junctions[j] == old(
                strand,
            )@.junctions[j])),
{
    let n = strand.domains.len();
    if n == 0 {
        return ;
    }
    let ghost old_doms = strand@.domains;
    let ghost old_juncs = strand@.junctions;
    let mut i: usize = 0;
    while i < n - 1
        invariant
            strand@.wf(),
            ids.wf(),
            old_doms == strand@.domains,
            strand@.cyclic == old(strand)@.cyclic,
            old_doms == old(strand)@.domains,
            old_juncs == old(strand)@.junctions,
            strand@.junctions.len() == old_juncs.len(),
            n == old_doms.len(),
            1 <= n,
            0 <= i <= n - 1,
            ids.next_id + (n - 1 - i) <= usize::MAX,
            forall|j: int|
                0 <= j < old_juncs.len() ==> ((#[trigger] old_juncs[j])
                    matches DomainJunction::IdentifiedXover(id) ==> id <= usize::MAX - n),
            forall|j: int|
                i <= j < strand@.junctions.len() ==> (#[trigger] strand@.junctions[j])
                    == old_juncs[j],
            forall|j: int|
                0 <= j < i ==> !rebuilt_here(old_doms, old_juncs, j) ==> (
                #[trigger] strand@.junctions[j]) == old_juncs[j],
            forall|j: int|
                0 <= j < i ==> rebuilt_here(old_doms, old_juncs, j) ==> junction_shape_for(
                    #[trigger] strand@.junctions[j],
                    (old_doms[j].prime3_end().unwrap(), old_doms[j + 1].prime5_end().unwrap()),
                ) && ((old_juncs[j] matches DomainJunction::IdentifiedXover(id)
                    && old_doms[j].prime3_end().unwrap().prime3_spec() != old_doms[j
                    + 1].prime5_end().unwrap()) ==> strand@.junctions[j] == old_juncs[j]),
        decreases n - i,
    {
        proof {
            assert(strand@.domains[i as int].wf());
            assert(strand@.domains[i + 1].wf());
        }
        let prime3 = strand.domains[i].prime3_end();
        let prime5 = strand.domains[i + 1].prime5_end();
        if let (Some(p3), Some(p5)) = (prime3, prime5) {
            let current = strand.junctions[i];
            if current != DomainJunction::Prime3 {
                proof {
                    assert(p3.can_step_3());
                    assert(old_juncs[i as int] == current);
                }
                let mut junction = current;
                update_junction(ids, &mut junction, (p3, p5));
                strand.junctions.set(i, junction);
            }
        }
        i = i + 1;
    }
}

/// Whether the rebuild re-derives the label at index `j`: the bond
/// between domains `j` and `j + 1` can be read and the label is not the
/// terminal one.
pub open spec fn rebuilt_here(doms: Seq<DomainV>, juncs: Seq<DomainJunction>, j: int) -> bool {
    &&& 0 <= j
    &&& j + 1 < doms.len()
    &&& doms[j].prime3_end() is Some
    &&& doms[j + 1].prime5_end() is Some
    &&& juncs[j] != DomainJunction::Prime3
}

/// The label the rebuild leaves at index `j`: re-derived where the bond
/// can be read, untouched otherwise.
pub open spec fn rebuilt_junction(
    doms: Seq<DomainV>,
    juncs: Seq<DomainJunction>,
    new_label: DomainJunction,
    j: int,
) -> DomainJunction {
    if rebuilt_here(doms, juncs, j) {
        new_label
    } else {
        juncs[j]
    }
}

} // verus!

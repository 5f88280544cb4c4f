//! The strand mutation algorithms: split, break-cycle, merge,
//! make-cycle, cross-cut and generalized crossover.
//!
//! Every algorithm takes the document by mutable reference and either
//! rewrites the strand map or fails, leaving the document untouched.

use vstd::prelude::*;

use crate::design::{Design, GridPosition};
use crate::domain::{
    dom_adjacent, dom_merged, dom_split, seq_cut_left, seq_cut_right, Domain, DomainJunction,
    DomainV,
};
use crate::nucl::{Extremity, Nucl};
use crate::strand::{
    all_domains_wf, lemma_nucls_of_add, lemma_nucls_of_singleton, lemma_total_len_add,
    lemma_total_len_bounds, lemma_total_len_singleton, nucls_of, strand_has_nucl, total_len,
    Strand, StrandV,
};

verus! {

/// Why an edit was rejected.  None of these corrupt the document: the
/// snapshot handed in is returned unchanged.
#[derive(Clone, Copy, Debug, PartialEq, Eq, Structural)]
pub enum ErrOperation {
    /// The operation is recognized but not handled by this code path.
    NotImplemented,
    /// The operation cannot be applied on the current selection.
    BadSelection,
    /// The session is in a state incompatible with the operation.
    IncompatibleState,
    /// No strand can be built on this nucleotide.
    CannotBuildOn(Nucl),
    /// The nucleotide to cut at belongs to no strand that can be cut.
    CutInexistingStrand,
    /// The grid with this identifier does not exist.
    GridDoesNotExist(usize),
    /// The grid slot is already occupied by a helix.
    GridPositionAlreadyUsed,
    /// The strand with this identifier does not exist.
    StrandDoesNotExist(usize),
    /// The helix with this identifier does not exist.
    HelixDoesNotExists(usize),
    /// The helix with this identifier is attached to no grid.
    HelixHasNoGridPosition(usize),
    /// No edge joins the two grid slots.
    CouldNotMakeEdge(GridPosition, GridPosition),
    /// Merging a strand with itself: closing the cycle is the intended
    /// operation instead.
    MergingSameStrand,
    /// A crossover must join two distinct helices.
    XoverOnSameHelix,
    /// The nucleotide does not exist in the design.
    NuclDoesNotExist(Nucl),
    /// Both nucleotides of the requested crossover are 5' ends.
    XoverBetweenTwoPrime5,
    /// Both nucleotides of the requested crossover are 3' ends.
    XoverBetweenTwoPrime3,
    /// The clipboard content could not be turned into templates.
    CouldNotCreateTemplates,
    /// The duplication edges could not be computed.
    CouldNotCreateEdges,
    /// The copy origin is empty.
    EmptyOrigin,
    /// Nothing is in the clipboard.
    EmptyClipboard,
    /// The pasted strands cannot be placed here.
    CannotPasteHere,
}

/// Where a strand is divided, as found by scanning its domains in 5' to
/// 3' order.
#[derive(Clone, Copy, Debug, PartialEq, Eq, Structural)]
pub enum SplitPlan {
    /// The cut falls before this domain; the nucleotide sits on the 3'
    /// side of a crossover.
    BeforeDomain(usize),
    /// The cut falls after this domain; the nucleotide sits on the 5'
    /// side of a crossover.
    AfterDomain(usize),
    /// The cut falls inside this domain, after its `k`-th nucleotide
    /// (second field, counted from the 5' end).
    WithinDomain(usize, usize),
    /// No domain of the strand holds the nucleotide.
    NotFound,
}

/// The helix of the domain before `i`, if any: what the scan remembers
/// to tell a crossover from a same-helix boundary.
pub open spec fn prev_helix(s: StrandV, i: int) -> Option<usize> {
    if i == 0 {
        None
    } else {
        s.domains[i - 1].helix()
    }
}

/// The scan of the splitting rule from domain `i` on: the first domain
/// whose 5' end is the nucleotide on a crossover's 3' side (unless the
/// 5' half is forced), else whose 3' end is the nucleotide (unless the
/// 3' half is forced), else that holds the nucleotide strictly.
pub open spec fn split_plan_from(s: StrandV, nucl: Nucl, force_end: Option<bool>, i: int) -> SplitPlan
    decreases s.domains.len() - i,
{
    if i < 0 || i >= s.domains.len() {
        SplitPlan::NotFound
    } else {
        let d = s.domains[i];
        if d.prime5_end() == Some(nucl) && prev_helix(s, i) != d.helix() && force_end != Some(false) {
            SplitPlan::BeforeDomain(i as usize)
        } else if d.prime3_end() == Some(nucl) && force_end != Some(true) {
            SplitPlan::AfterDomain(i as usize)
        } else if d.find_index(nucl) is Some {
            let raw = d.find_index(nucl).unwrap();
            if force_end == Some(true) && raw == 1 {
                SplitPlan::BeforeDomain(i as usize)
            } else {
                SplitPlan::WithinDomain(
                    i as usize,
                    if force_end == Some(true) {
                        (raw - 1) as usize
                    } else {
                        raw as usize
                    },
                )
            }
        } else {
            split_plan_from(s, nucl, force_end, i + 1)
        }
    }
}

/// Where the strand is divided when split at `nucl`.
pub open spec fn split_plan(s: StrandV, nucl: Nucl, force_end: Option<bool>) -> SplitPlan {
    split_plan_from(s, nucl, force_end, 0)
}

/// The scan finds a place whenever some domain holds the nucleotide.
pub proof fn lemma_scan_finds(s: StrandV, nucl: Nucl, force_end: Option<bool>, j: int, i: int)
    requires
        0 <= j <= i < s.domains.len(),
        s.domains[i].find_index(nucl) is Some,
    ensures
        split_plan_from(s, nucl, force_end, j) != SplitPlan::NotFound,
    decreases i - j,
{
    if j < i {
        lemma_scan_finds(s, nucl, force_end, j + 1, i);
    }
}

/// An interior division leaves at least one nucleotide on each side: a
/// cut forced onto the 3' half at a domain's first nucleotide falls back
/// to cutting before the whole domain, so this holds of every division
/// (see [`lemma_split_safe`]).
pub open spec fn split_safe(s: StrandV, nucl: Nucl, force_end: Option<bool>) -> bool {
    match split_plan(s, nucl, force_end) {
        SplitPlan::WithinDomain(_, k) => k >= 1,
        _ => true,
    }
}

/// Every division is safe: [`split_safe`] always holds.
pub proof fn lemma_split_safe(s: StrandV, nucl: Nucl, force_end: Option<bool>, j: int)
    requires
        0 <= j,
        all_domains_wf(s.domains),
        s.domains.len() <= usize::MAX,
    ensures
        (match split_plan_from(s, nucl, force_end, j) {
            SplitPlan::WithinDomain(_, k) => k >= 1,
            _ => true,
        }),
    decreases s.domains.len() - j,
{
    if j < s.domains.len() {
        let d = s.domains[j];
        if d.prime5_end() == Some(nucl) && prev_helix(s, j) != d.helix() && force_end != Some(
            false,
        ) {
        } else if d.prime3_end() == Some(nucl) && force_end != Some(true) {
        } else if d.find_index(nucl) is Some {
            let raw = d.find_index(nucl).unwrap();
            assert(raw >= 1);
        } else {
            lemma_split_safe(s, nucl, force_end, j + 1);
        }
    }
}

/// Whether the half of the strand that holds the nucleotide is the 3'
/// half; that half keeps the strand's identifier.
pub open spec fn on_3prime_side(plan: SplitPlan, force_end: Option<bool>) -> bool {
    plan is BeforeDomain || force_end == Some(true)
}

/// Number of nucleotides on the 5' side of the division.
pub open spec fn five_prime_len(s: StrandV, plan: SplitPlan) -> int {
    match plan {
        SplitPlan::BeforeDomain(i) => total_len(s.domains.take(i as int)),
        SplitPlan::AfterDomain(i) => total_len(s.domains.take(i + 1)),
        SplitPlan::WithinDomain(i, k) => total_len(s.domains.take(i as int)) + k,
        SplitPlan::NotFound => 0,
    }
}

/// The 5' half of a linear strand split at `nucl`.
pub open spec fn five_prime_half(s: StrandV, nucl: Nucl, force_end: Option<bool>) -> StrandV {
    let plan = split_plan(s, nucl, force_end);
    let keeps_name = !on_3prime_side(plan, force_end);
    StrandV {
        domains: match plan {
            SplitPlan::BeforeDomain(i) => s.domains.take(i as int),
            SplitPlan::AfterDomain(i) => s.domains.take(i + 1),
            SplitPlan::WithinDomain(i, k) => s.domains.take(i as int).push(
                dom_split(s.domains[i as int], k as int).unwrap().0,
            ),
            SplitPlan::NotFound => s.domains,
        },
        junctions: match plan {
            SplitPlan::BeforeDomain(i) => if i == 0 {
                Seq::empty()
            } else {
                s.junctions.take(i as int).update(i - 1, DomainJunction::Prime3)
            },
            SplitPlan::AfterDomain(i) => s.junctions.take(i as int).push(DomainJunction::Prime3),
            SplitPlan::WithinDomain(i, _) => s.junctions.take(i as int).push(
                DomainJunction::Prime3,
            ),
            SplitPlan::NotFound => s.junctions,
        },
        cyclic: false,
        color: s.color,
        sequence: seq_cut_left(s.sequence, five_prime_len(s, plan)),
        name: if keeps_name {
            s.name
        } else {
            None
        },
    }
}

/// The 3' half of a linear strand split at `nucl`.
pub open spec fn three_prime_half(s: StrandV, nucl: Nucl, force_end: Option<bool>) -> StrandV {
    let plan = split_plan(s, nucl, force_end);
    let keeps_name = on_3prime_side(plan, force_end);
    StrandV {
        domains: match plan {
            SplitPlan::BeforeDomain(i) => s.domains.skip(i as int),
            SplitPlan::AfterDomain(i) => s.domains.skip(i + 1),
            SplitPlan::WithinDomain(i, k) => seq![
                dom_split(s.domains[i as int], k as int).unwrap().1,
            ] + s.domains.skip(i + 1),
            SplitPlan::NotFound => s.domains,
        },
        junctions: match plan {
            SplitPlan::BeforeDomain(i) => s.junctions.skip(i as int),
            SplitPlan::AfterDomain(i) => s.junctions.skip(i + 1),
            SplitPlan::WithinDomain(i, _) => seq![s.junctions[i as int]] + s.junctions.skip(i + 1),
            SplitPlan::NotFound => s.junctions,
        },
        cyclic: false,
        color: s.color,
        sequence: seq_cut_right(s.sequence, five_prime_len(s, plan)),
        name: if keeps_name {
            s.name
        } else {
            None
        },
    }
}

/// The strand map after a linear strand `id` was split at `nucl`: the
/// half holding the nucleotide keeps `id`, the other half is stored
/// under `new_id`, and an empty half is dropped.
pub open spec fn split_map(
    m: Map<usize, StrandV>,
    id: usize,
    new_id: usize,
    nucl: Nucl,
    force_end: Option<bool>,
) -> Map<usize, StrandV> {
    let s = m[id];
    let plan = split_plan(s, nucl, force_end);
    let five = five_prime_half(s, nucl, force_end);
    let three = three_prime_half(s, nucl, force_end);
    let id5 = if on_3prime_side(plan, force_end) {
        new_id
    } else {
        id
    };
    let id3 = if on_3prime_side(plan, force_end) {
        id
    } else {
        new_id
    };
    let m1 = m.remove(id);
    let m2 = if five.domains.len() > 0 {
        m1.insert(id5, five)
    } else {
        m1
    };
    if three.domains.len() > 0 {
        m2.insert(id3, three)
    } else {
        m2
    }
}

/// The linear strand left when a cyclic strand is broken at `nucl`: its
/// domains are rotated to start right after the division and its final
/// junction becomes the terminal label.
pub open spec fn broken_strand(s: StrandV, nucl: Nucl, force_end: Option<bool>) -> StrandV {
    let plan = split_plan(s, nucl, force_end);
    let last = match plan {
        SplitPlan::BeforeDomain(i) => if i == 0 {
            s.domains.len() - 1
        } else {
            i - 1
        },
        SplitPlan::AfterDomain(i) => i as int,
        SplitPlan::WithinDomain(i, _) => i as int,
        SplitPlan::NotFound => 0,
    };
    let replace = match plan {
        SplitPlan::WithinDomain(i, k) => dom_split(s.domains[i as int], k as int),
        _ => None,
    };
    StrandV {
        domains: match replace {
            Some(p) => seq![p.1] + s.domains.skip(last + 1) + s.domains.take(last) + seq![p.0],
            None => s.domains.skip(last + 1) + s.domains.take(last) + seq![s.domains[last]],
        },
        junctions: match replace {
            Some(_) => seq![s.junctions[last]] + s.junctions.skip(last + 1) + s.junctions.take(
                last,
            ) + seq![DomainJunction::Prime3],
            None => s.junctions.skip(last + 1) + s.junctions.take(last) + seq![
                DomainJunction::Prime3,
            ],
        },
        cyclic: false,
        color: s.color,
        sequence: s.sequence,
        name: s.name,
    }
}

/// Nothing of the design but its strand map differs between `a` and `b`.
pub open spec fn same_but_strands(a: Design, b: Design) -> bool {
    &&& a.helices@ == b.helices@
    &&& a.grids@ == b.grids@
    &&& a.scaffold_id == b.scaffold_id
    &&& match (a.scaffold_sequence, b.scaffold_sequence) {
        (Some(x), Some(y)) => x@ == y@,
        (None, None) => true,
        _ => false,
    }
    &&& a.scaffold_shift == b.scaffold_shift
    &&& a.no_phantoms@ == b.no_phantoms@
    &&& a.small_spheres@ == b.small_spheres@
}

/// The two designs hold the same value.
pub open spec fn same_design(a: Design, b: Design) -> bool {
    same_but_strands(a, b) && a.strands@ == b.strands@
}

/// `id` is the least strand identifier whose strand holds `nucl`.
pub open spec fn first_holder(m: Map<usize, StrandV>, id: usize, nucl: Nucl) -> bool {
    &&& m.contains_key(id)
    &&& strand_has_nucl(m[id], nucl)
    &&& forall|id2: usize|
        id2 < id && m.contains_key(id2) ==> !strand_has_nucl(#[trigger] m[id2], nucl)
}

/// Some strand of the map holds `nucl`.
pub open spec fn some_holder(m: Map<usize, StrandV>, nucl: Nucl) -> bool {
    exists|id: usize| m.contains_key(id) && strand_has_nucl(#[trigger] m[id], nucl)
}

/// The largest strand identifier in use.
pub open spec fn max_key_of(m: Map<usize, StrandV>) -> usize {
    choose|mk: usize|
        m.contains_key(mk) && forall|k: usize| #[trigger] m.contains_key(k) ==> k <= mk
}

/// The identifier a freshly created strand receives.
pub open spec fn fresh_id(m: Map<usize, StrandV>) -> usize {
    (max_key_of(m) + 1) as usize
}

/// The two pieces of a divided domain hold exactly its nucleotides.
pub proof fn lemma_dom_split_content(d: DomainV, k: int)
    requires
        d.wf(),
        dom_split(d, k) is Some,
    ensures
        dom_split(d, k).unwrap().0.wf(),
        dom_split(d, k).unwrap().1.wf(),
        dom_split(d, k).unwrap().0.len() == k,
        dom_split(d, k).unwrap().1.len() == d.len() - k,
        dom_split(d, k).unwrap().0.nucls() + dom_split(d, k).unwrap().1.nucls() == d.nucls(),
{
    let a = dom_split(d, k).unwrap().0;
    let b = dom_split(d, k).unwrap().1;
    assert(a.nucls() + b.nucls() =~= d.nucls());
}

/// A strand's nucleotides and count are exactly those of its two halves.
///
/// This is the conservation half of the splitting story: dividing a
/// linear strand neither creates nor destroys nucleotides, and the two
/// halves read in order spell the original strand.
pub proof fn lemma_split_halves(s: StrandV, nucl: Nucl, force_end: Option<bool>)
    requires
        s.wf(),
        !s.cyclic,
        split_plan(s, nucl, force_end) != SplitPlan::NotFound,
        split_safe(s, nucl, force_end),
    ensures
        five_prime_half(s, nucl, force_end).wf(),
        three_prime_half(s, nucl, force_end).wf(),
        five_prime_half(s, nucl, force_end).length() + three_prime_half(s, nucl, force_end).length()
            == s.length(),
        five_prime_half(s, nucl, force_end).nucls() + three_prime_half(s, nucl, force_end).nucls()
            == s.nucls(),
{
    let plan = split_plan(s, nucl, force_end);
    lemma_total_len_bounds(s.domains);
    lemma_plan_in_bounds(s, nucl, force_end, 0);
    match plan {
        SplitPlan::BeforeDomain(iu) => {
            lemma_split_halves_boundary(s, nucl, force_end, iu as int);
        },
        SplitPlan::AfterDomain(iu) => {
            lemma_split_halves_boundary(s, nucl, force_end, iu + 1);
        },
        SplitPlan::WithinDomain(iu, ku) => {
            lemma_split_halves_within(s, nucl, force_end, iu as int, ku as int);
        },
        SplitPlan::NotFound => {},
    }
}

/// The boundary cases of [`lemma_split_halves`]: the cut falls between
/// domains `cut - 1` and `cut`.
proof fn lemma_split_halves_boundary(s: StrandV, nucl: Nucl, force_end: Option<bool>, cut: int)
    requires
        s.wf(),
        !s.cyclic,
        ({
            let plan = split_plan(s, nucl, force_end);
            (plan matches SplitPlan::BeforeDomain(i) && i == cut && cut < s.domains.len()) || (plan
                matches SplitPlan::AfterDomain(i) && i + 1 == cut && cut <= s.domains.len())
        }),
    ensures
        five_prime_half(s, nucl, force_end).wf(),
        three_prime_half(s, nucl, force_end).wf(),
        five_prime_half(s, nucl, force_end).length() + three_prime_half(s, nucl, force_end).length()
            == s.length(),
        five_prime_half(s, nucl, force_end).nucls() + three_prime_half(s, nucl, force_end).nucls()
            == s.nucls(),
{
    let five = five_prime_half(s, nucl, force_end);
    let three = three_prime_half(s, nucl, force_end);
    let doms = s.domains;
    assert(doms.take(cut) + doms.skip(cut) =~= doms);
    lemma_total_len_add(doms.take(cut), doms.skip(cut));
    lemma_nucls_of_add(doms.take(cut), doms.skip(cut));
    assert(all_domains_wf(five.domains));
    assert(all_domains_wf(three.domains));
    assert(three.junctions.len() > 0 ==> three.junctions.last() == s.junctions.last());
    lemma_total_len_bounds(doms.take(cut));
    lemma_total_len_bounds(doms.skip(cut));
}

/// The interior case of [`lemma_split_halves`]: the cut falls inside
/// domain `i`, after its `k`-th nucleotide.
#[verifier::rlimit(50)]
proof fn lemma_split_halves_within(s: StrandV, nucl: Nucl, force_end: Option<bool>, i: int, k: int)
    requires
        s.wf(),
        !s.cyclic,
        split_plan(s, nucl, force_end) == SplitPlan::WithinDomain(i as usize, k as usize),
        0 <= i < s.domains.len(),
        1 <= k < s.domains[i].len(),
        i == i as usize as int,
        k == k as usize as int,
        dom_split(s.domains[i], k) is Some,
    ensures
        five_prime_half(s, nucl, force_end).wf(),
        three_prime_half(s, nucl, force_end).wf(),
        five_prime_half(s, nucl, force_end).length() + three_prime_half(s, nucl, force_end).length()
            == s.length(),
        five_prime_half(s, nucl, force_end).nucls() + three_prime_half(s, nucl, force_end).nucls()
            == s.nucls(),
{
    let five = five_prime_half(s, nucl, force_end);
    let three = three_prime_half(s, nucl, force_end);
    let doms = s.domains;
    let d = doms[i];
    let a = dom_split(d, k).unwrap().0;
    let b = dom_split(d, k).unwrap().1;
    lemma_dom_split_content(d, k);
    assert(doms.take(i) + seq![d] + doms.skip(i + 1) =~= doms);
    lemma_total_len_add(doms.take(i) + seq![d], doms.skip(i + 1));
    lemma_total_len_add(doms.take(i), seq![d]);
    lemma_total_len_singleton(d);
    lemma_nucls_of_add(doms.take(i) + seq![d], doms.skip(i + 1));
    lemma_nucls_of_add(doms.take(i), seq![d]);
    lemma_nucls_of_singleton(d);
    // the five-prime half
    lemma_total_len_add(doms.take(i), seq![a]);
    lemma_total_len_singleton(a);
    lemma_nucls_of_add(doms.take(i), seq![a]);
    lemma_nucls_of_singleton(a);
    assert(five.domains =~= doms.take(i) + seq![a]);
    // the three-prime half
    lemma_total_len_add(seq![b], doms.skip(i + 1));
    lemma_total_len_singleton(b);
    lemma_nucls_of_add(seq![b], doms.skip(i + 1));
    lemma_nucls_of_singleton(b);
    assert(all_domains_wf(five.domains));
    assert(all_domains_wf(three.domains));
    assert(five.nucls() + three.nucls() =~= s.nucls());
    assert(three.junctions.len() > 0);
    assert(three.junctions.last() == s.junctions.last());
    lemma_total_len_bounds(doms.take(i));
    lemma_total_len_bounds(doms.skip(i + 1));
}

/// The scan only reports positions inside the strand.
pub proof fn lemma_plan_in_bounds(s: StrandV, nucl: Nucl, force_end: Option<bool>, j: int)
    requires
        0 <= j,
        all_domains_wf(s.domains),
        s.domains.len() <= usize::MAX,
    ensures
        match split_plan_from(s, nucl, force_end, j) {
            SplitPlan::BeforeDomain(i) => j <= i < s.domains.len()
                && s.domains[i as int].prime5_end() == Some(nucl),
            SplitPlan::AfterDomain(i) => j <= i < s.domains.len()
                && s.domains[i as int].prime3_end() == Some(nucl) && force_end != Some(true),
            SplitPlan::WithinDomain(i, k) => j <= i < s.domains.len()
                && s.domains[i as int].find_index(nucl) is Some
                && s.domains[i as int].find_index(nucl).unwrap() == if force_end == Some(true) {
                    k + 1
                } else {
                    k as int
                } && (force_end == Some(true) || k < s.domains[i as int].len()),
            SplitPlan::NotFound => true,
        },
    decreases s.domains.len() - j,
{
    if j < s.domains.len() {
        let d = s.domains[j];
        if d.prime5_end() == Some(nucl) && prev_helix(s, j) != d.helix() && force_end != Some(
            false,
        ) {
        } else if d.prime3_end() == Some(nucl) && force_end != Some(true) {
        } else if d.find_index(nucl) is Some {
            let raw = d.find_index(nucl).unwrap();
            if force_end != Some(true) {
                assert(raw < d.len());
            }
        } else {
            lemma_plan_in_bounds(s, nucl, force_end, j + 1);
        }
    }
}

/// Number of helix nucleotides on the 5' side of the division: where,
/// along the strand's nucleotide reading, the cut falls.
pub open spec fn nucl_cut(s: StrandV, plan: SplitPlan) -> int {
    match plan {
        SplitPlan::BeforeDomain(i) => nucls_of(s.domains.take(i as int)).len() as int,
        SplitPlan::AfterDomain(i) => nucls_of(s.domains.take(i + 1)).len() as int,
        SplitPlan::WithinDomain(i, k) => nucls_of(s.domains.take(i as int)).len() + k,
        SplitPlan::NotFound => 0,
    }
}

/// Breaking a cyclic strand keeps every nucleotide: the linear strand
/// reads as the cyclic one rotated to start right after the division.
#[verifier::rlimit(100)]
pub proof fn lemma_broken(s: StrandV, nucl: Nucl, force_end: Option<bool>)
    requires
        s.wf(),
        s.cyclic,
        split_plan(s, nucl, force_end) != SplitPlan::NotFound,
        split_safe(s, nucl, force_end),
    ensures
        broken_strand(s, nucl, force_end).wf(),
        !broken_strand(s, nucl, force_end).cyclic,
        broken_strand(s, nucl, force_end).length() == s.length(),
        broken_strand(s, nucl, force_end).nucls() == s.nucls().skip(
            nucl_cut(s, split_plan(s, nucl, force_end)),
        ) + s.nucls().take(nucl_cut(s, split_plan(s, nucl, force_end))),
{
    let plan = split_plan(s, nucl, force_end);
    let b = broken_strand(s, nucl, force_end);
    let doms = s.domains;
    let cut = nucl_cut(s, plan);
    lemma_total_len_bounds(doms);
    lemma_plan_in_bounds(s, nucl, force_end, 0);
    match plan {
        SplitPlan::BeforeDomain(iu) => {
            let i = iu as int;
            let last = if i == 0 {
                doms.len() - 1
            } else {
                i - 1
            };
            assert(b.domains =~= doms.skip(last + 1) + doms.take(last + 1));
            lemma_total_len_add(doms.skip(last + 1), doms.take(last + 1));
            lemma_nucls_of_add(doms.skip(last + 1), doms.take(last + 1));
            assert(doms.take(last + 1) + doms.skip(last + 1) =~= doms);
            lemma_total_len_add(doms.take(last + 1), doms.skip(last + 1));
            lemma_nucls_of_add(doms.take(last + 1), doms.skip(last + 1));
            assert(all_domains_wf(b.domains));
            if i == 0 {
                assert(doms.take(last + 1) =~= doms);
                assert(doms.skip(last + 1) =~= Seq::<DomainV>::empty());
                assert(doms.take(0) =~= Seq::<DomainV>::empty());
                assert(cut == 0);
                assert(b.nucls() =~= s.nucls().skip(cut) + s.nucls().take(cut));
            } else {
                assert(cut == nucls_of(doms.take(last + 1)).len());
                assert(s.nucls() == nucls_of(doms.take(last + 1)) + nucls_of(doms.skip(last + 1)));
                assert(s.nucls().skip(cut) =~= nucls_of(doms.skip(last + 1)));
                assert(s.nucls().take(cut) =~= nucls_of(doms.take(last + 1)));
            }
        },
        SplitPlan::AfterDomain(iu) => {
            let last = iu as int;
            assert(b.domains =~= doms.skip(last + 1) + doms.take(last + 1));
            lemma_total_len_add(doms.skip(last + 1), doms.take(last + 1));
            lemma_nucls_of_add(doms.skip(last + 1), doms.take(last + 1));
            assert(doms.take(last + 1) + doms.skip(last + 1) =~= doms);
            lemma_total_len_add(doms.take(last + 1), doms.skip(last + 1));
            lemma_nucls_of_add(doms.take(last + 1), doms.skip(last + 1));
            assert(all_domains_wf(b.domains));
            assert(s.nucls().skip(cut) =~= nucls_of(doms.skip(last + 1)));
            assert(s.nucls().take(cut) =~= nucls_of(doms.take(last + 1)));
        },
        SplitPlan::WithinDomain(iu, ku) => {
            let i = iu as int;
            let k = ku as int;
            let d = doms[i];
            assert(1 <= k < d.len()) by {
                let raw = d.find_index(nucl).unwrap();
                assert(1 <= raw <= d.len());
                if force_end != Some(true) {
                    assert(raw < d.len());
                }
            }
            let p = dom_split(d, k).unwrap();
            lemma_dom_split_content(d, k);
            assert(b.domains =~= seq![p.1] + doms.skip(i + 1) + (doms.take(i) + seq![p.0]));
            lemma_total_len_add(seq![p.1] + doms.skip(i + 1), doms.take(i) + seq![p.0]);
            lemma_total_len_add(seq![p.1], doms.skip(i + 1));
            lemma_total_len_add(doms.take(i), seq![p.0]);
            lemma_total_len_singleton(p.0);
            lemma_total_len_singleton(p.1);
            lemma_nucls_of_add(seq![p.1] + doms.skip(i + 1), doms.take(i) + seq![p.0]);
            lemma_nucls_of_add(seq![p.1], doms.skip(i + 1));
            lemma_nucls_of_add(doms.take(i), seq![p.0]);
            lemma_nucls_of_singleton(p.0);
            lemma_nucls_of_singleton(p.1);
            assert(doms.take(i) + seq![d] + doms.skip(i + 1) =~= doms);
            lemma_total_len_add(doms.take(i) + seq![d], doms.skip(i + 1));
            lemma_total_len_add(doms.take(i), seq![d]);
            lemma_total_len_singleton(d);
            lemma_nucls_of_add(doms.take(i) + seq![d], doms.skip(i + 1));
            lemma_nucls_of_add(doms.take(i), seq![d]);
            lemma_nucls_of_singleton(d);
            assert(all_domains_wf(b.domains));
            assert(b.nucls() =~= s.nucls().skip(cut) + s.nucls().take(cut));
            lemma_total_len_bounds(doms.take(i));
            lemma_total_len_bounds(doms.skip(i + 1));
        },
        SplitPlan::NotFound => {},
    }
}

/// The sequence kept by a merge: the concatenation when both parts have
/// one, else the single present sequence.
pub open spec fn strand_seq_merge(a: Option<Seq<char>>, b: Option<Seq<char>>) -> Option<
    Seq<char>,
> {
    match (a, b) {
        (Some(x), Some(y)) => Some(x + y),
        (Some(x), None) => Some(x),
        (None, Some(y)) => Some(y),
        (None, None) => None,
    }
}

/// Whether the seam of a merge is fused: the 5' strand's last domain and
/// the 3' strand's first domain are directly adjacent intervals on one
/// helix.
pub open spec fn merge_fuses(s5: StrandV, s3: StrandV) -> bool {
    s5.domains.len() > 0 && s3.domains.len() > 0 && dom_adjacent(s5.domains.last(), s3.domains[0])
}

/// The strand obtained by concatenating `s5` then `s3`: the seam is
/// fused into one interval when the two sides are directly adjacent on
/// one helix, and labelled an unidentified crossover otherwise.
pub open spec fn merged_strand(s5: StrandV, s3: StrandV) -> StrandV {
    StrandV {
        domains: if merge_fuses(s5, s3) {
            s5.domains.drop_last() + seq![dom_merged(s5.domains.last(), s3.domains[0])]
                + s3.domains.drop_first()
        } else {
            s5.domains + s3.domains
        },
        junctions: if merge_fuses(s5, s3) {
            s5.junctions.drop_last() + s3.junctions
        } else if s5.junctions.len() > 0 && s3.domains.len() > 0 {
            s5.junctions.update(
                s5.junctions.len() - 1,
                DomainJunction::UnidentifiedXover,
            ) + s3.junctions
        } else {
            s5.junctions + s3.junctions
        },
        cyclic: false,
        color: s5.color,
        sequence: strand_seq_merge(s5.sequence, s3.sequence),
        name: if s5.name is Some {
            s5.name
        } else {
            s3.name
        },
    }
}

/// Fusing two adjacent intervals keeps their nucleotides in order.
pub proof fn lemma_dom_merged_content(a: DomainV, b: DomainV)
    requires
        a.wf(),
        b.wf(),
        dom_adjacent(a, b),
        a.len() + b.len() <= isize::MAX,
    ensures
        dom_merged(a, b).wf(),
        dom_merged(a, b).len() == a.len() + b.len(),
        dom_merged(a, b).nucls() == a.nucls() + b.nucls(),
{
    assert(dom_merged(a, b).nucls() =~= a.nucls() + b.nucls());
}

/// Merging two linear strands keeps every nucleotide in order.
#[verifier::rlimit(50)]
pub proof fn lemma_merged_strand(s5: StrandV, s3: StrandV)
    requires
        s5.wf(),
        s3.wf(),
        !s5.cyclic,
        !s3.cyclic,
        s5.length() + s3.length() <= usize::MAX,
        merge_fuses(s5, s3) ==> s5.domains.last().len() + s3.domains[0].len() <= isize::MAX,
    ensures
        merged_strand(s5, s3).wf(),
        merged_strand(s5, s3).length() == s5.length() + s3.length(),
        merged_strand(s5, s3).nucls() == s5.nucls() + s3.nucls(),
{
    let m = merged_strand(s5, s3);
    lemma_total_len_add(s5.domains, s3.domains);
    lemma_nucls_of_add(s5.domains, s3.domains);
    if merge_fuses(s5, s3) {
        let a = s5.domains.last();
        let b = s3.domains[0];
        let f = dom_merged(a, b);
        lemma_dom_merged_content(a, b);
        assert(s5.domains =~= s5.domains.drop_last() + seq![a]);
        lemma_total_len_add(s5.domains.drop_last(), seq![a]);
        lemma_nucls_of_add(s5.domains.drop_last(), seq![a]);
        lemma_total_len_singleton(a);
        lemma_nucls_of_singleton(a);
        assert(s3.domains =~= seq![b] + s3.domains.drop_first());
        lemma_total_len_add(seq![b], s3.domains.drop_first());
        lemma_nucls_of_add(seq![b], s3.domains.drop_first());
        lemma_total_len_singleton(b);
        lemma_nucls_of_singleton(b);
        assert(m.domains =~= s5.domains.drop_last() + (seq![f] + s3.domains.drop_first()));
        lemma_total_len_add(s5.domains.drop_last(), seq![f] + s3.domains.drop_first());
        lemma_nucls_of_add(s5.domains.drop_last(), seq![f] + s3.domains.drop_first());
        lemma_total_len_add(seq![f], s3.domains.drop_first());
        lemma_nucls_of_add(seq![f], s3.domains.drop_first());
        lemma_total_len_singleton(f);
        lemma_nucls_of_singleton(f);
        assert(all_domains_wf(m.domains));
        assert(m.nucls() =~= s5.nucls() + s3.nucls());
        assert(m.junctions.len() == m.domains.len());
    } else {
        assert(all_domains_wf(m.domains));
        if s5.junctions.len() > 0 && s3.domains.len() > 0 {
            assert(m.junctions.len() == m.domains.len());
        }
    }
}

/// The machine bounds under which two strands can be concatenated.
pub open spec fn merge_bounds_ok(s5: StrandV, s3: StrandV) -> bool {
    &&& s5.length() + s3.length() <= usize::MAX
    &&& merge_fuses(s5, s3) ==> s5.domains.last().len() + s3.domains[0].len() <= isize::MAX
}

/// A strand with its seam insertions fused: when the strand both starts
/// and ends with an insertion, the two are one loop once the cycle is
/// closed, so they are merged into the last domain and the first is
/// dropped.
pub open spec fn seam_merged(s: StrandV) -> StrandV {
    if s.domains.len() >= 2 && s.domains[0] is Insertion && s.domains.last() is Insertion {
        StrandV {
            domains: s.domains.update(
                s.domains.len() - 1,
                DomainV::Insertion(s.domains[0].len() + s.domains.last().len()),
            ).drop_first(),
            junctions: s.junctions.drop_first(),
            ..s
        }
    } else {
        s
    }
}

/// Whether a strand can be closed into a cycle: after the seam-insertion
/// merge, the domains on either side of the seam (skipping a lone seam
/// insertion) are helix intervals.  A strand that violates this is
/// structurally malformed and must never reach the cycle-closing rule.
pub open spec fn cycle_closable(s: StrandV) -> bool {
    let m = seam_merged(s);
    &&& m.domains.len() > 0
    &&& {
        let skip_last: int = if m.domains.last() is Insertion {
            1
        } else {
            0
        };
        let skip_first: int = if m.domains[0] is Insertion {
            1
        } else {
            0
        };
        &&& 0 <= m.domains.len() - 1 - skip_last
        &&& skip_first < m.domains.len()
        &&& m.domains[m.domains.len() - 1 - skip_last] is HelixDomain
        &&& m.domains[skip_first] is HelixDomain
    }
}

/// The strand closed into a cycle: seam insertions merged, and the final
/// junction set to the label owed between the last and first intervals.
pub open spec fn cycled_strand(s: StrandV) -> StrandV {
    let m = seam_merged(s);
    let skip_last: int = if m.domains.last() is Insertion {
        1
    } else {
        0
    };
    let skip_first: int = if m.domains[0] is Insertion {
        1
    } else {
        0
    };
    let i1 = m.domains[m.domains.len() - 1 - skip_last]->HelixDomain_0;
    let i2 = m.domains[skip_first]->HelixDomain_0;
    StrandV {
        junctions: m.junctions.update(
            m.junctions.len() - 1,
            crate::domain::junction_spec(i1, i2),
        ),
        cyclic: true,
        ..m
    }
}

/// Closing a cycle keeps every nucleotide of the strand.
pub proof fn lemma_cycled_strand(s: StrandV)
    requires
        s.wf(),
        cycle_closable(s),
    ensures
        cycled_strand(s).wf(),
        cycled_strand(s).cyclic,
        cycled_strand(s).length() == s.length(),
        cycled_strand(s).nucls() == s.nucls(),
{
    let m = seam_merged(s);
    let c = cycled_strand(s);
    if s.domains.len() >= 2 && s.domains[0] is Insertion && s.domains.last() is Insertion {
        let n = s.domains.len();
        let mid = s.domains.subrange(1, n - 1);
        let fused = DomainV::Insertion(s.domains[0].len() + s.domains.last().len());
        assert(s.domains =~= seq![s.domains[0]] + mid + seq![s.domains.last()]);
        lemma_total_len_add(seq![s.domains[0]] + mid, seq![s.domains.last()]);
        lemma_total_len_add(seq![s.domains[0]], mid);
        lemma_total_len_singleton(s.domains[0]);
        lemma_total_len_singleton(s.domains.last());
        lemma_nucls_of_add(seq![s.domains[0]] + mid, seq![s.domains.last()]);
        lemma_nucls_of_add(seq![s.domains[0]], mid);
        lemma_nucls_of_singleton(s.domains[0]);
        lemma_nucls_of_singleton(s.domains.last());
        assert(m.domains =~= mid + seq![fused]);
        lemma_total_len_add(mid, seq![fused]);
        lemma_total_len_singleton(fused);
        lemma_nucls_of_add(mid, seq![fused]);
        lemma_nucls_of_singleton(fused);
        assert forall|i: int| 0 <= i < m.domains.len() implies (#[trigger] m.domains[i]).wf() by {
            if i < m.domains.len() - 1 {
                assert(m.domains[i] == s.domains[i + 1]);
                assert(s.domains[i + 1].wf());
            } else {
                assert(m.domains[i] == fused);
                assert(all_domains_wf(mid)) by {
                    assert forall|j: int| 0 <= j < mid.len() implies (#[trigger] mid[j]).wf() by {
                        assert(mid[j] == s.domains[j + 1]);
                    }
                }
                lemma_total_len_bounds(mid);
                assert(1 <= s.domains[0].len() + s.domains.last().len() <= usize::MAX);
            }
        }
        assert(c.nucls() =~= s.nucls());
    } else {
        assert(all_domains_wf(m.domains));
    }
}

/// Concatenate the strand `prime3` onto the strand `prime5`: the result
/// keeps `prime5`'s identifier, color and name, and `prime3`'s entry is
/// removed.  The seam is fused into one interval when the two sides are
/// directly adjacent on one helix, and labelled an unidentified
/// crossover otherwise.
///
/// Fails, leaving the design unchanged, with `MergingSameStrand` when
/// the two identifiers are equal (closing a cycle is the intended
/// operation then), with `StrandDoesNotExist` when either is absent, and
/// with `NotImplemented` when a strand is cyclic (no free end to join)
/// or the combined length exceeds the machine bounds.
pub fn merge_strands(design: &mut Design, prime5: usize, prime3: usize) -> (r: Result<
    (),
    ErrOperation,
>)
    requires
        old(design).wf(),
    ensures
        final(design).wf(),
        same_but_strands(*old(design), *final(design)),
        r is Err ==> final(design).strands@ == old(design).strands@,
        prime5 == prime3 ==> r == Err::<(), ErrOperation>(ErrOperation::MergingSameStrand),
        prime5 != prime3 && !old(design).strands@.contains_key(prime5) ==> r == Err::<
            (),
            ErrOperation,
        >(ErrOperation::StrandDoesNotExist(prime5)),
        prime5 != prime3 && old(design).strands@.contains_key(prime5) && !old(
            design,
        ).strands@.contains_key(prime3) ==> r == Err::<(), ErrOperation>(
            ErrOperation::StrandDoesNotExist(prime3),
        ),
        prime5 != prime3 && old(design).strands@.contains_key(prime5) && old(
            design,
        ).strands@.contains_key(prime3) ==> {
            let s5 = old(design).strands@[prime5];
            let s3 = old(design).strands@[prime3];
            if !s5.cyclic && !s3.cyclic && merge_bounds_ok(s5, s3) {
                r == Ok::<(), ErrOperation>(()) && final(design).strands@ == old(
                    design,
                ).strands@.remove(prime3).insert(prime5, merged_strand(s5, s3))
            } else {
                r == Err::<(), ErrOperation>(ErrOperation::NotImplemented)
            }
        },
{
    if prime5 == prime3 {
        return Err(ErrOperation::MergingSameStrand);
    }
    let strand5prime = match design.strands.get(prime5) {
        Some(s) => s.clone_strand(),
        None => {
            return Err(ErrOperation::StrandDoesNotExist(prime5));
        },
    };
    let strand3prime = match design.strands.get(prime3) {
        Some(s) => s.clone_strand(),
        None => {
            return Err(ErrOperation::StrandDoesNotExist(prime3));
        },
    };
    let ghost s5 = strand5prime@;
    let ghost s3 = strand3prime@;
    if strand5prime.cyclic || strand3prime.cyclic {
        return Err(ErrOperation::NotImplemented);
    }
    let len5 = strand5prime.length();
    let len3 = strand3prime.length();
    if len3 > usize::MAX - len5 {
        return Err(ErrOperation::NotImplemented);
    }
    // decide whether the seam fuses
    let n5 = strand5prime.domains.len();
    let n3 = strand3prime.domains.len();
    let fuse = if n5 > 0 && n3 > 0 {
        match (&strand5prime.domains[n5 - 1], &strand3prime.domains[0]) {
            (Domain::HelixDomain(a), Domain::HelixDomain(b)) => {
                a.helix == b.helix && a.forward == b.forward && (if a.forward {
                    b.start == a.end
                } else {
                    b.end == a.start
                })
            },
            _ => false,
        }
    } else {
        false
    };
    proof {
        assert(fuse == merge_fuses(s5, s3));
    }
    if fuse {
        let max_half = isize::MAX as usize;
        let la = match &strand5prime.domains[n5 - 1] {
            Domain::HelixDomain(a) => a.length(),
            _ => 0,
        };
        let lb = match &strand3prime.domains[0] {
            Domain::HelixDomain(b) => b.length(),
            _ => 0,
        };
        if lb > max_half - la {
            return Err(ErrOperation::NotImplemented);
        }
        proof {
            lemma_merged_strand(s5, s3);
        }
        let mut domains = clone_domains_range(&strand5prime.domains, 0, n5 - 1);
        let ghost part5 = domains@;
        let mut junctions = copy_junctions_range(&strand5prime.junctions, 0, n5 - 1);
        let mut seam = strand5prime.domains[n5 - 1].clone_domain();
        seam.merge(&strand3prime.domains[0]);
        let ghost seamv = seam@;
        domains.push(seam);
        let ghost part5p = domains@;
        let mut tail_doms = clone_domains_range(&strand3prime.domains, 1, n3);
        let ghost tailv = tail_doms@;
        domains.append(&mut tail_doms);
        let mut tail_juncs = copy_junctions_range(&strand3prime.junctions, 0, n3);
        junctions.append(&mut tail_juncs);
        let merged = Strand {
            domains,
            junctions,
            cyclic: false,
            color: strand5prime.color,
            sequence: merge_sequences(strand5prime.sequence, strand3prime.sequence),
            name: match (strand5prime.name, strand3prime.name) {
                (Some(x), _) => Some(x),
                (None, y) => y,
            },
        };
        proof {
            let md = merged_strand(s5, s3).domains;
            assert(merged.domains@ == part5p + tailv);
            assert(merged@.domains.len() == md.len());
            assert forall|i: int| 0 <= i < md.len() implies merged@.domains[i] == md[i] by {
                if i < n5 - 1 {
                    assert(merged.domains@[i] == part5[i]);
                    assert(part5.map_values(|d: Domain| d@)[i] == part5[i]@);
                    assert(part5[i]@ == s5.domains[i]);
                } else if i == n5 - 1 {
                    assert(merged.domains@[i] == part5p[n5 - 1]);
                    assert(part5p[n5 - 1]@ == seamv);
                } else {
                    assert(merged.domains@[i] == tailv[i - n5]);
                    assert(tailv.map_values(|d: Domain| d@)[i - n5] == tailv[i - n5]@);
                    assert(tailv[i - n5]@ == s3.domains[i - n5 + 1]);
                }
                assert(merged@.domains[i] == merged.domains@[i]@);
            }
            assert(merged@.domains =~= md);
            assert(merged@.junctions =~= merged_strand(s5, s3).junctions);
            assert(merged@ =~= merged_strand(s5, s3));
        }
        design.strands.remove(prime3);
        design.strands.insert(prime5, merged);
        Ok(())
    } else {
        proof {
            lemma_merged_strand(s5, s3);
        }
        let mut domains = clone_domains_range(&strand5prime.domains, 0, n5);
        let ghost part5 = domains@;
        let mut junctions = copy_junctions_range(&strand5prime.junctions, 0, n5);
        if n3 > 0 && junctions.len() > 0 {
            let last = junctions.len() - 1;
            junctions.set(last, DomainJunction::UnidentifiedXover);
        }
        let mut tail_doms = clone_domains_range(&strand3prime.domains, 0, n3);
        let ghost tailv = tail_doms@;
        domains.append(&mut tail_doms);
        let mut tail_juncs = copy_junctions_range(&strand3prime.junctions, 0, n3);
        junctions.append(&mut tail_juncs);
        let merged = Strand {
            domains,
            junctions,
            cyclic: false,
            color: strand5prime.color,
            sequence: merge_sequences(strand5prime.sequence, strand3prime.sequence),
            name: match (strand5prime.name, strand3prime.name) {
                (Some(x), _) => Some(x),
                (None, y) => y,
            },
        };
        proof {
            let md = merged_strand(s5, s3).domains;
            assert(merged.domains@ == part5 + tailv);
            assert(merged@.domains.len() == md.len());
            assert forall|i: int| 0 <= i < md.len() implies merged@.domains[i] == md[i] by {
                if i < n5 {
                    assert(merged.domains@[i] == part5[i]);
                    assert(part5.map_values(|d: Domain| d@)[i] == part5[i]@);
                    assert(part5[i]@ == s5.domains[i]);
                } else {
                    assert(merged.domains@[i] == tailv[i - n5]);
                    assert(tailv.map_values(|d: Domain| d@)[i - n5] == tailv[i - n5]@);
                    assert(tailv[i - n5]@ == s3.domains[i - n5]);
                }
                assert(merged@.domains[i] == merged.domains@[i]@);
            }
            assert(merged@.domains =~= md);
            assert(merged@.junctions =~= merged_strand(s5, s3).junctions);
            assert(merged@ =~= merged_strand(s5, s3));
        }
        design.strands.remove(prime3);
        design.strands.insert(prime5, merged);
        Ok(())
    }
}

/// The concatenation rule for the strands' full sequences.
fn merge_sequences(a: Option<String>, b: Option<String>) -> (r: Option<String>)
    ensures
        ({
            let av = match a {
                Some(x) => Some(x@),
                None => None,
            };
            let bv = match b {
                Some(y) => Some(y@),
                None => None,
            };
            match r {
                Some(s) => strand_seq_merge(av, bv) == Some(s@),
                None => strand_seq_merge(av, bv) is None,
            }
        }),
{
    match (a, b) {
        (Some(x), Some(y)) => Some(x.concat(y.as_str())),
        (Some(x), None) => Some(x),
        (None, Some(y)) => Some(y),
        (None, None) => None,
    }
}

/// Set or clear a strand's cyclic flag.
///
/// Closing the cycle merges the seam insertions (a strand that starts
/// and ends with an insertion), then labels the final junction with the
/// relation between the last and first helix intervals.  Opening it sets
/// the final junction back to the terminal label.
///
/// The strand named must be closable: the caller hands in a strand whose
/// seam domains are helix intervals, as every strand built by this
/// library's operations is; anything else signals corrupted data
/// upstream.
pub fn make_cycle(design: &mut Design, strand_id: usize, cyclic: bool) -> (r: Result<
    (),
    ErrOperation,
>)
    requires
        old(design).wf(),
        old(design).strands@.contains_key(strand_id) ==> {
            let s = old(design).strands@[strand_id];
            (cyclic ==> cycle_closable(s)) && s.domains.len() > 0
        },
    ensures
        final(design).wf(),
        same_but_strands(*old(design), *final(design)),
        !old(design).strands@.contains_key(strand_id) ==> r == Err::<(), ErrOperation>(
            ErrOperation::StrandDoesNotExist(strand_id),
        ) && final(design).strands@ == old(design).strands@,
        old(design).strands@.contains_key(strand_id) ==> r == Ok::<(), ErrOperation>(()) && {
            let s = old(design).strands@[strand_id];
            if cyclic {
                final(design).strands@ == old(design).strands@.insert(strand_id, cycled_strand(s))
            } else {
                final(design).strands@ == old(design).strands@.insert(
                    strand_id,
                    StrandV {
                        junctions: s.junctions.update(
                            s.junctions.len() - 1,
                            DomainJunction::Prime3,
                        ),
                        cyclic: false,
                        ..s
                    },
                )
            }
        },
{
    let mut strand = match design.strands.get(strand_id) {
        Some(s) => s.clone_strand(),
        None => {
            return Err(ErrOperation::StrandDoesNotExist(strand_id));
        },
    };
    let ghost s = strand@;
    if !cyclic {
        let last = strand.junctions.len() - 1;
        strand.junctions.set(last, DomainJunction::Prime3);
        strand.cyclic = false;
        proof {
            let t = StrandV {
                junctions: s.junctions.update(s.junctions.len() - 1, DomainJunction::Prime3),
                cyclic: false,
                ..s
            };
            assert(strand@ =~= t);
            assert(all_domains_wf(t.domains));
        }
        design.strands.insert(strand_id, strand);
        return Ok(());
    }
    proof {
        lemma_cycled_strand(s);
    }
    // merge the seam insertions
    let n = strand.domains.len();
    let seam_counts = if n >= 2 {
        match (&strand.domains[0], &strand.domains[n - 1]) {
            (Domain::Insertion(n1), Domain::Insertion(n2)) => Some((*n1, *n2)),
            _ => None,
        }
    } else {
        None
    };
    if let Some((n1, n2)) = seam_counts {
        proof {
            assert(s.domains =~= s.domains.take(n - 1) + seq![s.domains.last()]);
            lemma_total_len_add(s.domains.take(n - 1), seq![s.domains.last()]);
            lemma_total_len_singleton(s.domains.last());
            assert(s.domains.take(n - 1) =~= seq![s.domains[0]] + s.domains.subrange(1, n - 1));
            lemma_total_len_add(seq![s.domains[0]], s.domains.subrange(1, n - 1));
            lemma_total_len_singleton(s.domains[0]);
            lemma_total_len_bounds(s.domains.subrange(1, n - 1));
        }
        let fused = n1 + n2;
        strand.domains.set(n - 1, Domain::Insertion(fused));
        strand.domains.remove(0);
        strand.junctions.remove(0);
    }
    let ghost m = seam_merged(s);
    proof {
        assert(strand@.domains =~= m.domains);
        assert(strand@.junctions =~= m.junctions);
    }
    // classify the seam junction between the last and first intervals
    let nm = strand.domains.len();
    let skip_last: usize = match &strand.domains[nm - 1] {
        Domain::Insertion(_) => 1,
        _ => 0,
    };
    let skip_first: usize = match &strand.domains[0] {
        Domain::Insertion(_) => 1,
        _ => 0,
    };
    let seam_junction = match (&strand.domains[nm - 1 - skip_last], &strand.domains[skip_first]) {
        (Domain::HelixDomain(i1), Domain::HelixDomain(i2)) => crate::domain::junction(i1, i2),
        _ => {
            proof {
                assert(false);
            }
            DomainJunction::Prime3
        },
    };
    let last = strand.junctions.len() - 1;
    strand.junctions.set(last, seam_junction);
    strand.cyclic = true;
    proof {
        assert(strand@ =~= cycled_strand(s));
    }
    design.strands.insert(strand_id, strand);
    Ok(())
}

/// Equality of two optional helix identifiers.
fn same_opt_usize(a: &Option<usize>, b: &Option<usize>) -> (r: bool)
    ensures
        r == (a == b),
{
    match (a, b) {
        (Some(x), Some(y)) => x == y,
        (None, None) => true,
        _ => false,
    }
}

/// Copies of the domains with indices `from <= i < to`.
fn clone_domains_range(src: &Vec<Domain>, from: usize, to: usize) -> (r: Vec<Domain>)
    requires
        from <= to <= src@.len(),
    ensures
        r@.map_values(|d: Domain| d@) == src@.map_values(|d: Domain| d@).subrange(
            from as int,
            to as int,
        ),
        r@.len() == to - from,
{
    let mut r: Vec<Domain> = Vec::new();
    let mut i: usize = from;
    while i < to
        invariant
            from <= i <= to <= src@.len(),
            r@.len() == i - from,
            forall|j: int| 0 <= j < r@.len() ==> (#[trigger] r@[j])@ == src@[from + j]@,
        decreases to - i,
    {
        r.push(src[i].clone_domain());
        i = i + 1;
    }
    proof {
        assert(r@.map_values(|d: Domain| d@) =~= src@.map_values(|d: Domain| d@).subrange(
            from as int,
            to as int,
        ));
    }
    r
}

/// The junction labels with indices `from <= i < to`.
fn copy_junctions_range(src: &Vec<DomainJunction>, from: usize, to: usize) -> (r: Vec<
    DomainJunction,
>)
    requires
        from <= to <= src@.len(),
    ensures
        r@ == src@.subrange(from as int, to as int),
{
    let mut r: Vec<DomainJunction> = Vec::new();
    let mut i: usize = from;
    while i < to
        invariant
            from <= i <= to <= src@.len(),
            r@.len() == i - from,
            forall|j: int| 0 <= j < r@.len() ==> r@[j] == src@[from + j],
        decreases to - i,
    {
        r.push(src[i]);
        i = i + 1;
    }
    proof {
        assert(r@ =~= src@.subrange(from as int, to as int));
    }
    r
}

/// Total number of nucleotides of the first `to` domains.
fn prefix_len(strand: &Strand, to: usize) -> (r: usize)
    requires
        strand@.wf(),
        to <= strand@.domains.len(),
    ensures
        r == total_len(strand@.domains.take(to as int)),
{
    let ghost doms = strand@.domains;
    let mut total: usize = 0;
    let mut i: usize = 0;
    proof {
        assert(doms.take(0) =~= Seq::empty());
    }
    while i < to
        invariant
            strand@.wf(),
            doms == strand@.domains,
            0 <= i <= to <= doms.len(),
            total == total_len(doms.take(i as int)),
            total <= usize::MAX,
        decreases to - i,
    {
        proof {
            assert(doms.take(i + 1).drop_last() =~= doms.take(i as int));
            assert(doms.take(i + 1) =~= doms.take(i as int) + seq![doms[i as int]]);
            lemma_total_len_add(doms.take(i as int), seq![doms[i as int]]);
            lemma_total_len_singleton(doms[i as int]);
            assert(doms.take(i + 1) + doms.skip(i + 1) =~= doms);
            lemma_total_len_add(doms.take(i + 1), doms.skip(i + 1));
            assert(all_domains_wf(doms.skip(i + 1)));
            lemma_total_len_bounds(doms.skip(i + 1));
        }
        total = total + strand.domains[i].length();
        i = i + 1;
    }
    total
}

/// Divide an optional sequence at character `at`, clamped to its length.
fn cut_sequence(seq: &Option<String>, at: usize) -> (r: (Option<String>, Option<String>))
    ensures
        match (seq, &r.0) {
            (Some(s), Some(l)) => l@ == seq_cut_left(Some(s@), at as int).unwrap(),
            (None, None) => true,
            _ => false,
        },
        match (seq, &r.1) {
            (Some(s), Some(t)) => t@ == seq_cut_right(Some(s@), at as int).unwrap(),
            (None, None) => true,
            _ => false,
        },
{
    match seq {
        Some(s) => {
            let slen = s.as_str().unicode_len();
            let cut = if at <= slen {
                at
            } else {
                slen
            };
            let left = s.as_str().substring_char(0, cut).to_owned();
            let right = s.as_str().substring_char(cut, slen).to_owned();
            proof {
                assert(left@ =~= seq_cut_left(Some(s@), at as int).unwrap());
                assert(right@ =~= seq_cut_right(Some(s@), at as int).unwrap());
            }
            (Some(left), Some(right))
        },
        None => (None, None),
    }
}

/// Find where the strand is divided when split at `nucl`.
fn scan_split(strand: &Strand, nucl: &Nucl, force_end: Option<bool>) -> (r: SplitPlan)
    requires
        strand@.wf(),
    ensures
        r == split_plan(strand@, *nucl, force_end),
{
    let ghost s = strand@;
    let n = strand.domains.len();
    let mut prev: Option<usize> = None;
    let mut i: usize = 0;
    while i < n
        invariant
            strand@.wf(),
            s == strand@,
            n == s.domains.len(),
            0 <= i <= n,
            split_plan(s, *nucl, force_end) == split_plan_from(s, *nucl, force_end, i as int),
            prev == prev_helix(s, i as int),
        decreases n - i,
    {
        let d = &strand.domains[i];
        proof {
            assert(s.domains[i as int] == d@);
        }
        let is_p5 = match d.prime5_end() {
            Some(p5) => p5 == *nucl,
            None => false,
        };
        let not_forced_5 = match force_end {
            Some(b) => b,
            None => true,
        };
        let not_forced_3 = match force_end {
            Some(b) => !b,
            None => true,
        };
        if is_p5 && !same_opt_usize(&prev, &d.helix()) && not_forced_5 {
            return SplitPlan::BeforeDomain(i);
        }
        let is_p3 = match d.prime3_end() {
            Some(p3) => p3 == *nucl,
            None => false,
        };
        if is_p3 && not_forced_3 {
            return SplitPlan::AfterDomain(i);
        }
        if let Some(raw) = d.has_nucl(nucl) {
            let forced_3 = match force_end {
                Some(b) => b,
                None => false,
            };
            if forced_3 {
                if raw == 1 {
                    return SplitPlan::BeforeDomain(i);
                }
                return SplitPlan::WithinDomain(i, raw - 1);
            } else {
                return SplitPlan::WithinDomain(i, raw);
            }
        }
        prev = d.helix();
        i = i + 1;
    }
    SplitPlan::NotFound
}

/// The strand identifier that a split at `nucl` operates on: the least
/// holder of the nucleotide.
pub open spec fn holder_of(m: Map<usize, StrandV>, nucl: Nucl) -> usize {
    choose|id: usize| first_holder(m, id, nucl)
}

/// Result and new strand map of a split at `nucl`: what
/// [`split_strand`] returns and leaves behind.
#[verifier::opaque]
pub open spec fn split_spec(
    m: Map<usize, StrandV>,
    nucl: Nucl,
    force_end: Option<bool>,
) -> (Result<usize, ErrOperation>, Map<usize, StrandV>) {
    if !some_holder(m, nucl) {
        (Err(ErrOperation::CutInexistingStrand), m)
    } else {
        let id = holder_of(m, nucl);
        let s = m[id];
        if s.cyclic {
            (Ok(id), m.insert(id, broken_strand(s, nucl, force_end)))
        } else if s.length() <= 1 {
            (Err(ErrOperation::CutInexistingStrand), m)
        } else {
            (Ok(fresh_id(m)), split_map(m, id, fresh_id(m), nucl, force_end))
        }
    }
}

/// Result and new strand map of a merge: what [`merge_strands`] returns
/// and leaves behind.
#[verifier::opaque]
pub open spec fn merge_spec(m: Map<usize, StrandV>, prime5: usize, prime3: usize) -> (
    Result<(), ErrOperation>,
    Map<usize, StrandV>,
) {
    if prime5 == prime3 {
        (Err(ErrOperation::MergingSameStrand), m)
    } else if !m.contains_key(prime5) {
        (Err(ErrOperation::StrandDoesNotExist(prime5)), m)
    } else if !m.contains_key(prime3) {
        (Err(ErrOperation::StrandDoesNotExist(prime3)), m)
    } else if m[prime5].cyclic || m[prime3].cyclic || !merge_bounds_ok(m[prime5], m[prime3]) {
        (Err(ErrOperation::NotImplemented), m)
    } else {
        (Ok(()), m.remove(prime3).insert(prime5, merged_strand(m[prime5], m[prime3])))
    }
}

/// Result and new strand map of a cycle toggle: what [`make_cycle`]
/// returns and leaves behind.
#[verifier::opaque]
pub open spec fn cycle_spec(m: Map<usize, StrandV>, strand_id: usize, cyclic: bool) -> (
    Result<(), ErrOperation>,
    Map<usize, StrandV>,
) {
    if !m.contains_key(strand_id) {
        (Err(ErrOperation::StrandDoesNotExist(strand_id)), m)
    } else if cyclic {
        (Ok(()), m.insert(strand_id, cycled_strand(m[strand_id])))
    } else {
        let s = m[strand_id];
        (
            Ok(()),
            m.insert(
                strand_id,
                StrandV {
                    junctions: s.junctions.update(s.junctions.len() - 1, DomainJunction::Prime3),
                    cyclic: false,
                    ..s
                },
            ),
        )
    }
}

/// Result and new strand map of a cross-cut: the strand holding `nucl`
/// is split there, and the piece holding `nucl` is joined onto
/// `source_strand`.  Any failure after the split rolls the document
/// back, so an error always leaves the map as it was.
#[verifier::opaque]
pub open spec fn cross_cut_spec(
    m: Map<usize, StrandV>,
    source_strand: usize,
    target_strand: usize,
    nucl: Nucl,
    target_3prime: bool,
) -> (Result<(), ErrOperation>, Map<usize, StrandV>) {
    let new_id = fresh_id(m);
    if !m.contains_key(target_strand) {
        (Err(ErrOperation::StrandDoesNotExist(target_strand)), m)
    } else {
        let was_cyclic = m[target_strand].cyclic;
        let sp = split_spec(m, nucl, Some(target_3prime));
        if sp.0 is Err {
            (Err(sp.0->Err_0), m)
        } else {
            let m1 = sp.1;
            if !was_cyclic && source_strand != target_strand {
                if target_3prime {
                    if !m1.contains_key(target_strand) {
                        (Err(ErrOperation::StrandDoesNotExist(target_strand)), m)
                    } else if !m1.remove(target_strand).contains_key(new_id) {
                        (Err(ErrOperation::StrandDoesNotExist(new_id)), m)
                    } else {
                        let m2 = m1.insert(new_id, m1[target_strand]).insert(
                            target_strand,
                            m1[new_id],
                        );
                        let mg = merge_spec(m2, source_strand, new_id);
                        if mg.0 is Err {
                            (mg.0, m)
                        } else {
                            (Ok(()), mg.1)
                        }
                    }
                } else {
                    if !m1.contains_key(source_strand) {
                        (Err(ErrOperation::StrandDoesNotExist(source_strand)), m)
                    } else if !m1.remove(source_strand).contains_key(new_id) {
                        (Err(ErrOperation::StrandDoesNotExist(new_id)), m)
                    } else if !m1.remove(source_strand).remove(new_id).contains_key(target_strand) {
                        (Err(ErrOperation::StrandDoesNotExist(target_strand)), m)
                    } else {
                        let m2 = m1.insert(new_id, m1[source_strand]).insert(
                            source_strand,
                            m1[target_strand],
                        ).insert(target_strand, m1[new_id]);
                        let mg = merge_spec(m2, source_strand, new_id);
                        if mg.0 is Err {
                            (mg.0, m)
                        } else {
                            (Ok(()), mg.1)
                        }
                    }
                }
            } else if source_strand == target_strand {
                let mc = cycle_spec(m1, source_strand, true);
                if mc.0 is Err {
                    (mc.0, m)
                } else {
                    (Ok(()), mc.1)
                }
            } else {
                let mg = if target_3prime {
                    merge_spec(m1, source_strand, target_strand)
                } else {
                    merge_spec(m1, target_strand, source_strand)
                };
                if mg.0 is Err {
                    (mg.0, m)
                } else {
                    (Ok(()), mg.1)
                }
            }
        }
    }
}

/// The conditions under which a cross-cut that rejoins a strand onto
/// itself finds a closable strand: the invariant that [`make_cycle`]
/// demands, carried up to the document level.
pub open spec fn cross_cut_cycle_ok(
    m: Map<usize, StrandV>,
    source_strand: usize,
    target_strand: usize,
    nucl: Nucl,
    target_3prime: bool,
) -> bool {
    source_strand == target_strand && m.contains_key(target_strand) && split_spec(
        m,
        nucl,
        Some(target_3prime),
    ).0 is Ok ==> {
        let m1 = split_spec(m, nucl, Some(target_3prime)).1;
        m1.contains_key(source_strand) ==> cycle_closable(m1[source_strand])
            && m1[source_strand].domains.len() > 0
    }
}

/// Break a cyclic strand at `nucl` into a single linear strand: the
/// domains are rotated to start right after the division and the final
/// junction becomes the terminal label.  The strand keeps its identity:
/// no new strand is created.
///
/// With `force_end` as in [`split_strand`]: `Some(true)` makes `nucl`
/// the new 5' end, `Some(false)` the new 3' end, and `None` makes it the
/// new 3' end unless it sits on the 3' side of a crossover.
pub fn break_cycle(strand: Strand, nucl: &Nucl, force_end: Option<bool>) -> (r: Strand)
    requires
        strand@.wf(),
        strand@.cyclic,
        strand_has_nucl(strand@, *nucl),
    ensures
        r@ == broken_strand(strand@, *nucl, force_end),
        r@.wf(),
        !r@.cyclic,
        r@.length() == strand@.length(),
{
    let ghost s = strand@;
    proof {
        let i = choose|i: int|
            0 <= i < s.domains.len() && (#[trigger] s.domains[i]).find_index(*nucl) is Some;
        lemma_scan_finds(s, *nucl, force_end, 0, i);
        lemma_total_len_bounds(s.domains);
        lemma_plan_in_bounds(s, *nucl, force_end, 0);
        lemma_split_safe(s, *nucl, force_end, 0);
        lemma_broken(s, *nucl, force_end);
    }
    let plan = scan_split(&strand, nucl, force_end);
    let n = strand.domains.len();
    let (last, replace) = match plan {
        SplitPlan::BeforeDomain(i) => (if i != 0 {
            i - 1
        } else {
            n - 1
        }, None),
        SplitPlan::AfterDomain(i) => (i, None),
        SplitPlan::WithinDomain(i, k) => {
            proof {
                let raw = s.domains[i as int].find_index(*nucl).unwrap();
                assert(1 <= raw <= s.domains[i as int].len());
                if force_end != Some(true) {
                    assert(raw < s.domains[i as int].len());
                }
            }
            (i, strand.domains[i].split(k))
        },
        SplitPlan::NotFound => {
            proof {
                assert(false);
            }
            (0, None)
        },
    };
    let mut domains: Vec<Domain> = Vec::new();
    let mut junctions: Vec<DomainJunction> = Vec::new();
    match &replace {
        Some(p) => {
            domains.push(p.1.clone_domain());
            junctions.push(strand.junctions[last]);
        },
        None => {},
    }
    let mut tail_doms = clone_domains_range(&strand.domains, last + 1, n);
    let mut tail_juncs = copy_junctions_range(&strand.junctions, last + 1, n);
    domains.append(&mut tail_doms);
    junctions.append(&mut tail_juncs);
    let mut head_doms = clone_domains_range(&strand.domains, 0, last);
    let mut head_juncs = copy_junctions_range(&strand.junctions, 0, last);
    domains.append(&mut head_doms);
    junctions.append(&mut head_juncs);
    match &replace {
        Some(p) => {
            domains.push(p.0.clone_domain());
        },
        None => {
            domains.push(strand.domains[last].clone_domain());
        },
    }
    junctions.push(DomainJunction::Prime3);
    let r = Strand {
        domains,
        junctions,
        cyclic: false,
        color: strand.color,
        sequence: strand.sequence,
        name: strand.name,
    };
    proof {
        let bs = broken_strand(s, *nucl, force_end);
        assert(r@.domains =~= bs.domains);
        assert(r@.junctions =~= bs.junctions);
    }
    r
}

/// Split the strand holding `nucl` at `nucl`.
///
/// On a cyclic strand this breaks the cycle (see [`break_cycle`]) and
/// returns the strand's own identifier.  On a linear strand it divides
/// the strand in two: the half holding `nucl` keeps the original
/// identifier, the other half is stored under the returned fresh
/// identifier `max(existing ids) + 1`, and a half left empty is dropped.
///
/// `force_end` chooses the side that receives `nucl`: `Some(true)` the
/// 3' half, `Some(false)` the 5' half, `None` the 5' half unless `nucl`
/// sits on the 3' side of a crossover.
///
/// Fails with `CutInexistingStrand`, leaving the design unchanged, when
/// no strand holds `nucl` or the strand is a lone nucleotide.
#[verifier::rlimit(100)]
pub fn split_strand(design: &mut Design, nucl: &Nucl, force_end: Option<bool>) -> (r: Result<
    usize,
    ErrOperation,
>)
    requires
        old(design).wf(),
        old(design).max_strand_id_bound(),
    ensures
        final(design).wf(),
        same_but_strands(*old(design), *final(design)),
        forall|k: usize|
            final(design).strands@.contains_key(k) ==> old(design).strands@.contains_key(k) || r
                == Ok::<usize, ErrOperation>(k),
        r matches Ok(v) ==> old(design).strands@.contains_key(v) || (exists|mk: usize|
            old(design).strands@.contains_key(mk) && v == mk + 1 && forall|k: usize|
                #[trigger] old(design).strands@.contains_key(k) ==> k <= mk),
        r == split_spec(old(design).strands@, *nucl, force_end).0,
        final(design).strands@ == split_spec(old(design).strands@, *nucl, force_end).1,
        !some_holder(old(design).strands@, *nucl) ==> r == Err::<usize, ErrOperation>(
            ErrOperation::CutInexistingStrand,
        ) && final(design).strands@ == old(design).strands@,
        forall|id: usize|
            first_holder(old(design).strands@, id, *nucl) ==> {
                let s = old(design).strands@[id];
                if s.cyclic {
                    r == Ok::<usize, ErrOperation>(id) && final(design).strands@
                        == old(design).strands@.insert(id, broken_strand(s, *nucl, force_end))
                } else if s.length() <= 1 {
                    r == Err::<usize, ErrOperation>(ErrOperation::CutInexistingStrand)
                        && final(design).strands@ == old(design).strands@
                } else {
                    r == Ok::<usize, ErrOperation>(fresh_id(old(design).strands@))
                        && final(design).strands@ == split_map(
                        old(design).strands@,
                        id,
                        fresh_id(old(design).strands@),
                        *nucl,
                        force_end,
                    )
                }
            },
{
    let ghost old_map = design.strands@;
    proof {
        reveal(split_spec);
    }
    let id = match design.get_strand_nucl(nucl) {
        Some(id) => id,
        None => {
            proof {
                assert(!some_holder(old_map, *nucl));
            }
            return Err(ErrOperation::CutInexistingStrand);
        },
    };
    proof {
        assert(first_holder(old_map, id, *nucl));
        lemma_least_holder(old_map, *nucl, id);
        lemma_first_holder_unique(old_map, id, holder_of(old_map, *nucl), *nucl);
        assert(forall|id2: usize|
            first_holder(old_map, id2, *nucl) ==> id2 == id && old_map[id2] == old_map[id]);
    }
    let strand = match design.strands.get(id) {
        Some(s) => s.clone_strand(),
        None => {
            proof {
                assert(false);
            }
            return Err(ErrOperation::CutInexistingStrand);
        },
    };
    let ghost s = strand@;
    if strand.cyclic {
        let broken = break_cycle(strand, nucl, force_end);
        design.strands.insert(id, broken);
        return Ok(id);
    }
    if strand.length() <= 1 {
        return Err(ErrOperation::CutInexistingStrand);
    }
    proof {
        let i = choose|i: int|
            0 <= i < s.domains.len() && (#[trigger] s.domains[i]).find_index(*nucl) is Some;
        lemma_scan_finds(s, *nucl, force_end, 0, i);
        lemma_total_len_bounds(s.domains);
        lemma_plan_in_bounds(s, *nucl, force_end, 0);
        lemma_split_safe(s, *nucl, force_end, 0);
        lemma_split_halves(s, *nucl, force_end);
    }
    let plan = scan_split(&strand, nucl, force_end);
    let n = strand.domains.len();
    let (five_domains, five_junctions, cut_at) = match plan {
        SplitPlan::BeforeDomain(i) => {
            let ds = clone_domains_range(&strand.domains, 0, i);
            let mut js = copy_junctions_range(&strand.junctions, 0, i);
            if i > 0 {
                js.set(i - 1, DomainJunction::Prime3);
            }
            let at = prefix_len(&strand, i);
            (ds, js, at)
        },
        SplitPlan::AfterDomain(i) => {
            let ds = clone_domains_range(&strand.domains, 0, i + 1);
            let mut js = copy_junctions_range(&strand.junctions, 0, i);
            js.push(DomainJunction::Prime3);
            let at = prefix_len(&strand, i + 1);
            (ds, js, at)
        },
        SplitPlan::WithinDomain(i, k) => {
            let mut ds = clone_domains_range(&strand.domains, 0, i);
            let mut js = copy_junctions_range(&strand.junctions, 0, i);
            proof {
                let raw = s.domains[i as int].find_index(*nucl).unwrap();
                assert(1 <= raw <= s.domains[i as int].len());
                if force_end != Some(true) {
                    assert(raw < s.domains[i as int].len());
                }
            }
            let p = strand.domains[i].split(k);
            match p {
                Some(p) => {
                    ds.push(p.0);
                },
                None => {
                    proof {
                        assert(false);
                    }
                },
            }
            js.push(DomainJunction::Prime3);
            let at0 = prefix_len(&strand, i);
            proof {
                lemma_total_len_bounds(s.domains.skip(i as int));
                assert(s.domains.take(i as int) + s.domains.skip(i as int) =~= s.domains);
                lemma_total_len_add(s.domains.take(i as int), s.domains.skip(i as int));
                assert(s.domains.skip(i as int)[0] == s.domains[i as int]);
                assert(total_len(s.domains.skip(i as int)) == s.domains[i as int].len()
                    + total_len(s.domains.skip(i as int).drop_first()));
                lemma_total_len_bounds(s.domains.skip(i as int).drop_first());
            }
            let at = at0 + k;
            (ds, js, at)
        },
        SplitPlan::NotFound => {
            proof {
                assert(false);
            }
            return Err(ErrOperation::CutInexistingStrand);
        },
    };
    let (three_domains, three_junctions) = match plan {
        SplitPlan::BeforeDomain(i) => {
            let ds = clone_domains_range(&strand.domains, i, n);
            let js = copy_junctions_range(&strand.junctions, i, n);
            (ds, js)
        },
        SplitPlan::AfterDomain(i) => {
            let ds = clone_domains_range(&strand.domains, i + 1, n);
            let js = copy_junctions_range(&strand.junctions, i + 1, n);
            (ds, js)
        },
        SplitPlan::WithinDomain(i, k) => {
            let mut ds: Vec<Domain> = Vec::new();
            let mut js: Vec<DomainJunction> = Vec::new();
            match strand.domains[i].split(k) {
                Some(p) => {
                    ds.push(p.1);
                },
                None => {
                    proof {
                        assert(false);
                    }
                },
            }
            js.push(strand.junctions[i]);
            let mut tail_ds = clone_domains_range(&strand.domains, i + 1, n);
            let mut tail_js = copy_junctions_range(&strand.junctions, i + 1, n);
            ds.append(&mut tail_ds);
            js.append(&mut tail_js);
            (ds, js)
        },
        SplitPlan::NotFound => {
            proof {
                assert(false);
            }
            return Err(ErrOperation::CutInexistingStrand);
        },
    };
    let (seq5, seq3) = cut_sequence(&strand.sequence, cut_at);
    let on_3prime = match plan {
        SplitPlan::BeforeDomain(_) => true,
        _ => match force_end {
            Some(b) => b,
            None => false,
        },
    };
    let new_id = match design.strands.max_key() {
        Some(m) => m + 1,
        None => {
            proof {
                assert(false);
            }
            0
        },
    };
    proof {
        let mk = max_key_of(old_map);
        assert(old_map.contains_key(mk) && forall|k: usize|
            #[trigger] old_map.contains_key(k) ==> k <= mk);
        assert(new_id == fresh_id(old_map));
    }
    let strand_5prime = Strand {
        domains: five_domains,
        junctions: five_junctions,
        cyclic: false,
        color: strand.color,
        sequence: seq5,
        name: if on_3prime {
            None
        } else {
            match &strand.name {
                Some(nm) => Some(nm.clone()),
                None => None,
            }
        },
    };
    let strand_3prime = Strand {
        domains: three_domains,
        junctions: three_junctions,
        cyclic: false,
        color: strand.color,
        sequence: seq3,
        name: if on_3prime {
            match &strand.name {
                Some(nm) => Some(nm.clone()),
                None => None,
            }
        } else {
            None
        },
    };
    proof {
        assert(strand_5prime@ =~= five_prime_half(s, *nucl, force_end)) by {
            assert(strand_5prime@.domains =~= five_prime_half(s, *nucl, force_end).domains);
            assert(strand_5prime@.junctions =~= five_prime_half(s, *nucl, force_end).junctions);
        }
        assert(strand_3prime@ =~= three_prime_half(s, *nucl, force_end)) by {
            assert(strand_3prime@.domains =~= three_prime_half(s, *nucl, force_end).domains);
            assert(strand_3prime@.junctions =~= three_prime_half(s, *nucl, force_end).junctions);
        }
    }
    let (id_5prime, id_3prime) = if !on_3prime {
        (id, new_id)
    } else {
        (new_id, id)
    };
    design.strands.remove(id);
    if strand_5prime.domains.len() > 0 {
        design.strands.insert(id_5prime, strand_5prime);
    }
    if strand_3prime.domains.len() > 0 {
        design.strands.insert(id_3prime, strand_3prime);
    }
    Ok(new_id)
}

/// A nucleotide held by some strand has a least holder.
pub proof fn lemma_least_holder(m: Map<usize, StrandV>, nucl: Nucl, w: usize)
    requires
        m.contains_key(w),
        strand_has_nucl(m[w], nucl),
    ensures
        exists|id: usize| first_holder(m, id, nucl),
        first_holder(m, holder_of(m, nucl), nucl),
    decreases w,
{
    if forall|id2: usize|
        id2 < w && m.contains_key(id2) ==> !strand_has_nucl(#[trigger] m[id2], nucl) {
        assert(first_holder(m, w, nucl));
    } else {
        let w2 = choose|id2: usize|
            id2 < w && m.contains_key(id2) && strand_has_nucl(#[trigger] m[id2], nucl);
        lemma_least_holder(m, nucl, w2);
    }
}

/// Two least holders of one nucleotide are the same strand.
pub proof fn lemma_first_holder_unique(m: Map<usize, StrandV>, a: usize, b: usize, nucl: Nucl)
    requires
        first_holder(m, a, nucl),
        first_holder(m, b, nucl),
    ensures
        a == b,
{
    if a < b {
        assert(!strand_has_nucl(m[a], nucl));
    }
    if b < a {
        assert(!strand_has_nucl(m[b], nucl));
    }
}

/// An exact copy of a strand collection.
fn clone_strands(src: &crate::idvec::IdVec<Strand>) -> (r: crate::idvec::IdVec<Strand>)
    requires
        src.wf(),
    ensures
        r.wf(),
        r@ == src@,
{
    let n = src.entries.len();
    let mut entries: Vec<(usize, Strand)> = Vec::new();
    let mut i: usize = 0;
    while i < n
        invariant
            src.wf(),
            n == src.entries@.len(),
            0 <= i <= n,
            entries@.len() == i,
            forall|j: int|
                0 <= j < i ==> (#[trigger] entries@[j]).0 == src.entries@[j].0 && entries@[j].1@
                    == src.entries@[j].1@,
        decreases n - i,
    {
        let id = src.entries[i].0;
        let strand = src.entries[i].1.clone_strand();
        entries.push((id, strand));
        i = i + 1;
    }
    let r = crate::idvec::IdVec { entries };
    proof {
        assert forall|a: int, b: int|
            0 <= a < b < r.entries@.len() implies r.entries@[a].0 < r.entries@[b].0 by {
            assert(src.entries@[a].0 < src.entries@[b].0);
        }
        crate::idvec::lemma_map_of_congruent(r.entries@, src.entries@);
    }
    r
}

/// Cut the strand holding `nucl` at `nucl`, dividing it in two.
pub fn cut(design: &mut Design, nucl: &Nucl) -> (r: Result<(), ErrOperation>)
    requires
        old(design).wf(),
        old(design).max_strand_id_bound(),
    ensures
        final(design).wf(),
        same_but_strands(*old(design), *final(design)),
        r is Ok <==> split_spec(old(design).strands@, *nucl, None).0 is Ok,
        r is Err ==> r == Err::<(), ErrOperation>(
            ErrOperation::CutInexistingStrand,
        ) && final(design).strands@ == old(design).strands@,
        r is Ok ==> final(design).strands@ == split_spec(old(design).strands@, *nucl, None).1,
{
    let ghost m = design.strands@;
    let r = split_strand(design, nucl, None);
    proof {
        reveal(split_spec);
        if some_holder(m, *nucl) {
            let w = choose|id: usize|
                m.contains_key(id) && strand_has_nucl(#[trigger] m[id], *nucl);
            lemma_least_holder(m, *nucl, w);
        }
    }
    match r {
        Ok(_) => Ok(()),
        Err(e) => Err(e),
    }
}

/// Join strand `prime3_id` onto strand `prime5_id`, or close the cycle
/// when both name one strand.
pub fn apply_merge(design: &mut Design, prime5_id: usize, prime3_id: usize) -> (r: Result<
    (),
    ErrOperation,
>)
    requires
        old(design).wf(),
        prime5_id == prime3_id && old(design).strands@.contains_key(prime5_id) ==> cycle_closable(
            old(design).strands@[prime5_id],
        ) && old(design).strands@[prime5_id].domains.len() > 0,
    ensures
        final(design).wf(),
        same_but_strands(*old(design), *final(design)),
        prime5_id != prime3_id ==> ({
            let mg = merge_spec(old(design).strands@, prime5_id, prime3_id);
            r == mg.0 && final(design).strands@ == mg.1
        }),
        prime5_id == prime3_id ==> ({
            let mc = cycle_spec(old(design).strands@, prime5_id, true);
            r == mc.0 && final(design).strands@ == mc.1
        }),
{
    proof {
        reveal(merge_spec);
        reveal(cycle_spec);
    }
    if prime5_id != prime3_id {
        merge_strands(design, prime5_id, prime3_id)
    } else {
        make_cycle(design, prime5_id, true)
    }
}

/// Cut the strand holding `nucl` at `nucl`, then join the piece holding
/// `nucl` onto `source_strand`: the merged strand ends under the source
/// strand's identifier, the other piece keeps `target_strand`'s
/// identifier, and the fresh identifier `max(existing ids) + 1` names
/// the entry the merge consumes.  With `target_3prime` the piece
/// holding `nucl` becomes the 3' side of the joint, otherwise its 5'
/// side.  A cut that rejoins one strand onto itself closes the cycle
/// instead.  Any failure leaves the document unchanged.
#[verifier::rlimit(100)]
pub fn cross_cut(
    design: &mut Design,
    source_strand: usize,
    target_strand: usize,
    nucl: &Nucl,
    target_3prime: bool,
) -> (r: Result<(), ErrOperation>)
    requires
        old(design).wf(),
        old(design).max_strand_id_bound(),
        cross_cut_cycle_ok(old(design).strands@, source_strand, target_strand, *nucl, target_3prime),
    ensures
        final(design).wf(),
        same_but_strands(*old(design), *final(design)),
        ({
            let cc = cross_cut_spec(
                old(design).strands@,
                source_strand,
                target_strand,
                *nucl,
                target_3prime,
            );
            r == cc.0 && final(design).strands@ == cc.1
        }),
        r is Err ==> final(design).strands@ == old(design).strands@,
{
    let ghost m = design.strands@;
    proof {
        reveal(cross_cut_spec);
        reveal(split_spec);
        reveal(merge_spec);
        reveal(cycle_spec);
    }
    let saved = clone_strands(&design.strands);
    let new_id = match design.strands.max_key() {
        Some(mx) => mx + 1,
        None => 0,
    };
    let was_cyclic = match design.strands.get(target_strand) {
        Some(s) => s.cyclic,
        None => {
            return Err(ErrOperation::StrandDoesNotExist(target_strand));
        },
    };
    proof {
        let mk = max_key_of(m);
        assert(m.contains_key(mk) && forall|k: usize| #[trigger] m.contains_key(k) ==> k <= mk);
        assert(new_id == fresh_id(m));
        assert(target_strand <= mk);
    }
    let split_result = split_strand(design, nucl, Some(target_3prime));
    proof {
        if some_holder(m, *nucl) {
            let w = choose|id: usize|
                m.contains_key(id) && strand_has_nucl(#[trigger] m[id], *nucl);
            lemma_least_holder(m, *nucl, w);
        }
    }
    if let Err(e) = split_result {
        return Err(e);
    }
    let ghost m1 = design.strands@;
    proof {
        assert(m1 == split_spec(m, *nucl, Some(target_3prime)).1);
    }
    if !was_cyclic && source_strand != target_strand {
        if target_3prime {
            // exchange the two pieces' identifiers: the piece holding
            // nucl takes the fresh identifier and is consumed by the
            // merge, the leftover piece keeps the target strand's
            let half0 = match design.strands.remove(target_strand) {
                Some(h) => h,
                None => {
                    design.strands = saved;
                    return Err(ErrOperation::StrandDoesNotExist(target_strand));
                },
            };
            let half1 = match design.strands.remove(new_id) {
                Some(h) => h,
                None => {
                    design.strands = saved;
                    return Err(ErrOperation::StrandDoesNotExist(new_id));
                },
            };
            design.strands.insert(new_id, half0);
            design.strands.insert(target_strand, half1);
            proof {
                assert(design.strands@ =~= m1.insert(new_id, m1[target_strand]).insert(
                    target_strand,
                    m1[new_id],
                ));
            }
            match merge_strands(design, source_strand, new_id) {
                Ok(_) => Ok(()),
                Err(e) => {
                    design.strands = saved;
                    Err(e)
                },
            }
        } else {
            // rotate the three entries: the piece holding nucl takes the
            // source strand's identifier (it is the 5' side of the
            // joint), the source strand moves under the fresh identifier
            // and is consumed by the merge, and the leftover piece keeps
            // the target strand's
            let src_content = match design.strands.remove(source_strand) {
                Some(h) => h,
                None => {
                    design.strands = saved;
                    return Err(ErrOperation::StrandDoesNotExist(source_strand));
                },
            };
            let leftover = match design.strands.remove(new_id) {
                Some(h) => h,
                None => {
                    design.strands = saved;
                    return Err(ErrOperation::StrandDoesNotExist(new_id));
                },
            };
            let nucl_half = match design.strands.remove(target_strand) {
                Some(h) => h,
                None => {
                    design.strands = saved;
                    return Err(ErrOperation::StrandDoesNotExist(target_strand));
                },
            };
            design.strands.insert(new_id, src_content);
            design.strands.insert(source_strand, nucl_half);
            design.strands.insert(target_strand, leftover);
            proof {
                assert(design.strands@ =~= m1.insert(new_id, m1[source_strand]).insert(
                    source_strand,
                    m1[target_strand],
                ).insert(target_strand, m1[new_id]));
            }
            match merge_strands(design, source_strand, new_id) {
                Ok(_) => Ok(()),
                Err(e) => {
                    design.strands = saved;
                    Err(e)
                },
            }
        }
    } else if source_strand == target_strand {
        match make_cycle(design, source_strand, true) {
            Ok(_) => Ok(()),
            Err(e) => {
                design.strands = saved;
                Err(e)
            },
        }
    } else {
        let merge_result = if target_3prime {
            merge_strands(design, source_strand, target_strand)
        } else {
            merge_strands(design, target_strand, source_strand)
        };
        match merge_result {
            Ok(_) => Ok(()),
            Err(e) => {
                design.strands = saved;
                Err(e)
            },
        }
    }
}

/// Cut the strand holding `nucl` at `nucl` and join the piece holding
/// `nucl` onto `source_strand`, producing one merged strand.
pub fn apply_cross_cut(
    design: &mut Design,
    source_id: usize,
    target_id: usize,
    nucl: Nucl,
    target_3prime: bool,
) -> (r: Result<(), ErrOperation>)
    requires
        old(design).wf(),
        old(design).max_strand_id_bound(),
        cross_cut_cycle_ok(old(design).strands@, source_id, target_id, nucl, target_3prime),
    ensures
        final(design).wf(),
        same_but_strands(*old(design), *final(design)),
        ({
            let cc = cross_cut_spec(old(design).strands@, source_id, target_id, nucl, target_3prime);
            r == cc.0 && final(design).strands@ == cc.1
        }),
{
    cross_cut(design, source_id, target_id, &nucl, target_3prime)
}

/// Result and new strand map of a generalized crossover between
/// `source_nucl` and `target_nucl`: the decision table over whether each
/// nucleotide is a free strand end.
#[verifier::opaque]
pub open spec fn gco_spec(d: Design, source_nucl: Nucl, target_nucl: Nucl) -> (
    Result<(), ErrOperation>,
    Map<usize, StrandV>,
) {
    let m = d.strands@;
    if source_nucl.helix == target_nucl.helix {
        (Err(ErrOperation::XoverOnSameHelix), m)
    } else if !some_holder(m, source_nucl) {
        (Err(ErrOperation::NuclDoesNotExist(source_nucl)), m)
    } else if !some_holder(m, target_nucl) {
        (Err(ErrOperation::NuclDoesNotExist(target_nucl)), m)
    } else {
        let source_id = holder_of(m, source_nucl);
        let target_id = holder_of(m, target_nucl);
        let se = d.strand_end_spec(source_nucl).to_opt_spec();
        let te = d.strand_end_spec(target_nucl).to_opt_spec();
        match (se, te) {
            (Some(true), Some(true)) => (Err(ErrOperation::XoverBetweenTwoPrime3), m),
            (Some(false), Some(false)) => (Err(ErrOperation::XoverBetweenTwoPrime5), m),
            (Some(true), Some(false)) => if source_id == target_id {
                cycle_spec(m, source_id, true)
            } else {
                merge_spec(m, source_id, target_id)
            },
            (Some(false), Some(true)) => if source_id == target_id {
                cycle_spec(m, target_id, true)
            } else {
                merge_spec(m, target_id, source_id)
            },
            (Some(b), None) => cross_cut_spec(m, source_id, target_id, target_nucl, b),
            (None, Some(b)) => cross_cut_spec(m, target_id, source_id, source_nucl, b),
            (None, None) => gco_interior_spec(m, source_id, target_id, source_nucl, target_nucl),
        }
    }
}

/// A split at `source_nucl` followed by a cross-cut at `target_nucl`
/// onto the strand named by `second_opt` (the split's own fresh
/// identifier when `None`); a failed step leaves the map unchanged.
#[verifier::opaque]
pub open spec fn split_cross_spec(
    m: Map<usize, StrandV>,
    source_nucl: Nucl,
    force_end: Option<bool>,
    second_opt: Option<usize>,
    target_nucl: Nucl,
) -> (Result<(), ErrOperation>, Map<usize, StrandV>) {
    let sp = split_spec(m, source_nucl, force_end);
    if sp.0 is Err {
        (Err(sp.0->Err_0), m)
    } else {
        let second = match second_opt {
            Some(s) => s,
            None => sp.0->Ok_0,
        };
        let cc = cross_cut_spec(sp.1, holder_of(m, source_nucl), second, target_nucl, true);
        if cc.0 is Err {
            (cc.0, m)
        } else {
            cc
        }
    }
}

/// The interior-interior arm of [`gco_spec`]: both nucleotides sit
/// strictly inside their strands, so the source strand is split first
/// and the piece is cross-cut onto the target.
#[verifier::opaque]
pub open spec fn gco_interior_spec(
    m: Map<usize, StrandV>,
    source_id: usize,
    target_id: usize,
    source_nucl: Nucl,
    target_nucl: Nucl,
) -> (Result<(), ErrOperation>, Map<usize, StrandV>) {
    if source_id != target_id {
        split_cross_spec(m, source_nucl, None, Some(target_id), target_nucl)
    } else if m[source_id].cyclic {
        split_cross_spec(m, source_nucl, Some(false), Some(target_id), target_nucl)
    } else {
        let pos1 = m[source_id].find_pos(source_nucl);
        let pos2 = m[source_id].find_pos(target_nucl);
        if pos1 is None {
            (Err(ErrOperation::NuclDoesNotExist(source_nucl)), m)
        } else if pos2 is None {
            (Err(ErrOperation::NuclDoesNotExist(target_nucl)), m)
        } else {
            if pos1.unwrap() > pos2.unwrap() {
                split_cross_spec(m, source_nucl, Some(false), Some(target_id), target_nucl)
            } else {
                split_cross_spec(m, source_nucl, Some(false), None, target_nucl)
            }
        }
    }
}

/// A finite, nonempty set of identifiers has a greatest element, so
/// [`max_key_of`] names a real identifier on such documents.
pub proof fn lemma_finite_max(s: Set<usize>)
    requires
        s.finite(),
        s.len() > 0,
    ensures
        exists|mk: usize| s.contains(mk) && forall|k: usize| #[trigger] s.contains(k) ==> k <= mk,
    decreases s.len(),
{
    let x = s.choose();
    assert(s.contains(x));
    if s.remove(x).len() == 0 {
        assert(s.remove(x) =~= Set::<usize>::empty());
        assert forall|k: usize| #[trigger] s.contains(k) implies k <= x by {
            if k != x {
                assert(s.remove(x).contains(k));
            }
        }
    } else {
        lemma_finite_max(s.remove(x));
        let mk2 = choose|mk2: usize|
            s.remove(x).contains(mk2) && forall|k: usize|
                #[trigger] s.remove(x).contains(k) ==> k <= mk2;
        let mk = if x > mk2 {
            x
        } else {
            mk2
        };
        assert(s.contains(mk));
        assert forall|k: usize| #[trigger] s.contains(k) implies k <= mk by {
            if k != x {
                assert(s.remove(x).contains(k));
            }
        }
    }
}

/// The total nucleotide count of a strand map: the sum of the strands'
/// lengths over the identifiers in use.
pub open spec fn map_nucl_total(m: Map<usize, StrandV>) -> int {
    m.dom().fold(0, |acc: int, k: usize| acc + m[k].length())
}

/// Folding a length sum is insensitive to the fold order.
proof fn lemma_len_sum_commutative(m: Map<usize, StrandV>)
    ensures
        vstd::set::fold::is_fun_commutative(|acc: int, k: usize| acc + m[k].length()),
{
}

/// Two maps that agree on a finite set of identifiers sum to the same
/// total over it.
proof fn lemma_total_congruent(m1: Map<usize, StrandV>, m2: Map<usize, StrandV>, s: Set<usize>)
    requires
        s.finite(),
        forall|k: usize| s.contains(k) ==> m1[k] == m2[k],
    ensures
        s.fold(0, |acc: int, k: usize| acc + m1[k].length()) == s.fold(
            0,
            |acc: int, k: usize| acc + m2[k].length(),
        ),
    decreases s.len(),
{
    broadcast use vstd::set::fold::lemma_fold_insert, vstd::set::fold::lemma_fold_empty;

    lemma_len_sum_commutative(m1);
    lemma_len_sum_commutative(m2);
    if s.len() == 0 {
        assert(s =~= Set::<usize>::empty());
    } else {
        let k = s.choose();
        lemma_total_congruent(m1, m2, s.remove(k));
        assert(s.remove(k).insert(k) =~= s);
    }
}

/// Summing over a finite set after taking one identifier out drops that
/// strand's length.
proof fn lemma_total_split(m: Map<usize, StrandV>, s: Set<usize>, k: usize)
    requires
        s.finite(),
        s.contains(k),
    ensures
        s.fold(0, |acc: int, k2: usize| acc + m[k2].length()) == s.remove(k).fold(
            0,
            |acc: int, k2: usize| acc + m[k2].length(),
        ) + m[k].length(),
{
    broadcast use vstd::set::fold::lemma_fold_insert, vstd::set::fold::lemma_fold_empty;

    lemma_len_sum_commutative(m);
    assert(s.remove(k).insert(k) =~= s);
}

/// Writing a strand into the map changes the total by the difference of
/// the lengths.
pub proof fn lemma_total_insert(m: Map<usize, StrandV>, k: usize, v: StrandV)
    requires
        m.dom().finite(),
    ensures
        m.contains_key(k) ==> map_nucl_total(m.insert(k, v)) == map_nucl_total(m) - m[k].length()
            + v.length(),
        !m.contains_key(k) ==> map_nucl_total(m.insert(k, v)) == map_nucl_total(m) + v.length(),
{
    broadcast use vstd::set::fold::lemma_fold_insert, vstd::set::fold::lemma_fold_empty;

    let m2 = m.insert(k, v);
    lemma_len_sum_commutative(m);
    lemma_len_sum_commutative(m2);
    if m.contains_key(k) {
        assert(m2.dom() =~= m.dom());
        lemma_total_split(m2, m2.dom(), k);
        lemma_total_split(m, m.dom(), k);
        assert(m.dom().remove(k) =~= m2.dom().remove(k));
        lemma_total_congruent(m, m2, m.dom().remove(k));
    } else {
        assert(m2.dom() =~= m.dom().insert(k));
        lemma_total_split(m2, m2.dom(), k);
        assert(m2.dom().remove(k) =~= m.dom());
        lemma_total_congruent(m, m2, m.dom());
    }
}

/// Taking a strand out of the map drops its length from the total.
pub proof fn lemma_total_remove(m: Map<usize, StrandV>, k: usize)
    requires
        m.dom().finite(),
    ensures
        m.contains_key(k) ==> map_nucl_total(m.remove(k)) == map_nucl_total(m) - m[k].length(),
        !m.contains_key(k) ==> map_nucl_total(m.remove(k)) == map_nucl_total(m),
{
    lemma_len_sum_commutative(m);
    lemma_len_sum_commutative(m.remove(k));
    if m.contains_key(k) {
        lemma_total_split(m, m.dom(), k);
        assert(m.remove(k).dom() =~= m.dom().remove(k));
        lemma_total_congruent(m, m.remove(k), m.dom().remove(k));
    } else {
        assert(m.remove(k) =~= m);
    }
}

/// Every strand of the map is well formed.
pub open spec fn all_strands_wf(m: Map<usize, StrandV>) -> bool {
    forall|id: usize| m.contains_key(id) ==> (#[trigger] m[id]).wf()
}

/// Splitting a strand keeps the total nucleotide count of the document.
pub proof fn lemma_split_conserves_total(m: Map<usize, StrandV>, nucl: Nucl, force_end: Option<
    bool,
>)
    requires
        m.dom().finite(),
        all_strands_wf(m),
        forall|k: usize| m.contains_key(k) ==> k < usize::MAX,
        split_spec(m, nucl, force_end).0 is Ok,
    ensures
        map_nucl_total(split_spec(m, nucl, force_end).1) == map_nucl_total(m),
{
    reveal(split_spec);
    let id = holder_of(m, nucl);
    let s = m[id];
    let w = choose|w: usize| m.contains_key(w) && strand_has_nucl(#[trigger] m[w], nucl);
    lemma_least_holder(m, nucl, w);
    if s.cyclic {
        let i = choose|i: int|
            0 <= i < s.domains.len() && (#[trigger] s.domains[i]).find_index(nucl) is Some;
        lemma_scan_finds(s, nucl, force_end, 0, i);
        lemma_total_len_bounds(s.domains);
        lemma_plan_in_bounds(s, nucl, force_end, 0);
        lemma_split_safe(s, nucl, force_end, 0);
        lemma_broken(s, nucl, force_end);
        lemma_total_insert(m, id, broken_strand(s, nucl, force_end));
    } else {
        let i = choose|i: int|
            0 <= i < s.domains.len() && (#[trigger] s.domains[i]).find_index(nucl) is Some;
        lemma_scan_finds(s, nucl, force_end, 0, i);
        lemma_total_len_bounds(s.domains);
        lemma_plan_in_bounds(s, nucl, force_end, 0);
        lemma_split_safe(s, nucl, force_end, 0);
        lemma_split_halves(s, nucl, force_end);
        let plan = split_plan(s, nucl, force_end);
        let five = five_prime_half(s, nucl, force_end);
        let three = three_prime_half(s, nucl, force_end);
        let new_id = fresh_id(m);
        let id5 = if on_3prime_side(plan, force_end) {
            new_id
        } else {
            id
        };
        let id3 = if on_3prime_side(plan, force_end) {
            id
        } else {
            new_id
        };
        lemma_finite_max(m.dom());
        let mk = max_key_of(m);
        assert(m.contains_key(mk) && forall|k: usize| #[trigger] m.contains_key(k) ==> k <= mk);
        assert(!m.contains_key(new_id));
        let m1 = m.remove(id);
        lemma_total_remove(m, id);
        assert(five.domains.len() == 0 ==> five.length() == 0);
        assert(three.domains.len() == 0 ==> three.length() == 0);
        let m2 = if five.domains.len() > 0 {
            m1.insert(id5, five)
        } else {
            m1
        };
        if five.domains.len() > 0 {
            lemma_total_insert(m1, id5, five);
        }
        if three.domains.len() > 0 {
            lemma_total_insert(m2, id3, three);
        }
    }
}

/// Merging two strands keeps the total nucleotide count of the document.
pub proof fn lemma_merge_conserves_total(m: Map<usize, StrandV>, prime5: usize, prime3: usize)
    requires
        m.dom().finite(),
        all_strands_wf(m),
        merge_spec(m, prime5, prime3).0 is Ok,
    ensures
        map_nucl_total(merge_spec(m, prime5, prime3).1) == map_nucl_total(m),
{
    reveal(merge_spec);
    let s5 = m[prime5];
    let s3 = m[prime3];
    lemma_merged_strand(s5, s3);
    lemma_total_remove(m, prime3);
    lemma_total_insert(m.remove(prime3), prime5, merged_strand(s5, s3));
}

/// Toggling a strand's cyclic flag keeps the total nucleotide count.
pub proof fn lemma_cycle_conserves_total(m: Map<usize, StrandV>, strand_id: usize, cyclic: bool)
    requires
        m.dom().finite(),
        all_strands_wf(m),
        cycle_spec(m, strand_id, cyclic).0 is Ok,
        m.contains_key(strand_id) && cyclic ==> cycle_closable(m[strand_id]),
    ensures
        map_nucl_total(cycle_spec(m, strand_id, cyclic).1) == map_nucl_total(m),
{
    reveal(cycle_spec);
    if m.contains_key(strand_id) {
        if cyclic {
            lemma_cycled_strand(m[strand_id]);
            lemma_total_insert(m, strand_id, cycled_strand(m[strand_id]));
        } else {
            let s = m[strand_id];
            let t = StrandV {
                junctions: s.junctions.update(s.junctions.len() - 1, DomainJunction::Prime3),
                cyclic: false,
                ..s
            };
            assert(t.length() == s.length());
            lemma_total_insert(m, strand_id, t);
        }
    }
}

/// A cross-cut keeps the total nucleotide count of the document: the
/// split and the merge that compose it both conserve it, and the
/// identifier exchange only moves strands between identifiers.
pub proof fn lemma_cross_cut_conserves_total(
    m: Map<usize, StrandV>,
    source_strand: usize,
    target_strand: usize,
    nucl: Nucl,
    target_3prime: bool,
)
    requires
        m.dom().finite(),
        all_strands_wf(m),
        forall|k: usize| m.contains_key(k) ==> k < usize::MAX,
        cross_cut_spec(m, source_strand, target_strand, nucl, target_3prime).0 is Ok,
        cross_cut_cycle_ok(m, source_strand, target_strand, nucl, target_3prime),
    ensures
        map_nucl_total(cross_cut_spec(m, source_strand, target_strand, nucl, target_3prime).1)
            == map_nucl_total(m),
{
    reveal(cross_cut_spec);
    let new_id = fresh_id(m);
    let was_cyclic = m[target_strand].cyclic;
    let sp = split_spec(m, nucl, Some(target_3prime));
    lemma_split_conserves_total(m, nucl, Some(target_3prime));
    let m1 = sp.1;
    assert(m1.dom().finite() && all_strands_wf(m1)) by {
        lemma_split_wf(m, nucl, Some(target_3prime));
    }
    if !was_cyclic && source_strand != target_strand {
        if target_3prime {
            let m2 = m1.insert(new_id, m1[target_strand]).insert(target_strand, m1[new_id]);
            lemma_total_insert(m1, new_id, m1[target_strand]);
            lemma_total_insert(m1.insert(new_id, m1[target_strand]), target_strand, m1[new_id]);
            lemma_merge_conserves_total(m2, source_strand, new_id);
        } else {
            let m2 = m1.insert(new_id, m1[source_strand]).insert(
                source_strand,
                m1[target_strand],
            ).insert(target_strand, m1[new_id]);
            lemma_total_insert(m1, new_id, m1[source_strand]);
            let ma = m1.insert(new_id, m1[source_strand]);
            lemma_total_insert(ma, source_strand, m1[target_strand]);
            let mb = ma.insert(source_strand, m1[target_strand]);
            lemma_total_insert(mb, target_strand, m1[new_id]);
            lemma_merge_conserves_total(m2, source_strand, new_id);
        }
    } else if source_strand == target_strand {
        lemma_cycle_conserves_total(m1, source_strand, true);
    } else {
        if target_3prime {
            lemma_merge_conserves_total(m1, source_strand, target_strand);
        } else {
            lemma_merge_conserves_total(m1, target_strand, source_strand);
        }
    }
}

/// A split leaves a finite document whose strands are all well formed.
pub proof fn lemma_split_wf(m: Map<usize, StrandV>, nucl: Nucl, force_end: Option<bool>)
    requires
        m.dom().finite(),
        all_strands_wf(m),
        split_spec(m, nucl, force_end).0 is Ok,
    ensures
        split_spec(m, nucl, force_end).1.dom().finite(),
        all_strands_wf(split_spec(m, nucl, force_end).1),
{
    reveal(split_spec);
    let id = holder_of(m, nucl);
    let s = m[id];
    let w = choose|w: usize| m.contains_key(w) && strand_has_nucl(#[trigger] m[w], nucl);
    lemma_least_holder(m, nucl, w);
    let i = choose|i: int|
        0 <= i < s.domains.len() && (#[trigger] s.domains[i]).find_index(nucl) is Some;
    lemma_scan_finds(s, nucl, force_end, 0, i);
    lemma_total_len_bounds(s.domains);
    lemma_plan_in_bounds(s, nucl, force_end, 0);
    lemma_split_safe(s, nucl, force_end, 0);
    if s.cyclic {
        lemma_broken(s, nucl, force_end);
    } else {
        lemma_split_halves(s, nucl, force_end);
    }
}

/// A generalized crossover keeps the total nucleotide count of the
/// document: every branch of its decision table is a composition of
/// splits, merges and cycle closings, and each conserves the count.
pub proof fn lemma_gco_conserves_total(d: Design, source_nucl: Nucl, target_nucl: Nucl)
    requires
        d.strands@.dom().finite(),
        all_strands_wf(d.strands@),
        forall|k: usize| d.strands@.contains_key(k) ==> k < usize::MAX - 1,
        gco_requires(d, source_nucl, target_nucl),
        gco_spec(d, source_nucl, target_nucl).0 is Ok,
    ensures
        map_nucl_total(gco_spec(d, source_nucl, target_nucl).1) == map_nucl_total(d.strands@),
{
    reveal(gco_spec);
    reveal(gco_interior_spec);
    reveal(split_cross_spec);
    let m = d.strands@;
    let source_id = holder_of(m, source_nucl);
    let target_id = holder_of(m, target_nucl);
    let se = d.strand_end_spec(source_nucl).to_opt_spec();
    let te = d.strand_end_spec(target_nucl).to_opt_spec();
    match (se, te) {
        (Some(true), Some(false)) => {
            if source_id == target_id {
                lemma_cycle_conserves_total(m, source_id, true);
            } else {
                lemma_merge_conserves_total(m, source_id, target_id);
            }
        },
        (Some(false), Some(true)) => {
            if source_id == target_id {
                lemma_cycle_conserves_total(m, target_id, true);
            } else {
                lemma_merge_conserves_total(m, target_id, source_id);
            }
        },
        (Some(b), None) => {
            lemma_cross_cut_conserves_total(m, source_id, target_id, target_nucl, b);
        },
        (None, Some(b)) => {
            lemma_cross_cut_conserves_total(m, target_id, source_id, source_nucl, b);
        },
        (None, None) => {
            let force = if source_id != target_id {
                Option::<bool>::None
            } else {
                Some(false)
            };
            let second_opt = if source_id != target_id {
                Some(target_id)
            } else if m[source_id].cyclic {
                Some(target_id)
            } else {
                let pos1 = m[source_id].find_pos(source_nucl);
                let pos2 = m[source_id].find_pos(target_nucl);
                if pos1.unwrap() > pos2.unwrap() {
                    Some(target_id)
                } else {
                    None
                }
            };
            lemma_split_cross_conserves_total(m, source_nucl, force, second_opt, target_nucl);
        },
        _ => {},
    }
}

/// A split followed by a cross-cut keeps the total nucleotide count.
proof fn lemma_split_cross_conserves_total(
    m: Map<usize, StrandV>,
    source_nucl: Nucl,
    force_end: Option<bool>,
    second_opt: Option<usize>,
    target_nucl: Nucl,
)
    requires
        m.dom().finite(),
        all_strands_wf(m),
        forall|k: usize| m.contains_key(k) ==> k < usize::MAX - 1,
        split_cross_spec(m, source_nucl, force_end, second_opt, target_nucl).0 is Ok,
        ({
            let sp = split_spec(m, source_nucl, force_end);
            let second = match second_opt {
                Some(s) => s,
                None => sp.0->Ok_0,
            };
            sp.0 is Ok ==> cross_cut_cycle_ok(
                sp.1,
                holder_of(m, source_nucl),
                second,
                target_nucl,
                true,
            )
        }),
    ensures
        map_nucl_total(split_cross_spec(m, source_nucl, force_end, second_opt, target_nucl).1)
            == map_nucl_total(m),
{
    reveal(split_cross_spec);
    reveal(split_spec);
    let sp = split_spec(m, source_nucl, force_end);
    lemma_split_conserves_total(m, source_nucl, force_end);
    lemma_split_wf(m, source_nucl, force_end);
    let m1 = sp.1;
    let sid = holder_of(m, source_nucl);
    let second = match second_opt {
        Some(s) => s,
        None => sp.0->Ok_0,
    };
    let w = choose|w: usize| m.contains_key(w) && strand_has_nucl(#[trigger] m[w], source_nucl);
    lemma_least_holder(m, source_nucl, w);
    let s = m[sid];
    lemma_finite_max(m.dom());
    let mk = max_key_of(m);
    assert(m.contains_key(mk) && forall|k: usize| #[trigger] m.contains_key(k) ==> k <= mk);
    assert forall|k: usize| m1.contains_key(k) implies k < usize::MAX by {
        if s.cyclic {
            assert(m1 == m.insert(sid, broken_strand(s, source_nucl, force_end)));
        } else {
            assert(m1 == split_map(m, sid, fresh_id(m), source_nucl, force_end));
            if k != fresh_id(m) && !m.contains_key(k) {
                assert(!m1.contains_key(k));
            }
        }
    }
    lemma_cross_cut_conserves_total(m1, sid, second, target_nucl, true);
}

/// Two documents with the same strand values (by id and in order) give
/// one generalized-crossover outcome.
pub proof fn lemma_gco_spec_congruent(a: Design, b: Design, source_nucl: Nucl, target_nucl: Nucl)
    requires
        a.strands@ == b.strands@,
        a.strands_in_order() == b.strands_in_order(),
    ensures
        gco_spec(a, source_nucl, target_nucl) == gco_spec(b, source_nucl, target_nucl),
{
    reveal(gco_spec);
    assert(a.strand_end_spec(source_nucl) == b.strand_end_spec(source_nucl));
    assert(a.strand_end_spec(target_nucl) == b.strand_end_spec(target_nucl));
}

/// The invariant conditions a generalized crossover needs from its
/// document: wherever the decision table reaches the cycle-closing rule,
/// the strand it finds there is closable.
pub open spec fn gco_requires(d: Design, source_nucl: Nucl, target_nucl: Nucl) -> bool {
    let m = d.strands@;
    source_nucl.helix != target_nucl.helix && some_holder(m, source_nucl) && some_holder(
        m,
        target_nucl,
    ) ==> {
        let source_id = holder_of(m, source_nucl);
        let target_id = holder_of(m, target_nucl);
        let se = d.strand_end_spec(source_nucl).to_opt_spec();
        let te = d.strand_end_spec(target_nucl).to_opt_spec();
        match (se, te) {
            (Some(true), Some(false)) => source_id == target_id ==> cycle_closable(m[source_id])
                && m[source_id].domains.len() > 0,
            (Some(false), Some(true)) => source_id == target_id ==> cycle_closable(m[target_id])
                && m[target_id].domains.len() > 0,
            (Some(b), None) => cross_cut_cycle_ok(m, source_id, target_id, target_nucl, b),
            (None, Some(b)) => cross_cut_cycle_ok(m, target_id, source_id, source_nucl, b),
            (None, None) => {
                if source_id != target_id {
                    true
                } else {
                    let sp = split_spec(m, source_nucl, Some(false));
                    sp.0 is Ok ==> cross_cut_cycle_ok(
                        sp.1,
                        source_id,
                        target_id,
                        target_nucl,
                        true,
                    )
                }
            },
            _ => true,
        }
    }
}

/// Create a crossover joining `source_nucl` and `target_nucl`, choosing
/// the minimal sequence of split, merge and cross-cut steps from whether
/// each nucleotide is a free strand end.  A crossover joins two distinct
/// helices; two 3' ends or two 5' ends cannot be joined.  Any failure
/// leaves the document unchanged.
#[verifier::rlimit(100)]
pub fn general_cross_over(design: &mut Design, source_nucl: Nucl, target_nucl: Nucl) -> (r: Result<
    (),
    ErrOperation,
>)
    requires
        old(design).wf(),
        forall|k: usize| old(design).strands@.contains_key(k) ==> k < usize::MAX - 1,
        gco_requires(*old(design), source_nucl, target_nucl),
    ensures
        final(design).wf(),
        same_but_strands(*old(design), *final(design)),
        ({
            let g = gco_spec(*old(design), source_nucl, target_nucl);
            r == g.0 && final(design).strands@ == g.1
        }),
        source_nucl.helix == target_nucl.helix ==> r == Err::<(), ErrOperation>(
            ErrOperation::XoverOnSameHelix,
        ),
        source_nucl.helix != target_nucl.helix && some_holder(old(design).strands@, source_nucl)
            && some_holder(old(design).strands@, target_nucl) && old(design).strand_end_spec(
            source_nucl,
        ) == Extremity::Prime3 && old(design).strand_end_spec(target_nucl) == Extremity::Prime3
            ==> r == Err::<(), ErrOperation>(ErrOperation::XoverBetweenTwoPrime3),
        source_nucl.helix != target_nucl.helix && some_holder(old(design).strands@, source_nucl)
            && some_holder(old(design).strands@, target_nucl) && old(design).strand_end_spec(
            source_nucl,
        ) == Extremity::Prime5 && old(design).strand_end_spec(target_nucl) == Extremity::Prime5
            ==> r == Err::<(), ErrOperation>(ErrOperation::XoverBetweenTwoPrime5),
        r is Err ==> final(design).strands@ == old(design).strands@,
{
    let ghost m = design.strands@;
    proof {
        reveal(gco_spec);
        reveal(merge_spec);
        reveal(cycle_spec);
    }
    if source_nucl.helix == target_nucl.helix {
        return Err(ErrOperation::XoverOnSameHelix);
    }
    let source_id = match design.get_strand_nucl(&source_nucl) {
        Some(id) => id,
        None => {
            return Err(ErrOperation::NuclDoesNotExist(source_nucl));
        },
    };
    let target_id = match design.get_strand_nucl(&target_nucl) {
        Some(id) => id,
        None => {
            return Err(ErrOperation::NuclDoesNotExist(target_nucl));
        },
    };
    proof {
        lemma_least_holder(m, source_nucl, source_id);
        lemma_least_holder(m, target_nucl, target_id);
        lemma_first_holder_unique(m, source_id, holder_of(m, source_nucl), source_nucl);
        lemma_first_holder_unique(m, target_id, holder_of(m, target_nucl), target_nucl);
    }
    let saved = clone_strands(&design.strands);
    let source_end = design.is_strand_end(&source_nucl).to_opt();
    let target_end = design.is_strand_end(&target_nucl).to_opt();
    match (source_end, target_end) {
        (Some(true), Some(true)) => Err(ErrOperation::XoverBetweenTwoPrime3),
        (Some(false), Some(false)) => Err(ErrOperation::XoverBetweenTwoPrime5),
        (Some(true), Some(false)) => {
            if source_id == target_id {
                make_cycle(design, source_id, true)
            } else {
                merge_strands(design, source_id, target_id)
            }
        },
        (Some(false), Some(true)) => {
            if source_id == target_id {
                make_cycle(design, target_id, true)
            } else {
                merge_strands(design, target_id, source_id)
            }
        },
        (Some(b), None) => cross_cut(design, source_id, target_id, &target_nucl, b),
        (None, Some(b)) => cross_cut(design, target_id, source_id, &source_nucl, b),
        (None, None) => gco_interior(design, source_id, target_id, source_nucl, target_nucl, saved),
    }
}

/// Splitting a linear strand and merging the two halves back restores
/// the strand's ordered nucleotide content and its total length; only
/// junction labels at the seam and strand identifiers may differ.
pub proof fn lemma_split_merge_inverse(s: StrandV, nucl: Nucl, force_end: Option<bool>)
    requires
        s.wf(),
        !s.cyclic,
        strand_has_nucl(s, nucl),
        s.length() <= isize::MAX,
    ensures
        ({
            let five = five_prime_half(s, nucl, force_end);
            let three = three_prime_half(s, nucl, force_end);
            &&& merged_strand(five, three).nucls() == s.nucls()
            &&& merged_strand(five, three).length() == s.length()
            &&& merged_strand(five, three).wf()
        }),
{
    let i = choose|i: int|
        0 <= i < s.domains.len() && (#[trigger] s.domains[i]).find_index(nucl) is Some;
    lemma_scan_finds(s, nucl, force_end, 0, i);
    lemma_total_len_bounds(s.domains);
    lemma_plan_in_bounds(s, nucl, force_end, 0);
    lemma_split_safe(s, nucl, force_end, 0);
    lemma_split_halves(s, nucl, force_end);
    let five = five_prime_half(s, nucl, force_end);
    let three = three_prime_half(s, nucl, force_end);
    if merge_fuses(five, three) {
        assert(five.domains.last().wf());
        assert(three.domains[0].wf());
        lemma_total_len_bounds(five.domains.drop_last());
        assert(five.domains =~= five.domains.drop_last() + seq![five.domains.last()]);
        lemma_total_len_add(five.domains.drop_last(), seq![five.domains.last()]);
        lemma_total_len_singleton(five.domains.last());
        assert(three.domains =~= seq![three.domains[0]] + three.domains.drop_first());
        lemma_total_len_add(seq![three.domains[0]], three.domains.drop_first());
        lemma_total_len_singleton(three.domains[0]);
        lemma_total_len_bounds(three.domains.drop_first());
        assert(five.domains.last().len() + three.domains[0].len() <= isize::MAX);
    }
    lemma_merged_strand(five, three);
}

/// Re-closing the cycle after it was broken at `nucl` restores a cyclic
/// strand whose nucleotide sequence is the original one rotated to start
/// at the break: read from the break point, the two agree.
pub proof fn lemma_cycle_round_trip(s: StrandV, nucl: Nucl, force_end: Option<bool>)
    requires
        s.wf(),
        s.cyclic,
        strand_has_nucl(s, nucl),
        cycle_closable(broken_strand(s, nucl, force_end)),
    ensures
        ({
            let back = cycled_strand(broken_strand(s, nucl, force_end));
            let cut = nucl_cut(s, split_plan(s, nucl, force_end));
            &&& back.cyclic
            &&& back.length() == s.length()
            &&& back.nucls() == s.nucls().skip(cut) + s.nucls().take(cut)
        }),
{
    let i = choose|i: int|
        0 <= i < s.domains.len() && (#[trigger] s.domains[i]).find_index(nucl) is Some;
    lemma_scan_finds(s, nucl, force_end, 0, i);
    lemma_total_len_bounds(s.domains);
    lemma_plan_in_bounds(s, nucl, force_end, 0);
    lemma_split_safe(s, nucl, force_end, 0);
    lemma_broken(s, nucl, force_end);
    lemma_cycled_strand(broken_strand(s, nucl, force_end));
}

/// A split at `source_nucl` followed by a cross-cut of the piece at
/// `target_nucl`, rolling the document back if the second step fails.
#[verifier::rlimit(100)]
fn split_then_cross(
    design: &mut Design,
    sid: usize,
    source_nucl: Nucl,
    force_end: Option<bool>,
    second_opt: Option<usize>,
    target_nucl: Nucl,
    saved: crate::idvec::IdVec<Strand>,
) -> (r: Result<(), ErrOperation>)
    requires
        old(design).wf(),
        forall|k: usize| old(design).strands@.contains_key(k) ==> k < usize::MAX - 1,
        first_holder(old(design).strands@, sid, source_nucl),
        ({
            let sp = split_spec(old(design).strands@, source_nucl, force_end);
            let second = match second_opt {
                Some(s) => s,
                None => sp.0->Ok_0,
            };
            sp.0 is Ok ==> cross_cut_cycle_ok(sp.1, sid, second, target_nucl, true)
        }),
        saved.wf(),
        saved@ == old(design).strands@,
    ensures
        final(design).wf(),
        same_but_strands(*old(design), *final(design)),
        ({
            let g = split_cross_spec(
                old(design).strands@,
                source_nucl,
                force_end,
                second_opt,
                target_nucl,
            );
            r == g.0 && final(design).strands@ == g.1
        }),
        r is Err ==> final(design).strands@ == old(design).strands@,
{
    let ghost m = design.strands@;
    proof {
        reveal(split_cross_spec);
        lemma_least_holder(m, source_nucl, sid);
        lemma_first_holder_unique(m, sid, holder_of(m, source_nucl), source_nucl);
    }
    let new_id = match split_strand(design, &source_nucl, force_end) {
        Ok(id) => id,
        Err(e) => {
            return Err(e);
        },
    };
    let second = match second_opt {
        Some(s) => s,
        None => new_id,
    };
    proof {
        assert(split_spec(m, source_nucl, force_end).0 == Ok::<usize, ErrOperation>(new_id));
        assert(design.strands@ == split_spec(m, source_nucl, force_end).1);
    }
    let ghost m1 = design.strands@;
    match cross_cut(design, sid, second, &target_nucl, true) {
        Ok(_) => {
            proof {
                reveal(split_cross_spec);
                assert(design.strands@ == cross_cut_spec(m1, sid, second, target_nucl, true).1);
                let g = split_cross_spec(m, source_nucl, force_end, second_opt, target_nucl);
                assert(g.0 is Ok);
                assert(g.0 == Ok::<(), ErrOperation>(g.0->Ok_0));
                assert(g.0 == Ok::<(), ErrOperation>(()));
            }
            Ok(())
        },
        Err(e) => {
            design.strands = saved;
            proof {
                reveal(split_cross_spec);
                assert(cross_cut_spec(m1, sid, second, target_nucl, true).0 == Err::<
                    (),
                    ErrOperation,
                >(e));
                let g = split_cross_spec(m, source_nucl, force_end, second_opt, target_nucl);
                assert(g.0 == Err::<(), ErrOperation>(e));
            }
            Err(e)
        },
    }
}

/// The interior-interior case of [`general_cross_over`]: both
/// nucleotides sit strictly inside their strands, so the source strand
/// is split first and the piece is cross-cut onto the target.
fn gco_interior(
    design: &mut Design,
    source_id: usize,
    target_id: usize,
    source_nucl: Nucl,
    target_nucl: Nucl,
    saved: crate::idvec::IdVec<Strand>,
) -> (r: Result<(), ErrOperation>)
    requires
        old(design).wf(),
        forall|k: usize| old(design).strands@.contains_key(k) ==> k < usize::MAX - 1,
        first_holder(old(design).strands@, source_id, source_nucl),
        first_holder(old(design).strands@, target_id, target_nucl),
        source_id == target_id ==> ({
            let sp = split_spec(old(design).strands@, source_nucl, Some(false));
            sp.0 is Ok ==> cross_cut_cycle_ok(sp.1, source_id, target_id, target_nucl, true)
        }),
        saved.wf(),
        saved@ == old(design).strands@,
    ensures
        final(design).wf(),
        same_but_strands(*old(design), *final(design)),
        ({
            let g = gco_interior_spec(
                old(design).strands@,
                source_id,
                target_id,
                source_nucl,
                target_nucl,
            );
            r == g.0 && final(design).strands@ == g.1
        }),
        r is Err ==> final(design).strands@ == old(design).strands@,
{
    let ghost m = design.strands@;
    proof {
        reveal(gco_interior_spec);
        reveal(split_spec);
    }
    let mx = design.strands.max_key();
    proof {
        assert(m.contains_key(source_id));
        assert(mx is Some);
        let mk = max_key_of(m);
        assert(m.contains_key(mk) && forall|k: usize| #[trigger] m.contains_key(k) ==> k <= mk);
        assert(fresh_id(m) > source_id);
    }
    if source_id != target_id {
        split_then_cross(design, source_id, source_nucl, None, Some(target_id), target_nucl, saved)
    } else {
        let source_cyclic = match design.strands.get(source_id) {
            Some(s) => s.cyclic,
            None => {
                proof {
                    assert(false);
                }
                false
            },
        };
        if source_cyclic {
            split_then_cross(
                design,
                source_id,
                source_nucl,
                Some(false),
                Some(target_id),
                target_nucl,
                saved,
            )
        } else {
            let (pos1, pos2) = match design.strands.get(source_id) {
                Some(s) => {
                    let p1 = match s.find_nucl(&source_nucl) {
                        Some(p) => p,
                        None => {
                            return Err(ErrOperation::NuclDoesNotExist(source_nucl));
                        },
                    };
                    let p2 = match s.find_nucl(&target_nucl) {
                        Some(p) => p,
                        None => {
                            return Err(ErrOperation::NuclDoesNotExist(target_nucl));
                        },
                    };
                    (p1, p2)
                },
                None => {
                    proof {
                        assert(false);
                    }
                    return Err(ErrOperation::NuclDoesNotExist(source_nucl));
                },
            };
            if pos1 > pos2 {
                split_then_cross(
                    design,
                    source_id,
                    source_nucl,
                    Some(false),
                    Some(target_id),
                    target_nucl,
                    saved,
                )
            } else {
                split_then_cross(
                    design,
                    source_id,
                    source_nucl,
                    Some(false),
                    None,
                    target_nucl,
                    saved,
                )
            }
        }
    }
}

} // verus!

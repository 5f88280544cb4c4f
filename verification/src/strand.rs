//! Strands: ordered chains of domains with junction labels.

use vstd::prelude::*;

use crate::domain::{Domain, DomainJunction, DomainV};
use crate::domain::HelixInterval;
use crate::nucl::Nucl;

verus! {

/// One continuous (or cyclic) piece of nucleic acid: an ordered list of
/// domains, one junction label per domain, and presentation data.
///
/// The junction at index `i` records the relationship between domain
/// `i`'s 3' end and domain `i + 1`'s 5' end; on a cyclic strand the last
/// junction joins the last domain back to the first, on a linear strand
/// it is the terminal `Prime3` label.
pub struct Strand {
    /// The domains in 5' to 3' order.
    pub domains: Vec<Domain>,
    /// One junction label per domain.
    pub junctions: Vec<DomainJunction>,
    /// Whether the strand's 3' end connects back to its 5' end.
    pub cyclic: bool,
    /// Display color of the strand.
    pub color: u32,
    /// Optional full base sequence of the strand, 5' to 3'.
    pub sequence: Option<String>,
    /// Optional display name.
    pub name: Option<String>,
}

/// Mathematical value of a [`Strand`].
pub ghost struct StrandV {
    pub domains: Seq<DomainV>,
    pub junctions: Seq<DomainJunction>,
    pub cyclic: bool,
    pub color: u32,
    pub sequence: Option<Seq<char>>,
    pub name: Option<Seq<char>>,
}

impl View for Strand {
    type V = StrandV;

    open spec fn view(&self) -> StrandV {
        StrandV {
            domains: self.domains@.map_values(|d: Domain| d@),
            junctions: self.junctions@,
            cyclic: self.cyclic,
            sequence: match self.sequence {
                Some(s) => Some(s@),
                None => None,
            },
            name: match self.name {
                Some(s) => Some(s@),
                None => None,
            },
            color: self.color,
        }
    }
}

/// Total number of nucleotides held by a list of domains, insertions
/// included.
pub open spec fn total_len(doms: Seq<DomainV>) -> int
    decreases doms.len(),
{
    if doms.len() == 0 {
        0
    } else {
        doms[0].len() + total_len(doms.drop_first())
    }
}

/// The helix nucleotides of a list of domains, in 5' to 3' order.
/// Insertions contribute none: their bases sit on no helix.
pub open spec fn nucls_of(doms: Seq<DomainV>) -> Seq<Nucl>
    decreases doms.len(),
{
    if doms.len() == 0 {
        Seq::empty()
    } else {
        doms[0].nucls() + nucls_of(doms.drop_first())
    }
}

/// Total length distributes over concatenation.
pub proof fn lemma_total_len_add(a: Seq<DomainV>, b: Seq<DomainV>)
    ensures
        total_len(a + b) == total_len(a) + total_len(b),
    decreases a.len(),
{
    if a.len() == 0 {
        assert(a + b =~= b);
    } else {
        assert((a + b).drop_first() =~= a.drop_first() + b);
        lemma_total_len_add(a.drop_first(), b);
    }
}

/// Nucleotide content distributes over concatenation.
pub proof fn lemma_nucls_of_add(a: Seq<DomainV>, b: Seq<DomainV>)
    ensures
        nucls_of(a + b) == nucls_of(a) + nucls_of(b),
    decreases a.len(),
{
    if a.len() == 0 {
        assert(a + b =~= b);
        assert(nucls_of(a) + nucls_of(b) =~= nucls_of(b));
    } else {
        assert((a + b).drop_first() =~= a.drop_first() + b);
        lemma_nucls_of_add(a.drop_first(), b);
        assert(nucls_of(a + b) =~= nucls_of(a) + nucls_of(b));
    }
}

/// Total length of a single-domain list.
pub proof fn lemma_total_len_singleton(d: DomainV)
    ensures
        total_len(seq![d]) == d.len(),
{
    assert(seq![d].drop_first() =~= Seq::<DomainV>::empty());
    assert(total_len(seq![d]) == seq![d][0].len() + total_len(seq![d].drop_first()));
    assert(seq![d][0] == d);
    assert(total_len(Seq::<DomainV>::empty()) == 0);
}

/// Nucleotide content of a single-domain list.
pub proof fn lemma_nucls_of_singleton(d: DomainV)
    ensures
        nucls_of(seq![d]) == d.nucls(),
{
    assert(seq![d].drop_first() =~= Seq::<DomainV>::empty());
    assert(d.nucls() + nucls_of(Seq::<DomainV>::empty()) =~= d.nucls());
}

/// Every domain of the list is well formed.
pub open spec fn all_domains_wf(doms: Seq<DomainV>) -> bool {
    forall|i: int| 0 <= i < doms.len() ==> (#[trigger] doms[i]).wf()
}

/// A list of well-formed domains holds at least one nucleotide per domain.
pub proof fn lemma_total_len_bounds(doms: Seq<DomainV>)
    requires
        all_domains_wf(doms),
    ensures
        total_len(doms) >= doms.len(),
    decreases doms.len(),
{
    if doms.len() > 0 {
        assert(doms[0].wf());
        lemma_total_len_bounds(doms.drop_first());
    }
}

impl StrandV {
    /// Total number of nucleotides of the strand, insertions included.
    pub open spec fn length(self) -> int {
        total_len(self.domains)
    }

    /// The helix nucleotides of the strand in 5' to 3' order.
    pub open spec fn nucls(self) -> Seq<Nucl> {
        nucls_of(self.domains)
    }

    /// Well-formedness: one junction per domain, every domain non-empty
    /// and in bounds, the total length within machine range, the
    /// terminal `Prime3` label exactly on the last junction of a linear
    /// strand and nowhere else.
    pub open spec fn wf(self) -> bool {
        &&& self.domains.len() == self.junctions.len()
        &&& all_domains_wf(self.domains)
        &&& total_len(self.domains) <= usize::MAX
        &&& forall|i: int|
            0 <= i < self.junctions.len() - 1 ==> self.junctions[i] != DomainJunction::Prime3
        &&& !self.cyclic && self.junctions.len() > 0 ==> self.junctions.last()
            == DomainJunction::Prime3
        &&& self.cyclic ==> forall|i: int|
            0 <= i < self.junctions.len() ==> self.junctions[i] != DomainJunction::Prime3
    }
}

impl Strand {
    /// A new linear strand of a single nucleotide.
    pub fn init(helix: usize, position: isize, forward: bool, color: u32) -> (r: Strand)
        requires
            isize::MIN < position < isize::MAX,
        ensures
            r@.wf(),
            !r@.cyclic,
            r@.color == color,
            r@.nucls() =~= seq![Nucl { helix, position, forward }],
            r@.length() == 1,
            r@.domains.len() == 1,
            r@.sequence is None,
    {
        let domain = Domain::HelixDomain(
            HelixInterval {
                helix,
                start: position,
                end: position + 1,
                forward,
                sequence: None,
            },
        );
        let strand = Strand {
            domains: vec![domain],
            junctions: vec![DomainJunction::Prime3],
            cyclic: false,
            color,
            sequence: None,
            name: None,
        };
        proof {
            assert(strand@.domains =~= seq![strand.domains@[0]@]);
            lemma_nucls_of_singleton(strand@.domains[0]);
            lemma_total_len_singleton(strand@.domains[0]);
            assert(strand@.domains[0].nucls() =~= seq![Nucl { helix, position, forward }]);
        }
        strand
    }

    /// Total number of nucleotides of the strand, insertions included.
    pub fn length(&self) -> (r: usize)
        requires
            self@.wf(),
        ensures
            r == self@.length(),
    {
        let ghost doms = self@.domains;
        let mut total: usize = 0;
        let mut i: usize = 0;
        proof {
            assert(doms.take(0) =~= Seq::empty());
        }
        while i < self.domains.len()
            invariant
                self@.wf(),
                doms == self@.domains,
                0 <= i <= self.domains.len(),
                total == total_len(doms.take(i as int)),
                total <= usize::MAX,
            decreases self.domains.len() - i,
        {
            proof {
                assert(doms.take(i + 1).drop_last() =~= doms.take(i as int));
                assert(doms.take(i + 1) =~= doms.take(i as int) + seq![doms[i as int]]);
                lemma_total_len_add(doms.take(i as int), seq![doms[i as int]]);
                lemma_total_len_singleton(doms[i as int]);
                // the whole list bounds the prefix
                assert(doms.take(i + 1) + doms.skip(i + 1) =~= doms);
                lemma_total_len_add(doms.take(i + 1), doms.skip(i + 1));
                assert(all_domains_wf(doms.skip(i + 1)));
                lemma_total_len_bounds(doms.skip(i + 1));
                assert(total_len(doms.take(i + 1)) <= total_len(doms));
            }
            total = total + self.domains[i].length();
            i = i + 1;
        }
        proof {
            assert(doms.take(doms.len() as int) =~= doms);
        }
        total
    }

    /// The 5'-end nucleotide of the strand: the 5' extremity of its
    /// first helix interval, if it has one.
    pub fn get_5prime(&self) -> (r: Option<Nucl>)
        requires
            self@.wf(),
        ensures
            r matches Some(n) ==> self@.nucls().len() > 0 && n == self@.nucls()[0],
            r is None ==> self@.nucls().len() == 0,
    {
        let ghost doms = self@.domains;
        let mut i: usize = 0;
        while i < self.domains.len()
            invariant
                self@.wf(),
                doms == self@.domains,
                0 <= i <= doms.len(),
                nucls_of(doms.take(i as int)) =~= Seq::<Nucl>::empty(),
            decreases self.domains.len() - i,
        {
            proof {
                assert(doms.take(i + 1).drop_last() =~= doms.take(i as int));
                assert(doms.take(i + 1) =~= doms.take(i as int) + seq![doms[i as int]]);
                lemma_nucls_of_add(doms.take(i as int), seq![doms[i as int]]);
                lemma_nucls_of_singleton(doms[i as int]);
                assert(doms.take(i + 1) + doms.skip(i + 1) =~= doms);
                lemma_nucls_of_add(doms.take(i + 1), doms.skip(i + 1));
            }
            match &self.domains[i] {
                Domain::HelixDomain(interval) => {
                    let n = interval.prime5();
                    proof {
                        assert(doms[i as int].nucls()[0] == n);
                        assert(nucls_of(seq![doms[i as int]]) =~= doms[i as int].nucls());
                        assert(self@.nucls()[0] == n);
                    }
                    return Some(n);
                },
                Domain::Insertion(_) => {
                    proof {
                        assert(nucls_of(doms.take(i + 1)) =~= Seq::<Nucl>::empty());
                    }
                },
            }
            i = i + 1;
        }
        proof {
            assert(doms.take(doms.len() as int) =~= doms);
        }
        None
    }

    /// The 3'-end nucleotide of the strand: the 3' extremity of its last
    /// helix interval, if it has one.
    pub fn get_3prime(&self) -> (r: Option<Nucl>)
        requires
            self@.wf(),
        ensures
            r matches Some(n) ==> self@.nucls().len() > 0 && n == self@.nucls().last(),
            r is None ==> self@.nucls().len() == 0,
    {
        let ghost doms = self@.domains;
        let mut i: usize = self.domains.len();
        while i > 0
            invariant
                self@.wf(),
                doms == self@.domains,
                0 <= i <= doms.len(),
                nucls_of(doms.skip(i as int)) =~= Seq::<Nucl>::empty(),
            decreases i,
        {
            i = i - 1;
            proof {
                assert(doms.skip(i as int) =~= seq![doms[i as int]] + doms.skip(i + 1));
                lemma_nucls_of_add(seq![doms[i as int]], doms.skip(i + 1));
                lemma_nucls_of_singleton(doms[i as int]);
                assert(doms.take(i as int) + doms.skip(i as int) =~= doms);
                lemma_nucls_of_add(doms.take(i as int), doms.skip(i as int));
            }
            match &self.domains[i] {
                Domain::HelixDomain(interval) => {
                    let n = interval.prime3();
                    proof {
                        let k = doms[i as int].nucls().len();
                        assert(doms[i as int].nucls()[k - 1] == n);
                        assert(self@.nucls().last() == n);
                    }
                    return Some(n);
                },
                Domain::Insertion(_) => {
                    proof {
                        assert(nucls_of(doms.skip(i as int)) =~= Seq::<Nucl>::empty());
                    }
                },
            }
        }
        proof {
            assert(doms.skip(0) =~= doms);
        }
        None
    }

    /// Zero-based position of `nucl` along the strand, counting every
    /// nucleotide (insertions included) from the 5' end; `None` when no
    /// domain of the strand holds `nucl`.
    pub fn find_nucl(&self, nucl: &Nucl) -> (r: Option<usize>)
        requires
            self@.wf(),
        ensures
            r matches Some(p) ==> self@.find_pos(*nucl) == Some(p as int),
            r matches Some(p) ==> strand_has_nucl(self@, *nucl),
            r is None ==> self@.find_pos(*nucl) is None,
            r is None ==> !strand_has_nucl(self@, *nucl),
    {
        let ghost doms = self@.domains;
        let mut acc: usize = 0;
        let mut i: usize = 0;
        proof {
            assert(doms.take(0) =~= Seq::empty());
        }
        while i < self.domains.len()
            invariant
                self@.wf(),
                doms == self@.domains,
                0 <= i <= doms.len(),
                acc == total_len(doms.take(i as int)),
                acc <= usize::MAX,
                self@.find_pos(*nucl) == pos_scan(doms, *nucl, i as int, acc as int),
                forall|j: int|
                    0 <= j < i ==> (#[trigger] doms[j]).find_index(*nucl) is None,
            decreases self.domains.len() - i,
        {
            proof {
                assert(doms.take(i + 1).drop_last() =~= doms.take(i as int));
                assert(doms.take(i + 1) =~= doms.take(i as int) + seq![doms[i as int]]);
                lemma_total_len_add(doms.take(i as int), seq![doms[i as int]]);
                lemma_total_len_singleton(doms[i as int]);
                assert(doms.take(i + 1) + doms.skip(i + 1) =~= doms);
                lemma_total_len_add(doms.take(i + 1), doms.skip(i + 1));
                assert(all_domains_wf(doms.skip(i + 1)));
                lemma_total_len_bounds(doms.skip(i + 1));
            }
            if let Some(k) = self.domains[i].has_nucl(nucl) {
                proof {
                    assert(doms[i as int].find_index(*nucl) == Some(k as int));
                    assert(1 <= k <= doms[i as int].len());
                }
                return Some(acc + k - 1);
            }
            acc = acc + self.domains[i].length();
            i = i + 1;
        }
        None
    }

    /// A copy of this strand.
    pub fn clone_strand(&self) -> (r: Strand)
        ensures
            r@ == self@,
    {
        let mut domains: Vec<Domain> = Vec::new();
        let mut i: usize = 0;
        while i < self.domains.len()
            invariant
                0 <= i <= self.domains.len(),
                domains@.len() == i,
                forall|j: int| 0 <= j < i ==> (#[trigger] domains@[j])@ == self@.domains[j],
            decreases self.domains.len() - i,
        {
            domains.push(self.domains[i].clone_domain());
            i = i + 1;
        }
        let mut junctions: Vec<DomainJunction> = Vec::new();
        let mut j: usize = 0;
        while j < self.junctions.len()
            invariant
                0 <= j <= self.junctions.len(),
                junctions@ =~= self.junctions@.take(j as int),
            decreases self.junctions.len() - j,
        {
            junctions.push(self.junctions[j]);
            j = j + 1;
        }
        let r = Strand {
            domains,
            junctions,
            cyclic: self.cyclic,
            color: self.color,
            sequence: match &self.sequence {
                Some(s) => Some(s.clone()),
                None => None,
            },
            name: match &self.name {
                Some(s) => Some(s.clone()),
                None => None,
            },
        };
        proof {
            assert(r@.domains =~= self@.domains);
            assert(r@.junctions =~= self@.junctions);
        }
        r
    }
}

/// The zero-based position of `nucl` along the domains, scanning from
/// domain `i` with `acc` nucleotides already passed.
pub open spec fn pos_scan(doms: Seq<DomainV>, nucl: Nucl, i: int, acc: int) -> Option<int>
    decreases doms.len() - i,
{
    if i < 0 || i >= doms.len() {
        None
    } else {
        match doms[i].find_index(nucl) {
            Some(k) => Some(acc + k - 1),
            None => pos_scan(doms, nucl, i + 1, acc + doms[i].len()),
        }
    }
}

impl StrandV {
    /// Zero-based position of `nucl` along the strand, counting every
    /// nucleotide from the 5' end.
    pub open spec fn find_pos(self, nucl: Nucl) -> Option<int> {
        pos_scan(self.domains, nucl, 0, 0)
    }
}

/// Whether some domain of the strand holds `nucl`.
pub open spec fn strand_has_nucl(s: StrandV, nucl: Nucl) -> bool {
    exists|i: int|
        0 <= i < s.domains.len() && (#[trigger] s.domains[i]).find_index(nucl) is Some
}

} // verus!

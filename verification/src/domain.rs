//! Domains: the pieces a strand is made of.
//!
//! A domain is either a contiguous interval of nucleotides on one helix,
//! or an insertion: a loop of synthetic bases with no helix attachment.
//! A junction label records the topological relationship between a
//! domain's 3' end and the next domain's 5' end.

use vstd::prelude::*;

use crate::nucl::Nucl;

verus! {

/// A contiguous run of nucleotides on one helix.
///
/// The run covers the offsets `start <= p < end`.  On a forward interval
/// the 5' end is at `start` and the 3' end at `end - 1`; on a backward
/// interval the two are swapped.
pub struct HelixInterval {
    /// Identifier of the helix the interval lies on.
    pub helix: usize,
    /// First offset of the interval.
    pub start: isize,
    /// One past the last offset of the interval.
    pub end: isize,
    /// Direction of the strand along the helix.
    pub forward: bool,
    /// Optional explicit base sequence of the interval, 5' to 3'.
    pub sequence: Option<String>,
}

/// Mathematical value of a [`HelixInterval`].
pub ghost struct HelixIntervalV {
    pub helix: usize,
    pub start: int,
    pub end: int,
    pub forward: bool,
    pub sequence: Option<Seq<char>>,
}

impl View for HelixInterval {
    type V = HelixIntervalV;

    open spec fn view(&self) -> HelixIntervalV {
        HelixIntervalV {
            helix: self.helix,
            start: self.start as int,
            end: self.end as int,
            forward: self.forward,
            sequence: match self.sequence {
                Some(s) => Some(s@),
                None => None,
            },
        }
    }
}

impl HelixIntervalV {
    /// An interval is well formed when it is non-empty, its bounds leave
    /// room to step one position outward without overflow, and its length
    /// fits in a machine word.
    pub open spec fn wf(self) -> bool {
        &&& isize::MIN < self.start < self.end <= isize::MAX
        &&& self.end - self.start <= isize::MAX
    }

    /// Number of nucleotides in the interval.
    pub open spec fn len(self) -> int {
        self.end - self.start
    }

    /// The nucleotide at the 5' extremity.
    pub open spec fn prime5(self) -> Nucl {
        Nucl {
            helix: self.helix,
            position: if self.forward {
                self.start as isize
            } else {
                (self.end - 1) as isize
            },
            forward: self.forward,
        }
    }

    /// The nucleotide at the 3' extremity.
    pub open spec fn prime3(self) -> Nucl {
        Nucl {
            helix: self.helix,
            position: if self.forward {
                (self.end - 1) as isize
            } else {
                self.start as isize
            },
            forward: self.forward,
        }
    }

    /// The nucleotides of the interval in 5' to 3' order.
    pub open spec fn nucls(self) -> Seq<Nucl> {
        Seq::new(
            self.len() as nat,
            |i: int|
                Nucl {
                    helix: self.helix,
                    position: if self.forward {
                        (self.start + i) as isize
                    } else {
                        (self.end - 1 - i) as isize
                    },
                    forward: self.forward,
                },
        )
    }
}

impl HelixInterval {
    /// Number of nucleotides in the interval.
    pub fn length(&self) -> (r: usize)
        requires
            self@.wf(),
        ensures
            r == self@.len(),
    {
        (self.end - self.start) as usize
    }

    /// The nucleotide at the 5' extremity.
    pub fn prime5(&self) -> (r: Nucl)
        requires
            self@.wf(),
        ensures
            r == self@.prime5(),
    {
        if self.forward {
            Nucl { helix: self.helix, position: self.start, forward: true }
        } else {
            Nucl { helix: self.helix, position: self.end - 1, forward: false }
        }
    }

    /// The nucleotide at the 3' extremity.
    pub fn prime3(&self) -> (r: Nucl)
        requires
            self@.wf(),
        ensures
            r == self@.prime3(),
    {
        if self.forward {
            Nucl { helix: self.helix, position: self.end - 1, forward: true }
        } else {
            Nucl { helix: self.helix, position: self.start, forward: false }
        }
    }

    /// A copy of this interval.
    pub fn clone_interval(&self) -> (r: HelixInterval)
        ensures
            r@ == self@,
    {
        HelixInterval {
            helix: self.helix,
            start: self.start,
            end: self.end,
            forward: self.forward,
            sequence: match &self.sequence {
                Some(s) => Some(s.clone()),
                None => None,
            },
        }
    }
}

/// One piece of a strand.
pub enum Domain {
    /// A contiguous interval of nucleotides on one helix.
    HelixDomain(HelixInterval),
    /// A loop of that many synthetic bases, attached to no helix.
    Insertion(usize),
}

/// Mathematical value of a [`Domain`].
pub ghost enum DomainV {
    HelixDomain(HelixIntervalV),
    Insertion(int),
}

impl View for Domain {
    type V = DomainV;

    open spec fn view(&self) -> DomainV {
        match self {
            Domain::HelixDomain(i) => DomainV::HelixDomain(i@),
            Domain::Insertion(n) => DomainV::Insertion(*n as int),
        }
    }
}

impl DomainV {
    /// A domain is well formed when it holds at least one nucleotide and
    /// its interval, if any, is well formed.
    pub open spec fn wf(self) -> bool {
        match self {
            DomainV::HelixDomain(i) => i.wf(),
            DomainV::Insertion(n) => 1 <= n <= usize::MAX,
        }
    }

    /// Number of nucleotides the domain contributes to its strand.
    pub open spec fn len(self) -> int {
        match self {
            DomainV::HelixDomain(i) => i.len(),
            DomainV::Insertion(n) => n,
        }
    }

    /// The helix the domain lies on, if it is an interval.
    pub open spec fn helix(self) -> Option<usize> {
        match self {
            DomainV::HelixDomain(i) => Some(i.helix),
            DomainV::Insertion(_) => None,
        }
    }

    /// Helix and direction of the domain, if it is an interval.
    pub open spec fn half_helix(self) -> Option<(usize, bool)> {
        match self {
            DomainV::HelixDomain(i) => Some((i.helix, i.forward)),
            DomainV::Insertion(_) => None,
        }
    }

    /// The nucleotide at the domain's 5' extremity, if it is an interval.
    pub open spec fn prime5_end(self) -> Option<Nucl> {
        match self {
            DomainV::HelixDomain(i) => Some(i.prime5()),
            DomainV::Insertion(_) => None,
        }
    }

    /// The nucleotide at the domain's 3' extremity, if it is an interval.
    pub open spec fn prime3_end(self) -> Option<Nucl> {
        match self {
            DomainV::HelixDomain(i) => Some(i.prime3()),
            DomainV::Insertion(_) => None,
        }
    }

    /// The helix nucleotides of the domain in 5' to 3' order.  An
    /// insertion contributes none: its bases sit on no helix.
    pub open spec fn nucls(self) -> Seq<Nucl> {
        match self {
            DomainV::HelixDomain(i) => i.nucls(),
            DomainV::Insertion(_) => Seq::empty(),
        }
    }

    /// One-based index of `nucl` from the 5' end of the domain, if the
    /// domain is an interval that contains it.
    pub open spec fn find_index(self, nucl: Nucl) -> Option<int> {
        match self {
            DomainV::HelixDomain(i) => {
                if i.helix == nucl.helix && i.forward == nucl.forward && i.start
                    <= nucl.position < i.end {
                    if i.forward {
                        Some(nucl.position - i.start + 1)
                    } else {
                        Some(i.end - nucl.position)
                    }
                } else {
                    None
                }
            },
            DomainV::Insertion(_) => None,
        }
    }
}

impl Domain {
    /// Number of nucleotides the domain contributes to its strand.
    pub fn length(&self) -> (r: usize)
        requires
            self@.wf(),
        ensures
            r == self@.len(),
    {
        match self {
            Domain::HelixDomain(i) => i.length(),
            Domain::Insertion(n) => *n,
        }
    }

    /// The helix the domain lies on, if it is an interval.
    pub fn helix(&self) -> (r: Option<usize>)
        ensures
            r == self@.helix(),
    {
        match self {
            Domain::HelixDomain(i) => Some(i.helix),
            Domain::Insertion(_) => None,
        }
    }

    /// Helix and direction of the domain, if it is an interval.
    pub fn half_helix(&self) -> (r: Option<(usize, bool)>)
        ensures
            r == self@.half_helix(),
    {
        match self {
            Domain::HelixDomain(i) => Some((i.helix, i.forward)),
            Domain::Insertion(_) => None,
        }
    }

    /// The nucleotide at the domain's 5' extremity, if it is an interval.
    pub fn prime5_end(&self) -> (r: Option<Nucl>)
        requires
            self@.wf(),
        ensures
            r == self@.prime5_end(),
    {
        match self {
            Domain::HelixDomain(i) => Some(i.prime5()),
            Domain::Insertion(_) => None,
        }
    }

    /// The nucleotide at the domain's 3' extremity, if it is an interval.
    pub fn prime3_end(&self) -> (r: Option<Nucl>)
        requires
            self@.wf(),
        ensures
            r == self@.prime3_end(),
    {
        match self {
            Domain::HelixDomain(i) => Some(i.prime3()),
            Domain::Insertion(_) => None,
        }
    }

    /// One-based index of `nucl` from the 5' end, if this domain is an
    /// interval containing it.
    pub fn has_nucl(&self, nucl: &Nucl) -> (r: Option<usize>)
        requires
            self@.wf(),
        ensures
            r matches Some(n) ==> self@.find_index(*nucl) == Some(n as int),
            r is None ==> self@.find_index(*nucl) is None,
    {
        match self {
            Domain::HelixDomain(i) => {
                if i.helix == nucl.helix && i.forward == nucl.forward && i.start <= nucl.position
                    && nucl.position < i.end {
                    if i.forward {
                        Some((nucl.position - i.start + 1) as usize)
                    } else {
                        Some((i.end - nucl.position) as usize)
                    }
                } else {
                    None
                }
            },
            Domain::Insertion(_) => None,
        }
    }

    /// A copy of this domain.
    pub fn clone_domain(&self) -> (r: Domain)
        ensures
            r@ == self@,
    {
        match self {
            Domain::HelixDomain(i) => Domain::HelixDomain(i.clone_interval()),
            Domain::Insertion(n) => Domain::Insertion(*n),
        }
    }
}

/// A sequence cut at character `k`, clamped to the sequence's length:
/// the part kept by the 5'-side piece.
pub open spec fn seq_cut_left(s: Option<Seq<char>>, k: int) -> Option<Seq<char>> {
    match s {
        Some(cs) => Some(cs.take(if k <= cs.len() { k } else { cs.len() as int })),
        None => None,
    }
}

/// A sequence cut at character `k`, clamped: the part kept by the
/// 3'-side piece.
pub open spec fn seq_cut_right(s: Option<Seq<char>>, k: int) -> Option<Seq<char>> {
    match s {
        Some(cs) => Some(cs.skip(if k <= cs.len() { k } else { cs.len() as int })),
        None => None,
    }
}

impl HelixIntervalV {
    /// The 5'-side piece of the interval split after its `k`-th nucleotide.
    pub open spec fn split_left(self, k: int) -> HelixIntervalV {
        HelixIntervalV {
            start: if self.forward {
                self.start
            } else {
                self.end - k
            },
            end: if self.forward {
                self.start + k
            } else {
                self.end
            },
            sequence: seq_cut_left(self.sequence, k),
            ..self
        }
    }

    /// The 3'-side piece of the interval split after its `k`-th nucleotide.
    pub open spec fn split_right(self, k: int) -> HelixIntervalV {
        HelixIntervalV {
            start: if self.forward {
                self.start + k
            } else {
                self.start
            },
            end: if self.forward {
                self.end
            } else {
                self.end - k
            },
            sequence: seq_cut_right(self.sequence, k),
            ..self
        }
    }
}

/// The two pieces of a domain divided after its `k`-th nucleotide:
/// defined when the domain is a helix interval and both pieces are
/// non-empty.
pub open spec fn dom_split(d: DomainV, k: int) -> Option<(DomainV, DomainV)> {
    match d {
        DomainV::HelixDomain(i) => {
            if 0 < k < i.len() {
                Some((DomainV::HelixDomain(i.split_left(k)), DomainV::HelixDomain(i.split_right(k))))
            } else {
                None
            }
        },
        DomainV::Insertion(_) => None,
    }
}

/// Whether the 3'-side domain `b` directly continues the 5'-side domain
/// `a` on one helix: same helix, same direction, and `b` starts at the
/// nucleotide right after `a`'s 3' end.
pub open spec fn dom_adjacent(a: DomainV, b: DomainV) -> bool {
    match (a, b) {
        (DomainV::HelixDomain(i), DomainV::HelixDomain(j)) => {
            &&& i.helix == j.helix
            &&& i.forward == j.forward
            &&& if i.forward {
                j.start == i.end
            } else {
                j.end == i.start
            }
        },
        _ => false,
    }
}

/// The concatenation of two optional sequences: both present gives their
/// concatenation, otherwise no sequence is kept.
pub open spec fn seq_merge(a: Option<Seq<char>>, b: Option<Seq<char>>) -> Option<Seq<char>> {
    match (a, b) {
        (Some(x), Some(y)) => Some(x + y),
        _ => None,
    }
}

/// The single interval covering two adjacent intervals `a` then `b`.
pub open spec fn dom_merged(a: DomainV, b: DomainV) -> DomainV
    recommends
        dom_adjacent(a, b),
{
    match (a, b) {
        (DomainV::HelixDomain(i), DomainV::HelixDomain(j)) => DomainV::HelixDomain(
            HelixIntervalV {
                start: if i.forward {
                    i.start
                } else {
                    j.start
                },
                end: if i.forward {
                    j.end
                } else {
                    i.end
                },
                sequence: seq_merge(i.sequence, j.sequence),
                ..i
            },
        ),
        _ => a,
    }
}

impl Domain {
    /// Divide the domain after its `n`-th nucleotide (counted from the 5'
    /// end).  Succeeds exactly when the domain is a helix interval and
    /// both pieces are non-empty; an explicit sequence is cut at the same
    /// boundary.
    pub fn split(&self, n: usize) -> (r: Option<(Domain, Domain)>)
        requires
            self@.wf(),
        ensures
            r matches Some(p) ==> dom_split(self@, n as int) == Some((p.0@, p.1@)),
            r is None ==> dom_split(self@, n as int) is None,
            r matches Some(p) ==> p.0@.wf() && p.1@.wf(),
    {
        match self {
            Domain::HelixDomain(i) => {
                let len = i.length();
                if 0 < n && n < len {
                    let (seq_left, seq_right) = match &i.sequence {
                        Some(s) => {
                            let slen = s.as_str().unicode_len();
                            let cut = if n <= slen {
                                n
                            } else {
                                slen
                            };
                            let left = s.as_str().substring_char(0, cut).to_owned();
                            let right = s.as_str().substring_char(cut, slen).to_owned();
                            proof {
                                assert(left@ =~= seq_cut_left(i@.sequence, n as int).unwrap());
                                assert(right@ =~= seq_cut_right(i@.sequence, n as int).unwrap());
                            }
                            (Some(left), Some(right))
                        },
                        None => (None, None),
                    };
                    if i.forward {
                        Some(
                            (
                                Domain::HelixDomain(
                                    HelixInterval {
                                        helix: i.helix,
                                        start: i.start,
                                        end: i.start + n as isize,
                                        forward: true,
                                        sequence: seq_left,
                                    },
                                ),
                                Domain::HelixDomain(
                                    HelixInterval {
                                        helix: i.helix,
                                        start: i.start + n as isize,
                                        end: i.end,
                                        forward: true,
                                        sequence: seq_right,
                                    },
                                ),
                            ),
                        )
                    } else {
                        Some(
                            (
                                Domain::HelixDomain(
                                    HelixInterval {
                                        helix: i.helix,
                                        start: i.end - n as isize,
                                        end: i.end,
                                        forward: false,
                                        sequence: seq_left,
                                    },
                                ),
                                Domain::HelixDomain(
                                    HelixInterval {
                                        helix: i.helix,
                                        start: i.start,
                                        end: i.end - n as isize,
                                        forward: false,
                                        sequence: seq_right,
                                    },
                                ),
                            ),
                        )
                    }
                } else {
                    None
                }
            },
            Domain::Insertion(_) => None,
        }
    }

    /// Fuse the directly adjacent interval `other` (the 3' side) into
    /// `self` (the 5' side), producing the single covering interval.
    pub fn merge(&mut self, other: &Domain)
        requires
            old(self)@.wf(),
            other@.wf(),
            dom_adjacent(old(self)@, other@),
            old(self)@.len() + other@.len() <= isize::MAX,
        ensures
            final(self)@ == dom_merged(old(self)@, other@),
            final(self)@.wf(),
    {
        match (&*self, other) {
            (Domain::HelixDomain(i), Domain::HelixDomain(j)) => {
                let sequence = match (&i.sequence, &j.sequence) {
                    (Some(x), Some(y)) => Some(x.clone().concat(y.as_str())),
                    _ => None,
                };
                let merged = HelixInterval {
                    helix: i.helix,
                    start: if i.forward {
                        i.start
                    } else {
                        j.start
                    },
                    end: if i.forward {
                        j.end
                    } else {
                        i.end
                    },
                    forward: i.forward,
                    sequence,
                };
                *self = Domain::HelixDomain(merged);
            },
            _ => {
                proof {
                    assert(false);
                }
            },
        }
    }
}

/// The topological relationship between a domain's 3' end and the next
/// domain's 5' end (or, on a cyclic strand, between the last domain and
/// the first).
#[derive(Clone, Copy, Debug, PartialEq, Eq, Structural)]
pub enum DomainJunction {
    /// The two ends are consecutive nucleotides on one helix.
    Adjacent,
    /// A crossover that the registry has not identified yet.
    UnidentifiedXover,
    /// A crossover registered under this identifier.
    IdentifiedXover(usize),
    /// Terminal label of the last domain of a linear strand.
    Prime3,
}

/// The junction label owed between two consecutive helix intervals:
/// `Adjacent` when `prime3`'s 5' end is the direct 3'-neighbour of
/// `prime5`'s 3' end on the same helix, an unidentified crossover
/// otherwise.
pub open spec fn junction_spec(prime5: HelixIntervalV, prime3: HelixIntervalV) -> DomainJunction {
    if prime3.prime5() == prime5.prime3().prime3_spec() {
        DomainJunction::Adjacent
    } else {
        DomainJunction::UnidentifiedXover
    }
}

/// Classify the junction between two consecutive helix intervals.
pub fn junction(prime5: &HelixInterval, prime3: &HelixInterval) -> (r: DomainJunction)
    requires
        prime5@.wf(),
        prime3@.wf(),
    ensures
        r == junction_spec(prime5@, prime3@),
{
    let prime5_nucl = prime5.prime3();
    let prime3_nucl = prime3.prime5();
    if prime3_nucl == prime5_nucl.prime3() {
        DomainJunction::Adjacent
    } else {
        DomainJunction::UnidentifiedXover
    }
}

} // verus!

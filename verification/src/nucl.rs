//! Nucleotide coordinates.
//!
//! A nucleotide is addressed by the helix it sits on, its integer offset
//! along that helix, and the direction of the strand that passes through
//! it.  Moving one step toward the 3' end increases the position on a
//! forward strand and decreases it on a backward strand.

use vstd::prelude::*;

verus! {

/// Address of one nucleotide in a design.
#[derive(Clone, Copy, Debug, PartialEq, Eq, Structural)]
pub struct Nucl {
    /// Identifier of the helix the nucleotide sits on.
    pub helix: usize,
    /// Offset of the nucleotide along the helix.
    pub position: isize,
    /// Direction of the strand through this nucleotide on this helix.
    pub forward: bool,
}

impl Nucl {
    /// The neighbour of `self` one step toward the 3' end, on the same helix.
    pub open spec fn prime3_spec(self) -> Nucl {
        Nucl {
            position: if self.forward {
                (self.position + 1) as isize
            } else {
                (self.position - 1) as isize
            },
            ..self
        }
    }

    /// The neighbour of `self` one step toward the 5' end, on the same helix.
    pub open spec fn prime5_spec(self) -> Nucl {
        Nucl {
            position: if self.forward {
                (self.position - 1) as isize
            } else {
                (self.position + 1) as isize
            },
            ..self
        }
    }

    /// True when stepping toward the 3' end neither overflows nor underflows.
    pub open spec fn can_step_3(self) -> bool {
        if self.forward {
            self.position < isize::MAX
        } else {
            self.position > isize::MIN
        }
    }

    /// True when stepping toward the 5' end neither overflows nor underflows.
    pub open spec fn can_step_5(self) -> bool {
        if self.forward {
            self.position > isize::MIN
        } else {
            self.position < isize::MAX
        }
    }

    /// The adjacent nucleotide one step toward the 3' end.
    pub fn prime3(&self) -> (r: Nucl)
        requires
            self.can_step_3(),
        ensures
            r == self.prime3_spec(),
    {
        Nucl {
            helix: self.helix,
            position: if self.forward {
                self.position + 1
            } else {
                self.position - 1
            },
            forward: self.forward,
        }
    }

    /// The adjacent nucleotide one step toward the 5' end.
    pub fn prime5(&self) -> (r: Nucl)
        requires
            self.can_step_5(),
        ensures
            r == self.prime5_spec(),
    {
        Nucl {
            helix: self.helix,
            position: if self.forward {
                self.position - 1
            } else {
                self.position + 1
            },
            forward: self.forward,
        }
    }

    /// The nucleotide one position to the left (smaller offset), same direction.
    pub fn left(&self) -> (r: Nucl)
        requires
            self.position > isize::MIN,
        ensures
            r == (Nucl { position: (self.position - 1) as isize, ..*self }),
    {
        Nucl { helix: self.helix, position: self.position - 1, forward: self.forward }
    }

    /// The nucleotide one position to the right (larger offset), same direction.
    pub fn right(&self) -> (r: Nucl)
        requires
            self.position < isize::MAX,
        ensures
            r == (Nucl { position: (self.position + 1) as isize, ..*self }),
    {
        Nucl { helix: self.helix, position: self.position + 1, forward: self.forward }
    }

    /// The paired neighbour: same helix and position, opposite direction.
    pub fn compl(&self) -> (r: Nucl)
        ensures
            r == (Nucl { forward: !self.forward, ..*self }),
    {
        Nucl { helix: self.helix, position: self.position, forward: !self.forward }
    }
}

/// Where a nucleotide sits relative to the ends of the strand that
/// contains it.
#[derive(Clone, Copy, Debug, PartialEq, Eq, Structural)]
pub enum Extremity {
    /// The nucleotide is not an end of its strand.
    Inside,
    /// The nucleotide is the 5' end of its strand.
    Prime5,
    /// The nucleotide is the 3' end of its strand.
    Prime3,
}

impl Extremity {
    /// `Some(true)` for a 3' end, `Some(false)` for a 5' end, `None` inside.
    pub open spec fn to_opt_spec(self) -> Option<bool> {
        match self {
            Extremity::Inside => None,
            Extremity::Prime5 => Some(false),
            Extremity::Prime3 => Some(true),
        }
    }

    /// `Some(true)` for a 3' end, `Some(false)` for a 5' end, `None` inside.
    pub fn to_opt(&self) -> (r: Option<bool>)
        ensures
            r == self.to_opt_spec(),
    {
        match self {
            Extremity::Inside => None,
            Extremity::Prime5 => Some(false),
            Extremity::Prime3 => Some(true),
        }
    }

    /// True when the nucleotide is an end of its strand.
    pub fn is_end(&self) -> (r: bool)
        ensures
            r == (*self != Extremity::Inside),
    {
        match self {
            Extremity::Inside => false,
            _ => true,
        }
    }
}

} // verus!

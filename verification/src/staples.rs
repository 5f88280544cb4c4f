//! Staple bookkeeping: reading a staple's position intervals along the
//! scaffold.
//!
//! Walking a staple's nucleotides pairs each with its position on the
//! scaffold, when the complement sits on the scaffold.  A reader folds
//! that walk into maximal intervals: runs on one scaffold domain become
//! `(first, last)` scaffold positions, runs off the scaffold become
//! `(-1, -length)`.

use vstd::prelude::*;

use crate::nucl::Nucl;

verus! {

/// One staple row of the export table.
pub struct Staple {
    /// The well of the plate holding this staple.
    pub well: String,
    /// Display name of the staple.
    pub name: String,
    /// The staple's base sequence.
    pub sequence: String,
    /// The plate holding this staple.
    pub plate: usize,
    /// The staple's color, as a hexadecimal string.
    pub color_str: String,
    /// The names of the groups the staple belongs to.
    pub group_names: Vec<String>,
    /// The group names joined for display.
    pub group_names_string: String,
    /// The staple's domain decomposition, for display.
    pub domain_decomposition: String,
    /// The staple's length, for display.
    pub length_str: String,
    /// Where the staple sits along the scaffold.
    pub intervals: StapleIntervals,
}

/// Where a staple sits along the scaffold.
pub struct StapleIntervals {
    /// Identifier of the staple strand.
    pub staple_id: usize,
    /// Maximal runs of consecutive scaffold positions; `(-1, -n)` stands
    /// for a run of `n` nucleotides off the scaffold.
    pub intervals: Vec<(isize, isize)>,
}

/// A loose 3' strand end to highlight in the view.
#[derive(Clone, Copy, Debug, PartialEq, Eq, Structural)]
pub struct Prime3End {
    /// The 3'-end nucleotide.
    pub nucl: Nucl,
    /// Highlight color.
    pub color: u32,
}

/// The scaffold position paired with one staple nucleotide.
#[derive(Clone, Copy, Debug, PartialEq, Eq, Structural)]
pub struct ScaffoldPosition {
    /// The scaffold domain the complement sits on.
    pub domain_id: usize,
    /// The position of the complement along the scaffold.
    pub scaffold_position: usize,
}

/// The run of staple nucleotides being folded into one interval.
#[derive(Clone, Copy, Debug, PartialEq, Eq, Structural)]
pub enum StapleDomain {
    /// A run paired with one scaffold domain.
    ScaffoldDomain { domain_id: usize, first_scaffold_position: usize, last_scaffold_position: usize },
    /// A run of that many nucleotides off the scaffold.
    OtherDomain { length: usize },
}

/// What reading one more position does to the run.
pub enum ReadResult {
    /// The run absorbs the position and goes on.
    Continue(StapleDomain),
    /// The run is closed as `interval` and a fresh run starts.
    Stop { interval: (isize, isize), new_reader: StapleDomain },
}

impl StapleDomain {
    /// Every stored position leaves room in the signed range.
    pub open spec fn wf(self) -> bool {
        match self {
            StapleDomain::ScaffoldDomain { first_scaffold_position, last_scaffold_position, .. } => {
                first_scaffold_position <= isize::MAX && last_scaffold_position <= isize::MAX
            },
            StapleDomain::OtherDomain { length } => length <= isize::MAX,
        }
    }

    /// A fresh run starting at the given position: a scaffold run of one
    /// position, or an off-scaffold run not yet holding the nucleotide.
    pub fn init(scaffold_position: Option<ScaffoldPosition>) -> (r: StapleDomain)
        requires
            scaffold_position matches Some(p) ==> p.scaffold_position <= isize::MAX,
        ensures
            r == (match scaffold_position {
                Some(pos) => StapleDomain::ScaffoldDomain {
                    domain_id: pos.domain_id,
                    first_scaffold_position: pos.scaffold_position,
                    last_scaffold_position: pos.scaffold_position,
                },
                None => StapleDomain::OtherDomain { length: 0 },
            }),
            r.wf(),
    {
        if let Some(pos) = scaffold_position {
            Self::ScaffoldDomain {
                domain_id: pos.domain_id,
                first_scaffold_position: pos.scaffold_position,
                last_scaffold_position: pos.scaffold_position,
            }
        } else {
            Self::OtherDomain { length: 0 }
        }
    }

    /// A fresh run that already absorbed the position that closed the
    /// previous run: like [`StapleDomain::init`], but an off-scaffold
    /// run already holds one nucleotide.
    pub fn reset(scaffold_position: Option<ScaffoldPosition>) -> (r: StapleDomain)
        requires
            scaffold_position matches Some(p) ==> p.scaffold_position <= isize::MAX,
        ensures
            r == (match scaffold_position {
                Some(pos) => StapleDomain::ScaffoldDomain {
                    domain_id: pos.domain_id,
                    first_scaffold_position: pos.scaffold_position,
                    last_scaffold_position: pos.scaffold_position,
                },
                None => StapleDomain::OtherDomain { length: 1 },
            }),
            r.wf(),
    {
        if let Some(pos) = scaffold_position {
            Self::ScaffoldDomain {
                domain_id: pos.domain_id,
                first_scaffold_position: pos.scaffold_position,
                last_scaffold_position: pos.scaffold_position,
            }
        } else {
            Self::OtherDomain { length: 1 }
        }
    }

    /// The interval this run stands for: `(first, last)` scaffold
    /// positions, or `(-1, -n)` for `n` nucleotides off the scaffold.
    pub fn finish(&self) -> (r: (isize, isize))
        requires
            self.wf(),
        ensures
            r == (match *self {
                StapleDomain::OtherDomain { length } => (-1isize, (-(length as int)) as isize),
                StapleDomain::ScaffoldDomain {
                    first_scaffold_position,
                    last_scaffold_position,
                    ..
                } => (first_scaffold_position as isize, last_scaffold_position as isize),
            }),
    {
        match self {
            Self::OtherDomain { length } => (-1, -(*length as isize)),
            Self::ScaffoldDomain { first_scaffold_position, last_scaffold_position, .. } => (
                *first_scaffold_position as isize,
                *last_scaffold_position as isize,
            ),
        }
    }

    /// Absorb one more position: the run continues when the position
    /// extends it (same scaffold domain, or still off the scaffold),
    /// and closes otherwise, handing back its interval and a fresh run.
    pub fn read_position(self, position: Option<ScaffoldPosition>) -> (r: ReadResult)
        requires
            self.wf(),
            self matches StapleDomain::OtherDomain { length } ==> length < isize::MAX,
            position matches Some(p) ==> p.scaffold_position <= isize::MAX,
        ensures
            r matches ReadResult::Continue(d) ==> d.wf(),
            r matches ReadResult::Stop { new_reader, .. } ==> new_reader.wf(),
            (match self {
                StapleDomain::OtherDomain { length } => {
                    if position is None {
                        r == ReadResult::Continue(
                            StapleDomain::OtherDomain { length: (length + 1) as usize },
                        )
                    } else {
                        r matches ReadResult::Stop { interval, new_reader } && interval == (
                            -1isize,
                            (-(length as int)) as isize,
                        ) && new_reader == StapleDomain::ScaffoldDomain {
                            domain_id: position.unwrap().domain_id,
                            first_scaffold_position: position.unwrap().scaffold_position,
                            last_scaffold_position: position.unwrap().scaffold_position,
                        }
                    }
                },
                StapleDomain::ScaffoldDomain {
                    domain_id,
                    first_scaffold_position,
                    last_scaffold_position,
                } => {
                    if position is Some && position.unwrap().domain_id == domain_id {
                        r == ReadResult::Continue(
                            StapleDomain::ScaffoldDomain {
                                domain_id,
                                first_scaffold_position,
                                last_scaffold_position: position.unwrap().scaffold_position,
                            },
                        )
                    } else {
                        r matches ReadResult::Stop { interval, new_reader } && interval == (
                            first_scaffold_position as isize,
                            last_scaffold_position as isize,
                        ) && new_reader == (match position {
                            Some(pos) => StapleDomain::ScaffoldDomain {
                                domain_id: pos.domain_id,
                                first_scaffold_position: pos.scaffold_position,
                                last_scaffold_position: pos.scaffold_position,
                            },
                            None => StapleDomain::OtherDomain { length: 1 },
                        })
                    }
                },
            }),
    {
        match self {
            Self::OtherDomain { length } => {
                if position.is_none() {
                    ReadResult::Continue(Self::OtherDomain { length: length + 1 })
                } else {
                    ReadResult::Stop { interval: self.finish(), new_reader: Self::reset(position) }
                }
            },
            Self::ScaffoldDomain { domain_id, first_scaffold_position, last_scaffold_position } => {
                let continues = match &position {
                    Some(p) => p.domain_id == domain_id,
                    None => false,
                };
                if continues {
                    let p = match position {
                        Some(p) => p,
                        None => ScaffoldPosition { domain_id: 0, scaffold_position: 0 },
                    };
                    ReadResult::Continue(
                        Self::ScaffoldDomain {
                            domain_id,
                            first_scaffold_position,
                            last_scaffold_position: p.scaffold_position,
                        },
                    )
                } else {
                    ReadResult::Stop { interval: self.finish(), new_reader: Self::reset(position) }
                }
            },
        }
    }
}

} // verus!

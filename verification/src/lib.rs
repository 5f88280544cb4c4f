//! Strand-topology core of a DNA-nanostructure design editor.
//!
//! A design is a collection of strands; a strand is an ordered list of
//! domains (helix intervals or insertions) with one junction label per
//! domain.  This crate holds the data model, the strand mutation
//! algorithms (split, break-cycle, merge, make-cycle, cross-cut,
//! generalized crossover), the crossover-id registry, and the editing
//! session state machine that sequences the operations and classifies
//! their results for undo/redo.

pub mod nucl;
pub mod domain;
pub mod strand;
pub mod idvec;
pub mod design;
pub mod operations;
pub mod id_handler;
pub mod fog;
pub mod staples;
pub mod mediator;
pub mod misc;
pub mod xover_ids;
pub mod controller;

use vstd::prelude::*;

verus! {

/// The number of helices a freshly created spherical design starts with.
pub fn default_number_of_helices() -> (r: usize)
    ensures
        r == 60,
{
    60
}

} // verus!

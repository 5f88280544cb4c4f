//! Named, reversible edit operations as the undo panel displays them.
//!
//! Each named operation carries the identifiers it edits, knows its
//! reverse, and describes its editable parameters.

use vstd::prelude::*;

verus! {

/// The kind of value one editable parameter takes.
pub enum ParameterField {
    /// A choice among the listed labels.
    Choice(Vec<String>),
    /// A free value.
    Value,
}

/// One editable parameter of a named operation.
pub struct Parameter {
    /// The kind of value the parameter takes.
    pub field: ParameterField,
    /// Display name of the parameter.
    pub name: String,
}

/// Creation of one helix on a grid slot.
#[derive(Debug, Clone, Copy, PartialEq, Eq, Structural)]
pub struct GridHelixCreation {
    /// The design edited.
    pub design_id: usize,
    /// The grid receiving the helix.
    pub grid_id: usize,
    /// Lattice abscissa of the slot.
    pub x: isize,
    /// Lattice ordinate of the slot.
    pub y: isize,
}

/// Deletion of one helix from a grid slot.
#[derive(Debug, Clone, Copy, PartialEq, Eq, Structural)]
pub struct GridHelixDeletion {
    /// The design edited.
    pub design_id: usize,
    /// The grid losing the helix.
    pub grid_id: usize,
    /// Lattice abscissa of the slot.
    pub x: isize,
    /// Lattice ordinate of the slot.
    pub y: isize,
}

impl GridHelixCreation {
    /// The operation that undoes this one: deleting the same helix.
    pub fn reverse(&self) -> (r: GridHelixDeletion)
        ensures
            r.design_id == self.design_id,
            r.grid_id == self.grid_id,
            r.x == self.x,
            r.y == self.y,
    {
        GridHelixDeletion {
            design_id: self.design_id,
            grid_id: self.grid_id,
            x: self.x,
            y: self.y,
        }
    }

    /// The design this operation targets.
    pub fn target(&self) -> (r: usize)
        ensures
            r == self.design_id,
    {
        self.design_id
    }

    /// The editable parameters: the two lattice coordinates.
    pub fn parameters(&self) -> (r: Vec<Parameter>)
        ensures
            r@.len() == 2,
            r@[0].name@ == "x"@,
            r@[1].name@ == "y"@,
    {
        let mut r: Vec<Parameter> = Vec::new();
        r.push(Parameter { field: ParameterField::Value, name: String::from_str("x") });
        r.push(Parameter { field: ParameterField::Value, name: String::from_str("y") });
        r
    }
}

impl GridHelixDeletion {
    /// The operation that undoes this one: recreating the same helix.
    pub fn reverse(&self) -> (r: GridHelixCreation)
        ensures
            r.design_id == self.design_id,
            r.grid_id == self.grid_id,
            r.x == self.x,
            r.y == self.y,
    {
        GridHelixCreation {
            design_id: self.design_id,
            grid_id: self.grid_id,
            x: self.x,
            y: self.y,
        }
    }

    /// The design this operation targets.
    pub fn target(&self) -> (r: usize)
        ensures
            r == self.design_id,
    {
        self.design_id
    }

    /// The editable parameters: the two lattice coordinates.
    pub fn parameters(&self) -> (r: Vec<Parameter>)
        ensures
            r@.len() == 2,
            r@[0].name@ == "x"@,
            r@[1].name@ == "y"@,
    {
        let mut r: Vec<Parameter> = Vec::new();
        r.push(Parameter { field: ParameterField::Value, name: String::from_str("x") });
        r.push(Parameter { field: ParameterField::Value, name: String::from_str("y") });
        r
    }
}

/// Deleting the helix a creation made undoes it slot for slot, and the
/// other way round: the two reversals are mutually inverse.
pub proof fn lemma_grid_helix_reversal(c: GridHelixCreation)
    ensures
        ({
            let d = GridHelixDeletion {
                design_id: c.design_id,
                grid_id: c.grid_id,
                x: c.x,
                y: c.y,
            };
            let back = GridHelixCreation {
                design_id: d.design_id,
                grid_id: d.grid_id,
                x: d.x,
                y: d.y,
            };
            back == c
        }),
{
}

} // verus!

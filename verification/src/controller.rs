//! The editing session: which operations are legal in which transient
//! state, and how a successful edit is classified for undo/redo.
//!
//! Every edit takes an immutable snapshot of the document and either
//! produces a new snapshot together with the next session value, or
//! fails and leaves the snapshot untouched.  A successful edit is
//! classified `Push` (undoable), `Replace` (transient, as during a
//! drag), or `NoOp` (only session data changed).

use vstd::prelude::*;

use crate::design::{Design, GridDescriptor, GridPosition, Helix};
use crate::domain::{Domain, DomainJunction};
use crate::idvec::IdVec;
use crate::nucl::Nucl;
use crate::operations::{
    apply_cross_cut, apply_merge, cross_cut_cycle_ok, cut, cycle_closable, general_cross_over,
    gco_requires, ErrOperation,
};
use crate::strand::{Strand, StrandV};

verus! {

/// How the result of a successful edit is handled.
pub enum OkOperation {
    /// Push the previous snapshot on the undo stack and adopt this one:
    /// the edit is undoable.
    Push(Design),
    /// Adopt this snapshot without touching the stacks: the edit is a
    /// transient step of a gesture.
    Replace(Design),
    /// Only session data changed; the document is untouched.
    NoOp,
}

impl OkOperation {
    /// The same outcome, forced to be undoable.
    pub fn into_undoable(self) -> (r: Self)
        ensures
            (match self {
                OkOperation::Replace(d) => r matches OkOperation::Push(d2) && same_design_value(
                    d,
                    d2,
                ),
                OkOperation::Push(d) => r matches OkOperation::Push(d2) && same_design_value(d, d2),
                OkOperation::NoOp => r is NoOp,
            }),
    {
        match self {
            Self::Replace(design) => Self::Push(design),
            Self::Push(design) => Self::Push(design),
            Self::NoOp => Self::NoOp,
        }
    }
}

/// The two designs hold one value.
pub open spec fn same_design_value(a: Design, b: Design) -> bool {
    a == b
}

/// What the surrounding application tells the session.
pub enum InteractorNotification {
    /// The pending operation is over; collapse the transient state.
    FinishOperation,
}

/// Whether a paste is being positioned, and from which gesture.
#[derive(Clone, Copy, Debug, PartialEq, Eq, Structural)]
pub enum PastingStatus {
    /// A copy is being positioned.
    Copy,
    /// A duplication is being positioned.
    Duplication,
    /// No paste is in progress.
    NotPasting,
}

/// One selected object of the design.
#[derive(Clone, Copy, Debug, PartialEq, Eq, Structural)]
pub enum Selection {
    /// A helix of the design.
    Helix(usize),
    /// A strand of the design.
    Strand(usize),
    /// A grid of the design.
    Grid(usize),
    /// A single nucleotide.
    Nucleotide(Nucl),
}

/// The target of a translation or rotation.
pub enum IsometryTarget {
    /// The whole design.
    Design,
    /// The listed helices; the flag asks for snapping back onto grids.
    Helices(Vec<usize>, bool),
    /// The listed grids.
    Grids(Vec<usize>),
}

/// An edit requested on the document.  Geometry payloads (translations,
/// rotations, isometries) live with the view layer, which applies them
/// to its own geometry store once the session has accepted the
/// operation; colors are computed by the caller's palette and handed in
/// as plain words.
pub enum DesignOperation {
    /// Give every non-scaffold strand, in id order, the next color of
    /// the palette.
    RecolorStaples { colors: Vec<u32> },
    /// Set the sequence to thread along the scaffold.
    SetScaffoldSequence { sequence: String },
    /// Put the selected helices on a new grid.
    HelicesToGrid { selection: Vec<Selection> },
    /// Add a grid to the design.
    AddGrid(GridDescriptor),
    /// Give the listed strands one color.
    ChangeColor { color: u32, strands: Vec<usize> },
    /// Show or hide the phantom helices of the listed grids.
    SetHelicesPersistance { grid_ids: Vec<usize>, persistant: bool },
    /// Draw the listed grids with small or regular spheres.
    SetSmallSpheres { grid_ids: Vec<usize>, small: bool },
    /// Drag the helices under the listed pivots; the translation itself
    /// is view-layer geometry.
    SnapHelices { pivots: Vec<Nucl> },
    /// Replace a helix's 2-D isometry; the isometry itself is view-layer
    /// geometry.
    SetIsometry { helix: usize },
    /// Rotate the listed helices in the plane; the angle is view-layer
    /// geometry.
    RotateHelices { helices: Vec<usize> },
    /// Translate the target; the vector is view-layer geometry.
    Translation { target: IsometryTarget },
    /// Rotate the target; the rotor is view-layer geometry.
    Rotation { target: IsometryTarget },
    /// Start growing or shrinking strands at the listed nucleotides;
    /// each must be a free strand end.
    RequestStrandBuilders { nucls: Vec<Nucl> },
    /// Move every builder of the current building drag to this position.
    MoveBuilders(isize),
    /// Cut the strand holding the nucleotide in two.
    Cut { nucl: Nucl },
    /// Add a helix on a grid slot, with one strand in each direction
    /// when `length > 0`, drawn in the two given colors.
    AddGridHelix {
        position: GridPosition,
        start: isize,
        length: usize,
        color_forward: u32,
        color_backward: u32,
    },
    /// Cut the strand holding `nucl` and join the piece holding it onto
    /// the source strand.
    CrossCut { target_3prime: bool, source_id: usize, target_id: usize, nucl: Nucl },
    /// Join two strands 3' end to 5' end, or close a cycle.
    Xover { prime5_id: usize, prime3_id: usize },
    /// Create a crossover between two nucleotides.
    GeneralXover { source: Nucl, target: Nucl },
}

/// A copy/paste request.  Clipboard placement is the clipboard
/// collaborator's work; the session only keeps the gesture's state.
pub enum CopyOperation {
    /// Fill the clipboard with copies of the listed strands.
    CopyStrands(Vec<usize>),
    /// Move the pasting point of the gesture.
    PositionPastingPoint(Option<Nucl>),
    /// Fill the clipboard and start a duplication gesture.
    InitStrandsDuplication(Vec<usize>),
    /// Repeat the last duplication.
    Duplicate,
    /// Commit the positioned paste.
    Paste,
}

/// The transient state of the editing session.
pub enum ControllerState {
    /// No gesture is in progress.
    Normal,
    /// Strands are being grown or shrunk by a drag; the document is
    /// re-derived from the saved snapshot at every move.
    BuildingStrand { builders: Vec<StrandBuilder>, initial_design: Design, initializing: bool },
    /// A color picker drag is in progress.
    ChangingColor,
    /// A named operation awaits its finishing notification.
    WithPendingOp,
    /// A drag gesture is in progress; the saved snapshot is the state
    /// the gesture started from.
    ApplyingOperation { design: Design },
    /// A paste is being positioned.
    PositioningPastingPoint { pasting_point: Option<Nucl> },
    /// A duplication is being positioned.
    PositioningDuplicationPoint { pasting_point: Option<Nucl> },
    /// A duplication was made and can be repeated.
    WithPendingDuplication { last_pasting_point: Nucl },
}

/// A handle growing or shrinking one strand extremity during a drag.
#[derive(Clone, Copy, Debug, PartialEq, Eq, Structural)]
pub struct StrandBuilder {
    /// The strand being edited.
    pub strand_id: usize,
    /// The domain whose extremity moves.
    pub domain: usize,
    /// Whether the moving extremity is the domain's 3' end.
    pub moving_prime3: bool,
    /// The nucleotide the drag started on.
    pub nucl: Nucl,
}

/// The editing session.
pub struct Controller {
    /// How many palette colors have been consumed.
    pub color_idx: usize,
    /// The transient state.
    pub state: ControllerState,
    /// The strands last copied.
    pub clipboard: Vec<Strand>,
}

impl ControllerState {
    /// Whether results are pushed on the undo stack in this state.
    pub open spec fn pushes(self) -> bool {
        self is Normal || self is WithPendingOp || self is WithPendingDuplication
    }

    /// The snapshots a state carries are well formed.
    pub open spec fn wf(self) -> bool {
        match self {
            ControllerState::ApplyingOperation { design } => design.wf(),
            ControllerState::BuildingStrand { initial_design, .. } => initial_design.wf(),
            _ => true,
        }
    }
}

/// Which operations a session state accepts: a color-change drag only
/// color changes, a strand-building drag only builder moves (or
/// anything while initializing), the paste states none, the quiet and
/// drag states all.
pub open spec fn state_accepts(state: ControllerState, operation: DesignOperation) -> bool {
    match state {
        ControllerState::Normal => true,
        ControllerState::WithPendingOp => true,
        ControllerState::WithPendingDuplication { .. } => true,
        ControllerState::ChangingColor => operation is ChangeColor,
        ControllerState::ApplyingOperation { .. } => true,
        ControllerState::BuildingStrand { initializing, .. } => operation is MoveBuilders
            || initializing,
        _ => false,
    }
}

/// What a drag-gesture step yields: the document re-derived from the
/// gesture's saved snapshot (saving the current one when the gesture
/// starts), classified by the pre-step state.
pub open spec fn gesture_step_ok(
    r: Result<(OkOperation, Controller), ErrOperation>,
    c: Controller,
    design: Design,
) -> bool {
    r matches Ok(p) && (outcome_design(p.0, c.state.pushes()) matches Some(d) && d.strands@ == (
    match c.state {
        ControllerState::ApplyingOperation { design: saved } => saved.strands@,
        _ => design.strands@,
    })) && p.1.state is ApplyingOperation
}

/// The design carried by a classified outcome: a `Push` in the undoable
/// states, a `Replace` in the transient ones.
pub open spec fn outcome_design(p0: OkOperation, pushes: bool) -> Option<Design> {
    match p0 {
        OkOperation::Push(d) => if pushes {
            Some(d)
        } else {
            None
        },
        OkOperation::Replace(d) => if !pushes {
            Some(d)
        } else {
            None
        },
        OkOperation::NoOp => None,
    }
}

impl Controller {
    /// The snapshots the session carries are well formed.
    pub open spec fn wf(self) -> bool {
        self.state.wf()
    }

    /// A fresh session: no gesture, empty clipboard.
    pub fn new() -> (r: Controller)
        ensures
            r.state is Normal,
            r.color_idx == 0,
            r.clipboard@.len() == 0,
    {
        Controller { color_idx: 0, state: ControllerState::Normal, clipboard: Vec::new() }
    }

    /// Whether the session accepts the operation in its current state:
    /// a color-change drag accepts only color changes, a strand-building
    /// drag accepts only builder moves (or anything while the builders
    /// are initializing), the paste states accept nothing.
    pub fn check_compatibilty(&self, operation: &DesignOperation) -> (r: bool)
        ensures
            r == state_accepts(self.state, *operation),
    {
        match &self.state {
            ControllerState::Normal => true,
            ControllerState::WithPendingOp => true,
            ControllerState::WithPendingDuplication { .. } => true,
            ControllerState::ChangingColor => matches!(operation, DesignOperation::ChangeColor { .. }),
            ControllerState::ApplyingOperation { .. } => true,
            ControllerState::BuildingStrand { initializing, .. } => matches!(
                operation,
                DesignOperation::MoveBuilders { .. },
            ) || *initializing,
            _ => false,
        }
    }

    /// Classify a produced snapshot: undoable in the quiet states, a
    /// transient replacement during gestures.
    pub fn return_design(&self, design: Design) -> (r: OkOperation)
        ensures
            self.state.pushes() ==> (r matches OkOperation::Push(d) && same_design_value(
                d,
                design,
            )),
            !self.state.pushes() ==> (r matches OkOperation::Replace(d) && same_design_value(
                d,
                design,
            )),
    {
        match &self.state {
            ControllerState::Normal => OkOperation::Push(design),
            ControllerState::WithPendingOp => OkOperation::Push(design),
            ControllerState::WithPendingDuplication { .. } => OkOperation::Push(design),
            _ => OkOperation::Replace(design),
        }
    }

    /// Collapse a transient state when the surrounding application says
    /// the pending operation is over.
    pub fn notify(&self, notification: InteractorNotification) -> (r: Controller)
        ensures
            r.color_idx == self.color_idx,
            (match notification {
                InteractorNotification::FinishOperation => r.state is Normal,
            }),
            r.clipboard@.len() == self.clipboard@.len(),
            forall|i: int|
                0 <= i < self.clipboard@.len() ==> (#[trigger] r.clipboard@[i])@
                    == self.clipboard@[i]@,
    {
        let state = match notification {
            InteractorNotification::FinishOperation => ControllerState::Normal,
        };
        Controller {
            color_idx: self.color_idx,
            state,
            clipboard: clone_strand_vec(&self.clipboard),
        }
    }

    /// Whether a paste is being positioned, and from which gesture.
    pub fn is_pasting(&self) -> (r: PastingStatus)
        ensures
            r == (match self.state {
                ControllerState::PositioningPastingPoint { .. } => PastingStatus::Copy,
                ControllerState::PositioningDuplicationPoint { .. } => PastingStatus::Duplication,
                _ => PastingStatus::NotPasting,
            }),
    {
        match &self.state {
            ControllerState::PositioningPastingPoint { .. } => PastingStatus::Copy,
            ControllerState::PositioningDuplicationPoint { .. } => PastingStatus::Duplication,
            _ => PastingStatus::NotPasting,
        }
    }

    /// Whether a duplication can be repeated.
    pub fn can_iterate_duplication(&self) -> (r: bool)
        ensures
            r == (self.state is WithPendingDuplication),
    {
        matches!(self.state, ControllerState::WithPendingDuplication { .. })
    }

    /// Number of strands in the clipboard.
    pub fn size_of_clipboard(&self) -> (r: usize)
        ensures
            r == self.clipboard@.len(),
    {
        self.clipboard.len()
    }
}

/// The machine-limit and invariant conditions an operation needs from
/// the document, carried up from the strand mutation algorithms.
pub open spec fn op_requires(d: Design, operation: DesignOperation) -> bool {
    match operation {
        DesignOperation::Cut { .. } => d.max_strand_id_bound(),
        DesignOperation::CrossCut { target_3prime, source_id, target_id, nucl } => {
            d.max_strand_id_bound() && cross_cut_cycle_ok(
                d.strands@,
                source_id,
                target_id,
                nucl,
                target_3prime,
            )
        },
        DesignOperation::Xover { prime5_id, prime3_id } => {
            prime5_id == prime3_id && d.strands@.contains_key(prime5_id) ==> cycle_closable(
                d.strands@[prime5_id],
            ) && d.strands@[prime5_id].domains.len() > 0
        },
        DesignOperation::GeneralXover { source, target } => {
            (forall|k: usize| d.strands@.contains_key(k) ==> k < usize::MAX - 1) && gco_requires(
                d,
                source,
                target,
            )
        },
        DesignOperation::AddGridHelix { position, start, length, .. } => {
            &&& (forall|k: usize| d.helices@.contains_key(k) ==> k < usize::MAX)
            &&& (forall|k: usize| d.strands@.contains_key(k) ==> k < usize::MAX - 1)
            &&& isize::MIN < start
            &&& start + length <= isize::MAX
            &&& length <= isize::MAX
        },
        _ => true,
    }
}

impl Controller {
    /// Apply an operation to the design: check it against the session
    /// state, run it on a copy of the snapshot, and classify the result.
    /// An error leaves the snapshot untouched.
    #[verifier::rlimit(100)]
    pub fn apply_operation(&self, design: &Design, operation: DesignOperation) -> (r: Result<
        (OkOperation, Controller),
        ErrOperation,
    >)
        requires
            design.wf(),
            self.wf(),
            op_requires(*design, operation),
        ensures
            r matches Ok(p) ==> (match p.0 {
                OkOperation::Push(d) => d.wf(),
                OkOperation::Replace(d) => d.wf(),
                OkOperation::NoOp => true,
            }) && p.1.wf(),
            !state_accepts(self.state, operation) ==> r == Err::<
                (OkOperation, Controller),
                ErrOperation,
            >(ErrOperation::IncompatibleState),
            state_accepts(self.state, operation) ==> (match operation {
                DesignOperation::RecolorStaples { colors } => r matches Ok(p) && (outcome_design(
                    p.0,
                    self.state.pushes(),
                ) matches Some(d) && staples_recolored(*design, d.strands@, colors@)),
                DesignOperation::SetScaffoldSequence { sequence } => r matches Ok(p) && (
                outcome_design(p.0, self.state.pushes()) matches Some(d) && d.strands@
                    == design.strands@ && (d.scaffold_sequence matches Some(s) && s@ == sequence@)),
                DesignOperation::HelicesToGrid { selection } => r == (if (exists|i: int|
                    0 <= i < selection@.len() && !((#[trigger] selection@[i]) is Helix)) {
                    Err::<(OkOperation, Controller), ErrOperation>(ErrOperation::BadSelection)
                } else {
                    Err::<(OkOperation, Controller), ErrOperation>(ErrOperation::NotImplemented)
                }),
                DesignOperation::AddGrid(descriptor) => r matches Ok(p) && (outcome_design(
                    p.0,
                    self.state.pushes(),
                ) matches Some(d) && d.grids@ == design.grids@.push(descriptor) && d.strands@
                    == design.strands@ && d.helices@ == design.helices@),
                DesignOperation::ChangeColor { color, strands } => r matches Ok(p) && (
                outcome_design(p.0, self.state.pushes()) matches Some(d) && colors_changed(
                    design.strands@,
                    d.strands@,
                    color,
                    strands@,
                )) && p.1.state is ChangingColor,
                DesignOperation::SetHelicesPersistance { grid_ids, persistant } => r matches Ok(p)
                    && (outcome_design(p.0, self.state.pushes()) matches Some(d) && d.strands@
                    == design.strands@ && d.no_phantoms@ == (if persistant {
                    design.no_phantoms@.difference(grid_ids@.to_set())
                } else {
                    design.no_phantoms@.union(grid_ids@.to_set())
                })),
                DesignOperation::SetSmallSpheres { grid_ids, small } => r matches Ok(p) && (
                outcome_design(p.0, self.state.pushes()) matches Some(d) && d.strands@
                    == design.strands@ && d.small_spheres@ == (if small {
                    design.small_spheres@.union(grid_ids@.to_set())
                } else {
                    design.small_spheres@.difference(grid_ids@.to_set())
                })),
                DesignOperation::SnapHelices { .. } => gesture_step_ok(r, *self, *design),
                DesignOperation::SetIsometry { .. } => r matches Ok(p) && (outcome_design(
                    p.0,
                    self.state.pushes(),
                ) matches Some(d) && d.strands@ == design.strands@),
                DesignOperation::RotateHelices { .. } => gesture_step_ok(r, *self, *design),
                DesignOperation::Translation { target } => if target is Design {
                    r == Err::<(OkOperation, Controller), ErrOperation>(
                        ErrOperation::NotImplemented,
                    )
                } else {
                    gesture_step_ok(r, *self, *design)
                },
                DesignOperation::Rotation { target } => if target is Design {
                    r == Err::<(OkOperation, Controller), ErrOperation>(
                        ErrOperation::NotImplemented,
                    )
                } else {
                    gesture_step_ok(r, *self, *design)
                },
                DesignOperation::RequestStrandBuilders { nucls } => if forall|i: int|
                    0 <= i < nucls@.len() ==> builder_for(*design, #[trigger] nucls@[i]) is Some {
                    r matches Ok(p) && (outcome_design(p.0, self.state.pushes()) matches Some(d)
                        && d.strands@ == design.strands@) && (p.1.state
                        matches ControllerState::BuildingStrand {
                        builders,
                        initial_design,
                        initializing,
                    } && initializing && initial_design.strands@ == design.strands@
                        && builders@.len() == nucls@.len() && (forall|i: int|
                        0 <= i < nucls@.len() ==> #[trigger] builders@[i] == builder_for(
                            *design,
                            nucls@[i],
                        )->Some_0))
                } else {
                    r is Err && (exists|i: int|
                        0 <= i < nucls@.len() && builder_for(*design, #[trigger] nucls@[i]) is None
                            && r == Err::<(OkOperation, Controller), ErrOperation>(
                            ErrOperation::CannotBuildOn(nucls@[i]),
                        ))
                },
                DesignOperation::MoveBuilders(n) => (match self.state {
                    ControllerState::BuildingStrand { builders, initial_design, .. } => r matches Ok(
                        p,
                    ) && (outcome_design(p.0, false) matches Some(d) && d.strands@ == move_all(
                        initial_design.strands@,
                        builders@,
                        n,
                        0,
                    )) && (p.1.state matches ControllerState::BuildingStrand {
                        builders: b2,
                        initial_design: init2,
                        initializing,
                    } && !initializing && b2@ == builders@ && init2.strands@
                        == initial_design.strands@),
                    _ => r == Err::<(OkOperation, Controller), ErrOperation>(
                        ErrOperation::IncompatibleState,
                    ),
                }),
                DesignOperation::Cut { nucl } => ({
                    let sp = crate::operations::split_spec(design.strands@, nucl, None);
                    if sp.0 is Ok {
                        r matches Ok(p) && (outcome_design(p.0, self.state.pushes())
                            matches Some(d) && d.strands@ == sp.1)
                    } else {
                        r == Err::<(OkOperation, Controller), ErrOperation>(
                            ErrOperation::CutInexistingStrand,
                        )
                    }
                }),
                DesignOperation::AddGridHelix { .. } => r matches Ok(p) ==> (outcome_design(
                    p.0,
                    self.state.pushes(),
                ) is Some),
                DesignOperation::CrossCut { target_3prime, source_id, target_id, nucl } => ({
                    let cc = crate::operations::cross_cut_spec(
                        design.strands@,
                        source_id,
                        target_id,
                        nucl,
                        target_3prime,
                    );
                    if cc.0 is Ok {
                        r matches Ok(p) && (outcome_design(p.0, self.state.pushes())
                            matches Some(d) && d.strands@ == cc.1)
                    } else {
                        r == Err::<(OkOperation, Controller), ErrOperation>(cc.0->Err_0)
                    }
                }),
                DesignOperation::Xover { prime5_id, prime3_id } => ({
                    let mg = if prime5_id != prime3_id {
                        crate::operations::merge_spec(design.strands@, prime5_id, prime3_id)
                    } else {
                        crate::operations::cycle_spec(design.strands@, prime5_id, true)
                    };
                    if mg.0 is Ok {
                        r matches Ok(p) && (outcome_design(p.0, self.state.pushes())
                            matches Some(d) && d.strands@ == mg.1)
                    } else {
                        r == Err::<(OkOperation, Controller), ErrOperation>(mg.0->Err_0)
                    }
                }),
                DesignOperation::GeneralXover { source, target } => ({
                    let g = crate::operations::gco_spec(*design, source, target);
                    if g.0 is Ok {
                        r matches Ok(p) && (outcome_design(p.0, self.state.pushes())
                            matches Some(d) && d.strands@ == g.1)
                    } else {
                        r == Err::<(OkOperation, Controller), ErrOperation>(g.0->Err_0)
                    }
                }),
            }),
    {
        if !self.check_compatibilty(&operation) {
            return Err(ErrOperation::IncompatibleState);
        }
        let mut new_controller = Controller {
            color_idx: self.color_idx,
            state: clone_state(&self.state),
            clipboard: clone_strand_vec(&self.clipboard),
        };
        let mut new_design = clone_design(design);
        match operation {
            DesignOperation::RecolorStaples { colors } => {
                let ghost nd0 = new_design;
                recolor_staples(&mut new_design, &colors);
                proof {
                    assert(key_seq(nd0) == key_seq(*design));
                    assert(staple_rank(key_seq(nd0), nd0.scaffold_id, 0) == 0);
                    assert(staples_recolored(*design, new_design.strands@, colors@));
                }
                new_controller.color_idx = if colors.len() > usize::MAX - self.color_idx {
                    usize::MAX
                } else {
                    self.color_idx + colors.len()
                };
                Ok((self.return_design(new_design), new_controller))
            },
            DesignOperation::SetScaffoldSequence { sequence } => {
                new_design.scaffold_sequence = Some(sequence);
                Ok((self.return_design(new_design), new_controller))
            },
            DesignOperation::HelicesToGrid { selection } => {
                // the grid's placement comes from the view-layer
                // geometry; the session only validates the selection
                match list_of_helices(&selection) {
                    Some(_) => Err(ErrOperation::NotImplemented),
                    None => Err(ErrOperation::BadSelection),
                }
            },
            DesignOperation::AddGrid(descriptor) => {
                new_design.grids.push(descriptor);
                Ok((self.return_design(new_design), new_controller))
            },
            DesignOperation::ChangeColor { color, strands } => {
                new_controller.state = ControllerState::ChangingColor;
                change_color_strands(&mut new_design, color, &strands);
                Ok((self.return_design(new_design), new_controller))
            },
            DesignOperation::SetHelicesPersistance { grid_ids, persistant } => {
                set_members(&mut new_design.no_phantoms, &grid_ids, !persistant);
                Ok((self.return_design(new_design), new_controller))
            },
            DesignOperation::SetSmallSpheres { grid_ids, small } => {
                set_members(&mut new_design.small_spheres, &grid_ids, small);
                Ok((self.return_design(new_design), new_controller))
            },
            DesignOperation::SnapHelices { .. } => {
                let applied = new_controller.update_state_and_design(&mut new_design);
                Ok((self.return_design(applied), new_controller))
            },
            DesignOperation::SetIsometry { .. } => {
                Ok((self.return_design(new_design), new_controller))
            },
            DesignOperation::RotateHelices { .. } => {
                let applied = new_controller.update_state_and_design(&mut new_design);
                Ok((self.return_design(applied), new_controller))
            },
            DesignOperation::Translation { target } => {
                match target {
                    IsometryTarget::Design => Err(ErrOperation::NotImplemented),
                    _ => {
                        let applied = new_controller.update_state_and_design(&mut new_design);
                        Ok((self.return_design(applied), new_controller))
                    },
                }
            },
            DesignOperation::Rotation { target } => {
                match target {
                    IsometryTarget::Design => Err(ErrOperation::NotImplemented),
                    _ => {
                        let applied = new_controller.update_state_and_design(&mut new_design);
                        Ok((self.return_design(applied), new_controller))
                    },
                }
            },
            DesignOperation::RequestStrandBuilders { nucls } => {
                proof {
                    assert(new_design.strands_in_order() =~= design.strands_in_order());
                }
                let mut builders: Vec<StrandBuilder> = Vec::new();
                let mut i: usize = 0;
                while i < nucls.len()
                    invariant
                        design.wf(),
                        new_design.wf(),
                        operation == (DesignOperation::RequestStrandBuilders { nucls }),
                        state_accepts(self.state, operation),
                        new_design.strands@ == design.strands@,
                        new_design.strands_in_order() == design.strands_in_order(),
                        0 <= i <= nucls@.len(),
                        builders@.len() == i,
                        forall|j: int|
                            0 <= j < i ==> builder_for(*design, #[trigger] nucls@[j]) is Some
                                && builders@[j] == builder_for(*design, nucls@[j])->Some_0,
                    decreases nucls@.len() - i,
                {
                    proof {
                        assert(new_design.strand_end_spec(nucls@[i as int]) == design.strand_end_spec(
                            nucls@[i as int],
                        ));
                        assert(builder_for(new_design, nucls@[i as int]) == builder_for(
                            *design,
                            nucls@[i as int],
                        ));
                    }
                    match request_one_builder(&new_design, &nucls[i]) {
                        Some(b) => {
                            builders.push(b);
                        },
                        None => {
                            return Err(ErrOperation::CannotBuildOn(nucls[i]));
                        },
                    }
                    i = i + 1;
                }
                new_controller.state = ControllerState::BuildingStrand {
                    builders,
                    initial_design: clone_design(&new_design),
                    initializing: true,
                };
                Ok((self.return_design(new_design), new_controller))
            },
            DesignOperation::MoveBuilders(n) => {
                let (builders, initial_design) = match &self.state {
                    ControllerState::BuildingStrand { builders, initial_design, .. } => (
                        clone_builders(builders),
                        clone_design(initial_design),
                    ),
                    _ => {
                        return Err(ErrOperation::IncompatibleState);
                    },
                };
                let mut moved = clone_design(&initial_design);
                let ghost bseq = builders@;
                let ghost m0 = initial_design.strands@;
                let mut i: usize = 0;
                while i < builders.len()
                    invariant
                        moved.wf(),
                        bseq == builders@,
                        0 <= i <= bseq.len(),
                        move_all(m0, bseq, n, 0) == move_all(moved.strands@, bseq, n, i as int),
                        crate::operations::same_but_strands(initial_design, moved),
                    decreases builders@.len() - i,
                {
                    move_builder(&mut moved, &builders[i], n);
                    i = i + 1;
                }
                proof {
                    assert(move_all(moved.strands@, bseq, n, bseq.len() as int) == moved.strands@);
                }
                new_controller.state = ControllerState::BuildingStrand {
                    builders,
                    initial_design,
                    initializing: false,
                };
                Ok((self.return_design(moved), new_controller))
            },
            DesignOperation::Cut { nucl } => {
                match cut(&mut new_design, &nucl) {
                    Ok(_) => Ok((self.return_design(new_design), new_controller)),
                    Err(e) => Err(e),
                }
            },
            DesignOperation::AddGridHelix { position, start, length, color_forward, color_backward } => {
                match add_grid_helix(
                    &mut new_design,
                    position,
                    start,
                    length,
                    color_forward,
                    color_backward,
                ) {
                    Ok(_) => Ok((self.return_design(new_design), new_controller)),
                    Err(e) => Err(e),
                }
            },
            DesignOperation::CrossCut { target_3prime, source_id, target_id, nucl } => {
                match apply_cross_cut(&mut new_design, source_id, target_id, nucl, target_3prime) {
                    Ok(_) => Ok((self.return_design(new_design), new_controller)),
                    Err(e) => Err(e),
                }
            },
            DesignOperation::Xover { prime5_id, prime3_id } => {
                match apply_merge(&mut new_design, prime5_id, prime3_id) {
                    Ok(_) => Ok((self.return_design(new_design), new_controller)),
                    Err(e) => Err(e),
                }
            },
            DesignOperation::GeneralXover { source, target } => {
                let ghost nd0 = new_design;
                proof {
                    assert(new_design.strands_in_order() =~= design.strands_in_order());
                    assert(new_design.strand_end_spec(source) == design.strand_end_spec(source));
                    assert(new_design.strand_end_spec(target) == design.strand_end_spec(target));
                    assert(gco_requires(new_design, source, target));
                    crate::operations::lemma_gco_spec_congruent(nd0, *design, source, target);
                }
                match general_cross_over(&mut new_design, source, target) {
                    Ok(_) => {
                        proof {
                            let g = crate::operations::gco_spec(*design, source, target);
                            assert(g == crate::operations::gco_spec(nd0, source, target));
                            assert(g.0 is Ok);
                            assert(new_design.strands@ == g.1);
                        }
                        Ok((self.return_design(new_design), new_controller))
                    },
                    Err(e) => {
                        proof {
                            let g = crate::operations::gco_spec(*design, source, target);
                            assert(g == crate::operations::gco_spec(nd0, source, target));
                            assert(g.0 == Err::<(), ErrOperation>(e));
                        }
                        Err(e)
                    },
                }
            },
        }
    }

    /// During a drag, re-derive the document from the gesture's saved
    /// snapshot; starting a drag saves the current snapshot.
    fn update_state_and_design(&mut self, design: &mut Design) -> (r: Design)
        requires
            old(design).wf(),
            old(self).wf(),
        ensures
            r.wf(),
            final(self).wf(),
            *final(design) == *old(design),
            (match old(self).state {
                ControllerState::ApplyingOperation { design: saved } => r.strands@ == saved.strands@
                    && *final(self) == *old(self),
                _ => r.strands@ == old(design).strands@ && (final(self).state
                    matches ControllerState::ApplyingOperation { design: d } && d.strands@
                    == old(design).strands@) && final(self).color_idx == old(self).color_idx,
            }),
    {
        if let ControllerState::ApplyingOperation { design: saved } = &self.state {
            clone_design(saved)
        } else {
            self.state = ControllerState::ApplyingOperation { design: clone_design(design) };
            clone_design(design)
        }
    }

    /// Apply a copy/paste request: fill the clipboard, move the pasting
    /// point, or commit.  Committing a paste is the clipboard
    /// collaborator's work: placing the copies takes the view-layer
    /// geometry, so this session does not handle it.
    pub fn apply_copy_operation(&self, design: &Design, operation: CopyOperation) -> (r: Result<
        (OkOperation, Controller),
        ErrOperation,
    >)
        requires
            design.wf(),
            self.wf(),
        ensures
            r matches Ok(p) ==> (match p.0 {
                OkOperation::Push(d) => d.wf(),
                OkOperation::Replace(d) => d.wf(),
                OkOperation::NoOp => true,
            }) && p.1.wf() && p.1.color_idx == self.color_idx,
            operation matches CopyOperation::CopyStrands(ids) ==> (if all_strands_present(
                *design,
                ids@,
            ) {
                r matches Ok(p) && p.0 is NoOp && p.1.clipboard@.len() == ids@.len() && (forall|
                    i: int,
                |
                    0 <= i < ids@.len() ==> (#[trigger] p.1.clipboard@[i])@
                        == design.strands@[ids@[i]])
            } else {
                r is Err && (exists|i: int|
                    0 <= i < ids@.len() && r == Err::<(OkOperation, Controller), ErrOperation>(
                        ErrOperation::StrandDoesNotExist(#[trigger] ids@[i]),
                    ) && !design.strands@.contains_key(ids@[i]))
            }),
            operation matches CopyOperation::InitStrandsDuplication(ids) ==> (if
            all_strands_present(*design, ids@) {
                r matches Ok(p) && p.0 is NoOp && p.1.clipboard@.len() == ids@.len() && (forall|
                    i: int,
                |
                    0 <= i < ids@.len() ==> (#[trigger] p.1.clipboard@[i])@
                        == design.strands@[ids@[i]]) && p.1.state == (
                ControllerState::PositioningDuplicationPoint { pasting_point: None })
            } else {
                r is Err && (exists|i: int|
                    0 <= i < ids@.len() && r == Err::<(OkOperation, Controller), ErrOperation>(
                        ErrOperation::StrandDoesNotExist(#[trigger] ids@[i]),
                    ) && !design.strands@.contains_key(ids@[i]))
            }),
            operation matches CopyOperation::PositionPastingPoint(point) ==> (if !(
            self.state is Normal || self.state is WithPendingOp
                || self.state is PositioningPastingPoint
                || self.state is PositioningDuplicationPoint) {
                r == Err::<(OkOperation, Controller), ErrOperation>(ErrOperation::IncompatibleState)
            } else if self.clipboard@.len() == 0 {
                r == Err::<(OkOperation, Controller), ErrOperation>(ErrOperation::EmptyClipboard)
            } else {
                r matches Ok(p) && (p.0 matches OkOperation::Replace(d) && d.strands@
                    == design.strands@) && p.1.state == (if self.state
                    is PositioningDuplicationPoint {
                    ControllerState::PositioningDuplicationPoint { pasting_point: point }
                } else {
                    ControllerState::PositioningPastingPoint { pasting_point: point }
                }) && p.1.clipboard@.len() == self.clipboard@.len() && (forall|i: int|
                    0 <= i < self.clipboard@.len() ==> (#[trigger] p.1.clipboard@[i])@
                        == self.clipboard@[i]@)
            }),
            operation is Duplicate ==> r == Err::<(OkOperation, Controller), ErrOperation>(
                ErrOperation::NotImplemented,
            ),
            operation is Paste ==> r == Err::<(OkOperation, Controller), ErrOperation>(
                ErrOperation::NotImplemented,
            ),
    {
        let mut new_controller = Controller {
            color_idx: self.color_idx,
            state: clone_state(&self.state),
            clipboard: clone_strand_vec(&self.clipboard),
        };
        match operation {
            CopyOperation::CopyStrands(strand_ids) => {
                let clipboard = match collect_strands(design, &strand_ids) {
                    Ok(c) => c,
                    Err(e) => {
                        return Err(e);
                    },
                };
                new_controller.clipboard = clipboard;
                Ok((OkOperation::NoOp, new_controller))
            },
            CopyOperation::PositionPastingPoint(point) => {
                let compatible = match &self.state {
                    ControllerState::Normal => true,
                    ControllerState::WithPendingOp => true,
                    ControllerState::PositioningPastingPoint { .. } => true,
                    ControllerState::PositioningDuplicationPoint { .. } => true,
                    _ => false,
                };
                if !compatible {
                    return Err(ErrOperation::IncompatibleState);
                }
                if new_controller.clipboard.len() == 0 {
                    return Err(ErrOperation::EmptyClipboard);
                }
                new_controller.state = match &self.state {
                    ControllerState::PositioningDuplicationPoint { .. } => {
                        ControllerState::PositioningDuplicationPoint { pasting_point: point }
                    },
                    _ => ControllerState::PositioningPastingPoint { pasting_point: point },
                };
                Ok((OkOperation::Replace(clone_design(design)), new_controller))
            },
            CopyOperation::InitStrandsDuplication(strand_ids) => {
                let clipboard = match collect_strands(design, &strand_ids) {
                    Ok(c) => c,
                    Err(e) => {
                        return Err(e);
                    },
                };
                new_controller.clipboard = clipboard;
                new_controller.state = ControllerState::PositioningDuplicationPoint {
                    pasting_point: None,
                };
                Ok((OkOperation::NoOp, new_controller))
            },
            CopyOperation::Duplicate => Err(ErrOperation::NotImplemented),
            CopyOperation::Paste => Err(ErrOperation::NotImplemented),
        }
    }
}

/// The helices named by a selection made only of helices.
pub fn list_of_helices(selection: &Vec<Selection>) -> (r: Option<Vec<usize>>)
    ensures
        r matches Some(hs) ==> hs@.len() == selection@.len() && forall|i: int|
            0 <= i < selection@.len() ==> ((#[trigger] selection@[i]) matches Selection::Helix(h)
                && hs@[i] == h),
        r is None ==> exists|i: int|
            0 <= i < selection@.len() && !((#[trigger] selection@[i]) is Helix),
{
    let mut hs: Vec<usize> = Vec::new();
    let mut i: usize = 0;
    while i < selection.len()
        invariant
            0 <= i <= selection@.len(),
            hs@.len() == i,
            forall|j: int|
                0 <= j < i ==> ((#[trigger] selection@[j]) matches Selection::Helix(h) && hs@[j]
                    == h),
        decreases selection@.len() - i,
    {
        match selection[i] {
            Selection::Helix(h) => {
                hs.push(h);
            },
            _ => {
                return None;
            },
        }
        i = i + 1;
    }
    Some(hs)
}

/// Whether every listed identifier names a strand of the design.
pub open spec fn all_strands_present(d: Design, strand_ids: Seq<usize>) -> bool {
    forall|i: int| 0 <= i < strand_ids.len() ==> d.strands@.contains_key(#[trigger] strand_ids[i])
}

/// Copies of the listed strands, in the given order.
fn collect_strands(design: &Design, strand_ids: &Vec<usize>) -> (r: Result<
    Vec<Strand>,
    ErrOperation,
>)
    requires
        design.wf(),
    ensures
        r is Ok <==> all_strands_present(*design, strand_ids@),
        r matches Ok(c) ==> c@.len() == strand_ids@.len() && forall|i: int|
            0 <= i < strand_ids@.len() ==> (#[trigger] c@[i])@ == design.strands@[strand_ids@[i]],
        r matches Err(e) ==> exists|i: int|
            0 <= i < strand_ids@.len() && e == ErrOperation::StrandDoesNotExist(
                #[trigger] strand_ids@[i],
            ) && !design.strands@.contains_key(strand_ids@[i]) && (forall|j: int|
                0 <= j < i ==> design.strands@.contains_key(#[trigger] strand_ids@[j])),
{
    let mut c: Vec<Strand> = Vec::new();
    let mut i: usize = 0;
    while i < strand_ids.len()
        invariant
            design.wf(),
            0 <= i <= strand_ids@.len(),
            c@.len() == i,
            forall|j: int|
                0 <= j < i ==> design.strands@.contains_key(#[trigger] strand_ids@[j]) && c@[j]@
                    == design.strands@[strand_ids@[j]],
        decreases strand_ids@.len() - i,
    {
        match design.strands.get(strand_ids[i]) {
            Some(s) => {
                c.push(s.clone_strand());
            },
            None => {
                return Err(ErrOperation::StrandDoesNotExist(strand_ids[i]));
            },
        }
        i = i + 1;
    }
    Ok(c)
}

/// A copy of the whole document.
pub fn clone_design(design: &Design) -> (r: Design)
    requires
        design.wf(),
    ensures
        r.wf(),
        r.strands@ == design.strands@,
        r.strands_in_order() == design.strands_in_order(),
        r.helices@ == design.helices@,
        r.grids@ == design.grids@,
        r.scaffold_id == design.scaffold_id,
        r.scaffold_shift == design.scaffold_shift,
        r.max_strand_id_bound() == design.max_strand_id_bound(),
        crate::operations::same_but_strands(*design, r),
        key_seq(r) == key_seq(*design),
{
    let mut strands_entries: Vec<(usize, Strand)> = Vec::new();
    let n = design.strands.entries.len();
    let mut i: usize = 0;
    while i < n
        invariant
            design.wf(),
            n == design.strands.entries@.len(),
            0 <= i <= n,
            strands_entries@.len() == i,
            forall|j: int|
                0 <= j < i ==> (#[trigger] strands_entries@[j]).0 == design.strands.entries@[j].0
                    && strands_entries@[j].1@ == design.strands.entries@[j].1@,
        decreases n - i,
    {
        let id = design.strands.entries[i].0;
        let s = design.strands.entries[i].1.clone_strand();
        strands_entries.push((id, s));
        i = i + 1;
    }
    let strands = IdVec { entries: strands_entries };
    let mut helices_entries: Vec<(usize, Helix)> = Vec::new();
    let m = design.helices.entries.len();
    let mut j: usize = 0;
    while j < m
        invariant
            design.wf(),
            m == design.helices.entries@.len(),
            0 <= j <= m,
            helices_entries@.len() == j,
            forall|k: int|
                0 <= k < j ==> (#[trigger] helices_entries@[k]) == design.helices.entries@[k],
        decreases m - j,
    {
        helices_entries.push(design.helices.entries[j]);
        j = j + 1;
    }
    let helices = IdVec { entries: helices_entries };
    let mut grids: Vec<GridDescriptor> = Vec::new();
    let g = design.grids.len();
    let mut k: usize = 0;
    while k < g
        invariant
            g == design.grids@.len(),
            0 <= k <= g,
            grids@ =~= design.grids@.take(k as int),
        decreases g - k,
    {
        grids.push(design.grids[k]);
        k = k + 1;
    }
    proof {
        assert(design.grids@.take(g as int) =~= design.grids@);
    }
    let mut no_phantoms_items: Vec<usize> = Vec::new();
    let p = design.no_phantoms.items.len();
    let mut q: usize = 0;
    while q < p
        invariant
            p == design.no_phantoms.items@.len(),
            0 <= q <= p,
            no_phantoms_items@ =~= design.no_phantoms.items@.take(q as int),
        decreases p - q,
    {
        no_phantoms_items.push(design.no_phantoms.items[q]);
        q = q + 1;
    }
    proof {
        assert(design.no_phantoms.items@.take(p as int) =~= design.no_phantoms.items@);
    }
    let mut small_items: Vec<usize> = Vec::new();
    let sp = design.small_spheres.items.len();
    let mut sq: usize = 0;
    while sq < sp
        invariant
            sp == design.small_spheres.items@.len(),
            0 <= sq <= sp,
            small_items@ =~= design.small_spheres.items@.take(sq as int),
        decreases sp - sq,
    {
        small_items.push(design.small_spheres.items[sq]);
        sq = sq + 1;
    }
    proof {
        assert(design.small_spheres.items@.take(sp as int) =~= design.small_spheres.items@);
    }
    let r = Design {
        strands,
        helices,
        grids,
        scaffold_id: design.scaffold_id,
        scaffold_sequence: match &design.scaffold_sequence {
            Some(s) => Some(s.clone()),
            None => None,
        },
        scaffold_shift: design.scaffold_shift,
        no_phantoms: crate::design::IdSet { items: no_phantoms_items },
        small_spheres: crate::design::IdSet { items: small_items },
    };
    proof {
        crate::idvec::lemma_map_of_congruent(r.strands.entries@, design.strands.entries@);
        crate::idvec::lemma_map_of_congruent(r.helices.entries@, design.helices.entries@);
        assert(r.strands@ == design.strands@);
        assert(r.helices@ == design.helices@);
        assert(r.no_phantoms.items@ == design.no_phantoms.items@);
        assert(r.small_spheres.items@ == design.small_spheres.items@);
        assert(r.no_phantoms.wf());
        assert(r.small_spheres.wf());
        assert forall|id: usize|
            r.strands@.contains_key(id) implies (#[trigger] r.strands@[id]).wf() by {
            assert(design.strands@[id].wf());
        }
        assert(r.strands_in_order() =~= design.strands_in_order());
        assert(key_seq(r) =~= key_seq(*design));
        assert(r.max_strand_id_bound() == design.max_strand_id_bound()) by {
            if design.max_strand_id_bound() {
                assert forall|k: usize|
                    r.strands@.contains_key(k) implies k < usize::MAX by {
                    assert(design.strands@.contains_key(k));
                }
            } else {
                let k = choose|k: usize| design.strands@.contains_key(k) && !(k < usize::MAX);
                assert(r.strands@.contains_key(k));
            }
        }
        assert forall|a: int, b: int|
            0 <= a < b < r.strands.entries@.len() implies r.strands.entries@[a].0
            < r.strands.entries@[b].0 by {
            assert(design.strands.entries@[a].0 < design.strands.entries@[b].0);
        }
        assert forall|a: int, b: int|
            0 <= a < b < r.helices.entries@.len() implies r.helices.entries@[a].0
            < r.helices.entries@[b].0 by {
            assert(design.helices.entries@[a].0 < design.helices.entries@[b].0);
        }
    }
    r
}

/// A copy of the session state.
fn clone_state(state: &ControllerState) -> (r: ControllerState)
    requires
        state.wf(),
    ensures
        r.wf(),
        state matches ControllerState::ApplyingOperation { design: d1 } ==> (r
            matches ControllerState::ApplyingOperation { design: d2 } && d2.strands@ == d1.strands@),
        (state is Normal <==> r is Normal),
        (state is ChangingColor <==> r is ChangingColor),
        (state is WithPendingOp <==> r is WithPendingOp),
        (state is BuildingStrand <==> r is BuildingStrand),
        (state is ApplyingOperation <==> r is ApplyingOperation),
        (state is PositioningPastingPoint <==> r is PositioningPastingPoint),
        (state is PositioningDuplicationPoint <==> r is PositioningDuplicationPoint),
        (state is WithPendingDuplication <==> r is WithPendingDuplication),
{
    match state {
        ControllerState::Normal => ControllerState::Normal,
        ControllerState::BuildingStrand { builders, initial_design, initializing } => {
            ControllerState::BuildingStrand {
                builders: clone_builders(builders),
                initial_design: clone_design(initial_design),
                initializing: *initializing,
            }
        },
        ControllerState::ChangingColor => ControllerState::ChangingColor,
        ControllerState::WithPendingOp => ControllerState::WithPendingOp,
        ControllerState::ApplyingOperation { design } => ControllerState::ApplyingOperation {
            design: clone_design(design),
        },
        ControllerState::PositioningPastingPoint { pasting_point } => {
            ControllerState::PositioningPastingPoint { pasting_point: *pasting_point }
        },
        ControllerState::PositioningDuplicationPoint { pasting_point } => {
            ControllerState::PositioningDuplicationPoint { pasting_point: *pasting_point }
        },
        ControllerState::WithPendingDuplication { last_pasting_point } => {
            ControllerState::WithPendingDuplication { last_pasting_point: *last_pasting_point }
        },
    }
}

/// Copies of a builder list.
fn clone_builders(src: &Vec<StrandBuilder>) -> (r: Vec<StrandBuilder>)
    ensures
        r@ == src@,
{
    let mut r: Vec<StrandBuilder> = Vec::new();
    let mut i: usize = 0;
    while i < src.len()
        invariant
            0 <= i <= src@.len(),
            r@ =~= src@.take(i as int),
        decreases src@.len() - i,
    {
        r.push(src[i]);
        i = i + 1;
    }
    proof {
        assert(src@.take(src@.len() as int) =~= src@);
    }
    r
}

/// The identifiers of the design's strands, in increasing order.
pub open spec fn key_seq(d: Design) -> Seq<usize> {
    d.strands.entries@.map_values(|e: (usize, Strand)| e.0)
}

/// How many of the first `j` strands (in id order) are staples, that
/// is, not the scaffold: the palette position of the `j`-th strand.
pub open spec fn staple_rank(keys: Seq<usize>, scaffold: Option<usize>, j: int) -> int
    decreases j,
{
    if j <= 0 {
        0
    } else {
        staple_rank(keys, scaffold, j - 1) + (if scaffold == Some(keys[j - 1]) {
            0int
        } else {
            1int
        })
    }
}

/// What recoloring the staples leaves behind: the `k`-th non-scaffold
/// strand in id order carries the `k`-th palette color, the scaffold
/// and the strands past the palette are untouched.
pub open spec fn staples_recolored(
    old_d: Design,
    m_new: Map<usize, StrandV>,
    colors: Seq<u32>,
) -> bool {
    let keys = key_seq(old_d);
    let m_old = old_d.strands@;
    &&& m_new.dom() == m_old.dom()
    &&& forall|j: int|
        0 <= j < keys.len() ==> (#[trigger] m_new[keys[j]]) == ({
            let rank = staple_rank(keys, old_d.scaffold_id, j);
            if old_d.scaffold_id == Some(keys[j]) || rank >= colors.len() {
                m_old[keys[j]]
            } else {
                with_color(m_old[keys[j]], colors[rank])
            }
        })
}

/// Give every non-scaffold strand, in id order, the next color of the
/// palette; the scaffold and the strands past the palette keep theirs.
fn recolor_staples(design: &mut Design, colors: &Vec<u32>)
    requires
        old(design).wf(),
    ensures
        final(design).wf(),
        staples_recolored(*old(design), final(design).strands@, colors@),
{
    let ghost m_old = old(design).strands@;
    let ghost keys = key_seq(*old(design));
    let ghost scaffold = old(design).scaffold_id;
    let ids = design.strands.ids();
    proof {
        assert(ids@ =~= keys);
        assert forall|j: int| 0 <= j < keys.len() implies m_old.contains_key(
            #[trigger] keys[j],
        ) by {
            crate::idvec::lemma_map_of_index(old(design).strands.entries@, j);
        }
        assert forall|j: int, k: int| 0 <= j < k < keys.len() implies keys[j] != keys[k] by {
            assert(old(design).strands.entries@[j].0 < old(design).strands.entries@[k].0);
        }
    }
    let mut next: usize = 0;
    let mut i: usize = 0;
    while i < ids.len()
        invariant
            design.wf(),
            m_old == old(design).strands@,
            keys == key_seq(*old(design)),
            scaffold == old(design).scaffold_id,
            design.scaffold_id == scaffold,
            ids@ == keys,
            forall|j: int| 0 <= j < keys.len() ==> m_old.contains_key(#[trigger] keys[j]),
            forall|j: int, k: int| 0 <= j < k < keys.len() ==> keys[j] != keys[k],
            design.strands@.dom() == m_old.dom(),
            0 <= i <= keys.len(),
            next == staple_rank(keys, scaffold, i as int),
            next <= i,
            forall|j: int|
                0 <= j < i ==> (#[trigger] design.strands@[keys[j]]) == ({
                    let rank = staple_rank(keys, scaffold, j);
                    if scaffold == Some(keys[j]) || rank >= colors@.len() {
                        m_old[keys[j]]
                    } else {
                        with_color(m_old[keys[j]], colors@[rank])
                    }
                }),
            forall|id: usize|
                m_old.contains_key(id) && !keys.take(i as int).contains(id) ==> (
                #[trigger] design.strands@[id]) == m_old[id],
        decreases ids@.len() - i,
    {
        let id = ids[i];
        proof {
            assert(keys[i as int] == id);
            assert forall|k: int|
                0 <= k < i implies #[trigger] keys.take(i as int)[k] != id by {
                assert(keys[k] != keys[i as int]);
            }
            assert(!keys.take(i as int).contains(id));
            assert(design.strands@[id] == m_old[id]);
        }
        let ghost before = design.strands@;
        let is_scaffold = match design.scaffold_id {
            Some(s) => s == id,
            None => false,
        };
        if !is_scaffold {
            if next < colors.len() {
                if let Some(strand) = design.strands.get(id) {
                    let mut updated = strand.clone_strand();
                    updated.color = colors[next];
                    proof {
                        assert(updated@.wf());
                        assert(updated@ == with_color(m_old[id], colors@[next as int]));
                    }
                    design.strands.insert(id, updated);
                    proof {
                        assert(design.strands@.dom() =~= m_old.dom());
                    }
                }
            }
            next = next + 1;
        }
        proof {
            assert(keys.take(i + 1).drop_last() =~= keys.take(i as int));
            assert(keys.take(i + 1)[i as int] == id);
            assert(keys.take(i + 1).contains(id));
            assert(staple_rank(keys, scaffold, i + 1) == staple_rank(keys, scaffold, i as int) + (
            if scaffold == Some(id) {
                0int
            } else {
                1int
            }));
            assert forall|id2: usize|
                m_old.contains_key(id2) && !keys.take(i + 1).contains(id2) implies (
            #[trigger] design.strands@[id2]) == m_old[id2] by {
                assert(id2 != id);
                assert forall|k: int|
                    0 <= k < i implies #[trigger] keys.take(i as int)[k] != id2 by {
                    assert(keys.take(i + 1)[k] == keys.take(i as int)[k]);
                }
                assert(!keys.take(i as int).contains(id2));
                assert(before[id2] == m_old[id2]);
            }
            assert forall|j: int|
                0 <= j < i + 1 implies (#[trigger] design.strands@[keys[j]]) == ({
                let rank = staple_rank(keys, scaffold, j);
                if scaffold == Some(keys[j]) || rank >= colors@.len() {
                    m_old[keys[j]]
                } else {
                    with_color(m_old[keys[j]], colors@[rank])
                }
            }) by {
                if j < i {
                    assert(keys[j] != id);
                    assert(design.strands@[keys[j]] == before[keys[j]]);
                }
            }
        }
        i = i + 1;
    }
    proof {
        assert(keys.take(keys.len() as int) =~= keys);
    }
}

/// Add or remove the listed identifiers in a set.
fn set_members(target: &mut crate::design::IdSet, ids: &Vec<usize>, add: bool)
    requires
        old(target).wf(),
    ensures
        final(target).wf(),
        add ==> final(target)@ == old(target)@.union(ids@.to_set()),
        !add ==> final(target)@ == old(target)@.difference(ids@.to_set()),
{
    let ghost initial = old(target)@;
    let mut i: usize = 0;
    proof {
        assert(ids@.take(0) =~= Seq::<usize>::empty());
        if add {
            assert(target@ =~= initial.union(ids@.take(0).to_set()));
        } else {
            assert(target@ =~= initial.difference(ids@.take(0).to_set()));
        }
    }
    while i < ids.len()
        invariant
            target.wf(),
            initial == old(target)@,
            0 <= i <= ids@.len(),
            add ==> target@ == initial.union(ids@.take(i as int).to_set()),
            !add ==> target@ == initial.difference(ids@.take(i as int).to_set()),
        decreases ids@.len() - i,
    {
        if add {
            target.insert(ids[i]);
        } else {
            target.remove(ids[i]);
        }
        proof {
            assert(ids@.take(i + 1).drop_last() =~= ids@.take(i as int));
            assert forall|x: usize|
                #[trigger] ids@.take(i + 1).contains(x) implies (ids@.take(i as int).contains(x)
                || x == ids@[i as int]) by {
                let k = choose|k: int| 0 <= k < i + 1 && #[trigger] ids@.take(i + 1)[k] == x;
                if k < i {
                    assert(ids@.take(i as int)[k] == x);
                }
            }
            assert forall|x: usize|
                ids@.take(i as int).contains(x) implies #[trigger] ids@.take(i + 1).contains(
                x,
            ) by {
                let k = choose|k: int| 0 <= k < i && #[trigger] ids@.take(i as int)[k] == x;
                assert(ids@.take(i + 1)[k] == x);
            }
            assert(ids@.take(i + 1)[i as int] == ids@[i as int]);
            assert(ids@.take(i + 1).contains(ids@[i as int]));
            if add {
                assert(target@ =~= initial.union(ids@.take(i + 1).to_set()));
            } else {
                assert(target@ =~= initial.difference(ids@.take(i + 1).to_set()));
            }
        }
        i = i + 1;
    }
    proof {
        assert(ids@.take(ids@.len() as int) =~= ids@);
    }
}

/// The strand with its display color replaced.
pub open spec fn with_color(s: StrandV, color: u32) -> StrandV {
    StrandV { color, ..s }
}

/// What recoloring the listed strands leaves behind: every listed,
/// present strand carries the color, every other strand is untouched.
pub open spec fn colors_changed(
    m_old: Map<usize, StrandV>,
    m_new: Map<usize, StrandV>,
    color: u32,
    strands: Seq<usize>,
) -> bool {
    &&& m_new.dom() == m_old.dom()
    &&& forall|id: usize|
        m_old.contains_key(id) ==> (#[trigger] m_new[id]) == (if strands.contains(id) {
            with_color(m_old[id], color)
        } else {
            m_old[id]
        })
}

/// Give the listed strands one color; absent identifiers are ignored.
fn change_color_strands(design: &mut Design, color: u32, strands: &Vec<usize>)
    requires
        old(design).wf(),
    ensures
        final(design).wf(),
        colors_changed(old(design).strands@, final(design).strands@, color, strands@),
{
    let ghost m_old = old(design).strands@;
    let mut i: usize = 0;
    proof {
        assert(strands@.take(0) =~= Seq::<usize>::empty());
    }
    while i < strands.len()
        invariant
            design.wf(),
            colors_changed(m_old, design.strands@, color, strands@.take(i as int)),
            m_old == old(design).strands@,
            0 <= i <= strands@.len(),
        decreases strands@.len() - i,
    {
        let ghost prev = design.strands@;
        let id = strands[i];
        if let Some(strand) = design.strands.get(id) {
            let mut updated = strand.clone_strand();
            updated.color = color;
            proof {
                assert(updated@.wf());
                assert(updated@ == with_color(design.strands@[id], color));
                assert(design.strands@[id] == (if strands@.take(i as int).contains(id) {
                    with_color(m_old[id], color)
                } else {
                    m_old[id]
                }));
                assert(updated@ == with_color(m_old[id], color));
            }
            design.strands.insert(id, updated);
            proof {
                assert(design.strands@.dom() =~= m_old.dom());
            }
        }
        proof {
            assert(strands@.take(i + 1).drop_last() =~= strands@.take(i as int));
            assert(strands@.take(i + 1)[i as int] == id);
            assert(strands@.take(i + 1).contains(id));
            assert forall|k: int|
                0 <= k < i implies #[trigger] strands@.take(i + 1)[k] == strands@.take(
                i as int,
            )[k] by {}
            assert forall|id2: usize|
                m_old.contains_key(id2) implies (#[trigger] design.strands@[id2]) == (if strands@.take(
                i + 1,
            ).contains(id2) {
                with_color(m_old[id2], color)
            } else {
                m_old[id2]
            }) by {
                if strands@.take(i + 1).contains(id2) {
                    let k = choose|k: int|
                        0 <= k < i + 1 && #[trigger] strands@.take(i + 1)[k] == id2;
                    if k < i {
                        assert(strands@.take(i as int)[k] == id2);
                        assert(strands@.take(i as int).contains(id2));
                    } else {
                        assert(id2 == id);
                    }
                    if id2 == id {
                        assert(design.strands@[id2] == with_color(m_old[id2], color));
                    } else {
                        assert(prev[id2] == with_color(m_old[id2], color));
                        assert(design.strands@[id2] == prev[id2]);
                    }
                } else {
                    assert(!strands@.take(i as int).contains(id2)) by {
                        if strands@.take(i as int).contains(id2) {
                            let k = choose|k: int|
                                0 <= k < i && #[trigger] strands@.take(i as int)[k] == id2;
                            assert(strands@.take(i + 1)[k] == id2);
                        }
                    }
                    assert(id2 != id);
                    assert(design.strands@[id2] == prev[id2]);
                }
            }
        }
        i = i + 1;
    }
    proof {
        assert(strands@.take(strands@.len() as int) =~= strands@);
    }
}

/// The builder a nucleotide yields: the nucleotide must be a free
/// strand end, and the builder drags that extremity of the strand's
/// first or last domain.
pub open spec fn builder_for(d: Design, nucl: Nucl) -> Option<StrandBuilder> {
    if !crate::operations::some_holder(d.strands@, nucl) {
        None
    } else {
        let strand_id = crate::operations::holder_of(d.strands@, nucl);
        match d.strand_end_spec(nucl) {
            crate::nucl::Extremity::Prime3 => {
                if d.strands@[strand_id].domains.len() == 0 {
                    None
                } else {
                    Some(
                        StrandBuilder {
                            strand_id,
                            domain: (d.strands@[strand_id].domains.len() - 1) as usize,
                            moving_prime3: true,
                            nucl,
                        },
                    )
                }
            },
            crate::nucl::Extremity::Prime5 => Some(
                StrandBuilder { strand_id, domain: 0, moving_prime3: false, nucl },
            ),
            crate::nucl::Extremity::Inside => None,
        }
    }
}

/// A builder for a nucleotide that is a free strand end: the builder
/// will drag that extremity.
fn request_one_builder(design: &Design, nucl: &Nucl) -> (r: Option<StrandBuilder>)
    requires
        design.wf(),
    ensures
        r == builder_for(*design, *nucl),
{
    proof {
        if crate::operations::some_holder(design.strands@, *nucl) {
            let w = choose|id: usize|
                design.strands@.contains_key(id) && crate::strand::strand_has_nucl(
                    #[trigger] design.strands@[id],
                    *nucl,
                );
            crate::operations::lemma_least_holder(design.strands@, *nucl, w);
        }
    }
    let strand_id = match design.get_strand_nucl(nucl) {
        Some(id) => id,
        None => {
            return None;
        },
    };
    let end = design.is_strand_end(nucl);
    match end.to_opt() {
        Some(true) => {
            // the moving extremity is the strand's 3' end: the last domain
            let strand = match design.strands.get(strand_id) {
                Some(s) => s,
                None => {
                    return None;
                },
            };
            if strand.domains.len() == 0 {
                return None;
            }
            Some(
                StrandBuilder {
                    strand_id,
                    domain: strand.domains.len() - 1,
                    moving_prime3: true,
                    nucl: *nucl,
                },
            )
        },
        Some(false) => Some(StrandBuilder { strand_id, domain: 0, moving_prime3: false, nucl: *nucl }),
        None => None,
    }
}

/// The interval with its moving extremity at position `n`, when the
/// move keeps it non-empty and within machine range.
pub open spec fn moved_interval(
    iv: crate::domain::HelixIntervalV,
    moving_prime3: bool,
    n: isize,
) -> Option<crate::domain::HelixIntervalV> {
    if moving_prime3 == iv.forward {
        if n < isize::MAX && 1 <= n + 1 - iv.start <= isize::MAX {
            Some(crate::domain::HelixIntervalV { end: n + 1, ..iv })
        } else {
            None
        }
    } else {
        if n > isize::MIN && 1 <= iv.end - n <= isize::MAX {
            Some(crate::domain::HelixIntervalV { start: n as int, ..iv })
        } else {
            None
        }
    }
}

/// The strand map after one builder moved its extremity to `n`: the
/// edited domain is rewritten when the move is sound, and nothing
/// changes otherwise.
pub open spec fn move_builder_spec(
    m: Map<usize, StrandV>,
    b: StrandBuilder,
    n: isize,
) -> Map<usize, StrandV> {
    if !m.contains_key(b.strand_id) {
        m
    } else {
        let s = m[b.strand_id];
        if b.domain >= s.domains.len() {
            m
        } else {
            match s.domains[b.domain as int] {
                crate::domain::DomainV::HelixDomain(iv) => {
                    match moved_interval(iv, b.moving_prime3, n) {
                        Some(nd) => {
                            if s.length() - iv.len() + nd.len() <= usize::MAX {
                                m.insert(
                                    b.strand_id,
                                    StrandV {
                                        domains: s.domains.update(
                                            b.domain as int,
                                            crate::domain::DomainV::HelixDomain(nd),
                                        ),
                                        ..s
                                    },
                                )
                            } else {
                                m
                            }
                        },
                        None => m,
                    }
                },
                crate::domain::DomainV::Insertion(_) => m,
            }
        }
    }
}

/// The strand map after every builder of the list moved to `n`, in order.
pub open spec fn move_all(
    m: Map<usize, StrandV>,
    builders: Seq<StrandBuilder>,
    n: isize,
    i: int,
) -> Map<usize, StrandV>
    decreases builders.len() - i,
{
    if i < 0 || i >= builders.len() {
        m
    } else {
        move_all(move_builder_spec(m, builders[i], n), builders, n, i + 1)
    }
}

/// Move a builder's extremity to position `n`, leaving the strand
/// unchanged when the move would empty the domain or overflow.
fn move_builder(design: &mut Design, builder: &StrandBuilder, n: isize)
    requires
        old(design).wf(),
    ensures
        final(design).wf(),
        final(design).strands@ == move_builder_spec(old(design).strands@, *builder, n),
        crate::operations::same_but_strands(*old(design), *final(design)),
{
    let strand = match design.strands.get(builder.strand_id) {
        Some(s) => s.clone_strand(),
        None => {
            return ;
        },
    };
    if builder.domain >= strand.domains.len() {
        return ;
    }
    let ghost old_strand = strand@;
    let mut strand = strand;
    let updated: Option<Domain> = match &strand.domains[builder.domain] {
        Domain::HelixDomain(interval) => {
            let mut new_interval = interval.clone_interval();
            proof {
                assert(old_strand.domains[builder.domain as int].wf());
            }
            if builder.moving_prime3 == interval.forward {
                // the moving extremity is the interval's high end
                let span: i128 = (n as i128) + 1 - (new_interval.start as i128);
                if n < isize::MAX && span >= 1 && span <= (isize::MAX as i128) {
                    new_interval.end = n + 1;
                    Some(Domain::HelixDomain(new_interval))
                } else {
                    None
                }
            } else {
                // the moving extremity is the interval's low end
                let span: i128 = (new_interval.end as i128) - (n as i128);
                if n > isize::MIN && span >= 1 && span <= (isize::MAX as i128) {
                    new_interval.start = n;
                    Some(Domain::HelixDomain(new_interval))
                } else {
                    None
                }
            }
        },
        Domain::Insertion(_) => None,
    };
    let new_domain = match updated {
        Some(d) => d,
        None => {
            return ;
        },
    };
    proof {
        assert(new_domain@.wf()) by {
            assert(old_strand.domains[builder.domain as int].wf());
        }
    }
    let ghost new_len = new_domain@.len();
    let total = strand.length();
    let old_dom_len = strand.domains[builder.domain].length();
    proof {
        let doms = old_strand.domains;
        let b = builder.domain as int;
        assert(doms.take(b) + seq![doms[b]] + doms.skip(b + 1) =~= doms);
        crate::strand::lemma_total_len_add(doms.take(b) + seq![doms[b]], doms.skip(b + 1));
        crate::strand::lemma_total_len_add(doms.take(b), seq![doms[b]]);
        crate::strand::lemma_total_len_singleton(doms[b]);
        crate::strand::lemma_total_len_bounds(doms.take(b));
        crate::strand::lemma_total_len_bounds(doms.skip(b + 1));
        assert(old_dom_len <= total);
    }
    // keep the strand's total length within machine range
    let rest = total - old_dom_len;
    let new_dom_len = new_domain.length();
    if new_dom_len > usize::MAX - rest {
        return ;
    }
    strand.domains.set(builder.domain, new_domain);
    proof {
        let doms = old_strand.domains;
        let b = builder.domain as int;
        assert(strand@.domains =~= doms.update(b, new_domain@));
        assert(doms.take(b) + seq![doms[b]] + doms.skip(b + 1) =~= doms);
        crate::strand::lemma_total_len_add(doms.take(b) + seq![doms[b]], doms.skip(b + 1));
        crate::strand::lemma_total_len_add(doms.take(b), seq![doms[b]]);
        crate::strand::lemma_total_len_singleton(doms[b]);
        let nd = doms.update(b, new_domain@);
        assert(nd =~= doms.take(b) + seq![new_domain@] + doms.skip(b + 1));
        crate::strand::lemma_total_len_add(doms.take(b) + seq![new_domain@], doms.skip(b + 1));
        crate::strand::lemma_total_len_add(doms.take(b), seq![new_domain@]);
        crate::strand::lemma_total_len_singleton(new_domain@);
        assert(crate::strand::total_len(nd) == total - old_dom_len + new_len);
        assert(crate::strand::all_domains_wf(nd));
    }
    design.strands.insert(builder.strand_id, strand);
}

/// Add a helix on a grid slot, with one strand in each direction when
/// `length > 0`.
fn add_grid_helix(
    design: &mut Design,
    position: GridPosition,
    start: isize,
    length: usize,
    color_forward: u32,
    color_backward: u32,
) -> (r: Result<usize, ErrOperation>)
    requires
        old(design).wf(),
        forall|k: usize| old(design).helices@.contains_key(k) ==> k < usize::MAX,
        forall|k: usize| old(design).strands@.contains_key(k) ==> k < usize::MAX - 1,
        isize::MIN < start,
        start + length <= isize::MAX,
        length <= isize::MAX,
    ensures
        final(design).wf(),
        r == Err::<usize, ErrOperation>(ErrOperation::GridDoesNotExist(position.grid))
            ==> position.grid >= old(design).grids@.len(),
        r matches Ok(h) ==> final(design).helices@.contains_key(h) && final(design).helices@[h]
            == (Helix { grid_position: Some(GridPosition { grid: position.grid, x: position.x, y: position.y }), visible: true })
            && !old(design).helices@.contains_key(h),
{
    // refuse an occupied slot
    let n = design.helices.entries.len();
    let mut i: usize = 0;
    while i < n
        invariant
            design.wf(),
            *design == *old(design),
            n == design.helices.entries@.len(),
            0 <= i <= n,
        decreases n - i,
    {
        let h = &design.helices.entries[i].1;
        if let Some(gp) = h.grid_position {
            if gp.grid == position.grid && gp.x == position.x && gp.y == position.y {
                return Err(ErrOperation::GridPositionAlreadyUsed);
            }
        }
        i = i + 1;
    }
    if position.grid >= design.grids.len() {
        return Err(ErrOperation::GridDoesNotExist(position.grid));
    }
    let helix_id = match design.helices.max_key() {
        Some(m) => m + 1,
        None => 0,
    };
    proof {
        if design.helices@.contains_key(helix_id) {
            assert(false);
        }
    }
    let helix = Helix::new_on_grid(position.grid, position.x, position.y);
    design.helices.insert(helix_id, helix);
    if length > 0 {
        proof {
            assert forall|k: usize|
                design.strands@.contains_key(k) implies k < usize::MAX by {}
        }
        let first = add_strand_on_helix(design, helix_id, start, length, true, color_forward);
        proof {
            assert forall|k: usize|
                design.strands@.contains_key(k) implies k < usize::MAX by {
                if k != first {
                    assert(old(design).strands@.contains_key(k));
                }
            }
        }
        add_strand_on_helix(design, helix_id, start, length, false, color_backward);
    }
    Ok(helix_id)
}

/// Add one fresh strand covering `start .. start + length` on the helix.
fn add_strand_on_helix(
    design: &mut Design,
    helix: usize,
    start: isize,
    length: usize,
    forward: bool,
    color: u32,
) -> (r: usize)
    requires
        old(design).wf(),
        forall|k: usize| old(design).strands@.contains_key(k) ==> k < usize::MAX,
        isize::MIN < start,
        start + length <= isize::MAX,
        0 < length <= isize::MAX,
    ensures
        final(design).wf(),
        final(design).helices@ == old(design).helices@,
        final(design).grids@ == old(design).grids@,
        final(design).strands@.contains_key(r),
        !old(design).strands@.contains_key(r),
        forall|k: usize|
            final(design).strands@.contains_key(k) ==> old(design).strands@.contains_key(k) || k
                == r,
        r == 0 || (exists|mk: usize|
            old(design).strands@.contains_key(mk) && r == mk + 1 && forall|k: usize|
                #[trigger] old(design).strands@.contains_key(k) ==> k <= mk),
        final(design).strands@ == old(design).strands@.insert(r, final(design).strands@[r]),
        final(design).strands@[r].nucls() == (crate::domain::HelixIntervalV {
            helix,
            start: start as int,
            end: start + length,
            forward,
            sequence: None,
        }).nucls(),
{
    let new_key = match design.strands.max_key() {
        Some(m) => m + 1,
        None => 0,
    };
    proof {
        if design.strands@.dom() =~= Set::<usize>::empty() {
        }
    }
    let interval = crate::domain::HelixInterval {
        helix,
        start,
        end: start + length as isize,
        forward,
        sequence: None,
    };
    let strand = Strand {
        domains: vec![Domain::HelixDomain(interval)],
        junctions: vec![DomainJunction::Prime3],
        cyclic: false,
        color,
        sequence: None,
        name: None,
    };
    proof {
        assert(strand@.domains =~= seq![strand.domains@[0]@]);
        crate::strand::lemma_total_len_singleton(strand@.domains[0]);
        crate::strand::lemma_nucls_of_singleton(strand@.domains[0]);
    }
    design.strands.insert(new_key, strand);
    proof {
        assert(final(design).strands@ =~= old(design).strands@.insert(
            new_key,
            final(design).strands@[new_key],
        ));
    }
    new_key
}

/// Copies of a strand list.
fn clone_strand_vec(src: &Vec<Strand>) -> (r: Vec<Strand>)
    ensures
        r@.len() == src@.len(),
        forall|i: int| 0 <= i < src@.len() ==> (#[trigger] r@[i])@ == src@[i]@,
{
    let mut r: Vec<Strand> = Vec::new();
    let mut i: usize = 0;
    while i < src.len()
        invariant
            0 <= i <= src@.len(),
            r@.len() == i,
            forall|j: int| 0 <= j < i ==> (#[trigger] r@[j])@ == src@[j]@,
        decreases src@.len() - i,
    {
        r.push(src[i].clone_strand());
        i = i + 1;
    }
    r
}

} // verus!

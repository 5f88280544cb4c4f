use ensnano::controller::{
    Controller, ControllerState, CopyOperation, DesignOperation, InteractorNotification,
    IsometryTarget, OkOperation, PastingStatus, Selection,
};
use ensnano::design::{Design, GridDescriptor, GridPosition, GridTypeDescr};
use ensnano::domain::{Domain, DomainJunction, HelixInterval};
use ensnano::nucl::Nucl;
use ensnano::operations::ErrOperation;
use ensnano::strand::Strand;

fn nucl(helix: usize, position: isize, forward: bool) -> Nucl {
    Nucl { helix, position, forward }
}

fn one_strand_design() -> Design {
    let mut design = Design::new();
    let strand = Strand {
        domains: vec![Domain::HelixDomain(HelixInterval {
            helix: 1,
            start: 0,
            end: 6,
            forward: true,
            sequence: None,
        })],
        junctions: vec![DomainJunction::Prime3],
        cyclic: false,
        color: 0,
        sequence: None,
        name: None,
    };
    design.strands.insert(0, strand);
    design
}

#[test]
fn cut_through_the_session_is_undoable() {
    let controller = Controller::new();
    let design = one_strand_design();
    let (outcome, _next) = controller
        .apply_operation(&design, DesignOperation::Cut { nucl: nucl(1, 3, true) })
        .expect("cut");
    match outcome {
        OkOperation::Push(d) => assert_eq!(d.strands.len(), 2),
        _ => panic!("a cut in the normal state must be undoable"),
    }
    // the snapshot handed in is untouched
    assert_eq!(design.strands.len(), 1);
}

#[test]
fn color_drag_rejects_other_operations() {
    let mut controller = Controller::new();
    controller.state = ControllerState::ChangingColor;
    let design = one_strand_design();
    let r = controller.apply_operation(&design, DesignOperation::Cut { nucl: nucl(1, 3, true) });
    assert!(matches!(r, Err(ErrOperation::IncompatibleState)));
    let ok = controller.apply_operation(
        &design,
        DesignOperation::ChangeColor { color: 7, strands: vec![0] },
    );
    assert!(ok.is_ok());
}

#[test]
fn change_color_is_transient() {
    let mut controller = Controller::new();
    controller.state = ControllerState::ChangingColor;
    let design = one_strand_design();
    let (outcome, next) = controller
        .apply_operation(&design, DesignOperation::ChangeColor { color: 7, strands: vec![0] })
        .expect("recolor");
    match outcome {
        OkOperation::Replace(d) => {
            assert_eq!(d.strands.get(0).expect("strand").color, 7);
        },
        _ => panic!("a color drag must replace, not push"),
    }
    assert!(matches!(next.state, ControllerState::ChangingColor));
}

#[test]
fn finish_operation_returns_to_normal() {
    let mut controller = Controller::new();
    controller.state = ControllerState::ChangingColor;
    let back = controller.notify(InteractorNotification::FinishOperation);
    assert!(matches!(back.state, ControllerState::Normal));
}

#[test]
fn translating_the_whole_design_is_not_handled() {
    let controller = Controller::new();
    let design = one_strand_design();
    let r = controller.apply_operation(
        &design,
        DesignOperation::Translation { target: IsometryTarget::Design },
    );
    assert!(matches!(r, Err(ErrOperation::NotImplemented)));
}

#[test]
fn recolor_staples_skips_the_scaffold() {
    let controller = Controller::new();
    let mut design = one_strand_design();
    let strand = Strand {
        domains: vec![Domain::HelixDomain(HelixInterval {
            helix: 2,
            start: 0,
            end: 6,
            forward: true,
            sequence: None,
        })],
        junctions: vec![DomainJunction::Prime3],
        cyclic: false,
        color: 0,
        sequence: None,
        name: None,
    };
    design.strands.insert(1, strand);
    design.scaffold_id = Some(0);
    let (outcome, next) = controller
        .apply_operation(&design, DesignOperation::RecolorStaples { colors: vec![11, 22] })
        .expect("recolor");
    match outcome {
        OkOperation::Push(d) => {
            assert_eq!(d.strands.get(0).expect("scaffold").color, 0);
            assert_eq!(d.strands.get(1).expect("staple").color, 11);
        },
        _ => panic!("recoloring in the normal state must be undoable"),
    }
    assert_eq!(next.color_idx, 2);
}

#[test]
fn add_grid_then_helix_creates_two_strands() {
    let controller = Controller::new();
    let design = Design::new();
    let (outcome, _) = controller
        .apply_operation(
            &design,
            DesignOperation::AddGrid(GridDescriptor { grid_type: GridTypeDescr::Square }),
        )
        .expect("add grid");
    let with_grid = match outcome {
        OkOperation::Push(d) => d,
        _ => panic!("adding a grid must be undoable"),
    };
    assert_eq!(with_grid.grids.len(), 1);
    let (outcome, _) = controller
        .apply_operation(
            &with_grid,
            DesignOperation::AddGridHelix {
                position: GridPosition { grid: 0, x: 0, y: 0 },
                start: 0,
                length: 5,
                color_forward: 1,
                color_backward: 2,
            },
        )
        .expect("add helix");
    let with_helix = match outcome {
        OkOperation::Push(d) => d,
        _ => panic!("adding a helix must be undoable"),
    };
    assert_eq!(with_helix.helices.len(), 1);
    assert_eq!(with_helix.strands.len(), 2);
    assert_eq!(with_helix.strands.get(0).expect("forward strand").length(), 5);
    assert_eq!(with_helix.strands.get(1).expect("backward strand").length(), 5);
}

#[test]
fn grid_helix_on_missing_grid_is_rejected() {
    let controller = Controller::new();
    let design = Design::new();
    let r = controller.apply_operation(
        &design,
        DesignOperation::AddGridHelix {
            position: GridPosition { grid: 0, x: 0, y: 0 },
            start: 0,
            length: 5,
            color_forward: 1,
            color_backward: 2,
        },
    );
    assert!(matches!(r, Err(ErrOperation::GridDoesNotExist(0))));
}

#[test]
fn grid_slot_cannot_be_used_twice() {
    let controller = Controller::new();
    let design = Design::new();
    let (outcome, _) = controller
        .apply_operation(
            &design,
            DesignOperation::AddGrid(GridDescriptor { grid_type: GridTypeDescr::Square }),
        )
        .expect("add grid");
    let with_grid = match outcome {
        OkOperation::Push(d) => d,
        _ => panic!("adding a grid must be undoable"),
    };
    let op = DesignOperation::AddGridHelix {
        position: GridPosition { grid: 0, x: 1, y: 2 },
        start: 0,
        length: 0,
        color_forward: 1,
        color_backward: 2,
    };
    let (outcome, _) = controller.apply_operation(&with_grid, op).expect("add helix");
    let with_helix = match outcome {
        OkOperation::Push(d) => d,
        _ => panic!("adding a helix must be undoable"),
    };
    let again = DesignOperation::AddGridHelix {
        position: GridPosition { grid: 0, x: 1, y: 2 },
        start: 0,
        length: 0,
        color_forward: 1,
        color_backward: 2,
    };
    let r = controller.apply_operation(&with_helix, again);
    assert!(matches!(r, Err(ErrOperation::GridPositionAlreadyUsed)));
}

#[test]
fn helices_to_grid_validates_the_selection() {
    let controller = Controller::new();
    let design = one_strand_design();
    let r = controller.apply_operation(
        &design,
        DesignOperation::HelicesToGrid { selection: vec![Selection::Strand(0)] },
    );
    assert!(matches!(r, Err(ErrOperation::BadSelection)));
}

#[test]
fn moving_one_strand_builder_grows_the_domain() {
    let controller = Controller::new();
    let design = one_strand_design();
    let (_, building) = controller
        .apply_operation(
            &design,
            DesignOperation::RequestStrandBuilders { nucls: vec![nucl(1, 5, true)] },
        )
        .expect("request builders");
    assert!(matches!(building.state, ControllerState::BuildingStrand { .. }));
    let (outcome, moved) = building
        .apply_operation(&design, DesignOperation::MoveBuilders(7))
        .expect("move builders");
    let d = match outcome {
        OkOperation::Replace(d) => d,
        _ => panic!("a building drag must replace, not push"),
    };
    let strand = d.strands.get(0).expect("strand");
    assert_eq!(strand.get_3prime(), Some(nucl(1, 7, true)));
    assert_eq!(strand.length(), 8);
    assert!(matches!(
        moved.state,
        ControllerState::BuildingStrand { initializing: false, .. }
    ));
}

#[test]
fn builders_need_a_strand_end() {
    let controller = Controller::new();
    let design = one_strand_design();
    let r = controller.apply_operation(
        &design,
        DesignOperation::RequestStrandBuilders { nucls: vec![nucl(1, 3, true)] },
    );
    assert!(matches!(r, Err(ErrOperation::CannotBuildOn(_))));
}

#[test]
fn copy_fills_the_clipboard() {
    let controller = Controller::new();
    let design = one_strand_design();
    let (outcome, next) = controller
        .apply_copy_operation(&design, CopyOperation::CopyStrands(vec![0]))
        .expect("copy");
    assert!(matches!(outcome, OkOperation::NoOp));
    assert_eq!(next.size_of_clipboard(), 1);
    assert_eq!(next.is_pasting(), PastingStatus::NotPasting);
}

#[test]
fn positioning_after_copy_reports_a_paste() {
    let controller = Controller::new();
    let design = one_strand_design();
    let (_, with_clip) = controller
        .apply_copy_operation(&design, CopyOperation::CopyStrands(vec![0]))
        .expect("copy");
    let (_, positioning) = with_clip
        .apply_copy_operation(&design, CopyOperation::PositionPastingPoint(None))
        .expect("position");
    assert_eq!(positioning.is_pasting(), PastingStatus::Copy);
}

#[test]
fn positioning_with_empty_clipboard_is_rejected() {
    let controller = Controller::new();
    let design = one_strand_design();
    let r = controller.apply_copy_operation(&design, CopyOperation::PositionPastingPoint(None));
    assert!(matches!(r, Err(ErrOperation::EmptyClipboard)));
}

#[test]
fn duplication_gesture_reports_its_status() {
    let controller = Controller::new();
    let design = one_strand_design();
    let (_, dup) = controller
        .apply_copy_operation(&design, CopyOperation::InitStrandsDuplication(vec![0]))
        .expect("init duplication");
    assert_eq!(dup.is_pasting(), PastingStatus::Duplication);
    assert!(!dup.can_iterate_duplication());
}

#[test]
fn copying_missing_strands_is_rejected() {
    let controller = Controller::new();
    let design = one_strand_design();
    let r = controller.apply_copy_operation(&design, CopyOperation::CopyStrands(vec![4]));
    assert!(matches!(r, Err(ErrOperation::StrandDoesNotExist(4))));
}

#[test]
fn into_undoable_promotes_replacements() {
    let design = Design::new();
    let promoted = OkOperation::Replace(design).into_undoable();
    assert!(matches!(promoted, OkOperation::Push(_)));
    assert!(matches!(OkOperation::NoOp.into_undoable(), OkOperation::NoOp));
}

#[test]
fn general_crossover_through_the_session() {
    let controller = Controller::new();
    let mut design = one_strand_design();
    let strand = Strand {
        domains: vec![Domain::HelixDomain(HelixInterval {
            helix: 2,
            start: 0,
            end: 6,
            forward: false,
            sequence: None,
        })],
        junctions: vec![DomainJunction::Prime3],
        cyclic: false,
        color: 0,
        sequence: None,
        name: None,
    };
    design.strands.insert(1, strand);
    let (outcome, _) = controller
        .apply_operation(
            &design,
            DesignOperation::GeneralXover { source: nucl(1, 5, true), target: nucl(2, 5, false) },
        )
        .expect("crossover");
    match outcome {
        OkOperation::Push(d) => {
            assert_eq!(d.strands.len(), 1);
            assert_eq!(d.strands.get(0).expect("strand").length(), 12);
        },
        _ => panic!("a crossover in the normal state must be undoable"),
    }
}

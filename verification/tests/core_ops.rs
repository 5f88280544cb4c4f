use ensnano::design::Design;
use ensnano::domain::{junction, Domain, DomainJunction, HelixInterval};
use ensnano::nucl::{Extremity, Nucl};
use ensnano::operations::{
    break_cycle, cross_cut, cut, general_cross_over, make_cycle, merge_strands, split_strand,
    ErrOperation,
};
use ensnano::strand::Strand;
use ensnano::xover_ids::{update_junction, XoverIds};

fn interval(helix: usize, start: isize, end: isize, forward: bool) -> Domain {
    Domain::HelixDomain(HelixInterval { helix, start, end, forward, sequence: None })
}

fn linear_strand(helix: usize, start: isize, end: isize, forward: bool) -> Strand {
    Strand {
        domains: vec![interval(helix, start, end, forward)],
        junctions: vec![DomainJunction::Prime3],
        cyclic: false,
        color: 0xFF0000,
        sequence: None,
        name: None,
    }
}

fn nucl(helix: usize, position: isize, forward: bool) -> Nucl {
    Nucl { helix, position, forward }
}

fn strand_len(design: &Design, id: usize) -> usize {
    design.strands.get(id).expect("strand").length()
}

#[test]
fn simple_test_for_Vec() {
    println!("Coucou!");
}

#[test]
fn split_interior_divides_in_two() {
    let mut design = Design::new();
    design.strands.insert(0, linear_strand(1, 0, 10, true));
    let new_id = split_strand(&mut design, &nucl(1, 3, true), None).expect("split");
    assert_eq!(new_id, 1);
    // the nucleotide stays on the 5' half, which keeps the id
    assert_eq!(strand_len(&design, 0), 4);
    assert_eq!(strand_len(&design, 1), 6);
}

#[test]
fn split_then_merge_restores_content() {
    let mut design = Design::new();
    design.strands.insert(0, linear_strand(1, 0, 10, true));
    let new_id = split_strand(&mut design, &nucl(1, 3, true), None).expect("split");
    merge_strands(&mut design, 0, new_id).expect("merge");
    assert_eq!(design.strands.len(), 1);
    let merged = design.strands.get(0).expect("strand");
    assert_eq!(merged.length(), 10);
    // the two adjacent halves fuse back into a single interval
    assert_eq!(merged.domains.len(), 1);
    assert_eq!(merged.get_5prime(), Some(nucl(1, 0, true)));
    assert_eq!(merged.get_3prime(), Some(nucl(1, 9, true)));
}

#[test]
fn split_conserves_nucleotide_count() {
    let mut design = Design::new();
    let strand = Strand {
        domains: vec![interval(1, 0, 5, true), Domain::Insertion(3), interval(2, 0, 5, false)],
        junctions: vec![
            DomainJunction::UnidentifiedXover,
            DomainJunction::UnidentifiedXover,
            DomainJunction::Prime3,
        ],
        cyclic: false,
        color: 0,
        sequence: None,
        name: None,
    };
    assert_eq!(strand.length(), 13);
    design.strands.insert(0, strand);
    let new_id = split_strand(&mut design, &nucl(2, 3, false), None).expect("split");
    assert_eq!(strand_len(&design, 0) + strand_len(&design, new_id), 13);
}

#[test]
fn cut_missing_nucleotide_is_rejected() {
    let mut design = Design::new();
    design.strands.insert(0, linear_strand(1, 0, 10, true));
    let r = cut(&mut design, &nucl(9, 0, true));
    assert_eq!(r, Err(ErrOperation::CutInexistingStrand));
    assert_eq!(design.strands.len(), 1);
    assert_eq!(strand_len(&design, 0), 10);
}

#[test]
fn cut_lone_nucleotide_is_rejected() {
    let mut design = Design::new();
    design.strands.insert(0, linear_strand(1, 0, 1, true));
    let r = cut(&mut design, &nucl(1, 0, true));
    assert_eq!(r, Err(ErrOperation::CutInexistingStrand));
    assert_eq!(design.strands.len(), 1);
}

#[test]
fn fresh_ids_follow_the_maximum() {
    let mut design = Design::new();
    design.strands.insert(0, linear_strand(1, 0, 10, true));
    design.strands.insert(1, linear_strand(2, 0, 10, true));
    let id_a = split_strand(&mut design, &nucl(1, 4, true), None).expect("split");
    assert_eq!(id_a, 2);
    let id_b = split_strand(&mut design, &nucl(2, 4, true), None).expect("split");
    assert_eq!(id_b, 3);
}

#[test]
fn merging_a_strand_with_itself_is_rejected() {
    let mut design = Design::new();
    design.strands.insert(0, linear_strand(1, 0, 10, true));
    assert_eq!(merge_strands(&mut design, 0, 0), Err(ErrOperation::MergingSameStrand));
}

#[test]
fn merging_missing_strands_is_rejected() {
    let mut design = Design::new();
    design.strands.insert(0, linear_strand(1, 0, 10, true));
    assert_eq!(merge_strands(&mut design, 7, 0), Err(ErrOperation::StrandDoesNotExist(7)));
    assert_eq!(merge_strands(&mut design, 0, 7), Err(ErrOperation::StrandDoesNotExist(7)));
    assert_eq!(design.strands.len(), 1);
}

#[test]
fn merge_across_helices_marks_a_crossover() {
    let mut design = Design::new();
    design.strands.insert(0, linear_strand(1, 0, 6, true));
    design.strands.insert(1, linear_strand(2, 0, 6, false));
    merge_strands(&mut design, 0, 1).expect("merge");
    let merged = design.strands.get(0).expect("strand");
    assert_eq!(merged.length(), 12);
    assert_eq!(
        merged.junctions,
        vec![DomainJunction::UnidentifiedXover, DomainJunction::Prime3]
    );
    assert!(design.strands.get(1).is_none());
}

#[test]
fn cycle_round_trip_keeps_every_nucleotide() {
    let mut design = Design::new();
    let cyclic = Strand {
        domains: vec![interval(1, 0, 6, true), interval(2, 0, 6, false)],
        junctions: vec![DomainJunction::UnidentifiedXover, DomainJunction::UnidentifiedXover],
        cyclic: true,
        color: 0,
        sequence: None,
        name: None,
    };
    design.strands.insert(0, cyclic);
    let id = split_strand(&mut design, &nucl(1, 3, true), None).expect("split");
    // breaking a cycle keeps the strand under its own id
    assert_eq!(id, 0);
    let broken = design.strands.get(0).expect("strand");
    assert!(!broken.cyclic);
    assert_eq!(broken.length(), 12);
    assert_eq!(*broken.junctions.last().expect("junction"), DomainJunction::Prime3);
    make_cycle(&mut design, 0, true).expect("make_cycle");
    let restored = design.strands.get(0).expect("strand");
    assert!(restored.cyclic);
    assert_eq!(restored.length(), 12);
}

#[test]
fn break_cycle_starts_after_the_cut() {
    let strand = Strand {
        domains: vec![interval(1, 0, 6, true), interval(2, 0, 6, false)],
        junctions: vec![DomainJunction::UnidentifiedXover, DomainJunction::UnidentifiedXover],
        cyclic: true,
        color: 0,
        sequence: None,
        name: None,
    };
    let broken = break_cycle(strand, &nucl(1, 2, true), None);
    // the cut nucleotide becomes the new 3' end
    assert_eq!(broken.get_3prime(), Some(nucl(1, 2, true)));
    assert_eq!(broken.length(), 12);
}

#[test]
fn make_cycle_merges_seam_insertions() {
    let mut design = Design::new();
    let strand = Strand {
        domains: vec![Domain::Insertion(2), interval(1, 0, 6, true), Domain::Insertion(3)],
        junctions: vec![
            DomainJunction::UnidentifiedXover,
            DomainJunction::UnidentifiedXover,
            DomainJunction::Prime3,
        ],
        cyclic: false,
        color: 0,
        sequence: None,
        name: None,
    };
    design.strands.insert(0, strand);
    make_cycle(&mut design, 0, true).expect("make_cycle");
    let cycled = design.strands.get(0).expect("strand");
    assert!(cycled.cyclic);
    assert_eq!(cycled.domains.len(), 2);
    assert_eq!(cycled.length(), 11);
    assert!(matches!(cycled.domains[1], Domain::Insertion(5)));
}

#[test]
fn same_helix_crossover_is_rejected() {
    let mut design = Design::new();
    design.strands.insert(0, linear_strand(1, 0, 6, true));
    design.strands.insert(1, linear_strand(1, 10, 16, true));
    let r = general_cross_over(&mut design, nucl(1, 2, true), nucl(1, 12, true));
    assert_eq!(r, Err(ErrOperation::XoverOnSameHelix));
    assert_eq!(design.strands.len(), 2);
}

#[test]
fn crossover_between_two_prime3_ends_is_rejected() {
    let mut design = Design::new();
    design.strands.insert(0, linear_strand(1, 0, 6, true));
    design.strands.insert(1, linear_strand(2, 0, 6, true));
    let r = general_cross_over(&mut design, nucl(1, 5, true), nucl(2, 5, true));
    assert_eq!(r, Err(ErrOperation::XoverBetweenTwoPrime3));
}

#[test]
fn crossover_between_two_prime5_ends_is_rejected() {
    let mut design = Design::new();
    design.strands.insert(0, linear_strand(1, 0, 6, true));
    design.strands.insert(1, linear_strand(2, 0, 6, true));
    let r = general_cross_over(&mut design, nucl(1, 0, true), nucl(2, 0, true));
    assert_eq!(r, Err(ErrOperation::XoverBetweenTwoPrime5));
}

#[test]
fn crossover_on_missing_nucleotide_is_rejected() {
    let mut design = Design::new();
    design.strands.insert(0, linear_strand(1, 0, 6, true));
    let r = general_cross_over(&mut design, nucl(3, 0, true), nucl(2, 0, false));
    assert_eq!(r, Err(ErrOperation::NuclDoesNotExist(nucl(3, 0, true))));
}

#[test]
fn simple_crossover_merges_the_two_strands() {
    let mut design = Design::new();
    // strand 0: helix 1, positions 0 to 5, forward; its 3' end is (1, 5).
    design.strands.insert(0, linear_strand(1, 0, 6, true));
    // strand 1: helix 2, positions 0 to 5, backward; its 5' end is (2, 5).
    design.strands.insert(1, linear_strand(2, 0, 6, false));
    general_cross_over(&mut design, nucl(1, 5, true), nucl(2, 5, false)).expect("crossover");
    assert_eq!(design.strands.len(), 1);
    let merged = design.strands.get(0).expect("strand");
    assert_eq!(merged.length(), 12);
    assert_eq!(
        merged.junctions,
        vec![DomainJunction::UnidentifiedXover, DomainJunction::Prime3]
    );
    // re-deriving the registry identifies the crossover at the seam
    let mut ids = XoverIds::new();
    let mut seam = merged.junctions[0];
    update_junction(&mut ids, &mut seam, (nucl(1, 5, true), nucl(2, 5, false)));
    assert_eq!(seam, DomainJunction::IdentifiedXover(0));
    assert_eq!(ids.get_all_elements(), vec![(0, (nucl(1, 5, true), nucl(2, 5, false)))]);
}

#[test]
fn interior_crossover_conserves_nucleotides() {
    let mut design = Design::new();
    design.strands.insert(0, linear_strand(1, 0, 10, true));
    design.strands.insert(1, linear_strand(2, 0, 10, false));
    general_cross_over(&mut design, nucl(1, 4, true), nucl(2, 4, false)).expect("crossover");
    let total: usize = design.strands.ids().iter().map(|id| strand_len(&design, *id)).sum();
    assert_eq!(total, 20);
}

#[test]
fn end_to_interior_crossover_conserves_nucleotides() {
    let mut design = Design::new();
    design.strands.insert(0, linear_strand(1, 0, 6, true));
    design.strands.insert(1, linear_strand(2, 0, 10, false));
    // source is strand 0's 3' end, target sits inside strand 1
    general_cross_over(&mut design, nucl(1, 5, true), nucl(2, 4, false)).expect("crossover");
    let total: usize = design.strands.ids().iter().map(|id| strand_len(&design, *id)).sum();
    assert_eq!(total, 16);
}

#[test]
fn junction_classification_follows_adjacency() {
    let a = HelixInterval { helix: 1, start: 0, end: 5, forward: true, sequence: None };
    let b = HelixInterval { helix: 1, start: 5, end: 9, forward: true, sequence: None };
    assert_eq!(junction(&a, &b), DomainJunction::Adjacent);
    let c = HelixInterval { helix: 1, start: 7, end: 9, forward: true, sequence: None };
    assert_eq!(junction(&a, &c), DomainJunction::UnidentifiedXover);
    let d = HelixInterval { helix: 2, start: 5, end: 9, forward: true, sequence: None };
    assert_eq!(junction(&a, &d), DomainJunction::UnidentifiedXover);
}

#[test]
fn sequences_split_at_the_cut() {
    let mut design = Design::new();
    let mut strand = linear_strand(1, 0, 6, true);
    strand.sequence = Some(String::from("ACGTAC"));
    design.strands.insert(0, strand);
    let new_id = split_strand(&mut design, &nucl(1, 2, true), None).expect("split");
    assert_eq!(design.strands.get(0).expect("strand").sequence.as_deref(), Some("ACG"));
    assert_eq!(design.strands.get(new_id).expect("strand").sequence.as_deref(), Some("TAC"));
}

#[test]
fn is_strand_end_tells_the_extremities() {
    let mut design = Design::new();
    design.strands.insert(0, linear_strand(1, 0, 6, true));
    assert_eq!(design.is_strand_end(&nucl(1, 0, true)), Extremity::Prime5);
    assert_eq!(design.is_strand_end(&nucl(1, 5, true)), Extremity::Prime3);
    assert_eq!(design.is_strand_end(&nucl(1, 3, true)), Extremity::Inside);
}

#[test]
fn rebuild_identifies_crossovers_and_adjacencies() {
    let mut strand = Strand {
        domains: vec![interval(1, 0, 6, true), interval(2, 0, 6, false), interval(2, 0, 6, true)],
        junctions: vec![
            DomainJunction::UnidentifiedXover,
            DomainJunction::UnidentifiedXover,
            DomainJunction::Prime3,
        ],
        cyclic: false,
        color: 0,
        sequence: None,
        name: None,
    };
    let mut ids = XoverIds::new();
    ensnano::xover_ids::update_strand_junctions(&mut strand, &mut ids);
    assert_eq!(strand.junctions[0], DomainJunction::IdentifiedXover(0));
    assert_eq!(strand.junctions[1], DomainJunction::IdentifiedXover(1));
    assert_eq!(strand.junctions[2], DomainJunction::Prime3);
    // the same pass over the same strand reuses the identifiers
    let mut again = XoverIds::new();
    ids.copy_next_id_to(&mut again);
    let mut strand2 = strand.clone_strand();
    ensnano::xover_ids::update_strand_junctions(&mut strand2, &mut again);
    assert_eq!(strand2.junctions[0], DomainJunction::IdentifiedXover(0));
    assert_eq!(strand2.junctions[1], DomainJunction::IdentifiedXover(1));
}

#[test]
fn cross_cut_keeps_the_leftover_under_the_target_id() {
    // the piece holding the nucleotide joins the source strand as the
    // 3' side of the joint
    let mut design = Design::new();
    design.strands.insert(0, linear_strand(1, 0, 6, true));
    design.strands.insert(1, linear_strand(2, 0, 10, true));
    cross_cut(&mut design, 0, 1, &nucl(2, 4, true), true).expect("cross cut");
    // the merged strand sits under the source id, the leftover keeps the
    // target id, and the fresh id was consumed by the merge
    assert_eq!(design.strands.len(), 2);
    assert_eq!(strand_len(&design, 0), 12);
    assert_eq!(strand_len(&design, 1), 4);
    assert!(design.strands.get(2).is_none());
}

#[test]
fn cross_cut_five_prime_side_keeps_the_leftover_under_the_target_id() {
    // the piece holding the nucleotide joins the source strand as the
    // 5' side of the joint
    let mut design = Design::new();
    design.strands.insert(0, linear_strand(1, 0, 6, true));
    design.strands.insert(1, linear_strand(2, 0, 10, true));
    cross_cut(&mut design, 0, 1, &nucl(2, 4, true), false).expect("cross cut");
    assert_eq!(design.strands.len(), 2);
    // merged strand: positions 0..=4 of helix 2 (5 nucleotides) then the
    // source strand (6 nucleotides), under the source's id
    assert_eq!(strand_len(&design, 0), 11);
    // leftover: positions 5..=9 of helix 2, under the target's id
    assert_eq!(strand_len(&design, 1), 5);
    assert!(design.strands.get(2).is_none());
    let merged = design.strands.get(0).expect("merged");
    assert_eq!(merged.get_5prime(), Some(nucl(2, 0, true)));
    let leftover = design.strands.get(1).expect("leftover");
    assert_eq!(leftover.get_5prime(), Some(nucl(2, 5, true)));
}

#[test]
fn rebuild_preserves_moved_crossover_ids() {
    // a strand over a crossover whose identifier is registered
    let mut strand = Strand {
        domains: vec![interval(1, 0, 8, true), interval(2, 0, 6, false)],
        junctions: vec![DomainJunction::IdentifiedXover(0), DomainJunction::Prime3],
        cyclic: false,
        color: 0,
        sequence: None,
        name: None,
    };
    let mut ids = XoverIds::new();
    // the registry knows id 0 for the crossover before the move
    ids.insert_at((nucl(1, 5, true), nucl(2, 5, false)), 0);
    // growing the first domain moved the crossover's 5' side to (1, 7);
    // the rebuild re-registers the moved pair under the kept identifier
    ensnano::xover_ids::update_strand_junctions(&mut strand, &mut ids);
    assert_eq!(strand.junctions[0], DomainJunction::IdentifiedXover(0));
    assert_eq!(ids.get_element(0), Some((nucl(1, 7, true), nucl(2, 5, false))));
    assert_eq!(ids.get_id(&(nucl(1, 5, true), nucl(2, 5, false))), None);
}

#[test]
fn xover_registry_is_a_bijection() {
    let mut ids = XoverIds::new();
    let p1 = (nucl(1, 5, true), nucl(2, 5, false));
    let p2 = (nucl(3, 0, true), nucl(4, 0, false));
    let a = ids.insert(p1);
    let b = ids.insert(p2);
    assert_eq!(a, 0);
    assert_eq!(b, 1);
    // re-inserting an existing pair keeps its identifier
    assert_eq!(ids.insert(p1), 0);
    assert_eq!(ids.get_id(&p2), Some(1));
    assert_eq!(ids.get_element(0), Some(p1));
    assert_eq!(ids.get_element(7), None);
    // binding a pair at a chosen identifier keeps the next id above it
    let mut fresh = XoverIds::new();
    fresh.insert_at(p2, 5);
    assert_eq!(fresh.get_element(5), Some(p2));
    assert!(fresh.insert(p1) > 5);
}

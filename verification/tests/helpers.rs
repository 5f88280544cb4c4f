use ensnano::fog::{FogChoice, DARK_FOG, NO_FOG, REVERSED_FOG, TRANSPARENT_FOG};
use ensnano::id_handler::{GetIdOfOneItemNamed, Id, IdHandler, ItemWithName, NamedItem};
use ensnano::mediator::GridHelixCreation;
use ensnano::misc::{apply_update, LoadDesignError, SaveDesignError};
use ensnano::nucl::{Extremity, Nucl};
use ensnano::staples::{ReadResult, ScaffoldPosition, StapleDomain};

#[test]
fn fog_choices_round_trip_through_flags() {
    let all = ensnano::fog::all_fog_choices();
    assert_eq!(all.len(), 6);
    for choice in all {
        let (visible, from_camera, dark, reversed) = choice.to_param();
        assert_eq!(FogChoice::from_param(visible, from_camera, dark, reversed), choice);
    }
}

#[test]
fn fog_kinds_match_the_choices() {
    assert_eq!(FogChoice::NoFog.fog_kind(), NO_FOG);
    assert_eq!(FogChoice::FromCamera.fog_kind(), TRANSPARENT_FOG);
    assert_eq!(FogChoice::FromPivot.fog_kind(), TRANSPARENT_FOG);
    assert_eq!(FogChoice::DarkFromCamera.fog_kind(), DARK_FOG);
    assert_eq!(FogChoice::DarkFromPivot.fog_kind(), DARK_FOG);
    assert_eq!(FogChoice::ReversedFromPivot.fog_kind(), REVERSED_FOG);
}

#[test]
fn fog_default_is_off() {
    assert_eq!(FogChoice::default(), FogChoice::NoFog);
    assert_eq!(FogChoice::NoFog.label(), "None");
    assert!(!FogChoice::NoFog.is_visible());
    assert!(FogChoice::ReversedFromPivot.is_reversed());
}

#[test]
fn get_name_reads_the_item_name() {
    let item = NamedItem(String::from("My Parameter Name"), 7u32);
    assert_eq!((&item).get_name(), "My Parameter Name");
}

fn sparse_collection() -> IdHandler<NamedItem<&'static str>> {
    // the identifiers 1, 2 and 101: allocate a dense run and drop the rest
    let mut items = Vec::new();
    for i in 0..102usize {
        items.push(NamedItem(format!("filler {i}"), "none"));
    }
    let dense = IdHandler::from_vec(items);
    let mut edit = dense.make_mut();
    for i in 0..102usize {
        if i != 1 && i != 2 && i != 101 {
            edit.remove(&Id(i));
        }
    }
    if let Some(item) = edit.get_mut(&Id(1)) {
        *item = NamedItem(String::from("Otto"), "cat");
    }
    if let Some(item) = edit.get_mut(&Id(2)) {
        *item = NamedItem(String::from("Duchesse"), "cat");
    }
    if let Some(item) = edit.get_mut(&Id(101)) {
        *item = NamedItem(String::from("Otto"), "dog");
    }
    let mut collection = IdHandler::from_vec(Vec::new());
    edit.commit(&mut collection);
    collection
}

#[test]
fn get_id_of_named_if_it_exists() {
    assert_eq!(
        sparse_collection().get_id_of_one_item_named(String::from("Otto")),
        Some(Id(1))
    );
}

#[test]
fn get_id_of_named_if_does_not_exist() {
    assert_eq!(
        sparse_collection().get_id_of_one_item_named(String::from("Chachat")),
        None
    );
}

#[test]
fn editing_view_allocates_past_the_maximum() {
    let collection = IdHandler::from_vec(vec!["a", "b"]);
    let mut edit = collection.make_mut();
    let id = edit.push("c");
    assert_eq!(id, Id(2));
    assert_eq!(edit.remove(&Id(0)), Some("a"));
    assert_eq!(edit.remove(&Id(0)), None);
    if let Some(item) = edit.get_mut(&Id(1)) {
        *item = "B";
    } else {
        panic!("expected an item under this identifier");
    }
    let mut target = IdHandler::from_vec(Vec::<&str>::new());
    edit.commit(&mut target);
    let copy = target.make_mut();
    let mut roundtrip = IdHandler::from_vec(Vec::<&str>::new());
    copy.commit(&mut roundtrip);
    assert!(!target.ptr_eq(&IdHandler::from_vec(Vec::<&str>::new())));
}

#[test]
fn shared_collections_compare_by_allocation() {
    let a = IdHandler::from_vec(vec![1u32, 2u32]);
    let b = a.clone();
    assert!(a.ptr_eq(&b));
    let c = IdHandler::from_vec(vec![1u32, 2u32]);
    assert!(!a.ptr_eq(&c));
}

#[test]
fn staple_reader_folds_scaffold_runs() {
    let reader = StapleDomain::init(Some(ScaffoldPosition { domain_id: 0, scaffold_position: 10 }));
    let reader = match reader.read_position(Some(ScaffoldPosition {
        domain_id: 0,
        scaffold_position: 11,
    })) {
        ReadResult::Continue(d) => d,
        ReadResult::Stop { .. } => panic!("the run must continue on its own domain"),
    };
    match reader.read_position(Some(ScaffoldPosition { domain_id: 1, scaffold_position: 40 })) {
        ReadResult::Stop { interval, new_reader } => {
            assert_eq!(interval, (10, 11));
            assert_eq!(new_reader.finish(), (40, 40));
        },
        ReadResult::Continue(_) => panic!("a new scaffold domain must close the run"),
    }
}

#[test]
fn staple_reader_counts_off_scaffold_runs() {
    let reader = StapleDomain::init(None);
    let reader = match reader.read_position(None) {
        ReadResult::Continue(d) => d,
        ReadResult::Stop { .. } => panic!("the run must continue off the scaffold"),
    };
    let reader = match reader.read_position(None) {
        ReadResult::Continue(d) => d,
        ReadResult::Stop { .. } => panic!("the run must continue off the scaffold"),
    };
    assert_eq!(reader.finish(), (-1, -2));
}

#[test]
fn grid_helix_operations_reverse_each_other() {
    let creation = GridHelixCreation { design_id: 0, grid_id: 3, x: 4, y: -2 };
    let deletion = creation.reverse();
    assert_eq!(deletion.x, 4);
    assert_eq!(deletion.y, -2);
    let back = deletion.reverse();
    assert_eq!(back, creation);
    assert_eq!(creation.target(), 0);
    let params = creation.parameters();
    assert_eq!(params.len(), 2);
    assert_eq!(params[0].name, "x");
}

#[test]
fn error_carriers_wrap_their_text() {
    let load = LoadDesignError::from(String::from("bad file"));
    assert_eq!(load.0, "bad file");
    let save = SaveDesignError::from(String::from("disk full"));
    assert_eq!(save.0, "disk full");
}

#[test]
fn apply_update_replaces_in_place() {
    let mut value: u32 = 20;
    apply_update(&mut value, |v: u32| v + 1);
    assert_eq!(value, 21);
}

#[test]
fn nucleotide_stepping_follows_direction() {
    let forward = Nucl { helix: 1, position: 4, forward: true };
    assert_eq!(forward.prime3().position, 5);
    assert_eq!(forward.prime5().position, 3);
    let backward = Nucl { helix: 1, position: 4, forward: false };
    assert_eq!(backward.prime3().position, 3);
    assert_eq!(backward.prime5().position, 5);
    assert_eq!(forward.compl(), Nucl { helix: 1, position: 4, forward: false });
    assert_eq!(forward.left().position, 3);
    assert_eq!(forward.right().position, 5);
}

#[test]
fn extremities_convert_to_options() {
    assert_eq!(Extremity::Prime3.to_opt(), Some(true));
    assert_eq!(Extremity::Prime5.to_opt(), Some(false));
    assert_eq!(Extremity::Inside.to_opt(), None);
    assert!(Extremity::Prime3.is_end());
    assert!(!Extremity::Inside.is_end());
}

#[test]
fn default_helix_count_is_sixty() {
    assert_eq!(ensnano::default_number_of_helices(), 60);
}

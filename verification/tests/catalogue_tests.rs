//! Catalogue lookup, resolution, and the editor's build step.

use vesselplay::catalogue::sim_to_rt;
use vesselplay::catalogue::Catalogue;
use vesselplay::client::setup_player;
use vesselplay::client::world_loaded;
use vesselplay::client::WorldState;
use vesselplay::editor::build_sim_vessel;
use vesselplay::editor::click_target;
use vesselplay::editor::object_display_translation;
use vesselplay::editor::EditorSession;
use vesselplay::editor::Pos;
use vesselplay::world::EntityRecord;
use vesselplay::world::World;

fn demo_catalogue() -> Catalogue {
    Catalogue::with_demo_elements(11, 21, 22)
}

#[test]
fn lookup_finds_exact_ids_only() {
    let catalogue = demo_catalogue();
    let block = catalogue.find_by_id(&"block".to_string()).unwrap();
    assert_eq!(block.graphics.mesh, 11);
    assert_eq!(block.graphics.material, 21);
    let green = catalogue.find_by_id(&"green_block".to_string()).unwrap();
    assert_eq!(green.graphics.material, 22);
    assert!(catalogue.find_by_id(&"blok".to_string()).is_none());
    assert!(catalogue.find_by_id(&"".to_string()).is_none());
}

#[test]
fn resolution_is_deterministic_and_exact() {
    let catalogue = demo_catalogue();
    let mut session = EditorSession::new();
    let block = catalogue.find_by_id(&"block".to_string()).unwrap().duplicate();
    let green = catalogue.find_by_id(&"green_block".to_string()).unwrap().duplicate();
    session.place(Pos { x: 0, y: 0, z: 0 }, block);
    session.place(Pos { x: 0, y: 1, z: 0 }, green);
    let definition = build_sim_vessel(&session.store_objects());

    let first = sim_to_rt(&definition, &catalogue).unwrap();
    let second = sim_to_rt(&definition, &catalogue).unwrap();

    // resolving and re-resolving yields identical shapes and transforms
    assert_eq!(first.graphics.len(), 2);
    assert_eq!(second.graphics.len(), 2);
    for (a, b) in first.graphics.iter().zip(second.graphics.iter()) {
        assert_eq!(a, b);
    }
    assert_eq!(first.vessel_info, second.vessel_info);

    // and the resolved parts carry the catalogue's handles at the placed
    // positions
    assert_eq!(first.graphics[0].mesh, 11);
    assert_eq!(first.graphics[0].material, 21);
    assert_eq!(first.graphics[1].material, 22);
    assert_eq!(first.graphics[1].placement.y, 1000);
}

#[test]
fn resolution_fails_with_the_missing_element_id() {
    let catalogue = demo_catalogue();
    let mut session = EditorSession::new();
    let mut bogus = catalogue.find_by_id(&"block".to_string()).unwrap().duplicate();
    bogus.id = "slope".to_string();
    session.place(Pos { x: 0, y: 0, z: 0 }, bogus);
    let definition = build_sim_vessel(&session.store_objects());
    match sim_to_rt(&definition, &catalogue) {
        Err(vesselplay::VesselError::UnknownElement(id)) => assert_eq!(id, "slope"),
        _ => panic!("expected an unknown element error"),
    }
}

#[test]
fn an_empty_creation_builds_an_empty_definition() {
    let session = EditorSession::new();
    let definition = build_sim_vessel(&session.store_objects());
    assert_eq!(definition.parts.len(), 0);
    assert_eq!(definition.collider.len(), 0);
}

#[test]
fn build_converts_grid_positions_to_fixed_point() {
    let catalogue = demo_catalogue();
    let block = catalogue.find_by_id(&"block".to_string()).unwrap().duplicate();
    let mut session = EditorSession::new();
    session.place(Pos { x: -2, y: 0, z: 3 }, block);
    let definition = build_sim_vessel(&session.store_objects());
    assert_eq!(definition.parts[0].placement.x, -2000);
    assert_eq!(definition.parts[0].placement.z, 3000);
    assert_eq!(definition.collider[0].shape.x_len, 1000);
    assert_eq!(definition.collider[0].placement.x, -2000);
}

#[test]
fn clicks_place_one_cell_beyond_the_face() {
    let clicked = Pos { x: 1, y: 0, z: 0 };
    let up = Pos { x: 0, y: 1, z: 0 };
    assert_eq!(click_target(clicked, up), Some(Pos { x: 1, y: 1, z: 0 }));
    // a click whose normal rounds to nothing places nothing
    assert_eq!(click_target(clicked, Pos { x: 0, y: 0, z: 0 }), None);
}

#[test]
fn objects_draw_centered_on_their_cell() {
    let t = object_display_translation(Pos { x: 1, y: 0, z: -1 });
    assert_eq!(t.x, 1500);
    assert_eq!(t.y, 500);
    assert_eq!(t.z, -500);
}

#[test]
fn replicated_players_get_a_default_pose_once() {
    let mut world = World::new();
    let mut rec = EntityRecord::blank();
    rec.multiplayer = true;
    world.spawn(rec);
    setup_player(&mut world);
    assert_eq!(world.entities[0].pose.unwrap().x, 0);

    // an entity that already stands somewhere is left alone
    world.entities[0].pose = Some(vesselplay::vessel::Translation { x: 7, y: 8, z: 9 });
    setup_player(&mut world);
    assert_eq!(world.entities[0].pose.unwrap().x, 7);
}

#[test]
fn world_is_loaded_in_foreground_and_background() {
    assert!(world_loaded(&WorldState::Foreground));
    assert!(world_loaded(&WorldState::Background));
    assert!(!world_loaded(&WorldState::Unloaded));
}

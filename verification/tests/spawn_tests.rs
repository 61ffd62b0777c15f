//! The spawn pipeline: idempotence, retry on missing definitions, fatal
//! unknown elements, and the imperative path.

use vesselplay::catalogue::Catalogue;
use vesselplay::editor::build_sim_vessel;
use vesselplay::editor::EditorSession;
use vesselplay::editor::Pos;
use vesselplay::spawn::spawn_resolved;
use vesselplay::spawn::spawn_vessels;
use vesselplay::table::VesselTable;
use vesselplay::vessel::RtVesselData;
use vesselplay::vessel::Translation;
use vesselplay::vessel::VesselGraphicPart;
use vesselplay::vessel::VesselId;
use vesselplay::vessel::VesselProperties;
use vesselplay::world::EntityRecord;
use vesselplay::world::World;

fn demo_catalogue() -> Catalogue {
    Catalogue::with_demo_elements(11, 21, 22)
}

fn two_block_vessel() -> vesselplay::vessel::SimVessel {
    let catalogue = demo_catalogue();
    let block = catalogue.find_by_id(&"block".to_string()).unwrap().duplicate();
    let mut session = EditorSession::new();
    session.place(Pos { x: 0, y: 0, z: 0 }, block.duplicate());
    session.place(Pos { x: 1, y: 0, z: 0 }, block);
    build_sim_vessel(&session.store_objects())
}

fn world_with_marked_entity(vid: VesselId) -> (World, u64) {
    let mut world = World::new();
    let mut rec = EntityRecord::blank();
    rec.vessel = Some(vid);
    let id = world.spawn(rec);
    (world, id)
}

#[test]
fn spawn_attaches_payload_and_children_once() {
    let catalogue = demo_catalogue();
    let vid = VesselId(1);
    let (mut world, entity) = world_with_marked_entity(vid);
    let mut table = VesselTable::new();
    table.insert(vid, two_block_vessel());

    spawn_vessels(&mut world, &table, &catalogue).unwrap();

    // the vessel entity is marked spawned and carries its payload
    let vessel_record = &world.entities[0];
    assert_eq!(vessel_record.id, entity);
    assert!(vessel_record.vessel_spawned);
    assert_eq!(
        vessel_record.properties.as_ref().unwrap().control_forwards_force,
        8000
    );
    let control = vessel_record.control.unwrap();
    assert_eq!(control.turn, 0);
    assert_eq!(control.forward, 0);
    let collider = vessel_record.collider.as_ref().unwrap();
    assert_eq!(collider.len(), 2);
    assert_eq!(collider[1].placement.x, 1000);

    // one child entity per visual part, in order
    assert_eq!(world.entities.len(), 3);
    assert_eq!(world.entities[1].parent, Some(entity));
    assert_eq!(world.entities[2].parent, Some(entity));
    let g1 = world.entities[1].graphic.unwrap();
    let g2 = world.entities[2].graphic.unwrap();
    assert_eq!(g1.mesh, 11);
    assert_eq!(g1.material, 21);
    assert_eq!(g1.placement.x, 0);
    assert_eq!(g2.placement.x, 1000);
}

#[test]
fn spawning_twice_attaches_nothing_twice() {
    let catalogue = demo_catalogue();
    let vid = VesselId(1);
    let (mut world, _) = world_with_marked_entity(vid);
    let mut table = VesselTable::new();
    table.insert(vid, two_block_vessel());

    spawn_vessels(&mut world, &table, &catalogue).unwrap();
    let after_first = world.entities.len();
    let next_after_first = world.next_id;

    // re-triggering the pass must not attach duplicate physics or visual
    // components: the spawned marker gates re-entry
    spawn_vessels(&mut world, &table, &catalogue).unwrap();
    assert_eq!(world.entities.len(), after_first);
    assert_eq!(world.next_id, next_after_first);
    assert_eq!(world.entities[0].collider.as_ref().unwrap().len(), 2);
}

#[test]
fn missing_definition_is_retried_not_fatal() {
    let catalogue = demo_catalogue();
    let vid = VesselId(1);
    let (mut world, _) = world_with_marked_entity(vid);
    let table = VesselTable::new();

    // the definition has not arrived yet: the entity stays unspawned
    spawn_vessels(&mut world, &table, &catalogue).unwrap();
    assert!(!world.entities[0].vessel_spawned);
    assert_eq!(world.entities.len(), 1);

    // once it arrives, a later pass picks the entity up
    let mut table = table;
    table.insert(vid, two_block_vessel());
    spawn_vessels(&mut world, &table, &catalogue).unwrap();
    assert!(world.entities[0].vessel_spawned);
    assert_eq!(world.entities.len(), 3);
}

#[test]
fn unknown_element_is_a_typed_fatal_error() {
    let catalogue = demo_catalogue();
    let vid = VesselId(1);
    let (mut world, _) = world_with_marked_entity(vid);
    let mut table = VesselTable::new();
    let mut definition = two_block_vessel();
    definition.parts[1].element_id = "missing_block".to_string();
    table.insert(vid, definition);

    match spawn_vessels(&mut world, &table, &catalogue) {
        Err(vesselplay::VesselError::UnknownElement(id)) => {
            assert_eq!(id, "missing_block");
        },
        _ => panic!("expected an unknown element error"),
    }
}

#[test]
fn imperative_spawn_reuses_the_placeholder_entity() {
    let mut world = World::new();
    let placeholder = world.spawn(EntityRecord::blank());
    let rt = RtVesselData {
        vessel_info: VesselProperties::default(),
        graphics: vec![VesselGraphicPart {
            mesh: 3,
            material: 4,
            placement: Translation { x: 500, y: 0, z: 0 },
        }],
    };
    let entity = spawn_resolved(&mut world, &rt, Some(placeholder));
    assert_eq!(entity, placeholder);
    assert!(world.entities[0].vessel_spawned);
    assert_eq!(world.entities.len(), 2);
    assert_eq!(world.entities[1].parent, Some(placeholder));
    assert_eq!(world.entities[1].graphic.unwrap().mesh, 3);

    // without a placeholder a fresh entity is spawned
    let fresh = spawn_resolved(&mut world, &rt, None);
    assert_ne!(fresh, placeholder);
    assert!(world.entities.iter().any(|e| e.id == fresh && e.vessel_spawned));
}

//! End-to-end protocol scenarios: announce intake, catch-up for a late
//! joiner, and disconnect cleanup.

use vesselplay::catalogue::Catalogue;
use vesselplay::client::receive_server_vessels;
use vesselplay::client::send_user_vessel;
use vesselplay::client::spawn_user;
use vesselplay::editor::build_sim_vessel;
use vesselplay::editor::EditorSession;
use vesselplay::editor::Pos;
use vesselplay::server::receives;
use vesselplay::server::AnnounceVessel;
use vesselplay::server::SendMode;
use vesselplay::server::ServerState;
use vesselplay::spawn::spawn_vessels;
use vesselplay::table::VesselTable;
use vesselplay::vessel::VesselId;
use vesselplay::world::World;

fn demo_catalogue() -> Catalogue {
    Catalogue::with_demo_elements(11, 21, 22)
}

/// Builds the two-block demo vessel of the announce scenario.
fn two_block_vessel() -> vesselplay::vessel::SimVessel {
    let catalogue = demo_catalogue();
    let block = catalogue.find_by_id(&"block".to_string()).unwrap().duplicate();
    let mut session = EditorSession::new();
    session.place(Pos { x: 0, y: 0, z: 0 }, block.duplicate());
    session.place(Pos { x: 1, y: 0, z: 0 }, block);
    let creation = session.store_objects();
    build_sim_vessel(&creation)
}

#[test]
fn announce_spawns_one_replicated_entity_and_broadcasts() {
    let definition = two_block_vessel();
    // the default physics coefficients are the scenario's values, in
    // thousandths
    assert_eq!(definition.physics_properties.control_forwards_force, 8000);
    assert_eq!(definition.physics_properties.control_torque, 6000);
    assert_eq!(definition.physics_properties.side_friction, 2200);
    assert_eq!(definition.physics_properties.rotary_friction_hor, 3000);
    assert_eq!(definition.physics_properties.rotary_friction_ver, 6000);

    let mut server = ServerState::new();
    let entities_before = server.world.entities.len();
    let vid = VesselId(77);
    let (outbound, mapping) = server.handle_announce(
        1,
        AnnounceVessel { vessel_id: vid, definition: definition.duplicate(), client_entity: 400 },
    );

    // exactly one new entity, replicated, carrying the vessel id
    assert_eq!(server.world.entities.len(), entities_before + 1);
    let spawned = server.world.entities.last().unwrap();
    assert!(spawned.replicated);
    assert!(spawned.multiplayer);
    assert_eq!(spawned.vessel, Some(vid));

    // the broadcast goes to every client but the announcer, with the
    // identical definition
    assert!(matches!(outbound.mode, SendMode::BroadcastExcept(1)));
    assert!(!receives(&outbound.mode, 1));
    assert!(receives(&outbound.mode, 2));
    assert_eq!(outbound.message.vessel_id.0, 77);
    assert_eq!(outbound.message.definition.parts.len(), 2);
    assert_eq!(outbound.message.definition.parts[0].element_id, "block");
    assert_eq!(outbound.message.definition.parts[1].element_id, "block");
    assert_eq!(outbound.message.definition.parts[0].placement.x, 0);
    assert_eq!(outbound.message.definition.parts[1].placement.x, 1000);
    assert_eq!(
        outbound.message.definition.physics_properties,
        definition.physics_properties
    );

    // the placeholder remap pairs the new server entity with the client's
    assert_eq!(mapping.client_id, 1);
    assert_eq!(mapping.client_entity, 400);
    assert_eq!(mapping.server_entity, spawned.id);

    // the ownership map records the announcer
    assert_eq!(server.owned.get(1), Some(spawned.id));
}

#[test]
fn catch_up_delivers_one_message_per_active_vessel() {
    let definition = two_block_vessel();
    let mut server = ServerState::new();
    let vid_a = VesselId(101);
    let vid_b = VesselId(102);
    server.handle_announce(
        1,
        AnnounceVessel { vessel_id: vid_a, definition: definition.duplicate(), client_entity: 1 },
    );
    server.handle_announce(
        2,
        AnnounceVessel { vessel_id: vid_b, definition: definition.duplicate(), client_entity: 1 },
    );

    // a third client connects after two vessels are active: exactly two
    // unicast shares, one per vessel, correctly paired
    let shares = server.handle_connect(3);
    assert_eq!(shares.len(), 2);
    for share in &shares {
        assert!(matches!(share.mode, SendMode::Direct(3)));
        assert!(receives(&share.mode, 3));
        assert!(!receives(&share.mode, 1));
    }
    assert_eq!(shares[0].message.vessel_id.0, 101);
    assert_eq!(shares[1].message.vessel_id.0, 102);
    assert_eq!(shares[0].message.definition.parts.len(), 2);
    assert_eq!(shares[1].message.definition.parts.len(), 2);
}

#[test]
fn catch_up_skips_a_vessel_whose_definition_is_missing() {
    let definition = two_block_vessel();
    let mut server = ServerState::new();
    server.handle_announce(
        1,
        AnnounceVessel {
            vessel_id: VesselId(7),
            definition: definition.duplicate(),
            client_entity: 1,
        },
    );
    // an entity that references a definition the table does not hold: spawn
    // it by hand
    let mut rec = vesselplay::world::EntityRecord::blank();
    rec.vessel = Some(VesselId(8));
    rec.multiplayer = true;
    rec.replicated = true;
    server.world.spawn(rec);

    let shares = server.handle_connect(9);
    assert_eq!(shares.len(), 1);
    assert_eq!(shares[0].message.vessel_id.0, 7);
}

#[test]
fn disconnect_removes_entity_with_children_and_is_then_a_no_op() {
    let definition = two_block_vessel();
    let catalogue = demo_catalogue();
    let mut server = ServerState::new();
    let vid = VesselId(5);
    server.handle_announce(
        1,
        AnnounceVessel { vessel_id: vid, definition, client_entity: 10 },
    );
    let owned_entity = server.owned.get(1).unwrap();

    // materialize the vessel so the entity has visual part children
    spawn_vessels(&mut server.world, &server.vessels, &catalogue).unwrap();
    assert_eq!(server.world.entities.len(), 3);
    assert!(server
        .world
        .entities
        .iter()
        .any(|e| e.parent == Some(owned_entity)));

    // the disconnect removes the ownership entry, the entity, and all its
    // children
    let removed = server.handle_disconnect(1);
    assert_eq!(removed, Some(owned_entity));
    assert_eq!(server.owned.get(1), None);
    assert_eq!(server.world.entities.len(), 0);

    // a second disconnect for the same client is a no-op, not an error
    let removed_again = server.handle_disconnect(1);
    assert_eq!(removed_again, None);
    assert_eq!(server.world.entities.len(), 0);
}

#[test]
fn disconnect_never_touches_another_clients_entity() {
    let definition = two_block_vessel();
    let mut server = ServerState::new();
    server.handle_announce(
        1,
        AnnounceVessel { vessel_id: VesselId(1), definition: definition.duplicate(), client_entity: 1 },
    );
    server.handle_announce(
        2,
        AnnounceVessel { vessel_id: VesselId(2), definition, client_entity: 1 },
    );
    let entity_one = server.owned.get(1).unwrap();
    let entity_two = server.owned.get(2).unwrap();
    // the ownership map is injective
    assert_ne!(entity_one, entity_two);

    server.handle_disconnect(1);
    assert_eq!(server.owned.get(1), None);
    assert_eq!(server.owned.get(2), Some(entity_two));
    assert!(server.world.entities.iter().any(|e| e.id == entity_two));
    assert!(!server.world.entities.iter().any(|e| e.id == entity_one));
}

#[test]
fn announce_round_trip_from_client_build() {
    // the client builds, spawns its user entity, and announces; the message
    // carries the entity and the stored definition
    let definition = two_block_vessel();
    let mut world = World::new();
    let mut table = VesselTable::new();
    let vid = VesselId(33);
    table.insert(vid, definition);
    let user = spawn_user(&mut world, vid);
    let msg = send_user_vessel(&world, &table).unwrap();
    assert_eq!(msg.vessel_id.0, 33);
    assert_eq!(msg.client_entity, user);
    assert_eq!(msg.definition.parts.len(), 2);
}

#[test]
fn send_user_vessel_reports_missing_local_entity_and_missing_definition() {
    let world = World::new();
    let table = VesselTable::new();
    assert!(matches!(
        send_user_vessel(&world, &table),
        Err(vesselplay::VesselError::NoLocalVessel)
    ));

    let mut world = World::new();
    spawn_user(&mut world, VesselId(9));
    match send_user_vessel(&world, &table) {
        Err(vesselplay::VesselError::UnknownVessel(v)) => assert_eq!(v.0, 9),
        _ => panic!("expected a missing definition"),
    }
}

#[test]
fn receive_server_vessels_is_idempotent_for_a_definition() {
    let definition = two_block_vessel();
    let mut table = VesselTable::new();
    let vid = VesselId(4);
    let batch = vec![
        vesselplay::server::BroadcastVessel { vessel_id: vid, definition: definition.duplicate() },
        vesselplay::server::BroadcastVessel { vessel_id: vid, definition },
    ];
    receive_server_vessels(&mut table, batch);
    assert!(table.contains(vid));
    assert_eq!(table.get(vid).unwrap().parts.len(), 2);
    assert_eq!(table.entries.len(), 1);
}

#[test]
fn server_just_started_fires_on_the_rising_edge_only() {
    let (fired, last) = vesselplay::server::server_just_started(false, true);
    assert!(fired);
    let (fired_again, _) = vesselplay::server::server_just_started(last, true);
    assert!(!fired_again);
    let (fired_down, _) = vesselplay::server::server_just_started(true, false);
    assert!(!fired_down);
}

#[test]
fn an_empty_vessel_is_legal_and_spawns_a_shapeless_body() {
    // an empty parts list is legal: it materializes with no children and an
    // empty compound shape
    let session = EditorSession::new();
    let definition = build_sim_vessel(&session.store_objects());
    assert_eq!(definition.parts.len(), 0);

    let catalogue = demo_catalogue();
    let mut server = ServerState::new();
    server.handle_announce(
        1,
        AnnounceVessel { vessel_id: VesselId(2), definition, client_entity: 1 },
    );
    spawn_vessels(&mut server.world, &server.vessels, &catalogue).unwrap();
    assert_eq!(server.world.entities.len(), 1);
    assert!(server.world.entities[0].vessel_spawned);
    assert_eq!(server.world.entities[0].collider.as_ref().unwrap().len(), 0);
}

#[test]
fn re_announcing_the_same_vessel_id_is_a_harmless_reinsert() {
    let definition = two_block_vessel();
    let mut server = ServerState::new();
    let vid = VesselId(3);
    server.handle_announce(
        1,
        AnnounceVessel { vessel_id: vid, definition: definition.duplicate(), client_entity: 1 },
    );
    let first_entity = server.owned.get(1).unwrap();
    server.handle_announce(
        1,
        AnnounceVessel { vessel_id: vid, definition, client_entity: 1 },
    );
    // the definition sits in the table once; ownership follows the newest
    // announce
    assert_eq!(server.vessels.entries.len(), 1);
    let second_entity = server.owned.get(1).unwrap();
    assert_ne!(first_entity, second_entity);
}

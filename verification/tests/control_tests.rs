//! The control channel: digital input mapping, change gating, and the remote
//! driver on the server.

use vesselplay::control::apply_client_movement;
use vesselplay::control::control_from_buttons;
use vesselplay::control::drive_local;
use vesselplay::control::read_user_input;
use vesselplay::control::ApplyOutcome;
use vesselplay::ownership::ClientOwnedEntities;
use vesselplay::server::ServerState;
use vesselplay::table::VesselTable;
use vesselplay::vessel::Control;
use vesselplay::world::EntityRecord;
use vesselplay::world::World;

#[test]
fn buttons_map_to_unit_axes_and_opposing_presses_cancel() {
    let forward = control_from_buttons(true, false, false, false);
    assert_eq!(forward.forward, 1000);
    assert_eq!(forward.turn, 0);

    let back_left = control_from_buttons(false, true, false, true);
    assert_eq!(back_left.forward, -1000);
    assert_eq!(back_left.turn, -1000);

    let cancelled = control_from_buttons(true, true, true, true);
    assert_eq!(cancelled.forward, 0);
    assert_eq!(cancelled.turn, 0);
}

#[test]
fn constant_input_writes_at_most_once() {
    let mut current = Control::zero();
    let input = Control { turn: 0, forward: 1000 };
    let mut writes = 0;
    for _ in 0..5 {
        if let Some(written) = drive_local(&current, input) {
            current = written;
            writes += 1;
        }
    }
    assert_eq!(writes, 1);
    assert_eq!(current, input);
}

#[test]
fn local_driver_updates_only_the_locally_controlled_entity() {
    let mut world = World::new();
    let mut local = EntityRecord::blank();
    local.locally_controlled = true;
    local.control = Some(Control::zero());
    world.spawn(local);
    let mut remote = EntityRecord::blank();
    remote.control = Some(Control::zero());
    world.spawn(remote);

    let sent = read_user_input(&mut world, true, false, false, false);
    assert_eq!(sent, Some(Control { turn: 0, forward: 1000 }));
    assert_eq!(world.entities[0].control.unwrap().forward, 1000);
    assert_eq!(world.entities[1].control.unwrap().forward, 0);

    // held input: nothing is written, nothing is sent
    let resent = read_user_input(&mut world, true, false, false, false);
    assert_eq!(resent, None);
}

#[test]
fn remote_driver_overwrites_the_owned_entity() {
    let mut state = ServerState {
        vessels: VesselTable::new(),
        owned: ClientOwnedEntities::new(),
        world: World::new(),
    };
    let mut rec = EntityRecord::blank();
    rec.control = Some(Control::zero());
    let entity = state.world.spawn(rec);
    state.owned.insert(6, entity);

    let outcome = apply_client_movement(&mut state, 6, Control { turn: -1000, forward: 1000 });
    assert_eq!(outcome, ApplyOutcome::Applied);
    let control = state.world.entities[0].control.unwrap();
    assert_eq!(control.turn, -1000);
    assert_eq!(control.forward, 1000);
}

#[test]
fn racing_control_messages_are_dropped_not_fatal() {
    let mut state = ServerState {
        vessels: VesselTable::new(),
        owned: ClientOwnedEntities::new(),
        world: World::new(),
    };
    // a message from a client that never registered
    let outcome = apply_client_movement(&mut state, 1, Control::zero());
    assert_eq!(outcome, ApplyOutcome::UnknownClient);

    // a message whose target entity raced with a despawn
    state.owned.insert(2, 999);
    let outcome = apply_client_movement(&mut state, 2, Control::zero());
    assert_eq!(outcome, ApplyOutcome::MissingEntity);
}

//! The control channel: per entity, a 2D steering/throttle vector with
//! exactly one driver per tick.  The local driver turns digital key state
//! into a clamped vector and writes it only on change — downstream
//! replication is send-on-change, not send-every-tick.  The remote driver on
//! the server overwrites the owned entity's control from the client's
//! message.

use vstd::prelude::*;

use crate::MILLI;
use crate::server::ServerState;
use crate::vessel::Control;
use crate::world::EntityView;
use crate::world::World;

verus! {

/// The axis value a pair of opposing digital inputs yields: a full unit
/// towards whichever side is pressed, and zero when both or neither are —
/// opposing presses cancel.
pub open spec fn spec_axis(positive: bool, negative: bool) -> i64 {
    if positive && !negative {
        MILLI
    } else if negative && !positive {
        (-MILLI) as i64
    } else {
        0
    }
}

/// Turns raw digital input into a control vector: `forward`/`back` drive the
/// throttle axis, `right`/`left` the turn axis.  A digital press maps to a
/// unit contribution, not velocity-scaled.
pub fn control_from_buttons(forward: bool, back: bool, right: bool, left: bool) -> (c: Control)
    ensures
        c.forward == spec_axis(forward, back),
        c.turn == spec_axis(right, left),
        c.wf(),
{
    let fwd: i64 = if forward && !back {
        MILLI
    } else if back && !forward {
        0 - MILLI
    } else {
        0
    };
    let trn: i64 = if right && !left {
        MILLI
    } else if left && !right {
        0 - MILLI
    } else {
        0
    };
    Control { turn: trn, forward: fwd }
}

/// What the local driver writes this tick: the new vector exactly when it
/// differs from the last applied one.
pub open spec fn spec_drive(current: Control, input: Control) -> Option<Control> {
    if input == current {
        None
    } else {
        Some(input)
    }
}

/// The change gate of the local driver, on one control slot.
pub fn drive_local(current: &Control, input: Control) -> (r: Option<Control>)
    ensures
        r == spec_drive(*current, input),
{
    if input == *current {
        None
    } else {
        Some(input)
    }
}

/// Change gating: with input held constant across any number of ticks, the
/// local driver emits a write at most once — on the transition — and never
/// again, since the written vector then equals the held input.
pub proof fn lemma_control_change_gate(current: Control, input: Control)
    ensures
        spec_drive(current, input) matches Some(c) ==> c == input && spec_drive(c, input) is None,
        spec_drive(current, input) is None ==> current == input && spec_drive(
            current,
            input,
        ) is None,
{
}

/// The entity with its control slot overwritten.
pub open spec fn with_control(e: EntityView, c: Control) -> EntityView {
    EntityView {
        id: e.id,
        parent: e.parent,
        vessel: e.vessel,
        vessel_spawned: e.vessel_spawned,
        replicated: e.replicated,
        multiplayer: e.multiplayer,
        locally_controlled: e.locally_controlled,
        control: Some(c),
        properties: e.properties,
        collider: e.collider,
        graphic: e.graphic,
        pose: e.pose,
    }
}

/// Whether the local driver writes to this entity under this input: it must
/// be the locally controlled one, hold a control slot, and the input must
/// differ from what the slot holds.
pub open spec fn locally_driven(e: EntityView, input: Control) -> bool {
    e.locally_controlled && e.control is Some && e.control->0 != input
}

/// The local driver: computes the input vector from digital key state and
/// writes it to every locally controlled entity whose control differs —
/// unchanged input writes nothing.  Returns the vector to send to the server
/// when a write happened, and `None` when the input was unchanged, so the
/// caller sends on change only.
pub fn read_user_input(world: &mut World, forward: bool, back: bool, right: bool, left: bool) -> (r:
    Option<Control>)
    requires
        old(world)@.wf(),
    ensures
        final(world)@.wf(),
        final(world)@.next_id == old(world)@.next_id,
        final(world)@.entities.len() == old(world)@.entities.len(),
        ({
            let input = Control {
                turn: spec_axis(right, left),
                forward: spec_axis(forward, back),
            };
            &&& forall|j: int| 0 <= j < old(world)@.entities.len()
                ==> final(world)@.entities[j] == (if locally_driven(
                #[trigger] old(world)@.entities[j],
                input,
            ) {
                with_control(old(world)@.entities[j], input)
            } else {
                old(world)@.entities[j]
            })
            &&& r == (if exists|j: int|
                0 <= j < old(world)@.entities.len() && locally_driven(
                    #[trigger] old(world)@.entities[j],
                    input,
                ) {
                Some(input)
            } else {
                None::<Control>
            })
        }),
{
    let input = control_from_buttons(forward, back, right, left);
    let mut wrote = false;
    let ghost w0 = world@;
    let n = world.entities.len();
    let mut i: usize = 0;
    while i < n
        invariant
            n == w0.entities.len(),
            w0 == old(world)@,
            w0.wf(),
            0 <= i <= n,
            input == (Control { turn: spec_axis(right, left), forward: spec_axis(forward, back) }),
            world@.next_id == w0.next_id,
            world@.entities.len() == n,
            forall|j: int| i <= j < n ==> world@.entities[j] == w0.entities[j],
            forall|j: int| 0 <= j < i ==> world@.entities[j] == (if locally_driven(
                #[trigger] w0.entities[j],
                input,
            ) {
                with_control(w0.entities[j], input)
            } else {
                w0.entities[j]
            }),
            wrote == exists|j: int|
                0 <= j < i && locally_driven(#[trigger] w0.entities[j], input),
            world@.wf(),
        decreases n - i,
    {
        let ghost wpre = world@;
        proof {
            assert(world@.entities[i as int] == world.entities@[i as int]@);
        }
        if world.entities[i].locally_controlled {
            let slot = world.entities[i].control;
            match slot {
                Some(current) => {
                    match drive_local(&current, input) {
                        Some(new_control) => {
                            world.entities[i].control = Some(new_control);
                            wrote = true;
                            proof {
                                assert(locally_driven(w0.entities[i as int], input));
                                assert forall|j: int| 0 <= j < n implies world@.entities[j] == (if j
                                    == i as int {
                                    with_control(w0.entities[j], input)
                                } else {
                                    wpre.entities[j]
                                }) by {
                                    assert(world@.entities[j] == world.entities@[j]@);
                                }
                            }
                        },
                        None => {
                            proof {
                                assert(!locally_driven(w0.entities[i as int], input));
                            }
                        },
                    }
                },
                None => {
                    proof {
                        assert(!locally_driven(w0.entities[i as int], input));
                    }
                },
            }
        } else {
            proof {
                assert(!locally_driven(w0.entities[i as int], input));
            }
        }
        i = i + 1;
    }
    if wrote {
        Some(input)
    } else {
        None
    }
}

/// The outcome of applying one remote control message on the server.
#[derive(Clone, Copy, Debug, PartialEq, Eq, Structural)]
pub enum ApplyOutcome {
    /// The sender's entity was found and its control overwritten.
    Applied,
    /// The sender has no registered entity: the message raced with its
    /// registration or disconnect and is dropped.
    UnknownClient,
    /// The registered entity is gone: the message raced with a despawn and
    /// is dropped.
    MissingEntity,
}

/// The remote driver on the server: looks the sending client's entity up in
/// the ownership map and overwrites its control with the received vector.
/// A message from a client with no registered entity, or one whose entity
/// raced with a despawn, is dropped rather than treated as fatal.
pub fn apply_client_movement(state: &mut ServerState, client_id: u64, control: Control) -> (r:
    ApplyOutcome)
    requires
        old(state).owned.wf(),
        old(state).world@.wf(),
    ensures
        final(state).owned == old(state).owned,
        final(state).vessels == old(state).vessels,
        final(state).world@.wf(),
        final(state).world@.next_id == old(state).world@.next_id,
        match r {
            ApplyOutcome::UnknownClient => !old(state).owned@.contains_key(client_id)
                && final(state).world == old(state).world,
            ApplyOutcome::MissingEntity => old(state).owned@.contains_key(client_id)
                && !old(state).world@.has_entity(old(state).owned@[client_id])
                && final(state).world == old(state).world,
            ApplyOutcome::Applied => {
                let target = old(state).owned@[client_id];
                let i = old(state).world@.index_of_id(target);
                &&& old(state).owned@.contains_key(client_id)
                &&& old(state).world@.has_entity(target)
                &&& 0 <= i < old(state).world@.entities.len()
                &&& final(state).world@.entities =~= old(state).world@.entities.update(
                    i,
                    with_control(old(state).world@.entities[i], control),
                )
            },
        },
{
    let target = match state.owned.get(client_id) {
        None => {
            return ApplyOutcome::UnknownClient;
        },
        Some(t) => t,
    };
    let idx = match state.world.index_of(target) {
        None => {
            return ApplyOutcome::MissingEntity;
        },
        Some(i) => i,
    };
    let ghost w0 = state.world@;
    state.world.entities[idx].control = Some(control);
    proof {
        let i = w0.index_of_id(target);
        assert(w0.entities[idx as int].id == target);
        assert(w0.has_entity(target));
        assert(w0.entities[i].id == target);
        if i != idx as int {
            if i < idx as int {
                assert(w0.entities[i].id < w0.entities[idx as int].id);
            } else {
                assert(w0.entities[idx as int].id < w0.entities[i].id);
            }
            assert(false);
        }
        assert forall|j: int| 0 <= j < state.world@.entities.len() implies state.world@.entities[j]
            == (if j == idx as int {
            with_control(w0.entities[j], control)
        } else {
            w0.entities[j]
        }) by {
            assert(state.world@.entities[j] == state.world.entities@[j]@);
        }
        assert(state.world@.entities =~= w0.entities.update(
            idx as int,
            with_control(w0.entities[idx as int], control),
        ));
        assert(state.world@.wf());
    }
    ApplyOutcome::Applied
}

} // verus!

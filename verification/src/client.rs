//! The client side of the protocol: spawning the locally controlled entity,
//! announcing the locally built vessel to the server, taking broadcast
//! definitions into the local asset table, and giving freshly replicated
//! player entities a default pose.

use vstd::prelude::*;

use crate::VesselError;
use crate::server::AnnounceVessel;
use crate::server::BroadcastVessel;
use crate::server::BroadcastVesselView;
use crate::table::VesselTable;
use crate::vessel::SimVesselView;
use crate::vessel::Translation;
use crate::vessel::VesselId;
use crate::world::EntityRecord;
use crate::world::EntityView;
use crate::world::World;

verus! {

/// Where world data stands in this process.
#[derive(Clone, Copy, Debug, PartialEq, Eq, Hash, Structural)]
pub enum WorldState {
    /// Loaded and actively being played.
    Foreground,
    /// Loaded and kept up to date in the background.
    Background,
    /// Not loaded; no world entities present.
    Unloaded,
}

/// Whether world data is present at all: it is in the foreground or the
/// background.
pub fn world_loaded(state: &WorldState) -> (r: bool)
    ensures
        r == (*state == WorldState::Foreground || *state == WorldState::Background),
{
    match state {
        WorldState::Foreground => true,
        WorldState::Background => true,
        WorldState::Unloaded => false,
    }
}

/// The locally controlled entity as first spawned: it carries the user's
/// vessel id, so the spawn pipeline materializes it.
pub open spec fn user_entity(vessel_id: VesselId, id: u64) -> EntityView {
    EntityView {
        id,
        parent: None,
        vessel: Some(vessel_id),
        vessel_spawned: false,
        replicated: false,
        multiplayer: false,
        locally_controlled: true,
        control: None,
        properties: None,
        collider: None,
        graphic: None,
        pose: None,
    }
}

/// Spawns the local user's entity: locally controlled, carrying the user's
/// vessel id for the spawn pipeline to pick up.
pub fn spawn_user(world: &mut World, vessel_id: VesselId) -> (id: u64)
    requires
        old(world)@.wf(),
        old(world)@.next_id < u64::MAX,
    ensures
        final(world)@.wf(),
        id == old(world)@.next_id,
        final(world)@.next_id == old(world)@.next_id + 1,
        final(world)@.entities =~= old(world)@.entities.push(user_entity(vessel_id, id)),
{
    let mut rec = EntityRecord::blank();
    rec.locally_controlled = true;
    rec.vessel = Some(vessel_id);
    let id = world.spawn(rec);
    proof {
        assert(rec@.with_id(id) == user_entity(vessel_id, id));
    }
    id
}

/// The first locally controlled entity that carries a vessel id, with that
/// id — what the announcement is about.
pub open spec fn first_local_vessel(s: Seq<EntityView>, i: int) -> Option<(u64, VesselId)>
    decreases s.len() - i,
{
    if i < 0 || i >= s.len() {
        None
    } else if s[i].locally_controlled && s[i].vessel is Some {
        Some((s[i].id, s[i].vessel->0))
    } else {
        first_local_vessel(s, i + 1)
    }
}

/// Builds the announcement of the locally built vessel: finds the locally
/// controlled entity carrying a vessel id, fetches that definition from the
/// local table, and pairs them with the entity as the client-side
/// placeholder.  Fails when there is no such entity, or when the definition
/// is not in the table — exactly then.
pub fn send_user_vessel(world: &World, vessels: &VesselTable) -> (r: Result<
    AnnounceVessel,
    VesselError,
>)
    requires
        vessels.wf(),
    ensures
        match r {
            Ok(msg) => {
                &&& first_local_vessel(world@.entities, 0) == Some(
                    (msg@.client_entity, msg@.vessel_id),
                )
                &&& vessels@.contains_key(msg@.vessel_id)
                &&& msg@.definition == vessels@[msg@.vessel_id]
            },
            Err(e) => match e {
                VesselError::NoLocalVessel => first_local_vessel(world@.entities, 0) is None,
                VesselError::UnknownVessel(vid) => {
                    &&& first_local_vessel(world@.entities, 0) matches Some(fl) && fl.1 == vid
                    &&& !vessels@.contains_key(vid)
                },
                _ => false,
            },
        },
{
    let n = world.entities.len();
    let mut i: usize = 0;
    while i < n
        invariant
            n == world@.entities.len(),
            vessels.wf(),
            0 <= i <= n,
            first_local_vessel(world@.entities, 0) == first_local_vessel(
                world@.entities,
                i as int,
            ),
        decreases n - i,
    {
        proof {
            assert(world@.entities[i as int] == world.entities@[i as int]@);
        }
        if world.entities[i].locally_controlled && world.entities[i].vessel.is_some() {
            let vid = world.entities[i].vessel.unwrap();
            let entity = world.entities[i].id;
            match vessels.get(vid) {
                Some(def) => {
                    return Ok(
                        AnnounceVessel {
                            vessel_id: vid,
                            definition: def.duplicate(),
                            client_entity: entity,
                        },
                    );
                },
                None => {
                    return Err(VesselError::UnknownVessel(vid));
                },
            }
        }
        i = i + 1;
    }
    Err(VesselError::NoLocalVessel)
}

/// The table after a batch of broadcast definitions is taken in, in order.
pub open spec fn applied_broadcasts(
    table: Map<VesselId, SimVesselView>,
    events: Seq<BroadcastVesselView>,
) -> Map<VesselId, SimVesselView>
    decreases events.len(),
{
    if events.len() == 0 {
        table
    } else {
        applied_broadcasts(table, events.drop_last()).insert(
            events.last().vessel_id,
            events.last().definition,
        )
    }
}

/// Takes broadcast vessel definitions into the local asset table.
/// Definitions are immutable, so re-receiving one under its id is harmless;
/// insertion is last-write-wins.
pub fn receive_server_vessels(vessels: &mut VesselTable, events: Vec<BroadcastVessel>)
    requires
        old(vessels).wf(),
    ensures
        final(vessels).wf(),
        final(vessels)@ == applied_broadcasts(old(vessels)@, events.deep_view()),
{
    let ghost evs = events.deep_view();
    let mut events = events;
    let mut i: usize = 0;
    let n = events.len();
    while i < n
        invariant
            n == evs.len(),
            events.deep_view() =~= evs,
            events@.len() == n,
            0 <= i <= n,
            vessels.wf(),
            vessels@ == applied_broadcasts(old(vessels)@, evs.take(i as int)),
        decreases n - i,
    {
        proof {
            assert(evs[i as int] == events@[i as int]@);
            assert(evs.take(i + 1).drop_last() =~= evs.take(i as int));
            assert(evs.take(i + 1).last() == evs[i as int]);
        }
        let ev = events[i].duplicate();
        vessels.insert(ev.vessel_id, ev.definition);
        i = i + 1;
    }
    proof {
        assert(evs.take(n as int) =~= evs);
    }
}

/// A replicated player entity that arrived without a pose yet gets a default
/// one, so it is visible and simulatable where it stands.
pub fn setup_player(world: &mut World)
    requires
        old(world)@.wf(),
    ensures
        final(world)@.wf(),
        final(world)@.next_id == old(world)@.next_id,
        final(world)@.entities.len() == old(world)@.entities.len(),
        forall|j: int| 0 <= j < old(world)@.entities.len() ==> final(world)@.entities[j] == (if (
        #[trigger] old(world)@.entities[j]).multiplayer && old(world)@.entities[j].pose is None {
            with_default_pose(old(world)@.entities[j])
        } else {
            old(world)@.entities[j]
        }),
{
    let ghost w0 = world@;
    let n = world.entities.len();
    let mut i: usize = 0;
    while i < n
        invariant
            n == w0.entities.len(),
            w0 == old(world)@,
            w0.wf(),
            0 <= i <= n,
            world@.next_id == w0.next_id,
            world@.entities.len() == n,
            world@.wf(),
            forall|j: int| i <= j < n ==> world@.entities[j] == w0.entities[j],
            forall|j: int| 0 <= j < i ==> world@.entities[j] == (if (
            #[trigger] w0.entities[j]).multiplayer && w0.entities[j].pose is None {
                with_default_pose(w0.entities[j])
            } else {
                w0.entities[j]
            }),
        decreases n - i,
    {
        let ghost wpre = world@;
        proof {
            assert(world@.entities[i as int] == world.entities@[i as int]@);
        }
        if world.entities[i].multiplayer && world.entities[i].pose.is_none() {
            world.entities[i].pose = Some(Translation::zero());
            proof {
                assert forall|j: int| 0 <= j < n implies world@.entities[j] == (if j == i as int {
                    with_default_pose(w0.entities[j])
                } else {
                    wpre.entities[j]
                }) by {
                    assert(world@.entities[j] == world.entities@[j]@);
                }
            }
        }
        i = i + 1;
    }
}

/// The entity standing at the origin.
pub open spec fn with_default_pose(e: EntityView) -> EntityView {
    EntityView {
        id: e.id,
        parent: e.parent,
        vessel: e.vessel,
        vessel_spawned: e.vessel_spawned,
        replicated: e.replicated,
        multiplayer: e.multiplayer,
        locally_controlled: e.locally_controlled,
        control: e.control,
        properties: e.properties,
        collider: e.collider,
        graphic: e.graphic,
        pose: Some(Translation::spec_zero()),
    }
}

} // verus!

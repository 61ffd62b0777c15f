//! The server side of the replication and ownership handshake: vessel
//! announcements are taken in, definitions broadcast to the other clients,
//! authoritative entities spawned and recorded in the ownership map;
//! newly connected clients are caught up on every active vessel; and a
//! disconnect removes the client's entry and despawns its entity with all
//! its children.

use vstd::prelude::*;

use crate::ownership::ClientOwnedEntities;
use crate::ownership::lemma_own_map_contains;
use crate::ownership::lemma_own_map_index;
use crate::table::VesselTable;
use crate::vessel::SimVessel;
use crate::vessel::SimVesselView;
use crate::vessel::VesselId;
use crate::world::EntityRecord;
use crate::world::EntityView;
use crate::world::World;
use crate::world::WorldView;
use crate::world::kept_entities;
use crate::world::lemma_kept_entities;
use crate::world::lemma_parentless_outside_subtree;
use crate::world::subtree_ids;

verus! {

/// The client-to-server announcement of a freshly built vessel: its id, its
/// full definition, and the client-side placeholder entity to remap onto the
/// server-authoritative entity.
pub struct AnnounceVessel {
    pub vessel_id: VesselId,
    pub definition: SimVessel,
    pub client_entity: u64,
}

/// Mathematical image of an `AnnounceVessel`.
pub ghost struct AnnounceVesselView {
    pub vessel_id: VesselId,
    pub definition: SimVesselView,
    pub client_entity: u64,
}

impl View for AnnounceVessel {
    type V = AnnounceVesselView;

    open spec fn view(&self) -> AnnounceVesselView {
        AnnounceVesselView {
            vessel_id: self.vessel_id,
            definition: self.definition@,
            client_entity: self.client_entity,
        }
    }
}

/// The server-to-client share of a vessel definition.
pub struct BroadcastVessel {
    pub vessel_id: VesselId,
    pub definition: SimVessel,
}

/// Mathematical image of a `BroadcastVessel`.
pub ghost struct BroadcastVesselView {
    pub vessel_id: VesselId,
    pub definition: SimVesselView,
}

impl View for BroadcastVessel {
    type V = BroadcastVesselView;

    open spec fn view(&self) -> BroadcastVesselView {
        BroadcastVesselView { vessel_id: self.vessel_id, definition: self.definition@ }
    }
}

impl DeepView for BroadcastVessel {
    type V = BroadcastVesselView;

    open spec fn deep_view(&self) -> BroadcastVesselView {
        self@
    }
}

impl BroadcastVessel {
    /// A value-identical copy of the share.
    pub fn duplicate(&self) -> (r: BroadcastVessel)
        ensures
            r@ == self@,
    {
        BroadcastVessel { vessel_id: self.vessel_id, definition: self.definition.duplicate() }
    }
}

/// Who an outbound message goes to.
#[derive(Clone, Copy, Debug, PartialEq, Eq, Structural)]
pub enum SendMode {
    /// Every connected client but the named one.
    BroadcastExcept(u64),
    /// The named client alone.
    Direct(u64),
}

/// Whether a connected client is among a message's recipients: a broadcast
/// reaches everyone but the originator, a direct share its addressee alone.
pub fn receives(mode: &SendMode, client: u64) -> (r: bool)
    ensures
        r == match *mode {
            SendMode::BroadcastExcept(c) => client != c,
            SendMode::Direct(c) => client == c,
        },
{
    match mode {
        SendMode::BroadcastExcept(c) => client != *c,
        SendMode::Direct(c) => client == *c,
    }
}

/// One outbound definition share, with its addressing.
pub struct OutboundVessel {
    pub mode: SendMode,
    pub message: BroadcastVessel,
}

/// Mathematical image of an `OutboundVessel`.
pub ghost struct OutboundVesselView {
    pub mode: SendMode,
    pub message: BroadcastVesselView,
}

impl View for OutboundVessel {
    type V = OutboundVesselView;

    open spec fn view(&self) -> OutboundVesselView {
        OutboundVesselView { mode: self.mode, message: self.message@ }
    }
}

impl DeepView for OutboundVessel {
    type V = OutboundVesselView;

    open spec fn deep_view(&self) -> OutboundVesselView {
        self@
    }
}

/// The remap the generic replication layer is told about: when the new
/// server entity reaches the originating client, it lands on the client's
/// placeholder instead of creating a duplicate.
#[derive(Clone, Copy, Debug, PartialEq, Eq, Structural)]
pub struct EntityMapping {
    pub client_id: u64,
    pub server_entity: u64,
    pub client_entity: u64,
}

/// The server's whole replication state: the asset table, the ownership
/// map, and the authoritative entity store.
pub struct ServerState {
    pub vessels: VesselTable,
    pub owned: ClientOwnedEntities,
    pub world: World,
}

/// The authoritative entity spawned for an announced vessel: replicated,
/// marked as a networked player, carrying the vessel id so the spawn
/// pipeline materializes it.
pub open spec fn announced_entity(vessel_id: VesselId, id: u64) -> EntityView {
    EntityView {
        id,
        parent: None,
        vessel: Some(vessel_id),
        vessel_spawned: false,
        replicated: true,
        multiplayer: true,
        locally_controlled: false,
        control: None,
        properties: None,
        collider: None,
        graphic: None,
        pose: None,
    }
}

impl ServerState {
    /// A fresh server: empty table, empty ownership map, empty world.
    pub fn new() -> (r: ServerState)
        ensures
            r.wf(),
            r.vessels@ =~= Map::<VesselId, SimVesselView>::empty(),
            r.owned@ =~= Map::<u64, u64>::empty(),
            r.world@.entities =~= Seq::<EntityView>::empty(),
    {
        ServerState {
            vessels: VesselTable::new(),
            owned: ClientOwnedEntities::new(),
            world: World::new(),
        }
    }

    /// The parts are well formed, and every owned entity is live, replicated,
    /// marked as a networked player, and a root of the hierarchy.
    pub open spec fn wf(&self) -> bool {
        &&& self.vessels.wf()
        &&& self.owned.wf()
        &&& self.world@.wf()
        &&& forall|k: int| 0 <= k < self.owned.entries@.len() ==> owned_entity_ok(
            self.world@,
            (#[trigger] self.owned.entries@[k]).entity,
        )
    }
}

/// What the server invariant asks of an owned entity: it is live, and its
/// record is replicated, a networked player, and parentless.
pub open spec fn owned_entity_ok(w: WorldView, entity: u64) -> bool {
    exists|i: int|
        0 <= i < w.entities.len() && {
            let e = #[trigger] w.entities[i];
            &&& e.id == entity
            &&& e.replicated
            &&& e.multiplayer
            &&& e.parent is None
        }
}

impl ServerState {
    /// Server intake of a client's vessel announcement: stores the
    /// definition (an idempotent insert — definitions are immutable),
    /// spawns one new server-authoritative, replicated entity carrying the
    /// vessel id, records the ownership entry, and hands back the broadcast
    /// for every other client together with the placeholder remap for the
    /// generic replication layer.
    pub fn handle_announce(&mut self, client_id: u64, msg: AnnounceVessel) -> (r: (
        OutboundVessel,
        EntityMapping,
    ))
        requires
            old(self).wf(),
            old(self).world@.next_id < u64::MAX,
        ensures
            final(self).wf(),
            final(self).vessels@ == old(self).vessels@.insert(msg.vessel_id, msg.definition@),
            final(self).world@.next_id == old(self).world@.next_id + 1,
            final(self).world@.entities =~= old(self).world@.entities.push(
                announced_entity(msg.vessel_id, old(self).world@.next_id),
            ),
            final(self).owned@ == old(self).owned@.insert(client_id, old(self).world@.next_id),
            r.0@.mode == SendMode::BroadcastExcept(client_id),
            r.0@.message.vessel_id == msg.vessel_id,
            r.0@.message.definition == msg.definition@,
            r.1 == (EntityMapping {
                client_id,
                server_entity: old(self).world@.next_id,
                client_entity: msg.client_entity,
            }),
    {
        let broadcast_copy = msg.definition.duplicate();
        self.vessels.insert(msg.vessel_id, msg.definition);

        let mut rec = EntityRecord::blank();
        rec.vessel = Some(msg.vessel_id);
        rec.replicated = true;
        rec.multiplayer = true;
        let server_entity = self.world.spawn(rec);
        proof {
            assert(rec@.with_id(server_entity) == announced_entity(msg.vessel_id, server_entity));
            // the fresh entity is owned by nobody: every owned entity is live
            // in the old world, so its id is below the old next id
            assert forall|k: int| 0 <= k < self.owned.entries@.len() implies (
            #[trigger] self.owned.entries@[k]).entity != server_entity by {
                assert(owned_entity_ok(old(self).world@, self.owned.entries@[k].entity));
            }
        }
        self.owned.insert(client_id, server_entity);
        proof {
            assert forall|k: int| 0 <= k < self.owned.entries@.len() implies owned_entity_ok(
                self.world@,
                (#[trigger] self.owned.entries@[k]).entity,
            ) by {
                let e = self.owned.entries@[k].entity;
                if e == server_entity {
                    assert(self.world@.entities[self.world@.entities.len() - 1].id
                        == server_entity);
                } else {
                    assert(exists|j: int|
                        0 <= j < old(self).owned.entries@.len() && old(
                            self,
                        ).owned.entries@[j].entity == e);
                    let j = choose|j: int|
                        0 <= j < old(self).owned.entries@.len() && old(
                            self,
                        ).owned.entries@[j].entity == e;
                    assert(owned_entity_ok(old(self).world@, e));
                    let i = choose|i: int|
                        0 <= i < old(self).world@.entities.len() && {
                            let ev = #[trigger] old(self).world@.entities[i];
                            &&& ev.id == e
                            &&& ev.replicated
                            &&& ev.multiplayer
                            &&& ev.parent is None
                        };
                    assert(self.world@.entities[i] == old(self).world@.entities[i]);
                }
            }
        }
        (
            OutboundVessel {
                mode: SendMode::BroadcastExcept(client_id),
                message: BroadcastVessel { vessel_id: msg.vessel_id, definition: broadcast_copy },
            },
            EntityMapping { client_id, server_entity, client_entity: msg.client_entity },
        )
    }
}

/// The catch-up shares for a newly connected client: one direct message per
/// live networked vessel whose definition the table holds; a vessel whose
/// definition is missing is skipped, and catch-up goes on with the rest.
pub open spec fn catch_up_messages(
    entities: Seq<EntityView>,
    table: Map<VesselId, SimVesselView>,
    client_id: u64,
) -> Seq<OutboundVesselView>
    decreases entities.len(),
{
    if entities.len() == 0 {
        Seq::empty()
    } else {
        let prev = catch_up_messages(entities.drop_last(), table, client_id);
        let e = entities.last();
        match e.vessel {
            Some(vid) => if e.multiplayer && table.contains_key(vid) {
                prev.push(
                    OutboundVesselView {
                        mode: SendMode::Direct(client_id),
                        message: BroadcastVesselView {
                            vessel_id: vid,
                            definition: table[vid],
                        },
                    },
                )
            } else {
                prev
            },
            None => prev,
        }
    }
}

impl ServerState {
    /// New-joiner catch-up: walks every live networked vessel entity and
    /// unicasts its definition to the newly connected client, so the
    /// client's table is consistent before any entity replication
    /// referencing those ids arrives.  A vessel whose definition is absent
    /// from the server's own table is skipped rather than aborting the rest.
    pub fn handle_connect(&self, client_id: u64) -> (r: Vec<OutboundVessel>)
        requires
            self.wf(),
        ensures
            r.deep_view() =~= catch_up_messages(self.world@.entities, self.vessels@, client_id),
    {
        let mut out: Vec<OutboundVessel> = Vec::new();
        let n = self.world.entities.len();
        let mut i: usize = 0;
        while i < n
            invariant
                n == self.world@.entities.len(),
                self.wf(),
                0 <= i <= n,
                out.deep_view() =~= catch_up_messages(
                    self.world@.entities.take(i as int),
                    self.vessels@,
                    client_id,
                ),
            decreases n - i,
        {
            let ghost prefix = self.world@.entities.take(i as int);
            proof {
                assert(self.world@.entities.take(i + 1).drop_last() =~= prefix);
                assert(self.world@.entities.take(i + 1).last() == self.world@.entities[i as int]);
                assert(self.world@.entities[i as int] == self.world.entities@[i as int]@);
            }
            let e_vessel = self.world.entities[i].vessel;
            let e_multiplayer = self.world.entities[i].multiplayer;
            match e_vessel {
                Some(vid) => {
                    if e_multiplayer {
                        match self.vessels.get(vid) {
                            Some(def) => {
                                let ghost outpre = out.deep_view();
                                out.push(
                                    OutboundVessel {
                                        mode: SendMode::Direct(client_id),
                                        message: BroadcastVessel {
                                            vessel_id: vid,
                                            definition: def.duplicate(),
                                        },
                                    },
                                );
                                proof {
                                    assert forall|k: int| 0 <= k < out.deep_view().len() implies out
                                        .deep_view()[k] == (if k < outpre.len() {
                                        outpre[k]
                                    } else {
                                        OutboundVesselView {
                                            mode: SendMode::Direct(client_id),
                                            message: BroadcastVesselView {
                                                vessel_id: vid,
                                                definition: self.vessels@[vid],
                                            },
                                        }
                                    }) by {
                                        assert(out.deep_view()[k] == out@[k]@);
                                    }
                                    assert(out.deep_view() =~= catch_up_messages(
                                        self.world@.entities.take(i + 1),
                                        self.vessels@,
                                        client_id,
                                    ));
                                }
                            },
                            None => {
                                // definition missing server-side: log-and-skip
                            },
                        }
                    }
                },
                None => {},
            }
            i = i + 1;
        }
        proof {
            assert(self.world@.entities.take(n as int) =~= self.world@.entities);
        }
        out
    }

    /// Disconnect cleanup: removes the client's ownership entry, then
    /// despawns its entity together with all its children.  A disconnect
    /// for a client with no entry — one that never finished registration,
    /// or was already cleaned up — is a no-op, not an error.
    pub fn handle_disconnect(&mut self, client_id: u64) -> (r: Option<u64>)
        requires
            old(self).wf(),
        ensures
            final(self).wf(),
            final(self).vessels == old(self).vessels,
            final(self).owned@ == old(self).owned@.remove(client_id),
            final(self).world@.next_id == old(self).world@.next_id,
            final(self).owned@ == disconnect_spec(old(self).owned@, old(self).world@, client_id).0,
            final(self).world@ == disconnect_spec(old(self).owned@, old(self).world@, client_id).1,
            match r {
                Some(entity) => {
                    &&& old(self).owned@.contains_key(client_id)
                    &&& entity == old(self).owned@[client_id]
                    &&& final(self).world@.entities == kept_entities(
                        old(self).world@.entities,
                        entity,
                    )
                },
                None => {
                    &&& !old(self).owned@.contains_key(client_id)
                    &&& final(self).world == old(self).world
                },
            },
    {
        let removed = self.owned.remove(client_id);
        match removed {
            Some(entity) => {
                proof {
                    // every surviving owned entity is another client's, so by
                    // injectivity it differs from the despawned one, and
                    // being parentless it sits outside the despawned subtree
                    assert forall|k: int| 0 <= k < self.owned.entries@.len() implies (
                    #[trigger] self.owned.entries@[k]).entity != entity by {
                        let ek = self.owned.entries@[k];
                        let j = choose|j: int|
                            0 <= j < old(self).owned.entries@.len() && old(
                                self,
                            ).owned.entries@[j] == ek;
                        if ek.entity == entity {
                            lemma_own_map_contains(self.owned.entries@, ek.client);
                            assert(self.owned@.contains_key(ek.client));
                            assert(ek.client != client_id);
                            lemma_own_map_contains(old(self).owned.entries@, client_id);
                            let j2 = choose|j2: int|
                                0 <= j2 < old(self).owned.entries@.len() && old(
                                    self,
                                ).owned.entries@[j2].client == client_id;
                            lemma_own_map_index(old(self).owned.entries@, j2);
                            assert(old(self).owned.entries@[j2].entity == entity);
                            assert(j != j2);
                            assert(false);
                        }
                    }
                }
                self.world.despawn_subtree(entity);
                proof {
                    lemma_kept_entities(old(self).world@.entities, entity);
                    assert forall|k: int| 0 <= k < self.owned.entries@.len() implies owned_entity_ok(
                        self.world@,
                        (#[trigger] self.owned.entries@[k]).entity,
                    ) by {
                        let e = self.owned.entries@[k].entity;
                        let j = choose|j: int|
                            0 <= j < old(self).owned.entries@.len() && old(
                                self,
                            ).owned.entries@[j] == self.owned.entries@[k];
                        assert(owned_entity_ok(old(self).world@, e));
                        let i = choose|i: int|
                            0 <= i < old(self).world@.entities.len() && {
                                let ev = #[trigger] old(self).world@.entities[i];
                                &&& ev.id == e
                                &&& ev.replicated
                                &&& ev.multiplayer
                                &&& ev.parent is None
                            };
                        lemma_parentless_outside_subtree(old(self).world@.entities, entity, e);
                        assert(kept_entities(old(self).world@.entities, entity).contains(
                            old(self).world@.entities[i],
                        ));
                        let k2 = choose|k2: int|
                            0 <= k2 < self.world@.entities.len() && self.world@.entities[k2] == old(
                                self,
                            ).world@.entities[i];
                    }
                }
                Some(entity)
            },
            None => {
                proof {
                    assert(final(self).owned@ =~= old(self).owned@.remove(client_id));
                }
                None
            },
        }
    }
}

/// Rising-edge detection on the transport's running flag: true exactly on
/// the tick the server came up, with the new flag to remember.
pub fn server_just_started(last_running: bool, running: bool) -> (r: (bool, bool))
    ensures
        r.0 == (!last_running && running),
        r.1 == running,
{
    (!last_running && running, running)
}

/// Marks the server's own locally controlled vessel as a replicated
/// networked player, so the server's user is visible to clients like any
/// other.  Touches exactly the locally controlled entities that carry a
/// vessel id and are not yet marked.
pub fn mark_server_user(world: &mut World)
    requires
        old(world)@.wf(),
    ensures
        final(world)@.wf(),
        final(world)@.next_id == old(world)@.next_id,
        final(world)@.entities.len() == old(world)@.entities.len(),
        forall|j: int| 0 <= j < old(world)@.entities.len() ==> final(world)@.entities[j] == (if
            needs_server_user_mark(#[trigger] old(world)@.entities[j]) {
            marked_multiplayer(old(world)@.entities[j])
        } else {
            old(world)@.entities[j]
        }),
{
    let ghost w0 = world@;
    let n = world.entities.len();
    let mut i: usize = 0;
    while i < n
        invariant
            n == w0.entities.len(),
            w0 == old(world)@,
            w0.wf(),
            0 <= i <= n,
            world@.next_id == w0.next_id,
            world@.entities.len() == n,
            forall|j: int| i <= j < n ==> world@.entities[j] == w0.entities[j],
            forall|j: int| 0 <= j < i ==> world@.entities[j] == (if needs_server_user_mark(
                #[trigger] w0.entities[j],
            ) {
                marked_multiplayer(w0.entities[j])
            } else {
                w0.entities[j]
            }),
            world@.wf(),
        decreases n - i,
    {
        let ghost wpre = world@;
        proof {
            assert(world@.entities[i as int] == world.entities@[i as int]@);
        }
        if world.entities[i].locally_controlled && world.entities[i].vessel.is_some()
            && !world.entities[i].multiplayer {
            world.entities[i].multiplayer = true;
            world.entities[i].replicated = true;
            proof {
                assert forall|j: int| 0 <= j < n implies world@.entities[j] == (if j == i as int {
                    marked_multiplayer(w0.entities[j])
                } else {
                    wpre.entities[j]
                }) by {
                    assert(world@.entities[j] == world.entities@[j]@);
                }
            }
        }
        i = i + 1;
    }
}

/// Whether `mark_server_user` touches this entity.
pub open spec fn needs_server_user_mark(e: EntityView) -> bool {
    e.locally_controlled && e.vessel is Some && !e.multiplayer
}

/// The entity marked as a replicated networked player.
pub open spec fn marked_multiplayer(e: EntityView) -> EntityView {
    EntityView {
        id: e.id,
        parent: e.parent,
        vessel: e.vessel,
        vessel_spawned: e.vessel_spawned,
        replicated: true,
        multiplayer: true,
        locally_controlled: e.locally_controlled,
        control: e.control,
        properties: e.properties,
        collider: e.collider,
        graphic: e.graphic,
        pose: e.pose,
    }
}


/// The disconnect transition, stated over the mathematical state: the
/// ownership entry goes, and with it the owned entity's whole subtree; a
/// client with no entry changes nothing.
pub open spec fn disconnect_spec(owned: Map<u64, u64>, world: WorldView, client: u64) -> (
    Map<u64, u64>,
    WorldView,
) {
    if owned.contains_key(client) {
        (
            owned.remove(client),
            WorldView {
                next_id: world.next_id,
                entities: kept_entities(world.entities, owned[client]),
            },
        )
    } else {
        (owned.remove(client), world)
    }
}

/// Disconnect cleanup: after a registered client disconnects, its ownership
/// entry is absent, its entity is gone, and so is every child of it.
pub proof fn lemma_disconnect_cleanup(owned: Map<u64, u64>, world: WorldView, client: u64)
    requires
        world.wf(),
        owned.contains_key(client),
    ensures
        !disconnect_spec(owned, world, client).0.contains_key(client),
        !disconnect_spec(owned, world, client).1.has_entity(owned[client]),
        forall|j: int|
            0 <= j < world.entities.len() && (#[trigger] world.entities[j]).parent == Some(
                owned[client],
            ) ==> !disconnect_spec(owned, world, client).1.has_entity(world.entities[j].id),
{
    let root = owned[client];
    let s = world.entities;
    let w1 = disconnect_spec(owned, world, client).1;
    lemma_kept_entities(s, root);
    crate::world::lemma_subtree_contains_root(s, root);
    if w1.has_entity(root) {
        let k = choose|k: int|
            0 <= k < w1.entities.len() && (#[trigger] w1.entities[k]).id == root;
        assert(!subtree_ids(s, root).contains(w1.entities[k].id));
        assert(false);
    }
    assert forall|j: int|
        0 <= j < s.len() && (#[trigger] s[j]).parent == Some(root) implies !w1.has_entity(
        s[j].id,
    ) by {
        crate::world::lemma_child_in_subtree(s, root, j);
        if w1.has_entity(s[j].id) {
            let k = choose|k: int|
                0 <= k < w1.entities.len() && (#[trigger] w1.entities[k]).id == s[j].id;
            assert(!subtree_ids(s, root).contains(w1.entities[k].id));
            assert(false);
        }
    }
}

/// A second disconnect event for an already removed client is a no-op, not
/// an error.
pub proof fn lemma_disconnect_idempotent(owned: Map<u64, u64>, world: WorldView, client: u64)
    ensures
        disconnect_spec(
            disconnect_spec(owned, world, client).0,
            disconnect_spec(owned, world, client).1,
            client,
        ) == disconnect_spec(owned, world, client),
{
    let o1 = disconnect_spec(owned, world, client).0;
    assert(!o1.contains_key(client));
    assert(o1.remove(client) =~= o1);
}

/// Removing one client's entry removes exactly that client's entity, never
/// another's: any other registered client keeps its entry, and its entity's
/// record survives the despawn untouched.
pub proof fn lemma_disconnect_preserves_others(
    owned: Map<u64, u64>,
    world: WorldView,
    client: u64,
    other: u64,
)
    requires
        world.wf(),
        owned.contains_key(client),
        owned.contains_key(other),
        other != client,
        owned[other] != owned[client],
        owned_entity_ok(world, owned[other]),
    ensures
        disconnect_spec(owned, world, client).0.contains_key(other),
        disconnect_spec(owned, world, client).0[other] == owned[other],
        owned_entity_ok(disconnect_spec(owned, world, client).1, owned[other]),
{
    let root = owned[client];
    let s = world.entities;
    let w1 = disconnect_spec(owned, world, client).1;
    let i = choose|i: int|
        0 <= i < s.len() && {
            let ev = #[trigger] s[i];
            &&& ev.id == owned[other]
            &&& ev.replicated
            &&& ev.multiplayer
            &&& ev.parent is None
        };
    lemma_parentless_outside_subtree(s, root, owned[other]);
    lemma_kept_entities(s, root);
    assert(kept_entities(s, root).contains(s[i]));
    let k = choose|k: int| 0 <= k < w1.entities.len() && w1.entities[k] == s[i];
}

} // verus!


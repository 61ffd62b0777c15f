//! The spawn pipeline: materializes a vessel definition into live entities,
//! exactly once per intended vessel instance.
//!
//! Path A is declarative: an entity carrying a `VesselId` but no "spawned"
//! marker is resolved against the asset table and catalogue; a definition
//! that has not arrived yet is retried on a later pass, an unknown element id
//! is a fatal content error.  Path B is imperative: an already resolved
//! vessel is materialized now, optionally onto a pre-existing entity,
//! overwriting what was there.  Both attach the same payload, and the
//! "spawned" marker gates re-entry.

use vstd::prelude::*;

use crate::VesselError;
use crate::catalogue::Catalogue;
use crate::catalogue::ElementView;
use crate::catalogue::resolve_spec;
use crate::table::VesselTable;
use crate::vessel::ColliderPart;
use crate::vessel::Control;
use crate::vessel::RtVesselData;
use crate::vessel::Shape;
use crate::vessel::SimVesselView;
use crate::vessel::Translation;
use crate::vessel::VesselGraphicPart;
use crate::vessel::VesselId;
use crate::vessel::VesselProperties;
use crate::world::EntityRecord;
use crate::world::EntityView;
use crate::world::World;
use crate::world::WorldView;

verus! {

/// The entity after the spawn payload is attached: marked spawned, physics
/// coefficients and collision shape in place, control zeroed, standing at
/// the origin.  Identity, hierarchy and replication markers are untouched.
pub open spec fn spawned_entity(
    e: EntityView,
    properties: VesselProperties,
    collider: Seq<ColliderPart>,
) -> EntityView {
    EntityView {
        id: e.id,
        parent: e.parent,
        vessel: e.vessel,
        vessel_spawned: true,
        replicated: e.replicated,
        multiplayer: e.multiplayer,
        locally_controlled: e.locally_controlled,
        control: Some(Control::spec_zero()),
        properties: Some(properties),
        collider: Some(collider),
        graphic: e.graphic,
        pose: Some(Translation::spec_zero()),
    }
}

/// One visual part entity: a child of the vessel carrying the resolved
/// render payload, standing at its placement.
pub open spec fn part_record(parent: u64, id: u64, g: VesselGraphicPart) -> EntityView {
    EntityView {
        id,
        parent: Some(parent),
        vessel: None,
        vessel_spawned: false,
        replicated: false,
        multiplayer: false,
        locally_controlled: false,
        control: None,
        properties: None,
        collider: None,
        graphic: Some(g),
        pose: Some(g.placement),
    }
}

/// The child entities spawned for the resolved render parts, ids counting up
/// from `first_id`.
pub open spec fn part_records(parent: u64, first_id: u64, gs: Seq<VesselGraphicPart>) -> Seq<
    EntityView,
> {
    Seq::new(gs.len(), |k: int| part_record(parent, (first_id + k) as u64, gs[k]))
}

/// One entity's worth of Path A work: an entity carrying a vessel id but no
/// spawned marker is materialized if its definition is in the table and
/// resolves; a missing definition is left for a later pass; a definition
/// that does not resolve stops the pass with the missing element id.  An
/// entity with no vessel id, or already spawned, is untouched.
pub open spec fn spawn_step(
    w: WorldView,
    i: int,
    table: Map<VesselId, SimVesselView>,
    cat: Seq<ElementView>,
) -> (WorldView, Option<Seq<char>>) {
    let e = w.entities[i];
    match e.vessel {
        Some(vid) => if e.vessel_spawned {
            (w, None)
        } else if table.contains_key(vid) {
            let def = table[vid];
            match resolve_spec(def, cat) {
                Err(missing) => (w, Some(missing)),
                Ok(rt) => if w.next_id + rt.graphics.len() <= u64::MAX {
                    (
                        WorldView {
                            next_id: (w.next_id + rt.graphics.len()) as u64,
                            entities: w.entities.update(
                                i,
                                spawned_entity(e, def.physics_properties, def.collider),
                            ) + part_records(e.id, w.next_id, rt.graphics),
                        },
                        None,
                    )
                } else {
                    // out of entity ids: leave the entity for a later pass
                    (w, None)
                },
            }
        } else {
            // the definition may still arrive over the network
            (w, None)
        },
        None => (w, None),
    }
}

/// A whole Path A pass over the first `i` entities, stopping at the first
/// unresolvable definition.
pub open spec fn spawn_pass(
    w: WorldView,
    i: int,
    table: Map<VesselId, SimVesselView>,
    cat: Seq<ElementView>,
) -> (WorldView, Option<Seq<char>>)
    decreases i,
{
    if i <= 0 {
        (w, None)
    } else {
        let prev = spawn_pass(w, i - 1, table, cat);
        if prev.1 is Some {
            prev
        } else {
            spawn_step(prev.0, i - 1, table, cat)
        }
    }
}

/// The spawned marker gates re-entry: Path A on an already spawned entity
/// changes nothing.
pub proof fn lemma_spawn_gate(
    w: WorldView,
    i: int,
    table: Map<VesselId, SimVesselView>,
    cat: Seq<ElementView>,
)
    requires
        0 <= i < w.entities.len(),
        w.entities[i].vessel_spawned,
    ensures
        spawn_step(w, i, table, cat) == (w, None::<Seq<char>>),
{
}

/// Spawning is idempotent per entity: once a step has done its work, doing
/// the same step again changes nothing — no duplicate physics or visual
/// components are ever attached.
pub proof fn lemma_spawn_step_idempotent(
    w: WorldView,
    i: int,
    table: Map<VesselId, SimVesselView>,
    cat: Seq<ElementView>,
)
    requires
        0 <= i < w.entities.len(),
        spawn_step(w, i, table, cat).1 is None,
    ensures
        spawn_step(spawn_step(w, i, table, cat).0, i, table, cat) == (
            spawn_step(w, i, table, cat).0,
            None::<Seq<char>>,
        ),
{
    let e = w.entities[i];
    let w1 = spawn_step(w, i, table, cat).0;
    match e.vessel {
        Some(vid) => {
            if !e.vessel_spawned && table.contains_key(vid) {
                let def = table[vid];
                match resolve_spec(def, cat) {
                    Ok(rt) => {
                        if w.next_id + rt.graphics.len() <= u64::MAX {
                            assert(w1.entities[i] == spawned_entity(
                                e,
                                def.physics_properties,
                                def.collider,
                            ));
                            assert(w1.entities[i].vessel_spawned);
                        }
                    },
                    Err(_) => {},
                }
            }
        },
        None => {},
    }
}

/// Copies a compound collider part by part.
fn copy_collider(v: &Vec<ColliderPart>) -> (r: Vec<ColliderPart>)
    ensures
        r@ =~= v@,
{
    let mut out: Vec<ColliderPart> = Vec::new();
    let n = v.len();
    let mut i: usize = 0;
    while i < n
        invariant
            n == v.len(),
            0 <= i <= n,
            out@.len() == i,
            forall|k: int| 0 <= k < i ==> out@[k] == v@[k],
        decreases n - i,
    {
        out.push(v[i]);
        i = i + 1;
    }
    out
}

/// Once a pass hits an unresolvable definition, the rest of the pass changes
/// nothing more.
proof fn lemma_pass_error_sticks(
    w: WorldView,
    i: int,
    n: int,
    table: Map<VesselId, SimVesselView>,
    cat: Seq<ElementView>,
)
    requires
        0 <= i <= n,
        spawn_pass(w, i, table, cat).1 is Some,
    ensures
        spawn_pass(w, n, table, cat) == spawn_pass(w, i, table, cat),
    decreases n - i,
{
    if i < n {
        lemma_pass_error_sticks(w, i + 1, n, table, cat);
    }
}

/// Path A: walks every live entity and materializes those that carry a
/// vessel id but no spawned marker and whose definition is in the table and
/// resolves against the catalogue.  Entities whose definition has not
/// arrived are left untouched for a later pass; the first definition that
/// references an unknown element stops the pass with that element's id.
pub fn spawn_vessels(world: &mut World, vessels: &VesselTable, catalogue: &Catalogue) -> (r: Result<
    (),
    VesselError,
>)
    requires
        old(world)@.wf(),
        vessels.wf(),
    ensures
        final(world)@.wf(),
        final(world)@ == spawn_pass(
            old(world)@,
            old(world)@.entities.len() as int,
            vessels@,
            catalogue@,
        ).0,
        match r {
            Ok(()) => spawn_pass(
                old(world)@,
                old(world)@.entities.len() as int,
                vessels@,
                catalogue@,
            ).1 is None,
            Err(e) => e matches VesselError::UnknownElement(id) && spawn_pass(
                old(world)@,
                old(world)@.entities.len() as int,
                vessels@,
                catalogue@,
            ).1 == Some(id@),
        },
{
    let ghost w0 = world@;
    let ghost tbl = vessels@;
    let ghost cat = catalogue@;
    let n = world.entities.len();
    let mut i: usize = 0;
    while i < n
        invariant
            n == w0.entities.len(),
            w0 == old(world)@,
            0 <= i <= n,
            world@.wf(),
            vessels.wf(),
            tbl == vessels@,
            cat == catalogue@,
            world@ == spawn_pass(w0, i as int, tbl, cat).0,
            spawn_pass(w0, i as int, tbl, cat).1 is None,
            world@.entities.len() >= n,
            forall|j: int| i <= j < n ==> world@.entities[j] == w0.entities[j],
        decreases n - i,
    {
        let ghost wpre = world@;
        let e_vessel = world.entities[i].vessel;
        let e_spawned = world.entities[i].vessel_spawned;
        proof {
            assert(world@.entities[i as int] == world.entities@[i as int]@);
        }
        if e_spawned || e_vessel.is_none() {
            proof {
                assert(spawn_step(wpre, i as int, tbl, cat) == (wpre, None::<Seq<char>>));
            }
        } else {
            let vid = e_vessel.unwrap();
            match vessels.get(vid) {
                None => {
                    proof {
                        assert(spawn_step(wpre, i as int, tbl, cat) == (wpre, None::<Seq<char>>));
                    }
                },
                Some(def) => {
                    match crate::catalogue::sim_to_rt(def, catalogue) {
                        Err(err) => {
                            proof {
                                let stepres = spawn_step(wpre, i as int, tbl, cat);
                                assert(stepres.0 == wpre);
                                assert(stepres.1 is Some);
                                assert(spawn_pass(w0, i + 1, tbl, cat) == stepres);
                                lemma_pass_error_sticks(w0, i + 1, n as int, tbl, cat);
                            }
                            return Err(err);
                        },
                        Ok(rt) => {
                            let count = rt.graphics.len() as u64;
                            if world.next_id <= u64::MAX - count {
                                let eid = world.entities[i].id;
                                world.entities[i].vessel_spawned = true;
                                world.entities[i].properties = Some(def.physics_properties);
                                world.entities[i].control = Some(Control::zero());
                                world.entities[i].collider = Some(copy_collider(&def.collider));
                                world.entities[i].pose = Some(Translation::zero());
                                proof {
                                    let s1 = world@.entities;
                                    assert forall|k: int| 0 <= k < s1.len() implies s1[k] == (if k
                                        == i as int {
                                        spawned_entity(
                                            wpre.entities[i as int],
                                            def@.physics_properties,
                                            def@.collider,
                                        )
                                    } else {
                                        wpre.entities[k]
                                    }) by {
                                        assert(s1[k] == world.entities@[k]@);
                                    }
                                    assert(s1 =~= wpre.entities.update(
                                        i as int,
                                        spawned_entity(
                                            wpre.entities[i as int],
                                            def@.physics_properties,
                                            def@.collider,
                                        ),
                                    ));
                                    assert(world@.wf());
                                }
                                let ghost wmid = world@;
                                let total = rt.graphics.len();
                                let mut k: usize = 0;
                                while k < total
                                    invariant
                                        total == rt.graphics.len(),
                                        0 <= k <= total,
                                        wmid.next_id + total <= u64::MAX,
                                        world@.wf(),
                                        world@.next_id == wmid.next_id + k,
                                        eid < wmid.next_id,
                                        world@.entities =~= wmid.entities + part_records(
                                            eid,
                                            wmid.next_id,
                                            rt.graphics@.take(k as int),
                                        ),
                                    decreases total - k,
                                {
                                    let mut rec = EntityRecord::blank();
                                    rec.parent = Some(eid);
                                    rec.graphic = Some(rt.graphics[k]);
                                    rec.pose = Some(rt.graphics[k].placement);
                                    let ghost wb = world@;
                                    world.spawn(rec);
                                    proof {
                                        assert(rec@.with_id(wb.next_id) == part_record(
                                            eid,
                                            (wmid.next_id + k) as u64,
                                            rt.graphics@[k as int],
                                        ));
                                        assert(part_records(
                                            eid,
                                            wmid.next_id,
                                            rt.graphics@.take(k + 1),
                                        ) =~= part_records(
                                            eid,
                                            wmid.next_id,
                                            rt.graphics@.take(k as int),
                                        ).push(
                                            part_record(
                                                eid,
                                                (wmid.next_id + k) as u64,
                                                rt.graphics@[k as int],
                                            ),
                                        ));
                                        assert(world@.entities =~= wmid.entities + part_records(
                                            eid,
                                            wmid.next_id,
                                            rt.graphics@.take(k + 1),
                                        ));
                                    }
                                    k = k + 1;
                                }
                                proof {
                                    assert(rt.graphics@.take(total as int) =~= rt.graphics@);
                                    assert(world@.entities =~= wmid.entities + part_records(
                                        eid,
                                        wmid.next_id,
                                        rt.graphics@,
                                    ));
                                    assert(rt@.graphics == rt.graphics@);
                                    assert(spawn_step(wpre, i as int, tbl, cat).0.entities
                                        =~= world@.entities);
                                    assert(spawn_step(wpre, i as int, tbl, cat).0 == world@);
                                }
                            } else {
                                proof {
                                    assert(spawn_step(wpre, i as int, tbl, cat) == (
                                        wpre,
                                        None::<Seq<char>>,
                                    ));
                                }
                            }
                        },
                    }
                },
            }
        }
        i = i + 1;
        proof {
            assert(spawn_pass(w0, i as int, tbl, cat).0 == world@);
            assert forall|j: int| i <= j < n implies world@.entities[j] == w0.entities[j] by {
                assert(wpre.entities[j] == w0.entities[j]);
            }
        }
    }
    proof {
        assert(world@ == spawn_pass(w0, n as int, tbl, cat).0);
    }
    Ok(())
}

/// Path B: materializes an already resolved vessel now, onto the given
/// pre-existing entity if one is handed in, else onto a fresh one.  An
/// already populated entity is overwritten, last write wins; the spawned
/// marker is set so Path A will not re-trigger.  The collision shape is a
/// unit cube, as for any directly spawned player body.  Returns the vessel's
/// entity; one child entity is spawned per render part.
pub fn spawn_resolved(world: &mut World, rt: &RtVesselData, reuse: Option<u64>) -> (r: u64)
    requires
        old(world)@.wf(),
        old(world)@.next_id + 1 + rt.graphics@.len() <= u64::MAX,
        reuse matches Some(id) ==> old(world)@.has_entity(id),
    ensures
        final(world)@.wf(),
        final(world)@.has_entity(r),
        ({
            let base = if reuse is Some {
                old(world)@
            } else {
                WorldView {
                    next_id: (old(world)@.next_id + 1) as u64,
                    entities: old(world)@.entities.push(EntityView::spec_blank(0).with_id(old(world)@.next_id)),
                }
            };
            let i = base.index_of_id(r);
            &&& (reuse matches Some(id) ==> r == id)
            &&& (reuse is None ==> r == old(world)@.next_id)
            &&& 0 <= i < base.entities.len() && base.entities[i].id == r
            &&& final(world)@.next_id == base.next_id + rt.graphics@.len()
            &&& final(world)@.entities =~= base.entities.update(
                i,
                spawned_entity(base.entities[i], rt.vessel_info, unit_cube_collider()),
            ) + part_records(r, base.next_id, rt.graphics@)
        }),
{
    let entity: u64 = match reuse {
        Some(id) => id,
        None => {
            let fresh = world.spawn(EntityRecord::blank());
            proof {
                assert(world@.entities[world@.entities.len() - 1].id == fresh);
            }
            fresh
        },
    };
    let idx = match world.index_of(entity) {
        Some(i) => i,
        None => {
            proof {
                assert(false);
            }
            0
        },
    };
    let ghost base = world@;
    proof {
        let i = base.index_of_id(entity);
        assert(base.entities[idx as int].id == entity);
        assert(base.entities[i].id == entity);
        if i != idx as int {
            if i < idx as int {
                assert(base.entities[i].id < base.entities[idx as int].id);
            } else {
                assert(base.entities[idx as int].id < base.entities[i].id);
            }
            assert(false);
        }
    }
    world.entities[idx].vessel_spawned = true;
    world.entities[idx].properties = Some(rt.vessel_info);
    world.entities[idx].control = Some(Control::zero());
    let mut cube: Vec<ColliderPart> = Vec::new();
    cube.push(
        ColliderPart {
            placement: Translation::zero(),
            shape: Shape { x_len: 1000, y_len: 1000, z_len: 1000 },
        },
    );
    world.entities[idx].collider = Some(cube);
    world.entities[idx].pose = Some(Translation::zero());
    proof {
        let s1 = world@.entities;
        assert forall|k: int| 0 <= k < s1.len() implies s1[k] == (if k == idx as int {
            spawned_entity(base.entities[idx as int], rt.vessel_info, unit_cube_collider())
        } else {
            base.entities[k]
        }) by {
            assert(s1[k] == world.entities@[k]@);
        }
        assert(s1 =~= base.entities.update(
            idx as int,
            spawned_entity(base.entities[idx as int], rt.vessel_info, unit_cube_collider()),
        ));
        assert(world@.wf());
    }
    let ghost wmid = world@;
    let total = rt.graphics.len();
    let mut k: usize = 0;
    while k < total
        invariant
            total == rt.graphics.len(),
            0 <= k <= total,
            wmid.next_id + total <= u64::MAX,
            world@.wf(),
            world@.next_id == wmid.next_id + k,
            entity < wmid.next_id,
            world@.entities =~= wmid.entities + part_records(
                entity,
                wmid.next_id,
                rt.graphics@.take(k as int),
            ),
        decreases total - k,
    {
        let mut rec = EntityRecord::blank();
        rec.parent = Some(entity);
        rec.graphic = Some(rt.graphics[k]);
        rec.pose = Some(rt.graphics[k].placement);
        let ghost wb = world@;
        world.spawn(rec);
        proof {
            assert(rec@.with_id(wb.next_id) == part_record(
                entity,
                (wmid.next_id + k) as u64,
                rt.graphics@[k as int],
            ));
            assert(part_records(entity, wmid.next_id, rt.graphics@.take(k + 1)) =~= part_records(
                entity,
                wmid.next_id,
                rt.graphics@.take(k as int),
            ).push(part_record(entity, (wmid.next_id + k) as u64, rt.graphics@[k as int])));
            assert(world@.entities =~= wmid.entities + part_records(
                entity,
                wmid.next_id,
                rt.graphics@.take(k + 1),
            ));
        }
        k = k + 1;
    }
    proof {
        assert(rt.graphics@.take(total as int) =~= rt.graphics@);
        assert(world@.entities =~= wmid.entities + part_records(
            entity,
            wmid.next_id,
            rt.graphics@,
        ));
        assert(world@.entities[idx as int] == wmid.entities[idx as int]);
        assert(world@.entities[idx as int].id == entity);
        assert(world@.has_entity(entity));
        if reuse is None {
            assert(base.entities =~= old(world)@.entities.push(
                EntityView::spec_blank(0).with_id(old(world)@.next_id),
            ));
        }
        assert(base.index_of_id(entity) == idx as int);
    }
    entity
}

/// The unit cube a directly spawned player body gets as its collision shape.
pub open spec fn unit_cube_collider() -> Seq<ColliderPart> {
    seq![
        ColliderPart {
            placement: Translation::spec_zero(),
            shape: Shape { x_len: 1000, y_len: 1000, z_len: 1000 },
        },
    ]
}


/// An entity the pipeline would leave alone: it wants no vessel, is already
/// spawned, its definition has not arrived, or there is no id headroom left
/// for its parts.
pub open spec fn step_idle(
    e: EntityView,
    table: Map<VesselId, SimVesselView>,
    cat: Seq<ElementView>,
    next_id: u64,
) -> bool {
    match e.vessel {
        None => true,
        Some(vid) => e.vessel_spawned || !table.contains_key(vid) || (resolve_spec(
            table[vid],
            cat,
        ) is Ok && next_id + resolve_spec(table[vid], cat)->Ok_0.graphics.len() > u64::MAX),
    }
}

/// Idleness survives id allocation: what was out of headroom stays out.
proof fn lemma_step_idle_monotone(
    e: EntityView,
    table: Map<VesselId, SimVesselView>,
    cat: Seq<ElementView>,
    n1: u64,
    n2: u64,
)
    requires
        step_idle(e, table, cat, n1),
        n1 <= n2,
    ensures
        step_idle(e, table, cat, n2),
{
}

/// A step on an idle entity changes nothing.
proof fn lemma_idle_step(
    w: WorldView,
    i: int,
    table: Map<VesselId, SimVesselView>,
    cat: Seq<ElementView>,
)
    requires
        0 <= i < w.entities.len(),
        step_idle(w.entities[i], table, cat, w.next_id),
    ensures
        spawn_step(w, i, table, cat) == (w, None::<Seq<char>>),
{
}

/// The shape of an error-free pass over the first `i` entities: ids only
/// grow, the unprocessed tail is untouched, and everything processed or
/// appended is idle under the grown id allocator.
proof fn lemma_pass_shape(
    w: WorldView,
    i: int,
    table: Map<VesselId, SimVesselView>,
    cat: Seq<ElementView>,
)
    requires
        0 <= i <= w.entities.len(),
        spawn_pass(w, i, table, cat).1 is None,
    ensures
        ({
            let wi = spawn_pass(w, i, table, cat).0;
            &&& wi.next_id >= w.next_id
            &&& wi.entities.len() >= w.entities.len()
            &&& forall|j: int|
                i <= j < w.entities.len() ==> wi.entities[j] == w.entities[j]
            &&& forall|j: int|
                0 <= j < wi.entities.len() && (j < i || j >= w.entities.len()) ==> step_idle(
                    #[trigger] wi.entities[j],
                    table,
                    cat,
                    wi.next_id,
                )
        }),
    decreases i,
{
    if i > 0 {
        lemma_pass_shape(w, i - 1, table, cat);
        let wp = spawn_pass(w, i - 1, table, cat).0;
        let wi = spawn_pass(w, i, table, cat).0;
        let e = wp.entities[i - 1];
        assert(e == w.entities[i - 1]);
        match e.vessel {
            None => {},
            Some(vid) => {
                if !e.vessel_spawned && table.contains_key(vid) {
                    match resolve_spec(table[vid], cat) {
                        Err(_) => {
                            assert(false);
                        },
                        Ok(rt) => {
                            if wp.next_id + rt.graphics.len() <= u64::MAX {
                                let spawned = spawned_entity(
                                    e,
                                    table[vid].physics_properties,
                                    table[vid].collider,
                                );
                                assert(wi.entities == wp.entities.update(i - 1, spawned)
                                    + part_records(e.id, wp.next_id, rt.graphics));
                                assert forall|j: int|
                                    0 <= j < wi.entities.len() && (j < i || j
                                        >= w.entities.len()) implies step_idle(
                                    #[trigger] wi.entities[j],
                                    table,
                                    cat,
                                    wi.next_id,
                                ) by {
                                    if j < wp.entities.len() {
                                        if j == i - 1 {
                                            assert(wi.entities[j] == spawned);
                                        } else {
                                            assert(wi.entities[j] == wp.entities[j]);
                                            lemma_step_idle_monotone(
                                                wp.entities[j],
                                                table,
                                                cat,
                                                wp.next_id,
                                                wi.next_id,
                                            );
                                        }
                                    } else {
                                        let k = j - wp.entities.len();
                                        assert(wi.entities[j] == part_records(
                                            e.id,
                                            wp.next_id,
                                            rt.graphics,
                                        )[k]);
                                        assert(wi.entities[j].vessel is None);
                                    }
                                }
                            }
                        },
                    }
                }
            },
        }
    }
}

/// A pass over a world of idle entities changes nothing.
proof fn lemma_idle_pass(
    w: WorldView,
    i: int,
    table: Map<VesselId, SimVesselView>,
    cat: Seq<ElementView>,
)
    requires
        0 <= i <= w.entities.len(),
        forall|j: int| 0 <= j < w.entities.len() ==> step_idle(
            #[trigger] w.entities[j],
            table,
            cat,
            w.next_id,
        ),
    ensures
        spawn_pass(w, i, table, cat) == (w, None::<Seq<char>>),
    decreases i,
{
    if i > 0 {
        lemma_idle_pass(w, i - 1, table, cat);
        lemma_idle_step(w, i - 1, table, cat);
    }
}

/// Spawning is idempotent for a whole pass: once an error-free pass has run,
/// running it again changes nothing at all — no duplicate physics or visual
/// components on any entity.
pub proof fn lemma_spawn_pass_idempotent(
    w: WorldView,
    table: Map<VesselId, SimVesselView>,
    cat: Seq<ElementView>,
)
    requires
        spawn_pass(w, w.entities.len() as int, table, cat).1 is None,
    ensures
        ({
            let w1 = spawn_pass(w, w.entities.len() as int, table, cat).0;
            spawn_pass(w1, w1.entities.len() as int, table, cat) == (w1, None::<Seq<char>>)
        }),
{
    let n = w.entities.len() as int;
    let w1 = spawn_pass(w, n, table, cat).0;
    lemma_pass_shape(w, n, table, cat);
    assert forall|j: int| 0 <= j < w1.entities.len() implies step_idle(
        #[trigger] w1.entities[j],
        table,
        cat,
        w1.next_id,
    ) by {
        assert(j < n || j >= w.entities.len());
    }
    lemma_idle_pass(w1, w1.entities.len() as int, table, cat);
}

} // verus!


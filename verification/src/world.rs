//! The modeled entity store.  An entity is an opaque identifier with typed
//! optional component slots; the store allocates ids in increasing order and
//! can despawn an entity together with all its descendants.
//!
//! Ids are handed out strictly increasing, an entity's parent is always
//! spawned before it, and despawning removes exactly the subtree below the
//! despawned entity — the facts the ownership and replication contracts rest
//! on.

use vstd::prelude::*;

use crate::vessel::ColliderPart;
use crate::vessel::Control;
use crate::vessel::Translation;
use crate::vessel::VesselGraphicPart;
use crate::vessel::VesselId;
use crate::vessel::VesselProperties;

verus! {

/// One entity with its component slots.
pub struct EntityRecord {
    /// The entity's identifier, unique within one `World`.
    pub id: u64,
    /// The entity this one is a child of, if any.
    pub parent: Option<u64>,
    /// The declarative "become this vessel" marker.
    pub vessel: Option<VesselId>,
    /// Set once the spawn pipeline has materialized the vessel; gates
    /// re-entry.
    pub vessel_spawned: bool,
    /// Whether the entity is replicated to all clients.
    pub replicated: bool,
    /// Marks a networked player vessel.
    pub multiplayer: bool,
    /// Marks the one entity whose control this process's local input drives.
    pub locally_controlled: bool,
    /// The last applied steering/throttle input.
    pub control: Option<Control>,
    /// Physics coefficients, copied by value from the vessel definition.
    pub properties: Option<VesselProperties>,
    /// The compound collision shape.
    pub collider: Option<Vec<ColliderPart>>,
    /// The renderable payload of a visual part entity.
    pub graphic: Option<VesselGraphicPart>,
    /// Where the entity currently is.
    pub pose: Option<Translation>,
}

/// Mathematical image of an `EntityRecord`.
pub ghost struct EntityView {
    pub id: u64,
    pub parent: Option<u64>,
    pub vessel: Option<VesselId>,
    pub vessel_spawned: bool,
    pub replicated: bool,
    pub multiplayer: bool,
    pub locally_controlled: bool,
    pub control: Option<Control>,
    pub properties: Option<VesselProperties>,
    pub collider: Option<Seq<ColliderPart>>,
    pub graphic: Option<VesselGraphicPart>,
    pub pose: Option<Translation>,
}

impl View for EntityRecord {
    type V = EntityView;

    open spec fn view(&self) -> EntityView {
        EntityView {
            id: self.id,
            parent: self.parent,
            vessel: self.vessel,
            vessel_spawned: self.vessel_spawned,
            replicated: self.replicated,
            multiplayer: self.multiplayer,
            locally_controlled: self.locally_controlled,
            control: self.control,
            properties: self.properties,
            collider: match self.collider {
                Some(ref v) => Some(v@),
                None => None,
            },
            graphic: self.graphic,
            pose: self.pose,
        }
    }
}

impl DeepView for EntityRecord {
    type V = EntityView;

    open spec fn deep_view(&self) -> EntityView {
        self@
    }
}

impl EntityView {
    /// An entity with no components at all.
    pub open spec fn spec_blank(id: u64) -> EntityView {
        EntityView {
            id,
            parent: None,
            vessel: None,
            vessel_spawned: false,
            replicated: false,
            multiplayer: false,
            locally_controlled: false,
            control: None,
            properties: None,
            collider: None,
            graphic: None,
            pose: None,
        }
    }

    /// The same entity under another id.
    pub open spec fn with_id(self, id: u64) -> EntityView {
        EntityView {
            id,
            parent: self.parent,
            vessel: self.vessel,
            vessel_spawned: self.vessel_spawned,
            replicated: self.replicated,
            multiplayer: self.multiplayer,
            locally_controlled: self.locally_controlled,
            control: self.control,
            properties: self.properties,
            collider: self.collider,
            graphic: self.graphic,
            pose: self.pose,
        }
    }
}

impl EntityRecord {
    /// An entity with no components at all; the store assigns the real id on
    /// spawn.
    pub fn blank() -> (r: EntityRecord)
        ensures
            r@ == EntityView::spec_blank(0),
    {
        EntityRecord {
            id: 0,
            parent: None,
            vessel: None,
            vessel_spawned: false,
            replicated: false,
            multiplayer: false,
            locally_controlled: false,
            control: None,
            properties: None,
            collider: None,
            graphic: None,
            pose: None,
        }
    }
}

/// The entity store: records in strictly increasing id order, plus the next
/// id to hand out.
pub struct World {
    pub next_id: u64,
    pub entities: Vec<EntityRecord>,
}

/// Mathematical image of a `World`.
pub ghost struct WorldView {
    pub next_id: u64,
    pub entities: Seq<EntityView>,
}

impl View for World {
    type V = WorldView;

    open spec fn view(&self) -> WorldView {
        WorldView { next_id: self.next_id, entities: self.entities.deep_view() }
    }
}

impl WorldView {
    /// Every id is below the allocator's next id, ids are strictly
    /// increasing, and a parent's id is always below its child's.
    pub open spec fn wf(self) -> bool {
        &&& forall|i: int| 0 <= i < self.entities.len() ==> (#[trigger] self.entities[i]).id
            < self.next_id
        &&& forall|i: int, j: int| 0 <= i < j < self.entities.len() ==> self.entities[i].id
            < self.entities[j].id
        &&& forall|i: int| 0 <= i < self.entities.len() ==> ((#[trigger] self.entities[i]).parent
            matches Some(p) ==> p < self.entities[i].id)
    }

    /// Whether an entity with this id is live.
    pub open spec fn has_entity(self, id: u64) -> bool {
        exists|i: int| 0 <= i < self.entities.len() && (#[trigger] self.entities[i]).id == id
    }

    /// The index of the entity with this id.
    pub open spec fn index_of_id(self, id: u64) -> int {
        choose|i: int| 0 <= i < self.entities.len() && (#[trigger] self.entities[i]).id == id
    }

    /// The live entity with this id.
    pub open spec fn entity(self, id: u64) -> EntityView {
        self.entities[self.index_of_id(id)]
    }
}

/// The ids of `root` and of every descendant of it among `s`, walking the
/// records in order: a record joins when its parent already has.
pub open spec fn subtree_ids(s: Seq<EntityView>, root: u64) -> Set<u64>
    decreases s.len(),
{
    if s.len() == 0 {
        set![root]
    } else {
        let prev = subtree_ids(s.drop_last(), root);
        if s.last().id == root || (s.last().parent matches Some(p) && prev.contains(p)) {
            prev.insert(s.last().id)
        } else {
            prev
        }
    }
}

/// The records of `s` that survive despawning the subtree below `root`, in
/// their original order.
pub open spec fn kept_entities(s: Seq<EntityView>, root: u64) -> Seq<EntityView>
    decreases s.len(),
{
    if s.len() == 0 {
        Seq::empty()
    } else {
        let prev = kept_entities(s.drop_last(), root);
        let l = s.last();
        if l.id == root || (l.parent matches Some(p) && subtree_ids(s.drop_last(), root).contains(
            p,
        )) {
            prev
        } else {
            prev.push(l)
        }
    }
}

/// Growing the walked prefix only grows the subtree.
pub proof fn lemma_subtree_monotone(s: Seq<EntityView>, root: u64, x: u64)
    requires
        subtree_ids(s.drop_last(), root).contains(x),
        s.len() > 0,
    ensures
        subtree_ids(s, root).contains(x),
{
}

/// What the subtree holds: the root, and ids of records whose parent is in
/// the subtree.
pub proof fn lemma_subtree_members(s: Seq<EntityView>, root: u64, x: u64)
    requires
        subtree_ids(s, root).contains(x),
        x != root,
    ensures
        exists|j: int|
            0 <= j < s.len() && (#[trigger] s[j]).id == x && s[j].parent is Some && subtree_ids(
                s,
                root,
            ).contains(s[j].parent->0),
    decreases s.len(),
{
    if s.len() > 0 {
        let prev = subtree_ids(s.drop_last(), root);
        let l = s.last();
        if (l.id == root || (l.parent matches Some(p) && prev.contains(p))) && l.id == x {
            if l.id != root {
                assert(s[s.len() - 1].id == x);
                lemma_subtree_monotone(s, root, l.parent->0);
            } else {
                assert(false);
            }
        } else {
            assert(prev.contains(x));
            lemma_subtree_members(s.drop_last(), root, x);
            let j = choose|j: int|
                0 <= j < s.drop_last().len() && (#[trigger] s.drop_last()[j]).id == x
                    && s.drop_last()[j].parent is Some && subtree_ids(
                    s.drop_last(),
                    root,
                ).contains(s.drop_last()[j].parent->0);
            assert(s[j].id == x);
            lemma_subtree_monotone(s, root, s[j].parent->0);
        }
    }
}

/// The root is always in its own subtree.
pub proof fn lemma_subtree_contains_root(s: Seq<EntityView>, root: u64)
    ensures
        subtree_ids(s, root).contains(root),
    decreases s.len(),
{
    if s.len() > 0 {
        lemma_subtree_contains_root(s.drop_last(), root);
    }
}

/// A direct child of the root is in the root's subtree.
pub proof fn lemma_child_in_subtree(s: Seq<EntityView>, root: u64, j: int)
    requires
        0 <= j < s.len(),
        s[j].parent == Some(root),
    ensures
        subtree_ids(s, root).contains(s[j].id),
    decreases s.len(),
{
    if j == s.len() - 1 {
        lemma_subtree_contains_root(s.drop_last(), root);
    } else {
        assert(s.drop_last()[j] == s[j]);
        lemma_child_in_subtree(s.drop_last(), root, j);
        lemma_subtree_monotone(s, root, s[j].id);
    }
}

/// An entity without a parent is in no subtree but its own.
pub proof fn lemma_parentless_outside_subtree(s: Seq<EntityView>, root: u64, x: u64)
    requires
        x != root,
        forall|i: int, j: int| 0 <= i < j < s.len() ==> s[i].id < s[j].id,
        exists|i: int| 0 <= i < s.len() && (#[trigger] s[i]).id == x && s[i].parent is None,
    ensures
        !subtree_ids(s, root).contains(x),
{
    if subtree_ids(s, root).contains(x) {
        lemma_subtree_members(s, root, x);
        let j = choose|j: int|
            0 <= j < s.len() && (#[trigger] s[j]).id == x && s[j].parent is Some && subtree_ids(
                s,
                root,
            ).contains(s[j].parent->0);
        let i = choose|i: int| 0 <= i < s.len() && (#[trigger] s[i]).id == x && s[i].parent is None;
        if i < j {
            assert(s[i].id < s[j].id);
        } else if j < i {
            assert(s[j].id < s[i].id);
        }
        assert(false);
    }
}

/// What survives a despawn: exactly the records whose id is outside the
/// subtree, unchanged and in order.
pub proof fn lemma_kept_entities(s: Seq<EntityView>, root: u64)
    requires
        forall|i: int, j: int| 0 <= i < j < s.len() ==> s[i].id < s[j].id,
    ensures
        forall|k: int| 0 <= k < kept_entities(s, root).len() ==> exists|j: int|
            0 <= j < s.len() && s[j] == (#[trigger] kept_entities(s, root)[k]),
        forall|k: int| 0 <= k < kept_entities(s, root).len() ==> !subtree_ids(s, root).contains(
            (#[trigger] kept_entities(s, root)[k]).id,
        ),
        forall|j: int|
            0 <= j < s.len() && !subtree_ids(s, root).contains((#[trigger] s[j]).id)
                ==> kept_entities(s, root).contains(s[j]),
    decreases s.len(),
{
    let kept = kept_entities(s, root);
    if s.len() > 0 {
        assert(forall|i: int, j: int|
            0 <= i < j < s.drop_last().len() ==> s.drop_last()[i].id < s.drop_last()[j].id);
        lemma_kept_entities(s.drop_last(), root);
        let prev = kept_entities(s.drop_last(), root);
        let pids = subtree_ids(s.drop_last(), root);
        let l = s.last();
        assert forall|k: int| 0 <= k < kept.len() implies exists|j: int|
            0 <= j < s.len() && s[j] == (#[trigger] kept[k]) by {
            if k < prev.len() {
                assert(prev[k] == kept[k]);
                let j = choose|j: int| 0 <= j < s.drop_last().len() && s.drop_last()[j] == prev[k];
                assert(s[j] == kept[k]);
            } else {
                assert(kept[k] == l);
                assert(s[s.len() - 1] == l);
            }
        }
        assert forall|k: int| 0 <= k < kept.len() implies !subtree_ids(s, root).contains(
            (#[trigger] kept[k]).id,
        ) by {
            let j = choose|j: int| 0 <= j < s.len() && s[j] == kept[k];
            if k < prev.len() {
                assert(prev[k] == kept[k]);
                assert(!pids.contains(kept[k].id));
                if subtree_ids(s, root).contains(kept[k].id) {
                    // the only candidate newly in the subtree is the last record
                    assert(kept[k].id == l.id);
                    let j2 = choose|j2: int|
                        0 <= j2 < s.drop_last().len() && s.drop_last()[j2] == prev[k];
                    assert(s[j2].id < l.id);
                    assert(false);
                }
            } else {
                assert(kept[k] == l);
                assert(!(l.id == root || (l.parent matches Some(p) && pids.contains(p))));
                if subtree_ids(s, root).contains(l.id) {
                    assert(pids.contains(l.id));
                    lemma_subtree_members(s.drop_last(), root, l.id);
                    let j3 = choose|j3: int|
                        0 <= j3 < s.drop_last().len() && (#[trigger] s.drop_last()[j3]).id == l.id
                            && s.drop_last()[j3].parent is Some && subtree_ids(
                            s.drop_last(),
                            root,
                        ).contains(s.drop_last()[j3].parent->0);
                    assert(s[j3].id < l.id);
                    assert(false);
                }
            }
        }
        assert forall|j: int|
            0 <= j < s.len() && !subtree_ids(s, root).contains((#[trigger] s[j]).id) implies kept
            .contains(s[j]) by {
            if j < s.len() - 1 {
                assert(s.drop_last()[j] == s[j]);
                if pids.contains(s[j].id) {
                    lemma_subtree_monotone(s, root, s[j].id);
                    assert(false);
                }
                assert(prev.contains(s.drop_last()[j]));
                let k = choose|k: int| 0 <= k < prev.len() && prev[k] == s[j];
                assert(kept[k] == s[j]);
            } else {
                assert(s[j] == l);
                if l.id == root || (l.parent matches Some(p) && pids.contains(p)) {
                    assert(subtree_ids(s, root).contains(l.id));
                    assert(false);
                }
                assert(kept[kept.len() - 1] == l);
            }
        }
    }
}

/// Despawn keeps the id order strictly increasing.
pub proof fn lemma_kept_sorted_pair(s: Seq<EntityView>, root: u64, a: int, b: int)
    requires
        forall|i: int, j: int| 0 <= i < j < s.len() ==> s[i].id < s[j].id,
        0 <= a < b < kept_entities(s, root).len(),
    ensures
        kept_entities(s, root)[a].id < kept_entities(s, root)[b].id,
    decreases s.len(),
{
    let kept = kept_entities(s, root);
    if s.len() > 0 {
        assert(forall|i: int, j: int|
            0 <= i < j < s.drop_last().len() ==> s.drop_last()[i].id < s.drop_last()[j].id);
        let prev = kept_entities(s.drop_last(), root);
        let l = s.last();
        if b < prev.len() {
            lemma_kept_sorted_pair(s.drop_last(), root, a, b);
        } else if kept.len() > prev.len() {
            // the last record was kept; everything before it has a smaller id
            assert(kept[b] == l);
            assert(prev[a] == kept[a]);
            lemma_kept_entities(s.drop_last(), root);
            let j = choose|j: int| 0 <= j < s.drop_last().len() && s.drop_last()[j] == prev[a];
            assert(s[j] == kept[a]);
            assert(s[j].id < s[s.len() - 1].id);
        }
    }
}

/// Whether `v` holds `x`.
fn vec_holds(v: &Vec<u64>, x: u64) -> (r: bool)
    ensures
        r == v@.contains(x),
{
    let n = v.len();
    let mut i: usize = 0;
    while i < n
        invariant
            n == v.len(),
            0 <= i <= n,
            forall|k: int| 0 <= k < i ==> v@[k] != x,
        decreases n - i,
    {
        if v[i] == x {
            return true;
        }
        i = i + 1;
    }
    false
}

impl World {
    /// An empty store.
    pub fn new() -> (r: World)
        ensures
            r@.entities =~= Seq::<EntityView>::empty(),
            r@.next_id == 1,
            r@.wf(),
    {
        World { next_id: 1, entities: Vec::new() }
    }

    /// The index of the entity with this id, if it is live.
    pub fn index_of(&self, id: u64) -> (r: Option<usize>)
        ensures
            match r {
                Some(i) => i < self@.entities.len() && self@.entities[i as int].id == id,
                None => !self@.has_entity(id),
            },
    {
        let n = self.entities.len();
        let mut i: usize = 0;
        while i < n
            invariant
                n == self.entities.len(),
                0 <= i <= n,
                forall|k: int| 0 <= k < i ==> (#[trigger] self@.entities[k]).id != id,
            decreases n - i,
        {
            proof {
                assert(self@.entities[i as int] == self.entities@[i as int]@);
            }
            if self.entities[i].id == id {
                return Some(i);
            }
            i = i + 1;
        }
        None
    }

    /// Spawns a new entity from the given record, assigning it the next id.
    pub fn spawn(&mut self, rec: EntityRecord) -> (id: u64)
        requires
            old(self)@.wf(),
            old(self).next_id < u64::MAX,
            rec.parent matches Some(p) ==> p < old(self).next_id,
        ensures
            id == old(self)@.next_id,
            final(self)@.next_id == old(self)@.next_id + 1,
            final(self)@.entities =~= old(self)@.entities.push(rec@.with_id(id)),
            final(self)@.wf(),
    {
        let id = self.next_id;
        let mut rec = rec;
        rec.id = id;
        self.next_id = self.next_id + 1;
        self.entities.push(rec);
        proof {
            let s0 = old(self)@.entities;
            let s1 = self@.entities;
            assert forall|k: int| 0 <= k < s1.len() implies s1[k] == (if k == s0.len() {
                rec@
            } else {
                s0[k]
            }) by {
                assert(s1[k] == self.entities@[k]@);
                if k < s0.len() {
                    assert(s0[k] == old(self).entities@[k]@);
                }
            }
            assert(s1 =~= s0.push(rec@));
        }
        id
    }

    /// Despawns the entity with id `root` and, transitively, every entity
    /// parented below it.  A no-op but for the subtree: every other record
    /// survives unchanged, in order.
    pub fn despawn_subtree(&mut self, root: u64)
        requires
            old(self)@.wf(),
        ensures
            final(self)@.next_id == old(self)@.next_id,
            final(self)@.entities == kept_entities(old(self)@.entities, root),
            final(self)@.wf(),
    {
        let ghost s0 = self@.entities;
        let mut todo: Vec<EntityRecord> = Vec::new();
        core::mem::swap(&mut self.entities, &mut todo);
        let mut removed: Vec<u64> = Vec::new();
        removed.push(root);
        let ghost total = s0.len();
        proof {
            assert(todo.deep_view() =~= s0);
            assert(s0.take(0) =~= Seq::<EntityView>::empty());
            assert(subtree_ids(s0.take(0), root) =~= set![root]);
            assert forall|x: u64| removed@.contains(x) <==> subtree_ids(
                s0.take(0),
                root,
            ).contains(x) by {
                if removed@.contains(x) {
                } else {
                    if x == root {
                        assert(removed@[0] == root);
                        assert(removed@.contains(root));
                    }
                }
            }
            assert(kept_entities(s0.take(0), root) =~= Seq::<EntityView>::empty());
            assert(self.entities.deep_view() =~= kept_entities(s0.take(0), root));
        }
        let ghost i: int = 0;
        while todo.len() > 0
            invariant
                0 <= i <= total,
                total == s0.len(),
                todo.deep_view() =~= s0.skip(i),
                todo.len() == total - i,
                self.entities.deep_view() =~= kept_entities(s0.take(i), root),
                forall|x: u64| removed@.contains(x) <==> subtree_ids(s0.take(i), root).contains(x),
                self.next_id == old(self).next_id,
            decreases todo.len(),
        {
            let ghost tq = todo@;
            let e = todo.remove(0);
            proof {
                assert(tq[0].deep_view() == s0.skip(i)[0]);
                assert(e@ == s0[i]);
                assert forall|k: int| 0 <= k < todo@.len() implies todo.deep_view()[k] == s0.skip(
                    i + 1,
                )[k] by {
                    assert(todo.deep_view()[k] == todo@[k]@);
                    assert(todo@[k] == tq[k + 1]);
                    assert(tq[k + 1]@ == s0.skip(i)[k + 1]);
                    assert(s0.skip(i)[k + 1] == s0.skip(i + 1)[k]);
                }
                assert(todo.deep_view() =~= s0.skip(i + 1));
                assert(s0.take(i + 1).drop_last() =~= s0.take(i));
                assert(s0.take(i + 1).last() == s0[i]);
            }
            let drop_it = e.id == root || (match e.parent {
                Some(p) => vec_holds(&removed, p),
                None => false,
            });
            if drop_it {
                let ghost rq = removed@;
                removed.push(e.id);
                proof {
                    let pids = subtree_ids(s0.take(i), root);
                    assert(subtree_ids(s0.take(i + 1), root) == pids.insert(e@.id));
                    assert forall|x: u64| removed@.contains(x) <==> subtree_ids(
                        s0.take(i + 1),
                        root,
                    ).contains(x) by {
                        assert(forall|k: int|
                            0 <= k < removed@.len() ==> removed@[k] == (if k < rq.len() {
                                rq[k]
                            } else {
                                e.id
                            }));
                        if removed@.contains(x) {
                            let k = choose|k: int| 0 <= k < removed@.len() && removed@[k] == x;
                            if k < rq.len() {
                                assert(rq.contains(x));
                            }
                        }
                        if subtree_ids(s0.take(i + 1), root).contains(x) {
                            if x == e@.id {
                                assert(removed@[removed@.len() - 1] == x);
                            } else {
                                assert(pids.contains(x));
                                assert(rq.contains(x));
                                let k = choose|k: int| 0 <= k < rq.len() && rq[k] == x;
                                assert(removed@[k] == x);
                            }
                        }
                    }
                    assert(self.entities.deep_view() =~= kept_entities(s0.take(i + 1), root));
                }
            } else {
                let ghost prevs = kept_entities(s0.take(i), root);
                self.entities.push(e);
                proof {
                    let pids = subtree_ids(s0.take(i), root);
                    assert(!(e@.id == root || (e@.parent matches Some(p) && pids.contains(p))));
                    assert(subtree_ids(s0.take(i + 1), root) == pids);
                    let s1 = self.entities.deep_view();
                    assert forall|k: int| 0 <= k < s1.len() implies s1[k] == (if k == prevs.len() {
                        e@
                    } else {
                        prevs[k]
                    }) by {
                        assert(s1[k] == self.entities@[k]@);
                    }
                    assert(s1 =~= prevs.push(e@));
                    assert(s1 =~= kept_entities(s0.take(i + 1), root));
                }
            }
            proof {
                i = i + 1;
            }
        }
        proof {
            assert(i == total);
            assert(s0.take(i) =~= s0);
            assert(self.entities.deep_view() =~= kept_entities(s0, root));
            assert(old(self)@.wf());
            lemma_kept_entities(s0, root);
            let kept = kept_entities(s0, root);
            assert forall|k: int| 0 <= k < kept.len() implies (#[trigger] kept[k]).id
                < self.next_id && (kept[k].parent matches Some(p) ==> p < kept[k].id) by {
                let j = choose|j: int| 0 <= j < s0.len() && s0[j] == kept[k];
                assert(s0[j].id < old(self)@.next_id);
            }
            assert forall|a: int, b: int| 0 <= a < b < kept.len() implies kept[a].id
                < kept[b].id by {
                lemma_kept_sorted_pair(s0, root, a, b);
            }
        }
    }
}

} // verus!

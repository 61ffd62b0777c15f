//! The shared vessel asset table: vessel definitions keyed by their
//! `VesselId`.  Definitions are immutable once created, so re-inserting under
//! the same id is harmless; insertion otherwise follows last-write-wins.

use vstd::prelude::*;

use crate::vessel::SimVessel;
use crate::vessel::SimVesselView;
use crate::vessel::VesselId;

verus! {

/// One table entry: a vessel definition under its id.
pub struct TableEntry {
    pub id: VesselId,
    pub vessel: SimVessel,
}

/// Mathematical image of a `TableEntry`.
pub ghost struct TableEntryView {
    pub id: VesselId,
    pub vessel: SimVesselView,
}

impl View for TableEntry {
    type V = TableEntryView;

    open spec fn view(&self) -> TableEntryView {
        TableEntryView { id: self.id, vessel: self.vessel@ }
    }
}

impl DeepView for TableEntry {
    type V = TableEntryView;

    open spec fn deep_view(&self) -> TableEntryView {
        self@
    }
}

/// The map that a sequence of entries stands for; later entries win.
pub open spec fn map_of(s: Seq<TableEntryView>) -> Map<VesselId, SimVesselView>
    decreases s.len(),
{
    if s.len() == 0 {
        Map::empty()
    } else {
        map_of(s.drop_last()).insert(s.last().id, s.last().vessel)
    }
}

/// The process-wide asset table of vessel definitions.
pub struct VesselTable {
    pub entries: Vec<TableEntry>,
}

impl View for VesselTable {
    type V = Map<VesselId, SimVesselView>;

    open spec fn view(&self) -> Map<VesselId, SimVesselView> {
        map_of(self.entries.deep_view())
    }
}

/// A key is in the map exactly when an entry carries it.
pub proof fn lemma_map_of_contains(s: Seq<TableEntryView>, id: VesselId)
    ensures
        map_of(s).contains_key(id) <==> exists|k: int| 0 <= k < s.len() && s[k].id == id,
    decreases s.len(),
{
    if s.len() > 0 {
        lemma_map_of_contains(s.drop_last(), id);
        if map_of(s).contains_key(id) {
            if s.last().id != id {
                let k = choose|k: int| 0 <= k < s.drop_last().len() && s.drop_last()[k].id == id;
                assert(s[k].id == id);
            }
        }
        if exists|k: int| 0 <= k < s.len() && s[k].id == id {
            let k = choose|k: int| 0 <= k < s.len() && s[k].id == id;
            if k < s.len() - 1 {
                assert(s.drop_last()[k].id == id);
            }
        }
    }
}

/// With unique ids, each entry is what the map holds under its id.
pub proof fn lemma_map_of_index(s: Seq<TableEntryView>, i: int)
    requires
        entry_ids_unique(s),
        0 <= i < s.len(),
    ensures
        map_of(s).contains_key(s[i].id),
        map_of(s)[s[i].id] == s[i].vessel,
    decreases s.len(),
{
    if i == s.len() - 1 {
    } else {
        assert(entry_ids_unique(s.drop_last()));
        assert(s.drop_last()[i] == s[i]);
        lemma_map_of_index(s.drop_last(), i);
        assert(s[i].id != s.last().id);
    }
}

/// No two entries carry the same id.
pub open spec fn entry_ids_unique(s: Seq<TableEntryView>) -> bool {
    forall|i: int, j: int| 0 <= i < j < s.len() ==> s[i].id != s[j].id
}

impl VesselTable {
    /// Entry ids are unique, so the entry list and the map carry the same
    /// information.
    pub open spec fn wf(&self) -> bool {
        entry_ids_unique(self.entries.deep_view())
    }

    /// The empty table.
    pub fn new() -> (r: VesselTable)
        ensures
            r@ =~= Map::<VesselId, SimVesselView>::empty(),
            r.wf(),
    {
        VesselTable { entries: Vec::new() }
    }

    /// The definition stored under `id`, if any.
    pub fn get(&self, id: VesselId) -> (r: Option<&SimVessel>)
        requires
            self.wf(),
        ensures
            match r {
                Some(v) => self@.contains_key(id) && self@[id] == v@,
                None => !self@.contains_key(id),
            },
    {
        let ghost s = self.entries.deep_view();
        let n = self.entries.len();
        let mut i: usize = 0;
        while i < n
            invariant
                n == self.entries.len(),
                s == self.entries.deep_view(),
                entry_ids_unique(s),
                0 <= i <= n,
                forall|k: int| 0 <= k < i ==> s[k].id != id,
            decreases n - i,
        {
            proof {
                assert(s[i as int] == self.entries@[i as int]@);
            }
            if self.entries[i].id == id {
                proof {
                    lemma_map_of_index(s, i as int);
                }
                return Some(&self.entries[i].vessel);
            }
            i = i + 1;
        }
        proof {
            lemma_map_of_contains(s, id);
        }
        None
    }

    /// Whether a definition is stored under `id`.
    pub fn contains(&self, id: VesselId) -> (r: bool)
        requires
            self.wf(),
        ensures
            r == self@.contains_key(id),
    {
        self.get(id).is_some()
    }

    /// Stores `vessel` under `id`, replacing what was there.  Re-inserting a
    /// definition under its id is harmless, definitions being immutable.
    pub fn insert(&mut self, id: VesselId, vessel: SimVessel)
        requires
            old(self).wf(),
        ensures
            final(self)@ == old(self)@.insert(id, vessel@),
            final(self).wf(),
    {
        let ghost s0 = self.entries.deep_view();
        let n = self.entries.len();
        let mut i: usize = 0;
        while i < n
            invariant
                n == self.entries.len(),
                s0 == self.entries.deep_view(),
                entry_ids_unique(s0),
                *self == *old(self),
                0 <= i <= n,
                forall|k: int| 0 <= k < i ==> s0[k].id != id,
            decreases n - i,
        {
            proof {
                assert(s0[i as int] == self.entries@[i as int]@);
            }
            if self.entries[i].id == id {
                self.entries[i] = TableEntry { id, vessel };
                proof {
                    let s1 = self.entries.deep_view();
                    assert forall|k: int| 0 <= k < s1.len() implies s1[k] == (if k == i as int {
                        TableEntryView { id, vessel: vessel@ }
                    } else {
                        s0[k]
                    }) by {
                        assert(s1[k] == self.entries@[k]@);
                    }
                    assert(s1 =~= s0.update(
                        i as int,
                        TableEntryView { id, vessel: vessel@ },
                    ));
                    assert(entry_ids_unique(s0));
                    lemma_map_of_update(s0, i as int, vessel@);
                    assert(entry_ids_unique(s1));
                }
                return ;
            }
            i = i + 1;
        }
        self.entries.push(TableEntry { id, vessel });
        proof {
            let s1 = self.entries.deep_view();
            assert forall|k: int| 0 <= k < s1.len() implies s1[k] == (if k == s0.len() {
                TableEntryView { id, vessel: vessel@ }
            } else {
                s0[k]
            }) by {
                assert(s1[k] == self.entries@[k]@);
            }
            assert(s1 =~= s0.push(TableEntryView { id, vessel: vessel@ }));
            assert(s1.drop_last() =~= s0);
            lemma_map_of_contains(s0, id);
            assert(!map_of(s0).contains_key(id));
            assert(entry_ids_unique(s1));
        }
    }
}

/// Overwriting the entry that holds `id` updates the map at `id` alone.
proof fn lemma_map_of_update(s: Seq<TableEntryView>, i: int, vessel: SimVesselView)
    requires
        entry_ids_unique(s),
        0 <= i < s.len(),
    ensures
        map_of(s.update(i, TableEntryView { id: s[i].id, vessel })) == map_of(s).insert(
            s[i].id,
            vessel,
        ),
    decreases s.len(),
{
    let id = s[i].id;
    let e = TableEntryView { id, vessel };
    let s1 = s.update(i, e);
    if i == s.len() - 1 {
        assert(s1.drop_last() =~= s.drop_last());
        assert(s1.last() == e);
    } else {
        assert(s1.last() == s.last());
        assert(s1.drop_last() =~= s.drop_last().update(i, e));
        assert(entry_ids_unique(s.drop_last()));
        assert(s.drop_last()[i] == s[i]);
        lemma_map_of_update(s.drop_last(), i, vessel);
        assert(s.last().id != id);
        assert(map_of(s.drop_last()).insert(id, vessel).insert(s.last().id, s.last().vessel)
            =~= map_of(s.drop_last()).insert(s.last().id, s.last().vessel).insert(id, vessel));
    }
}

} // verus!

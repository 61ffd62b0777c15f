//! The server-side ownership map: which network client controls which
//! entity.  The map is injective — no two clients ever own the same entity —
//! and an entry is removed exactly when its client disconnects.

use vstd::prelude::*;

verus! {

/// One ownership entry: a client and the entity it controls.
#[derive(Clone, Copy, Debug, PartialEq, Eq, Structural)]
pub struct OwnEntry {
    pub client: u64,
    pub entity: u64,
}

/// The map that a sequence of entries stands for; later entries win.
pub open spec fn own_map_of(s: Seq<OwnEntry>) -> Map<u64, u64>
    decreases s.len(),
{
    if s.len() == 0 {
        Map::empty()
    } else {
        own_map_of(s.drop_last()).insert(s.last().client, s.last().entity)
    }
}

/// A client is in the map exactly when an entry carries it.
pub proof fn lemma_own_map_contains(s: Seq<OwnEntry>, client: u64)
    ensures
        own_map_of(s).contains_key(client) <==> exists|k: int|
            0 <= k < s.len() && s[k].client == client,
    decreases s.len(),
{
    if s.len() > 0 {
        lemma_own_map_contains(s.drop_last(), client);
        if own_map_of(s).contains_key(client) {
            if s.last().client != client {
                let k = choose|k: int|
                    0 <= k < s.drop_last().len() && s.drop_last()[k].client == client;
                assert(s[k].client == client);
            }
        }
        if exists|k: int| 0 <= k < s.len() && s[k].client == client {
            let k = choose|k: int| 0 <= k < s.len() && s[k].client == client;
            if k < s.len() - 1 {
                assert(s.drop_last()[k].client == client);
            }
        }
    }
}

/// With unique clients, each entry is what the map holds under its client.
pub proof fn lemma_own_map_index(s: Seq<OwnEntry>, i: int)
    requires
        own_clients_unique(s),
        0 <= i < s.len(),
    ensures
        own_map_of(s).contains_key(s[i].client),
        own_map_of(s)[s[i].client] == s[i].entity,
    decreases s.len(),
{
    if i < s.len() - 1 {
        assert(own_clients_unique(s.drop_last()));
        assert(s.drop_last()[i] == s[i]);
        lemma_own_map_index(s.drop_last(), i);
        assert(s[i].client != s.last().client);
    }
}

/// Every value of the map is the entity of some entry.
pub proof fn lemma_own_map_values(s: Seq<OwnEntry>, client: u64)
    requires
        own_map_of(s).contains_key(client),
    ensures
        exists|k: int| 0 <= k < s.len() && s[k].client == client && s[k].entity == own_map_of(
            s,
        )[client],
    decreases s.len(),
{
    if s.len() > 0 {
        if s.last().client == client {
            assert(s[s.len() - 1].client == client);
            assert(s[s.len() - 1].entity == own_map_of(s)[client]);
        } else {
            lemma_own_map_values(s.drop_last(), client);
            let k = choose|k: int|
                0 <= k < s.drop_last().len() && s.drop_last()[k].client == client
                    && s.drop_last()[k].entity == own_map_of(s.drop_last())[client];
            assert(s[k].client == client && s[k].entity == own_map_of(s)[client]);
        }
    }
}

/// No two entries carry the same client.
pub open spec fn own_clients_unique(s: Seq<OwnEntry>) -> bool {
    forall|i: int, j: int| 0 <= i < j < s.len() ==> s[i].client != s[j].client
}

/// No two entries carry the same entity.
pub open spec fn own_entities_unique(s: Seq<OwnEntry>) -> bool {
    forall|i: int, j: int| 0 <= i < j < s.len() ==> s[i].entity != s[j].entity
}

/// The server-side bidirectional association between network clients and the
/// entity each controls.
pub struct ClientOwnedEntities {
    pub entries: Vec<OwnEntry>,
}

impl View for ClientOwnedEntities {
    type V = Map<u64, u64>;

    open spec fn view(&self) -> Map<u64, u64> {
        own_map_of(self.entries@)
    }
}

impl ClientOwnedEntities {
    /// Clients are unique, so the entry list and the map carry the same
    /// information; entities are unique, so the map is injective.
    pub open spec fn wf(&self) -> bool {
        own_clients_unique(self.entries@) && own_entities_unique(self.entries@)
    }

    /// Whether some client owns `entity`.
    pub open spec fn spec_owns(&self, entity: u64) -> bool {
        exists|c: u64| self@.contains_key(c) && self@[c] == entity
    }

    /// The empty map: no client owns anything.
    pub fn new() -> (r: ClientOwnedEntities)
        ensures
            r@ =~= Map::<u64, u64>::empty(),
            r.entries@ =~= Seq::<OwnEntry>::empty(),
            r.wf(),
    {
        ClientOwnedEntities { entries: Vec::new() }
    }

    /// The entity `client` controls, if any.
    pub fn get(&self, client: u64) -> (r: Option<u64>)
        requires
            self.wf(),
        ensures
            match r {
                Some(e) => self@.contains_key(client) && self@[client] == e,
                None => !self@.contains_key(client),
            },
    {
        let ghost s = self.entries@;
        let n = self.entries.len();
        let mut i: usize = 0;
        while i < n
            invariant
                n == self.entries.len(),
                s == self.entries@,
                own_clients_unique(s),
                0 <= i <= n,
                forall|k: int| 0 <= k < i ==> s[k].client != client,
            decreases n - i,
        {
            if self.entries[i].client == client {
                proof {
                    lemma_own_map_index(s, i as int);
                }
                return Some(self.entries[i].entity);
            }
            i = i + 1;
        }
        proof {
            lemma_own_map_contains(s, client);
        }
        None
    }

    /// Records that `client` controls `entity`.  The entity must be owned by
    /// nobody yet — the caller hands in a freshly spawned entity — which
    /// keeps the map injective.
    pub fn insert(&mut self, client: u64, entity: u64)
        requires
            old(self).wf(),
            forall|k: int| 0 <= k < old(self).entries@.len() ==> old(self).entries@[k].entity
                != entity,
        ensures
            final(self)@ == old(self)@.insert(client, entity),
            final(self).wf(),
            forall|k: int| 0 <= k < final(self).entries@.len() ==> {
                let e = (#[trigger] final(self).entries@[k]).entity;
                e == entity || exists|j: int|
                    0 <= j < old(self).entries@.len() && old(self).entries@[j].entity == e
            },
    {
        let ghost s0 = self.entries@;
        let n = self.entries.len();
        let mut i: usize = 0;
        while i < n
            invariant
                n == self.entries.len(),
                s0 == self.entries@,
                own_clients_unique(s0),
                own_entities_unique(s0),
                forall|k: int| 0 <= k < s0.len() ==> s0[k].entity != entity,
                *self == *old(self),
                0 <= i <= n,
                forall|k: int| 0 <= k < i ==> s0[k].client != client,
            decreases n - i,
        {
            if self.entries[i].client == client {
                self.entries[i] = OwnEntry { client, entity };
                proof {
                    let s1 = self.entries@;
                    assert(s1 =~= s0.update(i as int, OwnEntry { client, entity }));
                    lemma_own_map_update(s0, i as int, entity);
                    assert(own_clients_unique(s1));
                    assert(own_entities_unique(s1));
                }
                return ;
            }
            i = i + 1;
        }
        self.entries.push(OwnEntry { client, entity });
        proof {
            let s1 = self.entries@;
            assert(s1.drop_last() =~= s0);
            lemma_own_map_contains(s0, client);
        }
    }

    /// Removes `client`'s entry, handing back the entity it controlled.
    /// Removal of an absent client is a no-op: disconnecting before
    /// registration completed is legal.
    pub fn remove(&mut self, client: u64) -> (r: Option<u64>)
        requires
            old(self).wf(),
        ensures
            final(self)@ == old(self)@.remove(client),
            final(self).wf(),
            match r {
                Some(e) => old(self)@.contains_key(client) && old(self)@[client] == e,
                None => !old(self)@.contains_key(client),
            },
            forall|k: int| 0 <= k < final(self).entries@.len() ==> exists|j: int|
                0 <= j < old(self).entries@.len() && old(self).entries@[j] == (
                #[trigger] final(self).entries@[k]),
    {
        let ghost s0 = self.entries@;
        let n = self.entries.len();
        let mut i: usize = 0;
        while i < n
            invariant
                n == self.entries.len(),
                s0 == self.entries@,
                own_clients_unique(s0),
                own_entities_unique(s0),
                *self == *old(self),
                0 <= i <= n,
                forall|k: int| 0 <= k < i ==> s0[k].client != client,
            decreases n - i,
        {
            if self.entries[i].client == client {
                let entity = self.entries[i].entity;
                self.entries.remove(i);
                proof {
                    let s1 = self.entries@;
                    assert(s1 =~= s0.remove(i as int));
                    lemma_own_map_index(s0, i as int);
                    lemma_own_map_remove(s0, i as int);
                    assert forall|k: int| 0 <= k < s1.len() implies exists|j: int|
                        0 <= j < s0.len() && s0[j] == (#[trigger] s1[k]) by {
                        if k < i {
                            assert(s0[k] == s1[k]);
                        } else {
                            assert(s0[k + 1] == s1[k]);
                        }
                    }
                    assert forall|a: int, b: int| 0 <= a < b < s1.len() implies (#[trigger] s1[a]).client
                        != (#[trigger] s1[b]).client && s1[a].entity != s1[b].entity by {
                        let a0: int = if a < i { a } else { a + 1 };
                        let b0: int = if b < i { b } else { b + 1 };
                        assert(s1[a] == s0[a0]);
                        assert(s1[b] == s0[b0]);
                    }
                }
                return Some(entity);
            }
            i = i + 1;
        }
        proof {
            lemma_own_map_contains(s0, client);
            assert(self@.remove(client) =~= self@);
        }
        None
    }
}

/// Overwriting the entry that holds `client` updates the map there alone.
proof fn lemma_own_map_update(s: Seq<OwnEntry>, i: int, entity: u64)
    requires
        own_clients_unique(s),
        0 <= i < s.len(),
    ensures
        own_map_of(s.update(i, OwnEntry { client: s[i].client, entity })) == own_map_of(s).insert(
            s[i].client,
            entity,
        ),
    decreases s.len(),
{
    let client = s[i].client;
    let e = OwnEntry { client, entity };
    let s1 = s.update(i, e);
    if i == s.len() - 1 {
        assert(s1.drop_last() =~= s.drop_last());
        assert(s1.last() == e);
    } else {
        assert(s1.last() == s.last());
        assert(s1.drop_last() =~= s.drop_last().update(i, e));
        assert(own_clients_unique(s.drop_last()));
        assert(s.drop_last()[i] == s[i]);
        lemma_own_map_update(s.drop_last(), i, entity);
        assert(s.last().client != client);
        assert(own_map_of(s.drop_last()).insert(client, entity).insert(
            s.last().client,
            s.last().entity,
        ) =~= own_map_of(s.drop_last()).insert(s.last().client, s.last().entity).insert(
            client,
            entity,
        ));
    }
}

/// Dropping the entry that holds a client removes it from the map.
proof fn lemma_own_map_remove(s: Seq<OwnEntry>, i: int)
    requires
        own_clients_unique(s),
        0 <= i < s.len(),
    ensures
        own_map_of(s.remove(i)) == own_map_of(s).remove(s[i].client),
    decreases s.len(),
{
    let client = s[i].client;
    let s1 = s.remove(i);
    if i == s.len() - 1 {
        assert(s1 =~= s.drop_last());
        lemma_own_map_contains(s.drop_last(), client);
        assert(!own_map_of(s.drop_last()).contains_key(client));
        assert(own_map_of(s.drop_last()) =~= own_map_of(s).remove(client));
    } else {
        assert(s1.last() == s.last());
        assert(s1.drop_last() =~= s.drop_last().remove(i));
        assert(own_clients_unique(s.drop_last()));
        assert(s.drop_last()[i] == s[i]);
        lemma_own_map_remove(s.drop_last(), i);
        assert(s.last().client != client);
        assert(own_map_of(s.drop_last()).remove(client).insert(s.last().client, s.last().entity)
            =~= own_map_of(s.drop_last()).insert(s.last().client, s.last().entity).remove(client));
    }
}

/// The ownership map is injective: no two clients ever control the same
/// entity, so removing one client's entry can never touch another's entity.
pub proof fn lemma_ownership_exclusive(m: &ClientOwnedEntities, c1: u64, c2: u64)
    requires
        m.wf(),
        m@.contains_key(c1),
        m@.contains_key(c2),
        c1 != c2,
    ensures
        m@[c1] != m@[c2],
{
    lemma_own_map_values(m.entries@, c1);
    lemma_own_map_values(m.entries@, c2);
    let k1 = choose|k: int|
        0 <= k < m.entries@.len() && m.entries@[k].client == c1 && m.entries@[k].entity
            == m@[c1];
    let k2 = choose|k: int|
        0 <= k < m.entries@.len() && m.entries@[k].client == c2 && m.entries@[k].entity
            == m@[c2];
    assert(k1 != k2);
}

} // verus!

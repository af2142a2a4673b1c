//! Stores and groups in the registry: on which nodes they live.

use vstd::prelude::*;

use crate::console::config::{
    ConsoleConfig, GroupEntry, GroupRecord, NodeId, Registry, ReplicaEntry, StoreEntry, StoreRecord,
};
#[allow(unused_imports)]
use crate::console::config;
#[allow(unused_imports)]
use crate::lists;
#[allow(unused_imports)]
use crate::ordered;
use crate::ordered::{collect_sorted, stable_sort};
#[allow(unused_imports)]
use crate::ordered::HasKey;

verus! {

/// `s` with the first record of the store `rec.store_id` replaced by `rec`,
/// or `rec` appended where there is none.
pub open spec fn with_store(s: Seq<StoreRecord>, rec: StoreRecord) -> Seq<StoreRecord> {
    match lists::first_index(s, |x: StoreRecord| x.store_id == rec.store_id) {
        Some(i) => s.update(i, rec),
        None => s.push(rec),
    }
}

/// `s` with the first record of the group of `rec` replaced by `rec`, or
/// `rec` appended where there is none.
pub open spec fn with_group(s: Seq<GroupRecord>, rec: GroupRecord) -> Seq<GroupRecord> {
    match lists::first_index(
        s,
        |x: GroupRecord| x.store_id == rec.store_id && x.group_id == rec.group_id,
    ) {
        Some(i) => s.update(i, rec),
        None => s.push(rec),
    }
}

/// The replica list that results from adding `r`: the first entry with its
/// id replaced, or `r` appended and the list sorted.
pub open spec fn replica_added(s: Seq<ReplicaEntry>, r: ReplicaEntry, t: Seq<ReplicaEntry>) -> bool {
    match lists::first_index(s, |x: ReplicaEntry| x.replica_id == r.replica_id) {
        Some(i) => t == s.update(i, r),
        None => ordered::is_stable_sort(s.push(r), t),
    }
}

/// The replicas of `g` that are not on node `node_id`.
pub open spec fn group_without_node(g: GroupRecord, node_id: NodeId) -> GroupRecord {
    GroupRecord { replicas: g.replicas.filter(|r: ReplicaEntry| r.node_id != node_id), ..g }
}

/// Holds of every node but `node_id`.
pub open spec fn other_than(node_id: NodeId) -> spec_fn(NodeId) -> bool {
    |n: NodeId| n != node_id
}

/// The nodes of `s` other than `node_id`.
pub open spec fn store_without_node(s: StoreRecord, node_id: NodeId) -> StoreRecord {
    StoreRecord { nodes: s.nodes.filter(other_than(node_id)), ..s }
}

proof fn lemma_with_store_unique(s: Seq<StoreRecord>, rec: StoreRecord)
    requires
        ordered::unique_keys(s),
    ensures
        ordered::unique_keys(with_store(s, rec)),
{
    let p = |x: StoreRecord| x.store_id == rec.store_id;
    lists::lemma_first_index(s, p);
    match lists::first_index(s, p) {
        Some(i) => {
            assert(s[i].key() =~= rec.key());
            ordered::lemma_update_unique(s, i, rec);
        },
        None => {
            assert forall|i: int| 0 <= i < s.len() implies (#[trigger] s[i]).key() != rec.key() by {
                assert(s[i].key()[0] != rec.key()[0]);
            }
            ordered::lemma_push_unique(s, rec);
        },
    }
}

proof fn lemma_with_group_unique(s: Seq<GroupRecord>, rec: GroupRecord)
    requires
        ordered::unique_keys(s),
    ensures
        ordered::unique_keys(with_group(s, rec)),
{
    let p = |x: GroupRecord| x.store_id == rec.store_id && x.group_id == rec.group_id;
    lists::lemma_first_index(s, p);
    match lists::first_index(s, p) {
        Some(i) => {
            assert(s[i].key() =~= rec.key());
            ordered::lemma_update_unique(s, i, rec);
        },
        None => {
            assert forall|i: int| 0 <= i < s.len() implies (#[trigger] s[i]).key() != rec.key() by {
                assert(!p(s[i]));
                assert(s[i].key()[0] != rec.key()[0] || s[i].key()[1] != rec.key()[1]);
            }
            ordered::lemma_push_unique(s, rec);
        },
    }
}

impl ConsoleConfig {
    fn store_position(&self, store_id: u64) -> (r: Option<usize>)
        ensures
            match r {
                Some(i) => self@.store_index(store_id) == Some(i as int) && i < self.stores@.len()
                    && self.stores@[i as int].store_id == store_id,
                None => self@.store_index(store_id) is None,
            },
    {
        let accepts = |s: &StoreEntry| -> (b: bool)
            ensures
                b == (s.store_id == store_id)
        { s.store_id == store_id };
        let ghost q = |s: StoreEntry| s.store_id == store_id;
        let r = lists::position(&self.stores, accepts, Ghost(q));
        proof {
            lists::lemma_map_first_index(
                self.stores@,
                |e: StoreEntry| e@,
                q,
                |s: StoreRecord| s.store_id == store_id,
            );
        }
        r
    }

    fn group_position(&self, store_id: u64, group_id: u64) -> (r: Option<usize>)
        ensures
            match r {
                Some(i) => self@.group_index(store_id, group_id) == Some(i as int) && i
                    < self.groups@.len() && self.groups@[i as int].store_id == store_id
                    && self.groups@[i as int].group_id == group_id,
                None => self@.group_index(store_id, group_id) is None,
            },
    {
        let accepts = |g: &GroupEntry| -> (b: bool)
            ensures
                b == (g.store_id == store_id && g.group_id == group_id)
        { g.store_id == store_id && g.group_id == group_id };
        let ghost q = |g: GroupEntry| g.store_id == store_id && g.group_id == group_id;
        let r = lists::position(&self.groups, accepts, Ghost(q));
        proof {
            lists::lemma_map_first_index(
                self.groups@,
                |e: GroupEntry| e@,
                q,
                |g: GroupRecord| g.store_id == store_id && g.group_id == group_id,
            );
        }
        r
    }

    fn sort_stores(&mut self)
        ensures
            ordered::is_stable_sort(old(self)@.stores, final(self)@.stores),
            final(self)@ == (Registry { stores: final(self)@.stores, ..old(self)@ }),
    {
        let mut stores: Vec<StoreEntry> = Vec::new();
        std::mem::swap(&mut stores, &mut self.stores);
        let ghost before = stores@;
        self.stores = stable_sort(stores);
        proof {
            let f = |e: StoreEntry| e@;
            ordered::lemma_map_stable_sort(before, self.stores@, f);
        }
    }

    fn sort_groups(&mut self)
        ensures
            ordered::is_stable_sort(old(self)@.groups, final(self)@.groups),
            final(self)@ == (Registry { groups: final(self)@.groups, ..old(self)@ }),
    {
        let mut groups: Vec<GroupEntry> = Vec::new();
        std::mem::swap(&mut groups, &mut self.groups);
        let ghost before = groups@;
        self.groups = stable_sort(groups);
        proof {
            let f = |e: GroupEntry| e@;
            ordered::lemma_map_stable_sort(before, self.groups@, f);
        }
    }

    /// Puts `nodes` down as the nodes of the store, sorted and each once, and
    /// sorts the stores by id.
    pub fn record_store(&mut self, store_id: u64, nodes: Vec<NodeId>)
        ensures
            exists|ns: Seq<NodeId>| #[trigger]
                ordered::is_collected(nodes@, ns) && ordered::is_stable_sort(
                    with_store(old(self)@.stores, (StoreRecord { store_id, nodes: ns })),
                    final(self)@.stores,
                ),
            final(self)@ == (Registry { stores: final(self)@.stores, ..old(self)@ }),
            old(self)@.well_formed() ==> final(self)@.well_formed(),
    {
        let ghost before = self@;
        let ns = collect_sorted(nodes);
        let ghost rec = StoreRecord { store_id, nodes: ns@ };
        match self.store_position(store_id) {
            Some(i) => {
                self.stores.set(i, StoreEntry { store_id, nodes: ns });
            },
            None => {
                self.stores.push(StoreEntry { store_id, nodes: ns });
            },
        }
        assert(self@.stores =~= with_store(before.stores, rec));
        assert(self@ =~= (Registry { stores: self@.stores, ..before }));
        self.sort_stores();
        proof {
            if before.well_formed() {
                lemma_with_store_unique(before.stores, rec);
                ordered::lemma_stable_sort_unique(with_store(before.stores, rec), self@.stores);
            }
        }
    }

    /// Puts `node_id` down as a node of the store, unless it is.
    pub fn ensure_store_node(&mut self, store_id: u64, node_id: NodeId)
        ensures
            match old(self)@.store_index(store_id) {
                Some(i) => if old(self)@.stores[i].nodes.contains(node_id) {
                    final(self)@.stores == old(self)@.stores
                } else {
                    exists|ns: Seq<NodeId>| #[trigger]
                        ordered::is_stable_sort(old(self)@.stores[i].nodes.push(node_id), ns)
                            && final(self)@.stores == old(self)@.stores.update(
                            i,
                            (StoreRecord { store_id, nodes: ns }),
                        )
                },
                None => ordered::is_stable_sort(
                    old(self)@.stores.push((StoreRecord { store_id, nodes: seq![node_id] })),
                    final(self)@.stores,
                ),
            },
            final(self)@ == (Registry { stores: final(self)@.stores, ..old(self)@ }),
            old(self)@.well_formed() ==> final(self)@.well_formed(),
    {
        let ghost before = self@;
        match self.store_position(store_id) {
            Some(i) => {
                let accepts = |n: &NodeId| -> (b: bool)
                    ensures
                        b == (*n == node_id)
                { *n == node_id };
                let has = lists::position(
                    &self.stores[i].nodes,
                    accepts,
                    Ghost(|n: NodeId| n == node_id),
                );
                proof {
                    assert(before.stores[i as int] == self.stores@[i as int]@);
                    if let Some(j) = has {
                        assert(before.stores[i as int].nodes[j as int] == node_id);
                    }
                }
                if has.is_none() {
                    assert(!before.stores[i as int].nodes.contains(node_id));
                    let mut nodes = self.stores[i].nodes.clone();
                    assert(nodes@ =~= before.stores[i as int].nodes);
                    nodes.push(node_id);
                    let ns = stable_sort(nodes);
                    let ghost rec = StoreRecord { store_id, nodes: ns@ };
                    self.stores.set(i, StoreEntry { store_id, nodes: ns });
                    assert(self@.stores =~= before.stores.update(i as int, rec));
                    proof {
                        lists::lemma_first_index(
                            before.stores,
                            |x: StoreRecord| x.store_id == store_id,
                        );
                        if before.well_formed() {
                            lemma_with_store_unique(before.stores, rec);
                        }
                    }
                }
                assert(self@ =~= (Registry { stores: self@.stores, ..before }));
            },
            None => {
                let mut nodes: Vec<NodeId> = Vec::new();
                nodes.push(node_id);
                let ghost rec = StoreRecord { store_id, nodes: seq![node_id] };
                assert(nodes@ =~= seq![node_id]);
                self.stores.push(StoreEntry { store_id, nodes });
                assert(self@.stores =~= before.stores.push(rec));
                assert(self@ =~= (Registry { stores: self@.stores, ..before }));
                self.sort_stores();
                proof {
                    if before.well_formed() {
                        lemma_with_store_unique(before.stores, rec);
                        ordered::lemma_stable_sort_unique(before.stores.push(rec), self@.stores);
                    }
                }
            },
        }
    }

    /// Forgets the store and its groups.
    pub fn remove_store_record(&mut self, store_id: u64)
        ensures
            final(self)@ == (Registry {
                stores: old(self)@.stores.filter(|s: StoreRecord| s.store_id != store_id),
                groups: old(self)@.groups.filter(|g: GroupRecord| g.store_id != store_id),
                ..old(self)@
            }),
            old(self)@.well_formed() ==> final(self)@.well_formed(),
    {
        let ghost before = self@;
        let ghost stores0 = self.stores@;
        let ghost groups0 = self.groups@;
        let other_store = |s: &StoreEntry| -> (b: bool)
            ensures
                b == (s.store_id != store_id)
        { s.store_id != store_id };
        let ghost qs = |s: StoreEntry| s.store_id != store_id;
        lists::retain(&mut self.stores, other_store, Ghost(qs));
        let other_group = |g: &GroupEntry| -> (b: bool)
            ensures
                b == (g.store_id != store_id)
        { g.store_id != store_id };
        let ghost qg = |g: GroupEntry| g.store_id != store_id;
        lists::retain(&mut self.groups, other_group, Ghost(qg));
        proof {
            let ps = |s: StoreRecord| s.store_id != store_id;
            let pg = |g: GroupRecord| g.store_id != store_id;
            lists::lemma_map_filter(stores0, |e: StoreEntry| e@, qs, ps);
            lists::lemma_map_filter(groups0, |e: GroupEntry| e@, qg, pg);
            assert(self@ =~= (Registry {
                stores: before.stores.filter(ps),
                groups: before.groups.filter(pg),
                ..before
            }));
            if before.well_formed() {
                ordered::lemma_filter_unique(before.stores, ps);
                ordered::lemma_filter_unique(before.groups, pg);
            }
        }
    }

    /// Puts `replicas` down as the replicas of the group, sorted by id, and
    /// sorts the groups.
    pub fn record_group(&mut self, store_id: u64, group_id: u64, replicas: Vec<ReplicaEntry>)
        ensures
            exists|rs: Seq<ReplicaEntry>| #[trigger]
                ordered::is_stable_sort(replicas@, rs) && ordered::is_stable_sort(
                    with_group(
                        old(self)@.groups,
                        (GroupRecord { store_id, group_id, replicas: rs }),
                    ),
                    final(self)@.groups,
                ),
            final(self)@ == (Registry { groups: final(self)@.groups, ..old(self)@ }),
            old(self)@.well_formed() ==> final(self)@.well_formed(),
    {
        let ghost before = self@;
        let rs = stable_sort(replicas);
        let ghost rec = GroupRecord { store_id, group_id, replicas: rs@ };
        match self.group_position(store_id, group_id) {
            Some(i) => {
                self.groups.set(i, GroupEntry { store_id, group_id, replicas: rs });
            },
            None => {
                self.groups.push(GroupEntry { store_id, group_id, replicas: rs });
            },
        }
        assert(self@.groups =~= with_group(before.groups, rec));
        assert(self@ =~= (Registry { groups: self@.groups, ..before }));
        self.sort_groups();
        proof {
            if before.well_formed() {
                lemma_with_group_unique(before.groups, rec);
                ordered::lemma_stable_sort_unique(with_group(before.groups, rec), self@.groups);
            }
        }
    }

    /// Forgets the group.
    pub fn remove_group_record(&mut self, store_id: u64, group_id: u64)
        ensures
            final(self)@ == (Registry {
                groups: old(self)@.groups.filter(
                    |g: GroupRecord| !(g.store_id == store_id && g.group_id == group_id),
                ),
                ..old(self)@
            }),
            old(self)@.well_formed() ==> final(self)@.well_formed(),
    {
        let ghost before = self@;
        let ghost groups0 = self.groups@;
        let other = |g: &GroupEntry| -> (b: bool)
            ensures
                b == !(g.store_id == store_id && g.group_id == group_id)
        { !(g.store_id == store_id && g.group_id == group_id) };
        let ghost q = |g: GroupEntry| !(g.store_id == store_id && g.group_id == group_id);
        lists::retain(&mut self.groups, other, Ghost(q));
        proof {
            let p = |g: GroupRecord| !(g.store_id == store_id && g.group_id == group_id);
            lists::lemma_map_filter(groups0, |e: GroupEntry| e@, q, p);
            assert(self@ =~= (Registry { groups: before.groups.filter(p), ..before }));
            if before.well_formed() {
                ordered::lemma_filter_unique(before.groups, p);
            }
        }
    }

    /// Adds a replica to the group, or replaces the one with its id; a group
    /// that is not recorded is put down with this one replica.
    pub fn add_group_replica(&mut self, store_id: u64, group_id: u64, replica: ReplicaEntry)
        ensures
            match old(self)@.group_index(store_id, group_id) {
                Some(i) => exists|rs: Seq<ReplicaEntry>| #[trigger]
                    replica_added(old(self)@.groups[i].replicas, replica, rs)
                        && final(self)@.groups == old(self)@.groups.update(
                        i,
                        (GroupRecord { store_id, group_id, replicas: rs }),
                    ),
                None => ordered::is_stable_sort(
                    old(self)@.groups.push(
                        (GroupRecord { store_id, group_id, replicas: seq![replica] }),
                    ),
                    final(self)@.groups,
                ),
            },
            final(self)@ == (Registry { groups: final(self)@.groups, ..old(self)@ }),
            old(self)@.well_formed() ==> final(self)@.well_formed(),
    {
        let ghost before = self@;
        match self.group_position(store_id, group_id) {
            Some(i) => {
                assert(before.groups[i as int] == self.groups@[i as int]@);
                let mut replicas = self.groups[i].replicas.clone();
                assert(replicas@ =~= before.groups[i as int].replicas);
                let accepts = |r: &ReplicaEntry| -> (b: bool)
                    ensures
                        b == (r.replica_id == replica.replica_id)
                { r.replica_id == replica.replica_id };
                let has = lists::position(
                    &replicas,
                    accepts,
                    Ghost(|r: ReplicaEntry| r.replica_id == replica.replica_id),
                );
                match has {
                    Some(j) => {
                        replicas.set(j, replica);
                    },
                    None => {
                        replicas.push(replica);
                        replicas = stable_sort(replicas);
                    },
                }
                assert(replica_added(before.groups[i as int].replicas, replica, replicas@));
                let ghost rec = GroupRecord { store_id, group_id, replicas: replicas@ };
                self.groups.set(i, GroupEntry { store_id, group_id, replicas });
                assert(self@.groups =~= before.groups.update(i as int, rec));
                assert(self@ =~= (Registry { groups: self@.groups, ..before }));
                proof {
                    if before.well_formed() {
                        lemma_with_group_unique(before.groups, rec);
                    }
                }
            },
            None => {
                let mut replicas: Vec<ReplicaEntry> = Vec::new();
                replicas.push(replica);
                let ghost rec = GroupRecord { store_id, group_id, replicas: seq![replica] };
                assert(replicas@ =~= seq![replica]);
                self.groups.push(GroupEntry { store_id, group_id, replicas });
                assert(self@.groups =~= before.groups.push(rec));
                assert(self@ =~= (Registry { groups: self@.groups, ..before }));
                self.sort_groups();
                proof {
                    if before.well_formed() {
                        lemma_with_group_unique(before.groups, rec);
                        ordered::lemma_stable_sort_unique(before.groups.push(rec), self@.groups);
                    }
                }
            },
        }
    }

    /// Removes a replica from the group, and the group with its last replica.
    pub fn remove_group_replica(&mut self, store_id: u64, group_id: u64, replica_id: u64)
        ensures
            final(self)@ == (Registry {
                groups: (match old(self)@.group_index(store_id, group_id) {
                    Some(i) => old(self)@.groups.update(
                        i,
                        (GroupRecord {
                            replicas: old(self)@.groups[i].replicas.filter(
                                |r: ReplicaEntry| r.replica_id != replica_id,
                            ),
                            ..old(self)@.groups[i]
                        }),
                    ),
                    None => old(self)@.groups,
                }).filter(
                    |g: GroupRecord|
                        !(g.store_id == store_id && g.group_id == group_id && g.replicas.len() == 0),
                ),
                ..old(self)@
            }),
            old(self)@.well_formed() ==> final(self)@.well_formed(),
    {
        let ghost before = self@;
        let ghost mut middle = self@.groups;
        match self.group_position(store_id, group_id) {
            Some(i) => {
                assert(before.groups[i as int] == self.groups@[i as int]@);
                let mut replicas = self.groups[i].replicas.clone();
                assert(replicas@ =~= before.groups[i as int].replicas);
                let other = |r: &ReplicaEntry| -> (b: bool)
                    ensures
                        b == (r.replica_id != replica_id)
                { r.replica_id != replica_id };
                lists::retain(
                    &mut replicas,
                    other,
                    Ghost(|r: ReplicaEntry| r.replica_id != replica_id),
                );
                self.groups.set(i, GroupEntry { store_id, group_id, replicas });
                proof {
                    let rec = GroupRecord { replicas: replicas@, ..before.groups[i as int] };
                    middle = before.groups.update(i as int, rec);
                    assert(self@.groups =~= middle);
                    if before.well_formed() {
                        ordered::lemma_update_unique(before.groups, i as int, rec);
                    }
                }
            },
            None => {},
        }
        let ghost groups0 = self.groups@;
        let filled = |g: &GroupEntry| -> (b: bool)
            ensures
                b == !(g.store_id == store_id && g.group_id == group_id && g.replicas@.len() == 0)
        { !(g.store_id == store_id && g.group_id == group_id && g.replicas.len() == 0) };
        let ghost q = |g: GroupEntry|
            !(g.store_id == store_id && g.group_id == group_id && g.replicas@.len() == 0);
        lists::retain(&mut self.groups, filled, Ghost(q));
        proof {
            let p = |g: GroupRecord|
                !(g.store_id == store_id && g.group_id == group_id && g.replicas.len() == 0);
            lists::lemma_map_filter(groups0, |e: GroupEntry| e@, q, p);
            assert(self@ =~= (Registry { groups: middle.filter(p), ..before }));
            if before.well_formed() {
                ordered::lemma_filter_unique(middle, p);
            }
        }
    }

    /// The record of the group.
    pub fn group(&self, store_id: u64, group_id: u64) -> (r: Option<&GroupEntry>)
        ensures
            match self@.group_index(store_id, group_id) {
                Some(i) => r == Some(&self.groups@[i]) && (r matches Some(g) && g@
                    == self@.groups[i]),
                None => r is None,
            },
    {
        match self.group_position(store_id, group_id) {
            Some(i) => Some(&self.groups[i]),
            None => None,
        }
    }

    /// Takes node `node_id` out of every store and group, and forgets those
    /// that have no node left.
    pub fn purge_node_topology(&mut self, node_id: NodeId)
        ensures
            final(self)@ == without_node(old(self)@, node_id),
            old(self)@.well_formed() ==> final(self)@.well_formed(),
    {
        let ghost before = self@;
        let ghost fs = |s: StoreRecord| store_without_node(s, node_id);
        let ghost ps = |s: StoreRecord| s.nodes.len() > 0;
        let ghost fg = |g: GroupRecord| group_without_node(g, node_id);
        let ghost pg = |g: GroupRecord| g.replicas.len() > 0;
        let mut stores: Vec<StoreEntry> = Vec::new();
        let mut i: usize = 0;
        proof {
            reveal(Seq::filter);
            assert(config::store_records(stores@) =~= before.stores.take(0).map_values(fs).filter(
                ps,
            ));
        }
        while i < self.stores.len()
            invariant
                before == self@,
                i <= self.stores@.len(),
                fs == |s: StoreRecord| store_without_node(s, node_id),
                ps == |s: StoreRecord| s.nodes.len() > 0,
                config::store_records(stores@) == before.stores.take(i as int).map_values(
                    fs,
                ).filter(ps),
            decreases self.stores@.len() - i,
        {
            let mut nodes = self.stores[i].nodes.clone();
            assert(nodes@ =~= before.stores[i as int].nodes);
            let other = |n: &NodeId| -> (b: bool)
                ensures
                    b == (*n != node_id)
            { *n != node_id };
            lists::retain(&mut nodes, other, Ghost(other_than(node_id)));
            let entry = StoreEntry { store_id: self.stores[i].store_id, nodes };
            proof {
                let t = before.stores.take(i as int);
                assert(entry@ == fs(before.stores[i as int]));
                assert(before.stores.take(i + 1).map_values(fs) =~= t.map_values(fs).push(
                    entry@,
                ));
                t.map_values(fs).lemma_filter_push(entry@, ps);
                assert(config::store_records(stores@.push(entry)) =~= config::store_records(
                    stores@,
                ).push(entry@));
            }
            if entry.nodes.len() > 0 {
                stores.push(entry);
            }
            i = i + 1;
        }
        assert(before.stores.take(i as int) =~= before.stores);
        self.stores = stores;
        let mut groups: Vec<GroupEntry> = Vec::new();
        let mut j: usize = 0;
        proof {
            reveal(Seq::filter);
            assert(config::group_records(groups@) =~= before.groups.take(0).map_values(fg).filter(
                pg,
            ));
        }
        while j < self.groups.len()
            invariant
                before.groups == self@.groups,
                j <= self.groups@.len(),
                fg == |g: GroupRecord| group_without_node(g, node_id),
                pg == |g: GroupRecord| g.replicas.len() > 0,
                config::group_records(groups@) == before.groups.take(j as int).map_values(
                    fg,
                ).filter(pg),
            decreases self.groups@.len() - j,
        {
            let mut replicas = self.groups[j].replicas.clone();
            assert(replicas@ =~= before.groups[j as int].replicas);
            let other = |r: &ReplicaEntry| -> (b: bool)
                ensures
                    b == (r.node_id != node_id)
            { r.node_id != node_id };
            lists::retain(&mut replicas, other, Ghost(|r: ReplicaEntry| r.node_id != node_id));
            let entry = GroupEntry {
                store_id: self.groups[j].store_id,
                group_id: self.groups[j].group_id,
                replicas,
            };
            proof {
                let t = before.groups.take(j as int);
                assert(entry@ == fg(before.groups[j as int]));
                assert(before.groups.take(j + 1).map_values(fg) =~= t.map_values(fg).push(
                    entry@,
                ));
                t.map_values(fg).lemma_filter_push(entry@, pg);
                assert(config::group_records(groups@.push(entry)) =~= config::group_records(
                    groups@,
                ).push(entry@));
            }
            if entry.replicas.len() > 0 {
                groups.push(entry);
            }
            j = j + 1;
        }
        assert(before.groups.take(j as int) =~= before.groups);
        self.groups = groups;
        proof {
            assert(self@ =~= (Registry {
                stores: before.stores.map_values(fs).filter(ps),
                groups: before.groups.map_values(fg).filter(pg),
                ..before
            }));
            if before.well_formed() {
                let ms = before.stores.map_values(fs);
                assert forall|a: int, b: int| 0 <= a < b < ms.len() implies #[trigger] ms[a].key()
                    != #[trigger] ms[b].key() by {
                    assert(ms[a].key() =~= before.stores[a].key());
                    assert(ms[b].key() =~= before.stores[b].key());
                }
                ordered::lemma_filter_unique(ms, ps);
                let mg = before.groups.map_values(fg);
                assert forall|a: int, b: int| 0 <= a < b < mg.len() implies #[trigger] mg[a].key()
                    != #[trigger] mg[b].key() by {
                    assert(mg[a].key() =~= before.groups[a].key());
                    assert(mg[b].key() =~= before.groups[b].key());
                }
                ordered::lemma_filter_unique(mg, pg);
            }
        }
    }
}

/// A group that was recorded is found as it was recorded, and all other groups
/// are there just where they were before.
pub proof fn lemma_recorded_group_found(r: Registry, rec: GroupRecord, after: Registry)
    requires
        ordered::unique_keys(r.groups),
        ordered::is_stable_sort(with_group(r.groups, rec), after.groups),
    ensures
        after.group_index(rec.store_id, rec.group_id) matches Some(i) && after.groups[i] == rec,
        forall|g: GroupRecord|
            g.store_id != rec.store_id || g.group_id != rec.group_id ==> #[trigger] after.groups.contains(
                g,
            ) == r.groups.contains(g),
{
    let p = |x: GroupRecord| x.store_id == rec.store_id && x.group_id == rec.group_id;
    let with = with_group(r.groups, rec);
    lists::lemma_first_index(r.groups, p);
    lemma_with_group_unique(r.groups, rec);
    ordered::lemma_stable_sort_entries(with, after.groups);
    ordered::lemma_strictly_sorted_unique(after.groups);
    let at = match lists::first_index(r.groups, p) {
        Some(i) => i,
        None => r.groups.len() as int,
    };
    assert(with[at] == rec);
    assert(with.contains(rec));
    let m = choose|m: int| 0 <= m < after.groups.len() && after.groups[m] == rec;
    lists::lemma_first_index(after.groups, p);
    assert(p(after.groups[m]));
    let i = lists::first_index(after.groups, p)->0;
    assert(after.groups[i].key() =~= after.groups[m].key());
    assert forall|g: GroupRecord|
        g.store_id != rec.store_id || g.group_id != rec.group_id implies #[trigger] after.groups.contains(
        g,
    ) == r.groups.contains(g) by {
        if r.groups.contains(g) {
            let j = choose|j: int| 0 <= j < r.groups.len() && r.groups[j] == g;
            assert(with[j] == g);
        }
        if with.contains(g) {
            let j = choose|j: int| 0 <= j < with.len() && with[j] == g;
            assert(r.groups[j] == g);
        }
    }
}

/// A store that was recorded is found as it was recorded, and all other stores
/// are there just where they were before.
pub proof fn lemma_recorded_store_found(r: Registry, rec: StoreRecord, after: Registry)
    requires
        ordered::unique_keys(r.stores),
        ordered::is_stable_sort(with_store(r.stores, rec), after.stores),
    ensures
        after.store_index(rec.store_id) matches Some(i) && after.stores[i] == rec,
        forall|s: StoreRecord|
            s.store_id != rec.store_id ==> #[trigger] after.stores.contains(s)
                == r.stores.contains(s),
{
    let p = |x: StoreRecord| x.store_id == rec.store_id;
    let with = with_store(r.stores, rec);
    lists::lemma_first_index(r.stores, p);
    lemma_with_store_unique(r.stores, rec);
    ordered::lemma_stable_sort_entries(with, after.stores);
    ordered::lemma_strictly_sorted_unique(after.stores);
    let at = match lists::first_index(r.stores, p) {
        Some(i) => i,
        None => r.stores.len() as int,
    };
    assert(with[at] == rec);
    assert(with.contains(rec));
    let m = choose|m: int| 0 <= m < after.stores.len() && after.stores[m] == rec;
    lists::lemma_first_index(after.stores, p);
    assert(p(after.stores[m]));
    let i = lists::first_index(after.stores, p)->0;
    assert(after.stores[i].key() =~= after.stores[m].key());
    assert forall|s: StoreRecord| s.store_id != rec.store_id implies #[trigger] after.stores.contains(
        s,
    ) == r.stores.contains(s) by {
        if r.stores.contains(s) {
            let j = choose|j: int| 0 <= j < r.stores.len() && r.stores[j] == s;
            assert(with[j] == s);
        }
        if with.contains(s) {
            let j = choose|j: int| 0 <= j < with.len() && with[j] == s;
            assert(r.stores[j] == s);
        }
    }
}

/// The registry without a node in its stores and groups.
pub open spec fn without_node(r: Registry, node_id: NodeId) -> Registry {
    Registry {
        stores: r.stores.map_values(|s: StoreRecord| store_without_node(s, node_id)).filter(
            |s: StoreRecord| s.nodes.len() > 0,
        ),
        groups: r.groups.map_values(|g: GroupRecord| group_without_node(g, node_id)).filter(
            |g: GroupRecord| g.replicas.len() > 0,
        ),
        ..r
    }
}

/// Once a node was purged, no store lists it, no group has a replica on it,
/// and no store or group is empty.
pub proof fn lemma_purged_everywhere(r: Registry, node_id: NodeId)
    ensures
        forall|i: int|
            0 <= i < without_node(r, node_id).stores.len() ==> {
                let s = #[trigger] without_node(r, node_id).stores[i];
                s.nodes.len() > 0 && !s.nodes.contains(node_id)
            },
        forall|i: int, j: int|
            #![trigger without_node(r, node_id).groups[i].replicas[j]]
            0 <= i < without_node(r, node_id).groups.len() && 0 <= j < without_node(
                r,
                node_id,
            ).groups[i].replicas.len() ==> without_node(r, node_id).groups[i].replicas[j].node_id
                != node_id,
        forall|i: int|
            0 <= i < without_node(r, node_id).groups.len() ==> (#[trigger] without_node(
                r,
                node_id,
            ).groups[i]).replicas.len() > 0,
{
    let after = without_node(r, node_id);
    let f = |s: StoreRecord| store_without_node(s, node_id);
    let p = |s: StoreRecord| s.nodes.len() > 0;
    let stores = r.stores.map_values(f);
    assert forall|i: int| 0 <= i < after.stores.len() implies {
        let s = #[trigger] after.stores[i];
        s.nodes.len() > 0 && !s.nodes.contains(node_id)
    } by {
        stores.lemma_filter_pred(p, i);
        stores.lemma_filter_contains_rev(p, after.stores[i]);
        let m = choose|m: int| 0 <= m < stores.len() && stores[m] == after.stores[i];
        let nodes = r.stores[m].nodes;
        assert(stores[m].nodes == nodes.filter(other_than(node_id)));
        if stores[m].nodes.contains(node_id) {
            let k = choose|k: int|
                0 <= k < stores[m].nodes.len() && stores[m].nodes[k] == node_id;
            nodes.lemma_filter_pred(other_than(node_id), k);
        }
    }
    let g = |g: GroupRecord| group_without_node(g, node_id);
    let q = |g: GroupRecord| g.replicas.len() > 0;
    let elsewhere = |x: ReplicaEntry| x.node_id != node_id;
    let groups = r.groups.map_values(g);
    assert forall|i: int| 0 <= i < after.groups.len() implies (#[trigger] after.groups[i]).replicas.len()
        > 0 by {
        groups.lemma_filter_pred(q, i);
    }
    assert forall|i: int, j: int|
        #![trigger after.groups[i].replicas[j]]
        0 <= i < after.groups.len() && 0 <= j < after.groups[i].replicas.len() implies after.groups[i].replicas[j].node_id
        != node_id by {
        groups.lemma_filter_contains_rev(q, after.groups[i]);
        let m = choose|m: int| 0 <= m < groups.len() && groups[m] == after.groups[i];
        assert(groups[m].replicas =~= r.groups[m].replicas.filter(elsewhere));
        r.groups[m].replicas.lemma_filter_pred(elsewhere, j);
    }
}

/// Recording a store puts it in the place of the one with its id, or behind all
/// others; those stay as they are.
pub proof fn lemma_store_takes_place(s: Seq<StoreRecord>, rec: StoreRecord, i: int)
    ensures
        (forall|j: int| 0 <= j < s.len() ==> (#[trigger] s[j]).store_id != rec.store_id)
            ==> with_store(s, rec) == s.push(rec),
        0 <= i < s.len() && s[i].store_id == rec.store_id && (forall|j: int|
            0 <= j < i ==> (#[trigger] s[j]).store_id != rec.store_id) ==> with_store(s, rec)
            == s.update(i, rec),
{
    let p = |x: StoreRecord| x.store_id == rec.store_id;
    lists::lemma_first_index(s, p);
    match lists::first_index(s, p) {
        Some(k) => {
            assert(p(s[k]));
            if 0 <= i < k {
                assert(!p(s[i]));
            }
        },
        None => {
            if 0 <= i < s.len() {
                assert(!p(s[i]));
            }
        },
    }
}

/// Recording a group puts it in the place of the one with its ids, or behind all
/// others; those stay as they are.
pub proof fn lemma_group_takes_place(s: Seq<GroupRecord>, rec: GroupRecord, i: int)
    ensures
        (forall|j: int|
            0 <= j < s.len() ==> (#[trigger] s[j]).store_id != rec.store_id || s[j].group_id
                != rec.group_id) ==> with_group(s, rec) == s.push(rec),
        0 <= i < s.len() && s[i].store_id == rec.store_id && s[i].group_id == rec.group_id && (
        forall|j: int|
            0 <= j < i ==> (#[trigger] s[j]).store_id != rec.store_id || s[j].group_id
                != rec.group_id) ==> with_group(s, rec) == s.update(i, rec),
{
    let p = |x: GroupRecord| x.store_id == rec.store_id && x.group_id == rec.group_id;
    lists::lemma_first_index(s, p);
    match lists::first_index(s, p) {
        Some(k) => {
            assert(p(s[k]));
            if 0 <= i < k {
                assert(!p(s[i]));
            }
        },
        None => {
            if 0 <= i < s.len() {
                assert(!p(s[i]));
            }
        },
    }
}

/// Adding a replica replaces the one with its id; a new one is added to those
/// that were there.
pub proof fn lemma_replica_takes_place(
    s: Seq<ReplicaEntry>,
    r: ReplicaEntry,
    t: Seq<ReplicaEntry>,
)
    requires
        replica_added(s, r, t),
    ensures
        t.contains(r),
        forall|i: int|
            0 <= i < s.len() && s[i].replica_id != r.replica_id ==> t.contains(#[trigger] s[i]),
        (forall|j: int| 0 <= j < s.len() ==> (#[trigger] s[j]).replica_id != r.replica_id)
            ==> t.len() == s.len() + 1,
        (exists|j: int| 0 <= j < s.len() && (#[trigger] s[j]).replica_id == r.replica_id)
            ==> t.len() == s.len(),
{
    let p = |x: ReplicaEntry| x.replica_id == r.replica_id;
    lists::lemma_first_index(s, p);
    match lists::first_index(s, p) {
        Some(k) => {
            assert(p(s[k]));
            assert(t[k] == r);
            assert forall|i: int| 0 <= i < s.len() && s[i].replica_id != r.replica_id implies t.contains(
                #[trigger] s[i],
            ) by {
                assert(t[i] == s[i]);
            }
        },
        None => {
            let all = s.push(r);
            ordered::lemma_stable_sort_entries(all, t);
            ordered::lemma_stable_sort_len(all, t);
            assert(all[s.len() as int] == r);
            assert(all.contains(r));
            assert forall|i: int| 0 <= i < s.len() && s[i].replica_id != r.replica_id implies t.contains(
                #[trigger] s[i],
            ) by {
                assert(all[i] == s[i]);
                assert(all.contains(s[i]));
            }
            assert forall|j: int| 0 <= j < s.len() implies (#[trigger] s[j]).replica_id
                != r.replica_id by {
                assert(!p(s[j]));
            }
        },
    }
}

/// Purging a node takes it out of a store and its replicas out of a group; all
/// other nodes and replicas stay.
pub proof fn lemma_purge_keeps_others(
    s: StoreRecord,
    g: GroupRecord,
    node_id: NodeId,
    other: NodeId,
    replica: ReplicaEntry,
)
    ensures
        store_without_node(s, node_id).store_id == s.store_id,
        store_without_node(s, node_id).nodes.contains(other) <==> s.nodes.contains(other) && other
            != node_id,
        group_without_node(g, node_id).store_id == g.store_id,
        group_without_node(g, node_id).group_id == g.group_id,
        group_without_node(g, node_id).replicas.contains(replica) <==> g.replicas.contains(replica)
            && replica.node_id != node_id,
        other_than(node_id)(other) <==> other != node_id,
{
    broadcast use vstd::seq_lib::group_filter_ensures;

    let p = other_than(node_id);
    let q = |r: ReplicaEntry| r.node_id != node_id;
    let a = s.nodes.filter(p);
    let b = g.replicas.filter(q);
    if a.contains(other) {
        let k = choose|k: int| 0 <= k < a.len() && a[k] == other;
        assert(p(a[k]));
        s.nodes.lemma_filter_contains_rev(p, other);
    }
    if b.contains(replica) {
        let k = choose|k: int| 0 <= k < b.len() && b[k] == replica;
        assert(q(b[k]));
        g.replicas.lemma_filter_contains_rev(q, replica);
    }
    if s.nodes.contains(other) && other != node_id {
        assert(p(other));
        let k = choose|k: int| 0 <= k < s.nodes.len() && s.nodes[k] == other;
        assert(a.contains(s.nodes[k]));
    }
    if g.replicas.contains(replica) && replica.node_id != node_id {
        assert(q(replica));
        let k = choose|k: int| 0 <= k < g.replicas.len() && g.replicas[k] == replica;
        assert(b.contains(g.replicas[k]));
    }
}

/// Purging a node leaves everything but stores and groups, and keeps those that
/// have something left on other nodes.
pub proof fn lemma_purge_keeps_nonempty(r: Registry, node_id: NodeId, i: int)
    ensures
        without_node(r, node_id).racks == r.racks,
        without_node(r, node_id).nodes == r.nodes,
        without_node(r, node_id).servers == r.servers,
        without_node(r, node_id).disk_groups == r.disk_groups,
        without_node(r, node_id).disks == r.disks,
        0 <= i < r.stores.len() && store_without_node(r.stores[i], node_id).nodes.len() > 0
            ==> without_node(r, node_id).stores.contains(store_without_node(r.stores[i], node_id)),
        0 <= i < r.groups.len() && group_without_node(r.groups[i], node_id).replicas.len() > 0
            ==> without_node(r, node_id).groups.contains(group_without_node(r.groups[i], node_id)),
{
    broadcast use vstd::seq_lib::group_filter_ensures;

    let f = |s: StoreRecord| store_without_node(s, node_id);
    let h = |g: GroupRecord| group_without_node(g, node_id);
    let p = |s: StoreRecord| s.nodes.len() > 0;
    let q = |g: GroupRecord| g.replicas.len() > 0;
    let ss = r.stores.map_values(f);
    let gs = r.groups.map_values(h);
    if 0 <= i < r.stores.len() && store_without_node(r.stores[i], node_id).nodes.len() > 0 {
        assert(ss[i] == store_without_node(r.stores[i], node_id));
        assert(p(ss[i]));
        assert(ss.filter(p).contains(ss[i]));
    }
    if 0 <= i < r.groups.len() && group_without_node(r.groups[i], node_id).replicas.len() > 0 {
        assert(gs[i] == group_without_node(r.groups[i], node_id));
        assert(q(gs[i]));
        assert(gs.filter(q).contains(gs[i]));
    }
}

} // verus!
